//! Route extraction from OpenAPI path templates and operation ids.

use neutrino::openapi::{convert_openapi_path_to_axum, extract_handler_name};

#[test]
fn test_convert_openapi_path_to_axum() {
    assert_eq!(
        convert_openapi_path_to_axum("/users/{user_id}"),
        "/users/:user_id"
    );
    assert_eq!(
        convert_openapi_path_to_axum("/api/v1/items/{item_id}/details/{detail_id}"),
        "/api/v1/items/:item_id/details/:detail_id"
    );
    assert_eq!(convert_openapi_path_to_axum("/health"), "/health");
}

#[test]
fn test_extract_handler_name() {
    assert_eq!(extract_handler_name("get_list_users"), "list_users");
    assert_eq!(extract_handler_name("post_create_user"), "create_user");
    assert_eq!(extract_handler_name("custom_handler"), "custom_handler");
}
