//! The smaller supporting pieces: worker identities and environment values,
//! configuration defaults, status-text parsing, proxy bookkeeping, reply
//! interpretation, error mapping, and supervisor decisions.

use neutrino::asgi::{asgi_target_base, readiness_decision, shutdown_decision, ProbeDecision,
    ShutdownDecision};
use neutrino::config::{AsgiConfig, AsgiMode};
use neutrino::config::Config;
use neutrino::dispatch::interpret_result;
use neutrino::errors::{AppError, ProxyError};
use neutrino::gateway::{backoff_delay_ms, extract_function_name, should_retry, truncate_body,
    LogEntry};
use neutrino::ids::{cuda_devices_value, make_worker_id, socket_path_for, u64_to_string};
use neutrino::memory::{parse_vm_rss_mb, MemoryError};
use neutrino::protocol::{Message, Value};

#[test]
fn test_worker_id_and_socket_path() {
    let id = make_worker_id(&"gpu".to_owned(), 0);
    assert_eq!(id, "gpu-0");
    assert_eq!(make_worker_id(&"default".to_owned(), 12), "default-12");
    assert_eq!(socket_path_for(&id), "/tmp/neutrino-gpu-0.sock");
    assert_eq!(u64_to_string(0), "0");
    assert_eq!(u64_to_string(90210), "90210");
}

#[test]
fn test_cuda_devices_value() {
    // Assigned devices become a comma list.
    assert_eq!(cuda_devices_value(&vec![0, 1], 1000).unwrap(), "0,1");
    assert_eq!(cuda_devices_value(&vec![3], 1000).unwrap(), "3");
    // A CPU-only worker has every device hidden.
    assert_eq!(cuda_devices_value(&vec![], 0).unwrap(), "");
    // A GPU worker with no device list leaves the variable untouched.
    assert!(cuda_devices_value(&vec![], 1000).is_none());
}

#[test]
fn test_config_defaults() {
    let config = Config::default();
    assert_eq!(config.orchestrator.worker.max_tasks_per_worker, 1000);
    assert_eq!(config.orchestrator.worker.max_memory_mb, 4096);
    assert_eq!(config.orchestrator.worker.max_lifetime_secs, 3600);
    assert_eq!(config.orchestrator.worker.memory_check_interval_secs, 30);
    assert_eq!(config.orchestrator.http.port, 8080);
    assert_eq!(config.effective_worker_count(), 4);

    // With no pools configured, a single default pool stands in.
    let pools = config.effective_worker_pools();
    assert_eq!(pools.len(), 1);
    assert_eq!(pools[0].name, "default");
    assert_eq!(pools[0].count, 4);
    assert_eq!(pools[0].resources.num_cpus, 1000);
    assert_eq!(pools[0].resources.memory_gb, 4000);
}

#[test]
fn test_parse_vm_rss() {
    let text = b"Name:\tworker\nVmHWM:\t  200000 kB\nVmRSS:\t  123456 kB\nThreads:\t4\n".to_vec();
    assert_eq!(parse_vm_rss_mb(&text), Ok(120));

    let absent = b"Name:\tworker\nThreads:\t4\n".to_vec();
    assert_eq!(parse_vm_rss_mb(&absent), Err(MemoryError::NotFound));

    let malformed = b"VmRSS: notanumber kB\n".to_vec();
    assert_eq!(parse_vm_rss_mb(&malformed), Err(MemoryError::MalformedValue));

    let missing_field = b"VmRSS:\n".to_vec();
    assert_eq!(parse_vm_rss_mb(&missing_field), Err(MemoryError::MalformedValue));
}

#[test]
fn test_extract_function_name() {
    assert_eq!(extract_function_name("/api/function_name"), "function_name");
    assert_eq!(extract_function_name("/run"), "run");
    assert_eq!(extract_function_name("plain"), "plain");
    assert_eq!(extract_function_name("/a/b/"), "");
}

#[test]
fn test_truncate_body() {
    assert_eq!(truncate_body("short", 10), "short");
    assert_eq!(truncate_body("abcdefghij", 4), "abcd... (truncated)");
    assert_eq!(truncate_body("", 0), "");
}

#[test]
fn test_log_entry_status_mapping() {
    let ok = LogEntry::response_logged(
        "id-1".to_owned(),
        "f".to_owned(),
        "POST".to_owned(),
        "/api/f".to_owned(),
        "2024-01-01T00:00:00Z".to_owned(),
        "2024-01-01T00:00:01Z".to_owned(),
        1000,
        204,
        "req",
        "resp",
    );
    assert_eq!(ok.status, "completed");
    assert!(ok.error.is_none());

    let bad = LogEntry::response_logged(
        "id-2".to_owned(),
        "f".to_owned(),
        "POST".to_owned(),
        "/api/f".to_owned(),
        "2024-01-01T00:00:00Z".to_owned(),
        "2024-01-01T00:00:01Z".to_owned(),
        1000,
        503,
        "req",
        "resp",
    );
    assert_eq!(bad.status, "failed");
    assert_eq!(bad.error.as_deref(), Some("HTTP 503"));

    let started = LogEntry::started(
        "id-3".to_owned(),
        "f".to_owned(),
        "GET".to_owned(),
        "/api/f".to_owned(),
        "2024-01-01T00:00:00Z".to_owned(),
        "",
    );
    assert_eq!(started.status, "started");
    assert!(started.status_code.is_none());
}

#[test]
fn test_write_retry_policy() {
    assert!(should_retry(0));
    assert!(should_retry(1));
    assert!(!should_retry(2));
    assert_eq!(backoff_delay_ms(0), 100);
    assert_eq!(backoff_delay_ms(1), 200);
    assert_eq!(backoff_delay_ms(2), 400);
}

#[test]
fn test_interpret_result() {
    let ok = interpret_result(
        Message::TaskResult {
            task_id: "t".to_owned(),
            success: true,
            result: Value::Int(7),
        },
        "default-0".to_owned(),
        12,
    )
    .unwrap();
    assert!(ok.success);
    assert!(ok.result.is_some());
    assert!(ok.error.is_none());
    assert_eq!(ok.worker_id.as_deref(), Some("default-0"));
    assert_eq!(ok.execution_time_ms, Some(12));

    let failed = interpret_result(
        Message::TaskResult {
            task_id: "t".to_owned(),
            success: false,
            result: Value::Str("boom".to_owned()),
        },
        "default-0".to_owned(),
        12,
    )
    .unwrap();
    assert!(!failed.success);
    assert!(failed.result.is_none());
    assert!(failed.error.is_some());

    // Any other reply variant is a protocol fault.
    let unexpected = interpret_result(
        Message::Heartbeat { worker_id: "default-0".to_owned() },
        "default-0".to_owned(),
        12,
    );
    assert!(matches!(unexpected, Err(AppError::UnexpectedResponse)));
}

#[test]
fn test_error_status_codes() {
    assert_eq!(AppError::NoWorkersAvailable.status_and_message().0, 503);
    let (code, message) = AppError::InsufficientResources("cpus".to_owned()).status_and_message();
    assert_eq!(code, 503);
    assert_eq!(message, "Insufficient resources: cpus");
    assert_eq!(AppError::RouteNotFound("/x".to_owned()).status_and_message().0, 404);
    assert_eq!(AppError::SerializationError("e".to_owned()).status_and_message().0, 400);
    assert_eq!(AppError::WorkerCommunicationError("e".to_owned()).status_and_message().0, 500);
    assert_eq!(AppError::ProxyError("e".to_owned()).status_and_message().0, 502);

    assert_eq!(ProxyError::BodyReadError("e".to_owned()).status_and_message().0, 400);
    assert_eq!(ProxyError::BackendError("e".to_owned()).status_and_message().0, 502);
    let (code, message) = ProxyError::ResponseBuildError("oops".to_owned()).status_and_message();
    assert_eq!(code, 500);
    assert_eq!(message, "Failed to build response: oops");
}

#[test]
fn test_supervisor_decisions() {
    // A worker that never answers within the budget fails cleanly.
    assert_eq!(readiness_decision(1, true), ProbeDecision::Ready);
    assert_eq!(readiness_decision(1, false), ProbeDecision::RetryAfterMs(500));
    assert_eq!(readiness_decision(29, false), ProbeDecision::RetryAfterMs(500));
    assert_eq!(readiness_decision(30, false), ProbeDecision::GiveUp);

    assert_eq!(shutdown_decision(true, 0), ShutdownDecision::Done);
    assert_eq!(shutdown_decision(false, 9), ShutdownDecision::WaitAndRecheck);
    assert_eq!(shutdown_decision(false, 10), ShutdownDecision::ForceKill);
}

#[test]
fn test_asgi_target_base() {
    let mut config = AsgiConfig {
        enabled: true,
        mode: AsgiMode::Mounted,
        port: 8081,
        workers: 4,
        service_url: None,
        timeout_secs: 30,
        app_command: "uvicorn_app:app".to_owned(),
    };
    assert_eq!(asgi_target_base(&config).unwrap(), "http://127.0.0.1:8081");

    config.mode = AsgiMode::Proxy;
    assert!(asgi_target_base(&config).is_err());
    config.service_url = Some("http://fallback:9000".to_owned());
    assert_eq!(asgi_target_base(&config).unwrap(), "http://fallback:9000");
}

#[test]
fn test_default_option_helpers() {
    assert_eq!(neutrino::config::default_max_lifetime_secs(), 3600);
    assert_eq!(neutrino::config::default_memory_check_interval_secs(), 30);
    assert_eq!(neutrino::config::default_asgi_port(), 8081);
    assert_eq!(neutrino::config::default_asgi_workers(), 4);
    assert_eq!(neutrino::config::default_asgi_timeout(), 30);
    assert_eq!(neutrino::config::default_asgi_app_command(), "uvicorn_app:app");
}
