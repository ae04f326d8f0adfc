//! The route table read from an OpenAPI document: path templates, operations
//! per method, and the per-route resource requirements carried in the
//! document's extension field. Reading the document off disk and parsing its
//! JSON is the binary's business; the model and the extraction logic are
//! verified here.

use vstd::prelude::*;

use crate::json::JsonValue;
use crate::resources::{ResourceRequirements, MILLI};
use crate::text::{chars_to_string, chars_have_prefix, str_chars};

verus! {

/// The document's title and version.
pub struct Info {
    pub title: String,
    pub version: String,
}

/// Reusable schema components of the document.
pub struct Components {
    pub schemas: Vec<(String, JsonValue)>,
}

/// One parameter of an operation.
pub struct Parameter {
    pub name: String,
    /// Where the parameter lives: `"path"`, `"query"`, and so on.
    pub location: String,
    pub required: bool,
    pub schema: JsonValue,
}

/// One media type of a request or response body.
pub struct MediaType {
    pub schema: JsonValue,
}

/// The request body an operation accepts.
pub struct RequestBody {
    pub required: bool,
    pub content: Vec<(String, MediaType)>,
}

/// One response an operation may give.
pub struct Response {
    pub description: String,
    pub content: Option<Vec<(String, MediaType)>>,
}

/// One operation: a handler bound to a method on a path.
pub struct Operation {
    pub operation_id: String,
    pub summary: String,
    pub description: String,
    pub tags: Vec<String>,
    pub parameters: Vec<Parameter>,
    pub request_body: Option<RequestBody>,
    pub responses: Vec<(String, Response)>,
    /// Per-route resource requirements, from the document's extension field.
    pub neutrino_resources: Option<ResourceRequirements>,
}

/// The operations of one path template, by method.
pub struct PathItem {
    pub get: Option<Operation>,
    pub post: Option<Operation>,
    pub put: Option<Operation>,
    pub patch: Option<Operation>,
    pub delete: Option<Operation>,
}

/// An OpenAPI document, reduced to what routing needs.
pub struct OpenApiSpec {
    pub openapi: String,
    pub info: Info,
    pub paths: Vec<(String, PathItem)>,
    pub components: Components,
}

/// One extracted route.
pub struct RouteInfo {
    /// The path in the HTTP router's template form.
    pub path: String,
    /// The HTTP method, upper-case.
    pub method: String,
    pub operation_id: String,
    /// The handler name: the operation id with its method prefix removed.
    pub handler_name: String,
    pub resources: ResourceRequirements,
}

/// The ghost shape of a route.
pub struct SpecRoute {
    pub path: Seq<char>,
    pub method: Seq<char>,
    pub operation_id: Seq<char>,
    pub handler_name: Seq<char>,
    pub resources: ResourceRequirements,
}

impl View for RouteInfo {
    type V = SpecRoute;

    open spec fn view(&self) -> SpecRoute {
        SpecRoute {
            path: self.path@,
            method: self.method@,
            operation_id: self.operation_id@,
            handler_name: self.handler_name@,
            resources: self.resources,
        }
    }
}

/// A path template converted to the router's parameter form: `{name}`
/// becomes `:name`. Characters inside braces are held back and emitted at
/// the closing brace; a brace left open swallows the rest of the template.
pub open spec fn spec_convert_path(s: Seq<char>, in_param: bool, pending: Seq<char>) -> Seq<char>
    decreases s.len(),
{
    if s.len() == 0 {
        Seq::empty()
    } else {
        let c = s.first();
        if c == '{' {
            seq![':'] + spec_convert_path(s.drop_first(), true, Seq::empty())
        } else if c == '}' {
            pending + spec_convert_path(s.drop_first(), false, pending)
        } else if in_param {
            spec_convert_path(s.drop_first(), true, pending.push(c))
        } else {
            seq![c] + spec_convert_path(s.drop_first(), false, pending)
        }
    }
}

/// Convert an OpenAPI path template to the router's form.
pub fn convert_openapi_path_to_axum(path: &str) -> (r: String)
    ensures
        r@ == spec_convert_path(path@, false, Seq::empty()),
{
    let chars = str_chars(path);
    proof {
        assert(chars@.skip(0) =~= chars@);
    }
    let mut result: Vec<char> = Vec::new();
    let mut param_name: Vec<char> = Vec::new();
    let mut in_param = false;
    let mut i: usize = 0;
    while i < chars.len()
        invariant
            i <= chars@.len(),
            spec_convert_path(chars@, false, Seq::empty()) == result@ + spec_convert_path(
                chars@.skip(i as int),
                in_param,
                param_name@,
            ),
        decreases chars@.len() - i,
    {
        let ghost before = chars@.skip(i as int);
        proof {
            assert(before.first() == chars@[i as int]);
            assert(before.drop_first() =~= chars@.skip(i + 1));
        }
        let c = chars[i];
        if c == '{' {
            in_param = true;
            param_name = Vec::new();
            result.push(':');
            proof {
                assert(result@ + spec_convert_path(chars@.skip(i + 1), true, Seq::empty())
                    =~= result@.drop_last() + (seq![':'] + spec_convert_path(
                    chars@.skip(i + 1),
                    true,
                    Seq::empty(),
                )));
            }
        } else if c == '}' {
            in_param = false;
            let mut j: usize = 0;
            let ghost pre = result@;
            while j < param_name.len()
                invariant
                    j <= param_name@.len(),
                    result@ == pre + param_name@.take(j as int),
                decreases param_name@.len() - j,
            {
                result.push(param_name[j]);
                proof {
                    assert(pre + param_name@.take(j as int) + seq![param_name@[j as int]] =~= pre
                        + param_name@.take(j + 1));
                }
                j = j + 1;
            }
            proof {
                assert(param_name@.take(param_name@.len() as int) =~= param_name@);
                assert(result@ + spec_convert_path(chars@.skip(i + 1), false, param_name@) =~= pre
                    + (param_name@ + spec_convert_path(chars@.skip(i + 1), false, param_name@)));
            }
        } else if in_param {
            param_name.push(c);
        } else {
            result.push(c);
            proof {
                assert(result@ + spec_convert_path(chars@.skip(i + 1), false, param_name@)
                    =~= result@.drop_last() + (seq![c] + spec_convert_path(
                    chars@.skip(i + 1),
                    false,
                    param_name@,
                )));
            }
        }
        i = i + 1;
    }
    proof {
        assert(chars@.skip(chars@.len() as int) =~= Seq::<char>::empty());
        assert(result@ + Seq::<char>::empty() =~= result@);
    }
    chars_to_string(&result)
}

/// The handler name of an operation id: the id with a leading method prefix
/// (`get_`, `post_`, `put_`, `patch_`, `delete_`) removed, or the id itself.
pub open spec fn spec_extract_handler_name(s: Seq<char>) -> Seq<char> {
    if "get_"@.is_prefix_of(s) {
        s.skip(4)
    } else if "post_"@.is_prefix_of(s) {
        s.skip(5)
    } else if "put_"@.is_prefix_of(s) {
        s.skip(4)
    } else if "patch_"@.is_prefix_of(s) {
        s.skip(6)
    } else if "delete_"@.is_prefix_of(s) {
        s.skip(7)
    } else {
        s
    }
}

/// Strip a method prefix from an operation id.
pub fn extract_handler_name(operation_id: &str) -> (r: String)
    ensures
        r@ == spec_extract_handler_name(operation_id@),
{
    let chars = str_chars(operation_id);
    proof {
        reveal_strlit("get_");
        reveal_strlit("post_");
        reveal_strlit("put_");
        reveal_strlit("patch_");
        reveal_strlit("delete_");
    }
    let p0 = str_chars("get_");
    if chars_have_prefix(&chars, &p0) {
        return suffix_string(&chars, 4);
    }
    let p1 = str_chars("post_");
    if chars_have_prefix(&chars, &p1) {
        return suffix_string(&chars, 5);
    }
    let p2 = str_chars("put_");
    if chars_have_prefix(&chars, &p2) {
        return suffix_string(&chars, 4);
    }
    let p3 = str_chars("patch_");
    if chars_have_prefix(&chars, &p3) {
        return suffix_string(&chars, 6);
    }
    let p4 = str_chars("delete_");
    if chars_have_prefix(&chars, &p4) {
        return suffix_string(&chars, 7);
    }
    chars_to_string(&chars)
}

/// The string of the characters from `from` on.
fn suffix_string(chars: &Vec<char>, from: usize) -> (r: String)
    requires
        from <= chars@.len(),
    ensures
        r@ == chars@.skip(from as int),
{
    let mut out: Vec<char> = Vec::new();
    let mut k: usize = from;
    while k < chars.len()
        invariant
            from <= k <= chars@.len(),
            out@ == chars@.subrange(from as int, k as int),
        decreases chars@.len() - k,
    {
        out.push(chars[k]);
        proof {
            assert(chars@.subrange(from as int, k as int).push(chars@[k as int])
                =~= chars@.subrange(from as int, k + 1));
        }
        k = k + 1;
    }
    proof {
        assert(out@ =~= chars@.skip(from as int));
    }
    chars_to_string(&out)
}

/// The route one operation contributes under one method.
pub open spec fn spec_op_route(path: Seq<char>, method: Seq<char>, op: Operation) -> SpecRoute {
    SpecRoute {
        path: spec_convert_path(path, false, Seq::empty()),
        method,
        operation_id: op.operation_id@,
        handler_name: spec_extract_handler_name(op.operation_id@),
        resources: match op.neutrino_resources {
            Some(r) => r,
            None => ResourceRequirements { num_cpus: MILLI, num_gpus: 0, memory_gb: MILLI },
        },
    }
}

/// The routes of one path item, in method order.
pub open spec fn spec_item_routes(path: Seq<char>, item: PathItem) -> Seq<SpecRoute> {
    (match item.get {
        Some(op) => seq![spec_op_route(path, "GET"@, op)],
        None => Seq::empty(),
    }) + (match item.post {
        Some(op) => seq![spec_op_route(path, "POST"@, op)],
        None => Seq::empty(),
    }) + (match item.put {
        Some(op) => seq![spec_op_route(path, "PUT"@, op)],
        None => Seq::empty(),
    }) + (match item.patch {
        Some(op) => seq![spec_op_route(path, "PATCH"@, op)],
        None => Seq::empty(),
    }) + (match item.delete {
        Some(op) => seq![spec_op_route(path, "DELETE"@, op)],
        None => Seq::empty(),
    })
}

/// The routes of the whole document, path by path.
pub open spec fn spec_all_routes(paths: Seq<(String, PathItem)>) -> Seq<SpecRoute>
    decreases paths.len(),
{
    if paths.len() == 0 {
        Seq::empty()
    } else {
        spec_all_routes(paths.drop_last()) + spec_item_routes(
            paths.last().0@,
            paths.last().1,
        )
    }
}

impl OpenApiSpec {
    /// Extract every route the document declares, in document order with
    /// methods ordered GET, POST, PUT, PATCH, DELETE within a path.
    pub fn extract_routes(&self) -> (r: Vec<RouteInfo>)
        ensures
            r@.len() == spec_all_routes(self.paths@).len(),
            forall|k: int| 0 <= k < r@.len() ==> (#[trigger] r@[k])@ == spec_all_routes(
                self.paths@,
            )[k],
    {
        let mut routes: Vec<RouteInfo> = Vec::new();
        let mut i: usize = 0;
        while i < self.paths.len()
            invariant
                i <= self.paths@.len(),
                routes@.len() == spec_all_routes(self.paths@.take(i as int)).len(),
                forall|k: int| 0 <= k < routes@.len() ==> (#[trigger] routes@[k])@
                    == spec_all_routes(self.paths@.take(i as int))[k],
            decreases self.paths@.len() - i,
        {
            let ghost done = spec_all_routes(self.paths@.take(i as int));
            let path = &self.paths[i].0;
            let item = &self.paths[i].1;
            let axum_path = convert_openapi_path_to_axum(path.as_str());
            if let Some(op) = &item.get {
                routes.push(route_for(&axum_path, "GET", op));
            }
            if let Some(op) = &item.post {
                routes.push(route_for(&axum_path, "POST", op));
            }
            if let Some(op) = &item.put {
                routes.push(route_for(&axum_path, "PUT", op));
            }
            if let Some(op) = &item.patch {
                routes.push(route_for(&axum_path, "PATCH", op));
            }
            if let Some(op) = &item.delete {
                routes.push(route_for(&axum_path, "DELETE", op));
            }
            proof {
                assert(self.paths@.take(i + 1).drop_last() =~= self.paths@.take(i as int));
                assert(spec_all_routes(self.paths@.take(i + 1)) == done + spec_item_routes(
                    path@,
                    *item,
                ));
            }
            i = i + 1;
        }
        proof {
            assert(self.paths@.take(self.paths@.len() as int) =~= self.paths@);
        }
        routes
    }
}

/// Build the route of one operation under one method, given the converted
/// path.
fn route_for(axum_path: &String, method: &str, op: &Operation) -> (r: RouteInfo)
    ensures
        r@.path == axum_path@,
        r@.method == method@,
        r@.operation_id == op.operation_id@,
        r@.handler_name == spec_extract_handler_name(op.operation_id@),
        r@.resources == (match op.neutrino_resources {
            Some(req) => req,
            None => ResourceRequirements { num_cpus: MILLI, num_gpus: 0, memory_gb: MILLI },
        }),
{
    RouteInfo {
        path: axum_path.clone(),
        method: method.to_owned(),
        operation_id: op.operation_id.clone(),
        handler_name: extract_handler_name(op.operation_id.as_str()),
        resources: match &op.neutrino_resources {
            Some(req) => *req,
            None => ResourceRequirements::default(),
        },
    }
}

} // verus!
