use vstd::prelude::*;
use crate::inject::pick_status;
use crate::inject::possible_injected;
use crate::route::RouteModel;
use crate::table::str_eq;
use crate::table::RouteTable;

verus! {

/// What a handled request comes back with: a status code and a body.
pub struct Response {
    pub status: u16,
    pub body: String,
}

/// The mathematical image of a [`Response`].
pub struct ResponseModel {
    pub status: u16,
    pub body: Seq<char>,
}

impl View for Response {
    type V = ResponseModel;

    open spec fn view(&self) -> ResponseModel {
        ResponseModel { status: self.status, body: self.body@ }
    }
}

/// The status a stored code yields: itself when it is a representable HTTP
/// status, and 200 otherwise (a malformed stored code never fails a request).
pub open spec fn effective_code(code: u16) -> u16 {
    if 100 <= code <= 999 {
        code
    } else {
        200
    }
}

/// A method whose matched route answers with the stored response body.
pub open spec fn is_body_method(m: Seq<char>) -> bool {
    m == "GET"@ || m == "POST"@ || m == "PATCH"@ || m == "PUT"@
}

/// The dispatch algorithm's verdict on a response `r` for an inbound
/// (method, path) pair against table `t` with error percentage `pct`:
/// an unknown path yields 404; a known path under the wrong method yields
/// 405; a fault-injecting route yields an injector outcome; otherwise the
/// stored code and, except for DELETE, the stored body.
pub open spec fn dispatch_ok(
    t: Map<Seq<char>, RouteModel>,
    method: Seq<char>,
    path: Seq<char>,
    pct: u8,
    r: ResponseModel,
) -> bool {
    if !t.contains_key(path) {
        r.status == 404 && r.body == Seq::<char>::empty()
    } else {
        let route = t[path];
        if route.method != method {
            r.status == 405 && r.body == Seq::<char>::empty()
        } else if route.error {
            possible_injected(pct, r.status) && r.body == Seq::<char>::empty()
        } else if is_body_method(method) {
            r.status == effective_code(route.code) && r.body == route.response
        } else if method == "DELETE"@ {
            r.status == effective_code(route.code) && r.body == Seq::<char>::empty()
        } else {
            r.status == 404 && r.body == Seq::<char>::empty()
        }
    }
}

/// Resolve one inbound request against the table: look the path up, check
/// the method, and produce either the stored behavior, an injected error,
/// or the fixed 404/405 outcomes.
pub fn dispatch(table: &RouteTable, method: &str, path: &str, pct: u8) -> (r: Response)
    requires
        table.wf(),
    ensures
        dispatch_ok(table@, method@, path@, pct, r@),
{
    match table.get(path) {
        None => Response { status: 404, body: String::new() },
        Some(route) => {
            if !str_eq(route.method.as_str(), method) {
                Response { status: 405, body: String::new() }
            } else if route.error {
                Response { status: pick_status(pct), body: String::new() }
            } else if str_eq(method, "GET") || str_eq(method, "POST") || str_eq(method, "PATCH")
                || str_eq(method, "PUT") {
                Response { status: effective(route.code), body: route.response }
            } else if str_eq(method, "DELETE") {
                Response { status: effective(route.code), body: String::new() }
            } else {
                Response { status: 404, body: String::new() }
            }
        },
    }
}

/// The executable counterpart of [`effective_code`].
fn effective(code: u16) -> (r: u16)
    ensures
        r == effective_code(code),
{
    if 100 <= code && code <= 999 {
        code
    } else {
        200
    }
}

/// The echo endpoint: the request body comes back unchanged with status 200.
pub fn echo_response(body: String) -> (r: Response)
    ensures
        r@.status == 200,
        r@.body == body@,
{
    Response { status: 200, body }
}

/// The health endpoint: `OK` with status 200, always.
pub fn healthz_response() -> (r: Response)
    ensures
        r@.status == 200,
        r@.body == "OK"@,
{
    Response { status: 200, body: "OK".to_owned() }
}

/// The fixed status endpoint: an empty body under exactly the status the
/// caller asked for; values outside the representable range are the
/// caller's error and are refused up front.
pub fn status_response(code: u16) -> (r: Response)
    requires
        100 <= code <= 999,
    ensures
        r@.status == code,
        r@.body == Seq::<char>::empty(),
{
    Response { status: code, body: String::new() }
}

/// The global injection endpoint: an injector outcome for the configured
/// percentage, independent of any route, with an empty body.
pub fn errors_response(pct: u8) -> (r: Response)
    ensures
        possible_injected(pct, r@.status),
        r@.body == Seq::<char>::empty(),
{
    Response { status: pick_status(pct), body: String::new() }
}

/// An unknown path yields 404 with an empty body, whatever the method.
pub proof fn lemma_dispatch_unknown_path(
    t: Map<Seq<char>, RouteModel>,
    method: Seq<char>,
    path: Seq<char>,
    pct: u8,
    r: ResponseModel,
)
    requires
        dispatch_ok(t, method, path, pct, r),
        !t.contains_key(path),
    ensures
        r.status == 404,
        r.body == Seq::<char>::empty(),
{
}

/// A registered path under any method other than the stored one yields 405
/// with an empty body.
pub proof fn lemma_dispatch_method_mismatch(
    t: Map<Seq<char>, RouteModel>,
    method: Seq<char>,
    path: Seq<char>,
    pct: u8,
    r: ResponseModel,
)
    requires
        dispatch_ok(t, method, path, pct, r),
        t.contains_key(path),
        t[path].method != method,
    ensures
        r.status == 405,
        r.body == Seq::<char>::empty(),
{
}

/// A registered route asked for under its own method, not flagged for
/// injection, answers with its stored code and response; DELETE answers
/// with an empty body.
pub proof fn lemma_dispatch_registered(
    t: Map<Seq<char>, RouteModel>,
    path: Seq<char>,
    pct: u8,
    r: ResponseModel,
)
    requires
        dispatch_ok(t, t[path].method, path, pct, r),
        t.contains_key(path),
        !t[path].error,
        is_body_method(t[path].method) || t[path].method == "DELETE"@,
    ensures
        r.status == effective_code(t[path].code),
        is_body_method(t[path].method) ==> r.body == t[path].response,
        t[path].method == "DELETE"@ ==> r.body == Seq::<char>::empty(),
{
    reveal_strlit("GET");
    reveal_strlit("POST");
    reveal_strlit("PATCH");
    reveal_strlit("PUT");
    reveal_strlit("DELETE");
    assert("DELETE"@.len() == 6 && "GET"@.len() == 3 && "POST"@.len() == 4 && "PATCH"@.len() == 5
        && "PUT"@.len() == 3);
    assert("PUT"@[0] != "GET"@[0]);
    assert(!is_body_method("DELETE"@));
}

} // verus!
