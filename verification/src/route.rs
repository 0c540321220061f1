use vstd::prelude::*;
use vstd::string::StringExecFns;

verus! {

/// One configured behavior: an exact (method, path) pair mapped to a canned
/// response body and status code. When `error` is set the stored code and
/// response are ignored and the error injector decides the status instead.
pub struct Route {
    pub method: String,
    pub path: String,
    pub response: String,
    pub code: u16,
    pub error: bool,
}

/// The mathematical image of a [`Route`]: its strings as character sequences.
pub struct RouteModel {
    pub method: Seq<char>,
    pub path: Seq<char>,
    pub response: Seq<char>,
    pub code: u16,
    pub error: bool,
}

impl View for Route {
    type V = RouteModel;

    open spec fn view(&self) -> RouteModel {
        RouteModel {
            method: self.method@,
            path: self.path@,
            response: self.response@,
            code: self.code,
            error: self.error,
        }
    }
}

/// The route a definition starts from before any field is given:
/// `GET` on the empty path answering `OK` with status 200, no injection.
pub open spec fn default_route_model() -> RouteModel {
    RouteModel {
        method: "GET"@,
        path: Seq::<char>::empty(),
        response: "OK"@,
        code: 200,
        error: false,
    }
}

impl Default for Route {
    fn default() -> (r: Route)
        ensures
            r@ == default_route_model(),
    {
        Route {
            method: "GET".to_owned(),
            path: String::new(),
            response: "OK".to_owned(),
            code: 200,
            error: false,
        }
    }
}

impl Clone for Route {
    fn clone(&self) -> (r: Route)
        ensures
            r@ == self@,
    {
        Route {
            method: self.method.clone(),
            path: self.path.clone(),
            response: self.response.clone(),
            code: self.code,
            error: self.error,
        }
    }
}

} // verus!
