use mockserver::dispatch::dispatch;
use mockserver::dispatch::echo_response;
use mockserver::dispatch::healthz_response;
use mockserver::dispatch::status_response;
use mockserver::route::Route;
use mockserver::table::RouteTable;

fn route(method: &str, path: &str, response: &str, code: u16, error: bool) -> Route {
    Route {
        method: method.to_string(),
        path: path.to_string(),
        response: response.to_string(),
        code,
        error,
    }
}

#[test]
fn greet_scenario() {
    let mut table = RouteTable::new();
    table.upsert(route("GET", "/greet", "hi", 200, false));

    let ok = dispatch(&table, "GET", "/greet", 0);
    assert_eq!(ok.status, 200);
    assert_eq!(ok.body, "hi");

    let wrong_method = dispatch(&table, "POST", "/greet", 0);
    assert_eq!(wrong_method.status, 405);
    assert_eq!(wrong_method.body, "");

    let missing = dispatch(&table, "GET", "/missing", 0);
    assert_eq!(missing.status, 404);
    assert_eq!(missing.body, "");
}

#[test]
fn body_methods_return_stored_response() {
    let mut table = RouteTable::new();
    table.upsert(route("POST", "/p", "created", 201, false));
    table.upsert(route("PUT", "/u", "put-body", 202, false));
    table.upsert(route("PATCH", "/pa", "patched", 203, false));

    let post = dispatch(&table, "POST", "/p", 0);
    assert_eq!(post.status, 201);
    assert_eq!(post.body, "created");

    let put = dispatch(&table, "PUT", "/u", 0);
    assert_eq!(put.status, 202);
    assert_eq!(put.body, "put-body");

    let patch = dispatch(&table, "PATCH", "/pa", 0);
    assert_eq!(patch.status, 203);
    assert_eq!(patch.body, "patched");
}

#[test]
fn delete_returns_empty_body() {
    let mut table = RouteTable::new();
    table.upsert(route("DELETE", "/gone", "ignored", 204, false));
    let resp = dispatch(&table, "DELETE", "/gone", 0);
    assert_eq!(resp.status, 204);
    assert_eq!(resp.body, "");
}

#[test]
fn unrecognized_stored_method_is_not_found() {
    let mut table = RouteTable::new();
    table.upsert(route("HEAD", "/h", "x", 200, false));
    let resp = dispatch(&table, "HEAD", "/h", 0);
    assert_eq!(resp.status, 404);
    assert_eq!(resp.body, "");
}

#[test]
fn malformed_stored_code_defaults_to_200() {
    let mut table = RouteTable::new();
    table.upsert(route("GET", "/zero", "z", 0, false));
    table.upsert(route("GET", "/low", "l", 99, false));
    table.upsert(route("GET", "/edge", "e", 100, false));
    assert_eq!(dispatch(&table, "GET", "/zero", 0).status, 200);
    assert_eq!(dispatch(&table, "GET", "/low", 0).status, 200);
    assert_eq!(dispatch(&table, "GET", "/edge", 0).status, 100);
}

#[test]
fn flaky_route_always_injected_at_full_percentage() {
    let errors: [u16; 9] = [400, 401, 403, 408, 409, 500, 502, 503, 504];
    let mut table = RouteTable::new();
    table.upsert(route("GET", "/flaky", "", 200, true));
    let mut i = 0;
    while i < 200 {
        let resp = dispatch(&table, "GET", "/flaky", 100);
        assert_ne!(resp.status, 200);
        assert!(errors.contains(&resp.status));
        assert_eq!(resp.body, "");
        i += 1;
    }
}

#[test]
fn flagged_route_never_injected_at_zero_percentage() {
    let mut table = RouteTable::new();
    table.upsert(route("GET", "/flaky", "unused", 503, true));
    let mut i = 0;
    while i < 200 {
        let resp = dispatch(&table, "GET", "/flaky", 0);
        assert_eq!(resp.status, 200);
        assert_eq!(resp.body, "");
        i += 1;
    }
}

#[test]
fn echo_returns_body_unchanged() {
    let resp = echo_response("some payload".to_string());
    assert_eq!(resp.status, 200);
    assert_eq!(resp.body, "some payload");
}

#[test]
fn healthz_is_ok() {
    let resp = healthz_response();
    assert_eq!(resp.status, 200);
    assert_eq!(resp.body, "OK");
}

#[test]
fn status_endpoint_echoes_code() {
    let resp = status_response(418);
    assert_eq!(resp.status, 418);
    assert_eq!(resp.body, "");
}
