use mockserver::dispatch::dispatch;
use mockserver::route::Route;
use mockserver::table::RouteTable;
use mockserver::update::apply_update;
use mockserver::update::parse_routes;
use mockserver::update::UpdateError;

fn route(method: &str, path: &str, response: &str, code: u16, error: bool) -> Route {
    Route {
        method: method.to_string(),
        path: path.to_string(),
        response: response.to_string(),
        code,
        error,
    }
}

fn parse_one(payload: &str) -> Route {
    let mut v = match parse_routes(payload) {
        Ok(v) => v,
        Err(UpdateError::Malformed) => panic!("payload refused"),
    };
    assert_eq!(v.len(), 1);
    v.remove(0)
}

#[test]
fn update_then_dispatch_scenario() {
    let mut table = RouteTable::new();
    let body = "[{\"method\":\"GET\",\"path\":\"/new\",\"response\":\"added\",\"code\":201}]";
    assert!(apply_update(&mut table, body).is_ok());
    let resp = dispatch(&table, "GET", "/new", 0);
    assert_eq!(resp.status, 201);
    assert_eq!(resp.body, "added");
}

#[test]
fn malformed_update_leaves_table_unchanged() {
    let mut table = RouteTable::new();
    table.upsert(route("GET", "/a", "alive", 200, false));
    let r = apply_update(&mut table, "[{\"method\":\"GET\",");
    assert!(matches!(r, Err(UpdateError::Malformed)));
    let resp = dispatch(&table, "GET", "/a", 0);
    assert_eq!(resp.status, 200);
    assert_eq!(resp.body, "alive");
}

#[test]
fn empty_array_is_a_no_op_update() {
    let mut table = RouteTable::new();
    table.upsert(route("GET", "/keep", "k", 200, false));
    assert!(apply_update(&mut table, " [ ] ").is_ok());
    assert!(table.get("/keep").is_some());
}

#[test]
fn missing_fields_take_defaults() {
    let r = parse_one("[{}]");
    assert_eq!(r.method, "GET");
    assert_eq!(r.path, "");
    assert_eq!(r.response, "OK");
    assert_eq!(r.code, 200);
    assert!(!r.error);
}

#[test]
fn fields_override_defaults() {
    let r = parse_one(
        "[{\"method\":\"DELETE\",\"path\":\"/d\",\"response\":\"gone\",\"code\":204,\"error\":false}]",
    );
    assert_eq!(r.method, "DELETE");
    assert_eq!(r.path, "/d");
    assert_eq!(r.response, "gone");
    assert_eq!(r.code, 204);
    assert!(!r.error);
}

#[test]
fn error_flag_parses() {
    let r = parse_one("[{\"path\":\"/f\",\"error\":true}]");
    assert_eq!(r.path, "/f");
    assert!(r.error);
}

#[test]
fn unknown_scalar_fields_are_skipped() {
    let r = parse_one(
        "[{\"path\":\"/p\",\"note\":\"ignored\",\"weight\":123,\"flag\":false,\"nothing\":null}]",
    );
    assert_eq!(r.path, "/p");
    assert_eq!(r.method, "GET");
    assert_eq!(r.code, 200);
}

#[test]
fn string_escapes_are_decoded() {
    let r = parse_one("[{\"response\":\"a\\\"b\\\\c\\nd\\te\"}]");
    assert_eq!(r.response, "a\"b\\c\nd\te");
}

#[test]
fn several_objects_parse_in_order() {
    let v = match parse_routes("[{\"path\":\"/1\"},{\"path\":\"/2\"},{\"path\":\"/3\"}]") {
        Ok(v) => v,
        Err(UpdateError::Malformed) => panic!("payload refused"),
    };
    assert_eq!(v.len(), 3);
    assert_eq!(v[0].path, "/1");
    assert_eq!(v[1].path, "/2");
    assert_eq!(v[2].path, "/3");
}

#[test]
fn later_entry_wins_within_one_batch() {
    let mut table = RouteTable::new();
    let body = "[{\"path\":\"/x\",\"code\":201},{\"path\":\"/x\",\"code\":503}]";
    assert!(apply_update(&mut table, body).is_ok());
    let got = match table.get("/x") {
        Some(r) => r,
        None => panic!("route missing"),
    };
    assert_eq!(got.code, 503);
}

#[test]
fn oversized_code_is_refused() {
    assert!(matches!(parse_routes("[{\"code\":70000}]"), Err(UpdateError::Malformed)));
}

#[test]
fn negative_code_is_refused() {
    assert!(matches!(parse_routes("[{\"code\":-5}]"), Err(UpdateError::Malformed)));
}

#[test]
fn leading_zero_number_is_refused() {
    assert!(matches!(parse_routes("[{\"code\":0123}]"), Err(UpdateError::Malformed)));
}

#[test]
fn non_array_payload_is_refused() {
    assert!(matches!(parse_routes("{\"path\":\"/x\"}"), Err(UpdateError::Malformed)));
    assert!(matches!(parse_routes(""), Err(UpdateError::Malformed)));
    assert!(matches!(parse_routes("   "), Err(UpdateError::Malformed)));
    assert!(matches!(parse_routes("not json"), Err(UpdateError::Malformed)));
}

#[test]
fn trailing_text_is_refused() {
    assert!(matches!(parse_routes("[] trailing"), Err(UpdateError::Malformed)));
}

#[test]
fn nested_value_under_unknown_key_is_refused() {
    assert!(matches!(parse_routes("[{\"meta\":{\"a\":1}}]"), Err(UpdateError::Malformed)));
}

#[test]
fn whitespace_everywhere_is_accepted() {
    let r = parse_one(" [ { \"path\" : \"/w\" , \"code\" : 301 } ] ");
    assert_eq!(r.path, "/w");
    assert_eq!(r.code, 301);
}

#[test]
fn zero_code_parses_and_defaults_at_dispatch() {
    let mut table = RouteTable::new();
    assert!(apply_update(&mut table, "[{\"path\":\"/z\",\"code\":0}]").is_ok());
    let resp = dispatch(&table, "GET", "/z", 0);
    assert_eq!(resp.status, 200);
}
