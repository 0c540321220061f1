use mockserver::dispatch::errors_response;
use mockserver::inject::pick_status;
use mockserver::inject::status_for_draw;

const ERRORS: [u16; 9] = [400, 401, 403, 408, 409, 500, 502, 503, 504];

#[test]
fn zero_percentage_always_ok() {
    let mut i = 0;
    while i < 500 {
        assert_eq!(pick_status(0), 200);
        i += 1;
    }
}

#[test]
fn full_percentage_never_ok() {
    let mut i = 0;
    while i < 500 {
        let st = pick_status(100);
        assert_ne!(st, 200);
        assert!(ERRORS.contains(&st));
        i += 1;
    }
}

#[test]
fn above_full_percentage_never_ok() {
    let mut i = 0;
    while i < 200 {
        let st = pick_status(250);
        assert_ne!(st, 200);
        assert!(ERRORS.contains(&st));
        i += 1;
    }
}

#[test]
fn midrange_percentage_roughly_matches_frequency() {
    let trials = 20000;
    let mut failures = 0;
    let mut i = 0;
    while i < trials {
        if pick_status(30) != 200 {
            failures += 1;
        }
        i += 1;
    }
    // 30% of 20000 is 6000; allow a generous band around it.
    assert!(failures > 4600, "too few injected errors: {}", failures);
    assert!(failures < 7400, "too many injected errors: {}", failures);
}

#[test]
fn draw_below_percentage_picks_from_pool() {
    assert_eq!(status_for_draw(50, 49, 0), 400);
    assert_eq!(status_for_draw(50, 49, 1), 401);
    assert_eq!(status_for_draw(50, 49, 2), 403);
    assert_eq!(status_for_draw(50, 49, 3), 408);
    assert_eq!(status_for_draw(50, 49, 4), 409);
    assert_eq!(status_for_draw(50, 49, 5), 500);
    assert_eq!(status_for_draw(50, 49, 6), 502);
    assert_eq!(status_for_draw(50, 49, 7), 503);
    assert_eq!(status_for_draw(50, 49, 8), 504);
}

#[test]
fn draw_at_or_above_percentage_is_ok() {
    assert_eq!(status_for_draw(50, 50, 0), 200);
    assert_eq!(status_for_draw(50, 99, 8), 200);
    assert_eq!(status_for_draw(0, 0, 0), 200);
}

#[test]
fn errors_endpoint_respects_percentage_edges() {
    let mut i = 0;
    while i < 200 {
        let ok = errors_response(0);
        assert_eq!(ok.status, 200);
        assert_eq!(ok.body, "");
        let bad = errors_response(100);
        assert_ne!(bad.status, 200);
        assert!(ERRORS.contains(&bad.status));
        assert_eq!(bad.body, "");
        i += 1;
    }
}
