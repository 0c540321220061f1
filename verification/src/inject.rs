use vstd::prelude::*;

verus! {

/// The fixed pool of synthetic failure statuses the injector draws from.
pub open spec fn error_code_at(i: int) -> u16 {
    if i == 0 {
        400
    } else if i == 1 {
        401
    } else if i == 2 {
        403
    } else if i == 3 {
        408
    } else if i == 4 {
        409
    } else if i == 5 {
        500
    } else if i == 6 {
        502
    } else if i == 7 {
        503
    } else {
        504
    }
}

/// Whether `st` is one of the statuses the injector may substitute.
pub open spec fn is_error_code(st: u16) -> bool {
    st == 400 || st == 401 || st == 403 || st == 408 || st == 409 || st == 500 || st == 502
        || st == 503 || st == 504
}

/// The status the injector computes from a given pair of draws:
/// a uniform draw in [0, 100) decides whether to inject, and a uniform
/// pick in [0, 9) selects the failure status.
pub open spec fn injected_status(pct: u8, draw: u8, pick: u8) -> u16 {
    if (draw as int) < (pct as int) {
        error_code_at(pick as int)
    } else {
        200
    }
}

/// What can be said of an injector outcome without knowing the draws:
/// with percentage 0 the status is always 200, with percentage 100 or more
/// it is always a failure status, and in between it is one or the other.
pub open spec fn possible_injected(pct: u8, st: u16) -> bool {
    if pct == 0 {
        st == 200
    } else if pct >= 100 {
        is_error_code(st)
    } else {
        st == 200 || is_error_code(st)
    }
}

/// Relies on rand::random_range: a uniformly random value drawn from the
/// given range; the range `0..n` is nonempty, so the call does not panic
/// and the result lies below `n`.
#[verifier::external_body]
fn random_below(n: u8) -> (r: u8)
    requires
        n > 0,
    ensures
        r < n,
{
    rand::random_range(0..n)
}

/// The injector's decision as a pure function of its two draws.
pub fn status_for_draw(pct: u8, draw: u8, pick: u8) -> (st: u16)
    requires
        draw < 100,
        pick < 9,
    ensures
        st == injected_status(pct, draw, pick),
        possible_injected(pct, st),
{
    if draw < pct {
        if pick == 0 {
            400
        } else if pick == 1 {
            401
        } else if pick == 2 {
            403
        } else if pick == 3 {
            408
        } else if pick == 4 {
            409
        } else if pick == 5 {
            500
        } else if pick == 6 {
            502
        } else if pick == 7 {
            503
        } else {
            504
        }
    } else {
        200
    }
}

/// Draw a status for one request: 200 with probability `1 - pct/100`,
/// otherwise a failure status chosen from the fixed pool.
pub fn pick_status(pct: u8) -> (st: u16)
    ensures
        possible_injected(pct, st),
{
    let draw = random_below(100);
    let pick = random_below(9);
    status_for_draw(pct, draw, pick)
}

/// A percentage of zero never injects: the status is exactly 200.
pub proof fn lemma_injection_off(st: u16)
    requires
        possible_injected(0, st),
    ensures
        st == 200,
{
}

/// A percentage of 100 or more always injects: the status is never 200.
pub proof fn lemma_injection_certain(pct: u8, st: u16)
    requires
        pct >= 100,
        possible_injected(pct, st),
    ensures
        is_error_code(st),
        st != 200,
{
}

} // verus!
