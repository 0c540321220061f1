use vstd::prelude::*;
use vstd::string::StrSliceExecFns;
use crate::json::parse_array;
use crate::json::parse_object_x;
use crate::json::parse_objects_rest;
use crate::json::parse_routes_spec;
use crate::json::skip_ws_x;
use crate::json::skip_ws;
use crate::route::Route;
use crate::route::RouteModel;
use crate::table::routes_view;
use crate::table::upsert_all;
use crate::table::RouteTable;

verus! {

/// Why an update payload was refused: it does not parse as an array of
/// route objects.
pub enum UpdateError {
    Malformed,
}

/// Parse an update payload as an array of route definitions; a payload that
/// is malformed anywhere yields an error and no routes at all.
pub fn parse_routes(payload: &str) -> (r: Result<Vec<Route>, UpdateError>)
    ensures
        match r {
            Ok(v) => parse_routes_spec(payload@) == Some(routes_view(v@)),
            Err(e) => parse_routes_spec(payload@) is None,
        },
{
    let n = payload.unicode_len();
    let i0 = skip_ws_x(payload, n, 0);
    if i0 >= n {
        return Err(UpdateError::Malformed);
    }
    if payload.get_char(i0) != '[' {
        return Err(UpdateError::Malformed);
    }
    let j = skip_ws_x(payload, n, i0 + 1);
    let mut out: Vec<Route> = Vec::new();
    if j < n && payload.get_char(j) == ']' {
        let e = skip_ws_x(payload, n, j + 1);
        if e == n {
            proof {
                assert(routes_view(out@) =~= Seq::<RouteModel>::empty());
            }
            return Ok(out);
        } else {
            return Err(UpdateError::Malformed);
        }
    }
    let first = match parse_object_x(payload, n, j) {
        None => {
            return Err(UpdateError::Malformed);
        },
        Some(p) => p,
    };
    let ghost target = parse_array(payload@, i0 as int);
    proof {
        assert(routes_view(seq![first.0]) =~= seq![first.0@]);
    }
    let mut cur = first.1;
    out.push(first.0);
    proof {
        assert(target == parse_objects_rest(payload@, cur as int, routes_view(out@)));
    }
    loop
        invariant
            n == payload@.len(),
            0 < cur <= n,
            target == parse_array(payload@, skip_ws(payload@, 0)),
            parse_objects_rest(payload@, cur as int, routes_view(out@)) == target,
        decreases n - cur,
    {
        let j5 = skip_ws_x(payload, n, cur);
        if j5 >= n {
            return Err(UpdateError::Malformed);
        }
        let c = payload.get_char(j5);
        if c == ']' {
            let e = skip_ws_x(payload, n, j5 + 1);
            if e == n {
                return Ok(out);
            } else {
                return Err(UpdateError::Malformed);
            }
        } else if c == ',' {
            let j6 = skip_ws_x(payload, n, j5 + 1);
            match parse_object_x(payload, n, j6) {
                None => {
                    return Err(UpdateError::Malformed);
                },
                Some(p) => {
                    let ghost prev = routes_view(out@);
                    out.push(p.0);
                    proof {
                        assert(routes_view(out@) =~= prev.push(p.0@));
                    }
                    cur = p.1;
                },
            }
        } else {
            return Err(UpdateError::Malformed);
        }
    }
}

/// Apply one update payload to the table: on a well-formed payload every
/// parsed definition is upserted in order; on a malformed one the table is
/// left exactly as it was.
pub fn apply_update(table: &mut RouteTable, payload: &str) -> (r: Result<(), UpdateError>)
    requires
        old(table).wf(),
    ensures
        final(table).wf(),
        match parse_routes_spec(payload@) {
            Some(rs) => r is Ok && final(table)@ == upsert_all(old(table)@, rs),
            None => r is Err && final(table)@ == old(table)@,
        },
{
    let parsed = match parse_routes(payload) {
        Err(e) => {
            return Err(e);
        },
        Ok(v) => v,
    };
    table.upsert_batch(parsed);
    Ok(())
}

} // verus!
