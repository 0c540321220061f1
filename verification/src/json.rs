use vstd::prelude::*;
use vstd::string::StrSliceExecFns;
use vstd::string::StringExecFns;
use crate::route::default_route_model;
use crate::route::Route;
use crate::route::RouteModel;

verus! {

// An update payload is a JSON array of route objects. The grammar below is
// the specification: each `spec` function consumes characters from position
// `i` and yields the parsed meaning together with the position after it, or
// nothing when the text is malformed at that point. Objects start from the
// default route definition and each recognized member overrides one field;
// members under unknown keys are skipped as long as they hold a scalar.
/// A JSON whitespace character.
pub open spec fn is_ws(c: char) -> bool {
    c == ' ' || c == '\n' || c == '\t' || c == '\r'
}

/// The first position at or after `i` that does not hold whitespace.
pub open spec fn skip_ws(s: Seq<char>, i: int) -> int
    decreases s.len() - i,
{
    if 0 <= i < s.len() && is_ws(s[i]) {
        skip_ws(s, i + 1)
    } else {
        i
    }
}

/// A decimal digit.
pub open spec fn is_digit(c: char) -> bool {
    ('0' as int) <= (c as int) <= ('9' as int)
}

/// The numeric value of a digit character.
pub open spec fn digit_val(c: char) -> int {
    c as int - ('0' as int)
}

/// The value of the digit run starting at `i`, accumulated onto `acc`.
pub open spec fn digits_val(s: Seq<char>, i: int, acc: int) -> int
    decreases s.len() - i,
{
    if 0 <= i < s.len() && is_digit(s[i]) {
        digits_val(s, i + 1, acc * 10 + digit_val(s[i]))
    } else {
        acc
    }
}

/// The position just after the digit run starting at `i`.
pub open spec fn digits_end(s: Seq<char>, i: int) -> int
    decreases s.len() - i,
{
    if 0 <= i < s.len() && is_digit(s[i]) {
        digits_end(s, i + 1)
    } else {
        i
    }
}

/// A nonnegative JSON integer at `i`: a single `0`, or a nonzero digit
/// followed by any digits. Yields its value and the position after it.
pub open spec fn parse_number(s: Seq<char>, i: int) -> Option<(int, int)> {
    if 0 <= i < s.len() && is_digit(s[i]) {
        if s[i] == '0' {
            Some((0, i + 1))
        } else {
            Some((digits_val(s, i, 0), digits_end(s, i)))
        }
    } else {
        None
    }
}

/// The character a backslash escape stands for, if the escape is accepted.
pub open spec fn unescape(c: char) -> Option<char> {
    if c == '"' {
        Some('"')
    } else if c == '\\' {
        Some('\\')
    } else if c == '/' {
        Some('/')
    } else if c == 'n' {
        Some('\n')
    } else if c == 't' {
        Some('\t')
    } else if c == 'r' {
        Some('\r')
    } else if c == 'b' {
        Some('\u{0008}')
    } else if c == 'f' {
        Some('\u{000C}')
    } else {
        None
    }
}

/// The content of a string literal from position `i` (just inside the
/// opening quote) to its closing quote: unescaped characters, with raw
/// control characters refused.
pub open spec fn parse_string_body(s: Seq<char>, i: int) -> Option<(Seq<char>, int)>
    decreases s.len() - i,
{
    if !(0 <= i < s.len()) {
        None
    } else if s[i] == '"' {
        Some((Seq::<char>::empty(), i + 1))
    } else if s[i] == '\\' {
        if i + 1 < s.len() {
            match unescape(s[i + 1]) {
                Some(c) => with_prefix(seq![c], parse_string_body(s, i + 2)),
                None => None,
            }
        } else {
            None
        }
    } else if (s[i] as int) < 32 {
        None
    } else {
        with_prefix(seq![s[i]], parse_string_body(s, i + 1))
    }
}

/// A parsed tail with `p` prepended to its content.
pub open spec fn with_prefix(p: Seq<char>, o: Option<(Seq<char>, int)>) -> Option<
    (Seq<char>, int),
> {
    match o {
        Some((t, j)) => Some((p + t, j)),
        None => None,
    }
}

/// A quoted string literal at `i`: its content and the position after the
/// closing quote.
pub open spec fn parse_string(s: Seq<char>, i: int) -> Option<(Seq<char>, int)> {
    if 0 <= i < s.len() && s[i] == '"' {
        parse_string_body(s, i + 1)
    } else {
        None
    }
}

/// Whether the characters at `i` are exactly `lit`.
pub open spec fn matches_lit(s: Seq<char>, i: int, lit: Seq<char>) -> bool {
    0 <= i && i + lit.len() <= s.len() && s.subrange(i, i + lit.len()) == lit
}

/// The position after a scalar JSON value at `i`: a string, a nonnegative
/// integer, `true`, `false` or `null`. Values of any other shape are refused.
pub open spec fn skip_scalar(s: Seq<char>, i: int) -> Option<int> {
    match parse_string(s, i) {
        Some((v, j)) => Some(j),
        None => match parse_number(s, i) {
            Some((v, j)) => Some(j),
            None => if matches_lit(s, i, "true"@) {
                Some(i + 4)
            } else if matches_lit(s, i, "false"@) {
                Some(i + 5)
            } else if matches_lit(s, i, "null"@) {
                Some(i + 4)
            } else {
                None
            },
        },
    }
}

/// One `"key": value` member at `i`, applied to the definition `r`:
/// a recognized key overrides its field (a stored code must fit a u16),
/// an unknown key leaves `r` unchanged provided its value is a scalar.
pub open spec fn parse_member(s: Seq<char>, i: int, r: RouteModel) -> Option<(RouteModel, int)> {
    match parse_string(s, i) {
        None => None,
        Some((key, j)) => {
            let j2 = skip_ws(s, j);
            if j2 < s.len() && s[j2] == ':' {
                let j3 = skip_ws(s, j2 + 1);
                if key == "method"@ {
                    match parse_string(s, j3) {
                        Some((v, j4)) => Some(
                            (
                                RouteModel {
                                    method: v,
                                    path: r.path,
                                    response: r.response,
                                    code: r.code,
                                    error: r.error,
                                },
                                j4,
                            ),
                        ),
                        None => None,
                    }
                } else if key == "path"@ {
                    match parse_string(s, j3) {
                        Some((v, j4)) => Some(
                            (
                                RouteModel {
                                    method: r.method,
                                    path: v,
                                    response: r.response,
                                    code: r.code,
                                    error: r.error,
                                },
                                j4,
                            ),
                        ),
                        None => None,
                    }
                } else if key == "response"@ {
                    match parse_string(s, j3) {
                        Some((v, j4)) => Some(
                            (
                                RouteModel {
                                    method: r.method,
                                    path: r.path,
                                    response: v,
                                    code: r.code,
                                    error: r.error,
                                },
                                j4,
                            ),
                        ),
                        None => None,
                    }
                } else if key == "code"@ {
                    match parse_number(s, j3) {
                        Some((v, j4)) => if v <= 65535 {
                            Some(
                                (
                                    RouteModel {
                                        method: r.method,
                                        path: r.path,
                                        response: r.response,
                                        code: v as u16,
                                        error: r.error,
                                    },
                                    j4,
                                ),
                            )
                        } else {
                            None
                        },
                        None => None,
                    }
                } else if key == "error"@ {
                    if matches_lit(s, j3, "true"@) {
                        Some(
                            (
                                RouteModel {
                                    method: r.method,
                                    path: r.path,
                                    response: r.response,
                                    code: r.code,
                                    error: true,
                                },
                                j3 + 4,
                            ),
                        )
                    } else if matches_lit(s, j3, "false"@) {
                        Some(
                            (
                                RouteModel {
                                    method: r.method,
                                    path: r.path,
                                    response: r.response,
                                    code: r.code,
                                    error: false,
                                },
                                j3 + 5,
                            ),
                        )
                    } else {
                        None
                    }
                } else {
                    match skip_scalar(s, j3) {
                        Some(j4) => Some((r, j4)),
                        None => None,
                    }
                }
            } else {
                None
            }
        },
    }
}

/// The members after the first one: repeatedly a comma and a member, until
/// the closing brace. Yields the finished definition and the position after
/// the brace.
pub open spec fn parse_members_rest(s: Seq<char>, i: int, r: RouteModel) -> Option<
    (RouteModel, int),
>
    decreases s.len() - i,
    when 0 <= i <= s.len()
    via parse_members_rest_dec
{
    let j = skip_ws(s, i);
    if j < s.len() {
        if s[j] == '}' {
            Some((r, j + 1))
        } else if s[j] == ',' {
            let k = skip_ws(s, j + 1);
            match parse_member(s, k, r) {
                Some((r2, m)) => parse_members_rest(s, m, r2),
                None => None,
            }
        } else {
            None
        }
    } else {
        None
    }
}

#[via_fn]
proof fn parse_members_rest_dec(s: Seq<char>, i: int, r: RouteModel) {
    lemma_skip_ws_le(s, i);
    let j = skip_ws(s, i);
    if j < s.len() && s[j] == ',' {
        lemma_skip_ws_le(s, j + 1);
        let k = skip_ws(s, j + 1);
        lemma_parse_member_adv(s, k, r);
    }
}

/// A route object at `i`: a brace-delimited, comma-separated list of
/// members, starting from the default definition.
pub open spec fn parse_object(s: Seq<char>, i: int) -> Option<(RouteModel, int)> {
    if 0 <= i < s.len() && s[i] == '{' {
        let j = skip_ws(s, i + 1);
        if j < s.len() && s[j] == '}' {
            Some((default_route_model(), j + 1))
        } else {
            match parse_member(s, j, default_route_model()) {
                Some((r, k)) => parse_members_rest(s, k, r),
                None => None,
            }
        }
    } else {
        None
    }
}

/// The objects after the first one: repeatedly a comma and an object, until
/// the closing bracket. Yields all definitions and the position after the
/// bracket.
pub open spec fn parse_objects_rest(s: Seq<char>, i: int, acc: Seq<RouteModel>) -> Option<
    (Seq<RouteModel>, int),
>
    decreases s.len() - i,
    when 0 <= i <= s.len()
    via parse_objects_rest_dec
{
    let j = skip_ws(s, i);
    if j < s.len() {
        if s[j] == ']' {
            Some((acc, j + 1))
        } else if s[j] == ',' {
            let k = skip_ws(s, j + 1);
            match parse_object(s, k) {
                Some((r, m)) => parse_objects_rest(s, m, acc.push(r)),
                None => None,
            }
        } else {
            None
        }
    } else {
        None
    }
}

#[via_fn]
proof fn parse_objects_rest_dec(s: Seq<char>, i: int, acc: Seq<RouteModel>) {
    lemma_skip_ws_le(s, i);
    let j = skip_ws(s, i);
    if j < s.len() && s[j] == ',' {
        lemma_skip_ws_le(s, j + 1);
        let k = skip_ws(s, j + 1);
        lemma_parse_object_adv(s, k);
    }
}

/// A bracket-delimited, comma-separated array of route objects at `i`.
pub open spec fn parse_array(s: Seq<char>, i: int) -> Option<(Seq<RouteModel>, int)> {
    if 0 <= i < s.len() && s[i] == '[' {
        let j = skip_ws(s, i + 1);
        if j < s.len() && s[j] == ']' {
            Some((Seq::<RouteModel>::empty(), j + 1))
        } else {
            match parse_object(s, j) {
                Some((r, k)) => parse_objects_rest(s, k, seq![r]),
                None => None,
            }
        }
    } else {
        None
    }
}

/// The meaning of a whole update payload: one array of route objects,
/// surrounded by nothing but whitespace, or nothing when it is malformed
/// anywhere.
pub open spec fn parse_routes_spec(s: Seq<char>) -> Option<Seq<RouteModel>> {
    match parse_array(s, skip_ws(s, 0)) {
        Some((rs, j)) => if skip_ws(s, j) == s.len() {
            Some(rs)
        } else {
            None
        },
        None => None,
    }
}

proof fn lemma_skip_ws_le(s: Seq<char>, i: int)
    requires
        0 <= i <= s.len(),
    ensures
        i <= skip_ws(s, i) <= s.len(),
    decreases s.len() - i,
{
    if i < s.len() && is_ws(s[i]) {
        lemma_skip_ws_le(s, i + 1);
    }
}

proof fn lemma_digits_end_le(s: Seq<char>, i: int)
    requires
        0 <= i <= s.len(),
    ensures
        i <= digits_end(s, i) <= s.len(),
    decreases s.len() - i,
{
    if i < s.len() && is_digit(s[i]) {
        lemma_digits_end_le(s, i + 1);
    }
}

proof fn lemma_digits_val_ge(s: Seq<char>, i: int, acc: int)
    requires
        acc >= 0,
    ensures
        digits_val(s, i, acc) >= acc,
    decreases s.len() - i,
{
    if 0 <= i < s.len() && is_digit(s[i]) {
        lemma_digits_val_ge(s, i + 1, acc * 10 + digit_val(s[i]));
    }
}

proof fn lemma_parse_string_body_adv(s: Seq<char>, i: int)
    requires
        0 <= i <= s.len(),
    ensures
        parse_string_body(s, i) matches Some(p) ==> i < p.1 <= s.len(),
    decreases s.len() - i,
{
    if i < s.len() {
        if s[i] == '\\' {
            if i + 1 < s.len() {
                lemma_parse_string_body_adv(s, i + 2);
            }
        } else if s[i] != '"' {
            lemma_parse_string_body_adv(s, i + 1);
        }
    }
}

proof fn lemma_parse_string_adv(s: Seq<char>, i: int)
    ensures
        parse_string(s, i) matches Some(p) ==> 0 <= i && i + 2 <= p.1 <= s.len(),
{
    if 0 <= i < s.len() && s[i] == '"' {
        lemma_parse_string_body_adv(s, i + 1);
    }
}

proof fn lemma_parse_number_adv(s: Seq<char>, i: int)
    ensures
        parse_number(s, i) matches Some(p) ==> 0 <= i < p.1 <= s.len(),
{
    if 0 <= i < s.len() && is_digit(s[i]) && s[i] != '0' {
        lemma_digits_end_le(s, i + 1);
    }
}

proof fn lemma_skip_scalar_adv(s: Seq<char>, i: int)
    ensures
        skip_scalar(s, i) matches Some(j) ==> 0 <= i < j <= s.len(),
    decreases s.len() - i,
{
    reveal_strlit("true");
    reveal_strlit("false");
    reveal_strlit("null");
    lemma_parse_string_adv(s, i);
    lemma_parse_number_adv(s, i);
}

proof fn lemma_parse_member_adv(s: Seq<char>, i: int, r: RouteModel)
    ensures
        parse_member(s, i, r) matches Some(p) ==> 0 <= i < p.1 <= s.len(),
{
    reveal_strlit("true");
    reveal_strlit("false");
    lemma_parse_string_adv(s, i);
    match parse_string(s, i) {
        Some((key, j)) => {
            lemma_skip_ws_le(s, j);
            let j2 = skip_ws(s, j);
            if j2 < s.len() && s[j2] == ':' {
                lemma_skip_ws_le(s, j2 + 1);
                let j3 = skip_ws(s, j2 + 1);
                lemma_parse_string_adv(s, j3);
                lemma_parse_number_adv(s, j3);
                lemma_skip_scalar_adv(s, j3);
            }
        },
        None => (),
    }
}

proof fn lemma_parse_members_rest_adv(s: Seq<char>, i: int, r: RouteModel)
    requires
        0 <= i <= s.len(),
    ensures
        parse_members_rest(s, i, r) matches Some(p) ==> i < p.1 <= s.len(),
    decreases s.len() - i,
{
    lemma_skip_ws_le(s, i);
    let j = skip_ws(s, i);
    if j < s.len() && s[j] == ',' {
        lemma_skip_ws_le(s, j + 1);
        let k = skip_ws(s, j + 1);
        lemma_parse_member_adv(s, k, r);
        match parse_member(s, k, r) {
            Some((r2, m)) => lemma_parse_members_rest_adv(s, m, r2),
            None => (),
        }
    }
}

proof fn lemma_parse_object_adv(s: Seq<char>, i: int)
    ensures
        parse_object(s, i) matches Some(p) ==> 0 <= i < p.1 <= s.len(),
{
    if 0 <= i < s.len() && s[i] == '{' {
        lemma_skip_ws_le(s, i + 1);
        let j = skip_ws(s, i + 1);
        lemma_parse_member_adv(s, j, default_route_model());
        match parse_member(s, j, default_route_model()) {
            Some((r, k)) => lemma_parse_members_rest_adv(s, k, r),
            None => (),
        }
    }
}

/// Whether `c` is a decimal digit.
fn is_digit_x(c: char) -> (r: bool)
    ensures
        r == is_digit(c),
{
    let u = c as u32;
    48 <= u && u <= 57
}

/// The executable counterpart of [`skip_ws`].
pub(crate) fn skip_ws_x(s: &str, n: usize, i: usize) -> (r: usize)
    requires
        n == s@.len(),
        i <= n,
    ensures
        r as int == skip_ws(s@, i as int),
        i <= r <= n,
{
    let mut k = i;
    while k < n
        invariant
            n == s@.len(),
            i <= k <= n,
            skip_ws(s@, i as int) == skip_ws(s@, k as int),
        decreases n - k,
    {
        let c = s.get_char(k);
        if c == ' ' || c == '\n' || c == '\t' || c == '\r' {
            k += 1;
        } else {
            proof {
                assert(skip_ws(s@, k as int) == k as int);
            }
            return k;
        }
    }
    proof {
        assert(skip_ws(s@, k as int) == k as int);
    }
    k
}

/// The executable counterpart of [`matches_lit`].
fn lit_at(s: &str, n: usize, i: usize, lit: &str) -> (r: bool)
    requires
        n == s@.len(),
        i <= n,
    ensures
        r == matches_lit(s@, i as int, lit@),
{
    let l = lit.unicode_len();
    if l > n - i {
        return false;
    }
    let sub = s.substring_char(i, i + l);
    crate::table::str_eq(sub, lit)
}

/// The executable counterpart of [`parse_number`], refusing values that do
/// not fit a status code's type.
fn parse_u16_x(s: &str, n: usize, i: usize) -> (r: Option<(u16, usize)>)
    requires
        n == s@.len(),
        i <= n,
    ensures
        match parse_number(s@, i as int) {
            Some(p) => if p.0 <= 65535 {
                r matches Some(q) && q.0 as int == p.0 && q.1 as int == p.1
            } else {
                r is None
            },
            None => r is None,
        },
{
    if i >= n {
        return None;
    }
    let c = s.get_char(i);
    if !is_digit_x(c) {
        return None;
    }
    if c == '0' {
        return Some((0, i + 1));
    }
    let mut k = i;
    let mut acc: u32 = 0;
    loop
        invariant
            n == s@.len(),
            i <= k <= n,
            acc <= 65535,
            digits_val(s@, i as int, 0) == digits_val(s@, k as int, acc as int),
            digits_end(s@, i as int) == digits_end(s@, k as int),
            parse_number(s@, i as int) == Some((digits_val(s@, i as int, 0), digits_end(s@, i as int))),
        decreases n - k,
    {
        if k >= n {
            proof {
                assert(digits_end(s@, k as int) == k as int);
                assert(digits_val(s@, k as int, acc as int) == acc as int);
            }
            return Some((acc as u16, k));
        }
        let c2 = s.get_char(k);
        if !is_digit_x(c2) {
            proof {
                assert(digits_end(s@, k as int) == k as int);
                assert(digits_val(s@, k as int, acc as int) == acc as int);
            }
            return Some((acc as u16, k));
        }
        let d = c2 as u32 - 48;
        proof {
            assert(digit_val(s@[k as int]) == d as int);
            assert(digits_val(s@, k as int, acc as int) == digits_val(
                s@,
                k as int + 1,
                acc as int * 10 + d as int,
            ));
            assert(digits_end(s@, k as int) == digits_end(s@, k as int + 1));
        }
        let newacc = acc * 10 + d;
        if newacc > 65535 {
            proof {
                lemma_digits_val_ge(s@, k as int + 1, newacc as int);
            }
            return None;
        }
        acc = newacc;
        k += 1;
    }
}

/// Walk past a digit run whose value is not needed.
fn skip_number_x(s: &str, n: usize, i: usize) -> (r: usize)
    requires
        n == s@.len(),
        i < n,
        is_digit(s@[i as int]),
        s@[i as int] != '0',
    ensures
        parse_number(s@, i as int) matches Some(p) ==> r as int == p.1,
        i < r <= n,
{
    let mut k = i + 1;
    proof {
        assert(digits_end(s@, i as int) == digits_end(s@, i as int + 1));
    }
    while k < n
        invariant
            n == s@.len(),
            i < k <= n,
            is_digit(s@[i as int]),
            s@[i as int] != '0',
            digits_end(s@, i as int) == digits_end(s@, k as int),
        decreases n - k,
    {
        let c2 = s.get_char(k);
        if !is_digit_x(c2) {
            proof {
                assert(digits_end(s@, k as int) == k as int);
            }
            return k;
        }
        proof {
            assert(digits_end(s@, k as int) == digits_end(s@, k as int + 1));
        }
        k += 1;
    }
    proof {
        assert(digits_end(s@, k as int) == k as int);
    }
    k
}

/// Append the character an escape stands for; refuse unknown escapes.
fn append_escaped(out: &mut String, e: char) -> (ok: bool)
    ensures
        match unescape(e) {
            Some(c) => ok && final(out)@ == old(out)@ + seq![c],
            None => !ok && final(out)@ == old(out)@,
        },
{
    if e == '"' {
        out.append("\"");
        proof {
            reveal_strlit("\"");
            assert("\""@ =~= seq!['"']);
        }
        true
    } else if e == '\\' {
        out.append("\\");
        proof {
            reveal_strlit("\\");
            assert("\\"@ =~= seq!['\\']);
        }
        true
    } else if e == '/' {
        out.append("/");
        proof {
            reveal_strlit("/");
            assert("/"@ =~= seq!['/']);
        }
        true
    } else if e == 'n' {
        out.append("\n");
        proof {
            reveal_strlit("\n");
            assert("\n"@ =~= seq!['\n']);
        }
        true
    } else if e == 't' {
        out.append("\t");
        proof {
            reveal_strlit("\t");
            assert("\t"@ =~= seq!['\t']);
        }
        true
    } else if e == 'r' {
        out.append("\r");
        proof {
            reveal_strlit("\r");
            assert("\r"@ =~= seq!['\r']);
        }
        true
    } else if e == 'b' {
        out.append("\u{0008}");
        proof {
            reveal_strlit("\u{0008}");
            assert("\u{0008}"@ =~= seq!['\u{0008}']);
        }
        true
    } else if e == 'f' {
        out.append("\u{000C}");
        proof {
            reveal_strlit("\u{000C}");
            assert("\u{000C}"@ =~= seq!['\u{000C}']);
        }
        true
    } else {
        false
    }
}

/// The executable counterpart of [`parse_string`].
fn parse_string_x(s: &str, n: usize, i: usize) -> (r: Option<(String, usize)>)
    requires
        n == s@.len(),
        i <= n,
    ensures
        match r {
            Some(p) => parse_string(s@, i as int) == Some((p.0@, p.1 as int)) && i < p.1 <= n,
            None => parse_string(s@, i as int) is None,
        },
{
    if i >= n {
        return None;
    }
    if s.get_char(i) != '"' {
        return None;
    }
    let mut out = String::new();
    let mut k = i + 1;
    loop
        invariant
            n == s@.len(),
            i + 1 <= k <= n,
            i < n,
            s@[i as int] == '"',
            with_prefix(out@, parse_string_body(s@, k as int)) == parse_string_body(
                s@,
                i as int + 1,
            ),
        decreases n - k,
    {
        if k >= n {
            proof {
                assert(parse_string_body(s@, k as int) is None);
            }
            return None;
        }
        let c = s.get_char(k);
        if c == '"' {
            proof {
                assert(parse_string_body(s@, k as int) == Some(
                    (Seq::<char>::empty(), k as int + 1),
                ));
                assert(out@ + Seq::<char>::empty() =~= out@);
            }
            return Some((out, k + 1));
        }
        if c == '\\' {
            if k + 1 >= n {
                proof {
                    assert(parse_string_body(s@, k as int) is None);
                }
                return None;
            }
            let e = s.get_char(k + 1);
            let ghost out_old = out@;
            let ok = append_escaped(&mut out, e);
            if !ok {
                proof {
                    assert(parse_string_body(s@, k as int) is None);
                }
                return None;
            }
            proof {
                match unescape(e) {
                    Some(c2) => {
                        assert(parse_string_body(s@, k as int) == with_prefix(
                            seq![c2],
                            parse_string_body(s@, k as int + 2),
                        ));
                        match parse_string_body(s@, k as int + 2) {
                            Some(p) => {
                                assert(out_old + (seq![c2] + p.0) =~= (out_old + seq![c2]) + p.0);
                            },
                            None => {},
                        }
                    },
                    None => {
                        assert(false);
                    },
                }
            }
            k += 2;
        } else {
            let u = c as u32;
            if u < 32 {
                proof {
                    assert(parse_string_body(s@, k as int) is None);
                }
                return None;
            }
            let ghost out_old = out@;
            let piece = s.substring_char(k, k + 1);
            out.append(piece);
            proof {
                assert(piece@ =~= seq![s@[k as int]]);
                assert(parse_string_body(s@, k as int) == with_prefix(
                    seq![s@[k as int]],
                    parse_string_body(s@, k as int + 1),
                ));
                let ghost ck = seq![s@[k as int]];
                match parse_string_body(s@, k as int + 1) {
                    Some(p) => {
                        assert(out_old + (ck + p.0) =~= (out_old + ck) + p.0);
                    },
                    None => {},
                }
            }
            k += 1;
        }
    }
}

/// The executable counterpart of [`skip_scalar`].
fn skip_scalar_x(s: &str, n: usize, i: usize) -> (r: Option<usize>)
    requires
        n == s@.len(),
        i <= n,
    ensures
        match r {
            Some(j) => skip_scalar(s@, i as int) == Some(j as int) && i < j <= n,
            None => skip_scalar(s@, i as int) is None,
        },
{
    proof {
        reveal_strlit("true");
        reveal_strlit("false");
        reveal_strlit("null");
    }
    if i < n && s.get_char(i) == '"' {
        match parse_string_x(s, n, i) {
            Some(p) => {
                proof {
                    assert(skip_scalar(s@, i as int) == Some(p.1 as int));
                }
                Some(p.1)
            },
            None => {
                proof {
                    if matches_lit(s@, i as int, "true"@) {
                        assert(s@.subrange(i as int, i as int + 4)[0] == s@[i as int]);
                    }
                    if matches_lit(s@, i as int, "false"@) {
                        assert(s@.subrange(i as int, i as int + 5)[0] == s@[i as int]);
                    }
                    if matches_lit(s@, i as int, "null"@) {
                        assert(s@.subrange(i as int, i as int + 4)[0] == s@[i as int]);
                    }
                    assert(skip_scalar(s@, i as int) is None);
                }
                None
            },
        }
    } else if i < n && is_digit_x(s.get_char(i)) {
        proof {
            assert(s@[i as int] != '"');
            assert(parse_string(s@, i as int) is None);
        }
        if s.get_char(i) == '0' {
            proof {
                assert(parse_number(s@, i as int) == Some((0int, i as int + 1)));
            }
            Some(i + 1)
        } else {
            let j = skip_number_x(s, n, i);
            Some(j)
        }
    } else if lit_at(s, n, i, "true") {
        proof {
            assert(s@.subrange(i as int, i as int + 4)[0] == s@[i as int]);
            assert(s@[i as int] == 't');
            assert(parse_string(s@, i as int) is None);
            assert(parse_number(s@, i as int) is None);
            assert(skip_scalar(s@, i as int) == Some(i as int + 4));
        }
        Some(i + 4)
    } else if lit_at(s, n, i, "false") {
        proof {
            assert(s@.subrange(i as int, i as int + 5)[0] == s@[i as int]);
            assert(s@[i as int] == 'f');
            assert(parse_string(s@, i as int) is None);
            assert(parse_number(s@, i as int) is None);
            assert(skip_scalar(s@, i as int) == Some(i as int + 5));
        }
        Some(i + 5)
    } else if lit_at(s, n, i, "null") {
        proof {
            assert(s@.subrange(i as int, i as int + 4)[0] == s@[i as int]);
            assert(s@[i as int] == 'n');
            assert(parse_string(s@, i as int) is None);
            assert(parse_number(s@, i as int) is None);
            assert(skip_scalar(s@, i as int) == Some(i as int + 4));
        }
        Some(i + 4)
    } else {
        proof {
            assert(parse_string(s@, i as int) is None);
            assert(parse_number(s@, i as int) is None);
            assert(skip_scalar(s@, i as int) is None);
        }
        None
    }
}

/// The executable counterpart of [`parse_member`], applied to `route` in
/// place. When the member is malformed nothing is promised of `route`: the
/// caller discards it.
fn parse_member_x(s: &str, n: usize, i: usize, route: &mut Route) -> (r: Option<usize>)
    requires
        n == s@.len(),
        i <= n,
    ensures
        match r {
            Some(j) => parse_member(s@, i as int, old(route)@) == Some((final(route)@, j as int))
                && i < j <= n,
            None => parse_member(s@, i as int, old(route)@) is None,
        },
{
    proof {
        reveal_strlit("true");
        reveal_strlit("false");
        lemma_parse_member_adv(s@, i as int, route@);
    }
    let key = match parse_string_x(s, n, i) {
        None => {
            return None;
        },
        Some(p) => p,
    };
    let j2 = skip_ws_x(s, n, key.1);
    if j2 >= n {
        return None;
    }
    if s.get_char(j2) != ':' {
        return None;
    }
    let j3 = skip_ws_x(s, n, j2 + 1);
    if crate::table::str_eq(key.0.as_str(), "method") {
        match parse_string_x(s, n, j3) {
            Some(p) => {
                route.method = p.0;
                Some(p.1)
            },
            None => None,
        }
    } else if crate::table::str_eq(key.0.as_str(), "path") {
        match parse_string_x(s, n, j3) {
            Some(p) => {
                route.path = p.0;
                Some(p.1)
            },
            None => None,
        }
    } else if crate::table::str_eq(key.0.as_str(), "response") {
        match parse_string_x(s, n, j3) {
            Some(p) => {
                route.response = p.0;
                Some(p.1)
            },
            None => None,
        }
    } else if crate::table::str_eq(key.0.as_str(), "code") {
        match parse_u16_x(s, n, j3) {
            Some(p) => {
                route.code = p.0;
                Some(p.1)
            },
            None => None,
        }
    } else if crate::table::str_eq(key.0.as_str(), "error") {
        if lit_at(s, n, j3, "true") {
            route.error = true;
            Some(j3 + 4)
        } else if lit_at(s, n, j3, "false") {
            route.error = false;
            Some(j3 + 5)
        } else {
            None
        }
    } else {
        skip_scalar_x(s, n, j3)
    }
}

/// The executable counterpart of [`parse_object`]: one route definition,
/// starting from the defaults.
pub(crate) fn parse_object_x(s: &str, n: usize, i: usize) -> (r: Option<(Route, usize)>)
    requires
        n == s@.len(),
        i <= n,
    ensures
        match r {
            Some(p) => parse_object(s@, i as int) == Some((p.0@, p.1 as int)) && i < p.1 <= n,
            None => parse_object(s@, i as int) is None,
        },
{
    if i >= n {
        return None;
    }
    if s.get_char(i) != '{' {
        return None;
    }
    let j = skip_ws_x(s, n, i + 1);
    let mut route = Route::default();
    if j < n && s.get_char(j) == '}' {
        return Some((route, j + 1));
    }
    let ghost rb0 = route@;
    let k0 = match parse_member_x(s, n, j, &mut route) {
        None => {
            return None;
        },
        Some(k) => k,
    };
    let ghost target = parse_object(s@, i as int);
    proof {
        assert(target == parse_members_rest(s@, k0 as int, route@));
    }
    let mut cur = k0;
    loop
        invariant
            n == s@.len(),
            i < cur <= n,
            target == parse_object(s@, i as int),
            parse_members_rest(s@, cur as int, route@) == target,
        decreases n - cur,
    {
        let j5 = skip_ws_x(s, n, cur);
        if j5 >= n {
            return None;
        }
        let c = s.get_char(j5);
        if c == '}' {
            return Some((route, j5 + 1));
        } else if c == ',' {
            let j6 = skip_ws_x(s, n, j5 + 1);
            let ghost rb = route@;
            match parse_member_x(s, n, j6, &mut route) {
                None => {
                    proof {
                        assert(parse_members_rest(s@, cur as int, rb) is None);
                    }
                    return None;
                },
                Some(m) => {
                    proof {
                        assert(parse_members_rest(s@, cur as int, rb) == parse_members_rest(
                            s@,
                            m as int,
                            route@,
                        ));
                    }
                    cur = m;
                },
            }
        } else {
            return None;
        }
    }
}

} // verus!
