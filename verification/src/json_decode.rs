//! The executable JSON decoder, proved equivalent to the `parse_user`
//! specification: it returns `Ok(u)` exactly when the text denotes `u`,
//! and a `DecodingError` exactly when the text denotes no user record.

use vstd::prelude::*;
use vstd::string::StrSliceExecFns;
use vstd::string::StringExecFns;
use crate::chars::{chars_to_string, is_dec_digit, digit_val};
use crate::errors::Error;
use crate::json::{
    is_json_ws, skip_ws, is_hex_digit, hex_val, hex4_ok, hex4_val, parse_i32, parse_string_body,
    parse_bool, parse_key, parse_field, parse_members, parse_user, unescape_simple, digits_len,
    digits_val, PartialUser, empty_partial, partial_complete, partial_view,
};
use crate::user::User;

verus! {

// ---------------------------------------------------------------------
// Small arithmetic helpers for digit runs
// ---------------------------------------------------------------------

pub(crate) open spec fn pow10(n: nat) -> int
    decreases n,
{
    if n == 0 {
        1
    } else {
        10 * pow10((n - 1) as nat)
    }
}

proof fn lemma_pow10_ten()
    ensures
        pow10(10) == 10_000_000_000,
{
    assert(pow10(0) == 1);
    assert(pow10(1) == 10);
    assert(pow10(2) == 100);
    assert(pow10(3) == 1000);
    assert(pow10(4) == 10000);
    assert(pow10(5) == 100000);
    assert(pow10(6) == 1000000);
    assert(pow10(7) == 10000000);
    assert(pow10(8) == 100000000);
    assert(pow10(9) == 1000000000);
}

pub(crate) proof fn lemma_digits_len_of(s: Seq<char>, k: int)
    requires
        0 <= k <= s.len(),
        forall|t: int| 0 <= t < k ==> is_dec_digit(s[t]),
        k == s.len() || !is_dec_digit(s[k]),
    ensures
        digits_len(s) == k,
    decreases k,
{
    if k == 0 {
    } else {
        assert(is_dec_digit(s[0]));
        lemma_digits_len_of(s.drop_first(), k - 1);
    }
}

pub(crate) proof fn lemma_digits_val_bounds(s: Seq<char>)
    requires
        forall|t: int| 0 <= t < s.len() ==> is_dec_digit(s[t]),
    ensures
        0 <= digits_val(s) < pow10(s.len() as nat),
    decreases s.len(),
{
    if s.len() > 0 {
        lemma_digits_val_bounds(s.drop_last());
        assert(0 <= digit_val(s.last()) <= 9);
    }
}

proof fn lemma_digits_val_lower(s: Seq<char>)
    requires
        s.len() > 0,
        forall|t: int| 0 <= t < s.len() ==> is_dec_digit(s[t]),
        digit_val(s[0]) >= 1,
    ensures
        digits_val(s) >= pow10((s.len() - 1) as nat),
    decreases s.len(),
{
    if s.len() == 1 {
        assert(s.last() == s[0]);
        assert(digits_val(s) == digits_val(s.drop_last()) * 10 + digit_val(s.last()));
        assert(s.drop_last().len() == 0);
    } else {
        let d = s.drop_last();
        assert(d[0] == s[0]);
        lemma_digits_val_lower(d);
        let p = pow10((d.len() - 1) as nat);
        assert(pow10((s.len() - 1) as nat) == 10 * p);
        assert(digits_val(d) >= p);
        assert(digits_val(d) * 10 >= p * 10) by (nonlinear_arith)
            requires
                digits_val(d) >= p,
        ;
        assert(digit_val(s.last()) >= 0);
    }
}

// ---------------------------------------------------------------------
// Exec counterparts of the small character predicates
// ---------------------------------------------------------------------

fn ws_char(c: char) -> (r: bool)
    ensures
        r == is_json_ws(c),
{
    c == ' ' || c == '\t' || c == '\n' || c == '\r'
}

fn digit_char_p(c: char) -> (r: bool)
    ensures
        r == is_dec_digit(c),
{
    '0' <= c && c <= '9'
}

fn hex_char_p(c: char) -> (r: bool)
    ensures
        r == is_hex_digit(c),
{
    ('0' <= c && c <= '9') || ('a' <= c && c <= 'f') || ('A' <= c && c <= 'F')
}

fn hex_char_val(c: char) -> (r: u32)
    requires
        is_hex_digit(c),
    ensures
        r == hex_val(c),
        r < 16,
{
    if '0' <= c && c <= '9' {
        (c as u32) - ('0' as u32)
    } else if 'a' <= c && c <= 'f' {
        (c as u32) - ('a' as u32) + 10
    } else {
        (c as u32) - ('A' as u32) + 10
    }
}

/// Relies on `char::from_u32`: for every Unicode scalar value it returns
/// `Some` of the character with that code.
#[verifier::external_body]
fn char_from_code(n: u32) -> (r: char)
    requires
        n < 0xD800 || (0xE000 <= n && n <= 0x10FFFF),
    ensures
        r as u32 == n,
{
    char::from_u32(n).unwrap_or(' ')
}

/// The characters of `s` as a vector.
pub(crate) fn to_chars(s: &str) -> (v: Vec<char>)
    ensures
        v@ == s@,
{
    let n = s.unicode_len();
    let mut v: Vec<char> = Vec::new();
    let mut i: usize = 0;
    while i < n
        invariant
            i <= n,
            n == s@.len(),
            v@ == s@.take(i as int),
        decreases n - i,
    {
        let c = s.get_char(i);
        v.push(c);
        proof {
            assert(s@.take(i + 1) =~= s@.take(i as int) + seq![c]);
        }
        i = i + 1;
    }
    proof {
        assert(s@.take(n as int) =~= s@);
    }
    v
}

/// Advances past whitespace: the suffix at the result is the suffix at
/// `i` with its leading whitespace removed.
fn ws_end(v: &Vec<char>, i: usize) -> (j: usize)
    requires
        i <= v@.len(),
    ensures
        i <= j <= v@.len(),
        skip_ws(v@.skip(i as int)) == v@.skip(j as int),
{
    let n = v.len();
    let mut j: usize = i;
    while j < n && ws_char(v[j])
        invariant
            i <= j <= n,
            n == v@.len(),
            skip_ws(v@.skip(i as int)) == skip_ws(v@.skip(j as int)),
        decreases n - j,
    {
        proof {
            assert(v@.skip(j as int)[0] == v@[j as int]);
            assert(v@.skip(j as int).drop_first() =~= v@.skip(j + 1));
        }
        j = j + 1;
    }
    proof {
        if j < n {
            assert(v@.skip(j as int)[0] == v@[j as int]);
        }
        assert(skip_ws(v@.skip(j as int)) == v@.skip(j as int));
    }
    j
}

// ---------------------------------------------------------------------
// Integers
// ---------------------------------------------------------------------

/// Parses a 32-bit integer at `i`, equivalent to the `parse_i32` spec.
fn parse_i32_exec(v: &Vec<char>, i: usize) -> (r: Option<(i32, usize)>)
    requires
        i <= v@.len(),
    ensures
        match r {
            Some(t) => i <= t.1 <= v@.len() && parse_i32(v@.skip(i as int)) == Some(
                (t.0 as int, v@.skip(t.1 as int)),
            ),
            None => parse_i32(v@.skip(i as int)) is None,
        },
{
    let ghost s = v@.skip(i as int);
    let n = v.len();
    let neg = i < n && v[i] == '-';
    let d0: usize = if neg {
        i + 1
    } else {
        i
    };
    let ghost t = if neg {
        s.drop_first()
    } else {
        s
    };
    proof {
        assert(t =~= v@.skip(d0 as int));
    }
    // scan the digit run
    let mut j: usize = d0;
    while j < n && digit_char_p(v[j])
        invariant
            d0 <= j <= n,
            n == v@.len(),
            forall|q: int| d0 <= q < j ==> is_dec_digit(v@[q]),
        decreases n - j,
    {
        j = j + 1;
    }
    let k = j - d0;
    proof {
        assert forall|q: int| 0 <= q < k implies is_dec_digit(t[q]) by {
            assert(t[q] == v@[d0 + q]);
        }
        if (j as int) < n {
            assert(t[k as int] == v@[j as int]);
        }
        lemma_digits_len_of(t, k as int);
        assert(digits_len(t) == k as int);
    }
    if k == 0 {
        return None;
    }
    if v[d0] == '0' && k > 1 {
        return None;
    }
    let ghost run = t.take(k as int);
    proof {
        assert forall|q: int| 0 <= q < run.len() implies is_dec_digit(run[q]) by {
            assert(run[q] == t[q]);
        }
        lemma_digits_val_bounds(run);
    }
    if k > 10 {
        // the value cannot fit in 32 signed bits
        proof {
            assert(run[0] == t[0]);
            assert(digit_val(run[0]) >= 1);
            lemma_digits_val_lower(run);
            assert(pow10((run.len() - 1) as nat) >= pow10(10)) by {
                lemma_pow10_mono(10, (run.len() - 1) as nat);
            }
            lemma_pow10_ten();
        }
        return None;
    }
    // accumulate the value; at most ten digits, so an i64 suffices
    let mut acc: i64 = 0;
    let mut q: usize = d0;
    while q < j
        invariant
            d0 <= q <= j,
            j <= n,
            n == v@.len(),
            k == j - d0,
            k <= 10,
            run == t.take(k as int),
            t == v@.skip(d0 as int),
            forall|p: int| d0 <= p < j ==> is_dec_digit(v@[p]),
            acc == digits_val(t.take((q - d0) as int)),
            0 <= acc < pow10((q - d0) as nat),
        decreases j - q,
    {
        let ghost pre = t.take((q - d0) as int);
        let c = v[q];
        proof {
            assert(is_dec_digit(v@[q as int]));
            assert(t.take((q + 1 - d0) as int).drop_last() =~= pre);
            assert(t.take((q + 1 - d0) as int).last() == t[(q - d0) as int]);
            assert(t[(q - d0) as int] == v@[q as int]);
            assert(pow10(((q + 1) - d0) as nat) == 10 * pow10((q - d0) as nat));
            lemma_pow10_mono(((q + 1) - d0) as nat, 10);
            lemma_pow10_ten();
        }
        let d: u32 = (c as u32) - ('0' as u32);
        acc = acc * 10 + (d as i64);
        q = q + 1;
    }
    proof {
        assert(t.take((j - d0) as int) == run);
        assert(digits_val(run) == acc);
    }
    let val: i64 = if neg {
        -acc
    } else {
        acc
    };
    if j < n && (v[j] == '.' || v[j] == 'e' || v[j] == 'E') {
        proof {
            assert(t.skip(k as int)[0] == t[k as int]);
            assert(t[k as int] == v@[j as int]);
        }
        return None;
    }
    if val < -2147483648i64 || val > 2147483647i64 {
        return None;
    }
    proof {
        assert(t.skip(k as int) =~= v@.skip(j as int));
        if (j as int) < n {
            assert(t.skip(k as int)[0] == v@[j as int]);
        }
    }
    Some((val as i32, j))
}

proof fn lemma_pow10_mono(a: nat, b: nat)
    requires
        a <= b,
    ensures
        pow10(a) <= pow10(b),
        pow10(a) >= 1,
    decreases b,
{
    if a == b {
        lemma_pow10_pos(a);
    } else {
        lemma_pow10_mono(a, (b - 1) as nat);
    }
}

proof fn lemma_pow10_pos(a: nat)
    ensures
        pow10(a) >= 1,
    decreases a,
{
    if a > 0 {
        lemma_pow10_pos((a - 1) as nat);
    }
}

// ---------------------------------------------------------------------
// Strings
// ---------------------------------------------------------------------

/// Parses a string body (after the opening quote) at `i`, equivalent to
/// the `parse_string_body` spec.
fn parse_str_exec(v: &Vec<char>, i: usize) -> (r: Option<(Vec<char>, usize)>)
    requires
        i <= v@.len(),
    ensures
        match r {
            Some(t) => t.1 <= v@.len() && parse_string_body(v@.skip(i as int)) == Some(
                (t.0@, v@.skip(t.1 as int)),
            ),
            None => parse_string_body(v@.skip(i as int)) is None,
        },
{
    let n = v.len();
    let mut out: Vec<char> = Vec::new();
    let mut cur: usize = i;
    loop
        invariant
            i <= cur <= n,
            n == v@.len(),
            (match parse_string_body(v@.skip(cur as int)) {
                Some(br) => parse_string_body(v@.skip(i as int)) == Some((out@ + br.0, br.1)),
                None => parse_string_body(v@.skip(i as int)) is None,
            }),
        decreases n - cur,
    {
        let ghost s = v@.skip(cur as int);
        if cur == n {
            return None;
        }
        let c = v[cur];
        proof {
            assert(s[0] == v@[cur as int]);
        }
        if c == '"' {
            proof {
                assert(s.drop_first() =~= v@.skip(cur + 1));
                assert(out@ + Seq::<char>::empty() =~= out@);
            }
            return Some((out, cur + 1));
        }
        if c == '\\' {
            if n - cur < 2 {
                proof {
                    assert(s.len() < 2);
                }
                return None;
            }
            let e = v[cur + 1];
            proof {
                assert(s[1] == v@[cur + 1]);
            }
            if e == 'u' {
                let ghost s2 = s.skip(2);
                proof {
                    assert(s2 =~= v@.skip(cur + 2));
                }
                if n - cur < 6 {
                    proof {
                        assert(s2.len() < 4);
                    }
                    return None;
                }
                let h0 = v[cur + 2];
                let h1 = v[cur + 3];
                let h2 = v[cur + 4];
                let h3 = v[cur + 5];
                proof {
                    assert(s2[0] == v@[cur + 2]);
                    assert(s2[1] == v@[cur + 3]);
                    assert(s2[2] == v@[cur + 4]);
                    assert(s2[3] == v@[cur + 5]);
                }
                if !(hex_char_p(h0) && hex_char_p(h1) && hex_char_p(h2) && hex_char_p(h3)) {
                    return None;
                }
                let code: u32 = ((hex_char_val(h0) * 16 + hex_char_val(h1)) * 16 + hex_char_val(h2))
                    * 16 + hex_char_val(h3);
                proof {
                    assert(hex4_ok(s2));
                    assert(code == hex4_val(s2));
                }
                if 0xD800 <= code && code < 0xDC00 {
                    // a high surrogate must be followed by a low one
                    let ghost t = s.skip(6);
                    proof {
                        assert(t =~= v@.skip(cur + 6));
                    }
                    if n - cur < 12 {
                        proof {
                            assert(t.len() < 6);
                        }
                        return None;
                    }
                    proof {
                        assert(t[0] == v@[cur + 6]);
                        assert(t[1] == v@[cur + 7]);
                    }
                    if !(v[cur + 6] == '\\' && v[cur + 7] == 'u') {
                        return None;
                    }
                    let g0 = v[cur + 8];
                    let g1 = v[cur + 9];
                    let g2 = v[cur + 10];
                    let g3 = v[cur + 11];
                    let ghost t2 = t.skip(2);
                    proof {
                        assert(t2 =~= v@.skip(cur + 8));
                        assert(t2[0] == v@[cur + 8]);
                        assert(t2[1] == v@[cur + 9]);
                        assert(t2[2] == v@[cur + 10]);
                        assert(t2[3] == v@[cur + 11]);
                    }
                    if !(hex_char_p(g0) && hex_char_p(g1) && hex_char_p(g2) && hex_char_p(g3)) {
                        return None;
                    }
                    let lo: u32 = ((hex_char_val(g0) * 16 + hex_char_val(g1)) * 16 + hex_char_val(
                        g2,
                    )) * 16 + hex_char_val(g3);
                    proof {
                        assert(hex4_ok(t2));
                        assert(lo == hex4_val(t2));
                    }
                    if !(0xDC00 <= lo && lo < 0xE000) {
                        return None;
                    }
                    let cp: u32 = 0x10000 + (code - 0xD800) * 0x400 + (lo - 0xDC00);
                    let decoded = char_from_code(cp);
                    proof {
                        vstd::utf8::char_u32_cast(decoded, cp);
                        assert(s.skip(12) =~= v@.skip(cur + 12));
                    }
                    let ghost prev_out = out@;
                    out.push(decoded);
                    proof {
                        lemma_psb_step(v@, i as int, cur as int, cur + 12, prev_out, decoded);
                    }
                    cur = cur + 12;
                } else if 0xDC00 <= code && code < 0xE000 {
                    return None;
                } else {
                    let decoded = char_from_code(code);
                    proof {
                        vstd::utf8::char_u32_cast(decoded, code);
                        assert(s.skip(6) =~= v@.skip(cur + 6));
                    }
                    let ghost prev_out = out@;
                    out.push(decoded);
                    proof {
                        lemma_psb_step(v@, i as int, cur as int, cur + 6, prev_out, decoded);
                    }
                    cur = cur + 6;
                }
            } else {
                let decoded: char;
                match e {
                    '"' => decoded = '"',
                    '\\' => decoded = '\\',
                    '/' => decoded = '/',
                    'b' => decoded = '\u{8}',
                    'f' => decoded = '\u{c}',
                    'n' => decoded = '\n',
                    'r' => decoded = '\r',
                    't' => decoded = '\t',
                    _ => {
                        proof {
                            assert(unescape_simple(e) is None);
                        }
                        return None;
                    },
                }
                proof {
                    assert(unescape_simple(e) == Some(decoded));
                    assert(s.skip(2) =~= v@.skip(cur + 2));
                }
                let ghost prev_out = out@;
                out.push(decoded);
                proof {
                    lemma_psb_step(v@, i as int, cur as int, cur + 2, prev_out, decoded);
                }
                cur = cur + 2;
            }
        } else if ' ' > c {
            proof {
                assert((c as int) < 0x20);
            }
            return None;
        } else {
            proof {
                assert(!((c as int) < 0x20));
            }
            proof {
                assert(s.drop_first() =~= v@.skip(cur + 1));
            }
            let ghost prev_out = out@;
            out.push(c);
            proof {
                lemma_psb_step(v@, i as int, cur as int, cur + 1, prev_out, c);
            }
            cur = cur + 1;
        }
    }
}

/// One decoding step: when the spec parser at `cur` yields `decoded`
/// followed by whatever it yields at `nxt`, the accumulated output moves
/// the character from the parser's head to the builder's tail.
proof fn lemma_psb_step(
    w: Seq<char>,
    start: int,
    cur: int,
    nxt: int,
    prev_out: Seq<char>,
    decoded: char,
)
    requires
        0 <= start <= cur <= nxt <= w.len(),
        (match parse_string_body(w.skip(cur)) {
            Some(br) => parse_string_body(w.skip(start)) == Some((prev_out + br.0, br.1)),
            None => parse_string_body(w.skip(start)) is None,
        }),
        (match parse_string_body(w.skip(nxt)) {
            Some(br) => parse_string_body(w.skip(cur)) == Some((seq![decoded] + br.0, br.1)),
            None => parse_string_body(w.skip(cur)) is None,
        }),
    ensures
        match parse_string_body(w.skip(nxt)) {
            Some(br) => parse_string_body(w.skip(start)) == Some(
                (prev_out.push(decoded) + br.0, br.1),
            ),
            None => parse_string_body(w.skip(start)) is None,
        },
{
    match parse_string_body(w.skip(nxt)) {
        Some(br) => {
            assert(prev_out + (seq![decoded] + br.0) =~= prev_out.push(decoded) + br.0);
        },
        None => {},
    }
}

// ---------------------------------------------------------------------
// Booleans, keys, members
// ---------------------------------------------------------------------

/// Parses `true` or `false` at `i`, equivalent to the `parse_bool` spec.
fn parse_bool_exec(v: &Vec<char>, i: usize) -> (r: Option<(bool, usize)>)
    requires
        i <= v@.len(),
    ensures
        match r {
            Some(t) => t.1 <= v@.len() && parse_bool(v@.skip(i as int)) == Some(
                (t.0, v@.skip(t.1 as int)),
            ),
            None => parse_bool(v@.skip(i as int)) is None,
        },
{
    let ghost s = v@.skip(i as int);
    let n = v.len();
    proof {
        assert forall|q: int| 0 <= q < s.len() implies s[q] == v@[i + q] by {}
    }
    if n - i >= 4 && v[i] == 't' && v[i + 1] == 'r' && v[i + 2] == 'u' && v[i + 3] == 'e' {
        proof {
            assert(s.skip(4) =~= v@.skip(i + 4));
        }
        Some((true, i + 4))
    } else if n - i >= 5 && v[i] == 'f' && v[i + 1] == 'a' && v[i + 2] == 'l' && v[i + 3] == 's'
        && v[i + 4] == 'e' {
        proof {
            assert(s.skip(5) =~= v@.skip(i + 5));
        }
        Some((false, i + 5))
    } else {
        None
    }
}

/// Parses a member key (string, optional whitespace, colon) at `i`,
/// equivalent to the `parse_key` spec.
fn parse_key_exec(v: &Vec<char>, i: usize) -> (r: Option<(Vec<char>, usize)>)
    requires
        i <= v@.len(),
    ensures
        match r {
            Some(t) => t.1 <= v@.len() && parse_key(v@.skip(i as int)) == Some(
                (t.0@, v@.skip(t.1 as int)),
            ),
            None => parse_key(v@.skip(i as int)) is None,
        },
{
    let ghost s = v@.skip(i as int);
    let n = v.len();
    if i == n || v[i] != '"' {
        proof {
            if s.len() > 0 {
                assert(s[0] == v@[i as int]);
            }
        }
        return None;
    }
    proof {
        assert(s[0] == v@[i as int]);
        assert(s.drop_first() =~= v@.skip(i + 1));
    }
    match parse_str_exec(v, i + 1) {
        None => None,
        Some((key, j)) => {
            let j2 = ws_end(v, j);
            if j2 < n && v[j2] == ':' {
                proof {
                    assert(v@.skip(j2 as int)[0] == v@[j2 as int]);
                    assert(v@.skip(j2 as int).drop_first() =~= v@.skip(j2 + 1));
                }
                Some((key, j2 + 1))
            } else {
                proof {
                    if j2 < n {
                        assert(v@.skip(j2 as int)[0] == v@[j2 as int]);
                    }
                }
                None
            }
        },
    }
}

/// The fields gathered so far by the executable member parser.
struct PartialExec {
    id: Option<i32>,
    name: Option<String>,
    email: Option<String>,
    age: Option<i32>,
    active: Option<bool>,
}

spec fn pview(p: PartialExec) -> PartialUser {
    PartialUser {
        id: match p.id {
            Some(x) => Some(x as int),
            None => None,
        },
        name: match p.name {
            Some(x) => Some(x@),
            None => None,
        },
        email: match p.email {
            Some(x) => Some(x@),
            None => None,
        },
        age: match p.age {
            Some(x) => Some(x as int),
            None => None,
        },
        active: p.active,
    }
}

/// Parses one member's value for `key` at `i`, equivalent to the
/// `parse_field` spec.
fn parse_field_exec(key: &Vec<char>, p: PartialExec, v: &Vec<char>, i: usize) -> (r: Option<
    (PartialExec, usize),
>)
    requires
        i <= v@.len(),
    ensures
        match r {
            Some(t) => t.1 <= v@.len() && parse_field(key@, pview(p), v@.skip(i as int)) == Some(
                (pview(t.0), v@.skip(t.1 as int)),
            ),
            None => parse_field(key@, pview(p), v@.skip(i as int)) is None,
        },
{
    let n = v.len();
    if key.len() == 2 && key[0] == 'i' && key[1] == 'd' {
        proof {
            assert(key@ =~= seq!['i', 'd']);
        }
        if p.id.is_some() {
            return None;
        }
        match parse_i32_exec(v, i) {
            Some((val, j)) => Some((PartialExec { id: Some(val), ..p }, j)),
            None => None,
        }
    } else if key.len() == 4 && key[0] == 'n' && key[1] == 'a' && key[2] == 'm' && key[3] == 'e' {
        proof {
            assert(key@ =~= seq!['n', 'a', 'm', 'e']);
            assert(key@ != seq!['i', 'd']);
        }
        if p.name.is_some() {
            return None;
        }
        if i == n || v[i] != '"' {
            proof {
                if i < n {
                    assert(v@.skip(i as int)[0] == v@[i as int]);
                }
            }
            return None;
        }
        proof {
            assert(v@.skip(i as int)[0] == v@[i as int]);
            assert(v@.skip(i as int).drop_first() =~= v@.skip(i + 1));
        }
        match parse_str_exec(v, i + 1) {
            Some((text, j)) => Some((PartialExec { name: Some(chars_to_string(&text)), ..p }, j)),
            None => None,
        }
    } else if key.len() == 5 && key[0] == 'e' && key[1] == 'm' && key[2] == 'a' && key[3] == 'i'
        && key[4] == 'l' {
        proof {
            assert(key@ =~= seq!['e', 'm', 'a', 'i', 'l']);
            assert(key@ != seq!['i', 'd']);
            assert(key@ != seq!['n', 'a', 'm', 'e']);
        }
        if p.email.is_some() {
            return None;
        }
        if i == n || v[i] != '"' {
            proof {
                if i < n {
                    assert(v@.skip(i as int)[0] == v@[i as int]);
                }
            }
            return None;
        }
        proof {
            assert(v@.skip(i as int)[0] == v@[i as int]);
            assert(v@.skip(i as int).drop_first() =~= v@.skip(i + 1));
        }
        match parse_str_exec(v, i + 1) {
            Some((text, j)) => Some((PartialExec { email: Some(chars_to_string(&text)), ..p }, j)),
            None => None,
        }
    } else if key.len() == 3 && key[0] == 'a' && key[1] == 'g' && key[2] == 'e' {
        proof {
            assert(key@ =~= seq!['a', 'g', 'e']);
            assert(key@ != seq!['i', 'd']);
            assert(key@ != seq!['n', 'a', 'm', 'e']);
            assert(key@ != seq!['e', 'm', 'a', 'i', 'l']);
        }
        if p.age.is_some() {
            return None;
        }
        match parse_i32_exec(v, i) {
            Some((val, j)) => Some((PartialExec { age: Some(val), ..p }, j)),
            None => None,
        }
    } else if key.len() == 6 && key[0] == 'a' && key[1] == 'c' && key[2] == 't' && key[3] == 'i'
        && key[4] == 'v' && key[5] == 'e' {
        proof {
            assert(key@ =~= seq!['a', 'c', 't', 'i', 'v', 'e']);
            assert(key@ != seq!['i', 'd']);
            assert(key@ != seq!['n', 'a', 'm', 'e']);
            assert(key@ != seq!['e', 'm', 'a', 'i', 'l']);
            assert(key@ != seq!['a', 'g', 'e']);
        }
        if p.active.is_some() {
            return None;
        }
        match parse_bool_exec(v, i) {
            Some((val, j)) => Some((PartialExec { active: Some(val), ..p }, j)),
            None => None,
        }
    } else {
        proof {
            assert(key@ != seq!['i', 'd']);
            assert(key@ != seq!['n', 'a', 'm', 'e']);
            assert(key@ != seq!['e', 'm', 'a', 'i', 'l']);
            assert(key@ != seq!['a', 'g', 'e']);
            assert(key@ != seq!['a', 'c', 't', 'i', 'v', 'e']);
        }
        None
    }
}

/// Parses the members of the object, equivalent to the `parse_members`
/// spec with the same fuel.
fn parse_members_exec(v: &Vec<char>, i: usize, p: PartialExec, fuel: u8) -> (r: Option<
    (PartialExec, usize),
>)
    requires
        i <= v@.len(),
    ensures
        match r {
            Some(t) => t.1 <= v@.len() && parse_members(v@.skip(i as int), pview(p), fuel as nat)
                == Some((pview(t.0), v@.skip(t.1 as int))),
            None => parse_members(v@.skip(i as int), pview(p), fuel as nat) is None,
        },
    decreases fuel,
{
    if fuel == 0 {
        return None;
    }
    let n = v.len();
    let j0 = ws_end(v, i);
    match parse_key_exec(v, j0) {
        None => None,
        Some((key, j1)) => {
            let j2 = ws_end(v, j1);
            match parse_field_exec(&key, p, v, j2) {
                None => None,
                Some((p2, j3)) => {
                    let j4 = ws_end(v, j3);
                    if j4 < n && v[j4] == ',' {
                        proof {
                            assert(v@.skip(j4 as int)[0] == v@[j4 as int]);
                            assert(v@.skip(j4 as int).drop_first() =~= v@.skip(j4 + 1));
                        }
                        parse_members_exec(v, j4 + 1, p2, fuel - 1)
                    } else if j4 < n && v[j4] == '}' {
                        proof {
                            assert(v@.skip(j4 as int)[0] == v@[j4 as int]);
                            assert(v@.skip(j4 as int).drop_first() =~= v@.skip(j4 + 1));
                        }
                        Some((p2, j4 + 1))
                    } else {
                        proof {
                            if j4 < n {
                                assert(v@.skip(j4 as int)[0] == v@[j4 as int]);
                            }
                        }
                        None
                    }
                },
            }
        },
    }
}

impl User {
    /// Decodes a user from JSON text. Returns `Ok` exactly when the text
    /// is a JSON object with the five keys of the record — no key
    /// missing, repeated or foreign, each value of the field's type —
    /// and nothing but whitespace around the object; every other input
    /// yields a `DecodingError` with a diagnostic message.
    pub fn decode_json(text: &str) -> (r: Result<User, Error>)
        ensures
            r matches Ok(u) ==> parse_user(text@) == Some(u@),
            r matches Err(e) ==> parse_user(text@) is None && e is DecodingError,
    {
        let v = to_chars(text);
        let n = v.len();
        proof {
            assert(v@.skip(0) =~= v@);
        }
        let j0 = ws_end(&v, 0);
        if j0 == n || v[j0] != '{' {
            proof {
                if j0 < n {
                    assert(v@.skip(j0 as int)[0] == v@[j0 as int]);
                }
            }
            return Err(Error::DecodingError(String::from_str("expected a JSON object")));
        }
        proof {
            assert(v@.skip(j0 as int)[0] == v@[j0 as int]);
            assert(v@.skip(j0 as int).drop_first() =~= v@.skip(j0 + 1));
        }
        let p0 = PartialExec { id: None, name: None, email: None, age: None, active: None };
        proof {
            assert(pview(p0) == empty_partial());
        }
        match parse_members_exec(&v, j0 + 1, p0, 5) {
            None => Err(
                Error::DecodingError(
                    String::from_str("malformed object or a key outside the record schema"),
                ),
            ),
            Some((p, j)) => {
                let j2 = ws_end(&v, j);
                if j2 != n {
                    proof {
                        assert(v@.skip(j2 as int).len() > 0);
                    }
                    return Err(
                        Error::DecodingError(
                            String::from_str("unexpected characters after the object"),
                        ),
                    );
                }
                proof {
                    assert(v@.skip(j2 as int).len() == 0);
                }
                match (p.id, p.name, p.email, p.age, p.active) {
                    (Some(id), Some(name), Some(email), Some(age), Some(active)) => {
                        let u = User { id, name, email, age, active };
                        proof {
                            assert(partial_complete(pview(p)));
                            assert(u@ == partial_view(pview(p)));
                        }
                        Ok(u)
                    },
                    _ => {
                        proof {
                            assert(!partial_complete(pview(p)));
                        }
                        Err(
                            Error::DecodingError(
                                String::from_str("a required key of the record is missing"),
                            ),
                        )
                    },
                }
            },
        }
    }
}

} // verus!
