//! The laws of the JSON codec: decoding inverts encoding, for the
//! compact and the pretty rendering alike, and the pretty rendering
//! stripped of whitespace is the compact rendering.

use vstd::prelude::*;
use crate::chars::{dec_digit, dec_rec, digit_val, int_chars, is_dec_digit, nat_chars};
use crate::json::{
    bool_chars, compact_json, esc, esc_char, hex_digit, hex_val, hex4_ok, hex4_val, is_hex_digit,
    is_json_ws, parse_bool, parse_field, parse_i32, parse_key, parse_members, parse_string_body,
    parse_user, pretty_json, skip_ws, unescape_simple, PartialUser, empty_partial,
    partial_complete, partial_view,
};
use crate::json_decode::lemma_digits_len_of;
use crate::user::{valid_user_view, UserView};

verus! {

// ---------------------------------------------------------------------
// Whitespace
// ---------------------------------------------------------------------

/// Every character of `w` is JSON whitespace.
pub open spec fn all_ws(w: Seq<char>) -> bool {
    forall|i: int| 0 <= i < w.len() ==> is_json_ws(w[i])
}

proof fn lemma_skip_ws_prefix(w: Seq<char>, x: Seq<char>)
    requires
        all_ws(w),
    ensures
        skip_ws(w + x) == skip_ws(x),
    decreases w.len(),
{
    if w.len() == 0 {
        assert(w + x =~= x);
    } else {
        assert((w + x)[0] == w[0]);
        assert((w + x).drop_first() =~= w.drop_first() + x);
        assert(all_ws(w.drop_first())) by {
            assert(forall|i: int|
                0 <= i < w.len() - 1 ==> w.drop_first()[i] == w[i + 1] && is_json_ws(w[i + 1]));
        }
        lemma_skip_ws_prefix(w.drop_first(), x);
    }
}

/// The range and cast facts that hold of every character value.
proof fn lemma_char_facts(c: char)
    ensures
        0 <= c as int <= 0x10FFFF,
        c as int == (c as u32) as int,
{
}

// ---------------------------------------------------------------------
// Decimal renderings parse back
// ---------------------------------------------------------------------

proof fn lemma_dec_rec_props(m: nat)
    requires
        m >= 1,
    ensures
        dec_rec(m).len() >= 1,
        forall|i: int| 0 <= i < dec_rec(m).len() ==> is_dec_digit(#[trigger] dec_rec(m)[i]),
        digit_val(dec_rec(m)[0]) >= 1,
        crate::json::digits_val(dec_rec(m)) == m,
    decreases m,
{
    let d = (m % 10) as int;
    assert(0 <= d <= 9);
    assert(is_dec_digit(dec_digit(d)) && digit_val(dec_digit(d)) == d);
    let head = dec_rec(m / 10);
    let whole = dec_rec(m);
    assert(whole == head + seq![dec_digit(d)]);
    assert(whole.drop_last() =~= head);
    assert(whole.last() == dec_digit(d));
    if m < 10 {
        assert(head =~= Seq::<char>::empty());
        assert(whole =~= seq![dec_digit(d)]);
        assert(d == m);
        assert(digit_val(whole[0]) == m);
        assert(crate::json::digits_val(whole) == crate::json::digits_val(whole.drop_last()) * 10
            + digit_val(whole.last()));
        assert(crate::json::digits_val(head) == 0);
    } else {
        lemma_dec_rec_props(m / 10);
        assert(whole[0] == head[0]);
        assert(forall|i: int|
            0 <= i < whole.len() ==> #[trigger] whole[i] == if i < head.len() {
                head[i]
            } else {
                dec_digit(d)
            });
        assert(crate::json::digits_val(whole) == crate::json::digits_val(head) * 10 + d);
        assert(crate::json::digits_val(head) == m / 10);
        assert((m / 10) * 10 + (m % 10) == m);
    }
}

proof fn lemma_int_chars_shape(n: int)
    ensures
        int_chars(n).len() >= 1,
        forall|i: int|
            0 <= i < int_chars(n).len() ==> (is_dec_digit(#[trigger] int_chars(n)[i])
                || int_chars(n)[i] == '-'),
        !is_json_ws(int_chars(n)[0]),
{
    if n >= 0 {
        if n == 0 {
        } else {
            lemma_dec_rec_props(n as nat);
        }
    } else {
        lemma_dec_rec_props((-n) as nat);
        let nc = nat_chars((-n) as nat);
        let whole = int_chars(n);
        assert(whole == seq!['-'] + nc);
        assert(whole[0] == '-');
        assert(forall|i: int| 1 <= i < whole.len() ==> whole[i] == nc[i - 1]);
    }
}

proof fn lemma_parse_i32_of_rendering(n: int, rest: Seq<char>)
    requires
        i32::MIN <= n <= i32::MAX,
        rest.len() > 0,
        !is_dec_digit(rest[0]),
        rest[0] != '.',
        rest[0] != 'e',
        rest[0] != 'E',
    ensures
        parse_i32(int_chars(n) + rest) == Some((n, rest)),
{
    let m: nat = if n >= 0 {
        n as nat
    } else {
        (-n) as nat
    };
    let nc = nat_chars(m);
    if m == 0 {
        assert(nc =~= seq!['0']);
        assert(nc.drop_last() =~= Seq::<char>::empty());
        assert(crate::json::digits_val(nc) == crate::json::digits_val(nc.drop_last()) * 10
            + digit_val(nc.last()));
        assert(crate::json::digits_val(nc) == 0);
        assert(is_dec_digit(nc[0]));
    } else {
        lemma_dec_rec_props(m);
        assert(nc == dec_rec(m));
    }
    assert(forall|i: int| 0 <= i < nc.len() ==> is_dec_digit(#[trigger] nc[i]));
    assert(crate::json::digits_val(nc) == m);
    let s = int_chars(n) + rest;
    let t = nc + rest;
    if n >= 0 {
        assert(s =~= t);
        assert(s[0] == nc[0]);
        assert(is_dec_digit(s[0]) && s[0] != '-');
    } else {
        assert(int_chars(n) == seq!['-'] + nc);
        assert(s =~= seq!['-'] + t);
        assert(s[0] == '-');
        assert(s.drop_first() =~= t);
    }
    // the digit run of t is exactly nc
    assert(forall|q: int| 0 <= q < nc.len() ==> t[q] == nc[q]);
    assert(t[nc.len() as int] == rest[0]);
    lemma_digits_len_of(t, nc.len() as int);
    assert(crate::json::digits_len(t) == nc.len());
    assert(t.take(nc.len() as int) =~= nc);
    assert(t.skip(nc.len() as int) =~= rest);
    if m == 0 {
        assert(nc.len() == 1);
    } else {
        assert(digit_val(nc[0]) >= 1);
        assert(digit_val('0') == 0);
        assert(nc[0] != '0');
    }
    assert(t[0] == nc[0]);
}

proof fn lemma_parse_bool_of_rendering(b: bool, rest: Seq<char>)
    ensures
        parse_bool(bool_chars(b) + rest) == Some((b, rest)),
{
    let s = bool_chars(b) + rest;
    if b {
        assert(s[0] == 't' && s[1] == 'r' && s[2] == 'u' && s[3] == 'e');
        assert(s.skip(4) =~= rest);
    } else {
        assert(s[0] == 'f' && s[1] == 'a' && s[2] == 'l' && s[3] == 's' && s[4] == 'e');
        assert(s.skip(5) =~= rest);
    }
}

// ---------------------------------------------------------------------
// Escaped strings parse back
// ---------------------------------------------------------------------

/// A character that stands as itself inside a JSON string.
pub open spec fn plain_char(c: char) -> bool {
    c != '"' && c != '\\' && c as int >= 0x20
}

proof fn lemma_psb_of_plain(body: Seq<char>, rest: Seq<char>)
    requires
        forall|i: int| 0 <= i < body.len() ==> plain_char(#[trigger] body[i]),
    ensures
        parse_string_body(body + seq!['"'] + rest) == Some((body, rest)),
    decreases body.len(),
{
    let s = body + seq!['"'] + rest;
    if body.len() == 0 {
        assert(s[0] == '"');
        assert(s.drop_first() =~= rest);
        assert(Seq::<char>::empty() =~= body);
    } else {
        assert(s[0] == body[0]);
        assert(plain_char(body[0]));
        assert(s.drop_first() =~= body.drop_first() + seq!['"'] + rest);
        assert(forall|i: int|
            0 <= i < body.len() - 1 ==> body.drop_first()[i] == body[i + 1] && plain_char(
                body[i + 1],
            ));
        lemma_psb_of_plain(body.drop_first(), rest);
        assert(seq![body[0]] + body.drop_first() =~= body);
    }
}

proof fn lemma_hex_digit_facts(d: int)
    requires
        0 <= d < 16,
    ensures
        is_hex_digit(hex_digit(d)),
        hex_val(hex_digit(d)) == d,
{
}

#[verifier::rlimit(100)]
#[verifier::spinoff_prover]
proof fn lemma_psb_of_esc(body: Seq<char>, rest: Seq<char>)
    ensures
        parse_string_body(esc(body) + seq!['"'] + rest) == Some((body, rest)),
    decreases body.len(),
{
    if body.len() == 0 {
        assert(esc(body) =~= Seq::<char>::empty());
        let s = esc(body) + seq!['"'] + rest;
        assert(s[0] == '"');
        assert(s.drop_first() =~= rest);
    } else {
        let c = body[0];
        let tail = body.drop_first();
        let e = esc_char(c);
        let t = esc(tail) + seq!['"'] + rest;
        let s = esc(body) + seq!['"'] + rest;
        assert(esc(body) == e + esc(tail));
        assert(s =~= e + t);
        lemma_psb_of_esc(tail, rest);
        lemma_char_facts(c);
        if c == '"' {
            assert(s[0] == '\\' && s[1] == '"');
            assert(unescape_simple('"') == Some('"'));
            assert(s.skip(2) =~= t);
            assert(seq![c] + tail =~= body);
        } else if c == '\\' {
            assert(s[0] == '\\' && s[1] == '\\');
            assert(s.skip(2) =~= t);
            assert(seq![c] + tail =~= body);
        } else if c == '\u{8}' {
            assert(s[0] == '\\' && s[1] == 'b');
            assert(s.skip(2) =~= t);
            assert(seq![c] + tail =~= body);
        } else if c == '\u{c}' {
            assert(s[0] == '\\' && s[1] == 'f');
            assert(s.skip(2) =~= t);
            assert(seq![c] + tail =~= body);
        } else if c == '\n' {
            assert(s[0] == '\\' && s[1] == 'n');
            assert(s.skip(2) =~= t);
            assert(seq![c] + tail =~= body);
        } else if c == '\r' {
            assert(s[0] == '\\' && s[1] == 'r');
            assert(s.skip(2) =~= t);
            assert(seq![c] + tail =~= body);
        } else if c == '\t' {
            assert(s[0] == '\\' && s[1] == 't');
            assert(s.skip(2) =~= t);
            assert(seq![c] + tail =~= body);
        } else if (c as int) < 0x20 {
            let ci = c as int;
            let hi = ci / 16;
            let lo = ci % 16;
            assert(ci >= 0);
            assert(0 <= hi < 16 && 0 <= lo < 16);
            lemma_hex_digit_facts(hi);
            lemma_hex_digit_facts(lo);
            assert(e == seq!['\\', 'u', '0', '0', hex_digit(hi), hex_digit(lo)]);
            assert(s[0] == '\\' && s[1] == 'u');
            let h = s.skip(2);
            assert(h[0] == '0' && h[1] == '0' && h[2] == hex_digit(hi) && h[3] == hex_digit(lo));
            assert(hex4_ok(h));
            assert(hex_val('0') == 0);
            assert(hex4_val(h) == hi * 16 + lo);
            assert(hi * 16 + lo == ci);
            assert(!(0xD800 <= hex4_val(h) < 0xDC00) && !(0xDC00 <= hex4_val(h) < 0xE000));
            assert(s.skip(6) =~= t);
            assert((hex4_val(h) as char) == c) by {
                vstd::utf8::char_u32_cast(c, c as u32);
            }
            assert(seq![c] + tail =~= body);
        } else {
            assert(e == seq![c]);
            assert(s[0] == c);
            assert(plain_char(c));
            assert(s.drop_first() =~= t);
            assert(seq![c] + tail =~= body);
        }
    }
}

// ---------------------------------------------------------------------
// One object member
// ---------------------------------------------------------------------

/// Steps the member parser over one canonically rendered member: an
/// optional whitespace gap, the quoted plain key, a colon, an optional
/// gap, a value that `parse_field` accepts exactly, and the rest. The
/// member ends at a comma (the parser moves to the next member) or at a
/// closing brace (the parser returns).
#[verifier::rlimit(100)]
#[verifier::spinoff_prover]
proof fn lemma_member_step(
    p: PartialUser,
    fuel: nat,
    gap: Seq<char>,
    key: Seq<char>,
    cgap: Seq<char>,
    val: Seq<char>,
    p2: PartialUser,
    after: Seq<char>,
)
    requires
        fuel >= 1,
        all_ws(gap),
        all_ws(cgap),
        key.len() > 0,
        forall|i: int| 0 <= i < key.len() ==> plain_char(#[trigger] key[i]),
        val.len() > 0,
        !is_json_ws(val[0]),
        parse_field(key, p, val + after) == Some((p2, after)),
        skip_ws(after).len() > 0,
        skip_ws(after)[0] == ',' || skip_ws(after)[0] == '}',
    ensures
        ({
            let s = gap + seq!['"'] + key + seq!['"', ':'] + cgap + val + after;
            let r = skip_ws(after);
            if r[0] == ',' {
                parse_members(s, p, fuel) == parse_members(r.drop_first(), p2, (fuel - 1) as nat)
            } else {
                parse_members(s, p, fuel) == Some((p2, r.drop_first()))
            }
        }),
{
    let s = gap + seq!['"'] + key + seq!['"', ':'] + cgap + val + after;
    let x = seq!['"'] + key + seq!['"', ':'] + cgap + val + after;
    assert(s =~= gap + x);
    lemma_skip_ws_prefix(gap, x);
    assert(x[0] == '"');
    assert(!is_json_ws('"'));
    assert(skip_ws(x) == x);
    // the key string
    let kt = seq![':'] + (cgap + val + after);
    assert(x.drop_first() =~= key + seq!['"'] + kt);
    lemma_psb_of_plain(key, kt);
    assert(parse_string_body(x.drop_first()) == Some((key, kt)));
    assert(!is_json_ws(':'));
    assert(skip_ws(kt) == kt);
    assert(kt[0] == ':');
    assert(kt.drop_first() =~= cgap + val + after);
    assert(parse_key(x) == Some((key, cgap + val + after)));
    // the value
    assert(cgap + val + after =~= cgap + (val + after));
    lemma_skip_ws_prefix(cgap, val + after);
    assert((val + after)[0] == val[0]);
    assert(skip_ws(val + after) == val + after);
    assert(skip_ws(cgap + val + after) == val + after);
}

// ---------------------------------------------------------------------
// The canonical member suffixes
// ---------------------------------------------------------------------
//
// Each rendering is regrouped into a chain of member suffixes, one per
// key, each running to the end of the document. The suffix functions
// are opaque, so that each proof unfolds only the one suffix it steps
// over and the terms stay small.

#[verifier::opaque]
spec fn cm_active(u: UserView) -> Seq<char> {
    Seq::empty() + seq!['"'] + seq!['a', 'c', 't', 'i', 'v', 'e'] + seq!['"', ':'] + Seq::empty()
        + bool_chars(u.active) + seq!['}']
}

#[verifier::opaque]
spec fn cm_age(u: UserView) -> Seq<char> {
    Seq::empty() + seq!['"'] + seq!['a', 'g', 'e'] + seq!['"', ':'] + Seq::empty() + int_chars(
        u.age,
    ) + (seq![','] + cm_active(u))
}

#[verifier::opaque]
spec fn cm_email(u: UserView) -> Seq<char> {
    Seq::empty() + seq!['"'] + seq!['e', 'm', 'a', 'i', 'l'] + seq!['"', ':'] + Seq::empty() + (
    seq!['"'] + esc(u.email) + seq!['"']) + (seq![','] + cm_age(u))
}

#[verifier::opaque]
spec fn cm_name(u: UserView) -> Seq<char> {
    Seq::empty() + seq!['"'] + seq!['n', 'a', 'm', 'e'] + seq!['"', ':'] + Seq::empty() + (
    seq!['"'] + esc(u.name) + seq!['"']) + (seq![','] + cm_email(u))
}

#[verifier::opaque]
spec fn cm_id(u: UserView) -> Seq<char> {
    Seq::empty() + seq!['"'] + seq!['i', 'd'] + seq!['"', ':'] + Seq::empty() + int_chars(u.id) + (
    seq![','] + cm_name(u))
}

// The partial states the member chain passes through.

spec fn part1(u: UserView) -> PartialUser {
    PartialUser { id: Some(u.id), ..empty_partial() }
}

spec fn part2(u: UserView) -> PartialUser {
    PartialUser { name: Some(u.name), ..part1(u) }
}

spec fn part3(u: UserView) -> PartialUser {
    PartialUser { email: Some(u.email), ..part2(u) }
}

spec fn part4(u: UserView) -> PartialUser {
    PartialUser { age: Some(u.age), ..part3(u) }
}

spec fn part5(u: UserView) -> PartialUser {
    PartialUser { active: Some(u.active), ..part4(u) }
}

#[verifier::rlimit(100)]
#[verifier::spinoff_prover]
proof fn lemma_cm_active(u: UserView)
    ensures
        parse_members(cm_active(u), part4(u), 1) == Some((part5(u), Seq::<char>::empty())),
{
    reveal(cm_active);
    let kactive: Seq<char> = seq!['a', 'c', 't', 'i', 'v', 'e'];
    assert(forall|i: int| 0 <= i < kactive.len() ==> plain_char(#[trigger] kactive[i]));
    let v = bool_chars(u.active);
    let after = seq!['}'];
    lemma_parse_bool_of_rendering(u.active, after);
    assert(parse_field(kactive, part4(u), v + after) == Some((part5(u), after)));
    assert(v.len() > 0 && !is_json_ws(v[0]));
    assert(skip_ws(after) == after);
    lemma_member_step(part4(u), 1, Seq::empty(), kactive, Seq::empty(), v, part5(u), after);
    assert(after.drop_first() =~= Seq::<char>::empty());
}

#[verifier::rlimit(100)]
#[verifier::spinoff_prover]
proof fn lemma_cm_age(u: UserView)
    requires
        valid_user_view(u),
    ensures
        parse_members(cm_age(u), part3(u), 2) == Some((part5(u), Seq::<char>::empty())),
{
    reveal(cm_age);
    let kage: Seq<char> = seq!['a', 'g', 'e'];
    assert(forall|i: int| 0 <= i < kage.len() ==> plain_char(#[trigger] kage[i]));
    let v = int_chars(u.age);
    let after = seq![','] + cm_active(u);
    assert(after[0] == ',');
    lemma_parse_i32_of_rendering(u.age, after);
    assert(parse_field(kage, part3(u), v + after) == Some((part4(u), after)));
    lemma_int_chars_shape(u.age);
    assert(skip_ws(after) == after);
    lemma_member_step(part3(u), 2, Seq::empty(), kage, Seq::empty(), v, part4(u), after);
    assert(after.drop_first() =~= cm_active(u));
    lemma_cm_active(u);
}

#[verifier::rlimit(100)]
#[verifier::spinoff_prover]
proof fn lemma_cm_email(u: UserView)
    requires
        valid_user_view(u),
    ensures
        parse_members(cm_email(u), part2(u), 3) == Some((part5(u), Seq::<char>::empty())),
{
    reveal(cm_email);
    let kemail: Seq<char> = seq!['e', 'm', 'a', 'i', 'l'];
    assert(forall|i: int| 0 <= i < kemail.len() ==> plain_char(#[trigger] kemail[i]));
    let v = seq!['"'] + esc(u.email) + seq!['"'];
    let after = seq![','] + cm_age(u);
    assert(after[0] == ',');
    assert((v + after)[0] == '"');
    assert((v + after).drop_first() =~= esc(u.email) + seq!['"'] + after);
    lemma_psb_of_esc(u.email, after);
    assert(parse_field(kemail, part2(u), v + after) == Some((part3(u), after)));
    assert(v.len() > 0 && !is_json_ws(v[0]));
    assert(skip_ws(after) == after);
    lemma_member_step(part2(u), 3, Seq::empty(), kemail, Seq::empty(), v, part3(u), after);
    assert(after.drop_first() =~= cm_age(u));
    lemma_cm_age(u);
}

#[verifier::rlimit(100)]
#[verifier::spinoff_prover]
proof fn lemma_cm_name(u: UserView)
    requires
        valid_user_view(u),
    ensures
        parse_members(cm_name(u), part1(u), 4) == Some((part5(u), Seq::<char>::empty())),
{
    reveal(cm_name);
    let kname: Seq<char> = seq!['n', 'a', 'm', 'e'];
    assert(forall|i: int| 0 <= i < kname.len() ==> plain_char(#[trigger] kname[i]));
    let v = seq!['"'] + esc(u.name) + seq!['"'];
    let after = seq![','] + cm_email(u);
    assert(after[0] == ',');
    assert((v + after)[0] == '"');
    assert((v + after).drop_first() =~= esc(u.name) + seq!['"'] + after);
    lemma_psb_of_esc(u.name, after);
    assert(parse_field(kname, part1(u), v + after) == Some((part2(u), after)));
    assert(v.len() > 0 && !is_json_ws(v[0]));
    assert(skip_ws(after) == after);
    lemma_member_step(part1(u), 4, Seq::empty(), kname, Seq::empty(), v, part2(u), after);
    assert(after.drop_first() =~= cm_email(u));
    lemma_cm_email(u);
}

#[verifier::rlimit(100)]
#[verifier::spinoff_prover]
proof fn lemma_cm_id(u: UserView)
    requires
        valid_user_view(u),
    ensures
        parse_members(cm_id(u), empty_partial(), 5) == Some((part5(u), Seq::<char>::empty())),
{
    reveal(cm_id);
    let kid: Seq<char> = seq!['i', 'd'];
    assert(forall|i: int| 0 <= i < kid.len() ==> plain_char(#[trigger] kid[i]));
    let v = int_chars(u.id);
    let after = seq![','] + cm_name(u);
    assert(after[0] == ',');
    lemma_parse_i32_of_rendering(u.id, after);
    assert(parse_field(kid, empty_partial(), v + after) == Some((part1(u), after)));
    lemma_int_chars_shape(u.id);
    assert(skip_ws(after) == after);
    lemma_member_step(empty_partial(), 5, Seq::empty(), kid, Seq::empty(), v, part1(u), after);
    assert(after.drop_first() =~= cm_name(u));
    lemma_cm_name(u);
}

/// The compact rendering is the opening brace followed by the member
/// chain.
#[verifier::rlimit(100)]
#[verifier::spinoff_prover]
proof fn lemma_compact_shape(u: UserView)
    ensures
        compact_json(u) == seq!['{'] + cm_id(u),
{
    reveal(cm_id);
    reveal(cm_name);
    reveal(cm_email);
    reveal(cm_age);
    reveal(cm_active);
    assert(compact_json(u) =~= seq!['{'] + cm_id(u));
}

#[verifier::rlimit(100)]
#[verifier::spinoff_prover]
proof fn lemma_round_trip_compact(u: UserView)
    requires
        valid_user_view(u),
    ensures
        parse_user(compact_json(u)) == Some(u),
{
    let text = compact_json(u);
    lemma_compact_shape(u);
    lemma_cm_id(u);
    assert(text[0] == '{');
    assert(!is_json_ws('{'));
    assert(skip_ws(text) == text);
    assert(text.drop_first() =~= cm_id(u));
    assert(partial_complete(part5(u)));
    assert(skip_ws(Seq::<char>::empty()).len() == 0);
    assert(partial_view(part5(u)) == u);
}

// ---------------------------------------------------------------------
// The pretty member suffixes
// ---------------------------------------------------------------------

#[verifier::opaque]
spec fn pm_active(u: UserView) -> Seq<char> {
    seq!['\n', ' ', ' '] + seq!['"'] + seq!['a', 'c', 't', 'i', 'v', 'e'] + seq!['"', ':']
        + seq![' '] + bool_chars(u.active) + (seq!['\n'] + seq!['}'])
}

#[verifier::opaque]
spec fn pm_age(u: UserView) -> Seq<char> {
    seq!['\n', ' ', ' '] + seq!['"'] + seq!['a', 'g', 'e'] + seq!['"', ':'] + seq![' ']
        + int_chars(u.age) + (seq![','] + pm_active(u))
}

#[verifier::opaque]
spec fn pm_email(u: UserView) -> Seq<char> {
    seq!['\n', ' ', ' '] + seq!['"'] + seq!['e', 'm', 'a', 'i', 'l'] + seq!['"', ':'] + seq![' ']
        + (seq!['"'] + esc(u.email) + seq!['"']) + (seq![','] + pm_age(u))
}

#[verifier::opaque]
spec fn pm_name(u: UserView) -> Seq<char> {
    seq!['\n', ' ', ' '] + seq!['"'] + seq!['n', 'a', 'm', 'e'] + seq!['"', ':'] + seq![' '] + (
    seq!['"'] + esc(u.name) + seq!['"']) + (seq![','] + pm_email(u))
}

#[verifier::opaque]
spec fn pm_id(u: UserView) -> Seq<char> {
    seq!['\n', ' ', ' '] + seq!['"'] + seq!['i', 'd'] + seq!['"', ':'] + seq![' '] + int_chars(
        u.id,
    ) + (seq![','] + pm_name(u))
}

#[verifier::rlimit(100)]
#[verifier::spinoff_prover]
proof fn lemma_pm_active(u: UserView)
    ensures
        parse_members(pm_active(u), part4(u), 1) == Some((part5(u), Seq::<char>::empty())),
{
    reveal(pm_active);
    let kactive: Seq<char> = seq!['a', 'c', 't', 'i', 'v', 'e'];
    assert(forall|i: int| 0 <= i < kactive.len() ==> plain_char(#[trigger] kactive[i]));
    let g = seq!['\n', ' ', ' '];
    let sp = seq![' '];
    assert(all_ws(g));
    assert(all_ws(sp));
    let v = bool_chars(u.active);
    let after = seq!['\n'] + seq!['}'];
    lemma_parse_bool_of_rendering(u.active, after);
    assert(parse_field(kactive, part4(u), v + after) == Some((part5(u), after)));
    assert(v.len() > 0 && !is_json_ws(v[0]));
    assert(all_ws(seq!['\n']));
    lemma_skip_ws_prefix(seq!['\n'], seq!['}']);
    assert(skip_ws(after) == skip_ws(seq!['}']));
    assert(skip_ws(seq!['}']) == seq!['}']);
    lemma_member_step(part4(u), 1, g, kactive, sp, v, part5(u), after);
    assert(skip_ws(after)[0] == '}');
    assert(skip_ws(after).drop_first() =~= Seq::<char>::empty());
}

#[verifier::rlimit(100)]
#[verifier::spinoff_prover]
proof fn lemma_pm_age(u: UserView)
    requires
        valid_user_view(u),
    ensures
        parse_members(pm_age(u), part3(u), 2) == Some((part5(u), Seq::<char>::empty())),
{
    reveal(pm_age);
    let kage: Seq<char> = seq!['a', 'g', 'e'];
    assert(forall|i: int| 0 <= i < kage.len() ==> plain_char(#[trigger] kage[i]));
    let g = seq!['\n', ' ', ' '];
    let sp = seq![' '];
    assert(all_ws(g));
    assert(all_ws(sp));
    let v = int_chars(u.age);
    let after = seq![','] + pm_active(u);
    assert(after[0] == ',');
    lemma_parse_i32_of_rendering(u.age, after);
    assert(parse_field(kage, part3(u), v + after) == Some((part4(u), after)));
    lemma_int_chars_shape(u.age);
    assert(skip_ws(after) == after);
    lemma_member_step(part3(u), 2, g, kage, sp, v, part4(u), after);
    assert(after.drop_first() =~= pm_active(u));
    lemma_pm_active(u);
}

#[verifier::rlimit(100)]
#[verifier::spinoff_prover]
proof fn lemma_pm_email(u: UserView)
    requires
        valid_user_view(u),
    ensures
        parse_members(pm_email(u), part2(u), 3) == Some((part5(u), Seq::<char>::empty())),
{
    reveal(pm_email);
    let kemail: Seq<char> = seq!['e', 'm', 'a', 'i', 'l'];
    assert(forall|i: int| 0 <= i < kemail.len() ==> plain_char(#[trigger] kemail[i]));
    let g = seq!['\n', ' ', ' '];
    let sp = seq![' '];
    assert(all_ws(g));
    assert(all_ws(sp));
    let v = seq!['"'] + esc(u.email) + seq!['"'];
    let after = seq![','] + pm_age(u);
    assert(after[0] == ',');
    assert((v + after)[0] == '"');
    assert((v + after).drop_first() =~= esc(u.email) + seq!['"'] + after);
    lemma_psb_of_esc(u.email, after);
    assert(parse_field(kemail, part2(u), v + after) == Some((part3(u), after)));
    assert(v.len() > 0 && !is_json_ws(v[0]));
    assert(skip_ws(after) == after);
    lemma_member_step(part2(u), 3, g, kemail, sp, v, part3(u), after);
    assert(after.drop_first() =~= pm_age(u));
    lemma_pm_age(u);
}

#[verifier::rlimit(100)]
#[verifier::spinoff_prover]
proof fn lemma_pm_name(u: UserView)
    requires
        valid_user_view(u),
    ensures
        parse_members(pm_name(u), part1(u), 4) == Some((part5(u), Seq::<char>::empty())),
{
    reveal(pm_name);
    let kname: Seq<char> = seq!['n', 'a', 'm', 'e'];
    assert(forall|i: int| 0 <= i < kname.len() ==> plain_char(#[trigger] kname[i]));
    let g = seq!['\n', ' ', ' '];
    let sp = seq![' '];
    assert(all_ws(g));
    assert(all_ws(sp));
    let v = seq!['"'] + esc(u.name) + seq!['"'];
    let after = seq![','] + pm_email(u);
    assert(after[0] == ',');
    assert((v + after)[0] == '"');
    assert((v + after).drop_first() =~= esc(u.name) + seq!['"'] + after);
    lemma_psb_of_esc(u.name, after);
    assert(parse_field(kname, part1(u), v + after) == Some((part2(u), after)));
    assert(v.len() > 0 && !is_json_ws(v[0]));
    assert(skip_ws(after) == after);
    lemma_member_step(part1(u), 4, g, kname, sp, v, part2(u), after);
    assert(after.drop_first() =~= pm_email(u));
    lemma_pm_email(u);
}

#[verifier::rlimit(100)]
#[verifier::spinoff_prover]
proof fn lemma_pm_id(u: UserView)
    requires
        valid_user_view(u),
    ensures
        parse_members(pm_id(u), empty_partial(), 5) == Some((part5(u), Seq::<char>::empty())),
{
    reveal(pm_id);
    let kid: Seq<char> = seq!['i', 'd'];
    assert(forall|i: int| 0 <= i < kid.len() ==> plain_char(#[trigger] kid[i]));
    let g = seq!['\n', ' ', ' '];
    let sp = seq![' '];
    assert(all_ws(g));
    assert(all_ws(sp));
    let v = int_chars(u.id);
    let after = seq![','] + pm_name(u);
    assert(after[0] == ',');
    lemma_parse_i32_of_rendering(u.id, after);
    assert(parse_field(kid, empty_partial(), v + after) == Some((part1(u), after)));
    lemma_int_chars_shape(u.id);
    assert(skip_ws(after) == after);
    lemma_member_step(empty_partial(), 5, g, kid, sp, v, part1(u), after);
    assert(after.drop_first() =~= pm_name(u));
    lemma_pm_name(u);
}

/// The pretty rendering is the opening brace followed by the pretty
/// member chain.
#[verifier::rlimit(100)]
#[verifier::spinoff_prover]
proof fn lemma_pretty_shape(u: UserView)
    ensures
        pretty_json(u) == seq!['{'] + pm_id(u),
{
    reveal(pm_id);
    reveal(pm_name);
    reveal(pm_email);
    reveal(pm_age);
    reveal(pm_active);
    assert(pretty_json(u) =~= seq!['{'] + pm_id(u));
}

#[verifier::rlimit(100)]
#[verifier::spinoff_prover]
proof fn lemma_round_trip_pretty(u: UserView)
    requires
        valid_user_view(u),
    ensures
        parse_user(pretty_json(u)) == Some(u),
{
    let text = pretty_json(u);
    lemma_pretty_shape(u);
    lemma_pm_id(u);
    assert(text[0] == '{');
    assert(!is_json_ws('{'));
    assert(skip_ws(text) == text);
    assert(text.drop_first() =~= pm_id(u));
    assert(partial_complete(part5(u)));
    assert(skip_ws(Seq::<char>::empty()).len() == 0);
    assert(partial_view(part5(u)) == u);
}

// ---------------------------------------------------------------------
// The public laws
// ---------------------------------------------------------------------

/// Decoding inverts encoding: for every user value, the compact and the
/// pretty rendering both denote exactly that value.
pub proof fn lemma_json_round_trip(u: UserView)
    requires
        valid_user_view(u),
    ensures
        parse_user(compact_json(u)) == Some(u),
        parse_user(pretty_json(u)) == Some(u),
{
    lemma_round_trip_compact(u);
    lemma_round_trip_pretty(u);
}

// ---------------------------------------------------------------------
// Stripping whitespace from the pretty rendering
// ---------------------------------------------------------------------

/// `s` with every JSON whitespace character removed.
pub open spec fn strip_json_ws(s: Seq<char>) -> Seq<char>
    decreases s.len(),
{
    if s.len() == 0 {
        Seq::empty()
    } else if is_json_ws(s[0]) {
        strip_json_ws(s.drop_first())
    } else {
        seq![s[0]] + strip_json_ws(s.drop_first())
    }
}

/// No character of `x` is JSON whitespace.
pub open spec fn no_ws(x: Seq<char>) -> bool {
    forall|i: int| 0 <= i < x.len() ==> !is_json_ws(x[i])
}

proof fn lemma_strip_add(a: Seq<char>, b: Seq<char>)
    ensures
        strip_json_ws(a + b) == strip_json_ws(a) + strip_json_ws(b),
    decreases a.len(),
{
    if a.len() == 0 {
        assert(a + b =~= b);
        assert(strip_json_ws(a) + strip_json_ws(b) =~= strip_json_ws(b));
    } else {
        assert((a + b)[0] == a[0]);
        assert((a + b).drop_first() =~= a.drop_first() + b);
        lemma_strip_add(a.drop_first(), b);
        if is_json_ws(a[0]) {
        } else {
            assert(seq![a[0]] + (strip_json_ws(a.drop_first()) + strip_json_ws(b)) =~= (seq![a[0]]
                + strip_json_ws(a.drop_first())) + strip_json_ws(b));
        }
    }
}

proof fn lemma_strip_all_ws(w: Seq<char>)
    requires
        all_ws(w),
    ensures
        strip_json_ws(w) == Seq::<char>::empty(),
    decreases w.len(),
{
    if w.len() > 0 {
        assert(forall|i: int|
            0 <= i < w.len() - 1 ==> w.drop_first()[i] == w[i + 1] && is_json_ws(w[i + 1]));
        lemma_strip_all_ws(w.drop_first());
    }
}

proof fn lemma_strip_no_ws(x: Seq<char>)
    requires
        no_ws(x),
    ensures
        strip_json_ws(x) == x,
    decreases x.len(),
{
    if x.len() > 0 {
        assert(!is_json_ws(x[0]));
        assert(forall|i: int|
            0 <= i < x.len() - 1 ==> x.drop_first()[i] == x[i + 1] && !is_json_ws(x[i + 1]));
        lemma_strip_no_ws(x.drop_first());
        assert(seq![x[0]] + x.drop_first() =~= x);
    }
}

proof fn lemma_int_chars_no_ws(n: int)
    ensures
        no_ws(int_chars(n)),
{
    lemma_int_chars_shape(n);
    assert forall|i: int| 0 <= i < int_chars(n).len() implies !is_json_ws(
        #[trigger] int_chars(n)[i],
    ) by {
        let c = int_chars(n)[i];
        assert(is_dec_digit(c) || c == '-');
    }
}

proof fn lemma_esc_char_no_ws(c: char)
    requires
        c != ' ',
    ensures
        no_ws(esc_char(c)),
{
    lemma_char_facts(c);
}

proof fn lemma_esc_no_ws(t: Seq<char>)
    requires
        forall|i: int| 0 <= i < t.len() ==> t[i] != ' ',
    ensures
        no_ws(esc(t)),
    decreases t.len(),
{
    if t.len() == 0 {
    } else {
        lemma_esc_char_no_ws(t[0]);
        assert(forall|i: int| 0 <= i < t.len() - 1 ==> t.drop_first()[i] == t[i + 1]);
        lemma_esc_no_ws(t.drop_first());
        let e = esc_char(t[0]);
        let r = esc(t.drop_first());
        assert(esc(t) == e + r);
        assert forall|i: int| 0 <= i < esc(t).len() implies !is_json_ws(#[trigger] esc(t)[i]) by {
            if i < e.len() {
                assert(esc(t)[i] == e[i]);
            } else {
                assert(esc(t)[i] == r[i - e.len()]);
            }
        }
    }
}

proof fn lemma_no_ws_add(a: Seq<char>, b: Seq<char>)
    requires
        no_ws(a),
        no_ws(b),
    ensures
        no_ws(a + b),
{
    assert forall|i: int| 0 <= i < (a + b).len() implies !is_json_ws(#[trigger] (a + b)[i]) by {
        if i < a.len() {
            assert((a + b)[i] == a[i]);
        } else {
            assert((a + b)[i] == b[i - a.len()]);
        }
    }
}

/// Stripping one pretty member (gap, key, gap, value) leaves key and
/// value.
proof fn lemma_strip_member(gap: Seq<char>, k: Seq<char>, cgap: Seq<char>, v: Seq<char>)
    requires
        all_ws(gap),
        no_ws(k),
        all_ws(cgap),
        no_ws(v),
    ensures
        strip_json_ws(gap + k + cgap + v) == k + v,
{
    lemma_strip_add(gap + k + cgap, v);
    lemma_strip_add(gap + k, cgap);
    lemma_strip_add(gap, k);
    lemma_strip_all_ws(gap);
    lemma_strip_all_ws(cgap);
    lemma_strip_no_ws(k);
    lemma_strip_no_ws(v);
    assert(Seq::<char>::empty() + k =~= k);
    assert((k + Seq::<char>::empty()) =~= k);
}

/// The pretty rendering, regrouped into per-member blocks.
spec fn pretty_grouped(u: UserView) -> Seq<char> {
    seq!['{'] + (seq!['\n', ' ', ' '] + seq!['"', 'i', 'd', '"', ':'] + seq![' '] + int_chars(
        u.id,
    )) + seq![','] + (seq!['\n', ' ', ' '] + seq!['"', 'n', 'a', 'm', 'e', '"', ':'] + seq![' ']
        + (seq!['"'] + esc(u.name) + seq!['"'])) + seq![','] + (seq!['\n', ' ', ' ']
        + seq!['"', 'e', 'm', 'a', 'i', 'l', '"', ':'] + seq![' '] + (seq!['"'] + esc(u.email)
        + seq!['"'])) + seq![','] + (seq!['\n', ' ', ' '] + seq!['"', 'a', 'g', 'e', '"', ':']
        + seq![' '] + int_chars(u.age)) + seq![','] + (seq!['\n', ' ', ' ']
        + seq!['"', 'a', 'c', 't', 'i', 'v', 'e', '"', ':'] + seq![' '] + bool_chars(u.active))
        + seq!['\n'] + seq!['}']
}

/// The compact rendering, regrouped the same way (no gaps).
spec fn compact_grouped(u: UserView) -> Seq<char> {
    seq!['{'] + (seq!['"', 'i', 'd', '"', ':'] + int_chars(u.id)) + seq![','] + (
    seq!['"', 'n', 'a', 'm', 'e', '"', ':'] + (seq!['"'] + esc(u.name) + seq!['"'])) + seq![','] + (
    seq!['"', 'e', 'm', 'a', 'i', 'l', '"', ':'] + (seq!['"'] + esc(u.email) + seq!['"']))
        + seq![','] + (seq!['"', 'a', 'g', 'e', '"', ':'] + int_chars(u.age)) + seq![','] + (
    seq!['"', 'a', 'c', 't', 'i', 'v', 'e', '"', ':'] + bool_chars(u.active)) + seq!['}']
}

#[verifier::rlimit(100)]
#[verifier::spinoff_prover]
proof fn lemma_pretty_regroup(u: UserView)
    ensures
        pretty_json(u) == pretty_grouped(u),
{
    assert(pretty_json(u) =~= pretty_grouped(u));
}

#[verifier::rlimit(100)]
#[verifier::spinoff_prover]
proof fn lemma_compact_regroup(u: UserView)
    ensures
        compact_json(u) == compact_grouped(u),
{
    assert(compact_json(u) =~= compact_grouped(u));
}

/// The pretty rendering, stripped of every whitespace character, is the
/// compact rendering — provided that neither the name nor the email
/// contains a space, the one character that is both content and
/// whitespace (every other whitespace character is escaped in a string
/// value, so it never appears bare).
#[verifier::rlimit(100)]
#[verifier::spinoff_prover]
pub proof fn lemma_pretty_strips_to_compact(u: UserView)
    requires
        forall|i: int| 0 <= i < u.name.len() ==> u.name[i] != ' ',
        forall|i: int| 0 <= i < u.email.len() ==> u.email[i] != ' ',
    ensures
        strip_json_ws(pretty_json(u)) == compact_json(u),
{
    let ws3 = seq!['\n', ' ', ' '];
    let sp = seq![' '];
    let k_id = seq!['"', 'i', 'd', '"', ':'];
    let k_name = seq!['"', 'n', 'a', 'm', 'e', '"', ':'];
    let k_email = seq!['"', 'e', 'm', 'a', 'i', 'l', '"', ':'];
    let k_age = seq!['"', 'a', 'g', 'e', '"', ':'];
    let k_active = seq!['"', 'a', 'c', 't', 'i', 'v', 'e', '"', ':'];
    let q = seq!['"'];
    let cm = seq![','];
    let ob = seq!['{'];
    let cb = seq!['}'];
    let nl = seq!['\n'];

    assert(all_ws(ws3) && all_ws(sp) && all_ws(nl));
    assert(no_ws(k_id) && no_ws(k_name) && no_ws(k_email) && no_ws(k_age) && no_ws(k_active));
    assert(no_ws(q) && no_ws(cm) && no_ws(ob) && no_ws(cb));

    lemma_int_chars_no_ws(u.id);
    lemma_int_chars_no_ws(u.age);
    lemma_esc_no_ws(u.name);
    lemma_esc_no_ws(u.email);
    assert(no_ws(bool_chars(u.active)));

    let v1 = int_chars(u.id);
    let v2 = q + esc(u.name) + q;
    let v3 = q + esc(u.email) + q;
    let v4 = int_chars(u.age);
    let v5 = bool_chars(u.active);
    lemma_no_ws_add(q, esc(u.name));
    lemma_no_ws_add(q + esc(u.name), q);
    lemma_no_ws_add(q, esc(u.email));
    lemma_no_ws_add(q + esc(u.email), q);

    let m1 = ws3 + k_id + sp + v1;
    let m2 = ws3 + k_name + sp + v2;
    let m3 = ws3 + k_email + sp + v3;
    let m4 = ws3 + k_age + sp + v4;
    let m5 = ws3 + k_active + sp + v5;
    lemma_strip_member(ws3, k_id, sp, v1);
    lemma_strip_member(ws3, k_name, sp, v2);
    lemma_strip_member(ws3, k_email, sp, v3);
    lemma_strip_member(ws3, k_age, sp, v4);
    lemma_strip_member(ws3, k_active, sp, v5);
    lemma_strip_no_ws(ob);
    lemma_strip_no_ws(cm);
    lemma_strip_no_ws(cb);
    lemma_strip_all_ws(nl);

    let b1 = ob + m1;
    let b2 = b1 + cm;
    let b3 = b2 + m2;
    let b4 = b3 + cm;
    let b5 = b4 + m3;
    let b6 = b5 + cm;
    let b7 = b6 + m4;
    let b8 = b7 + cm;
    let b9 = b8 + m5;
    let b10 = b9 + nl;
    let b11 = b10 + cb;
    lemma_pretty_regroup(u);
    assert(pretty_json(u) == b11);

    lemma_strip_add(ob, m1);
    assert(strip_json_ws(b1) == ob + (k_id + v1));
    lemma_strip_add(b1, cm);
    assert(strip_json_ws(b2) == ob + (k_id + v1) + cm);
    lemma_strip_add(b2, m2);
    assert(strip_json_ws(b3) == ob + (k_id + v1) + cm + (k_name + v2));
    lemma_strip_add(b3, cm);
    assert(strip_json_ws(b4) == ob + (k_id + v1) + cm + (k_name + v2) + cm);
    lemma_strip_add(b4, m3);
    assert(strip_json_ws(b5) == ob + (k_id + v1) + cm + (k_name + v2) + cm + (k_email + v3));
    lemma_strip_add(b5, cm);
    assert(strip_json_ws(b6) == ob + (k_id + v1) + cm + (k_name + v2) + cm + (k_email + v3) + cm);
    lemma_strip_add(b6, m4);
    assert(strip_json_ws(b7) == ob + (k_id + v1) + cm + (k_name + v2) + cm + (k_email + v3) + cm
        + (k_age + v4));
    lemma_strip_add(b7, cm);
    assert(strip_json_ws(b8) == ob + (k_id + v1) + cm + (k_name + v2) + cm + (k_email + v3) + cm
        + (k_age + v4) + cm);
    lemma_strip_add(b8, m5);
    assert(strip_json_ws(b9) == ob + (k_id + v1) + cm + (k_name + v2) + cm + (k_email + v3) + cm
        + (k_age + v4) + cm + (k_active + v5));
    lemma_strip_add(b9, nl);
    assert(strip_json_ws(b10) =~= strip_json_ws(b9));
    lemma_strip_add(b10, cb);
    assert(strip_json_ws(b11) == strip_json_ws(b9) + cb);
    lemma_compact_regroup(u);
    assert(compact_grouped(u) == ob + (k_id + v1) + cm + (k_name + v2) + cm + (k_email + v3) + cm
        + (k_age + v4) + cm + (k_active + v5) + cb);
}

} // verus!
