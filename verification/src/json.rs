//! The JSON wire format of a `User`, as mathematics.
//!
//! `compact_json` and `pretty_json` give the two canonical renderings: a
//! single object with the keys id, name, email, age, active, in that
//! order, values per standard JSON rules. `parse_user` is a total
//! specification of decoding: it accepts a JSON object with exactly
//! those five keys (in any order, none missing, none repeated, no
//! others), each value of the field's type, and nothing but whitespace
//! around it. The executable codec in the sibling modules is specified
//! against these functions.

use vstd::prelude::*;
use crate::chars::{dec_digit, is_dec_digit, digit_val, int_chars};
use crate::user::UserView;

verus! {

// ---------------------------------------------------------------------
// Shared small pieces
// ---------------------------------------------------------------------

/// The four whitespace characters of the JSON grammar.
pub open spec fn is_json_ws(c: char) -> bool {
    c == ' ' || c == '\t' || c == '\n' || c == '\r'
}

/// `s` without its leading whitespace.
pub open spec fn skip_ws(s: Seq<char>) -> Seq<char>
    decreases s.len(),
{
    if s.len() > 0 && is_json_ws(s[0]) {
        skip_ws(s.drop_first())
    } else {
        s
    }
}

/// Lowercase hexadecimal digit for `d` (meaningful for `0 <= d <= 15`).
pub open spec fn hex_digit(d: int) -> char {
    if d < 10 {
        dec_digit(d)
    } else if d == 10 {
        'a'
    } else if d == 11 {
        'b'
    } else if d == 12 {
        'c'
    } else if d == 13 {
        'd'
    } else if d == 14 {
        'e'
    } else {
        'f'
    }
}

pub open spec fn is_hex_digit(c: char) -> bool {
    is_dec_digit(c) || ('a' <= c && c <= 'f') || ('A' <= c && c <= 'F')
}

pub open spec fn hex_val(c: char) -> int {
    if is_dec_digit(c) {
        digit_val(c)
    } else if 'a' <= c && c <= 'f' {
        c as int - 'a' as int + 10
    } else {
        c as int - 'A' as int + 10
    }
}

pub open spec fn bool_chars(b: bool) -> Seq<char> {
    if b {
        seq!['t', 'r', 'u', 'e']
    } else {
        seq!['f', 'a', 'l', 's', 'e']
    }
}

// ---------------------------------------------------------------------
// Encoding
// ---------------------------------------------------------------------

/// The JSON escape of one character: quote, backslash and the named
/// control characters get two-character escapes, the remaining control
/// characters a `\u00..` escape, and every other character stands as
/// itself.
pub open spec fn esc_char(c: char) -> Seq<char> {
    if c == '"' {
        seq!['\\', '"']
    } else if c == '\\' {
        seq!['\\', '\\']
    } else if c == '\u{8}' {
        seq!['\\', 'b']
    } else if c == '\u{c}' {
        seq!['\\', 'f']
    } else if c == '\n' {
        seq!['\\', 'n']
    } else if c == '\r' {
        seq!['\\', 'r']
    } else if c == '\t' {
        seq!['\\', 't']
    } else if (c as int) < 0x20 {
        seq!['\\', 'u', '0', '0', hex_digit(c as int / 16), hex_digit(c as int % 16)]
    } else {
        seq![c]
    }
}

/// The JSON escape of a whole text.
pub open spec fn esc(s: Seq<char>) -> Seq<char>
    decreases s.len(),
{
    if s.len() == 0 {
        Seq::empty()
    } else {
        esc_char(s[0]) + esc(s.drop_first())
    }
}

/// The compact rendering: one line, no whitespace, keys in the canonical
/// order.
pub open spec fn compact_json(u: UserView) -> Seq<char> {
    seq!['{', '"', 'i', 'd', '"', ':'] + int_chars(u.id) + seq![',', '"', 'n', 'a', 'm', 'e', '"', ':', '"']
        + esc(u.name) + seq!['"', ',', '"', 'e', 'm', 'a', 'i', 'l', '"', ':', '"'] + esc(u.email)
        + seq!['"', ',', '"', 'a', 'g', 'e', '"', ':'] + int_chars(u.age) + seq![',', '"', 'a', 'c', 't', 'i', 'v', 'e', '"', ':']
        + bool_chars(u.active) + seq!['}']
}

/// The pretty rendering: one member per line, indented by two spaces,
/// a space after each colon; same members in the same order as the
/// compact form.
pub open spec fn pretty_json(u: UserView) -> Seq<char> {
    seq!['{', '\n', ' ', ' ', '"', 'i', 'd', '"', ':', ' '] + int_chars(u.id) + seq![',', '\n', ' ', ' ', '"', 'n', 'a', 'm', 'e', '"', ':', ' ', '"']
        + esc(u.name) + seq!['"', ',', '\n', ' ', ' ', '"', 'e', 'm', 'a', 'i', 'l', '"', ':', ' ', '"']
        + esc(u.email) + seq!['"', ',', '\n', ' ', ' ', '"', 'a', 'g', 'e', '"', ':', ' '] + int_chars(u.age)
        + seq![',', '\n', ' ', ' ', '"', 'a', 'c', 't', 'i', 'v', 'e', '"', ':', ' '] + bool_chars(u.active) + seq!['\n', '}']
}

// ---------------------------------------------------------------------
// Decoding
// ---------------------------------------------------------------------

/// Length of the longest digit prefix of `s`.
pub open spec fn digits_len(s: Seq<char>) -> nat
    decreases s.len(),
{
    if s.len() > 0 && is_dec_digit(s[0]) {
        1 + digits_len(s.drop_first())
    } else {
        0
    }
}

/// Value of a sequence of decimal digits, most significant first.
pub open spec fn digits_val(s: Seq<char>) -> int
    decreases s.len(),
{
    if s.len() == 0 {
        0
    } else {
        digits_val(s.drop_last()) * 10 + digit_val(s.last())
    }
}

/// Parses a JSON integer that fits a 32-bit signed field: an optional
/// minus sign and digits without a superfluous leading zero, not
/// followed by a fraction or exponent (those are numbers of the wrong
/// type for the record), with the value in 32-bit signed range.
pub open spec fn parse_i32(s: Seq<char>) -> Option<(int, Seq<char>)> {
    let neg = s.len() > 0 && s[0] == '-';
    let t = if neg {
        s.drop_first()
    } else {
        s
    };
    let k = digits_len(t);
    if k == 0 {
        None
    } else if t[0] == '0' && k > 1 {
        None
    } else {
        let m = digits_val(t.take(k as int));
        let v: int = if neg {
            -m
        } else {
            m
        };
        let rest = t.skip(k as int);
        if rest.len() > 0 && (rest[0] == '.' || rest[0] == 'e' || rest[0] == 'E') {
            None
        } else if v < i32::MIN || v > i32::MAX {
            None
        } else {
            Some((v, rest))
        }
    }
}

/// The character a two-character escape stands for, if the second
/// character is one of the eight JSON names.
pub open spec fn unescape_simple(c: char) -> Option<char> {
    if c == '"' {
        Some('"')
    } else if c == '\\' {
        Some('\\')
    } else if c == '/' {
        Some('/')
    } else if c == 'b' {
        Some('\u{8}')
    } else if c == 'f' {
        Some('\u{c}')
    } else if c == 'n' {
        Some('\n')
    } else if c == 'r' {
        Some('\r')
    } else if c == 't' {
        Some('\t')
    } else {
        None
    }
}

/// Whether `s` starts with four hexadecimal digits.
pub open spec fn hex4_ok(s: Seq<char>) -> bool {
    s.len() >= 4 && is_hex_digit(s[0]) && is_hex_digit(s[1]) && is_hex_digit(s[2]) && is_hex_digit(
        s[3],
    )
}

/// Value of the four leading hexadecimal digits of `s`.
pub open spec fn hex4_val(s: Seq<char>) -> int {
    ((hex_val(s[0]) * 16 + hex_val(s[1])) * 16 + hex_val(s[2])) * 16 + hex_val(s[3])
}

/// Parses the body of a JSON string after its opening quote, up to and
/// including the closing quote. Yields the decoded text and the
/// remainder after the closing quote. Escapes follow the JSON grammar,
/// `\u` escapes including surrogate pairs; unescaped control characters
/// are rejected.
pub open spec fn parse_string_body(s: Seq<char>) -> Option<(Seq<char>, Seq<char>)>
    decreases s.len(),
{
    if s.len() == 0 {
        None
    } else if s[0] == '"' {
        Some((Seq::empty(), s.drop_first()))
    } else if s[0] == '\\' {
        if s.len() < 2 {
            None
        } else if s[1] == 'u' {
            if !hex4_ok(s.skip(2)) {
                None
            } else {
                let code = hex4_val(s.skip(2));
                if 0xD800 <= code < 0xDC00 {
                    let t = s.skip(6);
                    if t.len() >= 6 && t[0] == '\\' && t[1] == 'u' && hex4_ok(t.skip(2)) && 0xDC00
                        <= hex4_val(t.skip(2)) < 0xE000 {
                        let cp = 0x10000 + (code - 0xD800) * 0x400 + (hex4_val(t.skip(2)) - 0xDC00);
                        match parse_string_body(s.skip(12)) {
                            Some(br) => Some((seq![cp as char] + br.0, br.1)),
                            None => None,
                        }
                    } else {
                        None
                    }
                } else if 0xDC00 <= code < 0xE000 {
                    None
                } else {
                    match parse_string_body(s.skip(6)) {
                        Some(br) => Some((seq![code as char] + br.0, br.1)),
                        None => None,
                    }
                }
            }
        } else {
            match unescape_simple(s[1]) {
                Some(c) => match parse_string_body(s.skip(2)) {
                    Some(br) => Some((seq![c] + br.0, br.1)),
                    None => None,
                },
                None => None,
            }
        }
    } else if (s[0] as int) < 0x20 {
        None
    } else {
        match parse_string_body(s.drop_first()) {
            Some(br) => Some((seq![s[0]] + br.0, br.1)),
            None => None,
        }
    }
}

/// Parses `true` or `false`.
pub open spec fn parse_bool(s: Seq<char>) -> Option<(bool, Seq<char>)> {
    if s.len() >= 4 && s[0] == 't' && s[1] == 'r' && s[2] == 'u' && s[3] == 'e' {
        Some((true, s.skip(4)))
    } else if s.len() >= 5 && s[0] == 'f' && s[1] == 'a' && s[2] == 'l' && s[3] == 's' && s[4]
        == 'e' {
        Some((false, s.skip(5)))
    } else {
        None
    }
}

/// Parses a member key: a JSON string followed by optional whitespace
/// and a colon. Yields the decoded key and the remainder after the
/// colon.
pub open spec fn parse_key(s: Seq<char>) -> Option<(Seq<char>, Seq<char>)> {
    if s.len() > 0 && s[0] == '"' {
        match parse_string_body(s.drop_first()) {
            Some(kr) => {
                let r = skip_ws(kr.1);
                if r.len() > 0 && r[0] == ':' {
                    Some((kr.0, r.drop_first()))
                } else {
                    None
                }
            },
            None => None,
        }
    } else {
        None
    }
}

/// The fields gathered while parsing an object's members.
pub struct PartialUser {
    pub id: Option<int>,
    pub name: Option<Seq<char>>,
    pub email: Option<Seq<char>>,
    pub age: Option<int>,
    pub active: Option<bool>,
}

pub open spec fn empty_partial() -> PartialUser {
    PartialUser { id: None, name: None, email: None, age: None, active: None }
}

pub open spec fn partial_complete(p: PartialUser) -> bool {
    p.id is Some && p.name is Some && p.email is Some && p.age is Some && p.active is Some
}

pub open spec fn partial_view(p: PartialUser) -> UserView {
    UserView {
        id: p.id->Some_0,
        name: p.name->Some_0,
        email: p.email->Some_0,
        age: p.age->Some_0,
        active: p.active->Some_0,
    }
}

/// Parses the value of the member named `key` and records it in `p`.
/// Fails on a key that is not one of the five, on a repeated key, and on
/// a value of the wrong type.
pub open spec fn parse_field(key: Seq<char>, p: PartialUser, s: Seq<char>) -> Option<
    (PartialUser, Seq<char>),
> {
    if key == seq!['i', 'd'] {
        if p.id is Some {
            None
        } else {
            match parse_i32(s) {
                Some(vr) => Some((PartialUser { id: Some(vr.0), ..p }, vr.1)),
                None => None,
            }
        }
    } else if key == seq!['n', 'a', 'm', 'e'] {
        if p.name is Some {
            None
        } else if s.len() > 0 && s[0] == '"' {
            match parse_string_body(s.drop_first()) {
                Some(vr) => Some((PartialUser { name: Some(vr.0), ..p }, vr.1)),
                None => None,
            }
        } else {
            None
        }
    } else if key == seq!['e', 'm', 'a', 'i', 'l'] {
        if p.email is Some {
            None
        } else if s.len() > 0 && s[0] == '"' {
            match parse_string_body(s.drop_first()) {
                Some(vr) => Some((PartialUser { email: Some(vr.0), ..p }, vr.1)),
                None => None,
            }
        } else {
            None
        }
    } else if key == seq!['a', 'g', 'e'] {
        if p.age is Some {
            None
        } else {
            match parse_i32(s) {
                Some(vr) => Some((PartialUser { age: Some(vr.0), ..p }, vr.1)),
                None => None,
            }
        }
    } else if key == seq!['a', 'c', 't', 'i', 'v', 'e'] {
        if p.active is Some {
            None
        } else {
            match parse_bool(s) {
                Some(vr) => Some((PartialUser { active: Some(vr.0), ..p }, vr.1)),
                None => None,
            }
        }
    } else {
        None
    }
}

/// Parses the members of the object, starting after `{` or after a
/// comma, up to and including the closing `}`. At most five members can
/// occur (a sixth would repeat a key), so the recursion is bounded by a
/// fuel of five.
pub open spec fn parse_members(s: Seq<char>, p: PartialUser, fuel: nat) -> Option<
    (PartialUser, Seq<char>),
>
    decreases fuel,
{
    if fuel == 0 {
        None
    } else {
        match parse_key(skip_ws(s)) {
            Some(kr) => match parse_field(kr.0, p, skip_ws(kr.1)) {
                Some(pr) => {
                    let r = skip_ws(pr.1);
                    if r.len() > 0 && r[0] == ',' {
                        parse_members(r.drop_first(), pr.0, (fuel - 1) as nat)
                    } else if r.len() > 0 && r[0] == '}' {
                        Some((pr.0, r.drop_first()))
                    } else {
                        None
                    }
                },
                None => None,
            },
            None => None,
        }
    }
}

/// The decoding specification: the user denoted by `s`, or `None` when
/// `s` is not a JSON object with exactly the five keys of the record,
/// each of the field's type, surrounded by nothing but whitespace.
pub open spec fn parse_user(s: Seq<char>) -> Option<UserView> {
    let t = skip_ws(s);
    if t.len() > 0 && t[0] == '{' {
        match parse_members(t.drop_first(), empty_partial(), 5) {
            Some(pr) => if partial_complete(pr.0) && skip_ws(pr.1).len() == 0 {
                Some(partial_view(pr.0))
            } else {
                None
            },
            None => None,
        }
    } else {
        None
    }
}

} // verus!
