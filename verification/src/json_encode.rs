//! The executable JSON encoders, proved to produce exactly the
//! renderings that `compact_json` and `pretty_json` specify.

use vstd::prelude::*;
use vstd::string::StrSliceExecFns;
use crate::chars::{chars_to_string, dec_digit, push_chars, push_i32};
use crate::errors::Error;
use crate::json::{compact_json, esc, esc_char, hex_digit, pretty_json};
use crate::user::User;

verus! {

/// Escaping distributes over concatenation.
pub proof fn lemma_esc_add(a: Seq<char>, b: Seq<char>)
    ensures
        esc(a + b) == esc(a) + esc(b),
    decreases a.len(),
{
    if a.len() == 0 {
        assert(a + b =~= b);
        assert(esc(a) + esc(b) =~= esc(b));
    } else {
        assert((a + b).drop_first() =~= a.drop_first() + b);
        lemma_esc_add(a.drop_first(), b);
        assert(esc_char((a + b)[0]) + (esc(a.drop_first()) + esc(b)) =~= (esc_char(a[0]) + esc(
            a.drop_first(),
        )) + esc(b));
    }
}

fn hex_digit_char(d: u32) -> (c: char)
    requires
        d < 16,
    ensures
        c == hex_digit(d as int),
{
    match d {
        0 => '0',
        1 => '1',
        2 => '2',
        3 => '3',
        4 => '4',
        5 => '5',
        6 => '6',
        7 => '7',
        8 => '8',
        9 => '9',
        10 => 'a',
        11 => 'b',
        12 => 'c',
        13 => 'd',
        14 => 'e',
        _ => 'f',
    }
}

fn push_esc_char(out: &mut Vec<char>, c: char)
    ensures
        final(out)@ == old(out)@ + esc_char(c),
{
    if c == '"' {
        out.push('\\');
        out.push('"');
    } else if c == '\\' {
        out.push('\\');
        out.push('\\');
    } else if c == '\u{8}' {
        out.push('\\');
        out.push('b');
    } else if c == '\u{c}' {
        out.push('\\');
        out.push('f');
    } else if c == '\n' {
        out.push('\\');
        out.push('n');
    } else if c == '\r' {
        out.push('\\');
        out.push('r');
    } else if c == '\t' {
        out.push('\\');
        out.push('t');
    } else if (c as u32) < 0x20 {
        let v = c as u32;
        out.push('\\');
        out.push('u');
        out.push('0');
        out.push('0');
        let h = hex_digit_char(v / 16);
        out.push(h);
        let l = hex_digit_char(v % 16);
        out.push(l);
        proof {
            assert(out@ =~= old(out)@ + esc_char(c));
        }
    } else {
        out.push(c);
        proof {
            assert(out@ =~= old(out)@ + esc_char(c));
        }
    }
    proof {
        assert(out@ =~= old(out)@ + esc_char(c));
    }
}

/// Appends the JSON escape of `s` to `out`.
fn push_esc(out: &mut Vec<char>, s: &str)
    ensures
        final(out)@ == old(out)@ + esc(s@),
{
    let n = s.unicode_len();
    let mut i: usize = 0;
    proof {
        assert(s@.take(0) =~= Seq::<char>::empty());
        assert(out@ =~= old(out)@ + esc(s@.take(0)));
    }
    while i < n
        invariant
            i <= n,
            n == s@.len(),
            out@ == old(out)@ + esc(s@.take(i as int)),
        decreases n - i,
    {
        let c = s.get_char(i);
        push_esc_char(out, c);
        proof {
            assert(s@.take(i + 1) =~= s@.take(i as int) + seq![c]);
            lemma_esc_add(s@.take(i as int), seq![c]);
            assert(seq![c].drop_first() =~= Seq::<char>::empty());
            assert(esc(seq![c]) =~= esc_char(c) + esc(Seq::<char>::empty()));
            assert(esc_char(c) + Seq::<char>::empty() =~= esc_char(c));
            assert((old(out)@ + esc(s@.take(i as int))) + esc_char(c) =~= old(out)@ + esc(
                s@.take(i + 1),
            ));
        }
        i = i + 1;
    }
    proof {
        assert(s@.take(n as int) =~= s@);
    }
}

impl User {
    /// The compact JSON rendering of this user. Serialization of the
    /// fixed record shape cannot fail, and the contract proves it: the
    /// result is always `Ok`.
    pub fn encode_json(&self) -> (r: Result<String, Error>)
        ensures
            r is Ok,
            r matches Ok(s) ==> s@ == compact_json(self@),
    {
        let mut out: Vec<char> = Vec::new();
        push_chars(&mut out, "{\"id\":");
        proof {
            reveal_strlit("{\"id\":");
            assert("{\"id\":"@ =~= seq!['{', '"', 'i', 'd', '"', ':']);
        }
        push_i32(&mut out, self.id);
        push_chars(&mut out, ",\"name\":\"");
        proof {
            reveal_strlit(",\"name\":\"");
            assert(",\"name\":\""@ =~= seq![',', '"', 'n', 'a', 'm', 'e', '"', ':', '"']);
        }
        push_esc(&mut out, self.name.as_str());
        push_chars(&mut out, "\",\"email\":\"");
        proof {
            reveal_strlit("\",\"email\":\"");
            assert("\",\"email\":\""@ =~= seq!['"', ',', '"', 'e', 'm', 'a', 'i', 'l', '"', ':', '"']);
        }
        push_esc(&mut out, self.email.as_str());
        push_chars(&mut out, "\",\"age\":");
        proof {
            reveal_strlit("\",\"age\":");
            assert("\",\"age\":"@ =~= seq!['"', ',', '"', 'a', 'g', 'e', '"', ':']);
        }
        push_i32(&mut out, self.age);
        push_chars(&mut out, ",\"active\":");
        proof {
            reveal_strlit(",\"active\":");
            assert(",\"active\":"@ =~= seq![',', '"', 'a', 'c', 't', 'i', 'v', 'e', '"', ':']);
        }
        if self.active {
            push_chars(&mut out, "true");
            proof {
                reveal_strlit("true");
                assert("true"@ =~= seq!['t', 'r', 'u', 'e']);
            }
        } else {
            push_chars(&mut out, "false");
            proof {
                reveal_strlit("false");
                assert("false"@ =~= seq!['f', 'a', 'l', 's', 'e']);
            }
        }
        out.push('}');
        proof {
            assert(out@ =~= compact_json(self@));
        }
        Ok(chars_to_string(&out))
    }

    /// The pretty JSON rendering: same members and values as the
    /// compact form, one member per line, indented by two spaces.
    pub fn encode_json_pretty(&self) -> (r: Result<String, Error>)
        ensures
            r is Ok,
            r matches Ok(s) ==> s@ == pretty_json(self@),
    {
        let mut out: Vec<char> = Vec::new();
        push_chars(&mut out, "{\n  \"id\": ");
        proof {
            reveal_strlit("{\n  \"id\": ");
            assert("{\n  \"id\": "@ =~= seq!['{', '\n', ' ', ' ', '"', 'i', 'd', '"', ':', ' ']);
        }
        push_i32(&mut out, self.id);
        push_chars(&mut out, ",\n  \"name\": \"");
        proof {
            reveal_strlit(",\n  \"name\": \"");
            assert(",\n  \"name\": \""@ =~= seq![',', '\n', ' ', ' ', '"', 'n', 'a', 'm', 'e', '"', ':', ' ', '"']);
        }
        push_esc(&mut out, self.name.as_str());
        push_chars(&mut out, "\",\n  \"email\": \"");
        proof {
            reveal_strlit("\",\n  \"email\": \"");
            assert("\",\n  \"email\": \""@ =~= seq!['"', ',', '\n', ' ', ' ', '"', 'e', 'm', 'a', 'i', 'l', '"', ':', ' ', '"']);
        }
        push_esc(&mut out, self.email.as_str());
        push_chars(&mut out, "\",\n  \"age\": ");
        proof {
            reveal_strlit("\",\n  \"age\": ");
            assert("\",\n  \"age\": "@ =~= seq!['"', ',', '\n', ' ', ' ', '"', 'a', 'g', 'e', '"', ':', ' ']);
        }
        push_i32(&mut out, self.age);
        push_chars(&mut out, ",\n  \"active\": ");
        proof {
            reveal_strlit(",\n  \"active\": ");
            assert(",\n  \"active\": "@ =~= seq![',', '\n', ' ', ' ', '"', 'a', 'c', 't', 'i', 'v', 'e', '"', ':', ' ']);
        }
        if self.active {
            push_chars(&mut out, "true");
            proof {
                reveal_strlit("true");
                assert("true"@ =~= seq!['t', 'r', 'u', 'e']);
            }
        } else {
            push_chars(&mut out, "false");
            proof {
                reveal_strlit("false");
                assert("false"@ =~= seq!['f', 'a', 'l', 's', 'e']);
            }
        }
        push_chars(&mut out, "\n}");
        proof {
            reveal_strlit("\n}");
            assert("\n}"@ =~= seq!['\n', '}']);
            assert(out@ =~= pretty_json(self@));
        }
        Ok(chars_to_string(&out))
    }
}

} // verus!
