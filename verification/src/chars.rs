//! Character-sequence helpers shared by the record display form and the
//! JSON codec: decimal rendering of integers and building of strings
//! from character vectors.

use vstd::prelude::*;
use vstd::string::StrSliceExecFns;

verus! {

/// The decimal digit character for `d` (meaningful for `0 <= d <= 9`).
pub open spec fn dec_digit(d: int) -> char {
    if d == 0 {
        '0'
    } else if d == 1 {
        '1'
    } else if d == 2 {
        '2'
    } else if d == 3 {
        '3'
    } else if d == 4 {
        '4'
    } else if d == 5 {
        '5'
    } else if d == 6 {
        '6'
    } else if d == 7 {
        '7'
    } else if d == 8 {
        '8'
    } else {
        '9'
    }
}

pub open spec fn is_dec_digit(c: char) -> bool {
    '0' <= c && c <= '9'
}

pub open spec fn digit_val(c: char) -> int {
    c as int - '0' as int
}

/// Base-ten digits of `n`, most significant first; empty for zero.
pub open spec fn dec_rec(n: nat) -> Seq<char>
    decreases n,
{
    if n == 0 {
        Seq::empty()
    } else {
        dec_rec(n / 10) + seq![dec_digit(n as int % 10)]
    }
}

/// Decimal rendering of a non-negative integer ("0" for zero).
pub open spec fn nat_chars(n: nat) -> Seq<char> {
    if n == 0 {
        seq!['0']
    } else {
        dec_rec(n)
    }
}

/// Decimal rendering of an integer, with a leading minus sign when negative.
pub open spec fn int_chars(n: int) -> Seq<char> {
    if n >= 0 {
        nat_chars(n as nat)
    } else {
        seq!['-'] + nat_chars((-n) as nat)
    }
}

/// Relies on `String`'s `FromIterator<char>` implementation: collecting
/// characters yields the string of exactly those characters, in order.
#[verifier::external_body]
pub(crate) fn chars_to_string(v: &Vec<char>) -> (r: String)
    ensures
        r@ == v@,
{
    v.iter().collect()
}

/// Appends every character of `s` to `out`.
pub(crate) fn push_chars(out: &mut Vec<char>, s: &str)
    ensures
        final(out)@ == old(out)@ + s@,
{
    let n = s.unicode_len();
    let mut i: usize = 0;
    while i < n
        invariant
            i <= n,
            n == s@.len(),
            out@ == old(out)@ + s@.take(i as int),
        decreases n - i,
    {
        let c = s.get_char(i);
        out.push(c);
        proof {
            assert(s@.take(i + 1) =~= s@.take(i as int) + seq![s@[i as int]]);
        }
        i = i + 1;
    }
    proof {
        assert(s@.take(n as int) =~= s@);
    }
}

fn digit_char(d: u64) -> (c: char)
    requires
        d < 10,
    ensures
        c == dec_digit(d as int),
{
    match d {
        0 => '0',
        1 => '1',
        2 => '2',
        3 => '3',
        4 => '4',
        5 => '5',
        6 => '6',
        7 => '7',
        8 => '8',
        _ => '9',
    }
}

/// Appends the base-ten digits of `m` to `out`.
fn push_dec_digits(out: &mut Vec<char>, m: u64)
    requires
        m > 0,
    ensures
        final(out)@ == old(out)@ + dec_rec(m as nat),
{
    let mut rev: Vec<char> = Vec::new();
    let mut x: u64 = m;
    while x > 0
        invariant
            dec_rec(m as nat) == dec_rec(x as nat) + rev@.reverse(),
        decreases x,
    {
        let d: u64 = x % 10;
        let c = digit_char(d);
        rev.push(c);
        proof {
            let prev = rev@.drop_last();
            assert(rev@ =~= prev + seq![c]);
            assert(rev@.reverse() =~= seq![c] + prev.reverse());
            assert(dec_rec(x as nat) == dec_rec((x / 10) as nat) + seq![dec_digit(x as int % 10)]);
            assert(dec_rec((x / 10) as nat) + (seq![c] + prev.reverse()) =~= (dec_rec(
                (x / 10) as nat,
            ) + seq![c]) + prev.reverse());
        }
        x = x / 10;
    }
    proof {
        assert(dec_rec(0) =~= Seq::<char>::empty());
        assert(dec_rec(m as nat) =~= rev@.reverse());
    }
    let k = rev.len();
    let mut j: usize = k;
    while j > 0
        invariant
            j <= k,
            k == rev@.len(),
            out@ == old(out)@ + rev@.reverse().take((k - j) as int),
        decreases j,
    {
        j = j - 1;
        let c = rev[j];
        out.push(c);
        proof {
            assert(rev@.reverse().take((k - j) as int) =~= rev@.reverse().take((k - j - 1) as int)
                + seq![rev@[j as int]]);
        }
    }
    proof {
        assert(rev@.reverse().take(k as int) =~= rev@.reverse());
    }
}

/// Appends the decimal rendering of `n` to `out`.
pub(crate) fn push_i32(out: &mut Vec<char>, n: i32)
    ensures
        final(out)@ == old(out)@ + int_chars(n as int),
{
    if n == 0 {
        out.push('0');
        proof {
            assert(int_chars(0) =~= seq!['0']);
        }
    } else if n < 0 {
        out.push('-');
        let m: u64 = (-(n as i64)) as u64;
        push_dec_digits(out, m);
        proof {
            assert(int_chars(n as int) =~= seq!['-'] + dec_rec(m as nat));
        }
    } else {
        let m: u64 = n as u64;
        push_dec_digits(out, m);
    }
}

} // verus!
