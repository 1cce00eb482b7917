//! A small record library: a `User` record with a verified JSON codec,
//! an attribute-map model of loosely typed entities, and two processing
//! paths (name lookup vs. direct field access) over sequences of entities.

use vstd::prelude::*;

mod chars;
pub mod errors;
pub mod json;
pub mod json_decode;
pub mod json_encode;
pub mod json_laws;
pub mod process;
pub mod record;
pub mod user;

verus! {

use vstd::string::StringExecFns;

/// Adds two 32-bit integers with two's-complement wraparound.
pub fn add(a: i32, b: i32) -> (r: i32)
    ensures
        i32::MIN <= a + b <= i32::MAX ==> r == a + b,
        a + b > i32::MAX ==> r == a + b - 0x1_0000_0000,
        a + b < i32::MIN ==> r == a + b + 0x1_0000_0000,
{
    a.wrapping_add(b)
}

/// Multiplies two 32-bit integers with two's-complement wraparound.
pub fn multiply(a: i32, b: i32) -> (r: i32)
    ensures
        i32::MIN <= a * b <= i32::MAX ==> r == a * b,
        (r - a * b) % 0x1_0000_0000 == 0,
{
    let r = a.wrapping_mul(b);
    proof {
        lemma_wrapping_mul_i32(a, b);
    }
    r
}

proof fn lemma_wrapping_mul_i32(a: i32, b: i32)
    ensures
        i32::MIN <= a * b <= i32::MAX ==> vstd::wrapping::i32_specs::wrapping_mul(a, b) == a * b,
        (vstd::wrapping::i32_specs::wrapping_mul(a, b) - a * b) % 0x1_0000_0000 == 0,
{
    let p = a as int * b as int;
    let m = p % 0x1_0000_0000;
    vstd::arithmetic::div_mod::lemma_fundamental_div_mod(p, 0x1_0000_0000);
    assert(p - m == 0x1_0000_0000 * (p / 0x1_0000_0000));
    assert((p - m) % 0x1_0000_0000 == 0) by (nonlinear_arith)
        requires
            p - m == 0x1_0000_0000 * (p / 0x1_0000_0000),
    ;
    if m > i32::MAX {
        assert(((m - 0x1_0000_0000) - p) % 0x1_0000_0000 == 0) by (nonlinear_arith)
            requires
                (p - m) % 0x1_0000_0000 == 0,
        ;
    } else {
        assert((m - p) % 0x1_0000_0000 == 0) by (nonlinear_arith)
            requires
                (p - m) % 0x1_0000_0000 == 0,
        ;
    }
    if i32::MIN <= p <= i32::MAX {
        assert(p % 0x1_0000_0000 == if p >= 0 {
            p
        } else {
            p + 0x1_0000_0000
        });
    }
}

/// The greeting `Hello, {name}!`.
pub fn greet(name: &str) -> (r: String)
    ensures
        r@ == "Hello, "@ + name@ + "!"@,
{
    let mut s = String::from_str("Hello, ");
    s.append(name);
    s.append("!");
    s
}

} // verus!
