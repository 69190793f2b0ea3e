//! The Goldilocks prime field, represented by canonical `u64` values.
//!
//! Every field element in this crate is a `u64` strictly below
//! `FIELD_ORDER`; the arithmetic here is ordinary modular arithmetic on
//! those representatives, stated exactly in the contracts.

use vstd::prelude::*;

verus! {

/// The Goldilocks prime, 2^64 - 2^32 + 1.
pub const FIELD_ORDER: u64 = 0xFFFF_FFFF_0000_0001;

/// A `u64` is a canonical field element when it is below the field order.
pub open spec fn is_fe(x: u64) -> bool {
    x < FIELD_ORDER
}

/// Every element of the sequence is a canonical field element.
pub open spec fn all_fe(s: Seq<u64>) -> bool {
    forall|i: int| 0 <= i < s.len() ==> is_fe(#[trigger] s[i])
}

/// Field addition, as a mathematical function on representatives.
pub open spec fn fe_add(a: u64, b: u64) -> u64 {
    (((a as int) + (b as int)) % (FIELD_ORDER as int)) as u64
}

/// Field multiplication, as a mathematical function on representatives.
pub open spec fn fe_mul(a: u64, b: u64) -> u64 {
    (((a as int) * (b as int)) % (FIELD_ORDER as int)) as u64
}

/// Field subtraction, as a mathematical function on representatives.
pub open spec fn fe_sub(a: u64, b: u64) -> u64 {
    (((a as int) - (b as int)) % (FIELD_ORDER as int)) as u64
}

pub proof fn lemma_fe_mul_zero(x: u64)
    ensures
        fe_mul(0u64, x) == 0u64,
{
}

pub proof fn lemma_fe_mul_one_left(x: u64)
    requires
        is_fe(x),
    ensures
        fe_mul(1u64, x) == x,
{
    vstd::arithmetic::div_mod::lemma_small_mod(x as nat, FIELD_ORDER as nat);
}

/// Subtraction without wrap: when the difference fits, the field
/// subtraction is the plain one.
pub proof fn lemma_fe_sub_exact(a: u64, b: u64)
    requires
        b <= a,
        a - b < FIELD_ORDER,
    ensures
        fe_sub(a, b) == a - b,
{
    vstd::arithmetic::div_mod::lemma_small_mod((a - b) as nat, FIELD_ORDER as nat);
}

/// Addition without wrap: when the sum fits, the field addition is the
/// plain one.
pub proof fn lemma_fe_add_exact(a: u64, b: u64)
    requires
        a + b < FIELD_ORDER,
    ensures
        fe_add(a, b) == a + b,
{
    vstd::arithmetic::div_mod::lemma_small_mod((a + b) as nat, FIELD_ORDER as nat);
}

/// Multiplication without wrap: when the product fits, the field
/// multiplication is the plain one.
pub proof fn lemma_fe_mul_exact(a: u64, b: u64)
    requires
        a * b < FIELD_ORDER,
    ensures
        fe_mul(a, b) == a * b,
{
    vstd::arithmetic::div_mod::lemma_small_mod((a * b) as nat, FIELD_ORDER as nat);
}

pub fn add_fe(a: u64, b: u64) -> (r: u64)
    ensures
        r == fe_add(a, b),
        is_fe(r),
{
    let s: u128 = a as u128 + b as u128;
    let r: u128 = s % (FIELD_ORDER as u128);
    r as u64
}

pub fn mul_fe(a: u64, b: u64) -> (r: u64)
    ensures
        r == fe_mul(a, b),
        is_fe(r),
{
    proof {
        assert((a as int) * (b as int) <= (0xFFFF_FFFF_FFFF_FFFFu64 as int) * (0xFFFF_FFFF_FFFF_FFFFu64 as int))
            by (nonlinear_arith)
            requires
                a <= 0xFFFF_FFFF_FFFF_FFFFu64,
                b <= 0xFFFF_FFFF_FFFF_FFFFu64,
        ;
    }
    let p: u128 = (a as u128) * (b as u128);
    let r: u128 = p % (FIELD_ORDER as u128);
    r as u64
}

pub fn sub_fe(a: u64, b: u64) -> (r: u64)
    requires
        is_fe(a),
        is_fe(b),
    ensures
        r == fe_sub(a, b),
        is_fe(r),
{
    if a >= b {
        let r: u64 = a - b;
        proof {
            assert((((a as int) - (b as int)) % (FIELD_ORDER as int)) == (a - b) as int) by {
                vstd::arithmetic::div_mod::lemma_small_mod((a - b) as nat, FIELD_ORDER as nat);
            }
        }
        r
    } else {
        let r: u64 = FIELD_ORDER - (b - a);
        proof {
            let p = FIELD_ORDER as int;
            let d = (a as int) - (b as int);
            assert(d % p == (d + p) % p) by {
                vstd::arithmetic::div_mod::lemma_mod_add_multiples_vanish(d, p);
            }
            assert((d + p) % p == d + p) by {
                vstd::arithmetic::div_mod::lemma_small_mod((d + p) as nat, p as nat);
            }
        }
        r
    }
}

} // verus!
