//! Integer arithmetic on raw bits.
//!
//! All operations wrap around at sixty-four bits. Division by zero and
//! operators that are no arithmetic have no result.

use vstd::prelude::*;
use vstd::arithmetic::div_mod::lemma_mul_mod_noop_general;
use vstd::arithmetic::power::{
    lemma_pow0, lemma_pow1, lemma_pow_adds, lemma_pow_mod_noop, lemma_pow_multiplies,
    lemma_square_is_pow2, pow,
};
use crate::ast::Operator;

verus! {

/// The number of values that sixty-four bits can hold.
pub open spec fn modulus() -> int {
    0x1_0000_0000_0000_0000
}

/// Whether `op` is one of the five arithmetic operators.
pub open spec fn is_arithmetic(op: Operator) -> bool {
    op == Operator::Plus || op == Operator::Minus || op == Operator::Multiply || op
        == Operator::Divide || op == Operator::Exponent
}

/// `base` to the power `exp`, wrapped to sixty-four bits.
pub open spec fn wrapping_pow(base: u64, exp: nat) -> u64 {
    (pow(base as int, exp) % modulus()) as u64
}

/// The exponent that the bits of a right operand stand for: their low
/// thirty-two bits.
pub open spec fn exponent_of(bits: u64) -> nat {
    (bits % 0x1_0000_0000) as nat
}

/// The result of an integer operation on raw bits.
pub open spec fn integer_result(op: Operator, left: u64, right: u64) -> Option<u64> {
    match op {
        Operator::Plus => Some(((left + right) % modulus()) as u64),
        Operator::Minus => Some(((left - right) % modulus()) as u64),
        Operator::Multiply => Some(((left * right) % modulus()) as u64),
        Operator::Divide => if right == 0 {
            None
        } else {
            Some(left / right)
        },
        Operator::Exponent => Some(wrapping_pow(left, exponent_of(right))),
        _ => None,
    }
}

/// Whether `op` is one of the five arithmetic operators.
pub fn is_arithmetic_operator(op: Operator) -> (r: bool)
    ensures
        r == is_arithmetic(op),
{
    match op {
        Operator::Plus | Operator::Minus | Operator::Multiply | Operator::Divide | Operator::Exponent => true,
        _ => false,
    }
}

/// `base` to the power `exp`, wrapped to sixty-four bits, by repeated
/// squaring.
pub fn wrapping_power(base: u64, exp: u32) -> (r: u64)
    ensures
        r == wrapping_pow(base, exp as nat),
{
    let mut acc: u64 = 1;
    let mut b: u64 = base;
    let mut e: u32 = exp;
    proof {
        assert(1 * pow(base as int, exp as nat) == pow(base as int, exp as nat));
    }
    while e > 0
        invariant
            (acc as int * pow(b as int, e as nat)) % modulus() == pow(base as int, exp as nat)
                % modulus(),
        decreases e,
    {
        let odd = e % 2 == 1;
        let half: u32 = e / 2;
        let squared = b.wrapping_mul(b);
        let next = if odd {
            acc.wrapping_mul(b)
        } else {
            acc
        };
        proof {
            lemma_power_step(acc as int, b as int, e as nat);
            let m = modulus();
            let sq = b as int * b as int;
            let factor = if odd {
                acc as int * b as int
            } else {
                acc as int
            };
            // acc * b^e == factor * (b*b)^half
            assert(acc as int * pow(b as int, e as nat) == factor * pow(sq, half as nat));
            assert(squared as int == sq % m);
            assert(next as int == factor % m);
            lemma_pow_mod_noop(sq, half as nat, m);
            lemma_mul_mod_noop_general(factor, pow(sq, half as nat), m);
            lemma_mul_mod_noop_general(factor % m, pow(sq % m, half as nat), m);
            assert((next as int * pow(squared as int, half as nat)) % m == (factor * pow(
                sq,
                half as nat,
            )) % m);
        }
        acc = next;
        b = squared;
        e = half;
    }
    proof {
        lemma_pow0(b as int);
        assert(acc as int * 1 == acc as int);
    }
    acc
}

/// One step of repeated squaring: `acc * b^e` is `acc * (b*b)^(e/2)` for
/// an even `e`, and `acc * b * (b*b)^(e/2)` for an odd one.
proof fn lemma_power_step(acc: int, b: int, e: nat)
    requires
        e > 0,
    ensures
        e % 2 == 0 ==> acc * pow(b, e) == acc * pow(b * b, e / 2),
        e % 2 == 1 ==> acc * pow(b, e) == (acc * b) * pow(b * b, e / 2),
{
    let h = e / 2;
    lemma_square_is_pow2(b);
    lemma_pow_multiplies(b, 2, h);
    assert(pow(b * b, h) == pow(b, 2 * h));
    if e % 2 == 0 {
        assert(e == 2 * h);
    } else {
        assert(e == 2 * h + 1);
        lemma_pow_adds(b, 2 * h, 1);
        lemma_pow1(b);
        assert(pow(b, e) == pow(b, 2 * h) * b);
        assert(acc * (pow(b, 2 * h) * b) == (acc * b) * pow(b, 2 * h)) by (nonlinear_arith);
    }
}

/// The integer operation `op` on raw bits. There is no result for a
/// division by zero and for an operator that is no arithmetic.
pub fn integer_operation(op: Operator, left: u64, right: u64) -> (r: Option<u64>)
    ensures
        r == integer_result(op, left, right),
{
    match op {
        Operator::Plus => Some(left.wrapping_add(right)),
        Operator::Minus => Some(left.wrapping_sub(right)),
        Operator::Multiply => Some(left.wrapping_mul(right)),
        Operator::Divide => {
            if right == 0 {
                None
            } else {
                Some(left / right)
            }
        },
        Operator::Exponent => {
            let exp: u32 = (right % 0x1_0000_0000) as u32;
            Some(wrapping_power(left, exp))
        },
        _ => None,
    }
}

} // verus!
