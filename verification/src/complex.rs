//! Fixed-point complex numbers.
//!
//! A coordinate of the complex plane is stored as an `i64` that holds the
//! real value multiplied by [`SCALE`]: the stored integer `re` stands for
//! the real number `re / SCALE`.  All arithmetic on coordinates is exact
//! integer arithmetic; a product of two coordinates is rescaled by a
//! truncating division, [`scaled_quotient`].

use vstd::prelude::*;
use vstd::arithmetic::div_mod::{lemma_div_pos_is_pos, lemma_div_nonincreasing};

verus! {

/// The fixed-point unit: a stored coordinate of `SCALE` stands for `1.0`.
pub const SCALE: i64 = 65536;

/// A point of the complex plane, both components in fixed-point form.
#[derive(Debug, Clone, Copy, PartialEq)]
pub struct Complex<T> {
    pub re: T,
    pub im: T,
}

/// The quotient of `num` by the positive `den`, rounded toward zero.
pub open spec fn scaled_quotient(num: int, den: int) -> int {
    if num >= 0 {
        num / den
    } else {
        -((-num) / den)
    }
}

/// Rounding toward zero is an odd function of the numerator.
pub proof fn lemma_scaled_quotient_neg(num: int, den: int)
    requires
        den > 0,
    ensures
        scaled_quotient(-num, den) == -scaled_quotient(num, den),
{
}

/// A number whose square is at most `bound * bound` lies within `bound` of zero.
pub proof fn lemma_square_bound(x: int, bound: int)
    requires
        bound >= 0,
        x * x <= bound * bound,
    ensures
        -bound <= x <= bound,
{
    if x > bound {
        assert(x * x > bound * bound) by (nonlinear_arith)
            requires
                x > bound >= 0,
        ;
    }
    if x < -bound {
        assert(x * x > bound * bound) by (nonlinear_arith)
            requires
                x < -bound,
                bound >= 0,
        ;
    }
}

/// A product of two numbers within `a` and `b` of zero lies within `a * b` of zero.
pub proof fn lemma_product_bound(x: int, y: int, a: int, b: int)
    requires
        -a <= x <= a,
        -b <= y <= b,
        a >= 0,
        b >= 0,
    ensures
        -(a * b) <= x * y <= a * b,
{
    assert(-(a * b) <= x * y <= a * b) by (nonlinear_arith)
        requires
            -a <= x <= a,
            -b <= y <= b,
            a >= 0,
            b >= 0,
    ;
}

/// The quotient of `num` by the positive `den`, rounded toward zero, as
/// executable arithmetic.  The quotient never exceeds the numerator in
/// magnitude.
pub fn quotient_toward_zero(num: i128, den: u64) -> (q: i128)
    requires
        den > 0,
        -0x1000000000000000000000000 <= num <= 0x1000000000000000000000000,
    ensures
        q as int == scaled_quotient(num as int, den as int),
        num >= 0 ==> 0 <= q <= num,
        num < 0 ==> num <= q <= 0,
{
    if num >= 0 {
        let mag: u128 = num as u128;
        let quo: u128 = mag / (den as u128);
        proof {
            lemma_div_pos_is_pos(mag as int, den as int);
            lemma_div_nonincreasing(mag as int, den as int);
        }
        quo as i128
    } else {
        let mag: u128 = (-num) as u128;
        let quo: u128 = mag / (den as u128);
        proof {
            lemma_div_pos_is_pos(mag as int, den as int);
            lemma_div_nonincreasing(mag as int, den as int);
        }
        -(quo as i128)
    }
}

} // verus!
