//! The escape-time evaluator.
//!
//! Starting from `z = 0`, the point `c` is iterated through
//! `z <- z * z + c`.  As soon as the squared norm of `z` exceeds `4`, the
//! point has escaped and the iteration index is reported; if `limit`
//! iterations pass without an escape, the point is presumed to belong to
//! the set and no index is reported.

use vstd::prelude::*;
use crate::complex::{Complex, SCALE, scaled_quotient, lemma_square_bound, lemma_product_bound};

verus! {

/// The escape threshold for the squared norm, in fixed-point form:
/// a squared norm above `4` means the point diverges.
pub const NORM_LIMIT: i64 = 4 * SCALE * SCALE;

/// The real component of `z * z + c`, in fixed-point form.
pub open spec fn step_re(zre: int, zim: int, cre: int) -> int {
    scaled_quotient(zre * zre - zim * zim, SCALE as int) + cre
}

/// The imaginary component of `z * z + c`, in fixed-point form.
pub open spec fn step_im(zre: int, zim: int, cim: int) -> int {
    scaled_quotient(2 * (zre * zim), SCALE as int) + cim
}

/// The iteration state after `n` steps of `z <- z * z + c` from `z = 0`.
pub open spec fn iter_z(cre: int, cim: int, n: nat) -> (int, int)
    decreases n,
{
    if n == 0 {
        (0int, 0int)
    } else {
        let z = iter_z(cre, cim, (n - 1) as nat);
        (step_re(z.0, z.1, cre), step_im(z.0, z.1, cim))
    }
}

/// Whether an iteration state has left the circle of radius `2`.
pub open spec fn escaped(zre: int, zim: int) -> bool {
    zre * zre + zim * zim > NORM_LIMIT
}

/// The first index in `n .. limit` whose iteration state has escaped,
/// if there is one.
pub open spec fn escape_time_from(cre: int, cim: int, n: nat, limit: nat) -> Option<nat>
    decreases limit - n,
{
    if n >= limit {
        None
    } else if escaped(iter_z(cre, cim, n).0, iter_z(cre, cim, n).1) {
        Some(n)
    } else {
        escape_time_from(cre, cim, (n + 1) as nat, limit)
    }
}

/// The first iteration index below `limit` at which the point `c` escapes,
/// if there is one.
pub open spec fn escape_time_spec(cre: int, cim: int, limit: nat) -> Option<nat> {
    escape_time_from(cre, cim, 0, limit)
}

/// One step from the origin lands exactly on `c`.
pub proof fn lemma_iter_one(cre: int, cim: int)
    ensures
        iter_z(cre, cim, 1) == (cre, cim),
{
    assert(iter_z(cre, cim, 0) == (0int, 0int));
    assert(scaled_quotient(0int, SCALE as int) == 0) by {
        assert(0int / (SCALE as int) == 0);
    }
}

/// The tail search finds the first escape at or after `n`.
proof fn lemma_escape_from_first(cre: int, cim: int, n: nat, limit: nat)
    requires
        n <= limit,
    ensures
        match escape_time_from(cre, cim, n, limit) {
            Some(m) => n <= m < limit && escaped(iter_z(cre, cim, m).0, iter_z(cre, cim, m).1)
                && (forall|k: nat| n <= k < m ==> !escaped(
                iter_z(cre, cim, k).0,
                iter_z(cre, cim, k).1,
            )),
            None => forall|k: nat| n <= k < limit ==> !escaped(
                iter_z(cre, cim, k).0,
                iter_z(cre, cim, k).1,
            ),
        },
    decreases limit - n,
{
    if n < limit {
        if !escaped(iter_z(cre, cim, n).0, iter_z(cre, cim, n).1) {
            lemma_escape_from_first(cre, cim, (n + 1) as nat, limit);
        }
    }
}

/// What the escape time means: `Some(n)` is reported exactly when the
/// state at iteration `n` has escaped and no earlier state has; no
/// result is reported exactly when no state below the budget escapes.
pub proof fn lemma_escape_time_first(cre: int, cim: int, limit: nat)
    ensures
        match escape_time_spec(cre, cim, limit) {
            Some(n) => n < limit && escaped(iter_z(cre, cim, n).0, iter_z(cre, cim, n).1)
                && (forall|k: nat| k < n ==> !escaped(
                iter_z(cre, cim, k).0,
                iter_z(cre, cim, k).1,
            )),
            None => forall|k: nat| k < limit ==> !escaped(
                iter_z(cre, cim, k).0,
                iter_z(cre, cim, k).1,
            ),
        },
{
    lemma_escape_from_first(cre, cim, 0, limit);
}

/// Every iteration state of the origin is the origin itself.
proof fn lemma_iter_origin(n: nat)
    ensures
        iter_z(0, 0, n) == (0int, 0int),
    decreases n,
{
    if n > 0 {
        lemma_iter_origin((n - 1) as nat);
        assert(0int / (SCALE as int) == 0);
    }
}

/// No tail of an iteration budget reports the origin escaped.
proof fn lemma_origin_stays_from(n: nat, limit: nat)
    requires
        n <= limit,
    ensures
        escape_time_from(0, 0, n, limit) is None,
    decreases limit - n,
{
    if n < limit {
        lemma_iter_origin(n);
        lemma_origin_stays_from((n + 1) as nat, limit);
    }
}

/// The origin never escapes: the iteration fixes it in place, so every
/// positive iteration budget reports no result.
pub proof fn lemma_origin_never_escapes(limit: nat)
    requires
        limit >= 1,
    ensures
        escape_time_spec(0, 0, limit) is None,
{
    lemma_origin_stays_from(0, limit);
}

/// A point already outside the circle of radius `2` is reported escaped
/// at iteration `1` — the first index whose state is the point itself —
/// as soon as the budget allows a second iteration.
pub proof fn lemma_far_point_escapes(cre: int, cim: int, limit: nat)
    requires
        escaped(cre, cim),
        limit >= 2,
    ensures
        escape_time_spec(cre, cim, limit) == Some(1nat),
{
    lemma_iter_one(cre, cim);
    assert(iter_z(cre, cim, 0) == (0int, 0int));
    assert(!escaped(0, 0));
    assert(escape_time_from(cre, cim, 1, limit) == Some(1nat));
}

/// A budget of a single iteration examines only the origin state, so it
/// reports no point escaped, however far out the point lies.
pub proof fn lemma_single_iteration_sees_nothing(cre: int, cim: int)
    ensures
        escape_time_spec(cre, cim, 1) is None,
{
    assert(iter_z(cre, cim, 0) == (0int, 0int));
    assert(!escaped(0, 0));
    assert(escape_time_from(cre, cim, 1, 1) is None);
}

/// Whether the iteration state has escaped, decided exactly.
fn norm_sqr_exceeds(zre: i64, zim: i64) -> (r: bool)
    ensures
        r == escaped(zre as int, zim as int),
{
    let rm: u128 = if zre >= 0 {
        zre as u128
    } else {
        (-(zre as i128)) as u128
    };
    let im: u128 = if zim >= 0 {
        zim as u128
    } else {
        (-(zim as i128)) as u128
    };
    proof {
        assert((rm as int) * (rm as int) == (zre as int) * (zre as int)) by (nonlinear_arith)
            requires
                rm as int == zre as int || rm as int == -(zre as int),
        ;
        assert((im as int) * (im as int) == (zim as int) * (zim as int)) by (nonlinear_arith)
            requires
                im as int == zim as int || im as int == -(zim as int),
        ;
        lemma_product_bound(rm as int, im as int, 0x8000000000000000, 0x8000000000000000);
        lemma_product_bound(rm as int, rm as int, 0x8000000000000000, 0x8000000000000000);
        lemma_product_bound(im as int, im as int, 0x8000000000000000, 0x8000000000000000);
    }
    let norm: u128 = rm * rm + im * im;
    norm > (NORM_LIMIT as u128)
}

/// One iteration step `z * z + c`, for states that have not escaped.
fn step(z: &Complex<i64>, c: &Complex<i64>) -> (r: Complex<i64>)
    requires
        !escaped(z.re as int, z.im as int),
        !escaped(c.re as int, c.im as int),
    ensures
        r.re as int == step_re(z.re as int, z.im as int, c.re as int),
        r.im as int == step_im(z.re as int, z.im as int, c.im as int),
{
    proof {
        assert((z.im as int) * (z.im as int) >= 0) by (nonlinear_arith);
        assert((z.re as int) * (z.re as int) >= 0) by (nonlinear_arith);
        assert((c.im as int) * (c.im as int) >= 0) by (nonlinear_arith);
        assert((c.re as int) * (c.re as int) >= 0) by (nonlinear_arith);
        assert(0x20000 * 0x20000 == 0x400000000int);
        lemma_square_bound(z.re as int, 0x20000);
        lemma_square_bound(z.im as int, 0x20000);
        lemma_square_bound(c.re as int, 0x20000);
        lemma_square_bound(c.im as int, 0x20000);
        lemma_product_bound(z.re as int, z.re as int, 0x20000, 0x20000);
        lemma_product_bound(z.im as int, z.im as int, 0x20000, 0x20000);
        lemma_product_bound(z.re as int, z.im as int, 0x20000, 0x20000);
    }
    let zre: i128 = z.re as i128;
    let zim: i128 = z.im as i128;
    let diff: i128 = zre * zre - zim * zim;
    let cross: i128 = 2 * (zre * zim);
    let re_quo: i128 = crate::complex::quotient_toward_zero(diff, SCALE as u64);
    let im_quo: i128 = crate::complex::quotient_toward_zero(cross, SCALE as u64);
    Complex { re: (re_quo + c.re as i128) as i64, im: (im_quo + c.im as i128) as i64 }
}

/// How many iterations it takes `c` to leave the circle of radius `2`,
/// if at most `limit` iterations can tell: the result is the first
/// iteration index at which the state has escaped, and no result means
/// no state up to `limit` escapes.
pub fn escape_time(c: Complex<i64>, limit: usize) -> (r: Option<usize>)
    ensures
        match r {
            Some(n) => n < limit && escape_time_spec(c.re as int, c.im as int, limit as nat)
                == Some(n as nat),
            None => escape_time_spec(c.re as int, c.im as int, limit as nat) is None,
        },
{
    let mut z = Complex { re: 0i64, im: 0i64 };
    let mut n: usize = 0;
    while n < limit
        invariant
            n <= limit,
            z.re as int == iter_z(c.re as int, c.im as int, n as nat).0,
            z.im as int == iter_z(c.re as int, c.im as int, n as nat).1,
            forall|k: nat| k < n ==> !escaped(
                iter_z(c.re as int, c.im as int, k).0,
                iter_z(c.re as int, c.im as int, k).1,
            ),
            escape_time_from(c.re as int, c.im as int, n as nat, limit as nat)
                == escape_time_spec(c.re as int, c.im as int, limit as nat),
        decreases limit - n,
    {
        if norm_sqr_exceeds(z.re, z.im) {
            return Some(n);
        }
        if n == 0 {
            z = c;
            proof {
                lemma_iter_one(c.re as int, c.im as int);
            }
        } else {
            proof {
                lemma_iter_one(c.re as int, c.im as int);
                assert(!escaped(c.re as int, c.im as int)) by {
                    if n > 1 {
                        assert(!escaped(
                            iter_z(c.re as int, c.im as int, 1).0,
                            iter_z(c.re as int, c.im as int, 1).1,
                        ));
                    }
                }
            }
            z = step(&z, &c);
        }
        n = n + 1;
    }
    None
}

} // verus!
