pub mod algorithmic;
pub mod rangemap;

use vstd::arithmetic::div_mod::{
    lemma_div_pos_is_pos, lemma_fundamental_div_mod, lemma_fundamental_div_mod_converse,
    lemma_mod_bound,
};
use vstd::arithmetic::mul::lemma_mul_inequality;
use vstd::prelude::*;

use crate::rational::{clamped, lemma_clamped_in_range, rat_le, rat_lt, Rational, Value};

verus! {

/// The largest ramp an indexer accepts; keeps the 128-bit bucket
/// arithmetic free of overflow.
pub const RAMP_MAX: usize = 0x0800_0000;

/// Cross-multiplied numerator of `max - min`; positive when `min < max`.
pub open spec fn span_num(min: Rational, max: Rational) -> int {
    max.num * min.den - min.num * max.den
}

/// Numerator of `(c - min) * (len - 1) / (max - min)` over the common
/// denominator `scale_den(c, min, max)`, for an already-clamped `c`.
pub open spec fn scale_num(c: Rational, min: Rational, max: Rational, len: int) -> int {
    (c.num * min.den - min.num * c.den) * max.den * (len - 1)
}

pub open spec fn scale_den(c: Rational, min: Rational, max: Rational) -> int {
    c.den * span_num(min, max)
}

/// The bucket of a sample: round-half-away-from-zero of
/// `(clamp(v) - min) * (len - 1) / (max - min)`, written over integers.
/// The ratio is never negative, so the rounding is `(2p + q) / (2q)`.
pub open spec fn bucket_index(min: Rational, max: Rational, len: int, v: Value) -> int {
    let c = clamped(v, min, max);
    let p = scale_num(c, min, max, len);
    let q = scale_den(c, min, max);
    (2 * p + q) / (2 * q)
}

/// With a positive divisor and nonnegative dividend, the quotient reaches
/// `i` exactly when the dividend reaches `d * i`.
pub proof fn lemma_div_ge_iff(x: int, d: int, i: int)
    requires
        d > 0,
        x >= 0,
        i >= 0,
    ensures
        (x / d >= i) <==> (x >= d * i),
{
    lemma_fundamental_div_mod(x, d);
    lemma_mod_bound(x, d);
    lemma_div_pos_is_pos(x, d);
    if x >= d * i && x / d < i {
        lemma_mul_inequality(x / d, i - 1, d);
        assert((x / d) * d == d * (x / d)) by (nonlinear_arith);
        assert((i - 1) * d == d * i - d) by (nonlinear_arith);
    }
    if x / d >= i {
        lemma_mul_inequality(i, x / d, d);
        assert((x / d) * d == d * (x / d)) by (nonlinear_arith);
        assert(i * d == d * i) by (nonlinear_arith);
    }
}

/// The scaled ratio of an in-range value lies between `0` and `len - 1`:
/// the denominator is positive and `0 <= p <= (len - 1) * q`.
pub proof fn lemma_scale_bounds(c: Rational, min: Rational, max: Rational, len: int)
    requires
        c.wf(),
        min.wf(),
        max.wf(),
        rat_lt(min, max),
        rat_le(min, c),
        rat_le(c, max),
        len >= 1,
    ensures
        scale_den(c, min, max) > 0,
        0 <= scale_num(c, min, max, len),
        scale_num(c, min, max, len) <= (len - 1) * scale_den(c, min, max),
{
    let a = c.num * min.den - min.num * c.den;
    let b = span_num(min, max);
    assert(c.den * b > 0) by (nonlinear_arith)
        requires
            c.den > 0,
            b > 0,
    ;
    assert(a * max.den * (len - 1) >= 0) by (nonlinear_arith)
        requires
            a >= 0,
            max.den > 0,
            len >= 1,
    ;
    assert(a * max.den <= c.den * b) by (nonlinear_arith)
        requires
            a == c.num * min.den - min.num * c.den,
            b == max.num * min.den - min.num * max.den,
            c.num * max.den <= max.num * c.den,
            min.den > 0,
    ;
    assert(a * max.den * (len - 1) <= (len - 1) * (c.den * b)) by (nonlinear_arith)
        requires
            a * max.den <= c.den * b,
            len >= 1,
    ;
}

/// Every bucket lies in `[0, len - 1]`, whatever the sample.
pub proof fn lemma_bucket_index_in_range(min: Rational, max: Rational, len: int, v: Value)
    requires
        min.wf(),
        max.wf(),
        rat_lt(min, max),
        len >= 1,
        v.wf(),
    ensures
        0 <= bucket_index(min, max, len, v) < len,
{
    lemma_clamped_in_range(v, min, max);
    let c = clamped(v, min, max);
    lemma_scale_bounds(c, min, max, len);
    let p = scale_num(c, min, max, len);
    let q = scale_den(c, min, max);
    let x = 2 * p + q;
    let d = 2 * q;
    lemma_div_pos_is_pos(x, d);
    assert(x < d * len) by (nonlinear_arith)
        requires
            p <= (len - 1) * q,
            q > 0,
            x == 2 * p + q,
            d == 2 * q,
            len >= 1,
    ;
    lemma_div_ge_iff(x, d, len);
}

/// The boundaries of the range land on the outermost buckets: `min` on
/// bucket `0` and `max` on bucket `len - 1`.
pub proof fn lemma_bucket_boundaries(min: Rational, max: Rational, len: int)
    requires
        min.wf(),
        max.wf(),
        rat_lt(min, max),
        len >= 1,
    ensures
        bucket_index(min, max, len, Value::Fin(min)) == 0,
        bucket_index(min, max, len, Value::Fin(max)) == len - 1,
{
    lemma_scale_bounds(min, min, max, len);
    lemma_scale_bounds(max, min, max, len);
    let q0 = scale_den(min, min, max);
    assert(scale_num(min, min, max, len) == 0) by (nonlinear_arith)
        requires
            scale_num(min, min, max, len) == (min.num * min.den - min.num * min.den) * max.den * (
            len - 1),
    ;
    lemma_fundamental_div_mod_converse(2 * 0 + q0, 2 * q0, 0, q0);
    let p1 = scale_num(max, min, max, len);
    let q1 = scale_den(max, min, max);
    assert(p1 == (len - 1) * q1) by (nonlinear_arith)
        requires
            p1 == (max.num * min.den - min.num * max.den) * max.den * (len - 1),
            q1 == max.den * (max.num * min.den - min.num * max.den),
    ;
    assert(2 * p1 + q1 == (len - 1) * (2 * q1) + q1) by (nonlinear_arith)
        requires
            p1 == (len - 1) * q1,
    ;
    lemma_fundamental_div_mod_converse(2 * p1 + q1, 2 * q1, len - 1, q1);
}

/// One strategy's product: maps a sample to a bucket of `[0, len - 1]`,
/// always through the shared bucket arithmetic.
pub trait Indexer: Sized {
    /// The invariant a built indexer keeps.
    spec fn wf(&self) -> bool;

    /// The lower boundary the indexer was built for.
    spec fn spec_min(&self) -> Rational;

    /// The upper boundary the indexer was built for.
    spec fn spec_max(&self) -> Rational;

    /// The ramp length the indexer was built for.
    spec fn spec_len(&self) -> int;

    /// Maps one sample to one bucket.
    fn index(&self, v: &Value) -> (i: usize)
        requires
            self.wf(),
            v.wf(),
            !v.spec_is_nan(),
        ensures
            i == bucket_index(self.spec_min(), self.spec_max(), self.spec_len(), *v),
            i < self.spec_len(),
    ;
}

/// One strategy: builds an [`Indexer`] for a non-degenerate range and a ramp.
pub trait BuildIndexer {
    type Indexer: Indexer;

    fn build_indexer(&self, min: Rational, max: Rational, ticks: &[char]) -> (ix: Self::Indexer)
        requires
            min.wf(),
            max.wf(),
            rat_lt(min, max),
            1 <= ticks@.len() <= RAMP_MAX,
        ensures
            ix.wf(),
            ix.spec_min() == min,
            ix.spec_max() == max,
            ix.spec_len() == ticks@.len(),
    ;
}

} // verus!
