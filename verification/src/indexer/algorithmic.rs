use vstd::prelude::*;

use crate::indexer::{
    lemma_bucket_index_in_range, lemma_scale_bounds, BuildIndexer, Indexer, RAMP_MAX,
};
use crate::rational::{
    clamp_value, lemma_clamped_in_range, lemma_mul_bound2, rat_lt, Rational, Value,
};

verus! {

/// The arithmetic strategy: each lookup clamps and scales with O(1)
/// integer arithmetic, no table and no allocation.
#[derive(Clone, Copy, Debug)]
pub struct BuildAlgorithmicIndexer;

/// Scaling state of the arithmetic strategy: the range boundaries and the
/// ramp length, from which each lookup derives the exact scaled ratio.
pub struct AlgorithmicIndexer {
    min: Rational,
    max: Rational,
    len: usize,
}

impl Indexer for AlgorithmicIndexer {
    closed spec fn wf(&self) -> bool {
        &&& self.min.wf()
        &&& self.max.wf()
        &&& rat_lt(self.min, self.max)
        &&& 1 <= self.len <= RAMP_MAX
    }

    closed spec fn spec_min(&self) -> Rational {
        self.min
    }

    closed spec fn spec_max(&self) -> Rational {
        self.max
    }

    closed spec fn spec_len(&self) -> int {
        self.len as int
    }

    fn index(&self, v: &Value) -> (i: usize) {
        let c = clamp_value(v, &self.min, &self.max);
        proof {
            lemma_clamped_in_range(*v, self.min, self.max);
            lemma_scale_bounds(c, self.min, self.max, self.len as int);
            lemma_bucket_index_in_range(self.min, self.max, self.len as int, *v);
            lemma_mul_bound2(c.num as int, self.min.den as int, 0x8000_0000, 0x7fff_ffff);
            lemma_mul_bound2(self.min.num as int, c.den as int, 0x8000_0000, 0x7fff_ffff);
            lemma_mul_bound2(self.max.num as int, self.min.den as int, 0x8000_0000, 0x7fff_ffff);
            lemma_mul_bound2(self.min.num as int, self.max.den as int, 0x8000_0000, 0x7fff_ffff);
        }
        let a: i64 = (c.num as i64) * (self.min.den as i64) - (self.min.num as i64) * (c.den
            as i64);
        let b: i64 = (self.max.num as i64) * (self.min.den as i64) - (self.min.num as i64)
            * (self.max.den as i64);
        proof {
            lemma_mul_bound2(
                a as int,
                self.max.den as int,
                0x8000_0000_0000_0000,
                0x7fff_ffff,
            );
            lemma_mul_bound2(
                (a as int) * (self.max.den as int),
                self.len - 1,
                0x4000_0000_0000_0000_0000_0000,
                RAMP_MAX as int,
            );
            lemma_mul_bound2(c.den as int, b as int, 0x7fff_ffff, 0x8000_0000_0000_0000);
        }
        let p: i128 = (a as i128) * (self.max.den as i128) * ((self.len - 1) as i128);
        let q: i128 = (c.den as i128) * (b as i128);
        let x: u128 = (2 * p + q) as u128;
        let d: u128 = (2 * q) as u128;
        let t: u128 = x / d;
        t as usize
    }
}

impl BuildIndexer for BuildAlgorithmicIndexer {
    type Indexer = AlgorithmicIndexer;

    fn build_indexer(&self, min: Rational, max: Rational, ticks: &[char]) -> (ix:
        AlgorithmicIndexer) {
        AlgorithmicIndexer { min, max, len: ticks.len() }
    }
}

} // verus!
