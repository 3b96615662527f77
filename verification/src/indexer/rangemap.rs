use vstd::prelude::*;

use crate::indexer::{
    bucket_index, lemma_bucket_index_in_range, lemma_div_ge_iff, lemma_scale_bounds, scale_den,
    scale_num, span_num, BuildIndexer, Indexer, RAMP_MAX,
};
use crate::rational::{
    clamp_value, clamped, lemma_clamped_in_range, lemma_mul_bound2, rat_lt, Rational, Value,
};

verus! {

/// One boundary of the bucket table, an exact rational over 128-bit parts.
/// Bucket `i` spans `[boundary i, boundary i + 1)`; the first and the last
/// bucket are open-ended, so every extreme — an infinity included — falls
/// into an outermost bucket.
#[derive(Clone, Copy, Debug)]
pub struct Boundary {
    pub num: i128,
    pub den: i128,
}

/// Denominator shared by all boundaries of the table for `(min, max, len)`.
pub open spec fn boundary_den(min: Rational, max: Rational, len: int) -> int {
    2 * (len - 1) * min.den * max.den
}

/// Numerator of the `i`-th boundary, `1 <= i <= len - 1`: the value
/// `min + (2i - 1) * (max - min) / (2 * (len - 1))`, half a bucket width
/// below the `i`-th linear grid point, so that a table lookup rounds
/// exactly as the arithmetic strategy does.
pub open spec fn boundary_num(min: Rational, max: Rational, len: int, i: int) -> int {
    2 * (len - 1) * max.den * min.num + (2 * i - 1) * span_num(min, max)
}

/// `b <= c` as rationals, by cross multiplication.
pub open spec fn boundary_le(b: Boundary, c: Rational) -> bool {
    b.num * c.den <= c.num * b.den
}

/// The table holds, in order, the boundaries `1 .. len` of the canonical
/// bucket table for `(min, max, len)`.
pub open spec fn table_wf(table: Seq<Boundary>, min: Rational, max: Rational, len: int) -> bool {
    &&& table.len() == len - 1
    &&& forall|k: int|
        0 <= k < table.len() ==> (#[trigger] table[k]).num as int == boundary_num(
            min,
            max,
            len,
            k + 1,
        )
    &&& forall|k: int|
        0 <= k < table.len() ==> (#[trigger] table[k]).den as int == boundary_den(min, max, len)
}

/// What a lookup in the table yields for the clamped sample `c`: the
/// number of boundaries at or below `c`.
pub open spec fn table_bucket(table: Seq<Boundary>, c: Rational) -> int
    decreases table.len(),
{
    if table.len() == 0 {
        0
    } else {
        table_bucket(table.drop_last(), c) + if boundary_le(table.last(), c) {
            1int
        } else {
            0int
        }
    }
}

/// The `i`-th canonical boundary lies at or below the clamped sample
/// exactly when the shared bucket arithmetic reaches bucket `i`.
pub proof fn lemma_boundary_vs_bucket(min: Rational, max: Rational, len: int, v: Value, i: int)
    requires
        min.wf(),
        max.wf(),
        rat_lt(min, max),
        len >= 1,
        v.wf(),
        1 <= i <= len - 1,
    ensures
        (boundary_num(min, max, len, i) * clamped(v, min, max).den <= clamped(v, min, max).num
            * boundary_den(min, max, len)) <==> i <= bucket_index(min, max, len, v),
{
    let c = clamped(v, min, max);
    lemma_clamped_in_range(v, min, max);
    lemma_scale_bounds(c, min, max, len);
    let p = scale_num(c, min, max, len);
    let q = scale_den(c, min, max);
    let bn = boundary_num(min, max, len, i);
    let bd = boundary_den(min, max, len);
    let s = max.num * min.den - min.num * max.den;
    let w = 2 * (len - 1);
    let t1 = 2 * (len - 1) * max.den * min.num;
    let t2 = (2 * i - 1) * s;
    let a = c.num * min.den - min.num * c.den;
    assert(bn == t1 + t2);
    assert((t1 + t2) * c.den == t1 * c.den + t2 * c.den) by (nonlinear_arith);
    let u = w * max.den;
    assert(bd == u * min.den) by (nonlinear_arith)
        requires
            bd == w * min.den * max.den,
            u == w * max.den,
    ;
    assert(c.num * bd == u * (c.num * min.den)) by (nonlinear_arith)
        requires
            bd == u * min.den,
    ;
    assert(t1 == u * min.num) by (nonlinear_arith)
        requires
            t1 == w * max.den * min.num,
            u == w * max.den,
    ;
    assert(t1 * c.den == u * (min.num * c.den)) by (nonlinear_arith)
        requires
            t1 == u * min.num,
    ;
    assert(u * (c.num * min.den) - u * (min.num * c.den) == u * a) by (nonlinear_arith)
        requires
            a == c.num * min.den - min.num * c.den,
    ;
    assert(u * a == 2 * p) by (nonlinear_arith)
        requires
            u == 2 * (len - 1) * max.den,
            p == a * max.den * (len - 1),
    ;
    assert(t2 * c.den == (2 * i - 1) * q) by (nonlinear_arith)
        requires
            t2 == (2 * i - 1) * s,
            q == c.den * s,
    ;
    assert(c.num * bd - bn * c.den == 2 * p - (2 * i - 1) * q);
    assert(((2 * i - 1) * q <= 2 * p) <==> (2 * p + q >= (2 * q) * i)) by (nonlinear_arith);
    lemma_div_ge_iff(2 * p + q, 2 * q, i);
}

/// A table whose membership tests cut exactly at `t` counts exactly `t`.
proof fn lemma_table_bucket_counts(table: Seq<Boundary>, c: Rational, t: int)
    requires
        0 <= t <= table.len(),
        forall|k: int| 0 <= k < table.len() ==> (#[trigger] boundary_le(table[k], c) <==> k + 1
            <= t),
    ensures
        table_bucket(table, c) == t,
    decreases table.len(),
{
    if table.len() > 0 {
        let pre = table.drop_last();
        assert(boundary_le(table[table.len() - 1], c) <==> table.len() <= t);
        if boundary_le(table.last(), c) {
            lemma_table_bucket_counts(pre, c, t - 1);
        } else {
            lemma_table_bucket_counts(pre, c, t);
        }
    }
}

/// Cross-strategy agreement: a lookup of any non-invalid sample in the
/// canonical table returns exactly the bucket the arithmetic strategy
/// computes, whatever the range and the ramp length.
pub proof fn lemma_table_matches_arithmetic(
    min: Rational,
    max: Rational,
    len: int,
    v: Value,
    table: Seq<Boundary>,
)
    requires
        min.wf(),
        max.wf(),
        rat_lt(min, max),
        len >= 1,
        v.wf(),
        table_wf(table, min, max, len),
    ensures
        table_bucket(table, clamped(v, min, max)) == bucket_index(min, max, len, v),
{
    let c = clamped(v, min, max);
    let t = bucket_index(min, max, len, v);
    lemma_bucket_index_in_range(min, max, len, v);
    assert forall|k: int| 0 <= k < table.len() implies (#[trigger] boundary_le(table[k], c) <==> k
        + 1 <= t) by {
        lemma_boundary_vs_bucket(min, max, len, v, k + 1);
    }
    lemma_table_bucket_counts(table, c, t);
}

/// Magnitude of the canonical boundaries: far inside 128 bits, so that
/// lookups can cross multiply without overflow.
proof fn lemma_boundary_magnitude(min: Rational, max: Rational, len: int, i: int)
    requires
        min.wf(),
        max.wf(),
        1 <= len <= RAMP_MAX,
        1 <= i <= len - 1,
    ensures
        -0x1000_0000_0000_0000_0000_0000 <= boundary_num(min, max, len, i)
            <= 0x1000_0000_0000_0000_0000_0000,
        0 < boundary_den(min, max, len) <= 0x400_0000_0000_0000_0000_0000,
{
    lemma_mul_bound2(2 * (len - 1), max.den as int, 0x1000_0000, 0x7fff_ffff);
    lemma_mul_bound2(2 * (len - 1) * max.den, min.num as int, 0x0800_0000_0000_0000, 0x8000_0000);
    lemma_mul_bound2(max.num as int, min.den as int, 0x8000_0000, 0x7fff_ffff);
    lemma_mul_bound2(min.num as int, max.den as int, 0x8000_0000, 0x7fff_ffff);
    lemma_mul_bound2(2 * i - 1, span_num(min, max), 0x1000_0000, 0x8000_0000_0000_0000);
    lemma_mul_bound2(2 * (len - 1), min.den as int, 0x1000_0000, 0x7fff_ffff);
    lemma_mul_bound2(2 * (len - 1) * min.den, max.den as int, 0x0800_0000_0000_0000, 0x7fff_ffff);
    assert(2 * (len - 1) * min.den * max.den > 0) by (nonlinear_arith)
        requires
            min.den > 0,
            max.den > 0,
            len >= 2,
    ;
}

/// The range-table strategy: an ordered table of bucket boundaries,
/// built once, looked up by binary search.
#[derive(Clone, Copy, Debug)]
pub struct BuildRangeMapIndexer;

/// Table state of the range-table strategy: the range boundaries and the
/// explicit, inspectable bucket table.
pub struct RangeMapIndexer {
    min: Rational,
    max: Rational,
    table: Vec<Boundary>,
}

impl Indexer for RangeMapIndexer {
    closed spec fn wf(&self) -> bool {
        &&& self.min.wf()
        &&& self.max.wf()
        &&& rat_lt(self.min, self.max)
        &&& self.table@.len() as int + 1 <= RAMP_MAX
        &&& table_wf(self.table@, self.min, self.max, self.table@.len() as int + 1)
    }

    closed spec fn spec_min(&self) -> Rational {
        self.min
    }

    closed spec fn spec_max(&self) -> Rational {
        self.max
    }

    closed spec fn spec_len(&self) -> int {
        self.table@.len() as int + 1
    }

    fn index(&self, v: &Value) -> (i: usize) {
        let c = clamp_value(v, &self.min, &self.max);
        proof {
            lemma_clamped_in_range(*v, self.min, self.max);
            lemma_bucket_index_in_range(self.min, self.max, self.table@.len() as int + 1, *v);
        }
        let ghost t = bucket_index(self.min, self.max, self.table@.len() as int + 1, *v);
        proof {
            assert forall|k: int| 0 <= k < self.table@.len() implies (#[trigger] boundary_le(
                self.table@[k],
                c,
            ) <==> k + 1 <= t) by {
                lemma_boundary_vs_bucket(self.min, self.max, self.table@.len() as int + 1, *v, k + 1);
            }
        }
        let mut lo: usize = 0;
        let mut hi: usize = self.table.len();
        while lo < hi
            invariant
                self.min.wf(),
                self.max.wf(),
                rat_lt(self.min, self.max),
                self.table@.len() as int + 1 <= RAMP_MAX,
                table_wf(self.table@, self.min, self.max, self.table@.len() as int + 1),
                c.wf(),
                lo <= hi <= self.table@.len(),
                lo <= t <= hi,
                forall|k: int|
                    0 <= k < self.table@.len() ==> (#[trigger] boundary_le(self.table@[k], c)
                        <==> k + 1 <= t),
            decreases hi - lo,
        {
            let mid: usize = lo + (hi - lo) / 2;
            let entry = self.table[mid];
            proof {
                lemma_boundary_magnitude(
                    self.min,
                    self.max,
                    self.table@.len() as int + 1,
                    mid + 1,
                );
                lemma_mul_bound2(
                    entry.num as int,
                    c.den as int,
                    0x1000_0000_0000_0000_0000_0000,
                    0x7fff_ffff,
                );
                lemma_mul_bound2(
                    c.num as int,
                    entry.den as int,
                    0x8000_0000,
                    0x400_0000_0000_0000_0000_0000,
                );
                assert(entry == self.table@[mid as int]);
                assert(boundary_le(entry, c) <==> mid as int + 1 <= t);
            }
            if entry.num * (c.den as i128) <= (c.num as i128) * entry.den {
                lo = mid + 1;
            } else {
                hi = mid;
            }
        }
        lo
    }
}

impl BuildIndexer for BuildRangeMapIndexer {
    type Indexer = RangeMapIndexer;

    fn build_indexer(&self, min: Rational, max: Rational, ticks: &[char]) -> (ix: RangeMapIndexer) {
        let len = ticks.len();
        proof {
            lemma_mul_bound2(max.num as int, min.den as int, 0x8000_0000, 0x7fff_ffff);
            lemma_mul_bound2(min.num as int, max.den as int, 0x8000_0000, 0x7fff_ffff);
            lemma_mul_bound2(2 * (len - 1), max.den as int, 0x1000_0000, 0x7fff_ffff);
            lemma_mul_bound2(
                2 * (len - 1) * max.den,
                min.num as int,
                0x0800_0000_0000_0000,
                0x8000_0000,
            );
            lemma_mul_bound2(2 * (len - 1), min.den as int, 0x1000_0000, 0x7fff_ffff);
            lemma_mul_bound2(
                2 * (len - 1) * min.den,
                max.den as int,
                0x0800_0000_0000_0000,
                0x7fff_ffff,
            );
        }
        let span: i64 = (max.num as i64) * (min.den as i64) - (min.num as i64) * (max.den as i64);
        let base: i128 = 2 * ((len - 1) as i128) * (max.den as i128) * (min.num as i128);
        let bd: i128 = 2 * ((len - 1) as i128) * (min.den as i128) * (max.den as i128);
        let mut table: Vec<Boundary> = Vec::new();
        let mut i: usize = 1;
        while i < len
            invariant
                min.wf(),
                max.wf(),
                1 <= len <= RAMP_MAX,
                1 <= i <= len,
                span as int == span_num(min, max),
                base as int == 2 * (len - 1) * max.den * min.num,
                -0x400_0000_0000_0000_0000_0000 <= base as int <= 0x400_0000_0000_0000_0000_0000,
                bd as int == boundary_den(min, max, len as int),
                table@.len() == i - 1,
                forall|k: int|
                    0 <= k < table@.len() ==> (#[trigger] table@[k]).num as int == boundary_num(
                        min,
                        max,
                        len as int,
                        k + 1,
                    ),
                forall|k: int|
                    0 <= k < table@.len() ==> (#[trigger] table@[k]).den as int == boundary_den(
                        min,
                        max,
                        len as int,
                    ),
            decreases len - i,
        {
            proof {
                lemma_mul_bound2(
                    2 * i - 1,
                    span as int,
                    0x1000_0000,
                    0x8000_0000_0000_0000,
                );
            }
            let bn: i128 = base + (2 * (i as i128) - 1) * (span as i128);
            table.push(Boundary { num: bn, den: bd });
            i += 1;
        }
        RangeMapIndexer { min, max, table }
    }
}

} // verus!
