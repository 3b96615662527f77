//! Single-line glyph visualizations of numeric series: each sample is mapped
//! to one symbol of an ordered ramp, and the string of symbols approximates
//! the relative magnitudes of the series, character by character.

use vstd::prelude::*;

pub mod indexer;
pub mod rational;

pub use indexer::algorithmic::AlgorithmicIndexer;
pub use indexer::algorithmic::BuildAlgorithmicIndexer;
pub use indexer::rangemap::BuildRangeMapIndexer;
pub use indexer::rangemap::RangeMapIndexer;
pub use indexer::BuildIndexer;
pub use indexer::Indexer;
pub use indexer::RAMP_MAX;
pub use rational::Rational;
pub use rational::Value;

use crate::indexer::bucket_index;
use crate::rational::{lemma_rat_le_trans, rat_eq, rat_eq_exec, rat_le, rat_lt, rat_lt_exec};

verus! {

/// Default ticks for a string sparkline.
pub const TICKS: [char; 8] = ['▁', '▂', '▃', '▄', '▅', '▆', '▇', '█'];

/// Relies on `String::push`: appends exactly one character at the end.
pub assume_specification[ String::push ](s: &mut String, ch: char)
    ensures
        final(s)@ == old(s)@.push(ch),
;

/// One step of the finite-minimum scan: a finite sample replaces the
/// accumulator when strictly below it; anything else leaves it.
pub open spec fn fold_min(acc: Option<Rational>, v: Value) -> Option<Rational> {
    match v {
        Value::Fin(r) => match acc {
            Option::None => Option::Some(r),
            Option::Some(m) => if rat_lt(r, m) {
                Option::Some(r)
            } else {
                Option::Some(m)
            },
        },
        _ => acc,
    }
}

/// One step of the finite-maximum scan.
pub open spec fn fold_max(acc: Option<Rational>, v: Value) -> Option<Rational> {
    match v {
        Value::Fin(r) => match acc {
            Option::None => Option::Some(r),
            Option::Some(m) => if rat_lt(m, r) {
                Option::Some(r)
            } else {
                Option::Some(m)
            },
        },
        _ => acc,
    }
}

/// The least finite sample, keeping the first representation of equals.
pub open spec fn scan_min(data: Seq<Value>) -> Option<Rational>
    decreases data.len(),
{
    if data.len() == 0 {
        Option::None
    } else {
        fold_min(scan_min(data.drop_last()), data.last())
    }
}

/// The greatest finite sample, keeping the first representation of equals.
pub open spec fn scan_max(data: Seq<Value>) -> Option<Rational>
    decreases data.len(),
{
    if data.len() == 0 {
        Option::None
    } else {
        fold_max(scan_max(data.drop_last()), data.last())
    }
}

pub open spec fn has_neg_inf(data: Seq<Value>) -> bool
    decreases data.len(),
{
    if data.len() == 0 {
        false
    } else {
        has_neg_inf(data.drop_last()) || data.last() is NegInf
    }
}

pub open spec fn has_pos_inf(data: Seq<Value>) -> bool
    decreases data.len(),
{
    if data.len() == 0 {
        false
    } else {
        has_pos_inf(data.drop_last()) || data.last() is PosInf
    }
}

/// How many samples are not invalid: the length of every rendering.
pub open spec fn valid_count(data: Seq<Value>) -> int
    decreases data.len(),
{
    if data.len() == 0 {
        0
    } else {
        valid_count(data.drop_last()) + if data.last() is NaN {
            0int
        } else {
            1int
        }
    }
}

/// How a rendering maps samples to symbols, once the range is settled.
#[derive(Clone, Copy, Debug)]
pub enum RangeKind {
    /// `min == max`, or no scale to speak of: every valid sample becomes
    /// the ramp's middle symbol.
    Degenerate,
    /// A proper range: every valid sample goes through the bucket
    /// arithmetic of the configured strategy.
    Finite(Rational, Rational),
    /// No finite samples at all, yet infinities of both signs: each
    /// extreme becomes its outermost symbol.
    InfiniteSpan,
}

/// The settled range: a fixed one when configured, else the scan of the
/// finite samples, else whatever the infinite samples allow.
pub open spec fn effective_range(fixed: Option<(Rational, Rational)>, data: Seq<Value>) -> RangeKind {
    match fixed {
        Option::Some((mn, mx)) => if rat_eq(mn, mx) {
            RangeKind::Degenerate
        } else {
            RangeKind::Finite(mn, mx)
        },
        Option::None => match (scan_min(data), scan_max(data)) {
            (Option::Some(mn), Option::Some(mx)) => if rat_eq(mn, mx) {
                RangeKind::Degenerate
            } else {
                RangeKind::Finite(mn, mx)
            },
            _ => if has_neg_inf(data) && has_pos_inf(data) {
                RangeKind::InfiniteSpan
            } else {
                RangeKind::Degenerate
            },
        },
    }
}

/// The symbol for one valid sample under a settled range.
pub open spec fn symbol_at(ticks: Seq<char>, rk: RangeKind, v: Value) -> char {
    match rk {
        RangeKind::Degenerate => ticks[ticks.len() as int / 2],
        RangeKind::Finite(mn, mx) => ticks[bucket_index(mn, mx, ticks.len() as int, v)],
        RangeKind::InfiniteSpan => if v is NegInf {
            ticks[0]
        } else {
            ticks[ticks.len() as int - 1]
        },
    }
}

/// The rendering: one symbol per sample, in order, invalid samples skipped.
pub open spec fn symbols_of(ticks: Seq<char>, rk: RangeKind, data: Seq<Value>) -> Seq<char>
    decreases data.len(),
{
    if data.len() == 0 {
        Seq::empty()
    } else {
        let rest = symbols_of(ticks, rk, data.drop_last());
        if data.last() is NaN {
            rest
        } else {
            rest.push(symbol_at(ticks, rk, data.last()))
        }
    }
}

/// What rendering returns, for a ramp, an optional fixed range and samples.
pub open spec fn render_spec(
    ticks: Seq<char>,
    fixed: Option<(Rational, Rational)>,
    data: Seq<Value>,
) -> Seq<char> {
    symbols_of(ticks, effective_range(fixed, data), data)
}

/// A rendering holds one symbol per valid sample: its length is the count
/// of samples that are not invalid.
pub proof fn lemma_symbols_len(ticks: Seq<char>, rk: RangeKind, data: Seq<Value>)
    ensures
        symbols_of(ticks, rk, data).len() == valid_count(data),
    decreases data.len(),
{
    if data.len() > 0 {
        lemma_symbols_len(ticks, rk, data.drop_last());
    }
}

/// `m` is a finite sample of `data` and no finite sample lies below it.
pub open spec fn min_of_data(data: Seq<Value>, m: Rational) -> bool {
    &&& exists|k: int| 0 <= k < data.len() && #[trigger] data[k] == Value::Fin(m)
    &&& forall|k: int|
        0 <= k < data.len() && (#[trigger] data[k]) is Fin ==> rat_le(m, data[k].fin_value())
}

/// `m` is a finite sample of `data` and no finite sample lies above it.
pub open spec fn max_of_data(data: Seq<Value>, m: Rational) -> bool {
    &&& exists|k: int| 0 <= k < data.len() && #[trigger] data[k] == Value::Fin(m)
    &&& forall|k: int|
        0 <= k < data.len() && (#[trigger] data[k]) is Fin ==> rat_le(data[k].fin_value(), m)
}

/// The finite-minimum scan returns a finite sample bounding all finite
/// samples from below; no result means there is no finite sample.
proof fn lemma_scan_min_props(data: Seq<Value>)
    requires
        forall|k: int| 0 <= k < data.len() ==> (#[trigger] data[k]).wf(),
    ensures
        scan_min(data) is None ==> forall|k: int|
            0 <= k < data.len() ==> !((#[trigger] data[k]) is Fin),
        scan_min(data) matches Some(m) ==> m.wf() && min_of_data(data, m),
    decreases data.len(),
{
    if data.len() > 0 {
        let pre = data.drop_last();
        assert forall|k: int| 0 <= k < pre.len() implies (#[trigger] pre[k]).wf() by {
            assert(pre[k] == data[k]);
        }
        lemma_scan_min_props(pre);
        let last = data.last();
        if last is Fin {
            let r = last.fin_value();
            match scan_min(pre) {
                Option::Some(m) => {
                    if rat_lt(r, m) {
                        assert(data[data.len() - 1] == Value::Fin(r));
                        assert forall|k: int|
                            0 <= k < data.len() && (#[trigger] data[k]) is Fin implies rat_le(
                            r,
                            data[k].fin_value(),
                        ) by {
                            if k < data.len() - 1 {
                                assert(pre[k] == data[k]);
                                lemma_rat_le_trans(r, m, data[k].fin_value());
                            }
                        }
                    } else {
                        let j = choose|j: int|
                            0 <= j < pre.len() && #[trigger] pre[j] == Value::Fin(m);
                        assert(data[j] == Value::Fin(m));
                        assert forall|k: int|
                            0 <= k < data.len() && (#[trigger] data[k]) is Fin implies rat_le(
                            m,
                            data[k].fin_value(),
                        ) by {
                            if k < data.len() - 1 {
                                assert(pre[k] == data[k]);
                            }
                        }
                    }
                },
                Option::None => {
                    assert(data[data.len() - 1] == Value::Fin(r));
                    assert forall|k: int|
                        0 <= k < data.len() && (#[trigger] data[k]) is Fin implies rat_le(
                        r,
                        data[k].fin_value(),
                    ) by {
                        if k < data.len() - 1 {
                            assert(pre[k] == data[k]);
                        }
                    }
                },
            }
        } else {
            match scan_min(pre) {
                Option::Some(m) => {
                    let j = choose|j: int| 0 <= j < pre.len() && #[trigger] pre[j] == Value::Fin(m);
                    assert(data[j] == Value::Fin(m));
                    assert forall|k: int|
                        0 <= k < data.len() && (#[trigger] data[k]) is Fin implies rat_le(
                        m,
                        data[k].fin_value(),
                    ) by {
                        if k < data.len() - 1 {
                            assert(pre[k] == data[k]);
                        }
                    }
                },
                Option::None => {
                    assert forall|k: int| 0 <= k < data.len() implies !((#[trigger] data[k])
                        is Fin) by {
                        if k < data.len() - 1 {
                            assert(pre[k] == data[k]);
                        }
                    }
                },
            }
        }
    }
}

/// As [`lemma_scan_min_props`], for the finite-maximum scan.
proof fn lemma_scan_max_props(data: Seq<Value>)
    requires
        forall|k: int| 0 <= k < data.len() ==> (#[trigger] data[k]).wf(),
    ensures
        scan_max(data) is None ==> forall|k: int|
            0 <= k < data.len() ==> !((#[trigger] data[k]) is Fin),
        scan_max(data) matches Some(m) ==> m.wf() && max_of_data(data, m),
    decreases data.len(),
{
    if data.len() > 0 {
        let pre = data.drop_last();
        assert forall|k: int| 0 <= k < pre.len() implies (#[trigger] pre[k]).wf() by {
            assert(pre[k] == data[k]);
        }
        lemma_scan_max_props(pre);
        let last = data.last();
        if last is Fin {
            let r = last.fin_value();
            match scan_max(pre) {
                Option::Some(m) => {
                    if rat_lt(m, r) {
                        assert(data[data.len() - 1] == Value::Fin(r));
                        assert forall|k: int|
                            0 <= k < data.len() && (#[trigger] data[k]) is Fin implies rat_le(
                            data[k].fin_value(),
                            r,
                        ) by {
                            if k < data.len() - 1 {
                                assert(pre[k] == data[k]);
                                lemma_rat_le_trans(data[k].fin_value(), m, r);
                            }
                        }
                    } else {
                        let j = choose|j: int|
                            0 <= j < pre.len() && #[trigger] pre[j] == Value::Fin(m);
                        assert(data[j] == Value::Fin(m));
                        assert forall|k: int|
                            0 <= k < data.len() && (#[trigger] data[k]) is Fin implies rat_le(
                            data[k].fin_value(),
                            m,
                        ) by {
                            if k < data.len() - 1 {
                                assert(pre[k] == data[k]);
                            }
                        }
                    }
                },
                Option::None => {
                    assert(data[data.len() - 1] == Value::Fin(r));
                    assert forall|k: int|
                        0 <= k < data.len() && (#[trigger] data[k]) is Fin implies rat_le(
                        data[k].fin_value(),
                        r,
                    ) by {
                        if k < data.len() - 1 {
                            assert(pre[k] == data[k]);
                        }
                    }
                },
            }
        } else {
            match scan_max(pre) {
                Option::Some(m) => {
                    let j = choose|j: int| 0 <= j < pre.len() && #[trigger] pre[j] == Value::Fin(m);
                    assert(data[j] == Value::Fin(m));
                    assert forall|k: int|
                        0 <= k < data.len() && (#[trigger] data[k]) is Fin implies rat_le(
                        data[k].fin_value(),
                        m,
                    ) by {
                        if k < data.len() - 1 {
                            assert(pre[k] == data[k]);
                        }
                    }
                },
                Option::None => {
                    assert forall|k: int| 0 <= k < data.len() implies !((#[trigger] data[k])
                        is Fin) by {
                        if k < data.len() - 1 {
                            assert(pre[k] == data[k]);
                        }
                    }
                },
            }
        }
    }
}

/// When the settled range is proper, its boundaries are well formed and
/// strictly ordered, so an indexer can be built for them.
proof fn lemma_effective_range_finite(fixed: Option<(Rational, Rational)>, data: Seq<Value>)
    requires
        forall|k: int| 0 <= k < data.len() ==> (#[trigger] data[k]).wf(),
        match fixed {
            Option::Some((mn, mx)) => mn.wf() && mx.wf() && rat_le(mn, mx),
            Option::None => true,
        },
    ensures
        effective_range(fixed, data) matches RangeKind::Finite(mn, mx) ==> mn.wf() && mx.wf()
            && rat_lt(mn, mx),
{
    if fixed is None {
        lemma_scan_min_props(data);
        lemma_scan_max_props(data);
        match (scan_min(data), scan_max(data)) {
            (Option::Some(mn), Option::Some(mx)) => {
                let j = choose|j: int| 0 <= j < data.len() && #[trigger] data[j] == Value::Fin(mx);
                assert(data[j] is Fin);
                assert(rat_le(mn, mx));
            },
            _ => {},
        }
    }
}

/// A reusable sparkline renderer: a symbol ramp, an optional fixed range
/// and an indexing strategy, all settled at construction.
pub struct StringSpark<I = BuildAlgorithmicIndexer> where I: BuildIndexer {
    min: Option<Rational>,
    max: Option<Rational>,
    ticks: Vec<char>,
    middle_idx: usize,
    build_indexer: I,
}

fn copy_ticks(ticks: &[char]) -> (v: Vec<char>)
    ensures
        v@ == ticks@,
{
    let mut v: Vec<char> = Vec::new();
    let mut k: usize = 0;
    while k < ticks.len()
        invariant
            k <= ticks@.len(),
            v@ == ticks@.take(k as int),
        decreases ticks@.len() - k,
    {
        proof {
            assert(ticks@.take(k as int + 1) =~= ticks@.take(k as int).push(ticks@[k as int]));
        }
        v.push(ticks[k]);
        k += 1;
    }
    proof {
        assert(ticks@.take(ticks@.len() as int) =~= ticks@);
    }
    v
}

impl<I: BuildIndexer> StringSpark<I> {
    /// The renderer's invariant: a usable ramp, the middle symbol's index,
    /// and a fixed range that is ordered when present.
    pub closed spec fn wf(&self) -> bool {
        &&& 1 <= self.ticks@.len() <= RAMP_MAX
        &&& self.middle_idx == self.ticks@.len() as int / 2
        &&& (self.min is Some <==> self.max is Some)
        &&& match (self.min, self.max) {
            (Option::Some(mn), Option::Some(mx)) => mn.wf() && mx.wf() && rat_le(mn, mx),
            _ => true,
        }
    }

    /// The ramp the renderer draws from.
    pub closed spec fn spec_ticks(&self) -> Seq<char> {
        self.ticks@
    }

    /// The fixed range, when one was configured.
    pub closed spec fn spec_fixed(&self) -> Option<(Rational, Rational)> {
        match (self.min, self.max) {
            (Option::Some(mn), Option::Some(mx)) => Option::Some((mn, mx)),
            _ => Option::None,
        }
    }

    /// A renderer with a data-derived range and the given strategy.
    pub fn with_indexer(ticks: &[char], build_indexer: I) -> (s: Self)
        requires
            1 <= ticks@.len() <= RAMP_MAX,
        ensures
            s.wf(),
            s.spec_ticks() == ticks@,
            s.spec_fixed() is None,
    {
        StringSpark {
            min: None,
            max: None,
            ticks: copy_ticks(ticks),
            middle_idx: ticks.len() / 2,
            build_indexer,
        }
    }

    /// A renderer with a fixed range and the given strategy.
    pub fn with_indexer_min_max(ticks: &[char], min: Rational, max: Rational, build_indexer: I) -> (
        s: Self)
        requires
            1 <= ticks@.len() <= RAMP_MAX,
            min.wf(),
            max.wf(),
            rat_le(min, max),
        ensures
            s.wf(),
            s.spec_ticks() == ticks@,
            s.spec_fixed() == Option::Some((min, max)),
    {
        StringSpark {
            min: Some(min),
            max: Some(max),
            ticks: copy_ticks(ticks),
            middle_idx: ticks.len() / 2,
            build_indexer,
        }
    }

    /// Converts samples into a `String` holding one ramp symbol per valid
    /// sample: the configured fixed range or the scanned one, the middle
    /// symbol throughout for a degenerate range, and otherwise one bucket
    /// lookup per sample through the configured strategy.
    pub fn spark(&self, data: &[Value]) -> (out: String)
        requires
            self.wf(),
            forall|k: int| 0 <= k < data@.len() ==> (#[trigger] data@[k]).wf(),
        ensures
            out@ == render_spec(self.spec_ticks(), self.spec_fixed(), data@),
            out@.len() == valid_count(data@),
    {
        let rk: RangeKind;
        match (self.min, self.max) {
            (Some(mn), Some(mx)) => {
                if rat_eq_exec(&mn, &mx) {
                    rk = RangeKind::Degenerate;
                } else {
                    rk = RangeKind::Finite(mn, mx);
                }
            },
            _ => {
                let mut cur_min: Option<Rational> = None;
                let mut cur_max: Option<Rational> = None;
                let mut seen_neg = false;
                let mut seen_pos = false;
                let mut k: usize = 0;
                while k < data.len()
                    invariant
                        forall|j: int| 0 <= j < data@.len() ==> (#[trigger] data@[j]).wf(),
                        k <= data@.len(),
                        cur_min == scan_min(data@.take(k as int)),
                        cur_max == scan_max(data@.take(k as int)),
                        seen_neg == has_neg_inf(data@.take(k as int)),
                        seen_pos == has_pos_inf(data@.take(k as int)),
                        cur_min matches Some(m) ==> m.wf(),
                        cur_max matches Some(m) ==> m.wf(),
                    decreases data@.len() - k,
                {
                    proof {
                        assert(data@.take(k as int + 1).drop_last() =~= data@.take(k as int));
                        assert(data@.take(k as int + 1).last() == data@[k as int]);
                    }
                    let v = data[k];
                    match v {
                        Value::Fin(r) => {
                            match cur_min {
                                Some(m) => {
                                    if rat_lt_exec(&r, &m) {
                                        cur_min = Some(r);
                                    }
                                },
                                None => {
                                    cur_min = Some(r);
                                },
                            }
                            match cur_max {
                                Some(m) => {
                                    if rat_lt_exec(&m, &r) {
                                        cur_max = Some(r);
                                    }
                                },
                                None => {
                                    cur_max = Some(r);
                                },
                            }
                        },
                        Value::NegInf => {
                            seen_neg = true;
                        },
                        Value::PosInf => {
                            seen_pos = true;
                        },
                        Value::NaN => {},
                    }
                    k += 1;
                }
                proof {
                    assert(data@.take(data@.len() as int) =~= data@);
                }
                match (cur_min, cur_max) {
                    (Some(mn), Some(mx)) => {
                        if rat_eq_exec(&mn, &mx) {
                            rk = RangeKind::Degenerate;
                        } else {
                            rk = RangeKind::Finite(mn, mx);
                        }
                    },
                    _ => {
                        if seen_neg && seen_pos {
                            rk = RangeKind::InfiniteSpan;
                        } else {
                            rk = RangeKind::Degenerate;
                        }
                    },
                }
            },
        }
        proof {
            assert(rk == effective_range(self.spec_fixed(), data@));
        }
        let mut out = String::new();
        match rk {
            RangeKind::Degenerate => {
                let mut k: usize = 0;
                while k < data.len()
                    invariant
                        self.wf(),
                        forall|j: int| 0 <= j < data@.len() ==> (#[trigger] data@[j]).wf(),
                        k <= data@.len(),
                        effective_range(self.spec_fixed(), data@) == RangeKind::Degenerate,
                        out@ == symbols_of(
                            self.spec_ticks(),
                            RangeKind::Degenerate,
                            data@.take(k as int),
                        ),
                    decreases data@.len() - k,
                {
                    proof {
                        assert(data@.take(k as int + 1).drop_last() =~= data@.take(k as int));
                        assert(data@.take(k as int + 1).last() == data@[k as int]);
                    }
                    let v = data[k];
                    if !v.is_nan() {
                        let c = self.ticks[self.middle_idx];
                        out.push(c);
                    }
                    k += 1;
                }
            },
            RangeKind::InfiniteSpan => {
                let mut k: usize = 0;
                while k < data.len()
                    invariant
                        self.wf(),
                        forall|j: int| 0 <= j < data@.len() ==> (#[trigger] data@[j]).wf(),
                        k <= data@.len(),
                        effective_range(self.spec_fixed(), data@) == RangeKind::InfiniteSpan,
                        out@ == symbols_of(
                            self.spec_ticks(),
                            RangeKind::InfiniteSpan,
                            data@.take(k as int),
                        ),
                    decreases data@.len() - k,
                {
                    proof {
                        assert(data@.take(k as int + 1).drop_last() =~= data@.take(k as int));
                        assert(data@.take(k as int + 1).last() == data@[k as int]);
                    }
                    let v = data[k];
                    match v {
                        Value::NaN => {},
                        Value::NegInf => {
                            let c = self.ticks[0];
                            out.push(c);
                        },
                        _ => {
                            let c = self.ticks[self.ticks.len() - 1];
                            out.push(c);
                        },
                    }
                    k += 1;
                }
            },
            RangeKind::Finite(mn, mx) => {
                proof {
                    lemma_effective_range_finite(self.spec_fixed(), data@);
                }
                let ix = self.build_indexer.build_indexer(mn, mx, self.ticks.as_slice());
                let mut k: usize = 0;
                while k < data.len()
                    invariant
                        self.wf(),
                        forall|j: int| 0 <= j < data@.len() ==> (#[trigger] data@[j]).wf(),
                        k <= data@.len(),
                        effective_range(self.spec_fixed(), data@) == RangeKind::Finite(mn, mx),
                        ix.wf(),
                        ix.spec_min() == mn,
                        ix.spec_max() == mx,
                        ix.spec_len() == self.spec_ticks().len(),
                        out@ == symbols_of(
                            self.spec_ticks(),
                            RangeKind::Finite(mn, mx),
                            data@.take(k as int),
                        ),
                    decreases data@.len() - k,
                {
                    proof {
                        assert(data@.take(k as int + 1).drop_last() =~= data@.take(k as int));
                        assert(data@.take(k as int + 1).last() == data@[k as int]);
                    }
                    let v = data[k];
                    if !v.is_nan() {
                        let i: usize = ix.index(&v);
                        let c = self.ticks[i];
                        out.push(c);
                    }
                    k += 1;
                }
            },
        }
        proof {
            assert(data@.take(data@.len() as int) =~= data@);
            lemma_symbols_len(self.spec_ticks(), effective_range(self.spec_fixed(), data@), data@);
        }
        out
    }
}

impl StringSpark<BuildAlgorithmicIndexer> {
    /// A renderer over `ticks`, range derived from the data, arithmetic
    /// strategy.
    pub fn new(ticks: &[char]) -> (s: Self)
        requires
            1 <= ticks@.len() <= RAMP_MAX,
        ensures
            s.wf(),
            s.spec_ticks() == ticks@,
            s.spec_fixed() is None,
    {
        StringSpark::with_indexer(ticks, BuildAlgorithmicIndexer)
    }

    /// A renderer over `ticks` with the fixed range `[min, max]`.
    pub fn new_with_min_max(ticks: &[char], min: Rational, max: Rational) -> (s: Self)
        requires
            1 <= ticks@.len() <= RAMP_MAX,
            min.wf(),
            max.wf(),
            rat_le(min, max),
        ensures
            s.wf(),
            s.spec_ticks() == ticks@,
            s.spec_fixed() == Option::Some((min, max)),
    {
        StringSpark::with_indexer_min_max(ticks, min, max, BuildAlgorithmicIndexer)
    }
}

impl Default for StringSpark<BuildAlgorithmicIndexer> {
    /// The default renderer: the 8-glyph block ramp, data-derived range.
    fn default() -> (s: Self)
        ensures
            s.wf(),
            s.spec_ticks() == TICKS@,
            s.spec_fixed() is None,
    {
        StringSpark::new(&TICKS)
    }
}

/// Converts samples to a `String` sparkline with the default renderer.
pub fn spark(data: &[Value]) -> (out: String)
    requires
        forall|k: int| 0 <= k < data@.len() ==> (#[trigger] data@[k]).wf(),
    ensures
        out@ == render_spec(TICKS@, Option::None, data@),
        out@.len() == valid_count(data@),
{
    StringSpark::default().spark(data)
}

/// Identical finite samples throughout render as the ramp's middle symbol,
/// whatever the ramp: the scanned range collapses to one point.
pub proof fn lemma_equal_samples_render_middle(ticks: Seq<char>, data: Seq<Value>)
    requires
        ticks.len() >= 1,
        forall|k: int| 0 <= k < data.len() ==> (#[trigger] data[k]).wf(),
        forall|k: int| 0 <= k < data.len() ==> (#[trigger] data[k]) is Fin,
        forall|j: int, k: int|
            0 <= j < data.len() && 0 <= k < data.len() ==> rat_eq(
                #[trigger] data[j].fin_value(),
                #[trigger] data[k].fin_value(),
            ),
    ensures
        forall|k: int|
            0 <= k < render_spec(ticks, Option::None, data).len() ==> #[trigger] render_spec(
                ticks,
                Option::None,
                data,
            )[k] == ticks[ticks.len() as int / 2],
{
    if data.len() > 0 {
        lemma_scan_min_props(data);
        lemma_scan_max_props(data);
        assert(data[0] is Fin);
        match (scan_min(data), scan_max(data)) {
            (Option::Some(mn), Option::Some(mx)) => {
                let j = choose|j: int| 0 <= j < data.len() && #[trigger] data[j] == Value::Fin(mn);
                let l = choose|l: int| 0 <= l < data.len() && #[trigger] data[l] == Value::Fin(mx);
                assert(rat_eq(data[j].fin_value(), data[l].fin_value()));
                assert(effective_range(Option::None, data) == RangeKind::Degenerate);
            },
            _ => {
                assert(false);
            },
        }
        lemma_symbols_degenerate(ticks, data);
    }
}

/// Under a degenerate range, every rendered symbol is the middle one.
proof fn lemma_symbols_degenerate(ticks: Seq<char>, data: Seq<Value>)
    ensures
        forall|k: int|
            0 <= k < symbols_of(ticks, RangeKind::Degenerate, data).len()
                ==> #[trigger] symbols_of(ticks, RangeKind::Degenerate, data)[k] == ticks[ticks.len()
                as int / 2],
    decreases data.len(),
{
    if data.len() > 0 {
        lemma_symbols_degenerate(ticks, data.drop_last());
        let s = symbols_of(ticks, RangeKind::Degenerate, data);
        let sp = symbols_of(ticks, RangeKind::Degenerate, data.drop_last());
        assert forall|k: int| 0 <= k < s.len() implies #[trigger] s[k] == ticks[ticks.len() as int
            / 2] by {
            if k < sp.len() {
                assert(s[k] == sp[k]);
            } else {
                assert(s[k] == symbol_at(ticks, RangeKind::Degenerate, data.last()));
            }
        }
    }
}

} // verus!
