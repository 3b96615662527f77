use vstd::prelude::*;

verus! {

/// An exact rational number `num / den`, kept with `den > 0`.
///
/// The fields are 32 bits wide so that every product the cross-multiplied
/// comparisons and the bucket arithmetic need stays far inside 128 bits.
#[derive(Clone, Copy, Debug)]
pub struct Rational {
    pub num: i32,
    pub den: i32,
}

impl Rational {
    /// A rational is well formed when its denominator is positive.
    pub open spec fn wf(&self) -> bool {
        self.den > 0
    }

    pub fn new(num: i32, den: i32) -> (r: Rational)
        requires
            den > 0,
        ensures
            r == (Rational { num, den }),
    {
        Rational { num, den }
    }

    /// The rational holding the integer `n`.
    pub fn from_int(n: i32) -> (r: Rational)
        ensures
            r == (Rational { num: n, den: 1int as i32 }),
    {
        Rational { num: n, den: 1 }
    }
}

/// `a <= b` as rationals, by cross multiplication; sound because
/// well-formed denominators are positive.
pub open spec fn rat_le(a: Rational, b: Rational) -> bool {
    a.num * b.den <= b.num * a.den
}

/// `a < b` as rationals, by cross multiplication.
pub open spec fn rat_lt(a: Rational, b: Rational) -> bool {
    a.num * b.den < b.num * a.den
}

/// Equality of the values: `2/4` equals `1/2`.
pub open spec fn rat_eq(a: Rational, b: Rational) -> bool {
    a.num * b.den == b.num * a.den
}

/// A product of two 32-bit quantities stays within `b * b`, far below
/// the 64-bit range; used to discharge overflow obligations.
pub proof fn lemma_mul_bound(x: int, y: int, b: int)
    by (nonlinear_arith)
    requires
        -b <= x <= b,
        -b <= y <= b,
        0 <= b,
    ensures
        -(b * b) <= x * y <= b * b,
{
}

/// As [`lemma_mul_bound`], with one bound for each factor.
pub proof fn lemma_mul_bound2(x: int, y: int, bx: int, by: int)
    by (nonlinear_arith)
    requires
        -bx <= x <= bx,
        -by <= y <= by,
        0 <= bx,
        0 <= by,
    ensures
        -(bx * by) <= x * y <= bx * by,
{
}

pub proof fn lemma_rat_le_trans(a: Rational, b: Rational, c: Rational)
    by (nonlinear_arith)
    requires
        a.wf(),
        b.wf(),
        c.wf(),
        rat_le(a, b),
        rat_le(b, c),
    ensures
        rat_le(a, c),
{
}

pub fn rat_le_exec(a: &Rational, b: &Rational) -> (r: bool)
    requires
        a.wf(),
        b.wf(),
    ensures
        r == rat_le(*a, *b),
{
    proof {
        lemma_mul_bound(a.num as int, b.den as int, 0x8000_0000);
        lemma_mul_bound(b.num as int, a.den as int, 0x8000_0000);
    }
    (a.num as i64) * (b.den as i64) <= (b.num as i64) * (a.den as i64)
}

pub fn rat_lt_exec(a: &Rational, b: &Rational) -> (r: bool)
    requires
        a.wf(),
        b.wf(),
    ensures
        r == rat_lt(*a, *b),
{
    proof {
        lemma_mul_bound(a.num as int, b.den as int, 0x8000_0000);
        lemma_mul_bound(b.num as int, a.den as int, 0x8000_0000);
    }
    (a.num as i64) * (b.den as i64) < (b.num as i64) * (a.den as i64)
}

pub fn rat_eq_exec(a: &Rational, b: &Rational) -> (r: bool)
    requires
        a.wf(),
        b.wf(),
    ensures
        r == rat_eq(*a, *b),
{
    proof {
        lemma_mul_bound(a.num as int, b.den as int, 0x8000_0000);
        lemma_mul_bound(b.num as int, a.den as int, 0x8000_0000);
    }
    (a.num as i64) * (b.den as i64) == (b.num as i64) * (a.den as i64)
}

/// One sample: an exact finite value, an infinity, or an invalid entry
/// that every scan and every rendering skips.
#[derive(Clone, Copy, Debug)]
pub enum Value {
    NaN,
    NegInf,
    Fin(Rational),
    PosInf,
}

impl Value {
    pub open spec fn wf(&self) -> bool {
        match *self {
            Value::Fin(r) => r.wf(),
            _ => true,
        }
    }

    pub open spec fn spec_is_nan(&self) -> bool {
        *self is NaN
    }

    #[verifier::when_used_as_spec(spec_is_nan)]
    pub fn is_nan(&self) -> (b: bool)
        ensures
            b == self.spec_is_nan(),
    {
        match *self {
            Value::NaN => true,
            _ => false,
        }
    }

    /// The finite value a sample holds, when it holds one.
    pub open spec fn fin_value(&self) -> Rational
        recommends
            *self is Fin,
    {
        match *self {
            Value::Fin(r) => r,
            _ => (Rational { num: 0int as i32, den: 1int as i32 }),
        }
    }

    /// The finite sample holding the integer `n`.
    pub fn from_int(n: i32) -> (v: Value)
        ensures
            v == Value::Fin(Rational { num: n, den: 1int as i32 }),
    {
        Value::Fin(Rational::from_int(n))
    }
}

/// The clamp of `v` into `[min, max]`: infinities collapse onto the nearest
/// boundary, and a finite value keeps its own representation while inside.
/// (The `NaN` arm is never reached: every caller skips invalid samples.)
pub open spec fn clamped(v: Value, min: Rational, max: Rational) -> Rational {
    match v {
        Value::NegInf => min,
        Value::PosInf => max,
        Value::NaN => min,
        Value::Fin(r) => if rat_lt(r, min) {
            min
        } else if rat_lt(max, r) {
            max
        } else {
            r
        },
    }
}

pub fn clamp_value(v: &Value, min: &Rational, max: &Rational) -> (c: Rational)
    requires
        v.wf(),
        min.wf(),
        max.wf(),
    ensures
        c == clamped(*v, *min, *max),
        c.wf(),
{
    match *v {
        Value::NegInf => *min,
        Value::PosInf => *max,
        Value::NaN => *min,
        Value::Fin(r) => {
            if rat_lt_exec(&r, min) {
                *min
            } else if rat_lt_exec(max, &r) {
                *max
            } else {
                r
            }
        },
    }
}

/// Clamping lands inside the range.
pub proof fn lemma_clamped_in_range(v: Value, min: Rational, max: Rational)
    requires
        v.wf(),
        min.wf(),
        max.wf(),
        rat_le(min, max),
    ensures
        rat_le(min, clamped(v, min, max)),
        rat_le(clamped(v, min, max), max),
{
}

} // verus!
