//! Extended fixed-point reals and the interval types built on them.
use vstd::prelude::*;

verus! {

/// The number of units in one: a finite value `Finite(n)` stands for `n / UNIT`.
pub const UNIT: i64 = 4294967296;

/// A real number in fixed point, extended by the two infinities and by a value
/// that is undefined (the result of evaluating a function outside its domain).
///
/// `==` compares representations. Numeric comparisons are `lt` and `le`, under
/// which the undefined value is unordered with everything, itself included.
#[derive(Clone, Copy, Debug, PartialEq, Eq, Structural)]
pub enum Real {
    NaN,
    NegInfinity,
    Finite(i64),
    PosInfinity,
}

impl Real {
    pub open spec fn is_nan_spec(self) -> bool {
        self is NaN
    }

    pub open spec fn is_infinite_spec(self) -> bool {
        self is NegInfinity || self is PosInfinity
    }

    pub open spec fn is_finite_spec(self) -> bool {
        self is Finite
    }

    /// Strict order: the infinities bound the finite values, NaN is unordered.
    pub open spec fn lt_spec(self, other: Real) -> bool {
        match (self, other) {
            (Real::NegInfinity, Real::Finite(_)) => true,
            (Real::NegInfinity, Real::PosInfinity) => true,
            (Real::Finite(x), Real::Finite(y)) => x < y,
            (Real::Finite(_), Real::PosInfinity) => true,
            _ => false,
        }
    }

    pub open spec fn le_spec(self, other: Real) -> bool {
        self.lt_spec(other) || (!self.is_nan_spec() && self == other)
    }

    pub open spec fn neg_spec(self) -> Real {
        match self {
            Real::NaN => Real::NaN,
            Real::NegInfinity => Real::PosInfinity,
            Real::Finite(x) => Real::Finite((-x) as i64),
            Real::PosInfinity => Real::NegInfinity,
        }
    }

    pub fn is_nan(self) -> (r: bool)
        ensures
            r == self.is_nan_spec(),
    {
        match self {
            Real::NaN => true,
            _ => false,
        }
    }

    pub fn is_infinite(self) -> (r: bool)
        ensures
            r == self.is_infinite_spec(),
    {
        match self {
            Real::NegInfinity => true,
            Real::PosInfinity => true,
            _ => false,
        }
    }

    pub fn is_finite(self) -> (r: bool)
        ensures
            r == self.is_finite_spec(),
    {
        match self {
            Real::Finite(_) => true,
            _ => false,
        }
    }

    pub fn lt(self, other: Real) -> (r: bool)
        ensures
            r == self.lt_spec(other),
    {
        match (self, other) {
            (Real::NegInfinity, Real::Finite(_)) => true,
            (Real::NegInfinity, Real::PosInfinity) => true,
            (Real::Finite(x), Real::Finite(y)) => x < y,
            (Real::Finite(_), Real::PosInfinity) => true,
            _ => false,
        }
    }

    pub fn le(self, other: Real) -> (r: bool)
        ensures
            r == self.le_spec(other),
    {
        if self.lt(other) {
            true
        } else {
            !self.is_nan() && self == other
        }
    }

    /// The negation; the least finite value has none.
    pub fn neg(self) -> (r: Real)
        requires
            self != Real::Finite(i64::MIN),
        ensures
            r == self.neg_spec(),
    {
        match self {
            Real::NaN => Real::NaN,
            Real::NegInfinity => Real::PosInfinity,
            Real::Finite(x) => Real::Finite(-x),
            Real::PosInfinity => Real::NegInfinity,
        }
    }
}

/// An interval `[begin, end]` of extended reals in which neither end is NaN and
/// `begin <= end`. Either end may be infinite.
#[derive(Clone, Copy, Debug)]
pub struct NonDecreasing {
    begin: Real,
    end: Real,
}

impl NonDecreasing {
    #[verifier::type_invariant]
    closed spec fn inv(&self) -> bool {
        &&& !self.begin.is_nan_spec()
        &&& !self.end.is_nan_spec()
        &&& self.begin.le_spec(self.end)
    }

    pub closed spec fn begin_spec(&self) -> Real {
        self.begin
    }

    pub closed spec fn end_spec(&self) -> Real {
        self.end
    }

    /// The interval from `begin` to `end`; neither may be NaN, nor `begin`
    /// exceed `end`.
    pub fn new(begin: Real, end: Real) -> (r: NonDecreasing)
        requires
            !begin.is_nan_spec(),
            !end.is_nan_spec(),
            begin.le_spec(end),
        ensures
            r.begin_spec() == begin,
            r.end_spec() == end,
    {
        NonDecreasing { begin, end }
    }

    /// The interval from the lesser of `a` and `b` to the greater.
    pub fn minmax(a: Real, b: Real) -> (r: NonDecreasing)
        requires
            !a.is_nan_spec(),
            !b.is_nan_spec(),
        ensures
            a.le_spec(b) ==> r.begin_spec() == a && r.end_spec() == b,
            !a.le_spec(b) ==> r.begin_spec() == b && r.end_spec() == a,
    {
        if a.le(b) {
            NonDecreasing::new(a, b)
        } else {
            NonDecreasing::new(b, a)
        }
    }

    pub fn begin(&self) -> (r: Real)
        ensures
            r == self.begin_spec(),
            !r.is_nan_spec(),
    {
        proof {
            use_type_invariant(self);
        }
        self.begin
    }

    pub fn end(&self) -> (r: Real)
        ensures
            r == self.end_spec(),
            !r.is_nan_spec(),
    {
        proof {
            use_type_invariant(self);
        }
        self.end
    }

    /// Mirrors the interval in zero: `[a, b]` becomes `[-b, -a]`.
    pub fn reflect(&mut self)
        requires
            old(self).begin_spec() != Real::Finite(i64::MIN),
            old(self).end_spec() != Real::Finite(i64::MIN),
        ensures
            final(self).begin_spec() == old(self).end_spec().neg_spec(),
            final(self).end_spec() == old(self).begin_spec().neg_spec(),
    {
        proof {
            use_type_invariant(&*self);
        }
        let new_begin = self.end.neg();
        let new_end = self.begin.neg();
        *self = NonDecreasing::new(new_begin, new_end);
    }
}

/// A closed interval `[begin, end]` whose ends are finite.
#[derive(Clone, Copy, Debug)]
pub struct ClosedInterval {
    bounds: NonDecreasing,
}

impl From<ClosedInterval> for NonDecreasing {
    /// The same ends, without the promise that they are finite.
    fn from(value: ClosedInterval) -> (r: NonDecreasing) {
        value.bounds
    }
}

impl vstd::std_specs::convert::FromSpecImpl<ClosedInterval> for NonDecreasing {
    open spec fn obeys_from_spec() -> bool {
        true
    }

    open spec fn from_spec(v: ClosedInterval) -> NonDecreasing {
        v.bounds_spec()
    }
}

impl ClosedInterval {
    #[verifier::type_invariant]
    closed spec fn inv(&self) -> bool {
        &&& self.bounds.begin is Finite
        &&& self.bounds.end is Finite
    }

    pub closed spec fn bounds_spec(&self) -> NonDecreasing {
        self.bounds
    }

    /// The least point.
    pub open spec fn lo(&self) -> int {
        self.lo_real()->Finite_0 as int
    }

    /// The greatest point.
    pub open spec fn hi(&self) -> int {
        self.hi_real()->Finite_0 as int
    }

    pub open spec fn includes_spec(&self, value: Real) -> bool {
        value.le_spec(self.hi_real()) && self.lo_real().le_spec(value)
    }

    pub open spec fn lo_real(&self) -> Real {
        self.bounds_spec().begin_spec()
    }

    pub open spec fn hi_real(&self) -> Real {
        self.bounds_spec().end_spec()
    }

    /// The closed interval over `bounds`; both ends must be finite.
    pub fn new(bounds: NonDecreasing) -> (r: ClosedInterval)
        requires
            bounds.begin_spec() is Finite,
            bounds.end_spec() is Finite,
        ensures
            r.bounds_spec() == bounds,
    {
        ClosedInterval { bounds }
    }

    pub fn begin(&self) -> (r: i64)
        ensures
            r == self.lo(),
            Real::Finite(r) == self.bounds_spec().begin_spec(),
    {
        proof {
            use_type_invariant(self);
        }
        match self.bounds.begin {
            Real::Finite(x) => x,
            _ => 0,
        }
    }

    pub fn end(&self) -> (r: i64)
        ensures
            r == self.hi(),
            Real::Finite(r) == self.bounds_spec().end_spec(),
    {
        proof {
            use_type_invariant(self);
        }
        match self.bounds.end {
            Real::Finite(x) => x,
            _ => 0,
        }
    }

    /// The length `end - begin`.
    pub fn len(&self) -> (r: u64)
        ensures
            r == self.hi() - self.lo(),
    {
        proof {
            use_type_invariant(self);
            use_type_invariant(&self.bounds);
        }
        let b = self.begin();
        let e = self.end();
        (e as i128 - b as i128) as u64
    }

    /// Whether `begin <= value <= end`.
    pub fn includes(&self, value: Real) -> (r: bool)
        ensures
            r == self.includes_spec(value),
            r <==> value is Finite && self.lo() <= value->Finite_0 <= self.hi(),
    {
        proof {
            use_type_invariant(self);
        }
        value.le(self.bounds.end) && self.bounds.begin.le(value)
    }

    /// Whether both ends of `other` lie in this interval.
    pub fn covers(&self, other: NonDecreasing) -> (r: bool)
        ensures
            r == (self.includes_spec(other.begin_spec()) && self.includes_spec(other.end_spec())),
    {
        self.includes(other.begin()) && self.includes(other.end())
    }

    /// The interior: the open interval with the same ends.
    pub fn open(&self) -> (r: OpenInterval)
        ensures
            r.bounds == self.bounds_spec(),
    {
        OpenInterval::new(self.bounds)
    }
}

/// The open interval `(lowerbound, upperbound)`: the points strictly between
/// the two ends of `bounds`, which may be infinite.
#[derive(Clone, Copy, Debug)]
pub struct OpenInterval {
    pub bounds: NonDecreasing,
}

impl From<OpenInterval> for NonDecreasing {
    fn from(value: OpenInterval) -> (r: NonDecreasing) {
        value.bounds
    }
}

impl vstd::std_specs::convert::FromSpecImpl<OpenInterval> for NonDecreasing {
    open spec fn obeys_from_spec() -> bool {
        true
    }

    open spec fn from_spec(v: OpenInterval) -> NonDecreasing {
        v.bounds
    }
}

impl OpenInterval {
    pub open spec fn lo_spec(self) -> Real {
        self.bounds.begin_spec()
    }

    pub open spec fn hi_spec(self) -> Real {
        self.bounds.end_spec()
    }

    pub open spec fn is_empty_spec(self) -> bool {
        self.lo_spec() == self.hi_spec()
    }

    /// Some point lies in both intervals.
    pub open spec fn overlaps_spec(self, other: OpenInterval) -> bool {
        open_overlap(self.lo_spec(), self.hi_spec(), other.lo_spec(), other.hi_spec())
    }

    pub open spec fn includes_spec(self, value: Real) -> bool {
        self.lo_spec().lt_spec(value) && value.lt_spec(self.hi_spec())
    }

    pub fn new(bounds: NonDecreasing) -> (r: OpenInterval)
        ensures
            r.bounds == bounds,
    {
        OpenInterval { bounds }
    }

    pub fn lowerbound(self) -> (r: Real)
        ensures
            r == self.lo_spec(),
    {
        self.bounds.begin()
    }

    pub fn upperbound(self) -> (r: Real)
        ensures
            r == self.hi_spec(),
    {
        self.bounds.end()
    }

    /// Whether the interval holds no point: its ends are equal (infinite ends
    /// included).
    pub fn is_empty(self) -> (r: bool)
        ensures
            r == self.is_empty_spec(),
    {
        self.lowerbound() == self.upperbound()
    }

    /// Whether some point lies in both open intervals.
    pub fn overlaps(&self, other: OpenInterval) -> (r: bool)
        ensures
            r == self.overlaps_spec(other),
    {
        if self.is_empty() || other.is_empty() {
            return false;
        }
        self.lowerbound().lt(other.upperbound()) && other.lowerbound().lt(self.upperbound())
    }

    /// Whether no point lies in both open intervals.
    pub fn is_disjoint_with(self, other: OpenInterval) -> (r: bool)
        ensures
            r == !self.overlaps_spec(other),
    {
        !self.overlaps(other)
    }

    /// Whether `lowerbound < value < upperbound`.
    pub fn includes(self, value: Real) -> (r: bool)
        ensures
            r == self.includes_spec(value),
    {
        self.lowerbound().lt(value) && value.lt(self.upperbound())
    }

    pub fn excludes(self, value: Real) -> (r: bool)
        ensures
            r == !self.includes_spec(value),
    {
        !self.includes(value)
    }
}

/// The open intervals `(alo, ahi)` and `(blo, bhi)` share a point: neither
/// is empty and each begins before the other ends.
pub open spec fn open_overlap(alo: Real, ahi: Real, blo: Real, bhi: Real) -> bool {
    &&& alo != ahi
    &&& blo != bhi
    &&& alo.lt_spec(bhi)
    &&& blo.lt_spec(ahi)
}

/// A rectangle with sides parallel to the axes; either side may have length zero.
#[derive(Clone, Copy, Debug)]
pub struct BoundingRect {
    pub x: ClosedInterval,
    pub y: ClosedInterval,
}

impl BoundingRect {
    pub fn area(&self) -> (r: u128)
        ensures
            r == (self.x.hi() - self.x.lo()) * (self.y.hi() - self.y.lo()),
    {
        let w = self.x.len();
        let h = self.y.len();
        proof {
            vstd::arithmetic::mul::lemma_mul_upper_bound(w as int, u64::MAX as int, h as int, u64::MAX as int);
        }
        (w as u128) * (h as u128)
    }

    /// The corner at the greatest x and the least y.
    pub fn top_right(&self) -> (r: Vec2D)
        ensures
            r.x == self.x.hi(),
            r.y == self.y.lo(),
    {
        Vec2D { x: self.x.end(), y: self.y.begin() }
    }

    pub fn includes(&self, point: &Vec2D) -> (r: bool)
        ensures
            r <==> self.x.lo() <= point.x <= self.x.hi() && self.y.lo() <= point.y <= self.y.hi(),
    {
        self.x.includes(Real::Finite(point.x)) && self.y.includes(Real::Finite(point.y))
    }
}

/// A point of the plane.
#[derive(Clone, Copy, PartialEq, Eq, Debug, Structural)]
pub struct Vec2D {
    pub x: i64,
    pub y: i64,
}

} // verus!
