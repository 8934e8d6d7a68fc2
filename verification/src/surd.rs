//! Exact numbers of the form `(rat + root * sqrt(3)) / den`.
//!
//! A regular hexagon whose corners sit at odd multiples of 30 degrees has all
//! of its coordinates in this field, so hexagon geometry needs no rounding.

use vstd::prelude::*;

verus! {

/// The mathematical value of a [`Surd`]: `(rat + root * sqrt(3)) / den` with
/// unbounded integers.
pub struct SurdValue {
    pub rat: int,
    pub root: int,
    pub den: int,
}

impl SurdValue {
    /// The denominator is positive.
    pub open spec fn wf(self) -> bool {
        self.den > 0
    }

    /// Both denote the same real number. As `1` and `sqrt(3)` are linearly
    /// independent over the rationals, this is equality of the two rational
    /// coefficients.
    pub open spec fn same(self, other: SurdValue) -> bool {
        &&& self.rat * other.den == other.rat * self.den
        &&& self.root * other.den == other.root * self.den
    }

    /// The sum.
    pub open spec fn plus(self, other: SurdValue) -> SurdValue {
        SurdValue {
            rat: self.rat * other.den + other.rat * self.den,
            root: self.root * other.den + other.root * self.den,
            den: self.den * other.den,
        }
    }

    /// The difference.
    pub open spec fn minus(self, other: SurdValue) -> SurdValue {
        SurdValue {
            rat: self.rat * other.den - other.rat * self.den,
            root: self.root * other.den - other.root * self.den,
            den: self.den * other.den,
        }
    }

    /// The product, by `sqrt(3) * sqrt(3) == 3`.
    pub open spec fn times(self, other: SurdValue) -> SurdValue {
        SurdValue {
            rat: self.rat * other.rat + 3 * (self.root * other.root),
            root: self.rat * other.root + self.root * other.rat,
            den: self.den * other.den,
        }
    }

    /// The rational number `num / den`.
    pub open spec fn ratio(num: int, den: int) -> SurdValue {
        SurdValue { rat: num, root: 0, den }
    }

    /// The integer `n`.
    pub open spec fn whole(n: int) -> SurdValue {
        SurdValue { rat: n, root: 0, den: 1 }
    }

    /// The sum of two values that stand over the same denominator, over that
    /// denominator.
    pub open spec fn plus_over(self, other: SurdValue) -> SurdValue {
        SurdValue { rat: self.rat + other.rat, root: self.root + other.root, den: self.den }
    }

    /// The value with its sign turned.
    pub open spec fn neg(self) -> SurdValue {
        SurdValue { rat: -self.rat, root: -self.root, den: self.den }
    }

    /// Twice the value.
    pub open spec fn twice(self) -> SurdValue {
        SurdValue { rat: 2 * self.rat, root: 2 * self.root, den: self.den }
    }

    /// Half of the value.
    pub open spec fn half(self) -> SurdValue {
        SurdValue { rat: self.rat, root: self.root, den: 2 * self.den }
    }

    /// The value times `sqrt(3)`.
    pub open spec fn times_root3(self) -> SurdValue {
        SurdValue { rat: 3 * self.root, root: self.rat, den: self.den }
    }
}

/// An exact number `(rat + root * sqrt(3)) / den` in machine integers.
#[derive(Clone, Copy, Debug, PartialEq, Eq, Structural)]
pub struct Surd {
    pub rat: i64,
    pub root: i64,
    pub den: i64,
}

impl View for Surd {
    type V = SurdValue;

    open spec fn view(&self) -> SurdValue {
        SurdValue { rat: self.rat as int, root: self.root as int, den: self.den as int }
    }
}

/// The largest numerator and denominator that the geometry functions accept.
pub const SURD_LIMIT: i64 = 0x1000_0000_0000_0000;

impl Surd {
    /// The denominator is positive, and no part exceeds [`SURD_LIMIT`] in
    /// magnitude.
    pub open spec fn in_range(self) -> bool {
        &&& 0 < self.den <= SURD_LIMIT
        &&& -SURD_LIMIT <= self.rat <= SURD_LIMIT
        &&& -SURD_LIMIT <= self.root <= SURD_LIMIT
    }

    /// Whether the number is well formed and no part of it exceeds
    /// [`SURD_LIMIT`] in magnitude.
    pub fn is_in_range(&self) -> (r: bool)
        ensures
            r == self.in_range(),
    {
        0 < self.den && self.den <= SURD_LIMIT && -SURD_LIMIT <= self.rat && self.rat
            <= SURD_LIMIT && -SURD_LIMIT <= self.root && self.root <= SURD_LIMIT
    }

    /// The integer `n`.
    pub fn whole(n: i64) -> (r: Surd)
        ensures
            r@ == SurdValue::whole(n as int),
    {
        Surd { rat: n, root: 0, den: 1 }
    }

    /// The sum of two numbers that stand over the same denominator.
    pub fn plus_over(self, other: Surd) -> (r: Surd)
        requires
            self.den == other.den,
            i64::MIN <= self.rat + other.rat <= i64::MAX,
            i64::MIN <= self.root + other.root <= i64::MAX,
        ensures
            r@ == self@.plus_over(other@),
    {
        Surd { rat: self.rat + other.rat, root: self.root + other.root, den: self.den }
    }

    /// The value with its sign turned.
    pub fn neg(self) -> (r: Surd)
        requires
            self.rat > i64::MIN,
            self.root > i64::MIN,
        ensures
            r@ == self@.neg(),
    {
        Surd { rat: -self.rat, root: -self.root, den: self.den }
    }

    /// The number `(rat + root * sqrt(3)) / den`, if `den` is positive.
    pub fn new(rat: i64, root: i64, den: i64) -> (r: Option<Surd>)
        ensures
            den > 0 <==> r is Some,
            r matches Some(s) ==> s.rat == rat && s.root == root && s.den == den,
    {
        if den > 0 {
            Some(Surd { rat, root, den })
        } else {
            None
        }
    }
}

/// Over a common denominator, [`SurdValue::plus_over`] is the sum.
pub proof fn lemma_plus_over_is_sum(a: SurdValue, b: SurdValue)
    requires
        a.den == b.den,
    ensures
        a.plus_over(b).same(a.plus(b)),
{
    let d = a.den;
    assert(a.plus_over(b).same(a.plus(b))) by (nonlinear_arith)
        requires
            a.plus_over(b).rat == a.rat + b.rat,
            a.plus_over(b).root == a.root + b.root,
            a.plus_over(b).den == d,
            a.plus(b).rat == a.rat * d + b.rat * d,
            a.plus(b).root == a.root * d + b.root * d,
            a.plus(b).den == d * d,
    ;
}

} // verus!
