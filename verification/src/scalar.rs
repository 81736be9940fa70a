//! The numbers that positions and sizes are measured in.
use vstd::prelude::*;

verus! {

/// What the arithmetic of a coordinate type means. Each operation is a function of its operands;
/// nothing else is asked of it, so that numbers that round or are not ordered will do.
pub trait ScalarMeaning: Sized {
    /// `self + other`.
    spec fn sum(self, other: Self) -> Self;

    /// `self - other`.
    spec fn difference(self, other: Self) -> Self;

    /// `self * other`.
    spec fn product(self, other: Self) -> Self;

    /// A fourth of the number.
    spec fn fourth(self) -> Self;

    /// `-self`.
    spec fn negation(self) -> Self;

    /// The number without its sign.
    spec fn absolute(self) -> Self;

    /// The lesser of two numbers.
    spec fn minimum(self, other: Self) -> Self;

    /// The greater of two numbers.
    spec fn maximum(self, other: Self) -> Self;

    /// The next whole number from the number up.
    spec fn rounded_up(self) -> Self;

    /// `self < other`.
    spec fn less(self, other: Self) -> bool;

    /// `self == other`, as numbers.
    spec fn equal(self, other: Self) -> bool;

    /// A whole number.
    spec fn integer(n: i32) -> Self;
}

/// A coordinate type: it computes what its meaning says.
pub trait Scalar: ScalarMeaning + Copy {
    fn plus(self, other: Self) -> (r: Self)
        ensures
            r == self.sum(other),
    ;

    fn minus(self, other: Self) -> (r: Self)
        ensures
            r == self.difference(other),
    ;

    fn times(self, other: Self) -> (r: Self)
        ensures
            r == self.product(other),
    ;

    fn quarter(self) -> (r: Self)
        ensures
            r == self.fourth(),
    ;

    fn negated(self) -> (r: Self)
        ensures
            r == self.negation(),
    ;

    fn magnitude(self) -> (r: Self)
        ensures
            r == self.absolute(),
    ;

    fn least(self, other: Self) -> (r: Self)
        ensures
            r == self.minimum(other),
    ;

    fn greatest(self, other: Self) -> (r: Self)
        ensures
            r == self.maximum(other),
    ;

    fn ceiling(self) -> (r: Self)
        ensures
            r == self.rounded_up(),
    ;

    fn below(self, other: Self) -> (r: bool)
        ensures
            r == self.less(other),
    ;

    fn same(self, other: Self) -> (r: bool)
        ensures
            r == self.equal(other),
    ;

    fn whole(n: i32) -> (r: Self)
        ensures
            r == Self::integer(n),
    ;
}

/// The `i64` nearest to an integer.
pub open spec fn nearest(v: int) -> i64 {
    if v < i64::MIN {
        i64::MIN
    } else if v > i64::MAX {
        i64::MAX
    } else {
        v as i64
    }
}

fn to_nearest(v: i128) -> (r: i64)
    ensures
        r == nearest(v as int),
{
    if v < i64::MIN as i128 {
        i64::MIN
    } else if v > i64::MAX as i128 {
        i64::MAX
    } else {
        v as i64
    }
}

/// Whole points. A result beyond the range stops at its end.
impl ScalarMeaning for i64 {
    open spec fn sum(self, other: i64) -> i64 {
        nearest(self + other)
    }

    open spec fn difference(self, other: i64) -> i64 {
        nearest(self - other)
    }

    open spec fn product(self, other: i64) -> i64 {
        nearest(self * other)
    }

    open spec fn fourth(self) -> i64 {
        nearest(self as int / 4)
    }

    open spec fn negation(self) -> i64 {
        nearest(-self)
    }

    open spec fn absolute(self) -> i64 {
        if self < 0 {
            nearest(-self)
        } else {
            self
        }
    }

    open spec fn minimum(self, other: i64) -> i64 {
        if other < self {
            other
        } else {
            self
        }
    }

    open spec fn maximum(self, other: i64) -> i64 {
        if self < other {
            other
        } else {
            self
        }
    }

    open spec fn rounded_up(self) -> i64 {
        self
    }

    open spec fn less(self, other: i64) -> bool {
        self < other
    }

    open spec fn equal(self, other: i64) -> bool {
        self == other
    }

    open spec fn integer(n: i32) -> i64 {
        n as i64
    }
}

impl Scalar for i64 {
    fn plus(self, other: i64) -> (r: i64) {
        to_nearest(self as i128 + other as i128)
    }

    fn minus(self, other: i64) -> (r: i64) {
        to_nearest(self as i128 - other as i128)
    }

    fn times(self, other: i64) -> (r: i64) {
        let a: i128 = self as i128;
        let b: i128 = other as i128;
        assert(-0x4000_0000_0000_0000_0000_0000_0000_0000 <= a * b
            <= 0x4000_0000_0000_0000_0000_0000_0000_0000) by (nonlinear_arith)
            requires
                -0x8000_0000_0000_0000 <= a <= 0x7fff_ffff_ffff_ffff,
                -0x8000_0000_0000_0000 <= b <= 0x7fff_ffff_ffff_ffff,
        ;
        to_nearest(a * b)
    }

    fn quarter(self) -> (r: i64) {
        if self >= 0 {
            self / 4
        } else {
            let up: i128 = 3 - self as i128;
            let down: i128 = up / 4;
            to_nearest(-down)
        }
    }

    fn negated(self) -> (r: i64) {
        to_nearest(-(self as i128))
    }

    fn magnitude(self) -> (r: i64) {
        if self < 0 {
            to_nearest(-(self as i128))
        } else {
            self
        }
    }

    fn least(self, other: i64) -> (r: i64) {
        if other < self {
            other
        } else {
            self
        }
    }

    fn greatest(self, other: i64) -> (r: i64) {
        if self < other {
            other
        } else {
            self
        }
    }

    fn ceiling(self) -> (r: i64) {
        self
    }

    fn below(self, other: i64) -> (r: bool) {
        self < other
    }

    fn same(self, other: i64) -> (r: bool) {
        self == other
    }

    fn whole(n: i32) -> (r: i64) {
        n as i64
    }
}

} // verus!
