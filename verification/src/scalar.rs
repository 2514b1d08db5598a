//! The numbers a matrix holds.
//!
//! The kernel is written once, over any type that offers the four arithmetic
//! operations, a strict comparison and a handful of constants. Each operation
//! has a mathematical model (a `spec` function) and an executable method
//! that is held to compute exactly that model, so every contract of the
//! kernel can be stated over the models alone.
//!
//! Every operation is total: a scalar type decides for itself what an
//! overflowing sum or a division by zero yields, and the kernel passes that
//! value on untouched.
use vstd::prelude::*;

verus! {

/// An element type for [`crate::matrix::Matrix`].
pub trait Scalar: Copy + Sized {
    /// The additive identity, the seed of every sum.
    spec fn zero_value() -> Self;

    /// The multiplicative identity.
    spec fn one_value() -> Self;

    /// The seed of a maximum: a value that no other is below.
    spec fn lowest_value() -> Self;

    /// The scalar that stands for the count `n`.
    spec fn count_value(n: usize) -> Self;

    /// The model of [`Scalar::plus`].
    spec fn sum_of(self, rhs: Self) -> Self;

    /// The model of [`Scalar::minus`].
    spec fn difference_of(self, rhs: Self) -> Self;

    /// The model of [`Scalar::times`].
    spec fn product_of(self, rhs: Self) -> Self;

    /// The model of [`Scalar::over`].
    spec fn quotient_of(self, rhs: Self) -> Self;

    /// The model of [`Scalar::lt`].
    spec fn less_than(self, rhs: Self) -> bool;

    /// The model of [`Scalar::to_index`]: the position that the scalar
    /// stands for.
    spec fn index_value(self) -> usize;

    fn zero() -> (r: Self)
        ensures
            r == Self::zero_value(),
    ;

    fn one() -> (r: Self)
        ensures
            r == Self::one_value(),
    ;

    fn lowest() -> (r: Self)
        ensures
            r == Self::lowest_value(),
    ;

    fn from_count(n: usize) -> (r: Self)
        ensures
            r == Self::count_value(n),
    ;

    fn plus(self, rhs: Self) -> (r: Self)
        ensures
            r == self.sum_of(rhs),
    ;

    fn minus(self, rhs: Self) -> (r: Self)
        ensures
            r == self.difference_of(rhs),
    ;

    fn times(self, rhs: Self) -> (r: Self)
        ensures
            r == self.product_of(rhs),
    ;

    fn over(self, rhs: Self) -> (r: Self)
        ensures
            r == self.quotient_of(rhs),
    ;

    fn lt(self, rhs: Self) -> (r: bool)
        ensures
            r == self.less_than(rhs),
    ;

    fn to_index(self) -> (r: usize)
        ensures
            r == self.index_value(),
    ;
}

/// The larger of two scalars; the first where neither is below the other.
pub open spec fn larger_of<T: Scalar>(a: T, b: T) -> T {
    if a.less_than(b) {
        b
    } else {
        a
    }
}

/// The smaller of two scalars; the second where the first is not below it.
pub open spec fn smaller_of<T: Scalar>(a: T, b: T) -> T {
    if a.less_than(b) {
        a
    } else {
        b
    }
}

/// Multiplication does not care about the order of its operands, whatever
/// they are.
pub open spec fn product_commutes<T: Scalar>() -> bool {
    forall|a: T, b: T| #[trigger] a.product_of(b) == b.product_of(a)
}

/// `less_than` is a strict total order on all of `T`.
pub open spec fn strictly_ordered<T: Scalar>() -> bool {
    &&& forall|a: T| !(#[trigger] a.less_than(a))
    &&& forall|a: T, b: T, c: T|
        #[trigger] a.less_than(b) && #[trigger] b.less_than(c) ==> a.less_than(c)
    &&& forall|a: T, b: T| a != b ==> #[trigger] a.less_than(b) || b.less_than(a)
}

/// `less_than` is a strict total order on the entries of `s`: none is below
/// itself, below is transitive among them, and of two different entries one
/// is below the other.
pub open spec fn strictly_ordered_among<T: Scalar>(s: Seq<T>) -> bool {
    &&& forall|a: T| s.contains(a) ==> !(#[trigger] a.less_than(a))
    &&& forall|a: T, b: T, c: T|
        s.contains(a) && s.contains(b) && s.contains(c) && #[trigger] a.less_than(b)
            && #[trigger] b.less_than(c) ==> a.less_than(c)
    &&& forall|a: T, b: T|
        s.contains(a) && s.contains(b) && a != b ==> #[trigger] a.less_than(b) || b.less_than(a)
}

/// An order on all of `T` is an order on the entries of every sequence.
pub proof fn lemma_ordered_among<T: Scalar>(s: Seq<T>)
    requires
        strictly_ordered::<T>(),
    ensures
        strictly_ordered_among(s),
{
}

/// The nearest `i64` to an integer.
pub open spec fn saturate(x: int) -> i64 {
    if x > i64::MAX {
        i64::MAX
    } else if x < i64::MIN {
        i64::MIN
    } else {
        x as i64
    }
}

/// The quotient of two integers, rounded towards zero.
pub open spec fn truncated_quotient(a: int, b: int) -> int
    recommends
        b != 0,
{
    if a >= 0 {
        if b > 0 {
            a / b
        } else {
            -(a / (-b))
        }
    } else {
        if b > 0 {
            -((-a) / b)
        } else {
            (-a) / (-b)
        }
    }
}

fn narrow(wide: i128) -> (r: i64)
    ensures
        r == saturate(wide as int),
{
    if wide > i64::MAX as i128 {
        i64::MAX
    } else if wide < i64::MIN as i128 {
        i64::MIN
    } else {
        wide as i64
    }
}

/// Saturating integers: a result that does not fit becomes the nearest value
/// that does, and a division by zero yields the extreme of the dividend's
/// sign (zero for zero). As an index, a negative integer counts as zero.
impl Scalar for i64 {
    open spec fn zero_value() -> Self {
        0
    }

    open spec fn one_value() -> Self {
        1
    }

    open spec fn lowest_value() -> Self {
        i64::MIN
    }

    open spec fn count_value(n: usize) -> Self {
        saturate(n as int)
    }

    open spec fn sum_of(self, rhs: Self) -> Self {
        saturate(self + rhs)
    }

    open spec fn difference_of(self, rhs: Self) -> Self {
        saturate(self - rhs)
    }

    open spec fn product_of(self, rhs: Self) -> Self {
        saturate(self * rhs)
    }

    open spec fn quotient_of(self, rhs: Self) -> Self {
        if rhs == 0 {
            if self > 0 {
                i64::MAX
            } else if self < 0 {
                i64::MIN
            } else {
                0
            }
        } else {
            saturate(truncated_quotient(self as int, rhs as int))
        }
    }

    open spec fn less_than(self, rhs: Self) -> bool {
        self < rhs
    }

    open spec fn index_value(self) -> usize {
        if self < 0 {
            0
        } else if self > usize::MAX {
            usize::MAX
        } else {
            self as usize
        }
    }

    fn zero() -> (r: Self) {
        0
    }

    fn one() -> (r: Self) {
        1
    }

    fn lowest() -> (r: Self) {
        i64::MIN
    }

    fn from_count(n: usize) -> (r: Self) {
        narrow(n as i128)
    }

    fn plus(self, rhs: Self) -> (r: Self) {
        narrow(self as i128 + rhs as i128)
    }

    fn minus(self, rhs: Self) -> (r: Self) {
        narrow(self as i128 - rhs as i128)
    }

    fn times(self, rhs: Self) -> (r: Self) {
        proof {
            lemma_product_fits(self as int, rhs as int);
        }
        narrow(self as i128 * rhs as i128)
    }

    fn over(self, rhs: Self) -> (r: Self) {
        if rhs == 0 {
            if self > 0 {
                i64::MAX
            } else if self < 0 {
                i64::MIN
            } else {
                0
            }
        } else {
            let a: i128 = self as i128;
            let b: i128 = rhs as i128;
            proof {
                lemma_quotient_fits(a as int, b as int);
            }
            let q: i128 = if a >= 0 {
                if b > 0 {
                    a / b
                } else {
                    -(a / (-b))
                }
            } else {
                if b > 0 {
                    -((-a) / b)
                } else {
                    (-a) / (-b)
                }
            };
            narrow(q)
        }
    }

    fn lt(self, rhs: Self) -> (r: bool) {
        self < rhs
    }

    fn to_index(self) -> (r: usize) {
        if self < 0 {
            0
        } else if self as u64 > usize::MAX as u64 {
            usize::MAX
        } else {
            self as usize
        }
    }
}

proof fn lemma_product_fits(a: int, b: int)
    by (nonlinear_arith)
    requires
        -0x8000_0000_0000_0000 <= a < 0x8000_0000_0000_0000,
        -0x8000_0000_0000_0000 <= b < 0x8000_0000_0000_0000,
    ensures
        -0x4000_0000_0000_0000_0000_0000_0000_0000 <= a * b
            <= 0x4000_0000_0000_0000_0000_0000_0000_0000,
{
}

proof fn lemma_quotient_fits(a: int, b: int)
    by (nonlinear_arith)
    requires
        -0x8000_0000_0000_0000 <= a < 0x8000_0000_0000_0000,
        -0x8000_0000_0000_0000 <= b < 0x8000_0000_0000_0000,
        b != 0,
    ensures
        a >= 0 && b > 0 ==> 0 <= a / b <= a,
        a >= 0 && b < 0 ==> 0 <= a / (-b) <= a,
        a < 0 && b > 0 ==> 0 <= (-a) / b <= -a,
        a < 0 && b < 0 ==> 0 <= (-a) / (-b) <= -a,
{
}

/// Saturating multiplication is commutative.
pub proof fn lemma_i64_product_commutes()
    ensures
        product_commutes::<i64>(),
{
    assert forall|a: i64, b: i64| #[trigger] a.product_of(b) == b.product_of(a) by {
        assert(a * b == b * a) by (nonlinear_arith);
    }
}

/// The integers are strictly and totally ordered.
pub proof fn lemma_i64_strictly_ordered()
    ensures
        strictly_ordered::<i64>(),
{
}

} // verus!
