//! Exact rational numbers: an executable pair of `i128`s and its ghost
//! mathematical model, with the arithmetic the indicator computations need.

use vstd::prelude::*;

verus! {

/// Ghost model of a rational number: the unbounded pair `n / d`.
pub ghost struct Rat {
    pub n: int,
    pub d: int,
}

/// An exact rational number `num / den`; well-formed values keep `den > 0`.
#[derive(Clone, Copy, Debug, PartialEq, Eq, Structural)]
pub struct Q {
    pub num: i128,
    pub den: i128,
}

impl View for Q {
    type V = Rat;

    open spec fn view(&self) -> Rat {
        Rat { n: self.num as int, d: self.den as int }
    }
}

/// A well-formed rational keeps its denominator positive.
pub open spec fn rat_wf(a: Rat) -> bool {
    a.d > 0
}

/// Value equality of rationals, by cross-multiplication.
pub open spec fn rat_eq(a: Rat, b: Rat) -> bool {
    a.n * b.d == b.n * a.d
}

/// Value order of rationals with positive denominators.
pub open spec fn rat_le(a: Rat, b: Rat) -> bool {
    a.n * b.d <= b.n * a.d
}

/// The rational with the value of the integer `n`.
pub open spec fn rat_int(n: int) -> Rat {
    Rat { n: n, d: 1 }
}

/// Sum of two rationals. When the denominators agree the result is kept on
/// that denominator, so sums of same-scale values do not grow.
pub open spec fn rat_add(a: Rat, b: Rat) -> Rat {
    if a.d == b.d {
        Rat { n: a.n + b.n, d: a.d }
    } else {
        Rat { n: a.n * b.d + b.n * a.d, d: a.d * b.d }
    }
}

/// Difference of two rationals, with the same denominator-sharing rule.
pub open spec fn rat_sub(a: Rat, b: Rat) -> Rat {
    if a.d == b.d {
        Rat { n: a.n - b.n, d: a.d }
    } else {
        Rat { n: a.n * b.d - b.n * a.d, d: a.d * b.d }
    }
}

/// Product of two rationals.
pub open spec fn rat_mul(a: Rat, b: Rat) -> Rat {
    Rat { n: a.n * b.n, d: a.d * b.d }
}

/// Quotient of two rationals; the sign moves to the numerator so the
/// denominator stays positive. Meaningful only when `b.n != 0`.
pub open spec fn rat_div(a: Rat, b: Rat) -> Rat {
    if b.n >= 0 {
        Rat { n: a.n * b.d, d: a.d * b.n }
    } else {
        Rat { n: -(a.n * b.d), d: a.d * -b.n }
    }
}

/// Whether an unbounded integer is representable in the machine word, kept
/// symmetric so that negation never leaves the range.
pub open spec fn fits(x: int) -> bool {
    -(i128::MAX as int) <= x && x <= i128::MAX as int
}

/// The intermediate products and sums of `rat_add` stay in range.
pub open spec fn add_fits(a: Rat, b: Rat) -> bool {
    if a.d == b.d {
        fits(a.n + b.n)
    } else {
        fits(a.n * b.d) && fits(b.n * a.d) && fits(a.n * b.d + b.n * a.d) && fits(a.d * b.d)
    }
}

/// The intermediate products and differences of `rat_sub` stay in range.
pub open spec fn sub_fits(a: Rat, b: Rat) -> bool {
    if a.d == b.d {
        fits(a.n - b.n)
    } else {
        fits(a.n * b.d) && fits(b.n * a.d) && fits(a.n * b.d - b.n * a.d) && fits(a.d * b.d)
    }
}

/// The products of `rat_mul` stay in range.
pub open spec fn mul_fits(a: Rat, b: Rat) -> bool {
    fits(a.n * b.n) && fits(a.d * b.d)
}

/// The products of `rat_div` stay in range.
pub open spec fn div_fits(a: Rat, b: Rat) -> bool {
    fits(a.n * b.d) && fits(a.d * b.n)
}

/// The cross-products that compare two rationals stay in range.
pub open spec fn cmp_fits(a: Rat, b: Rat) -> bool {
    fits(a.n * b.d) && fits(b.n * a.d)
}

impl Q {
    /// The rational with the value of the given scaled integer pair.
    pub fn new(num: i128, den: i128) -> (r: Q)
        requires
            den > 0,
        ensures
            r@ == (Rat { n: num as int, d: den as int }),
            rat_wf(r@),
    {
        Q { num, den }
    }

    /// Whether the two rationals have the same value, by cross-multiplication.
    pub fn val_eq(self, other: Q) -> (r: bool)
        requires
            rat_wf(self@),
            rat_wf(other@),
            cmp_fits(self@, other@),
        ensures
            r == rat_eq(self@, other@),
    {
        self.num * other.den == other.num * self.den
    }

    /// Exact sum.
    pub fn add(self, other: Q) -> (r: Q)
        requires
            rat_wf(self@),
            rat_wf(other@),
            add_fits(self@, other@),
        ensures
            r@ == rat_add(self@, other@),
            rat_wf(r@),
    {
        if self.den == other.den {
            Q { num: self.num + other.num, den: self.den }
        } else {
            proof {
                assert((self.den as int) * (other.den as int) > 0) by (nonlinear_arith)
                    requires self.den > 0, other.den > 0;
            }
            Q {
                num: self.num * other.den + other.num * self.den,
                den: self.den * other.den,
            }
        }
    }

    /// Exact difference.
    pub fn sub(self, other: Q) -> (r: Q)
        requires
            rat_wf(self@),
            rat_wf(other@),
            sub_fits(self@, other@),
        ensures
            r@ == rat_sub(self@, other@),
            rat_wf(r@),
    {
        if self.den == other.den {
            Q { num: self.num - other.num, den: self.den }
        } else {
            proof {
                assert((self.den as int) * (other.den as int) > 0) by (nonlinear_arith)
                    requires self.den > 0, other.den > 0;
            }
            Q {
                num: self.num * other.den - other.num * self.den,
                den: self.den * other.den,
            }
        }
    }

    /// Exact product.
    pub fn mul(self, other: Q) -> (r: Q)
        requires
            rat_wf(self@),
            rat_wf(other@),
            mul_fits(self@, other@),
        ensures
            r@ == rat_mul(self@, other@),
            rat_wf(r@),
    {
        proof {
            assert((self.den as int) * (other.den as int) > 0) by (nonlinear_arith)
                requires self.den > 0, other.den > 0;
        }
        Q { num: self.num * other.num, den: self.den * other.den }
    }

    /// Exact quotient; the divisor must have a nonzero value.
    pub fn div(self, other: Q) -> (r: Q)
        requires
            rat_wf(self@),
            rat_wf(other@),
            other@.n != 0,
            div_fits(self@, other@),
        ensures
            r@ == rat_div(self@, other@),
            rat_wf(r@),
    {
        if other.num >= 0 {
            proof {
                assert((self.den as int) * (other.num as int) > 0) by (nonlinear_arith)
                    requires self.den > 0, other.num > 0;
            }
            Q { num: self.num * other.den, den: self.den * other.num }
        } else {
            proof {
                assert((self.den as int) * (other.num as int) < 0) by (nonlinear_arith)
                    requires self.den > 0, other.num < 0;
                assert((self.den as int) * (-(other.num as int)) == -(
                (self.den as int) * (other.num as int))) by (nonlinear_arith);
            }
            Q { num: -(self.num * other.den), den: -(self.den * other.num) }
        }
    }
}

} // verus!
