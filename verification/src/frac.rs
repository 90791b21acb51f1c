//! Exact rational numbers.
//!
//! Every coordinate and every shape dimension in this crate is a `Frac`:
//! the rational `num / den` with a positive denominator. The arithmetic
//! used by the geometry and the solver is checked: an operation whose exact
//! result would leave the `i64` range reports `None` instead of a wrong
//! value, and every `Some` result is proved to carry the exact numerator
//! and denominator.

use vstd::prelude::*;

verus! {

/// Does `x` fit in an `i64`?
pub open spec fn fits_i64(x: int) -> bool {
    i64::MIN <= x <= i64::MAX
}

/// Absolute value of a mathematical integer.
pub open spec fn abs_i(x: int) -> int {
    if x < 0 {
        -x
    } else {
        x
    }
}

/// An exact rational number `num / den`.
#[derive(Clone, Copy, Debug, PartialEq, Eq, Structural)]
pub struct Frac {
    pub num: i64,
    pub den: i64,
}

impl Frac {
    /// A fraction is well formed when its denominator is positive.
    pub open spec fn wf(self) -> bool {
        self.den >= 1
    }

    /// Do two fractions denote the same rational?
    pub open spec fn same_value(self, other: Frac) -> bool {
        self.num * other.den == other.num * self.den
    }

    /// The exact product, or `None` where numerator or denominator would
    /// leave the `i64` range.
    pub open spec fn spec_mul(self, other: Frac) -> Option<Frac> {
        if fits_i64(self.num * other.num) && fits_i64(self.den * other.den) {
            Some(
                Frac {
                    num: (self.num * other.num) as i64,
                    den: (self.den * other.den) as i64,
                },
            )
        } else {
            None
        }
    }

    /// The exact sum over the product denominator, or `None` on overflow.
    pub open spec fn spec_add(self, other: Frac) -> Option<Frac> {
        if fits_i64(self.num * other.den) && fits_i64(other.num * self.den) && fits_i64(
            self.num * other.den + other.num * self.den,
        ) && fits_i64(self.den * other.den) {
            Some(
                Frac {
                    num: (self.num * other.den + other.num * self.den) as i64,
                    den: (self.den * other.den) as i64,
                },
            )
        } else {
            None
        }
    }

    /// The exact difference over the product denominator, or `None` on overflow.
    pub open spec fn spec_sub(self, other: Frac) -> Option<Frac> {
        if fits_i64(self.num * other.den) && fits_i64(other.num * self.den) && fits_i64(
            self.num * other.den - other.num * self.den,
        ) && fits_i64(self.den * other.den) {
            Some(
                Frac {
                    num: (self.num * other.den - other.num * self.den) as i64,
                    den: (self.den * other.den) as i64,
                },
            )
        } else {
            None
        }
    }

    /// The absolute value; `None` only for the one numerator without an
    /// `i64` negation.
    pub open spec fn spec_abs(self) -> Option<Frac> {
        if fits_i64(abs_i(self.num as int)) {
            Some(Frac { num: abs_i(self.num as int) as i64, den: self.den })
        } else {
            None
        }
    }

    /// Division by a positive integer: the denominator grows by `k`.
    pub open spec fn spec_div_int(self, k: i64) -> Option<Frac> {
        if fits_i64(self.den * k) {
            Some(Frac { num: self.num, den: (self.den * k) as i64 })
        } else {
            None
        }
    }

    /// The rational zero.
    pub open spec fn spec_zero() -> Frac {
        Frac { num: 0, den: 1 }
    }

    pub fn zero() -> (r: Frac)
        ensures
            r == Frac::spec_zero(),
            r.wf(),
    {
        Frac { num: 0, den: 1 }
    }

    pub fn mul(self, other: Frac) -> (r: Option<Frac>)
        requires
            self.wf(),
            other.wf(),
        ensures
            r == self.spec_mul(other),
            r matches Some(f) ==> f.wf(),
    {
        proof {
            lemma_pos_mul_pos(self.den as int, other.den as int);
        }
        match (self.num.checked_mul(other.num), self.den.checked_mul(other.den)) {
            (Some(n), Some(d)) => Some(Frac { num: n, den: d }),
            _ => None,
        }
    }

    pub fn add(self, other: Frac) -> (r: Option<Frac>)
        requires
            self.wf(),
            other.wf(),
        ensures
            r == self.spec_add(other),
            r matches Some(f) ==> f.wf(),
    {
        proof {
            lemma_pos_mul_pos(self.den as int, other.den as int);
        }
        let a = self.num.checked_mul(other.den);
        let b = other.num.checked_mul(self.den);
        let d = self.den.checked_mul(other.den);
        match (a, b, d) {
            (Some(a), Some(b), Some(d)) => match a.checked_add(b) {
                Some(n) => Some(Frac { num: n, den: d }),
                None => None,
            },
            _ => None,
        }
    }

    pub fn sub(self, other: Frac) -> (r: Option<Frac>)
        requires
            self.wf(),
            other.wf(),
        ensures
            r == self.spec_sub(other),
            r matches Some(f) ==> f.wf(),
    {
        proof {
            lemma_pos_mul_pos(self.den as int, other.den as int);
        }
        let a = self.num.checked_mul(other.den);
        let b = other.num.checked_mul(self.den);
        let d = self.den.checked_mul(other.den);
        match (a, b, d) {
            (Some(a), Some(b), Some(d)) => match a.checked_sub(b) {
                Some(n) => Some(Frac { num: n, den: d }),
                None => None,
            },
            _ => None,
        }
    }

    pub fn abs(self) -> (r: Option<Frac>)
        requires
            self.wf(),
        ensures
            r == self.spec_abs(),
            r matches Some(f) ==> f.wf() && f.num >= 0,
    {
        if self.num == i64::MIN {
            None
        } else if self.num < 0 {
            Some(Frac { num: -self.num, den: self.den })
        } else {
            Some(self)
        }
    }

    pub fn div_int(self, k: i64) -> (r: Option<Frac>)
        requires
            self.wf(),
            k >= 1,
        ensures
            r == self.spec_div_int(k),
            r matches Some(f) ==> f.wf(),
    {
        proof {
            lemma_pos_mul_pos(self.den as int, k as int);
        }
        match self.den.checked_mul(k) {
            Some(d) => Some(Frac { num: self.num, den: d }),
            None => None,
        }
    }

    /// Do `self` and `other` denote the same rational? Cross-multiplication
    /// in `i128` cannot overflow.
    pub fn value_eq(self, other: Frac) -> (r: bool)
        ensures
            r == self.same_value(other),
    {
        proof {
            lemma_i64_mul_fits_i128(self.num as int, other.den as int);
            lemma_i64_mul_fits_i128(other.num as int, self.den as int);
        }
        (self.num as i128) * (other.den as i128) == (other.num as i128) * (self.den as i128)
    }
}

/// The product of two positive integers is positive.
pub proof fn lemma_pos_mul_pos(a: int, b: int)
    requires
        a >= 1,
        b >= 1,
    ensures
        a * b >= 1,
{
    assert(a * b >= 1) by (nonlinear_arith)
        requires
            a >= 1,
            b >= 1,
    ;
}

/// The product of two `i64` values stays far inside the `i128` range.
pub proof fn lemma_i64_mul_fits_i128(a: int, b: int)
    requires
        i64::MIN <= a <= i64::MAX,
        i64::MIN <= b <= i64::MAX,
    ensures
        i128::MIN <= a * b <= i128::MAX,
{
    assert(a * b <= 0x4000_0000_0000_0000_0000_0000_0000_0000int && a * b
        >= -0x4000_0000_0000_0000_0000_0000_0000_0000int) by (nonlinear_arith)
        requires
            -0x8000_0000_0000_0000 <= a <= 0x7fff_ffff_ffff_ffff,
            -0x8000_0000_0000_0000 <= b <= 0x7fff_ffff_ffff_ffff,
    ;
}

} // verus!
