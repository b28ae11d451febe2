//! An exact rational scalar.
//!
//! Operations that divide (scalar division, system solving, the Cramer
//! inverse, means) cannot stay inside `i64`, so their results are exact
//! fractions of two `i64` components.  Arithmetic on fractions is checked:
//! an operation whose exact numerator or denominator falls outside the
//! `i64` range reports `None` instead of a wrong value.

use vstd::prelude::*;
use crate::scalar::in_i64;

verus! {

/// An exact rational number `num / den`; the denominator is never zero.
#[derive(Debug, Clone, Copy, PartialEq, Eq, Structural)]
pub struct Rat {
    pub num: i64,
    pub den: i64,
}

/// The exact sum of two rationals, or `None` when a component of the
/// result does not fit in an `i64`.
pub open spec fn rat_add(a: Rat, b: Rat) -> Option<Rat> {
    let n = a.num * b.den + b.num * a.den;
    let d = a.den * b.den;
    if in_i64(n) && in_i64(d) {
        Some(Rat { num: n as i64, den: d as i64 })
    } else {
        None
    }
}

/// The exact difference of two rationals, or `None` on overflow.
pub open spec fn rat_sub(a: Rat, b: Rat) -> Option<Rat> {
    let n = a.num * b.den - b.num * a.den;
    let d = a.den * b.den;
    if in_i64(n) && in_i64(d) {
        Some(Rat { num: n as i64, den: d as i64 })
    } else {
        None
    }
}

/// The exact product of two rationals, or `None` on overflow.
pub open spec fn rat_mul(a: Rat, b: Rat) -> Option<Rat> {
    let n = a.num * b.num;
    let d = a.den * b.den;
    if in_i64(n) && in_i64(d) {
        Some(Rat { num: n as i64, den: d as i64 })
    } else {
        None
    }
}

/// The exact quotient of two rationals (the divisor must not be zero),
/// or `None` on overflow.
pub open spec fn rat_div(a: Rat, b: Rat) -> Option<Rat> {
    let n = a.num * b.den;
    let d = a.den * b.num;
    if in_i64(n) && in_i64(d) {
        Some(Rat { num: n as i64, den: d as i64 })
    } else {
        None
    }
}

impl Rat {
    /// The denominator is nonzero, so the value is a genuine rational.
    pub open spec fn wf(self) -> bool {
        self.den != 0
    }

    pub fn new(num: i64, den: i64) -> (r: Rat)
        requires
            den != 0,
        ensures
            r == (Rat { num, den }),
            r.wf(),
    {
        Rat { num, den }
    }

    pub fn from_int(n: i64) -> (r: Rat)
        ensures
            r == (Rat { num: n, den: 1i64 }),
            r.wf(),
    {
        Rat { num: n, den: 1 }
    }

    /// The value is exactly zero.
    pub fn is_zero(&self) -> (r: bool)
        ensures
            r == (self.num == 0),
    {
        self.num == 0
    }

    /// The value is exactly one.
    pub fn is_one(&self) -> (r: bool)
        ensures
            r == (self.num == self.den),
    {
        self.num == self.den
    }

    pub fn checked_add(self, other: Rat) -> (r: Option<Rat>)
        requires
            self.wf(),
            other.wf(),
        ensures
            r == rat_add(self, other),
            r is Some ==> r->0.wf(),
    {
        proof {
            lemma_i64_prod_in_i128(self.num as int, other.den as int);
            lemma_i64_prod_in_i128(other.num as int, self.den as int);
            lemma_i64_prod_in_i128(self.den as int, other.den as int);
        }
        let p1 = (self.num as i128) * (other.den as i128);
        let p2 = (other.num as i128) * (self.den as i128);
        let n = match p1.checked_add(p2) {
            Some(n) => n,
            None => {
                return None;
            },
        };
        let d = (self.den as i128) * (other.den as i128);
        if i64::MIN as i128 <= n && n <= i64::MAX as i128 && i64::MIN as i128 <= d
            && d <= i64::MAX as i128 {
            proof {
                lemma_nonzero_prod(self.den as int, other.den as int);
            }
            Some(Rat { num: n as i64, den: d as i64 })
        } else {
            None
        }
    }

    pub fn checked_sub(self, other: Rat) -> (r: Option<Rat>)
        requires
            self.wf(),
            other.wf(),
        ensures
            r == rat_sub(self, other),
            r is Some ==> r->0.wf(),
    {
        proof {
            lemma_i64_prod_in_i128(self.num as int, other.den as int);
            lemma_i64_prod_in_i128(other.num as int, self.den as int);
            lemma_i64_prod_in_i128(self.den as int, other.den as int);
        }
        let p1 = (self.num as i128) * (other.den as i128);
        let p2 = (other.num as i128) * (self.den as i128);
        let n = match p1.checked_sub(p2) {
            Some(n) => n,
            None => {
                return None;
            },
        };
        let d = (self.den as i128) * (other.den as i128);
        if i64::MIN as i128 <= n && n <= i64::MAX as i128 && i64::MIN as i128 <= d
            && d <= i64::MAX as i128 {
            proof {
                lemma_nonzero_prod(self.den as int, other.den as int);
            }
            Some(Rat { num: n as i64, den: d as i64 })
        } else {
            None
        }
    }

    pub fn checked_mul(self, other: Rat) -> (r: Option<Rat>)
        requires
            self.wf(),
            other.wf(),
        ensures
            r == rat_mul(self, other),
            r is Some ==> r->0.wf(),
    {
        proof {
            lemma_i64_prod_in_i128(self.num as int, other.num as int);
            lemma_i64_prod_in_i128(self.den as int, other.den as int);
        }
        let n = (self.num as i128) * (other.num as i128);
        let d = (self.den as i128) * (other.den as i128);
        if i64::MIN as i128 <= n && n <= i64::MAX as i128 && i64::MIN as i128 <= d
            && d <= i64::MAX as i128 {
            proof {
                lemma_nonzero_prod(self.den as int, other.den as int);
            }
            Some(Rat { num: n as i64, den: d as i64 })
        } else {
            None
        }
    }

    pub fn checked_div(self, other: Rat) -> (r: Option<Rat>)
        requires
            self.wf(),
            other.wf(),
            other.num != 0,
        ensures
            r == rat_div(self, other),
            r is Some ==> r->0.wf(),
    {
        proof {
            lemma_i64_prod_in_i128(self.num as int, other.den as int);
            lemma_i64_prod_in_i128(self.den as int, other.num as int);
        }
        let n = (self.num as i128) * (other.den as i128);
        let d = (self.den as i128) * (other.num as i128);
        if i64::MIN as i128 <= n && n <= i64::MAX as i128 && i64::MIN as i128 <= d
            && d <= i64::MAX as i128 {
            proof {
                lemma_nonzero_prod(self.den as int, other.num as int);
            }
            Some(Rat { num: n as i64, den: d as i64 })
        } else {
            None
        }
    }
}

/// The product of two `i64`-range integers stays within `i128`.
pub proof fn lemma_i64_prod_in_i128(a: int, b: int)
    requires
        i64::MIN <= a <= i64::MAX,
        i64::MIN <= b <= i64::MAX,
    ensures
        i128::MIN <= a * b <= i128::MAX,
{
    assert(i128::MIN <= a * b <= i128::MAX) by (nonlinear_arith)
        requires
            -0x8000_0000_0000_0000 <= a <= 0x7fff_ffff_ffff_ffff,
            -0x8000_0000_0000_0000 <= b <= 0x7fff_ffff_ffff_ffff,
    ;
}

/// The product of two nonzero integers is nonzero.
proof fn lemma_nonzero_prod(a: int, b: int)
    requires
        a != 0,
        b != 0,
    ensures
        a * b != 0,
{
    assert(a * b != 0) by (nonlinear_arith)
        requires
            a != 0,
            b != 0,
    ;
}

} // verus!
