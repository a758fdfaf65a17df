//! The tower's kinds and its closed result type.
//!
//! `Base` is the fixed-width kind and `Natural` the wider kind; together they
//! back the component parts of a rational. `Number` is the closed sum type
//! that every arithmetic operation of the tower returns, and `Negative` is
//! the sign wrapper for the non-negative kinds.

use vstd::prelude::*;

verus! {

use crate::arith::lemma_mul_fits_u128;
use crate::rational::{lemma_neg_canon, make, sign_canon_matches, Rational};

/// The fixed-width integer kind: a non-negative value small enough for one
/// machine word of the narrow width.
#[derive(Clone, Copy, Debug, Eq, Hash, PartialEq, Structural)]
pub struct Base {
    pub value: u32,
}

impl Base {
    /// The non-negative integer this kind represents.
    pub open spec fn val(self) -> nat {
        self.value as nat
    }

    pub fn new(value: u32) -> (r: Self)
        ensures
            r.val() == value,
    {
        Base { value }
    }

    pub fn to_u64(&self) -> (r: u64)
        ensures
            r as nat == self.val(),
    {
        self.value as u64
    }
}

/// The wider integer kind: it holds exactly the values too large for `Base`,
/// so a value has one canonical representation across the two kinds.
#[derive(Clone, Copy, Debug, Eq, Hash, PartialEq, Structural)]
pub struct Natural {
    value: u64,
}

/// The `Natural` holding `v`, for values that need the wider kind.
pub closed spec fn spec_natural(v: nat) -> Natural {
    Natural { value: v as u64 }
}

impl Natural {
    /// The non-negative integer this kind represents.
    pub closed spec fn val(self) -> nat {
        self.value as nat
    }

    pub fn new(value: u64) -> (r: Self)
        requires
            value > u32::MAX,
        ensures
            r.val() == value,
            r == spec_natural(value as nat),
    {
        Natural { value }
    }

    pub fn to_u64(&self) -> (r: u64)
        ensures
            r as nat == self.val(),
    {
        self.value
    }
}

/// The value of `spec_natural(v)`, for every value the wider kind can hold.
pub proof fn lemma_spec_natural_val(v: nat)
    requires
        v <= u64::MAX,
    ensures
        spec_natural(v).val() == v,
{
}

/// The sign wrapper: a non-negative kind taken as its own negation.
#[derive(Clone, Copy, Debug, Eq, Hash, PartialEq, Structural)]
pub enum Negative {
    Base(Base),
    Natural(Natural),
    Rational(Rational),
}

/// The tower's closed result type: every arithmetic operation of every tower
/// member returns one of these kinds. The imaginary and complex kinds live
/// outside this layer and carry no payload here; they are matched and passed
/// through, never inspected.
#[derive(Clone, Copy, Debug, Eq, Hash, PartialEq, Structural)]
pub enum Number {
    Base(Base),
    Natural(Natural),
    Rational(Rational),
    Negative(Negative),
    Imag,
    Complex,
    NaN,
}

/// `r` is an integer kind holding exactly `v`.
pub open spec fn is_int_val(r: Number, v: nat) -> bool {
    match r {
        Number::Base(b) => b.val() == v,
        Number::Natural(n) => n.val() == v,
        _ => false,
    }
}

/// `r` is the rational kind with numerator `n` and denominator `d`.
pub open spec fn is_rat_val(r: Number, n: nat, d: nat) -> bool {
    match r {
        Number::Rational(q) => q.num_val() == n && q.den_val() == d,
        _ => false,
    }
}

/// A number seen as a signed fraction: sign, magnitude numerator, magnitude
/// denominator. `None` for the kinds with no such reading.
pub open spec fn frac_of(x: Number) -> Option<(bool, nat, nat)> {
    match x {
        Number::Base(b) => Some((false, b.val(), 1nat)),
        Number::Natural(n) => Some((false, n.val(), 1nat)),
        Number::Rational(q) => Some((false, q.num_val(), q.den_val())),
        Number::Negative(Negative::Base(b)) => Some((true, b.val(), 1nat)),
        Number::Negative(Negative::Natural(n)) => Some((true, n.val(), 1nat)),
        Number::Negative(Negative::Rational(q)) => Some((true, q.num_val(), q.den_val())),
        Number::Imag => None,
        Number::Complex => None,
        Number::NaN => None,
    }
}

/// Negation at the tower level: a non-negative kind is wrapped, a wrapped
/// kind is unwrapped, and the remaining kinds give the sentinel.
pub open spec fn spec_negate(x: Number) -> Number {
    match x {
        Number::Base(b) => Number::Negative(Negative::Base(b)),
        Number::Natural(n) => Number::Negative(Negative::Natural(n)),
        Number::Rational(q) => Number::Negative(Negative::Rational(q)),
        Number::Negative(Negative::Base(b)) => Number::Base(b),
        Number::Negative(Negative::Natural(n)) => Number::Natural(n),
        Number::Negative(Negative::Rational(q)) => Number::Rational(q),
        Number::Imag => Number::NaN,
        Number::Complex => Number::NaN,
        Number::NaN => Number::NaN,
    }
}

/// What tower-level multiplication returns: the signed product of the two
/// signed fractions, canonicalized; the sentinel when either operand has no
/// fraction reading.
pub open spec fn mul_ens(a: Number, b: Number, r: Number) -> bool {
    match (frac_of(a), frac_of(b)) {
        (Some(fa), Some(fb)) => sign_canon_matches(r, fa.0 != fb.0, fa.1 * fb.1, fa.2 * fb.2),
        _ => r == Number::NaN,
    }
}

/// What tower-level subtraction returns: the signed difference of the two
/// signed fractions over the common raw denominator, canonicalized; the
/// sentinel when either operand has no fraction reading or the raw numerator
/// outgrows the intermediate word.
pub open spec fn sub_ens(a: Number, b: Number, r: Number) -> bool {
    match (frac_of(a), frac_of(b)) {
        (Some((s1, n1, d1)), Some((s2, n2, d2))) => {
            let p1 = n1 * d2;
            let p2 = n2 * d1;
            let dd = d1 * d2;
            if s1 == s2 {
                if p1 >= p2 {
                    sign_canon_matches(r, s1, (p1 - p2) as nat, dd)
                } else {
                    sign_canon_matches(r, !s1, (p2 - p1) as nat, dd)
                }
            } else {
                if p1 + p2 > u128::MAX {
                    r == Number::NaN
                } else {
                    sign_canon_matches(r, s1, p1 + p2, dd)
                }
            }
        },
        _ => r == Number::NaN,
    }
}

impl Number {
    /// The value as a signed fraction in machine words: sign, magnitude
    /// numerator, magnitude denominator. `None` for the kinds that have no
    /// such reading.
    pub fn to_frac(&self) -> (f: Option<(bool, u64, u64)>)
        ensures
            match frac_of(*self) {
                Some(t) => f matches Some(u) && u.0 == t.0 && u.1 as nat == t.1 && u.2 as nat
                    == t.2,
                None => f is None,
            },
    {
        match self {
            Number::Base(b) => Some((false, b.to_u64(), 1u64)),
            Number::Natural(n) => Some((false, n.to_u64(), 1u64)),
            Number::Rational(q) => Some(
                (false, q.numerator().as_u64(), q.denominator().as_u64()),
            ),
            Number::Negative(Negative::Base(b)) => Some((true, b.to_u64(), 1u64)),
            Number::Negative(Negative::Natural(n)) => Some((true, n.to_u64(), 1u64)),
            Number::Negative(Negative::Rational(q)) => Some(
                (true, q.numerator().as_u64(), q.denominator().as_u64()),
            ),
            Number::Imag => None,
            Number::Complex => None,
            Number::NaN => None,
        }
    }

    /// Tower-level multiplication, by promoting both operands to a signed
    /// fraction, multiplying, and canonicalizing.
    pub fn mul(self, other: Self) -> (r: Number)
        ensures
            mul_ens(self, other, r),
    {
        let fa = self.to_frac();
        let fb = other.to_frac();
        match (fa, fb) {
            (Some((s1, n1, d1)), Some((s2, n2, d2))) => {
                proof {
                    lemma_mul_fits_u128(n1 as nat, n2 as nat);
                    lemma_mul_fits_u128(d1 as nat, d2 as nat);
                }
                let mag: u128 = (n1 as u128) * (n2 as u128);
                let den: u128 = (d1 as u128) * (d2 as u128);
                let inner = make(mag, den);
                if s1 != s2 && mag != 0 {
                    proof {
                        lemma_neg_canon(inner, mag as nat, den as nat);
                    }
                    inner.negate()
                } else {
                    inner
                }
            },
            _ => Number::NaN,
        }
    }

    /// Tower-level subtraction, by promoting both operands to a signed
    /// fraction, subtracting over the common raw denominator, and
    /// canonicalizing.
    pub fn sub(self, other: Self) -> (r: Number)
        ensures
            sub_ens(self, other, r),
    {
        let fa = self.to_frac();
        let fb = other.to_frac();
        match (fa, fb) {
            (Some((s1, n1, d1)), Some((s2, n2, d2))) => {
                proof {
                    lemma_mul_fits_u128(n1 as nat, d2 as nat);
                    lemma_mul_fits_u128(n2 as nat, d1 as nat);
                    lemma_mul_fits_u128(d1 as nat, d2 as nat);
                }
                let p1: u128 = (n1 as u128) * (d2 as u128);
                let p2: u128 = (n2 as u128) * (d1 as u128);
                let dd: u128 = (d1 as u128) * (d2 as u128);
                if s1 == s2 {
                    let (mag, neg) = if p1 >= p2 {
                        (p1 - p2, s1)
                    } else {
                        (p2 - p1, !s1)
                    };
                    let inner = make(mag, dd);
                    if neg && mag != 0 {
                        proof {
                            lemma_neg_canon(inner, mag as nat, dd as nat);
                        }
                        inner.negate()
                    } else {
                        inner
                    }
                } else {
                    if p1 > u128::MAX - p2 {
                        Number::NaN
                    } else {
                        let inner = make(p1 + p2, dd);
                        if s1 && p1 + p2 != 0 {
                            proof {
                                lemma_neg_canon(inner, (p1 + p2) as nat, dd as nat);
                            }
                            inner.negate()
                        } else {
                            inner
                        }
                    }
                }
            },
            _ => Number::NaN,
        }
    }

    /// The integer kind holding `v`, demoted to `Base` when it fits; the
    /// sentinel when `v` is too large for either integer kind.
    pub fn integer(v: u128) -> (r: Number)
        ensures
            v <= u64::MAX ==> is_int_val(r, v as nat),
            v > u64::MAX ==> r == Number::NaN,
    {
        if v <= u32::MAX as u128 {
            Number::Base(Base::new(v as u32))
        } else if v <= u64::MAX as u128 {
            Number::Natural(Natural::new(v as u64))
        } else {
            Number::NaN
        }
    }

    /// Tower-level negation.
    pub fn negate(self) -> (r: Number)
        ensures
            r == spec_negate(self),
    {
        match self {
            Number::Base(b) => Number::Negative(Negative::Base(b)),
            Number::Natural(n) => Number::Negative(Negative::Natural(n)),
            Number::Rational(q) => Number::Negative(Negative::Rational(q)),
            Number::Negative(Negative::Base(b)) => Number::Base(b),
            Number::Negative(Negative::Natural(n)) => Number::Natural(n),
            Number::Negative(Negative::Rational(q)) => Number::Rational(q),
            Number::Imag => Number::NaN,
            Number::Complex => Number::NaN,
            Number::NaN => Number::NaN,
        }
    }
}

} // verus!
