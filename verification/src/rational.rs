//! The component-part union and the exact rational built from it.
//!
//! A `Part` is the restricted two-kind union used only as a rational's
//! numerator or denominator. A `Rational` is an ordered pair of parts; it is
//! canonicalized on demand by `reduce`, which brings the fraction to lowest
//! terms or collapses it to an integer kind of the closed result type.

use vstd::prelude::*;

verus! {

use vstd::arithmetic::div_mod::{
    lemma_div_basics, lemma_div_denominator, lemma_div_nonincreasing, lemma_fundamental_div_mod,
    lemma_small_mod,
};
use crate::arith::{
    gcd, gcd_u128, lemma_gcd_divides, lemma_gcd_le, lemma_gcd_pos, lemma_gcd_quotients_coprime,
    lemma_mul_fits_u128,
};
use crate::number::{mul_ens, sub_ens};
use crate::traits::NumberBase;
use core::cmp::Ordering;
use crate::number::{is_int_val, is_rat_val, spec_natural, spec_negate, Base, Natural, Negative, Number};

/// A value that either integer kind can represent: the component-part domain.
pub open spec fn part_fits(v: nat) -> bool {
    v <= u64::MAX
}

/// The component part holding `v`: the fixed-width kind when `v` fits it,
/// else the wider kind.
pub open spec fn spec_part_of(v: nat) -> Part {
    if v <= u32::MAX {
        Part::Base(Base { value: v as u32 })
    } else {
        Part::Natural(spec_natural(v))
    }
}

/// The restricted union of the two integer kinds, used only as numerator or
/// denominator storage for rationals. A value is stored in the fixed-width
/// kind whenever it fits it, so each value has one representation.
#[derive(Clone, Copy, Debug, Eq, Hash, PartialEq, Structural)]
pub enum Part {
    Base(Base),
    Natural(Natural),
}

impl Part {
    /// The non-negative integer this part represents.
    pub open spec fn val(self) -> nat {
        match self {
            Part::Base(b) => b.val(),
            Part::Natural(n) => n.val(),
        }
    }

    /// The part holding `v`, demoted to the fixed-width kind when it fits.
    pub fn from_u128(v: u128) -> (r: Part)
        requires
            v <= u64::MAX,
        ensures
            r.val() == v,
            r == spec_part_of(v as nat),
    {
        if v <= u32::MAX as u128 {
            Part::Base(Base::new(v as u32))
        } else {
            let n = Natural::new(v as u64);
            proof {
                crate::number::lemma_spec_natural_val(v as nat);
            }
            Part::Natural(n)
        }
    }

    /// The part's value as the word width all intermediates are computed in.
    pub fn to_u128(&self) -> (r: u128)
        ensures
            r as nat == self.val(),
            r <= u64::MAX,
    {
        match self {
            Part::Base(b) => b.to_u64() as u128,
            Part::Natural(n) => n.to_u64() as u128,
        }
    }

    /// Comparison against a small literal, used by canonicalization to test
    /// for 0 and 1.
    pub fn eq_u64(&self, other: u64) -> (r: bool)
        ensures
            r == (self.val() == other),
    {
        match self {
            Part::Base(b) => b.to_u64() == other,
            Part::Natural(n) => n.to_u64() == other,
        }
    }

    /// The part's value in one machine word; exact, since both kinds fit it.
    pub fn as_u64(&self) -> (r: u64)
        ensures
            r as nat == self.val(),
    {
        match self {
            Part::Base(b) => b.to_u64(),
            Part::Natural(n) => n.to_u64(),
        }
    }

    /// Conversion to the signed primitive form; reports "not representable"
    /// rather than failing.
    pub fn to_i64(&self) -> (r: Option<i64>)
        ensures
            self.val() <= i64::MAX ==> (r matches Some(v) && v == self.val()),
            self.val() > i64::MAX ==> r is None,
    {
        let v: u64 = self.as_u64();
        if v <= i64::MAX as u64 {
            Some(v as i64)
        } else {
            None
        }
    }

    /// Conversion to the unsigned primitive form; always representable for a
    /// component part.
    pub fn to_u64(&self) -> (r: Option<u64>)
        ensures
            r matches Some(v) && v as nat == self.val(),
    {
        Some(self.as_u64())
    }

    /// Promotion-aware multiplication: the same-variant and mixed-variant
    /// products agree with the values' product; a product too wide for
    /// either integer kind is the sentinel.
    pub fn mul(self, other: Self) -> (r: Number)
        ensures
            self.val() * other.val() <= u64::MAX ==> is_int_val(r, self.val() * other.val()),
            self.val() * other.val() > u64::MAX ==> r == Number::NaN,
    {
        let a: u128 = self.to_u128();
        let b: u128 = other.to_u128();
        proof {
            lemma_mul_fits_u128(a as nat, b as nat);
        }
        Number::integer(a * b)
    }

    /// Promotion-aware floor division; division by zero is the sentinel.
    pub fn div_floor(self, other: Self) -> (r: Number)
        ensures
            other.val() > 0 ==> is_int_val(r, self.val() / other.val()),
            other.val() == 0 ==> r == Number::NaN,
    {
        let a: u128 = self.to_u128();
        let b: u128 = other.to_u128();
        if b == 0 {
            Number::NaN
        } else {
            proof {
                lemma_div_nonincreasing(a as int, b as int);
            }
            Number::integer(a / b)
        }
    }

    /// Promotion-aware greatest common divisor of two non-negative
    /// magnitudes, with the convention `gcd(0, x) == x`.
    pub fn gcd(self, other: Self) -> (r: Number)
        ensures
            is_int_val(r, gcd(self.val(), other.val())),
    {
        let a: u128 = self.to_u128();
        let b: u128 = other.to_u128();
        let g: u128 = gcd_u128(a, b);
        proof {
            if b > 0 {
                lemma_gcd_le(a as nat, b as nat);
            }
        }
        Number::integer(g)
    }

    /// Narrowing a closed tower result back down to a component part; fails
    /// with a recoverable error for every kind that is not one of the two
    /// component-part-representable ones.
    pub fn try_from(i: Number) -> (r: Result<Part, &'static str>)
        ensures
            match i {
                Number::Base(v) => r == Ok::<Part, &'static str>(Part::Base(v)),
                Number::Natural(v) => r == Ok::<Part, &'static str>(Part::Natural(v)),
                _ => r is Err,
            },
    {
        match i {
            Number::Base(v) => Ok(Part::Base(v)),
            Number::Natural(v) => Ok(Part::Natural(v)),
            _ => Err("invalid number type"),
        }
    }
}

impl From<u64> for Part {
    /// A part from a native unsigned value.
    fn from(i: u64) -> (r: Part) {
        if i <= u32::MAX as u64 {
            Part::Base(Base::new(i as u32))
        } else {
            let n = Natural::new(i);
            Part::Natural(n)
        }
    }
}

impl vstd::std_specs::convert::FromSpecImpl<u64> for Part {
    open spec fn obeys_from_spec() -> bool {
        true
    }

    open spec fn from_spec(i: u64) -> Part {
        spec_part_of(i as nat)
    }
}

impl From<Base> for Part {
    /// A part from the fixed-width kind.
    fn from(i: Base) -> (r: Part) {
        Part::Base(i)
    }
}

impl vstd::std_specs::convert::FromSpecImpl<Base> for Part {
    open spec fn obeys_from_spec() -> bool {
        true
    }

    open spec fn from_spec(i: Base) -> Part {
        Part::Base(i)
    }
}

impl From<Natural> for Part {
    /// A part from the wider kind, which holds only values that need it.
    fn from(i: Natural) -> (r: Part) {
        Part::Natural(i)
    }
}

impl vstd::std_specs::convert::FromSpecImpl<Natural> for Part {
    open spec fn obeys_from_spec() -> bool {
        true
    }

    open spec fn from_spec(i: Natural) -> Part {
        Part::Natural(i)
    }
}

impl From<Part> for Number {
    /// A part, re-wrapped as the integer kind of the closed result type that
    /// holds it.
    fn from(part: Part) -> (r: Number) {
        match part {
            Part::Base(a) => Number::Base(a),
            Part::Natural(a) => Number::Natural(a),
        }
    }
}

impl vstd::std_specs::convert::FromSpecImpl<Part> for Number {
    open spec fn obeys_from_spec() -> bool {
        true
    }

    open spec fn from_spec(part: Part) -> Number {
        match part {
            Part::Base(a) => Number::Base(a),
            Part::Natural(a) => Number::Natural(a),
        }
    }
}

/// An exact non-negative fraction: numerator and denominator component
/// parts. The sign of a value lives outside, in the tower's `Negative`
/// wrapper; equality is structural and does not canonicalize first.
#[derive(Clone, Copy, Debug, Eq, Hash, PartialEq, Structural)]
pub struct Rational {
    numerator: Part,
    denominator: Part,
}

/// The rational with the given parts.
pub closed spec fn spec_rational(n: Part, d: Part) -> Rational {
    Rational { numerator: n, denominator: d }
}

/// The parts of `spec_rational` are the ones given.
pub proof fn lemma_spec_rational_parts(n: Part, d: Part)
    ensures
        spec_rational(n, d).num_part() == n,
        spec_rational(n, d).den_part() == d,
{
}

impl Rational {
    /// The numerator part.
    pub closed spec fn num_part(self) -> Part {
        self.numerator
    }

    /// The denominator part.
    pub closed spec fn den_part(self) -> Part {
        self.denominator
    }

    /// The numerator's value.
    pub open spec fn num_val(self) -> nat {
        self.num_part().val()
    }

    /// The denominator's value.
    pub open spec fn den_val(self) -> nat {
        self.den_part().val()
    }
}

/// Whether canonicalizing the raw pair `n / d` stays within the
/// component-part domain. Canonicalization of a pair whose surviving
/// numerator or denominator is too wide for a part returns the sentinel
/// instead; this predicate says when it does not.
pub open spec fn canon_rep_ok(n: nat, d: nat) -> bool {
    if d == 0 || n == 1 {
        part_fits(n) && part_fits(d)
    } else if n == 0 {
        true
    } else if d == 1 {
        part_fits(n)
    } else if gcd(n, d) == d {
        part_fits(n / d)
    } else if gcd(n, d) == 1 {
        part_fits(n) && part_fits(d)
    } else {
        part_fits(n / gcd(n, d)) && part_fits(d / gcd(n, d))
    }
}

/// `r` is exactly the canonical form of the raw pair `n / d`:
/// - a zero denominator or a unit numerator leaves the pair unreduced;
/// - a zero numerator collapses to the integer zero;
/// - a unit denominator collapses to the integer numerator;
/// - a pair with coprime entries is already canonical;
/// - a denominator that divides the numerator collapses to an integer;
/// - otherwise both entries are divided by their gcd;
/// - and the sentinel stands wherever a surviving entry is too wide.
pub open spec fn canon_matches(r: Number, n: nat, d: nat) -> bool {
    if !canon_rep_ok(n, d) {
        r == Number::NaN
    } else if d == 0 || n == 1 {
        is_rat_val(r, n, d)
    } else if n == 0 {
        is_int_val(r, 0)
    } else if d == 1 {
        is_int_val(r, n)
    } else if gcd(n, d) == d {
        is_int_val(r, n / d)
    } else if gcd(n, d) == 1 {
        is_rat_val(r, n, d)
    } else {
        is_rat_val(r, n / gcd(n, d), d / gcd(n, d))
    }
}

/// Canonicalize a raw numerator/denominator pair into a tower value. This is
/// the step the tower-level division operator performs after every
/// arithmetic operation, so that each result crosses into the closed result
/// type in canonical form.
pub(crate) fn make(n: u128, d: u128) -> (r: Number)
    ensures
        canon_matches(r, n as nat, d as nat),
{
    if d == 0 || n == 1 {
        if n <= u64::MAX as u128 && d <= u64::MAX as u128 {
            Number::Rational(Rational { numerator: Part::from_u128(n), denominator: Part::from_u128(d) })
        } else {
            Number::NaN
        }
    } else if n == 0 {
        Number::Base(Base::new(0))
    } else if d == 1 {
        Number::integer(n)
    } else {
        let g: u128 = gcd_u128(n, d);
        proof {
            lemma_gcd_pos(n as nat, d as nat);
            lemma_div_nonincreasing(n as int, g as int);
            lemma_div_nonincreasing(d as int, g as int);
        }
        if g == 1 {
            if n <= u64::MAX as u128 && d <= u64::MAX as u128 {
                Number::Rational(Rational { numerator: Part::from_u128(n), denominator: Part::from_u128(d) })
            } else {
                Number::NaN
            }
        } else if g == d {
            Number::integer(n / g)
        } else {
            let nq: u128 = n / g;
            let dq: u128 = d / g;
            if nq <= u64::MAX as u128 && dq <= u64::MAX as u128 {
                Number::Rational(Rational { numerator: Part::from_u128(nq), denominator: Part::from_u128(dq) })
            } else {
                Number::NaN
            }
        }
    }
}

/// `r` is the negation of the canonical form of the raw pair `n / d`: the
/// canonical value wrapped in the sign wrapper, or the sentinel where the
/// canonical form itself is the sentinel.
pub open spec fn neg_canon_matches(r: Number, n: nat, d: nat) -> bool {
    match r {
        Number::Negative(Negative::Base(b)) => canon_matches(Number::Base(b), n, d),
        Number::Negative(Negative::Natural(m)) => canon_matches(Number::Natural(m), n, d),
        Number::Negative(Negative::Rational(q)) => canon_matches(Number::Rational(q), n, d),
        Number::NaN => canon_matches(Number::NaN, n, d),
        _ => false,
    }
}

/// `r` is the canonical form of `n / d` with the sign `neg` applied; a zero
/// magnitude stays non-negative.
pub open spec fn sign_canon_matches(r: Number, neg: bool, n: nat, d: nat) -> bool {
    if neg && n != 0 {
        neg_canon_matches(r, n, d)
    } else {
        canon_matches(r, n, d)
    }
}

/// Negating a canonical value gives the negation of the canonical value.
pub proof fn lemma_neg_canon(x: Number, n: nat, d: nat)
    requires
        canon_matches(x, n, d),
    ensures
        neg_canon_matches(spec_negate(x), n, d),
{
}

/// The total cross-multiplication order on rationals: `a < b` iff
/// `a.numerator * b.denominator < b.numerator * a.denominator`. Correct as an
/// order on fraction values only for positive denominators, which this layer
/// does not itself enforce.
pub open spec fn spec_cmp(a: Rational, b: Rational) -> Ordering {
    if a.num_val() * b.den_val() < b.num_val() * a.den_val() {
        Ordering::Less
    } else if a.num_val() * b.den_val() == b.num_val() * a.den_val() {
        Ordering::Equal
    } else {
        Ordering::Greater
    }
}

impl Rational {
    /// Total order by cross-multiplication, never materializing a common
    /// denominator and never canonicalizing.
    pub fn cmp(&self, other: &Self) -> (r: Ordering)
        ensures
            r == spec_cmp(*self, *other),
    {
        let n1: u128 = self.numerator.to_u128();
        let d1: u128 = self.denominator.to_u128();
        let n2: u128 = other.numerator.to_u128();
        let d2: u128 = other.denominator.to_u128();
        proof {
            lemma_mul_fits_u128(n1 as nat, d2 as nat);
            lemma_mul_fits_u128(n2 as nat, d1 as nat);
        }
        let p1: u128 = n1 * d2;
        let p2: u128 = n2 * d1;
        if p1 < p2 {
            Ordering::Less
        } else if p1 == p2 {
            Ordering::Equal
        } else {
            Ordering::Greater
        }
    }

    /// Structural equality against an integer literal: always false, since a
    /// fraction is never stored as an integer kind.
    pub fn eq_u64(&self, _other: u64) -> (r: bool)
        ensures
            !r,
    {
        false
    }

    /// Comparison against an integer literal, by comparing the numerator
    /// with the denominator scaled by the literal.
    pub fn cmp_u64(&self, other: u64) -> (r: Option<Ordering>)
        ensures
            self.num_val() < self.den_val() * other ==> r == Some(Ordering::Less),
            self.num_val() == self.den_val() * other ==> r == Some(Ordering::Equal),
            self.num_val() > self.den_val() * other ==> r == Some(Ordering::Greater),
    {
        let p1: u128 = self.numerator.to_u128();
        let d: u128 = self.denominator.to_u128();
        proof {
            lemma_mul_fits_u128(d as nat, other as nat);
        }
        let p2: u128 = d * (other as u128);
        if p1 < p2 {
            Some(Ordering::Less)
        } else if p1 == p2 {
            Some(Ordering::Equal)
        } else {
            Some(Ordering::Greater)
        }
    }
}

impl PartialOrd for Rational {
    fn partial_cmp(&self, other: &Self) -> (r: Option<Ordering>) {
        Some(self.cmp(other))
    }
}

impl vstd::std_specs::cmp::PartialOrdSpecImpl for Rational {
    open spec fn obeys_partial_cmp_spec() -> bool {
        true
    }

    open spec fn partial_cmp_spec(&self, other: &Self) -> Option<Ordering> {
        Some(spec_cmp(*self, *other))
    }
}

impl From<Part> for Rational {
    /// The whole value `i`, as the fraction `i / 1`.
    fn from(i: Part) -> (r: Rational) {
        Rational { numerator: i, denominator: Part::Base(Base::new(1)) }
    }
}

impl vstd::std_specs::convert::FromSpecImpl<Part> for Rational {
    open spec fn obeys_from_spec() -> bool {
        true
    }

    open spec fn from_spec(i: Part) -> Rational {
        spec_rational(i, spec_part_of(1))
    }
}

impl From<u64> for Rational {
    /// The whole value `i`, as the fraction `i / 1`.
    fn from(i: u64) -> (r: Rational) {
        Rational { numerator: Part::from(i), denominator: Part::Base(Base::new(1)) }
    }
}

impl vstd::std_specs::convert::FromSpecImpl<u64> for Rational {
    open spec fn obeys_from_spec() -> bool {
        true
    }

    open spec fn from_spec(i: u64) -> Rational {
        spec_rational(spec_part_of(i as nat), spec_part_of(1))
    }
}

impl From<(Part, Part)> for Rational {
    /// The fraction `i.0 / i.1`, not canonicalized.
    fn from(i: (Part, Part)) -> (r: Rational) {
        Rational { numerator: i.0, denominator: i.1 }
    }
}

impl vstd::std_specs::convert::FromSpecImpl<(Part, Part)> for Rational {
    open spec fn obeys_from_spec() -> bool {
        true
    }

    open spec fn from_spec(i: (Part, Part)) -> Rational {
        spec_rational(i.0, i.1)
    }
}

impl From<(u64, u64)> for Rational {
    /// The fraction `i.0 / i.1`, not canonicalized.
    fn from(i: (u64, u64)) -> (r: Rational) {
        Rational { numerator: Part::from(i.0), denominator: Part::from(i.1) }
    }
}

impl vstd::std_specs::convert::FromSpecImpl<(u64, u64)> for Rational {
    open spec fn obeys_from_spec() -> bool {
        true
    }

    open spec fn from_spec(i: (u64, u64)) -> Rational {
        spec_rational(spec_part_of(i.0 as nat), spec_part_of(i.1 as nat))
    }
}

impl Rational {
    /// Canonicalization. A zero denominator or a unit numerator returns the
    /// rational unchanged (a zero denominator raises no error at this
    /// layer); a zero numerator is the integer zero; a unit denominator is
    /// the numerator demoted out of fraction form; otherwise the pair is
    /// reduced by its gcd, collapsing to an integer when the denominator
    /// divides the numerator evenly.
    pub fn reduce(self) -> (r: Number)
        ensures
            canon_matches(r, self.num_val(), self.den_val()),
            self.den_val() == 0 || self.num_val() == 1 || (self.num_val() != 0
                && self.den_val() != 1 && gcd(self.num_val(), self.den_val()) == 1) ==> r
                == Number::Rational(self),
    {
        let n: u128 = self.numerator.to_u128();
        let d: u128 = self.denominator.to_u128();
        if d == 0 || n == 1 {
            Number::Rational(self)
        } else if n == 0 {
            Number::Base(Base::new(0))
        } else if d == 1 {
            Number::integer(n)
        } else {
            let g: u128 = gcd_u128(n, d);
            proof {
                lemma_gcd_pos(n as nat, d as nat);
                lemma_div_nonincreasing(n as int, g as int);
                lemma_div_nonincreasing(d as int, g as int);
            }
            if g == 1 {
                Number::Rational(self)
            } else if g == d {
                Number::integer(n / g)
            } else {
                let nq: u128 = n / g;
                let dq: u128 = d / g;
                Number::Rational(Rational { numerator: Part::from_u128(nq), denominator: Part::from_u128(dq) })
            }
        }
    }
}

impl Rational {
    /// The numerator part.
    pub fn numerator(&self) -> (p: Part)
        ensures
            p == self.num_part(),
    {
        self.numerator
    }

    /// The denominator part.
    pub fn denominator(&self) -> (p: Part)
        ensures
            p == self.den_part(),
    {
        self.denominator
    }

    /// Addition: `(a.num * b.den + a.den * b.num) / (a.den * b.den)`, handed
    /// to the canonicalizing division step; a raw numerator too wide for the
    /// intermediate word is the sentinel.
    pub fn add(self, other: Self) -> (r: Number)
        ensures
            ({
                let s = self.num_val() * other.den_val() + self.den_val() * other.num_val();
                let dd = self.den_val() * other.den_val();
                &&& s <= u128::MAX ==> canon_matches(r, s, dd)
                &&& s > u128::MAX ==> r == Number::NaN
            }),
    {
        let n1: u128 = self.numerator.to_u128();
        let d1: u128 = self.denominator.to_u128();
        let n2: u128 = other.numerator.to_u128();
        let d2: u128 = other.denominator.to_u128();
        proof {
            lemma_mul_fits_u128(n1 as nat, d2 as nat);
            lemma_mul_fits_u128(d1 as nat, n2 as nat);
            lemma_mul_fits_u128(d1 as nat, d2 as nat);
        }
        let p1: u128 = n1 * d2;
        let p2: u128 = d1 * n2;
        if p1 > u128::MAX - p2 {
            Number::NaN
        } else {
            make(p1 + p2, d1 * d2)
        }
    }

    /// Subtraction: the mirror of addition; a cross-product difference that
    /// goes negative is wrapped in the sign wrapper.
    pub fn sub(self, other: Self) -> (r: Number)
        ensures
            ({
                let p1 = self.num_val() * other.den_val();
                let p2 = self.den_val() * other.num_val();
                let dd = self.den_val() * other.den_val();
                &&& p1 >= p2 ==> canon_matches(r, (p1 - p2) as nat, dd)
                &&& p1 < p2 ==> neg_canon_matches(r, (p2 - p1) as nat, dd)
            }),
    {
        let n1: u128 = self.numerator.to_u128();
        let d1: u128 = self.denominator.to_u128();
        let n2: u128 = other.numerator.to_u128();
        let d2: u128 = other.denominator.to_u128();
        proof {
            lemma_mul_fits_u128(n1 as nat, d2 as nat);
            lemma_mul_fits_u128(d1 as nat, n2 as nat);
            lemma_mul_fits_u128(d1 as nat, d2 as nat);
        }
        let p1: u128 = n1 * d2;
        let p2: u128 = d1 * n2;
        if p1 >= p2 {
            make(p1 - p2, d1 * d2)
        } else {
            let inner = make(p2 - p1, d1 * d2);
            proof {
                lemma_neg_canon(inner, (p2 - p1) as nat, (d1 * d2) as nat);
            }
            inner.negate()
        }
    }

    /// Multiplication: `(a.num * b.num) / (a.den * b.den)`, canonicalized by
    /// the division step.
    pub fn mul(self, other: Self) -> (r: Number)
        ensures
            canon_matches(r, self.num_val() * other.num_val(), self.den_val() * other.den_val()),
    {
        let n1: u128 = self.numerator.to_u128();
        let d1: u128 = self.denominator.to_u128();
        let n2: u128 = other.numerator.to_u128();
        let d2: u128 = other.denominator.to_u128();
        proof {
            lemma_mul_fits_u128(n1 as nat, n2 as nat);
            lemma_mul_fits_u128(d1 as nat, d2 as nat);
        }
        make(n1 * n2, d1 * d2)
    }

    /// Division: `(a.num * b.den) / (a.den * b.num)` — multiplication by the
    /// reciprocal, canonicalized by the division step.
    pub fn div(self, other: Self) -> (r: Number)
        ensures
            canon_matches(r, self.num_val() * other.den_val(), self.den_val() * other.num_val()),
    {
        let n1: u128 = self.numerator.to_u128();
        let d1: u128 = self.denominator.to_u128();
        let n2: u128 = other.numerator.to_u128();
        let d2: u128 = other.denominator.to_u128();
        proof {
            lemma_mul_fits_u128(n1 as nat, d2 as nat);
            lemma_mul_fits_u128(d1 as nat, n2 as nat);
        }
        make(n1 * d2, d1 * n2)
    }

    /// Negation wraps the non-negative rational in the sign wrapper; the
    /// rational itself carries no sign.
    pub fn neg(self) -> (r: Number)
        ensures
            r == Number::Negative(Negative::Rational(self)),
    {
        Number::Negative(Negative::Rational(self))
    }

    /// Logical NOT has no meaning for an exact fraction: the sentinel.
    pub fn not(self) -> (r: Number)
        ensures
            r == Number::NaN,
    {
        Number::NaN
    }

    /// Power has no meaning for an exact fraction here: the sentinel.
    pub fn pow(self, _other: Self) -> (r: Number)
        ensures
            r == Number::NaN,
    {
        Number::NaN
    }

    /// Bitwise AND has no meaning for an exact fraction: the sentinel.
    pub fn bitand(self, _other: Self) -> (r: Number)
        ensures
            r == Number::NaN,
    {
        Number::NaN
    }

    /// Bitwise OR has no meaning for an exact fraction: the sentinel.
    pub fn bitor(self, _other: Self) -> (r: Number)
        ensures
            r == Number::NaN,
    {
        Number::NaN
    }

    /// Bitwise XOR has no meaning for an exact fraction: the sentinel.
    pub fn bitxor(self, _other: Self) -> (r: Number)
        ensures
            r == Number::NaN,
    {
        Number::NaN
    }

    /// Shift left has no meaning for an exact fraction: the sentinel.
    pub fn shl(self, _other: Self) -> (r: Number)
        ensures
            r == Number::NaN,
    {
        Number::NaN
    }

    /// Shift right has no meaning for an exact fraction: the sentinel.
    pub fn shr(self, _other: Self) -> (r: Number)
        ensures
            r == Number::NaN,
    {
        Number::NaN
    }

    /// Conversion to the signed primitive form: the truncated quotient of the
    /// parts, or "not representable" when either part is too wide for it.
    /// A zero denominator is excluded: the division would fail hard.
    pub fn to_i64(&self) -> (r: Option<i64>)
        requires
            self.den_val() != 0,
        ensures
            self.num_val() <= i64::MAX && self.den_val() <= i64::MAX ==> (r matches Some(v)
                && v == self.num_val() / self.den_val()),
            self.num_val() > i64::MAX || self.den_val() > i64::MAX ==> r is None,
    {
        let n = self.numerator.to_i64();
        let d = self.denominator.to_i64();
        match (n, d) {
            (Some(x), Some(y)) => {
                proof {
                    lemma_div_nonincreasing(x as int, y as int);
                }
                Some(x / y)
            },
            _ => None,
        }
    }

    /// Conversion to the unsigned primitive form: the truncated quotient of
    /// the parts, always representable for component parts. A zero
    /// denominator is excluded: the division would fail hard.
    pub fn to_u64(&self) -> (r: Option<u64>)
        requires
            self.den_val() != 0,
        ensures
            r matches Some(v) && v as nat == self.num_val() / self.den_val(),
    {
        let n: u128 = self.numerator.to_u128();
        let d: u128 = self.denominator.to_u128();
        proof {
            lemma_div_nonincreasing(n as int, d as int);
        }
        Some((n / d) as u64)
    }
}

/// Canonicalization is idempotent: a pair that canonicalization returns as a
/// rational satisfies one of the rules that return a rational unchanged, so
/// canonicalizing that rational again returns the same pair.
pub proof fn lemma_reduce_idempotent(x: Rational, n: nat, d: nat)
    requires
        canon_matches(Number::Rational(x), n, d),
    ensures
        canon_matches(Number::Rational(x), x.num_val(), x.den_val()),
        x.den_val() == 0 || x.num_val() == 1 || (x.num_val() != 0 && x.den_val() != 1 && gcd(
            x.num_val(),
            x.den_val(),
        ) == 1),
{
    let g = gcd(n, d);
    if d == 0 || n == 1 {
        // the pair is returned unchanged and hits the same rule again
    } else if n == 0 || d == 1 || g == d {
        // these rules return an integer kind, contradicting the hypothesis
        assert(false);
    } else if g == 1 {
        // the pair is returned unchanged and hits the coprime rule again
    } else {
        let nq = n / g;
        let dq = d / g;
        lemma_gcd_pos(n, d);
        lemma_gcd_divides(n, d);
        lemma_fundamental_div_mod(n as int, g as int);
        lemma_fundamental_div_mod(d as int, g as int);
        assert(n == g * nq && d == g * dq);
        assert(nq >= 1 && dq >= 1) by (nonlinear_arith)
            requires
                n == g * nq,
                d == g * dq,
                n > 0,
                d > 0,
        ;
        if dq == 1 {
            assert(d == g) by (nonlinear_arith)
                requires
                    d == g * dq,
                    dq == 1,
            ;
            assert(false);
        }
        lemma_gcd_quotients_coprime(n, d);
        // the pair is (n/g, d/g); its denominator is at least two and its
        // entries are coprime, so the unit-numerator or the coprime rule
        // returns it unchanged
    }
}

/// Canonicalizing `0 / d` gives the integer zero, for every nonzero
/// component-part denominator.
pub proof fn lemma_reduce_zero_numerator(r: Number, d: nat)
    requires
        d != 0,
        canon_matches(r, 0, d),
    ensures
        is_int_val(r, 0),
{
}

/// Canonicalizing `n / 1` gives the integer `n`, for every component-part
/// numerator except the unit: the unit-numerator rule fires first on `1 / 1`
/// and returns the fraction unreduced.
pub proof fn lemma_reduce_whole(r: Number, n: nat)
    requires
        n != 1,
        part_fits(n),
        canon_matches(r, n, 1),
    ensures
        is_int_val(r, n),
{
}

/// Canonicalizing `n / d` when `g = gcd(n, d)` is greater than one and is
/// not `d` itself gives the rational `(n/g) / (d/g)`, whose own gcd is one.
/// (With `g == d` the fraction collapses to an integer instead, and with a
/// zero denominator it is returned unreduced.)
pub proof fn lemma_reduce_by_gcd(r: Number, n: nat, d: nat)
    requires
        d != 0,
        gcd(n, d) > 1,
        gcd(n, d) != d,
        part_fits(n),
        part_fits(d),
        canon_matches(r, n, d),
    ensures
        is_rat_val(r, n / gcd(n, d), d / gcd(n, d)),
        gcd(n / gcd(n, d), d / gcd(n, d)) == 1,
{
    let g = gcd(n, d);
    if n == 0 {
        assert(gcd(0nat, d) == gcd(d, 0nat % d));
        lemma_small_mod(0nat, d);
        assert(gcd(d, 0nat) == d);
        assert(false);
    }
    lemma_gcd_divides(n, d);
    if n == 1 {
        // g divides 1, so g is 1: contradiction
        lemma_small_mod(1nat, g);
        assert(false);
    }
    if d == 1 {
        lemma_small_mod(1nat, g);
        assert(false);
    }
    lemma_div_nonincreasing(n as int, g as int);
    lemma_div_nonincreasing(d as int, g as int);
    lemma_gcd_quotients_coprime(n, d);
}

impl crate::traits::NumberBase for Rational {
    /// A rational carries no sign of its own, so its absolute value is
    /// itself, as a tower result.
    open spec fn abs_ens(self, r: Number) -> bool {
        r == Number::Rational(self)
    }

    /// Floor division: true division canonicalized, then the integer
    /// quotient of what survives. The result is the floor of the quotient of
    /// the raw cross products wherever that is defined and representable;
    /// the sentinel for a zero raw denominator or a canonical form too wide
    /// for the component parts.
    open spec fn div_floor_ens(self, other: Self, r: Number) -> bool {
        let n = self.num_val() * other.den_val();
        let d = self.den_val() * other.num_val();
        if d == 0 || !canon_rep_ok(n, d) {
            r == Number::NaN
        } else {
            is_int_val(r, n / d)
        }
    }

    /// Greatest common divisor has no meaning for an exact fraction at this
    /// layer: the sentinel.
    open spec fn gcd_ens(self, other: Self, r: Number) -> bool {
        r == Number::NaN
    }

    fn abs(self) -> (r: Number) {
        Number::Rational(self)
    }

    fn div_floor(self, other: Self) -> (r: Number) {
        let ghost nn: nat = self.num_val() * other.den_val();
        let ghost dd: nat = self.den_val() * other.num_val();
        let q = self.div(other);
        match q {
            Number::Rational(r1) => {
                proof {
                    lemma_reduce_idempotent(r1, nn, dd);
                }
                let q2 = r1.reduce();
                match q2 {
                    Number::Rational(r2) => {
                        proof {
                            if dd != 0 {
                                lemma_div_basics(nn as int);
                                let g = gcd(nn, dd);
                                if nn != 0 && nn != 1 && dd != 1 && g != 1 && g != dd {
                                    lemma_gcd_pos(nn, dd);
                                    lemma_gcd_divides(nn, dd);
                                    lemma_fundamental_div_mod(dd as int, g as int);
                                    assert(dd == g * (dd / g));
                                    assert(dd / g > 0) by (nonlinear_arith)
                                        requires
                                            dd == g * (dd / g),
                                            dd > 0,
                                    ;
                                    lemma_div_denominator(nn as int, g as int, (dd / g) as int);
                                }
                            }
                        }
                        r2.numerator.div_floor(r2.denominator)
                    },
                    n => {
                        proof {
                            assert(false);
                        }
                        n
                    },
                }
            },
            n => {
                proof {
                    if dd != 0 {
                        lemma_div_basics(nn as int);
                    }
                }
                n
            },
        }
    }

    fn gcd(self, _other: Self) -> (r: Number) {
        Number::NaN
    }
}

/// What the remainder returns: the composition `a - floorDiv(a, b) * b`,
/// computed through the tower's own floor division, multiplication and
/// subtraction.
pub open spec fn rem_ens(a: Rational, b: Rational, r: Number) -> bool {
    exists|q: Number, m: Number|
        {
            &&& a.div_floor_ens(b, q)
            &&& #[trigger] mul_ens(q, Number::Rational(b), m)
            &&& sub_ens(Number::Rational(a), m, r)
        }
}

impl Rational {
    /// Remainder, computed generically at the closed-result level as
    /// `a - floorDiv(a, b) * b`; the formula is shared by every tower member
    /// through the capability contract.
    pub fn rem(self, other: Self) -> (r: Number)
        ensures
            rem_ens(self, other, r),
    {
        let left = Number::Rational(self);
        let right = Number::Rational(other);
        let q = self.div_floor(other);
        let m = q.mul(right);
        let res = left.sub(m);
        proof {
            assert(mul_ens(q, Number::Rational(other), m));
            assert(rem_ens(self, other, res));
        }
        res
    }
}

} // verus!
