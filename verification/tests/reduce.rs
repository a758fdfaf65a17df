//! Canonicalization behavior on concrete fractions.

use number::number::{Base, Natural, Number};
use number::rational::{Part, Rational};

fn whole(v: u32) -> Number {
    Number::Base(Base::new(v))
}

#[test]
fn reduce_zero_numerator_is_integer_zero() {
    let r = Rational::from((0u64, 5u64));
    assert_eq!(r.reduce(), whole(0));
    let r = Rational::from((0u64, 1u64));
    assert_eq!(r.reduce(), whole(0));
    let r = Rational::from((0u64, u64::MAX));
    assert_eq!(r.reduce(), whole(0));
}

#[test]
fn reduce_unit_denominator_is_the_integer() {
    let r = Rational::from((7u64, 1u64));
    assert_eq!(r.reduce(), whole(7));
    let r = Rational::from(9u64);
    assert_eq!(r.reduce(), whole(9));
    let wide = 5_000_000_000u64;
    let r = Rational::from((wide, 1u64));
    assert_eq!(r.reduce(), Number::Natural(Natural::new(wide)));
}

#[test]
fn reduce_unit_numerator_is_returned_unchanged() {
    // The unit-numerator rule fires before the unit-denominator rule, so
    // even 1/1 stays a fraction.
    let r = Rational::from((1u64, 1u64));
    assert_eq!(r.reduce(), Number::Rational(Rational::from((1u64, 1u64))));
    let r = Rational::from((1u64, 3u64));
    assert_eq!(r.reduce(), Number::Rational(Rational::from((1u64, 3u64))));
}

#[test]
fn reduce_by_gcd_gives_lowest_terms() {
    let r = Rational::from((4u64, 6u64));
    assert_eq!(r.reduce(), Number::Rational(Rational::from((2u64, 3u64))));
    let r = Rational::from((6u64, 4u64));
    assert_eq!(r.reduce(), Number::Rational(Rational::from((3u64, 2u64))));
    // The reduced pair is coprime.
    assert_eq!(Part::from(2u64).gcd(Part::from(3u64)), whole(1));
}

#[test]
fn reduce_is_idempotent_on_canonical_fractions() {
    let first = Rational::from((4u64, 6u64)).reduce();
    let Number::Rational(once) = first else {
        panic!("expected a rational");
    };
    assert_eq!(once.reduce(), Number::Rational(once));
    let Number::Rational(coprime) = Rational::from((3u64, 7u64)).reduce() else {
        panic!("expected a rational");
    };
    assert_eq!(coprime.reduce(), Number::Rational(coprime));
}

#[test]
fn reduce_collapses_whole_fraction_to_integer() {
    let r = Rational::from((4u64, 2u64));
    assert_eq!(r.reduce(), whole(2));
    let r = Rational::from((12u64, 3u64));
    assert_eq!(r.reduce(), whole(4));
}

#[test]
fn reduce_zero_denominator_is_returned_unchanged() {
    let r = Rational::from((1u64, 0u64));
    assert_eq!(r.reduce(), Number::Rational(Rational::from((1u64, 0u64))));
    let r = Rational::from((5u64, 0u64));
    assert_eq!(r.reduce(), Number::Rational(Rational::from((5u64, 0u64))));
}

#[test]
fn reduce_already_coprime_is_returned_unchanged() {
    let r = Rational::from((3u64, 7u64));
    assert_eq!(r.reduce(), Number::Rational(Rational::from((3u64, 7u64))));
}
