//! Arithmetic, ordering and conversions on rationals and their parts.

use core::cmp::Ordering;
use number::number::{Base, Natural, Negative, Number};
use number::rational::{Part, Rational};
use number::traits::NumberBase;

fn whole(v: u32) -> Number {
    Number::Base(Base::new(v))
}

fn rat(n: u64, d: u64) -> Rational {
    Rational::from((n, d))
}

#[test]
fn ordering_follows_cross_multiplication() {
    assert!(rat(1, 2) < rat(2, 3));
    assert!(rat(3, 4) > rat(2, 3));
    assert_eq!(rat(1, 2).cmp(&rat(2, 4)), Ordering::Equal);
    assert_eq!(rat(1, 2).partial_cmp(&rat(2, 4)), Some(Ordering::Equal));
    // ... although the two are structurally unequal.
    assert_ne!(rat(1, 2), rat(2, 4));
}

#[test]
fn addition_canonicalizes() {
    assert_eq!(rat(1, 2).add(rat(1, 3)), Number::Rational(rat(5, 6)));
    assert_eq!(rat(1, 4).add(rat(1, 4)), Number::Rational(rat(1, 2)));
    assert_eq!(rat(1, 2).add(rat(1, 2)), whole(1));
}

#[test]
fn multiplication_cross_cancels() {
    assert_eq!(rat(2, 3).mul(rat(3, 4)), Number::Rational(rat(1, 2)));
    assert_eq!(rat(2, 3).mul(rat(3, 2)), whole(1));
}

#[test]
fn subtraction_wraps_negative_results() {
    assert_eq!(rat(1, 2).sub(rat(1, 3)), Number::Rational(rat(1, 6)));
    assert_eq!(
        rat(1, 3).sub(rat(1, 2)),
        Number::Negative(Negative::Rational(rat(1, 6)))
    );
    assert_eq!(rat(1, 2).sub(rat(1, 2)), whole(0));
}

#[test]
fn division_multiplies_by_the_reciprocal() {
    assert_eq!(rat(1, 2).div(rat(1, 3)), Number::Rational(rat(3, 2)));
    assert_eq!(rat(1, 2).div(rat(1, 2)), whole(1));
    // Dividing by the zero fraction quietly yields a zero-denominator
    // rational, as canonicalization leaves such pairs unreduced.
    assert_eq!(rat(1, 2).div(rat(0, 1)), Number::Rational(rat(1, 0)));
}

#[test]
fn invalid_operations_return_the_sentinel() {
    assert_eq!(rat(1, 2).bitand(rat(1, 3)), Number::NaN);
    assert_eq!(rat(1, 2).bitor(rat(1, 3)), Number::NaN);
    assert_eq!(rat(1, 2).bitxor(rat(1, 3)), Number::NaN);
    assert_eq!(rat(1, 2).shl(rat(1, 3)), Number::NaN);
    assert_eq!(rat(1, 2).shr(rat(1, 3)), Number::NaN);
    assert_eq!(rat(1, 2).pow(rat(1, 3)), Number::NaN);
    assert_eq!(rat(1, 2).not(), Number::NaN);
}

#[test]
fn negation_wraps_in_the_sign_wrapper() {
    assert_eq!(
        rat(1, 2).neg(),
        Number::Negative(Negative::Rational(rat(1, 2)))
    );
}

#[test]
fn abs_and_gcd_capability() {
    assert_eq!(NumberBase::abs(rat(1, 2)), Number::Rational(rat(1, 2)));
    assert_eq!(NumberBase::gcd(rat(1, 2), rat(1, 3)), Number::NaN);
}

#[test]
fn floor_division_of_fractions() {
    assert_eq!(NumberBase::div_floor(rat(7, 2), Rational::from(1u64)), whole(3));
    assert_eq!(NumberBase::div_floor(rat(7, 2), rat(1, 2)), whole(7));
    assert_eq!(NumberBase::div_floor(rat(1, 2), rat(2, 3)), whole(0));
    // A zero raw denominator is the sentinel.
    assert_eq!(NumberBase::div_floor(rat(1, 2), rat(0, 3)), Number::NaN);
}

#[test]
fn remainder_composes_the_tower_operators() {
    assert_eq!(rat(7, 2).rem(Rational::from(1u64)), Number::Rational(rat(1, 2)));
    assert_eq!(rat(5, 6).rem(rat(1, 3)), Number::Rational(rat(1, 6)));
    assert_eq!(rat(1, 2).rem(rat(1, 2)), whole(0));
}

#[test]
fn too_wide_results_are_the_sentinel() {
    // The raw numerator survives canonicalization but fits no integer kind.
    let wide = rat(u64::MAX, 1);
    assert_eq!(wide.mul(rat(u64::MAX, 1)), Number::NaN);
    assert_eq!(wide.add(wide), Number::NaN);
}

#[test]
fn comparison_against_integer_literals() {
    assert_eq!(rat(7, 2).cmp_u64(3), Some(Ordering::Greater));
    assert_eq!(rat(7, 2).cmp_u64(4), Some(Ordering::Less));
    assert_eq!(rat(8, 2).cmp_u64(4), Some(Ordering::Equal));
    // Structural equality against a literal is always false.
    assert!(!rat(8, 2).eq_u64(4));
    assert!(!rat(4, 1).eq_u64(4));
}

#[test]
fn conversions_to_primitive_forms() {
    assert_eq!(rat(7, 2).to_u64(), Some(3));
    assert_eq!(rat(7, 2).to_i64(), Some(3));
    assert_eq!(rat(1, 3).to_u64(), Some(0));
    assert_eq!(rat(u64::MAX, 1).to_i64(), None);
}

#[test]
fn part_multiplication_promotes() {
    assert_eq!(Part::from(6u64).mul(Part::from(7u64)), whole(42));
    let wide = 5_000_000_000u64;
    assert_eq!(
        Part::from(wide).mul(Part::from(1u64)),
        Number::Natural(Natural::new(wide))
    );
    assert_eq!(Part::from(u64::MAX).mul(Part::from(2u64)), Number::NaN);
}

#[test]
fn part_floor_division() {
    assert_eq!(Part::from(7u64).div_floor(Part::from(2u64)), whole(3));
    assert_eq!(Part::from(2u64).div_floor(Part::from(7u64)), whole(0));
    assert_eq!(Part::from(7u64).div_floor(Part::from(0u64)), Number::NaN);
}

#[test]
fn part_gcd_convention() {
    assert_eq!(Part::from(12u64).gcd(Part::from(18u64)), whole(6));
    assert_eq!(Part::from(0u64).gcd(Part::from(5u64)), whole(5));
    assert_eq!(Part::from(5u64).gcd(Part::from(0u64)), whole(5));
}

#[test]
fn part_construction_demotes_small_values() {
    assert_eq!(Part::from(5u64), Part::Base(Base::new(5)));
    let wide = 5_000_000_000u64;
    assert_eq!(Part::from(wide), Part::Natural(Natural::new(wide)));
    assert_eq!(Part::from(Base::new(9)), Part::Base(Base::new(9)));
}

#[test]
fn part_literal_comparison_and_primitives() {
    assert!(Part::from(0u64).eq_u64(0));
    assert!(!Part::from(2u64).eq_u64(0));
    assert_eq!(Part::from(7u64).to_u64(), Some(7));
    assert_eq!(Part::from(7u64).to_i64(), Some(7));
    assert_eq!(Part::from(u64::MAX).to_i64(), None);
    assert_eq!(Part::from(u64::MAX).to_u64(), Some(u64::MAX));
}

#[test]
fn narrowing_a_number_to_a_part() {
    assert_eq!(Part::try_from(whole(3)), Ok(Part::Base(Base::new(3))));
    let wide = 5_000_000_000u64;
    assert_eq!(
        Part::try_from(Number::Natural(Natural::new(wide))),
        Ok(Part::Natural(Natural::new(wide)))
    );
    assert_eq!(
        Part::try_from(Number::Rational(rat(1, 2))),
        Err("invalid number type")
    );
    assert_eq!(Part::try_from(Number::NaN), Err("invalid number type"));
    assert_eq!(
        Part::try_from(Number::Negative(Negative::Base(Base::new(1)))),
        Err("invalid number type")
    );
}

#[test]
fn tower_multiplication_and_subtraction() {
    assert_eq!(whole(2).mul(Number::Rational(rat(1, 2))), whole(1));
    assert_eq!(
        Number::Negative(Negative::Base(Base::new(2))).mul(whole(3)),
        Number::Negative(Negative::Base(Base::new(6)))
    );
    assert_eq!(whole(2).sub(whole(5)), Number::Negative(Negative::Base(Base::new(3))));
    assert_eq!(
        Number::Rational(rat(1, 2)).sub(Number::NaN),
        Number::NaN
    );
    assert_eq!(Number::Imag.mul(whole(2)), Number::NaN);
    assert_eq!(
        Number::Negative(Negative::Base(Base::new(1))).sub(whole(1)),
        Number::Negative(Negative::Base(Base::new(2)))
    );
}

#[test]
fn conversions_between_kinds() {
    let wide = 5_000_000_000u64;
    assert_eq!(
        Part::from(Natural::new(wide)),
        Part::Natural(Natural::new(wide))
    );
    assert_eq!(Number::from(Part::from(3u64)), whole(3));
    assert_eq!(
        Number::from(Part::from(wide)),
        Number::Natural(Natural::new(wide))
    );
}

#[test]
fn tower_negation() {
    assert_eq!(whole(3).negate(), Number::Negative(Negative::Base(Base::new(3))));
    assert_eq!(
        Number::Negative(Negative::Base(Base::new(3))).negate(),
        whole(3)
    );
    assert_eq!(Number::NaN.negate(), Number::NaN);
    assert_eq!(Number::Rational(rat(1, 2)).negate(), rat(1, 2).neg());
}
