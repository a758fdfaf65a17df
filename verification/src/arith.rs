//! Greatest-common-divisor arithmetic shared by the component parts and by
//! canonicalization: the mathematical `gcd`, its divisibility facts, and an
//! executable Euclidean algorithm proved against them.

use vstd::prelude::*;

verus! {

use vstd::arithmetic::div_mod::{
    lemma_fundamental_div_mod, lemma_mod_multiples_basic, lemma_mod_self_0, lemma_small_mod,
};

/// Greatest common divisor by Euclid's rule, with the conventions
/// `gcd(a, 0) == a` and `gcd(0, b) == b`.
pub open spec fn gcd(a: nat, b: nat) -> nat
    decreases b,
{
    if b == 0 {
        a
    } else {
        gcd(b, a % b)
    }
}

/// `gcd` of two numbers is positive as soon as one of them is.
pub proof fn lemma_gcd_pos(a: nat, b: nat)
    requires
        a > 0 || b > 0,
    ensures
        gcd(a, b) > 0,
    decreases b,
{
    if b != 0 {
        lemma_gcd_pos(b, a % b);
    }
}

/// `gcd(a, b)` divides both `a` and `b`.
pub proof fn lemma_gcd_divides(a: nat, b: nat)
    requires
        a > 0 || b > 0,
    ensures
        gcd(a, b) > 0,
        a % gcd(a, b) == 0,
        b % gcd(a, b) == 0,
    decreases b,
{
    lemma_gcd_pos(a, b);
    if b == 0 {
        lemma_mod_self_0(a as int);
        lemma_small_mod(0nat, a);
    } else {
        let g = gcd(a, b);
        let r = a % b;
        lemma_gcd_divides(b, r);
        assert(g == gcd(b, r));
        lemma_fundamental_div_mod(a as int, b as int);
        lemma_fundamental_div_mod(b as int, g as int);
        lemma_fundamental_div_mod(r as int, g as int);
        let q: int = a as int / b as int;
        assert(a as int == (g as int) * ((b as int / g as int) * q + (r as int / g as int)))
            by (nonlinear_arith)
            requires
                a as int == (b as int) * q + r as int,
                b as int == (g as int) * (b as int / g as int) + 0,
                r as int == (g as int) * (r as int / g as int) + 0,
        ;
        lemma_mod_multiples_basic((b as int / g as int) * q + (r as int / g as int), g as int);
    }
}

/// Any common divisor of `a` and `b` divides `gcd(a, b)`.
pub proof fn lemma_gcd_greatest(a: nat, b: nat, c: nat)
    requires
        c > 0,
        a % c == 0,
        b % c == 0,
    ensures
        gcd(a, b) % c == 0,
    decreases b,
{
    if b == 0 {
    } else {
        let r = a % b;
        lemma_fundamental_div_mod(a as int, b as int);
        lemma_fundamental_div_mod(a as int, c as int);
        lemma_fundamental_div_mod(b as int, c as int);
        let q: int = a as int / b as int;
        assert(r as int == (c as int) * (a as int / c as int - (b as int / c as int) * q))
            by (nonlinear_arith)
            requires
                r as int == a as int - (b as int) * q,
                a as int == (c as int) * (a as int / c as int) + 0,
                b as int == (c as int) * (b as int / c as int) + 0,
        ;
        lemma_mod_multiples_basic(a as int / c as int - (b as int / c as int) * q, c as int);
        lemma_gcd_greatest(b, r, c);
    }
}

/// Dividing both numbers by their `gcd` leaves quotients whose own `gcd` is 1.
pub proof fn lemma_gcd_quotients_coprime(a: nat, b: nat)
    requires
        a > 0 || b > 0,
    ensures
        gcd(a / gcd(a, b), b / gcd(a, b)) == 1,
    decreases 0nat,
{
    let g = gcd(a, b);
    lemma_gcd_divides(a, b);
    lemma_fundamental_div_mod(a as int, g as int);
    lemma_fundamental_div_mod(b as int, g as int);
    let aq = a / g;
    let bq = b / g;
    assert(a == g * aq && b == g * bq);
    assert(aq > 0 || bq > 0) by (nonlinear_arith)
        requires
            a == g * aq,
            b == g * bq,
            a > 0 || b > 0,
    ;
    let h = gcd(aq, bq);
    lemma_gcd_divides(aq, bq);
    lemma_fundamental_div_mod(aq as int, h as int);
    lemma_fundamental_div_mod(bq as int, h as int);
    if h != 1 {
        // Then g * h is a common divisor of a and b that is larger than g.
        assert(h >= 2);
        assert(g * h > 0) by (nonlinear_arith)
            requires
                g > 0,
                h >= 2,
        ;
        assert(a as int == (aq as int / h as int) * ((g * h) as int)) by (nonlinear_arith)
            requires
                a == g * aq,
                aq as int == (h as int) * (aq as int / h as int) + 0,
        ;
        assert(b as int == (bq as int / h as int) * ((g * h) as int)) by (nonlinear_arith)
            requires
                b == g * bq,
                bq as int == (h as int) * (bq as int / h as int) + 0,
        ;
        lemma_mod_multiples_basic(aq as int / h as int, (g * h) as int);
        lemma_mod_multiples_basic(bq as int / h as int, (g * h) as int);
        assert(a % (g * h) == 0 && b % (g * h) == 0);
        lemma_gcd_greatest(a, b, g * h);
        assert(g % (g * h) == 0);
        assert(g < g * h) by (nonlinear_arith)
            requires
                g > 0,
                h >= 2,
        ;
        lemma_small_mod(g, g * h);
        assert(false);
    }
}

/// A positive divisor is no larger than what it divides; hence `gcd` is
/// bounded by its second argument whenever that argument is positive.
pub proof fn lemma_gcd_le(a: nat, b: nat)
    requires
        b > 0,
    ensures
        gcd(a, b) <= b,
{
    lemma_gcd_divides(a, b);
    let g = gcd(a, b);
    if g > b {
        lemma_small_mod(b, g);
    }
}

/// The product of two values of the component-part domain fits the word
/// width all intermediates are computed in.
pub proof fn lemma_mul_fits_u128(a: nat, b: nat)
    requires
        a <= u64::MAX,
        b <= u64::MAX,
    ensures
        a * b <= (u64::MAX as nat) * (u64::MAX as nat),
        a * b <= u128::MAX,
{
    assert(a * b <= (u64::MAX as nat) * (u64::MAX as nat)) by (nonlinear_arith)
        requires
            a <= u64::MAX,
            b <= u64::MAX,
    ;
}

/// Euclid's algorithm on machine words, proved equal to the mathematical `gcd`.
pub fn gcd_u128(a: u128, b: u128) -> (g: u128)
    ensures
        g as nat == gcd(a as nat, b as nat),
{
    let mut x: u128 = a;
    let mut y: u128 = b;
    while y != 0
        invariant
            gcd(x as nat, y as nat) == gcd(a as nat, b as nat),
        decreases y,
    {
        let t: u128 = x % y;
        x = y;
        y = t;
    }
    x
}

} // verus!
