//! Number-theoretic groundwork: the greatest common divisor, primality, and
//! the facts about modular inverses that the field construction rests on.

use vstd::arithmetic::div_mod::{
    lemma_fundamental_div_mod, lemma_mod_self_0, lemma_mul_mod_noop_left, lemma_mul_mod_noop_right,
    lemma_small_mod,
};
use vstd::prelude::*;

verus! {

/// Greatest common divisor of two natural numbers, by the Euclidean recurrence.
pub open spec fn gcd(a: nat, b: nat) -> nat
    decreases b,
{
    if b == 0 {
        a
    } else {
        gcd(b, a % b)
    }
}

/// `n` is prime: at least 2, with no divisor strictly between 1 and itself.
pub open spec fn is_prime(n: int) -> bool {
    &&& 2 <= n
    &&& forall|d: int| 2 <= d < n ==> #[trigger] (n % d) != 0
}

/// A positive multiple of a positive `d` is at least `d`.
pub proof fn lemma_divisor_le(d: int, x: int)
    requires
        0 < d,
        0 < x,
        x % d == 0,
    ensures
        d <= x,
{
    lemma_fundamental_div_mod(x, d);
    let q = x / d;
    assert(x == d * q);
    assert(q >= 1) by (nonlinear_arith)
        requires
            d * q > 0,
            d > 0,
    ;
    assert(d * 1 <= d * q) by (nonlinear_arith)
        requires
            d > 0,
            1 <= q,
    ;
}

/// The gcd of `a > 0` and `b` is positive and divides both.
pub proof fn lemma_gcd_divides(a: nat, b: nat)
    requires
        a > 0,
    ensures
        gcd(a, b) > 0,
        a % gcd(a, b) == 0,
        b % gcd(a, b) == 0,
    decreases b,
{
    if b == 0 {
        lemma_mod_self_0(a as int);
        lemma_small_mod(0, a);
    } else {
        let r = a % b;
        lemma_gcd_divides(b, r);
        let g = gcd(b, r);
        assert(gcd(a, b) == g);
        lemma_fundamental_div_mod(a as int, b as int);
        lemma_fundamental_div_mod(b as int, g as int);
        lemma_fundamental_div_mod(r as int, g as int);
        let q = a as int / b as int;
        let mb = b as int / g as int;
        let mr = r as int / g as int;
        assert(a as int == g as int * (q * mb + mr)) by (nonlinear_arith)
            requires
                a as int == b as int * q + r,
                b as int == g as int * mb,
                r as int == g as int * mr,
        ;
        lemma_mod_of_multiple(a as int, q * mb + mr, g as int);
    }
}

/// A multiple of `m > 0` leaves remainder 0.
pub proof fn lemma_mod_of_multiple(x: int, k: int, m: int)
    requires
        m > 0,
        x == m * k,
    ensures
        x % m == 0,
{
    assert(x % m == 0) by (nonlinear_arith)
        requires
            m > 0,
            x == m * k,
    ;
}

/// No multiple of a proper divisor of `base` is congruent to 1 modulo `base`.
pub proof fn lemma_divisor_not_invertible(base: int, d: int, v: int)
    requires
        2 <= d < base,
        base % d == 0,
        0 <= v,
    ensures
        (d * v) % base != 1,
{
    if (d * v) % base == 1 {
        lemma_fundamental_div_mod(d * v, base);
        lemma_fundamental_div_mod(base, d);
        let k = d * v / base;
        let m = base / d;
        let t = v - m * k;
        assert(d * t == 1) by (nonlinear_arith)
            requires
                d * v == base * k + 1,
                base == d * m,
                t == v - m * k,
        ;
        assert(false) by (nonlinear_arith)
            requires
                d * t == 1,
                d >= 2,
        ;
    }
}

/// Modular inverses are unique among the reduced representatives: `x` equals
/// `x * (a * y) mod base`, which regroups to `(x * a) * y mod base`, that is `y`.
pub proof fn lemma_inverse_unique(base: int, a: int, x: int, y: int)
    requires
        2 <= base,
        0 <= x < base,
        0 <= y < base,
        (a * x) % base == 1,
        (a * y) % base == 1,
    ensures
        x == y,
{
    lemma_small_mod(x as nat, base as nat);
    lemma_small_mod(y as nat, base as nat);
    assert(x * 1 == x) by (nonlinear_arith);
    lemma_mul_mod_noop_right(x, a * y, base);
    assert(x * (a * y) == (x * a) * y) by (nonlinear_arith);
    lemma_mul_mod_noop_left(x * a, y, base);
    assert(x * a == a * x) by (nonlinear_arith);
    assert(1 * y == y) by (nonlinear_arith);
}

/// Multiplying by an inverse of `b` and then by `b` gives back the start value.
pub proof fn lemma_mul_inverse_cancels(base: int, a: int, b: int, ib: int)
    requires
        2 <= base,
        0 <= a < base,
        (b * ib) % base == 1,
    ensures
        ((a * ib) % base * b) % base == a,
{
    lemma_mul_mod_noop_left(a * ib, b, base);
    assert((a * ib) * b == a * (ib * b)) by (nonlinear_arith);
    lemma_mul_mod_noop_right(a, ib * b, base);
    assert(ib * b == b * ib) by (nonlinear_arith);
    assert(a * 1 == a) by (nonlinear_arith);
    lemma_small_mod(a as nat, base as nat);
}

} // verus!
