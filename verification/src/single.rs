//! Rounding to single precision, in whole numbers.
//!
//! A number that is not negative is given as a count of units, or as a fraction of such counts.
//! Single precision keeps 24 significant bits and rounds to the nearest, of two equally near ones
//! to the even one. The unit has to be small enough that every number but zero comes to at least
//! `2^23` of them.

use vstd::prelude::*;

verus! {

/// One more than the greatest number with as many bits as single precision keeps.
pub const FULL: u64 = 0x100_0000;

/// The whole number nearest to `n / d`; of two equally near ones the even one.
pub open spec fn nearest(n: nat, d: nat) -> nat {
    let q = n / d;
    let r = n % d;
    if 2 * r < d || (2 * r == d && q % 2 == 0) {
        q
    } else {
        q + 1
    }
}

/// `n / d` in single precision.
pub open spec fn single(n: nat, d: nat) -> nat
    decreases n - d,
{
    if d == 0 || n < d * FULL {
        nearest(n, d)
    } else {
        2 * single(n, 2 * d)
    }
}

/// A whole number is at most half of a unit away from what it is nearest to.
proof fn lemma_nearest(n: nat, d: nat)
    requires
        d > 0,
    ensures
        2 * (nearest(n, d) * d) <= 2 * n + d,
        2 * n <= 2 * (nearest(n, d) * d) + d,
        nearest(n, d) == 0 || nearest(n, d) * d <= 2 * n,
{
    let q = n / d;
    let r = n % d;
    assert(n == q * d + r && r < d && (q + 1) * d == q * d + d) by (nonlinear_arith)
        requires
            d > 0,
            q == n / d,
            r == n % d,
    ;
    assert(q * d >= 0) by (nonlinear_arith)
        requires
            q >= 0,
            d > 0,
    ;
    assert(0 * d == 0) by (nonlinear_arith);
}

/// What is at least a whole number does not round to less.
proof fn lemma_nearest_at_least(n: nat, d: nat, m: nat)
    requires
        d > 0,
        n >= m * d,
    ensures
        nearest(n, d) >= m,
{
    assert(n / d >= m) by (nonlinear_arith)
        requires
            d > 0,
            n >= m * d,
    ;
}

/// What is below a whole number does not round to more.
proof fn lemma_nearest_at_most(n: nat, d: nat, m: nat)
    requires
        d > 0,
        n <= m * d,
    ensures
        nearest(n, d) <= m,
{
    let q = n / d;
    let r = n % d;
    if q >= m {
        assert(q == m && r == 0) by (nonlinear_arith)
            requires
                d > 0,
                n <= m * d,
                q == n / d,
                r == n % d,
                q >= m,
        ;
    }
}

proof fn lemma_nearest_grows(a: nat, b: nat, d: nat)
    requires
        d > 0,
        a <= b,
    ensures
        nearest(a, d) <= nearest(b, d),
{
    let q = a / d;
    assert(q <= b / d) by (nonlinear_arith)
        requires
            d > 0,
            a <= b,
            q == a / d,
    ;
    if q == b / d {
        assert(a % d <= b % d) by (nonlinear_arith)
            requires
                d > 0,
                a <= b,
                a / d == b / d,
        ;
    }
}

/// What is at least a whole number of up to 24 bits does not become less.
proof fn lemma_single_at_least(n: nat, d: nat, m: nat)
    requires
        d > 0,
        m <= FULL,
        n >= m * d,
    ensures
        single(n, d) >= m,
    decreases n - d,
{
    if n < d * FULL {
        lemma_nearest_at_least(n, d, m);
    } else {
        let half: nat = (FULL / 2) as nat;
        assert(half * (2 * d) == d * FULL) by (nonlinear_arith)
            requires
                half == 0x80_0000,
                FULL == 0x100_0000,
        ;
        lemma_single_at_least(n, 2 * d, half);
    }
}

/// A greater number does not become the lesser one.
pub proof fn lemma_single_grows(a: nat, b: nat, d: nat)
    requires
        d > 0,
        a <= b,
    ensures
        single(a, d) <= single(b, d),
    decreases b - d,
{
    if b < d * FULL {
        lemma_nearest_grows(a, b, d);
    } else if a < d * FULL {
        lemma_nearest_at_most(a, d, FULL as nat);
        assert(FULL as nat * d == d * FULL) by (nonlinear_arith);
        lemma_single_at_least(b, d, FULL as nat);
    } else {
        lemma_single_grows(a, b, 2 * d);
    }
}

/// Rounding at most doubles a number.
pub proof fn lemma_single_at_most(n: nat, d: nat)
    requires
        d > 0,
    ensures
        single(n, d) * d <= 2 * n,
    decreases n - d,
{
    if n < d * FULL {
        lemma_nearest(n, d);
        assert(0 * d == 0) by (nonlinear_arith);
    } else {
        lemma_single_at_most(n, 2 * d);
        let s = single(n, 2 * d);
        assert((2 * s) * d == s * (2 * d)) by (nonlinear_arith);
    }
}

/// Rounding takes less than a thousandth of a number of at least 512 units.
pub proof fn lemma_single_is_near(n: nat, d: nat)
    requires
        d > 0,
        n >= 512 * d,
    ensures
        1024 * (single(n, d) * d) >= 1023 * n,
    decreases n - d,
{
    if n < d * FULL {
        lemma_nearest(n, d);
    } else {
        lemma_single_is_near(n, 2 * d);
        let s = single(n, 2 * d);
        assert((2 * s) * d == s * (2 * d)) by (nonlinear_arith);
    }
}

/// `n / d` in single precision.
pub fn round_to_single(n: u64, d: u64) -> (r: u64)
    requires
        0 < d <= 0x100_0000_0000,
        n <= 0x1000_0000_0000_0000,
    ensures
        r == single(n as nat, d as nat),
        r * d <= 2 * n,
    decreases n - d,
{
    let q: u64 = n / d;
    let rest: u64 = n % d;
    proof {
        lemma_single_at_most(n as nat, d as nat);
        assert(n < d * FULL <==> q < FULL) by (nonlinear_arith)
            requires
                d > 0,
                q == n / d,
                FULL == 0x100_0000,
        ;
        assert(n == q * d + rest && rest < d) by (nonlinear_arith)
            requires
                d > 0,
                q == n / d,
                rest == n % d,
        ;
    }
    if q < FULL {
        if 2 * rest < d || (2 * rest == d && q % 2 == 0) {
            q
        } else {
            q + 1
        }
    } else {
        let half = round_to_single(n, 2 * d);
        assert(half <= half * (2 * d)) by (nonlinear_arith)
            requires
                half >= 0,
                d > 0,
        ;
        2 * half
    }
}

/// Rounding moves a number of at least `2^23` units by no more than a `2^24`th of it.
pub proof fn law_rounding_is_close(n: nat, d: nat)
    requires
        d > 0,
        n >= 0x80_0000 * d,
    ensures
        0x100_0000 * (single(n, d) * d) <= 0x100_0000 * n + n,
        0x100_0000 * n <= 0x100_0000 * (single(n, d) * d) + n,
    decreases n - d,
{
    if n < d * FULL {
        lemma_nearest(n, d);
    } else {
        law_rounding_is_close(n, 2 * d);
        let s = single(n, 2 * d);
        assert((2 * s) * d == s * (2 * d)) by (nonlinear_arith);
    }
}

/// A number of at most 24 bits is kept as it is, and doubling a number doubles what it rounds to
/// once it has more.
pub proof fn law_whole_numbers_of_24_bits_are_kept(n: nat)
    ensures
        n <= 0xff_ffff ==> single(n, 1) == n,
        n >= 0x80_0000 ==> single(2 * n, 1) == 2 * single(n, 1),
{
    if n >= 0x80_0000 {
        lemma_single_doubles(n, 1);
    }
}

proof fn lemma_single_doubles(n: nat, d: nat)
    requires
        d > 0,
        2 * n >= d * FULL,
    ensures
        single(2 * n, d) == 2 * single(n, d),
    decreases n - d,
{
    assert(single(2 * n, d) == 2 * single(2 * n, 2 * d));
    lemma_single_scales(n, d);
}

proof fn lemma_single_scales(n: nat, d: nat)
    requires
        d > 0,
    ensures
        single(2 * n, 2 * d) == single(n, d),
    decreases n - d,
{
    if n < d * FULL {
        assert((2 * n) / (2 * d) == n / d && (2 * n) % (2 * d) == 2 * (n % d)) by (nonlinear_arith)
            requires
                d > 0,
        ;
    } else {
        lemma_single_scales(n, 2 * d);
    }
}

/// Rounding goes to the nearest whole number of units, and between two to the even one.
pub proof fn law_rounding_goes_to_the_nearest(n: nat, d: nat, q: nat)
    requires
        d > 0,
        n < d * FULL,
    ensures
        2 * n < (2 * q + 1) * d && 2 * n + d > 2 * (q * d) ==> single(n, d) == q,
        2 * n == (2 * q + 1) * d ==> single(n, d) == (if q % 2 == 0 {
            q
        } else {
            q + 1
        }),
{
    let w = n / d;
    let r = n % d;
    assert(n == w * d + r && r < d) by (nonlinear_arith)
        requires
            d > 0,
            w == n / d,
            r == n % d,
    ;
    if 2 * n == (2 * q + 1) * d {
        assert(w == q && 2 * r == d) by (nonlinear_arith)
            requires
                n == w * d + r,
                r < d,
                2 * n == (2 * q + 1) * d,
                d > 0,
        ;
    } else if 2 * n < (2 * q + 1) * d && 2 * n + d > 2 * (q * d) {
        if 2 * r < d {
            assert(w == q) by (nonlinear_arith)
                requires
                    n == w * d + r,
                    0 <= r,
                    2 * r < d,
                    2 * n < (2 * q + 1) * d,
                    2 * n + d > 2 * (q * d),
                    d > 0,
            ;
        } else if 2 * r == d {
            assert(w + 1 == q || w == q) by (nonlinear_arith)
                requires
                    n == w * d + r,
                    2 * r == d,
                    2 * n < (2 * q + 1) * d,
                    2 * n + d > 2 * (q * d),
                    d > 0,
            ;
            assert(false) by (nonlinear_arith)
                requires
                    n == w * d + r,
                    2 * r == d,
                    2 * n < (2 * q + 1) * d,
                    2 * n + d > 2 * (q * d),
                    d > 0,
                    w + 1 == q || w == q,
            ;
        } else {
            assert(w + 1 == q) by (nonlinear_arith)
                requires
                    n == w * d + r,
                    r < d,
                    2 * r > d,
                    2 * n < (2 * q + 1) * d,
                    2 * n + d > 2 * (q * d),
                    d > 0,
            ;
        }
    }
}

} // verus!
