//! Numbers of single precision: 24 significant bits, each result rounded to the
//! nearest such number, a tie to the one whose last bit is zero.
//!
//! A number is given as a multiple of 2^-27. Numbers down to that size and
//! without an upper limit are covered, which is all that scrolling needs.

use vstd::arithmetic::power2::{
    lemma2_to64, lemma2_to64_rest, lemma_pow2_adds, lemma_pow2_pos, lemma_pow2_strictly_increases, lemma_pow2_unfold,
    pow2,
};
use vstd::prelude::*;

verus! {

/// The number one, as a multiple of 2^-27.
pub const ONE: i128 = 0x800_0000;

/// The first whole number with more than 24 bits.
pub const TOO_LONG: i128 = 0x100_0000;

/// The largest number that can be rounded here, as a multiple of 2^-27.
pub const LARGEST: i128 = 0x8_0000_0000_0000_0000_0000_0000_0000;

/// By how many bits a whole number is longer than 24 bits.
pub open spec fn excess(n: nat) -> nat
    decreases n,
{
    if n < TOO_LONG {
        0
    } else {
        1 + excess(n / 2)
    }
}

/// The whole number nearest to `n / d`; of two, the even one.
pub open spec fn nearest(n: nat, d: nat) -> nat {
    let (q, rest) = (n / d, n % d);
    if 2 * rest < d || (2 * rest == d && q % 2 == 0) {
        q
    } else {
        q + 1
    }
}

/// The distance between two neighbouring numbers of single precision around
/// `n / d`.
pub open spec fn spacing(n: nat, d: nat) -> nat {
    pow2(excess(n / d))
}

/// The number of single precision nearest to `n / d`, where that is not
/// negative.
pub open spec fn rounded(n: nat, d: nat) -> nat {
    nearest(n, d * spacing(n, d)) * spacing(n, d)
}

/// The number of single precision nearest to `n / d`.
pub open spec fn single(n: int, d: nat) -> int {
    if n >= 0 {
        rounded(n as nat, d) as int
    } else {
        -rounded((-n) as nat, d)
    }
}

/// The size of `n`.
pub open spec fn size(n: int) -> nat {
    if n >= 0 {
        n as nat
    } else {
        (-n) as nat
    }
}

/// A number that is too long has exactly 24 bits more than its excess.
proof fn lemma_excess(n: nat)
    ensures
        n < pow2(excess(n) + 24),
        excess(n) > 0 ==> pow2((excess(n) + 23) as nat) <= n,
    decreases n,
{
    lemma2_to64();
    if n >= TOO_LONG {
        lemma_excess(n / 2);
        let e = excess(n / 2);
        lemma_pow2_unfold((e + 25) as nat);
        lemma_pow2_unfold((e + 24) as nat);
    }
}

/// Rounding does not lead past a power of two.
pub proof fn lemma_rounded_within(n: nat, d: nat, k: nat)
    requires
        d > 0,
        k >= 24,
        n / d < pow2(k),
    ensures
        rounded(n, d) <= pow2(k),
        excess(n / d) <= k,
{
    let e = excess(n / d);
    let u = pow2(e);
    lemma_excess(n / d);
    if e > k {
        lemma_pow2_strictly_increases(k, (e + 23) as nat);
    }
    let c = pow2((k - e) as nat);
    lemma_pow2_adds(e, (k - e) as nat);
    lemma_pow2_pos(e);
    assert(n < d * (u * c)) by (nonlinear_arith)
        requires
            d > 0,
            n / d < u * c,
    ;
    assert(d * u > 0) by (nonlinear_arith)
        requires
            d > 0,
            u > 0,
    ;
    assert(n / (d * u) < c) by (nonlinear_arith)
        requires
            n < d * (u * c),
            d * u > 0,
    ;
    let r = nearest(n, d * u);
    assert(r <= c);
    assert(r * u <= u * c) by (nonlinear_arith)
        requires
            r <= c,
            u > 0,
    ;
}

/// Adding what is far below the spacing of a power of two does not lead past it.
pub proof fn lemma_sum_within(n: nat, k: nat)
    requires
        k >= 25,
        n <= pow2(k) + pow2((k - 25) as nat),
    ensures
        rounded(n, 1) <= pow2(k),
{
    assert(n / 1 == n);
    if n < pow2(k) {
        lemma_rounded_within(n, 1, k);
    } else {
        let e = excess(n);
        lemma2_to64();
        lemma_excess(n);
        lemma_pow2_unfold((k + 1) as nat);
        lemma_pow2_pos((k - 25) as nat);
        lemma_pow2_strictly_increases((k - 25) as nat, k);
        if e + 24 <= k {
            if e + 24 < k {
                lemma_pow2_strictly_increases((e + 24) as nat, k);
            }
        }
        if e + 23 > k {
            if e + 23 > k + 1 {
                lemma_pow2_strictly_increases((k + 1) as nat, (e + 23) as nat);
            }
        }
        assert(e + 23 == k);
        let u = pow2(e);
        lemma_pow2_adds(e, 23);
        lemma_pow2_unfold(e);
        lemma_pow2_unfold((e - 1) as nat);
        lemma_pow2_pos(e);
        let rest = n - pow2(k);
        assert(1 * u == u);
        assert(n / u == pow2(23) && n % u == rest) by (nonlinear_arith)
            requires
                n == u * pow2(23) + rest,
                0 <= rest < u,
        ;
        assert(nearest(n, u) * u == pow2(k)) by (nonlinear_arith)
            requires
                nearest(n, u) == pow2(23),
                pow2(k) == u * pow2(23),
        ;
    }
}

/// The sizes that are met while scrolling.
pub proof fn lemma_sizes()
    ensures
        pow2(24) == TOO_LONG,
        pow2(27) == ONE,
        pow2(32) == 0x1_0000_0000,
        pow2(56) == 0x100_0000_0000_0000,
        pow2(89) == 0x200_0000_0000_0000_0000_0000,
        2 * pow2(114) == LARGEST,
        pow2(115) == LARGEST,
{
    lemma2_to64();
    lemma2_to64_rest();
    lemma_pow2_adds(57, 32);
    lemma_pow2_adds(57, 57);
    lemma_pow2_unfold(115);
}

/// The spacing around a whole number.
fn spacing_of(n: i128) -> (r: i128)
    requires
        0 <= n <= LARGEST,
    ensures
        r == pow2(excess(n as nat)),
        1 <= r,
        r * 0x80_0000 <= LARGEST,
{
    let mut x: i128 = n;
    let mut u: i128 = 1;
    proof {
        lemma2_to64();
    }
    while x >= TOO_LONG
        invariant
            0 <= x,
            1 <= u,
            u * x <= n <= LARGEST,
            u * 0x80_0000 <= LARGEST,
            u * pow2(excess(x as nat)) == pow2(excess(n as nat)),
        decreases x,
    {
        proof {
            let e = excess((x / 2) as nat);
            lemma_pow2_unfold((e + 1) as nat);
            assert(u * 0x100_0000 <= LARGEST) by (nonlinear_arith)
                requires
                    u * x <= LARGEST,
                    x >= 0x100_0000,
                    u >= 1,
            ;
            assert((u * 2) * (x / 2) <= u * x) by (nonlinear_arith)
                requires
                    u >= 1,
                    x >= 0,
            ;
            assert(u * (2 * pow2(e)) == (u * 2) * pow2(e)) by (nonlinear_arith);
        }
        x = x / 2;
        u = u * 2;
    }
    assert(u * 1 == u);
    u
}

/// The number of single precision nearest to `n / d`.
pub fn to_single(n: i128, d: i128) -> (r: i128)
    requires
        -LARGEST <= n <= LARGEST,
        1 <= d <= 0x100,
    ensures
        r == single(n as int, d as nat),
        size(r as int) <= 2 * LARGEST,
{
    let m: i128 = if n >= 0 {
        n
    } else {
        -n
    };
    proof {
        assert(0 <= m / d <= m) by (nonlinear_arith)
            requires
                m >= 0,
                d >= 1,
        ;
    }
    let u: i128 = spacing_of(m / d);
    proof {
        assert(1 <= d * u <= 0x100 * u) by (nonlinear_arith)
            requires
                1 <= d <= 0x100,
                u >= 1,
        ;
    }
    let unit: i128 = d * u;
    let q: i128 = m / unit;
    let rest: i128 = m % unit;
    proof {
        assert(0 <= rest < unit);
        assert(0 <= q && q * u <= m) by (nonlinear_arith)
            requires
                q == m as int / unit as int,
                unit == d * u,
                m >= 0,
                d >= 1,
                u >= 1,
        ;
        assert((q + 1) * u == q * u + u) by (nonlinear_arith);
        assert(q <= q * u) by (nonlinear_arith)
            requires
                q >= 0,
                u >= 1,
        ;
    }
    let whole: i128 = if 2 * rest < unit || (2 * rest == unit && q % 2 == 0) {
        q
    } else {
        q + 1
    };
    assert(whole == nearest(m as nat, unit as nat));
    let size: i128 = whole * u;
    if n >= 0 {
        size
    } else {
        -size
    }
}

/// Rounding errs by at most half of the spacing.
pub proof fn law_rounding_is_to_the_nearest(n: int, d: nat)
    requires
        d > 0,
    ensures
        2 * size(single(n, d) * d - n) <= d * spacing(size(n), d),
{
    let m = size(n);
    let u = spacing(m, d);
    let unit = d * u;
    lemma_pow2_pos(excess(m / d));
    assert(unit > 0) by (nonlinear_arith)
        requires
            unit == d * u,
            d > 0,
            u > 0,
    ;
    let w = nearest(m, unit);
    vstd::arithmetic::div_mod::lemma_fundamental_div_mod(m as int, unit as int);
    let q = m / unit;
    assert((q + 1) * unit == unit * q + unit) by (nonlinear_arith);
    assert(q * unit == unit * q) by (nonlinear_arith);
    assert(w * u * d == w * unit) by (nonlinear_arith)
        requires
            unit == d * u,
    ;
    assert((-(w * u)) * d == -(w * u * d)) by (nonlinear_arith);
}

/// What has at most 24 significant bits is not rounded.
pub proof fn law_short_numbers_are_exact(c: int, k: nat)
    requires
        size(c) < TOO_LONG,
    ensures
        single(c * pow2(k), 1) == c * pow2(k),
{
    let (a, p) = (size(c), pow2(k));
    lemma_pow2_pos(k);
    let n = (a * p) as nat;
    assert(size(c * p) == n) by (nonlinear_arith)
        requires
            p > 0,
            a == c || a == -c,
            a >= 0,
            n == a * p,
            size(c * p) == c * p || size(c * p) == -(c * p),
            size(c * p) >= 0,
    ;
    let e = excess(n);
    lemma_excess(n);
    lemma2_to64();
    if e > k {
        lemma_pow2_adds(k, 24);
        if k + 24 < e + 23 {
            lemma_pow2_strictly_increases((k + 24) as nat, (e + 23) as nat);
        }
        assert(n < p * 0x100_0000) by (nonlinear_arith)
            requires
                n == a * p,
                a < 0x100_0000,
                p > 0,
        ;
    }
    let u = pow2(e);
    let s = pow2((k - e) as nat);
    lemma_pow2_adds(e, (k - e) as nat);
    lemma_pow2_pos(e);
    assert(n / 1 == n && 1 * u == u);
    assert(n == (a * s) * u) by (nonlinear_arith)
        requires
            n == a * p,
            p == u * s,
    ;
    assert(n / u == a * s && n % u == 0) by (nonlinear_arith)
        requires
            n == (a * s) * u,
            u > 0,
    ;
    if c < 0 {
        assert(c * p < 0) by (nonlinear_arith)
            requires
                c < 0,
                p > 0,
        ;
    } else {
        assert(c * p >= 0) by (nonlinear_arith)
            requires
                c >= 0,
                p > 0,
        ;
    }
}

/// The spacing around a number is one up to 24 bits, and beyond that keeps the
/// number between 2^23 and 2^24 spacings.
pub proof fn law_spacing_leaves_a_fixed_length(n: nat, d: nat)
    requires
        d > 0,
    ensures
        spacing(n, d) >= 1,
        n / d < 0x100_0000 ==> spacing(n, d) == 1,
        n / d >= 0x100_0000 ==> spacing(n, d) * 0x80_0000 <= n / d,
        n / d < spacing(n, d) * 0x100_0000,
{
    let e = excess(n / d);
    lemma_excess(n / d);
    lemma_pow2_pos(e);
    lemma2_to64();
    lemma_pow2_adds(e, 24);
    lemma_pow2_adds(e, 23);
}

/// The result is a whole number of spacings, and an even one if two are equally
/// near.
pub proof fn law_tie_goes_to_the_even_one(n: int, d: nat)
    requires
        d > 0,
    ensures
        single(n, d) % (spacing(size(n), d) as int) == 0,
        2 * size(single(n, d) * d - n) == d * spacing(size(n), d) ==> (single(n, d) / (spacing(size(n), d) as int)) % 2
            == 0,
{
    let m = size(n);
    let u = spacing(m, d);
    let unit = d * u;
    lemma_pow2_pos(excess(m / d));
    assert(unit > 0) by (nonlinear_arith)
        requires
            unit == d * u,
            d > 0,
            u > 0,
    ;
    let w = nearest(m, unit);
    vstd::arithmetic::div_mod::lemma_fundamental_div_mod(m as int, unit as int);
    let q = m / unit;
    assert((q + 1) * unit == unit * q + unit) by (nonlinear_arith);
    assert(q * unit == unit * q) by (nonlinear_arith);
    assert(w * u * d == w * unit) by (nonlinear_arith)
        requires
            unit == d * u,
    ;
    assert((-(w * u)) * d == -(w * u * d)) by (nonlinear_arith);
    assert((-w) * u == -(w * u)) by (nonlinear_arith);
    let c = if n >= 0 {
        w as int
    } else {
        -w
    };
    assert(single(n, d) == c * u);
    vstd::arithmetic::div_mod::lemma_fundamental_div_mod_converse(c * u, u as int, c, 0);
}

/// Rounding does not favour a sign.
pub proof fn law_rounding_is_the_same_for_both_signs(n: int, d: nat)
    requires
        d > 0,
    ensures
        single(-n, d) == -single(n, d),
        n >= 0 ==> single(n, d) >= 0,
{
    if n == 0 {
        let unit = d * spacing(0, d);
        lemma_pow2_pos(excess(0nat / d));
        assert(unit > 0) by (nonlinear_arith)
            requires
                unit == d * spacing(0, d),
                d > 0,
                spacing(0, d) > 0,
        ;
        vstd::arithmetic::div_mod::lemma_small_mod(0, unit);
        assert(0nat / unit == 0) by (nonlinear_arith)
            requires
                unit > 0,
        ;
        assert(nearest(0, unit) == 0);
        assert(0 * spacing(0, d) == 0) by (nonlinear_arith);
        assert(single(0, d) == 0);
    }
}

/// A whole number is off by at most one part in 2^24 of it after rounding.
pub proof fn law_error_is_relative(n: int)
    ensures
        size(single(n, 1) - n) * 0x100_0000 <= size(n),
{
    law_rounding_is_to_the_nearest(n, 1);
    law_spacing_leaves_a_fixed_length(size(n), 1);
    assert(size(n) / 1 == size(n));
    assert(single(n, 1) * 1 == single(n, 1));
}

} // verus!
