//! Angles on the circle: the one single-precision computation of the library, done on integers.
//!
//! A finite number is an integer of at most 24 bits times a power of two, in units of 2^-149; so is
//! the circle of 360 degrees. What is left of one after division by the other is again such a
//! product, and only the nearest number to it has to be found.

use vstd::arithmetic::div_mod::lemma_fundamental_div_mod_converse;
use vstd::arithmetic::power2::{
    lemma2_to64, lemma2_to64_rest, lemma_pow2_adds, lemma_pow2_pos, lemma_pow2_strictly_increases,
    lemma_pow2_unfold, pow2,
};
use vstd::prelude::*;

use crate::single::{magnitude_units, single, Single, SIGN_BIT};

verus! {

/// The pattern of a number that is none.
pub const BITS_NAN: u32 = 0x7FC0_0000;

/// 360 degrees in units of 2^-149.
pub open spec fn circle_units() -> int {
    360 * pow2(149) as int
}

/// How far apart numbers lie at a given size, both in units of 2^-149: a number has 24 binary
/// digits.
pub open spec fn spacing(units: int) -> int
    decreases units,
{
    if units < 0x100_0000 {
        1
    } else {
        2 * spacing(units / 2)
    }
}

/// The multiple of `step` nearest to `units`; halfway between two, the even one.
pub open spec fn nearest(units: int, step: int) -> int {
    let low = units / step;
    let rest = units % step;
    if 2 * rest < step || (2 * rest == step && low % 2 == 0) {
        low * step
    } else {
        (low + 1) * step
    }
}

/// The angle on the circle, from 0 up to but not including 360 degrees, in units of 2^-149: the
/// number nearest to the remainder, and zero where that is the whole circle.
pub open spec fn wrapped_units(deg: Single) -> int {
    let rest = deg.units() % circle_units();
    let rounded = nearest(rest, spacing(rest));
    if rounded == circle_units() {
        0
    } else {
        rounded
    }
}

/// A number is the given angle brought onto the circle. What is no number, or infinite, has no
/// place there. Whole turns backwards give the negative zero.
pub open spec fn is_wrapped(wrapped: Single, deg: Single) -> bool {
    if deg.finite() {
        &&& wrapped.finite()
        &&& wrapped.units() == wrapped_units(deg)
        &&& wrapped.negative() <==> deg.negative() && deg.units() % circle_units() == 0
    } else {
        wrapped.nan()
    }
}

proof fn lemma_spacing_pos(units: int)
    ensures
        spacing(units) >= 1,
    decreases units,
{
    if units >= 0x100_0000 {
        lemma_spacing_pos(units / 2);
    }
}

/// Where a number has 24 binary digits or more, its spacing grows with it.
proof fn lemma_spacing_scales(n: int, q: nat)
    requires
        n >= 0x80_0000,
    ensures
        spacing(n * pow2(q)) == spacing(n) * pow2(q),
    decreases q,
{
    lemma2_to64();
    if q > 0 {
        let p = pow2((q - 1) as nat) as int;
        lemma_pow2_unfold(q);
        lemma_pow2_pos((q - 1) as nat);
        lemma_spacing_scales(n, (q - 1) as nat);
        assert(n * (2 * p) == 2 * (n * p)) by (nonlinear_arith);
        assert(n * p >= 0x80_0000) by (nonlinear_arith)
            requires
                n >= 0x80_0000,
                p >= 1,
        ;
        assert(n * pow2(q) == 2 * (n * p));
        let d = spacing(n);
        assert(2 * (d * p) == d * (2 * p)) by (nonlinear_arith);
    } else {
        assert(n * 1 == n);
    }
}

/// A number of at most 24 binary digits, times a power of two, is a multiple of its spacing.
proof fn lemma_short_is_multiple(n: int, q: nat) -> (k: int)
    requires
        0 <= n < 0x100_0000,
    ensures
        n * pow2(q) == k * spacing(n * pow2(q)),
    decreases q,
{
    lemma2_to64();
    if q == 0 || n * pow2(q) < 0x100_0000 {
        n * pow2(q)
    } else {
        let p = pow2((q - 1) as nat) as int;
        lemma_pow2_unfold(q);
        let k = lemma_short_is_multiple(n, (q - 1) as nat);
        assert(n * (2 * p) == 2 * (n * p)) by (nonlinear_arith);
        assert(n * pow2(q) / 2 == n * p);
        let d = spacing(n * p);
        assert(2 * (k * d) == k * (2 * d)) by (nonlinear_arith);
        k
    }
}

proof fn lemma_nearest_of_multiple(k: int, d: int)
    requires
        d >= 1,
    ensures
        nearest(k * d, d) == k * d,
{
    lemma_fundamental_div_mod_converse(k * d, d, k, 0);
}

proof fn lemma_nearest_scales(n: int, d: int, p: int)
    requires
        n >= 0,
        d >= 1,
        p >= 1,
    ensures
        nearest(n * p, d * p) == nearest(n, d) * p,
{
    let a = n / d;
    let b = n % d;
    assert(n == a * d + b) by (nonlinear_arith)
        requires
            a == n / d,
            b == n % d,
            d >= 1,
    ;
    assert(0 <= b < d) by (nonlinear_arith)
        requires
            b == n % d,
            d >= 1,
    ;
    assert(n * p == a * (d * p) + b * p) by (nonlinear_arith)
        requires
            n == a * d + b,
    ;
    assert(0 <= b * p < d * p) by (nonlinear_arith)
        requires
            0 <= b < d,
            p >= 1,
    ;
    lemma_fundamental_div_mod_converse(n * p, d * p, a, b * p);
    assert(2 * (b * p) < d * p <==> 2 * b < d) by (nonlinear_arith)
        requires
            p >= 1,
    ;
    assert(2 * (b * p) == d * p <==> 2 * b == d) by (nonlinear_arith)
        requires
            p >= 1,
    ;
    assert(a * (d * p) == (a * d) * p) by (nonlinear_arith);
    assert((a + 1) * (d * p) == ((a + 1) * d) * p) by (nonlinear_arith);
}

/// Rounding may be done before or after the power of two.
proof fn lemma_rounding_scales(n: int, q: nat)
    requires
        n >= 0,
    ensures
        nearest(n * pow2(q), spacing(n * pow2(q))) == nearest(n, spacing(n)) * pow2(q),
{
    lemma_pow2_pos(q);
    if n < 0x100_0000 {
        let k = lemma_short_is_multiple(n, q);
        lemma_spacing_pos(n * pow2(q));
        lemma_nearest_of_multiple(k, spacing(n * pow2(q)));
        lemma_nearest_of_multiple(n, 1);
    } else {
        lemma_spacing_scales(n, q);
        lemma_spacing_pos(n);
        lemma_nearest_scales(n, spacing(n), pow2(q) as int);
    }
}

/// The spacing, and how many times it doubles one.
fn spacing_of(n: u64) -> (result: (u64, u32))
    requires
        n < 0x8000_0000_0000_0000,
    ensures
        result.0 == spacing(n as int),
        result.0 == pow2(result.1 as nat),
        n < 0x100_0000 * result.0,
        n >= 0x100_0000 ==> n >= 0x80_0000 * result.0,
        n < 0x100_0000 ==> result.1 == 0,
        result.1 < 64,
        result.0 <= n + 1,
    decreases n,
{
    proof {
        lemma2_to64();
    }
    if n < 0x100_0000 {
        (1, 0)
    } else {
        let (half, doublings) = spacing_of(n / 2);
        proof {
            lemma_pow2_unfold((doublings + 1) as nat);
            if doublings >= 63 {
                if doublings > 63 {
                    lemma_pow2_strictly_increases(63, doublings as nat);
                }
                lemma2_to64_rest();
                assert(half >= 0x8000_0000_0000_0000);
            }
        }
        (2 * half, doublings + 1)
    }
}

/// The number `n` times 2^`q` units, which has at most 24 binary digits.
fn number_of(n: u64, q: u32) -> (x: Single)
    requires
        0 < n <= 0x100_0000,
        q <= 252,
    ensures
        x.finite(),
        !x.negative(),
        x.units() == n * pow2(q as nat),
    decreases q,
{
    if n == 0x100_0000 {
        proof {
            lemma_pow2_unfold((q + 1) as nat);
            let p = pow2(q as nat) as int;
            assert(0x100_0000 * p == 0x80_0000 * (2 * p)) by (nonlinear_arith);
        }
        let bits: u32 = (q + 1) * 0x80_0000 + 0x80_0000;
        assert(bits as int % SIGN_BIT as int == bits);
        assert(bits as int / 0x80_0000 == q + 2);
        return single(bits);
    }
    if n >= 0x80_0000 {
        let bits: u32 = q * 0x80_0000 + n as u32;
        assert(bits as int % SIGN_BIT as int == bits);
        assert(bits as int / 0x80_0000 == q + 1);
        assert(bits as int % 0x80_0000 == n - 0x80_0000);
        return single(bits);
    }
    if q == 0 {
        let bits: u32 = n as u32;
        assert(bits as int % SIGN_BIT as int == bits);
        proof {
            lemma2_to64();
        }
        return single(bits);
    }
    proof {
        lemma_pow2_unfold(q as nat);
        let p = pow2((q - 1) as nat) as int;
        assert((2 * n) * p == n * (2 * p)) by (nonlinear_arith);
    }
    number_of(2 * n, q - 1)
}

/// The circle in units of 2^`q` times 2^-149.
pub open spec fn circle_over(q: int) -> int {
    45 * pow2((152 - q) as nat) as int
}

proof fn lemma_circle_over(q: int)
    requires
        0 <= q <= 152,
    ensures
        circle_units() == circle_over(q) * pow2(q as nat),
        circle_over(q) >= 45,
{
    lemma2_to64();
    lemma_pow2_adds(149, 3);
    lemma_pow2_adds((152 - q) as nat, q as nat);
    lemma_pow2_pos((152 - q) as nat);
    let a = pow2((152 - q) as nat) as int;
    let b = pow2(q as nat) as int;
    assert(45 * (a * b) == (45 * a) * b) by (nonlinear_arith);
}

/// What is left of `m` times 2^`q` after whole circles.
proof fn lemma_rest(m: int, q: int, r: int)
    requires
        0 <= q <= 152,
        m >= 0,
        r == m % circle_over(q),
    ensures
        (m * pow2(q as nat)) % circle_units() == r * pow2(q as nat),
        0 <= r < circle_over(q),
        r > 0 ==> (-(m * pow2(q as nat))) % circle_units() == (circle_over(q) - r) * pow2(q as nat),
        r == 0 ==> (-(m * pow2(q as nat))) % circle_units() == 0,
{
    lemma_circle_over(q);
    lemma_pow2_pos(q as nat);
    let c = circle_over(q);
    let p = pow2(q as nat) as int;
    let k = m / c;
    assert(m == k * c + r && 0 <= r < c) by (nonlinear_arith)
        requires
            k == m / c,
            r == m % c,
            c >= 45,
    ;
    assert(m * p == k * (c * p) + r * p) by (nonlinear_arith)
        requires
            m == k * c + r,
    ;
    assert(0 <= r * p < c * p) by (nonlinear_arith)
        requires
            0 <= r < c,
            p >= 1,
    ;
    lemma_fundamental_div_mod_converse(m * p, c * p, k, r * p);
    if r > 0 {
        assert(-(m * p) == (-k - 1) * (c * p) + (c - r) * p) by (nonlinear_arith)
            requires
                m == k * c + r,
        ;
        assert(0 <= (c - r) * p < c * p) by (nonlinear_arith)
            requires
                0 < r < c,
                p >= 1,
        ;
        lemma_fundamental_div_mod_converse(-(m * p), c * p, -k - 1, (c - r) * p);
    } else {
        assert(-(m * p) == (-k) * (c * p) + 0) by (nonlinear_arith)
            requires
                m == k * c,
        ;
        lemma_fundamental_div_mod_converse(-(m * p), c * p, -k, 0);
    }
}

/// Less than half a step below the circle is the circle.
proof fn lemma_rounds_to_circle(r: int, q: int)
    requires
        0 <= q < 109,
        0 < r < 0x100_0000,
    ensures
        ({
            let rest = (circle_over(q) - r) * pow2(q as nat);
            nearest(rest, spacing(rest)) == circle_units()
        }),
{
    lemma2_to64();
    lemma2_to64_rest();
    lemma_circle_over(q);
    lemma_circle_over(109);
    let n = circle_over(q) - r;
    let scale = pow2((109 - q) as nat) as int;
    lemma_pow2_pos((109 - q) as nat);
    lemma_pow2_adds((109 - q) as nat, 43);
    lemma_pow2_adds((109 - q) as nat, 25);
    lemma_pow2_adds((109 - q) as nat, 23);
    assert(circle_over(q) == scale * (45 * 0x800_0000_0000)) by (nonlinear_arith)
        requires
            circle_over(q) == 45 * (scale * 0x800_0000_0000),
    ;
    // The remainder lies above 256 degrees, where numbers are 2^(134 - q) apart.
    let step = scale * 0x200_0000;
    lemma_spacing_near_circle(n, (134 - q) as nat);
    assert(n == (0xB4_0000 - 1) * step + (step - r)) by (nonlinear_arith)
        requires
            n == scale * (45 * 0x800_0000_0000) - r,
            step == scale * 0x200_0000,
    ;
    assert(step >= 0x200_0000) by (nonlinear_arith)
        requires
            step == scale * 0x200_0000,
            scale >= 1,
    ;
    lemma_fundamental_div_mod_converse(n, step, 0xB4_0000 - 1, step - r);
    assert(nearest(n, step) == 0xB4_0000 * step);
    assert(0xB4_0000 * step == circle_over(q)) by (nonlinear_arith)
        requires
            circle_over(q) == scale * (45 * 0x800_0000_0000),
            step == scale * 0x200_0000,
    ;
    lemma_rounding_scales(n, q as nat);
}

proof fn lemma_spacing_near_circle(n: int, s: nat)
    requires
        0x80_0000 * pow2(s) <= n < 0x100_0000 * pow2(s),
    ensures
        spacing(n) == pow2(s),
    decreases s,
{
    lemma2_to64();
    if s > 0 {
        let p = pow2((s - 1) as nat) as int;
        lemma_pow2_unfold(s);
        lemma_pow2_pos((s - 1) as nat);
        assert(0x80_0000 * p <= n / 2 < 0x100_0000 * p);
        lemma_spacing_near_circle(n / 2, (s - 1) as nat);
    }
}

/// Brings an angle in degrees onto the circle, from 0 up to but not including 360.
pub fn wrap_360(deg: Single) -> (wrapped: Single)
    ensures
        is_wrapped(wrapped, deg),
{
    if !deg.is_finite() {
        return single(BITS_NAN);
    }
    let magnitude: u32 = deg.bits % SIGN_BIT;
    let exponent: u32 = magnitude / 0x80_0000;
    let fraction: u32 = magnitude % 0x80_0000;
    let mut m: u64 = if exponent == 0 {
        fraction as u64
    } else {
        0x80_0000 + fraction as u64
    };
    let mut q: u32 = if exponent == 0 {
        0
    } else {
        exponent - 1
    };
    let negative = deg.bits >= SIGN_BIT;
    let ghost size = magnitude_units(magnitude as int);
    proof {
        lemma2_to64();
        if exponent == 0 {
            assert(m * pow2(0) == m) by (nonlinear_arith)
                requires
                    pow2(0) == 1,
            ;
        }
        assert(size == m * pow2(q as nat));
        assert(deg.units() == if negative {
            -size
        } else {
            size
        });
    }
    let ghost mut whole: int = m as int;
    let mut circle: u64 = 45;
    if q > 152 {
        let ghost twos = (q - 152) as nat;
        let ghost start = m as int;
        let mut r: u64 = m % 45;
        let mut i: u32 = 0;
        while i < q - 152
            invariant
                152 < q <= 253,
                i <= q - 152,
                r < 45,
                r == (start * pow2(i as nat)) % 45,
            decreases q - 152 - i,
        {
            proof {
                let p = pow2(i as nat) as int;
                lemma_pow2_unfold((i + 1) as nat);
                assert(start * (2 * p) == 2 * (start * p)) by (nonlinear_arith);
            }
            r = (2 * r) % 45;
            i = i + 1;
        }
        proof {
            whole = start * pow2(twos);
            lemma_pow2_adds(twos, 152);
            let a = pow2(twos) as int;
            let b = pow2(152) as int;
            assert(start * (a * b) == (start * a) * b) by (nonlinear_arith);
            lemma_pow2_pos(twos);
            assert(whole >= 0) by (nonlinear_arith)
                requires
                    whole == start * a,
                    start >= 0,
                    a >= 1,
            ;
        }
        m = r;
        q = 152;
    } else if q >= 109 {
        let mut i: u32 = 152;
        while i > q
            invariant
                109 <= q <= i <= 152,
                circle == circle_over(i as int),
                45 <= circle <= 45 * 0x800_0000_0000,
            decreases i - q,
        {
            proof {
                lemma_pow2_unfold((152 - i + 1) as nat);
                lemma2_to64();
                lemma2_to64_rest();
                if i > 109 + 1 {
                    lemma_pow2_strictly_increases(
                        (152 - i + 1) as nat,
                        43,
                    );
                }
            }
            circle = 2 * circle;
            i = i - 1;
        }
        let left: u64 = m % circle;
        assert(left <= m) by (nonlinear_arith)
            requires
                left == m % circle,
                circle >= 45,
        ;
        m = left;
    } else {
        proof {
            lemma2_to64();
            lemma2_to64_rest();
            lemma_pow2_strictly_increases(43, (152 - q) as nat);
            lemma_fundamental_div_mod_converse(m as int, circle_over(q as int), 0, m as int);
        }
    }
    proof {
        assert(size == whole * pow2(q as nat));
        assert(m == whole % circle_over(q as int));
        lemma_rest(whole, q as int, m as int);
    }
    if !negative {
        if m == 0 {
            proof {
                lemma_rounding_scales(0, 0);
            }
            return single(0);
        }
        proof {
            lemma_rounding_scales(m as int, q as nat);
            lemma_nearest_of_multiple(m as int, 1);
        }
        return number_of(m, q);
    }
    if m == 0 {
        return single(SIGN_BIT);
    }
    proof {
        let gap = circle_over(q as int) - m;
        lemma_pow2_pos(q as nat);
        assert(gap * pow2(q as nat) > 0) by (nonlinear_arith)
            requires
                gap > 0,
                pow2(q as nat) > 0,
        ;
    }
    if q < 109 {
        proof {
            lemma_rounds_to_circle(m as int, q as int);
        }
        return single(0);
    }
    let n: u64 = circle - m;
    let (step, doublings) = spacing_of(n);
    let low: u64 = n / step;
    let rest: u64 = n % step;
    let nearby: u64 = if 2 * rest < step || (2 * rest == step && low % 2 == 0) {
        low
    } else {
        low + 1
    };
    proof {
        lemma_rounding_scales(n as int, q as nat);
        lemma_circle_over(q as int);
        lemma_pow2_pos(q as nat);
        lemma_pow2_adds(doublings as nat, q as nat);
        let p = pow2(q as nat) as int;
        assert(nearest(n as int, step as int) == nearby * step);
        assert(nearby * (step * p) == (nearby * step) * p) by (nonlinear_arith);
        assert((nearby * step) * p == circle * p <==> nearby * step == circle) by (nonlinear_arith)
            requires
                p >= 1,
        ;
        assert(n == low * step + rest && rest < step) by (nonlinear_arith)
            requires
                low == n / step,
                rest == n % step,
                step >= 1,
        ;
        assert(low < 0x100_0000) by (nonlinear_arith)
            requires
                n == low * step + rest,
                n < 0x100_0000 * step,
        ;
        assert(nearby > 0 && low * step <= n) by (nonlinear_arith)
            requires
                n == low * step + rest,
                rest < step,
                n >= step,
                nearby >= low,
        ;
        assert(nearby * step <= n + step) by (nonlinear_arith)
            requires
                nearby <= low + 1,
                n == low * step + rest,
        ;
    }
    if nearby * step == circle {
        return single(0);
    }
    number_of(nearby, q + doublings)
}

proof fn lemma_spacing_is_a_power(units: int) -> (j: nat)
    requires
        units >= 0,
    ensures
        spacing(units) == pow2(j),
        j > 0 ==> 0x80_0000 * pow2(j) <= units,
    decreases units,
{
    lemma2_to64();
    if units < 0x100_0000 {
        0
    } else {
        let j = lemma_spacing_is_a_power(units / 2);
        lemma_pow2_unfold((j + 1) as nat);
        (j + 1) as nat
    }
}

/// A wrapped angle lies on the circle: it is at least 0 and less than 360 degrees.
pub proof fn law_wrapped_angles_are_on_the_circle(deg: Single)
    requires
        deg.finite(),
    ensures
        0 <= wrapped_units(deg) < circle_units(),
{
    lemma2_to64();
    lemma_circle_over(134);
    lemma_pow2_pos(134);
    let rest = deg.units() % circle_units();
    assert(circle_units() > 0) by (nonlinear_arith)
        requires
            circle_units() == 0xB4_0000 * pow2(134),
            pow2(134) > 0,
    ;
    assert(0 <= rest < circle_units());
    let j = lemma_spacing_is_a_power(rest);
    if j > 134 {
        lemma_pow2_unfold(135);
        if j > 135 {
            lemma_pow2_strictly_increases(135, j);
        }
        assert(false);
    }
    let d = pow2(j) as int;
    lemma_pow2_pos(j);
    lemma_pow2_adds((134 - j) as nat, j);
    let times = 0xB4_0000 * pow2((134 - j) as nat);
    assert(circle_units() == times * d) by (nonlinear_arith)
        requires
            circle_units() == 0xB4_0000 * (pow2((134 - j) as nat) * d),
            times == 0xB4_0000 * pow2((134 - j) as nat),
    ;
    let low = rest / d;
    assert(0 <= low && rest == low * d + rest % d && 0 <= rest % d < d) by (nonlinear_arith)
        requires
            low == rest / d,
            rest >= 0,
            d >= 1,
    ;
    assert(low + 1 <= times) by (nonlinear_arith)
        requires
            low * d <= rest,
            rest < times * d,
            d >= 1,
    ;
    assert(0 <= low * d <= (low + 1) * d <= times * d) by (nonlinear_arith)
        requires
            0 <= low,
            low + 1 <= times,
            d >= 1,
    ;
}

/// An angle that lies on the circle stays as it is; so wrapping twice is wrapping once.
pub proof fn law_angles_on_the_circle_stay(deg: Single)
    requires
        deg.finite(),
        0 <= deg.units() < circle_units(),
    ensures
        wrapped_units(deg) == deg.units(),
{
    lemma2_to64();
    let magnitude = deg.magnitude();
    let exponent = magnitude / 0x80_0000;
    let fraction = magnitude % 0x80_0000;
    let (m, q) = if exponent == 0 {
        (fraction, 0nat)
    } else {
        (0x80_0000 + fraction, (exponent - 1) as nat)
    };
    lemma_pow2_pos(q);
    assert(m * pow2(q) >= 0) by (nonlinear_arith)
        requires
            m >= 0,
            pow2(q) > 0,
    ;
    if exponent == 0 {
        assert(m * 1 == m);
    }
    assert(magnitude_units(magnitude) == m * pow2(q));
    let units = deg.units();
    assert(units == m * pow2(q));
    lemma_fundamental_div_mod_converse(units, circle_units(), 0, units);
    lemma_rounding_scales(m, q);
    lemma_nearest_of_multiple(m, 1);
}

/// Angles that lie whole turns apart are the same angle on the circle.
pub proof fn law_whole_turns_do_not_matter(a: Single, b: Single, turns: int)
    requires
        a.units() == b.units() + turns * (360 * pow2(149)),
    ensures
        wrapped_units(a) == wrapped_units(b),
{
    lemma_pow2_pos(149);
    vstd::arithmetic::div_mod::lemma_mod_multiples_vanish(turns, b.units(), circle_units());
    assert(turns * circle_units() == circle_units() * turns) by (nonlinear_arith);
}

proof fn lemma_nearest_is_near(units: int, step: int)
    requires
        step > 0,
    ensures
        2 * (nearest(units, step) - units) <= step,
        2 * (units - nearest(units, step)) <= step,
        nearest(units, step) % step == 0,
{
    let low = units / step;
    let rest = units % step;
    vstd::arithmetic::div_mod::lemma_fundamental_div_mod(units, step);
    assert(low * step == step * low) by (nonlinear_arith);
    assert((low + 1) * step == low * step + step) by (nonlinear_arith);
    vstd::arithmetic::div_mod::lemma_mod_multiples_basic(low, step);
    vstd::arithmetic::div_mod::lemma_mod_multiples_basic(low + 1, step);
}

/// The angle on the circle differs from the given one by whole turns and by no more than half the
/// distance to the next number: for some number of turns, what is left over lies that near.
pub proof fn law_wrapping_takes_off_whole_turns(deg: Single) -> (turns: int)
    requires
        deg.finite(),
    ensures
        ({
            let circle = 360 * pow2(149) as int;
            let off = deg.units() - turns * circle - wrapped_units(deg);
            -spacing(deg.units() % circle) <= 2 * off <= spacing(deg.units() % circle)
        }),
{
    lemma_pow2_pos(149);
    let circle = circle_units();
    let rest = deg.units() % circle;
    let whole = deg.units() / circle;
    vstd::arithmetic::div_mod::lemma_fundamental_div_mod(deg.units(), circle);
    assert(whole * circle == circle * whole) by (nonlinear_arith);
    assert((whole + 1) * circle == whole * circle + circle) by (nonlinear_arith);
    lemma_spacing_pos(rest);
    lemma_nearest_is_near(rest, spacing(rest));
    if nearest(rest, spacing(rest)) == circle {
        whole + 1
    } else {
        whole
    }
}

/// Only an angle that is a finite number has a place on the circle.
pub proof fn law_infinite_angles_have_no_place(wrapped: Single, deg: Single)
    requires
        is_wrapped(wrapped, deg),
    ensures
        deg.finite() <==> !wrapped.nan(),
        deg.finite() <==> wrapped.finite(),
{
}

} // verus!
