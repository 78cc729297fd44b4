//! How near the results of floating-point operations are to the exact ones.
use crate::float::Format;
use crate::number::{Real32, Real64};
use vstd::arithmetic::div_mod::*;
use vstd::prelude::*;

verus! {

/// A quotient below 2^c is rounded by at most half a step of the numbers below it.
pub proof fn lemma_nearest_is_close(f: Format, n: nat, d: nat, c: int)
    requires
        d > 0,
        -90 <= c <= 100,
        n < d * crate::float::unit_pow(c),
    ensures
        f.nearest(n, d) < f.infinity(),
        !f.negative(f.nearest(n, d)),
        f.magnitude(f.nearest(n, d)) == f.nearest(n, d),
        f.value(f.nearest(n, d)) >= 0,
        f.value(f.nearest(n, d)) * d <= n + d * crate::float::unit_pow(c - f.precision() - 1),
        n <= f.value(f.nearest(n, d)) * d + d * crate::float::unit_pow(c - f.precision() - 1),
{
    let p = f.precision();
    let most = crate::float::unit_pow(c);
    crate::float::rounding_keeps_order(f, n, (d * most) as nat, d);
    crate::float::lemma_nearest_cancels(f, most, d);
    crate::float::dyadics_are_exact(f, 1, c);
    assert(crate::float::scaled(1, c) == most);
    crate::float::rounding_is_within_half_a_step(f, n, d);
    let k = f.quantum(n, d);
    if k > f.least() && k > c - p {
        crate::float::lemma_unit_pow_grows(c, k - 1 + p);
        let far = crate::float::unit_pow(k - 1 + p);
        assert(d * far >= d * most) by (nonlinear_arith)
            requires
                far >= most,
        ;
        assert(false);
    }
    crate::float::lemma_unit_pow_grows(k, c - p);
    crate::float::lemma_unit_pow_adds(c - p - 1, 1);
    vstd::arithmetic::power2::lemma2_to64();
    let u = crate::float::unit_pow(k);
    let half = crate::float::unit_pow(c - p - 1);
    assert(d * u <= 2 * (d * half)) by (nonlinear_arith)
        requires
            u <= half * 2,
    ;
}

/// Magnitude bits with a sign are worth as much, with that sign.
proof fn lemma_signed(f: Format, negative: bool, m: nat)
    requires
        m < f.infinity(),
    ensures
        f.holds(f.signed(negative, m)),
        f.finite(f.signed(negative, m)),
        f.negative(f.signed(negative, m)) == negative,
        f.value(f.signed(negative, m)) == (if negative {
            -f.value(m)
        } else {
            f.value(m)
        }),
{
    let s = f.sign();
    lemma_small_mod(m, s);
    if negative {
        lemma_fundamental_div_mod_converse((s + m) as int, s as int, 1, m as int);
    }
}

/// A negated number is worth as much below zero.
pub proof fn lemma_negated(f: Format, a: nat)
    requires
        f.holds(a),
        f.finite(a),
    ensures
        f.holds(f.negated(a)),
        f.finite(f.negated(a)),
        f.value(f.negated(a)) == -f.value(a),
{
    let s = f.sign() as int;
    if f.negative(a) {
        lemma_fundamental_div_mod_converse(a as int, s, 1, a - s);
        lemma_small_mod((a - s) as nat, f.sign());
    } else {
        lemma_small_mod(a, f.sign());
        lemma_fundamental_div_mod_converse(a + s, s, 1, a as int);
    }
}

/// A sum below 2^c is near the exact one.
pub proof fn sums_are_close(f: Format, a: nat, b: nat, c: int)
    requires
        f.finite(a),
        f.finite(b),
        -90 <= c <= 100,
        -(crate::float::unit_pow(c) as int) < f.value(a) + f.value(b) < crate::float::unit_pow(c),
    ensures
        f.holds(f.sum(a, b)),
        f.finite(f.sum(a, b)),
        f.value(f.sum(a, b)) - (f.value(a) + f.value(b)) <= crate::float::unit_pow(c - f.precision() - 1),
        (f.value(a) + f.value(b)) - f.value(f.sum(a, b)) <= crate::float::unit_pow(c - f.precision() - 1),
{
    let v = f.value(a) + f.value(b);
    crate::float::lemma_unit_pow_grows(c - f.precision() - 1, c);
    if v == 0 {
        lemma_signed(f, f.negative(a) && f.negative(b), 0);
        crate::float::small_integers_are_exact(f, 0);
        crate::float::rounding_keeps_numbers(f, 0);
        assert(crate::float::scaled(0, 0) == 0);
        assert(f.value(0) == 0) by {
            lemma_small_mod(0, f.sign());
            assert(f.significand(0) == 0);
            let u = crate::float::unit_pow(f.exponent(0));
            assert(0nat * u == 0) by (nonlinear_arith);
        }
    } else {
        let n = if v < 0 {
            (-v) as nat
        } else {
            v as nat
        };
        lemma_nearest_is_close(f, n, 1, c);
        lemma_signed(f, v < 0, f.nearest(n, 1));
    }
}

/// A difference below 2^c is near the exact one.
pub proof fn differences_are_close(f: Format, a: nat, b: nat, c: int)
    requires
        f.finite(a),
        f.holds(b),
        f.finite(b),
        -90 <= c <= 100,
        -(crate::float::unit_pow(c) as int) < f.value(a) - f.value(b) < crate::float::unit_pow(c),
    ensures
        f.holds(f.difference(a, b)),
        f.finite(f.difference(a, b)),
        f.value(f.difference(a, b)) - (f.value(a) - f.value(b)) <= crate::float::unit_pow(c - f.precision() - 1),
        (f.value(a) - f.value(b)) - f.value(f.difference(a, b)) <= crate::float::unit_pow(c - f.precision() - 1),
{
    lemma_negated(f, b);
    sums_are_close(f, a, f.negated(b), c);
}

/// What the significands and exponents of two numbers multiply to.
proof fn lemma_worths_multiply(f: Format, a: nat, b: nat)
    requires
        f.finite(a),
        f.finite(b),
    ensures
        ({
            let n = crate::float::scaled(
                f.significand(a) * f.significand(b),
                f.exponent(a) + f.exponent(b),
            );
            f.value(a) * f.value(b) == (if f.negative(a) != f.negative(b) {
                -(n * crate::float::unit_pow(0))
            } else {
                (n * crate::float::unit_pow(0)) as int
            })
        }),
{
    crate::float::number_parts(f, a);
    crate::float::number_parts(f, b);
    let (sa, sb) = (f.significand(a), f.significand(b));
    let (ua, ub) = (crate::float::unit_pow(f.exponent(a)), crate::float::unit_pow(f.exponent(b)));
    let uab = crate::float::unit_pow(f.exponent(a) + f.exponent(b));
    let one = crate::float::unit_pow(0);
    crate::float::units_multiply(f.exponent(a), f.exponent(b));
    assert((sa * ua) * (sb * ub) == ((sa * sb) * uab) * one) by (nonlinear_arith)
        requires
            uab * one == ua * ub,
    ;
    let va = (sa * ua) as int;
    let vb = (sb * ub) as int;
    assert((-va) * vb == -(va * vb)) by (nonlinear_arith);
    assert(va * (-vb) == -(va * vb)) by (nonlinear_arith);
    assert((-va) * (-vb) == va * vb) by (nonlinear_arith);
}

/// A product below 2^c is near the exact one.
pub proof fn products_are_close(f: Format, a: nat, b: nat, c: int)
    requires
        f.finite(a),
        f.finite(b),
        -90 <= c <= 100,
        -(crate::float::unit_pow(c) * crate::float::unit_pow(0)) < f.value(a) * f.value(b) < crate::float::unit_pow(c) * crate::float::unit_pow(0),
    ensures
        f.holds(f.product(a, b)),
        f.finite(f.product(a, b)),
        f.value(f.product(a, b)) * crate::float::unit_pow(0) - f.value(a) * f.value(b) <= crate::float::unit_pow(
            c - f.precision() - 1,
        ) * crate::float::unit_pow(0),
        f.value(a) * f.value(b) - f.value(f.product(a, b)) * crate::float::unit_pow(0) <= crate::float::unit_pow(
            c - f.precision() - 1,
        ) * crate::float::unit_pow(0),
{
    lemma_worths_multiply(f, a, b);
    let n = crate::float::scaled(f.significand(a) * f.significand(b), f.exponent(a) + f.exponent(b));
    let negative = f.negative(a) != f.negative(b);
    let one = crate::float::unit_pow(0);
    crate::float::lemma_unit_pow_grows(0, 0);
    let most = crate::float::unit_pow(c);
    assert(n < most) by (nonlinear_arith)
        requires
            n * one < most * one,
            one > 0,
    ;
    lemma_nearest_is_close(f, n, 1, c);
    let m = f.nearest(n, 1);
    lemma_signed(f, negative, m);
    let v = f.value(m);
    let half = crate::float::unit_pow(c - f.precision() - 1);
    assert(v * one <= n * one + half * one) by (nonlinear_arith)
        requires
            v <= n + half,
            one > 0,
    ;
    assert(n * one <= v * one + half * one) by (nonlinear_arith)
        requires
            n <= v + half,
            one > 0,
    ;
    assert((-v) * one == -(v * one)) by (nonlinear_arith);
}

/// A quotient of positive numbers below 2^c is near the exact one.
pub proof fn quotients_are_close(f: Format, a: nat, b: nat, c: int)
    requires
        f.finite(a),
        !f.negative(a),
        f.finite(b),
        !f.negative(b),
        f.value(b) > 0,
        -90 <= c <= 100,
        f.value(a) * crate::float::unit_pow(0) < f.value(b) * crate::float::unit_pow(c),
    ensures
        f.holds(f.quotient(a, b)),
        f.finite(f.quotient(a, b)),
        !f.negative(f.quotient(a, b)),
        f.value(f.quotient(a, b)) * f.value(b) <= f.value(a) * crate::float::unit_pow(0) + f.value(b) * crate::float::unit_pow(
            c - f.precision() - 1,
        ),
        f.value(a) * crate::float::unit_pow(0) <= f.value(f.quotient(a, b)) * f.value(b) + f.value(b) * crate::float::unit_pow(
            c - f.precision() - 1,
        ),
{
    let (sa, sb) = (f.significand(a), f.significand(b));
    let (ea, eb) = (f.exponent(a), f.exponent(b));
    crate::float::number_parts(f, a);
    crate::float::number_parts(f, b);
    let ub = crate::float::unit_pow(eb);
    let one = crate::float::unit_pow(0);
    assert(sb > 0) by {
        if sb == 0 {
            assert(sb * ub == 0) by (nonlinear_arith)
                requires
                    sb == 0,
            ;
        }
    }
    let u = crate::float::unit_pow(ea - eb);
    let n = sa * u;
    crate::float::units_multiply(ea - eb, eb);
    crate::float::lemma_unit_pow_grows(eb, eb);
    let ua = crate::float::unit_pow(ea);
    assert(n * ub == (sa * ua) * one) by (nonlinear_arith)
        requires
            n == sa * u,
            ua * one == u * ub,
    ;
    let most = crate::float::unit_pow(c);
    assert(n < sb * most) by (nonlinear_arith)
        requires
            n * ub < (sb * ub) * most,
            ub > 0,
    ;
    lemma_nearest_is_close(f, n, sb, c);
    let m = f.nearest(n, sb);
    lemma_signed(f, false, m);
    let v = f.value(m);
    let half = crate::float::unit_pow(c - f.precision() - 1);
    assert(v * (sb * ub) <= n * ub + (sb * ub) * half) by (nonlinear_arith)
        requires
            v * sb <= n + sb * half,
            ub > 0,
    ;
    assert(n * ub <= v * (sb * ub) + (sb * ub) * half) by (nonlinear_arith)
        requires
            n <= v * sb + sb * half,
            ub > 0,
    ;
}

/// A quotient that is neither tiny nor huge is off by no more than a share of itself.
proof fn lemma_nearest_is_relative(f: Format, n: nat, d: nat)
    requires
        d > 0,
        d * crate::float::unit_pow(-90) <= n < d * crate::float::unit_pow(100),
    ensures
        f.nearest(n, d) < f.infinity(),
        f.value(f.nearest(n, d)) > 0,
        within(
            (f.value(f.nearest(n, d)) * d) * (2 * f.hidden()),
            (n * (2 * f.hidden())) as int,
            n as int,
        ),
{
    let p = f.precision();
    lemma_nearest_is_close(f, n, d, 100);
    crate::float::rounding_is_within_half_a_step(f, n, d);
    let k = f.quantum(n, d);
    if k == f.least() {
        crate::float::lemma_unit_pow_grows(k + p, -90);
        let (low, far) = (crate::float::unit_pow(k + p), crate::float::unit_pow(-90));
        assert(d * low <= d * far) by (nonlinear_arith)
            requires
                low <= far,
        ;
        assert(false);
    }
    crate::float::lemma_pow2_128();
    crate::float::lemma_unit_pow_adds(k, (p - 1) as nat);
    let u = crate::float::unit_pow(k);
    let h = f.hidden();
    lemma_hidden(f);
    let half = d * u;
    assert(d * (u * h) == half * h) by (nonlinear_arith)
        requires
            half == d * u,
    ;
    let v = f.value(f.nearest(n, d)) * d;
    assert(v * (2 * h) - n * (2 * h) <= n && n * (2 * h) - v * (2 * h) <= n) by (nonlinear_arith)
        requires
            2 * v <= 2 * n + half,
            2 * n <= 2 * v + half,
            half * h <= n,
            h > 0,
    ;
    crate::float::lemma_unit_pow_grows(-90, -90);
    let tiny = crate::float::unit_pow(-90);
    assert(d * tiny > 0) by (nonlinear_arith)
        requires
            d > 0,
            tiny > 0,
    ;
    let w = f.value(f.nearest(n, d));
    assert(w > 0) by (nonlinear_arith)
        requires
            w >= 0,
            n * (2 * h) - (w * d) * (2 * h) <= n,
            n > 0,
            h > 1,
    ;
}

proof fn lemma_hidden(f: Format)
    ensures
        f.hidden() == vstd::arithmetic::power2::pow2((f.precision() - 1) as nat),
        f.hidden() > 1,
{
    vstd::arithmetic::power2::lemma2_to64();
    vstd::arithmetic::power2::lemma2_to64_rest();
}

/// A product of positive numbers that is neither tiny nor huge is off by a share of itself.
pub proof fn products_are_relative(f: Format, a: nat, b: nat)
    requires
        f.finite(a),
        f.finite(b),
        !f.negative(a),
        !f.negative(b),
        crate::float::unit_pow(-90) * crate::float::unit_pow(0) <= f.value(a) * f.value(b)
            < crate::float::unit_pow(100) * crate::float::unit_pow(0),
    ensures
        f.holds(f.product(a, b)),
        f.finite(f.product(a, b)),
        !f.negative(f.product(a, b)),
        f.value(f.product(a, b)) > 0,
        within(
            (f.value(f.product(a, b)) * crate::float::unit_pow(0)) * (2 * f.hidden()),
            (f.value(a) * f.value(b)) * (2 * f.hidden()),
            f.value(a) * f.value(b),
        ),
{
    lemma_worths_multiply(f, a, b);
    let n = crate::float::scaled(
        f.significand(a) * f.significand(b),
        f.exponent(a) + f.exponent(b),
    );
    let one = crate::float::unit_pow(0);
    crate::float::lemma_unit_pow_grows(0, 0);
    let (low, high) = (crate::float::unit_pow(-90), crate::float::unit_pow(100));
    assert(low <= n < high) by (nonlinear_arith)
        requires
            low * one <= n * one < high * one,
            one > 0,
    ;
    lemma_nearest_is_relative(f, n, 1);
    let m = f.nearest(n, 1);
    lemma_signed(f, false, m);
    let v = f.value(m);
    let h = 2 * f.hidden() as int;
    let x = n as int;
    assert((v * one) * h - (x * one) * h <= x * one && (x * one) * h - (v * one) * h <= x * one)
        by (nonlinear_arith)
        requires
            (v * 1) * h - x * h <= x,
            x * h - (v * 1) * h <= x,
            one > 0,
    ;
}

/// A quotient of positive numbers that is neither tiny nor huge is off by a share of itself.
pub proof fn quotients_are_relative(f: Format, a: nat, b: nat)
    requires
        f.finite(a),
        f.finite(b),
        !f.negative(a),
        !f.negative(b),
        f.value(b) > 0,
        f.value(b) * crate::float::unit_pow(-90) <= f.value(a) * crate::float::unit_pow(0)
            < f.value(b) * crate::float::unit_pow(100),
    ensures
        f.holds(f.quotient(a, b)),
        f.finite(f.quotient(a, b)),
        !f.negative(f.quotient(a, b)),
        f.value(f.quotient(a, b)) > 0,
        within(
            (f.value(f.quotient(a, b)) * f.value(b)) * (2 * f.hidden()),
            (f.value(a) * crate::float::unit_pow(0)) * (2 * f.hidden()),
            f.value(a) * crate::float::unit_pow(0),
        ),
{
    let (sa, sb) = (f.significand(a), f.significand(b));
    let (ea, eb) = (f.exponent(a), f.exponent(b));
    crate::float::number_parts(f, a);
    crate::float::number_parts(f, b);
    let ub = crate::float::unit_pow(eb);
    let one = crate::float::unit_pow(0);
    assert(sb > 0) by {
        if sb == 0 {
            assert(sb * ub == 0) by (nonlinear_arith)
                requires
                    sb == 0,
            ;
        }
    }
    let u = crate::float::unit_pow(ea - eb);
    let n = sa * u;
    crate::float::units_multiply(ea - eb, eb);
    crate::float::lemma_unit_pow_grows(eb, eb);
    let ua = crate::float::unit_pow(ea);
    assert(n * ub == (sa * ua) * one) by (nonlinear_arith)
        requires
            n == sa * u,
            ua * one == u * ub,
    ;
    let (low, high) = (crate::float::unit_pow(-90), crate::float::unit_pow(100));
    assert(n < sb * high) by (nonlinear_arith)
        requires
            n * ub < (sb * ub) * high,
            ub > 0,
    ;
    assert(sb * low <= n) by (nonlinear_arith)
        requires
            (sb * ub) * low <= n * ub,
            ub > 0,
    ;
    lemma_nearest_is_relative(f, n, sb);
    let m = f.nearest(n, sb);
    lemma_signed(f, false, m);
    let v = f.value(m);
    let h = 2 * f.hidden() as int;
    let (x, w) = (n as int, v * sb);
    assert((w * ub) * h - (x * ub) * h <= x * ub && (x * ub) * h - (w * ub) * h <= x * ub)
        by (nonlinear_arith)
        requires
            w * h - x * h <= x,
            x * h - w * h <= x,
            ub > 0,
    ;
    assert(v * (sb * ub) == w * ub) by (nonlinear_arith)
        requires
            w == v * sb,
    ;
}

/// Whether a number is n/d, but for `k` parts of 2^24 of it.
pub open spec fn about(x: int, n: int, d: int, k: int) -> bool {
    within((x * d) * 0x100_0000, n * 0x100_0000, k * n)
}

/// Multiplying by a/b what is about n/d gives about their product, a little less exactly.
pub proof fn about_scales(x: int, n: int, d: int, k: int, y: int, a: int, b: int)
    requires
        about(x, n, d, k),
        within((y * b) * 0x100_0000, (x * a) * 0x100_0000, x * a),
        x > 0,
        n > 0,
        d > 0,
        a > 0,
        b > 0,
        0 <= k <= 0x100_0000,
    ensures
        about(y, n * a, d * b, k + 2),
{
    let m: int = 0x100_0000;
    let (xd, yb, xa, na) = (x * d, y * b, x * a, n * a);
    let ybd = yb * d;
    let xda = xd * a;
    assert(xda == xa * d) by (nonlinear_arith)
        requires
            xda == (x * d) * a,
            xa == x * a,
    ;
    assert(ybd * m - xda * m <= xda && xda * m - ybd * m <= xda) by (nonlinear_arith)
        requires
            yb * m - xa * m <= xa,
            xa * m - yb * m <= xa,
            ybd == yb * d,
            xda == xa * d,
            d > 0,
    ;
    let kna = k * na;
    assert(xda * m - na * m <= kna && na * m - xda * m <= kna) by (nonlinear_arith)
        requires
            xd * m - n * m <= k * n,
            n * m - xd * m <= k * n,
            xda == xd * a,
            na == n * a,
            kna == k * na,
            a > 0,
    ;
    assert(kna <= m * na && na > 0) by (nonlinear_arith)
        requires
            kna == k * na,
            k <= m,
            na == n * a,
            n > 0,
            a > 0,
    ;
    assert(xda <= 2 * na);
    assert((k + 2) * na == kna + 2 * na) by (nonlinear_arith)
        requires
            kna == k * na,
    ;
    assert(y * (d * b) == ybd) by (nonlinear_arith)
        requires
            ybd == (y * b) * d,
    ;
}

/// One over what is about n/d is about d/n, in units of `u` squared.
pub proof fn about_inverts(x: int, n: int, d: int, k: int, y: int, u: int)
    requires
        about(x, n, d, k),
        within((y * x) * 0x100_0000, (u * u) * 0x100_0000, u * u),
        x > 0,
        n > 0,
        d > 0,
        y > 0,
        u > 0,
        0 <= k <= 0x10_0000,
    ensures
        about(y, d * (u * u), n, 4 * k + 1),
{
    let m: int = 0x100_0000;
    let (xd, yx, uu) = (x * d, y * x, u * u);
    let (yn, yxd, uud) = (y * n, yx * d, uu * d);
    assert(uu > 0) by (nonlinear_arith)
        requires
            uu == u * u,
            u > 0,
    ;
    assert(yxd * m - uud * m <= uud && uud * m - yxd * m <= uud) by (nonlinear_arith)
        requires
            yx * m - uu * m <= uu,
            uu * m - yx * m <= uu,
            yxd == yx * d,
            uud == uu * d,
            d > 0,
    ;
    assert(yxd == y * xd) by (nonlinear_arith)
        requires
            yxd == (y * x) * d,
            xd == x * d,
    ;
    let kyn = k * yn;
    assert(yxd * m - yn * m <= kyn && yn * m - yxd * m <= kyn) by (nonlinear_arith)
        requires
            xd * m - n * m <= k * n,
            n * m - xd * m <= k * n,
            yxd == y * xd,
            yn == y * n,
            kyn == k * yn,
            y > 0,
    ;
    assert(2 * kyn <= m * yn && yn > 0) by (nonlinear_arith)
        requires
            kyn == k * yn,
            2 * k <= m,
            yn == y * n,
            y > 0,
            n > 0,
    ;
    assert(yn <= 2 * yxd);
    assert(yxd <= 2 * uud);
    assert(kyn <= (4 * k) * uud) by (nonlinear_arith)
        requires
            kyn == k * yn,
            yn <= 4 * uud,
            k >= 0,
    ;
    assert((4 * k + 1) * uud == (4 * k) * uud + uud) by (nonlinear_arith);
    assert(d * (u * u) == uud) by (nonlinear_arith)
        requires
            uud == (u * u) * d,
    ;
}

/// A positive number over one that is no larger is at least one.
pub proof fn shares_are_at_least_one(f: Format, a: nat, b: nat)
    requires
        f.finite(a),
        !f.negative(a),
        f.finite(b),
        !f.negative(b),
        f.value(b) <= f.value(a),
        f.value(b) > 0,
    ensures
        f.of(1) <= f.quotient(a, b) <= f.infinity(),
{
    let sa = f.significand(a);
    let sb = f.significand(b);
    let ea = f.exponent(a);
    let eb = f.exponent(b);
    crate::float::number_parts(f, a);
    crate::float::number_parts(f, b);
    let u = crate::float::unit_pow(ea - eb);
    let ua = crate::float::unit_pow(ea);
    let ub = crate::float::unit_pow(eb);
    let one = crate::float::unit_pow(0);
    assert(sb > 0) by {
        if sb == 0 {
            assert(sb * ub == 0) by (nonlinear_arith)
                requires
                    sb == 0,
            ;
        }
    }
    crate::float::units_multiply(ea - eb, eb);
    crate::float::lemma_unit_pow_grows(eb, eb);
    crate::float::lemma_unit_pow_grows(0, 0);
    assert((sa * u) * ub == (sa * ua) * one) by (nonlinear_arith)
        requires
            ua * one == u * ub,
    ;
    assert((sb * one) * ub <= (sa * ua) * one) by (nonlinear_arith)
        requires
            sb * ub <= sa * ua,
            one > 0,
    ;
    assert(sb * one <= sa * u) by (nonlinear_arith)
        requires
            (sb * one) * ub <= (sa * u) * ub,
            ub > 0,
    ;
    crate::float::rounding_keeps_order(f, sb * one, sa * u, sb);
    crate::float::lemma_nearest_cancels(f, one, sb);
    assert(crate::float::scaled(1, 0) == one);
}

/// A number that is not below zero and below `most` rounds to the nearest integer.
pub proof fn rounds_to_nearest(f: Format, r: nat, most: nat, limit: int)
    requires
        f.finite(r),
        f.value(r) > -(crate::float::unit_pow(0) as int) / 4,
        f.value(r) < limit * crate::float::unit_pow(0),
        0 < limit < most,
    ensures
        f.rounded(r, most) <= limit,
        within(
            2 * (f.rounded(r, most) * crate::float::unit_pow(0) as int),
            2 * f.value(r),
            crate::float::unit_pow(0) as int,
        ),
{
    crate::float::lemma_unit_pow_grows(0, 0);
    let u = crate::float::unit_pow(0) as int;
    let z = f.value(r);
    let step = f.rounded(r, most) as int;
    lemma_worth_is_signed(f, r);
    if f.negative(r) {
        assert(step * u == 0) by (nonlinear_arith)
            requires
                step == 0,
        ;
    } else {
        let w = (2 * z + u) / (2 * u);
        lemma_fundamental_div_mod(2 * z + u, 2 * u);
        assert(2 * (w * u) == (2 * u) * w) by (nonlinear_arith);
        assert(w <= limit) by (nonlinear_arith)
            requires
                (2 * u) * w <= 2 * z + u,
                z < limit * u,
                u > 0,
        ;
        lemma_div_pos_is_pos(2 * z + u, 2 * u);
        assert(step * u == w * u);
    }
}

pub proof fn lemma_double_units()
    ensures
        crate::float::unit_pow(0) == 0x10_0000_0000 * crate::float::unit_pow(-36),
        crate::float::unit_pow(-36) > 0,
        crate::float::unit_pow(18) == 262144 * crate::float::unit_pow(0),
{
    vstd::arithmetic::power2::lemma2_to64();
    vstd::arithmetic::power2::lemma2_to64_rest();
    crate::float::lemma_unit_pow_adds(-36, 36);
    crate::float::lemma_unit_pow_adds(0, 18);
    let (e, u) = (crate::float::unit_pow(-36), crate::float::unit_pow(0));
    assert(e * 0x10_0000_0000 == 0x10_0000_0000 * e && u * 262144 == 262144 * u)
        by (nonlinear_arith);
}

// -------------------------------------------------------------------------------------------
// Single precision
// -------------------------------------------------------------------------------------------

/// What a finite number is worth, in the same units as `unit`.
pub open spec fn worth(x: Real32) -> int {
    Format::Single.value(x.at())
}

/// What 1 is worth.
pub open spec fn unit() -> int {
    crate::float::unit_pow(0) as int
}

/// The most that one operation on numbers below 8 is off: a four-millionth.
pub open spec fn slack() -> int {
    crate::float::unit_pow(-22) as int
}

/// A number between two others, which a result within `off` of `exact` is.
pub open spec fn within(x: int, exact: int, off: int) -> bool {
    -off <= x - exact <= off
}

pub proof fn lemma_units()
    ensures
        unit() == 0x40_0000 * slack(),
        slack() > 0,
        crate::float::unit_pow(3) == 8 * unit(),
        crate::float::unit_pow(8) == 256 * unit(),
        crate::float::unit_pow(-17) == 32 * slack(),
{
    vstd::arithmetic::power2::lemma2_to64();
    vstd::arithmetic::power2::lemma2_to64_rest();
    crate::float::lemma_unit_pow_adds(-22, 22);
    crate::float::lemma_unit_pow_adds(-22, 5);
    crate::float::lemma_unit_pow_adds(0, 3);
    crate::float::lemma_unit_pow_adds(0, 8);
    let s = slack();
    assert(s * 0x40_0000 == 0x40_0000 * s) by (nonlinear_arith);
    assert(s * 32 == 32 * s) by (nonlinear_arith);
    let u = unit();
    assert(u * 8 == 8 * u && u * 256 == 256 * u) by (nonlinear_arith);
}

pub proof fn near_sum(a: Real32, b: Real32)
    requires
        a.finite(),
        b.finite(),
        -8 * unit() < worth(a) + worth(b) < 8 * unit(),
    ensures
        a.plus(b).finite(),
        within(worth(a.plus(b)), worth(a) + worth(b), slack()),
{
    reveal(Real32::finite);
    reveal(Real32::plus);
    lemma_units();
    sums_are_close(Format::Single, a.at(), b.at(), 3);
}

pub proof fn near_difference(a: Real32, b: Real32)
    requires
        a.finite(),
        b.finite(),
        -8 * unit() < worth(a) - worth(b) < 8 * unit(),
    ensures
        a.minus(b).finite(),
        within(worth(a.minus(b)), worth(a) - worth(b), slack()),
{
    reveal(Real32::finite);
    reveal(Real32::minus);
    lemma_units();
    differences_are_close(Format::Single, a.at(), b.at(), 3);
}

pub proof fn near_product(a: Real32, b: Real32)
    requires
        a.finite(),
        b.finite(),
        within(worth(a) * worth(b), 0, 8 * unit() * unit() - 1),
    ensures
        a.times(b).finite(),
        within(worth(a.times(b)) * unit(), worth(a) * worth(b), slack() * unit()),
{
    reveal(Real32::finite);
    reveal(Real32::times);
    lemma_units();
    let u = unit();
    assert((8 * u) * u == 8 * u * u) by (nonlinear_arith);
    products_are_close(Format::Single, a.at(), b.at(), 3);
}

/// A product with a number worth n/d is near n/d of the other.
pub proof fn near_part(a: Real32, b: Real32, n: int, d: int)
    requires
        a.finite(),
        b.finite(),
        d > 0,
        worth(a) * d == n * unit(),
        -d * 2 <= n <= d * 2,
        -4 * unit() < worth(b) < 4 * unit(),
    ensures
        a.times(b).finite(),
        within(worth(a.times(b)) * d, n * worth(b), slack() * d),
{
    lemma_units();
    let (x, y, u, s) = (worth(a), worth(b), unit(), slack());
    assert(-2 * u <= x <= 2 * u) by (nonlinear_arith)
        requires
            x * d == n * u,
            -d * 2 <= n <= d * 2,
            d > 0,
            u > 0,
    ;
    assert(-(8 * u * u) < x * y < 8 * u * u) by (nonlinear_arith)
        requires
            -2 * u <= x <= 2 * u,
            -4 * u < y < 4 * u,
            u > 0,
    ;
    near_product(a, b);
    let z = worth(a.times(b));
    let (zu, xy, su) = (z * u, x * y, s * u);
    assert((z * d) * u == d * zu) by (nonlinear_arith)
        requires
            zu == z * u,
    ;
    assert((s * d) * u == d * su) by (nonlinear_arith)
        requires
            su == s * u,
    ;
    assert((n * y) * u == d * xy) by (nonlinear_arith)
        requires
            xy == x * y,
            x * d == n * u,
    ;
    assert(d * zu - d * xy <= d * su && d * xy - d * zu <= d * su) by (nonlinear_arith)
        requires
            zu - xy <= su,
            xy - zu <= su,
            d > 0,
    ;
    assert(z * d - n * y <= s * d && n * y - z * d <= s * d) by (nonlinear_arith)
        requires
            (z * d) * u - (n * y) * u <= (s * d) * u,
            (n * y) * u - (z * d) * u <= (s * d) * u,
            u > 0,
    ;
}

/// An 8-bit step as a share of the brightest is near what it says.
pub proof fn near_share(byte: u8)
    ensures
        crate::crt::lut::share(byte).finite(),
        within(255 * worth(crate::crt::lut::share(byte)), byte * unit(), 255 * slack()),
        0 <= worth(crate::crt::lut::share(byte)) <= unit(),
{
    reveal(Real32::finite);
    reveal(Real32::over);
    reveal(Real32::of);
    lemma_units();
    let f = Format::Single;
    let (a, b) = (f.of(byte as nat), f.of(255));
    crate::float::small_integers_are_exact(f, byte as nat);
    crate::float::small_integers_are_exact(f, 255);
    crate::float::one_is_exact(f);
    crate::float::small_integers_are_exact(f, 1);
    let u = unit();
    let s = slack();
    let n = byte as int;
    assert(n * u <= 255 * u) by (nonlinear_arith)
        requires
            n <= 255,
            u > 0,
    ;
    assert(n * u >= 0) by (nonlinear_arith)
        requires
            n >= 0,
            u > 0,
    ;
    let (va, vb) = (f.value(a), f.value(b));
    assert(va * u < vb * (8 * u)) by (nonlinear_arith)
        requires
            va <= 255 * u,
            vb == 255 * u,
            u > 0,
    ;
    quotients_are_close(f, a, b, 3);
    crate::float::shares_are_at_most_one(f, a, b);
    let q = f.quotient(a, b);
    let v = f.value(q);
    assert(within(255 * v, n * u, 255 * s)) by {
        assert(255 * v <= n * u + 255 * s) by (nonlinear_arith)
            requires
                v * vb <= va * u + vb * s,
                vb == 255 * u,
                va == n * u,
                u > 0,
        ;
        assert(n * u <= 255 * v + 255 * s) by (nonlinear_arith)
            requires
                va * u <= v * vb + vb * s,
                vb == 255 * u,
                va == n * u,
                u > 0,
        ;
    }
    crate::float::worth_follows_magnitude(f, q, f.of(1));
    vstd::arithmetic::div_mod::lemma_small_mod(q, f.sign());
}

/// A number kept within 0 and 1 is worth as much, kept within those.
pub proof fn near_clamped(v: Real32)
    requires
        v.finite(),
    ensures
        crate::crt::lut::unit_clamped(v).finite(),
        worth(crate::crt::lut::unit_clamped(v)) == (if worth(v) < 0 {
            0
        } else if worth(v) > unit() {
            unit()
        } else {
            worth(v)
        }),
{
    reveal(Real32::finite);
    reveal(Real32::below);
    let f = Format::Single;
    crate::float::one_is_exact(f);
    crate::float::small_integers_are_exact(f, 1);
    let u = crate::float::unit_pow(f.exponent(0));
    assert(0nat * u == 0) by (nonlinear_arith);
    assert(f.value(0) == 0);
    crate::float::order_follows_value(f, v.at(), 0);
    crate::float::order_follows_value(f, f.of(1), v.at());
}

/// The 8-bit step of a share is the nearest one to it, as exactly as the share is held.
pub proof fn near_step(v: Real32)
    requires
        v.finite(),
    ensures
        ({
            let step = crate::crt::lut::unit_clamped(v).times(Real32::of(255)).rounded(255);
            let kept = if worth(v) < 0 {
                0
            } else if worth(v) > unit() {
                unit()
            } else {
                worth(v)
            };
            step <= 255 && within(2 * (step * unit()), 2 * (255 * kept), unit() + 64 * slack())
        }),
{
    near_clamped(v);
    lemma_units();
    reveal(Real32::finite);
    reveal(Real32::of);
    reveal(Real32::times);
    reveal(Real32::rounded);
    let f = Format::Single;
    let x = crate::crt::lut::unit_clamped(v);
    let kept = worth(x);
    let (u, s) = (unit(), slack());
    crate::float::small_integers_are_exact(f, 255);
    let y = f.value(f.of(255));
    assert(kept * y == (255 * kept) * u) by (nonlinear_arith)
        requires
            y == 255 * u,
    ;
    assert(0 <= (255 * kept) * u <= (255 * u) * u) by (nonlinear_arith)
        requires
            0 <= kept <= u,
            u > 0,
    ;
    assert((255 * u) * u < (256 * u) * u) by (nonlinear_arith)
        requires
            u > 0,
    ;
    products_are_close(f, x.at(), f.of(255), 8);
    let r = f.product(x.at(), f.of(255));
    let z = f.value(r);
    assert(within(z, 255 * kept, 32 * s)) by {
        assert(z - 255 * kept <= 32 * s) by (nonlinear_arith)
            requires
                z * u - (255 * kept) * u <= (32 * s) * u,
                u > 0,
        ;
        assert(255 * kept - z <= 32 * s) by (nonlinear_arith)
            requires
                (255 * kept) * u - z * u <= (32 * s) * u,
                u > 0,
        ;
    }
    let step = f.rounded(r, 255);
    if f.negative(r) {
        lemma_worth_is_signed(f, r);
        assert(step * u == 0) by (nonlinear_arith)
            requires
                step == 0,
        ;
    } else {
        lemma_worth_is_signed(f, r);
        let w = (2 * z + u) / (2 * u);
        lemma_fundamental_div_mod(2 * z + u, 2 * u);
        assert(2 * (w * u) == (2 * u) * w) by (nonlinear_arith);
        if w >= 255 {
            assert(w * u >= 255 * u) by (nonlinear_arith)
                requires
                    w >= 255,
                    u > 0,
            ;
        }
        lemma_div_pos_is_pos(2 * z + u, 2 * u);
        if w >= 255 {
            assert(step * u == 255 * u);
        } else {
            assert(step * u == w * u);
        }
    }
}

proof fn lemma_worth_is_signed(f: Format, r: nat)
    requires
        f.finite(r),
    ensures
        f.negative(r) ==> f.value(r) <= 0,
        !f.negative(r) ==> f.value(r) >= 0,
{
}

pub proof fn products_commute(a: Real32, b: Real32)
    ensures
        a.times(b) == b.times(a),
{
    reveal(Real32::times);
    let f = Format::Single;
    let (x, y) = (a.at(), b.at());
    assert(f.significand(x) * f.significand(y) == f.significand(y) * f.significand(x))
        by (nonlinear_arith);
}

/// A product with a number of at most `m` is at most that many times the other.
pub proof fn near_small(a: Real32, b: Real32, most: int, m: int)
    requires
        a.finite(),
        b.finite(),
        within(worth(a), 0, most),
        within(worth(b), 0, m * unit()),
        0 <= m <= 3,
        0 <= most <= 2 * unit(),
    ensures
        a.times(b).finite(),
        within(worth(a.times(b)), 0, m * most + slack()),
{
    lemma_units();
    let (x, y, u, s) = (worth(a), worth(b), unit(), slack());
    assert(-(most * (m * u)) <= x * y <= most * (m * u)) by (nonlinear_arith)
        requires
            -most <= x <= most,
            -(m * u) <= y <= m * u,
            m >= 0,
            u > 0,
    ;
    assert(most * (m * u) < 8 * u * u) by (nonlinear_arith)
        requires
            0 <= most <= 2 * u,
            0 <= m <= 3,
            u > 0,
    ;
    near_product(a, b);
    let z = worth(a.times(b));
    assert(-(m * most + s) <= z <= m * most + s) by (nonlinear_arith)
        requires
            -(most * (m * u)) <= x * y <= most * (m * u),
            z * u - x * y <= s * u,
            x * y - z * u <= s * u,
            u > 0,
    ;
}

/// Whether the number with these bits is worth n/d.
pub open spec fn is_part(bits: u32, n: int, d: int) -> bool {
    let x = Real32 { bits };
    x.finite() && worth(x) * d == n * unit()
}

/// What a literal number is worth.
pub proof fn lemma_literal(bits: u32, n: nat, w: nat, d: nat)
    requires
        bits < 0x7f80_0000,
        Format::Single.significand(bits as nat) == n,
        Format::Single.exponent(bits as nat) == -w,
        w <= 60,
        d == vstd::arithmetic::power2::pow2(w),
    ensures
        is_part(bits, n as int, d as int),
{
    reveal(Real32::finite);
    crate::float::lemma_unit_pow_adds(-(w as int), w);
    let f = Format::Single;
    lemma_small_mod(bits as nat, f.sign());
    let u = crate::float::unit_pow(-(w as int));
    assert((n * u) * d == n * (u * d)) by (nonlinear_arith);
}

// -------------------------------------------------------------------------------------------
// Doubles
// -------------------------------------------------------------------------------------------

/// What a double is worth.
pub open spec fn double_worth(x: Real64) -> int {
    Format::Double.value(x.at())
}

/// A whole number is held exactly.
pub proof fn whole_numbers_are_exact(n: nat)
    requires
        n < 0x20_0000_0000_0000,
    ensures
        Real64::of(n).finite(),
        !Format::Double.negative(Real64::of(n).at()),
        Real64::of(n).at() == Format::Double.of(n),
        double_worth(Real64::of(n)) == n * unit(),
{
    reveal(Real64::of);
    reveal(Real64::finite);
    crate::float::small_integers_are_exact(Format::Double, n);
}

/// The product of two whole numbers is exact where it is held exactly.
pub proof fn whole_products_are_exact(a: nat, b: nat)
    requires
        a < 0x20_0000_0000_0000,
        b < 0x20_0000_0000_0000,
        a * b < 0x20_0000_0000_0000,
    ensures
        Real64::of(a).times(Real64::of(b)) == Real64::of(a * b),
{
    reveal(Real64::times);
    reveal(Real64::finite);
    whole_numbers_are_exact(a);
    whole_numbers_are_exact(b);
    whole_numbers_are_exact(a * b);
    lemma_units();
    let f = Format::Double;
    let (x, y) = (f.of(a), f.of(b));
    lemma_worths_multiply(f, x, y);
    let u = unit();
    let n = crate::float::scaled(
        f.significand(x) * f.significand(y),
        f.exponent(x) + f.exponent(y),
    );
    let (ai, bi, ni) = (a as int, b as int, n as int);
    assert((ai * u) * (bi * u) == ((ai * bi) * u) * u) by (nonlinear_arith);
    let m = (ai * bi) * u;
    assert(ni == m) by (nonlinear_arith)
        requires
            ni * u == m * u,
            u > 0,
    ;
    assert(n == crate::float::scaled(a * b, 0));
    assert(f.product(x, y) == f.of(a * b));
    reveal(Real64::of);
}

/// The whole number nearest to a ratio of whole numbers, found by dividing and rounding, is one
/// nearest to the exact ratio.
pub proof fn ratios_round_to_nearest(n: nat, d: nat, most: nat)
    requires
        0 < d < 0x10_0000,
        n < 0x8000_0000 * d,
        0x8000_0000 < most,
    ensures
        Real64::of(n).over(Real64::of(d)).rounded(most) <= 0x8000_0000,
        within(
            2 * (Real64::of(n).over(Real64::of(d)).rounded(most) * d) as int,
            2 * n as int,
            d as int,
        ),
{
    reveal(Real64::over);
    reveal(Real64::rounded);
    reveal(Real64::finite);
    vstd::arithmetic::power2::lemma2_to64();
    vstd::arithmetic::power2::lemma2_to64_rest();
    crate::float::lemma_unit_pow_adds(-23, 23);
    crate::float::lemma_unit_pow_adds(0, 31);
    let (ni, di) = (n as int, d as int);
    assert(ni < 0x8000_0000_0000_0) by (nonlinear_arith)
        requires
            ni < 0x8000_0000 * di,
            di < 0x10_0000,
    ;
    whole_numbers_are_exact(n);
    whole_numbers_are_exact(d);
    lemma_units();
    let f = Format::Double;
    let u = unit();
    let e = crate::float::unit_pow(-23) as int;
    let big = crate::float::unit_pow(31) as int;
    let (x, y) = (f.of(n), f.of(d));
    let (a, b) = (ni * u, di * u);
    assert(e * 0x80_0000 == 0x80_0000 * e && u * 0x8000_0000 == 0x8000_0000 * u)
        by (nonlinear_arith);
    assert(b > 0 && a * u < b * big) by (nonlinear_arith)
        requires
            a == ni * u,
            b == di * u,
            big == 0x8000_0000 * u,
            ni < 0x8000_0000 * di,
            u > 0,
            di > 0,
    ;
    quotients_are_close(f, x, y, 31);
    let q = f.quotient(x, y);
    let v = f.value(q);
    let vd = v * di;
    assert(v * b == vd * u && b * e == (di * e) * u && a * u == (ni * u) * u) by (nonlinear_arith)
        requires
            b == di * u,
            a == ni * u,
            vd == v * di,
    ;
    let de = di * e;
    assert(vd - a <= de && a - vd <= de) by (nonlinear_arith)
        requires
            vd * u <= a * u + de * u,
            a * u <= vd * u + de * u,
            u > 0,
    ;
    assert(2 * de < u) by (nonlinear_arith)
        requires
            de == di * e,
            di < 0x10_0000,
            e > 0,
            u == 0x80_0000 * e,
    ;
    let top = 0x8000_0000 * u;
    assert(v < top) by (nonlinear_arith)
        requires
            v * di <= a + de,
            a == ni * u,
            ni + 1 <= 0x8000_0000 * di,
            2 * de < u,
            top == 0x8000_0000 * u,
            u > 0,
            di > 0,
    ;
    assert(v >= 0);
    rounds_to_nearest(f, q, most, 0x8000_0000);
    let r = f.rounded(q, most) as int;
    let rd = r * di;
    let ru = r * u;
    assert(within(2 * (rd * u), 2 * vd, b)) by (nonlinear_arith)
        requires
            within(2 * ru, 2 * v, u),
            ru == r * u,
            rd == r * di,
            vd == v * di,
            b == di * u,
            di > 0,
    ;
    assert(within(2 * rd, 2 * ni, di)) by (nonlinear_arith)
        requires
            within(2 * (rd * u), 2 * vd, b),
            vd - a <= de,
            a - vd <= de,
            2 * de < u,
            a == ni * u,
            b == di * u,
            u > 0,
    ;
}

/// A side times a share of at most one, found by dividing, multiplying and rounding, is the whole
/// number nearest to the exact product.
#[verifier::rlimit(30)]
pub proof fn shares_round_to_nearest(side: nat, part: nat, whole: nat)
    requires
        0 < whole <= 16384,
        0 < part <= whole,
        0 < side <= 16384,
    ensures
        ({
            let share = Real64::of(part).over(Real64::of(whole)).lesser(Real64::of(1));
            let r = Real64::of(side).times(share).rounded(u32::MAX as nat);
            r <= 0x1_0000 && within(
                2 * (r * whole) as int,
                2 * (side * part) as int,
                whole as int,
            )
        }),
{
    reveal(Real64::over);
    reveal(Real64::times);
    reveal(Real64::rounded);
    reveal(Real64::finite);
    reveal(Real64::below);
    vstd::arithmetic::power2::lemma2_to64();
    vstd::arithmetic::power2::lemma2_to64_rest();
    crate::float::lemma_unit_pow_adds(-53, 53);
    crate::float::lemma_unit_pow_adds(-38, 38);
    crate::float::lemma_unit_pow_adds(0, 1);
    crate::float::lemma_unit_pow_adds(0, 16);
    whole_numbers_are_exact(side);
    whole_numbers_are_exact(part);
    whole_numbers_are_exact(whole);
    whole_numbers_are_exact(1);
    lemma_units();
    let f = Format::Double;
    let u = unit();
    let e = crate::float::unit_pow(-52) as int;
    let g = crate::float::unit_pow(-38) as int;
    crate::float::lemma_unit_pow_adds(-52, 52);
    crate::float::lemma_unit_pow_adds(-52, 14);
    let two = crate::float::unit_pow(1) as int;
    let big = crate::float::unit_pow(16) as int;
    let (n, d, s) = (part as int, whole as int, side as int);
    let (a, b) = (n * u, d * u);
    assert(e * 0x10_0000_0000_0000 == 0x10_0000_0000_0000 * e && g * 0x40_0000_0000
        == 0x40_0000_0000 * g && u * 2 == 2 * u && u * 0x1_0000 == 0x1_0000 * u && e * 0x4000
        == 0x4000 * e) by (nonlinear_arith);
    assert(b > 0 && a * u < b * two && a <= b) by (nonlinear_arith)
        requires
            a == n * u,
            b == d * u,
            two == 2 * u,
            0 < n <= d,
            u > 0,
    ;
    let (x, y) = (f.of(part), f.of(whole));
    quotients_are_close(f, x, y, 1);
    crate::float::lemma_unit_pow_grows(-53, -52);
    let q = f.quotient(x, y);
    let v = f.value(q);
    crate::float::shares_are_at_most_one(f, x, y);
    crate::float::order_follows_value(f, q, f.of(1));
    let share = Real64::of(part).over(Real64::of(whole)).lesser(Real64::of(1));
    assert(share == Real64::of(part).over(Real64::of(whole))) by {
        crate::float::order_follows_value(f, f.of(1), q);
    }
    assert(share.at() == q);
    let vd = v * d;
    let de = d * e;
    let fine = crate::float::unit_pow(-53) as int;
    let df = d * fine;
    assert(v * b == vd * u && b * fine == df * u && a * u == (n * u) * u) by (nonlinear_arith)
        requires
            b == d * u,
            a == n * u,
            vd == v * d,
            df == d * fine,
    ;
    assert(vd - a <= df && a - vd <= df) by (nonlinear_arith)
        requires
            vd * u <= a * u + df * u,
            a * u <= vd * u + df * u,
            u > 0,
    ;
    assert(df <= de) by (nonlinear_arith)
        requires
            df == d * fine,
            de == d * e,
            fine <= e,
            d > 0,
    ;
    // The product.
    let su = s * u;
    assert(v >= 0 && v <= u);
    let sv = s * v;
    assert(su * v == sv * u) by (nonlinear_arith)
        requires
            su == s * u,
            sv == s * v,
    ;
    assert(0 <= sv <= s * u && sv < big) by (nonlinear_arith)
        requires
            sv == s * v,
            0 <= v <= u,
            0 < s <= 16384,
            big == 0x1_0000 * u,
            u > 0,
    ;
    assert(-(big * u) < su * v < big * u) by (nonlinear_arith)
        requires
            su * v == sv * u,
            0 <= sv < big,
            u > 0,
    ;
    products_are_close(f, f.of(side), q, 16);
    let p = f.product(f.of(side), q);
    let w = f.value(p);
    assert(w - sv <= g && sv - w <= g) by (nonlinear_arith)
        requires
            w * u - sv * u <= g * u,
            sv * u - w * u <= g * u,
            u > 0,
    ;
    assert(w >= -u / 4 && w > -u / 4);
    assert(w < 0x1_0000 * u) by (nonlinear_arith)
        requires
            w - sv <= g,
            sv <= s * u,
            s <= 16384,
            u == 0x40_0000_0000 * g,
            g > 0,
            u > 0,
    ;
    rounds_to_nearest(f, p, u32::MAX as nat, 0x1_0000);
    let r = f.rounded(p, u32::MAX as nat) as int;
    let (ru, rd, wd, gd) = (r * u, r * d, w * d, g * d);
    assert(within(2 * (rd * u), 2 * wd, b)) by (nonlinear_arith)
        requires
            within(2 * ru, 2 * w, u),
            ru == r * u,
            rd == r * d,
            wd == w * d,
            b == d * u,
            d > 0,
    ;
    let svd = s * vd;
    assert(within(wd, svd, gd)) by (nonlinear_arith)
        requires
            w - sv <= g,
            sv - w <= g,
            wd == w * d,
            sv == s * v,
            vd == v * d,
            svd == s * vd,
            gd == g * d,
            d > 0,
    ;
    let sa = s * a;
    let sde = s * de;
    assert(within(svd, sa, sde)) by (nonlinear_arith)
        requires
            vd - a <= de,
            a - vd <= de,
            svd == s * vd,
            sa == s * a,
            sde == s * de,
            s > 0,
    ;
    let sn = s * n;
    assert(sa == sn * u) by (nonlinear_arith)
        requires
            sa == s * a,
            a == n * u,
            sn == s * n,
    ;
    assert(2 * gd + 2 * sde < u) by (nonlinear_arith)
        requires
            gd == g * d,
            sde == s * de,
            de == d * e,
            0 < d <= 16384,
            0 < s <= 16384,
            u == 0x40_0000_0000 * g,
            u == 0x10_0000_0000_0000 * e,
            g > 0,
            e > 0,
    ;
    assert(within(2 * rd, 2 * sn, d)) by (nonlinear_arith)
        requires
            within(2 * (rd * u), 2 * wd, b),
            within(wd, svd, gd),
            within(svd, sa, sde),
            2 * gd + 2 * sde < u,
            sa == sn * u,
            b == d * u,
            u > 0,
    ;
    assert(p == Real64::of(side).times(share).at());
}

/// Zero is worth nothing, and nothing rounds to it.
pub proof fn lemma_zero(f: Format)
    ensures
        f.value(0) == 0,
        f.nearest(0, 1) == 0,
        f.magnitude(0) == 0,
{
    lemma_small_mod(0, f.sign());
    let e = crate::float::unit_pow(f.exponent(0)) as int;
    assert(f.significand(0) == 0);
    assert(0 * e == 0) by (nonlinear_arith);
    crate::float::rounding_keeps_numbers(f, 0);
}

/// A difference lies on the side of zero that the exact one does.
pub proof fn differences_keep_sides(f: Format, a: nat, b: nat)
    requires
        f.holds(a),
        f.holds(b),
        f.finite(a),
        f.finite(b),
    ensures
        f.value(a) >= f.value(b) ==> f.value(f.difference(a, b)) >= 0,
        f.value(a) <= f.value(b) ==> f.value(f.difference(a, b)) <= 0,
        f.holds(f.difference(a, b)),
{
    lemma_negated(f, b);
    let v = f.value(a) - f.value(b);
    let n = f.negated(b);
    lemma_signed(f, f.negative(a) && f.negative(n), 0);
    lemma_zero(f);
    if v > 0 {
        crate::float::rounding_keeps_order(f, 0, v as nat, 1);
        lemma_small_mod(f.nearest(v as nat, 1), f.sign());
    } else if v < 0 {
        let m = f.nearest((-v) as nat, 1);
        crate::float::rounding_keeps_order(f, 0, (-v) as nat, 1);
        let s = f.sign();
        lemma_small_mod(m, s);
        lemma_fundamental_div_mod_converse((s + m) as int, s as int, 1, m as int);
    }
}

/// Products of numbers that are not negative grow with either.
pub proof fn products_keep_order(f: Format, a: nat, b: nat, c: nat)
    requires
        f.finite(a),
        f.finite(b),
        f.finite(c),
        !f.negative(a),
        !f.negative(b),
        !f.negative(c),
        f.value(a) <= f.value(b),
    ensures
        f.at_most(f.product(a, c), f.product(b, c)),
        !f.negative(f.product(a, c)),
        !f.negative(f.product(b, c)),
        f.product(a, c) == f.product(c, a),
        f.product(b, c) == f.product(c, b),
{
    lemma_worths_multiply(f, a, c);
    lemma_worths_multiply(f, b, c);
    lemma_units();
    let u = unit();
    let n1 = crate::float::scaled(
        f.significand(a) * f.significand(c),
        f.exponent(a) + f.exponent(c),
    );
    let n2 = crate::float::scaled(
        f.significand(b) * f.significand(c),
        f.exponent(b) + f.exponent(c),
    );
    let (x, y, z) = (f.value(a), f.value(b), f.value(c));
    let (m1, m2) = (n1 as int, n2 as int);
    assert(m1 <= m2) by (nonlinear_arith)
        requires
            x * z == m1 * u,
            y * z == m2 * u,
            x <= y,
            z >= 0,
            u > 0,
    ;
    crate::float::rounding_keeps_order(f, n1, n2, 1);
    let (sa, sb, sc) = (f.significand(a), f.significand(b), f.significand(c));
    assert(sa * sc == sc * sa && sb * sc == sc * sb) by (nonlinear_arith);
    lemma_small_mod(f.nearest(n1, 1), f.sign());
    lemma_small_mod(f.nearest(n2, 1), f.sign());
}

// -------------------------------------------------------------------------------------------
// Exact results
// -------------------------------------------------------------------------------------------

/// What a number is worth rounds to the number.
proof fn lemma_worth_rounds_back(f: Format, a: nat)
    requires
        f.holds(a),
        f.finite(a),
    ensures
        f.value(a) >= 0 ==> f.nearest(f.value(a) as nat, 1) == f.magnitude(a),
        f.value(a) <= 0 ==> f.nearest((-f.value(a)) as nat, 1) == f.magnitude(a),
        f.magnitude(a) < f.infinity(),
        f.value(a) == f.value(f.magnitude(a)) || f.value(a) == -f.value(f.magnitude(a)),
        f.value(f.magnitude(a)) >= 0,
{
    crate::float::rounding_keeps_numbers(f, a);
    lemma_small_mod(f.magnitude(a), f.sign());
}

/// Adding what is worth nothing, or taking it away, leaves a number's worth.
pub proof fn nothing_adds_nothing(a: Real32, z: Real32)
    requires
        a.finite(),
        z.finite(),
        worth(z) == 0,
    ensures
        a.plus(z).finite(),
        z.plus(a).finite(),
        a.minus(z).finite(),
        worth(a.plus(z)) == worth(a),
        worth(z.plus(a)) == worth(a),
        worth(a.minus(z)) == worth(a),
{
    reveal(Real32::finite);
    reveal(Real32::plus);
    reveal(Real32::minus);
    let f = Format::Single;
    lemma_worth_rounds_back(f, a.at());
    lemma_worth_rounds_back(f, z.at());
    lemma_negated(f, z.at());
    let m = f.magnitude(a.at());
    lemma_signed(f, true, m);
    lemma_signed(f, false, m);
    lemma_signed(f, true, 0);
    lemma_signed(f, false, 0);
    lemma_zero(f);
}

/// Multiplying by one leaves a number's worth, by minus one turns it round, and by zero leaves
/// nothing.
pub proof fn one_and_zero_multiply(a: Real32, w: Real32)
    requires
        a.finite(),
        w.finite(),
        worth(w) == 0 || worth(w) == unit() || worth(w) == -unit(),
    ensures
        a.times(w).finite(),
        w.times(a).finite(),
        worth(w) == -unit() ==> worth(a.times(w)) == -worth(a) && worth(w.times(a)) == -worth(a),
        worth(w) == 0 ==> worth(a.times(w)) == 0 && worth(w.times(a)) == 0,
        worth(w) == unit() ==> worth(a.times(w)) == worth(a) && worth(w.times(a)) == worth(a),
{
    products_commute(a, w);
    reveal(Real32::finite);
    reveal(Real32::times);
    lemma_units();
    let f = Format::Single;
    lemma_worth_rounds_back(f, a.at());
    lemma_worths_multiply(f, a.at(), w.at());
    let n = crate::float::scaled(
        f.significand(a.at()) * f.significand(w.at()),
        f.exponent(a.at()) + f.exponent(w.at()),
    );
    let (x, y, u, ni) = (worth(a), worth(w), unit(), n as int);
    let negative = f.negative(a.at()) != f.negative(w.at());
    lemma_zero(f);
    if y == 0 {
        assert(ni == 0) by (nonlinear_arith)
            requires
                x * y == ni * u || x * y == -(ni * u),
                y == 0,
                u > 0,
        ;
        lemma_signed(f, negative, 0);
    } else {
        assert(ni == x || ni == -x) by (nonlinear_arith)
            requires
                x * y == ni * u || x * y == -(ni * u),
                y == u || y == -u,
                u > 0,
        ;
        assert(f.negative(w.at()) == (y < 0));
        lemma_signed(f, negative, f.magnitude(a.at()));
    }
}

/// Numbers of one worth come to one step.
pub proof fn alike_worths_round_alike(a: Real32, b: Real32, most: nat)
    requires
        a.finite(),
        b.finite(),
        worth(a) == worth(b),
    ensures
        a.times(Real32::of(255)).rounded(most) == b.times(Real32::of(255)).rounded(most),
{
    reveal(Real32::finite);
    reveal(Real32::times);
    reveal(Real32::rounded);
    reveal(Real32::of);
    let f = Format::Single;
    let w = f.of(255);
    crate::float::small_integers_are_exact(f, 255);
    lemma_worth_rounds_back(f, a.at());
    lemma_worth_rounds_back(f, b.at());
    lemma_worths_multiply(f, a.at(), w);
    lemma_worths_multiply(f, b.at(), w);
    lemma_units();
    lemma_zero(f);
    let n = crate::float::scaled(
        f.significand(a.at()) * f.significand(w),
        f.exponent(a.at()) + f.exponent(w),
    );
    let m = crate::float::scaled(
        f.significand(b.at()) * f.significand(w),
        f.exponent(b.at()) + f.exponent(w),
    );
    let (x, y, u, ni, mi) = (worth(a), f.value(w), unit(), n as int, m as int);
    let (na, nb) = (f.negative(a.at()), f.negative(b.at()));
    assert(ni == mi && (x == 0 ==> ni == 0)) by (nonlinear_arith)
        requires
            x * y == (if na {
                -(ni * u)
            } else {
                ni * u
            }),
            x * y == (if nb {
                -(mi * u)
            } else {
                mi * u
            }),
            ni >= 0,
            mi >= 0,
            u > 0,
    ;
    if x == 0 {
        lemma_signed(f, na, 0);
        lemma_signed(f, nb, 0);
        let half = crate::float::unit_pow(0) as int;
        assert((2 * 0 + half) / (2 * half) == 0) by (nonlinear_arith)
            requires
                half > 0,
        ;
    } else {
        assert(na == nb);
    }
}

/// A number's magnitude is worth as much above zero.
pub proof fn lemma_magnitude(f: Format, a: nat)
    requires
        f.holds(a),
        f.finite(a),
    ensures
        f.finite(f.magnitude(a)),
        f.value(f.magnitude(a)) == (if f.value(a) < 0 {
            -f.value(a)
        } else {
            f.value(a)
        }),
{
    lemma_worth_rounds_back(f, a);
}

/// A quotient of numbers by one that is not zero is a number, or infinite.
pub proof fn quotients_are_numbers(f: Format, a: nat, b: nat)
    requires
        f.holds(a),
        f.holds(b),
        f.finite(a),
        f.finite(b),
        f.value(b) != 0,
    ensures
        f.holds(f.quotient(a, b)),
        !f.nan(f.quotient(a, b)),
{
    lemma_zero(f);
    lemma_worth_rounds_back(f, b);
    crate::float::number_parts(f, b);
    let n = crate::float::scaled(f.significand(a), f.exponent(a) - f.exponent(b));
    let d = f.significand(b);
    assert(d > 0) by {
        let e = crate::float::unit_pow(f.exponent(b));
        assert(d == 0 ==> d * e == 0) by (nonlinear_arith);
    }
    crate::float::rounding_keeps_order(f, 0, n, d);
    let m = f.nearest(n, d);
    let negative = f.negative(a) != f.negative(b);
    lemma_small_mod(m, f.sign());
    if negative {
        lemma_fundamental_div_mod_converse((f.sign() + m) as int, f.sign() as int, 1, m as int);
    }
}

/// A difference that is not below zero has no sign.
pub proof fn positive_differences(f: Format, a: nat, b: nat)
    requires
        f.holds(a),
        f.holds(b),
        f.finite(a),
        f.finite(b),
        f.value(a) >= f.value(b),
        f.value(a) > f.value(b) || !f.negative(a),
    ensures
        !f.negative(f.difference(a, b)),
{
    lemma_negated(f, b);
    let v = f.value(a) - f.value(b);
    if v > 0 {
        crate::float::rounding_keeps_order(f, 0, v as nat, 1);
    }
}

/// A quotient by a number above zero is near the exact one, on either side of zero.
pub proof fn signed_quotients_are_close(f: Format, a: nat, b: nat, c: int)
    requires
        f.holds(a),
        f.finite(a),
        f.finite(b),
        !f.negative(b),
        f.value(b) > 0,
        -90 <= c <= 100,
        -(f.value(b) * crate::float::unit_pow(c)) < f.value(a) * crate::float::unit_pow(0) < f.value(
            b,
        ) * crate::float::unit_pow(c),
    ensures
        f.holds(f.quotient(a, b)),
        f.finite(f.quotient(a, b)),
        within(
            f.value(f.quotient(a, b)) * f.value(b),
            f.value(a) * crate::float::unit_pow(0),
            f.value(b) * crate::float::unit_pow(c - f.precision() - 1),
        ),
{
    if !f.negative(a) {
        quotients_are_close(f, a, b, c);
    } else {
        let m = f.magnitude(a);
        lemma_worth_rounds_back(f, a);
        lemma_small_mod(m, f.sign());
        let (x, y, u) = (f.value(a), f.value(b), crate::float::unit_pow(0) as int);
        assert((-x) * u == -(x * u)) by (nonlinear_arith);
        quotients_are_close(f, m, b, c);
        let q = f.quotient(m, b);
        lemma_small_mod(q, f.sign());
        lemma_signed(f, true, q);
        assert(f.quotient(a, b) == f.signed(true, q));
        let v = f.value(q);
        assert((-v) * y == -(v * y)) by (nonlinear_arith);
    }
}

/// Nothing, shared, is nothing.
pub proof fn nothing_shares_to_nothing(f: Format, a: nat, b: nat)
    requires
        f.holds(a),
        f.holds(b),
        f.finite(a),
        f.finite(b),
        f.value(a) == 0,
        f.value(b) != 0,
    ensures
        f.holds(f.quotient(a, b)),
        f.finite(f.quotient(a, b)),
        f.value(f.quotient(a, b)) == 0,
{
    lemma_zero(f);
    lemma_worth_rounds_back(f, a);
    lemma_worth_rounds_back(f, b);
    let sa = f.significand(a);
    let e = crate::float::unit_pow(f.exponent(a));
    crate::float::number_parts(f, a);
    crate::float::lemma_unit_pow_grows(f.exponent(a), f.exponent(a));
    assert(sa == 0) by (nonlinear_arith)
        requires
            sa * e == 0,
            e > 0,
    ;
    let sb = f.significand(b);
    let w = crate::float::unit_pow(f.exponent(b));
    assert(sb > 0) by {
        assert(sb == 0 ==> sb * w == 0) by (nonlinear_arith);
    }
    let n = crate::float::scaled(sa, f.exponent(a) - f.exponent(b));
    let v = crate::float::unit_pow(f.exponent(a) - f.exponent(b));
    assert(n == 0) by (nonlinear_arith)
        requires
            n == sa * v,
            sa == 0,
    ;
    crate::float::lemma_nearest_cancels(f, 0, sb);
    assert(sb * 0 == 0) by (nonlinear_arith);
    lemma_signed(f, f.negative(a) != f.negative(b), 0);
}

/// Numbers are equal exactly where they are worth the same.
pub proof fn equal_is_worth(a: Real32, b: Real32)
    requires
        a.finite(),
        b.finite(),
    ensures
        a.equal(b) == (worth(a) == worth(b)),
{
    reveal(Real32::finite);
    reveal(Real32::equal);
    let f = Format::Single;
    crate::float::order_follows_value(f, a.at(), b.at());
    crate::float::order_follows_value(f, b.at(), a.at());
    lemma_worth_rounds_back(f, a.at());
    lemma_worth_rounds_back(f, b.at());
}

/// The step that doubles below eight are held to, 2^-51.
pub open spec fn double_slack() -> int {
    crate::float::unit_pow(-51) as int
}

/// Sums and differences of doubles below eight are near the exact ones.
pub proof fn near_double_sum(a: Real64, b: Real64)
    requires
        a.finite(),
        b.finite(),
    ensures
        within(double_worth(a) + double_worth(b), 0, 8 * unit() - 1) ==> a.plus(b).finite()
            && within(double_worth(a.plus(b)), double_worth(a) + double_worth(b), double_slack()),
        within(double_worth(a) - double_worth(b), 0, 8 * unit() - 1) ==> a.minus(b).finite()
            && within(double_worth(a.minus(b)), double_worth(a) - double_worth(b), double_slack()),
{
    reveal(Real64::finite);
    reveal(Real64::plus);
    reveal(Real64::minus);
    lemma_units();
    let f = Format::Double;
    if within(double_worth(a) + double_worth(b), 0, 8 * unit() - 1) {
        sums_are_close(f, a.at(), b.at(), 3);
    }
    if within(double_worth(a) - double_worth(b), 0, 8 * unit() - 1) {
        differences_are_close(f, a.at(), b.at(), 3);
    }
}

/// A product of doubles below eight is near the exact one.
pub proof fn near_double_product(a: Real64, b: Real64)
    requires
        a.finite(),
        b.finite(),
        within(double_worth(a) * double_worth(b), 0, 8 * unit() * unit() - 1),
    ensures
        a.times(b).finite(),
        within(
            double_worth(a.times(b)) * unit(),
            double_worth(a) * double_worth(b),
            double_slack() * unit(),
        ),
{
    reveal(Real64::finite);
    reveal(Real64::times);
    lemma_units();
    let u = unit();
    let big = crate::float::unit_pow(3) as int;
    assert(big * u == 8 * u * u) by (nonlinear_arith)
        requires
            big == 8 * u,
    ;
    products_are_close(Format::Double, a.at(), b.at(), 3);
}

/// A quotient of doubles below eight by one above zero is near the exact one.
pub proof fn near_double_quotient(a: Real64, b: Real64)
    requires
        a.finite(),
        b.finite(),
        !Format::Double.negative(b.at()),
        double_worth(b) > 0,
        within(double_worth(a), 0, 8 * double_worth(b) - 1),
    ensures
        a.over(b).finite(),
        within(
            double_worth(a.over(b)) * double_worth(b),
            double_worth(a) * unit(),
            double_worth(b) * double_slack(),
        ),
{
    reveal(Real64::finite);
    reveal(Real64::over);
    lemma_units();
    let u = unit();
    let (x, y) = (double_worth(a), double_worth(b));
    let big = crate::float::unit_pow(3) as int;
    assert(-(y * big) < x * u < y * big) by (nonlinear_arith)
        requires
            within(x, 0, 8 * y - 1),
            big == 8 * u,
            u > 0,
    ;
    signed_quotients_are_close(Format::Double, a.at(), b.at(), 3);
}

/// What a literal double is worth.
pub proof fn lemma_double_literal(bits: u64, n: nat, w: nat, d: nat)
    requires
        bits < 0x7ff0_0000_0000_0000,
        Format::Double.significand(bits as nat) == n,
        Format::Double.exponent(bits as nat) == -w,
        w <= 60,
        d == vstd::arithmetic::power2::pow2(w),
    ensures
        (Real64 { bits }).finite(),
        !Format::Double.negative(bits as nat),
        double_worth(Real64 { bits }) * d == n * unit(),
{
    reveal(Real64::finite);
    crate::float::lemma_unit_pow_adds(-(w as int), w);
    let e = crate::float::unit_pow(-(w as int));
    assert((n * e) * d == n * (e * d)) by (nonlinear_arith);
}

} // verus!
