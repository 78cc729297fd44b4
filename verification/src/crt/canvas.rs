//! What holds of a canvas scaled down for previews, thumbnails and animations.
use crate::crt::config::Config;
use crate::float::{scaled, unit_pow, Format};
use crate::number::Real64;
use vstd::arithmetic::div_mod::*;
use vstd::arithmetic::power2::*;
use vstd::prelude::*;

verus! {

/// What m over n is worth, before it is rounded.
pub proof fn lemma_exact_quotient(f: Format, m: nat, n: nat) -> (r: (nat, nat))
    requires
        0 < n < 2 * f.hidden(),
        m < 2 * f.hidden(),
    ensures
        r.1 > 0,
        f.quotient(f.of(m), f.of(n)) == f.nearest(r.0, r.1),
        r.0 * n == r.1 * m * unit_pow(0),
{
    crate::float::small_integers_are_exact(f, m);
    crate::float::small_integers_are_exact(f, n);
    let a = f.of(m);
    let b = f.of(n);
    let zero = unit_pow(0);
    crate::float::lemma_unit_pow_adds(0, 0);
    crate::float::number_parts(f, a);
    crate::float::number_parts(f, b);
    let (sa, ea) = (f.significand(a), f.exponent(a));
    let (sb, eb) = (f.significand(b), f.exponent(b));
    let top = scaled(sa, ea - eb);
    crate::float::units_multiply(ea - eb, eb);
    let ub = unit_pow(eb);
    let ua = unit_pow(ea);
    let uab = unit_pow(ea - eb);
    assert(sb * ub == n * zero);
    assert(sa * ua == m * zero);
    assert(n * zero > 0) by (nonlinear_arith)
        requires
            n > 0,
            zero > 0,
    ;
    assert(sb > 0 && ub > 0) by (nonlinear_arith)
        requires
            sb * ub > 0,
            sb >= 0,
            ub >= 0,
    ;
    // top·ub = sa·ua·zero, so top·n·zero = top·sb·ub = sb·sa·ua·zero = sb·m·zero·zero.
    assert(top * ub == (sa * ua) * zero) by (nonlinear_arith)
        requires
            top == sa * uab,
            uab * ub == ua * zero,
    ;
        assert((top * n) * zero == top * (n * zero)) by (nonlinear_arith);
        assert(top * (sb * ub) == sb * (top * ub)) by (nonlinear_arith);
        assert(sb * ((m * zero) * zero) == (sb * m * zero) * zero) by (nonlinear_arith);
    assert((top * n) * zero == (sb * m * zero) * zero);
    assert(top * n == sb * m * zero) by (nonlinear_arith)
        requires
            (top * n) * zero == (sb * m * zero) * zero,
            zero > 0,
    ;
    (top, sb)
}

/// What a whole number times a number is worth, before it is rounded.
pub proof fn lemma_exact_product(f: Format, n: nat, b: nat) -> (r: nat)
    requires
        n < 2 * f.hidden(),
        f.holds(b),
        f.finite(b),
        !f.negative(b),
    ensures
        f.product(f.of(n), b) == f.nearest(r, 1),
        r == n * f.value(b),
{
    crate::float::small_integers_are_exact(f, n);
    let a = f.of(n);
    let zero = unit_pow(0);
    crate::float::lemma_unit_pow_adds(0, 0);
    crate::float::number_parts(f, a);
    crate::float::number_parts(f, b);
    let (sa, ea) = (f.significand(a), f.exponent(a));
    let (sb, eb) = (f.significand(b), f.exponent(b));
    crate::float::units_multiply(ea, eb);
    let ua = unit_pow(ea);
    let ub = unit_pow(eb);
    let uab = unit_pow(ea + eb);
    let v = scaled(sa * sb, ea + eb);
    assert(sa * ua == n * zero);
        assert(((sa * sb) * uab) * zero == (sa * sb) * (uab * zero)) by (nonlinear_arith);
        assert((sa * sb) * (ua * ub) == (sa * ua) * (sb * ub)) by (nonlinear_arith);
        assert((n * zero) * (sb * ub) == (n * (sb * ub)) * zero) by (nonlinear_arith);
    assert(v * zero == (n * (sb * ub)) * zero);
    assert(v == n * (sb * ub)) by (nonlinear_arith)
        requires
            v * zero == (n * (sb * ub)) * zero,
            zero > 0,
    ;
    v
}

/// A whole number over a larger one, times that one, is the first again once rounded.
proof fn lemma_scaled_longer(m: nat, n: nat)
    requires
        0 < m < n <= 16384,
    ensures
        ({
            let f = Format::Double;
            let scale = f.quotient(f.of(m), f.of(n));
            &&& f.holds(scale)
            &&& f.finite(scale)
            &&& !f.negative(scale)
            &&& f.magnitude(scale) <= f.of(1)
            &&& f.rounded(f.product(f.of(n), scale), u32::MAX as nat) == m
        }),
{
    let f = Format::Double;
    let (top, d) = lemma_exact_quotient(f, m, n);
    let scale = f.quotient(f.of(m), f.of(n));
    let zero = unit_pow(0);
    crate::float::lemma_unit_pow_adds(0, 0);
    // m/n is below 1.
        assert(d * m * zero < d * n * zero) by (nonlinear_arith)
            requires
                m < n,
                d > 0,
                zero > 0,
        ;
        assert(d * n * zero == (d * zero) * n) by (nonlinear_arith);
    assert(top < d * zero) by (nonlinear_arith)
        requires
            top * n < (d * zero) * n,
            n > 0,
    ;
    crate::float::one_is_exact(f);
    crate::float::small_integers_are_exact(f, 1);
    assert(f.nearest(d * zero, d) == f.of(1)) by {
        crate::float::lemma_nearest_cancels(f, zero, d);
        assert(scaled(1, 0) == zero);
    }
    crate::float::rounding_keeps_order(f, top, (d * zero) as nat, d);
    crate::float::rounding_is_within_half_a_step(f, top, d);
    let k = f.quantum(top, d);
    if k > -53 {
        crate::float::lemma_unit_pow_grows(0, k - 1 + 53);
        assert(d * zero <= d * unit_pow(k - 1 + 53)) by (nonlinear_arith)
            requires
                zero <= unit_pow(k - 1 + 53),
        ;
        assert(false);
    }
    crate::float::lemma_unit_pow_grows(k, -53);
    let u = unit_pow(k);
    let worth = f.value(scale);
    // 2·n·worth <= 2·m·zero + n·u.
        assert((2 * (worth * d)) * n <= (2 * top + d * u) * n) by (nonlinear_arith)
            requires
                2 * (worth * d) <= 2 * top + d * u,
                n > 0,
        ;
        assert((2 * (worth * d)) * n == (2 * (n * worth)) * d) by (nonlinear_arith);
        assert((2 * top + d * u) * n == 2 * (top * n) + (n * u) * d) by (nonlinear_arith);
        assert(2 * (d * m * zero) == (2 * (m * zero)) * d) by (nonlinear_arith);
        assert((2 * (m * zero)) * d + (n * u) * d == (2 * (m * zero) + n * u) * d)
            by (nonlinear_arith);
        assert(2 * (n * worth) <= 2 * (m * zero) + n * u) by (nonlinear_arith)
            requires
                (2 * (n * worth)) * d <= (2 * (m * zero) + n * u) * d,
                d > 0,
        ;
    assert(2 * (n * worth) <= 2 * (m * zero) + n * u);
    let small = unit_pow(-53);
    crate::float::lemma_unit_pow_adds(-53, 29);
    lemma2_to64();
    let step = unit_pow(-24);
    assert(n * u <= 16384 * small) by (nonlinear_arith)
        requires
            n <= 16384,
            u <= small,
    ;
    assert(step == small * 536870912);
    crate::float::lemma_unit_pow_adds(-24, 24);
    let v = lemma_exact_product(f, n, scale);
    let over = m * 16777216 + 1;
    assert(scaled(over, -24) == m * zero + step) by (nonlinear_arith)
        requires
            scaled(over, -24) == over * step,
            over == m * 16777216 + 1,
            zero == step * 16777216,
    ;
    assert(v <= m * zero + step);
    crate::float::dyadics_are_exact(f, over, -24);
    let bound = f.nearest(scaled(over, -24), 1);
    crate::float::rounding_keeps_order(f, v, scaled(over, -24), 1);
    let product = f.nearest(v, 1);
    lemma_small_mod(product, f.sign());
    crate::float::integers_keep_order(f, product, bound, u32::MAX as nat);
    assert(2 * (m * zero + step) + zero == m * (2 * zero) + (2 * step + zero)) by (nonlinear_arith);
    lemma_fundamental_div_mod_converse(
        (2 * (m * zero + step) + zero) as int,
        2 * zero as int,
        m as int,
        (2 * step + zero) as int,
    );
    // 2·m·zero <= 2·n·worth + n·u.
    assert((2 * top) * n <= (2 * (worth * d) + d * u) * n) by (nonlinear_arith)
        requires
            2 * top <= 2 * (worth * d) + d * u,
            n > 0,
    ;
    assert((2 * (worth * d) + d * u) * n == (2 * (n * worth) + n * u) * d) by (nonlinear_arith);
    assert((2 * top) * n == (2 * (m * zero)) * d) by (nonlinear_arith)
        requires
            top * n == d * m * zero,
    ;
    assert(2 * (m * zero) <= 2 * (n * worth) + n * u) by (nonlinear_arith)
        requires
            (2 * (m * zero)) * d <= (2 * (n * worth) + n * u) * d,
            d > 0,
    ;
    let under = (m * 16777216 - 1) as nat;
    assert(scaled(under, -24) == m * zero - step) by (nonlinear_arith)
        requires
            scaled(under, -24) == under * step,
            under == m * 16777216 - 1,
            zero == step * 16777216,
    ;
    crate::float::dyadics_are_exact(f, under, -24);
    let base = f.nearest(scaled(under, -24), 1);
    crate::float::rounding_keeps_order(f, scaled(under, -24), v, 1);
    crate::float::integers_keep_order(f, base, product, u32::MAX as nat);
    assert(2 * (m * zero - step) + zero == m * (2 * zero) + (zero - 2 * step)) by (nonlinear_arith);
    lemma_fundamental_div_mod_converse(
        (2 * (m * zero - step) + zero) as int,
        2 * zero as int,
        m as int,
        (zero - 2 * step) as int,
    );
}

/// Sides scale in order.
pub proof fn lemma_scaled_order(f: Format, short: nat, long: nat, scale: nat)
    requires
        short <= long <= 16384,
        f.holds(scale),
        f.finite(scale),
        !f.negative(scale),
        f.magnitude(scale) <= f.of(1),
    ensures
        f.rounded(f.product(f.of(short), scale), u32::MAX as nat) <= f.rounded(
            f.product(f.of(long), scale),
            u32::MAX as nat,
        ),
        f.rounded(f.product(f.of(long), scale), u32::MAX as nat) <= long,
        f.holds(f.product(f.of(long), scale)),
{
    crate::float::small_integers_are_exact(f, short);
    crate::float::small_integers_are_exact(f, long);
    crate::float::small_integers_are_exact(f, 1);
    let a = lemma_exact_product(f, short, scale);
    let b = lemma_exact_product(f, long, scale);
    assert(f.value(scale) >= 0) by {
        crate::float::number_parts(f, scale);
    }
    assert(a <= b) by (nonlinear_arith)
        requires
            a == short * f.value(scale),
            b == long * f.value(scale),
            short <= long,
            f.value(scale) >= 0,
    ;
    crate::float::rounding_keeps_order(f, a, b, 1);
    crate::float::product_is_no_more(f, f.of(long), scale, f.of(1));
    crate::float::product_is_no_more(f, f.of(short), scale, f.of(1));
    let x = f.nearest(a, 1);
    let y = f.nearest(b, 1);
    lemma_small_mod(x, f.sign());
    lemma_small_mod(y, f.sign());
    crate::float::integers_keep_order(f, x, y, u32::MAX as nat);
    crate::float::integers_keep_order(f, y, f.of(long), u32::MAX as nat);
    crate::float::integers_round_to_themselves(f, long, u32::MAX as nat);
}

/// A scaled canvas has pixels, none more along a side than before, and its longer side reaches
/// the limit, or stays as it is where it was within it.
pub proof fn a_scaled_canvas_fits(size: (u32, u32), max_side: u32)
    requires
        crate::crt::config::size_ok(size),
        max_side > 0,
    ensures
        ({
            let s = Config::scaled_size(size, Some(max_side));
            &&& 0 < s.0 <= size.0
            &&& 0 < s.1 <= size.1
            &&& s.0 <= max_side
            &&& s.1 <= max_side
            &&& vstd::math::max(s.0 as int, s.1 as int) == vstd::math::min(
                max_side as int,
                vstd::math::max(size.0 as int, size.1 as int),
            )
            &&& crate::crt::config::size_ok(s)
        }),
{
    reveal(Real64::of);
    reveal(Real64::over);
    reveal(Real64::times);
    reveal(Real64::rounded);
    reveal(Real64::below);
    let f = Format::Double;
    let longer = if size.0 > size.1 {
        size.0
    } else {
        size.1
    };
    let m = max_side as nat;
    let q = f.quotient(f.of(m), f.of(longer as nat));
    crate::float::one_is_exact(f);
    crate::float::small_integers_are_exact(f, 1);
    let scale = Config::scale_for(size, Some(max_side)).at();
    crate::float::small_integers_are_exact(f, m);
    crate::float::small_integers_are_exact(f, longer as nat);
    let (top, d) = lemma_exact_quotient(f, m, longer as nat);
    crate::float::rounding_keeps_order(f, 0, top, d);
    assert(q <= f.infinity());
    lemma_small_mod(q, f.sign());
    if m < longer {
        lemma_scaled_longer(m, longer as nat);
        assert(scale == q);
    } else {
        assert(scale == f.of(1)) by {
            let zero = unit_pow(0);
            crate::float::lemma_unit_pow_adds(0, 0);
                        assert(d * m * zero >= (d * zero) * longer) by (nonlinear_arith)
                    requires
                        m >= longer,
                        d > 0,
                        zero > 0,
                ;
                assert(top >= d * zero) by (nonlinear_arith)
                    requires
                        top * longer >= (d * zero) * longer,
                        longer > 0,
                ;
    assert(top >= d * zero);
            crate::float::lemma_nearest_cancels(f, zero, d);
            assert(scaled(1, 0) == zero);
            crate::float::rounding_keeps_order(f, (d * zero) as nat, top, d);
        }
    }
    lemma_scaled_order(f, size.0 as nat, longer as nat, scale);
    lemma_scaled_order(f, size.1 as nat, longer as nat, scale);
    lemma_scaled_order(f, size.0 as nat, size.0 as nat, scale);
    lemma_scaled_order(f, size.1 as nat, size.1 as nat, scale);
    crate::float::small_integers_are_exact(f, size.0 as nat);
    crate::float::small_integers_are_exact(f, size.1 as nat);
    let s = Config::scaled_size(size, Some(max_side));
    if m >= longer {
        lemma_unscaled(longer as nat);
    }
    assert(s.0 * s.1 <= size.0 * size.1) by (nonlinear_arith)
        requires
            0 <= s.0 <= size.0,
            0 <= s.1 <= size.1,
    ;
}


/// A canvas scaled by 1 stays as it is.
proof fn lemma_unscaled(n: nat)
    requires
        0 < n <= 16384,
    ensures
        Format::Double.rounded(
            Format::Double.product(Format::Double.of(n), Format::Double.of(1)),
            u32::MAX as nat,
        ) == n,
        Format::Double.holds(Format::Double.product(Format::Double.of(n), Format::Double.of(1))),
{
    let f = Format::Double;
    crate::float::small_integers_are_exact(f, 1);
    crate::float::small_integers_are_exact(f, n);
    let v = lemma_exact_product(f, n, f.of(1));
    assert(1 * unit_pow(0) == unit_pow(0));
    crate::float::integers_round_to_themselves(f, n, u32::MAX as nat);
}

/// Without a limit, a canvas keeps its size.
pub proof fn an_unlimited_canvas_stays(size: (u32, u32))
    requires
        crate::crt::config::size_ok(size),
    ensures
        Config::scaled_size(size, None) == size,
{
    reveal(Real64::of);
    reveal(Real64::times);
    reveal(Real64::rounded);
    let f = Format::Double;
    crate::float::small_integers_are_exact(f, 1);
    crate::float::small_integers_are_exact(f, size.0 as nat);
    crate::float::small_integers_are_exact(f, size.1 as nat);
    lemma_unscaled(size.0 as nat);
    lemma_unscaled(size.1 as nat);
}

/// A size written as WIDTHxHEIGHT reads back, where it can be processed.
pub proof fn sizes_read_back(size: (u32, u32))
    ensures
        crate::crt::config::dimensions_of(Config::size_text(size)) == if crate::crt::config::size_ok(
            size,
        ) {
            Ok::<(u32, u32), crate::crt::config::SizeError>(size)
        } else {
            Err(crate::crt::config::SizeError::Range)
        },
        Config::size_text(size).contains('x'),
{
    let w = crate::text::decimal(size.0 as nat);
    let h = crate::text::decimal(size.1 as nat);
    let s = Config::size_text(size);
    crate::text::decimal_reads_back(size.0 as nat, u32::MAX as nat);
    crate::text::decimal_reads_back(size.1 as nat, u32::MAX as nat);
    assert(s[w.len() as int] == 'x');
    crate::text::lemma_first_at(s, 'x', 0);
    let at = crate::text::first_at(s, 'x', 0);
    if at < w.len() {
        assert(s[at] == w[at]);
        assert(crate::text::is_digit(w[at]));
    }
    assert(at == w.len());
    assert(s.take(at) == w);
    assert(s.skip(at + 1) == h);
}

/// No preset's name of an output size holds an x.
proof fn lemma_preset_names()
    ensures
        !("reference"@.contains('x')),
        !("720p"@.contains('x')),
        !("1080p"@.contains('x')),
        !("1440p"@.contains('x')),
        !("4k"@.contains('x')),
        !("match-input"@.contains('x')),
{
    reveal_strlit("reference");
    reveal_strlit("720p");
    reveal_strlit("1080p");
    reveal_strlit("1440p");
    reveal_strlit("4k");
    reveal_strlit("match-input");
}

/// An output written as a size is that size, where it can be processed.
pub proof fn written_outputs_read_back(c: Config, size: (u32, u32), input: (u32, u32))
    requires
        c.output@ == Config::size_text(size),
    ensures
        c.output_of(input) == if crate::crt::config::size_ok(size) {
            Ok::<(u32, u32), crate::crt::config::SizeError>(size)
        } else {
            Err(crate::crt::config::SizeError::Range)
        },
{
    sizes_read_back(size);
    lemma_preset_names();
}

proof fn lemma_same_number_faults(a: Config, b: Config, from: int)
    requires
        forall|field: crate::crt::settings::Field|
            #[trigger] a.numbers_of(field) == b.numbers_of(field),
        from >= 0,
    ensures
        crate::crt::settings::fault_from(a, from) == crate::crt::settings::fault_from(b, from),
    decreases crate::crt::settings::fields().len() - from,
{
    if from < crate::crt::settings::fields().len() {
        assert(a.numbers_of(crate::crt::settings::fields()[from]) == b.numbers_of(
            crate::crt::settings::fields()[from],
        ));
        lemma_same_number_faults(a, b, from + 1);
    }
}

/// Looks alike but for their sizes are wrong in the same way, if at all, and look alike have the
/// same signal.
pub proof fn alike_looks_are_judged_alike(a: Config, b: Config, input: (u32, u32))
    requires
        a.alike_but_sizes(b),
    ensures
        a.fault() == b.fault(),
        a.signal@ == b.signal@ ==> a.signal_of(input) == b.signal_of(input),
{
    assert forall|field: crate::crt::settings::Field| #[trigger]
        a.numbers_of(field) == b.numbers_of(field) by {}
    lemma_same_number_faults(a, b, 0);
}

/// A look scaled down for a limit keeps its signal and all its other settings, and still renders
/// the input. Its canvas is longer along no side, and its longer side reaches the limit, or stays
/// as it is where it was within it. Without a limit the canvas keeps its size.
pub proof fn a_scaled_look_renders(
    c: Config,
    scaled: Config,
    input: (u32, u32),
    max_side: Option<u32>,
)
    requires
        c.fault_for(input) is None,
        max_side != Some(0u32),
        scaled.alike_but_sizes(c),
        scaled.signal@ == c.signal@,
        scaled.output@ == Config::size_text(
            Config::scaled_size(c.output_of(input)->Ok_0, max_side),
        ),
    ensures
        scaled.signal_of(input) == c.signal_of(input),
        scaled.fault_for(input) is None,
        ({
            let size = c.output_of(input)->Ok_0;
            let new = scaled.output_of(input)->Ok_0;
            &&& scaled.output_of(input) is Ok
            &&& new == Config::scaled_size(size, max_side)
            &&& new.0 <= size.0
            &&& new.1 <= size.1
            &&& match max_side {
                Some(limit) => vstd::math::max(new.0 as int, new.1 as int) == vstd::math::min(
                    limit as int,
                    vstd::math::max(size.0 as int, size.1 as int),
                ),
                None => new == size,
            }
        }),
{
    let size = c.output_of(input)->Ok_0;
    let s = Config::scaled_size(size, max_side);
    match max_side {
        Some(limit) => a_scaled_canvas_fits(size, limit),
        None => an_unlimited_canvas_stays(size),
    }
    sizes_read_back(s);
    lemma_preset_names();
    alike_looks_are_judged_alike(scaled, c, input);
}

} // verus!
