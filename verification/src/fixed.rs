//! Numbers as a person would write them.
use crate::float::Format;
use crate::number::Real32;
use vstd::arithmetic::power2::*;
use vstd::prelude::*;

verus! {

/// How many thousandths a number is nearest to, whatever its sign, the even of two equally
/// near.
pub open spec fn thousandths(x: Real32) -> nat {
    single_parts(x, 1000)
}

/// The decimals of `n` thousandths, without trailing zeros, after a dot where there are any.
pub open spec fn decimals(n: nat) -> Seq<char> {
    let a = crate::text::digit_char(n / 100 % 10);
    let b = crate::text::digit_char(n / 10 % 10);
    let c = crate::text::digit_char(n % 10);
    if n % 1000 == 0 {
        Seq::empty()
    } else if n % 100 == 0 {
        seq!['.', a]
    } else if n % 10 == 0 {
        seq!['.', a, b]
    } else {
        seq!['.', a, b, c]
    }
}

/// A number as a person would write it.
pub open spec fn written(x: Real32) -> Seq<char> {
    let n = thousandths(x);
    (if Format::Single.negative(x.bits as nat) {
        "-"@
    } else {
        Seq::empty()
    }) + crate::text::decimal(n / 1000) + decimals(n)
}

fn power_of_two(s: u32) -> (r: u128)
    requires
        s <= 127,
    ensures
        r == pow2(s as nat),
{
    let mut r: u128 = 1;
    let mut i: u32 = 0;
    proof {
        lemma2_to64();
    }
    while i < s
        invariant
            i <= s <= 127,
            r == pow2(i as nat),
        decreases s - i,
    {
        proof {
            lemma_pow2_unfold((i + 1) as nat);
            lemma_pow2_strictly_increases(i as nat, 127);
            crate::float::lemma_pow2_128();
        }
        r = r * 2;
        i = i + 1;
    }
    r
}

/// The parts of a number with a fraction, `tens` of them to one.
proof fn lemma_fraction(m: nat, s: nat, tens: nat)
    requires
        0 < s <= 2000,
    ensures
        crate::float::half_even(crate::float::scaled(m, -(s as int)) * tens, crate::float::unit_pow(0))
            == crate::float::half_even(m * tens, pow2(s)),
{
    let u = crate::float::unit_pow(-(s as int));
    crate::float::lemma_unit_pow_adds(-(s as int), s);
    lemma_pow2_pos(s);
    crate::float::lemma_half_even_scales(m * tens, pow2(s), u);
    assert(m * u * tens == (m * tens) * u) by (nonlinear_arith);
    assert(u * pow2(s) == pow2(s) * u) by (nonlinear_arith);
}

/// The parts of a whole number, `tens` of them to one.
proof fn lemma_whole(m: nat, e: nat, tens: nat)
    ensures
        crate::float::half_even(crate::float::scaled(m, e as int) * tens, crate::float::unit_pow(0))
            == m * pow2(e) * tens,
{
    let u = crate::float::unit_pow(0);
    crate::float::lemma_unit_pow_adds(0, e);
    let n = m * pow2(e) * tens;
    crate::float::lemma_half_even_scales(n, 1, u);
    assert(m * (u * pow2(e)) * tens == n * u) by (nonlinear_arith)
        requires
            n == m * pow2(e) * tens,
    ;
    assert(1 * u == u) by (nonlinear_arith);
    crate::float::lemma_half_even_of(n, 1, n, 0);
}

/// A number of any size in tens.
fn decimal_wide(n: u128) -> (r: String)
    ensures
        r@ == crate::text::decimal(n as nat),
    decreases n,
{
    if n < 10 {
        crate::text::decimal_text(n as u64)
    } else {
        let mut r: String = decimal_wide(n / 10);
        r.push((48u8 + (n % 10) as u8) as char);
        r
    }
}

/// How many parts a single-precision number is nearest to, whatever its sign, `tens` of them to
/// one, the even of two equally near.
pub open spec fn single_parts(x: Real32, tens: nat) -> nat {
    let f = Format::Single;
    crate::float::half_even(
        crate::float::scaled(f.significand(x.bits as nat), f.exponent(x.bits as nat)) * tens,
        crate::float::unit_pow(0),
    )
}

/// The whole part of a number and the rest of its parts.
fn split(x: Real32, tens: u64) -> (r: (u128, u64))
    requires
        Format::Single.finite(x.bits as nat),
        0 < tens <= 1000,
    ensures
        r.0 == single_parts(x, tens as nat) / tens as nat,
        r.1 == single_parts(x, tens as nat) % tens as nat,
{
    let size: u32 = x.bits % 0x8000_0000;
    if size < 0x80_0000 {
        let n: u64 = small_parts(size as u64, 149, tens);
        return ((n / tens) as u128, n % tens);
    }
    let m: u64 = 0x80_0000 + (size % 0x80_0000) as u64;
    let up: u32 = size / 0x80_0000 - 1;
    if up < 149 {
        let n: u64 = small_parts(m, 149 - up, tens);
        return ((n / tens) as u128, n % tens);
    }
    let e: u32 = up - 149;
    proof {
        lemma_whole(m as nat, e as nat, tens as nat);
        lemma_pow2_strictly_increases_or_equal(e as nat, 104);
        crate::float::lemma_pow2_128();
        lemma_pow2_adds(104, 24);
        assert(m * pow2(e as nat) < 0x100_0000 * pow2(104)) by (nonlinear_arith)
            requires
                m < 0x100_0000,
                0 < pow2(e as nat) <= pow2(104),
        ;
        lemma_pow2_unfold(128);
        let n = m * pow2(e as nat);
        vstd::arithmetic::div_mod::lemma_fundamental_div_mod_converse(
            n * tens,
            tens as int,
            n,
            0,
        );
    }
    let whole: u128 = m as u128 * power_of_two(e);
    (whole, 0)
}

proof fn lemma_pow2_strictly_increases_or_equal(a: nat, b: nat)
    requires
        a <= b,
    ensures
        0 < pow2(a) <= pow2(b),
{
    lemma_pow2_pos(a);
    if a < b {
        lemma_pow2_strictly_increases(a, b);
    }
}

/// The parts of `m` over two to the power `s`, `tens` of them to one.
fn small_parts(m: u64, s: u32, tens: u64) -> (r: u64)
    requires
        m < 0x20_0000_0000_0000,
        0 < s <= 1074,
        0 < tens <= 1000,
    ensures
        r == crate::float::half_even(
            crate::float::scaled(m as nat, -(s as int)) * tens as nat,
            crate::float::unit_pow(0),
        ),
        r <= m * tens,
{
    proof {
        lemma_fraction(m as nat, s as nat, tens as nat);
        crate::float::lemma_pow2_128();
        assert(m * tens < 0x20_0000_0000_0000 * 1000) by (nonlinear_arith)
            requires
                m < 0x20_0000_0000_0000,
                tens <= 1000,
        ;
        assert(m * tens >= 0) by (nonlinear_arith);
    }
    let a: u128 = m as u128 * tens as u128;
    if s > 100 {
        proof {
            lemma_pow2_strictly_increases(64, s as nat);
            let b = pow2(s as nat);
            lemma_pow2_unfold(65);
            assert(pow2(65) == 2 * pow2(64));
            lemma_pow2_strictly_increases(65, s as nat);
            assert(2 * a < b);
            crate::float::lemma_half_even_of(a as nat, b, 0, a as nat);
        }
        return 0;
    }
    let b: u128 = power_of_two(s);
    proof {
        lemma_pow2_pos(s as nat);
        lemma_pow2_strictly_increases(s as nat, 120);
        lemma_pow2_strictly_increases(0, s as nat);
    }
    let q: u128 = a / b;
    let rest: u128 = a % b;
    proof {
        vstd::arithmetic::div_mod::lemma_fundamental_div_mod(a as int, b as int);
        crate::float::lemma_half_even_of(a as nat, b as nat, q as nat, rest as nat);
        assert(q <= a && (a > 0 ==> q < a)) by (nonlinear_arith)
            requires
                q == a / b,
                b > 1,
        ;
        assert(a == 0 ==> q == 0 && rest == 0) by (nonlinear_arith)
            requires
                q == a / b,
                rest == a % b,
                b > 1,
        ;
    }
    let n: u128 = if 2 * rest < b {
        q
    } else if 2 * rest > b {
        q + 1
    } else {
        q + q % 2
    };
    n as u64
}

fn decimals_text(n: u64) -> (r: String)
    requires
        n < 1000,
    ensures
        r@ == decimals(n as nat),
{
    let mut r: String = String::new();
    if n == 0 {
        return r;
    }
    r.push('.');
    r.push((48u8 + (n / 100) as u8) as char);
    if n % 100 != 0 {
        r.push((48u8 + (n / 10 % 10) as u8) as char);
        if n % 10 != 0 {
            r.push((48u8 + (n % 10) as u8) as char);
        }
    }
    assert(r@ =~= decimals(n as nat));
    r
}

/// A finite number as a person would write it; none of another.
pub fn format_value(x: Real32) -> (r: Option<String>)
    ensures
        match r {
            Some(text) => x.finite() && text@ == written(x),
            None => !x.finite(),
        },
{
    proof {
        reveal(Real32::finite);
    }
    if !x.is_finite() {
        return None;
    }
    let (whole, rest) = split(x, 1000);
    let mut r: String = String::new();
    if x.bits >= 0x8000_0000 {
        r.append("-");
    }
    r.append(decimal_wide(whole).as_str());
    r.append(decimals_text(rest).as_str());
    proof {
        let n = thousandths(x);
        assert(decimals(rest as nat) == decimals(n)) by {
            assert(rest as nat % 1000 == n % 1000);
            assert(rest as nat % 100 == n % 100 && rest as nat % 10 == n % 10) by (nonlinear_arith)
                requires
                    rest == n % 1000,
            ;
            assert(rest as nat / 100 % 10 == n / 100 % 10 && rest as nat / 10 % 10 == n / 10 % 10)
                by (nonlinear_arith)
                requires
                    rest == n % 1000,
            ;
        }
    }
    Some(r)
}

/// A number with exactly two decimals.
pub open spec fn two_decimals(x: Real32) -> Seq<char> {
    let f = Format::Single;
    let bits = x.bits as nat;
    let n = single_parts(x, 100);
    let size = if f.infinite(bits) {
        "inf"@
    } else {
        crate::text::decimal(n / 100) + seq![
            '.',
            crate::text::digit_char(n / 10 % 10),
            crate::text::digit_char(n % 10),
        ]
    };
    if f.nan(bits) {
        "NaN"@
    } else if f.negative(bits) {
        "-"@ + size
    } else {
        size
    }
}

/// A number written with exactly two decimals.
pub fn format_hundredths(x: Real32) -> (r: String)
    ensures
        r@ == two_decimals(x),
{
    let size: u32 = x.bits % 0x8000_0000;
    let mut r: String = String::new();
    if size > 0x7f80_0000 {
        r.append("NaN");
        assert(r@ =~= "NaN"@);
        return r;
    }
    if x.bits >= 0x8000_0000 {
        r.append("-");
    }
    if size == 0x7f80_0000 {
        r.append("inf");
        assert(r@ =~= two_decimals(x));
        return r;
    }
    let (whole, rest) = split(x, 100);
    r.append(decimal_wide(whole).as_str());
    r.push('.');
    r.push((48u8 + (rest / 10) as u8) as char);
    r.push((48u8 + (rest % 10) as u8) as char);
    proof {
        let n = single_parts(x, 100);
        assert(rest as nat / 10 == n / 10 % 10 && rest as nat % 10 == n % 10) by (nonlinear_arith)
            requires
                rest == n % 100,
        ;
        assert(r@ =~= two_decimals(x));
    }
    r
}

// -------------------------------------------------------------------------------------------
// Sizes of files
// -------------------------------------------------------------------------------------------

/// How many parts a number is nearest to, `tens` of them to one, the even of two equally near.
pub open spec fn parts(x: crate::number::Real64, tens: nat) -> nat {
    let f = Format::Double;
    crate::float::half_even(
        crate::float::scaled(f.significand(x.at()), f.exponent(x.at())) * tens,
        crate::float::unit_pow(0),
    )
}

/// Bytes as megabytes, with a decimal for a few of them.
pub open spec fn megabytes_text(bytes: nat) -> Seq<char> {
    let mb = crate::number::Real64::of(bytes).over(crate::number::Real64::of(1_000_000));
    if mb.below(crate::number::Real64::of(10)) {
        let n = parts(mb, 10);
        crate::text::decimal(n / 10) + "."@ + crate::text::decimal(n % 10) + " MB"@
    } else {
        crate::text::decimal(parts(mb, 1)) + " MB"@
    }
}

/// The parts of a number that is no more than 2^64.
fn parts_of(x: crate::number::Real64, tens: u64) -> (r: u128)
    requires
        x.bits <= 0x43f0_0000_0000_0000,
        0 < tens <= 1000,
    ensures
        r == parts(x, tens as nat),
{
    let size: u64 = x.bits;
    if size < 0x10_0000_0000_0000 {
        return small_parts(size, 1074, tens) as u128;
    }
    let m: u64 = 0x10_0000_0000_0000 + size % 0x10_0000_0000_0000;
    let up: u32 = (size / 0x10_0000_0000_0000) as u32 - 1;
    if up < 1074 {
        return small_parts(m, 1074 - up, tens) as u128;
    }
    let e: u32 = up - 1074;
    proof {
        lemma_whole(m as nat, e as nat, tens as nat);
        lemma_pow2_strictly_increases_or_equal(e as nat, 12);
        lemma2_to64();
        assert(m * pow2(e as nat) <= 0x20_0000_0000_0000 * 4096) by (nonlinear_arith)
            requires
                m <= 0x20_0000_0000_0000,
                0 < pow2(e as nat) <= 4096,
        ;
        assert(m * pow2(e as nat) * tens <= 0x20_0000_0000_0000 * 4096 * 1000) by (nonlinear_arith)
            requires
                m * pow2(e as nat) <= 0x20_0000_0000_0000 * 4096,
                tens <= 1000,
                m * pow2(e as nat) >= 0,
        ;
    }
    m as u128 * power_of_two(e) * tens as u128
}

proof fn lemma_megabytes_are_small(bytes: u64)
    ensures
        crate::number::Real64::of(bytes as nat).over(crate::number::Real64::of(1_000_000)).bits
            <= 0x43f0_0000_0000_0000,
{
    let f = Format::Double;
    reveal(crate::number::Real64::of);
    reveal(crate::number::Real64::over);
    let a = f.of(bytes as nat);
    let b = f.of(1_000_000);
    let u = crate::float::unit_pow(0);
    crate::float::small_integers_are_exact(f, 1_000_000);
    crate::float::lemma_unit_pow_grows(0, 0);
    assert(crate::float::scaled(1_000_000, 0) >= u) by (nonlinear_arith)
        requires
            u == crate::float::unit_pow(0),
            u > 0,
    ;
    let top = 0x43f0_0000_0000_0000nat;
    assert(f.significand(top) == 0x10_0000_0000_0000 && f.exponent(top) == 12);
    crate::float::rounding_keeps_numbers(f, top);
    crate::float::lemma_unit_pow_adds(0, 12);
    lemma2_to64();
    assert(crate::float::scaled(bytes as nat, 0) <= crate::float::scaled(0x10_0000_0000_0000, 12))
        by (nonlinear_arith)
        requires
            crate::float::unit_pow(12) == crate::float::unit_pow(0) * 4096,
            crate::float::unit_pow(0) >= 0,
            bytes <= 0x10_0000_0000_0000 * 4096,
    ;
    crate::float::rounding_keeps_order(
        f,
        crate::float::scaled(bytes as nat, 0),
        crate::float::scaled(0x10_0000_0000_0000, 12),
        1,
    );
    assert(a <= top);
    crate::float::shares_are_no_more(f, a, b);
}

pub fn megabytes(bytes: u64) -> (r: String)
    ensures
        r@ == megabytes_text(bytes as nat),
{
    let mb: crate::number::Real64 = crate::number::Real64::from_integer(bytes).div(
        crate::number::Real64::from_integer(1_000_000),
    );
    proof {
        lemma_megabytes_are_small(bytes);
    }
    if mb.less(crate::number::Real64::from_integer(10)) {
        let n: u128 = parts_of(mb, 10);
        let mut r: String = decimal_wide(n / 10);
        r.append(".");
        r.append(decimal_wide(n % 10).as_str());
        r.append(" MB");
        r
    } else {
        let mut r: String = decimal_wide(parts_of(mb, 1));
        r.append(" MB");
        r
    }
}

} // verus!
