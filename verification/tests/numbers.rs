use crtsim::fixed::{format_hundredths, format_value, megabytes};
use crtsim::number::{Real32, Real64};

fn single(x: f32) -> Real32 {
    Real32 { bits: x.to_bits() }
}

fn double(x: f64) -> Real64 {
    Real64 { bits: x.to_bits() }
}

/// Numbers of every kind: zeros, powers, the smallest, the largest, and what xorshift gives.
fn singles() -> Vec<f32> {
    let mut list = vec![
        0., -0., 1., -1., 0.1, 2.5, 3.5, 255., 16777216., 16777217., 1e-45, -1e-45, 1.1754942e-38,
        1.1754944e-38, 3.4028235e38, f32::INFINITY, f32::NEG_INFINITY, f32::NAN,
    ];
    let mut state = 0x2545_f491_u32;
    for _ in 0..60 {
        state ^= state << 13;
        state ^= state >> 17;
        state ^= state << 5;
        list.push(f32::from_bits(state));
        list.push((state % 100_000) as f32 / 317.);
    }
    list
}

fn doubles() -> Vec<f64> {
    let mut list = vec![
        0., -0., 1., -1., 0.1, 2.5, 3.5, 4503599627370497.5, 9007199254740993., 5e-324, -5e-324,
        2.2250738585072014e-308, 1.7976931348623157e308, f64::INFINITY, f64::NEG_INFINITY, f64::NAN,
    ];
    let mut state = 0x2545_f491_4f6c_dd1d_u64;
    for _ in 0..60 {
        state ^= state << 13;
        state ^= state >> 7;
        state ^= state << 17;
        list.push(f64::from_bits(state));
        list.push((state % 10_000_000) as f64 / 317.);
    }
    list
}

fn alike32(a: Real32, b: f32) -> bool {
    a.bits == b.to_bits() || (b.is_nan() && f32::from_bits(a.bits).is_nan())
}

fn alike64(a: Real64, b: f64) -> bool {
    a.bits == b.to_bits() || (b.is_nan() && f64::from_bits(a.bits).is_nan())
}

#[test]
fn single_arithmetic_is_the_hardwares() {
    for &a in &singles() {
        for &b in &singles() {
            let (x, y) = (single(a), single(b));
            assert!(alike32(x.add(y), a + b), "{a:e} + {b:e}");
            assert!(alike32(x.sub(y), a - b), "{a:e} - {b:e}");
            assert!(alike32(x.mul(y), a * b), "{a:e} * {b:e}");
            assert!(alike32(x.div(y), a / b), "{a:e} / {b:e}");
            assert_eq!(x.less(y), a < b, "{a:e} < {b:e}");
            assert_eq!(x.at_most(y), a <= b, "{a:e} <= {b:e}");
            assert_eq!(x.same(y), a == b, "{a:e} == {b:e}");
        }
    }
}

#[test]
fn double_arithmetic_is_the_hardwares() {
    for &a in &doubles() {
        for &b in &doubles() {
            let (x, y) = (double(a), double(b));
            assert!(alike64(x.add(y), a + b), "{a:e} + {b:e}");
            assert!(alike64(x.sub(y), a - b), "{a:e} - {b:e}");
            assert!(alike64(x.mul(y), a * b), "{a:e} * {b:e}");
            assert!(alike64(x.div(y), a / b), "{a:e} / {b:e}");
            assert_eq!(x.less(y), a < b, "{a:e} < {b:e}");
            assert_eq!(x.at_most(y), a <= b, "{a:e} <= {b:e}");
            assert_eq!(x.same(y), a == b, "{a:e} == {b:e}");
        }
    }
}

#[test]
fn conversions_are_the_hardwares() {
    for &a in &singles() {
        let x = single(a);
        assert!(alike64(x.widen(), f64::from(a)), "{a:e} widened");
        assert_eq!(x.is_finite(), a.is_finite());
        assert!(alike32(x.abs(), a.abs()) && alike32(x.neg(), -a));
        assert_eq!(x.round(u32::MAX), a.round() as u32, "{a:e} rounded");
        assert_eq!(x.truncate(u32::MAX), a as u32, "{a:e} truncated");
        assert_eq!(x.floor(1 << 40), (a.floor() as i64).clamp(-(1 << 40), 1 << 40), "{a:e}");
    }
    for &a in &doubles() {
        let x = double(a);
        assert!(alike32(x.narrow(), a as f32), "{a:e} narrowed");
        assert_eq!(x.is_finite(), a.is_finite());
        assert!(alike64(x.abs(), a.abs()) && alike64(x.neg(), -a));
        assert_eq!(x.round(u64::MAX), a.round() as u64, "{a:e} rounded");
        assert_eq!(x.truncate(u64::MAX), a as u64, "{a:e} truncated");
        assert_eq!(x.ceil(u64::MAX), a.ceil() as u64, "{a:e} up");
        assert!(alike64(x.round_whole(), a.round()), "{a:e} whole");
    }
    for n in [0, 1, 255, 16_777_217, u64::MAX / 3, u64::MAX] {
        assert!(alike32(Real32::from_integer(n), n as f32), "{n}");
        assert!(alike64(Real64::from_integer(n), n as f64), "{n}");
    }
    for n in [-1, -16_777_217, i64::MAX, i64::MIN + 1] {
        assert!(alike32(Real32::from_signed(n), n as f32), "{n}");
        assert!(alike64(Real64::from_signed(n), n as f64), "{n}");
    }
}

#[test]
fn numbers_are_read_as_std_reads_them() {
    let read = |text: &str| {
        let chars: Vec<char> = text.chars().collect();
        Real64::parse(&chars).map(|x| f64::from_bits(x.bits))
    };
    for text in [
        "0", "-0", "1", "0.1", "29.97", "1e10", "1E-10", "-2.5e+3", "5e-324", "2e-324", "1e309",
        "179769313486231570000000000000000000000", "4503599627370497.5", "9007199254740993",
        "0.000000000000000000000000000000000000000001", ".5", "5.", "inf", "-Infinity",
        "2.2250738585072011e-308", "123456789012345678901234567890",
    ] {
        assert_eq!(read(text), text.parse::<f64>().ok(), "{text}");
    }
    assert!(read("NaN").unwrap().is_nan());
    for text in ["", "-", "e5", "1e", "1.2.3", "0x10", " 1", "1 ", "."] {
        assert_eq!(read(text), None, "{text}");
        assert!(text.parse::<f64>().is_err());
    }
}

#[test]
fn values_are_written_as_they_are_shown() {
    assert_eq!(format_hundredths(single(0.125)), format!("{:.2}", 0.125_f32));
    assert_eq!(format_hundredths(single(2.5)), "2.50");
    assert_eq!(format_hundredths(single(-1.005)), format!("{:.2}", -1.005_f32));
    assert_eq!(format_value(single(1.)).as_deref(), Some("1"));
    assert_eq!(format_value(single(0.35)).as_deref(), Some("0.35"));
    assert_eq!(megabytes(12_345_678), "12 MB");
    assert_eq!(megabytes(1_250_000), format!("{:.1} MB", 1.25_f64));
}
