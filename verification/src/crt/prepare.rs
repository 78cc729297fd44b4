//! The prepare step: a source becomes the logical signal. Transparency is laid over the selected
//! background before filtering, then the color table and the grade apply.
use crate::crt::config::{Config, ConfigError, Filter};
use crate::crt::lut::{clamp_unit, Lut};
use crate::crt::picture::{flatten_alpha, resize_to, Picture};
use crate::number::Real32;
use vstd::prelude::*;

verus! {

/// The sine and the cosine of an angle.
#[derive(Clone, Copy, PartialEq, Eq, Structural, Debug)]
pub struct Turn {
    pub sine: Real32,
    pub cosine: Real32,
}

// -------------------------------------------------------------------------------------------
// The grade
// -------------------------------------------------------------------------------------------

/// A color's luma, I and Q, from its channels as shares of the brightest.
pub open spec fn yiq(r: Real32, g: Real32, b: Real32) -> (Real32, Real32, Real32) {
    (
        Real32 { bits: 0x3e99_1687 }.times(r).plus(Real32 { bits: 0x3f16_45a2 }.times(g)).plus(
            Real32 { bits: 0x3de9_78d5 }.times(b),
        ),
        Real32 { bits: 0x3f18_9375 }.times(r).minus(Real32 { bits: 0x3e8c_49ba }.times(g)).minus(
            Real32 { bits: 0x3ea4_dd2f }.times(b),
        ),
        Real32 { bits: 0x3e58_1062 }.times(r).minus(Real32 { bits: 0x3f05_e354 }.times(g)).plus(
            Real32 { bits: 0x3e9f_be77 }.times(b),
        ),
    )
}

/// I and Q turned and scaled.
pub open spec fn turned(i: Real32, q: Real32, hue: Turn, chroma: Real32) -> (Real32, Real32) {
    (
        i.times(hue.cosine).minus(q.times(hue.sine)).times(chroma),
        i.times(hue.sine).plus(q.times(hue.cosine)).times(chroma),
    )
}

/// A channel of the color with this luma, I and Q.
pub open spec fn rgb_of(y: Real32, i: Real32, q: Real32, c: int) -> Real32 {
    if c == 0 {
        y.plus(Real32 { bits: 0x3f74_bc6a }.times(i)).plus(Real32 { bits: 0x3f1e_f9db }.times(q))
    } else if c == 1 {
        y.minus(Real32 { bits: 0x3e8b_4396 }.times(i)).minus(Real32 { bits: 0x3f25_a1cb }.times(q))
    } else {
        y.minus(Real32 { bits: 0x3f8d_9168 }.times(i)).plus(Real32 { bits: 0x3fd9_fbe7 }.times(q))
    }
}

/// A channel of a graded color, to the nearest 8-bit step.
#[verifier::opaque]
pub open spec fn graded(rgb: Seq<u8>, c: int, hue: Turn, chroma: Real32) -> u8 {
    let (y, i, q) = yiq(
        crate::crt::lut::share(rgb[0]),
        crate::crt::lut::share(rgb[1]),
        crate::crt::lut::share(rgb[2]),
    );
    let (ii, qq) = turned(i, q, hue, chroma);
    crate::crt::lut::unit_clamped(rgb_of(y, ii, qq, c)).times(Real32::of(255)).rounded(255) as u8
}

fn share_of(byte: u8) -> (r: Real32)
    ensures
        r == crate::crt::lut::share(byte),
{
    Real32::from_integer(byte as u64).div(Real32::from_integer(255))
}

fn step_of(v: Real32) -> (r: u8)
    ensures
        r == crate::crt::lut::unit_clamped(v).times(Real32::of(255)).rounded(255) as u8,
{
    clamp_unit(v).mul(Real32::from_integer(255)).round(255) as u8
}

fn grade_color(rgb: [u8; 3], hue: Turn, chroma: Real32) -> (r: [u8; 3])
    ensures
        r@[0] == graded(rgb@, 0, hue, chroma),
        r@[1] == graded(rgb@, 1, hue, chroma),
        r@[2] == graded(rgb@, 2, hue, chroma),
{
    proof {
        reveal(graded);
    }
    let r: Real32 = share_of(rgb[0]);
    let g: Real32 = share_of(rgb[1]);
    let b: Real32 = share_of(rgb[2]);
    let y: Real32 = Real32 { bits: 0x3e99_1687 }.mul(r).add(
        Real32 { bits: 0x3f16_45a2 }.mul(g),
    ).add(Real32 { bits: 0x3de9_78d5 }.mul(b));
    let i: Real32 = Real32 { bits: 0x3f18_9375 }.mul(r).sub(
        Real32 { bits: 0x3e8c_49ba }.mul(g),
    ).sub(Real32 { bits: 0x3ea4_dd2f }.mul(b));
    let q: Real32 = Real32 { bits: 0x3e58_1062 }.mul(r).sub(
        Real32 { bits: 0x3f05_e354 }.mul(g),
    ).add(Real32 { bits: 0x3e9f_be77 }.mul(b));
    let ii: Real32 = i.mul(hue.cosine).sub(q.mul(hue.sine)).mul(chroma);
    let qq: Real32 = i.mul(hue.sine).add(q.mul(hue.cosine)).mul(chroma);
    [
        step_of(
            y.add(Real32 { bits: 0x3f74_bc6a }.mul(ii)).add(
                Real32 { bits: 0x3f1e_f9db }.mul(qq),
            ),
        ),
        step_of(
            y.sub(Real32 { bits: 0x3e8b_4396 }.mul(ii)).sub(
                Real32 { bits: 0x3f25_a1cb }.mul(qq),
            ),
        ),
        step_of(
            y.sub(Real32 { bits: 0x3f8d_9168 }.mul(ii)).add(
                Real32 { bits: 0x3fd9_fbe7 }.mul(qq),
            ),
        ),
    ]
}

/// What the grade makes of byte `i` of a picture's pixels.
pub open spec fn graded_byte(pixels: Seq<u8>, i: int, hue: Turn, chroma: Real32) -> u8 {
    if i % 4 == 3 {
        pixels[i]
    } else {
        graded(pixels.subrange(i - i % 4, i - i % 4 + 3), i % 4, hue, chroma)
    }
}

/// Turns the hue of every color and scales its chroma; transparency stays as it is.
pub fn grade(image: &mut Picture, hue: Turn, chroma: Real32)
    requires
        old(image).wf(),
    ensures
        final(image).wf(),
        final(image).same_size(*old(image)),
        forall|i: int|
            0 <= i < old(image).pixels@.len() ==> final(image).pixels@[i] == graded_byte(
                old(image).pixels@,
                i,
                hue,
                chroma,
            ),
{
    let ghost before = image.pixels@;
    let n: usize = image.pixels.len();
    let mut i: usize = 0;
    while i < n
        invariant
            image.wf(),
            image.same_size(*old(image)),
            before == old(image).pixels@,
            n == before.len(),
            n == image.pixels@.len(),
            n % 4 == 0,
            i % 4 == 0,
            i <= n,
            forall|j: int| 0 <= j < i ==> image.pixels@[j] == graded_byte(before, j, hue, chroma),
            forall|j: int| i <= j < n ==> image.pixels@[j] == before[j],
        decreases n - i,
    {
        let rgb: [u8; 3] = [image.pixels[i], image.pixels[i + 1], image.pixels[i + 2]];
        assert(rgb@ =~= before.subrange(i as int, i + 3));
        let color: [u8; 3] = grade_color(rgb, hue, chroma);
        image.pixels.set(i, color[0]);
        image.pixels.set(i + 1, color[1]);
        image.pixels.set(i + 2, color[2]);
        i = i + 4;
    }
}

// What the grade does to colors

/// The coefficients of luma, I and Q, as fractions of powers of two.
proof fn lemma_coefficients()
    ensures
        crate::margin::is_part(0x3e99_1687, 10032775, 0x200_0000),
        crate::margin::is_part(0x3f16_45a2, 9848226, 0x100_0000),
        crate::margin::is_part(0x3de9_78d5, 15300821, 0x800_0000),
        crate::margin::is_part(0x3f18_9375, 9999221, 0x100_0000),
        crate::margin::is_part(0x3e8c_49ba, 9193914, 0x200_0000),
        crate::margin::is_part(0x3ea4_dd2f, 10804527, 0x200_0000),
        crate::margin::is_part(0x3e58_1062, 14159970, 0x400_0000),
        crate::margin::is_part(0x3f05_e354, 8774484, 0x100_0000),
        crate::margin::is_part(0x3e9f_be77, 10468983, 0x200_0000),
{
    vstd::arithmetic::power2::lemma2_to64();
    crate::margin::lemma_literal(0x3e99_1687, 10032775, 25, 0x200_0000);
    crate::margin::lemma_literal(0x3f16_45a2, 9848226, 24, 0x100_0000);
    crate::margin::lemma_literal(0x3de9_78d5, 15300821, 27, 0x800_0000);
    crate::margin::lemma_literal(0x3f18_9375, 9999221, 24, 0x100_0000);
    crate::margin::lemma_literal(0x3e8c_49ba, 9193914, 25, 0x200_0000);
    crate::margin::lemma_literal(0x3ea4_dd2f, 10804527, 25, 0x200_0000);
    crate::margin::lemma_literal(0x3e58_1062, 14159970, 26, 0x400_0000);
    crate::margin::lemma_literal(0x3f05_e354, 8774484, 24, 0x100_0000);
    crate::margin::lemma_literal(0x3e9f_be77, 10468983, 25, 0x200_0000);
}

/// The coefficients that lead back from luma, I and Q.
proof fn lemma_coefficients_back()
    ensures
        crate::margin::is_part(0x3f74_bc6a, 16039018, 0x100_0000),
        crate::margin::is_part(0x3f1e_f9db, 10418651, 0x100_0000),
        crate::margin::is_part(0x3e8b_4396, 9126806, 0x200_0000),
        crate::margin::is_part(0x3f25_a1cb, 10854859, 0x100_0000),
        crate::margin::is_part(0x3f8d_9168, 9277800, 0x80_0000),
        crate::margin::is_part(0x3fd9_fbe7, 14285799, 0x80_0000),
{
    vstd::arithmetic::power2::lemma2_to64();
    crate::margin::lemma_literal(0x3f74_bc6a, 16039018, 24, 0x100_0000);
    crate::margin::lemma_literal(0x3f1e_f9db, 10418651, 24, 0x100_0000);
    crate::margin::lemma_literal(0x3e8b_4396, 9126806, 25, 0x200_0000);
    crate::margin::lemma_literal(0x3f25_a1cb, 10854859, 24, 0x100_0000);
    crate::margin::lemma_literal(0x3f8d_9168, 9277800, 23, 0x80_0000);
    crate::margin::lemma_literal(0x3fd9_fbe7, 14285799, 23, 0x80_0000);
}

/// Luma, I and Q are near the sums of the channels that they stand for.
#[verifier::rlimit(40)]
proof fn lemma_near_yiq(r: u8, g: u8, b: u8)
    ensures
        ({
            let (y, i, q) = yiq(
                crate::crt::lut::share(r),
                crate::crt::lut::share(g),
                crate::crt::lut::share(b),
            );
            let (x, z, w) = (
                r * crate::margin::unit(),
                g * crate::margin::unit(),
                b * crate::margin::unit(),
            );
            let off = 2_550_000 * crate::margin::slack();
            &&& y.finite() && i.finite() && q.finite()
            &&& crate::margin::within(
                255_000 * crate::margin::worth(y),
                299 * x + 587 * z + 114 * w,
                off,
            )
            &&& crate::margin::within(
                255_000 * crate::margin::worth(i),
                596 * x - 274 * z - 322 * w,
                off,
            )
            &&& crate::margin::within(
                255_000 * crate::margin::worth(q),
                211 * x - 523 * z + 312 * w,
                off,
            )
            &&& 0 <= x <= 255 * crate::margin::unit()
            &&& 0 <= z <= 255 * crate::margin::unit()
            &&& 0 <= w <= 255 * crate::margin::unit()
        }),
{
    crate::margin::lemma_units();
    lemma_coefficients();
    crate::margin::near_share(r);
    crate::margin::near_share(g);
    crate::margin::near_share(b);
    let (sr, sg, sb) = (
        crate::crt::lut::share(r),
        crate::crt::lut::share(g),
        crate::crt::lut::share(b),
    );
    let u = crate::margin::unit();
    lemma_steps_of_unit(r, u);
    lemma_steps_of_unit(g, u);
    lemma_steps_of_unit(b, u);
    let a = Real32 { bits: 0x3e99_1687 };
    crate::margin::near_part(a, sr, 10032775, 0x200_0000);
    let c = Real32 { bits: 0x3f16_45a2 };
    crate::margin::near_part(c, sg, 9848226, 0x100_0000);
    let d = Real32 { bits: 0x3de9_78d5 };
    crate::margin::near_part(d, sb, 15300821, 0x800_0000);
    crate::margin::near_sum(a.times(sr), c.times(sg));
    crate::margin::near_sum(a.times(sr).plus(c.times(sg)), d.times(sb));
    let e = Real32 { bits: 0x3f18_9375 };
    crate::margin::near_part(e, sr, 9999221, 0x100_0000);
    let h = Real32 { bits: 0x3e8c_49ba };
    crate::margin::near_part(h, sg, 9193914, 0x200_0000);
    let j = Real32 { bits: 0x3ea4_dd2f };
    crate::margin::near_part(j, sb, 10804527, 0x200_0000);
    crate::margin::near_difference(e.times(sr), h.times(sg));
    crate::margin::near_difference(e.times(sr).minus(h.times(sg)), j.times(sb));
    let k = Real32 { bits: 0x3e58_1062 };
    crate::margin::near_part(k, sr, 14159970, 0x400_0000);
    let l = Real32 { bits: 0x3f05_e354 };
    crate::margin::near_part(l, sg, 8774484, 0x100_0000);
    let m = Real32 { bits: 0x3e9f_be77 };
    crate::margin::near_part(m, sb, 10468983, 0x200_0000);
    crate::margin::near_difference(k.times(sr), l.times(sg));
    crate::margin::near_sum(k.times(sr).minus(l.times(sg)), m.times(sb));
}

proof fn lemma_steps_of_unit(byte: u8, u: int)
    requires
        u > 0,
    ensures
        0 <= byte * u <= 255 * u,
{
    let n = byte as int;
    assert(0 <= n * u <= 255 * u) by (nonlinear_arith)
        requires
            0 <= n <= 255,
            u > 0,
    ;
}

/// A channel is near the luma with the parts of I and Q that it takes.
proof fn lemma_near_rgb(y: Real32, i: Real32, q: Real32, c: int)
    requires
        y.finite(),
        i.finite(),
        q.finite(),
        crate::margin::within(crate::margin::worth(y), 0, 2 * crate::margin::unit()),
        crate::margin::within(4 * crate::margin::worth(i), 0, 5 * crate::margin::unit()),
        crate::margin::within(4 * crate::margin::worth(q), 0, 5 * crate::margin::unit()),
        0 <= c < 3,
    ensures
        rgb_of(y, i, q, c).finite(),
        crate::margin::within(
            1000 * crate::margin::worth(rgb_of(y, i, q, c)),
            1000 * crate::margin::worth(y) + (if c == 0 {
                956 * crate::margin::worth(i) + 621 * crate::margin::worth(q)
            } else if c == 1 {
                -(272 * crate::margin::worth(i)) - 647 * crate::margin::worth(q)
            } else {
                -(1106 * crate::margin::worth(i)) + 1703 * crate::margin::worth(q)
            }),
            6000 * crate::margin::slack(),
        ),
{
    crate::margin::lemma_units();
    lemma_coefficients_back();
    if c == 0 {
        let a = Real32 { bits: 0x3f74_bc6a };
        let b = Real32 { bits: 0x3f1e_f9db };
        crate::margin::near_part(a, i, 16039018, 0x100_0000);
        crate::margin::near_part(b, q, 10418651, 0x100_0000);
        crate::margin::near_sum(y, a.times(i));
        crate::margin::near_sum(y.plus(a.times(i)), b.times(q));
    } else if c == 1 {
        let a = Real32 { bits: 0x3e8b_4396 };
        let b = Real32 { bits: 0x3f25_a1cb };
        crate::margin::near_part(a, i, 9126806, 0x200_0000);
        crate::margin::near_part(b, q, 10854859, 0x100_0000);
        crate::margin::near_difference(y, a.times(i));
        crate::margin::near_difference(y.minus(a.times(i)), b.times(q));
    } else {
        let a = Real32 { bits: 0x3f8d_9168 };
        let b = Real32 { bits: 0x3fd9_fbe7 };
        crate::margin::near_part(a, i, 9277800, 0x80_0000);
        crate::margin::near_part(b, q, 14285799, 0x80_0000);
        crate::margin::near_difference(y, a.times(i));
        crate::margin::near_sum(y.minus(a.times(i)), b.times(q));
    }
}

/// Whether this can be the sine and the cosine of an angle: neither is past 1.
pub open spec fn is_turn(turn: Turn) -> bool {
    &&& turn.sine.finite()
    &&& turn.cosine.finite()
    &&& crate::margin::within(crate::margin::worth(turn.sine), 0, crate::margin::unit())
    &&& crate::margin::within(crate::margin::worth(turn.cosine), 0, crate::margin::unit())
}

/// Whether a number is an integer, exactly.
pub open spec fn is_whole(x: Real32, n: int) -> bool {
    x.finite() && crate::margin::worth(x) == n * crate::margin::unit()
}

/// Grays have no chroma to turn or scale: each stays as it is, whatever the hue is turned by and
/// whatever its chroma is scaled by, up to twice.
#[verifier::rlimit(40)]
pub proof fn grays_stay_as_they_are(v: u8, c: int, hue: Turn, chroma: Real32)
    requires
        0 <= c < 3,
        is_turn(hue),
        chroma.finite(),
        0 <= crate::margin::worth(chroma) <= 2 * crate::margin::unit(),
    ensures
        graded(seq![v, v, v], c, hue, chroma) == v,
{
    reveal(graded);
    crate::margin::lemma_units();
    lemma_near_yiq(v, v, v);
    let share = crate::crt::lut::share(v);
    let (y, i, q) = yiq(share, share, share);
    let (u, s) = (crate::margin::unit(), crate::margin::slack());
    crate::margin::near_small(i, hue.cosine, 11 * s, 1);
    crate::margin::near_small(i, hue.sine, 11 * s, 1);
    crate::margin::near_small(q, hue.cosine, 11 * s, 1);
    crate::margin::near_small(q, hue.sine, 11 * s, 1);
    let along = i.times(hue.cosine).minus(q.times(hue.sine));
    let across = i.times(hue.sine).plus(q.times(hue.cosine));
    crate::margin::near_difference(i.times(hue.cosine), q.times(hue.sine));
    crate::margin::near_sum(i.times(hue.sine), q.times(hue.cosine));
    crate::margin::near_small(along, chroma, 30 * s, 2);
    crate::margin::near_small(across, chroma, 30 * s, 2);
    let (ii, qq) = turned(i, q, hue, chroma);
    lemma_near_rgb(y, ii, qq, c);
    let channel = rgb_of(y, ii, qq, c);
    crate::margin::near_step(channel);
    let step = crate::crt::lut::unit_clamped(channel).times(Real32::of(255)).rounded(255);
    let n = v as int;
    assert(step == n) by (nonlinear_arith)
        requires
            -u < step * u - n * u < u,
            u > 0,
    ;
}

/// What I and Q are turned and scaled to by whole numbers.
proof fn lemma_near_turned(
    i: Real32,
    q: Real32,
    hue: Turn,
    chroma: Real32,
    k: int,
    s: int,
    m: int,
)
    requires
        i.finite(),
        q.finite(),
        crate::margin::within(crate::margin::worth(i), 0, crate::margin::unit()),
        crate::margin::within(crate::margin::worth(q), 0, crate::margin::unit()),
        is_whole(hue.cosine, k),
        is_whole(hue.sine, s),
        is_whole(chroma, m),
        -1 <= k <= 1,
        -1 <= s <= 1,
        0 <= m <= 2,
    ensures
        ({
            let (x, z) = (crate::margin::worth(i), crate::margin::worth(q));
            let (ii, qq) = turned(i, q, hue, chroma);
            &&& ii.finite() && qq.finite()
            &&& crate::margin::within(
                crate::margin::worth(ii),
                m * (k * x - s * z),
                7 * crate::margin::slack(),
            )
            &&& crate::margin::within(
                crate::margin::worth(qq),
                m * (s * x + k * z),
                7 * crate::margin::slack(),
            )
        }),
{
    crate::margin::lemma_units();
    let (x, z) = (crate::margin::worth(i), crate::margin::worth(q));
    crate::margin::products_commute(i, hue.cosine);
    crate::margin::products_commute(i, hue.sine);
    crate::margin::products_commute(q, hue.cosine);
    crate::margin::products_commute(q, hue.sine);
    crate::margin::near_part(hue.cosine, i, k, 1);
    crate::margin::near_part(hue.sine, i, s, 1);
    crate::margin::near_part(hue.cosine, q, k, 1);
    crate::margin::near_part(hue.sine, q, s, 1);
    lemma_small_multiple(k, x);
    lemma_small_multiple(s, x);
    lemma_small_multiple(k, z);
    lemma_small_multiple(s, z);
    let along = i.times(hue.cosine).minus(q.times(hue.sine));
    let across = i.times(hue.sine).plus(q.times(hue.cosine));
    crate::margin::near_difference(i.times(hue.cosine), q.times(hue.sine));
    crate::margin::near_sum(i.times(hue.sine), q.times(hue.cosine));
    crate::margin::products_commute(along, chroma);
    crate::margin::products_commute(across, chroma);
    crate::margin::near_part(chroma, along, m, 1);
    crate::margin::near_part(chroma, across, m, 1);
    lemma_multiple_within(m, crate::margin::worth(along), k * x - s * z, crate::margin::slack());
    lemma_multiple_within(m, crate::margin::worth(across), s * x + k * z, crate::margin::slack());
}

proof fn lemma_small_multiple(k: int, x: int)
    requires
        -1 <= k <= 1,
    ensures
        k == 0 ==> k * x == 0,
        k == 1 ==> k * x == x,
        k == -1 ==> k * x == -x,
{
    assert((-1int) * x == -x) by (nonlinear_arith);
}

proof fn lemma_multiple_within(m: int, x: int, exact: int, off: int)
    requires
        0 <= m <= 2,
        off >= 0,
        crate::margin::within(x, exact, 3 * off),
    ensures
        crate::margin::within(m * x, m * exact, 6 * off),
{
    assert(m * x - m * exact <= 6 * off && m * exact - m * x <= 6 * off) by (nonlinear_arith)
        requires
            0 <= m <= 2,
            off >= 0,
            x - exact <= 3 * off,
            exact - x <= 3 * off,
    ;
}

/// A channel of a color in millionths of an 8-bit step, once its chroma has been turned by a
/// quarter of a circle `k` and `s` say, and scaled by `m`: as NTSC weighs luma, I and Q, none of
/// it below black or above white.
pub open spec fn turned_millionths(rgb: Seq<u8>, c: int, k: int, s: int, m: int) -> int {
    let (r, g, b) = (rgb[0] as int, rgb[1] as int, rgb[2] as int);
    let y = 299 * r + 587 * g + 114 * b;
    let i = 596 * r - 274 * g - 322 * b;
    let q = 211 * r - 523 * g + 312 * b;
    kept_millionths(y, m * (k * i - s * q), m * (s * i + k * q), c)
}

/// A channel in millionths of a step, from luma, I and Q in thousandths of it.
pub open spec fn exact_millionths(y: int, i: int, q: int, c: int) -> int {
    1000 * y + (if c == 0 {
        956 * i + 621 * q
    } else if c == 1 {
        -(272 * i) - 647 * q
    } else {
        -(1106 * i) + 1703 * q
    })
}

/// The same, kept within black and white.
pub open spec fn kept_millionths(y: int, i: int, q: int, c: int) -> int {
    let exact = exact_millionths(y, i, q, c);
    if exact < 0 {
        0
    } else if exact > 255_000_000 {
        255_000_000
    } else {
        exact
    }
}

/// Quarter turns of the hue at no, the same or twice the chroma give every color what luma, I and Q
/// come to, within little more than half a step: from luma alone without chroma, through the color
/// itself unturned, to its opposite at half a circle. A turn leads from I to Q.
#[verifier::rlimit(60)]
#[verifier::spinoff_prover]
pub proof fn quarter_turns_move_chroma(
    rgb: Seq<u8>,
    c: int,
    hue: Turn,
    chroma: Real32,
    k: int,
    s: int,
    m: int,
)
    requires
        rgb.len() == 3,
        0 <= c < 3,
        (k == 0 && (s == 1 || s == -1)) || (s == 0 && (k == 1 || k == -1)),
        0 <= m <= 2,
        is_whole(hue.cosine, k),
        is_whole(hue.sine, s),
        is_whole(chroma, m),
    ensures
        crate::margin::within(
            1_000_000 * graded(rgb, c, hue, chroma),
            turned_millionths(rgb, c, k, s, m),
            510_000,
        ),
{
    reveal(graded);
    crate::margin::lemma_units();
    let (rb, gb, bb) = (rgb[0], rgb[1], rgb[2]);
    let (r, g, b) = (rb as int, gb as int, bb as int);
    lemma_near_yiq(rb, gb, bb);
    let (y, i, q) = yiq(
        crate::crt::lut::share(rb),
        crate::crt::lut::share(gb),
        crate::crt::lut::share(bb),
    );
    let (u, d) = (crate::margin::unit(), crate::margin::slack());
    lemma_near_turned(i, q, hue, chroma, k, s, m);
    let (ii, qq) = turned(i, q, hue, chroma);
    let (wi, wq) = (crate::margin::worth(i), crate::margin::worth(q));
    let (luma, along, across) = (
        299 * r + 587 * g + 114 * b,
        596 * r - 274 * g - 322 * b,
        211 * r - 523 * g + 312 * b,
    );
    let (lu, au, cu) = (luma * u, along * u, across * u);
    assert(lu == 299 * (r * u) + 587 * (g * u) + 114 * (b * u)) by (nonlinear_arith)
        requires
            lu == (299 * r + 587 * g + 114 * b) * u,
    ;
    assert(au == 596 * (r * u) - 274 * (g * u) - 322 * (b * u)) by (nonlinear_arith)
        requires
            au == (596 * r - 274 * g - 322 * b) * u,
    ;
    assert(cu == 211 * (r * u) - 523 * (g * u) + 312 * (b * u)) by (nonlinear_arith)
        requires
            cu == (211 * r - 523 * g + 312 * b) * u,
    ;
    let (ei, eq) = (m * (k * along - s * across), m * (s * along + k * across));
    lemma_turns_alike(k, s, m, wi, wq, along, across, u, 2_550_000 * d);
    lemma_turns_stay_small(k, s, m, wi, wq, 5 * u - 28 * d);
    lemma_near_step_of(luma, ei, eq, y, ii, qq, c);
}

/// The step of a channel is near the one that exact luma, I and Q come to.
#[verifier::spinoff_prover]
#[verifier::rlimit(40)]
proof fn lemma_near_step_of(
    luma: int,
    ei: int,
    eq: int,
    y: Real32,
    i: Real32,
    q: Real32,
    c: int,
)
    requires
        y.finite(),
        i.finite(),
        q.finite(),
        0 <= c < 3,
        crate::margin::within(crate::margin::worth(y), 0, 2 * crate::margin::unit()),
        crate::margin::within(4 * crate::margin::worth(i), 0, 5 * crate::margin::unit()),
        crate::margin::within(4 * crate::margin::worth(q), 0, 5 * crate::margin::unit()),
        crate::margin::within(
            255_000 * crate::margin::worth(y),
            luma * crate::margin::unit(),
            2_550_000 * crate::margin::slack(),
        ),
        crate::margin::within(
            255_000 * crate::margin::worth(i),
            ei * crate::margin::unit(),
            7_000_000 * crate::margin::slack(),
        ),
        crate::margin::within(
            255_000 * crate::margin::worth(q),
            eq * crate::margin::unit(),
            7_000_000 * crate::margin::slack(),
        ),
    ensures
        crate::margin::within(
            1_000_000 * (crate::crt::lut::unit_clamped(rgb_of(y, i, q, c)).times(
                Real32::of(255),
            ).rounded(255) as u8),
            kept_millionths(luma, ei, eq, c),
            510_000,
        ),
{
    crate::margin::lemma_units();
    let u = crate::margin::unit();
    let (lu, eiu, equ) = (luma * u, ei * u, eq * u);
    lemma_near_rgb(y, i, q, c);
    let channel = rgb_of(y, i, q, c);
    crate::margin::near_step(channel);
    let step = crate::crt::lut::unit_clamped(channel).times(Real32::of(255)).rounded(255) as int;
    let exact = exact_millionths(luma, ei, eq, c);
    let exu = exact * u;
    lemma_exact_scales(luma, ei, eq, c, u);
    let kept = kept_millionths(luma, ei, eq, c);
    let ku = kept * u;
    lemma_clamp_scales(exact, u);
    assert(ku == (if exu < 0 {
        0
    } else if exu > 255_000_000 * u {
        255_000_000 * u
    } else {
        exu
    }));
    let su = step * u;
    assert(-510_000 * u <= 1_000_000 * su - ku <= 510_000 * u);
    assert(-510_000 <= 1_000_000 * step - kept <= 510_000) by (nonlinear_arith)
        requires
            -510_000 * u <= 1_000_000 * (step * u) - kept * u <= 510_000 * u,
            u > 0,
    ;
}

proof fn lemma_exact_scales(luma: int, ei: int, eq: int, c: int, u: int)
    ensures
        exact_millionths(luma, ei, eq, c) * u == 1000 * (luma * u) + (if c == 0 {
            956 * (ei * u) + 621 * (eq * u)
        } else if c == 1 {
            -(272 * (ei * u)) - 647 * (eq * u)
        } else {
            -(1106 * (ei * u)) + 1703 * (eq * u)
        }),
{
    if c == 0 {
        assert((1000 * luma + (956 * ei + 621 * eq)) * u == 1000 * (luma * u) + (956 * (ei * u)
            + 621 * (eq * u))) by (nonlinear_arith);
    } else if c == 1 {
        assert((1000 * luma + (-(272 * ei) - 647 * eq)) * u == 1000 * (luma * u) + (-(272 * (ei
            * u)) - 647 * (eq * u))) by (nonlinear_arith);
    } else {
        assert((1000 * luma + (-(1106 * ei) + 1703 * eq)) * u == 1000 * (luma * u) + (-(1106 * (ei
            * u)) + 1703 * (eq * u))) by (nonlinear_arith);
    }
}

proof fn lemma_turns_stay_small(k: int, s: int, m: int, wi: int, wq: int, most: int)
    requires
        (k == 0 && (s == 1 || s == -1)) || (s == 0 && (k == 1 || k == -1)),
        0 <= m <= 2,
        crate::margin::within(8 * wi, 0, most),
        crate::margin::within(8 * wq, 0, most),
    ensures
        crate::margin::within(4 * (m * (k * wi - s * wq)), 0, most),
        crate::margin::within(4 * (m * (s * wi + k * wq)), 0, most),
{
    lemma_small_multiple(k, wi);
    lemma_small_multiple(s, wi);
    lemma_small_multiple(k, wq);
    lemma_small_multiple(s, wq);
    let (x, z) = (k * wi - s * wq, s * wi + k * wq);
    lemma_small_factor(m, x);
    lemma_small_factor(m, z);
}

proof fn lemma_small_factor(m: int, x: int)
    requires
        0 <= m <= 2,
    ensures
        m == 0 ==> m * x == 0,
        m == 1 ==> m * x == x,
        m == 2 ==> m * x == x + x,
{
}

proof fn lemma_clamp_scales(exact: int, u: int)
    requires
        u > 0,
    ensures
        exact < 0 ==> exact * u < 0,
        exact == 0 ==> exact * u == 0,
        exact > 0 ==> exact * u > 0,
        exact > 255_000_000 ==> exact * u > 255_000_000 * u,
        exact <= 255_000_000 ==> exact * u <= 255_000_000 * u,
        0 * u == 0,
{
    assert(exact < 0 ==> exact * u < 0) by (nonlinear_arith)
        requires
            u > 0,
    ;
    assert(exact > 0 ==> exact * u > 0) by (nonlinear_arith)
        requires
            u > 0,
    ;
    assert(exact > 255_000_000 ==> exact * u > 255_000_000 * u) by (nonlinear_arith)
        requires
            u > 0,
    ;
    assert(exact <= 255_000_000 ==> exact * u <= 255_000_000 * u) by (nonlinear_arith)
        requires
            u > 0,
    ;
}

/// Turning and scaling by whole numbers keeps what is near each other near.
proof fn lemma_turns_alike(
    k: int,
    s: int,
    m: int,
    wi: int,
    wq: int,
    along: int,
    across: int,
    u: int,
    off: int,
)
    requires
        (k == 0 && (s == 1 || s == -1)) || (s == 0 && (k == 1 || k == -1)),
        0 <= m <= 2,
        off >= 0,
        crate::margin::within(255_000 * wi, along * u, off),
        crate::margin::within(255_000 * wq, across * u, off),
    ensures
        crate::margin::within(
            255_000 * (m * (k * wi - s * wq)),
            (m * (k * along - s * across)) * u,
            2 * off,
        ),
        crate::margin::within(
            255_000 * (m * (s * wi + k * wq)),
            (m * (s * along + k * across)) * u,
            2 * off,
        ),
{
    lemma_small_multiple(k, wi);
    lemma_small_multiple(s, wi);
    lemma_small_multiple(k, wq);
    lemma_small_multiple(s, wq);
    lemma_small_multiple(k, along);
    lemma_small_multiple(s, along);
    lemma_small_multiple(k, across);
    lemma_small_multiple(s, across);
    let (x, z) = (k * wi - s * wq, s * wi + k * wq);
    let (ex, ez) = (k * along - s * across, s * along + k * across);
    assert((-along) * u == -(along * u) && (-across) * u == -(across * u)) by (nonlinear_arith);
    assert(crate::margin::within(255_000 * x, ex * u, off));
    assert(crate::margin::within(255_000 * z, ez * u, off));
    if m == 0 {
        assert(0 * x == 0 && 0 * z == 0 && (0 * ex) * u == 0 && (0 * ez) * u == 0)
            by (nonlinear_arith);
    } else if m == 1 {
        assert(1 * x == x && 1 * z == z && (1 * ex) * u == ex * u && (1 * ez) * u == ez * u)
            by (nonlinear_arith);
    } else {
        assert(2 * x == x + x && (2 * ex) * u == 2 * (ex * u) && (2 * ez) * u == 2 * (ez * u))
            by (nonlinear_arith);
    }
}

/// Without chroma a color becomes the gray of its luma, within little more than half a step.
pub proof fn no_chroma_leaves_luma(rgb: Seq<u8>, c: int, hue: Turn, chroma: Real32)
    requires
        rgb.len() == 3,
        0 <= c < 3,
        is_turn(hue),
        is_whole(chroma, 0),
    ensures
        crate::margin::within(
            1000 * graded(rgb, c, hue, chroma),
            299 * rgb[0] + 587 * rgb[1] + 114 * rgb[2],
            510,
        ),
{
    reveal(graded);
    crate::margin::lemma_units();
    let (rb, gb, bb) = (rgb[0], rgb[1], rgb[2]);
    let (r, g, b) = (rb as int, gb as int, bb as int);
    lemma_near_yiq(rb, gb, bb);
    let (y, i, q) = yiq(
        crate::crt::lut::share(rb),
        crate::crt::lut::share(gb),
        crate::crt::lut::share(bb),
    );
    let u = crate::margin::unit();
    crate::margin::near_small(i, hue.cosine, u, 1);
    crate::margin::near_small(i, hue.sine, u, 1);
    crate::margin::near_small(q, hue.cosine, u, 1);
    crate::margin::near_small(q, hue.sine, u, 1);
    crate::margin::near_difference(i.times(hue.cosine), q.times(hue.sine));
    crate::margin::near_sum(i.times(hue.sine), q.times(hue.cosine));
    let along = i.times(hue.cosine).minus(q.times(hue.sine));
    let across = i.times(hue.sine).plus(q.times(hue.cosine));
    crate::margin::products_commute(along, chroma);
    crate::margin::products_commute(across, chroma);
    crate::margin::near_part(chroma, along, 0, 1);
    crate::margin::near_part(chroma, across, 0, 1);
    let (ii, qq) = turned(i, q, hue, chroma);
    let luma = 299 * r + 587 * g + 114 * b;
    assert(luma * u == 299 * (r * u) + 587 * (g * u) + 114 * (b * u)) by (nonlinear_arith)
        requires
            luma == 299 * r + 587 * g + 114 * b,
    ;
    lemma_near_step_of(luma, 0, 0, y, ii, qq, c);
}

/// An unturned hue with its chroma as it is gives every color back exactly.
pub proof fn neutral_grades_change_nothing(rgb: Seq<u8>, c: int, hue: Turn, chroma: Real32)
    requires
        rgb.len() == 3,
        0 <= c < 3,
        is_whole(hue.cosine, 1),
        is_whole(hue.sine, 0),
        is_whole(chroma, 1),
    ensures
        graded(rgb, c, hue, chroma) == rgb[c],
{
    quarter_turns_move_chroma(rgb, c, hue, chroma, 1, 0, 1);
}

// -------------------------------------------------------------------------------------------
// The whole step
// -------------------------------------------------------------------------------------------

impl Config {
    /// The color table prepare applies: the NES palette's when one is set, else the LUT.
    pub open spec fn lut_used(self, generated: Option<Lut>) -> Option<Lut> {
        if self.palette is Some {
            generated
        } else {
            self.lut
        }
    }

    /// The color table prepare applies: the one `generated` from the NES palette when one is
    /// set, else the LUT.
    pub fn lut_in_use<'a>(&'a self, generated: &'a Option<Lut>) -> (r: Option<&'a Lut>)
        ensures
            match self.lut_used(*generated) {
                Some(lut) => r == Some(&lut),
                None => r is None,
            },
    {
        match &self.palette {
            Some(_) => match generated {
                Some(lut) => Some(lut),
                None => None,
            },
            None => match &self.lut {
                Some(lut) => Some(lut),
                None => None,
            },
        }
    }
}

/// A picture's bytes once the color table, where there is one, has been applied.
pub open spec fn tabled(pixels: Seq<u8>, lut: Option<Lut>, strength: Real32) -> Seq<u8> {
    match lut {
        Some(lut) => Seq::new(pixels.len(), |i: int| lut.applied(pixels, i, Some(strength))),
        None => pixels,
    }
}

/// The signal that a resized source gives.
pub open spec fn finished(pixels: Seq<u8>, c: Config, lut: Option<Lut>, hue: Turn) -> Seq<u8> {
    let colored = tabled(pixels, lut, c.lut_strength);
    if c.graded() {
        Seq::new(colored.len(), |i: int| graded_byte(colored, i, hue, c.chroma))
    } else {
        colored
    }
}

/// Applies the color table and the grade to a source already resized.
pub fn finish(image: &mut Picture, c: &Config, generated: &Option<Lut>, hue: Turn)
    requires
        old(image).wf(),
        c.lut_used(*generated) matches Some(lut) ==> lut.filled(),
    ensures
        final(image).wf(),
        final(image).same_size(*old(image)),
        final(image).pixels@ == finished(old(image).pixels@, *c, c.lut_used(*generated), hue),
{
    let ghost before = image.pixels@;
    let ghost lut = c.lut_used(*generated);
    match c.lut_in_use(generated) {
        Some(lut) => lut.apply_with_strength(image, c.lut_strength),
        None => {},
    }
    assert(image.pixels@ =~= tabled(before, lut, c.lut_strength));
    let ghost colored = image.pixels@;
    if c.grades() {
        grade(image, hue, c.chroma);
        assert(image.pixels@ =~= Seq::new(
            colored.len(),
            |i: int| graded_byte(colored, i, hue, c.chroma),
        ));
    }
}

/// A picture's bytes laid over a background.
pub open spec fn laid_over(pixels: Seq<u8>, background: Seq<u8>) -> Seq<u8> {
    Seq::new(pixels.len(), |i: int| crate::crt::picture::flattened(pixels, background, i))
}

/// A source laid over the background and resized.
pub open spec fn plainly_resized(input: Picture, c: Config, size: (u32, u32), r: Picture) -> bool {
    let opaque = laid_over(input.pixels@, c.source.background@);
    &&& r.wf()
    &&& (r.width, r.height) == size
    &&& crate::crt::picture::resized_to(
        opaque,
        (input.width, input.height),
        size,
        c.filter != Filter::Nearest,
        r.pixels@,
    )
    &&& size == (input.width, input.height) ==> r.pixels@ == opaque
    &&& c.filter == Filter::Nearest ==> r.pixels@ == crate::crt::picture::nearest_resized(
        opaque,
        input.width,
        input.height,
        size.0,
        size.1,
    )
}

/// A source resampled through its edit.
pub open spec fn edited(input: Picture, c: Config, size: (u32, u32), rotation: Turn, r: Picture) -> bool {
    let framing = c.source.framing(
        (input.width, input.height),
        size,
        c.filter == Filter::Nearest,
        (rotation.sine, rotation.cosine),
    );
    &&& r.wf()
    &&& (r.width, r.height) == size
    &&& forall|x: int, y: int, k: int|
        0 <= x < size.0 && 0 <= y < size.1 && 0 <= k < 4 ==> #[trigger] r.channel(x, y, k)
            == framing.painted(input, x, y, k)
}

/// What the color table and the grade are applied to.
pub open spec fn sampled(input: Picture, c: Config, size: (u32, u32), rotation: Turn, r: Picture) -> bool {
    if c.edits() {
        edited(input, c, size, rotation, r)
    } else {
        plainly_resized(input, c, size, r)
    }
}

/// Whether preparing a source under settings gives this.
pub open spec fn is_prepared(
    input: Picture,
    c: Config,
    rotation: Turn,
    hue: Turn,
    generated: Option<Lut>,
    r: Result<Picture, ConfigError>,
) -> bool {
    &&& c.fault() matches Some(e) ==> r == Err::<Picture, ConfigError>(e)
    &&& c.fault() is None ==> match c.signal_of((input.width, input.height)) {
        Err(e) => r == Err::<Picture, ConfigError>(ConfigError::Size(e)),
        Ok(size) => r matches Ok(out) && out.wf() && (out.width, out.height) == size
            && exists|mid: Picture| #[trigger]
            sampled(input, c, size, rotation, mid) && out.pixels@ == finished(
                mid.pixels@,
                c,
                c.lut_used(generated),
                hue,
            ),
    }
}

/// Produces the logical signal; alpha is composited onto the selected background before
/// filtering. `rotation` and `hue` are the turns of the settings' angles, and `generated` is the
/// table of the NES palette, where one is set.
///
/// Where the settings ask for a smooth resize to another size, the pixels that it gives are stated
/// as far as `resize` says them, and as what `resize` gives of the source laid over its background.
/// What goes into it is stated: `flatten_alpha` makes it, with an exact contract. So is what
/// follows: `finish` takes whatever comes out, with an exact contract.
pub fn prepare(
    input: &Picture,
    c: &Config,
    rotation: Turn,
    hue: Turn,
    generated: &Option<Lut>,
) -> (r: Result<Picture, ConfigError>)
    requires
        input.wf(),
        c.palette is Some ==> generated is Some && generated->0.filled(),
    ensures
        is_prepared(*input, *c, rotation, hue, *generated, r),
{
    match c.validate() {
        Err(e) => {
            return Err(e);
        },
        Ok(()) => {},
    }
    let size: (u32, u32) = match c.signal_size(input.dimensions()) {
        Err(e) => {
            return Err(ConfigError::Size(e));
        },
        Ok(size) => size,
    };
    proof {
        lemma_signal_is_sized(*c, (input.width, input.height));
    }
    let nearest: bool = c.filter == Filter::Nearest;
    let mut image: Picture = if c.edits_source() {
        c.source.prepare(input, size, nearest, (rotation.sine, rotation.cosine))
    } else {
        let mut opaque: Picture = input.copy();
        flatten_alpha(&mut opaque, c.source.background);
        proof {
            assert(opaque.pixels@ =~= laid_over(input.pixels@, c.source.background@));
        }
        let small: Picture = resize_to(&opaque, size, !nearest);
        proof {
            crate::crt::picture::resizing_keeps_plain_channels(
                opaque.pixels@,
                (input.width, input.height),
                size,
                !nearest,
                small.pixels@,
            );
        }
        small
    };
    let ghost mid = image;
    assert(sampled(*input, *c, size, rotation, mid));
    finish(&mut image, c, generated, hue);
    Ok(image)
}

/// Transparency is laid over the background before anything else: of two sources of one size that
/// look the same over it, where neither is edited, preparing gives the same, whatever the filter
/// and the size of the signal.
pub proof fn only_what_shows_is_prepared(
    a: Picture,
    b: Picture,
    c: Config,
    rotation: Turn,
    hue: Turn,
    generated: Option<Lut>,
    r: Result<Picture, ConfigError>,
)
    requires
        a.wf(),
        b.wf(),
        a.same_size(b),
        !c.edits(),
        laid_over(a.pixels@, c.source.background@) == laid_over(b.pixels@, c.source.background@),
    ensures
        is_prepared(a, c, rotation, hue, generated, r) == is_prepared(
            b,
            c,
            rotation,
            hue,
            generated,
            r,
        ),
{
    assert forall|size: (u32, u32), mid: Picture|
        #[trigger] sampled(a, c, size, rotation, mid) == sampled(b, c, size, rotation, mid) by {}
    if c.fault() is None {
        if let Ok(size) = c.signal_of((a.width, a.height)) {
            assert forall|mid: Picture| #[trigger] sampled(a, c, size, rotation, mid) implies sampled(
                b,
                c,
                size,
                rotation,
                mid,
            ) by {}
            assert forall|mid: Picture| #[trigger] sampled(b, c, size, rotation, mid) implies sampled(
                a,
                c,
                size,
                rotation,
                mid,
            ) by {}
        }
    }
}

/// The color table and the grade leave transparency as it is.
proof fn lemma_recoloring_keeps_alpha(pixels: Seq<u8>, c: Config, lut: Option<Lut>, hue: Turn)
    ensures
        finished(pixels, c, lut, hue).len() == pixels.len(),
        forall|i: int|
            0 <= i < pixels.len() && i % 4 == 3 ==> #[trigger] finished(pixels, c, lut, hue)[i]
                == pixels[i],
{
}

/// A signal is opaque, whatever its source, its filter and its size: every alpha is 255.
pub proof fn signals_are_opaque(
    input: Picture,
    c: Config,
    rotation: Turn,
    hue: Turn,
    generated: Option<Lut>,
    out: Picture,
    i: int,
)
    requires
        input.wf(),
        is_prepared(input, c, rotation, hue, generated, Ok::<Picture, ConfigError>(out)),
        0 <= i < out.pixels@.len(),
        i % 4 == 3,
    ensures
        out.pixels@[i] == 255,
{
    let size = c.signal_of((input.width, input.height))->Ok_0;
    let mid = choose|mid: Picture| #[trigger]
        sampled(input, c, size, rotation, mid) && out.pixels@ == finished(
            mid.pixels@,
            c,
            c.lut_used(generated),
            hue,
        );
    assert(sampled(input, c, size, rotation, mid));
    lemma_recoloring_keeps_alpha(mid.pixels@, c, c.lut_used(generated), hue);
    if c.edits() {
        let (w, h) = (mid.width as int, mid.height as int);
        let p = i / 4;
        assert(mid.pixels@.len() == 4 * (w * h));
        assert(0 <= p < w * h);
        assert(w > 0) by (nonlinear_arith)
            requires
                0 <= p < w * h,
                w >= 0,
                h >= 0,
        ;
        vstd::arithmetic::div_mod::lemma_fundamental_div_mod(p, w);
        let (x, y) = (p % w, p / w);
        assert(y * w == w * y) by (nonlinear_arith);
        assert(0 <= y < h) by (nonlinear_arith)
            requires
                p == w * y + x,
                0 <= x < w,
                0 <= p < w * h,
        ;
        assert(mid.channel(x, y, 3) == mid.pixels@[i]);
    } else {
        let opaque = laid_over(input.pixels@, c.source.background@);
        assert(crate::crt::picture::has_one_value(opaque, 3, 255));
        crate::crt::picture::resizing_keeps_plain_channels(
            opaque,
            (input.width, input.height),
            size,
            c.filter != Filter::Nearest,
            mid.pixels@,
        );
        assert(crate::crt::picture::has_one_value(mid.pixels@, 3, 255));
    }
}

/// The bytes of a picture of one color.
pub open spec fn one_color(length: nat, color: Seq<u8>) -> Seq<u8> {
    Seq::new(
        length,
        |i: int|
            if i % 4 == 3 {
                255u8
            } else {
                color[i % 4]
            },
    )
}

/// A source that is transparent all over gives what the background alone gives, whatever colors
/// hide in it, whatever the filter and the size of the signal.
pub proof fn hidden_colors_never_show(
    input: Picture,
    c: Config,
    rotation: Turn,
    hue: Turn,
    generated: Option<Lut>,
    out: Picture,
)
    requires
        input.wf(),
        !c.edits(),
        forall|i: int|
            0 <= i < input.pixels@.len() && i % 4 == 3 ==> #[trigger] input.pixels@[i] == 0,
        is_prepared(input, c, rotation, hue, generated, Ok::<Picture, ConfigError>(out)),
    ensures
        out.pixels@ == finished(
            one_color(out.pixels@.len(), c.source.background@),
            c,
            c.lut_used(generated),
            hue,
        ),
{
    let size = c.signal_of((input.width, input.height))->Ok_0;
    let mid = choose|mid: Picture| #[trigger]
        sampled(input, c, size, rotation, mid) && out.pixels@ == finished(
            mid.pixels@,
            c,
            c.lut_used(generated),
            hue,
        );
    assert(sampled(input, c, size, rotation, mid));
    let background = c.source.background@;
    let opaque = laid_over(input.pixels@, background);
    assert forall|i: int| 0 <= i < opaque.len() implies #[trigger] opaque[i] == (if i % 4 == 3 {
        255u8
    } else {
        background[i % 4]
    }) by {
        if i % 4 != 3 {
            let a = i - i % 4 + 3;
            assert(a % 4 == 3 && a < input.pixels@.len());
            assert(input.pixels@[a] == 0);
            crate::crt::picture::flattening_keeps_opaque_and_shows_background(
                input.pixels@[i],
                background[i % 4],
            );
        }
    }
    crate::crt::picture::resizing_keeps_plain_channels(
        opaque,
        (input.width, input.height),
        size,
        c.filter != Filter::Nearest,
        mid.pixels@,
    );
    assert(crate::crt::picture::has_one_value(opaque, 0, background[0]));
    assert(crate::crt::picture::has_one_value(opaque, 1, background[1]));
    assert(crate::crt::picture::has_one_value(opaque, 2, background[2]));
    assert(crate::crt::picture::has_one_value(opaque, 3, 255));
    assert(mid.pixels@ =~= one_color(mid.pixels@.len(), background));
}

/// Settings that leave a picture as it is do so exactly: one without transparency, already of the
/// signal's size, goes through unchanged where it is neither edited nor recolored.
pub proof fn neutral_settings_keep_the_picture(
    input: Picture,
    c: Config,
    generated: Option<Lut>,
    rotation: Turn,
    hue: Turn,
    mid: Picture,
)
    requires
        input.wf(),
        forall|j: int| 0 <= j < input.pixels@.len() && j % 4 == 3 ==> input.pixels@[j] == 255,
        !c.edits(),
        !c.graded(),
        c.lut_used(generated) is None,
        sampled(input, c, (input.width, input.height), rotation, mid),
    ensures
        finished(mid.pixels@, c, c.lut_used(generated), hue) == input.pixels@,
{
    assert forall|i: int| 0 <= i < input.pixels@.len() implies crate::crt::picture::flattened(
        input.pixels@,
        c.source.background@,
        i,
    ) == input.pixels@[i] by {
        crate::crt::picture::flattening_leaves_opaque_pictures(
            input.pixels@,
            c.source.background@,
            i,
        );
    }
    assert(mid.pixels@ =~= input.pixels@);
}

/// A signal has pixels, no more than 16384 along a side.
proof fn lemma_signal_is_sized(c: Config, input: (u32, u32))
    requires
        c.fault() is None,
        c.signal_of(input) is Ok,
    ensures
        ({
            let size = c.signal_of(input)->Ok_0;
            &&& 0 < size.0 <= 16384
            &&& 0 < size.1 <= 16384
            &&& size.0 * size.1 <= 0x3fff_ffff
        }),
{
    let size = c.signal_of(input)->Ok_0;
    if c.signal@ == "native"@ {
        crate::crt::source::a_crop_keeps_no_more(input.0, c.source.crop@[0], c.source.crop@[2]);
        crate::crt::source::a_crop_keeps_no_more(input.1, c.source.crop@[1], c.source.crop@[3]);
    }
    assert(size.0 * size.1 <= 16384 * 16384) by (nonlinear_arith)
        requires
            size.0 <= 16384,
            size.1 <= 16384,
    ;
}

/// The table comes before the grade: without chroma a signal is the gray of the luma that the table
/// gives, whatever the table.
pub proof fn the_grade_comes_last(
    pixels: Seq<u8>,
    c: Config,
    lut: Option<Lut>,
    hue: Turn,
    i: int,
)
    requires
        c.graded(),
        is_turn(hue),
        is_whole(c.chroma, 0),
        pixels.len() % 4 == 0,
        0 <= i < pixels.len(),
        i % 4 != 3,
    ensures
        ({
            let colored = match lut {
                Some(lut) => Seq::new(
                    pixels.len(),
                    |k: int| lut.applied(pixels, k, Some(c.lut_strength)),
                ),
                None => pixels,
            };
            let start = i - i % 4;
            crate::margin::within(
                1000 * finished(pixels, c, lut, hue)[i],
                299 * colored[start] + 587 * colored[start + 1] + 114 * colored[start + 2],
                510,
            )
        }),
{
    let colored = tabled(pixels, lut, c.lut_strength);
    let start = i - i % 4;
    assert(start % 4 == 0 && start + 3 < pixels.len());
    let rgb = colored.subrange(start, start + 3);
    no_chroma_leaves_luma(rgb, i % 4, hue, c.chroma);
    assert(rgb[0] == colored[start] && rgb[1] == colored[start + 1] && rgb[2] == colored[start + 2]);
}

} // verus!
