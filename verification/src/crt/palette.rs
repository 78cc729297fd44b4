//! The NES palette as its composite signal decodes, and the color table that takes art drawn in
//! MAME's NES palette onto it.
//!
//! The signal is decoded from the PPU's measured voltage levels, sampled at the twelve phases of
//! its color wave and demodulated against a color burst at hue 8. Tint turns every hue; tint I
//! and tint Q scale the I and Q axes. The sines and cosines are the caller's: everything else
//! here is arithmetic, rounded as the hardware rounds.
use crate::crt::config::NesPalette;
use crate::crt::lut::Lut;
use crate::number::{Real32, Real64};
use vstd::prelude::*;

verus! {

/// Samples along each side of the table.
pub const LUT_SIZE: usize = 64;

/// 0.
pub open spec fn zero() -> Real64 {
    Real64 { bits: 0x0000_0000_0000_0000 }
}

fn make_zero() -> (r: Real64)
    ensures
        r == zero(),
{
    Real64 { bits: 0x0000_0000_0000_0000 }
}

/// 1.
pub open spec fn one() -> Real64 {
    Real64 { bits: 0x3ff0_0000_0000_0000 }
}

fn make_one() -> (r: Real64)
    ensures
        r == one(),
{
    Real64 { bits: 0x3ff0_0000_0000_0000 }
}

/// 2.
pub open spec fn two() -> Real64 {
    Real64 { bits: 0x4000_0000_0000_0000 }
}

fn make_two() -> (r: Real64)
    ensures
        r == two(),
{
    Real64 { bits: 0x4000_0000_0000_0000 }
}

/// 12.
pub open spec fn twelve() -> Real64 {
    Real64 { bits: 0x4028_0000_0000_0000 }
}

fn make_twelve() -> (r: Real64)
    ensures
        r == twelve(),
{
    Real64 { bits: 0x4028_0000_0000_0000 }
}

/// 255.
pub open spec fn full() -> Real64 {
    Real64 { bits: 0x406f_e000_0000_0000 }
}

fn make_full() -> (r: Real64)
    ensures
        r == full(),
{
    Real64 { bits: 0x406f_e000_0000_0000 }
}

/// 0.5.
pub open spec fn half() -> Real64 {
    Real64 { bits: 0x3fe0_0000_0000_0000 }
}

fn make_half() -> (r: Real64)
    ensures
        r == half(),
{
    Real64 { bits: 0x3fe0_0000_0000_0000 }
}

/// The signal's black, 0.518 V.
pub open spec fn black() -> Real64 {
    Real64 { bits: 0x3fe0_9374_bc6a_7efa }
}

fn make_black() -> (r: Real64)
    ensures
        r == black(),
{
    Real64 { bits: 0x3fe0_9374_bc6a_7efa }
}

/// The signal's white, 1.962 V.
pub open spec fn white() -> Real64 {
    Real64 { bits: 0x3fff_645a_1cac_0831 }
}

fn make_white() -> (r: Real64)
    ensures
        r == white(),
{
    Real64 { bits: 0x3fff_645a_1cac_0831 }
}

/// How much of the chroma is kept, 0.6.
pub open spec fn chroma() -> Real64 {
    Real64 { bits: 0x3fe3_3333_3333_3333 }
}

fn make_chroma() -> (r: Real64)
    ensures
        r == chroma(),
{
    Real64 { bits: 0x3fe3_3333_3333_3333 }
}

/// Squared distances below this are none, 1e-12.
pub open spec fn close() -> Real64 {
    Real64 { bits: 0x3d71_9799_812d_ea11 }
}

fn make_close() -> (r: Real64)
    ensures
        r == close(),
{
    Real64 { bits: 0x3d71_9799_812d_ea11 }
}

/// 0.492.
pub open spec fn u_scale() -> Real64 {
    Real64 { bits: 0x3fdf_7ced_9168_72b0 }
}

fn make_u_scale() -> (r: Real64)
    ensures
        r == u_scale(),
{
    Real64 { bits: 0x3fdf_7ced_9168_72b0 }
}

/// 0.877.
pub open spec fn v_scale() -> Real64 {
    Real64 { bits: 0x3fec_1062_4dd2_f1aa }
}

fn make_v_scale() -> (r: Real64)
    ensures
        r == v_scale(),
{
    Real64 { bits: 0x3fec_1062_4dd2_f1aa }
}

/// 0.299.
pub open spec fn red_share() -> Real64 {
    Real64 { bits: 0x3fd3_22d0_e560_4189 }
}

fn make_red_share() -> (r: Real64)
    ensures
        r == red_share(),
{
    Real64 { bits: 0x3fd3_22d0_e560_4189 }
}

/// 0.114.
pub open spec fn blue_share() -> Real64 {
    Real64 { bits: 0x3fbd_2f1a_9fbe_76c9 }
}

fn make_blue_share() -> (r: Real64)
    ensures
        r == blue_share(),
{
    Real64 { bits: 0x3fbd_2f1a_9fbe_76c9 }
}

/// 0.587.
pub open spec fn green_share() -> Real64 {
    Real64 { bits: 0x3fe2_c8b4_3958_1062 }
}

fn make_green_share() -> (r: Real64)
    ensures
        r == green_share(),
{
    Real64 { bits: 0x3fe2_c8b4_3958_1062 }
}

/// 0.22.
pub open spec fn saturation() -> Real64 {
    Real64 { bits: 0x3fcc_28f5_c28f_5c29 }
}

fn make_saturation() -> (r: Real64)
    ensures
        r == saturation(),
{
    Real64 { bits: 0x3fcc_28f5_c28f_5c29 }
}

/// 0.2989.
pub open spec fn kr() -> Real64 {
    Real64 { bits: 0x3fd3_212d_7731_8fc5 }
}

fn make_kr() -> (r: Real64)
    ensures
        r == kr(),
{
    Real64 { bits: 0x3fd3_212d_7731_8fc5 }
}

/// 0.1145.
pub open spec fn kb() -> Real64 {
    Real64 { bits: 0x3fbd_4fdf_3b64_5a1d }
}

fn make_kb() -> (r: Real64)
    ensures
        r == kb(),
{
    Real64 { bits: 0x3fbd_4fdf_3b64_5a1d }
}

/// 2.029.
pub open spec fn ku() -> Real64 {
    Real64 { bits: 0x4000_3b64_5a1c_ac08 }
}

fn make_ku() -> (r: Real64)
    ensures
        r == ku(),
{
    Real64 { bits: 0x4000_3b64_5a1c_ac08 }
}

/// 1.14.
pub open spec fn kv() -> Real64 {
    Real64 { bits: 0x3ff2_3d70_a3d7_0a3d }
}

fn make_kv() -> (r: Real64)
    ensures
        r == kv(),
{
    Real64 { bits: 0x3ff2_3d70_a3d7_0a3d }
}

/// The wave's low half at each luma level: 0.35, 0.518, 0.962 and 1.55 V.
pub open spec fn low_volts(level: nat) -> Real64 {
    if level == 0 {
        Real64 { bits: 0x3fd6_6666_6666_6666 }
    } else if level == 1 {
        Real64 { bits: 0x3fe0_9374_bc6a_7efa }
    } else if level == 2 {
        Real64 { bits: 0x3fee_c8b4_3958_1062 }
    } else {
        Real64 { bits: 0x3ff8_cccc_cccc_cccd }
    }
}

fn make_low_volts(level: usize) -> (r: Real64)
    ensures
        r == low_volts(level as nat),
{
    if level == 0 {
        Real64 { bits: 0x3fd6_6666_6666_6666 }
    } else if level == 1 {
        Real64 { bits: 0x3fe0_9374_bc6a_7efa }
    } else if level == 2 {
        Real64 { bits: 0x3fee_c8b4_3958_1062 }
    } else {
        Real64 { bits: 0x3ff8_cccc_cccc_cccd }
    }
}

/// The wave's high half at each luma level: 1.094, 1.506, 1.962 and 1.962 V.
pub open spec fn high_volts(level: nat) -> Real64 {
    if level == 0 {
        Real64 { bits: 0x3ff1_8106_24dd_2f1b }
    } else if level == 1 {
        Real64 { bits: 0x3ff8_1893_74bc_6a7f }
    } else if level == 2 {
        Real64 { bits: 0x3fff_645a_1cac_0831 }
    } else {
        Real64 { bits: 0x3fff_645a_1cac_0831 }
    }
}

fn make_high_volts(level: usize) -> (r: Real64)
    ensures
        r == high_volts(level as nat),
{
    if level == 0 {
        Real64 { bits: 0x3ff1_8106_24dd_2f1b }
    } else if level == 1 {
        Real64 { bits: 0x3ff8_1893_74bc_6a7f }
    } else if level == 2 {
        Real64 { bits: 0x3fff_645a_1cac_0831 }
    } else {
        Real64 { bits: 0x3fff_645a_1cac_0831 }
    }
}

/// The luma of MAME's grays: 0.5, 0.75, 1 and 1.
pub open spec fn gray_luma(intensity: nat) -> Real64 {
    if intensity == 0 {
        Real64 { bits: 0x3fe0_0000_0000_0000 }
    } else if intensity == 1 {
        Real64 { bits: 0x3fe8_0000_0000_0000 }
    } else if intensity == 2 {
        Real64 { bits: 0x3ff0_0000_0000_0000 }
    } else {
        Real64 { bits: 0x3ff0_0000_0000_0000 }
    }
}

fn make_gray_luma(intensity: usize) -> (r: Real64)
    ensures
        r == gray_luma(intensity as nat),
{
    if intensity == 0 {
        Real64 { bits: 0x3fe0_0000_0000_0000 }
    } else if intensity == 1 {
        Real64 { bits: 0x3fe8_0000_0000_0000 }
    } else if intensity == 2 {
        Real64 { bits: 0x3ff0_0000_0000_0000 }
    } else {
        Real64 { bits: 0x3ff0_0000_0000_0000 }
    }
}

/// The luma of MAME's hues: 0.29, 0.45, 0.73 and 0.9.
pub open spec fn hue_luma(intensity: nat) -> Real64 {
    if intensity == 0 {
        Real64 { bits: 0x3fd2_8f5c_28f5_c28f }
    } else if intensity == 1 {
        Real64 { bits: 0x3fdc_cccc_cccc_cccd }
    } else if intensity == 2 {
        Real64 { bits: 0x3fe7_5c28_f5c2_8f5c }
    } else {
        Real64 { bits: 0x3fec_cccc_cccc_cccd }
    }
}

fn make_hue_luma(intensity: usize) -> (r: Real64)
    ensures
        r == hue_luma(intensity as nat),
{
    if intensity == 0 {
        Real64 { bits: 0x3fd2_8f5c_28f5_c28f }
    } else if intensity == 1 {
        Real64 { bits: 0x3fdc_cccc_cccc_cccd }
    } else if intensity == 2 {
        Real64 { bits: 0x3fe7_5c28_f5c2_8f5c }
    } else {
        Real64 { bits: 0x3fec_cccc_cccc_cccd }
    }
}

/// The luma of MAME's dark grays: 0, 0.24, 0.47 and 0.77.
pub open spec fn dark_luma(intensity: nat) -> Real64 {
    if intensity == 0 {
        Real64 { bits: 0x0000_0000_0000_0000 }
    } else if intensity == 1 {
        Real64 { bits: 0x3fce_b851_eb85_1eb8 }
    } else if intensity == 2 {
        Real64 { bits: 0x3fde_147a_e147_ae14 }
    } else {
        Real64 { bits: 0x3fe8_a3d7_0a3d_70a4 }
    }
}

fn make_dark_luma(intensity: usize) -> (r: Real64)
    ensures
        r == dark_luma(intensity as nat),
{
    if intensity == 0 {
        Real64 { bits: 0x0000_0000_0000_0000 }
    } else if intensity == 1 {
        Real64 { bits: 0x3fce_b851_eb85_1eb8 }
    } else if intensity == 2 {
        Real64 { bits: 0x3fde_147a_e147_ae14 }
    } else {
        Real64 { bits: 0x3fe8_a3d7_0a3d_70a4 }
    }
}

/// The sine and cosine of an angle.
#[derive(Clone, Copy, PartialEq, Eq, Structural, Debug)]
pub struct Wave {
    pub sin: Real64,
    pub cos: Real64,
}

/// The sines and cosines that decoding takes.
pub struct Waves {
    /// Of each twelfth of a turn, from 0.
    pub phases: [Wave; 12],
    /// Of π - 5.5π/6 less 8 degrees, which turns the wave onto the color burst.
    pub burst: Wave,
    /// Of 33 degrees, which turn U and V into Q and I.
    pub axes: Wave,
    /// Of 287 degrees and 30 more for each hue from 1 to 12.
    pub hues: [Wave; 12],
}

/// A color from 0 to 1, red first.
pub type Color = [Real64; 3];

// -------------------------------------------------------------------------------------------
// The signal
// -------------------------------------------------------------------------------------------

/// A decoded signal.
#[derive(Clone, Copy, PartialEq, Eq, Structural, Debug)]
pub struct Yuv {
    pub y: Real64,
    pub u: Real64,
    pub v: Real64,
}

/// The voltages of a color's wave, low and high. Hue 0 stays high; hues past 12 stay low, and
/// those past 13 are black.
pub open spec fn halves(index: nat) -> (Real64, Real64) {
    let hue = index % 16;
    let level = if hue > 13 {
        1
    } else {
        index / 16
    };
    let low = if hue == 0 {
        high_volts(level)
    } else {
        low_volts(level)
    };
    let high = if hue > 12 {
        low
    } else {
        high_volts(level)
    };
    (low, high)
}

/// The wave at a phase: black is 0, white 1.
pub open spec fn sample(index: nat, phase: nat) -> Real64 {
    let (low, high) = halves(index);
    let volts = if (index % 16 + phase) % 12 < 6 {
        high
    } else {
        low
    };
    volts.minus(black()).over(white().minus(black()))
}

/// The mean of the first `n` phases' samples, and their sums against the wave's cosine and,
/// negated, its sine.
pub open spec fn gathered(index: nat, waves: Waves, n: nat) -> Yuv
    decreases n,
{
    if n == 0 {
        Yuv { y: zero(), u: zero(), v: zero() }
    } else {
        let before = gathered(index, waves, (n - 1) as nat);
        let signal = sample(index, (n - 1) as nat);
        let wave = waves.phases@[n - 1];
        Yuv {
            y: before.y.plus(signal.over(twelve())),
            u: before.u.plus(signal.times(wave.cos).times(two()).over(twelve())),
            v: before.v.minus(signal.times(wave.sin).times(two()).over(twelve())),
        }
    }
}

/// A color's signal decoded to Y, U and V, before any tint: hue 8 on the color burst at 180
/// degrees.
pub open spec fn decoded(index: nat, waves: Waves) -> Yuv {
    let sum = gathered(index, waves, 12);
    Yuv {
        y: sum.y,
        u: sum.u.times(waves.burst.cos).minus(sum.v.times(waves.burst.sin)).times(chroma()),
        v: sum.u.times(waves.burst.sin).plus(sum.v.times(waves.burst.cos)).times(chroma()),
    }
}

fn decode(index: usize, waves: &Waves) -> (r: Yuv)
    requires
        index < 64,
    ensures
        r == decoded(index as nat, *waves),
{
    let hue: usize = index % 16;
    let level: usize = if hue > 13 {
        1
    } else {
        index / 16
    };
    let low: Real64 = if hue == 0 {
        make_high_volts(level)
    } else {
        make_low_volts(level)
    };
    let high: Real64 = if hue > 12 {
        low
    } else {
        make_high_volts(level)
    };
    let range: Real64 = make_white().sub(make_black());
    let mut y: Real64 = make_zero();
    let mut re: Real64 = make_zero();
    let mut im: Real64 = make_zero();
    let mut phase: usize = 0;
    while phase < 12
        invariant
            phase <= 12,
            index < 64,
            hue == index % 16,
            (low, high) == halves(index as nat),
            range == white().minus(black()),
            (Yuv { y, u: re, v: im }) == gathered(index as nat, *waves, phase as nat),
        decreases 12 - phase,
    {
        let volts: Real64 = if (hue + phase) % 12 < 6 {
            high
        } else {
            low
        };
        let signal: Real64 = volts.sub(make_black()).div(range);
        let wave: Wave = waves.phases[phase];
        y = y.add(signal.div(make_twelve()));
        re = re.add(signal.mul(wave.cos).mul(make_two()).div(make_twelve()));
        im = im.sub(signal.mul(wave.sin).mul(make_two()).div(make_twelve()));
        phase = phase + 1;
    }
    Yuv {
        y,
        u: re.mul(waves.burst.cos).sub(im.mul(waves.burst.sin)).mul(make_chroma()),
        v: re.mul(waves.burst.sin).add(im.mul(waves.burst.cos)).mul(make_chroma()),
    }
}

// -------------------------------------------------------------------------------------------
// The palette
// -------------------------------------------------------------------------------------------

/// The game's tint, 5.18.
pub open spec fn neutral_tint() -> Real32 {
    Real32 { bits: 0x40a5_c28f }
}

/// The game's tint I, 1.75.
pub open spec fn neutral_i() -> Real32 {
    Real32 { bits: 0x3fe0_0000 }
}

/// The game's tint Q, 1.
pub open spec fn neutral_q() -> Real32 {
    Real32 { bits: 0x3f80_0000 }
}

/// A decoded signal with its hue turned.
pub open spec fn turned(signal: Yuv, turn: Wave) -> Yuv {
    Yuv {
        y: signal.y,
        u: signal.u.times(turn.cos).minus(signal.v.times(turn.sin)),
        v: signal.u.times(turn.sin).plus(signal.v.times(turn.cos)),
    }
}

/// A decoded signal with its I and Q axes, which sit 33 degrees round from U and V, scaled.
pub open spec fn scaled(signal: Yuv, axes: Wave, gain_i: Real64, gain_q: Real64) -> Yuv {
    let i = signal.v.times(axes.cos).minus(signal.u.times(axes.sin)).times(gain_i);
    let q = signal.v.times(axes.sin).plus(signal.u.times(axes.cos)).times(gain_q);
    Yuv {
        y: signal.y,
        u: q.times(axes.cos).minus(i.times(axes.sin)),
        v: q.times(axes.sin).plus(i.times(axes.cos)),
    }
}

/// The color of a decoded signal.
pub open spec fn shown(signal: Yuv) -> Seq<Real64> {
    let b = signal.y.plus(signal.u.over(u_scale()));
    let r = signal.y.plus(signal.v.over(v_scale()));
    let g = signal.y.minus(red_share().times(r)).minus(blue_share().times(b)).over(green_share());
    seq![r.clamped(zero(), one()), g.clamped(zero(), one()), b.clamped(zero(), one())]
}

impl NesPalette {
    /// The angle by which the hues turn, whose sine and cosine `colors` takes.
    pub fn turn(&self) -> (r: Real64)
        ensures
            r == self.tint.minus(neutral_tint()).widened(),
    {
        self.tint.sub(Real32 { bits: 0x40a5_c28f }).widen()
    }

    /// One color of the palette.
    pub open spec fn color(self, index: nat, waves: Waves, turn: Wave) -> Seq<Real64> {
        shown(
            scaled(
                turned(decoded(index, waves), turn),
                waves.axes,
                self.tint_i.over(neutral_i()).widened(),
                self.tint_q.over(neutral_q()).widened(),
            ),
        )
    }

    /// The 64 colors that the signal decodes to, by NES color number.
    pub fn colors(&self, waves: &Waves, turn: Wave) -> (r: Vec<Color>)
        ensures
            r@.len() == 64,
            forall|index: int| 0 <= index < 64 ==> (#[trigger] r@[index])@ == self.color(
                index as nat,
                *waves,
                turn,
            ),
    {
        let gain_i: Real64 = self.tint_i.div(Real32 { bits: 0x3fe0_0000 }).widen();
        let gain_q: Real64 = self.tint_q.div(Real32 { bits: 0x3f80_0000 }).widen();
        let axes: Wave = waves.axes;
        let mut colors: Vec<Color> = Vec::new();
        let mut index: usize = 0;
        while index < 64
            invariant
                index <= 64,
                colors@.len() == index,
                gain_i == self.tint_i.over(neutral_i()).widened(),
                gain_q == self.tint_q.over(neutral_q()).widened(),
                axes == waves.axes,
                forall|k: int| 0 <= k < index ==> (#[trigger] colors@[k])@ == self.color(
                    k as nat,
                    *waves,
                    turn,
                ),
            decreases 64 - index,
        {
            let signal: Yuv = decode(index, waves);
            let u: Real64 = signal.u.mul(turn.cos).sub(signal.v.mul(turn.sin));
            let v: Real64 = signal.u.mul(turn.sin).add(signal.v.mul(turn.cos));
            let i: Real64 = v.mul(axes.cos).sub(u.mul(axes.sin)).mul(gain_i);
            let q: Real64 = v.mul(axes.sin).add(u.mul(axes.cos)).mul(gain_q);
            let u: Real64 = q.mul(axes.cos).sub(i.mul(axes.sin));
            let v: Real64 = q.mul(axes.sin).add(i.mul(axes.cos));
            let y: Real64 = signal.y;
            let b: Real64 = y.add(u.div(make_u_scale()));
            let r: Real64 = y.add(v.div(make_v_scale()));
            let g: Real64 = y.sub(make_red_share().mul(r)).sub(make_blue_share().mul(b)).div(
                make_green_share(),
            );
            let color: Color = [
                r.clamp(make_zero(), make_one()),
                g.clamp(make_zero(), make_one()),
                b.clamp(make_zero(), make_one()),
            ];
            assert(color@ =~= self.color(index as nat, *waves, turn));
            colors.push(color);
            index = index + 1;
        }
        colors
    }
}

// -------------------------------------------------------------------------------------------
// MAME's palette
// -------------------------------------------------------------------------------------------

/// A channel brought to whole steps of 255, as a share of 255.
pub open spec fn stepped(channel: Real64) -> Real64 {
    let near = channel.clamped(zero(), full()).plus(half());
    (if near.finite() {
        Real64::of(near.truncated(256))
    } else {
        near
    }).over(full())
}

/// One color of MAME's NES palette, without color emphasis.
pub open spec fn mame_color(index: nat, waves: Waves) -> Seq<Real64> {
    let intensity = index / 16;
    let number = index % 16;
    let (y, u, v) = if number == 0 {
        (gray_luma(intensity), zero(), zero())
    } else if number == 13 {
        (dark_luma(intensity), zero(), zero())
    } else if number > 13 {
        (zero(), zero(), zero())
    } else {
        let wave = waves.hues@[number - 1];
        (hue_luma(intensity), saturation().times(wave.cos), saturation().times(wave.sin))
    };
    let r = y.plus(kv().times(v)).times(full());
    let g = y.minus(
        kb().times(ku()).times(u).plus(kr().times(kv()).times(v)).over(one().minus(kb()).minus(kr())),
    ).times(full());
    let b = y.plus(ku().times(u)).times(full());
    seq![stepped(r), stepped(g), stepped(b)]
}

fn step(channel: Real64) -> (r: Real64)
    ensures
        r == stepped(channel),
{
    let near: Real64 = channel.clamp(make_zero(), make_full()).add(make_half());
    let whole: Real64 = if near.is_finite() {
        Real64::from_integer(near.truncate(256))
    } else {
        near
    };
    whole.div(make_full())
}

/// MAME's NES palette, by NES color number.
pub fn mame_colors(waves: &Waves) -> (r: Vec<Color>)
    ensures
        r@.len() == 64,
        forall|index: int| 0 <= index < 64 ==> (#[trigger] r@[index])@ == mame_color(
            index as nat,
            *waves,
        ),
{
    let mut colors: Vec<Color> = Vec::new();
    let mut index: usize = 0;
    while index < 64
        invariant
            index <= 64,
            colors@.len() == index,
            forall|k: int| 0 <= k < index ==> (#[trigger] colors@[k])@ == mame_color(
                k as nat,
                *waves,
            ),
        decreases 64 - index,
    {
        let intensity: usize = index / 16;
        let number: usize = index % 16;
        let (y, u, v) = if number == 0 {
            (make_gray_luma(intensity), make_zero(), make_zero())
        } else if number == 13 {
            (make_dark_luma(intensity), make_zero(), make_zero())
        } else if number > 13 {
            (make_zero(), make_zero(), make_zero())
        } else {
            let wave: Wave = waves.hues[number - 1];
            (
                make_hue_luma(intensity),
                make_saturation().mul(wave.cos),
                make_saturation().mul(wave.sin),
            )
        };
        let r: Real64 = y.add(make_kv().mul(v)).mul(make_full());
        let g: Real64 = y.sub(
            make_kb().mul(make_ku()).mul(u).add(make_kr().mul(make_kv()).mul(v)).div(
                make_one().sub(make_kb()).sub(make_kr()),
            ),
        ).mul(make_full());
        let b: Real64 = y.add(make_ku().mul(u)).mul(make_full());
        let color: Color = [step(r), step(g), step(b)];
        assert(color@ =~= mame_color(index as nat, *waves));
        colors.push(color);
        index = index + 1;
    }
    colors
}

// -------------------------------------------------------------------------------------------
// The table
// -------------------------------------------------------------------------------------------

/// A color and where it goes: while entries are gathered `by` is the sum of their targets, in a
/// finished correction the way to their average.
#[derive(Clone, Copy, Debug)]
pub struct Move {
    pub from: Color,
    pub by: Color,
    pub count: Real64,
}

/// Whether two colors compare equal.
pub open spec fn color_equal(a: Seq<Real64>, b: Seq<Real64>) -> bool {
    a[0].equal(b[0]) && a[1].equal(b[1]) && a[2].equal(b[2])
}

/// A move in ghost code.
pub struct Shift {
    pub from: Seq<Real64>,
    pub by: Seq<Real64>,
    pub count: Real64,
}

impl Move {
    pub open spec fn shift(self) -> Shift {
        Shift { from: self.from@, by: self.by@, count: self.count }
    }
}

pub open spec fn shifts(moves: Seq<Move>) -> Seq<Shift> {
    moves.map_values(|m: Move| m.shift())
}

/// The place of the first entry among the first `n` that is drawn as `from` is, or `n`.
pub open spec fn drawn_alike(entries: Seq<Shift>, from: Seq<Real64>, n: nat) -> nat
    decreases n,
{
    if n == 0 {
        0
    } else {
        let before = drawn_alike(entries, from, (n - 1) as nat);
        if before < n - 1 {
            before
        } else if color_equal(entries[n - 1].from, from) {
            (n - 1) as nat
        } else {
            n
        }
    }
}

pub open spec fn added(a: Seq<Real64>, b: Seq<Real64>) -> Seq<Real64> {
    seq![a[0].plus(b[0]), a[1].plus(b[1]), a[2].plus(b[2])]
}

/// The entries with one more color: with those drawn alike where there are any, else at the end.
pub open spec fn with_color(entries: Seq<Shift>, from: Seq<Real64>, to: Seq<Real64>) -> Seq<Shift> {
    let at = drawn_alike(entries, from, entries.len());
    if at < entries.len() {
        entries.update(
            at as int,
            Shift {
                from: entries[at as int].from,
                by: added(entries[at as int].by, to),
                count: entries[at as int].count.plus(one()),
            },
        )
    } else {
        entries.push(Shift { from, by: to, count: one() })
    }
}

/// The entries of the first `n` colors.
pub open spec fn entries_of(from: Seq<Seq<Real64>>, to: Seq<Seq<Real64>>, n: nat) -> Seq<Shift>
    decreases n,
{
    if n == 0 {
        Seq::empty()
    } else {
        with_color(entries_of(from, to, (n - 1) as nat), from[n - 1], to[n - 1])
    }
}

/// The way from an entry's color to the average of its targets.
pub open spec fn correction(entry: Shift) -> Shift {
    Shift {
        from: entry.from,
        by: seq![
            entry.by[0].over(entry.count).minus(entry.from[0]),
            entry.by[1].over(entry.count).minus(entry.from[1]),
            entry.by[2].over(entry.count).minus(entry.from[2]),
        ],
        count: entry.count,
    }
}

pub open spec fn corrections_of(entries: Seq<Shift>) -> Seq<Shift> {
    entries.map_values(|e: Shift| correction(e))
}

pub open spec fn views(colors: Seq<Color>) -> Seq<Seq<Real64>> {
    colors.map_values(|c: Color| c@)
}

fn same_color(a: &Color, b: &Color) -> (r: bool)
    ensures
        r == color_equal(a@, b@),
{
    a[0].same(b[0]) && a[1].same(b[1]) && a[2].same(b[2])
}

fn find_alike(entries: &Vec<Move>, from: &Color) -> (r: usize)
    ensures
        r == drawn_alike(shifts(entries@), from@, entries@.len()),
{
    let mut at: usize = 0;
    let mut i: usize = 0;
    while i < entries.len()
        invariant
            i <= entries@.len(),
            at <= i,
            at == drawn_alike(shifts(entries@), from@, i as nat),
        decreases entries@.len() - i,
    {
        assert(shifts(entries@)[i as int] == entries@[i as int].shift());
        if at == i && !same_color(&entries[i].from, from) {
            at = i + 1;
        }
        i = i + 1;
    }
    at
}

/// What each color that MAME draws needs, the colors drawn alike taken together.
pub fn corrections(from: &Vec<Color>, to: &Vec<Color>) -> (r: Vec<Move>)
    requires
        from@.len() == to@.len(),
    ensures
        shifts(r@) == corrections_of(entries_of(views(from@), views(to@), from@.len())),
{
    let mut entries: Vec<Move> = Vec::new();
    let mut i: usize = 0;
    assert(shifts(entries@) =~= Seq::<Shift>::empty());
    while i < from.len()
        invariant
            i <= from@.len(),
            from@.len() == to@.len(),
            shifts(entries@) == entries_of(views(from@), views(to@), i as nat),
        decreases from@.len() - i,
    {
        let ghost before = shifts(entries@);
        let at: usize = find_alike(&entries, &from[i]);
        let target: Color = to[i];
        proof {
            assert(views(from@)[i as int] == from@[i as int]@);
            assert(views(to@)[i as int] == to@[i as int]@);
            lemma_alike_is_a_place(before, from@[i as int]@, before.len());
        }
        if at < entries.len() {
            let entry: Move = entries[at];
            assert(before[at as int] == entry.shift());
            let sum: Color = [
                entry.by[0].add(target[0]),
                entry.by[1].add(target[1]),
                entry.by[2].add(target[2]),
            ];
            assert(sum@ =~= added(entry.by@, target@));
            entries.set(at, Move { from: entry.from, by: sum, count: entry.count.add(make_one()) });
        } else {
            entries.push(Move { from: from[i], by: target, count: make_one() });
        }
        assert(shifts(entries@) =~= with_color(before, from@[i as int]@, to@[i as int]@));
        i = i + 1;
    }
    let mut moves: Vec<Move> = Vec::new();
    let mut k: usize = 0;
    while k < entries.len()
        invariant
            k <= entries@.len(),
            shifts(moves@) == corrections_of(shifts(entries@).take(k as int)),
        decreases entries@.len() - k,
    {
        let e: Move = entries[k];
        let by: Color = [
            e.by[0].div(e.count).sub(e.from[0]),
            e.by[1].div(e.count).sub(e.from[1]),
            e.by[2].div(e.count).sub(e.from[2]),
        ];
        let ghost before = moves@;
        moves.push(Move { from: e.from, by, count: e.count });
        proof {
            assert(shifts(entries@)[k as int] == e.shift());
            assert(by@ =~= correction(e.shift()).by);
            assert(shifts(moves@) =~= shifts(before).push(correction(e.shift())));
            assert(shifts(entries@).take(k as int + 1) =~= shifts(entries@).take(k as int).push(
                e.shift(),
            ));
            assert(corrections_of(shifts(entries@).take(k as int + 1)) =~= corrections_of(
                shifts(entries@).take(k as int),
            ).push(correction(e.shift())));
        }
        k = k + 1;
    }
    assert(shifts(entries@).take(k as int) =~= shifts(entries@));
    moves
}

proof fn lemma_alike_is_a_place(entries: Seq<Shift>, from: Seq<Real64>, n: nat)
    ensures
        drawn_alike(entries, from, n) <= n,
    decreases n,
{
    if n > 0 {
        lemma_alike_is_a_place(entries, from, (n - 1) as nat);
    }
}

/// The square of the distance between two colors.
pub open spec fn distance(at: Seq<Real64>, from: Seq<Real64>) -> Real64 {
    let d0 = at[0].minus(from[0]);
    let d1 = at[1].minus(from[1]);
    let d2 = at[2].minus(from[2]);
    d0.times(d0).plus(d1.times(d1)).plus(d2.times(d2))
}

/// The place of the first correction among the first `n` that starts at a color, or `n`.
pub open spec fn struck(moves: Seq<Shift>, at: Seq<Real64>, n: nat) -> nat
    decreases n,
{
    if n == 0 {
        0
    } else {
        let before = struck(moves, at, (n - 1) as nat);
        if before < n - 1 {
            before
        } else if distance(at, moves[n - 1].from).below(close()) {
            (n - 1) as nat
        } else {
            n
        }
    }
}

/// How much a correction at a distance counts: the inverse of its fourth power.
pub open spec fn weight(distance: Real64) -> Real64 {
    one().over(distance.times(distance))
}

/// The weights of the first `n` corrections together.
pub open spec fn weights(moves: Seq<Shift>, at: Seq<Real64>, n: nat) -> Real64
    decreases n,
{
    if n == 0 {
        zero()
    } else {
        weights(moves, at, (n - 1) as nat).plus(weight(distance(at, moves[n - 1].from)))
    }
}

/// The first `n` corrections of a channel together, each by its weight.
pub open spec fn pull(moves: Seq<Shift>, at: Seq<Real64>, c: int, n: nat) -> Real64
    decreases n,
{
    if n == 0 {
        zero()
    } else {
        pull(moves, at, c, (n - 1) as nat).plus(
            weight(distance(at, moves[n - 1].from)).times(moves[n - 1].by[c]),
        )
    }
}

/// Where a channel of a color goes: by the one correction that starts at the color, else by all
/// of them, each weighted by closeness.
pub open spec fn moved(moves: Seq<Shift>, at: Seq<Real64>, c: int) -> Real64 {
    let hit = struck(moves, at, moves.len());
    at[c].plus(
        if hit < moves.len() {
            moves[hit as int].by[c]
        } else {
            pull(moves, at, c, moves.len()).over(weights(moves, at, moves.len()))
        },
    ).clamped(zero(), one())
}

fn shift(moves: &Vec<Move>, at: Color) -> (r: Color)
    ensures
        forall|c: int| 0 <= c < 3 ==> #[trigger] r@[c] == moved(shifts(moves@), at@, c),
{
    let ghost all = shifts(moves@);
    let mut total: Color = [make_zero(), make_zero(), make_zero()];
    let mut sum: Real64 = make_zero();
    let mut i: usize = 0;
    while i < moves.len()
        invariant
            i <= moves@.len(),
            all == shifts(moves@),
            struck(all, at@, i as nat) == i,
            sum == weights(all, at@, i as nat),
            forall|c: int| 0 <= c < 3 ==> #[trigger] total@[c] == pull(all, at@, c, i as nat),
        decreases moves@.len() - i,
    {
        let m: Move = moves[i];
        assert(all[i as int] == m.shift());
        let d0: Real64 = at[0].sub(m.from[0]);
        let d1: Real64 = at[1].sub(m.from[1]);
        let d2: Real64 = at[2].sub(m.from[2]);
        let d: Real64 = d0.mul(d0).add(d1.mul(d1)).add(d2.mul(d2));
        if d.less(make_close()) {
            proof {
                lemma_struck_stays(all, at@, i as nat + 1, all.len());
            }
            return [
                at[0].add(m.by[0]).clamp(make_zero(), make_one()),
                at[1].add(m.by[1]).clamp(make_zero(), make_one()),
                at[2].add(m.by[2]).clamp(make_zero(), make_one()),
            ];
        }
        let w: Real64 = make_one().div(d.mul(d));
        sum = sum.add(w);
        assert(total@[0] == pull(all, at@, 0, i as nat));
        assert(total@[1] == pull(all, at@, 1, i as nat));
        assert(total@[2] == pull(all, at@, 2, i as nat));
        total = [
            total[0].add(w.mul(m.by[0])),
            total[1].add(w.mul(m.by[1])),
            total[2].add(w.mul(m.by[2])),
        ];
        i = i + 1;
    }
    assert(total@[0] == pull(all, at@, 0, i as nat));
    assert(total@[1] == pull(all, at@, 1, i as nat));
    assert(total@[2] == pull(all, at@, 2, i as nat));
    [
        at[0].add(total[0].div(sum)).clamp(make_zero(), make_one()),
        at[1].add(total[1].div(sum)).clamp(make_zero(), make_one()),
        at[2].add(total[2].div(sum)).clamp(make_zero(), make_one()),
    ]
}

proof fn lemma_struck_stays(moves: Seq<Shift>, at: Seq<Real64>, n: nat, more: nat)
    requires
        n <= more,
        struck(moves, at, n) < n,
    ensures
        struck(moves, at, more) == struck(moves, at, n),
    decreases more,
{
    if n < more {
        lemma_struck_stays(moves, at, n, (more - 1) as nat);
    }
}

/// The color at a place of the table, red the fastest.
pub open spec fn place_color(n: nat) -> Seq<Real64> {
    let step = one().over(Real64::of(63));
    seq![
        Real64::of(n % 64).times(step),
        Real64::of(n / 64 % 64).times(step),
        Real64::of(n / 64 / 64).times(step),
    ]
}

/// The value at a place of the table.
pub open spec fn entry(moves: Seq<Shift>, n: nat) -> Seq<Real32> {
    Seq::new(3, |c: int| moved(moves, place_color(n), c).narrowed())
}

/// The value at a place of the table that the corrections make.
pub fn table_entry(moves: &Vec<Move>, n: usize) -> (r: [Real32; 3])
    requires
        n < 262144,
    ensures
        r@ == entry(shifts(moves@), n as nat),
{
    let step: Real64 = make_one().div(Real64::from_integer(63));
    let at: Color = [
        Real64::from_integer((n % 64) as u64).mul(step),
        Real64::from_integer((n / 64 % 64) as u64).mul(step),
        Real64::from_integer((n / 64 / 64) as u64).mul(step),
    ];
    assert(at@ =~= place_color(n as nat));
    let to: Color = shift(moves, at);
    let ghost all = shifts(moves@);
    assert(to@[0] == moved(all, at@, 0));
    assert(to@[1] == moved(all, at@, 1));
    assert(to@[2] == moved(all, at@, 2));
    let r: [Real32; 3] = [to[0].narrow(), to[1].narrow(), to[2].narrow()];
    assert(r@ =~= entry(all, n as nat));
    r
}

impl NesPalette {
    /// The corrections that take MAME's palette onto this one.
    pub open spec fn moves(self, waves: Waves, turn: Wave) -> Seq<Shift> {
        corrections_of(
            entries_of(
                Seq::new(64, |i: int| mame_color(i as nat, waves)),
                Seq::new(64, |i: int| self.color(i as nat, waves, turn)),
                64,
            ),
        )
    }

    /// The table's name.
    pub open spec fn title(self) -> Seq<char> {
        "NES palette (tint "@ + crate::fixed::two_decimals(self.tint) + ", I "@
            + crate::fixed::two_decimals(self.tint_i) + ", Q "@ + crate::fixed::two_decimals(
            self.tint_q,
        ) + ")"@
    }

    /// What takes each color that MAME draws onto this palette.
    pub fn corrections(&self, waves: &Waves, turn: Wave) -> (r: Vec<Move>)
        ensures
            shifts(r@) == self.moves(*waves, turn),
    {
        let from: Vec<Color> = mame_colors(waves);
        let to: Vec<Color> = self.colors(waves, turn);
        proof {
            assert(views(from@) =~= Seq::new(64, |i: int| mame_color(i as nat, *waves))) by {
                assert forall|i: int| 0 <= i < 64 implies views(from@)[i] == mame_color(
                    i as nat,
                    *waves,
                ) by {
                    assert(from@[i]@ == mame_color(i as nat, *waves));
                }
            }
            assert(views(to@) =~= Seq::new(64, |i: int| self.color(i as nat, *waves, turn))) by {
                assert forall|i: int| 0 <= i < 64 implies views(to@)[i] == self.color(
                    i as nat,
                    *waves,
                    turn,
                ) by {
                    assert(to@[i]@ == self.color(i as nat, *waves, turn));
                }
            }
        }
        corrections(&from, &to)
    }

    /// The palette as a table from MAME's NES colors to these.
    pub fn lut(&self, waves: &Waves, turn: Wave) -> (r: Lut)
        ensures
            r.name@ == self.title(),
            r.size == LUT_SIZE,
            r.domain_min@ == seq![
                crate::crt::lut::zero(),
                crate::crt::lut::zero(),
                crate::crt::lut::zero(),
            ],
            r.domain_max@ == seq![
                crate::crt::lut::one(),
                crate::crt::lut::one(),
                crate::crt::lut::one(),
            ],
            r.values@.len() == 262144,
            forall|n: int| 0 <= n < 262144 ==> (#[trigger] r.values@[n])@ == entry(
                self.moves(*waves, turn),
                n as nat,
            ),
    {
        let moves: Vec<Move> = self.corrections(waves, turn);
        let mut values: Vec<[Real32; 3]> = Vec::new();
        let mut n: usize = 0;
        while n < 262144
            invariant
                n <= 262144,
                values@.len() == n,
                shifts(moves@) == self.moves(*waves, turn),
                forall|k: int| 0 <= k < n ==> (#[trigger] values@[k])@ == entry(
                    self.moves(*waves, turn),
                    k as nat,
                ),
            decreases 262144 - n,
        {
            values.push(table_entry(&moves, n));
            n = n + 1;
        }
        let mut name: String = String::new();
        name.append("NES palette (tint ");
        name.append(crate::fixed::format_hundredths(self.tint).as_str());
        name.append(", I ");
        name.append(crate::fixed::format_hundredths(self.tint_i).as_str());
        name.append(", Q ");
        name.append(crate::fixed::format_hundredths(self.tint_q).as_str());
        name.append(")");
        assert(name@ =~= self.title());
        let zero: Real32 = Real32 { bits: 0 };
        let one: Real32 = Real32 { bits: 0x3f80_0000 };
        let domain_min: [Real32; 3] = [zero, zero, zero];
        let domain_max: [Real32; 3] = [one, one, one];
        assert(domain_min@ =~= seq![zero, zero, zero]);
        assert(domain_max@ =~= seq![one, one, one]);
        Lut { name, size: LUT_SIZE, domain_min, domain_max, values }
    }
}

/// Grays carry no wave: the signal of hue 0, and of those past 12, is the same at every phase, and
/// that of hues 14 and 15 is the same at every level.
pub proof fn grays_carry_no_wave(index: nat, other: nat, p: nat, q: nat)
    requires
        index < 64,
        other < 64,
        index % 16 == 0 || index % 16 > 12,
    ensures
        sample(index, p) == sample(index, q),
        index % 16 > 13 && other % 16 > 13 ==> sample(index, p) == sample(other, q),
{
}

/// A hue's wave is high for half of the twelve phases and then low for half, and is the wave of the
/// hue after it a phase later.
pub proof fn hues_are_phases_of_one_wave(index: nat, p: nat)
    requires
        index < 64,
        1 <= index % 16 <= 12,
    ensures
        sample(index, p + 12) == sample(index, p),
        index % 16 < 12 ==> sample(index + 1, p) == sample(index, p + 1),
        (index % 16 + p) % 12 < 6 ==> sample(index, p) == high_volts(index / 16).minus(black()).over(
            white().minus(black()),
        ) && sample(index, p + 6) == low_volts(index / 16).minus(black()).over(
            white().minus(black()),
        ),
{
    let h = index % 16;
    assert((h + p + 12) % 12 == (h + p) % 12);
    assert((h + p + 6) % 12 < 6 <==> !((h + p) % 12 < 6));
    if h < 12 {
        assert((index + 1) % 16 == h + 1);
        assert((index + 1) / 16 == index / 16);
    }
}

/// The literals that a signal is shown with.
proof fn lemma_shares()
    ensures
        u_scale().finite(),
        v_scale().finite(),
        red_share().finite(),
        blue_share().finite(),
        green_share().finite(),
        !crate::float::Format::Double.negative(u_scale().at()),
        !crate::float::Format::Double.negative(v_scale().at()),
        !crate::float::Format::Double.negative(green_share().at()),
        2 * crate::margin::double_worth(u_scale()) <= crate::margin::unit() <= 3
            * crate::margin::double_worth(u_scale()),
        crate::margin::double_worth(v_scale()) <= crate::margin::unit() <= 2
            * crate::margin::double_worth(v_scale()),
        crate::margin::within(
            1000 * crate::margin::double_worth(red_share()),
            299 * crate::margin::unit(),
            200 * crate::margin::double_slack(),
        ),
        crate::margin::within(
            1000 * crate::margin::double_worth(green_share()),
            587 * crate::margin::unit(),
            200 * crate::margin::double_slack(),
        ),
        crate::margin::within(
            1000 * crate::margin::double_worth(blue_share()),
            114 * crate::margin::unit(),
            200 * crate::margin::double_slack(),
        ),
        crate::margin::unit() == 0x8_0000_0000_0000 * crate::margin::double_slack(),
        crate::margin::double_slack() > 0,
{
    vstd::arithmetic::power2::lemma2_to64();
    vstd::arithmetic::power2::lemma2_to64_rest();
    crate::margin::lemma_units();
    crate::margin::lemma_double_literal(
        0x3fdf_7ced_9168_72b0,
        0x1f_7ced_9168_72b0,
        54,
        0x40_0000_0000_0000,
    );
    crate::margin::lemma_double_literal(
        0x3fec_1062_4dd2_f1aa,
        0x1c_1062_4dd2_f1aa,
        53,
        0x20_0000_0000_0000,
    );
    crate::margin::lemma_double_literal(
        0x3fd3_22d0_e560_4189,
        0x13_22d0_e560_4189,
        54,
        0x40_0000_0000_0000,
    );
    crate::margin::lemma_double_literal(
        0x3fbd_2f1a_9fbe_76c9,
        0x1d_2f1a_9fbe_76c9,
        56,
        0x100_0000_0000_0000,
    );
    crate::margin::lemma_double_literal(
        0x3fe2_c8b4_3958_1062,
        0x12_c8b4_3958_1062,
        53,
        0x20_0000_0000_0000,
    );
    crate::float::lemma_unit_pow_adds(-51, 51);
    let s = crate::margin::double_slack();
    assert(s * 0x8_0000_0000_0000 == 0x8_0000_0000_0000 * s) by (nonlinear_arith);
}

/// Where nothing is cut off, U moves blue off the luma and V moves red, each over its scale, and the
/// color has the luma of the signal: 0.299 of red, 0.587 of green and 0.114 of blue.
#[verifier::rlimit(40)]
pub proof fn shown_colors_keep_the_luma(signal: Yuv)
    requires
        signal.y.finite(),
        signal.u.finite(),
        signal.v.finite(),
        crate::margin::within(crate::margin::double_worth(signal.y), 0, crate::margin::unit()),
        crate::margin::within(3 * crate::margin::double_worth(signal.u), 0, crate::margin::unit()),
        crate::margin::within(2 * crate::margin::double_worth(signal.v), 0, crate::margin::unit()),
        forall|c: int|
            0 <= c < 3 ==> 0 < crate::margin::double_worth(#[trigger] shown(signal)[c])
                < crate::margin::unit(),
    ensures
        ({
            let c = shown(signal);
            let (r, g, b) = (
                crate::margin::double_worth(c[0]),
                crate::margin::double_worth(c[1]),
                crate::margin::double_worth(c[2]),
            );
            let (y, u, v) = (
                crate::margin::double_worth(signal.y),
                crate::margin::double_worth(signal.u),
                crate::margin::double_worth(signal.v),
            );
            let one = crate::margin::unit();
            let s = crate::margin::double_slack();
            &&& crate::margin::within(
                (b - y) * crate::margin::double_worth(u_scale()),
                u * one,
                2 * (s * one),
            )
            &&& crate::margin::within(
                (r - y) * crate::margin::double_worth(v_scale()),
                v * one,
                2 * (s * one),
            )
            &&& crate::margin::within(299 * r + 587 * g + 114 * b, 1000 * y, 10_000 * s)
        }),
{
    lemma_shares();
    crate::margin::lemma_units();
    let one_ = crate::margin::unit();
    let s = crate::margin::double_slack();
    let (y, u, v) = (
        crate::margin::double_worth(signal.y),
        crate::margin::double_worth(signal.u),
        crate::margin::double_worth(signal.v),
    );
    let (su, sv) = (
        crate::margin::double_worth(u_scale()),
        crate::margin::double_worth(v_scale()),
    );
    crate::margin::near_double_quotient(signal.u, u_scale());
    crate::margin::near_double_quotient(signal.v, v_scale());
    let (du, dv) = (signal.u.over(u_scale()), signal.v.over(v_scale()));
    let (x, z) = (crate::margin::double_worth(du), crate::margin::double_worth(dv));
    assert(-2 * one_ <= x <= 2 * one_ && -2 * one_ <= z <= 2 * one_) by (nonlinear_arith)
        requires
            crate::margin::within(x * su, u * one_, su * s),
            crate::margin::within(z * sv, v * one_, sv * s),
            crate::margin::within(3 * u, 0, one_),
            crate::margin::within(2 * v, 0, one_),
            one_ <= 3 * su,
            one_ <= 2 * sv,
            one_ == 0x8_0000_0000_0000 * s,
            s > 0,
    ;
    crate::margin::near_double_sum(signal.y, du);
    crate::margin::near_double_sum(signal.y, dv);
    let b = signal.y.plus(du);
    let r = signal.y.plus(dv);
    let (wb, wr) = (crate::margin::double_worth(b), crate::margin::double_worth(r));
    let c = shown(signal);
    lemma_unclamped(r, c[0]);
    lemma_unclamped(b, c[2]);
    assert(crate::margin::within((wb - y) * su, u * one_, 2 * (s * one_))) by (nonlinear_arith)
        requires
            crate::margin::within(wb, y + x, s),
            crate::margin::within(x * su, u * one_, su * s),
            0 < su <= one_,
            s > 0,
    ;
    assert(crate::margin::within((wr - y) * sv, v * one_, 2 * (s * one_))) by (nonlinear_arith)
        requires
            crate::margin::within(wr, y + z, s),
            crate::margin::within(z * sv, v * one_, sv * s),
            0 < sv <= one_,
            s > 0,
    ;
    let (rs, bs, gs) = (
        crate::margin::double_worth(red_share()),
        crate::margin::double_worth(blue_share()),
        crate::margin::double_worth(green_share()),
    );
    assert(crate::margin::within(rs * wr, 0, one_ * one_) && crate::margin::within(
        bs * wb,
        0,
        one_ * one_,
    ) && one_ * one_ < 8 * one_ * one_) by (nonlinear_arith)
        requires
            0 <= rs <= one_,
            0 <= bs <= one_,
            0 < wr < one_,
            0 < wb < one_,
    ;
    crate::margin::near_double_product(red_share(), r);
    crate::margin::near_double_product(blue_share(), b);
    let (pr, pb) = (red_share().times(r), blue_share().times(b));
    let (wpr, wpb) = (crate::margin::double_worth(pr), crate::margin::double_worth(pb));
    assert(-one_ <= wpr <= 2 * one_ && -one_ <= wpb <= 2 * one_) by (nonlinear_arith)
        requires
            crate::margin::within(wpr * one_, rs * wr, s * one_),
            crate::margin::within(wpb * one_, bs * wb, s * one_),
            crate::margin::within(rs * wr, 0, one_ * one_),
            crate::margin::within(bs * wb, 0, one_ * one_),
            rs * wr >= 0,
            bs * wb >= 0,
            one_ == 0x8_0000_0000_0000 * s,
            s > 0,
    ;
    crate::margin::near_double_sum(signal.y, pr);
    let first = signal.y.minus(pr);
    crate::margin::near_double_sum(first, pb);
    let rest = first.minus(pb);
    let wrest = crate::margin::double_worth(rest);
    assert(crate::margin::within(wrest, y - wpr - wpb, 2 * s));
    // Green is not cut off, so what is left is below its share.
    lemma_green_is_small(rest, c[1]);
    crate::margin::near_double_quotient(rest, green_share());
    let g = rest.over(green_share());
    let wg = crate::margin::double_worth(g);
    lemma_unclamped(g, c[1]);
    assert(crate::margin::within(wg * gs, (y - wpr - wpb) * one_, 3 * (s * one_)))
        by (nonlinear_arith)
        requires
            crate::margin::within(wg * gs, wrest * one_, gs * s),
            crate::margin::within(wrest, y - wpr - wpb, 2 * s),
            0 < gs <= one_,
            s > 0,
    ;
    let (gg, rr, bb) = (gs * wg, rs * wr, bs * wb);
    assert(crate::margin::within(gg + rr + bb, y * one_, 5 * (s * one_))) by (nonlinear_arith)
        requires
            crate::margin::within(wg * gs, (y - wpr - wpb) * one_, 3 * (s * one_)),
            crate::margin::within(wpr * one_, rr, s * one_),
            crate::margin::within(wpb * one_, bb, s * one_),
            gg == gs * wg,
    ;
    assert(crate::margin::within(1000 * gg, 587 * wg * one_, 200 * (s * one_)) && crate::margin::within(
        1000 * rr,
        299 * wr * one_,
        200 * (s * one_),
    ) && crate::margin::within(1000 * bb, 114 * wb * one_, 200 * (s * one_))) by (nonlinear_arith)
        requires
            gg == gs * wg,
            rr == rs * wr,
            bb == bs * wb,
            crate::margin::within(1000 * gs, 587 * one_, 200 * s),
            crate::margin::within(1000 * rs, 299 * one_, 200 * s),
            crate::margin::within(1000 * bs, 114 * one_, 200 * s),
            0 < wr < one_,
            0 < wg < one_,
            0 < wb < one_,
            s > 0,
    ;
    assert(crate::margin::within(299 * wr + 587 * wg + 114 * wb, 1000 * y, 10_000 * s))
        by (nonlinear_arith)
        requires
            crate::margin::within(gg + rr + bb, y * one_, 5 * (s * one_)),
            crate::margin::within(1000 * gg, 587 * wg * one_, 200 * (s * one_)),
            crate::margin::within(1000 * rr, 299 * wr * one_, 200 * (s * one_)),
            crate::margin::within(1000 * bb, 114 * wb * one_, 200 * (s * one_)),
            one_ > 0,
            s > 0,
    ;
}

/// A channel that comes out between its ends was not cut off.
proof fn lemma_unclamped(v: Real64, c: Real64)
    requires
        c == v.clamped(zero(), one()),
        0 < crate::margin::double_worth(c) < crate::margin::unit(),
    ensures
        c == v,
{
    let f = crate::float::Format::Double;
    crate::margin::lemma_zero(f);
    crate::margin::whole_numbers_are_exact(1);
    reveal(Real64::of);
    crate::float::one_is_exact(f);
}

/// Where green comes out between its ends, what is left for it is no more than its share.
proof fn lemma_green_is_small(rest: Real64, c: Real64)
    requires
        rest.finite(),
        c == rest.over(green_share()).clamped(zero(), one()),
        0 < crate::margin::double_worth(c) < crate::margin::unit(),
        crate::margin::within(crate::margin::double_worth(rest), 0, 6 * crate::margin::unit()),
    ensures
        crate::margin::within(
            crate::margin::double_worth(rest),
            0,
            8 * crate::margin::double_worth(green_share()) - 1,
        ),
{
    lemma_shares();
    lemma_unclamped(rest.over(green_share()), c);
    reveal(Real64::finite);
    reveal(Real64::over);
    crate::margin::lemma_units();
    vstd::arithmetic::power2::lemma2_to64();
    crate::float::lemma_unit_pow_adds(0, 4);
    let f = crate::float::Format::Double;
    let u = crate::margin::unit();
    let (x, g) = (
        crate::margin::double_worth(rest),
        crate::margin::double_worth(green_share()),
    );
    let big = crate::float::unit_pow(4) as int;
    assert(u * 16 == 16 * u) by (nonlinear_arith);
    assert(-(g * big) < x * u < g * big) by (nonlinear_arith)
        requires
            crate::margin::within(x, 0, 6 * u),
            u < 2 * g,
            big == 16 * u,
            u > 0,
    ;
    crate::margin::signed_quotients_are_close(f, rest.at(), green_share().at(), 4);
    crate::float::lemma_unit_pow_adds(-51, 1);
    let w = crate::margin::double_worth(rest.over(green_share()));
    let s = crate::float::unit_pow(-50) as int;
    let e = crate::margin::double_slack();
    assert(e * 2 == 2 * e) by (nonlinear_arith);
    assert(crate::margin::within(x, 0, 2 * g)) by (nonlinear_arith)
        requires
            crate::margin::within(w * g, x * u, g * s),
            0 < w < u,
            s == 2 * e,
            u == 0x8_0000_0000_0000 * e,
            g > 0,
            e > 0,
    ;
}

} // verus!
