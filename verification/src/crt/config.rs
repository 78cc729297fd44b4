//! A look: every setting of the simulation, and the sizes it gives.
use crate::crt::lut::{Lut, LutError};
use crate::crt::settings::{self, NumberFault};
use crate::crt::source::{SourceEdit, SourceError};
use crate::number::{Real32, Real64};
use crate::text::{
    chars_of, decimal_text, find_char, find_integer_fault, join, owned, parse_u32, same_text,
    IntegerFault,
};
use vstd::prelude::*;
use vstd::slice::*;
use vstd::string::*;

verus! {

/// Which composite artifact pattern ticks show.
#[derive(Clone, Copy, PartialEq, Eq, Structural, Debug)]
pub enum Phase {
    Stable,
    A,
    B,
    Alternating,
}

/// How a picture fits the 4:3 tube.
#[derive(Clone, Copy, PartialEq, Eq, Structural, Debug)]
pub enum Fit {
    Reference,
    Contain,
    Cover,
    Stretch,
}

#[derive(Clone, Copy, PartialEq, Eq, Structural, Debug)]
pub enum Filter {
    Nearest,
    Lanczos,
}

#[derive(Clone, Copy, PartialEq, Eq, Structural, Debug)]
pub enum ColorMode {
    Reference,
    LinearLight,
}

impl Default for ColorMode {
    fn default() -> (r: Self)
        ensures
            r == ColorMode::Reference,
    {
        ColorMode::Reference
    }
}

/// How many times the shadow mask repeats across the screen.
#[derive(Clone, Copy, PartialEq, Eq, Debug)]
pub enum MaskRepeats {
    /// A mask column for every two signal columns and a row for every signal row, so a finer
    /// signal gets a finer mask.
    Signal,
    /// These columns and rows across the screen, whatever the signal.
    Fixed([Real32; 2]),
}

impl MaskRepeats {
    pub open spec fn equal(self, other: Self) -> bool {
        match (self, other) {
            (MaskRepeats::Signal, MaskRepeats::Signal) => true,
            (MaskRepeats::Fixed(a), MaskRepeats::Fixed(b)) => a@[0].equal(b@[0]) && a@[1].equal(
                b@[1],
            ),
            _ => false,
        }
    }

    pub fn same(&self, other: &Self) -> (r: bool)
        ensures
            r == self.equal(*other),
    {
        match (self, other) {
            (MaskRepeats::Signal, MaskRepeats::Signal) => true,
            (MaskRepeats::Fixed(a), MaskRepeats::Fixed(b)) => a[0].same(b[0]) && a[1].same(b[1]),
            _ => false,
        }
    }

    /// The columns and rows across the screen for a signal of `size`.
    pub fn resolve(self, size: (u32, u32)) -> (r: [Real32; 2])
        ensures
            self matches MaskRepeats::Fixed(repeats) ==> r == repeats,
            self is Signal ==> r@[0] == Real32::of(size.0 as nat).over(Real32::of(2)) && r@[1]
                == Real32::of(size.1 as nat),
    {
        match self {
            MaskRepeats::Signal => [
                Real32::from_integer(size.0 as u64).div(Real32::from_integer(2)),
                Real32::from_integer(size.1 as u64),
            ],
            MaskRepeats::Fixed(repeats) => repeats,
        }
    }
}

/// The controls of the palette that the NES's composite signal decodes to.
#[derive(Clone, Copy, PartialEq, Eq, Structural, Debug)]
pub struct NesPalette {
    /// Turns every hue, in radians.
    pub tint: Real32,
    /// Scales the I axis: orange against blue.
    pub tint_i: Real32,
    /// Scales the Q axis: purple against green.
    pub tint_q: Real32,
}

impl NesPalette {
    /// The controls as the game sets them.
    pub open spec fn is_game(self) -> bool {
        &&& self.tint.bits == 0x40a5_c28f
        &&& self.tint_i.bits == 0x3fe0_0000
        &&& self.tint_q.bits == 0x3f80_0000
    }
}

impl Default for NesPalette {
    /// 5.18, 1.75 and 1, which give the standard decode.
    fn default() -> (r: Self)
        ensures
            r.is_game(),
    {
        NesPalette {
            tint: Real32 { bits: 0x40a5_c28f },
            tint_i: Real32 { bits: 0x3fe0_0000 },
            tint_q: Real32 { bits: 0x3f80_0000 },
        }
    }
}

/// Why a size is refused.
#[derive(Clone, Copy, PartialEq, Eq, Structural, Debug)]
pub enum SizeError {
    /// Not WIDTHxHEIGHT.
    Shape,
    /// A width or height that is no number.
    Number(IntegerFault),
    /// Zero, past 16384 on a side, or past 64 megapixels.
    Range,
    /// A signal that is neither a preset nor a size.
    Signal,
}

impl SizeError {
    /// What is said of a text that is refused as a size.
    pub open spec fn said(self, text: Seq<char>) -> Seq<char> {
        match self {
            SizeError::Shape => "expected WIDTHxHEIGHT, got "@ + text,
            SizeError::Number(fault) => fault.text(),
            SizeError::Range =>
                "dimensions must be positive, <=16384 per side, and <=64 megapixels"@,
            SizeError::Signal => "unknown signal preset: "@ + text,
        }
    }

    pub fn message(&self, text: &str) -> (r: String)
        ensures
            r@ == self.said(text@),
    {
        match *self {
            SizeError::Shape => join("expected WIDTHxHEIGHT, got ", text),
            SizeError::Number(fault) => owned(fault.message()),
            SizeError::Range => owned(
                "dimensions must be positive, <=16384 per side, and <=64 megapixels",
            ),
            SizeError::Signal => join("unknown signal preset: ", text),
        }
    }
}

/// Why a look is refused.
#[derive(Clone, Copy, PartialEq, Eq, Structural, Debug)]
pub enum ConfigError {
    Source(SourceError),
    Lut(LutError),
    /// Both a LUT and the NES palette.
    TwoTables,
    Version,
    /// More than 240 ticks of warm-up.
    Warmup,
    /// A number outside what a preset may hold.
    Number(NumberFault),
    Size(SizeError),
}

impl ConfigError {
    /// What is said of a look that is refused, for a number or a size together with how that is
    /// written.
    pub open spec fn said(self, value: Seq<char>) -> Seq<char> {
        match self {
            ConfigError::Source(e) => e.text(),
            ConfigError::Lut(e) => e.text(),
            ConfigError::TwoTables => "Use either a LUT or the NES palette, not both"@,
            ConfigError::Version => "unsupported config version"@,
            ConfigError::Warmup => "warmup must be <=240 ticks"@,
            ConfigError::Number(fault) => fault.said(value),
            ConfigError::Size(e) => e.said(value),
        }
    }

    pub fn message(&self, value: &str) -> (r: String)
        ensures
            r@ == self.said(value@),
    {
        match self {
            ConfigError::Source(e) => owned(e.message()),
            ConfigError::Lut(e) => owned(e.message()),
            ConfigError::TwoTables => owned("Use either a LUT or the NES palette, not both"),
            ConfigError::Version => owned("unsupported config version"),
            ConfigError::Warmup => owned("warmup must be <=240 ticks"),
            ConfigError::Number(fault) => fault.message(value),
            ConfigError::Size(e) => e.message(value),
        }
    }
}

/// Whether a picture of a size can be processed.
pub open spec fn size_ok(size: (u32, u32)) -> bool {
    &&& 0 < size.0 <= 16384
    &&& 0 < size.1 <= 16384
    &&& size.0 * size.1 <= 64_000_000
}

pub fn validate_size(size: (u32, u32)) -> (r: Result<(), SizeError>)
    ensures
        r == (if size_ok(size) {
            Ok::<(), SizeError>(())
        } else {
            Err::<(), SizeError>(SizeError::Range)
        }),
{
    if size.0 == 0 || size.1 == 0 || size.0 > 16384 || size.1 > 16384 {
        return Err(SizeError::Range);
    }
    proof {
        assert(size.0 * size.1 <= 16384 * 16384) by (nonlinear_arith)
            requires
                size.0 <= 16384,
                size.1 <= 16384,
        ;
    }
    if size.0 * size.1 > 64_000_000 {
        return Err(SizeError::Range);
    }
    Ok(())
}

/// The size that WIDTHxHEIGHT names.
pub open spec fn dimensions_of(s: Seq<char>) -> Result<(u32, u32), SizeError> {
    let at = crate::text::first_at(s, 'x', 0);
    let w = crate::text::unsigned(s.take(at), u32::MAX as nat);
    let h = crate::text::unsigned(s.skip(at + 1), u32::MAX as nat);
    if at >= s.len() {
        Err(SizeError::Shape)
    } else if w is None {
        Err(SizeError::Number(crate::text::integer_fault(s.take(at), u32::MAX as nat)))
    } else if h is None {
        Err(SizeError::Number(crate::text::integer_fault(s.skip(at + 1), u32::MAX as nat)))
    } else if !size_ok((w->0 as u32, h->0 as u32)) {
        Err(SizeError::Range)
    } else {
        Ok((w->0 as u32, h->0 as u32))
    }
}

pub fn dimensions(text: &str) -> (r: Result<(u32, u32), SizeError>)
    ensures
        r == dimensions_of(text@),
{
    let chars: Vec<char> = chars_of(text);
    let at: usize = find_char(chars.as_slice(), 'x', 0);
    if at == chars.len() {
        return Err(SizeError::Shape);
    }
    let left: &[char] = slice_subrange(chars.as_slice(), 0, at);
    let right: &[char] = slice_subrange(chars.as_slice(), at + 1, chars.len());
    assert(left@ == text@.take(at as int));
    assert(right@ == text@.skip(at as int + 1));
    match (parse_u32(left), parse_u32(right)) {
        (Some(w), Some(h)) => match validate_size((w, h)) {
            Ok(()) => Ok((w, h)),
            Err(e) => Err(e),
        },
        (None, _) => Err(SizeError::Number(find_integer_fault(left, u32::MAX as u64))),
        (_, None) => Err(SizeError::Number(find_integer_fault(right, u32::MAX as u64))),
    }
}

/// A look. See `settings` for what its numbers may be.
#[derive(Clone, Debug, PartialEq, Eq)]
pub struct Config {
    pub source: SourceEdit,
    pub screen_only: bool,
    pub lut: Option<Lut>,
    /// How much of the LUT's color applies: 1 the LUT alone, 0 none of it.
    pub lut_strength: Real32,
    /// The NES palette made from its composite signal, in place of a LUT.
    pub palette: Option<NesPalette>,
    pub version: u32,
    pub signal: String,
    pub output: String,
    pub fit: Fit,
    pub filter: Filter,
    pub pixel_aspect: Real32,
    pub phase: Phase,
    /// Number of additional ticks before the saved tick; total = warmup + 1.
    pub warmup: u32,
    pub sharpness: Real32,
    pub bleed: Real32,
    pub artifacts: Real32,
    /// How far the two composite artifact patterns blend into each other: 0 switches cleanly
    /// between them, 0.5 shows their average on every tick, as stable phase always does.
    pub ntsc_blending: Real32,
    pub persistence: [Real32; 3],
    pub overscan: Real32,
    pub barrel: Real32,
    pub saturation: Real32,
    pub mask_brightness: Real32,
    pub mask_opacity: Real32,
    pub mask_repeats: MaskRepeats,
    pub dimming: Real32,
    pub reflection: Real32,
    pub diffuse: Real32,
    pub specular: Real32,
    pub specular_power: Real32,
    pub rim: Real32,
    pub light_position: [Real32; 3],
    pub frame_color: [Real32; 3],
    pub fov: Real32,
    pub bloom: Real32,
    pub bloom_power: Real32,
    pub bloom_spread: Real32,
    pub color_mode: ColorMode,
    /// Samples the mask from mipmaps, so that it stays smooth where it is drawn smaller than it
    /// is. Off samples only the full-size mask, which shimmers into moiré when shrunk.
    pub mask_antialias: bool,
    /// Interlaced scanning: each tick refreshes only every other signal row, and the rows it
    /// skips only decay by `persistence`.
    pub interlace: bool,
    /// Optional YIQ hue rotation, in degrees.
    pub hue: Real32,
    pub chroma: Real32,
}

pub open spec fn lut_equal(a: Option<Lut>, b: Option<Lut>) -> bool {
    match (a, b) {
        (None, None) => true,
        (Some(x), Some(y)) => x.equal(y),
        _ => false,
    }
}

pub open spec fn palette_equal(a: Option<NesPalette>, b: Option<NesPalette>) -> bool {
    match (a, b) {
        (None, None) => true,
        (Some(x), Some(y)) => x.tint.equal(y.tint) && x.tint_i.equal(y.tint_i) && x.tint_q.equal(
            y.tint_q,
        ),
        _ => false,
    }
}

fn same_lut(a: &Option<Lut>, b: &Option<Lut>) -> (r: bool)
    ensures
        r == lut_equal(*a, *b),
{
    match (a, b) {
        (None, None) => true,
        (Some(x), Some(y)) => x.same(y),
        _ => false,
    }
}

fn same_palette(a: &Option<NesPalette>, b: &Option<NesPalette>) -> (r: bool)
    ensures
        r == palette_equal(*a, *b),
{
    match (a, b) {
        (None, None) => true,
        (Some(x), Some(y)) => x.tint.same(y.tint) && x.tint_i.same(y.tint_i) && x.tint_q.same(
            y.tint_q,
        ),
        _ => false,
    }
}

fn same_three(a: &[Real32; 3], b: &[Real32; 3]) -> (r: bool)
    ensures
        r == crate::crt::lut::row_equal(*a, *b),
{
    a[0].same(b[0]) && a[1].same(b[1]) && a[2].same(b[2])
}

/// Whether two tables hold the same bits.
pub open spec fn lut_alike(a: Option<Lut>, b: Option<Lut>) -> bool {
    match (a, b) {
        (None, None) => true,
        (Some(x), Some(y)) => x.name@ == y.name@ && x.contents() == y.contents(),
        _ => false,
    }
}

impl Default for Config {
    /// The public reference's settings.
    fn default() -> (r: Self)
        ensures
            r.is_reference(),
    {
        let r: Config = Config {
            source: SourceEdit::default(),
            screen_only: false,
            lut: None,
            lut_strength: Real32 { bits: 0x3f80_0000 },
            palette: None,
            version: 1,
            signal: owned("original"),
            output: owned("reference"),
            fit: Fit::Reference,
            filter: Filter::Nearest,
            pixel_aspect: Real32 { bits: 0x3f92_4925 },
            phase: Phase::Stable,
            warmup: 16,
            sharpness: Real32 { bits: 0x3f4c_cccd },
            bleed: Real32 { bits: 0x3f00_0000 },
            artifacts: Real32 { bits: 0x3f00_0000 },
            ntsc_blending: Real32 { bits: 0 },
            persistence: [Real32 { bits: 0x3f33_3333 }, Real32 { bits: 0x3f06_6666 }, Real32 { bits: 0x3ed7_0a3d }],
            overscan: Real32 { bits: 0x3f80_0000 },
            barrel: Real32 { bits: 0xbdeb_851f },
            saturation: Real32 { bits: 0x3fac_cccd },
            mask_brightness: Real32 { bits: 0x3ee6_6666 },
            mask_opacity: Real32 { bits: 0x3f80_0000 },
            mask_repeats: MaskRepeats::Signal,
            dimming: Real32 { bits: 0x3f00_0000 },
            reflection: Real32 { bits: 0x3e99_999a },
            diffuse: Real32 { bits: 0x3f00_0000 },
            specular: Real32 { bits: 0x3eb3_3333 },
            specular_power: Real32 { bits: 0x4248_0000 },
            rim: Real32 { bits: 0x3f80_0000 },
            light_position: [Real32 { bits: 0xc120_0000 }, Real32 { bits: 0xc0a0_0000 }, Real32 { bits: 0x4120_0000 }],
            frame_color: [Real32 { bits: 0x3d75_c28f }, Real32 { bits: 0x3d75_c28f }, Real32 { bits: 0x3d75_c28f }],
            fov: Real32 { bits: 0x4170_0000 },
            bloom: Real32 { bits: 0x3e80_0000 },
            bloom_power: Real32 { bits: 0x4000_0000 },
            bloom_spread: Real32 { bits: 0x3ccc_cccd },
            color_mode: ColorMode::Reference,
            mask_antialias: true,
            interlace: false,
            hue: Real32 { bits: 0 },
            chroma: Real32 { bits: 0x3f80_0000 },
        };
        assert(r.persistence@ =~= [Real32 { bits: 0x3f33_3333 }, Real32 { bits: 0x3f06_6666 }, Real32 { bits: 0x3ed7_0a3d }]@);
        assert(r.light_position@ =~= [Real32 { bits: 0xc120_0000 }, Real32 { bits: 0xc0a0_0000 }, Real32 { bits: 0x4120_0000 }]@);
        assert(r.frame_color@ =~= [Real32 { bits: 0x3d75_c28f }, Real32 { bits: 0x3d75_c28f }, Real32 { bits: 0x3d75_c28f }]@);
        r
    }
}

impl Config {
    /// The public reference's settings.
    pub open spec fn is_reference(self) -> bool {
        &&& self.keeps_reference_tube()
        &&& self.signal@ == "original"@
        &&& self.output@ == "reference"@
        &&& self.fit == Fit::Reference
        &&& self.filter == Filter::Nearest
        &&& self.pixel_aspect == Real32 { bits: 0x3f92_4925 }
        &&& self.saturation == Real32 { bits: 0x3fac_cccd }
        &&& self.mask_repeats == MaskRepeats::Signal
    }

    /// The reference's settings but for how it sizes and fits a picture.
    pub open spec fn keeps_reference_tube(self) -> bool {
        &&& self.source == SourceEdit::none()
        &&& self.screen_only == false
        &&& self.lut is None
        &&& self.lut_strength == Real32 { bits: 0x3f80_0000 }
        &&& self.palette is None
        &&& self.version == 1
        &&& self.phase == Phase::Stable
        &&& self.warmup == 16
        &&& self.sharpness == Real32 { bits: 0x3f4c_cccd }
        &&& self.bleed == Real32 { bits: 0x3f00_0000 }
        &&& self.artifacts == Real32 { bits: 0x3f00_0000 }
        &&& self.ntsc_blending == Real32 { bits: 0 }
        &&& self.persistence == [Real32 { bits: 0x3f33_3333 }, Real32 { bits: 0x3f06_6666 }, Real32 { bits: 0x3ed7_0a3d }]
        &&& self.overscan == Real32 { bits: 0x3f80_0000 }
        &&& self.barrel == Real32 { bits: 0xbdeb_851f }
        &&& self.mask_brightness == Real32 { bits: 0x3ee6_6666 }
        &&& self.mask_opacity == Real32 { bits: 0x3f80_0000 }
        &&& self.dimming == Real32 { bits: 0x3f00_0000 }
        &&& self.reflection == Real32 { bits: 0x3e99_999a }
        &&& self.diffuse == Real32 { bits: 0x3f00_0000 }
        &&& self.specular == Real32 { bits: 0x3eb3_3333 }
        &&& self.specular_power == Real32 { bits: 0x4248_0000 }
        &&& self.rim == Real32 { bits: 0x3f80_0000 }
        &&& self.light_position == [Real32 { bits: 0xc120_0000 }, Real32 { bits: 0xc0a0_0000 }, Real32 { bits: 0x4120_0000 }]
        &&& self.frame_color == [Real32 { bits: 0x3d75_c28f }, Real32 { bits: 0x3d75_c28f }, Real32 { bits: 0x3d75_c28f }]
        &&& self.fov == Real32 { bits: 0x4170_0000 }
        &&& self.bloom == Real32 { bits: 0x3e80_0000 }
        &&& self.bloom_power == Real32 { bits: 0x4000_0000 }
        &&& self.bloom_spread == Real32 { bits: 0x3ccc_cccd }
        &&& self.color_mode == ColorMode::Reference
        &&& self.mask_antialias == true
        &&& self.interlace == false
        &&& self.hue == Real32 { bits: 0 }
        &&& self.chroma == Real32 { bits: 0x3f80_0000 }
    }

    /// Whether two looks hold the same bits everywhere.
    pub open spec fn alike(self, other: Config) -> bool {
        &&& self.signal@ == other.signal@
        &&& self.output@ == other.output@
        &&& self.alike_but_sizes(other)
    }

    /// Whether two looks hold the same bits everywhere but in their signal and output sizes.
    pub open spec fn alike_but_sizes(self, other: Config) -> bool {
        &&& lut_alike(self.lut, other.lut)
        &&& (Config { signal: other.signal, output: other.output, lut: other.lut, ..self }) == other
    }

    /// Whether two looks compare equal: the same texts and choices, and numbers that compare
    /// equal.
    pub open spec fn equal(self, other: Config) -> bool {
        &&& self.source.equal(other.source)
        &&& self.screen_only == other.screen_only
        &&& lut_equal(self.lut, other.lut)
        &&& self.lut_strength.equal(other.lut_strength)
        &&& palette_equal(self.palette, other.palette)
        &&& self.version == other.version
        &&& self.signal@ == other.signal@
        &&& self.output@ == other.output@
        &&& self.fit == other.fit
        &&& self.filter == other.filter
        &&& self.pixel_aspect.equal(other.pixel_aspect)
        &&& self.phase == other.phase
        &&& self.warmup == other.warmup
        &&& self.sharpness.equal(other.sharpness)
        &&& self.bleed.equal(other.bleed)
        &&& self.artifacts.equal(other.artifacts)
        &&& self.ntsc_blending.equal(other.ntsc_blending)
        &&& crate::crt::lut::row_equal(self.persistence, other.persistence)
        &&& self.overscan.equal(other.overscan)
        &&& self.barrel.equal(other.barrel)
        &&& self.saturation.equal(other.saturation)
        &&& self.mask_brightness.equal(other.mask_brightness)
        &&& self.mask_opacity.equal(other.mask_opacity)
        &&& self.mask_repeats.equal(other.mask_repeats)
        &&& self.dimming.equal(other.dimming)
        &&& self.reflection.equal(other.reflection)
        &&& self.diffuse.equal(other.diffuse)
        &&& self.specular.equal(other.specular)
        &&& self.specular_power.equal(other.specular_power)
        &&& self.rim.equal(other.rim)
        &&& crate::crt::lut::row_equal(self.light_position, other.light_position)
        &&& crate::crt::lut::row_equal(self.frame_color, other.frame_color)
        &&& self.fov.equal(other.fov)
        &&& self.bloom.equal(other.bloom)
        &&& self.bloom_power.equal(other.bloom_power)
        &&& self.bloom_spread.equal(other.bloom_spread)
        &&& self.color_mode == other.color_mode
        &&& self.mask_antialias == other.mask_antialias
        &&& self.interlace == other.interlace
        &&& self.hue.equal(other.hue)
        &&& self.chroma.equal(other.chroma)
    }

    pub fn same(&self, other: &Config) -> (r: bool)
        ensures
            r == self.equal(*other),
    {
        self.source.same(&other.source) && self.screen_only == other.screen_only && same_lut(&self.lut, &other.lut) && self.lut_strength.same(other.lut_strength) && same_palette(&self.palette, &other.palette) && self.version == other.version && self.signal == other.signal && self.output == other.output && self.fit == other.fit && self.filter == other.filter && self.pixel_aspect.same(other.pixel_aspect) && self.phase == other.phase && self.warmup == other.warmup && self.sharpness.same(other.sharpness) && self.bleed.same(other.bleed) && self.artifacts.same(other.artifacts) && self.ntsc_blending.same(other.ntsc_blending) && same_three(&self.persistence, &other.persistence) && self.overscan.same(other.overscan) && self.barrel.same(other.barrel) && self.saturation.same(other.saturation) && self.mask_brightness.same(other.mask_brightness) && self.mask_opacity.same(other.mask_opacity) && self.mask_repeats.same(&other.mask_repeats) && self.dimming.same(other.dimming) && self.reflection.same(other.reflection) && self.diffuse.same(other.diffuse) && self.specular.same(other.specular) && self.specular_power.same(other.specular_power) && self.rim.same(other.rim) && same_three(&self.light_position, &other.light_position) && same_three(&self.frame_color, &other.frame_color) && self.fov.same(other.fov) && self.bloom.same(other.bloom) && self.bloom_power.same(other.bloom_power) && self.bloom_spread.same(other.bloom_spread) && self.color_mode == other.color_mode && self.mask_antialias == other.mask_antialias && self.interlace == other.interlace && self.hue.same(other.hue) && self.chroma.same(other.chroma)
    }

    /// A look of its own with the same settings.
    pub fn copy(&self) -> (r: Config)
        ensures
            r.alike(*self),
    {
        let lut: Option<Lut> = match &self.lut {
            Some(lut) => Some(lut.copy()),
            None => None,
        };
        Config { signal: self.signal.clone(), output: self.output.clone(), lut, ..*self }
    }

    /// The starting point for ordinary images rather than 256x224 game frames: square pixels,
    /// smooth resizing, contain fitting, neutral saturation, and the reference's mask density
    /// whatever the signal, since an image's rows are not a picture tube's. `default` stays the
    /// public reference's settings.
    pub fn general() -> (r: Config)
        ensures
            r.is_general(),
    {
        let mut r: Config = Config::default();
        r.signal = owned("auto");
        r.output = owned("1080p");
        r.fit = Fit::Contain;
        r.filter = Filter::Lanczos;
        r.pixel_aspect = Real32 { bits: 0x3f80_0000 };
        r.saturation = Real32 { bits: 0x3f80_0000 };
        r.mask_repeats = MaskRepeats::Fixed([Real32 { bits: 0x4300_0000 }, Real32 { bits: 0x4360_0000 }]);
        r
    }

    pub open spec fn is_general(self) -> bool {
        self.signal@ == "auto"@ && self.is_general_but_signal()
    }

    /// The general settings but for the signal.
    pub open spec fn is_general_but_signal(self) -> bool {
        &&& self.keeps_reference_tube()
        &&& self.output@ == "1080p"@
        &&& self.fit == Fit::Contain
        &&& self.filter == Filter::Lanczos
        &&& self.pixel_aspect == Real32 { bits: 0x3f80_0000 }
        &&& self.saturation == Real32 { bits: 0x3f80_0000 }
        &&& self.mask_repeats == MaskRepeats::Fixed(
            [Real32 { bits: 0x4300_0000 }, Real32 { bits: 0x4360_0000 }],
        )
    }

    /// What is wrong with a look, if anything.
    pub open spec fn fault(self) -> Option<ConfigError> {
        if self.source.fault() is Some {
            Some(ConfigError::Source(self.source.fault()->0))
        } else if self.lut is Some && self.lut->0.fault() is Some {
            Some(ConfigError::Lut(self.lut->0.fault()->0))
        } else if self.lut is Some && self.palette is Some {
            Some(ConfigError::TwoTables)
        } else if self.version != 1 {
            Some(ConfigError::Version)
        } else if self.warmup > 240 {
            Some(ConfigError::Warmup)
        } else {
            match crate::crt::settings::number_fault(self) {
                Some(fault) => Some(ConfigError::Number(fault)),
                None => None,
            }
        }
    }

    pub fn validate(&self) -> (r: Result<(), ConfigError>)
        ensures
            r == match self.fault() {
                None => Ok::<(), ConfigError>(()),
                Some(e) => Err::<(), ConfigError>(e),
            },
    {
        match self.source.validate() {
            Err(e) => {
                return Err(ConfigError::Source(e));
            },
            Ok(()) => {},
        }
        match &self.lut {
            Some(lut) => match lut.validate() {
                Err(e) => {
                    return Err(ConfigError::Lut(e));
                },
                Ok(()) => {},
            },
            None => {},
        }
        if self.lut.is_some() && self.palette.is_some() {
            return Err(ConfigError::TwoTables);
        }
        if self.version != 1 {
            return Err(ConfigError::Version);
        }
        if self.warmup > 240 {
            return Err(ConfigError::Warmup);
        }
        match settings::validate(self) {
            Err(fault) => Err(ConfigError::Number(fault)),
            Ok(()) => Ok(()),
        }
    }

    /// The rows that a signal preset asks for of a source `height` rows tall.
    pub open spec fn preset_rows(signal: Seq<char>, height: u32) -> Option<u32> {
        if signal == "auto"@ {
            Some(
                if height < 480 {
                    height
                } else {
                    480
                },
            )
        } else if signal == "240p"@ {
            Some(240u32)
        } else if signal == "288p"@ {
            Some(288u32)
        } else if signal == "360p"@ {
            Some(360u32)
        } else if signal == "480p"@ {
            Some(480u32)
        } else if signal == "576p"@ {
            Some(576u32)
        } else {
            None
        }
    }

    /// The columns that keep a source's aspect at `rows` rows.
    pub open spec fn columns(source: (u32, u32), rows: u32) -> u32 {
        let n = Real64::of(source.0 as nat).times(Real64::of(rows as nat)).over(
            Real64::of(source.1 as nat),
        ).rounded(u32::MAX as nat);
        if n == 0 {
            1
        } else {
            n as u32
        }
    }

    /// The size of the signal for an input.
    pub open spec fn signal_of(self, input: (u32, u32)) -> Result<(u32, u32), SizeError> {
        let source = self.source.cropped(input);
        if !size_ok(input) {
            Err(SizeError::Range)
        } else if self.signal@ == "original"@ {
            Ok((256u32, 224u32))
        } else if self.signal@ == "native"@ {
            Ok(source)
        } else if let Some(rows) = Self::preset_rows(self.signal@, source.1) {
            let size = (Self::columns(source, rows), rows);
            if size_ok(size) {
                Ok(size)
            } else {
                Err(SizeError::Range)
            }
        } else if self.signal@.contains('x') {
            dimensions_of(self.signal@)
        } else {
            Err(SizeError::Signal)
        }
    }

    pub fn signal_size(&self, input: (u32, u32)) -> (r: Result<(u32, u32), SizeError>)
        ensures
            r == self.signal_of(input),
    {
        match validate_size(input) {
            Err(e) => {
                return Err(e);
            },
            Ok(()) => {},
        }
        let source: (u32, u32) = self.source.size(input);
        let name: &str = self.signal.as_str();
        if same_text(name, "original") {
            return Ok((256, 224));
        }
        if same_text(name, "native") {
            return Ok(source);
        }
        let rows: u32 = if same_text(name, "auto") {
            if source.1 < 480 {
                source.1
            } else {
                480
            }
        } else if same_text(name, "240p") {
            240
        } else if same_text(name, "288p") {
            288
        } else if same_text(name, "360p") {
            360
        } else if same_text(name, "480p") {
            480
        } else if same_text(name, "576p") {
            576
        } else {
            let chars: Vec<char> = chars_of(name);
            let at: usize = find_char(chars.as_slice(), 'x', 0);
            if at < chars.len() {
                assert(self.signal@[at as int] == 'x');
                return dimensions(name);
            }
            return Err(SizeError::Signal);
        };
        let n: u64 = Real64::from_integer(source.0 as u64).mul(
            Real64::from_integer(rows as u64),
        ).div(Real64::from_integer(source.1 as u64)).round(u32::MAX as u64);
        let columns: u32 = if n == 0 {
            1
        } else {
            n as u32
        };
        match validate_size((columns, rows)) {
            Err(e) => Err(e),
            Ok(()) => Ok((columns, rows)),
        }
    }

    /// The size of the output canvas for an input.
    pub open spec fn output_of(self, input: (u32, u32)) -> Result<(u32, u32), SizeError> {
        if self.output@ == "reference"@ {
            Ok((1600u32, 900u32))
        } else if self.output@ == "720p"@ {
            Ok((1280u32, 720u32))
        } else if self.output@ == "1080p"@ {
            Ok((1920u32, 1080u32))
        } else if self.output@ == "1440p"@ {
            Ok((2560u32, 1440u32))
        } else if self.output@ == "4k"@ {
            Ok((3840u32, 2160u32))
        } else if self.output@ == "match-input"@ {
            if size_ok(input) {
                Ok(input)
            } else {
                Err(SizeError::Range)
            }
        } else {
            dimensions_of(self.output@)
        }
    }

    pub fn output_size(&self, input: (u32, u32)) -> (r: Result<(u32, u32), SizeError>)
        ensures
            r == self.output_of(input),
    {
        let name: &str = self.output.as_str();
        if same_text(name, "reference") {
            Ok((1600, 900))
        } else if same_text(name, "720p") {
            Ok((1280, 720))
        } else if same_text(name, "1080p") {
            Ok((1920, 1080))
        } else if same_text(name, "1440p") {
            Ok((2560, 1440))
        } else if same_text(name, "4k") {
            Ok((3840, 2160))
        } else if same_text(name, "match-input") {
            match validate_size(input) {
                Err(e) => Err(e),
                Ok(()) => Ok(input),
            }
        } else {
            dimensions(name)
        }
    }

    /// What is wrong with a look for an input of a size, if anything.
    pub open spec fn fault_for(self, input: (u32, u32)) -> Option<ConfigError> {
        if self.fault() is Some {
            self.fault()
        } else if let Err(e) = self.signal_of(input) {
            Some(ConfigError::Size(e))
        } else if let Err(e) = self.output_of(input) {
            Some(ConfigError::Size(e))
        } else {
            None
        }
    }

    /// Checks the settings, and that they size a render of an input `input` pixels large, so
    /// settings that cannot render it are refused when they are loaded or saved, not later.
    pub fn validate_for(&self, input: (u32, u32)) -> (r: Result<(), ConfigError>)
        ensures
            r == match self.fault_for(input) {
                None => Ok::<(), ConfigError>(()),
                Some(e) => Err::<(), ConfigError>(e),
            },
    {
        match self.validate() {
            Err(e) => {
                return Err(e);
            },
            Ok(()) => {},
        }
        match self.signal_size(input) {
            Err(e) => {
                return Err(ConfigError::Size(e));
            },
            Ok(_) => {},
        }
        match self.output_size(input) {
            Err(e) => Err(ConfigError::Size(e)),
            Ok(_) => Ok(()),
        }
    }

    /// How far a canvas is scaled down for its longer side to be at most `max_side`.
    pub open spec fn scale_for(size: (u32, u32), max_side: Option<u32>) -> Real64 {
        let longer = if size.0 > size.1 {
            size.0
        } else {
            size.1
        };
        match max_side {
            None => Real64::of(1),
            Some(m) => Real64::of(m as nat).over(Real64::of(longer as nat)).lesser(Real64::of(1)),
        }
    }

    /// A side of a canvas scaled down, of at least one pixel.
    pub open spec fn scaled_side(side: u32, scale: Real64) -> u32 {
        let n = Real64::of(side as nat).times(scale).rounded(u32::MAX as nat);
        if n == 0 {
            1
        } else {
            n as u32
        }
    }

    pub open spec fn scaled_size(size: (u32, u32), max_side: Option<u32>) -> (u32, u32) {
        let scale = Self::scale_for(size, max_side);
        (Self::scaled_side(size.0, scale), Self::scaled_side(size.1, scale))
    }

    fn scale_side(side: u32, scale: Real64) -> (r: u32)
        ensures
            r == Self::scaled_side(side, scale),
            r > 0,
    {
        let n: u64 = Real64::from_integer(side as u64).mul(scale).round(u32::MAX as u64);
        if n == 0 {
            1
        } else {
            n as u32
        }
    }

    /// A size as WIDTHxHEIGHT.
    pub open spec fn size_text(size: (u32, u32)) -> Seq<char> {
        crate::text::decimal(size.0 as nat).push('x') + crate::text::decimal(size.1 as nat)
    }

    /// The same settings with the output canvas scaled down, keeping its aspect, so that its
    /// longer side is at most `max_side`. The signal, and so the look, stays as it is.
    pub fn with_max_output_side(&self, input: (u32, u32), max_side: Option<u32>) -> (r: Result<
        Config,
        ConfigError,
    >)
        ensures
            match self.fault_for(input) {
                Some(e) => r == Err::<Config, ConfigError>(e),
                None => r matches Ok(c) && c.alike_but_sizes(*self) && c.signal@ == self.signal@
                    && c.output@ == Self::size_text(
                    Self::scaled_size(self.output_of(input)->Ok_0, max_side),
                ),
            },
    {
        match self.validate_for(input) {
            Err(e) => {
                return Err(e);
            },
            Ok(()) => {},
        }
        let size: (u32, u32) = match self.output_size(input) {
            Err(e) => {
                return Err(ConfigError::Size(e));
            },
            Ok(size) => size,
        };
        let longer: u32 = if size.0 > size.1 {
            size.0
        } else {
            size.1
        };
        let whole: Real64 = Real64::from_integer(1);
        let scale: Real64 = match max_side {
            None => whole,
            Some(m) => Real64::from_integer(m as u64).div(
                Real64::from_integer(longer as u64),
            ).min(whole),
        };
        let mut output: String = decimal_text(Self::scale_side(size.0, scale) as u64);
        output.push('x');
        let rows: String = decimal_text(Self::scale_side(size.1, scale) as u64);
        output.append(rows.as_str());
        let mut scaled: Config = self.copy();
        scaled.output = output;
        Ok(scaled)
    }

    /// Whether the source is resampled through its crop, rotation, zoom and pan, rather than
    /// plainly resized.
    pub open spec fn edits(self) -> bool {
        let s = self.source;
        ||| !s.crop@[0].equal(Real32::of(0))
        ||| !s.crop@[1].equal(Real32::of(0))
        ||| !s.crop@[2].equal(Real32::of(0))
        ||| !s.crop@[3].equal(Real32::of(0))
        ||| !s.rotation.equal(Real32::of(0))
        ||| !s.zoom.equal(Real32::of(1))
        ||| !s.position@[0].equal(Real32::of(0))
        ||| !s.position@[1].equal(Real32::of(0))
        ||| s.checkerboard
    }

    pub fn edits_source(&self) -> (r: bool)
        ensures
            r == self.edits(),
    {
        let s: SourceEdit = self.source;
        let none: Real32 = Real32::from_integer(0);
        let unit: Real32 = Real32::from_integer(1);
        !s.crop[0].same(none) || !s.crop[1].same(none) || !s.crop[2].same(none) || !s.crop[3].same(
            none,
        ) || !s.rotation.same(none) || !s.zoom.same(unit) || !s.position[0].same(none)
            || !s.position[1].same(none) || s.checkerboard
    }

    /// Whether the YIQ grade does anything; neutral values leave the signal untouched.
    pub open spec fn graded(self) -> bool {
        !self.hue.equal(Real32::of(0)) || !self.chroma.equal(Real32::of(1))
    }

    pub fn grades(&self) -> (r: bool)
        ensures
            r == self.graded(),
    {
        !self.hue.same(Real32::from_integer(0)) || !self.chroma.same(Real32::from_integer(1))
    }

    /// How much wider than the tube a signal's picture is.
    pub open spec fn shape(self, signal: (u32, u32)) -> Real32 {
        Real32::of(signal.0 as nat).over(Real32::of(signal.1 as nat)).times(self.pixel_aspect).over(
            Real32 { bits: 0x3faa_aaab },
        )
    }

    pub open spec fn uv_of(self, signal: (u32, u32)) -> (Real32, Real32) {
        let ratio = self.shape(signal);
        let wide = Real32::of(1).up_to(ratio);
        let narrowed = (Real32::of(1).over(ratio), Real32::of(1));
        let lowered = (Real32::of(1), ratio);
        match self.fit {
            Fit::Reference => lowered,
            Fit::Stretch => (Real32::of(1), Real32::of(1)),
            Fit::Contain => if wide {
                lowered
            } else {
                narrowed
            },
            Fit::Cover => if wide {
                narrowed
            } else {
                lowered
            },
        }
    }

    /// How the tube's coordinates are scaled for a signal to fit it.
    pub fn uv_scale(&self, signal: (u32, u32)) -> (r: (Real32, Real32))
        ensures
            r == self.uv_of(signal),
    {
        let unit: Real32 = Real32::from_integer(1);
        let ratio: Real32 = Real32::from_integer(signal.0 as u64).div(
            Real32::from_integer(signal.1 as u64),
        ).mul(self.pixel_aspect).div(Real32 { bits: 0x3faa_aaab });
        let wide: bool = unit.at_most(ratio);
        match self.fit {
            Fit::Reference => (unit, ratio),
            Fit::Stretch => (unit, unit),
            Fit::Contain => if wide {
                (unit, ratio)
            } else {
                (unit.div(ratio), unit)
            },
            Fit::Cover => if wide {
                (unit.div(ratio), unit)
            } else {
                (unit, ratio)
            },
        }
    }
}

// -------------------------------------------------------------------------------------------
// Fitting the tube
// -------------------------------------------------------------------------------------------

/// How far 2^-90 and 2^100 are from 1.
proof fn lemma_far_units()
    ensures
        crate::float::unit_pow(-90) > 0,
        0x100_0000_0000 * crate::float::unit_pow(-90) <= crate::margin::unit(),
        0x100_0000_0000 * crate::margin::unit() <= crate::float::unit_pow(100),
{
    vstd::arithmetic::power2::lemma2_to64();
    vstd::arithmetic::power2::lemma2_to64_rest();
    crate::float::lemma_unit_pow_adds(-90, 40);
    crate::float::lemma_unit_pow_adds(0, 40);
    crate::float::lemma_unit_pow_grows(-50, 0);
    crate::float::lemma_unit_pow_grows(40, 100);
    let (t, u) = (crate::float::unit_pow(-90), crate::float::unit_pow(0));
    assert(t * 0x100_0000_0000 == 0x100_0000_0000 * t && u * 0x100_0000_0000 == 0x100_0000_0000 * u)
        by (nonlinear_arith);
}

/// A signal's columns over its rows, as exactly as that is held.
pub proof fn lemma_near_ratio(w: u32, h: u32) -> (q: Real32)
    requires
        0 < w <= 16384,
        0 < h <= 16384,
    ensures
        q == Real32::of(w as nat).over(Real32::of(h as nat)),
        q.finite(),
        !crate::float::Format::Single.negative(q.at()),
        crate::margin::about(
            crate::margin::worth(q),
            (w * crate::margin::unit()) * crate::margin::unit(),
            h * crate::margin::unit(),
            1,
        ),
        crate::margin::unit() <= 0x8000 * crate::margin::worth(q),
        crate::margin::worth(q) <= 0x8000 * crate::margin::unit(),
{
    reveal(Real32::of);
    reveal(Real32::over);
    reveal(Real32::finite);
    lemma_far_units();
    let f = crate::float::Format::Single;
    crate::float::small_integers_are_exact(f, w as nat);
    crate::float::small_integers_are_exact(f, h as nat);
    let q = Real32::of(w as nat).over(Real32::of(h as nat));
    let u = crate::margin::unit();
    let (x, y) = (w * u, h * u);
    let (low, high) = (crate::float::unit_pow(-90) as int, crate::float::unit_pow(100) as int);
    let (wi, hi) = (w as int, h as int);
    assert(u <= x <= 16384 * u && u <= y <= 16384 * u) by (nonlinear_arith)
        requires
            x == wi * u,
            y == hi * u,
            1 <= wi <= 16384,
            1 <= hi <= 16384,
            u > 0,
    ;
    assert(y * low <= x * u < y * high) by (nonlinear_arith)
        requires
            u <= x <= 16384 * u,
            u <= y <= 16384 * u,
            0 < low,
            0x100_0000_0000 * low <= u,
            0x100_0000_0000 * u <= high,
            u > 0,
    ;
    crate::margin::quotients_are_relative(f, f.of(w as nat), f.of(h as nat));
    let v = crate::margin::worth(q);
    let xu = x * u;
    let vy = v * y;
    assert(f.value(f.of(w as nat)) == x && f.value(f.of(h as nat)) == y);
    assert(xu > 0) by (nonlinear_arith)
        requires
            xu == x * u,
            x >= u,
            u > 0,
    ;
    assert(crate::margin::within(vy * 0x100_0000, xu * 0x100_0000, xu));
    assert(xu <= 2 * vy && vy <= 2 * xu);
    assert(u <= 0x8000 * v) by (nonlinear_arith)
        requires
            x * u <= 2 * (v * y),
            u <= x,
            y <= 16384 * u,
            u > 0,
            v > 0,
    ;
    assert(v <= 0x8000 * u) by (nonlinear_arith)
        requires
            v * y <= 2 * (x * u),
            x <= 16384 * u,
            u <= y,
            u > 0,
            v > 0,
    ;
    q
}

/// How much wider than the tube a signal's picture is: as wide as its columns over its rows times
/// the aspect of its pixels say, over 4:3, as exactly as that is held.
proof fn lemma_near_shape(c: Config, signal: (u32, u32)) -> (q: Real32)
    requires
        0 < signal.0 <= 16384,
        0 < signal.1 <= 16384,
        c.pixel_aspect.finite(),
        crate::margin::unit() <= 16 * crate::margin::worth(c.pixel_aspect),
        crate::margin::worth(c.pixel_aspect) <= 16 * crate::margin::unit(),
    ensures
        q == c.shape(signal),
        q.finite(),
        !crate::float::Format::Single.negative(q.at()),
        crate::margin::worth(q) > 0,
        crate::margin::unit() <= 0x40_0000 * crate::margin::worth(q),
        crate::margin::worth(q) <= 0x40_0000 * crate::margin::unit(),
        crate::margin::about(
            crate::margin::worth(q),
            3 * (signal.0 * crate::margin::worth(c.pixel_aspect)),
            4 * signal.1,
            6,
        ),
{
    reveal(Real32::times);
    reveal(Real32::over);
    reveal(Real32::finite);
    lemma_far_units();
    let f = crate::float::Format::Single;
    let u = crate::margin::unit();
    let q1 = lemma_near_ratio(signal.0, signal.1);
    let aspect = c.pixel_aspect;
    let a = crate::margin::worth(aspect);
    let v1 = crate::margin::worth(q1);
    let (low, high) = (crate::float::unit_pow(-90) as int, crate::float::unit_pow(100) as int);
    let v1a = v1 * a;
    assert(u * u <= 0x8_0000 * v1a && v1a <= 0x8_0000 * (u * u)) by (nonlinear_arith)
        requires
            v1a == v1 * a,
            u <= 0x8000 * v1,
            v1 <= 0x8000 * u,
            u <= 16 * a,
            a <= 16 * u,
            u > 0,
            v1 > 0,
            a > 0,
    ;
    assert(low * u <= v1a < high * u) by (nonlinear_arith)
        requires
            u * u <= 0x8_0000 * v1a,
            v1a <= 0x8_0000 * (u * u),
            0 < low,
            0x100_0000_0000 * low <= u,
            0x100_0000_0000 * u <= high,
            u > 0,
    ;
    lemma_positive(aspect);
    crate::margin::products_are_relative(f, q1.at(), aspect.at());
    let q2 = q1.times(aspect);
    let v2 = crate::margin::worth(q2);
    let v2u = v2 * u;
    assert(v1a <= 2 * v2u && v2u <= 2 * v1a);
    assert(u <= 0x10_0000 * v2 && v2 <= 0x10_0000 * u) by (nonlinear_arith)
        requires
            v1a <= 2 * (v2 * u),
            v2 * u <= 2 * v1a,
            u * u <= 0x8_0000 * v1a,
            v1a <= 0x8_0000 * (u * u),
            u > 0,
    ;
    let tube = Real32 { bits: 0x3faa_aaab };
    vstd::arithmetic::power2::lemma2_to64();
    crate::margin::lemma_literal(0x3faa_aaab, 11184811, 23, 0x80_0000);
    let t = crate::margin::worth(tube);
    assert(u < t < 2 * u);
    assert(t * low <= v2 * u < t * high) by (nonlinear_arith)
        requires
            u <= 0x10_0000 * v2,
            v2 <= 0x10_0000 * u,
            u < t < 2 * u,
            0 < low,
            0x100_0000_0000 * low <= u,
            0x100_0000_0000 * u <= high,
            u > 0,
    ;
    crate::margin::quotients_are_relative(f, q2.at(), tube.at());
    let q = q2.over(tube);
    let v = crate::margin::worth(q);
    let vt = v * t;
    assert(v2u <= 2 * vt && vt <= 2 * v2u);
    assert(u <= 0x40_0000 * v && v <= 0x40_0000 * u) by (nonlinear_arith)
        requires
            v2 * u <= 2 * (v * t),
            v * t <= 2 * (v2 * u),
            u <= 0x10_0000 * v2,
            v2 <= 0x10_0000 * u,
            u < t < 2 * u,
            u > 0,
            v > 0,
    ;
    let (w, h) = (signal.0 as int, signal.1 as int);
    let (n1, d1) = ((w * u) * u, h * u);
    assert(n1 > 0 && d1 > 0) by (nonlinear_arith)
        requires
            n1 == (w * u) * u,
            d1 == h * u,
            w > 0,
            h > 0,
            u > 0,
    ;
    crate::margin::about_scales(v1, n1, d1, 1, v2, a, u);
    assert(n1 * a > 0 && d1 * u > 0) by (nonlinear_arith)
        requires
            n1 > 0,
            d1 > 0,
            a > 0,
            u > 0,
    ;
    crate::margin::about_scales(v2, n1 * a, d1 * u, 3, v, u, t);
    lemma_shape_simplifies(v, w, h, a, u, t);
    q
}

proof fn lemma_positive(x: Real32)
    requires
        x.finite(),
        crate::margin::worth(x) > 0,
    ensures
        !crate::float::Format::Single.negative(x.at()),
{
}

/// What the tube's 4:3 and the units come to.
proof fn lemma_shape_simplifies(v: int, w: int, h: int, a: int, u: int, t: int)
    requires
        crate::margin::about(v, (((w * u) * u) * a) * u, ((h * u) * u) * t, 5),
        t * 0x80_0000 == 11184811 * u,
        v > 0,
        w > 0,
        h > 0,
        a > 0,
        u > 0,
    ensures
        crate::margin::about(v, 3 * (w * a), 4 * h, 6),
{
    let m: int = 0x100_0000;
    let (wa, vh) = (w * a, v * h);
    let uuu = (u * u) * u;
    assert(uuu > 0) by (nonlinear_arith)
        requires
            uuu == (u * u) * u,
            u > 0,
    ;
    assert((((w * u) * u) * a) * u == wa * uuu) by (nonlinear_arith)
        requires
            wa == w * a,
            uuu == (u * u) * u,
    ;
    assert(((v * (((h * u) * u) * t)) * 0x80_0000) == (11184811 * vh) * uuu) by (nonlinear_arith)
        requires
            t * 0x80_0000 == 11184811 * u,
            vh == v * h,
            uuu == (u * u) * u,
    ;
    let left = (11184811 * vh) * m;
    let right = (0x80_0000 * wa) * m;
    let off = (0x80_0000 * 5) * wa;
    assert(left * uuu - right * uuu <= off * uuu && right * uuu - left * uuu <= off * uuu) by {
        let x = v * (((h * u) * u) * t);
        let y = wa * uuu;
        assert(left * uuu == (x * 0x80_0000) * m) by (nonlinear_arith)
            requires
                left == (11184811 * vh) * m,
                x * 0x80_0000 == (11184811 * vh) * uuu,
        ;
        assert(right * uuu == (0x80_0000 * y) * m) by (nonlinear_arith)
            requires
                right == (0x80_0000 * wa) * m,
                y == wa * uuu,
        ;
        assert(off * uuu == 0x80_0000 * (5 * y)) by (nonlinear_arith)
            requires
                off == (0x80_0000 * 5) * wa,
                y == wa * uuu,
        ;
    }
    assert(left - right <= off && right - left <= off) by (nonlinear_arith)
        requires
            left * uuu - right * uuu <= off * uuu,
            right * uuu - left * uuu <= off * uuu,
            uuu > 0,
    ;
    assert(wa > 0) by (nonlinear_arith)
        requires
            wa == w * a,
            w > 0,
            a > 0,
    ;
    assert(v * (4 * h) == 4 * vh) by (nonlinear_arith)
        requires
            vh == v * h,
    ;
    assert(left == 0x100_0000 * (11184811 * vh) && right == 0x100_0000 * (0x80_0000 * wa) && off
        == 0x280_0000 * wa) by (nonlinear_arith)
        requires
            left == (11184811 * vh) * m,
            right == (0x80_0000 * wa) * m,
            off == (0x80_0000 * 5) * wa,
            m == 0x100_0000,
    ;
    assert(crate::margin::within(0x100_0000 * (4 * vh), 0x100_0000 * (3 * wa), 18 * wa));
}

impl Config {
    /// Whether the aspect of the pixels is one that settings may have, and the signal one that is
    /// rendered.
    pub open spec fn fits(self, signal: (u32, u32)) -> bool {
        &&& 0 < signal.0 <= 16384
        &&& 0 < signal.1 <= 16384
        &&& self.pixel_aspect.finite()
        &&& crate::margin::unit() <= 16 * crate::margin::worth(self.pixel_aspect)
        &&& crate::margin::worth(self.pixel_aspect) <= 16 * crate::margin::unit()
    }
}

/// A picture that covers the tube leaves none of it empty: no coordinate of the tube is scaled past
/// the picture's edge, and along one side it ends exactly there.
pub proof fn a_covering_picture_leaves_no_gap(c: Config, signal: (u32, u32))
    requires
        c.fits(signal),
        c.fit == Fit::Cover,
    ensures
        c.uv_of(signal).0.up_to(Real32::of(1)),
        c.uv_of(signal).1.up_to(Real32::of(1)),
        c.uv_of(signal).0 == Real32::of(1) || c.uv_of(signal).1 == Real32::of(1),
{
    let q = lemma_near_shape(c, signal);
    lemma_sides_of_one(q);
}

/// A picture that the tube contains is all on it: no coordinate of the tube's edge is scaled to
/// inside the picture, and along one side it ends exactly there.
pub proof fn a_contained_picture_is_all_there(c: Config, signal: (u32, u32))
    requires
        c.fits(signal),
        c.fit == Fit::Contain,
    ensures
        Real32::of(1).up_to(c.uv_of(signal).0),
        Real32::of(1).up_to(c.uv_of(signal).1),
        c.uv_of(signal).0 == Real32::of(1) || c.uv_of(signal).1 == Real32::of(1),
{
    let q = lemma_near_shape(c, signal);
    lemma_sides_of_one(q);
}

/// One over a number is on the other side of one.
proof fn lemma_sides_of_one(q: Real32)
    requires
        q.finite(),
        !crate::float::Format::Single.negative(q.at()),
        crate::margin::worth(q) > 0,
    ensures
        Real32::of(1).up_to(Real32::of(1)),
        Real32::of(1).up_to(q) || q.up_to(Real32::of(1)),
        Real32::of(1).up_to(q) ==> Real32::of(1).over(q).up_to(Real32::of(1)),
        q.up_to(Real32::of(1)) ==> Real32::of(1).up_to(Real32::of(1).over(q)),
{
    reveal(Real32::of);
    reveal(Real32::over);
    reveal(Real32::up_to);
    reveal(Real32::finite);
    let f = crate::float::Format::Single;
    crate::float::one_is_exact(f);
    crate::float::small_integers_are_exact(f, 1);
    crate::float::order_follows_value(f, f.of(1), q.at());
    crate::float::order_follows_value(f, q.at(), f.of(1));
    if f.value(f.of(1)) <= f.value(q.at()) {
        crate::float::shares_are_at_most_one(f, f.of(1), q.at());
    }
    if f.value(q.at()) <= f.value(f.of(1)) {
        crate::margin::shares_are_at_least_one(f, f.of(1), q.at());
    }
    let r = f.quotient(f.of(1), q.at());
    if r <= f.infinity() {
        vstd::arithmetic::div_mod::lemma_small_mod(r, f.sign());
    }
}

/// A picture keeps its shape on the tube, 4:3 as it is, unless it is stretched to fill it: its
/// scales are in the ratio of its columns times the aspect of its pixels to its rows, over 4:3,
/// but for the last digits.
pub proof fn pictures_keep_their_shape(c: Config, signal: (u32, u32))
    requires
        c.fits(signal),
        c.fit != Fit::Stretch,
    ensures
        ({
            let (across, down) = c.uv_of(signal);
            let tall = (4 * signal.1) * (crate::margin::worth(down) * crate::margin::unit());
            let wide = (3 * signal.0) * (crate::margin::worth(c.pixel_aspect)
                * crate::margin::worth(across));
            across.finite() && down.finite() && crate::margin::within(
                0x8_0000 * tall,
                0x8_0000 * wide,
                tall,
            )
        }),
{
    let q = lemma_near_shape(c, signal);
    reveal(Real32::of);
    reveal(Real32::over);
    reveal(Real32::finite);
    lemma_far_units();
    let f = crate::float::Format::Single;
    crate::float::small_integers_are_exact(f, 1);
    let (u, v) = (crate::margin::unit(), crate::margin::worth(q));
    let a = crate::margin::worth(c.pixel_aspect);
    let (w, h) = (signal.0 as int, signal.1 as int);
    let n = 3 * (w * a);
    let d = 4 * h;
    assert(n > 0) by (nonlinear_arith)
        requires
            n == 3 * (w * a),
            w > 0,
            a > 0,
    ;
    let (low, high) = (crate::float::unit_pow(-90) as int, crate::float::unit_pow(100) as int);
    assert(v * low <= u * u < v * high) by (nonlinear_arith)
        requires
            u <= 0x40_0000 * v,
            v <= 0x40_0000 * u,
            0 < low,
            0x100_0000_0000 * low <= u,
            0x100_0000_0000 * u <= high,
            u > 0,
    ;
    crate::margin::quotients_are_relative(f, f.of(1), q.at());
    let y = f.value(f.quotient(f.of(1), q.at()));
    crate::margin::about_inverts(v, n, d, 6, y, u);
    let lowered = (Real32::of(1), q);
    let narrowed = (Real32::of(1).over(q), Real32::of(1));
    assert(c.uv_of(signal) == lowered || c.uv_of(signal) == narrowed);
    if c.uv_of(signal) == lowered {
        let tall = d * (v * u);
        let wide = (3 * w) * (a * u);
        assert(tall == (v * d) * u) by (nonlinear_arith)
            requires
                tall == d * (v * u),
        ;
        assert(wide == n * u) by (nonlinear_arith)
            requires
                wide == (3 * w) * (a * u),
                n == 3 * (w * a),
        ;
        let (x, m) = (v * d, 0x100_0000int);
        assert(tall * m - wide * m <= 6 * wide && wide * m - tall * m <= 6 * wide)
            by (nonlinear_arith)
            requires
                x * m - n * m <= 6 * n,
                n * m - x * m <= 6 * n,
                tall == x * u,
                wide == n * u,
                u > 0,
                m == 0x100_0000,
        ;
        assert(crate::margin::within(0x100_0000 * tall, 0x100_0000 * wide, 6 * wide)) by {
            assert(tall * m == 0x100_0000 * tall && wide * m == 0x100_0000 * wide)
                by (nonlinear_arith)
                requires
                    m == 0x100_0000,
            ;
        }
        assert(wide > 0) by (nonlinear_arith)
            requires
                wide == n * u,
                n > 0,
                u > 0,
        ;
        assert(crate::margin::within(0x8_0000 * tall, 0x8_0000 * wide, tall));
    } else {
        let tall = d * (u * u);
        let wide = (3 * w) * (a * y);
        assert(wide == y * n) by (nonlinear_arith)
            requires
                wide == (3 * w) * (a * y),
                n == 3 * (w * a),
        ;
        assert(crate::margin::within(0x100_0000 * wide, 0x100_0000 * tall, 25 * tall));
        assert(tall > 0) by (nonlinear_arith)
            requires
                tall == d * (u * u),
                d > 0,
                u > 0,
        ;
        lemma_less_exactly(wide, tall);
    }
}

proof fn lemma_less_exactly(x: int, y: int)
    requires
        y > 0,
        crate::margin::within(0x100_0000 * x, 0x100_0000 * y, 25 * y),
    ensures
        crate::margin::within(0x8_0000 * y, 0x8_0000 * x, y),
{
}

/// A picture that is stretched fills the tube exactly.
pub proof fn a_stretched_picture_fills_the_tube(c: Config, signal: (u32, u32))
    requires
        c.fit == Fit::Stretch,
    ensures
        c.uv_of(signal) == (Real32::of(1), Real32::of(1)),
{
}

/// The reference fit always takes the tube's width, and adds or cuts rows.
pub proof fn the_reference_fit_keeps_the_width(c: Config, signal: (u32, u32))
    requires
        c.fit == Fit::Reference,
    ensures
        c.uv_of(signal).0 == Real32::of(1),
{
}

/// A signal preset keeps the source's shape: the columns are those nearest to the source's ratio at
/// the preset's rows, and at least one.
pub proof fn presets_keep_the_aspect(source: (u32, u32), rows: u32)
    requires
        0 < source.0 <= 16384,
        0 < source.1 <= 16384,
        0 < rows <= 16384,
    ensures
        Config::columns(source, rows) > 0,
        Config::columns(source, rows) == 1 || crate::margin::within(
            2 * (Config::columns(source, rows) * source.1),
            2 * (source.0 * rows),
            source.1 as int,
        ),
{
    let (w, h, r) = (source.0 as nat, source.1 as nat, rows as nat);
    assert(w * r <= 16384 * 16384) by (nonlinear_arith)
        requires
            w <= 16384,
            r <= 16384,
    ;
    crate::margin::whole_products_are_exact(w, r);
    crate::margin::ratios_round_to_nearest(w * r, h, u32::MAX as nat);
}

/// A signal preset is named after its rows, whatever the source; "auto" takes the source's own, up
/// to 480.
pub proof fn presets_name_their_rows(signal: Seq<char>, height: u32)
    ensures
        signal != "auto"@ && Config::preset_rows(signal, height) is Some ==> signal
            == crate::text::decimal(Config::preset_rows(signal, height)->0 as nat) + "p"@,
        signal == "auto"@ ==> Config::preset_rows(signal, height) == Some(
            if height < 480 {
                height
            } else {
                480
            },
        ),
{
    reveal_strlit("240p");
    reveal_strlit("288p");
    reveal_strlit("360p");
    reveal_strlit("480p");
    reveal_strlit("576p");
    reveal_strlit("p");
    reveal_with_fuel(crate::text::decimal, 4);
    if signal != "auto"@ && Config::preset_rows(signal, height) is Some {
        assert(signal =~= crate::text::decimal(Config::preset_rows(signal, height)->0 as nat)
            + "p"@);
    }
}

/// A named output is 16:9, and one that names its rows has them.
pub proof fn named_outputs_are_wide(c: Config, input: (u32, u32))
    requires
        c.output@ == "reference"@ || c.output@ == "720p"@ || c.output@ == "1080p"@ || c.output@
            == "1440p"@ || c.output@ == "4k"@,
    ensures
        c.output_of(input) matches Ok(size) && size.0 * 9 == size.1 * 16 && (c.output@
            != "reference"@ && c.output@ != "4k"@ ==> c.output@ == crate::text::decimal(
            size.1 as nat,
        ) + "p"@) && (c.output@ == "4k"@ ==> size.1 == 2 * 1080),
{
    reveal_strlit("720p");
    reveal_strlit("1080p");
    reveal_strlit("1440p");
    reveal_strlit("4k");
    reveal_strlit("reference");
    reveal_strlit("p");
    reveal_with_fuel(crate::text::decimal, 5);
    assert("4k"@.len() == 2 && "720p"@.len() == 4 && "1080p"@.len() == 5 && "reference"@.len() == 9);
    assert("1080p"@[1] == '0' && "1440p"@[1] == '4');
    let size = c.output_of(input)->Ok_0;
    if c.output@ != "reference"@ && c.output@ != "4k"@ {
        assert(c.output@ =~= crate::text::decimal(size.1 as nat) + "p"@);
    }
}

/// A canvas that is scaled down keeps its shape: each side is the whole number nearest to its share
/// of the limit, and at least one.
pub proof fn scaled_canvases_keep_their_shape(size: (u32, u32), max_side: u32)
    requires
        0 < size.0 <= 16384,
        0 < size.1 <= 16384,
        0 < max_side <= size.0 || 0 < max_side <= size.1,
    ensures
        ({
            let longer = if size.0 > size.1 {
                size.0
            } else {
                size.1
            };
            let r = Config::scaled_size(size, Some(max_side));
            &&& r.0 > 0
            &&& r.1 > 0
            &&& r.0 == 1 || crate::margin::within(
                2 * (r.0 * longer),
                2 * (size.0 * max_side),
                longer as int,
            )
            &&& r.1 == 1 || crate::margin::within(
                2 * (r.1 * longer),
                2 * (size.1 * max_side),
                longer as int,
            )
        }),
{
    let longer = if size.0 > size.1 {
        size.0
    } else {
        size.1
    };
    crate::margin::shares_round_to_nearest(size.0 as nat, max_side as nat, longer as nat);
    crate::margin::shares_round_to_nearest(size.1 as nat, max_side as nat, longer as nat);
}

/// A look grades unless its hue is unturned and its chroma whole, and edits unless its crop, rotation
/// and position are nothing, its zoom is one and no checkerboard shows.
pub proof fn only_neutral_settings_do_nothing(c: Config)
    requires
        c.hue.finite(),
        c.chroma.finite(),
        c.source.fault() is None,
    ensures
        !c.graded() <==> crate::margin::worth(c.hue) == 0 && crate::margin::worth(c.chroma)
            == crate::margin::unit(),
        !c.edits() <==> {
            let s = c.source;
            &&& forall|k: int| 0 <= k < 4 ==> crate::margin::worth(#[trigger] s.crop@[k]) == 0
            &&& crate::margin::worth(s.rotation) == 0
            &&& crate::margin::worth(s.zoom) == crate::margin::unit()
            &&& crate::margin::worth(s.position@[0]) == 0
            &&& crate::margin::worth(s.position@[1]) == 0
            &&& !s.checkerboard
        },
{
    reveal(Real32::finite);
    reveal(Real32::equal);
    reveal(Real32::of);
    let f = crate::float::Format::Single;
    crate::float::small_integers_are_exact(f, 0);
    crate::float::small_integers_are_exact(f, 1);
    crate::float::one_is_exact(f);
    crate::margin::lemma_zero(f);
    crate::margin::lemma_units();
    crate::crt::source::lemma_halves();
    assert(f.of(0) == 0) by {
        assert(crate::float::scaled(0, 0) == 0);
    }
    let s = c.source;
    let none = Real32 { bits: 0 };
    let unit = Real32 { bits: 0x3f80_0000 };
    crate::margin::equal_is_worth(c.hue, none);
    crate::margin::equal_is_worth(c.chroma, unit);
    crate::margin::equal_is_worth(s.crop@[0], none);
    crate::margin::equal_is_worth(s.crop@[1], none);
    crate::margin::equal_is_worth(s.crop@[2], none);
    crate::margin::equal_is_worth(s.crop@[3], none);
    crate::margin::equal_is_worth(s.rotation, none);
    crate::margin::equal_is_worth(s.zoom, unit);
    crate::margin::equal_is_worth(s.position@[0], none);
    crate::margin::equal_is_worth(s.position@[1], none);
}

} // verus!
