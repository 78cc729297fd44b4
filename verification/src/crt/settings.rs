//! Every setting a preset holds, once, in the order the desktop shows them: its key in a saved
//! preset, its name, and for the numeric ones the values a preset may hold and how the desktop
//! edits them. Validation, the desktop's sliders and its lists of how two presets differ all
//! read this table, so a setting's name and limits cannot drift apart between them.
use crate::crt::config::{Config, MaskRepeats};
use crate::number::Real32;
use crate::text::owned;
use vstd::prelude::*;
use vstd::string::*;

verus! {

/// A group of controls in the desktop's settings panel.
#[derive(Clone, Copy, PartialEq, Eq, Structural, Debug)]
pub enum Section {
    Image,
    Color,
    Grade,
    Signal,
    Glass,
    Mask,
    Bloom,
    Lighting,
    Persistence,
}

/// The settings that are numbers, in the table's order.
#[derive(Clone, Copy, PartialEq, Eq, Structural, Debug)]
pub enum Field {
    PixelAspect,
    LutStrength,
    Palette,
    Hue,
    Chroma,
    Saturation,
    Sharpness,
    Bleed,
    Artifacts,
    NtscBlending,
    Barrel,
    Overscan,
    MaskOpacity,
    MaskBrightness,
    MaskRepeats,
    Dimming,
    Fov,
    Bloom,
    BloomPower,
    BloomSpread,
    Reflection,
    FrameColor,
    Diffuse,
    Specular,
    SpecularPower,
    Rim,
    LightPosition,
    Persistence,
}

/// One end of what a preset may hold: the number, as it is and as it is written, and whether
/// that number itself is left out.
#[derive(Clone, Copy, PartialEq, Eq, Debug)]
pub struct Limit {
    pub value: Real32,
    pub text: &'static str,
    pub open: bool,
}

#[derive(Clone, Copy, PartialEq, Eq, Structural, Debug)]
pub enum Control {
    /// A slider spanning this range. A typed value may go past it, as far as the setting allows.
    Slider { low: Real32, high: Real32, logarithmic: bool },
    /// A color picker over three values.
    Color,
}

#[derive(Clone, Copy, PartialEq, Eq, Debug)]
pub struct Setting {
    /// The key in a saved preset; a nested setting joins its keys with dots.
    pub key: &'static str,
    /// The name of the setting as a whole.
    pub label: &'static str,
    /// For a numeric setting, which one. The others -- sizes, choices, switches, source framing
    /// and the LUT -- are validated and drawn by hand.
    pub numbers: Option<Field>,
}

/// A number outside what a preset may hold.
#[derive(Clone, Copy, PartialEq, Eq, Structural, Debug)]
pub struct NumberFault {
    pub field: Field,
    pub index: usize,
    pub value: Real32,
}

impl Field {
    pub open spec fn section_of(self) -> Section {
        match self {
            Field::PixelAspect => Section::Image,
            Field::LutStrength => Section::Color,
            Field::Palette => Section::Color,
            Field::Hue => Section::Grade,
            Field::Chroma => Section::Grade,
            Field::Saturation => Section::Signal,
            Field::Sharpness => Section::Signal,
            Field::Bleed => Section::Signal,
            Field::Artifacts => Section::Signal,
            Field::NtscBlending => Section::Signal,
            Field::Barrel => Section::Glass,
            Field::Overscan => Section::Glass,
            Field::MaskOpacity => Section::Glass,
            Field::MaskBrightness => Section::Glass,
            Field::MaskRepeats => Section::Mask,
            Field::Dimming => Section::Glass,
            Field::Fov => Section::Glass,
            Field::Bloom => Section::Bloom,
            Field::BloomPower => Section::Bloom,
            Field::BloomSpread => Section::Bloom,
            Field::Reflection => Section::Bloom,
            Field::FrameColor => Section::Lighting,
            Field::Diffuse => Section::Lighting,
            Field::Specular => Section::Lighting,
            Field::SpecularPower => Section::Lighting,
            Field::Rim => Section::Lighting,
            Field::LightPosition => Section::Lighting,
            Field::Persistence => Section::Persistence,
        }
    }

    pub fn section(self) -> (r: Section)
        ensures
            r == self.section_of(),
    {
        match self {
            Field::PixelAspect => Section::Image,
            Field::LutStrength => Section::Color,
            Field::Palette => Section::Color,
            Field::Hue => Section::Grade,
            Field::Chroma => Section::Grade,
            Field::Saturation => Section::Signal,
            Field::Sharpness => Section::Signal,
            Field::Bleed => Section::Signal,
            Field::Artifacts => Section::Signal,
            Field::NtscBlending => Section::Signal,
            Field::Barrel => Section::Glass,
            Field::Overscan => Section::Glass,
            Field::MaskOpacity => Section::Glass,
            Field::MaskBrightness => Section::Glass,
            Field::MaskRepeats => Section::Mask,
            Field::Dimming => Section::Glass,
            Field::Fov => Section::Glass,
            Field::Bloom => Section::Bloom,
            Field::BloomPower => Section::Bloom,
            Field::BloomSpread => Section::Bloom,
            Field::Reflection => Section::Bloom,
            Field::FrameColor => Section::Lighting,
            Field::Diffuse => Section::Lighting,
            Field::Specular => Section::Lighting,
            Field::SpecularPower => Section::Lighting,
            Field::Rim => Section::Lighting,
            Field::LightPosition => Section::Lighting,
            Field::Persistence => Section::Persistence,
        }
    }

    /// What a preset may hold.
    pub open spec fn limits_of(self) -> (Limit, Limit) {
        match self {
            Field::PixelAspect => (Limit { value: Real32 { bits: 0x3dcc_cccd }, text: "0.1", open: false }, Limit { value: Real32 { bits: 0x4120_0000 }, text: "10", open: false }),
            Field::LutStrength => (Limit { value: Real32 { bits: 0 }, text: "0", open: false }, Limit { value: Real32 { bits: 0x3f80_0000 }, text: "1", open: false }),
            Field::Palette => (Limit { value: Real32 { bits: 0 }, text: "0", open: false }, Limit { value: Real32 { bits: 0x4120_0000 }, text: "10", open: false }),
            Field::Hue => (Limit { value: Real32 { bits: 0xc334_0000 }, text: "-180", open: false }, Limit { value: Real32 { bits: 0x4334_0000 }, text: "180", open: false }),
            Field::Chroma => (Limit { value: Real32 { bits: 0 }, text: "0", open: false }, Limit { value: Real32 { bits: 0x4000_0000 }, text: "2", open: false }),
            Field::Saturation => (Limit { value: Real32 { bits: 0 }, text: "0", open: false }, Limit { value: Real32 { bits: 0x4040_0000 }, text: "3", open: false }),
            Field::Sharpness => (Limit { value: Real32 { bits: 0 }, text: "0", open: false }, Limit { value: Real32 { bits: 0x4040_0000 }, text: "3", open: false }),
            Field::Bleed => (Limit { value: Real32 { bits: 0 }, text: "0", open: false }, Limit { value: Real32 { bits: 0x4000_0000 }, text: "2", open: false }),
            Field::Artifacts => (Limit { value: Real32 { bits: 0 }, text: "0", open: false }, Limit { value: Real32 { bits: 0x4000_0000 }, text: "2", open: false }),
            Field::NtscBlending => (Limit { value: Real32 { bits: 0 }, text: "0", open: false }, Limit { value: Real32 { bits: 0x3f80_0000 }, text: "1", open: false }),
            Field::Barrel => (Limit { value: Real32 { bits: 0xc000_0000 }, text: "-2", open: false }, Limit { value: Real32 { bits: 0x4000_0000 }, text: "2", open: false }),
            Field::Overscan => (Limit { value: Real32 { bits: 0x3dcc_cccd }, text: "0.1", open: false }, Limit { value: Real32 { bits: 0x4040_0000 }, text: "3", open: false }),
            Field::MaskOpacity => (Limit { value: Real32 { bits: 0 }, text: "0", open: false }, Limit { value: Real32 { bits: 0x3f80_0000 }, text: "1", open: false }),
            Field::MaskBrightness => (Limit { value: Real32 { bits: 0 }, text: "0", open: false }, Limit { value: Real32 { bits: 0x4000_0000 }, text: "2", open: false }),
            Field::MaskRepeats => (Limit { value: Real32 { bits: 0 }, text: "0", open: true }, Limit { value: Real32 { bits: 0x4680_0000 }, text: "16384", open: false }),
            Field::Dimming => (Limit { value: Real32 { bits: 0 }, text: "0", open: false }, Limit { value: Real32 { bits: 0x3f80_0000 }, text: "1", open: false }),
            Field::Fov => (Limit { value: Real32 { bits: 0x40a0_0000 }, text: "5", open: false }, Limit { value: Real32 { bits: 0x42b4_0000 }, text: "90", open: false }),
            Field::Bloom => (Limit { value: Real32 { bits: 0 }, text: "0", open: false }, Limit { value: Real32 { bits: 0x4000_0000 }, text: "2", open: false }),
            Field::BloomPower => (Limit { value: Real32 { bits: 0x3dcc_cccd }, text: "0.1", open: false }, Limit { value: Real32 { bits: 0x4100_0000 }, text: "8", open: false }),
            Field::BloomSpread => (Limit { value: Real32 { bits: 0 }, text: "0", open: false }, Limit { value: Real32 { bits: 0x3e4c_cccd }, text: "0.2", open: false }),
            Field::Reflection => (Limit { value: Real32 { bits: 0 }, text: "0", open: false }, Limit { value: Real32 { bits: 0x4000_0000 }, text: "2", open: false }),
            Field::FrameColor => (Limit { value: Real32 { bits: 0 }, text: "0", open: false }, Limit { value: Real32 { bits: 0x3f80_0000 }, text: "1", open: false }),
            Field::Diffuse => (Limit { value: Real32 { bits: 0 }, text: "0", open: false }, Limit { value: Real32 { bits: 0x4000_0000 }, text: "2", open: false }),
            Field::Specular => (Limit { value: Real32 { bits: 0 }, text: "0", open: false }, Limit { value: Real32 { bits: 0x4000_0000 }, text: "2", open: false }),
            Field::SpecularPower => (Limit { value: Real32 { bits: 0x3f80_0000 }, text: "1", open: false }, Limit { value: Real32 { bits: 0x4348_0000 }, text: "200", open: false }),
            Field::Rim => (Limit { value: Real32 { bits: 0 }, text: "0", open: false }, Limit { value: Real32 { bits: 0x4000_0000 }, text: "2", open: false }),
            Field::LightPosition => (Limit { value: Real32 { bits: 0xc47a_0000 }, text: "-1000", open: false }, Limit { value: Real32 { bits: 0x447a_0000 }, text: "1000", open: false }),
            Field::Persistence => (Limit { value: Real32 { bits: 0 }, text: "0", open: false }, Limit { value: Real32 { bits: 0x3f80_0000 }, text: "1", open: true }),
        }
    }

    pub fn limits(self) -> (r: (Limit, Limit))
        ensures
            r == self.limits_of(),
    {
        match self {
            Field::PixelAspect => (Limit { value: Real32 { bits: 0x3dcc_cccd }, text: "0.1", open: false }, Limit { value: Real32 { bits: 0x4120_0000 }, text: "10", open: false }),
            Field::LutStrength => (Limit { value: Real32 { bits: 0 }, text: "0", open: false }, Limit { value: Real32 { bits: 0x3f80_0000 }, text: "1", open: false }),
            Field::Palette => (Limit { value: Real32 { bits: 0 }, text: "0", open: false }, Limit { value: Real32 { bits: 0x4120_0000 }, text: "10", open: false }),
            Field::Hue => (Limit { value: Real32 { bits: 0xc334_0000 }, text: "-180", open: false }, Limit { value: Real32 { bits: 0x4334_0000 }, text: "180", open: false }),
            Field::Chroma => (Limit { value: Real32 { bits: 0 }, text: "0", open: false }, Limit { value: Real32 { bits: 0x4000_0000 }, text: "2", open: false }),
            Field::Saturation => (Limit { value: Real32 { bits: 0 }, text: "0", open: false }, Limit { value: Real32 { bits: 0x4040_0000 }, text: "3", open: false }),
            Field::Sharpness => (Limit { value: Real32 { bits: 0 }, text: "0", open: false }, Limit { value: Real32 { bits: 0x4040_0000 }, text: "3", open: false }),
            Field::Bleed => (Limit { value: Real32 { bits: 0 }, text: "0", open: false }, Limit { value: Real32 { bits: 0x4000_0000 }, text: "2", open: false }),
            Field::Artifacts => (Limit { value: Real32 { bits: 0 }, text: "0", open: false }, Limit { value: Real32 { bits: 0x4000_0000 }, text: "2", open: false }),
            Field::NtscBlending => (Limit { value: Real32 { bits: 0 }, text: "0", open: false }, Limit { value: Real32 { bits: 0x3f80_0000 }, text: "1", open: false }),
            Field::Barrel => (Limit { value: Real32 { bits: 0xc000_0000 }, text: "-2", open: false }, Limit { value: Real32 { bits: 0x4000_0000 }, text: "2", open: false }),
            Field::Overscan => (Limit { value: Real32 { bits: 0x3dcc_cccd }, text: "0.1", open: false }, Limit { value: Real32 { bits: 0x4040_0000 }, text: "3", open: false }),
            Field::MaskOpacity => (Limit { value: Real32 { bits: 0 }, text: "0", open: false }, Limit { value: Real32 { bits: 0x3f80_0000 }, text: "1", open: false }),
            Field::MaskBrightness => (Limit { value: Real32 { bits: 0 }, text: "0", open: false }, Limit { value: Real32 { bits: 0x4000_0000 }, text: "2", open: false }),
            Field::MaskRepeats => (Limit { value: Real32 { bits: 0 }, text: "0", open: true }, Limit { value: Real32 { bits: 0x4680_0000 }, text: "16384", open: false }),
            Field::Dimming => (Limit { value: Real32 { bits: 0 }, text: "0", open: false }, Limit { value: Real32 { bits: 0x3f80_0000 }, text: "1", open: false }),
            Field::Fov => (Limit { value: Real32 { bits: 0x40a0_0000 }, text: "5", open: false }, Limit { value: Real32 { bits: 0x42b4_0000 }, text: "90", open: false }),
            Field::Bloom => (Limit { value: Real32 { bits: 0 }, text: "0", open: false }, Limit { value: Real32 { bits: 0x4000_0000 }, text: "2", open: false }),
            Field::BloomPower => (Limit { value: Real32 { bits: 0x3dcc_cccd }, text: "0.1", open: false }, Limit { value: Real32 { bits: 0x4100_0000 }, text: "8", open: false }),
            Field::BloomSpread => (Limit { value: Real32 { bits: 0 }, text: "0", open: false }, Limit { value: Real32 { bits: 0x3e4c_cccd }, text: "0.2", open: false }),
            Field::Reflection => (Limit { value: Real32 { bits: 0 }, text: "0", open: false }, Limit { value: Real32 { bits: 0x4000_0000 }, text: "2", open: false }),
            Field::FrameColor => (Limit { value: Real32 { bits: 0 }, text: "0", open: false }, Limit { value: Real32 { bits: 0x3f80_0000 }, text: "1", open: false }),
            Field::Diffuse => (Limit { value: Real32 { bits: 0 }, text: "0", open: false }, Limit { value: Real32 { bits: 0x4000_0000 }, text: "2", open: false }),
            Field::Specular => (Limit { value: Real32 { bits: 0 }, text: "0", open: false }, Limit { value: Real32 { bits: 0x4000_0000 }, text: "2", open: false }),
            Field::SpecularPower => (Limit { value: Real32 { bits: 0x3f80_0000 }, text: "1", open: false }, Limit { value: Real32 { bits: 0x4348_0000 }, text: "200", open: false }),
            Field::Rim => (Limit { value: Real32 { bits: 0 }, text: "0", open: false }, Limit { value: Real32 { bits: 0x4000_0000 }, text: "2", open: false }),
            Field::LightPosition => (Limit { value: Real32 { bits: 0xc47a_0000 }, text: "-1000", open: false }, Limit { value: Real32 { bits: 0x447a_0000 }, text: "1000", open: false }),
            Field::Persistence => (Limit { value: Real32 { bits: 0 }, text: "0", open: false }, Limit { value: Real32 { bits: 0x3f80_0000 }, text: "1", open: true }),
        }
    }

    pub open spec fn control_of(self) -> Control {
        match self {
            Field::PixelAspect => Control::Slider {
                low: Real32 { bits: 0x3dcc_cccd },
                high: Real32 { bits: 0x4120_0000 },
                logarithmic: false,
            },
            Field::LutStrength => Control::Slider {
                low: Real32 { bits: 0 },
                high: Real32 { bits: 0x3f80_0000 },
                logarithmic: false,
            },
            Field::Palette => Control::Slider {
                low: Real32 { bits: 0 },
                high: Real32 { bits: 0x4120_0000 },
                logarithmic: false,
            },
            Field::Hue => Control::Slider {
                low: Real32 { bits: 0xc334_0000 },
                high: Real32 { bits: 0x4334_0000 },
                logarithmic: false,
            },
            Field::Chroma => Control::Slider {
                low: Real32 { bits: 0 },
                high: Real32 { bits: 0x4000_0000 },
                logarithmic: false,
            },
            Field::Saturation => Control::Slider {
                low: Real32 { bits: 0 },
                high: Real32 { bits: 0x4040_0000 },
                logarithmic: false,
            },
            Field::Sharpness => Control::Slider {
                low: Real32 { bits: 0 },
                high: Real32 { bits: 0x4040_0000 },
                logarithmic: false,
            },
            Field::Bleed => Control::Slider {
                low: Real32 { bits: 0 },
                high: Real32 { bits: 0x4000_0000 },
                logarithmic: false,
            },
            Field::Artifacts => Control::Slider {
                low: Real32 { bits: 0 },
                high: Real32 { bits: 0x4000_0000 },
                logarithmic: false,
            },
            Field::NtscBlending => Control::Slider {
                low: Real32 { bits: 0 },
                high: Real32 { bits: 0x3f80_0000 },
                logarithmic: false,
            },
            Field::Barrel => Control::Slider {
                low: Real32 { bits: 0xc000_0000 },
                high: Real32 { bits: 0x4000_0000 },
                logarithmic: false,
            },
            Field::Overscan => Control::Slider {
                low: Real32 { bits: 0x3dcc_cccd },
                high: Real32 { bits: 0x4040_0000 },
                logarithmic: false,
            },
            Field::MaskOpacity => Control::Slider {
                low: Real32 { bits: 0 },
                high: Real32 { bits: 0x3f80_0000 },
                logarithmic: false,
            },
            Field::MaskBrightness => Control::Slider {
                low: Real32 { bits: 0 },
                high: Real32 { bits: 0x4000_0000 },
                logarithmic: false,
            },
            Field::MaskRepeats => Control::Slider {
                low: Real32 { bits: 0x3f80_0000 },
                high: Real32 { bits: 0x4680_0000 },
                logarithmic: true,
            },
            Field::Dimming => Control::Slider {
                low: Real32 { bits: 0 },
                high: Real32 { bits: 0x3f80_0000 },
                logarithmic: false,
            },
            Field::Fov => Control::Slider {
                low: Real32 { bits: 0x40a0_0000 },
                high: Real32 { bits: 0x42b4_0000 },
                logarithmic: false,
            },
            Field::Bloom => Control::Slider {
                low: Real32 { bits: 0 },
                high: Real32 { bits: 0x4000_0000 },
                logarithmic: false,
            },
            Field::BloomPower => Control::Slider {
                low: Real32 { bits: 0x3dcc_cccd },
                high: Real32 { bits: 0x4100_0000 },
                logarithmic: false,
            },
            Field::BloomSpread => Control::Slider {
                low: Real32 { bits: 0 },
                high: Real32 { bits: 0x3e4c_cccd },
                logarithmic: false,
            },
            Field::Reflection => Control::Slider {
                low: Real32 { bits: 0 },
                high: Real32 { bits: 0x4000_0000 },
                logarithmic: false,
            },
            Field::FrameColor => Control::Color,
            Field::Diffuse => Control::Slider {
                low: Real32 { bits: 0 },
                high: Real32 { bits: 0x4000_0000 },
                logarithmic: false,
            },
            Field::Specular => Control::Slider {
                low: Real32 { bits: 0 },
                high: Real32 { bits: 0x4000_0000 },
                logarithmic: false,
            },
            Field::SpecularPower => Control::Slider {
                low: Real32 { bits: 0x3f80_0000 },
                high: Real32 { bits: 0x4348_0000 },
                logarithmic: true,
            },
            Field::Rim => Control::Slider {
                low: Real32 { bits: 0 },
                high: Real32 { bits: 0x4000_0000 },
                logarithmic: false,
            },
            Field::LightPosition => Control::Slider {
                low: Real32 { bits: 0xc47a_0000 },
                high: Real32 { bits: 0x447a_0000 },
                logarithmic: false,
            },
            Field::Persistence => Control::Slider {
                low: Real32 { bits: 0 },
                high: Real32 { bits: 0x3f7f_be77 },
                logarithmic: false,
            },
        }
    }

    pub fn control(self) -> (r: Control)
        ensures
            r == self.control_of(),
    {
        match self {
            Field::PixelAspect => Control::Slider {
                low: Real32 { bits: 0x3dcc_cccd },
                high: Real32 { bits: 0x4120_0000 },
                logarithmic: false,
            },
            Field::LutStrength => Control::Slider {
                low: Real32 { bits: 0 },
                high: Real32 { bits: 0x3f80_0000 },
                logarithmic: false,
            },
            Field::Palette => Control::Slider {
                low: Real32 { bits: 0 },
                high: Real32 { bits: 0x4120_0000 },
                logarithmic: false,
            },
            Field::Hue => Control::Slider {
                low: Real32 { bits: 0xc334_0000 },
                high: Real32 { bits: 0x4334_0000 },
                logarithmic: false,
            },
            Field::Chroma => Control::Slider {
                low: Real32 { bits: 0 },
                high: Real32 { bits: 0x4000_0000 },
                logarithmic: false,
            },
            Field::Saturation => Control::Slider {
                low: Real32 { bits: 0 },
                high: Real32 { bits: 0x4040_0000 },
                logarithmic: false,
            },
            Field::Sharpness => Control::Slider {
                low: Real32 { bits: 0 },
                high: Real32 { bits: 0x4040_0000 },
                logarithmic: false,
            },
            Field::Bleed => Control::Slider {
                low: Real32 { bits: 0 },
                high: Real32 { bits: 0x4000_0000 },
                logarithmic: false,
            },
            Field::Artifacts => Control::Slider {
                low: Real32 { bits: 0 },
                high: Real32 { bits: 0x4000_0000 },
                logarithmic: false,
            },
            Field::NtscBlending => Control::Slider {
                low: Real32 { bits: 0 },
                high: Real32 { bits: 0x3f80_0000 },
                logarithmic: false,
            },
            Field::Barrel => Control::Slider {
                low: Real32 { bits: 0xc000_0000 },
                high: Real32 { bits: 0x4000_0000 },
                logarithmic: false,
            },
            Field::Overscan => Control::Slider {
                low: Real32 { bits: 0x3dcc_cccd },
                high: Real32 { bits: 0x4040_0000 },
                logarithmic: false,
            },
            Field::MaskOpacity => Control::Slider {
                low: Real32 { bits: 0 },
                high: Real32 { bits: 0x3f80_0000 },
                logarithmic: false,
            },
            Field::MaskBrightness => Control::Slider {
                low: Real32 { bits: 0 },
                high: Real32 { bits: 0x4000_0000 },
                logarithmic: false,
            },
            Field::MaskRepeats => Control::Slider {
                low: Real32 { bits: 0x3f80_0000 },
                high: Real32 { bits: 0x4680_0000 },
                logarithmic: true,
            },
            Field::Dimming => Control::Slider {
                low: Real32 { bits: 0 },
                high: Real32 { bits: 0x3f80_0000 },
                logarithmic: false,
            },
            Field::Fov => Control::Slider {
                low: Real32 { bits: 0x40a0_0000 },
                high: Real32 { bits: 0x42b4_0000 },
                logarithmic: false,
            },
            Field::Bloom => Control::Slider {
                low: Real32 { bits: 0 },
                high: Real32 { bits: 0x4000_0000 },
                logarithmic: false,
            },
            Field::BloomPower => Control::Slider {
                low: Real32 { bits: 0x3dcc_cccd },
                high: Real32 { bits: 0x4100_0000 },
                logarithmic: false,
            },
            Field::BloomSpread => Control::Slider {
                low: Real32 { bits: 0 },
                high: Real32 { bits: 0x3e4c_cccd },
                logarithmic: false,
            },
            Field::Reflection => Control::Slider {
                low: Real32 { bits: 0 },
                high: Real32 { bits: 0x4000_0000 },
                logarithmic: false,
            },
            Field::FrameColor => Control::Color,
            Field::Diffuse => Control::Slider {
                low: Real32 { bits: 0 },
                high: Real32 { bits: 0x4000_0000 },
                logarithmic: false,
            },
            Field::Specular => Control::Slider {
                low: Real32 { bits: 0 },
                high: Real32 { bits: 0x4000_0000 },
                logarithmic: false,
            },
            Field::SpecularPower => Control::Slider {
                low: Real32 { bits: 0x3f80_0000 },
                high: Real32 { bits: 0x4348_0000 },
                logarithmic: true,
            },
            Field::Rim => Control::Slider {
                low: Real32 { bits: 0 },
                high: Real32 { bits: 0x4000_0000 },
                logarithmic: false,
            },
            Field::LightPosition => Control::Slider {
                low: Real32 { bits: 0xc47a_0000 },
                high: Real32 { bits: 0x447a_0000 },
                logarithmic: false,
            },
            Field::Persistence => Control::Slider {
                low: Real32 { bits: 0 },
                high: Real32 { bits: 0x3f7f_be77 },
                logarithmic: false,
            },
        }
    }

    /// The name of one of its values: its own name within an array, else the setting's.
    pub open spec fn name_of(self, index: int) -> &'static str {
        match self {
            Field::PixelAspect => "Pixel aspect",
            Field::LutStrength => "LUT strength",
            Field::Palette => if index == 0 {
                "Tint"
            } else if index == 1 {
                "Tint I"
            } else if index == 2 {
                "Tint Q"
            } else {
                "NES palette (tint, I, Q)"
            },
            Field::Hue => "Hue (degrees)",
            Field::Chroma => "Chroma",
            Field::Saturation => "Saturation",
            Field::Sharpness => "Sharpness / ringing",
            Field::Bleed => "Color bleed",
            Field::Artifacts => "Composite artifacts",
            Field::NtscBlending => "NTSC blending",
            Field::Barrel => "Barrel distortion",
            Field::Overscan => "Overscan",
            Field::MaskOpacity => "Mask opacity",
            Field::MaskBrightness => "Mask brightness",
            Field::MaskRepeats => if index == 0 {
                "Mask columns"
            } else if index == 1 {
                "Mask rows"
            } else {
                "Mask columns, rows"
            },
            Field::Dimming => "Edge dimming",
            Field::Fov => "Camera field of view",
            Field::Bloom => "Bloom amount",
            Field::BloomPower => "Bloom power",
            Field::BloomSpread => "Bloom spread",
            Field::Reflection => "Edge reflection",
            Field::FrameColor => "Frame color",
            Field::Diffuse => "Diffuse light",
            Field::Specular => "Specular light",
            Field::SpecularPower => "Specular power",
            Field::Rim => "Rim light",
            Field::LightPosition => if index == 0 {
                "Light X"
            } else if index == 1 {
                "Light Y"
            } else if index == 2 {
                "Light Z"
            } else {
                "Light position (X, Y, Z)"
            },
            Field::Persistence => if index == 0 {
                "Red persistence"
            } else if index == 1 {
                "Green persistence"
            } else if index == 2 {
                "Blue persistence"
            } else {
                "Persistence (R, G, B)"
            },
        }
    }

    pub fn name(self, index: usize) -> (r: &'static str)
        ensures
            r == self.name_of(index as int),
    {
        match self {
            Field::PixelAspect => "Pixel aspect",
            Field::LutStrength => "LUT strength",
            Field::Palette => if index == 0 {
                "Tint"
            } else if index == 1 {
                "Tint I"
            } else if index == 2 {
                "Tint Q"
            } else {
                "NES palette (tint, I, Q)"
            },
            Field::Hue => "Hue (degrees)",
            Field::Chroma => "Chroma",
            Field::Saturation => "Saturation",
            Field::Sharpness => "Sharpness / ringing",
            Field::Bleed => "Color bleed",
            Field::Artifacts => "Composite artifacts",
            Field::NtscBlending => "NTSC blending",
            Field::Barrel => "Barrel distortion",
            Field::Overscan => "Overscan",
            Field::MaskOpacity => "Mask opacity",
            Field::MaskBrightness => "Mask brightness",
            Field::MaskRepeats => if index == 0 {
                "Mask columns"
            } else if index == 1 {
                "Mask rows"
            } else {
                "Mask columns, rows"
            },
            Field::Dimming => "Edge dimming",
            Field::Fov => "Camera field of view",
            Field::Bloom => "Bloom amount",
            Field::BloomPower => "Bloom power",
            Field::BloomSpread => "Bloom spread",
            Field::Reflection => "Edge reflection",
            Field::FrameColor => "Frame color",
            Field::Diffuse => "Diffuse light",
            Field::Specular => "Specular light",
            Field::SpecularPower => "Specular power",
            Field::Rim => "Rim light",
            Field::LightPosition => if index == 0 {
                "Light X"
            } else if index == 1 {
                "Light Y"
            } else if index == 2 {
                "Light Z"
            } else {
                "Light position (X, Y, Z)"
            },
            Field::Persistence => if index == 0 {
                "Red persistence"
            } else if index == 1 {
                "Green persistence"
            } else if index == 2 {
                "Blue persistence"
            } else {
                "Persistence (R, G, B)"
            },
        }
    }

    /// Whether a preset may hold a number here.
    pub open spec fn accepts(self, value: Real32) -> bool {
        let (low, high) = self.limits_of();
        &&& if low.open {
            low.value.below(value)
        } else {
            low.value.up_to(value)
        }
        &&& if high.open {
            value.below(high.value)
        } else {
            value.up_to(high.value)
        }
    }

    pub fn holds(self, value: Real32) -> (r: bool)
        ensures
            r == self.accepts(value),
    {
        let (low, high): (Limit, Limit) = self.limits();
        let above: bool = if low.open {
            low.value.less(value)
        } else {
            low.value.at_most(value)
        };
        let below: bool = if high.open {
            value.less(high.value)
        } else {
            value.at_most(high.value)
        };
        above && below
    }

    /// What a preset may hold, in words.
    pub open spec fn description(self) -> Seq<char> {
        let (low, high) = self.limits_of();
        (if low.open {
            "above "@
        } else {
            "at least "@
        }) + low.text@ + (if high.open {
            " and below "@
        } else {
            " and at most "@
        }) + high.text@
    }

    pub fn describe(self) -> (r: String)
        ensures
            r@ == self.description(),
    {
        let (low, high): (Limit, Limit) = self.limits();
        let mut r: String = if low.open {
            owned("above ")
        } else {
            owned("at least ")
        };
        r.append(low.text);
        if high.open {
            r.append(" and below ");
        } else {
            r.append(" and at most ");
        }
        r.append(high.text);
        r
    }
}

impl NumberFault {
    /// The refusal in words, with the number as `value` writes it.
    pub open spec fn said(self, value: Seq<char>) -> Seq<char> {
        self.field.name_of(self.index as int)@ + " must be "@ + self.field.description()
            + ", not "@ + value
    }

    pub fn message(&self, value: &str) -> (r: String)
        ensures
            r@ == self.said(value@),
    {
        let mut r: String = owned(self.field.name(self.index));
        r.append(" must be ");
        let limits: String = self.field.describe();
        r.append(limits.as_str());
        r.append(", not ");
        r.append(value);
        r
    }
}

impl Setting {
    /// The name of one of its values: its own name within an array, else the setting's.
    pub open spec fn value_name_of(self, index: int) -> &'static str {
        match self.numbers {
            Some(field) => field.name_of(index),
            None => self.label,
        }
    }

    pub fn value_name(&self, index: usize) -> (r: &'static str)
        ensures
            r == self.value_name_of(index as int),
    {
        match self.numbers {
            Some(field) => field.name(index),
            None => self.label,
        }
    }
}

impl Config {
    /// The numbers of one setting: none where the mask follows the signal, or no NES palette is
    /// set.
    pub open spec fn numbers_of(self, field: Field) -> Seq<Real32> {
        match field {
            Field::PixelAspect => seq![self.pixel_aspect],
            Field::LutStrength => seq![self.lut_strength],
            Field::Palette => match self.palette {
                Some(p) => seq![p.tint, p.tint_i, p.tint_q],
                None => Seq::empty(),
            },
            Field::Hue => seq![self.hue],
            Field::Chroma => seq![self.chroma],
            Field::Saturation => seq![self.saturation],
            Field::Sharpness => seq![self.sharpness],
            Field::Bleed => seq![self.bleed],
            Field::Artifacts => seq![self.artifacts],
            Field::NtscBlending => seq![self.ntsc_blending],
            Field::Barrel => seq![self.barrel],
            Field::Overscan => seq![self.overscan],
            Field::MaskOpacity => seq![self.mask_opacity],
            Field::MaskBrightness => seq![self.mask_brightness],
            Field::MaskRepeats => match self.mask_repeats {
                MaskRepeats::Fixed(m) => seq![m@[0], m@[1]],
                MaskRepeats::Signal => Seq::empty(),
            },
            Field::Dimming => seq![self.dimming],
            Field::Fov => seq![self.fov],
            Field::Bloom => seq![self.bloom],
            Field::BloomPower => seq![self.bloom_power],
            Field::BloomSpread => seq![self.bloom_spread],
            Field::Reflection => seq![self.reflection],
            Field::FrameColor => seq![self.frame_color@[0], self.frame_color@[1], self.frame_color@[2]],
            Field::Diffuse => seq![self.diffuse],
            Field::Specular => seq![self.specular],
            Field::SpecularPower => seq![self.specular_power],
            Field::Rim => seq![self.rim],
            Field::LightPosition => seq![self.light_position@[0], self.light_position@[1], self.light_position@[2]],
            Field::Persistence => seq![self.persistence@[0], self.persistence@[1], self.persistence@[2]],
        }
    }

    pub fn numbers(&self, field: Field) -> (r: Vec<Real32>)
        ensures
            r@ == self.numbers_of(field),
    {
        match field {
            Field::PixelAspect => vec![self.pixel_aspect],
            Field::LutStrength => vec![self.lut_strength],
            Field::Palette => match self.palette {
                Some(p) => vec![p.tint, p.tint_i, p.tint_q],
                None => Vec::new(),
            },
            Field::Hue => vec![self.hue],
            Field::Chroma => vec![self.chroma],
            Field::Saturation => vec![self.saturation],
            Field::Sharpness => vec![self.sharpness],
            Field::Bleed => vec![self.bleed],
            Field::Artifacts => vec![self.artifacts],
            Field::NtscBlending => vec![self.ntsc_blending],
            Field::Barrel => vec![self.barrel],
            Field::Overscan => vec![self.overscan],
            Field::MaskOpacity => vec![self.mask_opacity],
            Field::MaskBrightness => vec![self.mask_brightness],
            Field::MaskRepeats => match self.mask_repeats {
                MaskRepeats::Fixed(m) => vec![m[0], m[1]],
                MaskRepeats::Signal => Vec::new(),
            },
            Field::Dimming => vec![self.dimming],
            Field::Fov => vec![self.fov],
            Field::Bloom => vec![self.bloom],
            Field::BloomPower => vec![self.bloom_power],
            Field::BloomSpread => vec![self.bloom_spread],
            Field::Reflection => vec![self.reflection],
            Field::FrameColor => vec![self.frame_color[0], self.frame_color[1], self.frame_color[2]],
            Field::Diffuse => vec![self.diffuse],
            Field::Specular => vec![self.specular],
            Field::SpecularPower => vec![self.specular_power],
            Field::Rim => vec![self.rim],
            Field::LightPosition => vec![self.light_position[0], self.light_position[1], self.light_position[2]],
            Field::Persistence => vec![self.persistence[0], self.persistence[1], self.persistence[2]],
        }
    }

    /// Sets one number of a setting.
    pub fn set_number(&mut self, field: Field, index: usize, value: Real32)
        requires
            index < old(self).numbers_of(field).len(),
        ensures
            final(self).numbers_of(field) =~= old(self).numbers_of(field).update(
                index as int,
                value,
            ),
            forall|other: Field|
                other != field ==> #[trigger] final(self).numbers_of(other) =~= old(
                    self,
                ).numbers_of(other),
            final(self).signal == old(self).signal,
            final(self).output == old(self).output,
            final(self).lut == old(self).lut,
            final(self).source == old(self).source,
            final(self).warmup == old(self).warmup,
            final(self).version == old(self).version,
            final(self).fit == old(self).fit && final(self).filter == old(self).filter,
            final(self).phase == old(self).phase,
            final(self).color_mode == old(self).color_mode,
            final(self).screen_only == old(self).screen_only,
            final(self).mask_antialias == old(self).mask_antialias,
            final(self).interlace == old(self).interlace,
    {
        match field {
            Field::PixelAspect => {
                self.pixel_aspect = value;
            },
            Field::LutStrength => {
                self.lut_strength = value;
            },
            Field::Palette => match self.palette {
                Some(mut p) => {
                    if index == 0 {
                        p.tint = value;
                    } else if index == 1 {
                        p.tint_i = value;
                    } else {
                        p.tint_q = value;
                    }
                    self.palette = Some(p);
                },
                None => {},
            },
            Field::Hue => {
                self.hue = value;
            },
            Field::Chroma => {
                self.chroma = value;
            },
            Field::Saturation => {
                self.saturation = value;
            },
            Field::Sharpness => {
                self.sharpness = value;
            },
            Field::Bleed => {
                self.bleed = value;
            },
            Field::Artifacts => {
                self.artifacts = value;
            },
            Field::NtscBlending => {
                self.ntsc_blending = value;
            },
            Field::Barrel => {
                self.barrel = value;
            },
            Field::Overscan => {
                self.overscan = value;
            },
            Field::MaskOpacity => {
                self.mask_opacity = value;
            },
            Field::MaskBrightness => {
                self.mask_brightness = value;
            },
            Field::MaskRepeats => match self.mask_repeats {
                MaskRepeats::Fixed(mut m) => {
                    m[index] = value;
                    self.mask_repeats = MaskRepeats::Fixed(m);
                },
                MaskRepeats::Signal => {},
            },
            Field::Dimming => {
                self.dimming = value;
            },
            Field::Fov => {
                self.fov = value;
            },
            Field::Bloom => {
                self.bloom = value;
            },
            Field::BloomPower => {
                self.bloom_power = value;
            },
            Field::BloomSpread => {
                self.bloom_spread = value;
            },
            Field::Reflection => {
                self.reflection = value;
            },
            Field::FrameColor => {
                self.frame_color[index] = value;
            },
            Field::Diffuse => {
                self.diffuse = value;
            },
            Field::Specular => {
                self.specular = value;
            },
            Field::SpecularPower => {
                self.specular_power = value;
            },
            Field::Rim => {
                self.rim = value;
            },
            Field::LightPosition => {
                self.light_position[index] = value;
            },
            Field::Persistence => {
                self.persistence[index] = value;
            },
        }
    }
}

/// Every setting, in the desktop's order.
pub open spec fn table() -> Seq<Setting> {
    seq![
        Setting { key: "signal", label: "Signal", numbers: None },
        Setting { key: "output", label: "Export size", numbers: None },
        Setting { key: "fit", label: "Fit on 4:3 tube", numbers: None },
        Setting { key: "filter", label: "Resize filter", numbers: None },
        Setting { key: "pixel_aspect", label: "Pixel aspect", numbers: Some(Field::PixelAspect) },
        Setting { key: "screen_only", label: "Screen only", numbers: None },
        Setting { key: "source.crop", label: "Crop (left, top, right, bottom)", numbers: None },
        Setting { key: "source.rotation", label: "Rotation °", numbers: None },
        Setting { key: "source.zoom", label: "Source zoom", numbers: None },
        Setting { key: "source.position", label: "Pan (X, Y)", numbers: None },
        Setting { key: "source.background", label: "Transparency background", numbers: None },
        Setting { key: "source.checkerboard", label: "Checker background", numbers: None },
        Setting { key: "lut", label: "LUT", numbers: None },
        Setting { key: "lut_strength", label: "LUT strength", numbers: Some(Field::LutStrength) },
        Setting { key: "palette", label: "NES palette (tint, I, Q)", numbers: Some(Field::Palette) },
        Setting { key: "color_mode", label: "Color processing", numbers: None },
        Setting { key: "hue", label: "Hue (degrees)", numbers: Some(Field::Hue) },
        Setting { key: "chroma", label: "Chroma", numbers: Some(Field::Chroma) },
        Setting { key: "mask_antialias", label: "Filter mask when shrinking", numbers: None },
        Setting { key: "saturation", label: "Saturation", numbers: Some(Field::Saturation) },
        Setting { key: "sharpness", label: "Sharpness / ringing", numbers: Some(Field::Sharpness) },
        Setting { key: "bleed", label: "Color bleed", numbers: Some(Field::Bleed) },
        Setting { key: "artifacts", label: "Composite artifacts", numbers: Some(Field::Artifacts) },
        Setting { key: "ntsc_blending", label: "NTSC blending", numbers: Some(Field::NtscBlending) },
        Setting { key: "barrel", label: "Barrel distortion", numbers: Some(Field::Barrel) },
        Setting { key: "overscan", label: "Overscan", numbers: Some(Field::Overscan) },
        Setting { key: "mask_opacity", label: "Mask opacity", numbers: Some(Field::MaskOpacity) },
        Setting { key: "mask_brightness", label: "Mask brightness", numbers: Some(Field::MaskBrightness) },
        Setting { key: "mask_repeats", label: "Mask columns, rows", numbers: Some(Field::MaskRepeats) },
        Setting { key: "dimming", label: "Edge dimming", numbers: Some(Field::Dimming) },
        Setting { key: "fov", label: "Camera field of view", numbers: Some(Field::Fov) },
        Setting { key: "bloom", label: "Bloom amount", numbers: Some(Field::Bloom) },
        Setting { key: "bloom_power", label: "Bloom power", numbers: Some(Field::BloomPower) },
        Setting { key: "bloom_spread", label: "Bloom spread", numbers: Some(Field::BloomSpread) },
        Setting { key: "reflection", label: "Edge reflection", numbers: Some(Field::Reflection) },
        Setting { key: "frame_color", label: "Frame color", numbers: Some(Field::FrameColor) },
        Setting { key: "diffuse", label: "Diffuse light", numbers: Some(Field::Diffuse) },
        Setting { key: "specular", label: "Specular light", numbers: Some(Field::Specular) },
        Setting { key: "specular_power", label: "Specular power", numbers: Some(Field::SpecularPower) },
        Setting { key: "rim", label: "Rim light", numbers: Some(Field::Rim) },
        Setting { key: "light_position", label: "Light position (X, Y, Z)", numbers: Some(Field::LightPosition) },
        Setting { key: "persistence", label: "Persistence (R, G, B)", numbers: Some(Field::Persistence) },
        Setting { key: "warmup", label: "Warm-up ticks", numbers: None },
        Setting { key: "phase", label: "Phase", numbers: None },
        Setting { key: "interlace", label: "Interlaced fields", numbers: None },
    ]
}

pub fn settings() -> (r: Vec<Setting>)
    ensures
        r@ == table(),
{
    vec![
        Setting { key: "signal", label: "Signal", numbers: None },
        Setting { key: "output", label: "Export size", numbers: None },
        Setting { key: "fit", label: "Fit on 4:3 tube", numbers: None },
        Setting { key: "filter", label: "Resize filter", numbers: None },
        Setting { key: "pixel_aspect", label: "Pixel aspect", numbers: Some(Field::PixelAspect) },
        Setting { key: "screen_only", label: "Screen only", numbers: None },
        Setting { key: "source.crop", label: "Crop (left, top, right, bottom)", numbers: None },
        Setting { key: "source.rotation", label: "Rotation °", numbers: None },
        Setting { key: "source.zoom", label: "Source zoom", numbers: None },
        Setting { key: "source.position", label: "Pan (X, Y)", numbers: None },
        Setting { key: "source.background", label: "Transparency background", numbers: None },
        Setting { key: "source.checkerboard", label: "Checker background", numbers: None },
        Setting { key: "lut", label: "LUT", numbers: None },
        Setting { key: "lut_strength", label: "LUT strength", numbers: Some(Field::LutStrength) },
        Setting { key: "palette", label: "NES palette (tint, I, Q)", numbers: Some(Field::Palette) },
        Setting { key: "color_mode", label: "Color processing", numbers: None },
        Setting { key: "hue", label: "Hue (degrees)", numbers: Some(Field::Hue) },
        Setting { key: "chroma", label: "Chroma", numbers: Some(Field::Chroma) },
        Setting { key: "mask_antialias", label: "Filter mask when shrinking", numbers: None },
        Setting { key: "saturation", label: "Saturation", numbers: Some(Field::Saturation) },
        Setting { key: "sharpness", label: "Sharpness / ringing", numbers: Some(Field::Sharpness) },
        Setting { key: "bleed", label: "Color bleed", numbers: Some(Field::Bleed) },
        Setting { key: "artifacts", label: "Composite artifacts", numbers: Some(Field::Artifacts) },
        Setting { key: "ntsc_blending", label: "NTSC blending", numbers: Some(Field::NtscBlending) },
        Setting { key: "barrel", label: "Barrel distortion", numbers: Some(Field::Barrel) },
        Setting { key: "overscan", label: "Overscan", numbers: Some(Field::Overscan) },
        Setting { key: "mask_opacity", label: "Mask opacity", numbers: Some(Field::MaskOpacity) },
        Setting { key: "mask_brightness", label: "Mask brightness", numbers: Some(Field::MaskBrightness) },
        Setting { key: "mask_repeats", label: "Mask columns, rows", numbers: Some(Field::MaskRepeats) },
        Setting { key: "dimming", label: "Edge dimming", numbers: Some(Field::Dimming) },
        Setting { key: "fov", label: "Camera field of view", numbers: Some(Field::Fov) },
        Setting { key: "bloom", label: "Bloom amount", numbers: Some(Field::Bloom) },
        Setting { key: "bloom_power", label: "Bloom power", numbers: Some(Field::BloomPower) },
        Setting { key: "bloom_spread", label: "Bloom spread", numbers: Some(Field::BloomSpread) },
        Setting { key: "reflection", label: "Edge reflection", numbers: Some(Field::Reflection) },
        Setting { key: "frame_color", label: "Frame color", numbers: Some(Field::FrameColor) },
        Setting { key: "diffuse", label: "Diffuse light", numbers: Some(Field::Diffuse) },
        Setting { key: "specular", label: "Specular light", numbers: Some(Field::Specular) },
        Setting { key: "specular_power", label: "Specular power", numbers: Some(Field::SpecularPower) },
        Setting { key: "rim", label: "Rim light", numbers: Some(Field::Rim) },
        Setting { key: "light_position", label: "Light position (X, Y, Z)", numbers: Some(Field::LightPosition) },
        Setting { key: "persistence", label: "Persistence (R, G, B)", numbers: Some(Field::Persistence) },
        Setting { key: "warmup", label: "Warm-up ticks", numbers: None },
        Setting { key: "phase", label: "Phase", numbers: None },
        Setting { key: "interlace", label: "Interlaced fields", numbers: None },
    ]
}

/// The numeric settings, in the table's order.
pub open spec fn fields() -> Seq<Field> {
    seq![
        Field::PixelAspect,
        Field::LutStrength,
        Field::Palette,
        Field::Hue,
        Field::Chroma,
        Field::Saturation,
        Field::Sharpness,
        Field::Bleed,
        Field::Artifacts,
        Field::NtscBlending,
        Field::Barrel,
        Field::Overscan,
        Field::MaskOpacity,
        Field::MaskBrightness,
        Field::MaskRepeats,
        Field::Dimming,
        Field::Fov,
        Field::Bloom,
        Field::BloomPower,
        Field::BloomSpread,
        Field::Reflection,
        Field::FrameColor,
        Field::Diffuse,
        Field::Specular,
        Field::SpecularPower,
        Field::Rim,
        Field::LightPosition,
        Field::Persistence,
    ]
}

pub fn numeric_fields() -> (r: Vec<Field>)
    ensures
        r@ == fields(),
{
    vec![
        Field::PixelAspect,
        Field::LutStrength,
        Field::Palette,
        Field::Hue,
        Field::Chroma,
        Field::Saturation,
        Field::Sharpness,
        Field::Bleed,
        Field::Artifacts,
        Field::NtscBlending,
        Field::Barrel,
        Field::Overscan,
        Field::MaskOpacity,
        Field::MaskBrightness,
        Field::MaskRepeats,
        Field::Dimming,
        Field::Fov,
        Field::Bloom,
        Field::BloomPower,
        Field::BloomSpread,
        Field::Reflection,
        Field::FrameColor,
        Field::Diffuse,
        Field::Specular,
        Field::SpecularPower,
        Field::Rim,
        Field::LightPosition,
        Field::Persistence,
    ]
}

/// The first of some numbers, from `from` on, that a setting does not accept.
pub open spec fn fault_among(field: Field, numbers: Seq<Real32>, from: int) -> Option<NumberFault>
    decreases numbers.len() - from,
{
    if from >= numbers.len() {
        None
    } else if !field.accepts(numbers[from]) {
        Some(NumberFault { field, index: from as usize, value: numbers[from] })
    } else {
        fault_among(field, numbers, from + 1)
    }
}

/// The first number of a look, in the table's order from setting `from` on, that is not
/// accepted.
pub open spec fn fault_from(c: Config, from: int) -> Option<NumberFault>
    decreases fields().len() - from,
{
    if from >= fields().len() {
        None
    } else if let Some(fault) = fault_among(fields()[from], c.numbers_of(fields()[from]), 0) {
        Some(fault)
    } else {
        fault_from(c, from + 1)
    }
}

pub open spec fn number_fault(c: Config) -> Option<NumberFault> {
    fault_from(c, 0)
}

fn check(field: Field, numbers: &Vec<Real32>) -> (r: Option<NumberFault>)
    ensures
        r == fault_among(field, numbers@, 0),
{
    let mut i: usize = 0;
    while i < numbers.len()
        invariant
            i <= numbers@.len(),
            fault_among(field, numbers@, 0) == fault_among(field, numbers@, i as int),
        decreases numbers@.len() - i,
    {
        let value: Real32 = numbers[i];
        if !field.holds(value) {
            return Some(NumberFault { field, index: i, value });
        }
        i = i + 1;
    }
    None
}

/// Checks every numeric setting against what a preset may hold, naming the first that is not.
pub fn validate(c: &Config) -> (r: Result<(), NumberFault>)
    ensures
        r == match number_fault(*c) {
            None => Ok::<(), NumberFault>(()),
            Some(fault) => Err::<(), NumberFault>(fault),
        },
{
    let all: Vec<Field> = numeric_fields();
    let mut i: usize = 0;
    while i < all.len()
        invariant
            i <= all@.len(),
            all@ == fields(),
            number_fault(*c) == fault_from(*c, i as int),
        decreases all@.len() - i,
    {
        let field: Field = all[i];
        let numbers: Vec<Real32> = c.numbers(field);
        match check(field, &numbers) {
            Some(fault) => {
                return Err(fault);
            },
            None => {},
        }
        i = i + 1;
    }
    Ok(())
}

/// A look whose numbers pass holds only numbers that their settings accept.
pub proof fn accepted_numbers_are_within_limits(c: Config, at: int, index: int)
    requires
        number_fault(c) is None,
        0 <= at < fields().len(),
        0 <= index < c.numbers_of(fields()[at]).len(),
    ensures
        fields()[at].accepts(c.numbers_of(fields()[at])[index]),
{
    lemma_no_fault_from(c, 0, at);
    lemma_no_fault_among(fields()[at], c.numbers_of(fields()[at]), 0, index);
}

proof fn lemma_no_fault_from(c: Config, from: int, at: int)
    requires
        fault_from(c, from) is None,
        0 <= from <= at < fields().len(),
    ensures
        fault_among(fields()[at], c.numbers_of(fields()[at]), 0) is None,
    decreases at - from,
{
    if from < at {
        lemma_no_fault_from(c, from + 1, at);
    }
}

proof fn lemma_no_fault_among(field: Field, numbers: Seq<Real32>, from: int, index: int)
    requires
        fault_among(field, numbers, from) is None,
        0 <= from <= index < numbers.len(),
    ensures
        field.accepts(numbers[index]),
    decreases index - from,
{
    if from < index {
        lemma_no_fault_among(field, numbers, from + 1, index);
    }
}

} // verus!
