//! The command line: what a render is asked for, and what is refused before it starts.
use crate::crt::config::{Config, ConfigError, Filter, Fit, Phase, SizeError};
use crate::number::Real32;
use crate::path::has_extension;
use crate::text::{decimal_text, owned};
use vstd::prelude::*;

verus! {

/// What rendering runs on.
#[derive(Clone, Copy, Debug, PartialEq, Eq, Structural)]
pub enum Backend {
    /// Whatever modern one there is.
    Auto,
    Vulkan,
    Dx12,
    Metal,
}

pub open spec fn presets_said() -> Seq<char> {
    "Signal: original (256x224), auto (up to 480 rows, preserves aspect), native, 240p, 360p, 480p, WIDTHxHEIGHT\nOutput: reference (1600x900), 720p, 1080p, 1440p, 4k, match-input, WIDTHxHEIGHT\nUse config --general for square-pixel images and contain fitting. Default is CRTSim Reference."@
}

/// The sizes that can be asked for by name.
pub fn presets_text() -> (r: &'static str)
    ensures
        r@ == presets_said(),
{
    "Signal: original (256x224), auto (up to 480 rows, preserves aspect), native, 240p, 360p, 480p, WIDTHxHEIGHT\nOutput: reference (1600x900), 720p, 1080p, 1440p, 4k, match-input, WIDTHxHEIGHT\nUse config --general for square-pixel images and contain fitting. Default is CRTSim Reference."
}

/// Whether settings are those a new settings file starts with: the reference's, or for ordinary
/// pictures the reference's with another size, shape and fit.
pub open spec fn is_starting(c: Config, general: bool) -> bool {
    if general {
        &&& c.keeps_reference_tube()
        &&& c.signal@ == "auto"@
        &&& c.output@ == "1080p"@
        &&& c.fit == Fit::Contain
        &&& c.filter == Filter::Lanczos
        &&& c.pixel_aspect == Real32 { bits: 0x3f80_0000 }
        &&& c.saturation == Real32 { bits: 0x3fac_cccd }
        &&& c.mask_repeats == crate::crt::config::MaskRepeats::Signal
    } else {
        c.is_reference()
    }
}

/// The settings a new settings file starts with.
pub fn starting_config(general: bool) -> (r: Config)
    ensures
        is_starting(r, general),
{
    let mut c: Config = Config::default();
    if general {
        c.signal = owned("auto");
        c.output = owned("1080p");
        c.pixel_aspect = Real32 { bits: 0x3f80_0000 };
        c.fit = Fit::Contain;
        c.filter = Filter::Lanczos;
    }
    c
}

/// Why a render is not started.
#[derive(Clone, Copy, Debug, PartialEq, Eq, Structural)]
pub enum Refusal {
    /// There is a file at the output already.
    Exists,
    /// The output's name does not end in .png.
    Name,
    /// The directory for debugging is there already.
    Directory,
}

impl Refusal {
    pub open spec fn text(self) -> Seq<char> {
        match self {
            Refusal::Exists => "Output already exists; choose a new path"@,
            Refusal::Name => "Phase 0 output must use .png"@,
            Refusal::Directory => "debug directory must be new"@,
        }
    }

    pub fn message(self) -> (r: &'static str)
        ensures
            r@ == self.text(),
    {
        match self {
            Refusal::Exists => "Output already exists; choose a new path",
            Refusal::Name => "Phase 0 output must use .png",
            Refusal::Directory => "debug directory must be new",
        }
    }
}

/// Why a render to an output is not started, from whether the output is there, and whether the
/// directory for debugging is, if one is asked for.
pub open spec fn refusal(output: Seq<char>, there: bool, debug_there: Option<bool>) -> Option<
    Refusal,
> {
    if there {
        Some(Refusal::Exists)
    } else if !crate::path::extends_with(output, "png"@) {
        Some(Refusal::Name)
    } else if debug_there == Some(true) {
        Some(Refusal::Directory)
    } else {
        None
    }
}

/// Checks where a render is to be saved. Nothing is ever written over.
pub fn check_output(output: &str, there: bool, debug_there: Option<bool>) -> (r: Result<
    (),
    Refusal,
>)
    ensures
        r == match refusal(output@, there, debug_there) {
            Some(e) => Err::<(), Refusal>(e),
            None => Ok::<(), Refusal>(()),
        },
{
    if there {
        return Err(Refusal::Exists);
    }
    if !has_extension(output, "png") {
        return Err(Refusal::Name);
    }
    match debug_there {
        Some(true) => Err(Refusal::Directory),
        _ => Ok(()),
    }
}

/// What the command line says of a render beside its settings file.
#[derive(Debug)]
pub struct Overrides {
    pub signal: Option<String>,
    pub size: Option<String>,
    pub phase: Option<Phase>,
    pub warmup: Option<u32>,
}

impl Overrides {
    /// Settings with everything that is said in place of what they had.
    pub open spec fn over(self, c: Config) -> Config {
        Config {
            signal: match self.signal {
                Some(v) => v,
                None => c.signal,
            },
            output: match self.size {
                Some(v) => v,
                None => c.output,
            },
            phase: match self.phase {
                Some(v) => v,
                None => c.phase,
            },
            warmup: match self.warmup {
                Some(v) => v,
                None => c.warmup,
            },
            ..c
        }
    }

    /// The settings to render with, or what is wrong with them.
    pub fn apply(self, c: Config) -> (r: Result<Config, ConfigError>)
        ensures
            r == match self.over(c).fault() {
                Some(e) => Err::<Config, ConfigError>(e),
                None => Ok::<Config, ConfigError>(self.over(c)),
            },
    {
        let mut c: Config = c;
        match self.signal {
            Some(v) => {
                c.signal = v;
            },
            None => {},
        }
        match self.size {
            Some(v) => {
                c.output = v;
            },
            None => {},
        }
        match self.warmup {
            Some(v) => {
                c.warmup = v;
            },
            None => {},
        }
        match self.phase {
            Some(v) => {
                c.phase = v;
            },
            None => {},
        }
        match c.validate() {
            Ok(()) => Ok(c),
            Err(e) => Err(e),
        }
    }
}

pub open spec fn size_said(size: (u32, u32)) -> Seq<char> {
    crate::text::decimal(size.0 as nat) + "x"@ + crate::text::decimal(size.1 as nat)
}

/// What is said before a render of an input with settings, where they have sizes for it.
pub open spec fn plan_said(c: Config, input: (u32, u32)) -> Seq<char> {
    "Input "@ + size_said(input) + " -> signal "@ + size_said(c.signal_of(input)->Ok_0)
        + " -> output "@ + size_said(c.output_of(input)->Ok_0) + "; "@ + crate::text::decimal(
        (c.warmup + 1) as nat,
    ) + " ticks"@
}

fn append_size(text: &mut String, size: (u32, u32))
    ensures
        final(text)@ == old(text)@ + size_said(size),
{
    text.append(decimal_text(size.0 as u64).as_str());
    text.append("x");
    text.append(decimal_text(size.1 as u64).as_str());
    assert(text@ =~= old(text)@ + size_said(size));
}

/// What is said before a render, or why the input cannot be rendered with the settings.
pub fn plan_text(c: &Config, input: (u32, u32)) -> (r: Result<String, SizeError>)
    ensures
        match (c.signal_of(input), c.output_of(input)) {
            (Err(e), _) => r == Err::<String, SizeError>(e),
            (_, Err(e)) => r == Err::<String, SizeError>(e),
            _ => r matches Ok(text) && text@ == plan_said(*c, input),
        },
{
    let signal: (u32, u32) = match c.signal_size(input) {
        Ok(size) => size,
        Err(e) => {
            return Err(e);
        },
    };
    let output: (u32, u32) = match c.output_size(input) {
        Ok(size) => size,
        Err(e) => {
            return Err(e);
        },
    };
    let mut text: String = owned("Input ");
    append_size(&mut text, input);
    text.append(" -> signal ");
    append_size(&mut text, signal);
    text.append(" -> output ");
    append_size(&mut text, output);
    text.append("; ");
    text.append(decimal_text(c.warmup as u64 + 1).as_str());
    text.append(" ticks");
    Ok(text)
}

// -------------------------------------------------------------------------------------------
// Laws
// -------------------------------------------------------------------------------------------

/// With nothing said, the settings are rendered with as they are.
pub proof fn silence_changes_nothing(c: Config)
    ensures
        (Overrides { signal: None, size: None, phase: None, warmup: None }).over(c) == c,
{
}

} // verus!
