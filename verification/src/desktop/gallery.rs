//! The preset gallery: the looks that come with the application, and a person's own.
use crate::crt::config::{
    ColorMode, Config, ConfigError, Filter, MaskRepeats, NesPalette, Phase,
};
use crate::number::Real32;
use crate::text::{alike_text, chars_of, join, owned, same_chars, same_text, trim};
use vstd::prelude::*;

verus! {

/// The most bytes a description may have.
pub const DESCRIPTION_LIMIT: usize = 4096;

/// A look in the gallery.
#[derive(Debug)]
pub struct Entry {
    pub name: String,
    pub description: String,
    pub config: Config,
    pub user: bool,
}

fn entry(name: &str, description: &str, config: Config) -> (r: Entry)
    ensures
        r.name@ == name@,
        r.description@ == description@,
        r.config == config,
        !r.user,
{
    Entry { name: owned(name), description: owned(description), config, user: false }
}

/// The name of an included preset.
pub open spec fn builtin_name(i: int) -> Seq<char> {
    if i == 0 {
        "General image"@
    } else if i == 1 {
        "Original CRTSim"@
    } else if i == 2 {
        "Super Win the Game"@
    } else if i == 3 {
        "Soft television"@
    } else if i == 4 {
        "Clean RGB"@
    } else if i == 5 {
        "Pixel art 240p"@
    } else if i == 6 {
        "NTSC 240p"@
    } else if i == 7 {
        "NTSC 480i"@
    } else if i == 8 {
        "PAL 288p"@
    } else if i == 9 {
        "PAL 576i"@
    } else if i == 10 {
        "Warm analog"@
    } else {
        "Linear light"@
    }
}

/// The description of an included preset.
pub open spec fn builtin_description(i: int) -> Seq<char> {
    if i == 0 {
        "Square pixels, smooth resizing, balanced CRT effects."@
    } else if i == 1 {
        "Public-reference defaults, 256×224 signal, original mask sampling."@
    } else if i == 2 {
        "The game's own CRT options: the public reference with a 30° field of view, NTSC blending at 0.35 and its NTSC palette (Tint 5.18, I 1.75, Q 1.00). The palette's decoder stands in for the game's unpublished one; it recolours art in MAME's NES palette."@
    } else if i == 3 {
        "Gentler mask and ringing for illustrations and photos."@
    } else if i == 4 {
        "No composite artifacts or persistence; a restrained mask."@
    } else if i == 5 {
        "Explicit 240-row signal, nearest resizing and square pixels."@
    } else if i == 6 {
        "240 progressive rows, as consoles and computers drove an NTSC set, with the composite phase alternating each tick. Nearest resizing for pixel art."@
    } else if i == 7 {
        "480 interlaced rows with the composite phase alternating each field, as NTSC broadcast and video were shown."@
    } else if i == 8 {
        "288 progressive rows, as consoles and computers drove a PAL set. PAL's line-alternating color is not simulated; gentler, stable artifacts stand in for it."@
    } else if i == 9 {
        "576 interlaced rows, as PAL broadcast and video were shown. PAL's line-alternating color is not simulated; gentler, stable artifacts stand in for it."@
    } else if i == 10 {
        "An optional hue/chroma grade, not the unpublished game palette."@
    } else {
        "Experimental linear-light glass and bloom with float intermediates."@
    }
}

/// Whether a look is that of an included preset: what it sets, and in all else the general
/// settings or the public reference's.
pub open spec fn is_builtin(i: int, c: Config) -> bool {
    if i == 0 {
        c.is_general()
    } else if i == 1 {
        c.is_reference()
    } else if i == 2 {
        &&& c.fov == Real32 { bits: 0x41f0_0000 }
        &&& c.phase == Phase::Alternating
        &&& c.ntsc_blending == Real32 { bits: 0x3eb3_3333 }
        &&& c.palette matches Some(palette) && palette.is_game()
        &&& (Config {
            fov: Real32 { bits: 0x4170_0000 },
            phase: Phase::Stable,
            ntsc_blending: Real32 { bits: 0 },
            palette: None,
            ..c
        }).is_reference()
    } else if i == 3 {
        &&& c.mask_opacity == Real32 { bits: 0x3ee6_6666 }
        &&& c.artifacts == Real32 { bits: 0x3e4c_cccd }
        &&& c.sharpness == Real32 { bits: 0x3e80_0000 }
        &&& c.bloom == Real32 { bits: 0x3e23_d70a }
        &&& (Config {
            mask_opacity: Real32 { bits: 0x3f80_0000 },
            artifacts: Real32 { bits: 0x3f00_0000 },
            sharpness: Real32 { bits: 0x3f4c_cccd },
            bloom: Real32 { bits: 0x3e80_0000 },
            ..c
        }).is_general()
    } else if i == 4 {
        &&& c.artifacts == Real32 { bits: 0 }
        &&& c.sharpness == Real32 { bits: 0 }
        &&& c.bleed == Real32 { bits: 0 }
        &&& c.persistence@ == seq![Real32 { bits: 0 }, Real32 { bits: 0 }, Real32 { bits: 0 }]
        &&& c.mask_opacity == Real32 { bits: 0x3f0c_cccd }
        &&& c.bloom == Real32 { bits: 0x3da3_d70a }
        &&& (Config {
            artifacts: Real32 { bits: 0x3f00_0000 },
            sharpness: Real32 { bits: 0x3f4c_cccd },
            bleed: Real32 { bits: 0x3f00_0000 },
            persistence: [Real32 { bits: 0x3f33_3333 }, Real32 { bits: 0x3f06_6666 }, Real32 { bits: 0x3ed7_0a3d }],
            mask_opacity: Real32 { bits: 0x3f80_0000 },
            bloom: Real32 { bits: 0x3e80_0000 },
            ..c
        }).is_general()
    } else if i == 5 {
        &&& c.signal@ == "240p"@
        &&& c.filter == Filter::Nearest
        &&& c.mask_opacity == Real32 { bits: 0x3f33_3333 }
        &&& c.mask_repeats == MaskRepeats::Signal
        &&& (Config {
            filter: Filter::Lanczos,
            mask_opacity: Real32 { bits: 0x3f80_0000 },
            mask_repeats: MaskRepeats::Fixed(
                    [Real32 { bits: 0x4300_0000 }, Real32 { bits: 0x4360_0000 }],
                ),
            ..c
        }).is_general_but_signal()
    } else if i == 6 {
        &&& c.signal@ == "240p"@
        &&& c.filter == Filter::Nearest
        &&& c.phase == Phase::Alternating
        &&& c.mask_opacity == Real32 { bits: 0x3f33_3333 }
        &&& c.mask_repeats == MaskRepeats::Signal
        &&& (Config {
            filter: Filter::Lanczos,
            phase: Phase::Stable,
            mask_opacity: Real32 { bits: 0x3f80_0000 },
            mask_repeats: MaskRepeats::Fixed(
                    [Real32 { bits: 0x4300_0000 }, Real32 { bits: 0x4360_0000 }],
                ),
            ..c
        }).is_general_but_signal()
    } else if i == 7 {
        &&& c.signal@ == "480p"@
        &&& c.interlace == true
        &&& c.phase == Phase::Alternating
        &&& c.mask_repeats == MaskRepeats::Signal
        &&& (Config {
            interlace: false,
            phase: Phase::Stable,
            mask_repeats: MaskRepeats::Fixed(
                    [Real32 { bits: 0x4300_0000 }, Real32 { bits: 0x4360_0000 }],
                ),
            ..c
        }).is_general_but_signal()
    } else if i == 8 {
        &&& c.signal@ == "288p"@
        &&& c.filter == Filter::Nearest
        &&& c.phase == Phase::Stable
        &&& c.artifacts == Real32 { bits: 0x3e80_0000 }
        &&& c.mask_opacity == Real32 { bits: 0x3f33_3333 }
        &&& c.mask_repeats == MaskRepeats::Signal
        &&& (Config {
            filter: Filter::Lanczos,
            phase: Phase::Stable,
            artifacts: Real32 { bits: 0x3f00_0000 },
            mask_opacity: Real32 { bits: 0x3f80_0000 },
            mask_repeats: MaskRepeats::Fixed(
                    [Real32 { bits: 0x4300_0000 }, Real32 { bits: 0x4360_0000 }],
                ),
            ..c
        }).is_general_but_signal()
    } else if i == 9 {
        &&& c.signal@ == "576p"@
        &&& c.interlace == true
        &&& c.phase == Phase::Stable
        &&& c.artifacts == Real32 { bits: 0x3e80_0000 }
        &&& c.mask_repeats == MaskRepeats::Signal
        &&& (Config {
            interlace: false,
            phase: Phase::Stable,
            artifacts: Real32 { bits: 0x3f00_0000 },
            mask_repeats: MaskRepeats::Fixed(
                    [Real32 { bits: 0x4300_0000 }, Real32 { bits: 0x4360_0000 }],
                ),
            ..c
        }).is_general_but_signal()
    } else if i == 10 {
        &&& c.hue == Real32 { bits: 0xc100_0000 }
        &&& c.chroma == Real32 { bits: 0x3f59_999a }
        &&& c.artifacts == Real32 { bits: 0x3f26_6666 }
        &&& c.mask_opacity == Real32 { bits: 0x3f26_6666 }
        &&& (Config {
            hue: Real32 { bits: 0 },
            chroma: Real32 { bits: 0x3f80_0000 },
            artifacts: Real32 { bits: 0x3f00_0000 },
            mask_opacity: Real32 { bits: 0x3f80_0000 },
            ..c
        }).is_general()
    } else {
        &&& c.color_mode == ColorMode::LinearLight
        &&& c.bloom == Real32 { bits: 0x3da3_d70a }
        &&& c.diffuse == Real32 { bits: 0x3df5_c28f }
        &&& c.specular == Real32 { bits: 0x3da3_d70a }
        &&& c.rim == Real32 { bits: 0x3e80_0000 }
        &&& c.mask_opacity == Real32 { bits: 0x3f26_6666 }
        &&& (Config {
            color_mode: ColorMode::Reference,
            bloom: Real32 { bits: 0x3e80_0000 },
            diffuse: Real32 { bits: 0x3f00_0000 },
            specular: Real32 { bits: 0x3eb3_3333 },
            rim: Real32 { bits: 0x3f80_0000 },
            mask_opacity: Real32 { bits: 0x3f80_0000 },
            ..c
        }).is_general()
    }
}

/// The presets that come with the application.
pub fn builtins() -> (r: Vec<Entry>)
    ensures
        r@.len() == 12,
        forall|i: int|
            0 <= i < 12 ==> (#[trigger] r@[i]).name@ == builtin_name(i) && r@[i].description@
                == builtin_description(i) && !r@[i].user && is_builtin(i, r@[i].config),
{
    let mut r: Vec<Entry> = Vec::new();
    let c: Config = Config::general();
    assert(is_builtin(0, c));
    r.push(
        entry(
            "General image",
            "Square pixels, smooth resizing, balanced CRT effects.",
            c,
        ),
    );
    let c: Config = Config::default();
    assert(is_builtin(1, c));
    r.push(
        entry(
            "Original CRTSim",
            "Public-reference defaults, 256×224 signal, original mask sampling.",
            c,
        ),
    );
    let mut c: Config = Config::default();
    c.fov = Real32 { bits: 0x41f0_0000 };
    c.phase = Phase::Alternating;
    c.ntsc_blending = Real32 { bits: 0x3eb3_3333 };
    c.palette = Some(NesPalette::default());
    assert(is_builtin(2, c));
    r.push(
        entry(
            "Super Win the Game",
            "The game's own CRT options: the public reference with a 30° field of view, NTSC blending at 0.35 and its NTSC palette (Tint 5.18, I 1.75, Q 1.00). The palette's decoder stands in for the game's unpublished one; it recolours art in MAME's NES palette.",
            c,
        ),
    );
    let mut c: Config = Config::general();
    c.mask_opacity = Real32 { bits: 0x3ee6_6666 };
    c.artifacts = Real32 { bits: 0x3e4c_cccd };
    c.sharpness = Real32 { bits: 0x3e80_0000 };
    c.bloom = Real32 { bits: 0x3e23_d70a };
    assert(is_builtin(3, c));
    r.push(
        entry(
            "Soft television",
            "Gentler mask and ringing for illustrations and photos.",
            c,
        ),
    );
    let mut c: Config = Config::general();
    c.artifacts = Real32 { bits: 0 };
    c.sharpness = Real32 { bits: 0 };
    c.bleed = Real32 { bits: 0 };
    c.persistence = [Real32 { bits: 0 }, Real32 { bits: 0 }, Real32 { bits: 0 }];
    c.mask_opacity = Real32 { bits: 0x3f0c_cccd };
    c.bloom = Real32 { bits: 0x3da3_d70a };
    assert(is_builtin(4, c));
    r.push(
        entry(
            "Clean RGB",
            "No composite artifacts or persistence; a restrained mask.",
            c,
        ),
    );
    let mut c: Config = Config::general();
    c.signal = owned("240p");
    c.filter = Filter::Nearest;
    c.mask_opacity = Real32 { bits: 0x3f33_3333 };
    c.mask_repeats = MaskRepeats::Signal;
    assert(is_builtin(5, c));
    r.push(
        entry(
            "Pixel art 240p",
            "Explicit 240-row signal, nearest resizing and square pixels.",
            c,
        ),
    );
    let mut c: Config = Config::general();
    c.signal = owned("240p");
    c.filter = Filter::Nearest;
    c.phase = Phase::Alternating;
    c.mask_opacity = Real32 { bits: 0x3f33_3333 };
    c.mask_repeats = MaskRepeats::Signal;
    assert(is_builtin(6, c));
    r.push(
        entry(
            "NTSC 240p",
            "240 progressive rows, as consoles and computers drove an NTSC set, with the composite phase alternating each tick. Nearest resizing for pixel art.",
            c,
        ),
    );
    let mut c: Config = Config::general();
    c.signal = owned("480p");
    c.interlace = true;
    c.phase = Phase::Alternating;
    c.mask_repeats = MaskRepeats::Signal;
    assert(is_builtin(7, c));
    r.push(
        entry(
            "NTSC 480i",
            "480 interlaced rows with the composite phase alternating each field, as NTSC broadcast and video were shown.",
            c,
        ),
    );
    let mut c: Config = Config::general();
    c.signal = owned("288p");
    c.filter = Filter::Nearest;
    c.phase = Phase::Stable;
    c.artifacts = Real32 { bits: 0x3e80_0000 };
    c.mask_opacity = Real32 { bits: 0x3f33_3333 };
    c.mask_repeats = MaskRepeats::Signal;
    assert(is_builtin(8, c));
    r.push(
        entry(
            "PAL 288p",
            "288 progressive rows, as consoles and computers drove a PAL set. PAL's line-alternating color is not simulated; gentler, stable artifacts stand in for it.",
            c,
        ),
    );
    let mut c: Config = Config::general();
    c.signal = owned("576p");
    c.interlace = true;
    c.phase = Phase::Stable;
    c.artifacts = Real32 { bits: 0x3e80_0000 };
    c.mask_repeats = MaskRepeats::Signal;
    assert(is_builtin(9, c));
    r.push(
        entry(
            "PAL 576i",
            "576 interlaced rows, as PAL broadcast and video were shown. PAL's line-alternating color is not simulated; gentler, stable artifacts stand in for it.",
            c,
        ),
    );
    let mut c: Config = Config::general();
    c.hue = Real32 { bits: 0xc100_0000 };
    c.chroma = Real32 { bits: 0x3f59_999a };
    c.artifacts = Real32 { bits: 0x3f26_6666 };
    c.mask_opacity = Real32 { bits: 0x3f26_6666 };
    assert(is_builtin(10, c));
    r.push(
        entry(
            "Warm analog",
            "An optional hue/chroma grade, not the unpublished game palette.",
            c,
        ),
    );
    let mut c: Config = Config::general();
    c.color_mode = ColorMode::LinearLight;
    c.bloom = Real32 { bits: 0x3da3_d70a };
    c.diffuse = Real32 { bits: 0x3df5_c28f };
    c.specular = Real32 { bits: 0x3da3_d70a };
    c.rim = Real32 { bits: 0x3e80_0000 };
    c.mask_opacity = Real32 { bits: 0x3f26_6666 };
    assert(is_builtin(11, c));
    r.push(
        entry(
            "Linear light",
            "Experimental linear-light glass and bloom with float intermediates.",
            c,
        ),
    );
    r
}

// -------------------------------------------------------------------------------------------
// Names
// -------------------------------------------------------------------------------------------

/// Whether `char::is_alphanumeric` holds of a character.
pub uninterp spec fn alphanumeric(c: char) -> bool;

/// Whether a character is an English letter or a digit.
pub open spec fn ascii_alphanumeric(c: char) -> bool {
    ('a' <= c && c <= 'z') || ('A' <= c && c <= 'Z') || ('0' <= c && c <= '9')
}

/// `char::is_alphanumeric`, which holds of letters and numbers in any script: of the characters
/// up to 127, of the English letters and the digits. It depends on the character alone, and is
/// named `alphanumeric`.
pub assume_specification[ char::is_alphanumeric ](c: char) -> (r: bool)
    ensures
        r == alphanumeric(c),
        (c as u32) < 128 ==> r == ascii_alphanumeric(c),
;

/// What `str::to_lowercase` makes of a text.
pub uninterp spec fn lowered(s: Seq<char>) -> Seq<char>;

/// `str::to_lowercase`, which gives a text in lower case, as Unicode has it. It depends on the
/// text alone, and is named `lowered`.
pub assume_specification[ str::to_lowercase ](s: &str) -> (r: String)
    ensures
        r@ == lowered(s@),
;

/// Why a preset cannot have a name.
#[derive(Clone, Copy, Debug, PartialEq, Eq, Structural)]
pub enum NameError {
    /// Empty, over 120 bytes, or with other characters.
    Characters,
    /// Reserved by Windows.
    Reserved,
}

impl NameError {
    pub fn message(self) -> (r: &'static str)
        ensures
            r@ == (match self {
                NameError::Characters =>
                "Use a name of 1–120 bytes containing letters, numbers, spaces, - or _"@,
                NameError::Reserved => "This name is reserved by Windows"@,
            }),
    {
        match self {
            Self::Characters =>
            "Use a name of 1–120 bytes containing letters, numbers, spaces, - or _",
            Self::Reserved => "This name is reserved by Windows",
        }
    }
}

/// Whether a name may hold a character: a letter or number of any script, a space, `-` or `_`.
pub open spec fn name_char(c: char) -> bool {
    ||| if (c as u32) < 128 {
        ascii_alphanumeric(c)
    } else {
        alphanumeric(c)
    }
    ||| c == ' '
    ||| c == '-'
    ||| c == '_'
}

fn is_name_char(c: char) -> (r: bool)
    ensures
        r == name_char(c),
{
    let letter: bool = if (c as u32) < 128 {
        ('a' <= c && c <= 'z') || ('A' <= c && c <= 'Z') || ('0' <= c && c <= '9')
    } else {
        c.is_alphanumeric()
    };
    letter || c == ' ' || c == '-' || c == '_'
}

/// Whether a name is one of Windows's devices, whatever its case.
pub open spec fn is_device(name: Seq<char>) -> bool {
    ||| crate::text::alike(name, "CON"@)
    ||| crate::text::alike(name, "PRN"@)
    ||| crate::text::alike(name, "AUX"@)
    ||| crate::text::alike(name, "NUL"@)
    ||| exists|n: int|
        1 <= n <= 9 && (crate::text::alike(name, "COM"@ + #[trigger] crate::text::decimal(n as nat))
            || crate::text::alike(name, "LPT"@ + crate::text::decimal(n as nat)))
}

/// What is wrong with a preset's name, if anything.
pub open spec fn name_fault(name: Seq<char>) -> Option<NameError> {
    if name.len() == 0 || crate::text::bytes(name) > 120 || crate::text::trimmed(name) != name
        || exists|i: int| 0 <= i < name.len() && !name_char(#[trigger] name[i]) {
        Some(NameError::Characters)
    } else if is_device(name) {
        Some(NameError::Reserved)
    } else {
        None
    }
}

fn is_reserved(name: &str) -> (r: bool)
    ensures
        r == is_device(name@),
{
    if alike_text(name, "CON") || alike_text(name, "PRN") || alike_text(name, "AUX")
        || alike_text(name, "NUL") {
        return true;
    }
    let mut n: u64 = 1;
    while n <= 9
        invariant
            1 <= n <= 10,
            forall|k: int|
                1 <= k < n ==> !crate::text::alike(
                    name@,
                    "COM"@ + #[trigger] crate::text::decimal(k as nat),
                ) && !crate::text::alike(name@, "LPT"@ + crate::text::decimal(k as nat)),
        decreases 10 - n,
    {
        let digit: String = crate::text::decimal_text(n);
        if alike_text(name, join("COM", digit.as_str()).as_str()) || alike_text(
            name,
            join("LPT", digit.as_str()).as_str(),
        ) {
            proof {
                let k = n as int;
                assert(1 <= k <= 9 && (crate::text::alike(
                    name@,
                    "COM"@ + crate::text::decimal(k as nat),
                ) || crate::text::alike(name@, "LPT"@ + crate::text::decimal(k as nat))));
            }
            return true;
        }
        n = n + 1;
    }
    false
}

/// Checks a preset's name. A valid one is a single part of a path: it neither leads out of its
/// folder nor into another.
pub fn validate_name(name: &str) -> (r: Result<(), NameError>)
    ensures
        r == (match name_fault(name@) {
            Some(e) => Err::<(), NameError>(e),
            None => Ok::<(), NameError>(()),
        }),
        r is Ok ==> !name@.contains('/') && !name@.contains('\\') && !name@.contains('.'),
{
    let chars: Vec<char> = chars_of(name);
    if chars.len() == 0 || name.len() > 120 || !same_chars(
        trim(chars.as_slice()),
        chars.as_slice(),
    ) {
        return Err(NameError::Characters);
    }
    let mut i: usize = 0;
    while i < chars.len()
        invariant
            i <= chars@.len(),
            chars@ == name@,
            forall|k: int| 0 <= k < i ==> name_char(#[trigger] name@[k]),
            forall|k: int|
                0 <= k < i ==> #[trigger] name@[k] != '/' && name@[k] != '\\' && name@[k] != '.',
        decreases chars@.len() - i,
    {
        let c: char = chars[i];
        if !is_name_char(c) {
            assert(!name_char(name@[i as int]));
            return Err(NameError::Characters);
        }
        i = i + 1;
    }
    if is_reserved(name) {
        Err(NameError::Reserved)
    } else {
        Ok(())
    }
}

// -------------------------------------------------------------------------------------------
// Saving
// -------------------------------------------------------------------------------------------

/// Why a preset, or its description, cannot be saved.
#[derive(Debug)]
pub enum SaveError {
    Name(NameError),
    Config(ConfigError),
    /// A preset has the name already.
    Taken,
    /// A description over 4096 bytes.
    TooLong,
    /// The preset is gone.
    Gone,
}

impl SaveError {
    pub open spec fn text(self) -> Option<Seq<char>> {
        match self {
            SaveError::Taken => Some(
                "A preset with this name already exists. Choose another name."@,
            ),
            SaveError::TooLong => Some("Description exceeds 4096 bytes"@),
            SaveError::Gone => Some("Preset no longer exists"@),
            _ => None,
        }
    }

    /// What to tell the user; none where the name or the settings say it themselves.
    pub fn message(&self) -> (r: Option<&'static str>)
        ensures
            match r {
                Some(text) => self.text() == Some(text@),
                None => self.text() is None,
            },
    {
        match self {
            SaveError::Taken => Some(
                "A preset with this name already exists. Choose another name.",
            ),
            SaveError::TooLong => Some("Description exceeds 4096 bytes"),
            SaveError::Gone => Some("Preset no longer exists"),
            _ => None,
        }
    }
}

/// Whether a file among these is a preset's of this name, whatever their case.
pub open spec fn is_taken(name: Seq<char>, files: Seq<String>) -> bool {
    exists|i: int| 0 <= i < files.len() && lowered((#[trigger] files[i])@) == lowered(name + ".json"@)
}

/// Why a look cannot be saved to a gallery that holds these files, if anything.
pub open spec fn save_fault(
    name: Seq<char>,
    config: Config,
    input: (u32, u32),
    files: Seq<String>,
) -> Option<SaveError> {
    if let Some(e) = name_fault(name) {
        Some(SaveError::Name(e))
    } else if let Some(e) = config.fault_for(input) {
        Some(SaveError::Config(e))
    } else if is_taken(name, files) {
        Some(SaveError::Taken)
    } else {
        None
    }
}

/// Checks that a look can be saved to a gallery under a name. Case-insensitive collisions are
/// refused on every OS for portable galleries.
pub fn check_save(name: &str, config: &Config, input: (u32, u32), files: &Vec<String>) -> (r: Result<
    (),
    SaveError,
>)
    ensures
        r == (match save_fault(name@, *config, input, files@) {
            Some(e) => Err::<(), SaveError>(e),
            None => Ok::<(), SaveError>(()),
        }),
{
    match validate_name(name) {
        Err(e) => {
            return Err(SaveError::Name(e));
        },
        Ok(()) => {},
    }
    match config.validate_for(input) {
        Err(e) => {
            return Err(SaveError::Config(e));
        },
        Ok(()) => {},
    }
    let wanted: String = join(name, ".json").as_str().to_lowercase();
    let mut i: usize = 0;
    while i < files.len()
        invariant
            i <= files@.len(),
            wanted@ == lowered(name@ + ".json"@),
            name_fault(name@) is None,
            config.fault_for(input) is None,
            forall|k: int| 0 <= k < i ==> lowered((#[trigger] files@[k])@) != wanted@,
        decreases files@.len() - i,
    {
        let found: String = files[i].as_str().to_lowercase();
        if same_text(found.as_str(), wanted.as_str()) {
            assert(lowered(files@[i as int]@) == lowered(name@ + ".json"@));
            assert(is_taken(name@, files@));
            return Err(SaveError::Taken);
        }
        i = i + 1;
    }
    Ok(())
}

/// Checks that a preset, which is still there or not, can have a description.
pub fn check_description(name: &str, description: &str, exists: bool) -> (r: Result<(), SaveError>)
    ensures
        r == (if let Some(e) = name_fault(name@) {
            Err::<(), SaveError>(SaveError::Name(e))
        } else if crate::text::bytes(description@) > DESCRIPTION_LIMIT {
            Err::<(), SaveError>(SaveError::TooLong)
        } else if !exists {
            Err::<(), SaveError>(SaveError::Gone)
        } else {
            Ok::<(), SaveError>(())
        }),
{
    match validate_name(name) {
        Err(e) => {
            return Err(SaveError::Name(e));
        },
        Ok(()) => {},
    }
    if description.len() > DESCRIPTION_LIMIT {
        return Err(SaveError::TooLong);
    }
    if !exists {
        return Err(SaveError::Gone);
    }
    Ok(())
}

/// Whether a file in the gallery's folder is a preset's, by its name.
pub fn is_preset_file(name: &str) -> (r: bool)
    ensures
        r == crate::path::extends_with(name@, "json"@),
{
    crate::path::has_extension(name, "json")
}

/// Whether what is kept of the welcome says that it has been read.
pub fn welcome_needed(kept: Option<&[u8]>) -> (r: bool)
    ensures
        r == !(kept matches Some(bytes) && bytes@ == acknowledgement()),
{
    let expected: [u8; 13] = [97, 99, 107, 110, 111, 119, 108, 101, 100, 103, 101, 100, 10];
    assert(expected@ =~= acknowledgement());
    match kept {
        Some(bytes) => !crate::crt::picture::same_bytes(bytes, expected.as_slice()),
        None => true,
    }
}

/// What is kept once the welcome has been read: acknowledged, and a line feed.
pub open spec fn acknowledgement() -> Seq<u8> {
    seq![97u8, 99, 107, 110, 111, 119, 108, 101, 100, 103, 101, 100, 10]
}

} // verus!
