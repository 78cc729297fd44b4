//! The video export dialog: what it offers, what choosing changes, and when it asks again.
use crate::fixed::megabytes;
use crate::media::animation::{AnimationError, AnimationOptions, AnimationSummary, Dither};
use crate::media::kind::{AnimationFormat, Container};
use crate::media::options::{Audio, Encoder, EncodingSpeed, Options, OptionsError, Quality, Timing};
use crate::number::Real64;
use crate::text::{decimal_text, join3};
use vstd::prelude::*;

verus! {

/// What an export writes: a video, or an animation without sound.
#[derive(Clone, Copy, Debug, PartialEq, Eq, Structural)]
pub enum ExportFormat {
    Video(Container),
    Animation(AnimationFormat),
}

impl Default for ExportFormat {
    fn default() -> (r: Self)
        ensures
            r == ExportFormat::Video(Container::Mp4),
    {
        ExportFormat::Video(Container::Mp4)
    }
}

impl ExportFormat {
    pub open spec fn extension_text(self) -> Seq<char> {
        match self {
            ExportFormat::Video(container) => container.extension_text(),
            ExportFormat::Animation(format) => format.extension_text(),
        }
    }

    pub fn extension(self) -> (r: &'static str)
        ensures
            r@ == self.extension_text(),
    {
        match self {
            ExportFormat::Video(container) => container.extension(),
            ExportFormat::Animation(format) => format.extension(),
        }
    }

    pub open spec fn filter_text(self) -> Seq<char> {
        match self {
            ExportFormat::Video(_) => "Video"@,
            ExportFormat::Animation(AnimationFormat::Gif) => "GIF animation"@,
            ExportFormat::Animation(AnimationFormat::Webp) => "WebP animation"@,
        }
    }

    /// The kind of file, as a save dialog's filter names it.
    pub fn filter(self) -> (r: &'static str)
        ensures
            r@ == self.filter_text(),
    {
        match self {
            ExportFormat::Video(_) => "Video",
            ExportFormat::Animation(AnimationFormat::Gif) => "GIF animation",
            ExportFormat::Animation(AnimationFormat::Webp) => "WebP animation",
        }
    }

    /// What the dialog calls a format.
    pub fn label(self) -> (r: &'static str)
        ensures
            r@ == match self {
                ExportFormat::Video(Container::Mp4) =>
                    "MP4 · H.264 — recommended"@,
                ExportFormat::Video(Container::Mkv) =>
                    "MKV · H.264 — preserve more tracks"@,
                ExportFormat::Video(Container::Webm) =>
                    "WebM · VP9 — web playback"@,
                ExportFormat::Animation(AnimationFormat::Gif) =>
                    "GIF · plays everywhere, no sound"@,
                ExportFormat::Animation(AnimationFormat::Webp) =>
                    "Animated WebP · smaller, full color, no sound"@,
            },
    {
        match self {
            ExportFormat::Video(Container::Mp4) =>
                "MP4 · H.264 — recommended",
            ExportFormat::Video(Container::Mkv) =>
                "MKV · H.264 — preserve more tracks",
            ExportFormat::Video(Container::Webm) =>
                "WebM · VP9 — web playback",
            ExportFormat::Animation(AnimationFormat::Gif) =>
                "GIF · plays everywhere, no sound",
            ExportFormat::Animation(AnimationFormat::Webp) =>
                "Animated WebP · smaller, full color, no sound",
        }
    }

    /// What a format is good for.
    pub fn description(self) -> (r: &'static str)
        ensures
            r@ == match self {
                ExportFormat::Video(Container::Mp4) =>
                    "H.264 plays on most devices and editing apps. MP4 is the simplest choice for sharing. Text subtitles are converted; attachments and bitmap subtitles are omitted."@,
                ExportFormat::Video(Container::Mkv) =>
                    "The same H.264 picture quality in a more flexible container. MKV can retain subtitles and attachments that MP4 cannot. Some apps have limited MKV support."@,
                ExportFormat::Video(Container::Webm) =>
                    "VP9 is useful for web playback and can compress efficiently, but software encoding can be slower. Audio uses Opus when re-encoding; text subtitles become WebVTT."@,
                ExportFormat::Animation(AnimationFormat::Gif) =>
                    "256 colors for the whole animation, dithered, and delays in hundredths of a second. GIFs grow fast with size, rate and length, so keep clips short and small. The renderer preset is not stored in the file."@,
                ExportFormat::Animation(AnimationFormat::Webp) =>
                    "Usually several times smaller than a GIF, with full color. Most browsers and chat apps play it; some image editors do not. The renderer preset is not stored in the file."@,
            },
    {
        match self {
            ExportFormat::Video(Container::Mp4) =>
                "H.264 plays on most devices and editing apps. MP4 is the simplest choice for sharing. Text subtitles are converted; attachments and bitmap subtitles are omitted.",
            ExportFormat::Video(Container::Mkv) =>
                "The same H.264 picture quality in a more flexible container. MKV can retain subtitles and attachments that MP4 cannot. Some apps have limited MKV support.",
            ExportFormat::Video(Container::Webm) =>
                "VP9 is useful for web playback and can compress efficiently, but software encoding can be slower. Audio uses Opus when re-encoding; text subtitles become WebVTT.",
            ExportFormat::Animation(AnimationFormat::Gif) =>
                "256 colors for the whole animation, dithered, and delays in hundredths of a second. GIFs grow fast with size, rate and length, so keep clips short and small. The renderer preset is not stored in the file.",
            ExportFormat::Animation(AnimationFormat::Webp) =>
                "Usually several times smaller than a GIF, with full color. Most browsers and chat apps play it; some image editors do not. The renderer preset is not stored in the file.",
        }
    }

}

/// What the dialog calls an encoder.
pub fn encoder_label(encoder: Encoder) -> (r: &'static str)
    ensures
        r@ == match encoder {
            Encoder::Software =>
                "Software · CPU (recommended)"@,
            Encoder::Nvenc =>
                "NVIDIA graphics card · NVENC"@,
            Encoder::Qsv =>
                "Intel graphics · Quick Sync"@,
            Encoder::Amf =>
                "AMD graphics card · AMF"@,
            Encoder::VideoToolbox =>
                "Apple hardware · VideoToolbox"@,
        },
{
    match encoder {
        Encoder::Software =>
            "Software · CPU (recommended)",
        Encoder::Nvenc =>
            "NVIDIA graphics card · NVENC",
        Encoder::Qsv =>
            "Intel graphics · Quick Sync",
        Encoder::Amf =>
            "AMD graphics card · AMF",
        Encoder::VideoToolbox =>
            "Apple hardware · VideoToolbox",
    }
}

/// What an encoder needs.
pub fn encoder_description(encoder: Encoder) -> (r: &'static str)
    ensures
        r@ == match encoder {
            Encoder::Software =>
                "Uses your processor for compression. Predictable quality, no special hardware encoder required."@,
            Encoder::Nvenc =>
                "Uses a supported NVIDIA GPU to encode H.264. Often faster; requires NVENC support in FFmpeg and a working NVIDIA driver."@,
            Encoder::Qsv =>
                "Uses supported Intel graphics to encode H.264. Requires Quick Sync support in FFmpeg and the Intel media driver."@,
            Encoder::Amf =>
                "Uses supported AMD graphics to encode H.264. Requires AMF support in FFmpeg and a compatible AMD driver."@,
            Encoder::VideoToolbox =>
                "Uses Apple's video encoding system for H.264 on supported Macs. Requires a compatible FFmpeg build."@,
        },
{
    match encoder {
        Encoder::Software =>
            "Uses your processor for compression. Predictable quality, no special hardware encoder required.",
        Encoder::Nvenc =>
            "Uses a supported NVIDIA GPU to encode H.264. Often faster; requires NVENC support in FFmpeg and a working NVIDIA driver.",
        Encoder::Qsv =>
            "Uses supported Intel graphics to encode H.264. Requires Quick Sync support in FFmpeg and the Intel media driver.",
        Encoder::Amf =>
            "Uses supported AMD graphics to encode H.264. Requires AMF support in FFmpeg and a compatible AMD driver.",
        Encoder::VideoToolbox =>
            "Uses Apple's video encoding system for H.264 on supported Macs. Requires a compatible FFmpeg build.",
    }
}

/// What the dialog calls a timing.
pub fn timing_label(timing: Timing) -> (r: &'static str)
    ensures
        r@ == match timing {
            Timing::Stable =>
                "Source rate · stable artifacts"@,
            Timing::Ntsc60 =>
                "60 Hz · alternating artifacts"@,
            Timing::Disabled =>
                "Source rate · persistence off"@,
        },
{
    match timing {
        Timing::Stable =>
            "Source rate · stable artifacts",
        Timing::Ntsc60 =>
            "60 Hz · alternating artifacts",
        Timing::Disabled =>
            "Source rate · persistence off",
    }
}

/// What the dialog calls what becomes of the audio.
pub fn audio_label(audio: Audio) -> (r: &'static str)
    ensures
        r@ == match audio {
            Audio::Auto =>
                "Preserve when compatible"@,
            Audio::Encode =>
                "Re-encode"@,
            Audio::Mute =>
                "No audio"@,
        },
{
    match audio {
        Audio::Auto =>
            "Preserve when compatible",
        Audio::Encode =>
            "Re-encode",
        Audio::Mute =>
            "No audio",
    }
}

/// What the dialog calls a quality.
pub fn quality_label(quality: Quality) -> (r: &'static str)
    ensures
        r@ == match quality {
            Quality::Draft =>
                "Draft · smaller, quicker files"@,
            Quality::Balanced =>
                "Balanced · recommended"@,
            Quality::High =>
                "High · more detail, larger files"@,
            Quality::Archival =>
                "Archival · largest files, still lossy"@,
        },
{
    match quality {
        Quality::Draft =>
            "Draft · smaller, quicker files",
        Quality::Balanced =>
            "Balanced · recommended",
        Quality::High =>
            "High · more detail, larger files",
        Quality::Archival =>
            "Archival · largest files, still lossy",
    }
}

/// What the dialog calls a compression speed.
pub fn speed_label(speed: Option<EncodingSpeed>) -> (r: &'static str)
    ensures
        r@ == match speed {
            None =>
                "Profile default"@,
            Some(EncodingSpeed::Fast) =>
                "Fast"@,
            Some(EncodingSpeed::Balanced) =>
                "Balanced"@,
            Some(EncodingSpeed::Slow) =>
                "Slow"@,
        },
{
    match speed {
        None =>
            "Profile default",
        Some(EncodingSpeed::Fast) =>
            "Fast",
        Some(EncodingSpeed::Balanced) =>
            "Balanced",
        Some(EncodingSpeed::Slow) =>
            "Slow",
    }
}

/// What the dialog calls a dithering.
pub fn dither_label(dither: Dither) -> (r: &'static str)
    ensures
        r@ == match dither {
            Dither::Bayer =>
                "Pattern · smaller files"@,
            Dither::Diffusion =>
                "Diffusion · smoother, larger"@,
            Dither::Off =>
                "None · smallest, banding"@,
        },
{
    match dither {
        Dither::Bayer =>
            "Pattern · smaller files",
        Dither::Diffusion =>
            "Diffusion · smoother, larger",
        Dither::Off =>
            "None · smallest, banding",
    }
}

// -------------------------------------------------------------------------------------------
// The dialog
// -------------------------------------------------------------------------------------------

/// An animation likely to be larger than this, in bytes, is only exported once confirmed.
pub const LARGE_ANIMATION: u64 = 25_000_000;

/// The dialog, with the options as they are chosen in it.
#[derive(Clone, Copy, Debug, PartialEq, Eq, Structural)]
pub struct ExportDialog {
    pub options: Options,
    pub animation: AnimationOptions,
    pub format: ExportFormat,
    /// For the videos that a batch adds next, rather than for the one on screen.
    pub batch: bool,
    /// Start an animation at the frame on screen instead of the beginning.
    pub from_current_frame: bool,
    /// The likely size of the animation the export was asked about, until it is confirmed or the
    /// settings change.
    pub confirming: Option<u64>,
}

/// Why the dialog's choices cannot be used.
#[derive(Debug)]
pub enum ChoiceError {
    Video(OptionsError),
    Animation(AnimationError),
}

/// What asking the dialog to go on gives.
#[derive(Debug)]
pub enum Proceed {
    /// The choices cannot be used; the dialog stays.
    Refused(ChoiceError),
    /// The file is likely large: the dialog stays, and asks.
    Confirm,
    /// The choices are used: for new batch jobs, or to choose a destination.
    Use,
}

impl ExportDialog {
    /// What is wrong with the choices, if anything.
    pub open spec fn fault(self) -> Option<ChoiceError> {
        match self.format {
            ExportFormat::Video(_) => match self.options.fault() {
                Some(e) => Some(ChoiceError::Video(e)),
                None => None,
            },
            ExportFormat::Animation(format) => match self.animation.fault(format) {
                Some(e) => Some(ChoiceError::Animation(e)),
                None => None,
            },
        }
    }

    /// Opens the dialog with the options in use. A batch's videos are saved as MKV.
    pub fn open(
        options: Options,
        animation: AnimationOptions,
        last: ExportFormat,
        batch: bool,
    ) -> (r: ExportDialog)
        ensures
            r == (ExportDialog {
                options,
                animation,
                format: if batch {
                    ExportFormat::Video(Container::Mkv)
                } else {
                    last
                },
                batch,
                from_current_frame: false,
                confirming: None,
            }),
    {
        ExportDialog {
            options,
            animation,
            format: if batch {
                ExportFormat::Video(Container::Mkv)
            } else {
                last
            },
            batch,
            from_current_frame: false,
            confirming: None,
        }
    }

    /// Chooses a format. A constant quality chosen for another one means nothing for it.
    pub fn choose_format(&mut self, format: ExportFormat)
        ensures
            *final(self) == if format == old(self).format {
                *old(self)
            } else {
                ExportDialog {
                    format,
                    options: Options { crf: None, ..old(self).options },
                    ..*old(self)
                }
            },
    {
        if format != self.format {
            self.format = format;
            self.options.crf = None;
        }
    }

    /// Chooses a quality, in place of a constant quality or a bitrate.
    pub fn choose_quality(&mut self, quality: Quality)
        ensures
            *final(self) == if quality == old(self).options.quality {
                *old(self)
            } else {
                ExportDialog {
                    options: Options {
                        quality,
                        crf: None,
                        bitrate_mbps: None,
                        ..old(self).options
                    },
                    ..*old(self)
                }
            },
    {
        if quality != self.options.quality {
            self.options.quality = quality;
            self.options.crf = None;
            self.options.bitrate_mbps = None;
        }
    }

    /// Turns a constant quality on, at the profile's, or off.
    pub fn custom_crf(&mut self, on: bool, container: Container)
        ensures
            *final(self) == (ExportDialog {
                options: Options {
                    crf: if on {
                        Some(old(self).options.crf_for(container))
                    } else {
                        None
                    },
                    ..old(self).options
                },
                ..*old(self)
            }),
    {
        self.options.crf =
        if on {
            Some(self.options.effective_crf(container))
        } else {
            None
        };
    }

    /// Turns a target bitrate on, at 12 Mbps, or off.
    pub fn custom_bitrate(&mut self, on: bool)
        ensures
            *final(self) == (ExportDialog {
                options: Options {
                    bitrate_mbps: if on {
                        Some(12u32)
                    } else {
                        None
                    },
                    ..old(self).options
                },
                ..*old(self)
            }),
    {
        self.options.bitrate_mbps =
        if on {
            Some(12)
        } else {
            None
        };
    }

    /// Turns the length limit on, at ten seconds, or off.
    pub fn limit_length(&mut self, on: bool)
        ensures
            *final(self) == (ExportDialog {
                animation: AnimationOptions {
                    max_seconds: if on {
                        Some(Real64::of(10))
                    } else {
                        None
                    },
                    ..old(self).animation
                },
                ..*old(self)
            }),
    {
        self.animation.max_seconds =
        if on {
            Some(Real64::from_integer(10))
        } else {
            None
        };
    }

    /// The choices as a format takes them: WebM is encoded in software, an animation is no faster
    /// than its format plays and never alternates artifacts.
    pub open spec fn settled(self) -> ExportDialog {
        match self.format {
            ExportFormat::Video(Container::Webm) => ExportDialog {
                options: Options { encoder: Encoder::Software, ..self.options },
                ..self
            },
            ExportFormat::Video(_) => self,
            ExportFormat::Animation(format) => {
                let top: u32 = match format {
                    AnimationFormat::Gif => 30,
                    AnimationFormat::Webp => 60,
                };
                ExportDialog {
                    animation: AnimationOptions {
                        fps: if self.animation.fps > top {
                            top
                        } else {
                            self.animation.fps
                        },
                        timing: if self.animation.timing == Timing::Ntsc60 {
                            Timing::Stable
                        } else {
                            self.animation.timing
                        },
                        ..self.animation
                    },
                    ..self
                }
            },
        }
    }

    /// Brings the choices to what their format takes, as the dialog does on every frame.
    pub fn settle(&mut self)
        ensures
            *final(self) == old(self).settled(),
    {
        match self.format {
            ExportFormat::Video(container) => {
                if container == Container::Webm {
                    self.options.encoder = Encoder::Software;
                }
            },
            ExportFormat::Animation(format) => {
                if self.animation.fps > format.max_fps() {
                    self.animation.fps = format.max_fps();
                }
                if self.animation.timing == Timing::Ntsc60 {
                    self.animation.timing = Timing::Stable;
                }
            },
        }
    }

    /// Where an animation starts: at the frame on screen, `at` seconds in, or at the beginning.
    pub fn start_at(&mut self, at: Real64)
        ensures
            *final(self) == (ExportDialog {
                animation: AnimationOptions {
                    start: if old(self).from_current_frame {
                        at
                    } else {
                        Real64::of(0)
                    },
                    ..old(self).animation
                },
                ..*old(self)
            }),
    {
        self.animation.start =
        if self.from_current_frame {
            at
        } else {
            Real64::from_integer(0)
        };
    }

    /// Takes back the question once the settings have changed the likely size: the new one is
    /// asked about anew.
    pub fn reconsider(&mut self, likely: Option<u64>)
        ensures
            *final(self) == (ExportDialog {
                confirming: if old(self).confirming == likely {
                    old(self).confirming
                } else {
                    None
                },
                ..*old(self)
            }),
    {
        let same: bool = match (self.confirming, likely) {
            (Some(a), Some(b)) => a == b,
            (None, None) => true,
            _ => false,
        };
        if !same {
            self.confirming = None;
        }
    }

    /// Whether the export must be asked about first.
    pub open spec fn must_ask(self, likely: Option<u64>) -> bool {
        &&& self.format is Animation
        &&& self.confirming is None
        &&& likely matches Some(bytes) && bytes > LARGE_ANIMATION
    }

    /// Goes on with the choices, unless they cannot be used or make a file likely so large that
    /// it has to be confirmed. `likely` is its likely size, where that is known.
    pub fn proceed(&mut self, likely: Option<u64>) -> (r: Proceed)
        ensures
            match old(self).fault() {
                Some(e) => r == Proceed::Refused(e) && *final(self) == *old(self),
                None => if old(self).must_ask(likely) {
                    r is Confirm && *final(self) == (ExportDialog {
                        confirming: likely,
                        ..*old(self)
                    })
                } else {
                    r is Use && *final(self) == *old(self)
                },
            },
    {
        match self.format {
            ExportFormat::Video(_) => {
                match self.options.validate() {
                    Err(e) => {
                        return Proceed::Refused(ChoiceError::Video(e));
                    },
                    Ok(()) => {},
                }
            },
            ExportFormat::Animation(format) => {
                match self.animation.validate(format) {
                    Err(e) => {
                        return Proceed::Refused(ChoiceError::Animation(e));
                    },
                    Ok(()) => {},
                }
                match likely {
                    Some(bytes) => {
                        if bytes > LARGE_ANIMATION && self.confirming.is_none() {
                            self.confirming = Some(bytes);
                            return Proceed::Confirm;
                        }
                    },
                    None => {},
                }
            },
        }
        Proceed::Use
    }
}

/// An animation likely to be large is asked about exactly once while its settings stay: asking is
/// never skipped, and the answer to it is taken.
pub proof fn large_animations_are_confirmed(dialog: ExportDialog, likely: u64)
    requires
        dialog.format is Animation,
        likely > LARGE_ANIMATION,
        dialog.confirming is None,
    ensures
        dialog.must_ask(Some(likely)),
        !(ExportDialog { confirming: Some(likely), ..dialog }).must_ask(Some(likely)),
{
}

/// What a format takes stays as it is.
pub proof fn settled_choices_stay(dialog: ExportDialog)
    ensures
        dialog.settled().settled() == dialog.settled(),
{
}

// -------------------------------------------------------------------------------------------
// The size estimate
// -------------------------------------------------------------------------------------------

/// What the dialog says of an animation's size.
#[derive(Debug)]
pub struct SizeEstimate {
    /// Its width and height, and how many frames it has.
    pub extent: String,
    /// How large a file it makes.
    pub likely: String,
    /// What would make it smaller, where it is likely large.
    pub advice: Option<String>,
    /// The space it needs meanwhile, where it needs any.
    pub temporary: Option<String>,
}

pub open spec fn extent_text(summary: AnimationSummary) -> Seq<char> {
    crate::text::decimal(summary.size.0 as nat) + "×"@ + crate::text::decimal(
        summary.size.1 as nat,
    ) + " · "@ + crate::text::decimal(summary.frames as nat) + " frames"@
}

pub open spec fn likely_text(summary: AnimationSummary) -> Seq<char> {
    "Likely "@ + crate::fixed::megabytes_text(summary.bytes.0 as nat) + " to "@
        + crate::fixed::megabytes_text(summary.bytes.1 as nat) + ", depending on how much moves"@
}

pub open spec fn advice_text(format: AnimationFormat) -> Seq<char> {
    match format {
        AnimationFormat::Gif =>
            "That is large for a GIF. A smaller longest side, fewer frames per second or a shorter clip shrink it most; animated WebP is usually several times smaller."@,
        AnimationFormat::Webp =>
            "That is large for an animation. A smaller longest side, fewer frames per second or a shorter clip shrink it most."@,
    }
}

pub open spec fn temporary_text(bytes: u64) -> Seq<char> {
    "Needs up to "@ + crate::fixed::megabytes_text(bytes as nat)
        + " of temporary space next to the destination while exporting."@
}

/// What an animation will be: its size, its length and roughly how large a file it makes.
pub fn size_estimate(format: AnimationFormat, summary: &AnimationSummary) -> (r: SizeEstimate)
    ensures
        r.extent@ == extent_text(*summary),
        r.likely@ == likely_text(*summary),
        crate::path::is_some_text(
            r.advice,
            if summary.bytes.1 > LARGE_ANIMATION {
                Some(advice_text(format))
            } else {
                None
            },
        ),
        crate::path::is_some_text(
            r.temporary,
            if summary.temporary > 0 {
                Some(temporary_text(summary.temporary))
            } else {
                None
            },
        ),
{
    let mut extent: String = join3(
        decimal_text(summary.size.0 as u64).as_str(),
        "×",
        decimal_text(summary.size.1 as u64).as_str(),
    );
    extent.append(" · ");
    extent.append(decimal_text(summary.frames).as_str());
    extent.append(" frames");
    let mut likely: String = join3("Likely ", megabytes(summary.bytes.0).as_str(), " to ");
    likely.append(megabytes(summary.bytes.1).as_str());
    likely.append(", depending on how much moves");
    let advice: Option<String> = if summary.bytes.1 > LARGE_ANIMATION {
        Some(
            crate::text::owned(
                match format {
                    AnimationFormat::Gif =>
                        "That is large for a GIF. A smaller longest side, fewer frames per second or a shorter clip shrink it most; animated WebP is usually several times smaller.",
                    AnimationFormat::Webp =>
                        "That is large for an animation. A smaller longest side, fewer frames per second or a shorter clip shrink it most.",
                },
            ),
        )
    } else {
        None
    };
    let temporary: Option<String> = if summary.temporary > 0 {
        Some(
            join3(
                "Needs up to ",
                megabytes(summary.temporary).as_str(),
                " of temporary space next to the destination while exporting.",
            ),
        )
    } else {
        None
    };
    SizeEstimate { extent, likely, advice, temporary }
}

/// What the dialog asks before a large export.
pub fn confirm_text(bytes: u64) -> (r: String)
    ensures
        r@ == "This file could be up to "@ + crate::fixed::megabytes_text(bytes as nat)
            + ". Export it anyway?"@,
{
    join3("This file could be up to ", megabytes(bytes).as_str(), ". Export it anyway?")
}

} // verus!
