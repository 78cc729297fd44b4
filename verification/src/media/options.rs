//! How a video is exported.
use crate::media::kind::Container;
use vstd::prelude::*;

verus! {

#[derive(Clone, Copy, Debug, PartialEq, Eq, Structural)]
pub enum Quality {
    Draft,
    Balanced,
    High,
    Archival,
}

#[derive(Clone, Copy, Debug, PartialEq, Eq, Structural)]
pub enum Encoder {
    Software,
    Nvenc,
    Qsv,
    Amf,
    VideoToolbox,
}

/// Why an export's options cannot be used.
#[derive(Clone, Copy, Debug, PartialEq, Eq, Structural)]
pub enum OptionsError {
    /// WebM holds VP9, which only software encodes here.
    HardwareWebm,
    /// A constant quality over 51.
    Crf,
    /// A bitrate outside 1–200 Mbps.
    Bitrate,
}

impl OptionsError {
    pub open spec fn text(self) -> Seq<char> {
        match self {
            OptionsError::HardwareWebm =>
            "WebM requires the software VP9 encoder; choose MP4/MKV for hardware H.264"@,
            OptionsError::Crf => "Quality value must be 0–51"@,
            OptionsError::Bitrate => "Video bitrate must be 1–200 Mbps"@,
        }
    }

    pub fn message(self) -> (r: &'static str)
        ensures
            r@ == self.text(),
    {
        match self {
            Self::HardwareWebm =>
            "WebM requires the software VP9 encoder; choose MP4/MKV for hardware H.264",
            Self::Crf => "Quality value must be 0–51",
            Self::Bitrate => "Video bitrate must be 1–200 Mbps",
        }
    }
}

impl Encoder {
    pub open spec fn codec_text(self, container: Container) -> Seq<char> {
        match self {
            Encoder::Software => if container == Container::Webm {
                "libvpx-vp9"@
            } else {
                "libx264"@
            },
            Encoder::Nvenc => "h264_nvenc"@,
            Encoder::Qsv => "h264_qsv"@,
            Encoder::Amf => "h264_amf"@,
            Encoder::VideoToolbox => "h264_videotoolbox"@,
        }
    }

    /// FFmpeg's codec for what this encodes into `container`.
    pub fn codec(self, container: Container) -> (r: Result<&'static str, OptionsError>)
        ensures
            match r {
                Ok(codec) => codec@ == self.codec_text(container) && (container != Container::Webm
                    || self == Encoder::Software),
                Err(e) => e == OptionsError::HardwareWebm && container == Container::Webm && self
                    != Encoder::Software,
            },
    {
        let webm: bool = container == Container::Webm;
        if webm && self != Self::Software {
            return Err(OptionsError::HardwareWebm);
        }
        Ok(
            match self {
                Self::Software => if webm {
                    "libvpx-vp9"
                } else {
                    "libx264"
                },
                Self::Nvenc => "h264_nvenc",
                Self::Qsv => "h264_qsv",
                Self::Amf => "h264_amf",
                Self::VideoToolbox => "h264_videotoolbox",
            },
        )
    }
}

#[derive(Clone, Copy, Debug, PartialEq, Eq, Structural)]
pub enum Timing {
    Stable,
    Ntsc60,
    Disabled,
}

#[derive(Clone, Copy, Debug, PartialEq, Eq, Structural)]
pub enum Audio {
    Auto,
    Encode,
    Mute,
}

#[derive(Clone, Copy, Debug, PartialEq, Eq, Structural)]
pub enum EncodingSpeed {
    Fast,
    Balanced,
    Slow,
}

#[derive(Clone, Copy, Debug, PartialEq, Eq, Structural)]
pub struct Options {
    pub timing: Timing,
    pub audio: Audio,
    pub quality: Quality,
    pub encoder: Encoder,
    pub preserve_streams: bool,
    /// Optional constant-quality override for software H.264/VP9 (lower is better).
    pub crf: Option<u8>,
    /// Optional fixed target bitrate for hardware H.264, in megabits per second.
    pub bitrate_mbps: Option<u32>,
    pub speed: Option<EncodingSpeed>,
}

impl Options {
    /// What is chosen until something else is.
    pub open spec fn initial() -> Self {
        Options {
            timing: Timing::Stable,
            audio: Audio::Auto,
            quality: Quality::Balanced,
            encoder: Encoder::Software,
            preserve_streams: true,
            crf: None,
            bitrate_mbps: None,
            speed: None,
        }
    }
}

impl Default for Options {
    fn default() -> (r: Self)
        ensures
            r == Self::initial(),
    {
        Options {
            timing: Timing::Stable,
            audio: Audio::Auto,
            quality: Quality::Balanced,
            encoder: Encoder::Software,
            preserve_streams: true,
            crf: None,
            bitrate_mbps: None,
            speed: None,
        }
    }
}

impl Options {
    /// What is wrong with the options, if anything.
    pub open spec fn fault(self) -> Option<OptionsError> {
        if self.crf matches Some(crf) && crf > 51 {
            Some(OptionsError::Crf)
        } else if self.bitrate_mbps matches Some(mbps) && !(1 <= mbps <= 200) {
            Some(OptionsError::Bitrate)
        } else {
            None
        }
    }

    pub fn validate(&self) -> (r: Result<(), OptionsError>)
        ensures
            match r {
                Ok(()) => self.fault() is None,
                Err(e) => self.fault() == Some(e),
            },
    {
        match self.crf {
            Some(crf) => if crf > 51 {
                return Err(OptionsError::Crf);
            },
            None => {},
        }
        match self.bitrate_mbps {
            Some(mbps) => if mbps < 1 || mbps > 200 {
                return Err(OptionsError::Bitrate);
            },
            None => {},
        }
        Ok(())
    }

    /// The constant quality a software encoder is given: the one asked for, or the quality
    /// profile's, which is higher for VP9 to give files of a similar size.
    pub open spec fn crf_for(self, container: Container) -> u8 {
        match self.crf {
            Some(crf) => crf,
            None => {
                let profile: int = match self.quality {
                    Quality::Draft => 26,
                    Quality::Balanced => 18,
                    Quality::High => 14,
                    Quality::Archival => 10,
                };
                (if container == Container::Webm {
                    profile + 6
                } else {
                    profile
                }) as u8
            },
        }
    }

    pub fn effective_crf(&self, container: Container) -> (r: u8)
        ensures
            r == self.crf_for(container),
    {
        match self.crf {
            Some(crf) => crf,
            None => {
                let profile: u8 = match self.quality {
                    Quality::Draft => 26,
                    Quality::Balanced => 18,
                    Quality::High => 14,
                    Quality::Archival => 10,
                };
                if container == Container::Webm {
                    profile + 6
                } else {
                    profile
                }
            },
        }
    }
}

/// A better quality loses less: the rate factor, which is better the lower it is, falls from draft
/// to archival, stays where the codec takes it, and is the one asked for where one is.
pub proof fn better_qualities_lose_less(worse: Options, better: Options, container: Container)
    requires
        worse.crf is None,
        better.crf is None,
        (worse.quality == Quality::Draft && better.quality != Quality::Draft) || (worse.quality
            == Quality::Balanced && (better.quality == Quality::High || better.quality
            == Quality::Archival)) || (worse.quality == Quality::High && better.quality
            == Quality::Archival),
    ensures
        better.crf_for(container) < worse.crf_for(container) <= 32,
        better.crf_for(Container::Webm) > better.crf_for(Container::Mp4),
        better.crf_for(Container::Mkv) == better.crf_for(Container::Mp4),
{
}

/// WebM is encoded as VP9; the others, and whatever hardware encodes, as H.264.
pub proof fn codecs_suit_their_containers(encoder: Encoder, container: Container)
    ensures
        encoder == Encoder::Software && container == Container::Webm ==> encoder.codec_text(container)
            == "libvpx-vp9"@,
        encoder == Encoder::Software && container != Container::Webm ==> encoder.codec_text(container)
            == "libx264"@,
        encoder != Encoder::Software ==> "h264_"@.is_prefix_of(encoder.codec_text(container)),
{
    reveal_strlit("h264_");
    reveal_strlit("h264_nvenc");
    reveal_strlit("h264_qsv");
    reveal_strlit("h264_amf");
    reveal_strlit("h264_videotoolbox");
    if encoder != Encoder::Software {
        let codec = encoder.codec_text(container);
        assert("h264_"@ =~= codec.subrange(0, 5));
    }
}

} // verus!
