//! The kinds of file that open and that exports make, by their names.
use crate::path::has_extension;
use vstd::prelude::*;

verus! {

/// The animated image formats: opened as animations, and written by the animation export.
#[derive(Clone, Copy, Debug, PartialEq, Eq, Structural)]
pub enum AnimationFormat {
    Gif,
    Webp,
}

impl AnimationFormat {
    pub open spec fn extension_text(self) -> Seq<char> {
        match self {
            AnimationFormat::Gif => "gif"@,
            AnimationFormat::Webp => "webp"@,
        }
    }

    pub fn extension(self) -> (r: &'static str)
        ensures
            r@ == self.extension_text(),
    {
        match self {
            Self::Gif => "gif",
            Self::Webp => "webp",
        }
    }

    pub open spec fn named(path: Seq<char>) -> Option<AnimationFormat> {
        if crate::path::extends_with(path, "gif"@) {
            Some(AnimationFormat::Gif)
        } else if crate::path::extends_with(path, "webp"@) {
            Some(AnimationFormat::Webp)
        } else {
            None
        }
    }

    /// The format a file name asks for, by its extension.
    pub fn of(path: &str) -> (r: Option<Self>)
        ensures
            r == Self::named(path@),
    {
        if has_extension(path, "gif") {
            Some(Self::Gif)
        } else if has_extension(path, "webp") {
            Some(Self::Webp)
        } else {
            None
        }
    }

    /// The fastest rate the format plays reliably: browsers slow GIF frames shorter than
    /// 2 hundredths to 10, so GIF stays well clear of that.
    pub fn max_fps(self) -> (r: u32)
        ensures
            r == (match self {
                AnimationFormat::Gif => 30u32,
                AnimationFormat::Webp => 60u32,
            }),
    {
        match self {
            Self::Gif => 30,
            Self::Webp => 60,
        }
    }

    pub open spec fn name_text(self) -> Seq<char> {
        match self {
            AnimationFormat::Gif => "GIF"@,
            AnimationFormat::Webp => "WebP"@,
        }
    }

    pub fn name(self) -> (r: &'static str)
        ensures
            r@ == self.name_text(),
    {
        match self {
            Self::Gif => "GIF",
            Self::Webp => "WebP",
        }
    }

    pub open spec fn encoder_text(self) -> Seq<char> {
        match self {
            AnimationFormat::Gif => "gif"@,
            AnimationFormat::Webp => "libwebp_anim"@,
        }
    }

    /// FFmpeg's encoder for it.
    pub fn encoder(self) -> (r: &'static str)
        ensures
            r@ == self.encoder_text(),
    {
        match self {
            Self::Gif => "gif",
            Self::Webp => "libwebp_anim",
        }
    }
}

/// How a file opens.
#[derive(Clone, Copy, Debug, PartialEq, Eq, Structural)]
pub enum MediaKind {
    /// A still image.
    Still,
    /// A video, by its extension. FFmpeg decodes it.
    Video,
    /// A GIF or WebP with more than one frame.
    Animation(AnimationFormat),
}

/// Whether a file opens as video, by its extension; FFmpeg decodes it.
pub open spec fn named_video(path: Seq<char>) -> bool {
    ||| crate::path::extends_with(path, "mp4"@)
    ||| crate::path::extends_with(path, "mkv"@)
    ||| crate::path::extends_with(path, "mov"@)
    ||| crate::path::extends_with(path, "webm"@)
    ||| crate::path::extends_with(path, "avi"@)
    ||| crate::path::extends_with(path, "m4v"@)
}

pub fn is_video_name(path: &str) -> (r: bool)
    ensures
        r == named_video(path@),
{
    has_extension(path, "mp4") || has_extension(path, "mkv") || has_extension(path, "mov")
        || has_extension(path, "webm") || has_extension(path, "avi") || has_extension(path, "m4v")
}

impl MediaKind {
    /// How a file of this name opens, given whether its contents are a GIF or WebP with more
    /// than one frame.
    pub open spec fn opened(path: Seq<char>, several_frames: bool) -> MediaKind {
        if named_video(path) {
            MediaKind::Video
        } else {
            match AnimationFormat::named(path) {
                Some(format) if several_frames => MediaKind::Animation(format),
                _ => MediaKind::Still,
            }
        }
    }

    /// How a file opens: by its name, and for a GIF or WebP by whether it was found to hold
    /// more than one frame.
    pub fn of(path: &str, several_frames: bool) -> (r: Self)
        ensures
            r == Self::opened(path@, several_frames),
    {
        if is_video_name(path) {
            return Self::Video;
        }
        match AnimationFormat::of(path) {
            Some(format) => if several_frames {
                Self::Animation(format)
            } else {
                Self::Still
            },
            None => Self::Still,
        }
    }

    /// Whether it opens with frame navigation and playback, rather than as a still.
    pub fn is_moving(self) -> (r: bool)
        ensures
            r == (self != MediaKind::Still),
    {
        self != Self::Still
    }

    /// Whether a batch renders it to a video rather than to a PNG. An animated WebP stays a
    /// PNG of its first frame, as batches made it before animations could be opened.
    pub fn batch_as_video(self) -> (r: bool)
        ensures
            r == (self == MediaKind::Video || self == MediaKind::Animation(AnimationFormat::Gif)),
    {
        self == Self::Video || self == Self::Animation(AnimationFormat::Gif)
    }
}

/// The kinds of file a video is exported to.
#[derive(Clone, Copy, Debug, PartialEq, Eq, Structural)]
pub enum Container {
    /// H.264, which plays on nearly everything.
    Mp4,
    /// H.264 in a container that keeps more kinds of track.
    Mkv,
    /// VP9, for the web.
    Webm,
}

impl Default for Container {
    fn default() -> (r: Self)
        ensures
            r == Container::Mp4,
    {
        Self::Mp4
    }
}

/// Whether a subtitle codec holds text.
pub open spec fn text_subtitle(codec: Seq<char>) -> bool {
    ||| codec == "subrip"@
    ||| codec == "ass"@
    ||| codec == "ssa"@
    ||| codec == "webvtt"@
    ||| codec == "mov_text"@
    ||| codec == "text"@
}

impl Container {
    pub open spec fn extension_text(self) -> Seq<char> {
        match self {
            Container::Mp4 => "mp4"@,
            Container::Mkv => "mkv"@,
            Container::Webm => "webm"@,
        }
    }

    pub fn extension(self) -> (r: &'static str)
        ensures
            r@ == self.extension_text(),
    {
        match self {
            Self::Mp4 => "mp4",
            Self::Mkv => "mkv",
            Self::Webm => "webm",
        }
    }

    pub open spec fn named(path: Seq<char>) -> Option<Container> {
        if crate::path::extends_with(path, "mp4"@) {
            Some(Container::Mp4)
        } else if crate::path::extends_with(path, "mkv"@) {
            Some(Container::Mkv)
        } else if crate::path::extends_with(path, "webm"@) {
            Some(Container::Webm)
        } else {
            None
        }
    }

    /// The container a file name asks for, by its extension.
    pub fn of(path: &str) -> (r: Option<Self>)
        ensures
            r == Self::named(path@),
    {
        if has_extension(path, "mp4") {
            Some(Self::Mp4)
        } else if has_extension(path, "mkv") {
            Some(Self::Mkv)
        } else if has_extension(path, "webm") {
            Some(Self::Webm)
        } else {
            None
        }
    }

    pub open spec fn format_text(self) -> Seq<char> {
        match self {
            Container::Mp4 => "mp4"@,
            Container::Mkv => "matroska"@,
            Container::Webm => "webm"@,
        }
    }

    /// FFmpeg's name for it.
    pub fn format(self) -> (r: &'static str)
        ensures
            r@ == self.format_text(),
    {
        match self {
            Self::Mp4 => "mp4",
            Self::Mkv => "matroska",
            Self::Webm => "webm",
        }
    }

    pub open spec fn audio_codec_text(self) -> Seq<char> {
        match self {
            Container::Webm => "libopus"@,
            _ => "aac"@,
        }
    }

    /// The codec audio is re-encoded with when it cannot be copied as it is.
    pub fn audio_codec(self) -> (r: &'static str)
        ensures
            r@ == self.audio_codec_text(),
    {
        match self {
            Self::Webm => "libopus",
            Self::Mp4 | Self::Mkv => "aac",
        }
    }

    pub open spec fn subtitle_codec_text(self, codec: Seq<char>) -> Option<Seq<char>> {
        match self {
            Container::Mkv => Some("copy"@),
            Container::Mp4 => if text_subtitle(codec) {
                Some("mov_text"@)
            } else {
                None
            },
            Container::Webm => if text_subtitle(codec) {
                Some("webvtt"@)
            } else {
                None
            },
        }
    }

    /// How a subtitle track in `codec` is stored, if it can be: Matroska copies any, the
    /// others convert text subtitles to their own format and cannot hold bitmap ones.
    pub fn subtitle_codec(self, codec: &str) -> (r: Option<&'static str>)
        ensures
            match r {
                Some(stored) => self.subtitle_codec_text(codec@) == Some(stored@),
                None => self.subtitle_codec_text(codec@) is None,
            },
    {
        let chars: Vec<char> = crate::text::chars_of(codec);
        let c: &[char] = chars.as_slice();
        let text: bool = crate::text::is_text(c, "subrip") || crate::text::is_text(c, "ass")
            || crate::text::is_text(c, "ssa") || crate::text::is_text(c, "webvtt")
            || crate::text::is_text(c, "mov_text") || crate::text::is_text(c, "text");
        match self {
            Self::Mkv => Some("copy"),
            Self::Mp4 => if text {
                Some("mov_text")
            } else {
                None
            },
            Self::Webm => if text {
                Some("webvtt")
            } else {
                None
            },
        }
    }
}

/// Matroska keeps every subtitle track as it is. MP4 and WebM convert text to their own format and
/// leave out the rest.
pub proof fn containers_keep_the_subtitles_they_can(container: Container, codec: Seq<char>)
    ensures
        container == Container::Mkv ==> container.subtitle_codec_text(codec) == Some("copy"@),
        container != Container::Mkv ==> (container.subtitle_codec_text(codec) is Some <==> codec
            == "subrip"@ || codec == "ass"@ || codec == "ssa"@ || codec == "webvtt"@ || codec
            == "mov_text"@ || codec == "text"@),
        container == Container::Mp4 && container.subtitle_codec_text(codec) is Some
            ==> container.subtitle_codec_text(codec) == Some("mov_text"@),
        container == Container::Webm && container.subtitle_codec_text(codec) is Some
            ==> container.subtitle_codec_text(codec) == Some("webvtt"@),
{
}

} // verus!
