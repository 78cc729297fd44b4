//! What a video file holds, as ffprobe reports it.
use crate::crt::config::validate_size;
use crate::media::args::Args;
use crate::media::json::{read_json, Json};
use crate::media::kind::AnimationFormat;
use crate::number::Real64;
use crate::text::{chars_of, decimal_text, find_char, owned, same_text};
use vstd::prelude::*;
use vstd::slice::*;

verus! {

/// What a track holds.
#[derive(Clone, Copy, Debug, PartialEq, Eq, Structural)]
pub enum TrackKind {
    Video,
    Audio,
    Subtitle,
    Attachment,
    Data,
    Other,
}

impl TrackKind {
    pub open spec fn named(codec_type: Seq<char>) -> TrackKind {
        if codec_type == "video"@ {
            TrackKind::Video
        } else if codec_type == "audio"@ {
            TrackKind::Audio
        } else if codec_type == "subtitle"@ {
            TrackKind::Subtitle
        } else if codec_type == "attachment"@ {
            TrackKind::Attachment
        } else if codec_type == "data"@ {
            TrackKind::Data
        } else {
            TrackKind::Other
        }
    }

    /// The kind ffprobe reports as `codec_type`.
    pub fn parse(codec_type: &str) -> (r: Self)
        ensures
            r == Self::named(codec_type@),
    {
        if same_text(codec_type, "video") {
            Self::Video
        } else if same_text(codec_type, "audio") {
            Self::Audio
        } else if same_text(codec_type, "subtitle") {
            Self::Subtitle
        } else if same_text(codec_type, "attachment") {
            Self::Attachment
        } else if same_text(codec_type, "data") {
            Self::Data
        } else {
            Self::Other
        }
    }
}

#[derive(Clone, Debug, PartialEq, Eq)]
pub struct Track {
    pub index: u64,
    pub kind: TrackKind,
    pub codec: String,
    /// How far it starts after the video, in seconds.
    pub offset: Real64,
}

/// What a track is.
pub struct TrackView {
    pub index: u64,
    pub kind: TrackKind,
    pub codec: Seq<char>,
    pub offset: Real64,
}

impl View for Track {
    type V = TrackView;

    open spec fn view(&self) -> TrackView {
        TrackView {
            index: self.index,
            kind: self.kind,
            codec: self.codec@,
            offset: self.offset,
        }
    }
}

/// What decodes a video's frames.
#[derive(Clone, Debug, PartialEq, Eq)]
pub enum Source {
    /// FFmpeg, which also reads the file's other tracks.
    Ffmpeg,
    /// An animated GIF or WebP. It has no other tracks. `delays` is how long each frame shows,
    /// in milliseconds.
    Animated { format: AnimationFormat, delays: Vec<u32> },
}

#[derive(Debug, PartialEq, Eq)]
pub struct Video {
    /// The file's tags, each a key with its value.
    pub metadata: Vec<(String, String)>,
    pub tracks: Vec<Track>,
    pub start: Real64,
    pub path: String,
    pub size: (u32, u32),
    pub fps: Real64,
    pub rate: String,
    pub duration: Real64,
    pub audio: bool,
    pub audio_offset: Real64,
    pub hdr: bool,
    pub stream: u64,
    /// Container-provided decoded-frame count. Missing for many streaming/Matroska sources.
    pub frames: Option<u64>,
    pub source: Source,
}

pub open spec fn track_views(tracks: Seq<Track>) -> Seq<TrackView> {
    Seq::new(tracks.len(), |i: int| tracks[i]@)
}

pub open spec fn tag_views(tags: Seq<(String, String)>) -> Seq<(Seq<char>, Seq<char>)> {
    Seq::new(tags.len(), |i: int| (tags[i].0@, tags[i].1@))
}

/// Why a file is no video that can be opened.
#[derive(Clone, Copy, Debug, PartialEq, Eq, Structural)]
pub enum ProbeError {
    /// Not JSON.
    Unreadable,
    NoStreams,
    NoVideo,
    NoWidth,
    NoHeight,
    TooLarge,
    Size,
    PixelAspect,
    Rotation,
    FrameRate,
    NoDuration,
    Duration,
    NoIndex,
}

impl ProbeError {
    pub open spec fn text(self) -> Seq<char> {
        match self {
            ProbeError::Unreadable => "Cannot read ffprobe's report"@,
            ProbeError::NoStreams => "No streams in video"@,
            ProbeError::NoVideo => "No video stream"@,
            ProbeError::NoWidth => "No video width"@,
            ProbeError::NoHeight => "No video height"@,
            ProbeError::TooLarge => "Video dimensions exceed 16384"@,
            ProbeError::Size => "dimensions must be positive, <=16384 per side, and <=64 megapixels"@,
            ProbeError::PixelAspect => "Unsupported video pixel aspect ratio"@,
            ProbeError::Rotation => "Only right-angle video rotation is supported"@,
            ProbeError::FrameRate => "Cannot determine a supported frame rate (1–240 FPS)"@,
            ProbeError::NoDuration => "Cannot determine video duration"@,
            ProbeError::Duration => "Unsupported video duration"@,
            ProbeError::NoIndex => "Missing video stream index"@,
        }
    }

    pub fn message(self) -> (r: &'static str)
        ensures
            r@ == self.text(),
    {
        match self {
            Self::Unreadable => "Cannot read ffprobe's report",
            Self::NoStreams => "No streams in video",
            Self::NoVideo => "No video stream",
            Self::NoWidth => "No video width",
            Self::NoHeight => "No video height",
            Self::TooLarge => "Video dimensions exceed 16384",
            Self::Size => "dimensions must be positive, <=16384 per side, and <=64 megapixels",
            Self::PixelAspect => "Unsupported video pixel aspect ratio",
            Self::Rotation => "Only right-angle video rotation is supported",
            Self::FrameRate => "Cannot determine a supported frame rate (1–240 FPS)",
            Self::NoDuration => "Cannot determine video duration",
            Self::Duration => "Unsupported video duration",
            Self::NoIndex => "Missing video stream index",
        }
    }
}

// -------------------------------------------------------------------------------------------
// Rates
// -------------------------------------------------------------------------------------------

/// Where a rate's text is split: at its first slash, or else at its first colon.
pub open spec fn rate_split(s: Seq<char>) -> int {
    let slash = crate::text::first_at(s, '/', 0);
    if slash < s.len() {
        slash
    } else {
        crate::text::first_at(s, ':', 0)
    }
}

/// The quotient a text such as 30000/1001 or 8:9 holds, if it is finite and over zero.
pub open spec fn rate_of(s: Seq<char>) -> Option<Real64> {
    let at = rate_split(s);
    if at >= s.len() {
        None
    } else {
        match (Real64::read(s.take(at)), Real64::read(s.skip(at + 1))) {
            (Some(a), Some(b)) => if a.over(b).finite() && Real64::of(0).below(a.over(b)) {
                Some(a.over(b))
            } else {
                None
            },
            _ => None,
        }
    }
}

pub fn rate(text: &str) -> (r: Option<Real64>)
    ensures
        r == rate_of(text@),
{
    let chars: Vec<char> = chars_of(text);
    let s: &[char] = chars.as_slice();
    let slash: usize = find_char(s, '/', 0);
    let at: usize = if slash < s.len() {
        slash
    } else {
        find_char(s, ':', 0)
    };
    if at >= s.len() {
        return None;
    }
    let first: &[char] = slice_subrange(s, 0, at);
    let second: &[char] = slice_subrange(s, at + 1, s.len());
    proof {
        assert(first@ == text@.take(at as int));
        assert(second@ == text@.skip(at + 1));
    }
    match (Real64::parse(first), Real64::parse(second)) {
        (Some(a), Some(b)) => {
            let q: Real64 = a.div(b);
            if q.is_finite() && Real64::from_integer(0).less(q) {
                Some(q)
            } else {
                None
            }
        },
        _ => None,
    }
}

/// Whether a rate is one a video may have.
pub open spec fn rate_ok(fps: Real64) -> bool {
    Real64::of(1).up_to(fps) && fps.up_to(Real64::of(240))
}

/// A stream's frame rate as it is written under a key, if a video may have it.
pub open spec fn frame_rate(stream: crate::media::json::Tree, key: Seq<char>) -> Option<Seq<char>> {
    match stream.member(key).text() {
        Some(text) => match rate_of(text) {
            Some(fps) if rate_ok(fps) => Some(text),
            _ => None,
        },
        None => None,
    }
}

fn read_frame_rate(stream: &Json, key: &str) -> (r: Option<String>)
    ensures
        crate::path::is_some_text(r, frame_rate(crate::media::json::tree(*stream), key@)),
{
    match stream.get(key).as_text() {
        Some(text) => match rate(text) {
            Some(fps) => if Real64::from_integer(1).at_most(fps) && fps.at_most(
                Real64::from_integer(240),
            ) {
                Some(owned(text))
            } else {
                None
            },
            None => None,
        },
        None => None,
    }
}

// -------------------------------------------------------------------------------------------
// Streams
// -------------------------------------------------------------------------------------------

/// Whether a stream holds the kind of track asked for. A picture attached to the file, such as
/// a cover, is no video.
pub open spec fn stream_is(stream: crate::media::json::Tree, video: bool) -> bool {
    if video {
        stream.member("codec_type"@) == crate::media::json::Tree::Text("video"@) && stream.member(
            "disposition"@,
        ).member("attached_pic"@).unsigned() != Some(1u64)
    } else {
        stream.member("codec_type"@) == crate::media::json::Tree::Text("audio"@)
    }
}

/// The first stream, from `i` on, that holds video or audio.
pub open spec fn first_stream(
    streams: Seq<crate::media::json::Tree>,
    video: bool,
    i: int,
) -> Option<crate::media::json::Tree>
    decreases streams.len() - i,
{
    if i >= streams.len() {
        None
    } else if stream_is(streams[i], video) {
        Some(streams[i])
    } else {
        first_stream(streams, video, i + 1)
    }
}

fn find_stream(streams: &Vec<Json>, video: bool) -> (r: Option<&Json>)
    ensures
        match r {
            Some(stream) => first_stream(crate::media::json::trees(streams@), video, 0) == Some(
                crate::media::json::tree(*stream),
            ),
            None => first_stream(crate::media::json::trees(streams@), video, 0) is None,
        },
{
    proof {
        crate::media::json::lemma_trees(streams@);
    }
    let mut i: usize = 0;
    while i < streams.len()
        invariant
            i <= streams@.len(),
            crate::media::json::trees(streams@).len() == streams@.len(),
            forall|k: int|
                0 <= k < streams@.len() ==> #[trigger] crate::media::json::trees(streams@)[k]
                    == crate::media::json::tree(streams@[k]),
            first_stream(crate::media::json::trees(streams@), video, 0) == first_stream(
                crate::media::json::trees(streams@),
                video,
                i as int,
            ),
        decreases streams@.len() - i,
    {
        let stream: &Json = &streams[i];
        assert(crate::media::json::trees(streams@)[i as int] == crate::media::json::tree(*stream));
        let found: bool = if video {
            let picture: bool = match stream.get("disposition").get("attached_pic").as_unsigned() {
                Some(n) => n == 1,
                None => false,
            };
            stream.get("codec_type").is_text("video") && !picture
        } else {
            stream.get("codec_type").is_text("audio")
        };
        if found {
            return Some(stream);
        }
        i = i + 1;
    }
    None
}

/// The first rotation among side data, from `i` on.
pub open spec fn first_rotation(list: Seq<crate::media::json::Tree>, i: int) -> Option<Real64>
    decreases list.len() - i,
{
    if i >= list.len() {
        None
    } else {
        match list[i].member("rotation"@).number() {
            Some(n) => Some(n),
            None => first_rotation(list, i + 1),
        }
    }
}

/// How far a stream is turned, in degrees: as its side data says, or else its tags.
pub open spec fn rotation_of(stream: crate::media::json::Tree) -> Real64 {
    let side = match stream.member("side_data_list"@) {
        crate::media::json::Tree::List(list) => first_rotation(list, 0),
        _ => None,
    };
    match side {
        Some(n) => n,
        None => match stream.member("tags"@).member("rotate"@).number() {
            Some(n) => n,
            None => Real64 { bits: 0 },
        },
    }
}

fn read_rotation(stream: &Json) -> (r: Real64)
    ensures
        r == rotation_of(crate::media::json::tree(*stream)),
{
    match stream.get("side_data_list") {
        Json::List(list) => {
            proof {
                crate::media::json::lemma_trees(list@);
            }
            let mut i: usize = 0;
            while i < list.len()
                invariant
                    i <= list@.len(),
                    crate::media::json::tree(*stream).member("side_data_list"@)
                        == crate::media::json::Tree::List(crate::media::json::trees(list@)),
                    crate::media::json::trees(list@).len() == list@.len(),
                    forall|k: int|
                        0 <= k < list@.len() ==> #[trigger] crate::media::json::trees(list@)[k]
                            == crate::media::json::tree(list@[k]),
                    first_rotation(crate::media::json::trees(list@), 0) == first_rotation(
                        crate::media::json::trees(list@),
                        i as int,
                    ),
                decreases list@.len() - i,
            {
                assert(crate::media::json::trees(list@)[i as int] == crate::media::json::tree(
                    list@[i as int],
                ));
                match list[i].get("rotation").number() {
                    Some(n) => {
                        return n;
                    },
                    None => {},
                }
                i = i + 1;
            }
        },
        _ => {},
    }
    match stream.get("tags").get("rotate").number() {
        Some(n) => n,
        None => Real64 { bits: 0 },
    }
}

/// A rotation as whole degrees of one turn.
pub open spec fn quarter(rotation: Real64) -> int {
    rotation.rounded_signed(0x7fff_ffff) % 360
}

// -------------------------------------------------------------------------------------------
// The report
// -------------------------------------------------------------------------------------------

/// The size a stream shows at: its pixels made square, and turned.
pub open spec fn shown_size(stream: crate::media::json::Tree) -> Result<(u32, u32), ProbeError> {
    match (stream.member("width"@).unsigned(), stream.member("height"@).unsigned()) {
        (None, _) => Err(ProbeError::NoWidth),
        (Some(_), None) => Err(ProbeError::NoHeight),
        (Some(w), Some(h)) => {
            let aspect = match stream.member("sample_aspect_ratio"@).text() {
                Some(text) => match rate_of(text) {
                    Some(aspect) => aspect,
                    None => Real64::of(1),
                },
                None => Real64::of(1),
            };
            let square = Real64::of(w as nat).times(aspect).rounded(u32::MAX as nat);
            let wide: u32 = if square < 1 {
                1
            } else {
                square as u32
            };
            let angle = quarter(rotation_of(stream));
            let turned = angle == 90 || angle == 270;
            let size: (u32, u32) = if turned {
                (h as u32, wide)
            } else {
                (wide, h as u32)
            };
            if w > 16384 || h > 16384 {
                Err(ProbeError::TooLarge)
            } else if !crate::crt::config::size_ok((w as u32, h as u32)) {
                Err(ProbeError::Size)
            } else if !(Real64 { bits: TENTH }.up_to(aspect) && aspect.up_to(Real64::of(10))) {
                Err(ProbeError::PixelAspect)
            } else if !(angle == 0 || angle == 90 || angle == 180 || angle == 270) {
                Err(ProbeError::Rotation)
            } else if !crate::crt::config::size_ok(size) {
                Err(ProbeError::Size)
            } else {
                Ok(size)
            }
        },
    }
}

/// The bits of 0.1.
pub const TENTH: u64 = 0x3FB9_9999_9999_999A;

fn read_size(stream: &Json) -> (r: Result<(u32, u32), ProbeError>)
    ensures
        r == shown_size(crate::media::json::tree(*stream)),
{
    let w: u64 = match stream.get("width").as_unsigned() {
        Some(w) => w,
        None => {
            return Err(ProbeError::NoWidth);
        },
    };
    let h: u64 = match stream.get("height").as_unsigned() {
        Some(h) => h,
        None => {
            return Err(ProbeError::NoHeight);
        },
    };
    if w > 16384 || h > 16384 {
        return Err(ProbeError::TooLarge);
    }
    match validate_size((w as u32, h as u32)) {
        Ok(()) => {},
        Err(_) => {
            return Err(ProbeError::Size);
        },
    }
    let aspect: Real64 = match stream.get("sample_aspect_ratio").as_text() {
        Some(text) => match rate(text) {
            Some(aspect) => aspect,
            None => Real64::from_integer(1),
        },
        None => Real64::from_integer(1),
    };
    if !((Real64 { bits: TENTH }).at_most(aspect) && aspect.at_most(Real64::from_integer(10))) {
        return Err(ProbeError::PixelAspect);
    }
    let square: u64 = Real64::from_integer(w).mul(aspect).round(u32::MAX as u64);
    let wide: u32 = if square < 1 {
        1
    } else {
        square as u32
    };
    let degrees: i64 = read_rotation(stream).round_signed(0x7fff_ffff);
    let angle: i64 = ((degrees % 360) + 360) % 360;
    assert(angle == degrees as int % 360);
    if !(angle == 0 || angle == 90 || angle == 180 || angle == 270) {
        return Err(ProbeError::Rotation);
    }
    let size: (u32, u32) = if angle == 90 || angle == 270 {
        (h as u32, wide)
    } else {
        (wide, h as u32)
    };
    match validate_size(size) {
        Ok(()) => Ok(size),
        Err(_) => Err(ProbeError::Size),
    }
}

/// A size with its sides swapped; what is wrong with one stays.
pub open spec fn swapped(size: Result<(u32, u32), ProbeError>) -> Result<(u32, u32), ProbeError> {
    match size {
        Ok((w, h)) => Ok((h, w)),
        Err(e) => Err(e),
    }
}

/// Whether two streams hold the same pixels of the same shape.
pub open spec fn same_pixels(a: crate::media::json::Tree, b: crate::media::json::Tree) -> bool {
    &&& a.member("width"@) == b.member("width"@)
    &&& a.member("height"@) == b.member("height"@)
    &&& a.member("sample_aspect_ratio"@) == b.member("sample_aspect_ratio"@)
}

/// Whole degrees are read as they are.
proof fn lemma_whole_degrees(n: int)
    requires
        -0x7fff_ffff <= n <= 0x7fff_ffff,
    ensures
        Real64::of_signed(n).rounded_signed(0x7fff_ffff) == n,
{
    reveal(Real64::of);
    reveal(Real64::rounded);
    let f = crate::float::Format::Double;
    let m: nat = if n < 0 {
        (-n) as nat
    } else {
        n as nat
    };
    crate::float::small_integers_are_exact(f, m);
    crate::float::integers_round_to_themselves(f, m, 0x7fff_ffff);
}

/// A stream that says it is turned is shown so: by a quarter of a circle, to either side, with the
/// sides of the unturned one swapped; by half of one, as the unturned one. So a picture turned to
/// the left is as large as one turned to the right.
pub proof fn quarter_turns_swap_the_sides(
    plain: crate::media::json::Tree,
    turned: crate::media::json::Tree,
    n: int,
    m: int,
)
    requires
        same_pixels(plain, turned),
        -0x7fff_ffff <= n <= 0x7fff_ffff,
        -0x7fff_ffff <= m <= 0x7fff_ffff,
        rotation_of(plain) == Real64::of_signed(n),
        rotation_of(turned) == Real64::of_signed(m),
        n % 90 == 0,
        m % 90 == 0,
    ensures
        shown_size(turned) == (if (m - n) % 180 == 0 {
            shown_size(plain)
        } else {
            swapped(shown_size(plain))
        }),
{
    lemma_whole_degrees(n);
    lemma_whole_degrees(m);
    assert forall|w: u32, h: u32|
        #[trigger] crate::crt::config::size_ok((w, h)) == crate::crt::config::size_ok((h, w)) by {
        assert(w * h == h * w) by (nonlinear_arith);
    }
    if let Ok(size) = shown_size(plain) {
        assert(crate::crt::config::size_ok((size.1, size.0)));
    }
    if let Ok(size) = shown_size(turned) {
        assert(crate::crt::config::size_ok((size.1, size.0)));
    }
}

/// A stream of square pixels that is not turned is shown as large as it is stored, where that is
/// within the limits.
pub proof fn square_pixels_are_shown_as_stored(stream: crate::media::json::Tree, w: u64, h: u64)
    requires
        stream.member("width"@).unsigned() == Some(w),
        stream.member("height"@).unsigned() == Some(h),
        stream.member("sample_aspect_ratio"@).text() is None || rate_of(
            stream.member("sample_aspect_ratio"@).text()->0,
        ) is None,
        rotation_of(stream) == Real64::of_signed(0),
        w <= 16384,
        h <= 16384,
        crate::crt::config::size_ok((w as u32, h as u32)),
    ensures
        shown_size(stream) == Ok::<(u32, u32), ProbeError>((w as u32, h as u32)),
{
    lemma_whole_degrees(0);
    lemma_times_one(w);
    reveal(Real64::up_to);
    reveal(Real64::of);
    let f = crate::float::Format::Double;
    crate::float::one_is_exact(f);
    crate::float::small_integers_are_exact(f, 1);
    crate::float::small_integers_are_exact(f, 10);
    crate::float::rounding_keeps_order(
        f,
        crate::float::scaled(1, 0),
        crate::float::scaled(10, 0),
        1,
    );
}

proof fn lemma_times_one(w: u64)
    requires
        w <= 16384,
    ensures
        Real64::of(w as nat).times(Real64::of(1)).rounded(u32::MAX as nat) == w,
{
    reveal(Real64::of);
    reveal(Real64::times);
    reveal(Real64::rounded);
    let f = crate::float::Format::Double;
    crate::float::one_is_exact(f);
    crate::float::small_integers_are_exact(f, 1);
    crate::float::small_integers_are_exact(f, w as nat);
    let exact = crate::crt::canvas::lemma_exact_product(f, w as nat, f.of(1));
    assert(exact == crate::float::scaled(w as nat, 0));
    crate::float::integers_round_to_themselves(f, w as nat, u32::MAX as nat);
}

/// A stream whose pixels are not square is shown with its width stretched to make them so, to the
/// nearest pixel, and its height as it is stored.
pub proof fn pixels_are_made_square(
    stream: crate::media::json::Tree,
    w: u64,
    h: u64,
    aspect: Real64,
)
    requires
        stream.member("width"@).unsigned() == Some(w),
        stream.member("height"@).unsigned() == Some(h),
        stream.member("sample_aspect_ratio"@).text() is Some,
        rate_of(stream.member("sample_aspect_ratio"@).text()->0) == Some(aspect),
        rotation_of(stream) == Real64::of_signed(0),
        shown_size(stream) is Ok,
    ensures
        shown_size(stream)->Ok_0.1 == h,
        ({
            let one = crate::float::unit_pow(0) as int;
            let exact = w * crate::float::Format::Double.value(aspect.at());
            let wide = shown_size(stream)->Ok_0.0 * one;
            wide == one || crate::margin::within(1000 * wide, 1000 * exact, 501 * one)
        }),
{
    lemma_whole_degrees(0);
    reveal(Real64::of);
    reveal(Real64::times);
    reveal(Real64::rounded);
    reveal(Real64::up_to);
    reveal(Real64::finite);
    let f = crate::float::Format::Double;
    let one = crate::float::unit_pow(0) as int;
    crate::float::small_integers_are_exact(f, w as nat);
    crate::float::small_integers_are_exact(f, 10);
    crate::float::small_integers_are_exact(f, 0);
    crate::margin::lemma_double_units();
    let a = aspect.at();
    crate::float::order_follows_value(f, a, f.of(10));
    let v = f.value(a);
    lemma_tenth_is_positive(a);
    let n = w as int;
    let x = f.value(f.of(w as nat));
    assert(x * v == (n * v) * one) by (nonlinear_arith)
        requires
            x == n * one,
    ;
    assert(0 <= n * v <= 163840 * one) by (nonlinear_arith)
        requires
            0 <= n <= 16384,
            0 <= v <= 10 * one,
            one > 0,
    ;
    assert((n * v) * one < (262144 * one) * one) by (nonlinear_arith)
        requires
            n * v <= 163840 * one,
            one > 0,
    ;
    crate::margin::products_are_close(f, f.of(w as nat), a, 18);
    let r = f.product(f.of(w as nat), a);
    let z = f.value(r);
    let e = crate::float::unit_pow(-36) as int;
    assert(crate::margin::within(z, n * v, e)) by {
        assert(z - n * v <= e && n * v - z <= e) by (nonlinear_arith)
            requires
                z * one - (n * v) * one <= e * one,
                (n * v) * one - z * one <= e * one,
                one > 0,
        ;
    }
    crate::margin::rounds_to_nearest(f, r, u32::MAX as nat, 1048576);
    let square = f.rounded(r, u32::MAX as nat);
    let wide = shown_size(stream)->Ok_0.0;
    assert(Real64::of(w as nat).times(aspect).rounded(u32::MAX as nat) == square);
    if square < 1 {
        assert(wide * one == one) by (nonlinear_arith)
            requires
                wide == 1,
        ;
    } else {
        assert(wide * one == square * one);
    }
}

/// Numbers that are at least a tenth are over zero.
proof fn lemma_tenth_is_positive(a: nat)
    requires
        crate::float::Format::Double.at_most(TENTH as nat, a),
        crate::float::Format::Double.finite(a),
    ensures
        crate::float::Format::Double.value(a) >= 0,
{
}

/// A number under a key of a stream, or else `fallback`.
pub open spec fn number_or(
    stream: crate::media::json::Tree,
    key: Seq<char>,
    fallback: Real64,
) -> Real64 {
    match stream.member(key).number() {
        Some(n) => n,
        None => fallback,
    }
}

fn read_number_or(stream: &Json, key: &str, fallback: Real64) -> (r: Real64)
    ensures
        r == number_or(crate::media::json::tree(*stream), key@, fallback),
{
    match stream.get(key).number() {
        Some(n) => n,
        None => fallback,
    }
}

/// A stream as a track, if it says which it is and what it holds.
pub open spec fn track_of(stream: crate::media::json::Tree, start: Real64) -> Option<TrackView> {
    match (stream.member("index"@).unsigned(), stream.member("codec_type"@).text()) {
        (Some(index), Some(codec_type)) => Some(
            TrackView {
                index,
                kind: TrackKind::named(codec_type),
                codec: match stream.member("codec_name"@).text() {
                    Some(codec) => codec,
                    None => Seq::empty(),
                },
                offset: number_or(stream, "start_time"@, start).minus(start),
            },
        ),
        _ => None,
    }
}

/// The streams that are tracks, in order.
pub open spec fn tracks_in(streams: Seq<crate::media::json::Tree>, start: Real64) -> Seq<TrackView>
    decreases streams.len(),
{
    if streams.len() == 0 {
        Seq::empty()
    } else {
        match track_of(streams.last(), start) {
            Some(track) => tracks_in(streams.drop_last(), start).push(track),
            None => tracks_in(streams.drop_last(), start),
        }
    }
}

fn read_track(stream: &Json, start: Real64) -> (r: Option<Track>)
    ensures
        match r {
            Some(track) => track_of(crate::media::json::tree(*stream), start) == Some(track@),
            None => track_of(crate::media::json::tree(*stream), start) is None,
        },
{
    match (stream.get("index").as_unsigned(), stream.get("codec_type").as_text()) {
        (Some(index), Some(codec_type)) => {
            let codec: String = match stream.get("codec_name").as_text() {
                Some(codec) => owned(codec),
                None => String::new(),
            };
            Some(
                Track {
                    index,
                    kind: TrackKind::parse(codec_type),
                    codec,
                    offset: read_number_or(stream, "start_time", start).sub(start),
                },
            )
        },
        _ => None,
    }
}

fn read_tracks(streams: &Vec<Json>, start: Real64) -> (r: Vec<Track>)
    ensures
        track_views(r@) == tracks_in(crate::media::json::trees(streams@), start),
{
    proof {
        crate::media::json::lemma_trees(streams@);
    }
    let mut r: Vec<Track> = Vec::new();
    let mut i: usize = 0;
    let ghost all = crate::media::json::trees(streams@);
    while i < streams.len()
        invariant
            i <= streams@.len(),
            all == crate::media::json::trees(streams@),
            all.len() == streams@.len(),
            forall|k: int|
                0 <= k < streams@.len() ==> #[trigger] all[k] == crate::media::json::tree(
                    streams@[k],
                ),
            track_views(r@) == tracks_in(all.take(i as int), start),
        decreases streams@.len() - i,
    {
        proof {
            assert(all[i as int] == crate::media::json::tree(streams@[i as int]));
            assert(all.take(i as int + 1).drop_last() == all.take(i as int));
        }
        let ghost before = r@;
        match read_track(&streams[i], start) {
            Some(track) => {
                r.push(track);
                assert(track_views(r@) == track_views(before).push(track@));
            },
            None => {},
        }
        i = i + 1;
    }
    assert(all.take(all.len() as int) == all);
    r
}

/// The entries that hold text, in order.
pub open spec fn tags_in(entries: Seq<(Seq<char>, crate::media::json::Tree)>) -> Seq<
    (Seq<char>, Seq<char>),
>
    decreases entries.len(),
{
    if entries.len() == 0 {
        Seq::empty()
    } else {
        match entries.last().1.text() {
            Some(text) => tags_in(entries.drop_last()).push((entries.last().0, text)),
            None => tags_in(entries.drop_last()),
        }
    }
}

/// A file's tags.
pub open spec fn tags_of(tags: crate::media::json::Tree) -> Seq<(Seq<char>, Seq<char>)> {
    match tags {
        crate::media::json::Tree::Object(entries) => tags_in(entries),
        _ => Seq::empty(),
    }
}

fn read_tags(tags: &Json) -> (r: Vec<(String, String)>)
    ensures
        tag_views(r@) == tags_of(crate::media::json::tree(*tags)),
{
    let mut r: Vec<(String, String)> = Vec::new();
    assert(tag_views(r@) == Seq::<(Seq<char>, Seq<char>)>::empty());
    match tags {
        Json::Object(entries) => {
            proof {
                crate::media::json::lemma_entry_trees(entries@);
            }
            let ghost all = crate::media::json::entry_trees(entries@);
            let mut i: usize = 0;
            while i < entries.len()
                invariant
                    i <= entries@.len(),
                    all == crate::media::json::entry_trees(entries@),
                    all.len() == entries@.len(),
                    forall|k: int|
                        0 <= k < entries@.len() ==> #[trigger] all[k] == (
                            entries@[k].0@,
                            crate::media::json::tree(entries@[k].1),
                        ),
                    tag_views(r@) == tags_in(all.take(i as int)),
                decreases entries@.len() - i,
            {
                proof {
                    assert(all[i as int].0 == entries@[i as int].0@);
                    assert(all.take(i as int + 1).drop_last() == all.take(i as int));
                }
                let ghost before = r@;
                match entries[i].1.as_text() {
                    Some(text) => {
                        let key: String = owned(entries[i].0.as_str());
                        let value: String = owned(text);
                        r.push((key, value));
                        assert(tag_views(r@) == tag_views(before).push((key@, value@)));
                    },
                    None => {},
                }
                i = i + 1;
            }
            assert(all.take(all.len() as int) == all);
        },
        _ => {},
    }
    r
}

/// A video's length, as its stream says or else its file.
pub open spec fn duration_of(
    root: crate::media::json::Tree,
    stream: crate::media::json::Tree,
) -> Option<Real64> {
    match stream.member("duration"@).number() {
        Some(n) => Some(n),
        None => root.member("format"@).member("duration"@).number(),
    }
}

/// Whether a stream is high dynamic range.
pub open spec fn is_hdr(stream: crate::media::json::Tree) -> bool {
    stream.member("color_transfer"@) == crate::media::json::Tree::Text("smpte2084"@)
        || stream.member("color_transfer"@) == crate::media::json::Tree::Text("arib-std-b67"@)
}

/// What is wrong with a report whose video stream is `stream`, if anything.
pub open spec fn stream_fault(
    root: crate::media::json::Tree,
    stream: crate::media::json::Tree,
) -> Option<ProbeError> {
    if let Err(e) = shown_size(stream) {
        Some(e)
    } else if frame_rate(stream, "avg_frame_rate"@) is None && frame_rate(stream, "r_frame_rate"@) is None {
        Some(ProbeError::FrameRate)
    } else {
        match duration_of(root, stream) {
            None => Some(ProbeError::NoDuration),
            Some(duration) => if !(Real64::of(0).below(duration) && duration.up_to(
                Real64::of(604800),
            )) {
                Some(ProbeError::Duration)
            } else if stream.member("index"@).unsigned() is None {
                Some(ProbeError::NoIndex)
            } else {
                None
            },
        }
    }
}

impl Video {
    /// Whether this is the video that a report describes, in its stream `stream`.
    pub open spec fn is_reported(
        self,
        root: crate::media::json::Tree,
        streams: Seq<crate::media::json::Tree>,
        stream: crate::media::json::Tree,
    ) -> bool {
        let start = number_or(stream, "start_time"@, Real64 { bits: 0 });
        let audio = first_stream(streams, false, 0);
        &&& tag_views(self.metadata@) == tags_of(root.member("format"@).member("tags"@))
        &&& track_views(self.tracks@) == tracks_in(streams, start)
        &&& self.start == start
        &&& shown_size(stream) == Ok::<(u32, u32), ProbeError>(self.size)
        &&& Some(self.rate@) == (match frame_rate(stream, "avg_frame_rate"@) {
            Some(text) => Some(text),
            None => frame_rate(stream, "r_frame_rate"@),
        })
        &&& Some(self.fps) == rate_of(self.rate@)
        &&& Some(self.duration) == duration_of(root, stream)
        &&& self.audio == (audio is Some)
        &&& self.audio_offset == (match audio {
            Some(audio) => number_or(audio, "start_time"@, start),
            None => start,
        }).minus(start)
        &&& self.hdr == is_hdr(stream)
        &&& Some(self.stream) == stream.member("index"@).unsigned()
        &&& self.frames == stream.member("nb_frames"@).positive()
        &&& self.source == Source::Ffmpeg
    }
}

/// Whether an outcome is what a report describes.
pub open spec fn is_probe(
    r: Result<Video, ProbeError>,
    path: Seq<char>,
    root: crate::media::json::Tree,
) -> bool {
    match root.member("streams"@) {
        crate::media::json::Tree::List(streams) => match first_stream(streams, true, 0) {
            None => r == Err::<Video, ProbeError>(ProbeError::NoVideo),
            Some(stream) => match stream_fault(root, stream) {
                Some(e) => r == Err::<Video, ProbeError>(e),
                None => r matches Ok(video) && video.path@ == path && video.is_reported(
                    root,
                    streams,
                    stream,
                ),
            },
        },
        _ => r == Err::<Video, ProbeError>(ProbeError::NoStreams),
    }
}

/// The video that ffprobe's report describes.
pub fn parse_probe(path: String, root: &Json) -> (r: Result<Video, ProbeError>)
    ensures
        is_probe(r, path@, crate::media::json::tree(*root)),
{
    let streams: &Vec<Json> = match root.get("streams") {
        Json::List(streams) => streams,
        _ => {
            return Err(ProbeError::NoStreams);
        },
    };
    let v: &Json = match find_stream(streams, true) {
        Some(v) => v,
        None => {
            return Err(ProbeError::NoVideo);
        },
    };
    let size: (u32, u32) = match read_size(v) {
        Ok(size) => size,
        Err(e) => {
            return Err(e);
        },
    };
    let average: Option<String> = read_frame_rate(v, "avg_frame_rate");
    let found: Option<String> = match average {
        Some(text) => Some(text),
        None => read_frame_rate(v, "r_frame_rate"),
    };
    let rate_text: String = match found {
        Some(text) => text,
        None => {
            return Err(ProbeError::FrameRate);
        },
    };
    let fps: Real64 = match rate(rate_text.as_str()) {
        Some(fps) => fps,
        None => {
            return Err(ProbeError::FrameRate);
        },
    };
    let length: Option<Real64> = match v.get("duration").number() {
        Some(n) => Some(n),
        None => root.get("format").get("duration").number(),
    };
    let duration: Real64 = match length {
        Some(n) => n,
        None => {
            return Err(ProbeError::NoDuration);
        },
    };
    if !(Real64::from_integer(0).less(duration) && duration.at_most(
        Real64::from_integer(604800),
    )) {
        return Err(ProbeError::Duration);
    }
    let a: Option<&Json> = find_stream(streams, false);
    let start: Real64 = read_number_or(v, "start_time", Real64 { bits: 0 });
    let audio_start: Real64 = match a {
        Some(a) => read_number_or(a, "start_time", start),
        None => start,
    };
    let stream: u64 = match v.get("index").as_unsigned() {
        Some(index) => index,
        None => {
            return Err(ProbeError::NoIndex);
        },
    };
    let transfer: &Json = v.get("color_transfer");
    Ok(
        Video {
            metadata: read_tags(root.get("format").get("tags")),
            tracks: read_tracks(streams, start),
            start,
            path,
            size,
            fps,
            rate: rate_text,
            duration,
            audio: a.is_some(),
            audio_offset: audio_start.sub(start),
            hdr: transfer.is_text("smpte2084") || transfer.is_text("arib-std-b67"),
            stream,
            frames: v.get("nb_frames").positive_integer(),
            source: Source::Ffmpeg,
        },
    )
}

/// Reads what ffprobe wrote of a file.
pub fn probe(path: String, report: &[u8]) -> (r: Result<Video, ProbeError>)
    ensures
        match crate::media::json::parsed(report@) {
            Some(root) => is_probe(r, path@, root),
            None => r == Err::<Video, ProbeError>(ProbeError::Unreadable),
        },
{
    match read_json(report) {
        Some(root) => parse_probe(path, &root),
        None => Err(ProbeError::Unreadable),
    }
}

// -------------------------------------------------------------------------------------------
// Frames
// -------------------------------------------------------------------------------------------

/// Why the frames of a video cannot be counted.
#[derive(Clone, Copy, Debug, PartialEq, Eq, Structural)]
pub enum CountError {
    Unreadable,
    Uncounted,
    Empty,
}

impl CountError {
    pub fn message(self) -> (r: &'static str)
        ensures
            r@ == (match self {
                CountError::Unreadable | CountError::Uncounted => "Cannot count video frames"@,
                CountError::Empty => "Video contains no decoded frames"@,
            }),
    {
        match self {
            Self::Unreadable | Self::Uncounted => "Cannot count video frames",
            Self::Empty => "Video contains no decoded frames",
        }
    }
}

/// How many frames ffprobe counted.
pub open spec fn counted(root: crate::media::json::Tree) -> Result<u64, CountError> {
    let count = match root.member("streams"@) {
        crate::media::json::Tree::List(streams) => if streams.len() > 0 {
            match streams[0].member("nb_read_frames"@).text() {
                Some(text) => crate::text::unsigned(text, u64::MAX as nat),
                None => None,
            }
        } else {
            None
        },
        _ => None,
    };
    match count {
        None => Err(CountError::Uncounted),
        Some(n) => if n > 0 {
            Ok(n as u64)
        } else {
            Err(CountError::Empty)
        },
    }
}

pub fn parse_frame_count(root: &Json) -> (r: Result<u64, CountError>)
    ensures
        r == counted(crate::media::json::tree(*root)),
{
    let count: Option<u64> = match root.get("streams") {
        Json::List(streams) => {
            proof {
                crate::media::json::lemma_trees(streams@);
            }
            if streams.len() > 0 {
                assert(crate::media::json::trees(streams@)[0] == crate::media::json::tree(
                    streams@[0],
                ));
                match streams[0].get("nb_read_frames").as_text() {
                    Some(text) => {
                        let chars: Vec<char> = chars_of(text);
                        crate::text::parse_unsigned(chars.as_slice(), u64::MAX)
                    },
                    None => None,
                }
            } else {
                None
            }
        },
        _ => None,
    };
    match count {
        None => Err(CountError::Uncounted),
        Some(n) => if n > 0 {
            Ok(n)
        } else {
            Err(CountError::Empty)
        },
    }
}

/// What ffprobe is asked of a file that is opened.
pub fn probe_args(path: &str) -> (r: Args)
    ensures
        r@ == crate::media::args::ffprobe_start() + crate::media::args::texts(
            seq!["-show_streams"@, "-show_format"@, "-of"@, "json"@, path@],
        ),
{
    let mut r: Args = Args::ffprobe();
    r.add(["-show_streams", "-show_format", "-of", "json", path]);
    r
}

/// What ffprobe is asked to find the settings that a video keeps.
pub fn comment_args(path: &str) -> (r: Args)
    ensures
        r@ == crate::media::args::ffprobe_start() + crate::media::args::texts(
            seq!["-show_entries"@, "format_tags=comment"@, "-of"@, "json"@, path@],
        ),
{
    let mut r: Args = Args::ffprobe();
    r.add(["-show_entries", "format_tags=comment", "-of", "json", path]);
    r
}

/// What ffprobe is asked to count a video's frames.
pub fn count_args(video: &Video) -> (r: Args)
    ensures
        r@ == crate::media::args::ffprobe_start() + crate::media::args::texts(
            seq![
                "-select_streams"@,
                crate::text::decimal(video.stream as nat),
                "-count_frames"@,
                "-show_entries"@,
                "stream=nb_read_frames"@,
                "-of"@,
                "json"@,
                video.path@,
            ],
        ),
{
    let stream: String = decimal_text(video.stream);
    let mut r: Args = Args::ffprobe();
    r.add(
        [
            "-select_streams",
            stream.as_str(),
            "-count_frames",
            "-show_entries",
            "stream=nb_read_frames",
            "-of",
            "json",
            video.path.as_str(),
        ],
    );
    r
}

/// How many frames a video has, where that is known without counting them.
pub fn known_frames(video: &Video) -> (r: Option<u64>)
    ensures
        r == (match video.frames {
            Some(frames) => if frames > 0 {
                Some(frames)
            } else {
                None
            },
            None => None,
        }),
{
    match video.frames {
        Some(frames) => if frames > 0 {
            Some(frames)
        } else {
            None
        },
        None => None,
    }
}

/// Reads the count that ffprobe wrote.
pub fn frame_count(report: &[u8]) -> (r: Result<u64, CountError>)
    ensures
        r == (match crate::media::json::parsed(report@) {
            Some(root) => counted(root),
            None => Err::<u64, CountError>(CountError::Unreadable),
        }),
{
    match read_json(report) {
        Some(root) => parse_frame_count(&root),
        None => Err(CountError::Unreadable),
    }
}

/// How long the first `frames` frames show, in milliseconds.
pub open spec fn shown_before(delays: Seq<u32>, frames: int) -> Real64
    decreases frames,
{
    if frames <= 0 || delays.len() == 0 {
        Real64::of(0)
    } else if frames > delays.len() {
        shown_before(delays, delays.len() as int)
    } else {
        shown_before(delays, frames - 1).plus(Real64::of(delays[frames - 1] as nat))
    }
}

/// The tracks that hold `kind`, in order.
pub open spec fn of_kind(tracks: Seq<Track>, kind: TrackKind) -> Seq<Track> {
    tracks.filter(|t: Track| t.kind == kind)
}

impl Video {
    /// The tracks that hold `kind`, in the file's order.
    pub fn tracks_of(&self, kind: TrackKind) -> (r: Vec<&Track>)
        ensures
            r@.len() == of_kind(self.tracks@, kind).len(),
            forall|i: int|
                0 <= i < r@.len() ==> *#[trigger] r@[i] == of_kind(self.tracks@, kind)[i],
    {
        let mut r: Vec<&Track> = Vec::new();
        let ghost wanted = |t: Track| t.kind == kind;
        let mut i: usize = 0;
        assert(self.tracks@.take(0).filter(wanted) == Seq::<Track>::empty()) by {
            reveal(Seq::filter);
        }
        while i < self.tracks.len()
            invariant
                i <= self.tracks@.len(),
                wanted == (|t: Track| t.kind == kind),
                r@.len() == self.tracks@.take(i as int).filter(wanted).len(),
                forall|k: int|
                    0 <= k < r@.len() ==> *#[trigger] r@[k] == self.tracks@.take(i as int).filter(
                        wanted,
                    )[k],
            decreases self.tracks@.len() - i,
        {
            proof {
                reveal(Seq::filter);
                assert(self.tracks@.take(i as int + 1).drop_last() == self.tracks@.take(i as int));
                assert(self.tracks@.take(i as int + 1).last() == self.tracks@[i as int]);
            }
            if self.tracks[i].kind == kind {
                r.push(&self.tracks[i]);
            }
            i = i + 1;
        }
        assert(self.tracks@.take(i as int) == self.tracks@);
        r
    }

    /// When decoded frame `frame`, counting from 0, starts, in seconds: exactly for an
    /// animation, whose frame times are known, and at the average rate for a video.
    pub open spec fn time_of(self, frame: nat) -> Real64 {
        let time = match self.source {
            Source::Animated { format, delays } => shown_before(delays@, frame as int).over(
                Real64::of(1000),
            ),
            Source::Ffmpeg => Real64::of(frame).over(self.fps),
        };
        time.lesser(self.duration)
    }

    pub fn frame_time(&self, frame: u64) -> (r: Real64)
        ensures
            r == self.time_of(frame as nat),
    {
        let time: Real64 = match &self.source {
            Source::Animated { format, delays } => {
                let mut sum: Real64 = Real64::from_integer(0);
                let mut i: usize = 0;
                while i < delays.len() && (i as u64) < frame
                    invariant
                        i <= delays@.len(),
                        i <= frame,
                        sum == shown_before(delays@, i as int),
                    decreases delays@.len() - i,
                {
                    sum = sum.add(Real64::from_integer(delays[i] as u64));
                    i = i + 1;
                }
                proof {
                    if frame > delays@.len() {
                        assert(shown_before(delays@, frame as int) == shown_before(
                            delays@,
                            delays@.len() as int,
                        ));
                    }
                }
                sum.div(Real64::from_integer(1000))
            },
            Source::Ffmpeg => Real64::from_integer(frame).div(self.fps),
        };
        time.min(self.duration)
    }
}

/// A stream holds video where it says so and is no cover picture.
pub open spec fn holds_video(stream: crate::media::json::Tree) -> bool {
    &&& stream.member("codec_type"@) == crate::media::json::Tree::Text("video"@)
    &&& stream.member("disposition"@).member("attached_pic"@).unsigned() != Some(1u64)
}

proof fn lemma_first_stream(streams: Seq<crate::media::json::Tree>, video: bool, i: int)
    requires
        0 <= i,
    ensures
        match first_stream(streams, video, i) {
            Some(stream) => exists|k: int|
                i <= k < streams.len() && #[trigger] streams[k] == stream && stream_is(stream, video)
                    && forall|j: int| i <= j < k ==> !stream_is(#[trigger] streams[j], video),
            None => forall|j: int| i <= j < streams.len() ==> !stream_is(#[trigger] streams[j], video),
        },
    decreases streams.len() - i,
{
    if i < streams.len() && !stream_is(streams[i], video) {
        lemma_first_stream(streams, video, i + 1);
        if first_stream(streams, video, i + 1) is Some {
            let k = choose|k: int|
                i + 1 <= k < streams.len() && #[trigger] streams[k] == first_stream(
                    streams,
                    video,
                    i + 1,
                )->0 && stream_is(streams[k], video) && forall|j: int|
                    i + 1 <= j < k ==> !stream_is(#[trigger] streams[j], video);
            assert forall|j: int| i <= j < k implies !stream_is(#[trigger] streams[j], video) by {}
        }
    } else if i < streams.len() {
        assert(streams[i] == streams[i]);
    }
}

/// What is read is the first stream that holds video, passing over cover pictures; there is a
/// video exactly where there is such a stream; and it has sound where any stream is audio.
pub proof fn the_first_video_is_read(
    r: Result<Video, ProbeError>,
    path: Seq<char>,
    root: crate::media::json::Tree,
    streams: Seq<crate::media::json::Tree>,
)
    requires
        is_probe(r, path, root),
        root.member("streams"@) == crate::media::json::Tree::List(streams),
    ensures
        (r == Err::<Video, ProbeError>(ProbeError::NoVideo)) ==> forall|j: int|
            0 <= j < streams.len() ==> !holds_video(#[trigger] streams[j]),
        r matches Ok(video) ==> exists|k: int|
            {
                &&& 0 <= k < streams.len()
                &&& holds_video(#[trigger] streams[k])
                &&& forall|j: int| 0 <= j < k ==> !holds_video(#[trigger] streams[j])
                &&& Some(video.stream) == streams[k].member("index"@).unsigned()
                &&& Ok::<(u32, u32), ProbeError>(video.size) == shown_size(streams[k])
                &&& video.hdr == (streams[k].member("color_transfer"@)
                    == crate::media::json::Tree::Text("smpte2084"@) || streams[k].member(
                    "color_transfer"@,
                ) == crate::media::json::Tree::Text("arib-std-b67"@))
            },
        r matches Ok(video) ==> (video.audio <==> exists|j: int|
            0 <= j < streams.len() && #[trigger] streams[j].member("codec_type"@)
                == crate::media::json::Tree::Text("audio"@)),
{
    lemma_first_stream(streams, true, 0);
    lemma_first_stream(streams, false, 0);
    assert forall|j: int| 0 <= j < streams.len() implies holds_video(#[trigger] streams[j])
        == stream_is(streams[j], true) by {}
    if r == Err::<Video, ProbeError>(ProbeError::NoVideo) {
        match first_stream(streams, true, 0) {
            None => {},
            Some(stream) => {
                assert(shown_size(stream) != Err::<(u32, u32), ProbeError>(ProbeError::NoVideo));
            },
        }
    }
    if let Ok(video) = r {
        let stream = first_stream(streams, true, 0)->0;
        let k = choose|k: int|
            0 <= k < streams.len() && #[trigger] streams[k] == stream && stream_is(stream, true)
                && forall|j: int| 0 <= j < k ==> !stream_is(#[trigger] streams[j], true);
        assert(holds_video(streams[k]));
        if let Some(audio) = first_stream(streams, false, 0) {
            let a = choose|k: int|
                0 <= k < streams.len() && #[trigger] streams[k] == audio && stream_is(audio, false)
                    && forall|j: int| 0 <= j < k ==> !stream_is(#[trigger] streams[j], false);
            assert(streams[a].member("codec_type"@) == crate::media::json::Tree::Text("audio"@));
        }
    }
}

/// A video's rate is its average one where that is a rate, else its base one; its length is its
/// stream's, else its file's, and it starts where its stream does, else at zero.
pub proof fn streams_speak_before_files(
    video: Video,
    root: crate::media::json::Tree,
    streams: Seq<crate::media::json::Tree>,
    stream: crate::media::json::Tree,
)
    requires
        video.is_reported(root, streams, stream),
    ensures
        frame_rate(stream, "avg_frame_rate"@) is Some ==> Some(video.rate@) == frame_rate(
            stream,
            "avg_frame_rate"@,
        ),
        frame_rate(stream, "avg_frame_rate"@) is None ==> Some(video.rate@) == frame_rate(
            stream,
            "r_frame_rate"@,
        ),
        stream.member("duration"@).number() is Some ==> Some(video.duration) == stream.member(
            "duration"@,
        ).number(),
        stream.member("duration"@).number() is None ==> Some(video.duration) == root.member(
            "format"@,
        ).member("duration"@).number(),
        stream.member("start_time"@).number() is Some ==> Some(video.start) == stream.member(
            "start_time"@,
        ).number(),
        stream.member("start_time"@).number() is None ==> video.start == (Real64 { bits: 0 }),
        video.frames == stream.member("nb_frames"@).positive(),
{
}

/// A track that starts after the video is offset forward, one that starts before it back, and one
/// that does not say when it starts is not offset.
pub proof fn offsets_follow_the_start(stream: crate::media::json::Tree, start: Real64)
    requires
        start.finite(),
        track_of(stream, start) is Some,
        stream.member("start_time"@).number() matches Some(n) ==> n.finite(),
    ensures
        ({
            let offset = crate::margin::double_worth(track_of(stream, start)->0.offset);
            match stream.member("start_time"@).number() {
                Some(n) => {
                    &&& start.up_to(n) ==> offset >= 0
                    &&& n.up_to(start) ==> offset <= 0
                },
                None => offset == 0,
            }
        }),
{
    reveal(Real64::finite);
    reveal(Real64::minus);
    reveal(Real64::up_to);
    let f = crate::float::Format::Double;
    let from = number_or(stream, "start_time"@, start);
    crate::float::order_follows_value(f, start.at(), from.at());
    crate::float::order_follows_value(f, from.at(), start.at());
    crate::margin::differences_keep_sides(f, from.at(), start.at());
}

/// The first frame of a video starts at once, and no frame starts after its end.
pub proof fn frames_start_within_the_video(video: Video, frame: nat)
    requires
        video.duration.finite(),
        Real64::of(0).up_to(video.duration),
        video.source is Ffmpeg ==> video.fps.finite() && Real64::of(0).below(video.fps),
    ensures
        crate::margin::double_worth(video.time_of(0)) == 0,
        video.time_of(frame).up_to(video.duration),
{
    reveal(Real64::finite);
    reveal(Real64::up_to);
    reveal(Real64::below);
    reveal(Real64::over);
    let f = crate::float::Format::Double;
    crate::margin::whole_numbers_are_exact(0);
    crate::margin::whole_numbers_are_exact(1000);
    crate::margin::lemma_units();
    crate::margin::lemma_zero(f);
    crate::float::order_follows_value(f, f.of(0), video.duration.at());
    crate::float::order_follows_value(f, video.duration.at(), video.duration.at());
    let d = match video.source {
        Source::Animated { format, delays } => Real64::of(1000),
        Source::Ffmpeg => video.fps,
    };
    crate::float::order_follows_value(f, f.of(0), d.at());
    let q = Real64::of(0).over(d);
    crate::margin::nothing_shares_to_nothing(f, f.of(0), d.at());
    crate::float::order_follows_value(f, video.duration.at(), q.at());
}

} // verus!
