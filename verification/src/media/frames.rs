//! The frames of animated GIFs and WebPs, read from a file's bytes.
//!
//! Each frame comes out composited onto the whole canvas, with how long it shows. Frames are
//! read in order and one at a time, since each one builds on the canvas the last one left.
use crate::crt::config::validate_size;
use crate::crt::picture::Picture;
use crate::media::animated::{copies, delay_ms, opaque_pixels, probe, AnimatedError, MAX_FRAMES};
use crate::media::kind::{AnimationFormat, MediaKind};
use crate::media::probe::{Source, Video};
use image::{AnimationDecoder, ImageDecoder};
use vstd::prelude::*;

verus! {

/// Most memory one decoder may allocate, the same budget as a still image.
pub const MEMORY_LIMIT: u64 = 536_870_912;

/// The most memory that can be allocated at once.
pub open spec fn any_memory() -> u64 {
    isize::MAX as u64
}

/// A frame of an animation, on its whole canvas, and how long it asks to show, as a fraction of
/// milliseconds.
pub struct GifFrame {
    pub delay: (u32, u32),
    pub picture: Picture,
}

impl GifFrame {
    pub open spec fn view(&self) -> ((u32, u32), (u32, u32), Seq<u8>) {
        (self.delay, (self.picture.width, self.picture.height), self.picture.pixels@)
    }
}

/// `image::Frames`, the frames of an animation that are still to be decoded.
#[verifier::external_type_specification]
#[verifier::external_body]
pub struct ExFrames<'a>(image::Frames<'a>);

/// `image::Frame` and `image::ImageError`, which decoding a frame gives.
#[verifier::external_type_specification]
#[verifier::external_body]
pub struct ExFrame(image::Frame);

#[verifier::external_type_specification]
#[verifier::external_body]
pub struct ExImageError(image::ImageError);

/// What decoding the frames still to come gives, in order, up to the first that cannot be
/// decoded: how long each asks to show, its size and its pixels, or why it cannot be decoded.
pub uninterp spec fn frames_left(frames: image::Frames<'static>) -> Seq<
    Result<((u32, u32), (u32, u32), Seq<u8>), Seq<char>>,
>;

/// What `image::codecs::gif::GifDecoder` makes of a GIF within so many bytes of memory: the size
/// of its canvas and what decoding its frames gives, or why it cannot be read.
pub uninterp spec fn gif_opened(bytes: Seq<u8>, most: u64) -> Result<
    ((u32, u32), Seq<Result<((u32, u32), (u32, u32), Seq<u8>), Seq<char>>>),
    Seq<char>,
>;

/// Reads the header of a GIF with `image::codecs::gif::GifDecoder::new`, holds the decoder to
/// `most` bytes of memory with `set_limits`, and gives its `dimensions` and its `into_frames`. The
/// outcome, with what decoding the frames gives, is one of the bytes and of that limit alone.
#[verifier::external_body]
fn open_gif(bytes: Vec<u8>, most: u64) -> (r: Result<((u32, u32), image::Frames<'static>), String>)
    requires
        most <= isize::MAX,
    ensures
        match (r, gif_opened(bytes@, most)) {
            (Ok((size, frames)), Ok((canvas, left))) => size == canvas && frames_left(frames)
                == left,
            (Err(text), Err(fault)) => text@ == fault,
            _ => false,
        },
{
    let decoder = image::codecs::gif::GifDecoder::new(std::io::Cursor::new(bytes));
    let mut decoder = decoder.map_err(|e| e.to_string())?;
    let mut limits = image::io::Limits::default();
    limits.max_alloc = Some(most);
    decoder.set_limits(limits).map_err(|e| e.to_string())?;
    Ok((decoder.dimensions(), decoder.into_frames()))
}

/// Decodes the next frame with the `next` of `image::Frames`, the first of those still to come:
/// its buffer, four bytes to every pixel, and its delay as `numer_denom_ms` has it. The others
/// are then still to come. What comes after a frame that cannot be decoded is left unsaid.
#[verifier::external_body]
fn next_frame(frames: &mut image::Frames<'static>) -> (r: Option<Result<GifFrame, String>>)
    ensures
        match r {
            None => frames_left(*old(frames)).len() == 0,
            Some(Ok(frame)) => {
                &&& frame.picture.wf()
                &&& frames_left(*old(frames)).len() > 0
                &&& frames_left(*old(frames))[0] == Ok::<
                    ((u32, u32), (u32, u32), Seq<u8>),
                    Seq<char>,
                >(frame.view())
                &&& frames_left(*final(frames)) == frames_left(*old(frames)).skip(1)
            },
            Some(Err(text)) => frames_left(*old(frames)).len() > 0 && frames_left(*old(frames))[0]
                == Err::<((u32, u32), (u32, u32), Seq<u8>), Seq<char>>(text@),
        },
{
    Some(frames.next()?.map_err(|e| e.to_string()).map(|frame| {
        let delay = frame.delay().numer_denom_ms();
        let image = frame.into_buffer();
        let (width, height) = image.dimensions();
        GifFrame { delay, picture: Picture { width, height, pixels: image.into_raw() } }
    }))
}

/// Whether a WebP is animated and how many frames it has, as `image_webp::WebPDecoder` reads them
/// in its header and those of its chunks, where it reads them.
pub uninterp spec fn webp_header(bytes: Seq<u8>) -> Option<(bool, u32)>;

/// Reads a WebP's header with `image_webp::WebPDecoder::new`, and what its `is_animated` and
/// `num_frames` say. No frame is decoded. The outcome is one of the bytes alone.
#[verifier::external_body]
fn read_webp_header(bytes: &[u8]) -> (r: Option<(bool, u32)>)
    ensures
        r == webp_header(bytes@),
{
    let decoder = image_webp::WebPDecoder::new(std::io::Cursor::new(bytes)).ok()?;
    Some((decoder.is_animated(), decoder.num_frames()))
}

// -------------------------------------------------------------------------------------------
// What a file opens as
// -------------------------------------------------------------------------------------------

/// Whether what a GIF gives starts with two frames.
pub open spec fn two_frames(
    opened: Result<
        ((u32, u32), Seq<Result<((u32, u32), (u32, u32), Seq<u8>), Seq<char>>>),
        Seq<char>,
    >,
) -> bool {
    match opened {
        Ok((_, left)) => left.len() >= 2 && left[0] is Ok && left[1] is Ok,
        Err(_) => false,
    }
}

/// Whether a GIF has more than one frame. Reads its header and at most two frames.
pub fn several_gif_frames(bytes: Vec<u8>) -> (r: bool)
    ensures
        r == two_frames(gif_opened(bytes@, any_memory())),
{
    let mut frames = match open_gif(bytes, isize::MAX as u64) {
        Ok((_, frames)) => frames,
        Err(_) => {
            return false;
        },
    };
    match next_frame(&mut frames) {
        Some(Ok(_)) => {},
        _ => {
            return false;
        },
    }
    match next_frame(&mut frames) {
        Some(Ok(_)) => true,
        _ => false,
    }
}

/// Whether a WebP's header says that it has more than one frame.
pub fn several_webp_frames(header: Option<(bool, u32)>) -> (r: bool)
    ensures
        r == (header matches Some((animated, count)) && animated && count > 1),
{
    match header {
        Some((animated, count)) => animated && count > 1,
        None => false,
    }
}

/// Whether a file is a GIF or a WebP by its name and has more than one frame.
pub open spec fn several_frames(path: Seq<char>, bytes: Seq<u8>) -> bool {
    match AnimationFormat::named(path) {
        Some(AnimationFormat::Gif) => two_frames(gif_opened(bytes, any_memory())),
        Some(AnimationFormat::Webp) => webp_header(bytes) matches Some((animated, count))
            && animated && count > 1,
        None => false,
    }
}

pub fn has_several_frames(path: &str, bytes: Vec<u8>) -> (r: bool)
    ensures
        r == several_frames(path@, bytes@),
{
    match AnimationFormat::of(path) {
        Some(AnimationFormat::Gif) => several_gif_frames(bytes),
        Some(AnimationFormat::Webp) => several_webp_frames(read_webp_header(bytes.as_slice())),
        None => false,
    }
}

/// What a file opens as, by its name and its bytes.
pub fn kind_of_file(path: &str, bytes: Vec<u8>) -> (r: MediaKind)
    ensures
        r == MediaKind::opened(path@, several_frames(path@, bytes@)),
{
    MediaKind::of(path, has_several_frames(path, bytes))
}

// -------------------------------------------------------------------------------------------
// Timing
// -------------------------------------------------------------------------------------------

/// Why an animation's frames cannot be read.
#[derive(Debug)]
pub enum ReadError {
    /// The file is no animation that can be read, and what its decoder says.
    Open(String),
    /// A frame cannot be decoded, and what its decoder says.
    Frame(String),
    Refused(AnimatedError),
}

/// An animation whose frames are being read, for its size and its timing.
pub struct Probing {
    pub size: (u32, u32),
    /// How long each frame read so far asks to show, in milliseconds.
    pub delays: Vec<u32>,
}

impl Probing {
    pub open spec fn wf(self) -> bool {
        crate::crt::config::size_ok(self.size) && self.delays@.len() <= MAX_FRAMES
    }

    /// Starts with the size of the canvas, before any frame is decoded.
    pub fn start(size: (u32, u32)) -> (r: Result<Self, AnimatedError>)
        ensures
            match r {
                Ok(probing) => probing.wf() && probing.size == size && probing.delays@
                    == Seq::<u32>::empty(),
                Err(e) => !crate::crt::config::size_ok(size) && e == AnimatedError::Size,
            },
    {
        match validate_size(size) {
            Ok(()) => Ok(Probing { size, delays: Vec::new() }),
            Err(_) => Err(AnimatedError::Size),
        }
    }

    /// Adds a frame that asks for a delay, unless there are too many.
    pub fn frame(&mut self, delay: u32) -> (r: Result<(), AnimatedError>)
        requires
            old(self).wf(),
        ensures
            final(self).wf(),
            final(self).size == old(self).size,
            match r {
                Ok(()) => old(self).delays@.len() < MAX_FRAMES && final(self).delays@ == old(
                    self,
                ).delays@.push(delay),
                Err(e) => old(self).delays@.len() == MAX_FRAMES && final(self).delays@ == old(
                    self,
                ).delays@ && e == AnimatedError::TooMany,
            },
    {
        if self.delays.len() >= MAX_FRAMES {
            return Err(AnimatedError::TooMany);
        }
        self.delays.push(delay);
        Ok(())
    }

    /// The animation, once all of its frames are read.
    pub fn finish(self, path: String, format: AnimationFormat) -> (r: Result<Video, AnimatedError>)
        requires
            self.wf(),
        ensures
            match crate::media::animated::animated_fault(self.size, self.delays@) {
                Some(e) => r == Err::<Video, AnimatedError>(e),
                None => r matches Ok(video) && video.is_animation(
                    path@,
                    format,
                    self.size,
                    self.delays@,
                ),
            },
    {
        probe(path, format, self.size, self.delays.as_slice())
    }
}

/// How many frames can be decoded before one cannot.
pub open spec fn decodable(
    left: Seq<Result<((u32, u32), (u32, u32), Seq<u8>), Seq<char>>>,
) -> nat
    decreases left.len(),
{
    if left.len() == 0 || left[0] is Err {
        0
    } else {
        1 + decodable(left.skip(1))
    }
}

/// How long a frame asks to show, in milliseconds.
pub open spec fn asked(
    frame: Result<((u32, u32), (u32, u32), Seq<u8>), Seq<char>>,
) -> u32 {
    match frame {
        Ok((delay, _, _)) => crate::media::animated::whole_ms(delay.0, delay.1),
        Err(_) => 0,
    }
}

/// How long each frame that can be decoded asks to show.
pub open spec fn delays_asked(
    left: Seq<Result<((u32, u32), (u32, u32), Seq<u8>), Seq<char>>>,
) -> Seq<u32> {
    Seq::new(decodable(left), |i: int| asked(left[i]))
}

/// What opening a GIF as an animation gives: it is refused by its size before any frame is
/// decoded, then by its first frame that cannot be decoded or is one too many, then by what all
/// of them come to.
pub open spec fn is_probed(
    r: Result<Video, ReadError>,
    path: Seq<char>,
    opened: Result<
        ((u32, u32), Seq<Result<((u32, u32), (u32, u32), Seq<u8>), Seq<char>>>),
        Seq<char>,
    >,
) -> bool {
    match opened {
        Err(fault) => r matches Err(ReadError::Open(text)) && text@ == fault,
        Ok((size, left)) => if !crate::crt::config::size_ok(size) {
            r == Err::<Video, ReadError>(ReadError::Refused(AnimatedError::Size))
        } else if decodable(left) > MAX_FRAMES {
            r == Err::<Video, ReadError>(ReadError::Refused(AnimatedError::TooMany))
        } else if decodable(left) < left.len() {
            r matches Err(ReadError::Frame(text)) && Err::<
                ((u32, u32), (u32, u32), Seq<u8>),
                Seq<char>,
            >(text@) == left[decodable(left) as int]
        } else {
            match crate::media::animated::animated_fault(size, delays_asked(left)) {
                Some(e) => r == Err::<Video, ReadError>(ReadError::Refused(e)),
                None => r matches Ok(video) && video.is_animation(
                    path,
                    AnimationFormat::Gif,
                    size,
                    delays_asked(left),
                ),
            }
        },
    }
}

/// A GIF whose frames are being read, one at a time.
pub struct GifProbing {
    pub probing: Probing,
    pub frames: image::Frames<'static>,
}

impl GifProbing {
    /// Opens a GIF and checks its size.
    pub fn start(bytes: Vec<u8>) -> (r: Result<Self, ReadError>)
        ensures
            match (r, gif_opened(bytes@, MEMORY_LIMIT)) {
                (Err(ReadError::Open(text)), Err(fault)) => text@ == fault,
                (Err(ReadError::Refused(e)), Ok((size, _))) => !crate::crt::config::size_ok(size)
                    && e == AnimatedError::Size,
                (Ok(gif), Ok((size, left))) => gif.probing.wf() && gif.probing.size == size
                    && gif.probing.delays@ == Seq::<u32>::empty() && frames_left(gif.frames)
                    == left,
                _ => false,
            },
    {
        match open_gif(bytes, MEMORY_LIMIT) {
            Err(text) => Err(ReadError::Open(text)),
            Ok((size, frames)) => match Probing::start(size) {
                Err(e) => Err(ReadError::Refused(e)),
                Ok(probing) => Ok(GifProbing { probing, frames }),
            },
        }
    }

    /// Decodes the next frame for its delay; `false` once there is none.
    pub fn step(&mut self) -> (r: Result<bool, ReadError>)
        requires
            old(self).probing.wf(),
        ensures
            final(self).probing.wf(),
            final(self).probing.size == old(self).probing.size,
            frames_left(old(self).frames).len() == 0 ==> r == Ok::<bool, ReadError>(false)
                && final(self).probing.delays@ == old(self).probing.delays@,
            frames_left(old(self).frames).len() > 0 ==> match frames_left(old(self).frames)[0] {
                Err(fault) => r matches Err(ReadError::Frame(text)) && text@ == fault,
                Ok(_) => if old(self).probing.delays@.len() >= MAX_FRAMES {
                    r == Err::<bool, ReadError>(ReadError::Refused(AnimatedError::TooMany))
                } else {
                    &&& r == Ok::<bool, ReadError>(true)
                    &&& final(self).probing.delays@ == old(self).probing.delays@.push(
                        asked(frames_left(old(self).frames)[0]),
                    )
                    &&& frames_left(final(self).frames) == frames_left(old(self).frames).skip(1)
                },
            },
    {
        match next_frame(&mut self.frames) {
            None => Ok(false),
            Some(Err(text)) => Err(ReadError::Frame(text)),
            Some(Ok(frame)) => match self.probing.frame(delay_ms(frame.delay.0, frame.delay.1)) {
                Ok(()) => Ok(true),
                Err(e) => Err(ReadError::Refused(e)),
            },
        }
    }

    /// The animation, once all of its frames are read.
    pub fn finish(self, path: String) -> (r: Result<Video, ReadError>)
        requires
            self.probing.wf(),
        ensures
            match crate::media::animated::animated_fault(self.probing.size, self.probing.delays@) {
                Some(e) => r == Err::<Video, ReadError>(ReadError::Refused(e)),
                None => r matches Ok(video) && video.is_animation(
                    path@,
                    AnimationFormat::Gif,
                    self.probing.size,
                    self.probing.delays@,
                ),
            },
    {
        match self.probing.finish(path, AnimationFormat::Gif) {
            Ok(video) => Ok(video),
            Err(e) => Err(ReadError::Refused(e)),
        }
    }
}

/// Reads a GIF's size and frame timing, decoding each frame once.
pub fn probe_gif(path: String, bytes: Vec<u8>) -> (r: Result<Video, ReadError>)
    ensures
        is_probed(r, path@, gif_opened(bytes@, MEMORY_LIMIT)),
{
    let ghost opened = gif_opened(bytes@, MEMORY_LIMIT);
    let mut gif: GifProbing = match GifProbing::start(bytes) {
        Ok(gif) => gif,
        Err(e) => {
            return Err(e);
        },
    };
    let ghost (size, left) = opened->Ok_0;
    let ghost mut read: int = 0;
    assert(left.skip(0) == left);
    loop
        invariant_except_break
            frames_left(gif.frames) == left.skip(read),
        invariant
            gif.probing.wf(),
            opened == gif_opened(bytes@, MEMORY_LIMIT),
            opened == Ok::<
                ((u32, u32), Seq<Result<((u32, u32), (u32, u32), Seq<u8>), Seq<char>>>),
                Seq<char>,
            >((size, left)),
            gif.probing.size == size,
            0 <= read <= left.len(),
            decodable(left) == read + decodable(left.skip(read)),
            gif.probing.delays@ == Seq::new(read as nat, |i: int| asked(left[i])),
        ensures
            gif.probing.wf(),
            gif.probing.size == size,
            decodable(left) == left.len(),
            gif.probing.delays@ == delays_asked(left),
        decreases left.len() - read,
    {
        let step: Result<bool, ReadError> = gif.step();
        match step {
            Err(e) => {
                return Err(e);
            },
            Ok(false) => {
                break;
            },
            Ok(true) => {
                proof {
                    assert(left.skip(read).skip(1) == left.skip(read + 1));
                    read = read + 1;
                }
            },
        }
    }
    gif.finish(path)
}

proof fn lemma_all_decodable(left: Seq<Result<((u32, u32), (u32, u32), Seq<u8>), Seq<char>>>)
    ensures
        decodable(left) <= left.len(),
        decodable(left) == left.len() ==> forall|i: int|
            0 <= i < left.len() ==> #[trigger] left[i] is Ok,
    decreases left.len(),
{
    if left.len() > 0 && left[0] is Ok {
        let rest = left.skip(1);
        lemma_all_decodable(rest);
        if decodable(left) == left.len() {
            assert forall|i: int| 0 <= i < left.len() implies #[trigger] left[i] is Ok by {
                if i > 0 {
                    assert(rest[i - 1] == left[i]);
                }
            }
        }
    }
}

/// A GIF that opens as an animation has frames, all of them can be decoded, and the animation has
/// each of them, for as long as it shows.
pub proof fn opened_gifs_have_all_their_frames(
    video: Video,
    path: Seq<char>,
    size: (u32, u32),
    left: Seq<Result<((u32, u32), (u32, u32), Seq<u8>), Seq<char>>>,
)
    requires
        is_probed(
            Ok::<Video, ReadError>(video),
            path,
            Ok::<
                ((u32, u32), Seq<Result<((u32, u32), (u32, u32), Seq<u8>), Seq<char>>>),
                Seq<char>,
            >((size, left)),
        ),
    ensures
        0 < left.len() <= MAX_FRAMES,
        video.size == size,
        video.frames == Some(left.len() as u64),
        forall|i: int| 0 <= i < left.len() ==> #[trigger] left[i] is Ok,
        video.source matches Source::Animated { delays, .. } && delays@ == Seq::new(
            left.len(),
            |i: int| crate::media::animated::shown(asked(left[i])),
        ),
{
    lemma_all_decodable(left);
    let delays = delays_asked(left);
    assert(delays.len() == left.len());
    assert(Seq::new(delays.len(), |i: int| crate::media::animated::shown(delays[i])) =~= Seq::new(
        left.len(),
        |i: int| crate::media::animated::shown(asked(left[i])),
    ));
}

// -------------------------------------------------------------------------------------------
// Pixels
// -------------------------------------------------------------------------------------------

/// The pixels of a WebP's frame as its decoder writes them, red, green and blue with or without
/// alpha, as a picture of its canvas; none if they do not fill it.
pub fn webp_picture(size: (u32, u32), alpha: bool, buffer: &[u8]) -> (r: Option<Picture>)
    ensures
        match r {
            Some(picture) => {
                &&& picture.wf()
                &&& (picture.width, picture.height) == size
                &&& if alpha {
                    picture.pixels@ == buffer@
                } else {
                    &&& buffer@.len() == 3 * (size.0 as nat * size.1 as nat)
                    &&& forall|p: int, c: int|
                        #![trigger picture.pixels@[4 * p + c]]
                        0 <= p < size.0 as nat * size.1 as nat && 0 <= c < 4
                            ==> picture.pixels@[4 * p + c] == (if c == 3 {
                            255u8
                        } else {
                            buffer@[3 * p + c]
                        })
                }
            },
            None => buffer@.len() != (if alpha {
                4nat
            } else {
                3nat
            }) * (size.0 as nat * size.1 as nat),
        },
{
    let (width, height) = size;
    assert(width as nat * height as nat <= 0xffff_ffff * 0xffff_ffff) by (nonlinear_arith)
        requires
            width <= 0xffff_ffff,
            height <= 0xffff_ffff,
    ;
    assert(width as u64 as nat * height as u64 as nat == width as nat * height as nat);
    let area: u64 = width as u64 * height as u64;
    let length: u64 = buffer.len() as u64;
    if alpha {
        if length % 4 != 0 || length / 4 != area {
            return None;
        }
        return Some(Picture { width, height, pixels: vstd::slice::slice_to_vec(buffer) });
    }
    if length % 3 != 0 || length / 3 != area {
        return None;
    }
    Some(Picture { width, height, pixels: opaque_pixels(buffer) })
}

/// The GIF's frames being decoded for their pixels.
pub struct GifPictures {
    pub frames: image::Frames<'static>,
}

impl GifPictures {
    /// Opens a GIF.
    pub fn open(bytes: Vec<u8>) -> (r: Result<Self, ReadError>)
        ensures
            match (r, gif_opened(bytes@, MEMORY_LIMIT)) {
                (Err(ReadError::Open(text)), Err(fault)) => text@ == fault,
                (Ok(gif), Ok((_, left))) => frames_left(gif.frames) == left,
                _ => false,
            },
    {
        match open_gif(bytes, MEMORY_LIMIT) {
            Err(text) => Err(ReadError::Open(text)),
            Ok((_, frames)) => Ok(GifPictures { frames }),
        }
    }

    /// The picture of the next frame, while there is one.
    pub fn picture(&mut self) -> (r: Option<Result<Picture, ReadError>>)
        ensures
            frames_left(old(self).frames).len() == 0 ==> r is None,
            frames_left(old(self).frames).len() > 0 ==> match (
                r,
                frames_left(old(self).frames)[0],
            ) {
                (Some(Ok(picture)), Ok((_, size, pixels))) => {
                    &&& picture.wf()
                    &&& (picture.width, picture.height) == size
                    &&& picture.pixels@ == pixels
                    &&& frames_left(final(self).frames) == frames_left(old(self).frames).skip(1)
                },
                (Some(Err(ReadError::Frame(text))), Err(fault)) => text@ == fault,
                _ => false,
            },
    {
        match next_frame(&mut self.frames) {
            None => None,
            Some(Err(text)) => Some(Err(ReadError::Frame(text))),
            Some(Ok(frame)) => Some(Ok(frame.picture)),
        }
    }
}

/// The frames of a plan being handed on as an animation is decoded.
pub struct Handing {
    pub plan: Vec<usize>,
    /// How many entries of the plan have been handed on.
    pub next: usize,
}

impl Handing {
    pub open spec fn wf(self) -> bool {
        self.next <= self.plan@.len()
    }

    pub fn start(plan: Vec<usize>) -> (r: Self)
        ensures
            r.wf(),
            r.plan@ == plan@,
            r.next == 0,
    {
        Handing { plan, next: 0 }
    }

    /// Whether all of the plan has been handed on.
    pub fn is_done(&self) -> (r: bool)
        ensures
            r == (self.next == self.plan@.len()),
    {
        self.next == self.plan.len()
    }

    /// Takes the frame numbered `index` and says how often it is handed on.
    pub fn take(&mut self, index: usize) -> (r: usize)
        requires
            old(self).wf(),
        ensures
            final(self).wf(),
            final(self).plan@ == old(self).plan@,
            r == crate::media::animated::run(old(self).plan@, old(self).next as int, index),
            final(self).next == old(self).next + r,
    {
        let length: usize = self.plan.len();
        let r: usize = copies(self.plan.as_slice(), self.next, index);
        assert(self.next + r <= length);
        self.next = self.next + r;
        r
    }
}

} // verus!
