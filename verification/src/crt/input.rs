//! Reading a source image from a file's bytes.
use crate::crt::config::{validate_size, SizeError};
use crate::crt::picture::Picture;
use vstd::prelude::*;

verus! {

/// The formats `load_image` decodes, as file extensions.
pub open spec fn image_extensions() -> Seq<Seq<char>> {
    seq!["png"@, "jpg"@, "jpeg"@, "webp"@, "bmp"@, "gif"@]
}

/// The formats `load_image` decodes, as file extensions.
pub fn extensions() -> (r: [&'static str; 6])
    ensures
        forall|i: int| 0 <= i < 6 ==> (#[trigger] r@[i])@ == image_extensions()[i],
{
    ["png", "jpg", "jpeg", "webp", "bmp", "gif"]
}

/// Why an image is not read.
#[derive(Clone, Copy, PartialEq, Eq, Structural, Debug)]
pub enum InputError {
    /// Its size cannot be read, by the format that the file's extension names.
    Dimensions,
    Size(SizeError),
    /// It cannot be decoded.
    Decode,
}

impl InputError {
    pub open spec fn text(self) -> Seq<char> {
        match self {
            InputError::Dimensions => "Cannot read image dimensions"@,
            InputError::Size(_) =>
                "dimensions must be positive, <=16384 per side, and <=64 megapixels"@,
            InputError::Decode => "Cannot decode image (PNG, JPEG, WebP, BMP or GIF expected)"@,
        }
    }

    pub fn message(&self) -> (r: &'static str)
        ensures
            r@ == self.text(),
    {
        match *self {
            InputError::Dimensions => "Cannot read image dimensions",
            InputError::Size(_) =>
                "dimensions must be positive, <=16384 per side, and <=64 megapixels",
            InputError::Decode => "Cannot decode image (PNG, JPEG, WebP, BMP or GIF expected)",
        }
    }
}

/// Whether a file starts as a WebP does.
pub open spec fn riff(bytes: Seq<u8>) -> bool {
    seq![0x52u8, 0x49, 0x46, 0x46].is_prefix_of(bytes)
}

/// The number that bytes from `at` on are, the lowest first: three of them, or four.
pub open spec fn three_bytes(bytes: Seq<u8>, at: int) -> int {
    bytes[at] + 0x100 * bytes[at + 1] + 0x1_0000 * bytes[at + 2]
}

pub open spec fn four_bytes(bytes: Seq<u8>, at: int) -> int {
    three_bytes(bytes, at) + 0x100_0000 * bytes[at + 3]
}

/// The size of a lossy frame whose chunk starts at `at`: the low fourteen bits of two bytes each.
pub open spec fn frame_size(bytes: Seq<u8>, at: int) -> (int, int) {
    (
        (bytes[at + 14] + 0x100 * bytes[at + 15]) % 0x4000,
        (bytes[at + 16] + 0x100 * bytes[at + 17]) % 0x4000,
    )
}

/// Whether the chunks from `at` on are lossy frames as large as the canvas, and what describes
/// the picture: its color profile, and what the camera and others say of it. The last may be cut
/// off.
pub open spec fn plain_chunks(bytes: Seq<u8>, at: int, canvas: (int, int)) -> bool
    decreases bytes.len() - at,
{
    if at < 0 || at + 8 > bytes.len() {
        true
    } else {
        let kind = bytes.subrange(at, at + 4);
        let length = four_bytes(bytes, at + 4);
        let next = at + 8 + length + length % 2;
        &&& if kind == seq![0x56u8, 0x50, 0x38, 0x20] {
            at + 18 <= bytes.len() ==> frame_size(bytes, at) == canvas
        } else {
            ||| kind == seq![0x49u8, 0x43, 0x43, 0x50]
            ||| kind == seq![0x45u8, 0x58, 0x49, 0x46]
            ||| kind == seq![0x58u8, 0x4d, 0x50, 0x20]
        }
        &&& next > bytes.len() || plain_chunks(bytes, next, canvas)
    }
}

/// Whether a WebP holds one lossy frame and no transparency: its first chunk is that frame, or
/// gives the size of a canvas that the frame fills.
pub open spec fn one_lossy_frame(bytes: Seq<u8>) -> bool {
    &&& riff(bytes)
    &&& bytes.len() >= 16
    &&& {
        let kind = bytes.subrange(12, 16);
        let length = four_bytes(bytes, 16);
        ||| kind == seq![0x56u8, 0x50, 0x38, 0x20]
        ||| kind == seq![0x56u8, 0x50, 0x38, 0x58] && bytes.len() >= 30 && plain_chunks(
            bytes,
            20 + length + length % 2,
            (1 + three_bytes(bytes, 24), 1 + three_bytes(bytes, 27)),
        )
    }
}

/// Whether a file is a WebP by its name.
pub open spec fn webp_named(path: Seq<char>) -> bool {
    crate::path::extends_with(path, "webp"@)
}

/// Whether a JPEG's segment behind this marker is one that may stand before its frame and is passed
/// over by its length: tables, the restart interval, comments, and what applications say.
pub open spec fn passed_over(marker: u8) -> bool {
    marker == 0xc4 || marker == 0xdb || marker == 0xdd || marker == 0xfe || 0xe0 <= marker <= 0xef
}

/// Whether the first of a JPEG's markers from `at` on that is not passed over starts a lossless
/// frame.
pub open spec fn lossless_from(bytes: Seq<u8>, at: int) -> bool
    decreases bytes.len() - at,
{
    if at < 0 || at + 1 >= bytes.len() {
        false
    } else if bytes[at] != 0xff || bytes[at + 1] == 0xff {
        lossless_from(bytes, at + 1)
    } else if bytes[at + 1] == 0 {
        lossless_from(bytes, at + 2)
    } else if passed_over(bytes[at + 1]) {
        let length = 0x100 * bytes[at + 2] + bytes[at + 3];
        &&& at + 3 < bytes.len()
        &&& 2 <= length <= bytes.len() - at - 2
        &&& lossless_from(bytes, at + 2 + length)
    } else {
        bytes[at + 1] == 0xc3
    }
}

/// Whether a file is a JPEG whose frame is lossless.
pub open spec fn lossless_jpeg(bytes: Seq<u8>) -> bool {
    &&& seq![0xffu8, 0xd8].is_prefix_of(bytes)
    &&& lossless_from(bytes, 2)
}

/// Whether a file is decoded apart: a WebP that is not one lossy frame but lossless, transparent or
/// animated, or a lossless JPEG. On some of these `image`'s decoders panic, and which ones only
/// shows in decoding them, so whoever calls `load_image` decodes them where a panic can be stopped.
pub open spec fn apart(path: Seq<char>, bytes: Seq<u8>) -> bool {
    ||| webp_named(path) && riff(bytes) && !one_lossy_frame(bytes)
    ||| lossless_jpeg(bytes)
}

/// The four bytes from `at` on are these.
fn four_at(bytes: &[u8], at: usize, a: u8, b: u8, c: u8, d: u8) -> (r: bool)
    requires
        at + 4 <= usize::MAX,
    ensures
        r == (bytes@.len() >= at + 4 && bytes@.subrange(at as int, at + 4) == seq![a, b, c, d]),
{
    if bytes.len() < at + 4 {
        return false;
    }
    let r: bool = bytes[at] == a && bytes[at + 1] == b && bytes[at + 2] == c && bytes[at + 3] == d;
    proof {
        let four = bytes@.subrange(at as int, at + 4);
        assert(four[0] == bytes@[at as int] && four[1] == bytes@[at + 1] && four[2] == bytes@[at + 2]
            && four[3] == bytes@[at + 3]);
        if r {
            assert(four =~= seq![a, b, c, d]);
        }
    }
    r
}

fn is_riff(bytes: &[u8]) -> (r: bool)
    ensures
        r == riff(bytes@),
{
    proof {
        if bytes@.len() >= 4 {
            assert(seq![0x52u8, 0x49, 0x46, 0x46].is_prefix_of(bytes@) == (bytes@.subrange(0, 4)
                == seq![0x52u8, 0x49, 0x46, 0x46]));
        }
    }
    four_at(bytes, 0, 0x52, 0x49, 0x46, 0x46)
}

fn read_three(bytes: &[u8], at: usize) -> (r: u32)
    requires
        at + 3 <= bytes@.len(),
    ensures
        r == three_bytes(bytes@, at as int),
        r < 0x100_0000,
{
    bytes[at] as u32 + 0x100 * bytes[at + 1] as u32 + 0x1_0000 * bytes[at + 2] as u32
}

fn read_four(bytes: &[u8], at: usize) -> (r: u64)
    requires
        at + 4 <= bytes@.len(),
    ensures
        r == four_bytes(bytes@, at as int),
        r < 0x1_0000_0000,
{
    let total: usize = bytes.len();
    assert(at + 4 <= total);
    read_three(bytes, at) as u64 + 0x100_0000 * bytes[at + 3] as u64
}

/// Where the chunk after one starts: past the end, where it is cut off.
fn next_chunk(bytes: &[u8], at: usize) -> (r: usize)
    requires
        at + 8 <= bytes@.len(),
    ensures
        r <= bytes@.len(),
        at + 8 <= r,
        ({
            let length = four_bytes(bytes@, at + 4);
            let next = at + 8 + length + length % 2;
            r == if next <= bytes@.len() {
                next
            } else {
                bytes@.len() as int
            }
        }),
{
    let total: usize = bytes.len();
    let length: u64 = read_four(bytes, at + 4);
    let padded: u64 = length + length % 2;
    if padded > (total - at - 8) as u64 {
        total
    } else {
        at + 8 + padded as usize
    }
}

fn are_plain_chunks(bytes: &[u8], from: usize, canvas: (u32, u32)) -> (r: bool)
    requires
        from <= bytes@.len(),
    ensures
        r == plain_chunks(bytes@, from as int, (canvas.0 as int, canvas.1 as int)),
{
    let mut at: usize = from;
    while bytes.len() - at >= 8
        invariant
            at <= bytes@.len(),
            plain_chunks(bytes@, from as int, (canvas.0 as int, canvas.1 as int)) == plain_chunks(
                bytes@,
                at as int,
                (canvas.0 as int, canvas.1 as int),
            ),
        decreases bytes@.len() - at,
    {
        if four_at(bytes, at, 0x56, 0x50, 0x38, 0x20) {
            if bytes.len() - at >= 18 {
                let width: u32 = (bytes[at + 14] as u32 + 0x100 * bytes[at + 15] as u32) % 0x4000;
                let height: u32 = (bytes[at + 16] as u32 + 0x100 * bytes[at + 17] as u32) % 0x4000;
                if width != canvas.0 || height != canvas.1 {
                    return false;
                }
            }
        } else if !four_at(bytes, at, 0x49, 0x43, 0x43, 0x50) && !four_at(
            bytes,
            at,
            0x45,
            0x58,
            0x49,
            0x46,
        ) && !four_at(bytes, at, 0x58, 0x4d, 0x50, 0x20) {
            return false;
        }
        at = next_chunk(bytes, at);
    }
    true
}

fn is_one_lossy_frame(bytes: &[u8]) -> (r: bool)
    ensures
        r == one_lossy_frame(bytes@),
{
    if !is_riff(bytes) {
        return false;
    }
    if four_at(bytes, 12, 0x56, 0x50, 0x38, 0x20) {
        return true;
    }
    if !four_at(bytes, 12, 0x56, 0x50, 0x38, 0x58) || bytes.len() < 30 {
        return false;
    }
    let canvas: (u32, u32) = (1 + read_three(bytes, 24), 1 + read_three(bytes, 27));
    let first: usize = next_chunk(bytes, 12);
    are_plain_chunks(bytes, first, canvas)
}

fn is_passed_over(marker: u8) -> (r: bool)
    ensures
        r == passed_over(marker),
{
    marker == 0xc4 || marker == 0xdb || marker == 0xdd || marker == 0xfe || (marker >= 0xe0
        && marker <= 0xef)
}

fn is_lossless_jpeg(bytes: &[u8]) -> (r: bool)
    ensures
        r == lossless_jpeg(bytes@),
{
    let length: usize = bytes.len();
    if length < 2 || bytes[0] != 0xff || bytes[1] != 0xd8 {
        return false;
    }
    assert(seq![0xffu8, 0xd8].is_prefix_of(bytes@));
    let mut at: usize = 2;
    while at < length - 1
        invariant
            2 <= length == bytes@.len(),
            lossless_jpeg(bytes@) == lossless_from(bytes@, at as int),
        decreases length - at,
    {
        let marker: u8 = bytes[at + 1];
        if bytes[at] != 0xff || marker == 0xff {
            at = at + 1;
        } else if marker == 0 {
            at = at + 2;
        } else if is_passed_over(marker) {
            if length - at < 4 {
                return false;
            }
            let held: usize = 0x100 * bytes[at + 2] as usize + bytes[at + 3] as usize;
            if held < 2 || held > length - at - 2 {
                return false;
            }
            at = at + 2 + held;
        } else {
            return marker == 0xc3;
        }
    }
    false
}

/// Whether a file is one of those that are decoded apart.
pub fn is_apart(path: &str, bytes: &[u8]) -> (r: bool)
    ensures
        r == apart(path@, bytes@),
{
    (crate::path::has_extension(path, "webp") && is_riff(bytes) && !is_one_lossy_frame(bytes))
        || is_lossless_jpeg(bytes)
}

/// What decoding a file apart gave: its size, and its pixels where it could be decoded.
pub struct Apart {
    pub size: (u32, u32),
    pub picture: Option<Picture>,
}

/// The size that `image::image_dimensions` reads of a file with this path and these bytes, where
/// it reads one.
pub uninterp spec fn size_in_file(path: Seq<char>, bytes: Seq<u8>) -> Option<(u32, u32)>;

/// Reads an image's size as `image::image_dimensions` does: by the format that the path's
/// extension names, from the file's header. The outcome is one of the path and the bytes alone.
/// Of WebPs it is given those of one lossy frame only: to read the size of another, the decoder
/// decodes its frame, and may panic.
#[verifier::external_body]
fn image_dimensions(path: &str, bytes: &[u8]) -> (r: Option<(u32, u32)>)
    requires
        !riff(bytes@) || one_lossy_frame(bytes@),
    ensures
        r == size_in_file(path@, bytes@),
{
    let format = image::ImageFormat::from_path(path).ok()?;
    let reader = image::io::Reader::with_format(std::io::Cursor::new(bytes), format);
    reader.into_dimensions().ok()
}

/// Whether a file starts as a PNG, a GIF, a WebP or a BMP does: its format is then that one,
/// whatever it is called.
pub open spec fn signed(bytes: Seq<u8>) -> bool {
    ||| seq![0x89u8, 0x50, 0x4e, 0x47, 0x0d, 0x0a, 0x1a, 0x0a].is_prefix_of(bytes)
    ||| seq![0x47u8, 0x49, 0x46, 0x38, 0x39, 0x61].is_prefix_of(bytes)
    ||| seq![0x47u8, 0x49, 0x46, 0x38, 0x37, 0x61].is_prefix_of(bytes)
    ||| riff(bytes)
    ||| seq![0x42u8, 0x4d].is_prefix_of(bytes)
}

/// The width, the height and the pixels that `image::io::Reader::decode` and `to_rgba8` give of a
/// file that starts as a PNG, a GIF, a WebP or a BMP, within so many bytes of memory, where they
/// give any.
pub uninterp spec fn pixels_in_file(bytes: Seq<u8>, most: u64) -> Option<(u32, u32, Seq<u8>)>;

/// Decodes an image with `image::io::Reader::decode`, in the format that its first bytes show or
/// else its extension names, within `most` bytes of memory, and takes it to eight bits of red,
/// green, blue and alpha with `to_rgba8`. What comes back has four bytes to every pixel. For a
/// PNG, a GIF, a WebP and a BMP it is one of the bytes alone. A JPEG's pixels are left unsaid:
/// the processor that decodes it decides how they are rounded. Of WebPs it is given those of one
/// lossy frame only: on malformed others the decoder may panic. It is given no lossless JPEG, whose
/// decoder panics unless its samples have eight bits and all it says of itself is in order, and no
/// file of a size out of the renderer's limits, on which a JPEG's decoder counts past sixteen bits.
#[verifier::external_body]
fn decode_image(path: &str, bytes: &[u8], most: u64) -> (r: Option<Picture>)
    requires
        !riff(bytes@) || one_lossy_frame(bytes@),
        !lossless_jpeg(bytes@),
        size_fault(size_in_file(path@, bytes@)) is None,
    ensures
        r matches Some(picture) ==> picture.wf(),
        signed(bytes@) ==> match (r, pixels_in_file(bytes@, most)) {
            (None, None) => true,
            (Some(picture), Some((width, height, pixels))) => picture.width == width
                && picture.height == height && picture.pixels@ == pixels,
            _ => false,
        },
{
    let mut reader = image::io::Reader::new(std::io::Cursor::new(bytes));
    if let Ok(format) = image::ImageFormat::from_path(path) {
        reader.set_format(format);
    }
    let mut reader = reader.with_guessed_format().ok()?;
    let mut limits = image::io::Limits::default();
    limits.max_alloc = Some(most);
    reader.limits(limits);
    let image = reader.decode().ok()?.to_rgba8();
    Some(Picture { width: image.width(), height: image.height(), pixels: image.into_raw() })
}

/// Whether an image of the size that was read is decoded at all.
pub open spec fn size_fault(size: Option<(u32, u32)>) -> Option<InputError> {
    match size {
        None => Some(InputError::Dimensions),
        Some(size) => if crate::crt::config::size_ok(size) {
            None
        } else {
            Some(InputError::Size(SizeError::Range))
        },
    }
}

/// Checks the size that was read of an image before it is decoded.
pub fn check_dimensions(size: Option<(u32, u32)>) -> (r: Result<(), InputError>)
    ensures
        r == match size_fault(size) {
            None => Ok::<(), InputError>(()),
            Some(e) => Err::<(), InputError>(e),
        },
{
    match size {
        None => Err(InputError::Dimensions),
        Some(size) => match validate_size(size) {
            Ok(()) => Ok(()),
            Err(e) => Err(InputError::Size(e)),
        },
    }
}

/// What a file's decoded image gives.
pub open spec fn is_decoded(r: Result<Picture, InputError>, pixels: Option<(u32, u32, Seq<u8>)>) -> bool {
    match (r, pixels) {
        (Ok(picture), Some((width, height, pixels))) => picture.width == width && picture.height
            == height && picture.pixels@ == pixels,
        (Err(e), None) => e == InputError::Decode,
        _ => false,
    }
}

/// What decoding a file apart gives.
pub open spec fn taken_apart(r: Result<Picture, InputError>, held: Option<Apart>) -> bool {
    match held {
        None => r == Err::<Picture, InputError>(InputError::Dimensions),
        Some(held) => match size_fault(Some(held.size)) {
            Some(e) => r == Err::<Picture, InputError>(e),
            None => r == picture_held(Some(held)),
        },
    }
}

/// The pixels that decoding a file apart gave.
pub open spec fn picture_held(held: Option<Apart>) -> Result<Picture, InputError> {
    match held {
        Some(held) => match held.picture {
            Some(picture) => Ok(picture),
            None => Err(InputError::Decode),
        },
        None => Err(InputError::Decode),
    }
}

fn take_picture(held: Option<Apart>) -> (r: Result<Picture, InputError>)
    ensures
        r == picture_held(held),
{
    match held {
        Some(held) => match held.picture {
            Some(picture) => Ok(picture),
            None => Err(InputError::Decode),
        },
        None => Err(InputError::Decode),
    }
}

/// Decodes an image after checking its dimensions against the renderer's limits, within 512 MiB,
/// so that a malformed file cannot exhaust memory. A file that is decoded apart is taken as
/// `held` has it, a lossless JPEG once its size has been read and checked; of any other file
/// `held` is ignored. A WebP under the name of another format has no size that is read.
pub fn load_image(path: &str, bytes: &[u8], held: Option<Apart>) -> (r: Result<Picture, InputError>)
    ensures
        riff(bytes@) && apart(path@, bytes@) ==> taken_apart(r, held),
        riff(bytes@) && !webp_named(path@) ==> r == Err::<Picture, InputError>(
            InputError::Dimensions,
        ),
        !riff(bytes@) || (webp_named(path@) && one_lossy_frame(bytes@)) ==> match size_fault(
            size_in_file(path@, bytes@),
        ) {
            Some(e) => r == Err::<Picture, InputError>(e),
            None => if lossless_jpeg(bytes@) {
                r == picture_held(held)
            } else {
                &&& match r {
                    Ok(picture) => picture.wf(),
                    Err(e) => e == InputError::Decode,
                }
                &&& signed(bytes@) ==> is_decoded(r, pixels_in_file(bytes@, 536_870_912))
            },
        },
{
    if is_riff(bytes) {
        if !crate::path::has_extension(path, "webp") {
            return Err(InputError::Dimensions);
        }
        if !is_one_lossy_frame(bytes) {
            return match held {
                None => Err(InputError::Dimensions),
                Some(held) => match check_dimensions(Some(held.size)) {
                    Err(e) => Err(e),
                    Ok(()) => take_picture(Some(held)),
                },
            };
        }
    }
    match check_dimensions(image_dimensions(path, bytes)) {
        Err(e) => {
            return Err(e);
        },
        Ok(()) => {},
    }
    if is_lossless_jpeg(bytes) {
        return take_picture(held);
    }
    match decode_image(path, bytes, 536_870_912) {
        Some(picture) => Ok(picture),
        None => Err(InputError::Decode),
    }
}

} // verus!
