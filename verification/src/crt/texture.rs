//! Textures as the renderer lays them out: mip levels of the shadow mask, and rows padded for
//! reading back.
use crate::crt::picture::Picture;
use vstd::arithmetic::div_mod::*;
use vstd::arithmetic::mul::*;
use vstd::arithmetic::power2::*;
use vstd::prelude::*;

verus! {

// -------------------------------------------------------------------------------------------
// Mip levels
// -------------------------------------------------------------------------------------------

/// Half of a side; a side of one texel stays one.
pub open spec fn half(side: u32) -> u32 {
    if side < 2 {
        1
    } else {
        side / 2
    }
}

/// The texel after `at`, or the last one.
pub open spec fn next_texel(at: int, side: u32) -> int {
    if at + 1 < side {
        at + 1
    } else {
        side - 1
    }
}

/// The rounded average of the 2×2 texels that one of half size replaces.
pub open spec fn average(image: Picture, x: int, y: int, c: int) -> u8 {
    let right = next_texel(2 * x, image.width);
    let bottom = next_texel(2 * y, image.height);
    ((image.channel(2 * x, 2 * y, c) + image.channel(right, 2 * y, c) + image.channel(
        2 * x,
        bottom,
        c,
    ) + image.channel(right, bottom, c) + 2) / 4) as u8
}

/// Byte `i` of a picture at half size.
spec fn average_at(image: Picture, i: int) -> u8 {
    let width = half(image.width) as int;
    average(image, (i / 4) % width, (i / 4) / width, i % 4)
}

fn byte_at(image: &Picture, x: u32, y: u32, c: u32) -> (r: u32)
    requires
        image.wf(),
        x < image.width,
        y < image.height,
        c < 4,
    ensures
        r == image.channel(x as int, y as int, c as int),
        r <= 255,
{
    proof {
        crate::crt::picture::lemma_pixel_index(
            image.width as int,
            image.height as int,
            x as int,
            y as int,
        );
        assert(image.height * image.width == image.width * image.height) by (nonlinear_arith);
    }
    let length: usize = image.pixels.len();
    assert(y * image.width <= length);
    let at: usize = 4 * (y as usize * image.width as usize + x as usize) + c as usize;
    image.pixels[at] as u32
}

/// A picture at half size, each texel the rounded average of the 2×2 it replaces. A side that is
/// already one texel stays one, and those texels average in pairs.
pub fn halve(image: &Picture) -> (r: Picture)
    requires
        image.wf(),
        image.width > 0,
        image.height > 0,
    ensures
        r.wf(),
        r.width == half(image.width),
        r.height == half(image.height),
        forall|x: int, y: int, c: int|
            0 <= x < r.width && 0 <= y < r.height && 0 <= c < 4 ==> #[trigger] r.channel(x, y, c)
                == average(*image, x, y, c),
{
    let width: u32 = if image.width < 2 {
        1
    } else {
        image.width / 2
    };
    let height: u32 = if image.height < 2 {
        1
    } else {
        image.height / 2
    };
    let mut pixels: Vec<u8> = Vec::new();
    let mut y: u32 = 0;
    while y < height
        invariant
            image.wf(),
            image.width > 0,
            image.height > 0,
            width == half(image.width),
            height == half(image.height),
            y <= height,
            pixels@.len() == 4 * (y * width),
            forall|i: int| 0 <= i < pixels@.len() ==> #[trigger] pixels@[i] == average_at(*image, i),
        decreases height - y,
    {
        let mut x: u32 = 0;
        while x < width
            invariant
                image.wf(),
                image.width > 0,
                image.height > 0,
                width == half(image.width),
                height == half(image.height),
                x <= width,
                y < height,
                pixels@.len() == 4 * (y * width + x),
                forall|i: int|
                    0 <= i < pixels@.len() ==> #[trigger] pixels@[i] == average_at(*image, i),
            decreases width - x,
        {
            let left: u32 = 2 * x;
            let top: u32 = 2 * y;
            let right: u32 = if left < image.width - 1 {
                left + 1
            } else {
                image.width - 1
            };
            let bottom: u32 = if top < image.height - 1 {
                top + 1
            } else {
                image.height - 1
            };
            proof {
                crate::crt::picture::lemma_pixel_index(
                    width as int,
                    height as int,
                    x as int,
                    y as int,
                );
            }
            let mut c: u32 = 0;
            while c < 4
                invariant
                    image.wf(),
                    c <= 4,
                    x < width == half(image.width),
                    y < height == half(image.height),
                    left == 2 * x < image.width,
                    top == 2 * y < image.height,
                    right == next_texel(left as int, image.width),
                    bottom == next_texel(top as int, image.height),
                    pixels@.len() == 4 * (y * width + x) + c,
                    0 <= y * width + x,
                    (y * width + x) / width as int == y,
                    (y * width + x) % width as int == x,
                    forall|i: int|
                        0 <= i < pixels@.len() ==> #[trigger] pixels@[i] == average_at(*image, i),
                decreases 4 - c,
            {
                let sum: u32 = byte_at(image, left, top, c) + byte_at(image, right, top, c)
                    + byte_at(image, left, bottom, c) + byte_at(image, right, bottom, c);
                pixels.push(((sum + 2) / 4) as u8);
                proof {
                    let i = 4 * (y * width + x) + c;
                    assert(i / 4 == y * width + x && i % 4 == c);
                    assert(average_at(*image, i) == average(*image, x as int, y as int, c as int));
                }
                c = c + 1;
            }
            x = x + 1;
        }
        proof {
            assert((y + 1) * width == y * width + width) by (nonlinear_arith);
        }
        y = y + 1;
    }
    let r: Picture = Picture { width, height, pixels };
    proof {
        assert(height * width == width * height) by (nonlinear_arith);
        assert forall|x: int, y: int, c: int|
            0 <= x < width && 0 <= y < height && 0 <= c < 4 implies #[trigger] r.channel(x, y, c)
            == average(*image, x, y, c) by {
            crate::crt::picture::lemma_pixel_index(width as int, height as int, x, y);
            let i = 4 * (y * width + x) + c;
            assert(i / 4 == y * width + x && i % 4 == c);
            assert(r.pixels@[i] == average_at(*image, i));
        }
    }
    r
}

/// A picture of one texel is its own half: halving ends there.
pub proof fn one_texel_is_its_own_half(image: Picture, c: int)
    requires
        image.width == 1,
        image.height == 1,
        0 <= c < 4,
    ensures
        half(image.width) == 1,
        half(image.height) == 1,
        average(image, 0, 0, c) == image.channel(0, 0, c),
{
}

/// How many times a side halves before it is one texel, and the full size.
pub open spec fn levels_of(longest: u32) -> nat
    decreases longest,
{
    if longest < 2 {
        1
    } else {
        1 + levels_of(longest / 2)
    }
}

/// How many mip levels a picture of a size has, down to one texel.
pub fn levels(width: u32, height: u32) -> (r: u32)
    ensures
        r == levels_of(if width > height {
            width
        } else {
            height
        }),
        1 <= r <= 32,
{
    let mut side: u32 = if width > height {
        width
    } else {
        height
    };
    let ghost longest = side;
    let mut count: u32 = 1;
    proof {
        lemma2_to64();
    }
    while side >= 2
        invariant
            1 <= count <= 32,
            side < pow2((33 - count) as nat),
            count - 1 + levels_of(side) == levels_of(longest),
        decreases side,
    {
        proof {
            lemma2_to64();
            lemma_pow2_unfold((33 - count) as nat);
            if count == 32 {
                assert(pow2(1) == 2);
            }
        }
        side = side / 2;
        count = count + 1;
    }
    count
}

/// Whether a picture is another at half size.
pub open spec fn is_half(small: Picture, image: Picture) -> bool {
    &&& small.wf()
    &&& small.width == half(image.width)
    &&& small.height == half(image.height)
    &&& forall|x: int, y: int, c: int|
        0 <= x < small.width && 0 <= y < small.height && 0 <= c < 4 ==> #[trigger] small.channel(
            x,
            y,
            c,
        ) == average(image, x, y, c)
}

/// A picture and its halves, down to one texel, for sampling it smaller than it is.
pub fn mip_levels(image: Picture) -> (r: Vec<Picture>)
    requires
        image.wf(),
        image.width > 0,
        image.height > 0,
    ensures
        r@.len() == levels_of(if image.width > image.height {
            image.width
        } else {
            image.height
        }),
        r@[0] == image,
        forall|i: int| 0 < i < r@.len() ==> is_half(#[trigger] r@[i], r@[i - 1]),
{
    let count: u32 = levels(image.width, image.height);
    let mut r: Vec<Picture> = Vec::new();
    r.push(image);
    let mut i: u32 = 1;
    while i < count
        invariant
            1 <= i,
            count >= 1,
            i <= count,
            r@.len() == i,
            r@[0] == image,
            r@[i - 1].wf(),
            r@[i - 1].width > 0,
            r@[i - 1].height > 0,
            forall|k: int| 0 < k < i ==> is_half(#[trigger] r@[k], r@[k - 1]),
        decreases count - i,
    {
        let small: Picture = halve(&r[i as usize - 1]);
        r.push(small);
        i = i + 1;
    }
    r
}

/// The width, the height and the pixels that `image::load_from_memory_with_format` and `to_rgba8`
/// give of a BMP, where they give any.
pub uninterp spec fn bmp_pixels(bytes: Seq<u8>) -> Option<(u32, u32, Seq<u8>)>;

/// Decodes a BMP with `image::load_from_memory_with_format`, and takes it to eight bits of red,
/// green, blue and alpha with `DynamicImage::to_rgba8`. A BMP decodes without loss, so the outcome
/// is one of the bytes alone. There are four bytes to every pixel.
#[verifier::external_body]
fn bmp(bytes: &[u8]) -> (r: Option<Picture>)
    ensures
        match (r, bmp_pixels(bytes@)) {
            (None, None) => true,
            (Some(picture), Some((width, height, pixels))) => picture.wf() && picture.width == width
                && picture.height == height && picture.pixels@ == pixels,
            _ => false,
        },
{
    let decoded = image::load_from_memory_with_format(bytes, image::ImageFormat::Bmp).ok()?;
    let image = decoded.to_rgba8();
    Some(Picture { width: image.width(), height: image.height(), pixels: image.into_raw() })
}

/// The shadow mask's mip levels, from its BMP; none of a file that holds no picture.
pub fn shadow_mask(bytes: &[u8]) -> (r: Option<Vec<Picture>>)
    ensures
        match (r, bmp_pixels(bytes@)) {
            (None, None) => true,
            (None, Some((width, height, _))) => width == 0 || height == 0,
            (Some(levels), Some((width, height, pixels))) => {
                &&& width > 0 && height > 0
                &&& levels@.len() == levels_of(if width > height {
                    width
                } else {
                    height
                })
                &&& levels@[0].width == width && levels@[0].height == height
                &&& levels@[0].pixels@ == pixels
                &&& forall|i: int| 0 < i < levels@.len() ==> is_half(#[trigger] levels@[i], levels@[i - 1])
            },
            _ => false,
        },
{
    match bmp(bytes) {
        None => None,
        Some(image) => if image.width == 0 || image.height == 0 {
            None
        } else {
            Some(mip_levels(image))
        },
    }
}

// -------------------------------------------------------------------------------------------
// Reading back
// -------------------------------------------------------------------------------------------

/// The bytes of a row, padded to the 256 that copies are aligned to.
pub open spec fn padded(width: u32) -> nat {
    ((4 * width + 255) / 256 * 256) as nat
}

/// The bytes of a padded row.
pub fn pitch(width: u32) -> (r: u32)
    requires
        padded(width) <= u32::MAX,
    ensures
        r == padded(width),
        r >= 4 * width,
        r % 256 == 0,
{
    let rows: u64 = (4 * width as u64 + 255) / 256;
    (rows * 256) as u32
}

/// The picture in rows padded as `pitch` says, without the padding.
pub fn unpadded(mapped: &[u8], width: u32, height: u32) -> (r: Option<Picture>)
    requires
        padded(width) <= u32::MAX,
    ensures
        r is Some <==> mapped@.len() == padded(width) * height,
        r matches Some(picture) ==> {
            &&& picture.wf()
            &&& picture.width == width
            &&& picture.height == height
            &&& forall|x: int, y: int, c: int|
                0 <= x < width && 0 <= y < height && 0 <= c < 4 ==> #[trigger] picture.channel(
                    x,
                    y,
                    c,
                ) == mapped@[y * padded(width) + 4 * x + c]
        },
{
    let step: usize = pitch(width) as usize;
    proof {
        assert(padded(width) * height <= 0xffff_ffff * 0xffff_ffff) by (nonlinear_arith)
            requires
                padded(width) <= 0xffff_ffff,
                height <= 0xffff_ffff,
        ;
        assert(0 <= padded(width) * height) by (nonlinear_arith);
    }
    if mapped.len() as u64 != step as u64 * height as u64 {
        return None;
    }
    let row: usize = 4 * width as usize;
    let length: usize = mapped.len();
    let mut pixels: Vec<u8> = Vec::new();
    let mut y: u32 = 0;
    while y < height
        invariant
            y <= height,
            step == padded(width),
            row == 4 * width,
            row <= step,
            length == mapped@.len() == step * height,
            pixels@.len() == row * y,
            row > 0 ==> forall|i: int|
                0 <= i < pixels@.len() ==> #[trigger] pixels@[i] == mapped@[(i / row as int) * step
                    + i % row as int],
        decreases height - y,
    {
        proof {
            assert(step * y + step <= step * height) by (nonlinear_arith)
                requires
                    y + 1 <= height,
                    step >= 0,
            ;
            assert(step * y >= 0) by (nonlinear_arith);
        }
        let start: usize = step * y as usize;
        let mut k: usize = 0;
        while k < row
            invariant
                k <= row <= step,
                y < height,
                start == step * y,
                start + step <= length == mapped@.len(),
                pixels@.len() == row * y + k,
                row > 0 ==> forall|i: int|
                    0 <= i < pixels@.len() ==> #[trigger] pixels@[i] == mapped@[(i / row as int)
                        * step + i % row as int],
            decreases row - k,
        {
            pixels.push(mapped[start + k]);
            proof {
                lemma_fundamental_div_mod_converse(row * y + k, row as int, y as int, k as int);
                assert(step * y == y * step) by (nonlinear_arith);
            }
            k = k + 1;
        }
        proof {
            assert(row * (y + 1) == row * y + row) by (nonlinear_arith);
        }
        y = y + 1;
    }
    let picture: Picture = Picture { width, height, pixels };
    proof {
        assert(row * height == 4 * (width * height)) by (nonlinear_arith)
            requires
                row == 4 * width,
        ;
        assert forall|x: int, y: int, c: int|
            0 <= x < width && 0 <= y < height && 0 <= c < 4 implies #[trigger] picture.channel(
            x,
            y,
            c,
        ) == mapped@[y * padded(width) + 4 * x + c] by {
            let k = 4 * x + c;
            crate::crt::picture::lemma_pixel_index(row as int, height as int, k, y);
            assert(4 * (y * width + x) + c == y * row + k) by (nonlinear_arith)
                requires
                    row == 4 * width,
                    k == 4 * x + c,
            ;
            let i = y * row + k;
            assert(pixels@[i] == mapped@[(i / row as int) * step + i % row as int]);
        }
    }
    Some(picture)
}

/// A texel of half size is the mean of the two by two that it replaces, to the nearest step: it
/// lies between the darkest and the brightest of them, one shade stays that shade, and no texel
/// outside them counts.
pub proof fn halves_are_means(image: Picture, other: Picture, x: int, y: int, c: int)
    requires
        image.wf(),
        0 <= x < half(image.width),
        0 <= y < half(image.height),
        0 <= c < 4,
        other.width == image.width,
        other.height == image.height,
    ensures
        image.width >= 2 && image.height >= 2 ==> {
            let a = image.channel(2 * x, 2 * y, c) as int;
            let b = image.channel(2 * x + 1, 2 * y, c) as int;
            let d = image.channel(2 * x, 2 * y + 1, c) as int;
            let e = image.channel(2 * x + 1, 2 * y + 1, c) as int;
            let r = average(image, x, y, c) as int;
            &&& -2 <= 4 * r - (a + b + d + e) <= 2
            &&& (a == b && b == d && d == e ==> r == a)
            &&& (forall|i: int, j: int|
                0 <= i < 2 && 0 <= j < 2 ==> #[trigger] other.channel(2 * x + i, 2 * y + j, c)
                    == image.channel(2 * x + i, 2 * y + j, c)) ==> average(other, x, y, c) == r
        },
{
    if image.width >= 2 && image.height >= 2 {
        assert(2 * x + 1 < image.width && 2 * y + 1 < image.height);
        assert(next_texel(2 * x, image.width) == 2 * x + 1);
        assert(next_texel(2 * y, image.height) == 2 * y + 1);
        assert(other.channel(2 * x + 0, 2 * y + 0, c) == other.channel(2 * x, 2 * y, c));
        assert(other.channel(2 * x + 1, 2 * y + 0, c) == other.channel(2 * x + 1, 2 * y, c));
        assert(other.channel(2 * x + 0, 2 * y + 1, c) == other.channel(2 * x, 2 * y + 1, c));
        assert(other.channel(2 * x + 1, 2 * y + 1, c) == other.channel(2 * x + 1, 2 * y + 1, c));
    }
}

/// A picture has a level for every power of two up to its longer side.
pub proof fn levels_count_the_halvings(longest: u32)
    requires
        longest > 0,
    ensures
        levels_of(longest) > 0,
        vstd::arithmetic::power2::pow2((levels_of(longest) - 1) as nat) <= longest,
        longest < vstd::arithmetic::power2::pow2(levels_of(longest)),
    decreases longest,
{
    vstd::arithmetic::power2::lemma2_to64();
    if longest >= 2 {
        levels_count_the_halvings(longest / 2);
        let n = levels_of(longest / 2);
        vstd::arithmetic::power2::lemma_pow2_unfold(n);
        vstd::arithmetic::power2::lemma_pow2_unfold((n + 1) as nat);
    }
}

/// A padded row has no more padding than its alignment asks for.
pub proof fn rows_are_padded_no_further(width: u32)
    ensures
        padded(width) % 256 == 0,
        4 * width <= padded(width) < 4 * width + 256,
{
}

} // verus!
