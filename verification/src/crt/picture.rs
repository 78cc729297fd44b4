//! Pictures of 8-bit red, green, blue and alpha.
use crate::number::Real32;
use vstd::arithmetic::div_mod::*;
use vstd::arithmetic::mul::*;
use vstd::prelude::*;

verus! {

/// A picture, row by row from the top, four bytes to a pixel.
#[derive(Clone, Debug, PartialEq, Eq)]
pub struct Picture {
    pub width: u32,
    pub height: u32,
    pub pixels: Vec<u8>,
}

/// How many bytes a picture of a size takes.
pub open spec fn picture_bytes(width: u32, height: u32) -> nat {
    4 * (width as nat * height as nat)
}

impl Picture {
    pub open spec fn wf(self) -> bool {
        self.pixels@.len() == picture_bytes(self.width, self.height)
    }

    /// One channel of a pixel.
    pub open spec fn channel(self, x: int, y: int, c: int) -> u8 {
        self.pixels@[4 * (y * self.width + x) + c]
    }

    pub open spec fn same_size(self, other: Self) -> bool {
        self.width == other.width && self.height == other.height
    }

    /// Whether the bytes are as many as the size asks for.
    pub fn is_whole(&self) -> (r: bool)
        ensures
            r == self.wf(),
    {
        let (width, height) = (self.width, self.height);
        assert(width as u64 as nat * height as u64 as nat == width as nat * height as nat);
        assert(width as nat * height as nat <= 0xffff_ffff * 0xffff_ffff) by (nonlinear_arith)
            requires
                width <= 0xffff_ffff,
                height <= 0xffff_ffff,
        ;
        let area: u64 = width as u64 * height as u64;
        let length: u64 = self.pixels.len() as u64;
        length % 4 == 0 && length / 4 == area
    }

    pub fn dimensions(&self) -> (r: (u32, u32))
        ensures
            r == (self.width, self.height),
    {
        (self.width, self.height)
    }

    /// A picture of its own with the same pixels.
    pub fn copy(&self) -> (r: Picture)
        ensures
            r.width == self.width,
            r.height == self.height,
            r.pixels@ == self.pixels@,
    {
        Picture {
            width: self.width,
            height: self.height,
            pixels: vstd::slice::slice_to_vec(self.pixels.as_slice()),
        }
    }

    pub fn same(&self, other: &Picture) -> (r: bool)
        ensures
            r == (self.same_size(*other) && self.pixels@ == other.pixels@),
    {
        if self.width != other.width || self.height != other.height {
            return false;
        }
        same_bytes(self.pixels.as_slice(), other.pixels.as_slice())
    }
}

pub fn same_bytes(a: &[u8], b: &[u8]) -> (r: bool)
    ensures
        r == (a@ == b@),
{
    if a.len() != b.len() {
        return false;
    }
    let mut i: usize = 0;
    while i < a.len()
        invariant
            i <= a@.len() == b@.len(),
            forall|j: int| 0 <= j < i ==> a@[j] == b@[j],
        decreases a@.len() - i,
    {
        if a[i] != b[i] {
            return false;
        }
        i = i + 1;
    }
    assert(a@ =~= b@);
    true
}

/// Two pixels of a picture are different bytes of it.
pub proof fn lemma_pixel_index(width: int, height: int, x: int, y: int)
    requires
        0 <= x < width,
        0 <= y < height,
    ensures
        0 <= y * width + x < width * height,
        (y * width + x) / width == y,
        (y * width + x) % width == x,
{
    assert(y * width + x < width * height) by (nonlinear_arith)
        requires
            0 <= x < width,
            0 <= y < height,
    ;
    assert(0 <= y * width) by (nonlinear_arith)
        requires
            0 <= y,
            0 < width,
    ;
    lemma_fundamental_div_mod_converse(y * width + x, width, y, x);
}

// -------------------------------------------------------------------------------------------
// Transparency
// -------------------------------------------------------------------------------------------

/// One channel laid over a background, to the nearest 8-bit step.
pub open spec fn blended(value: u8, alpha: u8, background: u8) -> u8 {
    ((value * alpha + background * (255 - alpha) + 127) / 255) as u8
}

/// What becomes of byte `i` when a picture is laid over a background.
pub open spec fn flattened(pixels: Seq<u8>, background: Seq<u8>, i: int) -> u8 {
    if i % 4 == 3 {
        255
    } else {
        blended(pixels[i], pixels[i - i % 4 + 3], background[i % 4])
    }
}

fn blend(value: u8, alpha: u8, background: u8) -> (r: u8)
    ensures
        r == blended(value, alpha, background),
{
    proof {
        assert(value * alpha + background * (255 - alpha) <= 255 * 255) by (nonlinear_arith)
            requires
                value <= 255,
                background <= 255,
                alpha <= 255,
        ;
        assert(0 <= value * alpha) by (nonlinear_arith)
            requires
                value >= 0,
                alpha >= 0,
        ;
        assert(0 <= background * (255 - alpha)) by (nonlinear_arith)
            requires
                background >= 0,
                alpha <= 255,
        ;
    }
    let a: u32 = alpha as u32;
    let v: u32 = value as u32;
    let b: u32 = background as u32;
    ((v * a + b * (255 - a) + 127) / 255) as u8
}

/// Composites every pixel over an opaque `background` and makes it opaque, rounding to the
/// nearest 8-bit step.
pub fn flatten_alpha(image: &mut Picture, background: [u8; 3])
    requires
        old(image).wf(),
    ensures
        final(image).wf(),
        final(image).same_size(*old(image)),
        forall|i: int|
            0 <= i < old(image).pixels@.len() ==> final(image).pixels@[i] == flattened(
                old(image).pixels@,
                background@,
                i,
            ),
{
    let ghost before = image.pixels@;
    let n: usize = image.pixels.len();
    let mut i: usize = 0;
    while i < n
        invariant
            image.wf(),
            image.same_size(*old(image)),
            before == old(image).pixels@,
            n == before.len(),
            n == image.pixels@.len(),
            n % 4 == 0,
            i % 4 == 0,
            i <= n,
            forall|j: int| 0 <= j < i ==> image.pixels@[j] == flattened(before, background@, j),
            forall|j: int| i <= j < n ==> image.pixels@[j] == before[j],
        decreases n - i,
    {
        let alpha: u8 = image.pixels[i + 3];
        let red: u8 = blend(image.pixels[i], alpha, background[0]);
        let green: u8 = blend(image.pixels[i + 1], alpha, background[1]);
        let blue: u8 = blend(image.pixels[i + 2], alpha, background[2]);
        image.pixels.set(i, red);
        image.pixels.set(i + 1, green);
        image.pixels.set(i + 2, blue);
        image.pixels.set(i + 3, 255);
        i = i + 4;
    }
}

/// Laying a picture over a background keeps its opaque pixels as they are, and shows the
/// background through the transparent ones.
pub proof fn flattening_keeps_opaque_and_shows_background(value: u8, background: u8)
    ensures
        blended(value, 255, background) == value,
        blended(value, 0, background) == background,
{
}

/// What is laid over a background is the mean of both by how opaque it is, to the nearest step, and
/// so between them.
pub proof fn blending_is_a_mean(value: u8, alpha: u8, background: u8)
    ensures
        -127 <= 255 * blended(value, alpha, background) - (alpha * value + (255 - alpha)
            * background) <= 127,
        value <= background ==> value <= blended(value, alpha, background) <= background,
        background <= value ==> background <= blended(value, alpha, background) <= value,
{
    let (v, a, b) = (value as int, alpha as int, background as int);
    let sum = v * a + b * (255 - a);
    assert(sum == a * v + (255 - a) * b) by (nonlinear_arith)
        requires
            sum == v * a + b * (255 - a),
    ;
    let least = if v <= b {
        v
    } else {
        b
    };
    let most = if v <= b {
        b
    } else {
        v
    };
    assert(255 * least <= sum <= 255 * most) by (nonlinear_arith)
        requires
            sum == v * a + b * (255 - a),
            least <= v <= most,
            least <= b <= most,
            0 <= a <= 255,
    ;
}

/// Laying a picture that has no transparency over a background changes nothing.
pub proof fn flattening_leaves_opaque_pictures(pixels: Seq<u8>, background: Seq<u8>, i: int)
    requires
        0 <= i < pixels.len(),
        pixels.len() % 4 == 0,
        forall|j: int| 0 <= j < pixels.len() && j % 4 == 3 ==> pixels[j] == 255,
    ensures
        flattened(pixels, background, i) == pixels[i],
{
    flattening_keeps_opaque_and_shows_background(pixels[i], background[i % 4]);
}

// -------------------------------------------------------------------------------------------
// The test card
// -------------------------------------------------------------------------------------------

/// The test card's grey or color bars at a pixel.
pub open spec fn card(x: int, y: int, c: int) -> u8 {
    if c == 3 {
        255
    } else if y < 96 {
        bar(x / 32, c)
    } else if y < 144 {
        x as u8
    } else if y < 184 {
        if (x / 4 + y / 4) % 2 == 0 {
            240
        } else {
            16
        }
    } else if x % 16 < 2 {
        255
    } else {
        0
    }
}

/// White, yellow, cyan, green, magenta, red, blue and black.
pub open spec fn bar(n: int, c: int) -> u8 {
    let lit = if c == 0 {
        n == 0 || n == 1 || n == 4 || n == 5
    } else if c == 1 {
        n == 0 || n == 1 || n == 2 || n == 3
    } else {
        n == 0 || n == 2 || n == 4 || n == 6
    };
    if lit {
        255
    } else {
        0
    }
}

fn card_channel(x: u32, y: u32, c: u32) -> (r: u8)
    requires
        x < 256,
        y < 224,
        c < 4,
    ensures
        r == card(x as int, y as int, c as int),
{
    if c == 3 {
        255
    } else if y < 96 {
        let n: u32 = x / 32;
        let lit: bool = if c == 0 {
            n == 0 || n == 1 || n == 4 || n == 5
        } else if c == 1 {
            n <= 3
        } else {
            n == 0 || n == 2 || n == 4 || n == 6
        };
        if lit {
            255
        } else {
            0
        }
    } else if y < 144 {
        x as u8
    } else if y < 184 {
        if (x / 4 + y / 4) % 2 == 0 {
            240
        } else {
            16
        }
    } else if x % 16 < 2 {
        255
    } else {
        0
    }
}

/// Whether a picture is the built-in test card.
pub open spec fn is_card(picture: Picture) -> bool {
    &&& picture.wf()
    &&& picture.width == 256
    &&& picture.height == 224
    &&& forall|x: int, y: int, c: int|
        0 <= x < 256 && 0 <= y < 224 && 0 <= c < 4 ==> #[trigger] picture.channel(x, y, c) == card(
            x,
            y,
            c,
        )
}

/// The built-in test card, not a screenshot from a commercial game.
pub fn test_card() -> (r: Picture)
    ensures
        is_card(r),
{
    let mut pixels: Vec<u8> = Vec::new();
    let mut i: u32 = 0;
    while i < 229376
        invariant
            i <= 229376,
            pixels@.len() == i,
            forall|j: int|
                0 <= j < i ==> #[trigger] pixels@[j] == card((j / 4) % 256, (j / 4) / 256, j % 4),
        decreases 229376 - i,
    {
        let at: u32 = i / 4;
        pixels.push(card_channel(at % 256, at / 256, i % 4));
        i = i + 1;
    }
    let r: Picture = Picture { width: 256, height: 224, pixels };
    proof {
        assert forall|x: int, y: int, c: int|
            0 <= x < 256 && 0 <= y < 224 && 0 <= c < 4 implies #[trigger] r.channel(x, y, c)
            == card(x, y, c) by {
            let j = 4 * (y * 256 + x) + c;
            assert(j / 4 == y * 256 + x);
            assert((y * 256 + x) % 256 == x);
            assert((y * 256 + x) / 256 == y);
            assert(j % 4 == c);
        }
    }
    r
}

// -------------------------------------------------------------------------------------------
// Resizing
// -------------------------------------------------------------------------------------------

/// The pixel along a side of length `from` that is nearest to the middle of pixel `i` along one
/// of length `to`.
pub open spec fn nearest_at(i: int, from: u32, to: u32) -> int {
    let half = Real32 { bits: 0x3f00_0000 };
    let ratio = Real32::of(from as nat).over(Real32::of(to as nat));
    let at = Real32::of(i as nat).plus(half).times(ratio).floored(u32::MAX as nat);
    if at < from {
        at
    } else {
        from - 1
    }
}

/// A picture's bytes resized by taking the nearest pixels.
pub open spec fn nearest_resized(
    pixels: Seq<u8>,
    width: u32,
    height: u32,
    new_width: u32,
    new_height: u32,
) -> Seq<u8> {
    Seq::new(
        picture_bytes(new_width, new_height),
        |i: int|
            {
                let x = nearest_at(i / 4 % (new_width as int), width, new_width);
                let y = nearest_at(i / 4 / (new_width as int), height, new_height);
                pixels[4 * (y * width + x) + i % 4]
            },
    )
}

/// Whether a channel has the same value in every pixel.
pub open spec fn has_one_value(pixels: Seq<u8>, c: int, v: u8) -> bool {
    forall|i: int| 0 <= i < pixels.len() && i % 4 == c ==> #[trigger] pixels[i] == v
}

/// Resizes with `image::imageops::resize`: its Lanczos3 filter when `smooth`, else its nearest
/// one. What comes back has the new size, and is a copy where that is the old one. The nearest
/// filter takes over one pixel each: the one that the middle of the new pixel falls in. Of the
/// smooth filter's pixels no more is claimed than that a channel of one value keeps it: each pixel
/// is a mean whose weights are divided by their own sum, rounded to the nearest step. Which mean
/// is left unsaid: the weights come from a sine that machines may round differently.
#[verifier::external_body]
pub(crate) fn resize(image: &Picture, width: u32, height: u32, smooth: bool) -> (r: Picture)
    requires
        image.wf(),
        image.width > 0 && image.height > 0 && width > 0 && height > 0,
        width <= 16384 && height <= 16384 && image.width <= 16384 && image.height <= 16384,
    ensures
        r.wf(),
        r.width == width && r.height == height,
        width == image.width && height == image.height ==> r.pixels@ == image.pixels@,
        !smooth ==> r.pixels@ == nearest_resized(
            image.pixels@,
            image.width,
            image.height,
            width,
            height,
        ),
        forall|c: int, v: u8|
            0 <= c < 4 && #[trigger] has_one_value(image.pixels@, c, v) ==> has_one_value(
                r.pixels@,
                c,
                v,
            ),
{
    let source: image::RgbaImage = image::ImageBuffer::from_raw(
        image.width,
        image.height,
        image.pixels.clone(),
    ).unwrap();
    let filter = if smooth {
        image::imageops::FilterType::Lanczos3
    } else {
        image::imageops::FilterType::Nearest
    };
    let resized = image::imageops::resize(&source, width, height, filter);
    Picture { width, height, pixels: resized.into_raw() }
}

/// Whether resizing a picture of these bytes and this size can give these bytes: `resize` gives
/// them of such a picture.
pub closed spec fn resized_to(
    pixels: Seq<u8>,
    size: (u32, u32),
    new_size: (u32, u32),
    smooth: bool,
    r: Seq<u8>,
) -> bool {
    exists|image: Picture, out: Picture|
        {
            &&& image.pixels@ == pixels
            &&& (image.width, image.height) == size
            &&& out.pixels@ == r
            &&& #[trigger] call_ensures(resize, (&image, new_size.0, new_size.1, smooth), out)
        }
}

fn run_resize<F: Fn(&Picture, u32, u32, bool) -> Picture>(
    f: F,
    image: &Picture,
    size: (u32, u32),
    smooth: bool,
) -> (r: Picture)
    requires
        call_requires(f, (image, size.0, size.1, smooth)),
    ensures
        call_ensures(f, (image, size.0, size.1, smooth), r),
{
    f(image, size.0, size.1, smooth)
}

/// Resizes a picture, smoothly or by its nearest pixels.
pub(crate) fn resize_to(image: &Picture, size: (u32, u32), smooth: bool) -> (r: Picture)
    requires
        image.wf(),
        image.width > 0 && image.height > 0 && size.0 > 0 && size.1 > 0,
        size.0 <= 16384 && size.1 <= 16384 && image.width <= 16384 && image.height <= 16384,
    ensures
        r.wf(),
        (r.width, r.height) == size,
        resized_to(image.pixels@, (image.width, image.height), size, smooth, r.pixels@),
{
    let r: Picture = run_resize(resize, image, size, smooth);
    assert(call_ensures(resize, (image, size.0, size.1, smooth), r));
    r
}

/// What resizing gives is of the new size, a copy where that is the old one, and of the nearest
/// pixels unless it is smooth. A channel of one value keeps it.
pub proof fn resizing_keeps_plain_channels(
    pixels: Seq<u8>,
    size: (u32, u32),
    new_size: (u32, u32),
    smooth: bool,
    r: Seq<u8>,
)
    requires
        resized_to(pixels, size, new_size, smooth, r),
    ensures
        r.len() == picture_bytes(new_size.0, new_size.1),
        new_size == size ==> r == pixels,
        !smooth ==> r == nearest_resized(pixels, size.0, size.1, new_size.0, new_size.1),
        forall|c: int, v: u8|
            0 <= c < 4 && #[trigger] has_one_value(pixels, c, v) ==> has_one_value(r, c, v),
{
}

/// The middle of a pixel falls in proportion on a side of another length: within a part in 512 of a
/// pixel.
pub proof fn middles_are_in_proportion(i: nat, from: u32, to: u32)
    requires
        0 < from <= 16384,
        i < to <= 16384,
    ensures
        ({
            let middle = Real32::of(i).plus(Real32 { bits: 0x3f00_0000 });
            let c = middle.times(Real32::of(from as nat).over(Real32::of(to as nat)));
            let u = crate::margin::unit();
            &&& c.finite()
            &&& crate::margin::within(
                512 * ((2 * to) * crate::margin::worth(c)),
                512 * (((2 * i + 1) * from) * u),
                (2 * to) * u,
            )
        }),
{
    crate::crt::source::lemma_middle(i);
    let q = crate::crt::config::lemma_near_ratio(from, to);
    crate::margin::lemma_units();
    reveal(Real32::finite);
    reveal(Real32::times);
    vstd::arithmetic::power2::lemma2_to64();
    crate::float::lemma_unit_pow_adds(0, 15);
    crate::float::lemma_unit_pow_adds(-10, 10);
    let f = crate::float::Format::Single;
    let u = crate::margin::unit();
    let (big, e) = (crate::float::unit_pow(15) as int, crate::float::unit_pow(-10) as int);
    assert(u * 0x8000 == 0x8000 * u && e * 0x400 == 0x400 * e) by (nonlinear_arith);
    let middle = Real32::of(i).plus(Real32 { bits: 0x3f00_0000 });
    let (m, r) = (crate::margin::worth(middle), crate::margin::worth(q));
    let (w, h, n) = (from as int, to as int, 2 * i as int + 1);
    let (rh, wu) = (r * h, w * u);
    // The ratio is near: r * h is w * u, give or take a part in 2^24.
    assert(crate::margin::within(rh * 0x100_0000, wu * 0x100_0000, wu)) by (nonlinear_arith)
        requires
            crate::margin::within((r * (h * u)) * 0x100_0000, (wu * u) * 0x100_0000, 1 * (wu * u)),
            rh == r * h,
            u > 0,
    ;
    let mr = m * r;
    let (nrh, nwu) = (n * rh, n * wu);
    assert(crate::margin::within(nrh * 0x100_0000, nwu * 0x100_0000, nwu)) by (nonlinear_arith)
        requires
            crate::margin::within(rh * 0x100_0000, wu * 0x100_0000, wu),
            nrh == n * rh,
            nwu == n * wu,
            n > 0,
    ;
    let t = 2 * h;
    let tu = t * u;
    assert(0 < nwu && nwu <= 0x4000 * tu) by (nonlinear_arith)
        requires
            nwu == n * wu,
            wu == w * u,
            tu == t * u,
            0 < n < t,
            0 < w <= 0x4000,
            u > 0,
    ;
    // Twice h times m * r is n * r * h * u.
    assert(t * mr == nrh * u) by (nonlinear_arith)
        requires
            2 * m == n * u,
            mr == m * r,
            nrh == n * rh,
            rh == r * h,
            t == 2 * h,
    ;
    assert(crate::margin::within(1024 * (t * mr), 1024 * (nwu * u), tu * u)) by (nonlinear_arith)
        requires
            crate::margin::within(nrh * 0x100_0000, nwu * 0x100_0000, nwu),
            0 < nwu <= 0x4000 * tu,
            t * mr == nrh * u,
            u > 0,
    ;
    assert(0 <= mr < big * u) by (nonlinear_arith)
        requires
            crate::margin::within(1024 * (t * mr), 1024 * (nwu * u), tu * u),
            0 < nwu <= 0x4000 * tu,
            tu == t * u,
            big == 0x8000 * u,
            mr == m * r,
            m >= 0,
            r >= 0,
            t > 0,
            u > 0,
    ;
    crate::margin::products_are_close(f, middle.at(), q.at(), 15);
    let c = crate::margin::worth(middle.times(q));
    let tc = t * c;
    assert(crate::margin::within(1024 * (tc * u), 1024 * (t * mr), tu * u)) by (nonlinear_arith)
        requires
            c * u - mr <= e * u,
            mr - c * u <= e * u,
            u == 0x400 * e,
            tc == t * c,
            tu == t * u,
            t > 0,
    ;
    assert(crate::margin::within(512 * tc, 512 * nwu, tu)) by (nonlinear_arith)
        requires
            crate::margin::within(1024 * (tc * u), 1024 * (t * mr), tu * u),
            crate::margin::within(1024 * (t * mr), 1024 * (nwu * u), tu * u),
            u > 0,
    ;
    assert((n * w) * u == nwu) by (nonlinear_arith)
        requires
            nwu == n * wu,
            wu == w * u,
    ;
}

/// The pixel taken as nearest is one that the middle of the new pixel falls on, within a part in 512
/// of a pixel.
pub proof fn nearest_pixels_lie_under_the_middle(i: nat, from: u32, to: u32)
    requires
        0 < from <= 16384,
        i < to <= 16384,
    ensures
        ({
            let k = nearest_at(i as int, from, to);
            let middle = 512 * ((2 * i + 1) * from);
            &&& 0 <= k < from
            &&& 512 * ((2 * to) * k) <= middle + 2 * to
            &&& middle <= 512 * ((2 * to) * (k + 1)) + 2 * to
        }),
{
    middles_are_in_proportion(i, from, to);
    crate::margin::lemma_units();
    reveal(Real32::finite);
    reveal(Real32::floored);
    let u = crate::margin::unit();
    let c = Real32::of(i).plus(Real32 { bits: 0x3f00_0000 }).times(
        Real32::of(from as nat).over(Real32::of(to as nat)),
    );
    let v = crate::margin::worth(c);
    let q = v / u;
    let (t, w, n) = (2 * to as int, from as int, 2 * i as int + 1);
    let nw = n * w;
    assert(q * u <= v < q * u + u) by (nonlinear_arith)
        requires
            q == v / u,
            u > 0,
    ;
    assert(0 < nw && nw <= t * w) by (nonlinear_arith)
        requires
            nw == n * w,
            0 < n < t,
            0 < w,
    ;
    let tw = t * w;
    assert(-1 <= q <= w && 512 * (t * q) <= 512 * nw + t && 512 * nw <= 512 * (t * (q + 1)) + t)
        by (nonlinear_arith)
        requires
            crate::margin::within(512 * (t * v), 512 * (nw * u), t * u),
            q * u <= v < q * u + u,
            0 < nw <= t * w,
            t > 0,
            u > 0,
    ;
    let k = nearest_at(i as int, from, to);
    assert(v >= 0 ==> q >= 0) by (nonlinear_arith)
        requires
            v < q * u + u,
            u > 0,
    ;
    assert(v >= 0) by {
        reveal(Real32::times);
        crate::crt::source::lemma_middle(i);
        let r = crate::crt::config::lemma_near_ratio(from, to);
        crate::margin::products_keep_order(
            crate::float::Format::Single,
            Real32::of(i).plus(Real32 { bits: 0x3f00_0000 }).at(),
            Real32::of(i).plus(Real32 { bits: 0x3f00_0000 }).at(),
            r.at(),
        );
    }
    if q >= w {
        assert(k == w - 1);
        assert(t * (k + 1) == tw && t * k <= t * q) by (nonlinear_arith)
            requires
                k == w - 1,
                tw == t * w,
                q >= w,
                t > 0,
        ;
    } else {
        assert(k == q);
    }
}

} // verus!
