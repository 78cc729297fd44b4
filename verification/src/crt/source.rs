//! Edits of the source: crop, rotation, zoom and pan, and what shows through transparency.
use crate::crt::picture::Picture;
use crate::number::Real32;
use vstd::prelude::*;

verus! {

/// Why an edit is refused.
#[derive(Clone, Copy, PartialEq, Eq, Structural, Debug)]
pub enum SourceError {
    /// A crop outside 0 up to 1.
    Crop,
    /// Crops that leave less than 1% of a dimension.
    NothingLeft,
    /// A rotation past ±360 degrees.
    Rotation,
    /// A zoom outside 0.05–20.
    Zoom,
    /// A position past ±4 canvas sizes.
    Position,
}

impl SourceError {
    pub open spec fn text(self) -> Seq<char> {
        match self {
            SourceError::Crop => "Crop must be between 0 and 1"@,
            SourceError::NothingLeft => "Crop must retain at least 1% of each dimension"@,
            SourceError::Rotation => "Rotation must be within ±360 degrees"@,
            SourceError::Zoom => "Source zoom must be 0.05–20"@,
            SourceError::Position => "Source position must be within ±4 canvas sizes"@,
        }
    }

    pub fn message(&self) -> (r: &'static str)
        ensures
            r@ == self.text(),
    {
        match *self {
            SourceError::Crop => "Crop must be between 0 and 1",
            SourceError::NothingLeft => "Crop must retain at least 1% of each dimension",
            SourceError::Rotation => "Rotation must be within ±360 degrees",
            SourceError::Zoom => "Source zoom must be 0.05–20",
            SourceError::Position => "Source position must be within ±4 canvas sizes",
        }
    }
}

#[derive(Clone, Copy, PartialEq, Eq, Debug)]
pub struct SourceEdit {
    /// Fractions removed from left, top, right, bottom.
    pub crop: [Real32; 4],
    /// In degrees.
    pub rotation: Real32,
    pub zoom: Real32,
    /// Translation in canvas widths/heights, positive right/down.
    pub position: [Real32; 2],
    pub background: [u8; 3],
    pub checkerboard: bool,
}

impl Default for SourceEdit {
    /// No edit, over black.
    fn default() -> (r: Self)
        ensures
            r == Self::none(),
    {
        let zero: Real32 = Real32 { bits: 0 };
        let r: SourceEdit = SourceEdit {
            crop: [zero, zero, zero, zero],
            rotation: zero,
            zoom: Real32 { bits: 0x3f80_0000 },
            position: [zero, zero],
            background: [0, 0, 0],
            checkerboard: false,
        };
        assert(r.crop@ =~= Self::none().crop@);
        assert(r.position@ =~= Self::none().position@);
        assert(r.background@ =~= Self::none().background@);
        r
    }
}

pub open spec fn zero() -> Real32 {
    Real32 { bits: 0 }
}

pub open spec fn half() -> Real32 {
    Real32 { bits: 0x3f00_0000 }
}

pub open spec fn one() -> Real32 {
    Real32 { bits: 0x3f80_0000 }
}

/// The nearest number to 0.99.
pub open spec fn nearly_one() -> Real32 {
    Real32 { bits: 0x3f7d_70a4 }
}

/// The nearest number to 0.05.
pub open spec fn least_zoom() -> Real32 {
    Real32 { bits: 0x3d4c_cccd }
}

pub open spec fn crop_ok(v: Real32) -> bool {
    v.finite() && zero().up_to(v) && v.below(one())
}

/// How far out a sample can lie; past this it is off any picture.
pub open spec fn far_out() -> nat {
    0x4000_0000_0000_0000
}

impl SourceEdit {
    pub open spec fn none() -> Self {
        SourceEdit {
            crop: [zero(), zero(), zero(), zero()],
            rotation: zero(),
            zoom: one(),
            position: [zero(), zero()],
            background: [0, 0, 0],
            checkerboard: false,
        }
    }

    /// What is wrong with an edit, if anything.
    pub open spec fn fault(self) -> Option<SourceError> {
        if !(crop_ok(self.crop@[0]) && crop_ok(self.crop@[1]) && crop_ok(self.crop@[2]) && crop_ok(
            self.crop@[3],
        )) {
            Some(SourceError::Crop)
        } else if !(self.crop@[0].plus(self.crop@[2]).below(nearly_one()) && self.crop@[1].plus(
            self.crop@[3],
        ).below(nearly_one())) {
            Some(SourceError::NothingLeft)
        } else if !(self.rotation.finite() && self.rotation.absolute().up_to(
            Real32 { bits: 0x43b4_0000 },
        )) {
            Some(SourceError::Rotation)
        } else if !(self.zoom.finite() && least_zoom().up_to(self.zoom) && self.zoom.up_to(
            Real32 { bits: 0x41a0_0000 },
        )) {
            Some(SourceError::Zoom)
        } else if !(position_ok(self.position@[0]) && position_ok(self.position@[1])) {
            Some(SourceError::Position)
        } else {
            None
        }
    }

    /// Whether two edits hold the same numbers.
    pub open spec fn equal(self, other: Self) -> bool {
        &&& self.crop@[0].equal(other.crop@[0])
        &&& self.crop@[1].equal(other.crop@[1])
        &&& self.crop@[2].equal(other.crop@[2])
        &&& self.crop@[3].equal(other.crop@[3])
        &&& self.rotation.equal(other.rotation)
        &&& self.zoom.equal(other.zoom)
        &&& self.position@[0].equal(other.position@[0])
        &&& self.position@[1].equal(other.position@[1])
        &&& self.background@ == other.background@
        &&& self.checkerboard == other.checkerboard
    }

    pub fn validate(&self) -> (r: Result<(), SourceError>)
        ensures
            r == match self.fault() {
                None => Ok::<(), SourceError>(()),
                Some(e) => Err::<(), SourceError>(e),
            },
    {
        let limit: Real32 = Real32 { bits: 0x3f7d_70a4 };
        if !(plain_crop(self.crop[0]) && plain_crop(self.crop[1]) && plain_crop(self.crop[2])
            && plain_crop(self.crop[3])) {
            Err(SourceError::Crop)
        } else if !(self.crop[0].add(self.crop[2]).less(limit) && self.crop[1].add(
            self.crop[3],
        ).less(limit)) {
            Err(SourceError::NothingLeft)
        } else if !(self.rotation.is_finite() && self.rotation.abs().at_most(
            Real32 { bits: 0x43b4_0000 },
        )) {
            Err(SourceError::Rotation)
        } else if !(self.zoom.is_finite() && Real32 { bits: 0x3d4c_cccd }.at_most(self.zoom)
            && self.zoom.at_most(Real32 { bits: 0x41a0_0000 })) {
            Err(SourceError::Zoom)
        } else if !(plain_position(self.position[0]) && plain_position(self.position[1])) {
            Err(SourceError::Position)
        } else {
            Ok(())
        }
    }

    pub fn same(&self, other: &Self) -> (r: bool)
        ensures
            r == self.equal(*other),
    {
        let background: bool = self.background[0] == other.background[0] && self.background[1]
            == other.background[1] && self.background[2] == other.background[2];
        proof {
            if background {
                assert(self.background@ =~= other.background@);
            }
        }
        self.crop[0].same(other.crop[0]) && self.crop[1].same(other.crop[1]) && self.crop[2].same(
            other.crop[2],
        ) && self.crop[3].same(other.crop[3]) && self.rotation.same(other.rotation)
            && self.zoom.same(other.zoom) && self.position[0].same(other.position[0])
            && self.position[1].same(other.position[1]) && background && self.checkerboard
            == other.checkerboard
    }

    /// What a side of `length` pixels keeps after crops of `a` and `b` at its ends: at least one
    /// pixel.
    pub open spec fn kept(length: u32, a: Real32, b: Real32) -> u32 {
        let n = Real32::of(length as nat).times(one().minus(a).minus(b)).rounded(u32::MAX as nat);
        if n == 0 {
            1
        } else {
            n as u32
        }
    }

    /// The size a source of `size` has once cropped.
    pub open spec fn cropped(self, size: (u32, u32)) -> (u32, u32) {
        (
            Self::kept(size.0, self.crop@[0], self.crop@[2]),
            Self::kept(size.1, self.crop@[1], self.crop@[3]),
        )
    }

    fn keep(length: u32, a: Real32, b: Real32) -> (r: u32)
        ensures
            r == Self::kept(length, a, b),
            r > 0,
    {
        let part: Real32 = Real32 { bits: 0x3f80_0000 }.sub(a).sub(b);
        let n: u32 = Real32::from_integer(length as u64).mul(part).round(u32::MAX);
        if n == 0 {
            1
        } else {
            n
        }
    }

    pub fn size(&self, size: (u32, u32)) -> (r: (u32, u32))
        ensures
            r == self.cropped(size),
            r.0 > 0,
            r.1 > 0,
    {
        (
            Self::keep(size.0, self.crop[0], self.crop[2]),
            Self::keep(size.1, self.crop[1], self.crop[3]),
        )
    }

    /// What shows through transparency at a pixel: squares of 16 pixels, or one color.
    pub open spec fn background_of(self, x: int, y: int, c: int) -> u8 {
        if self.checkerboard {
            if (x / 16 + y / 16) % 2 == 0 {
                192
            } else {
                128
            }
        } else {
            self.background@[c]
        }
    }

    pub fn background_at(&self, x: u32, y: u32) -> (r: [u8; 3])
        ensures
            forall|c: int| 0 <= c < 3 ==> r@[c] == self.background_of(x as int, y as int, c),
    {
        if self.checkerboard {
            let level: u8 = if (x / 16 + y / 16) % 2 == 0 {
                192
            } else {
                128
            };
            [level, level, level]
        } else {
            self.background
        }
    }
}

pub open spec fn position_ok(v: Real32) -> bool {
    v.finite() && v.absolute().up_to(Real32 { bits: 0x4080_0000 })
}

fn plain_position(v: Real32) -> (r: bool)
    ensures
        r == position_ok(v),
{
    v.is_finite() && v.abs().at_most(Real32 { bits: 0x4080_0000 })
}

fn plain_crop(v: Real32) -> (r: bool)
    ensures
        r == crop_ok(v),
{
    v.is_finite() && Real32 { bits: 0 }.at_most(v) && v.less(Real32 { bits: 0x3f80_0000 })
}

// -------------------------------------------------------------------------------------------
// Resampling through an edit
// -------------------------------------------------------------------------------------------

/// Where an edit puts its source on a canvas: the pixels it starts at, the size it keeps, the
/// sine and cosine it turns by, and how it samples.
#[derive(Clone, Copy, PartialEq, Eq, Debug)]
pub struct Framing {
    pub edit: SourceEdit,
    pub left: Real32,
    pub top: Real32,
    pub width: u32,
    pub height: u32,
    pub canvas: (u32, u32),
    pub sine: Real32,
    pub cosine: Real32,
    pub nearest: bool,
}

impl SourceEdit {
    pub open spec fn framing(
        self,
        size: (u32, u32),
        canvas: (u32, u32),
        nearest: bool,
        turn: (Real32, Real32),
    ) -> Framing {
        Framing {
            edit: self,
            left: Real32::of(size.0 as nat).times(self.crop@[0]),
            top: Real32::of(size.1 as nat).times(self.crop@[1]),
            width: self.cropped(size).0,
            height: self.cropped(size).1,
            canvas,
            sine: turn.0,
            cosine: turn.1,
            nearest,
        }
    }
}

impl Framing {
    /// How far from the middle of what is kept a canvas pixel lies along one side.
    pub open spec fn offset(self, at: int, canvas: u32, position: Real32, kept: u32) -> Real32 {
        Real32::of(at as nat).plus(half()).over(Real32::of(canvas as nat)).minus(half()).minus(
            position,
        ).times(Real32::of(kept as nat)).over(self.edit.zoom)
    }

    /// Where in what is kept a canvas pixel comes from.
    pub open spec fn origin(self, x: int, y: int) -> (Real32, Real32) {
        let px = self.offset(x, self.canvas.0, self.edit.position@[0], self.width);
        let py = self.offset(y, self.canvas.1, self.edit.position@[1], self.height);
        (
            self.cosine.times(px).plus(self.sine.times(py)).plus(
                Real32::of(self.width as nat).times(half()),
            ),
            self.sine.negated().times(px).plus(self.cosine.times(py)).plus(
                Real32::of(self.height as nat).times(half()),
            ),
        )
    }

    /// Whether a source pixel is kept by the crop.
    pub open spec fn keeps(self, input: Picture, ix: int, iy: int) -> bool {
        let fx = Real32::of_signed(ix).plus(half());
        let fy = Real32::of_signed(iy).plus(half());
        &&& !fx.below(self.left)
        &&& !fy.below(self.top)
        &&& !self.left.plus(Real32::of(self.width as nat)).up_to(fx)
        &&& !self.top.plus(Real32::of(self.height as nat)).up_to(fy)
        &&& 0 <= ix < input.width
        &&& 0 <= iy < input.height
    }

    /// A channel of a source pixel over the background, or the background off the picture.
    pub open spec fn sampled(self, input: Picture, ix: int, iy: int, background: u8, c: int) -> Real32 {
        if self.keeps(input, ix, iy) {
            let a = Real32::of(input.channel(ix, iy, 3) as nat).over(Real32::of(255));
            Real32::of(input.channel(ix, iy, c) as nat).times(a).plus(
                Real32::of(background as nat).times(one().minus(a)),
            )
        } else {
            Real32::of(background as nat)
        }
    }

    /// A channel of a canvas pixel before it is rounded.
    #[verifier::opaque]
    pub open spec fn shade(self, input: Picture, x: int, y: int, c: int) -> Real32 {
        let at = self.origin(x, y);
        let background = self.edit.background_of(x, y, c);
        if self.nearest {
            self.sampled(
                input,
                self.left.plus(at.0).floored(far_out()),
                self.top.plus(at.1).floored(far_out()),
                background,
                c,
            )
        } else {
            let fx = self.left.plus(at.0).minus(half());
            let fy = self.top.plus(at.1).minus(half());
            let ix = fx.floored(far_out());
            let iy = fy.floored(far_out());
            let dx = fx.minus(Real32::of_signed(ix));
            let dy = fy.minus(Real32::of_signed(iy));
            let upper = self.sampled(input, ix, iy, background, c).times(one().minus(dx)).plus(
                self.sampled(input, ix + 1, iy, background, c).times(dx),
            );
            let lower = self.sampled(input, ix, iy + 1, background, c).times(one().minus(dx)).plus(
                self.sampled(input, ix + 1, iy + 1, background, c).times(dx),
            );
            upper.times(one().minus(dy)).plus(lower.times(dy))
        }
    }

    /// A channel of a canvas pixel.
    pub open spec fn painted(self, input: Picture, x: int, y: int, c: int) -> u8 {
        if c == 3 {
            255
        } else {
            self.shade(input, x, y, c).rounded(255) as u8
        }
    }

    fn offset_of(&self, at: u32, canvas: u32, position: Real32, kept: u32) -> (r: Real32)
        ensures
            r == self.offset(at as int, canvas, position, kept),
    {
        let middle: Real32 = Real32 { bits: 0x3f00_0000 };
        Real32::from_integer(at as u64).add(middle).div(Real32::from_integer(canvas as u64)).sub(
            middle,
        ).sub(position).mul(Real32::from_integer(kept as u64)).div(self.edit.zoom)
    }

    fn origin_of(&self, x: u32, y: u32) -> (r: (Real32, Real32))
        ensures
            r == self.origin(x as int, y as int),
    {
        let middle: Real32 = Real32 { bits: 0x3f00_0000 };
        let px: Real32 = self.offset_of(x, self.canvas.0, self.edit.position[0], self.width);
        let py: Real32 = self.offset_of(y, self.canvas.1, self.edit.position[1], self.height);
        (
            self.cosine.mul(px).add(self.sine.mul(py)).add(
                Real32::from_integer(self.width as u64).mul(middle),
            ),
            self.sine.neg().mul(px).add(self.cosine.mul(py)).add(
                Real32::from_integer(self.height as u64).mul(middle),
            ),
        )
    }

    fn keeps_pixel(&self, input: &Picture, ix: i64, iy: i64) -> (r: bool)
        requires
            -0x4000_0000_0000_0001 <= ix <= 0x4000_0000_0000_0001,
            -0x4000_0000_0000_0001 <= iy <= 0x4000_0000_0000_0001,
        ensures
            r == self.keeps(*input, ix as int, iy as int),
    {
        let middle: Real32 = Real32 { bits: 0x3f00_0000 };
        let fx: Real32 = Real32::from_signed(ix).add(middle);
        let fy: Real32 = Real32::from_signed(iy).add(middle);
        !fx.less(self.left) && !fy.less(self.top) && !self.left.add(
            Real32::from_integer(self.width as u64),
        ).at_most(fx) && !self.top.add(Real32::from_integer(self.height as u64)).at_most(fy) && 0
            <= ix && ix < input.width as i64 && 0 <= iy && iy < input.height as i64
    }

    fn sample(&self, input: &Picture, ix: i64, iy: i64, background: [u8; 3]) -> (r: [Real32; 3])
        requires
            input.wf(),
            -0x4000_0000_0000_0001 <= ix <= 0x4000_0000_0000_0001,
            -0x4000_0000_0000_0001 <= iy <= 0x4000_0000_0000_0001,
        ensures
            forall|c: int|
                0 <= c < 3 ==> r@[c] == self.sampled(
                    *input,
                    ix as int,
                    iy as int,
                    background@[c],
                    c,
                ),
    {
        if !self.keeps_pixel(input, ix, iy) {
            return [
                Real32::from_integer(background[0] as u64),
                Real32::from_integer(background[1] as u64),
                Real32::from_integer(background[2] as u64),
            ];
        }
        let unit: Real32 = Real32 { bits: 0x3f80_0000 };
        proof {
            crate::crt::picture::lemma_pixel_index(
                input.width as int,
                input.height as int,
                ix as int,
                iy as int,
            );
            assert(input.pixels.len() <= usize::MAX);
            assert(0 <= iy * input.width) by (nonlinear_arith)
                requires
                    0 <= iy,
                    0 <= input.width,
            ;
        }
        let index: usize = 4 * (iy as usize * input.width as usize + ix as usize);
        let alpha: Real32 = Real32::from_integer(input.pixels[index + 3] as u64).div(
            Real32::from_integer(255),
        );
        let rest: Real32 = unit.sub(alpha);
        [
            Real32::from_integer(input.pixels[index] as u64).mul(alpha).add(
                Real32::from_integer(background[0] as u64).mul(rest),
            ),
            Real32::from_integer(input.pixels[index + 1] as u64).mul(alpha).add(
                Real32::from_integer(background[1] as u64).mul(rest),
            ),
            Real32::from_integer(input.pixels[index + 2] as u64).mul(alpha).add(
                Real32::from_integer(background[2] as u64).mul(rest),
            ),
        ]
    }

    fn shades(&self, input: &Picture, x: u32, y: u32) -> (r: [Real32; 3])
        requires
            input.wf(),
        ensures
            forall|c: int| 0 <= c < 3 ==> r@[c] == self.shade(*input, x as int, y as int, c),
    {
        proof {
            reveal(Framing::shade);
        }
        let at: (Real32, Real32) = self.origin_of(x, y);
        let background: [u8; 3] = self.edit.background_at(x, y);
        let middle: Real32 = Real32 { bits: 0x3f00_0000 };
        let unit: Real32 = Real32 { bits: 0x3f80_0000 };
        let limit: i64 = 0x4000_0000_0000_0000;
        if self.nearest {
            let ix: i64 = self.left.add(at.0).floor(limit);
            let iy: i64 = self.top.add(at.1).floor(limit);
            self.sample(input, ix, iy, background)
        } else {
            let fx: Real32 = self.left.add(at.0).sub(middle);
            let fy: Real32 = self.top.add(at.1).sub(middle);
            let ix: i64 = fx.floor(limit);
            let iy: i64 = fy.floor(limit);
            let dx: Real32 = fx.sub(Real32::from_signed(ix));
            let dy: Real32 = fy.sub(Real32::from_signed(iy));
            let a: [Real32; 3] = self.sample(input, ix, iy, background);
            let b: [Real32; 3] = self.sample(input, ix + 1, iy, background);
            let c: [Real32; 3] = self.sample(input, ix, iy + 1, background);
            let d: [Real32; 3] = self.sample(input, ix + 1, iy + 1, background);
            let ux: Real32 = unit.sub(dx);
            let uy: Real32 = unit.sub(dy);
            [
                a[0].mul(ux).add(b[0].mul(dx)).mul(uy).add(c[0].mul(ux).add(d[0].mul(dx)).mul(dy)),
                a[1].mul(ux).add(b[1].mul(dx)).mul(uy).add(c[1].mul(ux).add(d[1].mul(dx)).mul(dy)),
                a[2].mul(ux).add(b[2].mul(dx)).mul(uy).add(c[2].mul(ux).add(d[2].mul(dx)).mul(dy)),
            ]
        }
    }
}

impl SourceEdit {
    /// The source resampled onto a canvas through this edit, opaque. `turn` is the sine and the
    /// cosine of the rotation.
    pub fn prepare(
        &self,
        input: &Picture,
        canvas: (u32, u32),
        nearest: bool,
        turn: (Real32, Real32),
    ) -> (r: Picture)
        requires
            input.wf(),
            canvas.0 * canvas.1 <= 0x3fff_ffff,
            canvas.0 > 0,
        ensures
            r.wf(),
            (r.width, r.height) == canvas,
            ({
                let framing = self.framing((input.width, input.height), canvas, nearest, turn);
                forall|x: int, y: int, c: int|
                    0 <= x < canvas.0 && 0 <= y < canvas.1 && 0 <= c < 4 ==> #[trigger] r.channel(
                        x,
                        y,
                        c,
                    ) == framing.painted(*input, x, y, c)
            }),
    {
        let size: (u32, u32) = input.dimensions();
        let kept: (u32, u32) = self.size(size);
        let framing: Framing = Framing {
            edit: *self,
            left: Real32::from_integer(size.0 as u64).mul(self.crop[0]),
            top: Real32::from_integer(size.1 as u64).mul(self.crop[1]),
            width: kept.0,
            height: kept.1,
            canvas,
            sine: turn.0,
            cosine: turn.1,
            nearest,
        };
        assert(framing == self.framing(size, canvas, nearest, turn));
        let mut pixels: Vec<u8> = Vec::new();
        let total: u32 = canvas.0 * canvas.1;
        let mut k: u32 = 0;
        while k < total
            invariant
                input.wf(),
                canvas.0 > 0,
                k <= total == canvas.0 * canvas.1,
                total <= 0x3fff_ffff,
                pixels@.len() == 4 * k,
                forall|j: int|
                    0 <= j < 4 * k ==> #[trigger] pixels@[j] == framing.painted(
                        *input,
                        (j / 4) % (canvas.0 as int),
                        (j / 4) / (canvas.0 as int),
                        j % 4,
                    ),
            decreases total - k,
        {
            let color: [Real32; 3] = framing.shades(input, k % canvas.0, k / canvas.0);
            let red: u32 = color[0].round(255);
            let green: u32 = color[1].round(255);
            let blue: u32 = color[2].round(255);
            pixels.push(red as u8);
            pixels.push(green as u8);
            pixels.push(blue as u8);
            pixels.push(255);
            k = k + 1;
        }
        let r: Picture = Picture { width: canvas.0, height: canvas.1, pixels };
        proof {
            assert forall|x: int, y: int, c: int|
                0 <= x < canvas.0 && 0 <= y < canvas.1 && 0 <= c < 4 implies #[trigger] r.channel(
                x,
                y,
                c,
            ) == framing.painted(*input, x, y, c) by {
                crate::crt::picture::lemma_pixel_index(canvas.0 as int, canvas.1 as int, x, y);
                let j = 4 * (y * canvas.0 + x) + c;
                assert(j / 4 == y * canvas.0 + x);
                assert(j % 4 == c);
                assert(0 <= j < 4 * total);
            }
        }
        r
    }
}


/// A crop keeps no more pixels of a side than it has, and at least one.
pub proof fn a_crop_keeps_no_more(length: u32, a: Real32, b: Real32)
    requires
        0 < length <= 0xff_ffff,
        crop_ok(a),
        crop_ok(b),
    ensures
        0 < SourceEdit::kept(length, a, b) <= length,
{
    reveal(Real32::finite);
    reveal(Real32::below);
    reveal(Real32::up_to);
    reveal(Real32::of);
    reveal(Real32::minus);
    reveal(Real32::times);
    reveal(Real32::rounded);
    let f = crate::float::Format::Single;
    crate::float::one_is_exact(f);
    let unit = f.of(1);
    crate::float::small_integers_are_exact(f, 1);
    crate::float::small_integers_are_exact(f, length as nat);
    crate::float::difference_is_no_more(f, unit, a.at());
    crate::float::order_follows_value(f, a.at(), unit);
    let once = f.difference(unit, a.at());
    let whole = f.of(length as nat);
    let part = f.difference(once, b.at());
    crate::float::difference_is_no_more(f, once, b.at());
    crate::float::product_is_no_more(f, whole, part, unit);
    let n = f.product(whole, part);
    if !f.negative(part) {
        crate::float::integers_keep_order(f, n, whole, u32::MAX as nat);
        crate::float::integers_round_to_themselves(f, length as nat, u32::MAX as nat);
    }
}

// -------------------------------------------------------------------------------------------
// Where an edit puts its source
// -------------------------------------------------------------------------------------------

/// What the numbers that framing uses are worth.
pub proof fn lemma_halves()
    ensures
        half().finite(),
        one().finite(),
        zero().finite(),
        2 * crate::margin::worth(half()) == crate::margin::unit(),
        crate::margin::worth(one()) == crate::margin::unit(),
        crate::margin::worth(zero()) == 0,
        crate::margin::unit() == 2 * crate::float::unit_pow(-1),
        !crate::float::Format::Single.negative(half().at()),
{
    reveal(Real32::finite);
    reveal(Real32::of);
    vstd::arithmetic::power2::lemma2_to64();
    crate::margin::lemma_literal(0x3f00_0000, 0x80_0000, 24, 0x100_0000);
    let f = crate::float::Format::Single;
    crate::float::one_is_exact(f);
    crate::float::small_integers_are_exact(f, 1);
    crate::margin::lemma_zero(f);
    crate::float::lemma_unit_pow_adds(-1, 1);
}

/// A small whole number is worth itself.
proof fn lemma_whole(n: nat)
    requires
        n < 0x100_0000,
    ensures
        Real32::of(n).finite(),
        !crate::float::Format::Single.negative(Real32::of(n).at()),
        crate::margin::worth(Real32::of(n)) == n * crate::margin::unit(),
{
    reveal(Real32::finite);
    reveal(Real32::of);
    crate::float::small_integers_are_exact(crate::float::Format::Single, n);
}

/// The middle of a pixel is held exactly.
pub proof fn lemma_middle(at: nat)
    requires
        at < 0x40_0000,
    ensures
        Real32::of(at).plus(half()).finite(),
        !crate::float::Format::Single.negative(Real32::of(at).plus(half()).at()),
        2 * crate::margin::worth(Real32::of(at).plus(half())) == (2 * at + 1)
            * crate::margin::unit(),
{
    lemma_halves();
    lemma_whole(at);
    crate::margin::lemma_units();
    reveal(Real32::finite);
    reveal(Real32::plus);
    let f = crate::float::Format::Single;
    let n = 2 * at + 1;
    crate::float::dyadics_are_exact(f, n, -1);
    let h = crate::float::unit_pow(-1) as int;
    let u = crate::margin::unit();
    assert(at * u + h == n * h && 2 * (n * h) == n * u) by (nonlinear_arith)
        requires
            u == 2 * h,
            n == 2 * at + 1,
    ;
}

/// A canvas pixel comes from as far off the middle of what is kept as its own middle lies off the
/// middle of the canvas, less the translation in canvas sides, times what is kept, over the zoom:
/// within an eighth of a pixel and a thirty-second of one over the zoom.
#[verifier::rlimit(60)]
pub proof fn pixels_come_from_their_place(
    framing: Framing,
    at: nat,
    canvas: u32,
    position: Real32,
    kept: u32,
)
    requires
        at < canvas <= 16384,
        0 < kept <= 16384,
        framing.edit.fault() is None,
        position_ok(position),
    ensures
        framing.offset(at as int, canvas, position, kept).finite(),
        ({
            let u = crate::margin::unit();
            let z = crate::margin::worth(framing.edit.zoom);
            let p = crate::margin::worth(position);
            let from = crate::margin::worth(
                framing.offset(at as int, canvas, position, kept),
            );
            let exact = ((2 * at + 1 - canvas) * u - 2 * (canvas * p)) * kept;
            crate::margin::within(
                32 * ((2 * canvas) * (from * z)),
                32 * (exact * u),
                (2 * canvas) * ((4 * z + u) * u),
            )
        }),
{
    lemma_middle(at);
    lemma_halves();
    lemma_whole(canvas as nat);
    lemma_whole(kept as nat);
    lemma_zoom(framing.edit);
    lemma_position(position);
    crate::margin::lemma_units();
    reveal(Real32::finite);
    reveal(Real32::minus);
    reveal(Real32::over);
    reveal(Real32::times);
    vstd::arithmetic::power2::lemma2_to64();
    crate::float::lemma_unit_pow_adds(-22, 14);
    crate::float::lemma_unit_pow_adds(-22, 19);
    crate::float::lemma_unit_pow_adds(0, 17);
    crate::float::lemma_unit_pow_adds(0, 22);
    let f = crate::float::Format::Single;
    let (u, e) = (crate::margin::unit(), crate::margin::slack());
    let (cw, k, n) = (canvas as int, kept as int, 2 * at as int + 1);
    let (e8, e3) = (
        crate::float::unit_pow(-8) as int,
        crate::float::unit_pow(-3) as int,
    );
    let (u17, u22) = (
        crate::float::unit_pow(17) as int,
        crate::float::unit_pow(22) as int,
    );
    assert(e * 0x4000 == 0x4000 * e && e * 0x8_0000 == 0x8_0000 * e && u * 0x2_0000 == 0x2_0000 * u
        && u * 0x40_0000 == 0x40_0000 * u) by (nonlinear_arith);
    let middle = Real32::of(at).plus(half());
    let side = Real32::of(canvas as nat);
    let (m, c) = (crate::margin::worth(middle), cw * u);
    let big = crate::float::unit_pow(3) as int;
    assert(0 < c && 0 < m && m < c && m * u < c * big) by (nonlinear_arith)
        requires
            2 * m == n * u,
            c == cw * u,
            0 < n < 2 * cw,
            big == 8 * u,
            u > 0,
    ;
    crate::margin::quotients_are_close(f, middle.at(), side.at(), 3);
    crate::float::shares_are_at_most_one(f, middle.at(), side.at());
    crate::float::one_is_exact(f);
    let share = middle.over(side);
    crate::float::worth_follows_magnitude(f, share.at(), one().at());
    let b = crate::margin::worth(share);
    assert(0 <= b <= u);
    // b * cw is near m.
    assert(crate::margin::within(2 * (b * cw), n * u, 2 * (cw * e))) by (nonlinear_arith)
        requires
            b * c <= m * u + c * e,
            m * u <= b * c + c * e,
            c == cw * u,
            2 * m == n * u,
            u > 0,
    ;
    crate::margin::near_difference(share, half());
    let off = share.minus(half());
    crate::margin::near_difference(off, position);
    let moved = off.minus(position);
    let p = crate::margin::worth(position);
    let d = crate::margin::worth(moved);
    let h = crate::margin::worth(half());
    assert(crate::margin::within(d, b - h - p, 2 * e));
    let x = (n - cw) * u - 2 * (cw * p);
    assert(crate::margin::within(2 * (cw * d), x, 6 * (cw * e))) by (nonlinear_arith)
        requires
            crate::margin::within(d, b - h - p, 2 * e),
            crate::margin::within(2 * (b * cw), n * u, 2 * (cw * e)),
            2 * h == u,
            x == (n - cw) * u - 2 * (cw * p),
            cw > 0,
    ;
    // Times what is kept.
    let whole = Real32::of(kept as nat);
    let dk = d * k;
    assert(d * (k * u) == dk * u) by (nonlinear_arith)
        requires
            dk == d * k,
    ;
    assert(-(5 * 0x4000) * u <= dk <= (5 * 0x4000) * u && -u17 < dk < u17) by (nonlinear_arith)
        requires
            dk == d * k,
            -5 * u <= d <= 5 * u,
            0 < k <= 0x4000,
            u17 == 0x2_0000 * u,
            u > 0,
    ;
    assert(-(u17 * u) < dk * u < u17 * u) by (nonlinear_arith)
        requires
            -u17 < dk < u17,
            u > 0,
    ;
    crate::margin::products_are_close(f, moved.at(), whole.at(), 17);
    let scaled = moved.times(whole);
    let s = crate::margin::worth(scaled);
    assert(crate::margin::within(s, dk, e8)) by (nonlinear_arith)
        requires
            s * u - dk * u <= e8 * u,
            dk * u - s * u <= e8 * u,
            u > 0,
    ;
    // Over the zoom.
    let zoom = framing.edit.zoom;
    let z = crate::margin::worth(zoom);
    assert(-(z * u22) < s * u < z * u22) by (nonlinear_arith)
        requires
            crate::margin::within(s, dk, e8),
            -(5 * 0x4000) * u <= dk <= (5 * 0x4000) * u,
            e8 == 0x4000 * e,
            u == 0x40_0000 * e,
            u <= 25 * z,
            u22 == 0x40_0000 * u,
            e > 0,
    ;
    crate::margin::signed_quotients_are_close(f, scaled.at(), zoom.at(), 22);
    let from = crate::margin::worth(scaled.over(zoom));
    let fz = from * z;
    assert(crate::margin::within(fz, s * u, z * e3));
    lemma_offset_adds_up(cw, k, d, x, s, fz, z, u, e);
}

/// The last step of the sum above.
proof fn lemma_offset_adds_up(
    cw: int,
    k: int,
    d: int,
    x: int,
    s: int,
    fz: int,
    z: int,
    u: int,
    e: int,
)
    requires
        0 < cw <= 16384,
        0 < k <= 16384,
        e > 0,
        u == 0x40_0000 * e,
        z > 0,
        crate::margin::within(2 * (cw * d), x, 6 * (cw * e)),
        crate::margin::within(s, d * k, 0x4000 * e),
        crate::margin::within(fz, s * u, z * (0x8_0000 * e)),
    ensures
        crate::margin::within(
            32 * ((2 * cw) * fz),
            32 * ((x * k) * u),
            (2 * cw) * ((4 * z + u) * u),
        ),
{
    let dk = d * k;
    let t = 2 * cw;
    let (td, tdk, ts, tf) = (t * d, t * dk, t * s, t * fz);
    let te = t * e;
    assert(td == 2 * (cw * d) && te == 2 * (cw * e)) by (nonlinear_arith)
        requires
            t == 2 * cw,
            td == t * d,
            te == t * e,
    ;
    let xk = x * k;
    assert(te > 0) by (nonlinear_arith)
        requires
            te == t * e,
            t > 0,
            e > 0,
    ;
    assert(crate::margin::within(tdk, xk, 3 * (0x4000 * te))) by (nonlinear_arith)
        requires
            crate::margin::within(td, x, 3 * te),
            td == t * d,
            tdk == t * dk,
            dk == d * k,
            xk == x * k,
            0 < k <= 0x4000,
            te > 0,
    ;
    assert(crate::margin::within(ts, tdk, 0x4000 * te)) by (nonlinear_arith)
        requires
            crate::margin::within(s, dk, 0x4000 * e),
            ts == t * s,
            tdk == t * dk,
            te == t * e,
            t > 0,
    ;
    let tu = t * u;
    assert(tu == 0x40_0000 * te) by (nonlinear_arith)
        requires
            tu == t * u,
            te == t * e,
            u == 0x40_0000 * e,
    ;
    assert(crate::margin::within(ts, xk, 4 * (0x4000 * te)));
    assert(crate::margin::within(64 * ts, 64 * xk, tu));
    let tz = t * z;
    assert(crate::margin::within(8 * tf, 8 * (ts * u), tz * u)) by (nonlinear_arith)
        requires
            crate::margin::within(fz, s * u, z * (0x8_0000 * e)),
            tf == t * fz,
            ts == t * s,
            tz == t * z,
            u == 0x40_0000 * e,
            t > 0,
    ;
    assert(crate::margin::within(64 * (ts * u), 64 * (xk * u), tu * u)) by (nonlinear_arith)
        requires
            crate::margin::within(64 * ts, 64 * xk, tu),
            u > 0,
    ;
    let (tuu, tzu) = (tu * u, tz * u);
    assert(t * ((4 * z + u) * u) == 4 * tzu + tuu) by (nonlinear_arith)
        requires
            tuu == tu * u,
            tzu == tz * u,
            tu == t * u,
            tz == t * z,
    ;
    assert(tuu >= 0) by (nonlinear_arith)
        requires
            tuu == tu * u,
            tu == t * u,
            t > 0,
    ;
}

proof fn lemma_zoom(edit: SourceEdit)
    requires
        edit.fault() is None,
    ensures
        edit.zoom.finite(),
        !crate::float::Format::Single.negative(edit.zoom.at()),
        crate::margin::unit() <= 25 * crate::margin::worth(edit.zoom),
        crate::margin::worth(edit.zoom) <= 20 * crate::margin::unit(),
        crate::margin::worth(edit.zoom) > 0,
{
    reveal(Real32::finite);
    reveal(Real32::up_to);
    vstd::arithmetic::power2::lemma2_to64();
    let f = crate::float::Format::Single;
    crate::margin::lemma_units();
    crate::margin::lemma_literal(0x3d4c_cccd, 0xcc_cccd, 28, 0x1000_0000);
    crate::margin::lemma_literal(0x41a0_0000, 0xa0_0000, 19, 0x8_0000);
    crate::float::order_follows_value(f, least_zoom().at(), edit.zoom.at());
    crate::float::order_follows_value(f, edit.zoom.at(), (Real32 { bits: 0x41a0_0000 }).at());
}

proof fn lemma_position(v: Real32)
    requires
        position_ok(v),
    ensures
        v.finite(),
        -4 * crate::margin::unit() <= crate::margin::worth(v) <= 4 * crate::margin::unit(),
{
    reveal(Real32::finite);
    reveal(Real32::up_to);
    reveal(Real32::absolute);
    vstd::arithmetic::power2::lemma2_to64();
    let f = crate::float::Format::Single;
    crate::margin::lemma_literal(0x4080_0000, 0x80_0000, 21, 0x20_0000);
    crate::margin::lemma_magnitude(f, v.at());
    crate::float::order_follows_value(
        f,
        f.magnitude(v.at()),
        (Real32 { bits: 0x4080_0000 }).at(),
    );
}

/// A side's half added to an offset, with nothing added from the other axis.
proof fn lemma_centered(p: Real32, q: Real32, side: u32, c: int)
    requires
        p.finite(),
        q.finite(),
        crate::margin::worth(q) == 0,
        side <= 16384,
        15 <= c <= 24,
        crate::margin::within(crate::margin::worth(p), 0, crate::float::unit_pow(c - 1) as int),
    ensures
        ({
            let r = p.plus(q).plus(Real32::of(side as nat).times(half()));
            let s = q.plus(p).plus(Real32::of(side as nat).times(half()));
            let off = 2 * crate::float::unit_pow(c - 25) + 2 * crate::float::unit_pow(-10);
            &&& r.finite()
            &&& s.finite()
            &&& crate::margin::within(
                2 * crate::margin::worth(r),
                2 * crate::margin::worth(p) + side * crate::margin::unit(),
                off as int,
            )
            &&& crate::margin::within(
                2 * crate::margin::worth(s),
                2 * crate::margin::worth(p) + side * crate::margin::unit(),
                off as int,
            )
        }),
{
    lemma_halves();
    lemma_whole(side as nat);
    crate::margin::lemma_units();
    crate::margin::nothing_adds_nothing(p, q);
    reveal(Real32::finite);
    reveal(Real32::plus);
    reveal(Real32::times);
    let f = crate::float::Format::Single;
    vstd::arithmetic::power2::lemma2_to64();
    crate::float::lemma_unit_pow_adds(0, 15);
    crate::float::lemma_unit_pow_adds(0, 14);
    crate::float::lemma_unit_pow_adds(-10, 10);
    crate::float::lemma_unit_pow_grows(14, c - 1);
    crate::float::lemma_unit_pow_adds(c - 1, 1);
    let (u, h) = (crate::margin::unit(), crate::margin::worth(half()));
    let whole = Real32::of(side as nat);
    let (n, big) = (side as int, crate::float::unit_pow(15) as int);
    let nh = n * h;
    assert((n * u) * h == nh * u && 0 <= nh <= 0x2000 * u && 2 * nh == n * u) by (nonlinear_arith)
        requires
            nh == n * h,
            2 * h == u,
            0 <= n <= 0x4000,
            u > 0,
    ;
    assert(u * 0x8000 == 0x8000 * u && u * 0x4000 == 0x4000 * u && crate::float::unit_pow(-10)
        * 0x400 == 0x400 * crate::float::unit_pow(-10)) by (nonlinear_arith);
    assert(-(big * u) < nh * u < big * u) by (nonlinear_arith)
        requires
            0 <= nh <= 0x2000 * u,
            big == 0x8000 * u,
            u > 0,
    ;
    crate::margin::products_are_close(f, whole.at(), half().at(), 15);
    let middle = whole.times(half());
    let m = crate::margin::worth(middle);
    let e = crate::float::unit_pow(-10) as int;
    assert(crate::margin::within(m, nh, e)) by (nonlinear_arith)
        requires
            m * u - nh * u <= e * u,
            nh * u - m * u <= e * u,
            u > 0,
    ;
    crate::margin::sums_are_close(f, p.plus(q).at(), middle.at(), c);
    crate::margin::sums_are_close(f, q.plus(p).at(), middle.at(), c);
}

proof fn lemma_offset_is_small(framing: Framing, at: nat, canvas: u32, position: Real32, kept: u32)
    requires
        at < canvas <= 16384,
        0 < kept <= 16384,
        framing.edit.fault() is None,
        position_ok(position),
    ensures
        framing.offset(at as int, canvas, position, kept).finite(),
        crate::margin::within(
            crate::margin::worth(framing.offset(at as int, canvas, position, kept)),
            0,
            crate::float::unit_pow(22) as int,
        ),
{
    pixels_come_from_their_place(framing, at, canvas, position, kept);
    lemma_zoom(framing.edit);
    lemma_position(position);
    crate::margin::lemma_units();
    vstd::arithmetic::power2::lemma2_to64();
    crate::float::lemma_unit_pow_adds(0, 22);
    let u = crate::margin::unit();
    assert(u * 0x40_0000 == 0x40_0000 * u) by (nonlinear_arith);
    let z = crate::margin::worth(framing.edit.zoom);
    let p = crate::margin::worth(position);
    let from = crate::margin::worth(framing.offset(at as int, canvas, position, kept));
    let (cw, k, n) = (canvas as int, kept as int, 2 * at as int + 1 - canvas);
    let cp = cw * p;
    let x = n * u - 2 * cp;
    let (t, tu) = (2 * cw, (2 * cw) * u);
    assert(crate::margin::within(x, 0, 5 * tu)) by (nonlinear_arith)
        requires
            x == n * u - 2 * cp,
            cp == cw * p,
            tu == (2 * cw) * u,
            -4 * u <= p <= 4 * u,
            -cw <= n <= cw,
            cw > 0,
            u > 0,
    ;
    let xk = x * k;
    assert(crate::margin::within(xk, 0, 0x1_4000 * tu)) by (nonlinear_arith)
        requires
            crate::margin::within(x, 0, 5 * tu),
            xk == x * k,
            0 < k <= 0x4000,
            tu >= 0,
    ;
    let fz = from * z;
    assert(crate::margin::within(32 * fz, 0, 32 * ((0x1_4000 * u) * u) + (4 * z + u) * u)) by (nonlinear_arith)
        requires
            crate::margin::within(32 * (t * fz), 32 * (xk * u), t * ((4 * z + u) * u)),
            crate::margin::within(xk, 0, 0x1_4000 * tu),
            tu == t * u,
            t > 0,
            u > 0,
    ;
    assert(crate::margin::within(from, 0, 0x40_0000 * u)) by (nonlinear_arith)
        requires
            crate::margin::within(32 * fz, 0, 32 * ((0x1_4000 * u) * u) + (4 * z + u) * u),
            fz == from * z,
            u <= 25 * z,
            z <= 20 * u,
            z > 0,
            u > 0,
    ;
}

/// Unturned, a canvas pixel comes from beside the middle as far as its offset says. A quarter turn,
/// of which the sine is one, is clockwise: what shows to the right of the middle is what the source
/// has above it, and what shows below is what the source has to the right. All within half a pixel.
pub proof fn quarter_turns_are_clockwise(framing: Framing, x: nat, y: nat)
    requires
        framing.edit.fault() is None,
        x < framing.canvas.0 <= 16384,
        y < framing.canvas.1 <= 16384,
        0 < framing.width <= 16384,
        0 < framing.height <= 16384,
        framing.sine.finite(),
        framing.cosine.finite(),
    ensures
        ({
            let u = crate::margin::unit();
            let (s, k) = (
                crate::margin::worth(framing.sine),
                crate::margin::worth(framing.cosine),
            );
            let px = crate::margin::worth(
                framing.offset(
                    x as int,
                    framing.canvas.0,
                    framing.edit.position@[0],
                    framing.width,
                ),
            );
            let py = crate::margin::worth(
                framing.offset(
                    y as int,
                    framing.canvas.1,
                    framing.edit.position@[1],
                    framing.height,
                ),
            );
            let at = framing.origin(x as int, y as int);
            let (ax, ay) = (crate::margin::worth(at.0), crate::margin::worth(at.1));
            let (w, h) = (framing.width * u, framing.height * u);
            &&& s == 0 && k == u ==> crate::margin::within(2 * ax, 2 * px + w, u)
                && crate::margin::within(2 * ay, 2 * py + h, u)
            &&& s == u && k == 0 ==> crate::margin::within(2 * ax, 2 * py + w, u)
                && crate::margin::within(2 * ay, h - 2 * px, u)
            &&& s == 0 && k == -u ==> crate::margin::within(2 * ax, w - 2 * px, u)
                && crate::margin::within(2 * ay, h - 2 * py, u)
            &&& s == -u && k == 0 ==> crate::margin::within(2 * ax, w - 2 * py, u)
                && crate::margin::within(2 * ay, 2 * px + h, u)
        }),
{
    let u = crate::margin::unit();
    let (s, k) = (crate::margin::worth(framing.sine), crate::margin::worth(framing.cosine));
    let px = framing.offset(
        x as int,
        framing.canvas.0,
        framing.edit.position@[0],
        framing.width,
    );
    let py = framing.offset(
        y as int,
        framing.canvas.1,
        framing.edit.position@[1],
        framing.height,
    );
    lemma_offset_is_small(
        framing,
        x,
        framing.canvas.0,
        framing.edit.position@[0],
        framing.width,
    );
    lemma_offset_is_small(
        framing,
        y,
        framing.canvas.1,
        framing.edit.position@[1],
        framing.height,
    );
    crate::margin::lemma_units();
    vstd::arithmetic::power2::lemma2_to64();
    crate::float::lemma_unit_pow_adds(-10, 10);
    let e = crate::float::unit_pow(-10) as int;
    assert(e * 0x400 == 0x400 * e) by (nonlinear_arith);
    let back = framing.sine.negated();
    assert(back.finite() && crate::margin::worth(back) == -s) by {
        reveal(Real32::finite);
        reveal(Real32::negated);
        crate::margin::lemma_negated(crate::float::Format::Single, framing.sine.at());
    }
    let quarter = (s == 0 && (k == u || k == -u)) || (k == 0 && (s == u || s == -u));
    if quarter {
        crate::margin::one_and_zero_multiply(px, framing.cosine);
        crate::margin::one_and_zero_multiply(py, framing.cosine);
        crate::margin::one_and_zero_multiply(py, framing.sine);
        crate::margin::one_and_zero_multiply(px, back);
        let (kx, sy) = (framing.cosine.times(px), framing.sine.times(py));
        let (sx, ky) = (back.times(px), framing.cosine.times(py));
        crate::float::lemma_unit_pow_adds(-2, 2);
        if s == 0 {
            lemma_centered(kx, sy, framing.width, 23);
            lemma_centered(ky, sx, framing.height, 23);
        } else {
            lemma_centered(sy, kx, framing.width, 23);
            lemma_centered(sx, ky, framing.height, 23);
        }
    }
}

/// A source pixel that is opaque counts as it is; one that is transparent, or not kept, counts as
/// the background.
proof fn lemma_sampled(framing: Framing, input: Picture, ix: int, iy: int, background: u8, c: int)
    requires
        0 <= c < 3,
    ensures
        ({
            let r = framing.sampled(input, ix, iy, background, c);
            let u = crate::margin::unit();
            &&& !framing.keeps(input, ix, iy) || input.channel(ix, iy, 3) == 0 ==> r.finite()
                && crate::margin::worth(r) == background * u
            &&& framing.keeps(input, ix, iy) && input.channel(ix, iy, 3) == 255 ==> r.finite()
                && crate::margin::worth(r) == input.channel(ix, iy, c) * u
        }),
{
    lemma_halves();
    crate::margin::lemma_units();
    lemma_whole(background as nat);
    let alpha = input.channel(ix, iy, 3);
    let value = input.channel(ix, iy, c);
    lemma_whole(value as nat);
    lemma_whole(alpha as nat);
    lemma_whole(255);
    let a = Real32::of(alpha as nat).over(Real32::of(255));
    let own = Real32::of(value as nat);
    let other = Real32::of(background as nat);
    crate::margin::near_share(alpha);
    assert(a == crate::crt::lut::share(alpha));
    let u = crate::margin::unit();
    let rest = one().minus(a);
    if alpha == 0 || alpha == 255 {
        lemma_extreme_share(alpha);
        crate::margin::one_and_zero_multiply(own, a);
        if alpha == 0 {
            crate::margin::nothing_adds_nothing(one(), a);
        } else {
            assert(crate::margin::worth(rest) == 0 && rest.finite()) by {
                reveal(Real32::finite);
                reveal(Real32::minus);
                crate::margin::near_difference(one(), a);
                crate::margin::differences_keep_sides(
                    crate::float::Format::Single,
                    one().at(),
                    a.at(),
                );
            }
        }
        crate::margin::one_and_zero_multiply(other, rest);
        if alpha == 0 {
            crate::margin::nothing_adds_nothing(other.times(rest), own.times(a));
        } else {
            crate::margin::nothing_adds_nothing(own.times(a), other.times(rest));
        }
    }
}

proof fn lemma_extreme_share(alpha: u8)
    requires
        alpha == 0 || alpha == 255,
    ensures
        crate::margin::worth(crate::crt::lut::share(alpha)) == (if alpha == 0 {
            0
        } else {
            crate::margin::unit()
        }),
{
    crate::margin::near_share(alpha);
    crate::margin::lemma_units();
    reveal(Real32::of);
    reveal(Real32::over);
    let f = crate::float::Format::Single;
    let u = crate::margin::unit();
    crate::float::small_integers_are_exact(f, 0);
    crate::float::small_integers_are_exact(f, 1);
    crate::float::small_integers_are_exact(f, 255);
    crate::float::one_is_exact(f);
    if alpha == 0 {
        let q = f.quotient(f.of(0), f.of(255));
        crate::float::shares_are_no_more(f, f.of(0), f.of(255));
        crate::margin::lemma_zero(f);
        assert(f.of(0) == 0) by {
            assert(crate::float::scaled(0, 0) == 0);
        }
    } else {
        let q = f.quotient(f.of(255), f.of(255));
        crate::margin::shares_are_at_least_one(f, f.of(255), f.of(255));
        crate::float::shares_are_at_most_one(f, f.of(255), f.of(255));
        assert(q == f.of(1));
    }
}

/// Sampled at the nearest pixel, an opaque source pixel shows as it is, and the background shows
/// where the source is transparent, cut off or not there; the canvas is opaque.
pub proof fn sources_show_over_the_background(
    framing: Framing,
    input: Picture,
    x: int,
    y: int,
    c: int,
)
    requires
        framing.nearest,
        0 <= c < 3,
    ensures
        framing.painted(input, x, y, 3) == 255,
        ({
            let at = framing.origin(x, y);
            let ix = framing.left.plus(at.0).floored(far_out());
            let iy = framing.top.plus(at.1).floored(far_out());
            &&& framing.keeps(input, ix, iy) && input.channel(ix, iy, 3) == 255
                ==> framing.painted(input, x, y, c) == input.channel(ix, iy, c)
            &&& !framing.keeps(input, ix, iy) || input.channel(ix, iy, 3) == 0
                ==> framing.painted(input, x, y, c) == framing.edit.background_of(x, y, c)
        }),
{
    reveal(Framing::shade);
    let at = framing.origin(x, y);
    let ix = framing.left.plus(at.0).floored(far_out());
    let iy = framing.top.plus(at.1).floored(far_out());
    let background = framing.edit.background_of(x, y, c);
    lemma_sampled(framing, input, ix, iy, background, c);
    let r = framing.sampled(input, ix, iy, background, c);
    if framing.keeps(input, ix, iy) && input.channel(ix, iy, 3) == 255 {
        lemma_byte(r, input.channel(ix, iy, c));
    }
    if !framing.keeps(input, ix, iy) || input.channel(ix, iy, 3) == 0 {
        lemma_byte(r, background);
    }
}

/// What is worth a byte rounds to it.
proof fn lemma_byte(r: Real32, byte: u8)
    requires
        r.finite(),
        crate::margin::worth(r) == byte * crate::margin::unit(),
    ensures
        r.rounded(255) == byte,
{
    reveal(Real32::finite);
    reveal(Real32::rounded);
    crate::margin::lemma_units();
    let u = crate::margin::unit();
    let b = byte as int;
    assert((2 * (b * u) + u) / (2 * u) == b) by (nonlinear_arith)
        requires
            u > 0,
    ;
    if crate::float::Format::Single.negative(r.at()) {
        assert(b == 0) by (nonlinear_arith)
            requires
                b * u <= 0,
                b >= 0,
                u > 0,
        ;
    }
}

/// Unturned, unmoved, unzoomed and on a canvas of the size that it keeps, an edit that starts at
/// whole pixels copies what its crop keeps of an opaque source, pixel for pixel.
#[verifier::rlimit(60)]
pub proof fn plain_crops_copy(
    framing: Framing,
    input: Picture,
    x: nat,
    y: nat,
    c: int,
    left: nat,
    top: nat,
)
    requires
        framing.nearest,
        framing.edit.fault() is None,
        framing.canvas == (framing.width, framing.height),
        x < framing.width <= 16384,
        y < framing.height <= 16384,
        left + framing.width <= input.width <= 16384,
        top + framing.height <= input.height <= 16384,
        framing.left.finite(),
        framing.top.finite(),
        crate::margin::worth(framing.left) == left * crate::margin::unit(),
        crate::margin::worth(framing.top) == top * crate::margin::unit(),
        framing.sine.finite(),
        framing.cosine.finite(),
        crate::margin::worth(framing.sine) == 0,
        crate::margin::worth(framing.cosine) == crate::margin::unit(),
        crate::margin::worth(framing.edit.zoom) == crate::margin::unit(),
        crate::margin::worth(framing.edit.position@[0]) == 0,
        crate::margin::worth(framing.edit.position@[1]) == 0,
        input.channel((x + left) as int, (y + top) as int, 3) == 255,
        0 <= c < 3,
    ensures
        framing.painted(input, x as int, y as int, c) == input.channel(
            (x + left) as int,
            (y + top) as int,
            c,
        ),
{
    let px = framing.offset(
        x as int,
        framing.canvas.0,
        framing.edit.position@[0],
        framing.width,
    );
    let py = framing.offset(
        y as int,
        framing.canvas.1,
        framing.edit.position@[1],
        framing.height,
    );
    lemma_plain_offset(framing, x, framing.width, framing.edit.position@[0]);
    lemma_plain_offset(framing, y, framing.height, framing.edit.position@[1]);
    let back = framing.sine.negated();
    assert(back.finite() && crate::margin::worth(back) == 0) by {
        reveal(Real32::finite);
        reveal(Real32::negated);
        crate::margin::lemma_negated(crate::float::Format::Single, framing.sine.at());
    }
    crate::margin::one_and_zero_multiply(px, framing.cosine);
    crate::margin::one_and_zero_multiply(py, framing.cosine);
    crate::margin::one_and_zero_multiply(py, framing.sine);
    crate::margin::one_and_zero_multiply(px, back);
    lemma_plain_place(
        framing.cosine.times(px),
        framing.sine.times(py),
        framing.left,
        left,
        x,
        framing.width,
    );
    lemma_plain_place(
        framing.cosine.times(py),
        back.times(px),
        framing.top,
        top,
        y,
        framing.height,
    );
    sources_show_over_the_background(framing, input, x as int, y as int, c);
}

proof fn lemma_plain_offset(framing: Framing, at: nat, side: u32, position: Real32)
    requires
        framing.edit.fault() is None,
        at < side <= 16384,
        crate::margin::worth(framing.edit.zoom) == crate::margin::unit(),
        crate::margin::worth(position) == 0,
        position_ok(position),
    ensures
        framing.offset(at as int, side, position, side).finite(),
        crate::margin::within(
            32 * crate::margin::worth(framing.offset(at as int, side, position, side)),
            16 * ((2 * at + 1 - side) * crate::margin::unit()),
            5 * crate::margin::unit(),
        ),
{
    pixels_come_from_their_place(framing, at, side, position, side);
    crate::margin::lemma_units();
    let u = crate::margin::unit();
    let from = crate::margin::worth(framing.offset(at as int, side, position, side));
    let (cw, n) = (side as int, 2 * at as int + 1 - side);
    let nu = n * u;
    assert(2 * (cw * 0) == 0) by (nonlinear_arith);
    assert(crate::margin::within(32 * from, 16 * nu, 5 * u)) by (nonlinear_arith)
        requires
            crate::margin::within(
                32 * ((2 * cw) * (from * u)),
                32 * ((nu * cw) * u),
                (2 * cw) * ((4 * u + u) * u),
            ),
            cw > 0,
            u > 0,
    ;
}

proof fn lemma_plain_place(p: Real32, q: Real32, start: Real32, left: nat, at: nat, side: u32)
    requires
        p.finite(),
        q.finite(),
        start.finite(),
        crate::margin::worth(q) == 0,
        at < side <= 16384,
        left <= 16384,
        crate::margin::worth(start) == left * crate::margin::unit(),
        crate::margin::within(
            32 * crate::margin::worth(p),
            16 * ((2 * at + 1 - side) * crate::margin::unit()),
            5 * crate::margin::unit(),
        ),
    ensures
        ({
            let a = p.plus(q).plus(Real32::of(side as nat).times(half()));
            let b = q.plus(p).plus(Real32::of(side as nat).times(half()));
            &&& start.plus(a).floored(far_out()) == at + left
            &&& start.plus(b).floored(far_out()) == at + left
        }),
        ({
            let middle = Real32::of_signed((at + left) as int).plus(half());
            &&& !middle.below(start)
            &&& !start.plus(Real32::of(side as nat)).up_to(middle)
        }),
{
    crate::margin::lemma_units();
    vstd::arithmetic::power2::lemma2_to64();
    crate::float::lemma_unit_pow_adds(-10, 10);
    crate::float::lemma_unit_pow_adds(-10, 1);
    crate::float::lemma_unit_pow_adds(0, 15);
    crate::float::lemma_unit_pow_adds(0, 16);
    let (u, e) = (crate::margin::unit(), crate::float::unit_pow(-10) as int);
    assert(e * 0x400 == 0x400 * e && e * 2 == 2 * e && u * 0x8000 == 0x8000 * u && u * 0x1_0000
        == 0x1_0000 * u) by (nonlinear_arith);
    let (n, k, w) = (at as int, left as int, side as int);
    let (nu, ku, wu) = (n * u, k * u, w * u);
    let m = (2 * n + 1 - w) * u;
    assert(m == 2 * nu + u - wu && 0 <= nu && nu + u <= wu && wu <= 0x4000 * u && 0 <= ku <= 0x4000 * u)
        by (nonlinear_arith)
        requires
            m == (2 * n + 1 - w) * u,
            nu == n * u,
            ku == k * u,
            wu == w * u,
            0 <= n < w <= 0x4000,
            0 <= k <= 0x4000,
            u > 0,
    ;
    lemma_centered(p, q, side, 16);
    reveal(Real32::finite);
    reveal(Real32::plus);
    reveal(Real32::floored);
    reveal(Real32::below);
    reveal(Real32::up_to);
    let f = crate::float::Format::Single;
    let a = p.plus(q).plus(Real32::of(side as nat).times(half()));
    let b = q.plus(p).plus(Real32::of(side as nat).times(half()));
    crate::margin::sums_are_close(f, start.at(), a.at(), 16);
    crate::margin::sums_are_close(f, start.at(), b.at(), 16);
    let (va, vb) = (
        crate::margin::worth(start.plus(a)),
        crate::margin::worth(start.plus(b)),
    );
    assert(nu + ku <= va < nu + ku + u);
    assert(nu + ku <= vb < nu + ku + u);
    let t = n + k;
    assert(va / u == t && vb / u == t) by (nonlinear_arith)
        requires
            nu + ku <= va < nu + ku + u,
            nu + ku <= vb < nu + ku + u,
            nu == n * u,
            ku == k * u,
            t == n + k,
            u > 0,
    ;
    lemma_middle((at + left) as nat);
    lemma_whole(side as nat);
    let middle = Real32::of_signed((at + left) as int).plus(half());
    crate::float::order_follows_value(f, middle.at(), start.at());
    crate::margin::sums_are_close(f, start.at(), Real32::of(side as nat).at(), 16);
    let end = start.plus(Real32::of(side as nat));
    crate::float::order_follows_value(f, end.at(), middle.at());
    let mid = crate::margin::worth(middle);
    assert(2 * mid == 2 * (nu + ku) + u) by (nonlinear_arith)
        requires
            2 * mid == (2 * t + 1) * u,
            nu == n * u,
            ku == k * u,
            t == n + k,
    ;
}

/// A crop cuts its fractions off the left, the top, the right and the bottom, in this order: what is
/// kept starts that far in, and is as long as what is left, to the nearest pixel and at least one.
pub proof fn crops_cut_their_fractions(
    edit: SourceEdit,
    size: (u32, u32),
    canvas: (u32, u32),
    nearest: bool,
    turn: (Real32, Real32),
)
    requires
        edit.fault() is None,
        0 < size.0 <= 16384,
        0 < size.1 <= 16384,
    ensures
        ({
            let r = edit.framing(size, canvas, nearest, turn);
            let u = crate::margin::unit();
            let (a, b, c, d) = (
                crate::margin::worth(edit.crop@[0]),
                crate::margin::worth(edit.crop@[1]),
                crate::margin::worth(edit.crop@[2]),
                crate::margin::worth(edit.crop@[3]),
            );
            &&& r.left.finite()
            &&& r.top.finite()
            &&& crate::margin::within(512 * crate::margin::worth(r.left), 512 * (size.0 * a), u)
            &&& crate::margin::within(512 * crate::margin::worth(r.top), 512 * (size.1 * b), u)
            &&& r.width == 1 || crate::margin::within(
                64 * (r.width * u),
                64 * (size.0 * (u - a - c)),
                34 * u,
            )
            &&& r.height == 1 || crate::margin::within(
                64 * (r.height * u),
                64 * (size.1 * (u - b - d)),
                34 * u,
            )
        }),
{
    lemma_cut(size.0, edit.crop@[0], edit.crop@[2]);
    lemma_cut(size.1, edit.crop@[1], edit.crop@[3]);
}

proof fn lemma_cut(length: u32, a: Real32, b: Real32)
    requires
        0 < length <= 16384,
        crop_ok(a),
        crop_ok(b),
        a.plus(b).below(nearly_one()),
    ensures
        ({
            let u = crate::margin::unit();
            let start = Real32::of(length as nat).times(a);
            let kept = SourceEdit::kept(length, a, b);
            let (x, y) = (crate::margin::worth(a), crate::margin::worth(b));
            &&& start.finite()
            &&& crate::margin::within(512 * crate::margin::worth(start), 512 * (length * x), u)
            &&& kept == 1 || crate::margin::within(
                64 * (kept * u),
                64 * (length * (u - x - y)),
                34 * u,
            )
        }),
{
    lemma_halves();
    lemma_whole(length as nat);
    crate::margin::lemma_units();
    reveal(Real32::finite);
    reveal(Real32::below);
    reveal(Real32::up_to);
    reveal(Real32::plus);
    reveal(Real32::times);
    reveal(Real32::rounded);
    let f = crate::float::Format::Single;
    vstd::arithmetic::power2::lemma2_to64();
    crate::float::lemma_unit_pow_adds(0, 15);
    crate::float::lemma_unit_pow_adds(-22, 12);
    crate::margin::lemma_literal(0x3f7d_70a4, 0xfd_70a4, 24, 0x100_0000);
    let (u, e, big) = (
        crate::margin::unit(),
        crate::margin::slack(),
        crate::float::unit_pow(15) as int,
    );
    let fine = crate::float::unit_pow(-10) as int;
    assert(u * 0x8000 == 0x8000 * u && e * 0x1000 == 0x1000 * e) by (nonlinear_arith);
    crate::float::order_follows_value(f, zero().at(), a.at());
    crate::float::order_follows_value(f, zero().at(), b.at());
    crate::float::order_follows_value(f, a.at(), one().at());
    crate::float::order_follows_value(f, b.at(), one().at());
    let (x, y, n) = (crate::margin::worth(a), crate::margin::worth(b), length as int);
    crate::margin::near_sum(a, b);
    crate::float::order_follows_value(f, a.plus(b).at(), nearly_one().at());
    let whole = Real32::of(length as nat);
    let nx = n * x;
    assert((n * u) * x == nx * u && -(big * u) < nx * u < big * u) by (nonlinear_arith)
        requires
            nx == n * x,
            0 <= x <= u,
            0 < n <= 0x4000,
            big == 0x8000 * u,
            u > 0,
    ;
    crate::margin::products_are_close(f, whole.at(), a.at(), 15);
    let s = crate::margin::worth(whole.times(a));
    assert(crate::margin::within(s, nx, fine)) by (nonlinear_arith)
        requires
            s * u - nx * u <= fine * u,
            nx * u - s * u <= fine * u,
            u > 0,
    ;
    crate::margin::near_difference(one(), a);
    let once = one().minus(a);
    crate::margin::near_difference(once, b);
    let part = once.minus(b);
    let p = crate::margin::worth(part);
    let np = n * p;
    assert((n * u) * p == np * u && -(big * u) < np * u < big * u && crate::margin::within(
        np,
        n * (u - x - y),
        0x8000 * e,
    )) by (nonlinear_arith)
        requires
            np == n * p,
            crate::margin::within(p, u - x - y, 2 * e),
            0 <= p <= u + 2 * e,
            0 < n <= 0x4000,
            big == 0x8000 * u,
            u == 0x40_0000 * e,
            e > 0,
    ;
    crate::margin::products_are_close(f, whole.at(), part.at(), 15);
    let v = crate::margin::worth(whole.times(part));
    assert(crate::margin::within(v, np, fine)) by (nonlinear_arith)
        requires
            v * u - np * u <= fine * u,
            np * u - v * u <= fine * u,
            u > 0,
    ;
    assert(-u < 4 * v && v < 0x1_0000 * u) by (nonlinear_arith)
        requires
            crate::margin::within(v, np, fine),
            np == n * p,
            0 <= p <= u + 2 * e,
            0 < n <= 0x4000,
            fine == 0x1000 * e,
            u == 0x40_0000 * e,
            e > 0,
    ;
    crate::margin::rounds_to_nearest(f, whole.times(part).at(), u32::MAX as nat, 0x1_0000);
}

/// A mix of two shades is near the exact one.
#[verifier::rlimit(40)]
proof fn lemma_mix(a: Real32, b: Real32, d: Real32, t: int)
    requires
        a.finite(),
        b.finite(),
        d.finite(),
        -2 * crate::margin::unit() <= crate::margin::worth(a) <= 258 * crate::margin::unit(),
        -2 * crate::margin::unit() <= crate::margin::worth(b) <= 258 * crate::margin::unit(),
        0 <= t <= crate::margin::unit(),
        crate::margin::within(crate::margin::worth(d), t, crate::margin::slack()),
    ensures
        ({
            let r = a.times(one().minus(d)).plus(b.times(d));
            let u = crate::margin::unit();
            let (x, y) = (crate::margin::worth(a), crate::margin::worth(b));
            &&& r.finite()
            &&& crate::margin::within(
                crate::margin::worth(r) * u,
                x * (u - t) + y * t,
                (1100 * crate::margin::slack()) * u,
            )
        }),
{
    lemma_halves();
    crate::margin::lemma_units();
    crate::margin::near_difference(one(), d);
    reveal(Real32::finite);
    reveal(Real32::plus);
    reveal(Real32::times);
    vstd::arithmetic::power2::lemma2_to64();
    crate::float::lemma_unit_pow_adds(0, 9);
    crate::float::lemma_unit_pow_adds(0, 10);
    crate::float::lemma_unit_pow_adds(-22, 6);
    crate::float::lemma_unit_pow_adds(-22, 7);
    let f = crate::float::Format::Single;
    let (u, e) = (crate::margin::unit(), crate::margin::slack());
    assert(u * 512 == 512 * u && u * 1024 == 1024 * u && e * 64 == 64 * e && e * 128 == 128 * e)
        by (nonlinear_arith);
    let rest = one().minus(d);
    let (x, y, w, v) = (
        crate::margin::worth(a),
        crate::margin::worth(b),
        crate::margin::worth(rest),
        crate::margin::worth(d),
    );
    let big = crate::float::unit_pow(9) as int;
    assert(-(big * u) < x * w < big * u && -(big * u) < y * v < big * u) by (nonlinear_arith)
        requires
            -2 * u <= x <= 258 * u,
            -2 * u <= y <= 258 * u,
            -2 * e <= w <= u + 2 * e,
            -e <= v <= u + e,
            u == 0x40_0000 * e,
            big == 512 * u,
            e > 0,
    ;
    crate::margin::products_are_close(f, a.at(), rest.at(), 9);
    crate::margin::products_are_close(f, b.at(), d.at(), 9);
    let (p, q) = (crate::margin::worth(a.times(rest)), crate::margin::worth(b.times(d)));
    assert(crate::margin::within(p * u, x * (u - t), (580 * e) * u)) by (nonlinear_arith)
        requires
            p * u - x * w <= (64 * e) * u,
            x * w - p * u <= (64 * e) * u,
            crate::margin::within(w, u - t, 2 * e),
            -2 * u <= x <= 258 * u,
            e > 0,
            u > 0,
    ;
    assert(crate::margin::within(q * u, y * t, (322 * e) * u)) by (nonlinear_arith)
        requires
            q * u - y * v <= (64 * e) * u,
            y * v - q * u <= (64 * e) * u,
            crate::margin::within(v, t, e),
            -2 * u <= y <= 258 * u,
            e > 0,
            u > 0,
    ;
    assert(-5 * u <= p <= 260 * u && -5 * u <= q <= 260 * u) by (nonlinear_arith)
        requires
            crate::margin::within(p * u, x * (u - t), (580 * e) * u),
            crate::margin::within(q * u, y * t, (322 * e) * u),
            -2 * u <= x <= 258 * u,
            -2 * u <= y <= 258 * u,
            0 <= t <= u,
            u == 0x40_0000 * e,
            e > 0,
    ;
    crate::margin::sums_are_close(f, a.times(rest).at(), b.times(d).at(), 10);
    let r = crate::margin::worth(a.times(rest).plus(b.times(d)));
    let (mx, my) = (x * (u - t), y * t);
    assert(crate::margin::within(r * u, mx + my, (1100 * e) * u)) by (nonlinear_arith)
        requires
            crate::margin::within(r, p + q, 128 * e),
            crate::margin::within(p * u, mx, (580 * e) * u),
            crate::margin::within(q * u, my, (322 * e) * u),
            e > 0,
            u > 0,
    ;
}

/// A source pixel over the background is a shade.
proof fn lemma_sampled_is_a_shade(
    framing: Framing,
    input: Picture,
    ix: int,
    iy: int,
    background: u8,
    c: int,
)
    ensures
        ({
            let r = framing.sampled(input, ix, iy, background, c);
            r.finite() && -crate::margin::unit() <= crate::margin::worth(r) <= 256
                * crate::margin::unit()
        }),
{
    lemma_halves();
    crate::margin::lemma_units();
    lemma_whole(background as nat);
    let alpha = input.channel(ix, iy, 3);
    let value = input.channel(ix, iy, c);
    lemma_whole(value as nat);
    crate::margin::near_share(alpha);
    let a = crate::crt::lut::share(alpha);
    let (u, e) = (crate::margin::unit(), crate::margin::slack());
    let (x, y) = (value as int, background as int);
    assert(0 <= x * u <= 255 * u && 0 <= y * u <= 255 * u) by (nonlinear_arith)
        requires
            0 <= x <= 255,
            0 <= y <= 255,
            u > 0,
    ;
    if framing.keeps(input, ix, iy) {
        crate::margin::near_difference(one(), a);
        let (own, other, rest) = (
            Real32::of(value as nat),
            Real32::of(background as nat),
            one().minus(a),
        );
        reveal(Real32::finite);
        reveal(Real32::plus);
        reveal(Real32::times);
        vstd::arithmetic::power2::lemma2_to64();
        crate::float::lemma_unit_pow_adds(0, 9);
        crate::float::lemma_unit_pow_adds(-22, 6);
        assert(u * 512 == 512 * u && e * 64 == 64 * e) by (nonlinear_arith);
        let f = crate::float::Format::Single;
        let big = crate::float::unit_pow(9) as int;
        let (w, v) = (crate::margin::worth(a), crate::margin::worth(rest));
        let (xu, yu) = (x * u, y * u);
        let (xw, yv) = (x * w, y * v);
        assert(xu * w == xw * u && yu * v == yv * u && -(big * u) < xw * u < big * u && -(big * u)
            < yv * u < big * u && -2 * (255 * e) <= yv && xw >= 0 && xw + yv <= 255 * u + 255 * e)
            by (nonlinear_arith)
            requires
                xu == x * u,
                yu == y * u,
                xw == x * w,
                yv == y * v,
                0 <= x <= 255,
                0 <= y <= 255,
                0 <= w <= u,
                crate::margin::within(v, u - w, e),
                big == 512 * u,
                u == 0x40_0000 * e,
                e > 0,
        ;
        crate::margin::products_are_close(f, own.at(), a.at(), 9);
        crate::margin::products_are_close(f, other.at(), rest.at(), 9);
        let (p, q) = (crate::margin::worth(own.times(a)), crate::margin::worth(other.times(rest)));
        assert(crate::margin::within(p, xw, 64 * e) && crate::margin::within(q, yv, 64 * e))
            by (nonlinear_arith)
            requires
                p * u - xw * u <= (64 * e) * u,
                xw * u - p * u <= (64 * e) * u,
                q * u - yv * u <= (64 * e) * u,
                yv * u - q * u <= (64 * e) * u,
                u > 0,
        ;
        crate::margin::sums_are_close(f, own.times(a).at(), other.times(rest).at(), 9);
    }
}

/// Sampled smoothly, a canvas pixel mixes the four source pixels around its place by how far it lies
/// past the upper left one, across by the column and down by the row: as near as single numbers
/// come.
#[verifier::rlimit(60)]
pub proof fn smooth_pixels_mix_their_neighbours(
    framing: Framing,
    input: Picture,
    x: int,
    y: int,
    c: int,
)
    requires
        !framing.nearest,
        0 <= c < 3,
        ({
            let at = framing.origin(x, y);
            let fx = framing.left.plus(at.0).minus(half());
            let fy = framing.top.plus(at.1).minus(half());
            let most = 0x40_0000 * crate::margin::unit();
            &&& fx.finite()
            &&& fy.finite()
            &&& crate::margin::within(crate::margin::worth(fx), 0, most)
            &&& crate::margin::within(crate::margin::worth(fy), 0, most)
        }),
    ensures
        ({
            let at = framing.origin(x, y);
            let fx = crate::margin::worth(framing.left.plus(at.0).minus(half()));
            let fy = crate::margin::worth(framing.top.plus(at.1).minus(half()));
            let u = crate::margin::unit();
            let (ix, iy) = (fx / u, fy / u);
            let (t, s) = (fx - ix * u, fy - iy * u);
            let shown = framing.edit.background_of(x, y, c);
            let a = crate::margin::worth(framing.sampled(input, ix, iy, shown, c));
            let b = crate::margin::worth(framing.sampled(input, ix + 1, iy, shown, c));
            let d = crate::margin::worth(framing.sampled(input, ix, iy + 1, shown, c));
            let e = crate::margin::worth(framing.sampled(input, ix + 1, iy + 1, shown, c));
            &&& framing.shade(input, x, y, c).finite()
            &&& crate::margin::within(
                (crate::margin::worth(framing.shade(input, x, y, c)) * u) * u,
                (a * (u - t) + b * t) * (u - s) + (d * (u - t) + e * t) * s,
                ((0x1000 * crate::margin::slack()) * u) * u,
            )
        }),
{
    reveal(Framing::shade);
    let at = framing.origin(x, y);
    let fx = framing.left.plus(at.0).minus(half());
    let fy = framing.top.plus(at.1).minus(half());
    let (u, e) = (crate::margin::unit(), crate::margin::slack());
    lemma_halves();
    crate::margin::lemma_units();
    lemma_past(fx);
    lemma_past(fy);
    let (ix, iy) = (crate::margin::worth(fx) / u, crate::margin::worth(fy) / u);
    let (t, s) = (crate::margin::worth(fx) - ix * u, crate::margin::worth(fy) - iy * u);
    let dx = fx.minus(Real32::of_signed(ix));
    let dy = fy.minus(Real32::of_signed(iy));
    let shown = framing.edit.background_of(x, y, c);
    lemma_sampled_is_a_shade(framing, input, ix, iy, shown, c);
    lemma_sampled_is_a_shade(framing, input, ix + 1, iy, shown, c);
    lemma_sampled_is_a_shade(framing, input, ix, iy + 1, shown, c);
    lemma_sampled_is_a_shade(framing, input, ix + 1, iy + 1, shown, c);
    let (ra, rb, rd, re) = (
        framing.sampled(input, ix, iy, shown, c),
        framing.sampled(input, ix + 1, iy, shown, c),
        framing.sampled(input, ix, iy + 1, shown, c),
        framing.sampled(input, ix + 1, iy + 1, shown, c),
    );
    lemma_mix(ra, rb, dx, t);
    lemma_mix(rd, re, dx, t);
    let upper = ra.times(one().minus(dx)).plus(rb.times(dx));
    let lower = rd.times(one().minus(dx)).plus(re.times(dx));
    let (p, q) = (crate::margin::worth(upper), crate::margin::worth(lower));
    let (a, b, d, g) = (
        crate::margin::worth(ra),
        crate::margin::worth(rb),
        crate::margin::worth(rd),
        crate::margin::worth(re),
    );
    let (m, n) = (a * (u - t) + b * t, d * (u - t) + g * t);
    lemma_mixes_stay(p, a, b, t, u, e);
    lemma_mixes_stay(q, d, g, t, u, e);
    lemma_mix(upper, lower, dy, s);
    let r = crate::margin::worth(framing.shade(input, x, y, c));
    let (ps, qs) = (p * (u - s), q * s);
    assert(crate::margin::within(ps * u, m * (u - s), ((1100 * e) * u) * u)) by (nonlinear_arith)
        requires
            crate::margin::within(p * u, m, (1100 * e) * u),
            ps == p * (u - s),
            0 <= s <= u,
            e > 0,
            u > 0,
    ;
    assert(crate::margin::within(qs * u, n * s, ((1100 * e) * u) * u)) by (nonlinear_arith)
        requires
            crate::margin::within(q * u, n, (1100 * e) * u),
            qs == q * s,
            0 <= s <= u,
            e > 0,
            u > 0,
    ;
    let euu = (e * u) * u;
    assert(((1100 * e) * u) * u == 1100 * euu && ((0x1000 * e) * u) * u == 0x1000 * euu && euu > 0)
        by (nonlinear_arith)
        requires
            euu == (e * u) * u,
            e > 0,
            u > 0,
    ;
    assert(crate::margin::within((r * u) * u, (ps + qs) * u, 1100 * euu)) by (nonlinear_arith)
        requires
            crate::margin::within(r * u, ps + qs, (1100 * e) * u),
            euu == (e * u) * u,
            u > 0,
    ;
    assert((ps + qs) * u == ps * u + qs * u) by (nonlinear_arith);
}

proof fn lemma_mixes_stay(p: int, a: int, b: int, t: int, u: int, e: int)
    requires
        crate::margin::within(p * u, a * (u - t) + b * t, (1100 * e) * u),
        -u <= a <= 256 * u,
        -u <= b <= 256 * u,
        0 <= t <= u,
        u == 0x40_0000 * e,
        e > 0,
    ensures
        -2 * u <= p <= 258 * u,
{
    let m = a * (u - t) + b * t;
    assert(-(u * u) <= m <= 256 * (u * u)) by (nonlinear_arith)
        requires
            m == a * (u - t) + b * t,
            -u <= a <= 256 * u,
            -u <= b <= 256 * u,
            0 <= t <= u,
            u > 0,
    ;
    assert(-2 * u <= p <= 258 * u) by (nonlinear_arith)
        requires
            crate::margin::within(p * u, m, (1100 * e) * u),
            -(u * u) <= m <= 256 * (u * u),
            u == 0x40_0000 * e,
            e > 0,
    ;
}

/// How far a place is past the pixel at or before it.
proof fn lemma_past(v: Real32)
    requires
        v.finite(),
        crate::margin::within(crate::margin::worth(v), 0, 0x40_0000 * crate::margin::unit()),
    ensures
        ({
            let u = crate::margin::unit();
            let i = crate::margin::worth(v) / u;
            let t = crate::margin::worth(v) - i * u;
            let d = v.minus(Real32::of_signed(i));
            &&& v.floored(far_out()) == i
            &&& 0 <= t < u
            &&& d.finite()
            &&& crate::margin::within(crate::margin::worth(d), t, crate::margin::slack())
        }),
{
    crate::margin::lemma_units();
    reveal(Real32::finite);
    reveal(Real32::floored);
    reveal(Real32::negated);
    let u = crate::margin::unit();
    let w = crate::margin::worth(v);
    let i = w / u;
    assert(i * u <= w < i * u + u && -0x40_0001 <= i <= 0x40_0000) by (nonlinear_arith)
        requires
            i == w / u,
            -(0x40_0000 * u) <= w <= 0x40_0000 * u,
            u > 0,
    ;
    let n = Real32::of_signed(i);
    assert(n.finite() && crate::margin::worth(n) == i * u) by {
        if i < 0 {
            let m = (-i) as nat;
            lemma_whole(m);
            crate::margin::lemma_negated(crate::float::Format::Single, Real32::of(m).at());
            assert((-i) * u == -(i * u)) by (nonlinear_arith);
        } else {
            lemma_whole(i as nat);
        }
    }
    crate::margin::near_difference(v, n);
}

/// Of an edit that is accepted, every crop is at least nothing and less than all, opposite crops
/// leave something over, the rotation is within a full turn either way, the zoom is a twentieth to
/// twenty, and the position is within four canvas sides.
pub proof fn accepted_edits_are_within_their_limits(edit: SourceEdit)
    requires
        edit.fault() is None,
    ensures
        forall|k: int|
            0 <= k < 4 ==> (#[trigger] edit.crop@[k]).finite() && 0 <= crate::margin::worth(
                edit.crop@[k],
            ) < crate::margin::unit(),
        crate::margin::worth(edit.crop@[0]) + crate::margin::worth(edit.crop@[2])
            < crate::margin::unit(),
        crate::margin::worth(edit.crop@[1]) + crate::margin::worth(edit.crop@[3])
            < crate::margin::unit(),
        edit.rotation.finite(),
        crate::margin::within(
            crate::margin::worth(edit.rotation),
            0,
            360 * crate::margin::unit(),
        ),
        crate::margin::unit() <= 20 * crate::margin::worth(edit.zoom),
        crate::margin::worth(edit.zoom) <= 20 * crate::margin::unit(),
        forall|k: int|
            0 <= k < 2 ==> crate::margin::within(
                crate::margin::worth(#[trigger] edit.position@[k]),
                0,
                4 * crate::margin::unit(),
            ),
{
    lemma_zoom(edit);
    lemma_position(edit.position@[0]);
    lemma_position(edit.position@[1]);
    lemma_crops(edit.crop@[0], edit.crop@[2]);
    lemma_crops(edit.crop@[1], edit.crop@[3]);
    reveal(Real32::finite);
    reveal(Real32::up_to);
    reveal(Real32::absolute);
    vstd::arithmetic::power2::lemma2_to64();
    crate::margin::lemma_units();
    let f = crate::float::Format::Single;
    crate::margin::lemma_literal(0x43b4_0000, 0xb4_0000, 15, 0x8000);
    crate::margin::lemma_literal(0x3d4c_cccd, 0xcc_cccd, 28, 0x1000_0000);
    crate::margin::lemma_magnitude(f, edit.rotation.at());
    crate::float::order_follows_value(
        f,
        f.magnitude(edit.rotation.at()),
        (Real32 { bits: 0x43b4_0000 }).at(),
    );
    crate::float::order_follows_value(f, least_zoom().at(), edit.zoom.at());
}

proof fn lemma_crops(a: Real32, b: Real32)
    requires
        crop_ok(a),
        crop_ok(b),
        a.plus(b).below(nearly_one()),
    ensures
        a.finite(),
        b.finite(),
        0 <= crate::margin::worth(a) < crate::margin::unit(),
        0 <= crate::margin::worth(b) < crate::margin::unit(),
        crate::margin::worth(a) + crate::margin::worth(b) < crate::margin::unit(),
{
    lemma_halves();
    crate::margin::lemma_units();
    reveal(Real32::finite);
    reveal(Real32::below);
    reveal(Real32::up_to);
    let f = crate::float::Format::Single;
    vstd::arithmetic::power2::lemma2_to64();
    crate::margin::lemma_literal(0x3f7d_70a4, 0xfd_70a4, 24, 0x100_0000);
    crate::float::order_follows_value(f, zero().at(), a.at());
    crate::float::order_follows_value(f, zero().at(), b.at());
    crate::float::order_follows_value(f, a.at(), one().at());
    crate::float::order_follows_value(f, b.at(), one().at());
    crate::margin::near_sum(a, b);
    crate::float::order_follows_value(f, a.plus(b).at(), nearly_one().at());
}

} // verus!
