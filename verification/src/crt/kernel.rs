//! The prepare step as the GPU takes it: resampling weights along each axis, and the settings of
//! its passes.
use crate::crt::config::{Config, Filter};
use crate::crt::lut::Lut;
use crate::crt::prepare::Turn;
use crate::number::Real32;
use vstd::prelude::*;

verus! {

// -------------------------------------------------------------------------------------------
// Resampling weights
// -------------------------------------------------------------------------------------------

/// Resampling one axis: how long it is, how long it becomes, and how.
pub struct Axis {
    pub input: nat,
    pub output: nat,
    pub filter: Filter,
}

/// No coordinate is as far out as this.
pub open spec fn far() -> nat {
    1_000_000
}

impl Axis {
    /// How far the filter reaches: nowhere, or three pixels of the smaller image.
    pub open spec fn support(self) -> Real32 {
        match self.filter {
            Filter::Nearest => Real32 { bits: 0 },
            Filter::Lanczos => Real32 { bits: 0x4040_0000 },
        }
    }

    pub open spec fn ratio(self) -> Real32 {
        Real32::of(self.input).over(Real32::of(self.output))
    }

    /// How much wider than a source pixel the filter is; never narrower.
    pub open spec fn spread(self) -> Real32 {
        if self.ratio().below(Real32 { bits: 0x3f80_0000 }) {
            Real32 { bits: 0x3f80_0000 }
        } else {
            self.ratio()
        }
    }

    pub open spec fn reach(self) -> Real32 {
        self.support().times(self.spread())
    }

    /// Where the center of an output pixel falls on the source.
    pub open spec fn center(self, out: nat) -> Real32 {
        Real32::of(out).plus(Real32 { bits: 0x3f00_0000 }).times(self.ratio())
    }

    /// The first source pixel under the filter.
    pub open spec fn first(self, out: nat) -> int {
        let left = self.center(out).minus(self.reach()).floored(far());
        if left < 0 {
            0
        } else if left > self.input - 1 {
            self.input - 1
        } else {
            left
        }
    }

    /// One past the last source pixel under the filter: at least one is under it.
    pub open spec fn end(self, out: nat) -> int {
        let right = -(self.center(out).plus(self.reach()).negated().floored(far()));
        let least = self.first(out) + 1;
        if right < least {
            least
        } else if right > self.input {
            self.input as int
        } else {
            right
        }
    }

    /// How many source pixels are under the filter.
    pub open spec fn count(self, out: nat) -> nat {
        (self.end(out) - self.first(out)) as nat
    }

    /// Where the weights of an output pixel start.
    pub open spec fn offset(self, out: nat) -> nat
        decreases out,
    {
        if out == 0 {
            0
        } else {
            self.offset((out - 1) as nat) + self.count((out - 1) as nat)
        }
    }

    /// How far the source pixel `i` is from the center of an output pixel, in pixels of the
    /// smaller image.
    pub open spec fn tap(self, out: nat, i: int) -> Real32 {
        Real32::of_signed(i).minus(self.center(out).minus(Real32 { bits: 0x3f00_0000 })).over(
            self.spread(),
        )
    }

    /// The taps of an output pixel, left to right.
    pub open spec fn taps_at(self, out: nat) -> Seq<Real32> {
        Seq::new(self.count(out), |k: int| self.tap(out, self.first(out) + k))
    }

    /// The taps of the first `n` output pixels.
    pub open spec fn taps(self, n: nat) -> Seq<Real32>
        decreases n,
    {
        if n == 0 {
            Seq::empty()
        } else {
            self.taps((n - 1) as nat) + self.taps_at((n - 1) as nat)
        }
    }
}

/// The first `n` of the numbers from `start`, added up.
pub open spec fn sum(values: Seq<Real32>, start: int, n: nat) -> Real32
    decreases n,
{
    if n == 0 {
        Real32 { bits: 0 }
    } else {
        sum(values, start, (n - 1) as nat).plus(values[start + n - 1])
    }
}

/// Resampling weights along one axis.
#[derive(Clone, Debug, PartialEq, Eq)]
pub struct Kernel {
    /// Per output pixel: first source pixel, tap count, offset into `weights`, unused.
    pub spans: Vec<[u32; 4]>,
    pub weights: Vec<Real32>,
}

/// A position in the source at which the filter is taken, rounded as `image` rounds.
struct Span {
    first: i64,
    end: i64,
    middle: Real32,
}

fn span_of(input: u32, ratio: Real32, reach: Real32, out: u32, Ghost(axis): Ghost<Axis>) -> (r: Span)
    requires
        0 < input <= 16384,
        axis.input == input,
        ratio == axis.ratio(),
        reach == axis.reach(),
    ensures
        r.first == axis.first(out as nat),
        r.end == axis.end(out as nat),
        0 <= r.first < r.end <= input,
        r.middle == axis.center(out as nat).minus(Real32 { bits: 0x3f00_0000 }),
{
    let half: Real32 = Real32 { bits: 0x3f00_0000 };
    let center: Real32 = Real32::from_integer(out as u64).add(half).mul(ratio);
    let left: i64 = center.sub(reach).floor(1_000_000);
    let right: i64 = -center.add(reach).neg().floor(1_000_000);
    let most: i64 = input as i64;
    let first: i64 = if left < 0 {
        0
    } else if left > most - 1 {
        most - 1
    } else {
        left
    };
    let end: i64 = if right < first + 1 {
        first + 1
    } else if right > most {
        most
    } else {
        right
    };
    Span { first, end, middle: center.sub(half) }
}

proof fn lemma_taps_count(axis: Axis, n: nat)
    requires
        axis.input > 0,
    ensures
        axis.taps(n).len() == axis.offset(n),
        axis.offset(n) <= n * axis.input,
    decreases n,
{
    if n > 0 {
        lemma_taps_count(axis, (n - 1) as nat);
        assert(n * axis.input == (n - 1) * axis.input + axis.input) by (nonlinear_arith);
    } else {
        assert(0 * axis.input == 0) by (nonlinear_arith);
    }
}

proof fn lemma_offsets_grow(axis: Axis, a: nat, b: nat)
    requires
        a <= b,
    ensures
        axis.offset(a) <= axis.offset(b),
    decreases b,
{
    if a < b {
        lemma_offsets_grow(axis, a, (b - 1) as nat);
    }
}

impl Kernel {
    /// Resizing copies an image whose size does not change instead of filtering it. That holds
    /// only when neither axis changes: an axis kept while the other is scaled is still filtered.
    pub fn identity(length: u32) -> (r: Kernel)
        ensures
            r.spans@.len() == length,
            r.weights@.len() == length,
            forall|i: int|
                0 <= i < length ==> (#[trigger] r.spans@[i])@ == seq![i as u32, 1u32, i as u32, 0u32],
            forall|i: int| 0 <= i < length ==> #[trigger] r.weights@[i] == (Real32 {
                bits: 0x3f80_0000,
            }),
    {
        let mut spans: Vec<[u32; 4]> = Vec::new();
        let mut weights: Vec<Real32> = Vec::new();
        let mut i: u32 = 0;
        while i < length
            invariant
                i <= length,
                spans@.len() == i,
                weights@.len() == i,
                forall|k: int|
                    0 <= k < i ==> (#[trigger] spans@[k])@ == seq![k as u32, 1u32, k as u32, 0u32],
                forall|k: int| 0 <= k < i ==> #[trigger] weights@[k] == (Real32 {
                    bits: 0x3f80_0000,
                }),
            decreases length - i,
        {
            let span: [u32; 4] = [i, 1, i, 0];
            assert(span@ =~= seq![i, 1u32, i, 0u32]);
            spans.push(span);
            weights.push(Real32 { bits: 0x3f80_0000 });
            i = i + 1;
        }
        Kernel { spans, weights }
    }

    /// Where the filter is taken for an axis `input` pixels long that becomes `output` long:
    /// `new` takes the filter's values there.
    pub fn taps(input: u32, output: u32, filter: Filter) -> (r: Vec<Real32>)
        requires
            0 < input <= 16384,
            0 < output <= 16384,
        ensures
            r@ == (Axis { input: input as nat, output: output as nat, filter }).taps(output as nat),
    {
        let ghost axis = Axis { input: input as nat, output: output as nat, filter };
        let support: Real32 = match filter {
            Filter::Nearest => Real32 { bits: 0 },
            Filter::Lanczos => Real32 { bits: 0x4040_0000 },
        };
        let ratio: Real32 = Real32::from_integer(input as u64).div(
            Real32::from_integer(output as u64),
        );
        let spread: Real32 = if ratio.less(Real32 { bits: 0x3f80_0000 }) {
            Real32 { bits: 0x3f80_0000 }
        } else {
            ratio
        };
        let reach: Real32 = support.mul(spread);
        let mut taps: Vec<Real32> = Vec::new();
        let mut out: u32 = 0;
        while out < output
            invariant
                0 < input <= 16384,
                out <= output,
                axis == (Axis { input: input as nat, output: output as nat, filter }),
                ratio == axis.ratio(),
                spread == axis.spread(),
                reach == axis.reach(),
                taps@ == axis.taps(out as nat),
            decreases output - out,
        {
            let span: Span = span_of(input, ratio, reach, out, Ghost(axis));
            let mut i: i64 = span.first;
            while i < span.end
                invariant
                    span.first == axis.first(out as nat),
                    span.end == axis.end(out as nat),
                    0 <= span.first <= i <= span.end <= 16384,
                    spread == axis.spread(),
                    span.middle == axis.center(out as nat).minus(Real32 { bits: 0x3f00_0000 }),
                    taps@ == axis.taps(out as nat) + axis.taps_at(out as nat).take(
                        i - span.first,
                    ),
                decreases span.end - i,
            {
                let ghost before = taps@;
                taps.push(Real32::from_signed(i).sub(span.middle).div(spread));
                proof {
                    let k = i - span.first;
                    let all = axis.taps_at(out as nat);
                    assert(all.take(k + 1) =~= all.take(k).push(all[k]));
                    assert(taps@ =~= axis.taps(out as nat) + all.take(k + 1));
                }
                i = i + 1;
            }
            proof {
                let all = axis.taps_at(out as nat);
                assert(all.take(span.end - span.first) =~= all);
            }
            out = out + 1;
        }
        taps
    }

    /// The weights along an axis `input` pixels long that becomes `output` long, from the
    /// filter's values at its taps: each output pixel's share of them adds up to one.
    pub fn new(input: u32, output: u32, filter: Filter, values: &Vec<Real32>) -> (r: Kernel)
        requires
            0 < input <= 16384,
            0 < output <= 16384,
            values@.len() == (Axis { input: input as nat, output: output as nat, filter }).offset(
                output as nat,
            ),
        ensures
            ({
                let axis = Axis { input: input as nat, output: output as nat, filter };
                &&& r.spans@.len() == output
                &&& r.weights@.len() == values@.len()
                &&& forall|out: int|
                    0 <= out < output ==> (#[trigger] r.spans@[out])@ == seq![
                        axis.first(out as nat) as u32,
                        axis.count(out as nat) as u32,
                        axis.offset(out as nat) as u32,
                        0u32,
                    ]
                &&& forall|out: int, k: int|
                    0 <= out < output && 0 <= k < axis.count(out as nat)
                        ==> #[trigger] axis.weight(values@, r.weights@, out as nat, k)
            }),
    {
        let ghost axis = Axis { input: input as nat, output: output as nat, filter };
        let support: Real32 = match filter {
            Filter::Nearest => Real32 { bits: 0 },
            Filter::Lanczos => Real32 { bits: 0x4040_0000 },
        };
        let ratio: Real32 = Real32::from_integer(input as u64).div(
            Real32::from_integer(output as u64),
        );
        let spread: Real32 = if ratio.less(Real32 { bits: 0x3f80_0000 }) {
            Real32 { bits: 0x3f80_0000 }
        } else {
            ratio
        };
        let reach: Real32 = support.mul(spread);
        let mut spans: Vec<[u32; 4]> = Vec::new();
        let mut weights: Vec<Real32> = Vec::new();
        let mut out: u32 = 0;
        proof {
            lemma_taps_count(axis, output as nat);
            assert(output * input <= 16384 * 16384) by (nonlinear_arith)
                requires
                    output <= 16384,
                    input <= 16384,
            ;
        }
        while out < output
            invariant
                0 < input <= 16384,
                out <= output,
                axis == (Axis { input: input as nat, output: output as nat, filter }),
                ratio == axis.ratio(),
                spread == axis.spread(),
                reach == axis.reach(),
                values@.len() == axis.offset(output as nat) <= 16384 * 16384,
                spans@.len() == out,
                weights@.len() == axis.offset(out as nat),
                forall|o: int|
                    0 <= o < out ==> (#[trigger] spans@[o])@ == seq![
                        axis.first(o as nat) as u32,
                        axis.count(o as nat) as u32,
                        axis.offset(o as nat) as u32,
                        0u32,
                    ],
                forall|o: int, k: int|
                    0 <= o < out && 0 <= k < axis.count(o as nat) ==> #[trigger] axis.weight(
                        values@,
                        weights@,
                        o as nat,
                        k,
                    ),
            decreases output - out,
        {
            let span: Span = span_of(input, ratio, reach, out, Ghost(axis));
            let start: usize = weights.len();
            let count: usize = (span.end - span.first) as usize;
            proof {
                lemma_offsets_grow(axis, (out + 1) as nat, output as nat);
                assert(axis.offset((out + 1) as nat) == start + count);
            }
            let mut total: Real32 = Real32 { bits: 0 };
            let mut k: usize = 0;
            while k < count
                invariant
                    k <= count,
                    start + count <= values@.len() <= 16384 * 16384,
                    total == sum(values@, start as int, k as nat),
                decreases count - k,
            {
                total = total.add(values[start + k]);
                k = k + 1;
            }
            let ghost before = weights@;
            let mut k: usize = 0;
            while k < count
                invariant
                    k <= count,
                    start + count <= values@.len() <= 16384 * 16384,
                    total == sum(values@, start as int, count as nat),
                    start == before.len(),
                    weights@.len() == start + k,
                    forall|i: int| 0 <= i < start ==> weights@[i] == before[i],
                    forall|i: int|
                        0 <= i < k ==> #[trigger] weights@[start + i] == values@[start + i].over(
                            total,
                        ),
                decreases count - k,
            {
                weights.push(values[start + k].div(total));
                k = k + 1;
            }
            let entry: [u32; 4] = [span.first as u32, count as u32, start as u32, 0];
            assert(entry@ =~= seq![span.first as u32, count as u32, start as u32, 0u32]);
            spans.push(entry);
            proof {
                assert forall|o: int, j: int|
                    0 <= o < out + 1 && 0 <= j < axis.count(o as nat) implies #[trigger] axis.weight(
                    values@,
                    weights@,
                    o as nat,
                    j,
                ) by {
                    if o < out {
                        assert(axis.weight(values@, before, o as nat, j));
                        lemma_offsets_grow(axis, (o + 1) as nat, out as nat);
                        assert(axis.offset((o + 1) as nat) == axis.offset(o as nat) + axis.count(
                            o as nat,
                        ));
                    } else {
                        assert(weights@[start + j] == values@[start + j].over(total));
                    }
                }
            }
            out = out + 1;
        }
        Kernel { spans, weights }
    }

    /// The weights in whole rows of 4096, the last filled up with zeros, so that a steep
    /// downscale still fits a texture.
    pub fn rows(&self) -> (r: Vec<Real32>)
        requires
            self.weights@.len() <= 0x1000_0000,
        ensures
            r@.len() == (self.weights@.len() + 4095) / 4096 * 4096,
            forall|i: int|
                0 <= i < r@.len() ==> #[trigger] r@[i] == if i < self.weights@.len() {
                    self.weights@[i]
                } else {
                    Real32 { bits: 0 }
                },
    {
        let n: usize = self.weights.len();
        let length: usize = (n + 4095) / 4096 * 4096;
        let mut rows: Vec<Real32> = Vec::new();
        let mut i: usize = 0;
        while i < length
            invariant
                i <= length,
                n == self.weights@.len(),
                rows@.len() == i,
                forall|k: int|
                    0 <= k < i ==> #[trigger] rows@[k] == if k < self.weights@.len() {
                        self.weights@[k]
                    } else {
                        Real32 { bits: 0 }
                    },
            decreases length - i,
        {
            rows.push(
                if i < n {
                    self.weights[i]
                } else {
                    Real32 { bits: 0 }
                },
            );
            i = i + 1;
        }
        rows
    }
}

impl Axis {
    /// Whether a tap's weight is the filter's value there over the sum of the output pixel's.
    pub open spec fn weight(self, values: Seq<Real32>, weights: Seq<Real32>, out: nat, k: int) -> bool {
        let at = self.offset(out) + k;
        weights[at] == values[at].over(sum(values, self.offset(out) as int, self.count(out)))
    }
}

/// Every output pixel takes at least one source pixel, and none from outside the source.
pub proof fn every_output_pixel_has_a_tap(axis: Axis, out: nat)
    requires
        axis.input > 0,
    ensures
        0 <= axis.first(out) < axis.end(out) <= axis.input,
        axis.count(out) >= 1,
        axis.offset(out) < axis.offset((out + 1) as nat),
{
}

// -------------------------------------------------------------------------------------------
// Lanczos
// -------------------------------------------------------------------------------------------

/// sin(a)/a of an angle whose sine is `sine`, 1 where the number that gave the angle is zero.
pub open spec fn sinc(t: Real32, sine: Real32) -> Real32 {
    if t.equal(Real32 { bits: 0 }) {
        Real32 { bits: 0x3f80_0000 }
    } else {
        sine.over(t.times(Real32 { bits: 0x4049_0fdb }))
    }
}

/// The angle whose sine `lanczos3` takes first: π times a tap.
pub fn angle(x: Real32) -> (r: Real32)
    ensures
        r == x.times(Real32 { bits: 0x4049_0fdb }),
{
    x.mul(Real32 { bits: 0x4049_0fdb })
}

/// The filter's value at a tap: `sine` is the sine of π times the tap, and `slow_sine` that of
/// π times a third of it.
pub fn lanczos3(x: Real32, sine: Real32, slow_sine: Real32) -> (r: Real32)
    ensures
        r == if x.absolute().below(Real32 { bits: 0x4040_0000 }) {
            sinc(x, sine).times(sinc(x.over(Real32 { bits: 0x4040_0000 }), slow_sine))
        } else {
            Real32 { bits: 0 }
        },
{
    let three: Real32 = Real32 { bits: 0x4040_0000 };
    if x.abs().less(three) {
        sinc_of(x, sine).mul(sinc_of(x.div(three), slow_sine))
    } else {
        Real32 { bits: 0 }
    }
}

fn sinc_of(t: Real32, sine: Real32) -> (r: Real32)
    ensures
        r == sinc(t, sine),
{
    if t.same(Real32 { bits: 0 }) {
        Real32 { bits: 0x3f80_0000 }
    } else {
        sine.div(angle(t))
    }
}

// -------------------------------------------------------------------------------------------
// The passes
// -------------------------------------------------------------------------------------------

/// How the GPU makes the signal from the source.
#[derive(Clone, Copy, PartialEq, Eq, Structural, Debug)]
pub enum Route {
    /// One pass, through the source's edit.
    Edit,
    /// Two passes that copy.
    Copy,
    /// Two passes that resample rows, then columns.
    Resample,
}

/// How the GPU makes a signal of a size.
pub fn route(c: &Config, size: (u32, u32), signal: (u32, u32)) -> (r: Route)
    ensures
        r == if c.edits() {
            Route::Edit
        } else if size == signal {
            Route::Copy
        } else {
            Route::Resample
        },
{
    if c.edits_source() {
        Route::Edit
    } else if size.0 == signal.0 && size.1 == signal.1 {
        Route::Copy
    } else {
        Route::Resample
    }
}

/// The settings of the prepare passes.
#[derive(Clone, Copy, Debug, PartialEq, Eq)]
pub struct PrepareParams {
    pub background: [Real32; 4],
    pub edit: [Real32; 4],
    pub crop: [Real32; 4],
    pub canvas: [Real32; 4],
    pub lut_min: [Real32; 4],
    pub lut_max: [Real32; 4],
    pub grade: [Real32; 4],
    pub lut_strength: [Real32; 4],
}

pub open spec fn flagged(on: bool) -> Real32 {
    if on {
        Real32 { bits: 0x3f80_0000 }
    } else {
        Real32 { bits: 0 }
    }
}

pub(crate) fn flag(on: bool) -> (r: Real32)
    ensures
        r == flagged(on),
{
    if on {
        Real32 { bits: 0x3f80_0000 }
    } else {
        Real32 { bits: 0 }
    }
}

fn from_u32(n: u32) -> (r: Real32)
    ensures
        r == Real32::of(n as nat),
{
    Real32::from_integer(n as u64)
}

impl PrepareParams {
    /// The settings for a source and a signal of these sizes. `rotation` and `hue` are the turns
    /// of the settings' angles, and `lut` is the color table in use. The edit is told as its framing
    /// puts it.
    pub fn new(
        input: (u32, u32),
        signal: (u32, u32),
        c: &Config,
        rotation: Turn,
        hue: Turn,
        lut: Option<&Lut>,
    ) -> (r: PrepareParams)
        ensures
            ({
                let none = Real32 { bits: 0 };
                let unit = Real32 { bits: 0x3f80_0000 };
                let kept = c.source.cropped(input);
                &&& r.background@ == seq![
                    Real32::of(c.source.background@[0] as nat),
                    Real32::of(c.source.background@[1] as nat),
                    Real32::of(c.source.background@[2] as nat),
                    flagged(c.source.checkerboard),
                ]
                &&& r.edit@ == seq![
                    rotation.sine,
                    rotation.cosine,
                    c.source.zoom,
                    flagged(c.filter == Filter::Nearest),
                ]
                &&& r.crop@ == seq![
                    Real32::of(input.0 as nat).times(c.source.crop@[0]),
                    Real32::of(input.1 as nat).times(c.source.crop@[1]),
                    Real32::of(kept.0 as nat),
                    Real32::of(kept.1 as nat),
                ]
                &&& r.canvas@ == seq![
                    c.source.position@[0],
                    c.source.position@[1],
                    Real32::of(signal.0 as nat),
                    Real32::of(signal.1 as nat),
                ]
                &&& r.lut_min@ == match lut {
                    Some(lut) => lut.domain_min@.push(unit),
                    None => seq![none, none, none, none],
                }
                &&& r.lut_max@ == match lut {
                    Some(lut) => lut.domain_max@.push(Real32::of(lut.size as nat)),
                    None => seq![unit, unit, unit, Real32 { bits: 0x4000_0000 }],
                }
                &&& r.grade@ == seq![hue.sine, hue.cosine, c.chroma, flagged(c.graded())]
                &&& r.lut_strength@ == seq![c.lut_strength, none, none, none]
            }),
            ({
                let framing = c.source.framing(
                    input,
                    signal,
                    c.filter == Filter::Nearest,
                    (rotation.sine, rotation.cosine),
                );
                &&& r.crop@ == seq![
                    framing.left,
                    framing.top,
                    Real32::of(framing.width as nat),
                    Real32::of(framing.height as nat),
                ]
                &&& r.edit@ == seq![
                    framing.sine,
                    framing.cosine,
                    framing.edit.zoom,
                    flagged(framing.nearest),
                ]
                &&& r.canvas@ == seq![
                    framing.edit.position@[0],
                    framing.edit.position@[1],
                    Real32::of(framing.canvas.0 as nat),
                    Real32::of(framing.canvas.1 as nat),
                ]
            }),
    {
        let none: Real32 = Real32 { bits: 0 };
        let unit: Real32 = Real32 { bits: 0x3f80_0000 };
        let two: Real32 = Real32 { bits: 0x4000_0000 };
        let kept: (u32, u32) = c.source.size(input);
        let ground: [u8; 3] = c.source.background;
        let crop: [Real32; 4] = c.source.crop;
        let position: [Real32; 2] = c.source.position;
        let nearest: bool = match c.filter {
            Filter::Nearest => true,
            Filter::Lanczos => false,
        };
        let (lut_min, lut_max): ([Real32; 4], [Real32; 4]) = match lut {
            Some(lut) => {
                let min: [Real32; 3] = lut.domain_min;
                let max: [Real32; 3] = lut.domain_max;
                let low: [Real32; 4] = [min[0], min[1], min[2], unit];
                let high: [Real32; 4] = [
                    max[0],
                    max[1],
                    max[2],
                    Real32::from_integer(lut.size as u64),
                ];
                assert(low@ =~= lut.domain_min@.push(unit));
                assert(high@ =~= lut.domain_max@.push(Real32::of(lut.size as nat)));
                (low, high)
            },
            None => ([none, none, none, none], [unit, unit, unit, two]),
        };
        PrepareParams {
            background: [
                Real32::from_integer(ground[0] as u64),
                Real32::from_integer(ground[1] as u64),
                Real32::from_integer(ground[2] as u64),
                flag(c.source.checkerboard),
            ],
            edit: [rotation.sine, rotation.cosine, c.source.zoom, flag(nearest)],
            crop: [
                from_u32(input.0).mul(crop[0]),
                from_u32(input.1).mul(crop[1]),
                from_u32(kept.0),
                from_u32(kept.1),
            ],
            canvas: [position[0], position[1], from_u32(signal.0), from_u32(signal.1)],
            lut_min,
            lut_max,
            grade: [hue.sine, hue.cosine, c.chroma, flag(c.grades())],
            lut_strength: [c.lut_strength, none, none, none],
        }
    }
}

/// A color table as texels: each color, and a zero.
pub fn lut_texels(lut: &Lut) -> (r: Vec<[Real32; 4]>)
    ensures
        r@.len() == lut.values@.len(),
        forall|i: int|
            0 <= i < r@.len() ==> (#[trigger] r@[i])@ == lut.values@[i]@.push(Real32 { bits: 0 }),
{
    let mut texels: Vec<[Real32; 4]> = Vec::new();
    let mut i: usize = 0;
    while i < lut.values.len()
        invariant
            i <= lut.values@.len(),
            texels@.len() == i,
            forall|k: int|
                0 <= k < i ==> (#[trigger] texels@[k])@ == lut.values@[k]@.push(
                    Real32 { bits: 0 },
                ),
        decreases lut.values@.len() - i,
    {
        let v: [Real32; 3] = lut.values[i];
        let texel: [Real32; 4] = [v[0], v[1], v[2], Real32 { bits: 0 }];
        assert(texel@ =~= v@.push(Real32 { bits: 0 }));
        texels.push(texel);
        i = i + 1;
    }
    texels
}

/// The center of an output pixel falls in proportion on the source, within a part in 512 of a source
/// pixel.
pub proof fn centers_are_in_proportion(axis: Axis, out: nat)
    requires
        0 < axis.input <= 16384,
        out < axis.output <= 16384,
    ensures
        ({
            let u = crate::margin::unit();
            &&& axis.center(out).finite()
            &&& crate::margin::within(
                512 * ((2 * axis.output) * crate::margin::worth(axis.center(out))),
                512 * (((2 * out + 1) * axis.input) * u),
                (2 * axis.output) * u,
            )
        }),
{
    crate::crt::picture::middles_are_in_proportion(out, axis.input as u32, axis.output as u32);
}

} // verus!
