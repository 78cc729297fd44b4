//! A render, short of the GPU's own work: what it makes, what its shaders are told, and the order
//! of its ticks.
use crate::crt::config::{ColorMode, Config, ConfigError, Phase, SizeError};
use crate::crt::kernel::flag;
use crate::number::Real32;
use vstd::prelude::*;

verus! {

// -------------------------------------------------------------------------------------------
// The plan
// -------------------------------------------------------------------------------------------

/// Where a render runs the prepare step.
#[derive(Clone, Copy, PartialEq, Eq, Structural, Debug)]
pub enum PrepareOn {
    Gpu,
    /// `prepare`, on the calling thread. A render also falls back to it on its own when the input
    /// is too large for the device's textures or its working-set budget.
    Cpu,
}

impl Default for PrepareOn {
    fn default() -> (r: Self)
        ensures
            r == PrepareOn::Gpu,
    {
        PrepareOn::Gpu
    }
}

/// The format a color mode draws the glass, lighting and bloom in.
#[derive(Clone, Copy, PartialEq, Eq, Structural, Debug)]
pub enum SurfaceFormat {
    /// Eight bits to a channel.
    Byte,
    /// A half-precision number to a channel.
    Half,
}

pub open spec fn format_of(mode: ColorMode) -> SurfaceFormat {
    match mode {
        ColorMode::Reference => SurfaceFormat::Byte,
        ColorMode::LinearLight => SurfaceFormat::Half,
    }
}

pub fn surface_format(mode: ColorMode) -> (r: SurfaceFormat)
    ensures
        r == format_of(mode),
{
    match mode {
        ColorMode::Reference => SurfaceFormat::Byte,
        ColorMode::LinearLight => SurfaceFormat::Half,
    }
}

/// Why a render is refused or stops.
#[derive(Clone, Copy, PartialEq, Eq, Structural, Debug)]
pub enum RenderError {
    Config(ConfigError),
    Size(SizeError),
    /// A side past the adapter's texture limit.
    TextureLimit,
    /// An estimated working set past the budget.
    Budget,
    /// A sequence whose signal size, output size or color mode changed.
    Sequence,
    Cancelled,
}

/// What a render of one input with one configuration makes.
#[derive(Clone, Copy, PartialEq, Eq, Debug)]
pub struct Plan {
    pub signal: (u32, u32),
    pub output: (u32, u32),
    pub surface: SurfaceFormat,
    /// Whether to prepare the signal on the device rather than on the calling thread.
    pub prepare_on_gpu: bool,
}

/// The most bytes that a render's targets may take.
pub const BUDGET: u64 = 1_500_000_000;

/// The bytes of a render's color targets, depth, readback and history, estimated high.
pub open spec fn working_set(c: Config, signal: (u32, u32), output: (u32, u32)) -> nat {
    (output.0 as nat * output.1 as nat) * (if c.color_mode == ColorMode::LinearLight {
        48nat
    } else {
        24nat
    }) + (signal.0 as nat * signal.1 as nat) * 16
}

/// The bytes that preparing on the device adds: the input, and the resize's intermediate.
pub open spec fn prepare_set(input: (u32, u32), signal: (u32, u32)) -> nat {
    input.0 as nat * (input.1 as nat * 4 + signal.1 as nat * 16)
}

pub open spec fn within(size: (u32, u32), limit: u32) -> bool {
    size.0 <= limit && size.1 <= limit
}

/// What a render makes, or why not.
pub open spec fn plan_of(c: Config, input: (u32, u32), limit: u32, prepare: PrepareOn) -> Result<
    Plan,
    RenderError,
> {
    if let Some(e) = c.fault() {
        Err(RenderError::Config(e))
    } else {
        match (c.signal_of(input), c.output_of(input)) {
            (Err(e), _) => Err(RenderError::Size(e)),
            (_, Err(e)) => Err(RenderError::Size(e)),
            (Ok(signal), Ok(output)) => if !within(signal, limit) || !within(output, limit) {
                Err(RenderError::TextureLimit)
            } else if working_set(c, signal, output) > BUDGET {
                Err(RenderError::Budget)
            } else {
                Ok(
                    Plan {
                        signal,
                        output,
                        surface: format_of(c.color_mode),
                        prepare_on_gpu: prepare == PrepareOn::Gpu && within(input, limit)
                            && working_set(c, signal, output) + prepare_set(input, signal)
                            <= BUDGET,
                    },
                )
            },
        }
    }
}

/// What a render of an input of a size makes on a device whose textures are at most `limit` along
/// a side.
pub fn plan(c: &Config, input: (u32, u32), limit: u32, prepare: PrepareOn) -> (r: Result<
    Plan,
    RenderError,
>)
    ensures
        r == plan_of(*c, input, limit, prepare),
{
    match c.validate() {
        Err(e) => {
            return Err(RenderError::Config(e));
        },
        Ok(()) => {},
    }
    let signal: (u32, u32) = match c.signal_size(input) {
        Err(e) => {
            return Err(RenderError::Size(e));
        },
        Ok(size) => size,
    };
    let output: (u32, u32) = match c.output_size(input) {
        Err(e) => {
            return Err(RenderError::Size(e));
        },
        Ok(size) => size,
    };
    if signal.0 > limit || signal.1 > limit || output.0 > limit || output.1 > limit {
        return Err(RenderError::TextureLimit);
    }
    let each: u128 = match c.color_mode {
        ColorMode::LinearLight => 48,
        ColorMode::Reference => 24,
    };
    proof {
        lemma_small_product(output.0 as nat, output.1 as nat);
        lemma_small_product(signal.0 as nat, signal.1 as nat);
        let area = output.0 as nat * output.1 as nat;
        assert(area * each <= 0x1_0000_0000_0000_0000 * 48) by (nonlinear_arith)
            requires
                area < 0x1_0000_0000_0000_0000,
                each <= 48,
        ;
        assert(area * each >= 0) by (nonlinear_arith);
    }
    let estimated: u128 = output.0 as u128 * output.1 as u128 * each + signal.0 as u128
        * signal.1 as u128 * 16;
    assert(estimated == working_set(*c, signal, output));
    if estimated > BUDGET as u128 {
        return Err(RenderError::Budget);
    }
    proof {
        let across = input.1 as nat * 4 + signal.1 as nat * 16;
        assert(input.0 as nat * across <= 0xffff_ffff * (0xffff_ffff * 20)) by (nonlinear_arith)
            requires
                input.0 <= 0xffff_ffff,
                across <= 0xffff_ffff * 20,
        ;
        assert(input.0 as nat * across >= 0) by (nonlinear_arith);
    }
    let more: u128 = input.0 as u128 * (input.1 as u128 * 4 + signal.1 as u128 * 16);
    let on_gpu: bool = match prepare {
        PrepareOn::Gpu => input.0 <= limit && input.1 <= limit && estimated + more
            <= BUDGET as u128,
        PrepareOn::Cpu => false,
    };
    Ok(Plan { signal, output, surface: surface_format(c.color_mode), prepare_on_gpu: on_gpu })
}

proof fn lemma_small_product(a: nat, b: nat)
    requires
        a <= 0xffff_ffff,
        b <= 0xffff_ffff,
    ensures
        0 <= a * b < 0x1_0000_0000_0000_0000,
{
    assert(0 <= a * b <= 0xffff_ffff * 0xffff_ffff) by (nonlinear_arith)
        requires
            a <= 0xffff_ffff,
            b <= 0xffff_ffff,
    ;
}

/// An input that is too large to prepare on the device is still rendered: where a render is
/// planned does not decide whether it is.
pub proof fn large_inputs_are_prepared_elsewhere(c: Config, input: (u32, u32), limit: u32)
    ensures
        plan_of(c, input, limit, PrepareOn::Gpu) is Ok <==> plan_of(
            c,
            input,
            limit,
            PrepareOn::Cpu,
        ) is Ok,
        plan_of(c, input, limit, PrepareOn::Gpu) matches Ok(on_gpu) ==> plan_of(
            c,
            input,
            limit,
            PrepareOn::Cpu,
        ) == Ok::<Plan, RenderError>(Plan { prepare_on_gpu: false, ..on_gpu }),
{
}

/// The size of the target that bloom is gathered in: a sixteenth, but never nothing.
pub fn bloom_size(output: (u32, u32)) -> (r: (u32, u32))
    ensures
        r.0 == if output.0 < 16 {
            1
        } else {
            output.0 / 16
        },
        r.1 == if output.1 < 16 {
            1
        } else {
            output.1 / 16
        },
{
    (
        if output.0 < 16 {
            1
        } else {
            output.0 / 16
        },
        if output.1 < 16 {
            1
        } else {
            output.1 / 16
        },
    )
}

// -------------------------------------------------------------------------------------------
// What the shaders are told
// -------------------------------------------------------------------------------------------

/// Where the tube is seen from: the camera's distance in front of it, and the matrix that takes
/// the tube to the canvas.
#[derive(Clone, Copy, Debug, PartialEq, Eq)]
pub struct Eye {
    pub distance: Real32,
    pub mvp: [[Real32; 4]; 4],
}

/// The shader's settings.
#[derive(Clone, Copy, Debug, PartialEq, Eq)]
pub struct Params {
    pub mvp: [[Real32; 4]; 4],
    pub size: [Real32; 4],
    pub signal: [Real32; 4],
    pub persistence: [Real32; 4],
    pub geometry: [Real32; 4],
    pub mask: [Real32; 4],
    pub lighting: [Real32; 4],
    pub surface: [Real32; 4],
    pub frame: [Real32; 4],
    pub light: [Real32; 4],
    pub camera: [Real32; 4],
    pub bloom: [Real32; 4],
    pub processing: [Real32; 4],
}

/// Half.
pub open spec fn even_mix() -> Real32 {
    Real32 { bits: 0x3f00_0000 }
}

/// How much of the second artifact pattern a tick mixes in.
pub open spec fn artifact_mix(phase: Phase, blending: Real32, tick: u64) -> Real32 {
    let first = blending;
    let second = Real32 { bits: 0x3f80_0000 }.minus(blending);
    match phase {
        Phase::Stable => even_mix(),
        Phase::A => first,
        Phase::B => second,
        Phase::Alternating => if tick % 2 == 0 {
            first
        } else {
            second
        },
    }
}

impl Params {
    /// Whether these are the settings of a configuration, whatever the tick.
    pub open spec fn told(self, c: Config, signal: (u32, u32), output: (u32, u32), eye: Eye) -> bool {
        let none = Real32 { bits: 0 };
        let unit = Real32 { bits: 0x3f80_0000 };
        let uv = c.uv_of(signal);
        &&& self.mvp == eye.mvp
        &&& self.size@ == seq![
            Real32::of(signal.0 as nat),
            Real32::of(signal.1 as nat),
            Real32::of(output.0 as nat),
            Real32::of(output.1 as nat),
        ]
        &&& self.signal@.take(3) == seq![c.sharpness, c.bleed, c.artifacts]
        &&& self.persistence@ == c.persistence@.push(none)
        &&& self.geometry@ == seq![uv.0, uv.1, c.overscan, c.barrel]
        &&& self.mask@ == c.repeats(signal) + seq![c.mask_brightness, c.mask_opacity]
        &&& self.lighting@ == seq![c.diffuse, c.specular, c.specular_power, c.rim]
        &&& self.surface@ == seq![
            c.dimming,
            c.reflection,
            c.saturation,
            crate::crt::kernel::flagged(c.mask_antialias),
        ]
        &&& self.frame@ == c.frame_color@.push(unit)
        &&& self.light@ == c.light_position@.push(none)
        &&& self.camera@ == seq![eye.distance.negated(), none, none, none]
        &&& self.bloom@ == seq![c.bloom, c.bloom_power, c.bloom_spread, none]
        &&& self.processing@[0] == crate::crt::kernel::flagged(
            c.color_mode == ColorMode::LinearLight,
        )
        &&& self.processing@[1] == crate::crt::kernel::flagged(c.interlace)
        &&& self.processing@[3] == none
    }

    /// Everything but the composite phase and the interlaced field, which `tick` sets.
    pub fn new(c: &Config, signal: (u32, u32), output: (u32, u32), eye: Eye) -> (r: Params)
        ensures
            r.told(*c, signal, output, eye),
            r.signal@[3] == even_mix(),
            r.processing@[2] == (Real32 { bits: 0 }),
    {
        let none: Real32 = Real32 { bits: 0 };
        let unit: Real32 = Real32 { bits: 0x3f80_0000 };
        let uv: (Real32, Real32) = c.uv_scale(signal);
        let repeats: [Real32; 2] = c.mask_repeats.resolve(signal);
        let p: [Real32; 3] = c.persistence;
        let f: [Real32; 3] = c.frame_color;
        let l: [Real32; 3] = c.light_position;
        let linear: bool = match c.color_mode {
            ColorMode::Reference => false,
            ColorMode::LinearLight => true,
        };
        let r: Params = Params {
            mvp: eye.mvp,
            size: [
                Real32::from_integer(signal.0 as u64),
                Real32::from_integer(signal.1 as u64),
                Real32::from_integer(output.0 as u64),
                Real32::from_integer(output.1 as u64),
            ],
            signal: [c.sharpness, c.bleed, c.artifacts, Real32 { bits: 0x3f00_0000 }],
            persistence: [p[0], p[1], p[2], none],
            geometry: [uv.0, uv.1, c.overscan, c.barrel],
            mask: [repeats[0], repeats[1], c.mask_brightness, c.mask_opacity],
            lighting: [c.diffuse, c.specular, c.specular_power, c.rim],
            surface: [c.dimming, c.reflection, c.saturation, flag(c.mask_antialias)],
            frame: [f[0], f[1], f[2], unit],
            light: [l[0], l[1], l[2], none],
            camera: [eye.distance.neg(), none, none, none],
            bloom: [c.bloom, c.bloom_power, c.bloom_spread, none],
            processing: [flag(linear), flag(c.interlace), none, none],
        };
        proof {
            assert(r.signal@.take(3) =~= seq![c.sharpness, c.bleed, c.artifacts]);
            assert(r.persistence@ =~= c.persistence@.push(none));
            assert(r.frame@ =~= c.frame_color@.push(unit));
            assert(r.light@ =~= c.light_position@.push(none));
            assert(r.mask@ =~= c.repeats(signal) + seq![c.mask_brightness, c.mask_opacity]);
        }
        r
    }

    /// The composite phase for `tick`, and the field it scans when interlaced.
    pub fn tick(&mut self, phase: Phase, ntsc_blending: Real32, tick: u64)
        ensures
            final(self).signal@ == old(self).signal@.update(
                3,
                artifact_mix(phase, ntsc_blending, tick),
            ),
            final(self).processing@ == old(self).processing@.update(
                2,
                crate::crt::kernel::flagged(tick % 2 == 1),
            ),
            *final(self) == (Params {
                signal: final(self).signal,
                processing: final(self).processing,
                ..*old(self)
            }),
    {
        let second: Real32 = Real32 { bits: 0x3f80_0000 }.sub(ntsc_blending);
        let mix: Real32 = match phase {
            Phase::Stable => Real32 { bits: 0x3f00_0000 },
            Phase::A => ntsc_blending,
            Phase::B => second,
            Phase::Alternating => if tick % 2 == 0 {
                ntsc_blending
            } else {
                second
            },
        };
        let s: [Real32; 4] = self.signal;
        let p: [Real32; 4] = self.processing;
        self.signal = [s[0], s[1], s[2], mix];
        self.processing = [p[0], p[1], flag(tick % 2 == 1), p[3]];
        assert(self.signal@ =~= old(self).signal@.update(3, mix));
        assert(self.processing@ =~= old(self).processing@.update(
            2,
            crate::crt::kernel::flagged(tick % 2 == 1),
        ));
    }
}

/// Alternating ticks take turns between the two artifact patterns, the first one first; every
/// other phase shows the same one at each tick.
pub proof fn ticks_take_turns(phase: Phase, blending: Real32, tick: u64)
    requires
        tick < u64::MAX,
    ensures
        ({
            let now = artifact_mix(phase, blending, tick);
            let next = artifact_mix(phase, blending, (tick + 1) as u64);
            if phase == Phase::Alternating {
                let a = artifact_mix(Phase::A, blending, tick);
                let b = artifact_mix(Phase::B, blending, tick);
                (now, next) == if tick % 2 == 0 {
                    (a, b)
                } else {
                    (b, a)
                }
            } else {
                now == next
            }
        }),
{
}

impl Config {
    /// The mask's columns and rows across the screen.
    pub open spec fn repeats(self, signal: (u32, u32)) -> Seq<Real32> {
        match self.mask_repeats {
            crate::crt::config::MaskRepeats::Fixed(repeats) => repeats@,
            crate::crt::config::MaskRepeats::Signal => seq![
                Real32::of(signal.0 as nat).over(Real32::of(2)),
                Real32::of(signal.1 as nat),
            ],
        }
    }
}

// -------------------------------------------------------------------------------------------
// Ticks
// -------------------------------------------------------------------------------------------

/// Which history target a tick writes; it reads the other.
pub open spec fn written_by(tick: nat) -> nat {
    tick % 2
}

/// Which history target tick `tick` writes. It reads the other, which the tick before wrote.
pub fn written(tick: u64) -> (r: usize)
    ensures
        r == written_by(tick as nat),
{
    (tick % 2) as usize
}

/// A tick reads the target that the tick before it wrote, and never the one it writes.
pub proof fn ticks_read_what_the_last_one_wrote(tick: nat)
    ensures
        written_by(tick + 1) != written_by(tick),
        tick > 0 ==> written_by(tick + 1) == written_by((tick - 1) as nat),
{
}

/// Feedback belongs to a single sequence: what its targets were made for, and its ticks so far.
#[derive(Clone, Copy, Debug, PartialEq, Eq)]
pub struct Sequence {
    /// The signal size, the output size and the surface's format.
    pub made: Option<((u32, u32), (u32, u32), SurfaceFormat)>,
    pub tick: u64,
}

impl Default for Sequence {
    fn default() -> (r: Self)
        ensures
            r == (Sequence { made: None, tick: 0 }),
    {
        Sequence { made: None, tick: 0 }
    }
}

/// How far a render is: the ticks to go through, and those done.
#[derive(Clone, Copy, PartialEq, Eq, Structural, Debug)]
pub struct Run {
    pub ticks: u32,
    pub step: u32,
    /// Whether the glass and its bloom have been drawn.
    pub drawn: bool,
}

/// What a render does next.
#[derive(Debug)]
pub enum Next {
    /// Run tick `tick`, reading one history target and writing another. With a report, submit
    /// what was recorded so far, wait for it, and tell how far the render is.
    Tick { tick: u64, reads: usize, writes: usize, report: Option<RenderProgress> },
    /// Draw the glass over this history target, then bloom, and submit.
    Surface { signal: usize },
    /// The frame is in the final target.
    Done,
}

#[derive(Clone, Debug)]
pub struct RenderProgress {
    /// Completed, weighted stages; not an estimate of elapsed time.
    pub fraction: Real32,
    pub stage: String,
}

/// 0.05 and three quarters of the ticks done.
pub open spec fn fraction_done(step: nat, ticks: nat) -> Real32 {
    Real32 { bits: 0x3d4c_cccd }.plus(
        Real32 { bits: 0x3f40_0000 }.times(Real32::of(step)).over(Real32::of(ticks)),
    )
}

/// The ticks of a render: those of the warm-up and one more for a sequence's first frame, one for
/// each after it.
pub open spec fn ticks_of(sequence: Sequence, warmup: u32) -> nat {
    if sequence.tick == 0 {
        (warmup + 1) as nat
    } else {
        1
    }
}

/// Whether what a sequence's targets were made for is what a plan makes.
pub open spec fn matches_plan(sequence: Sequence, plan: Plan) -> bool {
    match sequence.made {
        None => true,
        Some(made) => made == (plan.signal, plan.output, plan.surface),
    }
}

impl Sequence {
    /// Starts the next frame. Targets are made for the first; after that nothing that they were
    /// made for may change. History starts cleared when `tick` is 0.
    pub fn start(&mut self, plan: &Plan, warmup: u32) -> (r: Result<Run, RenderError>)
        requires
            warmup < u32::MAX,
        ensures
            final(self).tick == old(self).tick,
            matches_plan(*old(self), *plan) ==> {
                &&& r == Ok::<Run, RenderError>(
                    Run { ticks: ticks_of(*old(self), warmup) as u32, step: 0, drawn: false },
                )
                &&& final(self).made == Some((plan.signal, plan.output, plan.surface))
            },
            !matches_plan(*old(self), *plan) ==> r == Err::<Run, RenderError>(
                RenderError::Sequence,
            ) && *final(self) == *old(self),
    {
        match self.made {
            Some((signal, output, surface)) => {
                let same: bool = signal.0 == plan.signal.0 && signal.1 == plan.signal.1 && output.0
                    == plan.output.0 && output.1 == plan.output.1 && surface == plan.surface;
                if !same {
                    return Err(RenderError::Sequence);
                }
            },
            None => {
                self.made = Some((plan.signal, plan.output, plan.surface));
            },
        }
        let ticks: u32 = if self.tick == 0 {
            warmup + 1
        } else {
            1
        };
        Ok(Run { ticks, step: 0, drawn: false })
    }
}

/// Whether what was recorded is submitted after a step: every eighth, and the last.
pub open spec fn submits(step: nat, ticks: nat) -> bool {
    (step + 1) % 8 == 0 || step + 1 == ticks
}

/// How far a render is after a step.
pub open spec fn stage_text(step: nat, ticks: nat) -> Seq<char> {
    "Simulation "@ + crate::text::decimal(step) + "/"@ + crate::text::decimal(ticks)
}

impl Run {
    pub open spec fn wf(self) -> bool {
        &&& self.step <= self.ticks
        &&& self.ticks > 0
        &&& self.drawn ==> self.step == self.ticks
    }

    /// What to do next, unless the render has been cancelled: every tick in turn, the glass, and
    /// nothing more.
    pub fn next(&mut self, sequence: &mut Sequence, cancelled: bool) -> (r: Result<
        Next,
        RenderError,
    >)
        requires
            old(self).wf(),
            old(sequence).tick < u64::MAX,
            old(self).step == old(self).ticks ==> old(sequence).tick > 0,
        ensures
            final(self).wf(),
            final(self).ticks == old(self).ticks,
            final(sequence).made == old(sequence).made,
            match next_of(*old(self), *old(sequence), cancelled) {
                Err(e) => r == Err::<Next, RenderError>(e) && *final(self) == *old(self)
                    && *final(sequence) == *old(sequence),
                Ok(step) => {
                    &&& r matches Ok(next) && step.is(next)
                    &&& final(sequence).tick == old(sequence).tick + if step is Tick {
                        1int
                    } else {
                        0
                    }
                    &&& final(self).step == old(self).step + if step is Tick {
                        1int
                    } else {
                        0
                    }
                    &&& final(self).drawn == (old(self).drawn || step is Surface)
                },
            },
    {
        if cancelled {
            return Err(RenderError::Cancelled);
        }
        if self.step < self.ticks {
            let tick: u64 = sequence.tick;
            let done: u32 = self.step + 1;
            let submit: bool = done % 8 == 0 || done == self.ticks;
            let report: Option<RenderProgress> = if submit {
                let mut stage: String = String::new();
                stage.append("Simulation ");
                stage.append(crate::text::decimal_text(done as u64).as_str());
                stage.append("/");
                stage.append(crate::text::decimal_text(self.ticks as u64).as_str());
                assert(stage@ =~= stage_text(done as nat, self.ticks as nat));
                let fraction: Real32 = Real32 { bits: 0x3d4c_cccd }.add(
                    Real32 { bits: 0x3f40_0000 }.mul(Real32::from_integer(done as u64)).div(
                        Real32::from_integer(self.ticks as u64),
                    ),
                );
                Some(RenderProgress { fraction, stage })
            } else {
                None
            };
            sequence.tick = tick + 1;
            self.step = done;
            return Ok(Next::Tick { tick, reads: written(tick + 1), writes: written(tick), report });
        }
        if !self.drawn {
            self.drawn = true;
            return Ok(Next::Surface { signal: written(sequence.tick - 1) });
        }
        Ok(Next::Done)
    }
}

/// A step in ghost code.
pub enum Step {
    Tick { tick: nat, report: Option<(Real32, Seq<char>)> },
    Surface { signal: nat },
    Done,
}

impl Step {
    pub open spec fn is(self, next: Next) -> bool {
        match (self, next) {
            (
                Step::Tick { tick, report },
                Next::Tick { tick: t, reads, writes, report: told },
            ) => {
                &&& t == tick
                &&& reads == written_by(tick + 1)
                &&& writes == written_by(tick)
                &&& match (report, told) {
                    (None, None) => true,
                    (Some((fraction, stage)), Some(progress)) => progress.fraction == fraction
                        && progress.stage@ == stage,
                    _ => false,
                }
            },
            (Step::Surface { signal }, Next::Surface { signal: s }) => s == signal,
            (Step::Done, Next::Done) => true,
            _ => false,
        }
    }
}

pub open spec fn next_of(run: Run, sequence: Sequence, cancelled: bool) -> Result<
    Step,
    RenderError,
> {
    if cancelled {
        Err(RenderError::Cancelled)
    } else if run.step < run.ticks {
        Ok(
            Step::Tick {
                tick: sequence.tick as nat,
                report: if submits(run.step as nat, run.ticks as nat) {
                    Some(
                        (
                            fraction_done((run.step + 1) as nat, run.ticks as nat),
                            stage_text((run.step + 1) as nat, run.ticks as nat),
                        ),
                    )
                } else {
                    None
                },
            },
        )
    } else if !run.drawn {
        Ok(Step::Surface { signal: written_by((sequence.tick - 1) as nat) })
    } else {
        Ok(Step::Done)
    }
}

/// How many steps a render still has before its frame is there.
pub open spec fn steps_left(run: Run) -> int {
    run.ticks - run.step + if run.drawn {
        0int
    } else {
        1
    }
}

/// A render that is not cancelled ends: every step leaves fewer, and none are left exactly when
/// the frame is there.
pub proof fn renders_end(run: Run, after: Run, sequence: Sequence)
    requires
        run.wf(),
        next_of(run, sequence, false) matches Ok(step) && {
            &&& after.ticks == run.ticks
            &&& after.step == run.step + if step is Tick {
                1int
            } else {
                0
            }
            &&& after.drawn == (run.drawn || step is Surface)
        },
    ensures
        next_of(run, sequence, false)->Ok_0 is Done <==> steps_left(run) == 0,
        steps_left(run) > 0 ==> steps_left(after) == steps_left(run) - 1,
{
}

/// The two composite patterns are complements, and the stable one lies half way between them.
pub proof fn composite_patterns_are_complements(blending: Real32, tick: u64)
    requires
        blending.finite(),
        0 <= crate::margin::worth(blending) <= crate::margin::unit(),
    ensures
        ({
            let a = crate::margin::worth(artifact_mix(Phase::A, blending, tick));
            let b = crate::margin::worth(artifact_mix(Phase::B, blending, tick));
            let s = crate::margin::worth(artifact_mix(Phase::Stable, blending, tick));
            &&& a == crate::margin::worth(blending)
            &&& crate::margin::within(a + b, crate::margin::unit(), crate::margin::slack())
            &&& crate::margin::within(2 * s, a + b, crate::margin::slack())
        }),
{
    crate::crt::source::lemma_halves();
    crate::margin::lemma_units();
    crate::margin::near_difference(Real32 { bits: 0x3f80_0000 }, blending);
}

/// Progress never goes back while a render's ticks are done.
pub proof fn progress_grows(step: nat, later: nat, ticks: nat)
    requires
        step <= later <= ticks,
        0 < ticks < 0x100_0000,
    ensures
        fraction_done(step, ticks).up_to(fraction_done(later, ticks)),
{
    crate::margin::lemma_units();
    reveal(Real32::finite);
    reveal(Real32::of);
    reveal(Real32::up_to);
    reveal(Real32::times);
    reveal(Real32::over);
    reveal(Real32::plus);
    vstd::arithmetic::power2::lemma2_to64();
    crate::margin::lemma_literal(0x3f40_0000, 0xc0_0000, 24, 0x100_0000);
    crate::margin::lemma_literal(0x3d4c_cccd, 0xcc_cccd, 28, 0x1000_0000);
    let f = crate::float::Format::Single;
    crate::float::small_integers_are_exact(f, step);
    crate::float::small_integers_are_exact(f, later);
    crate::float::small_integers_are_exact(f, ticks);
    let u = crate::margin::unit();
    assert(step * u <= later * u && ticks * u > 0) by (nonlinear_arith)
        requires
            step <= later,
            ticks > 0,
            u > 0,
    ;
    let part = (Real32 { bits: 0x3f40_0000 }).at();
    crate::margin::products_keep_order(f, f.of(step), f.of(later), part);
    let (p, q) = (f.product(part, f.of(step)), f.product(part, f.of(later)));
    crate::margin::lemma_zero(f);
    crate::float::quotients_keep_order(f, p, q, f.of(ticks));
    let (a, b) = (f.quotient(p, f.of(ticks)), f.quotient(q, f.of(ticks)));
    let start = (Real32 { bits: 0x3d4c_cccd }).at();
    crate::float::sums_keep_order(f, a, b, start);
}

} // verus!
