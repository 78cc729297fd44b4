//! Exporting to animated GIF and WebP: a small CRT canvas at a modest rate, since both formats
//! grow quickly with size, rate and length.
//!
//! A GIF holds 256 colors, chosen for the whole animation. The frames are first encoded
//! losslessly to a temporary file, the palette is chosen from all of them, and then they are
//! mapped to it. FFmpeg can do both in one pass only by holding every frame in memory.
//! WebP is encoded directly.
use crate::crt::config::{Config, ConfigError, SizeError};
use crate::media::animated::MICRO;
use crate::media::args::Args;
use crate::media::kind::AnimationFormat;
use crate::media::options::Timing;
use crate::media::plan::{render_config, size_text, Rate};
use crate::media::probe::Video;
use crate::number::{Real32, Real64};
use crate::text::{decimal_text, join, join3};
use vstd::prelude::*;

verus! {

/// How a GIF spreads the colors its palette lacks.
#[derive(Clone, Copy, Debug, PartialEq, Eq, Structural)]
pub enum Dither {
    /// A fixed pattern. It changes little from frame to frame, so it compresses well.
    Bayer,
    /// Error diffusion: smoother gradients, but the noise moves and the file grows.
    Diffusion,
    /// No dithering: the smallest files, with banding in gradients.
    Off,
}

/// How an animation is exported.
#[derive(Clone, Copy, Debug, PartialEq, Eq, Structural)]
pub struct AnimationOptions {
    /// The longest side of the CRT canvas, in pixels. The CRT is rendered at this size: scaling
    /// it down afterwards would turn the mask and scanlines into moiré.
    pub max_side: u32,
    /// Frames per second. GIF stores each frame's time in hundredths of a second: other rates,
    /// such as 24, alternate between two delays that average to the rate.
    pub fps: u32,
    /// Stable or Disabled; NTSC timing needs 60 frames per second.
    pub timing: Timing,
    /// Where in the source to start, in seconds.
    pub start: Real64,
    /// At most this many seconds, from `start`.
    pub max_seconds: Option<Real64>,
    /// GIF only.
    pub dither: Dither,
    /// WebP only: 0–100, higher keeps more detail. Ignored when lossless.
    pub quality: u8,
    /// WebP only: keeps every pixel exactly, including the mask's colors, which lossy WebP
    /// blurs by storing color at half resolution.
    pub lossless: bool,
}

impl AnimationOptions {
    /// What is chosen until something else is.
    pub open spec fn initial() -> Self {
        AnimationOptions {
            max_side: 640,
            fps: 24,
            timing: Timing::Stable,
            start: Real64::of(0),
            max_seconds: Some(Real64::of(10)),
            dither: Dither::Bayer,
            quality: 75,
            lossless: false,
        }
    }
}

impl Default for AnimationOptions {
    fn default() -> (r: Self)
        ensures
            r == Self::initial(),
    {
        Self {
            max_side: 640,
            fps: 24,
            timing: Timing::Stable,
            start: Real64::from_integer(0),
            max_seconds: Some(Real64::from_integer(10)),
            dither: Dither::Bayer,
            quality: 75,
            lossless: false,
        }
    }
}

/// Why an animation cannot be exported.
#[derive(Clone, Copy, Debug, PartialEq, Eq, Structural)]
pub enum AnimationError {
    MaxSide,
    Fps(AnimationFormat),
    Timing,
    Start,
    Length,
    Quality,
    /// The start is after the end.
    Late,
    Config(ConfigError),
    Size(SizeError),
}

impl AnimationError {
    pub open spec fn text(self) -> Option<Seq<char>> {
        match self {
            AnimationError::MaxSide => Some("The longest side must be 64–4096 pixels"@),
            AnimationError::Fps(format) => Some(
                format.name_text() + " frame rate must be 1–"@ + crate::text::decimal(
                    if format == AnimationFormat::Gif {
                        30nat
                    } else {
                        60nat
                    },
                ) + " per second"@,
            ),
            AnimationError::Timing => Some(
                "Animations use Stable or Disabled timing: NTSC timing needs 60 frames per second"@,
            ),
            AnimationError::Start => Some("The start must be a time in the video"@),
            AnimationError::Length => Some("The length limit must be more than zero seconds"@),
            AnimationError::Quality => Some("WebP quality must be 0–100"@),
            AnimationError::Late => Some("The start is after the end of the video"@),
            _ => None,
        }
    }

    /// What to tell the user; none where the settings or a size say it themselves.
    pub fn message(&self) -> (r: Option<String>)
        ensures
            crate::path::is_some_text(r, self.text()),
    {
        let text: &str = match self {
            AnimationError::MaxSide => "The longest side must be 64–4096 pixels",
            AnimationError::Fps(format) => {
                let mut r: String = join(format.name(), " frame rate must be 1–");
                r.append(decimal_text(format.max_fps() as u64).as_str());
                r.append(" per second");
                return Some(r);
            },
            AnimationError::Timing =>
            "Animations use Stable or Disabled timing: NTSC timing needs 60 frames per second",
            AnimationError::Start => "The start must be a time in the video",
            AnimationError::Length => "The length limit must be more than zero seconds",
            AnimationError::Quality => "WebP quality must be 0–100",
            AnimationError::Late => "The start is after the end of the video",
            _ => {
                return None;
            },
        };
        Some(crate::text::owned(text))
    }
}

impl AnimationOptions {
    /// What is wrong with the options for a format, if anything.
    pub open spec fn fault(self, format: AnimationFormat) -> Option<AnimationError> {
        let top: u32 = match format {
            AnimationFormat::Gif => 30,
            AnimationFormat::Webp => 60,
        };
        if !(64 <= self.max_side <= 4096) {
            Some(AnimationError::MaxSide)
        } else if !(1 <= self.fps <= top) {
            Some(AnimationError::Fps(format))
        } else if self.timing == Timing::Ntsc60 {
            Some(AnimationError::Timing)
        } else if !(self.start.finite() && Real64::of(0).up_to(self.start)) {
            Some(AnimationError::Start)
        } else if self.max_seconds matches Some(s) && !(s.finite() && Real64::of(0).below(s)) {
            Some(AnimationError::Length)
        } else if self.quality > 100 {
            Some(AnimationError::Quality)
        } else {
            None
        }
    }

    pub fn validate(&self, format: AnimationFormat) -> (r: Result<(), AnimationError>)
        ensures
            r == (match self.fault(format) {
                Some(e) => Err::<(), AnimationError>(e),
                None => Ok::<(), AnimationError>(()),
            }),
    {
        if self.max_side < 64 || self.max_side > 4096 {
            return Err(AnimationError::MaxSide);
        }
        if self.fps < 1 || self.fps > format.max_fps() {
            return Err(AnimationError::Fps(format));
        }
        if self.timing == Timing::Ntsc60 {
            return Err(AnimationError::Timing);
        }
        if !(self.start.is_finite() && Real64::from_integer(0).at_most(self.start)) {
            return Err(AnimationError::Start);
        }
        match self.max_seconds {
            Some(s) => if !(s.is_finite() && Real64::from_integer(0).less(s)) {
                return Err(AnimationError::Length);
            },
            None => {},
        }
        if self.quality > 100 {
            return Err(AnimationError::Quality);
        }
        Ok(())
    }

    /// Compressed bytes per rendered pixel of each frame, from lowest to highest. Measured on
    /// the default CRT at 640x360: a still test card gives the low end and busy moving test
    /// footage a little under half the high end, which leaves room for noisier sources such as
    /// film grain.
    pub open spec fn pixel_bytes(self, format: AnimationFormat) -> (Real64, Real64) {
        match format {
            AnimationFormat::Gif => match self.dither {
                // 0.006 and 0.2
                Dither::Off => (
                    Real64 { bits: 0x3F78_9374_BC6A_7EFA },
                    Real64 { bits: 0x3FC9_9999_9999_999A },
                ),
                // 0.008 and 0.25
                Dither::Bayer => (
                    Real64 { bits: 0x3F80_624D_D2F1_A9FC },
                    Real64 { bits: 0x3FD0_0000_0000_0000 },
                ),
                // 0.008 and 0.35
                Dither::Diffusion => (
                    Real64 { bits: 0x3F80_624D_D2F1_A9FC },
                    Real64 { bits: 0x3FD6_6666_6666_6666 },
                ),
            },
            AnimationFormat::Webp => if self.lossless {
                // 0.02 and 0.5
                (
                    Real64 { bits: 0x3F94_7AE1_47AE_147B },
                    Real64 { bits: 0x3FE0_0000_0000_0000 },
                )
            } else {
                // 0.001 and 0.07
                (
                    Real64 { bits: 0x3F50_624D_D2F1_A9FC },
                    Real64 { bits: 0x3FB1_EB85_1EB8_51EC },
                )
            },
        }
    }

    fn bytes_per_pixel(&self, format: AnimationFormat) -> (r: (Real64, Real64))
        ensures
            r == self.pixel_bytes(format),
    {
        match format {
            AnimationFormat::Gif => match self.dither {
                Dither::Off => (
                    Real64 { bits: 0x3F78_9374_BC6A_7EFA },
                    Real64 { bits: 0x3FC9_9999_9999_999A },
                ),
                Dither::Bayer => (
                    Real64 { bits: 0x3F80_624D_D2F1_A9FC },
                    Real64 { bits: 0x3FD0_0000_0000_0000 },
                ),
                Dither::Diffusion => (
                    Real64 { bits: 0x3F80_624D_D2F1_A9FC },
                    Real64 { bits: 0x3FD6_6666_6666_6666 },
                ),
            },
            AnimationFormat::Webp => if self.lossless {
                (
                    Real64 { bits: 0x3F94_7AE1_47AE_147B },
                    Real64 { bits: 0x3FE0_0000_0000_0000 },
                )
            } else {
                (
                    Real64 { bits: 0x3F50_624D_D2F1_A9FC },
                    Real64 { bits: 0x3FB1_EB85_1EB8_51EC },
                )
            },
        }
    }

    /// Whether a summary is that of exporting with these options: `size` is the canvas and
    /// `frames` how many there are.
    pub open spec fn sums_up(
        self,
        summary: AnimationSummary,
        format: AnimationFormat,
        size: (u32, u32),
        frames: nat,
    ) -> bool {
        let pixels = Real64::of(frames).times(Real64::of(size.0 as nat)).times(
            Real64::of(size.1 as nat),
        );
        let (low, high) = self.pixel_bytes(format);
        &&& summary.size == size
        &&& summary.frames == frames
        &&& summary.bytes.0 == pixels.times(low).truncated(u64::MAX as nat)
        &&& summary.bytes.1 == pixels.times(high).truncated(u64::MAX as nat)
        &&& summary.temporary == (match format {
            AnimationFormat::Gif => pixels.times(Real64::of(2)).truncated(u64::MAX as nat),
            AnimationFormat::Webp => 0,
        })
    }

    /// What exporting `video` as `format` with these options makes, worked out without
    /// rendering anything.
    pub fn summary(
        &self,
        video: &Video,
        config: &Config,
        format: AnimationFormat,
    ) -> (r: Result<AnimationSummary, AnimationError>)
        ensures
            match animation_fault(*video, format, *config, *self) {
                Some(e) => r == Err::<AnimationSummary, AnimationError>(e),
                None => r matches Ok(summary) && self.sums_up(
                    summary,
                    format,
                    canvas_size(*video, *config, *self),
                    frame_total(*video, *self),
                ),
            },
    {
        let zero: Real32 = Real32 { bits: 0 };
        let plan: AnimationPlan = match AnimationPlan::new(
            video,
            format,
            config,
            self,
            [zero, zero, zero],
        ) {
            Ok(plan) => plan,
            Err(e) => {
                return Err(e);
            },
        };
        let frames: u64 = plan.frame_count();
        let pixels: Real64 = Real64::from_integer(frames).mul(
            Real64::from_integer(plan.size.0 as u64),
        ).mul(Real64::from_integer(plan.size.1 as u64));
        let (low, high) = self.bytes_per_pixel(format);
        let temporary: u64 = match format {
            AnimationFormat::Gif => pixels.mul(Real64::from_integer(2)).truncate(u64::MAX),
            AnimationFormat::Webp => 0,
        };
        Ok(
            AnimationSummary {
                size: plan.size,
                frames,
                bytes: (
                    pixels.mul(low).truncate(u64::MAX),
                    pixels.mul(high).truncate(u64::MAX),
                ),
                temporary,
            },
        )
    }
}

/// How large an animation export will be.
#[derive(Clone, Copy, Debug, PartialEq, Eq)]
pub struct AnimationSummary {
    /// The CRT canvas, as rendered.
    pub size: (u32, u32),
    pub frames: u64,
    /// The file's likely size, lowest and highest, in bytes.
    pub bytes: (u64, u64),
    /// Space the export needs next to the destination while it runs, in bytes.
    pub temporary: u64,
}

/// An animation export, checked before anything starts.
pub struct AnimationPlan<'a> {
    pub video: &'a Video,
    pub options: &'a AnimationOptions,
    pub format: AnimationFormat,
    pub render: Config,
    pub size: (u32, u32),
    pub rate: Rate,
}

/// The canvas an animation is rendered on: the look's own, no longer than its longest side may
/// be.
pub open spec fn canvas_size(video: Video, config: Config, options: AnimationOptions) -> (u32, u32) {
    Config::scaled_size(config.output_of(video.size)->Ok_0, Some(options.max_side))
}

/// How long an animation is, in seconds: what is left of the video after the start, or as much
/// of it as its length limit keeps.
pub open spec fn length_of(video: Video, options: AnimationOptions) -> Real64 {
    let rest = video.duration.minus(options.start);
    match options.max_seconds {
        Some(limit) => rest.lesser(limit),
        None => rest,
    }
}

/// How many frames an animation has: at least one.
pub open spec fn frame_total(video: Video, options: AnimationOptions) -> nat {
    let n = length_of(video, options).times(Real64::of(options.fps as nat)).minus(
        Real64 { bits: MICRO },
    ).ceiled(u64::MAX as nat);
    if n < 1 {
        1
    } else {
        n
    }
}

/// Why a video cannot be exported as an animation, if anything.
pub open spec fn animation_fault(
    video: Video,
    format: AnimationFormat,
    config: Config,
    options: AnimationOptions,
) -> Option<AnimationError> {
    if let Some(e) = options.fault(format) {
        Some(e)
    } else if !options.start.below(video.duration) {
        Some(AnimationError::Late)
    } else if let Some(e) = config.fault_for(video.size) {
        Some(AnimationError::Config(e))
    } else {
        None
    }
}

impl<'a> AnimationPlan<'a> {
    /// Whether a plan is that of exporting `video` as `format`.
    pub open spec fn is_plan(
        self,
        video: Video,
        format: AnimationFormat,
        config: Config,
        options: AnimationOptions,
        decayed: Seq<Real32>,
    ) -> bool {
        &&& *self.video == video
        &&& *self.options == options
        &&& self.format == format
        &&& self.size == canvas_size(video, config, options)
        &&& self.rate.text@ == crate::text::decimal(options.fps as nat) + "/1"@
        &&& self.rate.fps == Real64::of(options.fps as nat)
        &&& self.render.output@ == Config::size_text(self.size)
        &&& crate::media::plan::is_timed(
            self.render,
            Config { output: self.render.output, ..config },
            options.timing,
            decayed,
        )
    }

    pub fn new(
        video: &'a Video,
        format: AnimationFormat,
        config: &Config,
        options: &'a AnimationOptions,
        decayed: [Real32; 3],
    ) -> (r: Result<Self, AnimationError>)
        ensures
            match animation_fault(*video, format, *config, *options) {
                Some(e) => r == Err::<Self, AnimationError>(e),
                None => r matches Ok(plan) && plan.is_plan(
                    *video,
                    format,
                    *config,
                    *options,
                    decayed@,
                ),
            },
    {
        match options.validate(format) {
            Ok(()) => {},
            Err(e) => {
                return Err(e);
            },
        }
        if !options.start.less(video.duration) {
            return Err(AnimationError::Late);
        }
        let canvas: Config = match config.with_max_output_side(
            video.size,
            Some(options.max_side),
        ) {
            Ok(canvas) => canvas,
            Err(e) => {
                return Err(AnimationError::Config(e));
            },
        };
        proof {
            crate::crt::canvas::a_scaled_look_renders(
                *config,
                canvas,
                video.size,
                Some(options.max_side),
            );
        }
        let size: (u32, u32) = match canvas.output_size(video.size) {
            Ok(size) => size,
            Err(e) => {
                return Err(AnimationError::Size(e));
            },
        };
        let rate: Rate = Rate {
            text: join(decimal_text(options.fps as u64).as_str(), "/1"),
            fps: Real64::from_integer(options.fps as u64),
        };
        let render: Config = render_config(&canvas, options.timing, decayed);
        Ok(Self { video, options, format, render, size, rate })
    }

    /// How long the animation is, in seconds.
    pub fn length(&self) -> (r: Real64)
        ensures
            r == length_of(*self.video, *self.options),
    {
        let rest: Real64 = self.video.duration.sub(self.options.start);
        match self.options.max_seconds {
            Some(limit) => rest.min(limit),
            None => rest,
        }
    }

    pub fn frame_count(&self) -> (r: u64)
        requires
            self.rate.fps == Real64::of(self.options.fps as nat),
        ensures
            r == frame_total(*self.video, *self.options),
    {
        let n: u64 = self.length().mul(self.rate.fps).sub(Real64 { bits: MICRO }).ceil(u64::MAX);
        if n < 1 {
            1
        } else {
            n
        }
    }

    /// What the encoder writes first: a lossless file for a GIF, which its palette is chosen
    /// from; a WebP is written directly.
    pub fn intermediate(&self) -> (r: Option<&'static str>)
        ensures
            match r {
                Some(extension) => self.format == AnimationFormat::Gif && extension@ == "mkv"@,
                None => self.format == AnimationFormat::Webp,
            },
    {
        match self.format {
            AnimationFormat::Gif => Some("mkv"),
            AnimationFormat::Webp => None,
        }
    }

    pub open spec fn encoder_args(self, encoded: Seq<char>) -> Seq<crate::media::args::Said> {
        crate::media::args::ffmpeg_start() + crate::media::args::texts(
            seq![
                "-y"@,
                "-f"@,
                "rawvideo"@,
                "-pix_fmt"@,
                "rgba"@,
                "-s"@,
                Config::size_text(self.size),
                "-r"@,
                self.rate.text@,
                "-i"@,
                "pipe:0"@,
                "-an"@,
            ],
        ) + (match self.format {
            AnimationFormat::Gif => crate::media::args::texts(
                seq!["-c:v"@, "ffv1"@, "-pix_fmt"@, "bgr0"@, encoded],
            ),
            AnimationFormat::Webp => crate::media::args::texts(
                seq![
                    "-c:v"@,
                    "libwebp_anim"@,
                    "-lossless"@,
                    if self.options.lossless {
                        "1"@
                    } else {
                        "0"@
                    },
                    "-quality"@,
                    crate::text::decimal(self.options.quality as nat),
                    "-pix_fmt"@,
                    if self.options.lossless {
                        "bgra"@
                    } else {
                        "yuv420p"@
                    },
                    "-loop"@,
                    "0"@,
                    "-f"@,
                    "webp"@,
                    encoded,
                ],
            ),
        })
    }

    /// The encoder: rendered frames in as raw RGBA at the plan's rate.
    pub fn encoder(&self, encoded: &str) -> (r: Args)
        ensures
            r@ == self.encoder_args(encoded@),
    {
        let mut cmd: Args = Args::ffmpeg();
        let size: String = size_text(self.size);
        cmd.add(
            [
                "-y",
                "-f",
                "rawvideo",
                "-pix_fmt",
                "rgba",
                "-s",
                size.as_str(),
                "-r",
                self.rate.text.as_str(),
                "-i",
                "pipe:0",
                "-an",
            ],
        );
        match self.format {
            // Lossless, so the palette is chosen from the frames exactly as rendered.
            AnimationFormat::Gif => {
                cmd.add(["-c:v", "ffv1", "-pix_fmt", "bgr0", encoded]);
            },
            AnimationFormat::Webp => {
                let quality: String = decimal_text(self.options.quality as u64);
                // Lossy WebP is YUV 4:2:0 in any case; lossless keeps RGB.
                let (lossless, pixels): (&str, &str) = if self.options.lossless {
                    ("1", "bgra")
                } else {
                    ("0", "yuv420p")
                };
                cmd.add(
                    [
                        "-c:v",
                        "libwebp_anim",
                        "-lossless",
                        lossless,
                        "-quality",
                        quality.as_str(),
                        "-pix_fmt",
                        pixels,
                        "-loop",
                        "0",
                        "-f",
                        "webp",
                        encoded,
                    ],
                );
            },
        }
        cmd
    }

    pub open spec fn dither_text(self) -> Seq<char> {
        match self.options.dither {
            Dither::Bayer => "bayer:bayer_scale=3"@,
            Dither::Diffusion => "sierra2_4a"@,
            Dither::Off => "none"@,
        }
    }

    /// What is left to do once the frames are encoded: for a GIF, to choose its palette into
    /// `palette` and to write it; nothing for a WebP.
    pub fn finishing(&self, encoded: &str, palette: &str, destination: &str) -> (r: Vec<
        (&'static str, Args),
    >)
        ensures
            self.format == AnimationFormat::Webp ==> r@.len() == 0,
            self.format == AnimationFormat::Gif ==> {
                &&& r@.len() == 2
                &&& r@[0].0@ == "Choosing the GIF's 256 colors"@
                &&& r@[0].1@ == crate::media::args::ffmpeg_start() + crate::media::args::texts(
                    seq![
                        "-y"@,
                        "-i"@,
                        encoded@,
                        "-vf"@,
                        "palettegen"@,
                        "-frames:v"@,
                        "1"@,
                        "-update"@,
                        "1"@,
                        palette@,
                    ],
                )
                &&& r@[1].0@ == "Writing the GIF"@
                &&& r@[1].1@ == crate::media::args::ffmpeg_start() + crate::media::args::texts(
                    seq![
                        "-y"@,
                        "-i"@,
                        encoded@,
                        "-i"@,
                        palette@,
                        "-lavfi"@,
                        "[0:v][1:v]paletteuse=dither="@ + self.dither_text()
                            + ":diff_mode=rectangle"@,
                        "-loop"@,
                        "0"@,
                        "-f"@,
                        "gif"@,
                        destination@,
                    ],
                )
            },
    {
        let mut steps: Vec<(&'static str, Args)> = Vec::new();
        if self.format == AnimationFormat::Webp {
            return steps;
        }
        let mut choose_palette: Args = Args::ffmpeg();
        choose_palette.add(
            [
                "-y",
                "-i",
                encoded,
                "-vf",
                "palettegen",
                "-frames:v",
                "1",
                "-update",
                "1",
                palette,
            ],
        );
        let dither: &str = match self.options.dither {
            Dither::Bayer => "bayer:bayer_scale=3",
            Dither::Diffusion => "sierra2_4a",
            Dither::Off => "none",
        };
        // Only what changed from the previous frame is dithered again, so still areas stay the
        // same and the GIF encoder can skip them.
        let filter: String = join3(
            "[0:v][1:v]paletteuse=dither=",
            dither,
            ":diff_mode=rectangle",
        );
        let mut write: Args = Args::ffmpeg();
        write.add(
            [
                "-y",
                "-i",
                encoded,
                "-i",
                palette,
                "-lavfi",
                filter.as_str(),
                "-loop",
                "0",
                "-f",
                "gif",
                destination,
            ],
        );
        steps.push(("Choosing the GIF's 256 colors", choose_palette));
        steps.push(("Writing the GIF", write));
        steps
    }
}

/// The frames that are piped to an animation's encoder are what it is told they are: red, green,
/// blue and alpha, a byte each, as pictures hold them, at the plan's size and rate.
pub proof fn piped_frames_are_rgba<'a>(plan: AnimationPlan<'a>, encoded: Seq<char>)
    ensures
        crate::media::args::reads_frames(
            plan.encoder_args(encoded),
            "rgba"@,
            Config::size_text(plan.size),
            plan.rate.text@,
        ),
{
    let args = plan.encoder_args(encoded);
    assert(args.take(14) =~= crate::media::args::ffmpeg_start() + crate::media::args::texts(
        seq![
            "-y"@,
            "-f"@,
            "rawvideo"@,
            "-pix_fmt"@,
            "rgba"@,
            "-s"@,
            Config::size_text(plan.size),
            "-r"@,
            plan.rate.text@,
            "-i"@,
            "pipe:0"@,
        ],
    ));
    crate::media::args::lemma_reads_frames(args, Config::size_text(plan.size), plan.rate.text@);
}

/// A GIF's frames are kept without loss until its palette is chosen; a WebP is written at once, as
/// exactly as the options ask, and plays over and over.
pub proof fn animations_lose_no_more_than_asked<'a>(plan: AnimationPlan<'a>, encoded: Seq<char>)
    ensures
        plan.encoder_args(encoded).last() == crate::media::args::Said::Text(encoded),
        plan.format == AnimationFormat::Gif ==> crate::media::args::told(
            plan.encoder_args(encoded),
            "-c:v"@,
            crate::media::args::Said::Text("ffv1"@),
        ),
        plan.format == AnimationFormat::Gif ==> crate::media::args::told(
            plan.encoder_args(encoded),
            "-pix_fmt"@,
            crate::media::args::Said::Text("bgr0"@),
        ),
        plan.format == AnimationFormat::Webp ==> crate::media::args::told(
            plan.encoder_args(encoded),
            "-c:v"@,
            crate::media::args::Said::Text("libwebp_anim"@),
        ),
        plan.format == AnimationFormat::Webp && plan.options.lossless ==> crate::media::args::told(
            plan.encoder_args(encoded),
            "-lossless"@,
            crate::media::args::Said::Text("1"@),
        ) && crate::media::args::told(
            plan.encoder_args(encoded),
            "-pix_fmt"@,
            crate::media::args::Said::Text("bgra"@),
        ),
        plan.format == AnimationFormat::Webp && !plan.options.lossless ==> crate::media::args::told(
            plan.encoder_args(encoded),
            "-lossless"@,
            crate::media::args::Said::Text("0"@),
        ) && crate::media::args::told(
            plan.encoder_args(encoded),
            "-pix_fmt"@,
            crate::media::args::Said::Text("yuv420p"@),
        ),
        plan.format == AnimationFormat::Webp ==> crate::media::args::told(
            plan.encoder_args(encoded),
            "-quality"@,
            crate::media::args::Said::Text(crate::text::decimal(plan.options.quality as nat)),
        ),
        plan.format == AnimationFormat::Webp ==> crate::media::args::told(
            plan.encoder_args(encoded),
            "-loop"@,
            crate::media::args::Said::Text("0"@),
        ),
{
    let args = plan.encoder_args(encoded);
    assert(args[15] == crate::media::args::Said::Text("-c:v"@));
    assert(args[17] == crate::media::args::Said::Text(
        if plan.format == AnimationFormat::Gif {
            "-pix_fmt"@
        } else {
            "-lossless"@
        },
    ));
    if plan.format == AnimationFormat::Webp {
        assert(args[19] == crate::media::args::Said::Text("-quality"@));
        assert(args[21] == crate::media::args::Said::Text("-pix_fmt"@));
        assert(args[23] == crate::media::args::Said::Text("-loop"@));
    }
}

/// An animation is as long as what is left of the video, and no longer than its limit.
pub proof fn animations_keep_to_their_limit(video: Video, options: AnimationOptions)
    requires
        video.duration.minus(options.start).finite(),
        options.max_seconds matches Some(limit) ==> limit.finite(),
    ensures
        length_of(video, options).up_to(video.duration.minus(options.start)),
        options.max_seconds matches Some(limit) ==> length_of(video, options).up_to(limit),
        options.max_seconds is None ==> length_of(video, options) == video.duration.minus(
            options.start,
        ),
{
    reveal(Real64::finite);
    reveal(Real64::up_to);
    reveal(Real64::below);
    let f = crate::float::Format::Double;
    let rest = video.duration.minus(options.start);
    crate::float::order_follows_value(f, rest.at(), rest.at());
    if let Some(limit) = options.max_seconds {
        crate::float::order_follows_value(f, limit.at(), rest.at());
        crate::float::order_follows_value(f, rest.at(), limit.at());
        crate::float::order_follows_value(f, limit.at(), limit.at());
    }
}

/// An animation has a frame for every tick of its rate that its length begins, and at least one:
/// their number is its length times its rate, rounded up but for a sliver of a tick.
pub proof fn animations_have_a_frame_a_tick(video: Video, options: AnimationOptions)
    requires
        length_of(video, options).finite(),
        0 <= crate::margin::double_worth(length_of(video, options)) <= 0x10_0000
            * crate::margin::unit(),
        length_of(video, options).bits < 0x8000_0000_0000_0000,
        options.fps <= 255,
    ensures
        ({
            let n = frame_total(video, options);
            let u = crate::margin::unit();
            let exact = crate::margin::double_worth(length_of(video, options)) * options.fps;
            &&& n >= 1
            &&& 0x2_0000 * exact <= 0x2_0000 * (n * u) + u
            &&& n == 1 || 0x2_0000 * ((n - 1) * u) < 0x2_0000 * exact + u
        }),
{
    reveal(Real64::finite);
    reveal(Real64::times);
    reveal(Real64::minus);
    reveal(Real64::truncated);
    reveal(Real64::below);
    let f = crate::float::Format::Double;
    let length = length_of(video, options);
    let rate = options.fps as nat;
    crate::margin::whole_numbers_are_exact(rate);
    crate::margin::lemma_units();
    vstd::arithmetic::power2::lemma2_to64();
    vstd::arithmetic::power2::lemma2_to64_rest();
    crate::float::lemma_unit_pow_adds(-26, 26);
    crate::float::lemma_unit_pow_adds(0, 28);
    crate::float::lemma_unit_pow_adds(-72, 53);
    crate::float::lemma_unit_pow_adds(-19, 19);
    let u = crate::margin::unit();
    let e = crate::float::unit_pow(-26) as int;
    let big = crate::float::unit_pow(28) as int;
    let tiny = crate::float::unit_pow(-72) as int;
    assert(e * 0x400_0000 == 0x400_0000 * e && u * 0x1000_0000 == 0x1000_0000 * u && tiny
        * 0x20_0000_0000_0000 == 0x20_0000_0000_0000 * tiny) by (nonlinear_arith);
    let micro = Real64 { bits: MICRO };
    let m = f.value(micro.at());
    assert(f.significand(micro.at()) == 0x10_C6F7_A0B5_ED8D);
    assert(f.exponent(micro.at()) == -72);
    assert(0 <= m && 0x8_0000 * m <= u) by {
        assert(m == 0x10_C6F7_A0B5_ED8D * tiny);
        let sliver = crate::float::unit_pow(-19) as int;
        assert(sliver * 0x8_0000 == 0x8_0000 * sliver) by (nonlinear_arith);
        assert(m <= sliver);
    }
    let l = f.value(length.at());
    let r = rate as int;
    let lr = l * r;
    assert(l * (r * u) == lr * u && 0 <= lr <= 0xff0_0000 * u) by (nonlinear_arith)
        requires
            lr == l * r,
            0 <= l <= 0x10_0000 * u,
            0 <= r <= 255,
            u > 0,
    ;
    assert(-(big * u) < lr * u < big * u) by (nonlinear_arith)
        requires
            0 <= lr <= 0xff0_0000 * u,
            big == 0x1000_0000 * u,
            u > 0,
    ;
    crate::margin::products_are_close(f, length.at(), f.of(rate), 28);
    let product = length.times(Real64::of(rate));
    let p = f.value(product.at());
    assert(crate::margin::within(p, lr, e)) by (nonlinear_arith)
        requires
            p * u - lr * u <= e * u,
            lr * u - p * u <= e * u,
            u > 0,
    ;
    crate::margin::differences_are_close(f, product.at(), micro.at(), 28);
    let ticks = product.minus(micro);
    let v = f.value(ticks.at());
    assert(crate::margin::within(v, p - m, e));
    let whole = ticks.truncated(u64::MAX as nat);
    let w = whole as int;
    let n = ticks.ceiled(u64::MAX as nat);
    assert(n == 0 && v <= 0 || (n - 1) * u < v <= n * u) by {
        if f.negative(ticks.at()) {
            assert(w == 0);
            crate::margin::whole_numbers_are_exact(0);
            crate::float::order_follows_value(f, f.of(0), ticks.at());
        } else {
            let q = v / u;
            assert(q * u <= v < q * u + u && 0 <= q < 0x2000_0000) by (nonlinear_arith)
                requires
                    q == v / u,
                    0 <= v < 0x1000_0001 * u,
                    u > 0,
            ;
            assert(w == q);
            crate::margin::whole_numbers_are_exact(whole);
            crate::float::order_follows_value(f, f.of(whole), ticks.at());
            let up = (q + 1) * u;
            assert(up == q * u + u && (q - 1) * u == q * u - u) by (nonlinear_arith)
                requires
                    up == (q + 1) * u,
            ;
        }
    }
    let total = frame_total(video, options) as int;
    assert(total == 1 ==> total * u == u) by (nonlinear_arith);
    assert(0x2_0000 * e <= u && 0x2_0000 * m <= u);
}

} // verus!
