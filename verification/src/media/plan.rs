//! What an export tells FFmpeg, worked out before any process starts, so it can be checked
//! without FFmpeg installed.
use crate::crt::config::{Config, ConfigError, Phase, SizeError};
use crate::media::args::{Arg, Args};
use crate::media::kind::Container;
use crate::media::options::{
    Audio, Encoder, EncodingSpeed, Options, OptionsError, Quality, Timing,
};
use crate::media::probe::{Source, Track, TrackKind, Video};
use crate::number::{Real32, Real64};
use crate::text::{alike_text, begins_with, chars_of, decimal_text, join, join3, owned};
use vstd::prelude::*;

verus! {

/// Largest metadata an export writes, in bytes.
pub const METADATA_LIMIT: usize = 16_777_216;

/// What starts a comment that holds a preset.
pub open spec fn preset_prefix() -> Seq<char> {
    "CRTSim-Renderer-Preset:"@
}

// -------------------------------------------------------------------------------------------
// Rates and looks
// -------------------------------------------------------------------------------------------

/// The rate frames are rendered and encoded at.
#[derive(Clone, Debug, PartialEq, Eq)]
pub struct Rate {
    /// As FFmpeg is told it: exact, such as 30000/1001.
    pub text: String,
    pub fps: Real64,
}

impl Rate {
    /// The source's own rate, or 60 per second for NTSC timing.
    pub fn of(video: &Video, options: &Options) -> (r: Self)
        ensures
            options.timing == Timing::Ntsc60 ==> r.text@ == "60/1"@ && r.fps == Real64::of(60),
            options.timing != Timing::Ntsc60 ==> r.text@ == video.rate@ && r.fps == video.fps,
    {
        if options.timing == Timing::Ntsc60 {
            Self { text: owned("60/1"), fps: Real64::from_integer(60) }
        } else {
            Self { text: owned(video.rate.as_str()), fps: video.fps }
        }
    }
}

/// How long the phosphor glows under a timing: as long in media time as the look says, which
/// is `decayed` of a frame at the export's rate; as it is, for 60 frames per second; or not at
/// all.
pub open spec fn timed_persistence(
    timing: Timing,
    persistence: Seq<Real32>,
    decayed: Seq<Real32>,
) -> Seq<Real32> {
    match timing {
        Timing::Stable => decayed,
        Timing::Ntsc60 => persistence,
        Timing::Disabled => seq![Real32 { bits: 0 }, Real32 { bits: 0 }, Real32 { bits: 0 }],
    }
}

pub open spec fn timed_phase(timing: Timing) -> Phase {
    match timing {
        Timing::Ntsc60 => Phase::Alternating,
        _ => Phase::Stable,
    }
}

/// Whether a look is another adjusted for the timing of an export.
pub open spec fn is_timed(r: Config, config: Config, timing: Timing, decayed: Seq<Real32>) -> bool {
    &&& r.persistence@ == timed_persistence(timing, config.persistence@, decayed)
    &&& r.alike(
        Config {
            phase: timed_phase(timing),
            warmup: if timing == Timing::Disabled {
                0
            } else {
                config.warmup
            },
            persistence: r.persistence,
            ..config
        },
    )
}

/// The look frames are rendered with under a timing. `decayed` is what each persistence weight
/// comes to over one frame of the export: the weight to the power 60 / fps.
pub fn render_config(config: &Config, timing: Timing, decayed: [Real32; 3]) -> (r: Config)
    ensures
        is_timed(r, *config, timing, decayed@),
{
    let mut c: Config = config.copy();
    match timing {
        Timing::Stable => {
            c.phase = Phase::Stable;
            c.persistence = decayed;
        },
        Timing::Ntsc60 => {
            c.phase = Phase::Alternating;
        },
        Timing::Disabled => {
            c.phase = Phase::Stable;
            c.persistence = [Real32 { bits: 0 }, Real32 { bits: 0 }, Real32 { bits: 0 }];
            c.warmup = 0;
        },
    }
    c
}

// -------------------------------------------------------------------------------------------
// Plans
// -------------------------------------------------------------------------------------------

/// Why a video cannot be exported.
#[derive(Clone, Copy, Debug, PartialEq, Eq, Structural)]
pub enum PlanError {
    Options(OptionsError),
    Config(ConfigError),
    Size(SizeError),
    /// An odd width or height.
    Odd,
    /// A name that no container goes by.
    Container,
}

impl PlanError {
    pub open spec fn text(self) -> Option<Seq<char>> {
        match self {
            PlanError::Options(e) => Some(e.text()),
            PlanError::Odd => Some(
                "Video output width and height must be even (for example 1920×1080)"@,
            ),
            PlanError::Container => Some("Choose an MP4, MKV or WebM filename"@),
            _ => None,
        }
    }

    /// What to tell the user; none where the settings or a size say it themselves.
    pub fn message(&self) -> (r: Option<&'static str>)
        ensures
            match r {
                Some(text) => self.text() == Some(text@),
                None => self.text() is None,
            },
    {
        match self {
            PlanError::Options(e) => Some(e.message()),
            PlanError::Odd => Some(
                "Video output width and height must be even (for example 1920×1080)",
            ),
            PlanError::Container => Some("Choose an MP4, MKV or WebM filename"),
            _ => None,
        }
    }
}

pub struct ExportPlan<'a> {
    pub video: &'a Video,
    pub options: &'a Options,
    /// The settings as chosen, which the file records.
    pub config: &'a Config,
    /// The same settings adjusted for the timing, which frames are rendered with.
    pub render: Config,
    pub container: Container,
    pub codec: &'static str,
    pub size: (u32, u32),
    pub rate: Rate,
}

/// Why a video of a size cannot be exported to a file, if anything.
pub open spec fn plan_fault(
    size: (u32, u32),
    output: Seq<char>,
    config: Config,
    options: Options,
) -> Option<PlanError> {
    if let Some(e) = options.fault() {
        Some(PlanError::Options(e))
    } else if let Some(e) = config.fault() {
        Some(PlanError::Config(e))
    } else if let Err(e) = config.signal_of(size) {
        Some(PlanError::Size(e))
    } else {
        match config.output_of(size) {
            Err(e) => Some(PlanError::Size(e)),
            Ok((w, h)) => if w % 2 != 0 || h % 2 != 0 {
                Some(PlanError::Odd)
            } else {
                match Container::named(output) {
                    None => Some(PlanError::Container),
                    Some(container) => if container == Container::Webm && options.encoder
                        != Encoder::Software {
                        Some(PlanError::Options(OptionsError::HardwareWebm))
                    } else {
                        None
                    },
                }
            },
        }
    }
}

/// The hardware target a quality has for 1080p at 30 frames per second, in megabits per second.
pub open spec fn quality_mbps(quality: Quality) -> nat {
    match quality {
        Quality::Draft => 6,
        Quality::Balanced => 12,
        Quality::High => 24,
        Quality::Archival => 40,
    }
}

/// A number kept within two others.
pub open spec fn clamped(n: Real64, low: Real64, high: Real64) -> Real64 {
    if n.below(low) {
        low
    } else if high.below(n) {
        high
    } else {
        n
    }
}

impl<'a> ExportPlan<'a> {
    /// Whether a plan is that of exporting `video` to `output`.
    pub open spec fn is_plan(
        self,
        video: Video,
        output: Seq<char>,
        config: Config,
        options: Options,
        decayed: Seq<Real32>,
    ) -> bool {
        &&& *self.video == video
        &&& *self.options == options
        &&& *self.config == config
        &&& Some(self.container) == Container::named(output)
        &&& config.output_of(video.size) == Ok::<(u32, u32), SizeError>(self.size)
        &&& self.codec@ == options.encoder.codec_text(self.container)
        &&& is_timed(self.render, config, options.timing, decayed)
        &&& options.timing == Timing::Ntsc60 ==> self.rate.text@ == "60/1"@ && self.rate.fps
            == Real64::of(60)
        &&& options.timing != Timing::Ntsc60 ==> self.rate.text@ == video.rate@ && self.rate.fps
            == video.fps
    }

    /// Checks that `video` can be exported to `output` with these settings.
    pub fn new(
        video: &'a Video,
        output: &str,
        config: &'a Config,
        options: &'a Options,
        decayed: [Real32; 3],
    ) -> (r: Result<Self, PlanError>)
        ensures
            match plan_fault(video.size, output@, *config, *options) {
                Some(e) => r == Err::<Self, PlanError>(e),
                None => r matches Ok(plan) && plan.is_plan(
                    *video,
                    output@,
                    *config,
                    *options,
                    decayed@,
                ),
            },
    {
        match options.validate() {
            Ok(()) => {},
            Err(e) => {
                return Err(PlanError::Options(e));
            },
        }
        match config.validate() {
            Ok(()) => {},
            Err(e) => {
                return Err(PlanError::Config(e));
            },
        }
        match config.signal_size(video.size) {
            Ok(_) => {},
            Err(e) => {
                return Err(PlanError::Size(e));
            },
        }
        let size: (u32, u32) = match config.output_size(video.size) {
            Ok(size) => size,
            Err(e) => {
                return Err(PlanError::Size(e));
            },
        };
        if size.0 % 2 != 0 || size.1 % 2 != 0 {
            return Err(PlanError::Odd);
        }
        let container: Container = match Container::of(output) {
            Some(container) => container,
            None => {
                return Err(PlanError::Container);
            },
        };
        let codec: &'static str = match options.encoder.codec(container) {
            Ok(codec) => codec,
            Err(e) => {
                return Err(PlanError::Options(e));
            },
        };
        let rate: Rate = Rate::of(video, options);
        let render: Config = render_config(config, options.timing, decayed);
        Ok(Self { video, options, config, render, container, codec, size, rate })
    }

    /// How long `frames` frames last.
    pub fn duration(&self, frames: u64) -> (r: Real64)
        ensures
            r == Real64::of(frames as nat).over(self.rate.fps),
    {
        Real64::from_integer(frames).div(self.rate.fps)
    }

    // ---------------------------------------------------------------------------------------
    // Encoding
    // ---------------------------------------------------------------------------------------

    /// A hardware encoder's target: the one asked for, or else the quality's rate for 1080p at
    /// 30 frames per second, scaled to this size and rate.
    pub open spec fn target_mbps(self) -> Real64 {
        match self.options.bitrate_mbps {
            Some(mbps) => Real64::of(mbps as nat),
            None => clamped(
                Real64::of(quality_mbps(self.options.quality)).times(
                    Real64::of(self.size.0 as nat).times(Real64::of(self.size.1 as nat)).over(
                        Real64::of(2073600),
                    ),
                ).times(self.rate.fps.over(Real64::of(30))),
                Real64::of(2),
                Real64::of(200),
            ),
        }
    }

    pub fn bitrate_mbps(&self) -> (r: Real64)
        ensures
            r == self.target_mbps(),
    {
        match self.options.bitrate_mbps {
            Some(mbps) => Real64::from_integer(mbps as u64),
            None => {
                let mbps: u64 = match self.options.quality {
                    Quality::Draft => 6,
                    Quality::Balanced => 12,
                    Quality::High => 24,
                    Quality::Archival => 40,
                };
                let area: Real64 = Real64::from_integer(self.size.0 as u64).mul(
                    Real64::from_integer(self.size.1 as u64),
                ).div(Real64::from_integer(2073600));
                let automatic: Real64 = Real64::from_integer(mbps).mul(area).mul(
                    self.rate.fps.div(Real64::from_integer(30)),
                );
                let low: Real64 = Real64::from_integer(2);
                let high: Real64 = Real64::from_integer(200);
                if automatic.less(low) {
                    low
                } else if high.less(automatic) {
                    high
                } else {
                    automatic
                }
            },
        }
    }

    /// How the encoder trades size for quality: a target bitrate for hardware, a constant
    /// quality for software.
    pub open spec fn rate_control_args(self) -> Seq<crate::media::args::Said> {
        let options = *self.options;
        let crf = crate::text::decimal(options.crf_for(self.container) as nat);
        if options.encoder != Encoder::Software {
            let kbps = self.target_mbps().times(Real64::of(1000)).rounded(u32::MAX as nat);
            crate::media::args::texts(seq!["-b:v"@, crate::text::decimal(kbps) + "k"@])
        } else if self.container == Container::Webm {
            let cpu_used = match options.speed {
                Some(EncodingSpeed::Fast) => "8"@,
                Some(EncodingSpeed::Slow) => "1"@,
                _ => "4"@,
            };
            crate::media::args::texts(
                seq!["-crf"@, crf, "-b:v"@, "0"@, "-deadline"@, "good"@, "-cpu-used"@, cpu_used],
            )
        } else {
            let preset = match options.speed {
                Some(EncodingSpeed::Fast) => "veryfast"@,
                Some(EncodingSpeed::Balanced) => "medium"@,
                Some(EncodingSpeed::Slow) => "slow"@,
                None => if options.quality == Quality::Draft {
                    "veryfast"@
                } else {
                    "medium"@
                },
            };
            crate::media::args::texts(seq!["-crf"@, crf, "-preset"@, preset])
        }
    }

    fn rate_control(&self, cmd: &mut Args)
        ensures
            final(cmd)@ == old(cmd)@ + self.rate_control_args(),
    {
        let options: &Options = self.options;
        if options.encoder != Encoder::Software {
            let kbps: u64 = self.bitrate_mbps().mul(Real64::from_integer(1000)).round(
                u32::MAX as u64,
            );
            let text: String = join(decimal_text(kbps).as_str(), "k");
            cmd.add(["-b:v", text.as_str()]);
            return ;
        }
        let crf: String = decimal_text(options.effective_crf(self.container) as u64);
        if self.container == Container::Webm {
            let cpu_used: &str = match options.speed {
                Some(EncodingSpeed::Fast) => "8",
                Some(EncodingSpeed::Slow) => "1",
                _ => "4",
            };
            cmd.add(
                ["-crf", crf.as_str(), "-b:v", "0", "-deadline", "good", "-cpu-used", cpu_used],
            );
        } else {
            let preset: &str = match options.speed {
                Some(EncodingSpeed::Fast) => "veryfast",
                Some(EncodingSpeed::Balanced) => "medium",
                Some(EncodingSpeed::Slow) => "slow",
                None => if options.quality == Quality::Draft {
                    "veryfast"
                } else {
                    "medium"
                },
            };
            cmd.add(["-crf", crf.as_str(), "-preset", preset]);
        }
    }

    pub open spec fn encode_args(self, silent: Seq<char>) -> Seq<crate::media::args::Said> {
        crate::media::args::ffmpeg_start() + crate::media::args::texts(
            seq![
                "-y"@,
                "-f"@,
                "rawvideo"@,
                "-pix_fmt"@,
                "rgba"@,
                "-s"@,
                Config::size_text(self.size),
                "-r"@,
                self.rate.text@,
                "-i"@,
                "pipe:0"@,
                "-an"@,
                "-c:v"@,
                self.codec@,
            ],
        ) + self.rate_control_args() + crate::media::args::texts(
            seq![
                "-vf"@,
                "scale=in_range=full:out_range=tv:in_color_matrix=bt709:out_color_matrix=bt709,format=yuv420p"@,
                "-color_primaries"@,
                "bt709"@,
                "-color_trc"@,
                "bt709"@,
                "-colorspace"@,
                "bt709"@,
                "-color_range"@,
                "tv"@,
                silent,
            ],
        )
    }

    /// The encoder: rendered frames in as raw RGBA, one compressed video stream out to
    /// `silent`.
    pub fn encode(&self, silent: &str) -> (r: Args)
        ensures
            r@ == self.encode_args(silent@),
    {
        let mut cmd: Args = Args::ffmpeg();
        let size: String = size_text(self.size);
        cmd.add(
            [
                "-y",
                "-f",
                "rawvideo",
                "-pix_fmt",
                "rgba",
                "-s",
                size.as_str(),
                "-r",
                self.rate.text.as_str(),
                "-i",
                "pipe:0",
                "-an",
                "-c:v",
                self.codec,
            ],
        );
        self.rate_control(&mut cmd);
        // Renderer bytes are full-range RGB with BT.709/sRGB primaries. Make the RGB-to-YUV
        // matrix and legal range explicit, then tag the encoded stream for consistent playback.
        cmd.add(
            [
                "-vf",
                "scale=in_range=full:out_range=tv:in_color_matrix=bt709:out_color_matrix=bt709,format=yuv420p",
                "-color_primaries",
                "bt709",
                "-color_trc",
                "bt709",
                "-colorspace",
                "bt709",
                "-color_range",
                "tv",
                silent,
            ],
        );
        cmd
    }
}

/// The frames that are piped to the encoder are what it is told they are: red, green, blue and
/// alpha, a byte each, as pictures hold them and as the decoder hands them over, at the plan's size
/// and rate.
pub proof fn piped_frames_are_rgba<'a>(
    plan: ExportPlan<'a>,
    silent: Seq<char>,
    fps: Seq<char>,
    time: Real64,
    limit: Option<Real64>,
)
    ensures
        crate::media::args::reads_frames(
            plan.encode_args(silent),
            "rgba"@,
            Config::size_text(plan.size),
            plan.rate.text@,
        ),
        crate::media::args::writes_frames(
            crate::media::decode::span_args(*plan.video, fps, time, limit),
            "rgba"@,
        ),
{
    let args = plan.encode_args(silent);
    assert(args.take(14) =~= crate::media::args::ffmpeg_start() + crate::media::args::texts(
        seq![
            "-y"@,
            "-f"@,
            "rawvideo"@,
            "-pix_fmt"@,
            "rgba"@,
            "-s"@,
            Config::size_text(plan.size),
            "-r"@,
            plan.rate.text@,
            "-i"@,
            "pipe:0"@,
        ],
    ));
    crate::media::args::lemma_reads_frames(args, Config::size_text(plan.size), plan.rate.text@);
    crate::media::decode::limited_decodes_are_rgba(*plan.video, fps, time, limit);
}

/// What is encoded is video alone, by the plan's codec, in the colors that it is tagged with, and
/// goes to the file that was asked for. Hardware is given a bitrate, software a quality.
pub proof fn encodes_are_tagged_as_they_are<'a>(plan: ExportPlan<'a>, silent: Seq<char>)
    ensures
        plan.encode_args(silent).last() == crate::media::args::Said::Text(silent),
        crate::media::args::told(
            plan.encode_args(silent),
            "-c:v"@,
            crate::media::args::Said::Text(plan.codec@),
        ),
        plan.encode_args(silent).contains(crate::media::args::Said::Text("-an"@)),
        crate::media::args::told(
            plan.encode_args(silent),
            "-vf"@,
            crate::media::args::Said::Text(
                "scale=in_range=full:out_range=tv:in_color_matrix=bt709:out_color_matrix=bt709,format=yuv420p"@,
            ),
        ),
        crate::media::args::told(
            plan.encode_args(silent),
            "-color_primaries"@,
            crate::media::args::Said::Text("bt709"@),
        ),
        crate::media::args::told(
            plan.encode_args(silent),
            "-color_trc"@,
            crate::media::args::Said::Text("bt709"@),
        ),
        crate::media::args::told(
            plan.encode_args(silent),
            "-colorspace"@,
            crate::media::args::Said::Text("bt709"@),
        ),
        crate::media::args::told(
            plan.encode_args(silent),
            "-color_range"@,
            crate::media::args::Said::Text("tv"@),
        ),
        plan.options.encoder == Encoder::Software ==> crate::media::args::told(
            plan.encode_args(silent),
            "-crf"@,
            crate::media::args::Said::Text(
                crate::text::decimal(plan.options.crf_for(plan.container) as nat),
            ),
        ),
        plan.options.encoder == Encoder::Software && plan.container == Container::Webm
            ==> crate::media::args::told(
            plan.encode_args(silent),
            "-b:v"@,
            crate::media::args::Said::Text("0"@),
        ),
        plan.options.encoder != Encoder::Software ==> crate::media::args::told(
            plan.encode_args(silent),
            "-b:v"@,
            crate::media::args::Said::Text(
                crate::text::decimal(
                    plan.target_mbps().times(Real64::of(1000)).rounded(u32::MAX as nat),
                ) + "k"@,
            ),
        ),
{
    let args = plan.encode_args(silent);
    let n = args.len() as int;
    assert(args[14] == crate::media::args::Said::Text("-an"@));
    assert(args[15] == crate::media::args::Said::Text("-c:v"@));
    assert(args[16] == crate::media::args::Said::Text(plan.codec@));
    assert(args[17] == plan.rate_control_args()[0]);
    assert(args[18] == plan.rate_control_args()[1]);
    if plan.options.encoder == Encoder::Software && plan.container == Container::Webm {
        assert(args[19] == plan.rate_control_args()[2]);
        assert(args[20] == plan.rate_control_args()[3]);
    }
    assert(args[n - 11] == crate::media::args::Said::Text("-vf"@));
    assert(args[n - 9] == crate::media::args::Said::Text("-color_primaries"@));
    assert(args[n - 7] == crate::media::args::Said::Text("-color_trc"@));
    assert(args[n - 5] == crate::media::args::Said::Text("-colorspace"@));
    assert(args[n - 3] == crate::media::args::Said::Text("-color_range"@));
}

// -------------------------------------------------------------------------------------------
// Muxing
// -------------------------------------------------------------------------------------------

/// The bits of 0.002.
pub const ALIGNED: u64 = 0x3F60_624D_D2F1_A9FC;

/// What moves an audio track to line up with the video: silence before one that starts after
/// it, and the start cut off one that starts before.
pub open spec fn line_up(offset: Real64) -> crate::media::args::Said {
    if Real64::of(0).up_to(offset) {
        crate::media::args::Said::Around(
            "asetpts=PTS-STARTPTS,adelay="@,
            offset.times(Real64::of(1000)).whole(),
            ":all=1"@,
        )
    } else {
        crate::media::args::Said::Around(
            "atrim=start="@,
            offset.negated(),
            ",asetpts=PTS-STARTPTS"@,
        )
    }
}

/// The filters of the first `n` audio tracks.
pub open spec fn audio_filters(tracks: Seq<Track>, n: nat) -> Seq<crate::media::args::Said>
    decreases n,
{
    if n == 0 {
        Seq::empty()
    } else {
        audio_filters(tracks, (n - 1) as nat).push(
            crate::media::args::Said::Text("-filter:a:"@ + crate::text::decimal((n - 1) as nat)),
        ).push(line_up(tracks[n - 1].offset))
    }
}

/// How many of some subtitle tracks a container can hold.
pub open spec fn held(tracks: Seq<Track>, container: Container) -> nat
    decreases tracks.len(),
{
    if tracks.len() == 0 {
        0
    } else if container.subtitle_codec_text(tracks.last().codec@) is Some {
        held(tracks.drop_last(), container) + 1
    } else {
        held(tracks.drop_last(), container)
    }
}

/// What keeps the subtitle tracks that a container can hold.
pub open spec fn subtitle_args(tracks: Seq<Track>, container: Container) -> Seq<
    crate::media::args::Said,
>
    decreases tracks.len(),
{
    if tracks.len() == 0 {
        Seq::empty()
    } else {
        let before = subtitle_args(tracks.drop_last(), container);
        match container.subtitle_codec_text(tracks.last().codec@) {
            Some(codec) => before + crate::media::args::texts(
                seq![
                    "-map"@,
                    "1:"@ + crate::text::decimal(tracks.last().index as nat),
                    "-c:s:"@ + crate::text::decimal(held(tracks.drop_last(), container)),
                    codec,
                ],
            ),
            None => before,
        }
    }
}

impl<'a> ExportPlan<'a> {
    /// Whether the source has tracks to read besides its frames. An animation has none, and
    /// FFmpeg may not read it at all.
    pub open spec fn has_source(self) -> bool {
        self.video.source is Ffmpeg
    }

    /// Whether to try copying the audio as it is before re-encoding it: only when asked to keep
    /// it where possible, and when no track has to be moved to line up with the video.
    pub open spec fn keeps_audio(self) -> bool {
        self.options.audio == Audio::Auto && forall|i: int|
            #![trigger self.video.tracks@[i]]
            0 <= i < self.video.tracks@.len() && self.video.tracks@[i].kind == TrackKind::Audio
                ==> self.video.tracks@[i].offset.absolute().below(Real64 { bits: ALIGNED })
    }

    pub fn copies_audio(&self) -> (r: bool)
        ensures
            r == self.keeps_audio(),
    {
        if self.options.audio != Audio::Auto {
            return false;
        }
        let tracks: &Vec<Track> = &self.video.tracks;
        let mut i: usize = 0;
        while i < tracks.len()
            invariant
                i <= tracks@.len(),
                *tracks == self.video.tracks,
                self.options.audio == Audio::Auto,
                forall|k: int|
                    #![trigger tracks@[k]]
                    0 <= k < i && tracks@[k].kind == TrackKind::Audio
                        ==> tracks@[k].offset.absolute().below(Real64 { bits: ALIGNED }),
            decreases tracks@.len() - i,
        {
            if tracks[i].kind == TrackKind::Audio && !tracks[i].offset.abs().less(
                Real64 { bits: ALIGNED },
            ) {
                assert(!self.video.tracks@[i as int].offset.absolute().below(
                    Real64 { bits: ALIGNED },
                ));
                return false;
            }
            i = i + 1;
        }
        true
    }

    pub open spec fn mux_audio(self, copy_audio: bool) -> Seq<crate::media::args::Said> {
        let all = self.options.preserve_streams;
        let tracks = crate::media::probe::of_kind(self.video.tracks@, TrackKind::Audio);
        if !self.video.audio || self.options.audio == Audio::Mute {
            Seq::empty()
        } else {
            crate::media::args::texts(
                seq![
                    "-map"@,
                    if all {
                        "1:a?"@
                    } else {
                        "1:a:0"@
                    },
                ],
            ) + if copy_audio {
                crate::media::args::texts(seq!["-c:a"@, "copy"@])
            } else {
                crate::media::args::texts(
                    seq!["-c:a"@, self.container.audio_codec_text(), "-b:a"@, "192k"@],
                ) + audio_filters(
                    tracks,
                    if all || tracks.len() == 0 {
                        tracks.len()
                    } else {
                        1
                    },
                )
            }
        }
    }

    pub open spec fn mux_others(self) -> Seq<crate::media::args::Said> {
        if self.options.preserve_streams && self.has_source() {
            subtitle_args(
                crate::media::probe::of_kind(self.video.tracks@, TrackKind::Subtitle),
                self.container,
            ) + (if self.container == Container::Mkv {
                crate::media::args::texts(seq!["-map"@, "1:t?"@, "-c:t"@, "copy"@])
            } else {
                Seq::empty()
            }) + crate::media::args::texts(seq!["-map_chapters"@, "1"@])
        } else {
            crate::media::args::texts(seq!["-map_chapters"@, "-1"@])
        }
    }

    pub open spec fn mux_inputs(self, silent: Seq<char>, metadata: Seq<char>) -> Seq<
        crate::media::args::Said,
    > {
        crate::media::args::ffmpeg_start() + crate::media::args::texts(
            seq!["-y"@, "-copyts"@, "-i"@, silent],
        ) + (if self.has_source() {
            seq![
                crate::media::args::Said::Text("-itsoffset"@),
                crate::media::args::Said::Number(self.video.start.negated()),
                crate::media::args::Said::Text("-i"@),
                crate::media::args::Said::Text(self.video.path@),
            ]
        } else {
            Seq::empty()
        }) + crate::media::args::texts(
            seq!["-f"@, "ffmetadata"@, "-i"@, metadata, "-map"@, "0:v:0"@, "-c:v"@, "copy"@],
        )
    }

    pub open spec fn mux_end(self, destination: Seq<char>, frames: nat) -> Seq<
        crate::media::args::Said,
    > {
        seq![
            crate::media::args::Said::Text("-t"@),
            crate::media::args::Said::Number(Real64::of(frames).over(self.rate.fps)),
            crate::media::args::Said::Text("-map_metadata"@),
            crate::media::args::Said::Text(
                if self.has_source() {
                    "2"@
                } else {
                    "1"@
                },
            ),
        ] + (if self.container == Container::Mp4 {
            crate::media::args::texts(seq!["-movflags"@, "+faststart+use_metadata_tags"@])
        } else {
            Seq::empty()
        }) + crate::media::args::texts(seq!["-f"@, self.container.format_text(), destination])
    }

    /// The muxer's arguments.
    pub open spec fn mux_args(
        self,
        silent: Seq<char>,
        metadata: Seq<char>,
        destination: Seq<char>,
        frames: nat,
        copy_audio: bool,
    ) -> Seq<crate::media::args::Said> {
        self.mux_inputs(silent, metadata) + self.mux_audio(copy_audio) + self.mux_others()
            + self.mux_end(destination, frames)
    }

    fn add_audio(&self, cmd: &mut Args, copy_audio: bool)
        ensures
            final(cmd)@ == old(cmd)@ + self.mux_audio(copy_audio),
    {
        let all: bool = self.options.preserve_streams;
        if !self.video.audio || self.options.audio == Audio::Mute {
            assert(cmd@ + Seq::<crate::media::args::Said>::empty() == cmd@);
            return ;
        }
        cmd.add(
            [
                "-map",
                if all {
                    "1:a?"
                } else {
                    "1:a:0"
                },
            ],
        );
        if copy_audio {
            cmd.add(["-c:a", "copy"]);
            return ;
        }
        cmd.add(["-c:a", self.container.audio_codec(), "-b:a", "192k"]);
        let tracks: Vec<&Track> = self.video.tracks_of(TrackKind::Audio);
        let ghost found = crate::media::probe::of_kind(self.video.tracks@, TrackKind::Audio);
        let kept: usize = if all || tracks.len() == 0 {
            tracks.len()
        } else {
            1
        };
        let ghost before = cmd@;
        let mut i: usize = 0;
        while i < kept
            invariant
                i <= kept <= tracks@.len(),
                tracks@.len() == found.len(),
                forall|k: int| 0 <= k < tracks@.len() ==> *#[trigger] tracks@[k] == found[k],
                cmd@ == before + audio_filters(found, i as nat),
            decreases kept - i,
        {
            let offset: Real64 = tracks[i].offset;
            assert(offset == found[i as int].offset);
            let flag: String = join("-filter:a:", decimal_text(i as u64).as_str());
            cmd.text(flag.as_str());
            if Real64::from_integer(0).at_most(offset) {
                cmd.push(
                    Arg::Around(
                        owned("asetpts=PTS-STARTPTS,adelay="),
                        offset.mul(Real64::from_integer(1000)).round_whole(),
                        owned(":all=1"),
                    ),
                );
            } else {
                cmd.push(
                    Arg::Around(
                        owned("atrim=start="),
                        offset.neg(),
                        owned(",asetpts=PTS-STARTPTS"),
                    ),
                );
            }
            i = i + 1;
        }
    }

    fn add_subtitles(&self, cmd: &mut Args)
        ensures
            final(cmd)@ == old(cmd)@ + subtitle_args(
                crate::media::probe::of_kind(self.video.tracks@, TrackKind::Subtitle),
                self.container,
            ),
    {
        let tracks: Vec<&Track> = self.video.tracks_of(TrackKind::Subtitle);
        let ghost found = crate::media::probe::of_kind(self.video.tracks@, TrackKind::Subtitle);
        let mut i: usize = 0;
        let mut count: u64 = 0;
        assert(found.take(0) == Seq::<Track>::empty());
        while i < tracks.len()
            invariant
                i <= tracks@.len(),
                tracks@.len() == found.len(),
                forall|k: int| 0 <= k < tracks@.len() ==> *#[trigger] tracks@[k] == found[k],
                count == held(found.take(i as int), self.container),
                count <= i,
                cmd@ == old(cmd)@ + subtitle_args(found.take(i as int), self.container),
            decreases tracks@.len() - i,
        {
            proof {
                assert(found.take(i as int + 1).drop_last() == found.take(i as int));
                assert(found.take(i as int + 1).last() == found[i as int]);
                assert(*tracks@[i as int] == found[i as int]);
            }
            match self.container.subtitle_codec(tracks[i].codec.as_str()) {
                Some(codec) => {
                    let from: String = join("1:", decimal_text(tracks[i].index).as_str());
                    let flag: String = join("-c:s:", decimal_text(count).as_str());
                    cmd.add(["-map", from.as_str(), flag.as_str(), codec]);
                    count = count + 1;
                },
                None => {},
            }
            i = i + 1;
        }
        assert(found.take(i as int) == found);
    }

    /// The muxer: the encoded video from `silent`, the source's audio and other tracks as the
    /// options keep them and the metadata file, cut to the `frames` encoded and written to
    /// `destination`. `copy_audio` keeps the audio as it is, which not every container
    /// accepts; otherwise it is re-encoded.
    pub fn mux(
        &self,
        silent: &str,
        metadata: &str,
        destination: &str,
        frames: u64,
        copy_audio: bool,
    ) -> (r: Args)
        ensures
            r@ == self.mux_args(silent@, metadata@, destination@, frames as nat, copy_audio),
    {
        let source: bool = match self.video.source {
            Source::Ffmpeg => true,
            _ => false,
        };
        let mut cmd: Args = Args::ffmpeg();
        cmd.add(["-y", "-copyts", "-i", silent]);
        if source {
            cmd.text("-itsoffset");
            cmd.number(self.video.start.neg());
            cmd.add(["-i", self.video.path.as_str()]);
        }
        cmd.add(["-f", "ffmetadata", "-i", metadata, "-map", "0:v:0", "-c:v", "copy"]);
        assert(cmd@ == self.mux_inputs(silent@, metadata@));
        self.add_audio(&mut cmd, copy_audio);
        let ghost before = cmd@;
        if self.options.preserve_streams && source {
            self.add_subtitles(&mut cmd);
            if self.container == Container::Mkv {
                cmd.add(["-map", "1:t?", "-c:t", "copy"]);
            }
            cmd.add(["-map_chapters", "1"]);
        } else {
            cmd.add(["-map_chapters", "-1"]);
        }
        assert(cmd@ == before + self.mux_others());
        let ghost before = cmd@;
        cmd.text("-t");
        cmd.number(self.duration(frames));
        cmd.add(
            [
                "-map_metadata",
                if source {
                    "2"
                } else {
                    "1"
                },
            ],
        );
        if self.container == Container::Mp4 {
            cmd.add(["-movflags", "+faststart+use_metadata_tags"]);
        }
        cmd.add(["-f", self.container.format(), destination]);
        assert(cmd@ == before + self.mux_end(destination@, frames as nat));
        cmd
    }

    /// The ways to finish a file, in the order to try them: copying the audio as it is when
    /// that can work, then re-encoding it.
    pub fn finishing(
        &self,
        silent: &str,
        metadata: &str,
        destination: &str,
        frames: u64,
    ) -> (r: Vec<Args>)
        ensures
            r@.len() == (if self.keeps_audio() {
                2int
            } else {
                1
            }),
            self.keeps_audio() ==> r@[0]@ == self.mux_args(
                silent@,
                metadata@,
                destination@,
                frames as nat,
                true,
            ),
            r@.last()@ == self.mux_args(
                silent@,
                metadata@,
                destination@,
                frames as nat,
                false,
            ),
    {
        let mut r: Vec<Args> = Vec::new();
        if self.copies_audio() {
            r.push(self.mux(silent, metadata, destination, frames, true));
        }
        r.push(self.mux(silent, metadata, destination, frames, false));
        r
    }

    /// A short encode that fails where a hardware encoder is not to be had; none for software.
    pub fn check(&self) -> (r: Option<Args>)
        ensures
            match r {
                Some(args) => self.options.encoder != Encoder::Software && args@
                    == crate::media::args::ffmpeg_start() + crate::media::args::texts(
                    seq![
                        "-f"@,
                        "lavfi"@,
                        "-i"@,
                        "color=size=128x128:rate=30"@,
                        "-frames:v"@,
                        "2"@,
                        "-c:v"@,
                        self.codec@,
                        "-f"@,
                        "null"@,
                        "-"@,
                    ],
                ),
                None => self.options.encoder == Encoder::Software,
            },
    {
        if self.options.encoder == Encoder::Software {
            return None;
        }
        let mut check: Args = Args::ffmpeg();
        check.add(
            [
                "-f",
                "lavfi",
                "-i",
                "color=size=128x128:rate=30",
                "-frames:v",
                "2",
                "-c:v",
                self.codec,
                "-f",
                "null",
                "-",
            ],
        );
        Some(check)
    }
}

/// A size as WIDTHxHEIGHT.
pub fn size_text(size: (u32, u32)) -> (r: String)
    ensures
        r@ == Config::size_text(size),
{
    let mut r: String = decimal_text(size.0 as u64);
    r.push('x');
    join(r.as_str(), decimal_text(size.1 as u64).as_str())
}

/// A command that stays what it is where another follows.
proof fn lemma_stays_told(
    head: Seq<crate::media::args::Said>,
    part: Seq<crate::media::args::Said>,
    rest: Seq<crate::media::args::Said>,
    i: int,
)
    requires
        0 <= i,
        i + 1 < part.len(),
        part[i] is Text,
    ensures
        crate::media::args::told(head + part + rest, part[i]->Text_0, part[i + 1]),
{
    let all = head + part + rest;
    assert(all[head.len() + i] == part[i]);
    assert(all[head.len() + i + 1] == part[i + 1]);
}

/// The inputs of a mux are the encoded video, the source where it has tracks to read, shifted back
/// by its start, and the description, in this order: the video is mapped from the first and copied,
/// and the description is the input that the metadata is taken from.
pub proof fn mux_inputs_are_numbered<'a>(
    plan: ExportPlan<'a>,
    silent: Seq<char>,
    metadata: Seq<char>,
    destination: Seq<char>,
    frames: nat,
    copy_audio: bool,
)
    ensures
        ({
            let args = plan.mux_args(silent, metadata, destination, frames, copy_audio);
            let start = plan.mux_inputs(silent, metadata);
            let read = crate::media::args::inputs(start);
            &&& start.is_prefix_of(args)
            &&& args.last() == crate::media::args::Said::Text(destination)
            &&& crate::media::args::told(start, "-map"@, crate::media::args::Said::Text("0:v:0"@))
            &&& crate::media::args::told(start, "-c:v"@, crate::media::args::Said::Text("copy"@))
            &&& read[0] == crate::media::args::Said::Text(silent)
            &&& plan.has_source() ==> {
                &&& read.len() == 3
                &&& read[1] == crate::media::args::Said::Text(plan.video.path@)
                &&& read[2] == crate::media::args::Said::Text(metadata)
                &&& crate::media::args::told(
                    start,
                    "-itsoffset"@,
                    crate::media::args::Said::Number(plan.video.start.negated()),
                )
                &&& crate::media::args::told(
                    args,
                    "-map_metadata"@,
                    crate::media::args::Said::Text("2"@),
                )
            }
            &&& !plan.has_source() ==> {
                &&& read.len() == 2
                &&& read[1] == crate::media::args::Said::Text(metadata)
                &&& crate::media::args::told(
                    args,
                    "-map_metadata"@,
                    crate::media::args::Said::Text("1"@),
                )
            }
            &&& crate::media::args::told(
                args,
                "-t"@,
                crate::media::args::Said::Number(Real64::of(frames).over(plan.rate.fps)),
            )
        }),
{
    reveal_strlit("-v");
    reveal_strlit("error");
    reveal_strlit("-nostdin");
    reveal_strlit("-y");
    reveal_strlit("-copyts");
    reveal_strlit("-i");
    reveal_strlit("-itsoffset");
    reveal_strlit("-f");
    reveal_strlit("ffmetadata");
    reveal_strlit("-map");
    reveal_strlit("0:v:0");
    let args = plan.mux_args(silent, metadata, destination, frames, copy_audio);
    let start = plan.mux_inputs(silent, metadata);
    let head = crate::media::args::ffmpeg_start() + crate::media::args::texts(
        seq!["-y"@, "-copyts"@],
    );
    let i = crate::media::args::Said::Text("-i"@);
    assert("-v"@[1] == 'v' && "-y"@[1] == 'y' && "-f"@[1] == 'f' && "-i"@[1] == 'i');
    assert("-copyts"@.len() == 7 && "error"@.len() == 5 && "-nostdin"@.len() == 8 && "-i"@.len()
        == 2);
    let tail = crate::media::args::texts(seq!["-map"@, "0:v:0"@, "-c:v"@, "copy"@]);
    let note = crate::media::args::texts(seq!["-f"@, "ffmetadata"@]);
    let told_last = seq![i, crate::media::args::Said::Text(metadata)] + tail;
    let shift = if plan.has_source() {
        seq![
            crate::media::args::Said::Text("-itsoffset"@),
            crate::media::args::Said::Number(plan.video.start.negated()),
        ]
    } else {
        Seq::empty()
    };
    let source = if plan.has_source() {
        seq![i, crate::media::args::Said::Text(plan.video.path@)]
    } else {
        Seq::empty()
    };
    let end = note + told_last;
    let middle = shift + (source + end);
    assert(start =~= head + (seq![i, crate::media::args::Said::Text(silent)] + middle));
    crate::media::args::lemma_no_input(
        head,
        seq![i, crate::media::args::Said::Text(silent)] + middle,
    );
    crate::media::args::lemma_input(crate::media::args::Said::Text(silent), middle);
    crate::media::args::lemma_no_input(shift, source + end);
    if plan.has_source() {
        crate::media::args::lemma_input(crate::media::args::Said::Text(plan.video.path@), end);
        assert(start[7] == crate::media::args::Said::Text("-itsoffset"@));
    } else {
        assert(source + end =~= end);
    }
    crate::media::args::lemma_no_input(note, told_last);
    crate::media::args::lemma_input(crate::media::args::Said::Text(metadata), tail);
    assert(crate::media::args::inputs(tail) =~= Seq::empty()) by {
        reveal_strlit("-c:v");
        reveal_strlit("copy");
        reveal_with_fuel(crate::media::args::inputs, 4);
        assert(tail.skip(1)[0] == tail[1] && tail.skip(1).skip(1)[0] == tail[2]);
        assert("-c:v"@.len() == 4 && "-map"@.len() == 4 && "0:v:0"@.len() == 5);
    }
    let n = start.len() as int;
    assert(start[n - 4] == crate::media::args::Said::Text("-map"@));
    assert(start[n - 2] == crate::media::args::Said::Text("-c:v"@));
    assert(start.is_prefix_of(args)) by {
        assert(args.take(n) =~= start);
    }
    let last = plan.mux_end(destination, frames);
    let before = start + plan.mux_audio(copy_audio) + plan.mux_others();
    assert(before + last + Seq::empty() =~= args);
    lemma_stays_told(before, last, Seq::empty(), 0);
    lemma_stays_told(before, last, Seq::empty(), 2);
}

/// Sound that is kept comes from the source: all of it where the streams are kept, else the first
/// track; copied as it is or encoded for the container. Muted, or without sound, none is asked for.
pub proof fn kept_sound_comes_from_the_source<'a>(
    plan: ExportPlan<'a>,
    silent: Seq<char>,
    metadata: Seq<char>,
    destination: Seq<char>,
    frames: nat,
    copy_audio: bool,
)
    requires
        plan.video.audio,
        plan.options.audio != Audio::Mute,
    ensures
        ({
            let args = plan.mux_args(silent, metadata, destination, frames, copy_audio);
            &&& plan.options.preserve_streams ==> crate::media::args::told(
                args,
                "-map"@,
                crate::media::args::Said::Text("1:a?"@),
            )
            &&& !plan.options.preserve_streams ==> crate::media::args::told(
                args,
                "-map"@,
                crate::media::args::Said::Text("1:a:0"@),
            )
            &&& copy_audio ==> crate::media::args::told(
                args,
                "-c:a"@,
                crate::media::args::Said::Text("copy"@),
            )
            &&& !copy_audio ==> {
                &&& crate::media::args::told(
                    args,
                    "-c:a"@,
                    crate::media::args::Said::Text(
                        if plan.container == Container::Webm {
                            "libopus"@
                        } else {
                            "aac"@
                        },
                    ),
                )
                &&& crate::media::args::told(
                    args,
                    "-b:a"@,
                    crate::media::args::Said::Text("192k"@),
                )
            }
        }),
{
    let args = plan.mux_args(silent, metadata, destination, frames, copy_audio);
    let start = plan.mux_inputs(silent, metadata);
    let sound = plan.mux_audio(copy_audio);
    let rest = plan.mux_others() + plan.mux_end(destination, frames);
    assert(start + sound + rest =~= args);
    assert(sound[0] == crate::media::args::Said::Text("-map"@));
    assert(sound[2] == crate::media::args::Said::Text("-c:a"@));
    lemma_stays_told(start, sound, rest, 0);
    lemma_stays_told(start, sound, rest, 2);
    if !copy_audio {
        assert(sound[4] == crate::media::args::Said::Text("-b:a"@));
        lemma_stays_told(start, sound, rest, 4);
    }
}

/// Without sound to keep, nothing of the sound is asked for.
pub proof fn muted_exports_are_silent<'a>(plan: ExportPlan<'a>, copy_audio: bool)
    requires
        !plan.video.audio || plan.options.audio == Audio::Mute,
    ensures
        plan.mux_audio(copy_audio).len() == 0,
{
}

/// Every track that is encoded again is lined up by its own offset, in order.
pub proof fn tracks_are_lined_up_in_order(tracks: Seq<Track>, n: nat, i: int)
    requires
        0 <= i < n <= tracks.len(),
    ensures
        audio_filters(tracks, n).len() == 2 * n,
        audio_filters(tracks, n)[2 * i] == crate::media::args::Said::Text(
            "-filter:a:"@ + crate::text::decimal(i as nat),
        ),
        audio_filters(tracks, n)[2 * i + 1] == line_up(tracks[i].offset),
    decreases n,
{
    if i < n - 1 {
        tracks_are_lined_up_in_order(tracks, (n - 1) as nat, i);
    } else if n > 1 {
        tracks_are_lined_up_in_order(tracks, (n - 1) as nat, 0);
    } else {
        reveal_with_fuel(audio_filters, 2);
    }
}

/// A bitrate that is asked for is used. Otherwise it is 2 to 200 megabits per second, and grows
/// with the picture, with the rate and with the quality.
#[verifier::rlimit(40)]
pub proof fn bitrates_grow_with_the_picture<'a>(small: ExportPlan<'a>, large: ExportPlan<'a>)
    requires
        small.options.bitrate_mbps is None,
        large.options.bitrate_mbps is None,
        small.size.0 <= large.size.0 <= 16384,
        small.size.1 <= large.size.1 <= 16384,
        small.rate.fps.finite(),
        large.rate.fps.finite(),
        Real64::of(0).up_to(small.rate.fps),
        small.rate.fps.bits < 0x8000_0000_0000_0000,
        large.rate.fps.bits < 0x8000_0000_0000_0000,
        small.rate.fps.up_to(large.rate.fps),
        quality_mbps(small.options.quality) <= quality_mbps(large.options.quality),
    ensures
        small.target_mbps().up_to(large.target_mbps()),
        Real64::of(2).up_to(small.target_mbps()),
        small.target_mbps().up_to(Real64::of(200)),
{
    reveal(Real64::finite);
    reveal(Real64::up_to);
    reveal(Real64::below);
    let f = crate::float::Format::Double;
    let (w1, h1, w2, h2) = (
        small.size.0 as nat,
        small.size.1 as nat,
        large.size.0 as nat,
        large.size.1 as nat,
    );
    assert(w1 * h1 <= w2 * h2 <= 16384 * 16384) by (nonlinear_arith)
        requires
            w1 <= w2 <= 16384,
            h1 <= h2 <= 16384,
    ;
    crate::margin::whole_products_are_exact(w1, h1);
    crate::margin::whole_products_are_exact(w2, h2);
    let (q1, q2) = (quality_mbps(small.options.quality), quality_mbps(large.options.quality));
    lemma_scaled_rate(q1, w1 * h1, small.rate.fps);
    lemma_scaled_rate(q2, w2 * h2, large.rate.fps);
    lemma_scaled_rates_grow(q1, q2, w1 * h1, w2 * h2, small.rate.fps, large.rate.fps);
    crate::margin::whole_numbers_are_exact(2);
    crate::margin::whole_numbers_are_exact(200);
    crate::margin::lemma_units();
    let (n1, n2) = (
        scaled_rate(q1, w1 * h1, small.rate.fps),
        scaled_rate(q2, w2 * h2, large.rate.fps),
    );
    let (low, high) = (Real64::of(2), Real64::of(200));
    crate::float::order_follows_value(f, low.at(), high.at());
    crate::float::order_follows_value(f, low.at(), low.at());
    crate::float::order_follows_value(f, high.at(), high.at());
}

spec fn scaled_rate(quality: nat, area: nat, fps: Real64) -> Real64 {
    Real64::of(quality).times(Real64::of(area).over(Real64::of(2073600))).times(
        fps.over(Real64::of(30)),
    )
}

/// What a rate is scaled from is finite.
proof fn lemma_scaled_rate(quality: nat, area: nat, fps: Real64)
    requires
        quality <= 40,
        area <= 16384 * 16384,
        fps.finite(),
        fps.bits < 0x8000_0000_0000_0000,
    ensures
        ({
            let f = crate::float::Format::Double;
            let share = Real64::of(area).over(Real64::of(2073600));
            let scaled = Real64::of(quality).times(share);
            let rate = fps.over(Real64::of(30));
            &&& f.finite(share.at())
            &&& !f.negative(share.at())
            &&& share.at() == f.quotient(f.of(area), f.of(2073600))
            &&& f.finite(scaled.at())
            &&& !f.negative(scaled.at())
            &&& scaled.at() == f.product(f.of(quality), share.at())
            &&& f.finite(rate.at())
            &&& !f.negative(rate.at())
            &&& rate.at() == f.quotient(fps.at(), f.of(30))
        }),
{
    reveal(Real64::finite);
    reveal(Real64::over);
    reveal(Real64::times);
    let f = crate::float::Format::Double;
    crate::margin::whole_numbers_are_exact(quality);
    crate::margin::whole_numbers_are_exact(area);
    crate::margin::whole_numbers_are_exact(2073600);
    crate::margin::whole_numbers_are_exact(30);
    crate::margin::lemma_units();
    let u = crate::margin::unit();
    crate::float::shares_are_no_more(f, f.of(area), f.of(2073600));
    crate::float::shares_are_no_more(f, fps.at(), f.of(30));
    let share = f.quotient(f.of(area), f.of(2073600));
    crate::float::worth_follows_magnitude(f, share, f.of(area));
    vstd::arithmetic::power2::lemma2_to64_rest();
    crate::float::lemma_unit_pow_adds(0, 40);
    let big = crate::float::unit_pow(40) as int;
    let (x, y) = (f.value(f.of(quality)), f.value(share));
    let (q, a) = (quality as int, area as int);
    assert(u * 0x100_0000_0000 == 0x100_0000_0000 * u) by (nonlinear_arith);
    assert(0 <= x * y < big * u) by (nonlinear_arith)
        requires
            x == q * u,
            0 <= y <= a * u,
            q <= 40,
            a <= 16384 * 16384,
            q >= 0,
            big == 0x100_0000_0000 * u,
            u > 0,
    ;
    crate::margin::products_are_close(f, f.of(quality), share, 40);
    crate::margin::products_keep_order(f, f.of(quality), f.of(quality), share);
}

proof fn lemma_scaled_rates_grow(
    q1: nat,
    q2: nat,
    a1: nat,
    a2: nat,
    fps1: Real64,
    fps2: Real64,
)
    requires
        q1 <= q2 <= 40,
        a1 <= a2 <= 16384 * 16384,
        fps1.finite(),
        fps2.finite(),
        fps1.bits < 0x8000_0000_0000_0000,
        fps2.bits < 0x8000_0000_0000_0000,
        fps1.up_to(fps2),
    ensures
        scaled_rate(q1, a1, fps1).up_to(scaled_rate(q2, a2, fps2)),
        !crate::float::Format::Double.nan(scaled_rate(q1, a1, fps1).at()),
        !crate::float::Format::Double.nan(scaled_rate(q2, a2, fps2).at()),
{
    reveal(Real64::finite);
    reveal(Real64::up_to);
    reveal(Real64::times);
    let f = crate::float::Format::Double;
    lemma_scaled_rate(q1, a1, fps1);
    lemma_scaled_rate(q2, a2, fps2);
    lemma_scaled_rate(q2, a1, fps1);
    crate::margin::whole_numbers_are_exact(q1);
    crate::margin::whole_numbers_are_exact(q2);
    crate::margin::whole_numbers_are_exact(a1);
    crate::margin::whole_numbers_are_exact(a2);
    crate::margin::whole_numbers_are_exact(2073600);
    crate::margin::whole_numbers_are_exact(30);
    crate::margin::lemma_units();
    let u = crate::margin::unit();
    assert(q1 * u <= q2 * u && a1 * u <= a2 * u) by (nonlinear_arith)
        requires
            q1 <= q2,
            a1 <= a2,
            u > 0,
    ;
    let share1 = Real64::of(a1).over(Real64::of(2073600)).at();
    let share2 = Real64::of(a2).over(Real64::of(2073600)).at();
    crate::float::order_follows_value(f, f.of(a1), f.of(a2));
    crate::float::quotients_keep_order(f, f.of(a1), f.of(a2), f.of(2073600));
    crate::float::order_follows_value(f, share1, share2);
    crate::margin::products_keep_order(f, f.of(q1), f.of(q2), share1);
    crate::margin::products_keep_order(f, share1, share2, f.of(q2));
    let first = f.product(f.of(q1), share1);
    let middle = f.product(f.of(q2), share1);
    let last = f.product(f.of(q2), share2);
    crate::float::order_follows_value(f, first, middle);
    crate::float::order_follows_value(f, middle, last);
    let rate1 = fps1.over(Real64::of(30)).at();
    let rate2 = fps2.over(Real64::of(30)).at();
    crate::float::quotients_keep_order(f, fps1.at(), fps2.at(), f.of(30));
    crate::float::order_follows_value(f, rate1, rate2);
    crate::margin::products_keep_order(f, first, last, rate1);
    crate::margin::products_keep_order(f, rate1, rate2, last);
}

/// Sound that starts late is delayed by as long, to the nearest millisecond.
pub proof fn late_sound_waits(offset: Real64)
    requires
        offset.finite(),
        offset.bits < 0x8000_0000_0000_0000,
        crate::margin::double_worth(offset) < 0x10_0000 * crate::margin::unit(),
    ensures
        exists|ms: nat|
            {
                &&& line_up(offset) == #[trigger] waits(ms)
                &&& crate::margin::within(
                    2 * (ms * crate::margin::unit()),
                    2000 * crate::margin::double_worth(offset),
                    crate::margin::unit() + 2 * crate::float::unit_pow(-23),
                )
            },
{
    reveal(Real64::finite);
    reveal(Real64::up_to);
    reveal(Real64::times);
    reveal(Real64::rounded);
    reveal(Real64::below);
    let f = crate::float::Format::Double;
    crate::margin::whole_numbers_are_exact(0);
    crate::margin::whole_numbers_are_exact(1000);
    crate::margin::whole_numbers_are_exact(0x10_0000_0000_0000);
    crate::margin::lemma_units();
    vstd::arithmetic::power2::lemma2_to64();
    crate::float::lemma_unit_pow_adds(0, 31);
    crate::float::lemma_unit_pow_adds(-23, 23);
    let u = crate::margin::unit();
    let e = crate::float::unit_pow(-23) as int;
    let big = crate::float::unit_pow(31) as int;
    let v = f.value(offset.at());
    let thousand = f.value(f.of(1000));
    assert(u * 0x8000_0000 == 0x8000_0000 * u && e * 0x80_0000 == 0x80_0000 * e)
        by (nonlinear_arith);
    assert(0 <= v * thousand < big * u && v * thousand == (1000 * v) * u) by (nonlinear_arith)
        requires
            0 <= v < 0x10_0000 * u,
            thousand == 1000 * u,
            big == 0x8000_0000 * u,
            u > 0,
    ;
    crate::margin::products_are_close(f, offset.at(), f.of(1000), 31);
    let p = f.product(offset.at(), f.of(1000));
    crate::margin::products_keep_order(f, offset.at(), offset.at(), f.of(1000));
    let w = f.value(p);
    assert(crate::margin::within(w, 1000 * v, e)) by (nonlinear_arith)
        requires
            w * u - (1000 * v) * u <= e * u,
            (1000 * v) * u - w * u <= e * u,
            u > 0,
    ;
    crate::float::order_follows_value(f, f.of(0), offset.at());
    crate::float::order_follows_value(f, p, f.of(0x10_0000_0000_0000));
    crate::margin::rounds_to_nearest(f, p, 0x10_0000_0000_0000, 0x8000_0000);
    let ms = f.rounded(p, 0x10_0000_0000_0000);
    assert(line_up(offset) == waits(ms));
}

/// A delay of so many milliseconds.
pub open spec fn waits(ms: nat) -> crate::media::args::Said {
    crate::media::args::Said::Around(
        "asetpts=PTS-STARTPTS,adelay="@,
        Real64::of(ms),
        ":all=1"@,
    )
}

/// Sound that starts early loses what comes before the video, exactly.
pub proof fn early_sound_is_cut(offset: Real64)
    requires
        offset.finite(),
        crate::margin::double_worth(offset) < 0,
    ensures
        line_up(offset) matches crate::media::args::Said::Around(before, from, after) && before
            == "atrim=start="@ && after == ",asetpts=PTS-STARTPTS"@ && crate::margin::double_worth(
            from,
        ) == -crate::margin::double_worth(offset),
{
    reveal(Real64::finite);
    reveal(Real64::up_to);
    let f = crate::float::Format::Double;
    crate::margin::whole_numbers_are_exact(0);
    crate::margin::lemma_units();
    crate::float::order_follows_value(f, f.of(0), offset.at());
    crate::margin::lemma_negated(f, offset.at());
}

/// Timing decides what lingers of the frames before: nothing where it is disabled, which then needs
/// no warm-up; what the settings say at sixty fields a second, which then alternate; and otherwise
/// what is left of that after one of the video's own frames. Nothing else of a look changes.
pub proof fn timing_decides_what_lingers(
    r: Config,
    config: Config,
    timing: Timing,
    decayed: Seq<Real32>,
)
    requires
        is_timed(r, config, timing, decayed),
        decayed.len() == 3,
    ensures
        timing == Timing::Disabled ==> r.warmup == 0 && forall|c: int|
            0 <= c < 3 ==> (#[trigger] r.persistence@[c]).bits == 0,
        timing == Timing::Ntsc60 ==> r.persistence@ == config.persistence@ && r.phase
            == Phase::Alternating && r.warmup == config.warmup,
        timing == Timing::Stable ==> r.persistence@ == decayed && r.phase == Phase::Stable
            && r.warmup == config.warmup,
        r.output@ == config.output@,
        r.signal@ == config.signal@,
{
}

/// The source is shifted back by its own start, as an option of that input: the encoded video starts
/// at zero.
pub proof fn sources_are_shifted_to_the_video<'a>(
    plan: ExportPlan<'a>,
    silent: Seq<char>,
    metadata: Seq<char>,
)
    requires
        plan.has_source(),
        plan.video.start.finite(),
    ensures
        ({
            let args = plan.mux_inputs(silent, metadata);
            exists|p: int|
                {
                    &&& 2 <= p
                    &&& p + 1 < args.len()
                    &&& #[trigger] args[p] == crate::media::args::Said::Text("-i"@)
                    &&& args[p + 1] == crate::media::args::Said::Text(plan.video.path@)
                    &&& args[p - 2] == crate::media::args::Said::Text("-itsoffset"@)
                    &&& args[p - 1] matches crate::media::args::Said::Number(by)
                        && crate::margin::double_worth(by) == -crate::margin::double_worth(
                        plan.video.start,
                    )
                }
        }),
{
    let args = plan.mux_inputs(silent, metadata);
    assert(args[7] == crate::media::args::Said::Text("-itsoffset"@));
    assert(args[8] == crate::media::args::Said::Number(plan.video.start.negated()));
    assert(args[9] == crate::media::args::Said::Text("-i"@));
    assert(args[10] == crate::media::args::Said::Text(plan.video.path@));
    reveal(Real64::finite);
    crate::margin::lemma_negated(crate::float::Format::Double, plan.video.start.at());
}

/// Every subtitle track that the container can hold is mapped from the source by its own index, in
/// the source's order, and stored in the codec that the container holds it in. The others are left
/// out.
pub proof fn subtitles_are_mapped_in_order(tracks: Seq<Track>, container: Container, i: int)
    requires
        0 <= i < tracks.len(),
        container.subtitle_codec_text(tracks[i].codec@) is Some,
    ensures
        ({
            let args = subtitle_args(tracks, container);
            let k = held(tracks.take(i), container);
            &&& args.len() == 4 * held(tracks, container)
            &&& k < held(tracks, container)
            &&& args[4 * k as int] == crate::media::args::Said::Text("-map"@)
            &&& args[4 * k as int + 1] == crate::media::args::Said::Text(
                "1:"@ + crate::text::decimal(tracks[i].index as nat),
            )
            &&& args[4 * k as int + 2] == crate::media::args::Said::Text(
                "-c:s:"@ + crate::text::decimal(k),
            )
            &&& args[4 * k as int + 3] == crate::media::args::Said::Text(
                container.subtitle_codec_text(tracks[i].codec@)->0,
            )
        }),
    decreases tracks.len(),
{
    let before = tracks.drop_last();
    lemma_subtitle_args(before, container);
    if i < tracks.len() - 1 {
        assert(before.take(i) =~= tracks.take(i));
        assert(before[i] == tracks[i]);
        subtitles_are_mapped_in_order(before, container, i);
    } else {
        assert(tracks.take(i) =~= before);
    }
}

proof fn lemma_subtitle_args(tracks: Seq<Track>, container: Container)
    ensures
        subtitle_args(tracks, container).len() == 4 * held(tracks, container),
    decreases tracks.len(),
{
    if tracks.len() > 0 {
        lemma_subtitle_args(tracks.drop_last(), container);
    }
}

} // verus!
