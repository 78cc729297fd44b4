//! Animated GIF and WebP: how long their frames show, and which of them a sequence takes.
use crate::crt::config::validate_size;
use crate::media::kind::AnimationFormat;
use crate::media::probe::{Source, Track, TrackKind, Video};
use crate::number::Real64;
use crate::text::{decimal_text, join3, owned};
use vstd::prelude::*;

verus! {

/// More frames than any animation worth rendering; a bound on the delays kept per file.
pub const MAX_FRAMES: usize = 100_000;

/// How long a frame with this delay shows, in milliseconds. Browsers show frames that ask for
/// 10 ms or less for 100 ms instead, and animations are made to look right in them.
pub open spec fn shown(delay: u32) -> u32 {
    if delay <= 10 {
        100
    } else {
        delay
    }
}

pub fn shown_ms(delay: u32) -> (r: u32)
    ensures
        r == shown(delay),
{
    if delay <= 10 {
        100
    } else {
        delay
    }
}

/// A delay given as a fraction of milliseconds; none of it where nothing divides it.
pub open spec fn whole_ms(numerator: u32, denominator: u32) -> u32 {
    if denominator == 0 {
        0
    } else {
        numerator / denominator
    }
}

pub fn delay_ms(numerator: u32, denominator: u32) -> (r: u32)
    ensures
        r == whole_ms(numerator, denominator),
{
    if denominator == 0 {
        0
    } else {
        numerator / denominator
    }
}

/// Pixels of red, green and blue with full opacity added.
pub fn opaque_pixels(rgb: &[u8]) -> (r: Vec<u8>)
    requires
        rgb@.len() % 3 == 0,
    ensures
        r@.len() == rgb@.len() / 3 * 4,
        forall|p: int, c: int|
            #![trigger r@[4 * p + c]]
            0 <= p < rgb@.len() / 3 && 0 <= c < 4 ==> r@[4 * p + c] == (if c == 3 {
                255u8
            } else {
                rgb@[3 * p + c]
            }),
{
    let mut r: Vec<u8> = Vec::new();
    let length: usize = rgb.len();
    let n: usize = length / 3;
    let mut i: usize = 0;
    while i < n
        invariant
            i <= n,
            3 * n == length == rgb@.len(),
            r@.len() == 4 * i,
            forall|p: int, c: int|
                #![trigger r@[4 * p + c]]
                0 <= p < i && 0 <= c < 4 ==> r@[4 * p + c] == (if c == 3 {
                    255u8
                } else {
                    rgb@[3 * p + c]
                }),
        decreases n - i,
    {
        r.push(rgb[3 * i]);
        r.push(rgb[3 * i + 1]);
        r.push(rgb[3 * i + 2]);
        r.push(255);
        i = i + 1;
    }
    r
}

// -------------------------------------------------------------------------------------------
// Rates
// -------------------------------------------------------------------------------------------

/// What divides two numbers, by Euclid's algorithm.
pub open spec fn common(a: nat, b: nat) -> nat
    decreases b,
{
    if b == 0 {
        a
    } else {
        common(b, a % b)
    }
}

pub fn gcd(a: u64, b: u64) -> (r: u64)
    ensures
        r == common(a as nat, b as nat),
    decreases b,
{
    if b == 0 {
        a
    } else {
        gcd(b, a % b)
    }
}

/// Of two numbers that are not both zero it is the greatest that divides both.
pub proof fn common_is_greatest(a: nat, b: nat)
    requires
        a > 0 || b > 0,
    ensures
        common(a, b) > 0,
        a % common(a, b) == 0,
        b % common(a, b) == 0,
        forall|d: nat|
            #![trigger a % d, b % d]
            d > 0 && a % d == 0 && b % d == 0 ==> d <= common(a, b),
    decreases b,
{
    if b == 0 {
        assert(a % a == 0) by (nonlinear_arith)
            requires
                a > 0,
        ;
        assert forall|d: nat| #![trigger a % d, b % d] d > 0 && a % d == 0 && b % d == 0 implies d
            <= a by {
            assert(a < d ==> a % d == a) by (nonlinear_arith)
                requires
                    d > 0,
            ;
        }
    } else {
        let r = a % b;
        let g = common(b, r);
        common_is_greatest(b, r);
        assert(a % g == 0) by {
            vstd::arithmetic::div_mod::lemma_fundamental_div_mod(a as int, b as int);
            vstd::arithmetic::div_mod::lemma_fundamental_div_mod(b as int, g as int);
            vstd::arithmetic::div_mod::lemma_fundamental_div_mod(r as int, g as int);
            let k = (b as int / g as int) * (a as int / b as int) + r as int / g as int;
            assert(a == g * k) by (nonlinear_arith)
                requires
                    a == b * (a as int / b as int) + r,
                    b == g * (b as int / g as int),
                    r == g * (r as int / g as int),
                    k == (b as int / g as int) * (a as int / b as int) + r as int / g as int,
            ;
            vstd::arithmetic::div_mod::lemma_mod_multiples_basic(k, g as int);
            assert(k * g == g * k) by (nonlinear_arith);
        }
        assert forall|d: nat| #![trigger a % d, b % d] d > 0 && a % d == 0 && b % d == 0 implies d
            <= g by {
            vstd::arithmetic::div_mod::lemma_fundamental_div_mod(a as int, b as int);
            vstd::arithmetic::div_mod::lemma_fundamental_div_mod(a as int, d as int);
            vstd::arithmetic::div_mod::lemma_fundamental_div_mod(b as int, d as int);
            let k = a as int / d as int - (b as int / d as int) * (a as int / b as int);
            assert(r == d * k) by (nonlinear_arith)
                requires
                    a == b * (a as int / b as int) + r,
                    a == d * (a as int / d as int),
                    b == d * (b as int / d as int),
                    k == a as int / d as int - (b as int / d as int) * (a as int / b as int),
            ;
            vstd::arithmetic::div_mod::lemma_mod_multiples_basic(k, d as int);
            assert(k * d == d * k) by (nonlinear_arith);
            assert(r % d == 0);
            assert(b % d == 0);
        }
    }
}

/// The rate that frames average, as a number: within 1 and 240 per second.
pub open spec fn average_fps(frames: nat, total_ms: nat) -> Real64 {
    let total = if total_ms < 1 {
        1
    } else {
        total_ms
    };
    let g = common(frames * 1000, total);
    let fps = Real64::of(frames * 1000 / g).over(Real64::of(total / g));
    if fps.below(Real64::of(1)) {
        Real64::of(1)
    } else if Real64::of(240).below(fps) {
        Real64::of(240)
    } else {
        fps
    }
}

/// The same, exactly.
pub open spec fn average_text(frames: nat, total_ms: nat) -> Seq<char> {
    let total = if total_ms < 1 {
        1
    } else {
        total_ms
    };
    let g = common(frames * 1000, total);
    let fps = Real64::of(frames * 1000 / g).over(Real64::of(total / g));
    if fps.below(Real64::of(1)) {
        "1/1"@
    } else if Real64::of(240).below(fps) {
        "240/1"@
    } else {
        crate::text::decimal(frames * 1000 / g) + "/"@ + crate::text::decimal(total / g)
    }
}

/// The rate `frames` frames lasting `total_ms` average, exactly and as a number, kept within
/// the 1–240 per second videos are held to. Mirrors ffprobe's average frame rate.
pub fn average_rate(frames: u64, total_ms: u64) -> (r: (Real64, String))
    requires
        frames * 1000 <= u64::MAX,
    ensures
        r.0 == average_fps(frames as nat, total_ms as nat),
        r.1@ == average_text(frames as nat, total_ms as nat),
{
    let total: u64 = if total_ms < 1 {
        1
    } else {
        total_ms
    };
    proof {
        common_is_greatest((frames * 1000) as nat, total as nat);
    }
    let divisor: u64 = gcd(frames * 1000, total);
    let numerator: u64 = frames * 1000 / divisor;
    let denominator: u64 = total / divisor;
    let fps: Real64 = Real64::from_integer(numerator).div(Real64::from_integer(denominator));
    if fps.less(Real64::from_integer(1)) {
        (Real64::from_integer(1), owned("1/1"))
    } else if Real64::from_integer(240).less(fps) {
        (Real64::from_integer(240), owned("240/1"))
    } else {
        let text: String = join3(
            decimal_text(numerator).as_str(),
            "/",
            decimal_text(denominator).as_str(),
        );
        (fps, text)
    }
}

// -------------------------------------------------------------------------------------------
// Opening
// -------------------------------------------------------------------------------------------

/// Why an animation cannot be opened.
#[derive(Clone, Copy, Debug, PartialEq, Eq, Structural)]
pub enum AnimatedError {
    Size,
    TooMany,
    Empty,
    Duration,
}

impl AnimatedError {
    pub fn message(self) -> (r: &'static str)
        ensures
            r@ == (match self {
                AnimatedError::Size =>
                "dimensions must be positive, <=16384 per side, and <=64 megapixels"@,
                AnimatedError::TooMany => "Animation has too many frames"@,
                AnimatedError::Empty => "Animation contains no frames"@,
                AnimatedError::Duration => "Unsupported animation duration"@,
            }),
    {
        match self {
            Self::Size => "dimensions must be positive, <=16384 per side, and <=64 megapixels",
            Self::TooMany => "Animation has too many frames",
            Self::Empty => "Animation contains no frames",
            Self::Duration => "Unsupported animation duration",
        }
    }
}

/// How long all frames show together, given what each asks for.
pub open spec fn total_shown(delays: Seq<u32>) -> nat
    decreases delays.len(),
{
    if delays.len() == 0 {
        0
    } else {
        total_shown(delays.drop_last()) + shown(delays.last()) as nat
    }
}

/// What is wrong with an animation of a size whose frames ask for these delays, if anything.
pub open spec fn animated_fault(size: (u32, u32), delays: Seq<u32>) -> Option<AnimatedError> {
    if !crate::crt::config::size_ok(size) {
        Some(AnimatedError::Size)
    } else if delays.len() > MAX_FRAMES {
        Some(AnimatedError::TooMany)
    } else if delays.len() == 0 {
        Some(AnimatedError::Empty)
    } else if !Real64::of(total_shown(delays)).over(Real64::of(1000)).up_to(Real64::of(604800)) {
        Some(AnimatedError::Duration)
    } else {
        None
    }
}

impl Video {
    /// Whether this is the animation of a size whose frames ask for these delays.
    pub open spec fn is_animation(
        self,
        path: Seq<char>,
        format: AnimationFormat,
        size: (u32, u32),
        delays: Seq<u32>,
    ) -> bool {
        let total = total_shown(delays);
        &&& self.metadata@.len() == 0
        &&& crate::media::probe::track_views(self.tracks@) == seq![
            crate::media::probe::TrackView {
                index: 0,
                kind: TrackKind::Video,
                codec: format.extension_text(),
                offset: Real64 { bits: 0 },
            },
        ]
        &&& self.start == Real64 { bits: 0 }
        &&& self.path@ == path
        &&& self.size == size
        &&& self.fps == average_fps(delays.len(), total)
        &&& self.rate@ == average_text(delays.len(), total)
        &&& self.duration == Real64::of(total).over(Real64::of(1000))
        &&& !self.audio
        &&& self.audio_offset == Real64 { bits: 0 }
        &&& !self.hdr
        &&& self.stream == 0
        &&& self.frames == Some(delays.len() as u64)
        &&& self.source matches Source::Animated { format: own, delays: kept } && own == format
            && kept@ =~= Seq::new(delays.len(), |i: int| shown(delays[i]))
    }
}

/// An animation as a video, from its canvas size and what each of its frames asks for, in
/// milliseconds.
pub fn probe(
    path: String,
    format: AnimationFormat,
    size: (u32, u32),
    delays: &[u32],
) -> (r: Result<Video, AnimatedError>)
    ensures
        match animated_fault(size, delays@) {
            Some(e) => r == Err::<Video, AnimatedError>(e),
            None => r matches Ok(video) && video.is_animation(path@, format, size, delays@),
        },
{
    match validate_size(size) {
        Ok(()) => {},
        Err(_) => {
            return Err(AnimatedError::Size);
        },
    }
    if delays.len() > MAX_FRAMES {
        return Err(AnimatedError::TooMany);
    }
    if delays.len() == 0 {
        return Err(AnimatedError::Empty);
    }
    let mut kept: Vec<u32> = Vec::new();
    let mut total: u64 = 0;
    let mut i: usize = 0;
    while i < delays.len()
        invariant
            i <= delays@.len() <= MAX_FRAMES,
            total == total_shown(delays@.take(i as int)),
            total <= i * 0xffff_ffff,
            kept@ == Seq::new(i as nat, |k: int| shown(delays@[k])),
        decreases delays@.len() - i,
    {
        proof {
            assert(delays@.take(i as int + 1).drop_last() == delays@.take(i as int));
        }
        let ms: u32 = shown_ms(delays[i]);
        kept.push(ms);
        total = total + ms as u64;
        i = i + 1;
    }
    assert(delays@.take(i as int) == delays@);
    let duration: Real64 = Real64::from_integer(total).div(Real64::from_integer(1000));
    if !duration.at_most(Real64::from_integer(604800)) {
        return Err(AnimatedError::Duration);
    }
    let (fps, rate) = average_rate(delays.len() as u64, total);
    let mut tracks: Vec<Track> = Vec::new();
    tracks.push(
        Track {
            index: 0,
            kind: TrackKind::Video,
            codec: owned(format.extension()),
            offset: Real64 { bits: 0 },
        },
    );
    assert(crate::media::probe::track_views(tracks@) =~= seq![tracks@[0]@]);
    let source: Source = Source::Animated { format, delays: kept };
    Ok(
        Video {
            metadata: Vec::new(),
            tracks,
            start: Real64 { bits: 0 },
            path,
            size,
            fps,
            rate,
            duration,
            audio: false,
            audio_offset: Real64 { bits: 0 },
            hdr: false,
            stream: 0,
            frames: Some(delays.len() as u64),
            source,
        },
    )
}

// -------------------------------------------------------------------------------------------
// Sequences
// -------------------------------------------------------------------------------------------

/// What to decode of a video.
#[derive(Clone, Copy, Debug, PartialEq, Eq, Structural)]
pub struct Request {
    /// A sequence at this constant rate, rather than one frame.
    pub rate: Option<Real64>,
    /// Where it starts, in seconds.
    pub start: Real64,
    /// One frame by its number, rather than by its time.
    pub frame: Option<u64>,
    /// At most this many seconds of a sequence.
    pub limit: Option<Real64>,
}

/// Why nothing of an animation can be decoded.
#[derive(Clone, Copy, Debug, PartialEq, Eq, Structural)]
pub enum ScheduleError {
    /// It has no frame of this number.
    NoFrame(u64),
    /// The start is outside it.
    Outside,
}

impl ScheduleError {
    pub fn message(self) -> (r: String)
        ensures
            r@ == (match self {
                ScheduleError::NoFrame(frame) => "The animation has no frame "@
                    + crate::text::decimal(frame as nat + 1),
                ScheduleError::Outside => "Preview time is outside the animation"@,
            }),
    {
        match self {
            Self::NoFrame(frame) => if frame < u64::MAX {
                crate::text::join("The animation has no frame ", decimal_text(frame + 1).as_str())
            } else {
                proof {
                    reveal_with_fuel(crate::text::decimal, 21);
                    reveal_strlit("18446744073709551616");
                    assert("18446744073709551616"@ =~= crate::text::decimal(
                        18446744073709551616,
                    ));
                }
                crate::text::join("The animation has no frame ", "18446744073709551616")
            },
            Self::Outside => owned("Preview time is outside the animation"),
        }
    }
}

/// The bits of 1e-9.
pub const NANO: u64 = 0x3E11_2E0B_E826_D695;

/// The bits of 1e-6.
pub const MICRO: u64 = 0x3EB0_C6F7_A0B5_ED8D;

/// The bits of 0.5.
pub const HALF: u64 = 0x3FE0_0000_0000_0000;

/// When frame `n` starts, in seconds; of the number of frames, when the last one ends.
pub open spec fn start_of(delays: Seq<u32>, n: int) -> Real64
    decreases n,
{
    if n <= 0 {
        Real64 { bits: 0 }
    } else {
        start_of(delays, n - 1).plus(Real64::of(delays[n - 1] as nat).over(Real64::of(1000)))
    }
}

/// Whether a frame that starts then has started by a time: before it, or also at it when `at`
/// holds.
pub open spec fn started(start: Real64, time: Real64, at: bool) -> bool {
    start.below(time.minus(Real64 { bits: NANO })) || (at && start.up_to(
        time.plus(Real64 { bits: NANO }),
    ))
}

/// The last of the first `n` frames that has started by a time, or else the first.
pub open spec fn last_started(delays: Seq<u32>, time: Real64, at: bool, n: int) -> int
    decreases n,
{
    if n <= 1 {
        0
    } else if started(start_of(delays, n - 1), time, at) {
        n - 1
    } else {
        last_started(delays, time, at, n - 1)
    }
}

/// Where a sequence ends: with the animation, or when its limit is up.
pub open spec fn sequence_end(delays: Seq<u32>, request: Request) -> Real64 {
    let end = start_of(delays, delays.len() as int);
    match request.limit {
        Some(limit) => end.lesser(request.start.plus(limit)),
        None => end,
    }
}

/// How many frames a sequence has.
pub open spec fn ticks(delays: Seq<u32>, request: Request, fps: Real64) -> nat {
    let n = sequence_end(delays, request).minus(request.start).times(fps).minus(
        Real64 { bits: MICRO },
    ).ceiled(usize::MAX as nat);
    if n < 1 {
        1
    } else {
        n
    }
}

/// The time a tick of a sequence takes its frame by: half a tick after it.
pub open spec fn tick_time(request: Request, fps: Real64, tick: nat) -> Real64 {
    request.start.plus(Real64::of(tick).plus(Real64 { bits: HALF }).over(fps))
}

/// What is wrong with a request, if anything.
pub open spec fn request_fault(delays: Seq<u32>, request: Request) -> Option<ScheduleError> {
    match request.frame {
        Some(frame) => if frame < delays.len() {
            None
        } else {
            Some(ScheduleError::NoFrame(frame))
        },
        None => if request.start.finite() && (Real64 { bits: 0 }).up_to(request.start)
            && request.start.below(start_of(delays, delays.len() as int)) {
            None
        } else {
            Some(ScheduleError::Outside)
        },
    }
}

/// Which source frame each decoded frame is.
pub open spec fn frames_for(delays: Seq<u32>, request: Request) -> Seq<int> {
    match request.frame {
        Some(frame) => seq![frame as int],
        None => match request.rate {
            None => seq![last_started(delays, request.start, true, delays.len() as int)],
            Some(fps) => Seq::new(
                ticks(delays, request, fps),
                |tick: int|
                    last_started(
                        delays,
                        tick_time(request, fps, tick as nat),
                        false,
                        delays.len() as int,
                    ),
            ),
        },
    }
}

/// Starts never go back.
proof fn lemma_starts_grow(delays: Seq<u32>, i: int, j: int)
    requires
        0 <= i <= j,
    ensures
        !crate::float::Format::Double.nan(start_of(delays, j).at()),
        !crate::float::Format::Double.negative(start_of(delays, j).at()),
        start_of(delays, i).up_to(start_of(delays, j)),
    decreases j,
{
    let f = crate::float::Format::Double;
    reveal(Real64::up_to);
    if j == 0 {
        assert(f.magnitude(0) == 0);
    } else {
        let before = start_of(delays, j - 1);
        let ms = Real64::of(delays[j - 1] as nat);
        let thousand = Real64::of(1000);
        let step = ms.over(thousand);
        if i < j {
            lemma_starts_grow(delays, i, j - 1);
        } else {
            lemma_starts_grow(delays, j - 1, j - 1);
        }
        reveal(Real64::of);
        reveal(Real64::over);
        reveal(Real64::plus);
        crate::float::small_integers_are_exact(f, delays[j - 1] as nat);
        crate::float::small_integers_are_exact(f, 1000);
        assert(!f.zero(f.of(1000))) by {
            crate::float::number_parts(f, f.of(1000));
            crate::float::lemma_unit_pow_grows(0, 0);
            assert(f.value(f.of(1000)) == 1000 * crate::float::unit_pow(0));
            assert(1000 * crate::float::unit_pow(0) > 0);
            if f.zero(f.of(1000)) {
                assert(f.significand(f.of(1000)) == 0);
                assert(crate::float::scaled(0, f.exponent(f.of(1000))) == 0) by (nonlinear_arith);
            }
        }
        crate::float::shares_are_not_negative(f, f.of(delays[j - 1] as nat), f.of(1000));
        crate::float::rounding_keeps_order(f, 0, 0, 1);
        assert(f.quotient(f.of(delays[j - 1] as nat), f.of(1000)) < f.sign());
        crate::float::sums_grow(f, before.at(), step.at());
        assert(f.sum(before.at(), step.at()) < f.sign());
    }
}

/// What has started by a time stays so for every earlier start.
proof fn lemma_started_earlier(a: Real64, b: Real64, time: Real64, at: bool)
    requires
        a.up_to(b),
        started(b, time, at),
    ensures
        started(a, time, at),
{
    reveal(Real64::up_to);
    reveal(Real64::below);
}

proof fn lemma_last_started(delays: Seq<u32>, time: Real64, at: bool, n: int, k: int)
    requires
        0 <= k < n,
        k > 0 ==> started(start_of(delays, k), time, at),
        k + 1 < n ==> !started(start_of(delays, k + 1), time, at),
    ensures
        last_started(delays, time, at, n) == k,
    decreases n,
{
    if n > k + 1 {
        lemma_starts_grow(delays, k + 1, n - 1);
        if started(start_of(delays, n - 1), time, at) {
            lemma_started_earlier(
                start_of(delays, k + 1),
                start_of(delays, n - 1),
                time,
                at,
            );
        }
        lemma_last_started(delays, time, at, n - 1, k);
    }
}

fn has_started(start: Real64, time: Real64, at: bool) -> (r: bool)
    ensures
        r == started(start, time, at),
{
    start.less(time.sub(Real64 { bits: NANO })) || (at && start.at_most(
        time.add(Real64 { bits: NANO }),
    ))
}

/// The last frame that has started by a time.
fn find_started(starts: &Vec<Real64>, time: Real64, at: bool, Ghost(delays): Ghost<Seq<u32>>) -> (r:
    usize)
    requires
        starts@.len() == delays.len(),
        delays.len() > 0,
        forall|i: int| 0 <= i < delays.len() ==> #[trigger] starts@[i] == start_of(delays, i),
    ensures
        r == last_started(delays, time, at, delays.len() as int),
        r < delays.len(),
{
    let mut low: usize = 0;
    let mut high: usize = starts.len();
    while high - low > 1
        invariant
            low < high <= starts@.len() == delays.len(),
            forall|i: int| 0 <= i < delays.len() ==> #[trigger] starts@[i] == start_of(delays, i),
            low > 0 ==> started(start_of(delays, low as int), time, at),
            high < delays.len() ==> !started(start_of(delays, high as int), time, at),
        decreases high - low,
    {
        let middle: usize = low + (high - low) / 2;
        if has_started(starts[middle], time, at) {
            low = middle;
        } else {
            high = middle;
        }
    }
    proof {
        lemma_last_started(delays, time, at, delays.len() as int, low as int);
    }
    low
}

/// Which source frame each decoded frame is, in order: one frame by its number, the frame
/// showing at `request.start`, or a constant-rate sequence from there. A constant rate takes,
/// for each of its ticks, the last frame that starts less than half a tick after it: FFmpeg's
/// `fps=round=near` rounds each start to the nearest tick, halves up. Frames hold or drop but
/// are never blended.
pub fn schedule(delays: &[u32], request: &Request) -> (r: Result<Vec<usize>, ScheduleError>)
    ensures
        match request_fault(delays@, *request) {
            Some(e) => r == Err::<Vec<usize>, ScheduleError>(e),
            None => r matches Ok(plan) && plan@.len() == frames_for(delays@, *request).len()
                && forall|i: int|
                0 <= i < plan@.len() ==> #[trigger] plan@[i] == frames_for(delays@, *request)[i]
                    && plan@[i] < delays@.len(),
        },
{
    match request.frame {
        Some(frame) => {
            if frame >= delays.len() as u64 {
                return Err(ScheduleError::NoFrame(frame));
            }
            let mut plan: Vec<usize> = Vec::new();
            plan.push(frame as usize);
            return Ok(plan);
        },
        None => {},
    }
    let mut starts: Vec<Real64> = Vec::new();
    let mut end: Real64 = Real64 { bits: 0 };
    let mut i: usize = 0;
    while i < delays.len()
        invariant
            i <= delays@.len(),
            starts@.len() == i,
            end == start_of(delays@, i as int),
            forall|k: int| 0 <= k < i ==> #[trigger] starts@[k] == start_of(delays@, k),
        decreases delays@.len() - i,
    {
        starts.push(end);
        end = end.add(Real64::from_integer(delays[i] as u64).div(Real64::from_integer(1000)));
        i = i + 1;
    }
    if !(request.start.is_finite() && (Real64 { bits: 0 }).at_most(request.start)
        && request.start.less(end)) {
        return Err(ScheduleError::Outside);
    }
    proof {
        reveal(Real64::up_to);
        reveal(Real64::below);
        assert(delays@.len() > 0);
    }
    let mut plan: Vec<usize> = Vec::new();
    let fps: Real64 = match request.rate {
        None => {
            plan.push(find_started(&starts, request.start, true, Ghost(delays@)));
            return Ok(plan);
        },
        Some(fps) => fps,
    };
    let last: Real64 = match request.limit {
        Some(limit) => end.min(request.start.add(limit)),
        None => end,
    };
    let asked: u64 = last.sub(request.start).mul(fps).sub(Real64 { bits: MICRO }).ceil(
        usize::MAX as u64,
    );
    let count: usize = if asked < 1 {
        1
    } else {
        asked as usize
    };
    let mut tick: usize = 0;
    while tick < count
        invariant
            tick <= count,
            plan@.len() == tick,
            delays@.len() > 0,
            starts@.len() == delays@.len(),
            forall|k: int| 0 <= k < delays@.len() ==> #[trigger] starts@[k] == start_of(delays@, k),
            forall|k: int|
                0 <= k < tick ==> #[trigger] plan@[k] == last_started(
                    delays@,
                    tick_time(*request, fps, k as nat),
                    false,
                    delays@.len() as int,
                ) && plan@[k] < delays@.len(),
        decreases count - tick,
    {
        let time: Real64 = request.start.add(
            Real64::from_integer(tick as u64).add(Real64 { bits: HALF }).div(fps),
        );
        plan.push(find_started(&starts, time, false, Ghost(delays@)));
        tick = tick + 1;
    }
    Ok(plan)
}

/// How many entries of a plan, from `next` on, are frame `index`.
pub open spec fn run(plan: Seq<usize>, next: int, index: usize) -> nat
    decreases plan.len() - next,
{
    if next < 0 || next >= plan.len() || plan[next] != index {
        0
    } else {
        1 + run(plan, next + 1, index)
    }
}

/// How often the frame just decoded, number `index`, is handed on, when `next` entries of the
/// plan have been.
pub fn copies(plan: &[usize], next: usize, index: usize) -> (r: usize)
    requires
        next <= plan@.len(),
    ensures
        r == run(plan@, next as int, index),
        next + r <= plan@.len(),
{
    let length: usize = plan.len();
    let mut r: usize = 0;
    while next + r < length && plan[next + r] == index
        invariant
            length == plan@.len(),
            next + r <= length,
            run(plan@, next as int, index) == r + run(plan@, next + r, index),
        decreases length - next - r,
    {
        r = r + 1;
    }
    r
}

/// A later tick of a sequence takes its frame by a later time.
proof fn lemma_tick_times_grow(request: Request, fps: Real64, i: nat, j: nat)
    requires
        request.start.finite(),
        fps.finite(),
        Real64::of(0).below(fps),
        i <= j,
    ensures
        tick_time(request, fps, i).up_to(tick_time(request, fps, j)),
{
    let f = crate::float::Format::Double;
    let half = Real64 { bits: HALF };
    reveal(Real64::up_to);
    reveal(Real64::below);
    reveal(Real64::finite);
    reveal(Real64::of);
    reveal(Real64::over);
    reveal(Real64::plus);
    assert(i * crate::float::unit_pow(0) <= j * crate::float::unit_pow(0)) by (nonlinear_arith)
        requires
            i <= j,
    ;
    crate::float::rounding_keeps_order(
        f,
        crate::float::scaled(i, 0),
        crate::float::scaled(j, 0),
        1,
    );
    crate::float::small_integers_are_exact(f, 0);
    let (a, b) = (Real64::of(i), Real64::of(j));
    crate::float::sums_grow(f, a.at(), half.at());
    crate::float::sums_grow(f, b.at(), half.at());
    crate::float::sums_keep_order(f, a.at(), b.at(), half.at());
    let (c, d) = (a.plus(half), b.plus(half));
    crate::float::quotients_keep_order(f, c.at(), d.at(), fps.at());
    let (p, q) = (c.over(fps), d.over(fps));
    crate::float::sums_keep_order(f, p.at(), q.at(), request.start.at());
}

/// What has started by a time has by a later one.
proof fn lemma_started_later(start: Real64, time: Real64, later: Real64)
    requires
        time.up_to(later),
        started(start, time, false),
    ensures
        started(start, later, false),
{
    let f = crate::float::Format::Double;
    let nano = Real64 { bits: NANO };
    reveal(Real64::up_to);
    reveal(Real64::below);
    reveal(Real64::minus);
    crate::float::sums_keep_order(f, time.at(), later.at(), f.negated(nano.at()));
}

proof fn lemma_last_started_later(delays: Seq<u32>, time: Real64, later: Real64, n: int)
    requires
        time.up_to(later),
    ensures
        last_started(delays, time, false, n) <= last_started(delays, later, false, n),
        last_started(delays, time, false, n) <= if n <= 1 {
            0
        } else {
            n - 1
        },
    decreases n,
{
    if n > 1 {
        lemma_last_started_later(delays, time, later, n - 1);
        if started(start_of(delays, n - 1), time, false) {
            lemma_started_later(start_of(delays, n - 1), time, later);
        }
    }
}

/// A sequence at a constant rate goes through an animation in order: its frames hold or are
/// dropped, and none comes after a later one.
pub proof fn sequences_go_forward(delays: Seq<u32>, request: Request, fps: Real64, i: int, j: int)
    requires
        request.frame is None,
        request.rate == Some(fps),
        fps.finite(),
        Real64::of(0).below(fps),
        request_fault(delays, request) is None,
        0 <= i <= j < frames_for(delays, request).len(),
    ensures
        frames_for(delays, request)[i] <= frames_for(delays, request)[j],
{
    lemma_tick_times_grow(request, fps, i as nat, j as nat);
    lemma_last_started_later(
        delays,
        tick_time(request, fps, i as nat),
        tick_time(request, fps, j as nat),
        delays.len() as int,
    );
}

/// How many entries of a plan have been handed on once so many frames were decoded, in order.
pub open spec fn handed(plan: Seq<usize>, frames: nat) -> int
    decreases frames,
{
    if frames == 0 {
        0
    } else {
        let next = handed(plan, (frames - 1) as nat);
        next + run(plan, next, (frames - 1) as usize)
    }
}

/// A run ends where the plan does, or at another frame.
proof fn lemma_run_ends(plan: Seq<usize>, next: int, index: usize)
    requires
        0 <= next <= plan.len(),
    ensures
        ({
            let end = next + run(plan, next, index);
            &&& end <= plan.len()
            &&& end < plan.len() ==> plan[end] != index
        }),
    decreases plan.len() - next,
{
    if next < plan.len() && plan[next] == index {
        lemma_run_ends(plan, next + 1, index);
    }
}

proof fn lemma_handed(plan: Seq<usize>, frames: nat)
    requires
        frames <= usize::MAX,
        forall|i: int, j: int| 0 <= i <= j < plan.len() ==> plan[i] <= plan[j],
    ensures
        0 <= handed(plan, frames) <= plan.len(),
        handed(plan, frames) < plan.len() ==> plan[handed(plan, frames)] >= frames,
    decreases frames,
{
    if frames > 0 {
        let before = (frames - 1) as nat;
        lemma_handed(plan, before);
        lemma_run_ends(plan, handed(plan, before), before as usize);
    }
}

/// Decoding every frame once, in order, hands on all that was asked for.
pub proof fn every_planned_frame_is_handed_on(
    delays: Seq<u32>,
    request: Request,
    plan: Seq<usize>,
)
    requires
        delays.len() <= usize::MAX,
        request.rate matches Some(fps) ==> fps.finite() && Real64::of(0).below(fps),
        request_fault(delays, request) is None,
        plan.len() == frames_for(delays, request).len(),
        forall|i: int| 0 <= i < plan.len() ==> #[trigger] plan[i] == frames_for(delays, request)[i],
    ensures
        handed(plan, delays.len()) == plan.len(),
{
    assert forall|i: int, j: int| 0 <= i <= j < plan.len() implies plan[i] <= plan[j] by {
        if request.frame is None && request.rate is Some {
            sequences_go_forward(delays, request, request.rate->0, i, j);
        }
    }
    assert forall|i: int| 0 <= i < plan.len() implies plan[i] < delays.len() by {
        assert(frames_for(delays, request)[i] < delays.len()) by {
            lemma_frames_are_there(delays, request, i);
        }
    }
    lemma_handed(plan, delays.len());
}

proof fn lemma_frames_are_there(delays: Seq<u32>, request: Request, i: int)
    requires
        request_fault(delays, request) is None,
        0 <= i < frames_for(delays, request).len(),
    ensures
        frames_for(delays, request)[i] < delays.len(),
{
    if request.frame is None {
        reveal(Real64::up_to);
        reveal(Real64::below);
        assert(delays.len() > 0);
        match request.rate {
            None => lemma_last_is_there(delays, request.start, true, delays.len() as int),
            Some(fps) => lemma_last_is_there(
                delays,
                tick_time(request, fps, i as nat),
                false,
                delays.len() as int,
            ),
        }
    }
}

proof fn lemma_last_is_there(delays: Seq<u32>, time: Real64, at: bool, n: int)
    requires
        n > 0,
    ensures
        0 <= last_started(delays, time, at, n) < n,
    decreases n,
{
    if n > 1 {
        lemma_last_is_there(delays, time, at, n - 1);
    }
}

proof fn lemma_none_later_started(delays: Seq<u32>, time: Real64, at: bool, n: int)
    ensures
        ({
            let i = last_started(delays, time, at, n);
            &&& n >= 1 ==> 0 <= i < n
            &&& i > 0 ==> started(start_of(delays, i), time, at)
            &&& forall|k: int| i < k < n ==> !started(#[trigger] start_of(delays, k), time, at)
        }),
    decreases n,
{
    if n > 1 && !started(start_of(delays, n - 1), time, at) {
        lemma_none_later_started(delays, time, at, n - 1);
    }
}

/// The frame that shows at a time has started by it, and no later frame has: a frame shows from its
/// start until the next one starts, and the first from the beginning.
pub proof fn the_last_frame_to_start_is_shown(delays: Seq<u32>, request: Request)
    requires
        delays.len() > 0,
        request.frame is None,
        request.rate is None,
    ensures
        ({
            let shown = frames_for(delays, request);
            &&& shown.len() == 1
            &&& 0 <= shown[0] < delays.len()
            &&& shown[0] > 0 ==> start_of(delays, shown[0]).below(
                request.start.minus(Real64 { bits: NANO }),
            ) || start_of(delays, shown[0]).up_to(request.start.plus(Real64 { bits: NANO }))
            &&& forall|k: int|
                shown[0] < k < delays.len() ==> !(#[trigger] start_of(delays, k)).up_to(
                    request.start.plus(Real64 { bits: NANO }),
                )
        }),
{
    lemma_none_later_started(delays, request.start, true, delays.len() as int);
}

/// A frame that asks to show for ten milliseconds or less shows for a tenth of a second; others for
/// as long as they ask.
pub proof fn hasty_frames_slow_down(delay: u32)
    ensures
        shown(delay) > 10,
        shown(delay) == delay || (delay <= 10 && shown(delay) == 100),
        shown(shown(delay)) == shown(delay),
{
}

/// An average rate is the frames over the time they show, in lowest terms and within 1 and 240 a
/// second.
pub proof fn average_rates_are_frames_over_time(frames: nat, total_ms: nat)
    requires
        frames > 0,
        total_ms > 0,
    ensures
        ({
            let g = common(frames * 1000, total_ms);
            let (a, b) = (frames * 1000 / g, total_ms / g);
            &&& g > 0
            &&& a * total_ms == b * (frames * 1000)
            &&& average_text(frames, total_ms) == "1/1"@ || average_text(frames, total_ms)
                == "240/1"@ || average_text(frames, total_ms) == crate::text::decimal(a) + "/"@
                + crate::text::decimal(b)
        }),
{
    let n = frames * 1000;
    common_is_greatest(n, total_ms);
    let g = common(n, total_ms);
    let (a, b) = (n / g, total_ms / g);
    vstd::arithmetic::div_mod::lemma_fundamental_div_mod(n as int, g as int);
    vstd::arithmetic::div_mod::lemma_fundamental_div_mod(total_ms as int, g as int);
    assert(a * total_ms == b * n) by (nonlinear_arith)
        requires
            n == g * a,
            total_ms == g * b,
    ;
}

/// Of a sequence, each tick takes the last frame that starts before the middle of the tick.
pub proof fn ticks_take_what_shows_in_their_middle(
    delays: Seq<u32>,
    request: Request,
    fps: Real64,
    i: int,
)
    requires
        delays.len() > 0,
        request.frame is None,
        request.rate == Some(fps),
        0 <= i < frames_for(delays, request).len(),
    ensures
        ({
            let shown = frames_for(delays, request)[i];
            let middle = request.start.plus(
                Real64::of(i as nat).plus(Real64 { bits: HALF }).over(fps),
            );
            let by = middle.minus(Real64 { bits: NANO });
            &&& 0 <= shown < delays.len()
            &&& shown > 0 ==> start_of(delays, shown).below(by)
            &&& forall|k: int|
                shown < k < delays.len() ==> !(#[trigger] start_of(delays, k)).below(by)
        }),
{
    lemma_none_later_started(
        delays,
        tick_time(request, fps, i as nat),
        false,
        delays.len() as int,
    );
}

} // verus!
