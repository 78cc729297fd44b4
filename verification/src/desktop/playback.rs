//! Playing a video in the preview. The worker renders frames ahead into a small buffer and each
//! is shown when its time comes. Playback waits for a few frames before its clock starts, and
//! waits again whenever the renderer falls behind.
//!
//! Moments are nanoseconds on a clock that only moves forward.
use crate::crt::picture::Picture;
use crate::media::probe::Video;
use crate::number::Real64;
use vstd::prelude::*;

verus! {

/// Frames buffered before the clock starts, or all the buffer holds if that is fewer.
pub const PREROLL: usize = 3;

/// A rendered frame, with when it shows in the video.
#[derive(Debug)]
pub struct PlaybackFrame {
    pub time: Real64,
    pub source: Picture,
    pub crt: Picture,
}

/// What the worker sends.
#[derive(Debug)]
pub enum Arrival {
    Frame(PlaybackFrame),
    /// It stopped early.
    Failed(String),
    /// It has sent its last frame.
    Ended,
}

/// How playing changed.
#[derive(Clone, Copy, Debug, PartialEq, Eq, Structural)]
pub enum Status {
    /// Enough is buffered, and the clock has started.
    Playing,
    /// The renderer fell behind, and the clock waits for it.
    CatchingUp,
    /// Every frame has been shown.
    Finished,
}

impl Status {
    /// What the status bar says.
    pub fn text(self) -> (r: &'static str)
        ensures
            r@ == (match self {
                Status::Playing => "Playing"@,
                Status::CatchingUp => "Buffering · renderer is catching up…"@,
                Status::Finished => "Playback finished"@,
            }),
    {
        match self {
            Self::Playing => "Playing",
            Self::CatchingUp => "Buffering · renderer is catching up…",
            Self::Finished => "Playback finished",
        }
    }
}

/// What playback has for one frame of the interface.
#[derive(Debug)]
pub struct Tick {
    /// The frame due now.
    pub frame: Option<PlaybackFrame>,
    /// How playing changed, if it did.
    pub status: Option<Status>,
    /// Why the worker stopped early. The frames it rendered before still play.
    pub error: Option<String>,
}

/// A video playing: what the worker has rendered ahead, and the clock that shows it.
pub struct Playback {
    buffered: Vec<PlaybackFrame>,
    clock: Option<(u64, Real64)>,
    ended: bool,
    capacity: usize,
    frame_duration: Real64,
    shown: Real64,
}

/// What playback holds.
pub struct Reel {
    /// Rendered and not shown yet.
    pub buffered: Seq<PlaybackFrame>,
    /// When the clock started, and the media time it started from; none while buffering.
    pub clock: Option<(nat, Real64)>,
    /// The worker has sent its last frame, or stopped on an error.
    pub ended: bool,
    pub capacity: nat,
    /// How long one frame of the video shows, in seconds.
    pub frame_duration: Real64,
    /// The media time of the frame shown last.
    pub shown: Real64,
}

impl View for Playback {
    type V = Reel;

    closed spec fn view(&self) -> Reel {
        Reel {
            buffered: self.buffered@,
            clock: match self.clock {
                Some((started, from)) => Some((started as nat, from)),
                None => None,
            },
            ended: self.ended,
            capacity: self.capacity as nat,
            frame_duration: self.frame_duration,
            shown: self.shown,
        }
    }
}

/// Nanoseconds as seconds.
pub open spec fn seconds(nanos: nat) -> Real64 {
    Real64::of(nanos / 1_000_000_000).plus(
        Real64::of(nanos % 1_000_000_000).over(Real64::of(1_000_000_000)),
    )
}

fn to_seconds(nanos: u64) -> (r: Real64)
    ensures
        r == seconds(nanos as nat),
{
    Real64::from_integer(nanos / 1_000_000_000).add(
        Real64::from_integer(nanos % 1_000_000_000).div(Real64::from_integer(1_000_000_000)),
    )
}

/// How many frames are kept of a video and a picture of these sizes: about 128 MB across the
/// channel and the buffer, and at least one source and rendered frame in each.
pub open spec fn capacity_for(source: (u32, u32), output: (u32, u32)) -> nat {
    let pair = 4 * (source.0 * source.1 + output.0 * output.1);
    let n = 67_108_864int / (if pair < 1 {
        1
    } else {
        pair
    });
    if n < 1 {
        1
    } else if n > 4 {
        4
    } else {
        n as nat
    }
}

/// Where a video plays from: the position, or the beginning when that is its last frame.
pub open spec fn start_of(video: Video, position: Real64) -> Real64 {
    if video.duration.minus(Real64::of(1).over(video.fps)).up_to(position) {
        Real64::of(0)
    } else {
        position
    }
}

impl Reel {
    pub open spec fn wf(self) -> bool {
        1 <= self.capacity <= 4 && self.buffered.len() <= self.capacity
    }

    /// The reel with what has arrived taken in: frames while there is room, and nothing after
    /// the end.
    pub open spec fn filled(self, arrived: Seq<Arrival>) -> Reel
        decreases arrived.len(),
    {
        if arrived.len() == 0 || self.ended || self.buffered.len() >= self.capacity {
            self
        } else {
            let next = match arrived[0] {
                Arrival::Frame(frame) => Reel { buffered: self.buffered.push(frame), ..self },
                _ => Reel { ended: true, ..self },
            };
            next.filled(arrived.skip(1))
        }
    }

    /// How much of what has arrived is taken in.
    pub open spec fn taken(self, arrived: Seq<Arrival>) -> nat
        decreases arrived.len(),
    {
        if arrived.len() == 0 || self.ended || self.buffered.len() >= self.capacity {
            0
        } else {
            let next = match arrived[0] {
                Arrival::Frame(frame) => Reel { buffered: self.buffered.push(frame), ..self },
                _ => Reel { ended: true, ..self },
            };
            1 + next.taken(arrived.skip(1))
        }
    }

    /// Why the worker stopped, if that is among what is taken in.
    pub open spec fn failure(self, arrived: Seq<Arrival>) -> Option<Seq<char>>
        decreases arrived.len(),
    {
        if arrived.len() == 0 || self.ended || self.buffered.len() >= self.capacity {
            None
        } else {
            match arrived[0] {
                Arrival::Frame(frame) => Reel {
                    buffered: self.buffered.push(frame),
                    ..self
                }.failure(arrived.skip(1)),
                Arrival::Failed(error) => Some(error@),
                Arrival::Ended => None,
            }
        }
    }

    /// Whether the clock can start.
    pub open spec fn prerolled(self) -> bool {
        self.buffered.len() >= (if self.capacity < PREROLL {
            self.capacity
        } else {
            PREROLL as nat
        }) || (self.ended && self.buffered.len() > 0)
    }

    /// The reel with its clock started, where it can be.
    pub open spec fn started(self, now: nat) -> Reel {
        if self.clock is None && self.prerolled() {
            Reel { clock: Some((now, self.buffered[0].time)), ..self }
        } else {
            self
        }
    }

    /// The media time the clock stands at.
    pub open spec fn target(self, now: nat) -> Real64 {
        let (started, from) = self.clock->0;
        from.plus(
            seconds(
                if now < started {
                    0
                } else {
                    (now - started) as nat
                },
            ),
        )
    }

    /// How many of the frames in a row from the first are due by a time.
    pub open spec fn due(frames: Seq<PlaybackFrame>, target: Real64) -> nat
        decreases frames.len(),
    {
        if frames.len() == 0 || !frames[0].time.up_to(target) {
            0
        } else {
            1 + Self::due(frames.skip(1), target)
        }
    }

    /// The frame shown at a moment: the last that is due. Frames already overdue are skipped
    /// rather than shown late.
    pub open spec fn frame_at(self, now: nat) -> Option<PlaybackFrame> {
        if self.clock is None {
            None
        } else {
            let n = Self::due(self.buffered, self.target(now));
            if n == 0 {
                None
            } else {
                Some(self.buffered[n - 1])
            }
        }
    }

    /// The reel with the frames that are due shown.
    pub open spec fn advanced(self, now: nat) -> Reel {
        if self.clock is None {
            self
        } else {
            let n = Self::due(self.buffered, self.target(now));
            Reel {
                buffered: self.buffered.skip(n as int),
                shown: match self.frame_at(now) {
                    Some(frame) => frame.time,
                    None => self.shown,
                },
                ..self
            }
        }
    }

    /// Whether the renderer has fallen behind: nothing is buffered, and the clock is more than a
    /// frame past the one shown.
    pub open spec fn behind(self, now: nat) -> bool {
        self.clock is Some && self.buffered.len() == 0 && !self.ended && self.shown.plus(
            self.frame_duration,
        ).below(self.target(now))
    }

    /// The reel after a frame of the interface.
    pub open spec fn ticked(self, arrived: Seq<Arrival>, now: nat) -> Reel {
        let after = self.filled(arrived).started(now).advanced(now);
        if after.behind(now) {
            Reel { clock: None, ..after }
        } else {
            after
        }
    }

    /// How playing changes on a frame of the interface.
    pub open spec fn change(self, arrived: Seq<Arrival>, now: nat) -> Option<Status> {
        let filled = self.filled(arrived);
        let after = filled.started(now).advanced(now);
        if after.ended && after.buffered.len() == 0 {
            Some(Status::Finished)
        } else if after.behind(now) {
            Some(Status::CatchingUp)
        } else if filled.clock is None && filled.prerolled() {
            Some(Status::Playing)
        } else {
            None
        }
    }
}

impl Playback {
    /// Playback of `video` from `position` in seconds, or from the beginning when that is its
    /// last frame, with frames rendered at `output` size. Returns it with where it starts.
    pub fn new(video: &Video, position: Real64, output: (u32, u32)) -> (r: (Self, Real64))
        ensures
            r.1 == start_of(*video, position),
            r.0@ == (Reel {
                buffered: Seq::empty(),
                clock: None,
                ended: false,
                capacity: capacity_for(video.size, output),
                frame_duration: Real64::of(1).over(video.fps),
                shown: r.1,
            }),
            r.0@.wf(),
    {
        let frame_duration: Real64 = Real64::from_integer(1).div(video.fps);
        let start: Real64 = if video.duration.sub(frame_duration).at_most(position) {
            Real64::from_integer(0)
        } else {
            position
        };
        proof {
            let (a, b) = video.size;
            let (c, d) = output;
            assert(a * b <= 0xffff_ffff * 0xffff_ffff) by (nonlinear_arith)
                requires
                    a <= 0xffff_ffff,
                    b <= 0xffff_ffff,
            ;
            assert(c * d <= 0xffff_ffff * 0xffff_ffff) by (nonlinear_arith)
                requires
                    c <= 0xffff_ffff,
                    d <= 0xffff_ffff,
            ;
        }
        let first: u128 = video.size.0 as u128 * video.size.1 as u128;
        let second: u128 = output.0 as u128 * output.1 as u128;
        let pair: u128 = 4 * (first + second);
        let n: u128 = 67_108_864 / (if pair < 1 {
            1
        } else {
            pair
        });
        let capacity: usize = if n < 1 {
            1
        } else if n > 4 {
            4
        } else {
            n as usize
        };
        (
            Self {
                buffered: Vec::new(),
                clock: None,
                ended: false,
                capacity,
                frame_duration,
                shown: start,
            },
            start,
        )
    }

    /// How many more frames it has room for.
    pub fn room(&self) -> (r: usize)
        requires
            self@.wf(),
        ensures
            r == (if self@.ended {
                0
            } else {
                self@.capacity - self@.buffered.len()
            }),
    {
        if self.ended {
            0
        } else {
            self.capacity - self.buffered.len()
        }
    }

    fn fill(&mut self, arrived: &mut Vec<Arrival>) -> (r: Option<String>)
        requires
            old(self)@.wf(),
        ensures
            final(self)@ == old(self)@.filled(old(arrived)@),
            final(self)@.wf(),
            final(arrived)@ == old(arrived)@.skip(old(self)@.taken(old(arrived)@) as int),
            crate::path::is_some_text(r, old(self)@.failure(old(arrived)@)),
    {
        let mut error: Option<String> = None;
        let ghost mut n: nat = 0;
        let ghost all = arrived@;
        assert(all.skip(0) == all);
        while arrived.len() > 0 && !self.ended && self.buffered.len() < self.capacity
            invariant
                self@.wf(),
                all == old(arrived)@,
                n <= all.len(),
                arrived@ == all.skip(n as int),
                old(self)@.filled(all) == self@.filled(arrived@),
                old(self)@.taken(all) == n + self@.taken(arrived@),
                error is None ==> old(self)@.failure(all) == self@.failure(arrived@),
                error is Some ==> self@.ended && crate::path::is_some_text(
                    error,
                    old(self)@.failure(all),
                ),
            decreases arrived@.len(),
        {
            let ghost before = self@;
            let ghost rest = arrived@;
            proof {
                assert(rest.remove(0) == rest.skip(1));
                assert(all.skip(n as int).skip(1) == all.skip(n as int + 1));
            }
            let next: Arrival = arrived.remove(0);
            match next {
                Arrival::Frame(frame) => {
                    self.buffered.push(frame);
                    assert(self@ == (Reel { buffered: before.buffered.push(frame), ..before }));
                },
                Arrival::Failed(text) => {
                    self.ended = true;
                    error = Some(text);
                    assert(self@ == (Reel { ended: true, ..before }));
                },
                Arrival::Ended => {
                    self.ended = true;
                    assert(self@ == (Reel { ended: true, ..before }));
                },
            }
            proof {
                n = n + 1;
            }
        }
        error
    }

    /// Takes what the worker has rendered, and moves the clock on to `now`.
    pub fn tick(&mut self, arrived: &mut Vec<Arrival>, now: u64) -> (r: Tick)
        requires
            old(self)@.wf(),
        ensures
            ({
                let filled = old(self)@.filled(old(arrived)@);
                &&& final(self)@ == old(self)@.ticked(old(arrived)@, now as nat)
                &&& final(arrived)@ == old(arrived)@.skip(
                    old(self)@.taken(old(arrived)@) as int,
                )
                &&& r.frame == filled.started(now as nat).frame_at(now as nat)
                &&& r.status == old(self)@.change(old(arrived)@, now as nat)
                &&& crate::path::is_some_text(r.error, old(self)@.failure(old(arrived)@))
                &&& final(self)@.wf()
            }),
    {
        let error: Option<String> = self.fill(arrived);
        let mut status: Option<Status> = None;
        let mut frame: Option<PlaybackFrame> = None;
        let least: usize = if self.capacity < PREROLL {
            self.capacity
        } else {
            PREROLL
        };
        let prerolled: bool = self.buffered.len() >= least || (self.ended && self.buffered.len()
            > 0);
        if self.clock.is_none() && prerolled {
            self.clock = Some((now, self.buffered[0].time));
            status = Some(Status::Playing);
        }
        let ghost ready = self@;
        match self.clock {
            Some((started, from)) => {
                let elapsed: u64 = if now < started {
                    0
                } else {
                    now - started
                };
                let target: Real64 = from.add(to_seconds(elapsed));
                let ghost all = self.buffered@;
                let ghost mut n: nat = 0;
                assert(all.skip(0) == all);
                while self.buffered.len() > 0 && self.buffered[0].time.at_most(target)
                    invariant
                        n <= all.len(),
                        self.buffered@ == all.skip(n as int),
                        self@ == (Reel { buffered: self.buffered@, ..ready }),
                        Reel::due(all, target) == n + Reel::due(self.buffered@, target),
                        frame == (if n == 0 {
                            None
                        } else {
                            Some(all[n - 1])
                        }),
                    decreases self.buffered@.len(),
                {
                    proof {
                        let rest = self.buffered@;
                        assert(rest.remove(0) == rest.skip(1));
                        assert(all.skip(n as int).skip(1) == all.skip(n as int + 1));
                        assert(rest[0] == all[n as int]);
                    }
                    frame = Some(self.buffered.remove(0));
                    proof {
                        n = n + 1;
                    }
                }
                match &frame {
                    Some(shown) => {
                        self.shown = shown.time;
                    },
                    None => {},
                }
                assert(self@ == ready.advanced(now as nat));
                if self.buffered.len() == 0 && !self.ended && self.shown.add(
                    self.frame_duration,
                ).less(target) {
                    self.clock = None;
                    status = Some(Status::CatchingUp);
                }
            },
            None => {},
        }
        if self.ended && self.buffered.len() == 0 {
            status = Some(Status::Finished);
        }
        Tick { frame, status, error }
    }
}

/// Nothing past the frame shown is overdue: what stays buffered has its first frame still to
/// come, so a late frame is skipped and never shown.
pub proof fn overdue_frames_are_skipped(reel: Reel, now: nat)
    requires
        reel.clock is Some,
    ensures
        ({
            let after = reel.advanced(now);
            after.buffered.len() > 0 ==> !after.buffered[0].time.up_to(reel.target(now))
        }),
        reel.frame_at(now) matches Some(frame) ==> frame.time.up_to(reel.target(now)),
{
    lemma_due(reel.buffered, reel.target(now));
}

proof fn lemma_due(frames: Seq<PlaybackFrame>, target: Real64)
    ensures
        Reel::due(frames, target) <= frames.len(),
        Reel::due(frames, target) < frames.len() ==> !frames[Reel::due(
            frames,
            target,
        ) as int].time.up_to(target),
        Reel::due(frames, target) > 0 ==> frames[Reel::due(frames, target) - 1].time.up_to(target),
    decreases frames.len(),
{
    if frames.len() > 0 && frames[0].time.up_to(target) {
        let rest = frames.skip(1);
        lemma_due(rest, target);
        let n = Reel::due(rest, target);
        if n < rest.len() {
            assert(rest[n as int] == frames[n as int + 1]);
        }
        if n > 0 {
            assert(rest[n - 1] == frames[n as int]);
        }
    }
}

/// Frames rendered before an error still play: taking in the error leaves what is buffered, and
/// playing finishes only once that is empty.
pub proof fn frames_before_an_error_play(reel: Reel, error: String, arrived: Seq<Arrival>, now: nat)
    requires
        !reel.ended,
        reel.buffered.len() > 0,
        reel.buffered.len() < reel.capacity,
        arrived.len() > 0,
        arrived[0] == Arrival::Failed(error),
        reel.ticked(arrived, now).buffered.len() > 0,
    ensures
        reel.filled(arrived).buffered == reel.buffered,
        reel.failure(arrived) == Some(error@),
        reel.change(arrived, now) != Some(Status::Finished),
{
    reveal_with_fuel(Reel::filled, 2);
}

/// The frames that are due are those in a row from the first whose time has come: all of them, and
/// the next is not. What shows is the last of them.
pub proof fn the_last_due_frame_shows(reel: Reel, now: nat)
    requires
        reel.clock is Some,
    ensures
        ({
            let n = Reel::due(reel.buffered, reel.target(now));
            &&& n <= reel.buffered.len()
            &&& forall|i: int|
                0 <= i < n ==> (#[trigger] reel.buffered[i]).time.up_to(reel.target(now))
            &&& n < reel.buffered.len() ==> !reel.buffered[n as int].time.up_to(reel.target(now))
            &&& n == 0 <==> reel.frame_at(now) is None
            &&& n > 0 ==> reel.frame_at(now) == Some(reel.buffered[n - 1])
        }),
{
    lemma_all_due(reel.buffered, reel.target(now));
}

proof fn lemma_all_due(frames: Seq<PlaybackFrame>, target: Real64)
    ensures
        ({
            let n = Reel::due(frames, target);
            &&& n <= frames.len()
            &&& forall|i: int| 0 <= i < n ==> (#[trigger] frames[i]).time.up_to(target)
            &&& n < frames.len() ==> !frames[n as int].time.up_to(target)
        }),
    decreases frames.len(),
{
    if frames.len() > 0 && frames[0].time.up_to(target) {
        let rest = frames.skip(1);
        lemma_all_due(rest, target);
        let n = Reel::due(frames, target);
        assert forall|i: int| 0 <= i < n implies (#[trigger] frames[i]).time.up_to(target) by {
            if i > 0 {
                assert(rest[i - 1] == frames[i]);
            }
        }
        if n < frames.len() {
            assert(rest[n - 1] == frames[n as int]);
        }
    }
}

/// Playback keeps one to four frames ahead, and more than one only where they take up no more than
/// 64 MB.
pub proof fn frames_ahead_fit_in_memory(source: (u32, u32), output: (u32, u32))
    ensures
        1 <= capacity_for(source, output) <= 4,
        capacity_for(source, output) == 1 || capacity_for(source, output) * (4 * (source.0 * source.1
            + output.0 * output.1)) <= 64 * 1024 * 1024,
{
    let (a, b, c, d) = (source.0 as int, source.1 as int, output.0 as int, output.1 as int);
    assert(a * b >= 0 && c * d >= 0) by (nonlinear_arith)
        requires
            a >= 0,
            b >= 0,
            c >= 0,
            d >= 0,
    ;
    let pair = 4 * (a * b + c * d);
    let part = if pair < 1 {
        1
    } else {
        pair
    };
    let n = 67_108_864int / part;
    let k = capacity_for(source, output) as int;
    vstd::arithmetic::div_mod::lemma_fundamental_div_mod(67_108_864, part);
    vstd::arithmetic::div_mod::lemma_mod_bound(67_108_864, part);
    if k > 1 {
        assert(k * pair <= 67_108_864) by (nonlinear_arith)
            requires
                67_108_864 >= part * n,
                k <= n,
                0 <= pair <= part,
                k > 1,
        ;
    }
}

/// Nanoseconds are seconds by the billion, as near as doubles come.
pub proof fn a_billion_nanoseconds_are_a_second(nanos: nat)
    requires
        nanos < 0x8000_0000_0000_0000,
    ensures
        seconds(nanos).finite(),
        crate::margin::within(
            1_000_000_000 * (0x8_0000 * crate::margin::double_worth(seconds(nanos))),
            0x8_0000 * (nanos * crate::margin::unit()),
            1_000_000_000 * crate::margin::unit(),
        ),
{
    let (q, r) = (nanos / 1_000_000_000, nanos % 1_000_000_000);
    crate::margin::whole_numbers_are_exact(q);
    crate::margin::whole_numbers_are_exact(r);
    crate::margin::whole_numbers_are_exact(1_000_000_000);
    crate::margin::lemma_units();
    reveal(Real64::finite);
    reveal(Real64::plus);
    reveal(Real64::over);
    vstd::arithmetic::power2::lemma2_to64();
    vstd::arithmetic::power2::lemma2_to64_rest();
    crate::float::lemma_unit_pow_adds(0, 3);
    crate::float::lemma_unit_pow_adds(0, 34);
    crate::float::lemma_unit_pow_adds(-20, 20);
    crate::float::lemma_unit_pow_grows(-51, -20);
    let f = crate::float::Format::Double;
    let u = crate::margin::unit();
    let (g, e, s) = (
        1_000_000_000 * u,
        crate::float::unit_pow(-20) as int,
        crate::float::unit_pow(-51) as int,
    );
    let big = crate::float::unit_pow(34) as int;
    let eight = crate::float::unit_pow(3) as int;
    assert(e * 0x10_0000 == 0x10_0000 * e && u * 0x4_0000_0000 == 0x4_0000_0000 * u) by (nonlinear_arith);
    let (qi, ri) = (q as int, r as int);
    let (qu, ru) = (qi * u, ri * u);
    assert(0 <= ru < g && ru * u < g * eight && 0 <= qu <= 0x3_0000_0000 * u) by (nonlinear_arith)
        requires
            ru == ri * u,
            qu == qi * u,
            0 <= ri < 1_000_000_000,
            0 <= qi <= 0x3_0000_0000,
            g == 1_000_000_000 * u,
            eight == 8 * u,
            u > 0,
    ;
    crate::margin::quotients_are_close(f, f.of(r), f.of(1_000_000_000), 3);
    let part = Real64::of(r).over(Real64::of(1_000_000_000));
    let p = f.value(part.at());
    assert(crate::margin::within(1_000_000_000 * p, ru, 1_000_000_000 * s)) by (nonlinear_arith)
        requires
            p * g <= ru * u + g * s,
            ru * u <= p * g + g * s,
            g == 1_000_000_000 * u,
            u > 0,
    ;
    assert(0 <= p <= 2 * u);
    crate::margin::sums_are_close(f, f.of(q), part.at(), 34);
    let v = f.value(seconds(nanos).at());
    let n = nanos as int;
    assert(n * u == 1_000_000_000 * qu + ru) by (nonlinear_arith)
        requires
            n == 1_000_000_000 * qi + ri,
            qu == qi * u,
            ru == ri * u,
    ;
}

} // verus!
