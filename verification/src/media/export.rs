//! Rendering a whole video: decode, render and encode at once, then mux the source's tracks.
use crate::media::args::Args;
use crate::number::Real64;
use crate::text::{chars_of, is_text, lines_of, words_of};
use vstd::prelude::*;

verus! {

/// Work was stopped because the user asked for it.
#[derive(Clone, Copy, Debug, PartialEq, Eq, Structural)]
pub struct Cancelled;

impl Cancelled {
    pub fn message(self) -> (r: &'static str)
        ensures
            r@ == "Export cancelled"@,
    {
        "Export cancelled"
    }
}

pub fn check_cancel(cancel: bool) -> (r: Result<(), Cancelled>)
    ensures
        r == (if cancel {
            Err::<(), Cancelled>(Cancelled)
        } else {
            Ok::<(), Cancelled>(())
        }),
{
    if cancel {
        Err(Cancelled)
    } else {
        Ok(())
    }
}

// -------------------------------------------------------------------------------------------
// Encoders
// -------------------------------------------------------------------------------------------

/// Whether a line of FFmpeg's list of encoders is that of an encoder: its second word is the
/// name.
pub open spec fn names_encoder(line: Seq<char>, name: Seq<char>) -> bool {
    crate::text::words(line).len() > 1 && crate::text::words(line)[1] == name
}

pub open spec fn lists_encoder(listing: Seq<char>, name: Seq<char>) -> bool {
    exists|i: int|
        0 <= i < crate::text::lines(listing).len() && names_encoder(
            #[trigger] crate::text::lines(listing)[i],
            name,
        )
}

/// Whether an FFmpeg that lists these encoders provides one.
pub fn require_encoder(listing: &str, name: &str) -> (r: bool)
    ensures
        r == lists_encoder(listing@, name@),
{
    let chars: Vec<char> = chars_of(listing);
    let lines: Vec<Vec<char>> = lines_of(chars.as_slice());
    let mut i: usize = 0;
    while i < lines.len()
        invariant
            i <= lines@.len(),
            crate::text::views(lines@) == crate::text::lines(listing@),
            forall|k: int|
                0 <= k < i ==> !names_encoder(
                    #[trigger] crate::text::lines(listing@)[k],
                    name@,
                ),
        decreases lines@.len() - i,
    {
        let words: Vec<Vec<char>> = words_of(lines[i].as_slice());
        proof {
            assert(crate::text::lines(listing@)[i as int] == lines@[i as int]@);
            assert(crate::text::views(words@) == crate::text::words(lines@[i as int]@));
        }
        if words.len() > 1 {
            assert(crate::text::words(lines@[i as int]@)[1] == words@[1]@);
            if is_text(words[1].as_slice(), name) {
                assert(names_encoder(crate::text::lines(listing@)[i as int], name@));
                return true;
            }
        }
        i = i + 1;
    }
    false
}

// -------------------------------------------------------------------------------------------
// The order of an export
// -------------------------------------------------------------------------------------------

/// What an export does next.
#[derive(Clone, Copy, Debug, PartialEq, Eq, Structural)]
pub enum Step {
    /// Look up whether FFmpeg has the encoder.
    Encoders,
    /// Try the hardware encoder on a few frames.
    Hardware,
    /// See that the output is not the source.
    Output,
    /// Decode, render and encode every frame.
    Frames,
    /// Wait for the decoder to end, which gave this many frames.
    Decoder { frames: u64 },
    /// Wait for the encoder to end.
    Encoder,
    /// Put the tracks together, with the audio as it is or re-encoded.
    Mux { copy_audio: bool },
    /// Put the finished file in the output's place.
    Publish,
}

/// How a step ended.
#[derive(Clone, Copy, Debug, PartialEq, Eq, Structural)]
pub enum Outcome {
    Done,
    Failed,
    /// Frames: this many were encoded.
    Encoded(u64),
    /// Frames: writing to the encoder failed, usually because it exited; its log has the
    /// reason.
    WriteFailed,
}

/// Why an export stopped.
#[derive(Clone, Copy, Debug, PartialEq, Eq, Structural)]
pub enum Stop {
    Cancelled,
    /// FFmpeg lacks the encoder.
    NoEncoder,
    /// The hardware encoder does not work on this machine.
    NoHardware,
    /// The output is the source.
    SameFile,
    /// A stage failed, and both processes must be killed.
    Stage,
    /// Writing to the encoder failed: its own log says more than a broken pipe does, so it is
    /// waited for first.
    Write,
    /// A process failed.
    Process,
    NoFrames,
    /// Both ways to put the tracks together failed.
    BothMuxes,
    /// The finished file could not be put in place.
    Publish,
}

impl Stop {
    /// What to tell the user; none where what failed says it itself.
    pub fn message(self) -> (r: Option<&'static str>)
        ensures
            match r {
                Some(text) => Some(text@) == self.text(),
                None => self.text() is None,
            },
    {
        match self {
            Self::Cancelled => Some("Export cancelled"),
            Self::NoHardware => Some(
                "Selected hardware encoder is unavailable on this machine; choose Software",
            ),
            Self::SameFile => Some("Choose an output other than the source video"),
            Self::NoFrames => Some("No frames decoded"),
            Self::BothMuxes => Some("Audio remux and re-encoding both failed"),
            _ => None,
        }
    }

    pub open spec fn text(self) -> Option<Seq<char>> {
        match self {
            Stop::Cancelled => Some("Export cancelled"@),
            Stop::NoHardware => Some(
                "Selected hardware encoder is unavailable on this machine; choose Software"@,
            ),
            Stop::SameFile => Some("Choose an output other than the source video"@),
            Stop::NoFrames => Some("No frames decoded"@),
            Stop::BothMuxes => Some("Audio remux and re-encoding both failed"@),
            _ => None,
        }
    }
}

/// Where an export goes from a step.
#[derive(Clone, Copy, Debug, PartialEq, Eq, Structural)]
pub enum Next {
    Go(Step),
    Finished,
    Stopped(Stop),
}

/// An export on its way: what its plan says of the encoder and the audio, and what it has
/// tried.
#[derive(Clone, Copy, Debug, PartialEq, Eq, Structural)]
pub struct Export {
    /// The encoder is hardware, so it is tried first.
    pub hardware: bool,
    /// The audio can be copied as it is.
    pub copies_audio: bool,
}

impl Export {
    pub open spec fn first_step(self, cancel: bool) -> Next {
        if cancel {
            Next::Stopped(Stop::Cancelled)
        } else {
            Next::Go(Step::Encoders)
        }
    }

    /// What follows a step that ended so. A cancelled export stops where it stands before
    /// anything else is started or the file is put in place.
    pub open spec fn next_step(self, step: Step, outcome: Outcome, cancel: bool) -> Next {
        match step {
            Step::Encoders => if outcome != Outcome::Done {
                Next::Stopped(Stop::NoEncoder)
            } else if self.hardware {
                Next::Go(Step::Hardware)
            } else {
                Next::Go(Step::Output)
            },
            Step::Hardware => if outcome != Outcome::Done {
                Next::Stopped(Stop::NoHardware)
            } else {
                Next::Go(Step::Output)
            },
            Step::Output => if outcome != Outcome::Done {
                Next::Stopped(Stop::SameFile)
            } else {
                Next::Go(Step::Frames)
            },
            Step::Frames => match outcome {
                Outcome::Encoded(frames) => Next::Go(Step::Decoder { frames }),
                Outcome::WriteFailed => Next::Stopped(Stop::Write),
                _ => Next::Stopped(Stop::Stage),
            },
            Step::Decoder { frames } => if outcome != Outcome::Done {
                Next::Stopped(Stop::Process)
            } else if frames == 0 {
                Next::Stopped(Stop::NoFrames)
            } else {
                Next::Go(Step::Encoder)
            },
            Step::Encoder => if outcome != Outcome::Done {
                Next::Stopped(Stop::Process)
            } else if cancel {
                Next::Stopped(Stop::Cancelled)
            } else {
                Next::Go(Step::Mux { copy_audio: self.copies_audio })
            },
            Step::Mux { copy_audio } => if cancel {
                Next::Stopped(Stop::Cancelled)
            } else if outcome == Outcome::Done {
                Next::Go(Step::Publish)
            } else if copy_audio {
                Next::Go(Step::Mux { copy_audio: false })
            } else if self.copies_audio {
                Next::Stopped(Stop::BothMuxes)
            } else {
                Next::Stopped(Stop::Process)
            },
            Step::Publish => if outcome != Outcome::Done {
                Next::Stopped(Stop::Publish)
            } else {
                Next::Finished
            },
        }
    }

    pub fn begin(&self, cancel: bool) -> (r: Next)
        ensures
            r == self.first_step(cancel),
    {
        match check_cancel(cancel) {
            Err(_) => Next::Stopped(Stop::Cancelled),
            Ok(()) => Next::Go(Step::Encoders),
        }
    }

    pub fn after(&self, step: Step, outcome: Outcome, cancel: bool) -> (r: Next)
        ensures
            r == self.next_step(step, outcome, cancel),
    {
        let done: bool = outcome == Outcome::Done;
        match step {
            Step::Encoders => if !done {
                Next::Stopped(Stop::NoEncoder)
            } else if self.hardware {
                Next::Go(Step::Hardware)
            } else {
                Next::Go(Step::Output)
            },
            Step::Hardware => if !done {
                Next::Stopped(Stop::NoHardware)
            } else {
                Next::Go(Step::Output)
            },
            Step::Output => if !done {
                Next::Stopped(Stop::SameFile)
            } else {
                Next::Go(Step::Frames)
            },
            Step::Frames => match outcome {
                Outcome::Encoded(frames) => Next::Go(Step::Decoder { frames }),
                Outcome::WriteFailed => Next::Stopped(Stop::Write),
                _ => Next::Stopped(Stop::Stage),
            },
            Step::Decoder { frames } => if !done {
                Next::Stopped(Stop::Process)
            } else if frames == 0 {
                Next::Stopped(Stop::NoFrames)
            } else {
                Next::Go(Step::Encoder)
            },
            Step::Encoder => if !done {
                Next::Stopped(Stop::Process)
            } else if cancel {
                Next::Stopped(Stop::Cancelled)
            } else {
                Next::Go(Step::Mux { copy_audio: self.copies_audio })
            },
            Step::Mux { copy_audio } => if cancel {
                Next::Stopped(Stop::Cancelled)
            } else if done {
                Next::Go(Step::Publish)
            } else if copy_audio {
                Next::Go(Step::Mux { copy_audio: false })
            } else if self.copies_audio {
                Next::Stopped(Stop::BothMuxes)
            } else {
                Next::Stopped(Stop::Process)
            },
            Step::Publish => if !done {
                Next::Stopped(Stop::Publish)
            } else {
                Next::Finished
            },
        }
    }

    /// Whether an export went through these steps, each with how it ended and whether it had
    /// been cancelled by then, and stands at `last`.
    pub open spec fn went(self, trace: Seq<(Step, Outcome, bool)>, last: Step) -> bool
        decreases trace.len(),
    {
        if trace.len() == 0 {
            last == Step::Encoders
        } else {
            let (step, outcome, cancel) = trace.last();
            self.went(trace.drop_last(), step) && self.next_step(step, outcome, cancel) == Next::Go(
                last,
            )
        }
    }
}

/// How early a step comes.
spec fn order(step: Step) -> int {
    match step {
        Step::Encoders => 0,
        Step::Hardware => 1,
        Step::Output => 2,
        Step::Frames => 3,
        Step::Decoder { .. } => 4,
        Step::Encoder => 5,
        Step::Mux { copy_audio } => if copy_audio {
            6
        } else {
            7
        },
        Step::Publish => 8,
    }
}

/// An export takes no more than nine steps, each later than the one before.
pub proof fn exports_end(export: Export, trace: Seq<(Step, Outcome, bool)>, last: Step)
    requires
        export.went(trace, last),
    ensures
        trace.len() <= 8,
{
    lemma_steps_go_forward(export, trace, last);
}

proof fn lemma_steps_go_forward(export: Export, trace: Seq<(Step, Outcome, bool)>, last: Step)
    requires
        export.went(trace, last),
    ensures
        trace.len() <= order(last),
    decreases trace.len(),
{
    if trace.len() > 0 {
        lemma_steps_go_forward(export, trace.drop_last(), trace.last().0);
    }
}

/// The output is replaced only once frames were encoded, both processes ended well, and the
/// tracks were put together, none of it cancelled: the step before is always a mux that worked.
pub proof fn only_finished_files_are_published(
    export: Export,
    trace: Seq<(Step, Outcome, bool)>,
)
    requires
        export.went(trace, Step::Publish),
    ensures
        trace.len() >= 6,
        trace.last().0 is Mux,
        trace.last().1 == Outcome::Done,
        !trace.last().2,
        exists|i: int|
            0 <= i < trace.len() && (#[trigger] trace[i]).0 is Decoder && trace[i].0->frames > 0
                && trace[i].1 == Outcome::Done,
        exists|i: int|
            0 <= i < trace.len() && (#[trigger] trace[i]).0 == Step::Encoder && trace[i].1
                == Outcome::Done && !trace[i].2,
{
    lemma_passed(export, trace, Step::Publish);
}

/// What lies behind an export that stands at a step.
proof fn lemma_passed(export: Export, trace: Seq<(Step, Outcome, bool)>, last: Step)
    requires
        export.went(trace, last),
    ensures
        order(last) >= 2 ==> trace.len() >= 1,
        order(last) >= 3 ==> trace.len() >= 2,
        order(last) >= 4 ==> trace.len() >= 3,
        order(last) >= 5 ==> trace.len() >= 4 && exists|i: int|
            0 <= i < trace.len() && (#[trigger] trace[i]).0 is Decoder && trace[i].0->frames > 0
                && trace[i].1 == Outcome::Done,
        order(last) >= 6 ==> trace.len() >= 5 && exists|i: int|
            0 <= i < trace.len() && (#[trigger] trace[i]).0 == Step::Encoder && trace[i].1
                == Outcome::Done && !trace[i].2,
        order(last) >= 8 ==> trace.len() >= 6,
    decreases trace.len(),
{
    if trace.len() > 0 {
        let before = trace.drop_last();
        let n = trace.len() - 1;
        lemma_passed(export, before, trace.last().0);
        assert(forall|i: int| 0 <= i < before.len() ==> #[trigger] before[i] == trace[i]);
        assert(trace[n] == trace.last());
        if order(trace.last().0) >= 5 {
            let i = choose|i: int|
                0 <= i < before.len() && (#[trigger] before[i]).0 is Decoder && before[i].0->frames
                    > 0 && before[i].1 == Outcome::Done;
            assert(trace[i] == before[i]);
        }
        if order(trace.last().0) >= 6 {
            let i = choose|i: int|
                0 <= i < before.len() && (#[trigger] before[i]).0 == Step::Encoder && before[i].1
                    == Outcome::Done && !before[i].2;
            assert(trace[i] == before[i]);
        }
    }
}

// -------------------------------------------------------------------------------------------
// The order of an animation's export
// -------------------------------------------------------------------------------------------

/// What an animation's export does next.
#[derive(Clone, Copy, Debug, PartialEq, Eq, Structural)]
pub enum AnimationStep {
    /// Look up whether FFmpeg has the encoder.
    Encoders,
    /// See that the output is not the source.
    Output,
    /// Decode, render and encode every frame.
    Frames,
    /// Wait for the decoder to end, which gave this many frames.
    Decoder { frames: u64 },
    /// Wait for the encoder to end.
    Encoder,
    /// Go over what was encoded once more.
    Pass { index: usize },
    /// Put the finished file in the output's place.
    Publish,
}

/// Where an animation's export goes from a step.
#[derive(Clone, Copy, Debug, PartialEq, Eq, Structural)]
pub enum AnimationNext {
    Go(AnimationStep),
    Finished,
    Stopped(Stop),
}

/// An animation's export on its way.
#[derive(Clone, Copy, Debug, PartialEq, Eq, Structural)]
pub struct AnimationExport {
    /// How many passes follow the encoding.
    pub passes: usize,
}

impl AnimationExport {
    pub open spec fn first_step(self, cancel: bool) -> AnimationNext {
        if cancel {
            AnimationNext::Stopped(Stop::Cancelled)
        } else {
            AnimationNext::Go(AnimationStep::Encoders)
        }
    }

    /// What follows once the passes before `index` are done: that pass, or the end. A cancelled
    /// export stops before either.
    pub open spec fn next_pass(self, index: int, cancel: bool) -> AnimationNext {
        if cancel {
            AnimationNext::Stopped(Stop::Cancelled)
        } else if index < self.passes {
            AnimationNext::Go(AnimationStep::Pass { index: index as usize })
        } else {
            AnimationNext::Go(AnimationStep::Publish)
        }
    }

    /// What follows a step that ended so.
    pub open spec fn next_step(
        self,
        step: AnimationStep,
        outcome: Outcome,
        cancel: bool,
    ) -> AnimationNext {
        match step {
            AnimationStep::Encoders => if outcome != Outcome::Done {
                AnimationNext::Stopped(Stop::NoEncoder)
            } else {
                AnimationNext::Go(AnimationStep::Output)
            },
            AnimationStep::Output => if outcome != Outcome::Done {
                AnimationNext::Stopped(Stop::SameFile)
            } else {
                AnimationNext::Go(AnimationStep::Frames)
            },
            AnimationStep::Frames => match outcome {
                Outcome::Encoded(frames) => AnimationNext::Go(AnimationStep::Decoder { frames }),
                Outcome::WriteFailed => AnimationNext::Stopped(Stop::Write),
                _ => AnimationNext::Stopped(Stop::Stage),
            },
            AnimationStep::Decoder { frames } => if outcome != Outcome::Done {
                AnimationNext::Stopped(Stop::Process)
            } else if frames == 0 {
                AnimationNext::Stopped(Stop::NoFrames)
            } else {
                AnimationNext::Go(AnimationStep::Encoder)
            },
            AnimationStep::Encoder => if outcome != Outcome::Done {
                AnimationNext::Stopped(Stop::Process)
            } else {
                self.next_pass(0, cancel)
            },
            AnimationStep::Pass { index } => if outcome != Outcome::Done {
                AnimationNext::Stopped(Stop::Process)
            } else {
                self.next_pass(index + 1, cancel)
            },
            AnimationStep::Publish => if outcome != Outcome::Done {
                AnimationNext::Stopped(Stop::Publish)
            } else {
                AnimationNext::Finished
            },
        }
    }

    pub fn begin(&self, cancel: bool) -> (r: AnimationNext)
        ensures
            r == self.first_step(cancel),
    {
        match check_cancel(cancel) {
            Err(_) => AnimationNext::Stopped(Stop::Cancelled),
            Ok(()) => AnimationNext::Go(AnimationStep::Encoders),
        }
    }

    fn pass(&self, index: usize, cancel: bool) -> (r: AnimationNext)
        ensures
            r == self.next_pass(index as int, cancel),
    {
        if cancel {
            AnimationNext::Stopped(Stop::Cancelled)
        } else if index < self.passes {
            AnimationNext::Go(AnimationStep::Pass { index })
        } else {
            AnimationNext::Go(AnimationStep::Publish)
        }
    }

    pub fn after(&self, step: AnimationStep, outcome: Outcome, cancel: bool) -> (r: AnimationNext)
        requires
            step matches AnimationStep::Pass { index } ==> index < self.passes,
        ensures
            r == self.next_step(step, outcome, cancel),
    {
        let done: bool = outcome == Outcome::Done;
        match step {
            AnimationStep::Encoders => if !done {
                AnimationNext::Stopped(Stop::NoEncoder)
            } else {
                AnimationNext::Go(AnimationStep::Output)
            },
            AnimationStep::Output => if !done {
                AnimationNext::Stopped(Stop::SameFile)
            } else {
                AnimationNext::Go(AnimationStep::Frames)
            },
            AnimationStep::Frames => match outcome {
                Outcome::Encoded(frames) => AnimationNext::Go(AnimationStep::Decoder { frames }),
                Outcome::WriteFailed => AnimationNext::Stopped(Stop::Write),
                _ => AnimationNext::Stopped(Stop::Stage),
            },
            AnimationStep::Decoder { frames } => if !done {
                AnimationNext::Stopped(Stop::Process)
            } else if frames == 0 {
                AnimationNext::Stopped(Stop::NoFrames)
            } else {
                AnimationNext::Go(AnimationStep::Encoder)
            },
            AnimationStep::Encoder => if !done {
                AnimationNext::Stopped(Stop::Process)
            } else {
                self.pass(0, cancel)
            },
            AnimationStep::Pass { index } => if !done {
                AnimationNext::Stopped(Stop::Process)
            } else {
                self.pass(index + 1, cancel)
            },
            AnimationStep::Publish => if !done {
                AnimationNext::Stopped(Stop::Publish)
            } else {
                AnimationNext::Finished
            },
        }
    }

    /// Whether an animation's export went through these steps, each with how it ended and whether
    /// it had been cancelled by then, and stands at `last`.
    pub open spec fn went(
        self,
        trace: Seq<(AnimationStep, Outcome, bool)>,
        last: AnimationStep,
    ) -> bool
        decreases trace.len(),
    {
        if trace.len() == 0 {
            last == AnimationStep::Encoders
        } else {
            let (step, outcome, cancel) = trace.last();
            self.went(trace.drop_last(), step) && self.next_step(step, outcome, cancel)
                == AnimationNext::Go(last)
        }
    }
}

/// How early an animation's step comes.
spec fn animation_order(step: AnimationStep, passes: usize) -> int {
    match step {
        AnimationStep::Encoders => 0,
        AnimationStep::Output => 1,
        AnimationStep::Frames => 2,
        AnimationStep::Decoder { .. } => 3,
        AnimationStep::Encoder => 4,
        AnimationStep::Pass { index } => 5 + index,
        AnimationStep::Publish => 5 + passes,
    }
}

/// An animation replaces the output only after every step before, each once and in its order:
/// frames were encoded, both processes ended well, and every pass was made, none of it cancelled.
pub proof fn only_finished_animations_are_published(
    export: AnimationExport,
    trace: Seq<(AnimationStep, Outcome, bool)>,
)
    requires
        export.went(trace, AnimationStep::Publish),
    ensures
        trace.len() == 5 + export.passes,
        trace[3].0 is Decoder && trace[3].0->Decoder_frames > 0 && trace[3].1 == Outcome::Done,
        trace[4].0 == AnimationStep::Encoder && trace[4].1 == Outcome::Done && !trace[4].2,
        forall|i: int|
            0 <= i < export.passes ==> {
                &&& (#[trigger] trace[5 + i]).0 == AnimationStep::Pass { index: i as usize }
                &&& trace[5 + i].1 == Outcome::Done
                &&& !trace[5 + i].2
            },
{
    lemma_animation_steps(export, trace, AnimationStep::Publish);
}

proof fn lemma_animation_steps(
    export: AnimationExport,
    trace: Seq<(AnimationStep, Outcome, bool)>,
    last: AnimationStep,
)
    requires
        export.went(trace, last),
    ensures
        trace.len() == animation_order(last, export.passes),
        last matches AnimationStep::Pass { index } ==> index < export.passes,
        trace.len() > 3 ==> trace[3].0 is Decoder && trace[3].1 == Outcome::Done
            && trace[3].0->Decoder_frames > 0,
        trace.len() > 4 ==> trace[4].0 == AnimationStep::Encoder && trace[4].1 == Outcome::Done
            && !trace[4].2,
        forall|i: int|
            5 <= i < trace.len() ==> {
                &&& (#[trigger] trace[i]).0 == AnimationStep::Pass { index: (i - 5) as usize }
                &&& trace[i].1 == Outcome::Done
                &&& !trace[i].2
            },
    decreases trace.len(),
{
    if trace.len() > 0 {
        let before = trace.drop_last();
        let n = trace.len() - 1;
        lemma_animation_steps(export, before, trace.last().0);
        assert forall|i: int| 5 <= i < trace.len() implies {
            &&& (#[trigger] trace[i]).0 == AnimationStep::Pass { index: (i - 5) as usize }
            &&& trace[i].1 == Outcome::Done
            &&& !trace[i].2
        } by {
            if i < n {
                assert(before[i] == trace[i]);
            } else {
                assert(trace[i] == trace.last());
                assert(trace.last().0 is Pass);
            }
        }
        assert(n > 3 ==> before[3] == trace[3]);
        assert(n > 4 ==> before[4] == trace[4]);
    }
}

/// What FFmpeg is asked for its encoders.
pub fn encoders_args() -> (r: Args)
    ensures
        r@ == crate::media::args::ffmpeg_start() + crate::media::args::texts(
            seq!["-hide_banner"@, "-encoders"@],
        ),
{
    let mut r: Args = Args::ffmpeg();
    r.add(["-hide_banner", "-encoders"]);
    r
}

// -------------------------------------------------------------------------------------------
// Frames
// -------------------------------------------------------------------------------------------

/// How the loop that renders frames ended.
#[derive(Clone, Copy, Debug, PartialEq, Eq, Structural)]
pub enum Rendered {
    /// Every decoded frame was rendered and handed on.
    All,
    /// Nothing took the frames any more: the encoder's writer had stopped.
    NotTaken,
    /// It was cancelled, or decoding or rendering failed.
    Failed,
}

/// What is done next with the frames of an export, which are numbered from one.
#[derive(Clone, Copy, Debug, PartialEq, Eq, Structural)]
pub enum Work {
    /// The next frame is taken from the decoder, `done` of them having been handed on.
    Receive { done: u64 },
    Render { frame: u64 },
    /// The frame is handed to the encoder's writer.
    Write { frame: u64 },
    Stop { rendered: Rendered, done: u64 },
}

/// What came of a piece of work.
#[derive(Clone, Copy, Debug, PartialEq, Eq, Structural)]
pub enum Came {
    /// A frame was decoded, rendered or taken.
    Frame,
    /// Decoding or rendering failed, or the writer had stopped.
    Failed,
    /// There are no more frames.
    Nothing,
}

/// What reading a frame came to, from how many bytes its first read gave, if it did not fail, and
/// whether the rest of them could be read: a frame that is cut off is none.
pub fn decoded(first: Option<usize>, rest: bool) -> (r: Came)
    ensures
        r == (match first {
            Some(0) => Came::Nothing,
            Some(_) => if rest {
                Came::Frame
            } else {
                Came::Failed
            },
            None => Came::Failed,
        }),
{
    match first {
        Some(0) => Came::Nothing,
        Some(_) => if rest {
            Came::Frame
        } else {
            Came::Failed
        },
        None => Came::Failed,
    }
}

impl Work {
    /// What is done once this is and came to something, and the export had been cancelled by then
    /// or not.
    pub open spec fn then_done(self, came: Came, cancelled: bool) -> Work {
        match self {
            Work::Receive { done } => if came == Came::Nothing {
                Work::Stop { rendered: Rendered::All, done }
            } else if cancelled || came == Came::Failed {
                Work::Stop { rendered: Rendered::Failed, done }
            } else {
                Work::Render { frame: (done + 1) as u64 }
            },
            Work::Render { frame } => if cancelled || came != Came::Frame {
                Work::Stop { rendered: Rendered::Failed, done: (frame - 1) as u64 }
            } else {
                Work::Write { frame }
            },
            Work::Write { frame } => if came != Came::Frame {
                Work::Stop { rendered: Rendered::NotTaken, done: (frame - 1) as u64 }
            } else {
                Work::Receive { done: frame }
            },
            Work::Stop { .. } => self,
        }
    }

    /// Whether the frames are numbered as they can be: from one, and no further than they count.
    pub open spec fn wf(self) -> bool {
        match self {
            Work::Receive { done } => done < u64::MAX,
            Work::Render { frame } => 1 <= frame,
            Work::Write { frame } => 1 <= frame,
            Work::Stop { .. } => true,
        }
    }

    pub fn after(self, came: Came, cancelled: bool) -> (r: Work)
        requires
            self.wf(),
        ensures
            r == self.then_done(came, cancelled),
    {
        match self {
            Work::Receive { done } => match came {
                Came::Nothing => Work::Stop { rendered: Rendered::All, done },
                Came::Failed => Work::Stop { rendered: Rendered::Failed, done },
                Came::Frame => if cancelled {
                    Work::Stop { rendered: Rendered::Failed, done }
                } else {
                    Work::Render { frame: done + 1 }
                },
            },
            Work::Render { frame } => match came {
                Came::Frame if !cancelled => Work::Write { frame },
                _ => Work::Stop { rendered: Rendered::Failed, done: frame - 1 },
            },
            Work::Write { frame } => match came {
                Came::Frame => Work::Receive { done: frame },
                _ => Work::Stop { rendered: Rendered::NotTaken, done: frame - 1 },
            },
            Work::Stop { .. } => self,
        }
    }
}

/// Whether the frames of an export went through this work, each with what it came to and whether
/// the export had been cancelled by then, and `last` comes next.
pub open spec fn worked(trace: Seq<(Work, Came, bool)>, last: Work) -> bool
    decreases trace.len(),
{
    if trace.len() == 0 {
        last == Work::Receive { done: 0 }
    } else {
        let (work, came, cancelled) = trace.last();
        worked(trace.drop_last(), work) && last == work.then_done(came, cancelled)
    }
}

/// The work at a place of a run that has not stopped: every frame is received, rendered and
/// written, in this order and in theirs.
pub open spec fn in_order(place: int) -> Work {
    let frame = (place / 3 + 1) as u64;
    if place % 3 == 0 {
        Work::Receive { done: (place / 3) as u64 }
    } else if place % 3 == 1 {
        Work::Render { frame }
    } else {
        Work::Write { frame }
    }
}

/// While an export's frames go on, none is skipped, repeated or overtaken: the k-th frame received
/// is rendered with the number k and written after frame k - 1 and before the next is rendered,
/// and everything up to then has worked.
pub proof fn frames_keep_their_order(trace: Seq<(Work, Came, bool)>, last: Work)
    requires
        worked(trace, last),
        !(last is Stop),
        trace.len() <= u64::MAX,
    ensures
        last == in_order(trace.len() as int),
        forall|i: int|
            0 <= i < trace.len() ==> (#[trigger] trace[i]).0 == in_order(i) && trace[i].1
                == Came::Frame,
    decreases trace.len(),
{
    if trace.len() > 0 {
        let before = trace.drop_last();
        frames_keep_their_order(before, trace.last().0);
        assert forall|i: int| 0 <= i < trace.len() implies (#[trigger] trace[i]).0 == in_order(i)
            && trace[i].1 == Came::Frame by {
            if i < before.len() {
                assert(before[i] == trace[i]);
            }
        }
    }
}

/// Nothing is rendered or written after a cancel that was seen, nor after a frame that was cut
/// off, could not be decoded or rendered, or was not taken.
pub proof fn nothing_follows_a_cancel(trace: Seq<(Work, Came, bool)>, last: Work, i: int)
    requires
        worked(trace, last),
        0 <= i < trace.len(),
        trace[i].1 != Came::Frame || (trace[i].2 && !(trace[i].0 is Write)),
    ensures
        last is Stop,
        forall|j: int| i < j < trace.len() ==> (#[trigger] trace[j]).0 is Stop,
    decreases trace.len(),
{
    let before = trace.drop_last();
    if i < before.len() {
        assert(before[i] == trace[i]);
        nothing_follows_a_cancel(before, trace.last().0, i);
        assert forall|j: int| i < j < trace.len() implies (#[trigger] trace[j]).0 is Stop by {
            if j < before.len() {
                assert(before[j] == trace[j]);
            }
        }
    }
}

/// An export whose frames all ended well has written as many as it counts, each of those it
/// received.
pub proof fn all_frames_are_written(trace: Seq<(Work, Came, bool)>, work: Work, cancelled: bool)
    requires
        worked(trace, work),
        !(work is Stop),
        trace.len() <= u64::MAX,
        work.then_done(Came::Nothing, cancelled) matches Work::Stop { rendered, .. } && rendered
            == Rendered::All,
    ensures
        trace.len() % 3 == 0,
        work.then_done(Came::Nothing, cancelled) == (Work::Stop {
            rendered: Rendered::All,
            done: (trace.len() / 3) as u64,
        }),
        forall|k: int|
            #![trigger trace[3 * k + 2]]
            0 <= k < trace.len() / 3 ==> trace[3 * k + 2].0 == (Work::Write {
                frame: (k + 1) as u64,
            }) && trace[3 * k + 2].1 == Came::Frame,
{
    frames_keep_their_order(trace, work);
    assert forall|k: int|
        #![trigger trace[3 * k + 2]]
        0 <= k < trace.len() / 3 implies trace[3 * k + 2].0 == (Work::Write {
        frame: (k + 1) as u64,
    }) && trace[3 * k + 2].1 == Came::Frame by {
        assert((3 * k + 2) % 3 == 2 && (3 * k + 2) / 3 == k);
    }
}

/// How the frames of an export ended, from how rendering and writing did: an error in
/// rendering comes first, then one in writing.
pub fn pipeline(rendered: Rendered, written: bool, count: u64) -> (r: Outcome)
    requires
        rendered == Rendered::NotTaken ==> !written,
    ensures
        r == (if rendered == Rendered::Failed {
            Outcome::Failed
        } else if !written {
            Outcome::WriteFailed
        } else {
            Outcome::Encoded(count)
        }),
{
    match rendered {
        Rendered::Failed => Outcome::Failed,
        _ => if !written {
            Outcome::WriteFailed
        } else {
            Outcome::Encoded(count)
        },
    }
}

/// How much of a video is done when `done` seconds of it are.
pub open spec fn share_done(done: Real64, duration: Real64) -> Real64 {
    done.over(duration).lesser(Real64::of(1))
}

/// About how many more seconds an export takes that has run for `elapsed`.
pub open spec fn time_left(fraction: Real64, elapsed: Real64) -> Real64 {
    if Real64::of(0).below(fraction) {
        elapsed.times(Real64::of(1).minus(fraction)).over(fraction)
    } else {
        Real64::of(0)
    }
}

/// How much of a video is rendered when `done` seconds of its `duration` are, and about how
/// many more seconds it takes.
pub fn progress(done: Real64, duration: Real64, elapsed: Real64) -> (r: (Real64, Real64))
    ensures
        r.0 == share_done(done, duration),
        r.1 == time_left(r.0, elapsed),
{
    let fraction: Real64 = done.div(duration).min(Real64::from_integer(1));
    let remaining: Real64 = if Real64::from_integer(0).less(fraction) {
        elapsed.mul(Real64::from_integer(1).sub(fraction)).div(fraction)
    } else {
        Real64::from_integer(0)
    };
    (fraction, remaining)
}

// -------------------------------------------------------------------------------------------
// Logs
// -------------------------------------------------------------------------------------------

/// How much of a process's log is kept.
pub const LOG_LIMIT: usize = 16_384;

/// The last bytes of a log, as many as are kept.
pub open spec fn log_tail(log: Seq<u8>) -> Seq<u8> {
    if log.len() <= LOG_LIMIT {
        log
    } else {
        log.skip(log.len() - LOG_LIMIT)
    }
}

/// Adds to a log and drops its start where it grows too long.
pub fn extend_log(log: &mut Vec<u8>, bytes: &[u8])
    requires
        old(log)@.len() + bytes@.len() <= usize::MAX,
    ensures
        final(log)@ == log_tail(old(log)@ + bytes@),
        final(log)@.len() <= LOG_LIMIT,
{
    let mut all: Vec<u8> = Vec::new();
    let total: usize = log.len() + bytes.len();
    let excess: usize = if total > LOG_LIMIT {
        total - LOG_LIMIT
    } else {
        0
    };
    let ghost whole = log@ + bytes@;
    let mut i: usize = excess;
    while i < total
        invariant
            total == log@.len() + bytes@.len(),
            whole == log@ + bytes@,
            *log == *old(log),
            excess <= i <= total,
            all@ == whole.subrange(excess as int, i as int),
        decreases total - i,
    {
        let b: u8 = if i < log.len() {
            log[i]
        } else {
            bytes[i - log.len()]
        };
        all.push(b);
        assert(whole.subrange(excess as int, i + 1) == whole.subrange(excess as int, i as int).push(
            whole[i as int],
        ));
        i = i + 1;
    }
    assert(all@ == log_tail(whole));
    *log = all;
}

/// Adding to a log in parts keeps the same end of it as adding all at once.
pub proof fn logs_keep_their_end(log: Seq<u8>, first: Seq<u8>, second: Seq<u8>)
    ensures
        log_tail(log_tail(log + first) + second) == log_tail(log + first + second),
{
    assert(log_tail(log_tail(log + first) + second) =~= log_tail(log + first + second));
}

} // verus!
