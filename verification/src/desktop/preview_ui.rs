//! The preview area: what it warns of, and how a video is stepped through.
use crate::crt::config::Config;
use crate::number::{Real32, Real64};
use crate::text::decimal_text;
use vstd::prelude::*;

verus! {

// -------------------------------------------------------------------------------------------
// The mask
// -------------------------------------------------------------------------------------------

/// Whether a mask is so dense on a canvas that it may alias: under 6 pixels to a column or 3 to a
/// row.
pub open spec fn dense(output: (u32, u32), repeats: Seq<Real32>) -> bool {
    ||| Real32::of(output.0 as nat).over(repeats[0]).below(Real32::of(6))
    ||| Real32::of(output.1 as nat).over(repeats[1]).below(Real32::of(3))
}

/// Whether the mask may alias in a preview at most `limit` pixels along a side.
pub fn dense_mask(c: &Config, input: (u32, u32), limit: Option<u32>) -> (r: bool)
    ensures
        c.fault_for(input) is Some ==> !r,
        c.fault_for(input) is None ==> r == {
            let size = Config::scaled_size(c.output_of(input)->Ok_0, limit);
            crate::crt::config::size_ok(size) && dense(size, c.repeats(c.signal_of(input)->Ok_0))
        },
{
    let small: Config = match c.with_max_output_side(input, limit) {
        Ok(small) => small,
        Err(_) => {
            return false;
        },
    };
    let ghost size = Config::scaled_size(c.output_of(input)->Ok_0, limit);
    proof {
        lemma_small_sizes(*c, small, input, size);
    }
    match (small.output_size(input), small.signal_size(input)) {
        (Ok(output), Ok(signal)) => {
            let repeats: [Real32; 2] = small.mask_repeats.resolve(signal);
            assert(repeats@ =~= c.repeats(signal));
            Real32::from_integer(output.0 as u64).div(repeats[0]).less(Real32::from_integer(6))
                || Real32::from_integer(output.1 as u64).div(repeats[1]).less(
                Real32::from_integer(3),
            )
        },
        _ => false,
    }
}

proof fn lemma_small_sizes(c: Config, small: Config, input: (u32, u32), size: (u32, u32))
    requires
        c.fault_for(input) is None,
        small.alike_but_sizes(c),
        small.signal@ == c.signal@,
        small.output@ == Config::size_text(size),
    ensures
        small.signal_of(input) == c.signal_of(input),
        small.mask_repeats == c.mask_repeats,
        small.output_of(input) == if crate::crt::config::size_ok(size) {
            Ok::<(u32, u32), crate::crt::config::SizeError>(size)
        } else {
            Err(crate::crt::config::SizeError::Range)
        },
{
    crate::crt::canvas::alike_looks_are_judged_alike(small, c, input);
    crate::crt::canvas::written_outputs_read_back(small, size, input);
}

// -------------------------------------------------------------------------------------------
// Stepping
// -------------------------------------------------------------------------------------------

/// Which frame of a video is wanted.
#[derive(Clone, Copy, PartialEq, Eq, Structural, Debug)]
pub enum Seek {
    Back,
    Forward,
    /// This one, counted from one as it is shown.
    To(u64),
}

/// The last frame of a video.
pub open spec fn last_frame(frames: u64) -> u64 {
    if frames == 0 {
        0
    } else {
        (frames - 1) as u64
    }
}

/// The frame that a step from `frame` selects.
pub open spec fn selected(frame: u64, frames: u64, seek: Seek) -> u64 {
    let last = last_frame(frames);
    match seek {
        Seek::Back => if frame == 0 {
            0
        } else {
            (frame - 1) as u64
        },
        Seek::Forward => if frame + 1 > last {
            last
        } else {
            (frame + 1) as u64
        },
        Seek::To(shown) => if shown == 0 {
            0
        } else if shown - 1 > last {
            last
        } else {
            (shown - 1) as u64
        },
    }
}

/// The frame that a step selects, of a video of `frames` that shows `frame`.
pub fn select(frame: u64, frames: u64, seek: Seek) -> (r: u64)
    ensures
        r == selected(frame, frames, seek),
{
    let last: u64 = if frames == 0 {
        0
    } else {
        frames - 1
    };
    match seek {
        Seek::Back => if frame == 0 {
            0
        } else {
            frame - 1
        },
        Seek::Forward => if frame >= last {
            last
        } else {
            frame + 1
        },
        Seek::To(shown) => if shown == 0 {
            0
        } else if shown - 1 > last {
            last
        } else {
            shown - 1
        },
    }
}

/// A step forward and one back returns to the frame, short of the last.
pub proof fn steps_take_each_other_back(frame: u64, frames: u64)
    requires
        frame < last_frame(frames),
    ensures
        selected(selected(frame, frames, Seek::Forward), frames, Seek::Back) == frame,
        selected(selected(frame, frames, Seek::Forward), frames, Seek::Forward) <= last_frame(
            frames,
        ),
{
}

/// Whether a selected frame is loaded: once its selecting has ended, where the video can be
/// stepped, and it is another than the one shown.
pub fn seeks(ended: bool, enabled: bool, frame: u64, selected: u64) -> (r: bool)
    ensures
        r == (ended && enabled && selected != frame),
{
    ended && enabled && selected != frame
}

// -------------------------------------------------------------------------------------------
// The clock
// -------------------------------------------------------------------------------------------

/// A number of at least two digits.
pub open spec fn two_digits(n: nat) -> Seq<char> {
    if n < 10 {
        "0"@ + crate::text::decimal(n)
    } else {
        crate::text::decimal(n)
    }
}

/// Minutes and seconds.
pub open spec fn clock_text(time: Real64) -> Seq<char> {
    let seconds = time.truncated(u64::MAX as nat);
    two_digits(seconds / 60) + ":"@ + two_digits(seconds % 60)
}

fn push_two_digits(text: &mut String, n: u64)
    ensures
        final(text)@ == old(text)@ + two_digits(n as nat),
{
    let ghost before = text@;
    if n < 10 {
        text.append("0");
    }
    text.append(decimal_text(n).as_str());
    assert(text@ =~= before + two_digits(n as nat));
}

/// A time in a video as minutes and seconds.
pub fn clock(time: Real64) -> (r: String)
    ensures
        r@ == clock_text(time),
{
    let seconds: u64 = time.truncate(u64::MAX);
    let mut r: String = String::new();
    push_two_digits(&mut r, seconds / 60);
    r.append(":");
    push_two_digits(&mut r, seconds % 60);
    assert(r@ =~= clock_text(time));
    r
}

/// A time is told in whole minutes and the seconds past them, which are below sixty and take two
/// digits.
pub proof fn clocks_tell_minutes_and_seconds(time: Real64)
    ensures
        exists|minutes: nat, seconds: nat|
            {
                &&& seconds < 60
                &&& 60 * minutes + seconds == time.truncated(u64::MAX as nat)
                &&& (#[trigger] two_digits(seconds)).len() == 2
                &&& clock_text(time) == #[trigger] two_digits(minutes) + ":"@ + two_digits(seconds)
            },
{
    let whole = time.truncated(u64::MAX as nat);
    let (minutes, seconds) = (whole / 60, whole % 60);
    reveal_with_fuel(crate::text::decimal, 3);
    reveal_strlit("0");
    assert(two_digits(seconds).len() == 2);
    assert(clock_text(time) == two_digits(minutes) + ":"@ + two_digits(seconds));
}

} // verus!
