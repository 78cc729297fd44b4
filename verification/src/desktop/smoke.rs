//! A run without a person: open the window, wait for a rendered preview, save a screenshot and
//! quit.
//!
//! Moments are nanoseconds on a clock that only moves forward.
use vstd::prelude::*;

verus! {

/// How long a run may take to get its screenshot: two minutes.
pub const PATIENCE: u64 = 120_000_000_000;

/// What a run shows and where it saves the screenshot. It never reads or writes the data that a
/// person's own runs keep.
#[derive(Debug)]
pub struct Smoke {
    pub screenshot: String,
    /// Screenshot the welcome as it first appears, not waiting for a preview.
    pub welcome: bool,
    /// Open the video export dialog once a preview is ready, and screenshot that.
    pub export: bool,
    /// Open the preset gallery, and wait for its thumbnails.
    pub gallery: bool,
    /// Open the LUT gallery, and wait for its thumbnails.
    pub lut_gallery: bool,
    pub requested: bool,
    pub started: u64,
}

/// What a run needs on this frame.
#[derive(Clone, Copy, PartialEq, Eq, Structural, Debug)]
pub enum Step {
    /// Open the export dialog, and draw again.
    OpenExport,
    /// Fail: the preview never came.
    TimedOut,
    /// Take the screenshot.
    Screenshot,
    Wait,
}

impl Smoke {
    pub fn new(screenshot: String, now: u64) -> (r: Self)
        ensures
            r == (Smoke {
                screenshot,
                welcome: false,
                export: false,
                gallery: false,
                lut_gallery: false,
                requested: false,
                started: now,
            }),
    {
        Smoke {
            screenshot,
            welcome: false,
            export: false,
            gallery: false,
            lut_gallery: false,
            requested: false,
            started: now,
        }
    }

    pub open spec fn step(self, ready: bool, thumbnails_pending: bool, now: u64) -> Step {
        if ready && self.export {
            Step::OpenExport
        } else if now - self.started > PATIENCE {
            Step::TimedOut
        } else if (self.welcome || (ready && !thumbnails_pending)) && !self.requested {
            Step::Screenshot
        } else {
            Step::Wait
        }
    }

    /// Drives a run: once the preview is `ready`, opens the export dialog if asked to, then takes
    /// the screenshot, once. A run that never gets there fails rather than hangs.
    pub fn advance(&mut self, ready: bool, thumbnails_pending: bool, now: u64) -> (r: Step)
        ensures
            r == old(self).step(ready, thumbnails_pending, now),
            *final(self) == (Smoke {
                export: old(self).export && r != Step::OpenExport,
                requested: old(self).requested || r == Step::Screenshot,
                ..*old(self)
            }),
    {
        if ready && self.export {
            self.export = false;
            return Step::OpenExport;
        }
        if now > self.started && now - self.started > PATIENCE {
            return Step::TimedOut;
        }
        if (self.welcome || (ready && !thumbnails_pending)) && !self.requested {
            self.requested = true;
            return Step::Screenshot;
        }
        Step::Wait
    }
}

/// A run takes one screenshot: none after the first.
pub proof fn one_screenshot(smoke: Smoke, ready: bool, thumbnails_pending: bool, now: u64)
    requires
        smoke.requested,
    ensures
        smoke.step(ready, thumbnails_pending, now) != Step::Screenshot,
{
}

} // verus!
