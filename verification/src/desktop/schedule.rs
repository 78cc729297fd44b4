//! The preview schedule: whether the preview on screen is out of date, and when to render the
//! next one. Edits and gallery auditions are rendered once they settle, one preview at a time,
//! and a preview that comes back for settings since replaced is never shown.
//!
//! Moments are nanoseconds on a clock that only moves forward.
use vstd::prelude::*;

verus! {

/// How long a change must stay unchanged before it becomes an undo step and is previewed, so a
/// burst of edits, such as arrow-key steps, renders once: 180 ms.
pub const SETTLE: u64 = 180_000_000;

/// What changed what the preview should show.
#[derive(Clone, Copy, Debug, PartialEq, Eq, Structural, PartialOrd, Ord)]
pub enum Change {
    /// The settings or the source. Previewed only with live preview on; otherwise it waits for
    /// Refresh.
    Edit,
    /// A look offered from a gallery, or taken back. Previewed whether or not live preview is
    /// on, since pointing at a look is asking to see it.
    Audition,
}

/// What a pending change needs on this frame.
#[derive(Clone, Copy, Debug, PartialEq, Eq, Structural)]
pub enum Due {
    /// Nothing: no change is pending, or it has not settled.
    Nothing,
    /// The change has settled, so it becomes an undo step. With live preview off, the preview
    /// waits for Refresh.
    Commit,
    /// The change has settled: it becomes an undo step and is previewed.
    Preview,
}

/// What a schedule holds.
pub struct Timeline {
    /// Counts the changes; a preview is of the revision it was asked for.
    pub revision: nat,
    /// Changed since the last preview was asked for: the change that asks the most, if any.
    pub pending: Option<Change>,
    pub changed_at: nat,
    /// A preview has been asked for and has not come back.
    pub rendering: bool,
    /// The revision the picture on screen shows.
    pub shown: Option<nat>,
    /// Preview every edit once it settles, rather than on Refresh.
    pub live: bool,
}

impl Timeline {
    /// The picture on screen is of no change to come.
    pub open spec fn wf(self) -> bool {
        self.shown matches Some(shown) ==> shown <= self.revision
    }

    pub open spec fn start(now: nat) -> Timeline {
        Timeline {
            revision: 0,
            pending: Some(Change::Edit),
            changed_at: now,
            rendering: false,
            shown: None,
            live: true,
        }
    }

    pub open spec fn changed(self, change: Change, now: nat) -> Timeline {
        Timeline {
            revision: self.revision + 1,
            pending: Some(
                if self.pending == Some(Change::Audition) {
                    Change::Audition
                } else {
                    change
                },
            ),
            changed_at: now,
            ..self
        }
    }

    /// The schedule after several changes.
    pub open spec fn changed_often(self, changes: Seq<(Change, nat)>) -> Timeline
        decreases changes.len(),
    {
        if changes.len() == 0 {
            self
        } else {
            self.changed_often(changes.drop_last()).changed(changes.last().0, changes.last().1)
        }
    }

    /// Whether the last change has stayed unchanged for long enough.
    pub open spec fn settled(self, now: nat) -> bool {
        now - self.changed_at >= SETTLE
    }

    pub open spec fn due(self, now: nat, pointer_down: bool) -> Due {
        match self.pending {
            Some(change) => if !self.settled(now) || pointer_down {
                Due::Nothing
            } else if self.live || change == Change::Audition {
                Due::Preview
            } else {
                Due::Commit
            },
            None => Due::Nothing,
        }
    }

    pub open spec fn taken(self) -> Timeline {
        if self.rendering {
            self
        } else {
            Timeline { pending: None, rendering: true, ..self }
        }
    }

    /// Whether frames must keep coming for the schedule to move on.
    pub open spec fn wants_frames(self, now: nat) -> bool {
        self.rendering || (self.pending matches Some(change) && (self.live || change
            == Change::Audition || !self.settled(now)))
    }

    pub open spec fn current(self) -> bool {
        self.shown == Some(self.revision)
    }
}

pub struct Schedule {
    revision: u64,
    pending: Option<Change>,
    changed_at: u64,
    rendering: bool,
    shown: Option<u64>,
    live: bool,
}

impl View for Schedule {
    type V = Timeline;

    closed spec fn view(&self) -> Timeline {
        Timeline {
            revision: self.revision as nat,
            pending: self.pending,
            changed_at: self.changed_at as nat,
            rendering: self.rendering,
            shown: match self.shown {
                Some(shown) => Some(shown as nat),
                None => None,
            },
            live: self.live,
        }
    }
}

impl Schedule {
    /// A schedule whose first preview, of the source as it opens, is already pending.
    pub fn new(now: u64) -> (r: Self)
        ensures
            r@ == Timeline::start(now as nat),
            r@.wf(),
    {
        Self {
            revision: 0,
            pending: Some(Change::Edit),
            changed_at: now,
            rendering: false,
            shown: None,
            live: true,
        }
    }

    /// Whether every edit is previewed once it settles, rather than on Refresh.
    pub fn live(&self) -> (r: bool)
        ensures
            r == self@.live,
    {
        self.live
    }

    pub fn set_live(&mut self, live: bool)
        ensures
            final(self)@ == (Timeline { live, ..old(self)@ }),
    {
        self.live = live;
    }

    /// Records a change at `now`. The picture on screen is out of date from here on.
    pub fn changed(&mut self, change: Change, now: u64)
        requires
            old(self)@.revision < u64::MAX,
        ensures
            final(self)@ == old(self)@.changed(change, now as nat),
            old(self)@.wf() ==> final(self)@.wf() && !final(self)@.current(),
    {
        self.revision = self.revision + 1;
        self.pending =
        match self.pending {
            Some(Change::Audition) => Some(Change::Audition),
            _ => Some(change),
        };
        self.changed_at = now;
    }

    fn has_settled(&self, now: u64) -> (r: bool)
        ensures
            r == self@.settled(now as nat),
    {
        now >= self.changed_at && now - self.changed_at >= SETTLE
    }

    /// What the pending change needs at `now`. Nothing settles while the pointer is held down,
    /// so a slider being dragged renders when it is let go.
    pub fn due(&self, now: u64, pointer_down: bool) -> (r: Due)
        ensures
            r == self@.due(now as nat, pointer_down),
    {
        match self.pending {
            Some(change) => if !self.has_settled(now) || pointer_down {
                Due::Nothing
            } else if self.live || change == Change::Audition {
                Due::Preview
            } else {
                Due::Commit
            },
            None => Due::Nothing,
        }
    }

    /// Whether frames must keep coming for the schedule to move on at `now`: a change is still
    /// settling or waiting to be previewed, or a preview is on its way.
    pub fn needs_frames(&self, now: u64) -> (r: bool)
        ensures
            r == self@.wants_frames(now as nat),
    {
        let waiting: bool = match self.pending {
            Some(change) => self.live || change == Change::Audition || !self.has_settled(now),
            None => false,
        };
        waiting || self.rendering
    }

    /// Asks for a preview of the pending change, or of the current settings when nothing is
    /// pending: the revision to render. `None` while another preview is still rendering, which
    /// leaves the change pending for when it is back.
    pub fn take(&mut self) -> (r: Option<u64>)
        ensures
            final(self)@ == old(self)@.taken(),
            match r {
                Some(revision) => !old(self)@.rendering && revision == old(self)@.revision,
                None => old(self)@.rendering,
            },
    {
        if self.rendering {
            return None;
        }
        self.pending = None;
        self.rendering = true;
        Some(self.revision)
    }

    /// A preview asked for with `take` came back, rendered or not. Whether it is of the current
    /// revision; one of an older revision must not be shown.
    pub fn returned(&mut self, revision: u64) -> (r: bool)
        ensures
            r == (revision == old(self)@.revision),
            final(self)@ == (Timeline { rendering: false, ..old(self)@ }),
    {
        self.rendering = false;
        revision == self.revision
    }

    /// The picture on screen now shows the current revision.
    pub fn show_current(&mut self)
        ensures
            final(self)@ == (Timeline { shown: Some(old(self)@.revision), ..old(self)@ }),
            final(self)@.current(),
            final(self)@.wf(),
    {
        self.shown = Some(self.revision);
    }

    /// Whether the picture on screen shows the current revision.
    pub fn is_current(&self) -> (r: bool)
        ensures
            r == self@.current(),
    {
        match self.shown {
            Some(shown) => shown == self.revision,
            None => false,
        }
    }

    pub fn rendering(&self) -> (r: bool)
        ensures
            r == self@.rendering,
    {
        self.rendering
    }

    /// Whether a change waits to be previewed.
    pub fn is_pending(&self) -> (r: bool)
        ensures
            r == (self@.pending is Some),
    {
        self.pending.is_some()
    }

    /// Forgets the pending change without previewing it, as playback does: it renders its own
    /// frames.
    pub fn drop_pending(&mut self)
        ensures
            final(self)@ == (Timeline { pending: None, ..old(self)@ }),
    {
        self.pending = None;
    }

    /// Nothing more will be rendered: the renderer is gone. Drops the pending change and the
    /// preview on its way.
    pub fn stop(&mut self)
        ensures
            final(self)@ == (Timeline { pending: None, rendering: false, ..old(self)@ }),
    {
        self.pending = None;
        self.rendering = false;
    }
}

/// A preview asked for before any later change is of another revision than the current one when
/// it comes back, so it is never shown; and the picture on screen is out of date.
pub proof fn a_late_preview_is_never_current(s: Timeline, changes: Seq<(Change, nat)>)
    requires
        s.wf(),
        changes.len() > 0,
    ensures
        s.taken().changed_often(changes).revision != s.revision,
        !s.taken().changed_often(changes).current(),
{
    lemma_changes_count(s.taken(), changes);
}

proof fn lemma_changes_count(s: Timeline, changes: Seq<(Change, nat)>)
    ensures
        s.changed_often(changes).revision == s.revision + changes.len(),
        s.changed_often(changes).shown == s.shown,
        s.changed_often(changes).live == s.live,
    decreases changes.len(),
{
    if changes.len() > 0 {
        lemma_changes_count(s, changes.drop_last());
    }
}

/// Once a look has been auditioned it is previewed when it settles, whatever is edited after it
/// and whether or not live preview is on.
pub proof fn edits_do_not_undo_an_audition(s: Timeline, changes: Seq<(Change, nat)>, now: nat)
    requires
        s.pending == Some(Change::Audition),
        s.changed_often(changes).settled(now),
    ensures
        s.changed_often(changes).due(now, false) == Due::Preview,
    decreases changes.len(),
{
    lemma_audition_stays(s, changes);
}

proof fn lemma_audition_stays(s: Timeline, changes: Seq<(Change, nat)>)
    requires
        s.pending == Some(Change::Audition),
    ensures
        s.changed_often(changes).pending == Some(Change::Audition),
    decreases changes.len(),
{
    if changes.len() > 0 {
        lemma_audition_stays(s, changes.drop_last());
    }
}

/// While a preview is on its way no other is asked for, and the change that waits for it stays
/// pending.
pub proof fn one_preview_at_a_time(s: Timeline)
    ensures
        s.taken().rendering,
        s.taken().taken() == s.taken(),
        s.rendering ==> s.taken().pending == s.pending,
{
}

} // verus!
