//! The work the interface hands out: previews and thumbnails on a thread of their own, and
//! loading, exports and playback on another, one at a time.
use crate::crt::config::Config;
use crate::crt::picture::Picture;
use crate::text::owned;
use std::sync::Arc;
use vstd::prelude::*;

verus! {

/// A job could not be sent because its worker has stopped.
#[derive(Clone, Copy, Debug, PartialEq, Eq, Structural)]
pub struct Stopped;

/// How a cancellable job ended without its result.
#[derive(Clone, Debug, PartialEq, Eq)]
pub enum Failure {
    /// Stopped on request; nothing went wrong.
    Cancelled,
    Failed(String),
}

impl Failure {
    /// Whether this is what a job that ended with an error is reported as.
    pub open spec fn is_of(self, error: Seq<char>, cancel: bool) -> bool {
        if cancel {
            self == Failure::Cancelled
        } else {
            self matches Failure::Failed(e) && e@ == error
        }
    }

    /// A job's error, which is a cancellation when the job had been asked to stop.
    pub fn of(error: &str, cancel: bool) -> (r: Self)
        ensures
            r.is_of(error@, cancel),
    {
        if cancel {
            Self::Cancelled
        } else {
            Self::Failed(owned(error))
        }
    }

    pub fn copy(&self) -> (r: Self)
        ensures
            r.same(*self),
    {
        match self {
            Failure::Cancelled => Failure::Cancelled,
            Failure::Failed(e) => Failure::Failed(owned(e.as_str())),
        }
    }

    pub open spec fn same(self, other: Failure) -> bool {
        match (self, other) {
            (Failure::Cancelled, Failure::Cancelled) => true,
            (Failure::Failed(a), Failure::Failed(b)) => a@ == b@,
            _ => false,
        }
    }
}

pub type Outcome<T> = Result<T, Failure>;

/// Which gallery entry a thumbnail belongs to.
#[derive(Clone, Debug, PartialEq, Eq, Hash)]
pub enum ThumbnailKey {
    Preset(String),
    Lut(usize),
}

/// A gallery entry, in ghost code.
pub enum Key {
    Preset(Seq<char>),
    Lut(nat),
}

impl View for ThumbnailKey {
    type V = Key;

    open spec fn view(&self) -> Key {
        match self {
            ThumbnailKey::Preset(name) => Key::Preset(name@),
            ThumbnailKey::Lut(index) => Key::Lut(*index as nat),
        }
    }
}

impl ThumbnailKey {
    /// Whether two keys are of the same entry.
    pub open spec fn is_same(self, other: ThumbnailKey) -> bool {
        self@ == other@
    }

    pub fn same(&self, other: &ThumbnailKey) -> (r: bool)
        ensures
            r == self.is_same(*other),
    {
        match (self, other) {
            (ThumbnailKey::Preset(a), ThumbnailKey::Preset(b)) => crate::text::same_text(
                a.as_str(),
                b.as_str(),
            ),
            (ThumbnailKey::Lut(a), ThumbnailKey::Lut(b)) => *a == *b,
            _ => false,
        }
    }

    pub fn copy(&self) -> (r: Self)
        ensures
            r.is_same(*self),
    {
        match self {
            ThumbnailKey::Preset(name) => ThumbnailKey::Preset(owned(name.as_str())),
            ThumbnailKey::Lut(index) => ThumbnailKey::Lut(*index),
        }
    }
}

/// What a thumbnail shows.
#[derive(Debug)]
pub enum Look {
    /// The whole CRT picture with these settings, at thumbnail size.
    Crt(Config),
    /// Only an included LUT's color mapping, applied to an input already at thumbnail size:
    /// that is all a LUT changes, and it needs no GPU and no re-render when other settings move.
    Lut(usize),
}

/// Work for the preview thread.
#[derive(Debug)]
pub enum PreviewJob {
    Preview { revision: u64, input: Arc<Picture>, config: Config },
    /// A small picture for a gallery entry. Always waits for a pending preview, and is dropped
    /// unrendered once a thumbnail of a newer source is queued behind it.
    Thumbnail { generation: u64, key: ThumbnailKey, input: Arc<Picture>, look: Look },
    Shutdown,
}

// -------------------------------------------------------------------------------------------
// The preview thread's order
// -------------------------------------------------------------------------------------------

/// The newest source that any thumbnail is asked for.
pub open spec fn newest(jobs: Seq<PreviewJob>) -> Option<u64>
    decreases jobs.len(),
{
    if jobs.len() == 0 {
        None
    } else {
        match (newest(jobs.drop_last()), jobs.last()) {
            (Some(g), PreviewJob::Thumbnail { generation, .. }) => if generation > g {
                Some(generation)
            } else {
                Some(g)
            },
            (None, PreviewJob::Thumbnail { generation, .. }) => Some(generation),
            (found, _) => found,
        }
    }
}

/// Whether a job is a thumbnail of a source since replaced.
pub open spec fn stale(job: PreviewJob, newest: Option<u64>) -> bool {
    job matches PreviewJob::Thumbnail { generation, .. } && newest matches Some(g) && generation < g
}

/// The jobs that are still wanted, in order.
pub open spec fn wanted(jobs: Seq<PreviewJob>, newest: Option<u64>) -> Seq<PreviewJob>
    decreases jobs.len(),
{
    if jobs.len() == 0 {
        Seq::empty()
    } else if stale(jobs.last(), newest) {
        wanted(jobs.drop_last(), newest)
    } else {
        wanted(jobs.drop_last(), newest).push(jobs.last())
    }
}

/// Where the first preview from `i` on is, or the end.
pub open spec fn first_preview(jobs: Seq<PreviewJob>, i: int) -> int
    decreases jobs.len() - i,
{
    if i >= jobs.len() {
        jobs.len() as int
    } else if jobs[i] is Preview {
        i
    } else {
        first_preview(jobs, i + 1)
    }
}

/// Which of the jobs still wanted is next: the first preview, or else the first.
pub open spec fn next_index(jobs: Seq<PreviewJob>) -> int {
    if first_preview(jobs, 0) < jobs.len() {
        first_preview(jobs, 0)
    } else {
        0
    }
}

fn find_newest(jobs: &Vec<PreviewJob>) -> (r: Option<u64>)
    ensures
        r == newest(jobs@),
{
    let mut r: Option<u64> = None;
    let mut i: usize = 0;
    while i < jobs.len()
        invariant
            i <= jobs@.len(),
            r == newest(jobs@.take(i as int)),
        decreases jobs@.len() - i,
    {
        proof {
            assert(jobs@.take(i + 1).drop_last() == jobs@.take(i as int));
            assert(jobs@.take(i + 1).last() == jobs@[i as int]);
        }
        match &jobs[i] {
            PreviewJob::Thumbnail { generation, .. } => {
                r =
                match r {
                    Some(g) => if *generation > g {
                        Some(*generation)
                    } else {
                        Some(g)
                    },
                    None => Some(*generation),
                };
            },
            _ => {},
        }
        i = i + 1;
    }
    assert(jobs@.take(i as int) == jobs@);
    r
}

fn has_shutdown(jobs: &Vec<PreviewJob>) -> (r: bool)
    ensures
        r == (exists|i: int| 0 <= i < jobs@.len() && #[trigger] jobs@[i] is Shutdown),
{
    let mut i: usize = 0;
    while i < jobs.len()
        invariant
            i <= jobs@.len(),
            forall|k: int| 0 <= k < i ==> !(#[trigger] jobs@[k] is Shutdown),
        decreases jobs@.len() - i,
    {
        match &jobs[i] {
            PreviewJob::Shutdown => {
                assert(jobs@[i as int] is Shutdown);
                return true;
            },
            _ => {},
        }
        i = i + 1;
    }
    false
}

/// The preview thread's next job: shutdown before anything, then the preview someone is
/// waiting to see, then thumbnails in the order asked for, skipping any whose source has since
/// been replaced.
pub fn next_job(backlog: &mut Vec<PreviewJob>) -> (r: Option<PreviewJob>)
    ensures
        if exists|i: int| 0 <= i < old(backlog)@.len() && #[trigger] old(backlog)@[i] is Shutdown {
            r == Some(PreviewJob::Shutdown) && final(backlog)@.len() == 0
        } else {
            let kept = wanted(old(backlog)@, newest(old(backlog)@));
            if kept.len() == 0 {
                r is None && final(backlog)@.len() == 0
            } else {
                r == Some(kept[next_index(kept)]) && final(backlog)@ == kept.remove(
                    next_index(kept),
                )
            }
        },
{
    if has_shutdown(backlog) {
        backlog.clear();
        return Some(PreviewJob::Shutdown);
    }
    let newest: Option<u64> = find_newest(backlog);
    let mut kept: Vec<PreviewJob> = Vec::new();
    let ghost all = backlog@;
    let ghost mut n: int = 0;
    assert(all.take(0) == Seq::<PreviewJob>::empty());
    assert(all.skip(0) == all);
    while backlog.len() > 0
        invariant
            0 <= n <= all.len(),
            backlog@ == all.skip(n),
            kept@ == wanted(all.take(n), newest),
        decreases backlog@.len(),
    {
        proof {
            assert(all.take(n + 1).drop_last() == all.take(n));
            assert(all.take(n + 1).last() == all[n]);
            assert(all.skip(n)[0] == all[n]);
            assert(all.skip(n).remove(0) == all.skip(n + 1));
        }
        let job: PreviewJob = backlog.remove(0);
        let drop: bool = match (&job, newest) {
            (PreviewJob::Thumbnail { generation, .. }, Some(g)) => *generation < g,
            _ => false,
        };
        if !drop {
            kept.push(job);
        }
        proof {
            n = n + 1;
        }
    }
    assert(all.take(n) == all);
    let mut at: usize = 0;
    while at < kept.len() && !is_preview(&kept[at])
        invariant
            at <= kept@.len(),
            first_preview(kept@, 0) == first_preview(kept@, at as int),
        decreases kept@.len() - at,
    {
        at = at + 1;
    }
    let r: Option<PreviewJob> = if kept.len() == 0 {
        None
    } else if at < kept.len() {
        Some(kept.remove(at))
    } else {
        Some(kept.remove(0))
    };
    *backlog = kept;
    r
}

fn is_preview(job: &PreviewJob) -> (r: bool)
    ensures
        r == (*job is Preview),
{
    match job {
        PreviewJob::Preview { .. } => true,
        _ => false,
    }
}

/// A preview that waits goes before every thumbnail.
pub proof fn previews_go_first(jobs: Seq<PreviewJob>, i: int)
    requires
        0 <= i < jobs.len(),
        jobs[i] is Preview,
        forall|k: int| 0 <= k < jobs.len() ==> !(#[trigger] jobs[k] is Shutdown),
    ensures
        ({
            let kept = wanted(jobs, newest(jobs));
            kept.len() > 0 && kept[next_index(kept)] is Preview
        }),
{
    let kept = wanted(jobs, newest(jobs));
    lemma_wanted_keeps(jobs, newest(jobs), i);
    let at = choose|at: int| 0 <= at < kept.len() && #[trigger] kept[at] == jobs[i];
    lemma_first_preview(kept, 0, at);
}

proof fn lemma_wanted_keeps(jobs: Seq<PreviewJob>, newest: Option<u64>, i: int)
    requires
        0 <= i < jobs.len(),
        !stale(jobs[i], newest),
    ensures
        exists|at: int| 0 <= at < wanted(jobs, newest).len() && #[trigger] wanted(jobs, newest)[at] == jobs[i],
    decreases jobs.len(),
{
    let all = wanted(jobs, newest);
    if i == jobs.len() - 1 {
        assert(all[all.len() - 1] == jobs[i]);
    } else {
        lemma_wanted_keeps(jobs.drop_last(), newest, i);
        let before = wanted(jobs.drop_last(), newest);
        let at = choose|at: int| 0 <= at < before.len() && #[trigger] before[at] == jobs[i];
        assert(all[at] == before[at]);
    }
}

proof fn lemma_first_preview(jobs: Seq<PreviewJob>, from: int, at: int)
    requires
        0 <= from <= at < jobs.len(),
        jobs[at] is Preview,
    ensures
        from <= first_preview(jobs, from) <= at,
        jobs[first_preview(jobs, from)] is Preview,
    decreases at - from,
{
    if !(jobs[from] is Preview) {
        lemma_first_preview(jobs, from + 1, at);
    }
}

// -------------------------------------------------------------------------------------------
// Exports
// -------------------------------------------------------------------------------------------

/// What an export renders.
#[derive(Clone, Copy, Debug, PartialEq, Eq, Structural)]
pub enum ExportKind {
    /// A still, saved as a PNG that carries its settings.
    Image,
    /// A whole video, with its audio and other tracks.
    Video,
    /// An animated GIF or WebP, as the path's extension asks.
    Animation,
    /// A batch job, whose source is only read once it runs. The queue chose a video or a PNG
    /// when it named the output.
    Batch,
}

impl ExportKind {
    pub open spec fn failure_text(self) -> Seq<char> {
        match self {
            ExportKind::Image =>
            "Graphics driver failed. Try a smaller resolution or restart with another --backend. Settings are still available to save."@,
            ExportKind::Video => "Video graphics driver failed. Try a smaller resolution."@,
            ExportKind::Animation => "Animation graphics driver failed. Try a smaller size."@,
            ExportKind::Batch => "Batch graphics driver failed. Try a smaller resolution."@,
        }
    }

    /// Reported when the graphics driver fails under the export.
    pub fn driver_failed(self) -> (r: &'static str)
        ensures
            r@ == self.failure_text(),
    {
        match self {
            Self::Image =>
            "Graphics driver failed. Try a smaller resolution or restart with another --backend. Settings are still available to save.",
            Self::Video => "Video graphics driver failed. Try a smaller resolution.",
            Self::Animation => "Animation graphics driver failed. Try a smaller size.",
            Self::Batch => "Batch graphics driver failed. Try a smaller resolution.",
        }
    }

    /// What a batch job to a path renders: a video where a container goes by its name, or else
    /// a still.
    pub fn of_batch(path: &str) -> (r: ExportKind)
        ensures
            r == (if crate::media::kind::Container::named(path@) is Some {
                ExportKind::Video
            } else {
                ExportKind::Image
            }),
    {
        match crate::media::kind::Container::of(path) {
            Some(_) => ExportKind::Video,
            None => ExportKind::Image,
        }
    }
}

/// Whether the settings in a file are those of a picture, rather than of a video.
pub fn imports_from_picture(path: &str) -> (r: bool)
    ensures
        r == crate::path::extends_with(path@, "png"@),
{
    crate::path::has_extension(path, "png")
}

/// Whether a video has a frame of this number.
pub fn check_frame(frame: u64, frames: u64) -> (r: Result<(), &'static str>)
    ensures
        r is Ok == (frame < frames),
        r matches Err(text) ==> text@ == "Frame is outside the video"@,
{
    if frame < frames {
        Ok(())
    } else {
        Err("Frame is outside the video")
    }
}

} // verus!
