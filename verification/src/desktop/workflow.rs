//! Projects: a source with its edits, the video options and the batch queue, saved and restored
//! together.
use crate::crt::config::Config;
use crate::desktop::batch::{check_saved, Item, SavedError, MAX_JOBS};
use crate::media::options::Options;
use crate::path::join_unless_rooted;
use crate::text::{owned, same_text};
use vstd::prelude::*;

verus! {

/// The most bytes a project file takes.
pub const MAX_PROJECT: u64 = 67_108_864;

/// The most bytes the list of recent projects takes.
pub const MAX_RECENT: u64 = 65_536;

/// How many recent projects are kept.
pub const RECENT: usize = 10;

#[derive(Debug)]
pub struct Project {
    pub version: u32,
    pub source: Option<String>,
    pub frame: u64,
    pub config: Config,
    pub options: Options,
    pub queue: Vec<Item>,
}

/// Why a project cannot be opened.
#[derive(Debug)]
pub enum ProjectError {
    /// More than 64 MB.
    TooLarge,
    Version,
    Saved(SavedError),
    /// More jobs than a queue holds.
    Queue,
}

impl ProjectError {
    pub open spec fn text(self) -> Option<Seq<char>> {
        match self {
            ProjectError::TooLarge => Some("Project exceeds 64 MB"@),
            ProjectError::Version => Some("Unsupported project version"@),
            ProjectError::Queue => Some("Queue exceeds 256 jobs"@),
            ProjectError::Saved(_) => None,
        }
    }

    /// What to tell the user; none where the saved settings say it themselves.
    pub fn message(&self) -> (r: Option<&'static str>)
        ensures
            match (r, self.text()) {
                (Some(message), Some(text)) => message@ == text,
                (None, None) => true,
                _ => false,
            },
    {
        match self {
            ProjectError::TooLarge => Some("Project exceeds 64 MB"),
            ProjectError::Version => Some("Unsupported project version"),
            ProjectError::Queue => Some("Queue exceeds 256 jobs"),
            ProjectError::Saved(_) => None,
        }
    }
}

/// Checks a project file's size before it is read or written.
pub fn check_length(length: u64) -> (r: Result<(), ProjectError>)
    ensures
        r == if length <= MAX_PROJECT {
            Ok::<(), ProjectError>(())
        } else {
            Err::<(), ProjectError>(ProjectError::TooLarge)
        },
{
    if length <= MAX_PROJECT {
        Ok(())
    } else {
        Err(ProjectError::TooLarge)
    }
}

/// What is wrong with the first job from `i` on with which anything is.
pub open spec fn queue_fault(queue: Seq<Item>, i: int) -> Option<SavedError>
    decreases queue.len() - i,
{
    if i >= queue.len() {
        None
    } else if let Some(e) = crate::desktop::batch::saved_fault(queue[i].config, queue[i].options) {
        Some(e)
    } else {
        queue_fault(queue, i + 1)
    }
}

impl Project {
    /// What is wrong with a project that was read, if anything.
    pub open spec fn fault(self) -> Option<ProjectError> {
        if self.version != 1 {
            Some(ProjectError::Version)
        } else if let Some(e) = crate::desktop::batch::saved_fault(self.config, self.options) {
            Some(ProjectError::Saved(e))
        } else if self.queue@.len() > MAX_JOBS {
            Some(ProjectError::Queue)
        } else if let Some(e) = queue_fault(self.queue@, 0) {
            Some(ProjectError::Saved(e))
        } else {
            None
        }
    }

    /// Whether a project is another as it opens from a folder: paths saved relative to it are
    /// relative to where it is, and a job that was exporting is pending again.
    pub open spec fn is_opened(self, saved: Project, root: Seq<char>, drives: bool) -> bool {
        &&& self.version == saved.version
        &&& self.frame == saved.frame
        &&& self.config == saved.config
        &&& self.options == saved.options
        &&& match (self.source, saved.source) {
            (Some(path), Some(source)) => path@ == crate::path::joined_or(root, source@, drives),
            (None, None) => true,
            _ => false,
        }
        &&& self.queue@.len() == saved.queue@.len()
        &&& forall|i: int|
            0 <= i < self.queue@.len() ==> (#[trigger] self.queue@[i]).is_restored(
                saved.queue@[i],
                root,
                drives,
            )
    }

    /// Checks a project that was read from a file in the folder `root`, and opens it.
    pub fn open(self, root: &str, drives: bool) -> (r: Result<Project, ProjectError>)
        ensures
            match self.fault() {
                Some(e) => r == Err::<Project, ProjectError>(e),
                None => r matches Ok(project) && project.is_opened(self, root@, drives),
            },
    {
        let ghost saved = self;
        if self.version != 1 {
            return Err(ProjectError::Version);
        }
        match check_saved(&self.config, &self.options) {
            Err(e) => {
                return Err(ProjectError::Saved(e));
            },
            Ok(()) => {},
        }
        if self.queue.len() > MAX_JOBS {
            return Err(ProjectError::Queue);
        }
        let source: Option<String> = match self.source {
            Some(path) => Some(join_unless_rooted(root, path.as_str(), drives)),
            None => None,
        };
        let mut rest: Vec<Item> = self.queue;
        let mut queue: Vec<Item> = Vec::new();
        let ghost all = rest@;
        assert(all.skip(0) =~= all);
        while rest.len() > 0
            invariant
                saved == self,
                queue@.len() + rest@.len() == all.len(),
                all == saved.queue@,
                rest@ == all.skip(queue@.len() as int),
                queue_fault(all, 0) == queue_fault(all, queue@.len() as int),
                saved.version == 1,
                saved.queue@.len() <= MAX_JOBS,
                crate::desktop::batch::saved_fault(saved.config, saved.options) is None,
                forall|i: int|
                    0 <= i < queue@.len() ==> (#[trigger] queue@[i]).is_restored(
                        all[i],
                        root@,
                        drives,
                    ),
            decreases rest@.len(),
        {
            let ghost n = queue@.len() as int;
            proof {
                assert(all.skip(n)[0] == all[n]);
                assert(all.skip(n).remove(0) =~= all.skip(n + 1));
            }
            let mut item: Item = rest.remove(0);
            match item.restore(root, drives) {
                Err(e) => {
                    return Err(ProjectError::Saved(e));
                },
                Ok(()) => {},
            }
            queue.push(item);
        }
        Ok(
            Project {
                version: self.version,
                source,
                frame: self.frame,
                config: self.config,
                options: self.options,
                queue,
            },
        )
    }

    /// Whether two projects compare equal.
    pub open spec fn equal(self, other: Project) -> bool {
        &&& self.version == other.version
        &&& match (self.source, other.source) {
            (Some(a), Some(b)) => a@ == b@,
            (None, None) => true,
            _ => false,
        }
        &&& self.frame == other.frame
        &&& self.config.equal(other.config)
        &&& self.options == other.options
        &&& self.queue@.len() == other.queue@.len()
        &&& forall|i: int|
            0 <= i < self.queue@.len() ==> item_equal(#[trigger] self.queue@[i], other.queue@[i])
    }

    pub fn same(&self, other: &Project) -> (r: bool)
        ensures
            r == self.equal(*other),
    {
        let sources: bool = match (&self.source, &other.source) {
            (Some(a), Some(b)) => same_text(a.as_str(), b.as_str()),
            (None, None) => true,
            _ => false,
        };
        if self.version != other.version || !sources || self.frame != other.frame
            || !self.config.same(&other.config) || self.options != other.options
            || self.queue.len() != other.queue.len() {
            return false;
        }
        let mut i: usize = 0;
        while i < self.queue.len()
            invariant
                i <= self.queue@.len() == other.queue@.len(),
                forall|k: int|
                    0 <= k < i ==> item_equal(#[trigger] self.queue@[k], other.queue@[k]),
            decreases self.queue@.len() - i,
        {
            if !same_item(&self.queue[i], &other.queue[i]) {
                assert(!item_equal(self.queue@[i as int], other.queue@[i as int]));
                return false;
            }
            i = i + 1;
        }
        true
    }
}

/// Whether two jobs compare equal.
pub open spec fn item_equal(a: Item, b: Item) -> bool {
    &&& a.source@ == b.source@
    &&& a.output@ == b.output@
    &&& a.config.equal(b.config)
    &&& a.options == b.options
    &&& a.status.is_same(b.status)
}

fn same_item(a: &Item, b: &Item) -> (r: bool)
    ensures
        r == item_equal(*a, *b),
{
    same_text(a.source.as_str(), b.source.as_str()) && same_text(
        a.output.as_str(),
        b.output.as_str(),
    ) && a.config.same(&b.config) && a.options == b.options && a.status.same(&b.status)
}

/// Opening a project that was opened changes nothing more: its paths are absolute, and none of
/// its jobs is exporting.
pub proof fn opened_projects_stay(
    saved: Project,
    opened: Project,
    again: Project,
    root: Seq<char>,
    drives: bool,
    i: int,
)
    requires
        opened.is_opened(saved, root, drives),
        again.is_opened(opened, root, drives),
        crate::path::rooted(root, drives),
        0 <= i < saved.queue@.len(),
    ensures
        again.queue@[i].source@ == opened.queue@[i].source@,
        again.queue@[i].output@ == opened.queue@[i].output@,
        again.queue@[i].status == opened.queue@[i].status,
        again.source is Some ==> again.source->0@ == opened.source->0@,
{
    assert(opened.queue@[i].is_restored(saved.queue@[i], root, drives));
    assert(again.queue@[i].is_restored(opened.queue@[i], root, drives));
}

// -------------------------------------------------------------------------------------------
// Recent projects
// -------------------------------------------------------------------------------------------

/// The paths without one of them.
pub open spec fn others(paths: Seq<Seq<char>>, path: Seq<char>) -> Seq<Seq<char>> {
    paths.filter(is_other(path))
}

pub open spec fn is_other(path: Seq<char>) -> spec_fn(Seq<char>) -> bool {
    |p: Seq<char>| p != path
}

/// The first of some paths, as many as are kept.
pub open spec fn kept(paths: Seq<Seq<char>>) -> Seq<Seq<char>> {
    if paths.len() > RECENT {
        paths.take(RECENT as int)
    } else {
        paths
    }
}

pub open spec fn path_views(paths: Seq<String>) -> Seq<Seq<char>> {
    paths.map_values(|p: String| p@)
}

/// Keeps no more of the recent projects than are listed.
pub fn keep_recent(paths: &mut Vec<String>)
    ensures
        path_views(final(paths)@) == kept(path_views(old(paths)@)),
{
    while paths.len() > RECENT
        invariant
            paths@.len() <= old(paths)@.len(),
            paths@ == old(paths)@.take(paths@.len() as int),
            paths@.len() < old(paths)@.len() ==> paths@.len() >= RECENT,
        decreases paths@.len(),
    {
        let ghost before = paths@;
        paths.pop();
        assert(paths@ =~= old(paths)@.take(before.len() - 1));
    }
    assert(old(paths)@.take(old(paths)@.len() as int) =~= old(paths)@);
    assert(path_views(paths@) =~= kept(path_views(old(paths)@)));
}

/// Puts a project first among the recent ones, once.
pub fn remember(paths: &mut Vec<String>, path: &str)
    ensures
        path_views(final(paths)@) == kept(seq![path@] + others(path_views(old(paths)@), path@)),
{
    let mut list: Vec<String> = Vec::new();
    list.push(owned(path));
    let ghost before = path_views(paths@);
    let ghost p = is_other(path@);
    let mut i: usize = 0;
    proof {
        assert(before.take(0) =~= Seq::<Seq<char>>::empty());
        reveal_with_fuel(Seq::filter, 1);
        assert(path_views(list@) =~= seq![path@] + before.take(0).filter(p));
    }
    while i < paths.len()
        invariant
            i <= paths@.len(),
            before == path_views(paths@),
            p == is_other(path@),
            path_views(list@) == seq![path@] + before.take(i as int).filter(p),
        decreases paths@.len() - i,
    {
        proof {
            assert(before.take(i + 1).drop_last() =~= before.take(i as int));
            assert(before.take(i + 1).last() == paths@[i as int]@);
            reveal_with_fuel(Seq::filter, 2);
        }
        let ghost earlier = list@;
        if !same_text(paths[i].as_str(), path) {
            list.push(owned(paths[i].as_str()));
            assert(path_views(list@) =~= path_views(earlier).push(paths@[i as int]@));
            assert((seq![path@] + before.take(i as int).filter(p)).push(paths@[i as int]@)
                =~= seq![path@] + before.take(i as int).filter(p).push(paths@[i as int]@));
        }
        i = i + 1;
    }
    assert(before.take(i as int) =~= before);
    keep_recent(&mut list);
    *paths = list;
}

/// A project that was just opened is the first of the recent ones, and is among them once.
pub proof fn remembered_once(before: Seq<Seq<char>>, path: Seq<char>, i: int)
    requires
        0 < i < kept(seq![path] + others(before, path)).len(),
    ensures
        kept(seq![path] + others(before, path))[0] == path,
        kept(seq![path] + others(before, path))[i] != path,
{
    let p = is_other(path);
    broadcast use vstd::seq_lib::group_filter_ensures;
    let list = seq![path] + others(before, path);
    assert(list[i] == before.filter(p)[i - 1]);
    assert(p(before.filter(p)[i - 1]));
}

// -------------------------------------------------------------------------------------------
// Restoring
// -------------------------------------------------------------------------------------------

/// How a project's source comes back.
#[derive(Clone, Copy, Debug, PartialEq, Eq, Structural)]
pub enum Restore {
    /// It is gone: the edits and the queue are restored without it.
    Missing,
    /// It moves: the frame that was shown is loaded, then the rest is restored.
    Video,
    /// It is an image, which is loaded first.
    Image,
    /// There was none: the test card takes its place.
    Card,
}

/// How a project's source comes back, from whether it is there and moves.
pub fn restore_as(project: &Project, found: bool, moving: bool) -> (r: Restore)
    ensures
        r == if project.source is None {
            Restore::Card
        } else if !found {
            Restore::Missing
        } else if moving {
            Restore::Video
        } else {
            Restore::Image
        },
{
    if project.source.is_none() {
        Restore::Card
    } else if !found {
        Restore::Missing
    } else if moving {
        Restore::Video
    } else {
        Restore::Image
    }
}

} // verus!
