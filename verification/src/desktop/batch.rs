//! The batch export queue: jobs that each render one file with the settings in use when it was
//! added, one at a time, in order. A batch export never replaces an existing file.
use crate::crt::config::{Config, ConfigError};
use crate::desktop::worker::{Failure, Outcome};
use crate::media::kind::MediaKind;
use crate::media::options::{Options, OptionsError};
use crate::path::{join_paths, join_unless_rooted, same_path, stem_or_empty};
use crate::text::{decimal_text, join3, owned, same_text};
use vstd::prelude::*;
use vstd::seq_lib::*;

verus! {

/// The most jobs a queue, or a project's saved queue, holds.
pub const MAX_JOBS: usize = 256;

#[derive(Clone, Debug, PartialEq, Eq)]
pub enum Status {
    Pending,
    Running,
    Done,
    Cancelled,
    Failed(String),
}

impl Status {
    /// Whether the job can be run again.
    pub fn retryable(&self) -> (r: bool)
        ensures
            r == (*self is Failed || *self is Cancelled),
    {
        match self {
            Status::Failed(_) => true,
            Status::Cancelled => true,
            _ => false,
        }
    }

    pub fn is_pending(&self) -> (r: bool)
        ensures
            r == (*self is Pending),
    {
        match self {
            Status::Pending => true,
            _ => false,
        }
    }

    pub fn is_running(&self) -> (r: bool)
        ensures
            r == (*self is Running),
    {
        match self {
            Status::Running => true,
            _ => false,
        }
    }

    pub open spec fn is_same(self, other: Status) -> bool {
        match (self, other) {
            (Status::Failed(a), Status::Failed(b)) => a@ == b@,
            _ => self == other,
        }
    }

    pub fn same(&self, other: &Status) -> (r: bool)
        ensures
            r == self.is_same(*other),
    {
        match (self, other) {
            (Status::Failed(a), Status::Failed(b)) => same_text(a.as_str(), b.as_str()),
            (Status::Pending, Status::Pending) => true,
            (Status::Running, Status::Running) => true,
            (Status::Done, Status::Done) => true,
            (Status::Cancelled, Status::Cancelled) => true,
            _ => false,
        }
    }

    pub fn copy(&self) -> (r: Self)
        ensures
            r.is_same(*self),
    {
        match self {
            Status::Pending => Status::Pending,
            Status::Running => Status::Running,
            Status::Done => Status::Done,
            Status::Cancelled => Status::Cancelled,
            Status::Failed(e) => Status::Failed(owned(e.as_str())),
        }
    }

    /// How the queue shows a job, as words.
    pub open spec fn label(self) -> Seq<char> {
        match self {
            Status::Pending => "Pending"@,
            Status::Running => "Exporting…"@,
            Status::Done => "Saved"@,
            Status::Cancelled => "Cancelled"@,
            Status::Failed(e) => "Failed: "@ + e@,
        }
    }

    pub fn text(&self) -> (r: String)
        ensures
            r@ == self.label(),
    {
        match self {
            Status::Pending => owned("Pending"),
            Status::Running => owned("Exporting…"),
            Status::Done => owned("Saved"),
            Status::Cancelled => owned("Cancelled"),
            Status::Failed(e) => crate::text::join("Failed: ", e.as_str()),
        }
    }
}

/// One file to export, with the settings captured when it was added. Saved in projects and
/// sessions as it is.
#[derive(Debug)]
pub struct Item {
    pub source: String,
    pub output: String,
    pub config: Config,
    pub options: Options,
    pub status: Status,
}

/// Why a saved job, or a project, cannot be used.
#[derive(Debug)]
pub enum SavedError {
    Config(ConfigError),
    Options(OptionsError),
}

/// What is wrong with saved settings, if anything.
pub open spec fn saved_fault(config: Config, options: Options) -> Option<SavedError> {
    if let Some(e) = config.fault() {
        Some(SavedError::Config(e))
    } else if let Some(e) = options.fault() {
        Some(SavedError::Options(e))
    } else {
        None
    }
}

pub fn check_saved(config: &Config, options: &Options) -> (r: Result<(), SavedError>)
    ensures
        r == (match saved_fault(*config, *options) {
            Some(e) => Err::<(), SavedError>(e),
            None => Ok::<(), SavedError>(()),
        }),
{
    match config.validate() {
        Err(e) => {
            return Err(SavedError::Config(e));
        },
        Ok(()) => {},
    }
    match options.validate() {
        Err(e) => Err(SavedError::Options(e)),
        Ok(()) => Ok(()),
    }
}

/// Whether two lists of jobs are alike, one for one.
pub open spec fn items_alike(a: Seq<Item>, b: Seq<Item>) -> bool {
    a.len() == b.len() && forall|i: int| 0 <= i < a.len() ==> (#[trigger] a[i]).alike(b[i])
}

impl Item {
    /// Whether two jobs say the same.
    pub open spec fn alike(self, other: Item) -> bool {
        &&& self.source@ == other.source@
        &&& self.output@ == other.output@
        &&& self.config.alike(other.config)
        &&& self.options == other.options
        &&& self.status.is_same(other.status)
    }

    pub fn copy(&self) -> (r: Item)
        ensures
            r.alike(*self),
    {
        Item {
            source: owned(self.source.as_str()),
            output: owned(self.output.as_str()),
            config: self.config.copy(),
            options: self.options,
            status: self.status.copy(),
        }
    }

    /// Whether a job is another as it is read back from a project in a folder.
    pub open spec fn is_restored(self, saved: Item, root: Seq<char>, drives: bool) -> bool {
        &&& self.source@ == crate::path::joined_or(root, saved.source@, drives)
        &&& self.output@ == crate::path::joined_or(root, saved.output@, drives)
        &&& self.status == (if saved.status is Running {
            Status::Pending
        } else {
            saved.status
        })
        &&& self.config == saved.config
        &&& self.options == saved.options
    }

    /// Checks a job read back from a saved project, whose paths may be relative to `root`, and
    /// start at a drive where there are drives. A job that was exporting when the project was saved is pending again.
    pub fn restore(&mut self, root: &str, drives: bool) -> (r: Result<(), SavedError>)
        ensures
            match saved_fault(old(self).config, old(self).options) {
                Some(e) => r == Err::<(), SavedError>(e) && *final(self) == *old(self),
                None => r is Ok && final(self).is_restored(*old(self), root@, drives),
            },
    {
        match check_saved(&self.config, &self.options) {
            Err(e) => {
                return Err(e);
            },
            Ok(()) => {},
        }
        self.source = join_unless_rooted(root, self.source.as_str(), drives);
        self.output = join_unless_rooted(root, self.output.as_str(), drives);
        if self.status.is_running() {
            self.status = Status::Pending;
        }
        Ok(())
    }
}

/// A change to the queue made from its window.
#[derive(Clone, Copy, Debug, PartialEq, Eq, Structural)]
pub enum Edit {
    Retry,
    MoveUp,
    Remove,
}

/// The queue already holds all the jobs it can.
#[derive(Clone, Copy, Debug, PartialEq, Eq, Structural)]
pub struct Full;

impl Full {
    pub fn message(self) -> (r: &'static str)
        ensures
            r@ == "Batch queue is limited to 256 jobs"@,
    {
        "Batch queue is limited to 256 jobs"
    }
}

pub struct Queue {
    items: Vec<Item>,
    running: bool,
    active: Option<usize>,
}

/// What a queue holds.
pub struct Line {
    pub items: Seq<Item>,
    /// Start the next pending job whenever the work thread is free.
    pub running: bool,
    /// The job exporting now.
    pub active: Option<int>,
}

impl Line {
    /// The job exporting now is one of the queue's.
    pub open spec fn wf(self) -> bool {
        self.active matches Some(i) ==> 0 <= i < self.items.len()
    }
}

impl View for Queue {
    type V = Line;

    closed spec fn view(&self) -> Line {
        Line {
            items: self.items@,
            running: self.running,
            active: match self.active {
                Some(i) => Some(i as int),
                None => None,
            },
        }
    }
}

// -------------------------------------------------------------------------------------------
// Names
// -------------------------------------------------------------------------------------------

/// The name a job's output gets in a folder at its `n`th try.
pub open spec fn output_name(
    source: Seq<char>,
    folder: Seq<char>,
    video: bool,
    n: nat,
) -> Seq<char> {
    let extension = if video {
        "mkv"@
    } else {
        "png"@
    };
    crate::path::joined(
        folder,
        crate::path::shown_stem(source) + (if n == 0 {
            "-crt."@
        } else {
            "-crt-"@ + crate::text::decimal(n) + "."@
        }) + extension,
    )
}

/// Whether a path is free: no file has it, and no job will write it.
pub open spec fn is_free(path: Seq<char>, existing: Seq<String>, items: Seq<Item>) -> bool {
    &&& forall|i: int|
        0 <= i < existing.len() ==> !crate::path::same((#[trigger] existing[i])@, path)
    &&& forall|i: int|
        0 <= i < items.len() ==> !crate::path::same((#[trigger] items[i]).output@, path)
}

/// Whether a path is the first free one for a source.
pub open spec fn is_output(
    path: Seq<char>,
    source: Seq<char>,
    folder: Seq<char>,
    video: bool,
    existing: Seq<String>,
    items: Seq<Item>,
) -> bool {
    exists|n: nat|
        {
            &&& path == #[trigger] output_name(source, folder, video, n)
            &&& is_free(path, existing, items)
            &&& forall|m: nat|
                m < n ==> !is_free(#[trigger] output_name(source, folder, video, m), existing, items)
        }
}

fn path_is_free(path: &str, existing: &Vec<String>, items: &Vec<Item>) -> (r: bool)
    ensures
        r == is_free(path@, existing@, items@),
{
    let mut i: usize = 0;
    while i < existing.len()
        invariant
            i <= existing@.len(),
            forall|k: int| 0 <= k < i ==> !crate::path::same(
                (#[trigger] existing@[k])@,
                path@,
            ),
        decreases existing@.len() - i,
    {
        if same_path(existing[i].as_str(), path) {
            assert(crate::path::same(existing@[i as int]@, path@));
            return false;
        }
        i = i + 1;
    }
    let mut j: usize = 0;
    while j < items.len()
        invariant
            j <= items@.len(),
            forall|k: int| 0 <= k < existing@.len() ==> !crate::path::same(
                (#[trigger] existing@[k])@,
                path@,
            ),
            forall|k: int| 0 <= k < j ==> !crate::path::same(
                (#[trigger] items@[k]).output@,
                path@,
            ),
        decreases items@.len() - j,
    {
        if same_path(items[j].output.as_str(), path) {
            assert(crate::path::same(items@[j as int].output@, path@));
            return false;
        }
        j = j + 1;
    }
    true
}

/// Different tries give different names.
proof fn lemma_names_differ(source: Seq<char>, folder: Seq<char>, video: bool, a: nat, b: nat)
    requires
        crate::path::same(
            output_name(source, folder, video, a),
            output_name(source, folder, video, b),
        ),
    ensures
        a == b,
{
    let stem = crate::path::shown_stem(source);
    let extension = if video {
        "mkv"@
    } else {
        "png"@
    };
    reveal_strlit("-crt.");
    reveal_strlit("-crt-");
    reveal_strlit(".");
    reveal_strlit("mkv");
    reveal_strlit("png");
    let x = stem + (if a == 0 {
        "-crt."@
    } else {
        "-crt-"@ + crate::text::decimal(a) + "."@
    }) + extension;
    let y = stem + (if b == 0 {
        "-crt."@
    } else {
        "-crt-"@ + crate::text::decimal(b) + "."@
    }) + extension;
    lemma_name_is_one_part(stem, a, extension);
    lemma_name_is_one_part(stem, b, extension);
    crate::path::names_are_one_part(source);
    crate::path::files_are_in_their_folder(folder, x);
    crate::path::files_are_in_their_folder(folder, y);
    let inside = crate::path::parts_of_folder(folder);
    assert(inside.push(x).last() == x && inside.push(y).last() == y);
    assert(x == y);
    let p = stem.len() as int;
    if a == 0 || b == 0 {
        if a != b {
            assert(x[p + 4] == y[p + 4]);
        }
    } else {
        let da = crate::text::decimal(a);
        let db = crate::text::decimal(b);
        assert(da.len() == db.len());
        assert(da == db) by {
            assert forall|i: int| 0 <= i < da.len() implies da[i] == db[i] by {
                assert(x[p + 5 + i] == da[i]);
                assert(y[p + 5 + i] == db[i]);
            }
        }
        let most = if a > b {
            a
        } else {
            b
        };
        crate::text::decimal_reads_back(a, most);
        crate::text::decimal_reads_back(b, most);
    }
}

/// A name made of a stem is one part of a path.
proof fn lemma_name_is_one_part(stem: Seq<char>, n: nat, extension: Seq<char>)
    requires
        extension == "mkv"@ || extension == "png"@,
    ensures
        ({
            let name = stem + (if n == 0 {
                "-crt."@
            } else {
                "-crt-"@ + crate::text::decimal(n) + "."@
            }) + extension;
            &&& name.len() > 0
            &&& name != seq!['.']
            &&& !stem.contains('/') ==> !name.contains('/')
        }),
{
    reveal_strlit("-crt.");
    reveal_strlit("-crt-");
    reveal_strlit(".");
    reveal_strlit("mkv");
    reveal_strlit("png");
    let middle = if n == 0 {
        "-crt."@
    } else {
        "-crt-"@ + crate::text::decimal(n) + "."@
    };
    let name = stem + middle + extension;
    crate::text::decimal_reads_back(n, n);
    assert(middle.len() >= 5);
    if !stem.contains('/') {
        assert forall|i: int| 0 <= i < name.len() implies name[i] != '/' by {
            if i < stem.len() {
                assert(stem.contains(stem[i]));
            } else if i < stem.len() + middle.len() {
                let at = i - stem.len();
                if n != 0 && 5 <= at < 5 + crate::text::decimal(n).len() {
                    assert(middle[at] == crate::text::decimal(n)[at - 5]);
                }
            }
        }
    }
}

/// What paths are compared by.
spec fn place(path: Seq<char>) -> (bool, Seq<Seq<char>>) {
    (crate::path::absolute(path), crate::path::parts(path))
}

/// Of more tries than there are taken paths one is free.
proof fn lemma_some_name_is_free(
    source: Seq<char>,
    folder: Seq<char>,
    video: bool,
    existing: Seq<String>,
    items: Seq<Item>,
) -> (n: nat)
    ensures
        n <= existing.len() + items.len(),
        is_free(output_name(source, folder, video, n), existing, items),
{
    let most = existing.len() + items.len();
    let tries = Seq::new(
        (most + 1) as nat,
        |i: int| place(output_name(source, folder, video, i as nat)),
    );
    let taken = Seq::new(existing.len(), |i: int| place(existing[i]@)) + Seq::new(
        items.len(),
        |i: int| place(items[i].output@),
    );
    if forall|i: int| 0 <= i < tries.len() ==> taken.contains(#[trigger] tries[i]) {
        assert(tries.no_duplicates()) by {
            assert forall|i: int, j: int|
                0 <= i < tries.len() && 0 <= j < tries.len() && i != j implies tries[i]
                != tries[j] by {
                if tries[i] == tries[j] {
                    lemma_names_differ(source, folder, video, i as nat, j as nat);
                }
            }
        }
        tries.unique_seq_to_set();
        taken.lemma_cardinality_of_set();
        assert(tries.to_set().subset_of(taken.to_set())) by {
            assert forall|t: (bool, Seq<Seq<char>>)|
                tries.to_set().contains(t) implies taken.to_set().contains(t) by {
                let i = choose|i: int| 0 <= i < tries.len() && #[trigger] tries[i] == t;
                assert(taken.contains(tries[i]));
            }
        }
        vstd::set_lib::lemma_len_subset(tries.to_set(), taken.to_set());
        assert(false);
    }
    let i = choose|i: int| 0 <= i < tries.len() && !taken.contains(#[trigger] tries[i]);
    let free = output_name(source, folder, video, i as nat);
    assert(is_free(free, existing, items)) by {
        assert forall|k: int| 0 <= k < existing.len() implies !crate::path::same(
            (#[trigger] existing[k])@,
            free,
        ) by {
            assert(taken[k] == place(existing[k]@));
        }
        assert forall|k: int| 0 <= k < items.len() implies !crate::path::same(
            (#[trigger] items[k]).output@,
            free,
        ) by {
            assert(taken[existing.len() + k] == place(items[k].output@));
        }
    }
    i as nat
}

// -------------------------------------------------------------------------------------------
// The queue
// -------------------------------------------------------------------------------------------

/// What a job fails with whose output has appeared since it was added.
pub open spec fn appeared_text() -> Seq<char> {
    "Destination already exists. Remove it or add a new job; batch exports never intentionally replace existing files."@
}

/// Whether some path is among others.
pub open spec fn among(path: Seq<char>, paths: Seq<String>) -> bool {
    exists|i: int| 0 <= i < paths.len() && crate::path::same((#[trigger] paths[i])@, path)
}

/// The first pending job, from `i` on, whose output no file has, or the end.
pub open spec fn next_from(items: Seq<Item>, existing: Seq<String>, i: int) -> int
    decreases items.len() - i,
{
    if i >= items.len() {
        items.len() as int
    } else if items[i].status is Pending && !among(items[i].output@, existing) {
        i
    } else {
        next_from(items, existing, i + 1)
    }
}

/// Whether a job is another as it is once the queue has gone past it to the job at `next`.
pub open spec fn is_passed(new: Item, old: Item, i: int, next: int) -> bool {
    if i == next {
        new == (Item { status: Status::Running, ..old })
    } else if i < next && old.status is Pending {
        &&& new == (Item { status: new.status, ..old })
        &&& new.status matches Status::Failed(e) && e@ == appeared_text()
    } else {
        new == old
    }
}

fn is_among(path: &str, paths: &Vec<String>) -> (r: bool)
    ensures
        r == among(path@, paths@),
{
    let mut i: usize = 0;
    while i < paths.len()
        invariant
            i <= paths@.len(),
            forall|k: int| 0 <= k < i ==> !crate::path::same(
                (#[trigger] paths@[k])@,
                path@,
            ),
        decreases paths@.len() - i,
    {
        if same_path(paths[i].as_str(), path) {
            assert(crate::path::same(paths@[i as int]@, path@));
            return true;
        }
        i = i + 1;
    }
    false
}

impl Default for Queue {
    fn default() -> (r: Self)
        ensures
            r@ == (Line { items: Seq::empty(), running: false, active: None }),
            r@.wf(),
    {
        Queue { items: Vec::new(), running: false, active: None }
    }
}

impl Queue {
    pub fn items(&self) -> (r: &Vec<Item>)
        ensures
            r@ == self@.items,
    {
        &self.items
    }

    /// Replaces the jobs with a saved project's, paused.
    pub fn replace(&mut self, items: Vec<Item>)
        ensures
            final(self)@ == (Line { items: items@, running: false, active: None }),
            final(self)@.wf(),
    {
        self.items = items;
        self.running = false;
        self.active = None;
    }

    /// Where a job for `source` writes in `folder`: named after the source, as a video or a PNG
    /// as its kind asks, and numbered past any file that exists or another job will write.
    /// `existing` is the paths of the files there.
    fn output_for(
        &self,
        source: &str,
        kind: MediaKind,
        folder: &str,
        existing: &Vec<String>,
    ) -> (r: String)
        requires
            existing@.len() + self@.items.len() < usize::MAX,
        ensures
            is_output(
                r@,
                source@,
                folder@,
                kind == MediaKind::Video || kind == MediaKind::Animation(
                    crate::media::kind::AnimationFormat::Gif,
                ),
                existing@,
                self@.items,
            ),
    {
        let stem: String = stem_or_empty(source);
        let video: bool = kind.batch_as_video();
        let extension: &str = if video {
            "mkv"
        } else {
            "png"
        };
        let ghost found = lemma_some_name_is_free(
            source@,
            folder@,
            video,
            existing@,
            self.items@,
        );
        let mut n: u64 = 0;
        loop
            invariant
                n <= found < u64::MAX,
                stem@ == crate::path::shown_stem(source@),
                extension@ == (if video {
                    "mkv"@
                } else {
                    "png"@
                }),
                is_free(
                    output_name(source@, folder@, video, found),
                    existing@,
                    self.items@,
                ),
                video == (kind == MediaKind::Video || kind == MediaKind::Animation(
                    crate::media::kind::AnimationFormat::Gif,
                )),
                forall|m: nat|
                    m < n ==> !is_free(
                        #[trigger] output_name(source@, folder@, video, m),
                        existing@,
                        self.items@,
                    ),
            decreases found - n,
        {
            let mut name: String = owned(stem.as_str());
            if n == 0 {
                name.append("-crt.");
            } else {
                let middle: String = join3("-crt-", decimal_text(n).as_str(), ".");
                name.append(middle.as_str());
            }
            name.append(extension);
            let path: String = join_paths(folder, name.as_str());
            assert(path@ == output_name(source@, folder@, video, n as nat));
            if path_is_free(path.as_str(), existing, &self.items) {
                return path;
            }
            n = n + 1;
        }
    }

    /// Adds a job for each of `sources`, into `folder`, keeping these settings. Stops with an
    /// error once the queue is full; the jobs added before that stay. Each source comes with how
    /// it opens, and `existing` is the paths of the files in the folder.
    pub fn add(
        &mut self,
        sources: &Vec<(String, MediaKind)>,
        folder: &str,
        existing: &Vec<String>,
        config: &Config,
        options: &Options,
    ) -> (r: Result<(), Full>)
        requires
            old(self)@.items.len() <= MAX_JOBS,
            existing@.len() + MAX_JOBS < usize::MAX,
        ensures
            ({
                let before = old(self)@.items;
                let after = final(self)@.items;
                &&& r is Ok == (before.len() + sources@.len() <= MAX_JOBS)
                &&& after.len() == (if before.len() + sources@.len() <= MAX_JOBS {
                    before.len() + sources@.len()
                } else {
                    MAX_JOBS as nat
                })
                &&& after.take(before.len() as int) == before
                &&& forall|i: int|
                    before.len() <= i < after.len() ==> is_job(
                        #[trigger] after[i],
                        sources@[i - before.len()],
                        folder@,
                        existing@,
                        after.take(i),
                        *config,
                        *options,
                    )
                &&& final(self)@.running == old(self)@.running
                &&& final(self)@.active == old(self)@.active
                &&& old(self)@.wf() ==> final(self)@.wf()
            }),
    {
        let ghost before = self.items@;
        let mut i: usize = 0;
        assert(before.take(before.len() as int) == before);
        while i < sources.len()
            invariant
                i <= sources@.len(),
                existing@.len() + MAX_JOBS < usize::MAX,
                before == old(self)@.items,
                self.items@.len() == before.len() + i <= MAX_JOBS,
                self.items@.take(before.len() as int) == before,
                self@.running == old(self)@.running,
                self@.active == old(self)@.active,
                forall|k: int|
                    before.len() <= k < self.items@.len() ==> is_job(
                        #[trigger] self.items@[k],
                        sources@[k - before.len()],
                        folder@,
                        existing@,
                        self.items@.take(k),
                        *config,
                        *options,
                    ),
            decreases sources@.len() - i,
        {
            if self.items.len() >= MAX_JOBS {
                return Err(Full);
            }
            let source: &str = sources[i].0.as_str();
            let output: String = self.output_for(source, sources[i].1, folder, existing);
            let ghost earlier = self.items@;
            self.items.push(
                Item {
                    source: owned(source),
                    output,
                    config: config.copy(),
                    options: *options,
                    status: Status::Pending,
                },
            );
            proof {
                let now = self.items@;
                assert(now.take(earlier.len() as int) == earlier);
                assert(now.take(before.len() as int) == before) by {
                    assert(earlier.take(before.len() as int) == before);
                    assert(now.take(before.len() as int) == earlier.take(before.len() as int));
                }
                assert forall|k: int| before.len() <= k < now.len() implies is_job(
                    #[trigger] now[k],
                    sources@[k - before.len()],
                    folder@,
                    existing@,
                    now.take(k),
                    *config,
                    *options,
                ) by {
                    if k < earlier.len() {
                        assert(now[k] == earlier[k]);
                        assert(now.take(k) == earlier.take(k));
                    }
                }
            }
            i = i + 1;
        }
        Ok(())
    }

    pub fn running(&self) -> (r: bool)
        ensures
            r == self@.running,
    {
        self.running
    }

    /// Starts or pauses the queue. A paused queue finishes the job exporting now.
    pub fn set_running(&mut self, running: bool)
        ensures
            final(self)@ == (Line { running, ..old(self)@ }),
    {
        self.running = running;
    }

    /// Whether one of the jobs is exporting now.
    pub fn exporting(&self) -> (r: bool)
        ensures
            r == (self@.active is Some),
    {
        self.active.is_some()
    }

    /// The next pending job, now marked running, unless the queue is paused. A job whose
    /// output has appeared since it was added fails instead. With no job left, the queue pauses.
    /// `existing` is the jobs' outputs that are there.
    pub fn next(&mut self, existing: &Vec<String>) -> (r: Option<Item>)
        ensures
            !old(self)@.running ==> r is None && final(self)@ == old(self)@,
            old(self)@.running ==> {
                let before = old(self)@.items;
                let after = final(self)@.items;
                let next = next_from(before, existing@, 0);
                &&& after.len() == before.len()
                &&& forall|i: int|
                    0 <= i < before.len() ==> is_passed(#[trigger] after[i], before[i], i, next)
                &&& r is Some == (next < before.len())
                &&& r matches Some(job) ==> job.alike(after[next]) && final(self)@.active == Some(
                    next,
                ) && final(self)@.running
                &&& r is None ==> !final(self)@.running && final(self)@.active == old(self)@.active
            },
            old(self)@.wf() ==> final(self)@.wf(),
    {
        if !self.running {
            return None;
        }
        let ghost before = self.items@;
        let mut i: usize = 0;
        while i < self.items.len()
            invariant
                i <= self.items@.len() == before.len(),
                before == old(self)@.items,
                old(self)@.running,
                self.running,
                self@.active == old(self)@.active,
                next_from(before, existing@, 0) == next_from(before, existing@, i as int),
                forall|k: int|
                    0 <= k < i ==> is_passed(
                        #[trigger] self.items@[k],
                        before[k],
                        k,
                        before.len() as int,
                    ),
                forall|k: int| i <= k < before.len() ==> #[trigger] self.items@[k] == before[k],
            decreases self.items@.len() - i,
        {
            if self.items[i].status.is_pending() {
                if !is_among(self.items[i].output.as_str(), existing) {
                    let mut item: Item = self.items[i].copy();
                    self.items[i].status = Status::Running;
                    item.status = Status::Running;
                    self.active = Some(i);
                    proof {
                        assert(next_from(before, existing@, 0) == i);
                        assert forall|k: int| 0 <= k < before.len() implies is_passed(
                            #[trigger] self.items@[k],
                            before[k],
                            k,
                            i as int,
                        ) by {}
                    }
                    return Some(item);
                }
                self.items[i].status =
                Status::Failed(
                    owned(
                        "Destination already exists. Remove it or add a new job; batch exports never intentionally replace existing files.",
                    ),
                );
            }
            i = i + 1;
        }
        self.running = false;
        None
    }

    /// An export ended with `result`. Whether it was the queue's job. Cancelling pauses the
    /// queue rather than moving on, also when it was `asked_to_stop` too late to stop and the
    /// job finished anyway.
    pub fn finished(&mut self, result: &Outcome<String>, asked_to_stop: bool) -> (r: bool)
        requires
            old(self)@.wf(),
        ensures
            r == (old(self)@.active is Some),
            !r ==> final(self)@ == old(self)@,
            old(self)@.active matches Some(index) ==> {
                &&& final(self)@.active is None
                &&& final(self)@.items == old(self)@.items.update(
                    index,
                    Item {
                        status: final(self)@.items[index].status,
                        ..old(self)@.items[index]
                    },
                )
                &&& is_ending(final(self)@.items[index].status, *result)
                &&& final(self)@.running == (old(self)@.running && !asked_to_stop && !(*result
                    == Err::<String, Failure>(Failure::Cancelled)))
            },
            final(self)@.wf(),
    {
        let index: usize = match self.active {
            Some(index) => index,
            None => {
                return false;
            },
        };
        self.active = None;
        let mut stopped: bool = asked_to_stop;
        let status: Status = match result {
            Ok(_) => Status::Done,
            Err(Failure::Cancelled) => {
                stopped = true;
                Status::Cancelled
            },
            Err(Failure::Failed(e)) => Status::Failed(owned(e.as_str())),
        };
        self.items[index].status = status;
        if stopped {
            self.running = false;
        }
        assert(self@.items =~= old(self)@.items.update(
            index as int,
            Item { status: self@.items[index as int].status, ..old(self)@.items[index as int] },
        ));
        true
    }

    /// Whether the job at `index` can be edited now: not while any job exports, since that
    /// would move the job being exported.
    pub fn can_edit(&self, index: usize) -> (r: bool)
        ensures
            r == editable(self@, index as int),
    {
        self.active.is_none() && index < self.items.len() && !self.items[index].status.is_running()
    }

    pub fn edit(&mut self, index: usize, edit: Edit)
        ensures
            final(self)@ == edited(old(self)@, index as int, edit),
            old(self)@.wf() ==> final(self)@.wf(),
    {
        if !self.can_edit(index) {
            return ;
        }
        match edit {
            Edit::Retry => if self.items[index].status.retryable() {
                self.items[index].status = Status::Pending;
                assert(self@.items =~= old(self)@.items.update(
                    index as int,
                    Item { status: Status::Pending, ..old(self)@.items[index as int] },
                ));
            },
            Edit::MoveUp => if index > 0 {
                let item: Item = self.items.remove(index);
                self.items.insert(index - 1, item);
                assert(self@.items =~= old(self)@.items.update(
                    index - 1,
                    old(self)@.items[index as int],
                ).update(index as int, old(self)@.items[index - 1]));
            },
            Edit::Remove => {
                self.items.remove(index);
            },
        }
    }
}

/// Whether a job is the one added for a source after `earlier` jobs.
pub open spec fn is_job(
    item: Item,
    source: (String, MediaKind),
    folder: Seq<char>,
    existing: Seq<String>,
    earlier: Seq<Item>,
    config: Config,
    options: Options,
) -> bool {
    &&& item.source@ == source.0@
    &&& item.status is Pending
    &&& item.config.alike(config)
    &&& item.options == options
    &&& is_output(
        item.output@,
        source.0@,
        folder,
        source.1 == MediaKind::Video || source.1 == MediaKind::Animation(
            crate::media::kind::AnimationFormat::Gif,
        ),
        existing,
        earlier,
    )
}

/// Whether a job that ended so has this status.
pub open spec fn is_ending(status: Status, result: Outcome<String>) -> bool {
    match result {
        Ok(_) => status is Done,
        Err(Failure::Cancelled) => status is Cancelled,
        Err(Failure::Failed(e)) => status matches Status::Failed(text) && text@ == e@,
    }
}

pub open spec fn editable(line: Line, index: int) -> bool {
    line.active is None && 0 <= index < line.items.len() && !(line.items[index].status is Running)
}

/// A queue after a change from its window: a failed or cancelled job pending again, a job
/// moved up, or gone. What cannot be changed stays as it is.
pub open spec fn edited(line: Line, index: int, edit: Edit) -> Line {
    if !editable(line, index) {
        line
    } else {
        let items = line.items;
        match edit {
            Edit::Retry => if items[index].status is Failed || items[index].status is Cancelled {
                Line {
                    items: items.update(index, Item { status: Status::Pending, ..items[index] }),
                    ..line
                }
            } else {
                line
            },
            Edit::MoveUp => if index > 0 {
                Line {
                    items: items.update(index - 1, items[index]).update(index, items[index - 1]),
                    ..line
                }
            } else {
                line
            },
            Edit::Remove => Line { items: items.remove(index), ..line },
        }
    }
}

/// Jobs added to a queue write to paths that no file has and that differ from each other's and
/// from those of the jobs before.
pub proof fn outputs_never_collide(
    before: Seq<Item>,
    after: Seq<Item>,
    sources: Seq<(String, MediaKind)>,
    folder: Seq<char>,
    existing: Seq<String>,
    config: Config,
    options: Options,
    i: int,
)
    requires
        before.len() <= i < after.len(),
        after.len() - before.len() <= sources.len(),
        forall|k: int|
            before.len() <= k < after.len() ==> is_job(
                #[trigger] after[k],
                sources[k - before.len()],
                folder,
                existing,
                after.take(k),
                config,
                options,
            ),
    ensures
        !among(after[i].output@, existing),
        forall|k: int|
            0 <= k < i ==> !crate::path::same((#[trigger] after[k]).output@, after[i].output@),
{
    assert(is_job(
        after[i],
        sources[i - before.len()],
        folder,
        existing,
        after.take(i),
        config,
        options,
    ));
    assert(is_free(after[i].output@, existing, after.take(i)));
    assert forall|k: int| 0 <= k < i implies !crate::path::same(
        (#[trigger] after[k]).output@,
        after[i].output@,
    ) by {
        assert(after.take(i)[k] == after[k]);
    }
}

/// A queue never starts a job whose output is there: it fails instead, and the file stays.
pub proof fn existing_files_are_never_exported_to(items: Seq<Item>, existing: Seq<String>)
    ensures
        ({
            let next = next_from(items, existing, 0);
            next < items.len() ==> items[next].status is Pending && !among(
                items[next].output@,
                existing,
            )
        }),
{
    lemma_next_is_pending(items, existing, 0);
}

proof fn lemma_next_is_pending(items: Seq<Item>, existing: Seq<String>, i: int)
    requires
        i >= 0,
    ensures
        ({
            let next = next_from(items, existing, i);
            next < items.len() ==> i <= next && items[next].status is Pending && !among(
                items[next].output@,
                existing,
            )
        }),
    decreases items.len() - i,
{
    if i < items.len() && !(items[i].status is Pending && !among(items[i].output@, existing)) {
        lemma_next_is_pending(items, existing, i + 1);
    }
}

} // verus!
