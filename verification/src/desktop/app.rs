//! The application between its windows and its workers: what is being edited, what the workers
//! are asked for, and what their answers change.
//!
//! Work for the threads is put in an outbox, in order. Moments are nanoseconds on a clock that
//! only moves forward.
use crate::crt::config::{Config, ConfigError};
use crate::crt::lut::Lut;
use crate::crt::picture::{test_card, Picture};
use crate::crt::render::RenderProgress;
use crate::desktop::batch::{Item, Queue};
use crate::desktop::export_ui::{ChoiceError, ExportDialog, ExportFormat, Proceed};
use crate::desktop::model::History;
use crate::desktop::playback::{Arrival, Playback, PlaybackFrame, Status, Tick};
use crate::desktop::schedule::{Change, Due, Schedule};
use crate::desktop::thumbnails::{Answer, Thumbnails};
use crate::desktop::worker::{ExportKind, Failure, Outcome, PreviewJob, ThumbnailKey};
use crate::desktop::workflow::{remember, restore_as, Project, ProjectError, Restore};
use crate::media::animation::AnimationOptions;
use crate::media::kind::{Container, MediaKind};
use crate::media::options::Options;
use crate::media::probe::Video;
use crate::number::{Real32, Real64};
use crate::path::{has_extension, stem_or_empty};
use crate::text::{decimal_text, join, join3, owned, same_text};
use std::sync::Arc;
use vstd::prelude::*;

verus! {

// -------------------------------------------------------------------------------------------
// What the application holds
// -------------------------------------------------------------------------------------------

/// What the work thread is doing for the interface: one load or export at a time.
#[derive(Debug)]
pub enum Work {
    Idle,
    /// Opening an image, a frame of a video or a preset's metadata. Only an image cannot be
    /// stopped.
    Loading { stoppable: bool, stopping: bool },
    /// An export or a batch job, with the latest progress the worker has reported.
    Exporting { stopping: bool, progress: Option<RenderProgress> },
}

impl Work {
    pub fn is_idle(&self) -> (r: bool)
        ensures
            r == (*self is Idle),
    {
        match self {
            Work::Idle => true,
            _ => false,
        }
    }

    pub fn is_loading(&self) -> (r: bool)
        ensures
            r == (*self is Loading),
    {
        match self {
            Work::Loading { .. } => true,
            _ => false,
        }
    }

    pub fn is_exporting(&self) -> (r: bool)
        ensures
            r == (*self is Exporting),
    {
        match self {
            Work::Exporting { .. } => true,
            _ => false,
        }
    }

    pub open spec fn can_stop(self) -> bool {
        match self {
            Work::Idle => false,
            Work::Loading { stoppable, .. } => stoppable,
            Work::Exporting { .. } => true,
        }
    }

    /// Whether the job can be stopped.
    pub fn stoppable(&self) -> (r: bool)
        ensures
            r == self.can_stop(),
    {
        match self {
            Work::Idle => false,
            Work::Loading { stoppable, .. } => *stoppable,
            Work::Exporting { .. } => true,
        }
    }

    pub open spec fn asked_to_stop(self) -> bool {
        match self {
            Work::Idle => false,
            Work::Loading { stoppable, stopping } => stoppable && stopping,
            Work::Exporting { stopping, .. } => stopping,
        }
    }

    /// Whether the job has been asked to stop.
    pub fn stopping(&self) -> (r: bool)
        ensures
            r == self.asked_to_stop(),
    {
        match self {
            Work::Idle => false,
            Work::Loading { stoppable, stopping } => *stoppable && *stopping,
            Work::Exporting { stopping, .. } => *stopping,
        }
    }
}

/// What an export renders, each with the settings captured when it was asked for.
#[derive(Debug)]
pub enum Export {
    Image { input: Arc<Picture>, config: Config },
    Video { video: Arc<Video>, options: Options, config: Config },
    Animation { video: Arc<Video>, options: AnimationOptions, config: Config },
    Batch { source: String, options: Options, config: Config },
}

impl Export {
    pub fn kind(&self) -> (r: ExportKind)
        ensures
            r == match *self {
                Export::Image { .. } => ExportKind::Image,
                Export::Video { .. } => ExportKind::Video,
                Export::Animation { .. } => ExportKind::Animation,
                Export::Batch { .. } => ExportKind::Batch,
            },
    {
        match self {
            Export::Image { .. } => ExportKind::Image,
            Export::Video { .. } => ExportKind::Video,
            Export::Animation { .. } => ExportKind::Animation,
            Export::Batch { .. } => ExportKind::Batch,
        }
    }
}

/// Work for the other thread: loading, exports and playback, one at a time.
#[derive(Debug)]
pub enum Job {
    Load(String),
    /// A frame of a video. The video and its frame count come along when a frame of the one
    /// already open is wanted.
    LoadVideo { path: String, frame: u64, cached: Option<(Arc<Video>, u64)> },
    ImportPreset { path: String, input: (u32, u32) },
    /// Rendered and saved to a path, which is only replaced once the whole file is ready.
    Export { export: Export, path: String },
    Playback { video: Arc<Video>, config: Config, options: Options, start: Real64 },
}

/// Something that went wrong.
#[derive(Debug)]
pub enum Problem {
    Text(String),
    /// A look that cannot be used, after what could not be done.
    Config { lead: &'static str, fault: ConfigError },
    Project { lead: &'static str, fault: ProjectError },
    /// Export settings that cannot be used.
    Choice(ChoiceError),
}

impl Problem {
    pub open spec fn says(self, text: Seq<char>) -> bool {
        self matches Problem::Text(t) && t@ == text
    }
}

/// Whether a problem says a text.
pub open spec fn tells(problem: Option<Problem>, text: Seq<char>) -> bool {
    problem matches Some(p) && p.says(text)
}

/// What the status bar shows.
#[derive(Debug)]
pub struct Told {
    pub status: String,
    pub error: Option<Problem>,
    pub preview_error: Option<Problem>,
}

impl Told {
    /// Whether only the status has changed, to a text.
    pub open spec fn only_says(self, before: Told, status: Seq<char>) -> bool {
        &&& self.status@ == status
        &&& self.error == before.error
        &&& self.preview_error == before.preview_error
    }

    /// Whether this is what is told once playing has stopped.
    pub open spec fn paused(self, before: Told, was_playing: bool) -> bool {
        self.only_says(
            before,
            if was_playing {
                "Playback paused"@
            } else {
                before.status@
            },
        )
    }
}

/// What is being edited: a file, a frame of a video, or the built-in test card.
#[derive(Debug)]
pub struct Source {
    pub path: Option<String>,
    pub name: String,
    pub video: Option<Arc<Video>>,
    /// The frame shown, the one selected, and how many there are.
    pub frame: u64,
    pub selected: u64,
    pub frames: u64,
    /// Where in the video the frame on screen is, in seconds; playing starts from here.
    pub time: Real64,
    pub input: Arc<Picture>,
    /// Counts the inputs.
    pub id: u64,
}

/// Which windows are open.
#[derive(Debug)]
pub struct Windows {
    pub welcome: bool,
    pub credits: bool,
    pub gallery: bool,
    pub lut_gallery: bool,
    pub queue: bool,
    /// A native file dialog.
    pub dialog: bool,
    pub export: Option<ExportDialog>,
}

/// What is kept of projects.
#[derive(Debug)]
pub struct Projects {
    pub path: Option<String>,
    /// The last session, on offer to be recovered.
    pub recovery: Option<Project>,
    pub recent: Vec<String>,
    pub last_saved: Option<Project>,
    /// What is restored once its source has been loaded.
    pub pending: Option<Project>,
}

impl Projects {
    /// Whether the last session is on offer to be recovered, which nothing else may run before,
    /// since recovering replaces the batch queue.
    pub fn recovery_offered(&self) -> (r: bool)
        ensures
            r == (self.recovery is Some),
    {
        self.recovery.is_some()
    }
}

/// A look being previewed from a gallery without being applied.
#[derive(Debug)]
pub struct Audition {
    pub label: String,
    pub config: Config,
}

impl Audition {
    pub open spec fn equal(self, other: Audition) -> bool {
        self.label@ == other.label@ && self.config.equal(other.config)
    }

    pub fn same(&self, other: &Audition) -> (r: bool)
        ensures
            r == self.equal(*other),
    {
        same_text(self.label.as_str(), other.label.as_str()) && self.config.same(&other.config)
    }
}

/// The files for new batch jobs with how each opens, the folder their exports go to, and what is
/// in it.
#[derive(Debug)]
pub struct Chosen {
    pub sources: Vec<(String, MediaKind)>,
    pub folder: String,
    pub existing: Vec<String>,
}

pub struct App {
    pub source: Source,
    pub told: Told,
    pub windows: Windows,
    pub projects: Projects,
    pub video_options: Options,
    pub animation_options: AnimationOptions,
    pub export_format: ExportFormat,
    pub work: Work,
    pub queue: Queue,
    pub config: Config,
    pub history: History,
    /// Whether the preview is out of date, and when to render the next one.
    pub schedule: Schedule,
    pub preview_limit: Option<u32>,
    /// Whether a preview of the source is on screen.
    pub rendered: bool,
    pub playback: Option<Playback>,
    pub audition: Option<Audition>,
    /// What a gallery pointed at this frame.
    pub offered: Option<Audition>,
    pub thumbnails: Thumbnails,
    pub gallery_name: String,
    /// What the work thread and the preview thread are asked for.
    pub jobs: Vec<Job>,
    pub previews: Vec<PreviewJob>,
}

/// Whether a list of jobs is another with one more at its end.
pub open spec fn adds<T>(before: Seq<T>, after: Seq<T>) -> bool {
    after.len() == before.len() + 1 && after.drop_last() == before
}

impl App {
    /// What holds of every application.
    pub open spec fn wf(self) -> bool {
        &&& self.history@.wf()
        &&& self.schedule@.wf()
        &&& self.queue@.wf()
        &&& self.playback matches Some(p) ==> p@.wf()
        &&& self.source.input.wf()
    }

    /// Whether changes can still be counted.
    pub open spec fn changeable(self) -> bool {
        self.schedule@.revision < u64::MAX
    }

    /// Whether changes and inputs can still be counted.
    pub open spec fn countable(self) -> bool {
        self.changeable() && self.source.id < u64::MAX
    }

    pub open spec fn size(self) -> (u32, u32) {
        (self.source.input.width, self.source.input.height)
    }

    pub open spec fn modal(self) -> bool {
        self.windows.dialog || self.windows.export is Some || self.windows.welcome
    }

    /// Whether an application is another with its settings or its source changed, as far as
    /// playback and the schedule go.
    pub open spec fn restarts(self, after: App, now: u64) -> bool {
        &&& after.playback is None
        &&& after.schedule@ == self.schedule@.changed(Change::Edit, now as nat)
    }

    /// An application that shows the test card, with its first preview pending.
    pub fn new(welcome: bool, now: u64) -> (r: App)
        ensures
            r.wf(),
            r.countable(),
            r.config.is_general(),
            r.history@ == (crate::desktop::model::Steps {
                past: Seq::empty(),
                current: r.history@.current,
                future: Seq::empty(),
            }),
            r.history@.current.alike(r.config),
            r.schedule@ == crate::desktop::schedule::Timeline::start(now as nat),
            r.work is Idle,
            r.source.name@ == "Built-in test card"@,
            r.source == (Source {
                path: None,
                name: r.source.name,
                video: None,
                frame: 0,
                selected: 0,
                frames: 0,
                time: Real64::of(0),
                input: r.source.input,
                id: 0,
            }),
            crate::crt::picture::is_card(*r.source.input),
            r.projects == (Projects {
                path: None,
                recovery: None,
                recent: r.projects.recent,
                last_saved: None,
                pending: None,
            }),
            r.projects.recent@.len() == 0,
            r.video_options == Options::initial(),
            r.animation_options == AnimationOptions::initial(),
            r.export_format == ExportFormat::Video(Container::Mp4),
            r.thumbnails@ == (crate::desktop::thumbnails::Shelf {
                source: None,
                small: None,
                generation: 0,
                entries: Seq::empty(),
            }),
            r.gallery_name@.len() == 0,
            r.windows == (Windows {
                welcome,
                credits: false,
                gallery: false,
                lut_gallery: false,
                queue: false,
                dialog: false,
                export: None,
            }),
            r.queue@.items.len() == 0,
            !r.queue@.running,
            r.queue@.active is None,
            r.preview_limit == Some(1280u32),
            !r.rendered,
            r.playback is None,
            r.audition is None,
            r.offered is None,
            r.jobs@.len() == 0,
            r.previews@.len() == 0,
            r.told.status@ == "Preparing preview…"@,
            r.told.error is None,
            r.told.preview_error is None,
    {
        let config: Config = Config::general();
        App {
            source: Source {
                path: None,
                name: owned("Built-in test card"),
                video: None,
                frame: 0,
                selected: 0,
                frames: 0,
                time: Real64::from_integer(0),
                input: Arc::new(test_card()),
                id: 0,
            },
            told: Told { status: owned("Preparing preview…"), error: None, preview_error: None },
            windows: Windows {
                welcome,
                credits: false,
                gallery: false,
                lut_gallery: false,
                queue: false,
                dialog: false,
                export: None,
            },
            projects: Projects {
                path: None,
                recovery: None,
                recent: Vec::new(),
                last_saved: None,
                pending: None,
            },
            video_options: Options::default(),
            animation_options: AnimationOptions::default(),
            export_format: ExportFormat::default(),
            work: Work::Idle,
            queue: Queue::default(),
            history: History::new(config.copy()),
            config,
            schedule: Schedule::new(now),
            preview_limit: Some(1280),
            rendered: false,
            playback: None,
            audition: None,
            offered: None,
            thumbnails: Thumbnails::default(),
            gallery_name: String::new(),
            jobs: Vec::new(),
            previews: Vec::new(),
        }
    }

    /// A window that takes over the interface is open: a native file dialog, the video export
    /// settings or the welcome.
    pub fn modal_open(&self) -> (r: bool)
        ensures
            r == self.modal(),
    {
        self.windows.dialog || self.windows.export.is_some() || self.windows.welcome
    }

    /// Whether a file can be opened or an export started: nothing modal is open and the work
    /// thread is free.
    pub fn can_start_work(&self) -> (r: bool)
        ensures
            r == (!self.modal() && self.work is Idle),
    {
        !self.modal_open() && self.work.is_idle()
    }

    // ---------------------------------------------------------------------------------------
    // Edits
    // ---------------------------------------------------------------------------------------

    /// Stops the video playing in the preview, if it is.
    pub fn stop_playback(&mut self)
        ensures
            *final(self) == (App { playback: None, told: final(self).told, ..*old(self) }),
            final(self).told.paused(old(self).told, old(self).playback is Some),
            old(self).wf() ==> final(self).wf(),
    {
        if self.playback.is_some() {
            self.told.status = owned("Playback paused");
        }
        self.playback = None;
    }

    /// The settings or the source changed: playing stops, and the preview is out of date.
    pub fn changed(&mut self, now: u64)
        requires
            old(self).changeable(),
        ensures
            *final(self) == (App {
                playback: None,
                told: final(self).told,
                schedule: final(self).schedule,
                ..*old(self)
            }),
            old(self).restarts(*final(self), now),
            final(self).told.paused(old(self).told, old(self).playback is Some),
            old(self).wf() ==> final(self).wf(),
    {
        self.stop_playback();
        self.schedule.changed(Change::Edit, now);
    }

    /// Replaces the settings, as one undo step of its own.
    pub fn replace_config(&mut self, config: Config, now: u64)
        requires
            old(self).changeable(),
        ensures
            *final(self) == (App {
                playback: None,
                told: final(self).told,
                schedule: final(self).schedule,
                history: final(self).history,
                config,
                ..*old(self)
            }),
            old(self).restarts(*final(self), now),
            final(self).told.paused(old(self).told, old(self).playback is Some),
            commits_twice(old(self).history@, final(self).history@, old(self).config, config),
            old(self).wf() ==> final(self).wf(),
    {
        self.history.commit(&self.config);
        let ghost mid = self.history@;
        self.config = config;
        self.history.commit(&self.config);
        assert(old(self).history@.commits(mid, old(self).config) && mid.commits(
            self.history@,
            config,
        ));
        self.changed(now);
    }

    /// Whether an application is another a step back, where there was one.
    pub open spec fn undoes(self, after: App, moved: bool, now: u64) -> bool {
        exists|c: Option<Config>| #[trigger]
            self.history@.undoes(after.history@, self.config, c) && self.goes(after, c, moved, now)
    }

    /// Whether an application is another a step forward again, where there was one.
    pub open spec fn redoes(self, after: App, moved: bool, now: u64) -> bool {
        exists|c: Option<Config>| #[trigger]
            self.history@.redoes(after.history@, self.config, c) && self.goes(after, c, moved, now)
    }

    /// Goes a step back. Whether there was one.
    pub fn undo(&mut self, now: u64) -> (r: bool)
        requires
            old(self).changeable(),
        ensures
            old(self).undoes(*final(self), r, now),
            old(self).wf() ==> final(self).wf(),
    {
        let got: Option<Config> = self.history.undo(&self.config);
        let moved: bool = got.is_some();
        let ghost c = got;
        match got {
            Some(config) => {
                self.config = config;
                self.changed(now);
            },
            None => {},
        }
        assert(old(self).history@.undoes(self.history@, old(self).config, c));
        moved
    }

    /// Goes a step forward again. Whether there was one.
    pub fn redo(&mut self, now: u64) -> (r: bool)
        requires
            old(self).changeable(),
        ensures
            old(self).redoes(*final(self), r, now),
            old(self).wf() ==> final(self).wf(),
    {
        let got: Option<Config> = self.history.redo(&self.config);
        let moved: bool = got.is_some();
        let ghost c = got;
        match got {
            Some(config) => {
                self.config = config;
                self.changed(now);
            },
            None => {},
        }
        assert(old(self).history@.redoes(self.history@, old(self).config, c));
        moved
    }

    /// Whether an application is another with the settings that its history gave, if it did.
    pub open spec fn goes(self, after: App, c: Option<Config>, moved: bool, now: u64) -> bool {
        &&& moved == (c is Some)
        &&& match c {
            Some(c) => {
                &&& after == (App {
                    playback: None,
                    told: after.told,
                    schedule: after.schedule,
                    history: after.history,
                    config: c,
                    ..self
                })
                &&& self.restarts(after, now)
                &&& after.told.paused(self.told, self.playback is Some)
            },
            None => after == (App { history: after.history, ..self }),
        }
    }

    /// Makes `input` the image being edited: the file at `path`, a frame of `video`, or with
    /// neither the built-in test card.
    pub fn set_source(
        &mut self,
        path: Option<String>,
        name: String,
        video: Option<Arc<Video>>,
        input: Picture,
        now: u64,
    )
        requires
            old(self).countable(),
            input.wf(),
        ensures
            *final(self) == (App {
                playback: None,
                told: final(self).told,
                schedule: final(self).schedule,
                rendered: false,
                source: Source {
                    path,
                    name,
                    video,
                    input: final(self).source.input,
                    id: (old(self).source.id + 1) as u64,
                    ..old(self).source
                },
                ..*old(self)
            }),
            *final(self).source.input == input,
            old(self).restarts(*final(self), now),
            final(self).told.paused(old(self).told, old(self).playback is Some),
            old(self).wf() ==> final(self).wf(),
    {
        self.source.path = path;
        self.source.name = name;
        self.source.video = video;
        self.source.input = Arc::new(input);
        self.source.id = self.source.id + 1;
        self.rendered = false;
        self.changed(now);
    }

    /// Shows the built-in test card.
    pub fn show_test_card(&mut self, now: u64)
        requires
            old(self).countable(),
        ensures
            final(self).source.name@ == "Built-in test card"@,
            crate::crt::picture::is_card(*final(self).source.input),
            old(self).restarts(*final(self), now),
            final(self).told.paused(old(self).told, old(self).playback is Some),
            *final(self) == (App {
                playback: None,
                told: final(self).told,
                schedule: final(self).schedule,
                rendered: false,
                source: final(self).source,
                ..*old(self)
            }),
            final(self).source == (Source {
                path: None,
                name: final(self).source.name,
                video: None,
                input: final(self).source.input,
                id: (old(self).source.id + 1) as u64,
                ..old(self).source
            }),
            old(self).wf() ==> final(self).wf(),
    {
        self.set_source(None, owned("Built-in test card"), None, test_card(), now);
    }

    // ---------------------------------------------------------------------------------------
    // Opening
    // ---------------------------------------------------------------------------------------

    /// Opens a file, which has several frames or not. Whether it is a project, which is for the
    /// caller to read: everything else is loaded by the work thread.
    pub fn load(&mut self, path: &str, several_frames: bool) -> (r: bool)
        ensures
            ({
                let project = crate::path::extends_with(path@, "crtsim"@);
                let moving = !(MediaKind::opened(path@, several_frames) is Still);
                &&& r == project
                &&& project ==> *final(self) == (App {
                    playback: None,
                    told: final(self).told,
                    ..*old(self)
                }) && final(self).told.paused(old(self).told, old(self).playback is Some)
                &&& !project ==> {
                    &&& *final(self) == (App {
                        playback: None,
                        told: final(self).told,
                        work: Work::Loading { stoppable: moving, stopping: false },
                        jobs: final(self).jobs,
                        ..*old(self)
                    })
                    &&& adds(old(self).jobs@, final(self).jobs@)
                    &&& final(self).told.only_says(
                        old(self).told,
                        if moving {
                            "Loading video frame…"@
                        } else {
                            "Loading "@ + path@ + "…"@
                        },
                    )
                    &&& if moving {
                        final(self).jobs@.last() matches Job::LoadVideo { path: p, frame, cached }
                            && p@ == path@ && frame == 0 && cached is None
                    } else {
                        final(self).jobs@.last() matches Job::Load(p) && p@ == path@
                    }
                }
            }),
            old(self).wf() ==> final(self).wf(),
    {
        self.stop_playback();
        if has_extension(path, "crtsim") {
            return true;
        }
        if MediaKind::of(path, several_frames).is_moving() {
            self.load_video(path, 0, false);
            return false;
        }
        self.work = Work::Loading { stoppable: false, stopping: false };
        self.told.status = join3("Loading ", path, "…");
        let ghost before = self.jobs@;
        self.jobs.push(Job::Load(owned(path)));
        assert(self.jobs@.drop_last() =~= before);
        false
    }

    /// Loads a frame of a video; of the one already open when it is `reused`.
    pub fn load_video(&mut self, path: &str, frame: u64, reused: bool)
        ensures
            *final(self) == (App {
                playback: None,
                told: final(self).told,
                work: Work::Loading { stoppable: true, stopping: false },
                jobs: final(self).jobs,
                ..*old(self)
            }),
            final(self).told.only_says(old(self).told, "Loading video frame…"@),
            adds(old(self).jobs@, final(self).jobs@),
            final(self).jobs@.last() matches Job::LoadVideo { path: p, frame: f, cached } && p@
                == path@ && f == frame && cached == (if reused {
                match old(self).source.video {
                    Some(video) => Some((video, old(self).source.frames)),
                    None => None,
                }
            } else {
                None
            }),
            old(self).wf() ==> final(self).wf(),
    {
        self.stop_playback();
        self.work = Work::Loading { stoppable: true, stopping: false };
        self.told.status = owned("Loading video frame…");
        let cached: Option<(Arc<Video>, u64)> = if reused {
            match &self.source.video {
                Some(video) => Some((video.clone(), self.source.frames)),
                None => None,
            }
        } else {
            None
        };
        let ghost before = self.jobs@;
        self.jobs.push(Job::LoadVideo { path: owned(path), frame, cached });
        assert(self.jobs@.drop_last() =~= before);
    }

    /// Reads the settings in a rendered file, for the source being edited.
    pub fn import_preset(&mut self, path: &str)
        ensures
            *final(self) == (App {
                told: final(self).told,
                work: Work::Loading { stoppable: true, stopping: false },
                jobs: final(self).jobs,
                ..*old(self)
            }),
            final(self).told.only_says(old(self).told, "Reading preset metadata…"@),
            adds(old(self).jobs@, final(self).jobs@),
            final(self).jobs@.last() matches Job::ImportPreset { path: p, input } && p@ == path@
                && input == old(self).size(),
            old(self).wf() ==> final(self).wf(),
    {
        self.work = Work::Loading { stoppable: true, stopping: false };
        self.told.status = owned("Reading preset metadata…");
        let ghost before = self.jobs@;
        self.jobs.push(
            Job::ImportPreset { path: owned(path), input: self.source.input.dimensions() },
        );
        assert(self.jobs@.drop_last() =~= before);
    }

    /// A worker has stopped: nothing more will come back.
    pub fn worker_stopped(&mut self)
        ensures
            *final(self) == (App {
                told: final(self).told,
                work: Work::Idle,
                schedule: final(self).schedule,
                ..*old(self)
            }),
            final(self).schedule@ == (crate::desktop::schedule::Timeline {
                pending: None,
                rendering: false,
                ..old(self).schedule@
            }),
            final(self).told.status == old(self).told.status,
            final(self).told.preview_error == old(self).told.preview_error,
            tells(
                final(self).told.error,
                "Render worker stopped. Save your preset and restart the application."@,
            ),
            old(self).wf() ==> final(self).wf(),
    {
        self.told.error =
        Some(
            Problem::Text(
                owned("Render worker stopped. Save your preset and restart the application."),
            ),
        );
        self.work = Work::Idle;
        self.schedule.stop();
    }

    // ---------------------------------------------------------------------------------------
    // Exports
    // ---------------------------------------------------------------------------------------

    /// Hands an export to the work thread, which saves it to `path`. It can be cancelled from the
    /// status bar, which shows the `queued` stage until the worker reports its own.
    fn start_export(&mut self, export: Export, path: &str, status: String, queued: Option<&str>)
        ensures
            *final(self) == (App {
                told: final(self).told,
                work: final(self).work,
                jobs: final(self).jobs,
                ..*old(self)
            }),
            final(self).told.only_says(old(self).told, status@),
            is_started(final(self).work, match queued {
                Some(stage) => Some(stage@),
                None => None,
            }),
            adds(old(self).jobs@, final(self).jobs@),
            final(self).jobs@.last() matches Job::Export { export: e, path: p } && e == export && p@
                == path@,
            old(self).wf() ==> final(self).wf(),
    {
        self.work =
        Work::Exporting {
            stopping: false,
            progress: match queued {
                Some(stage) => Some(
                    RenderProgress { fraction: Real32 { bits: 0 }, stage: owned(stage) },
                ),
                None => None,
            },
        };
        self.told.status = status;
        let ghost before = self.jobs@;
        self.jobs.push(Job::Export { export, path: owned(path) });
        assert(self.jobs@.drop_last() =~= before);
    }

    /// The image, or frame, on screen, exported as a PNG at full resolution with the settings in
    /// use now.
    pub fn export(&mut self, path: &str)
        ensures
            match old(self).config.fault_for(old(self).size()) {
                Some(e) => {
                    &&& *final(self) == (App {
                        playback: None,
                        told: final(self).told,
                        ..*old(self)
                    })
                    &&& final(self).told.error == Some(Problem::Config { lead: "", fault: e })
                    &&& (Told { error: old(self).told.error, ..final(self).told }).paused(
                        old(self).told,
                        old(self).playback is Some,
                    )
                },
                None => {
                    &&& *final(self) == (App {
                        playback: None,
                        told: final(self).told,
                        work: final(self).work,
                        jobs: final(self).jobs,
                        ..*old(self)
                    })
                    &&& final(self).told.only_says(
                        old(self).told,
                        "Exporting "@ + path@ + "… Settings are captured for this export."@,
                    )
                    &&& is_started(final(self).work, Some("Queued for export"@))
                    &&& adds(old(self).jobs@, final(self).jobs@)
                    &&& final(self).jobs@.last() matches Job::Export { export, path: p } && p@
                        == path@ && (export matches Export::Image { input, config } && input
                        == old(self).source.input && config.alike(old(self).config))
                },
            },
            old(self).wf() ==> final(self).wf(),
    {
        self.stop_playback();
        match self.config.validate_for(self.source.input.dimensions()) {
            Err(e) => {
                self.told.error = Some(Problem::Config { lead: "", fault: e });
                return;
            },
            Ok(()) => {},
        }
        let status: String = join3(
            "Exporting ",
            path,
            "… Settings are captured for this export.",
        );
        let export: Export = Export::Image {
            input: self.source.input.clone(),
            config: self.config.copy(),
        };
        self.start_export(export, path, status, Some("Queued for export"));
    }

    /// What exporting the video says while it runs.
    pub open spec fn exporting_text(self) -> Seq<char> {
        match self.export_format {
            ExportFormat::Video(_) => "Exporting video…"@,
            ExportFormat::Animation(format) => "Exporting "@ + format.name_text() + "…"@,
        }
    }

    /// Whether an export is of the video on screen as the export dialog chose, with the settings
    /// in use.
    pub open spec fn is_video_export(self, export: Export) -> bool {
        match (export, self.export_format) {
            (Export::Video { video, options, config }, ExportFormat::Video(_)) => self.source.video
                == Some(video) && options == self.video_options && config.alike(self.config),
            (
                Export::Animation { video, options, config },
                ExportFormat::Animation(_),
            ) => self.source.video == Some(video) && options == self.animation_options
                && config.alike(self.config),
            _ => false,
        }
    }

    /// The video on screen, exported as the export dialog chose, to `path`, which has the
    /// format's extension.
    pub fn export_video(&mut self, path: &str)
        ensures
            ({
                let extension = old(self).export_format.extension_text();
                if !crate::path::extends_with(path@, extension) {
                    &&& *final(self) == (App { told: final(self).told, ..*old(self) })
                    &&& final(self).told.status == old(self).told.status
                    &&& final(self).told.preview_error == old(self).told.preview_error
                    &&& tells(
                        final(self).told.error,
                        "Choose a ."@ + extension + " filename for the selected format."@,
                    )
                } else if old(self).source.video is None {
                    *final(self) == *old(self)
                } else {
                    &&& *final(self) == (App {
                        told: final(self).told,
                        work: final(self).work,
                        jobs: final(self).jobs,
                        ..*old(self)
                    })
                    &&& final(self).told.only_says(old(self).told, old(self).exporting_text())
                    &&& is_started(final(self).work, Some("Queued for video export"@))
                    &&& adds(old(self).jobs@, final(self).jobs@)
                    &&& final(self).jobs@.last() matches Job::Export { export, path: p } && p@
                        == path@ && old(self).is_video_export(export)
                }
            }),
            old(self).wf() ==> final(self).wf(),
    {
        let extension: &str = self.export_format.extension();
        if !has_extension(path, extension) {
            self.told.error =
            Some(
                Problem::Text(
                    join3("Choose a .", extension, " filename for the selected format."),
                ),
            );
            return;
        }
        let video: Arc<Video> = match &self.source.video {
            Some(video) => video.clone(),
            None => {
                return;
            },
        };
        let config: Config = self.config.copy();
        let (export, status) = match self.export_format {
            ExportFormat::Video(_) => (
                Export::Video { video, options: self.video_options, config },
                owned("Exporting video…"),
            ),
            ExportFormat::Animation(format) => (
                Export::Animation { video, options: self.animation_options, config },
                join3("Exporting ", format.name(), "…"),
            ),
        };
        self.start_export(export, path, status, Some("Queued for video export"));
    }

    /// Asks the job running to stop, where it can be. Whether it can.
    pub fn cancel(&mut self) -> (r: bool)
        ensures
            r == old(self).work.can_stop(),
            !r ==> *final(self) == *old(self),
            r ==> *final(self) == (App {
                told: final(self).told,
                work: match old(self).work {
                    Work::Exporting { progress, .. } => Work::Exporting {
                        stopping: true,
                        progress,
                    },
                    _ => Work::Loading { stoppable: true, stopping: true },
                },
                ..*old(self)
            }) && final(self).told.only_says(old(self).told, "Cancelling…"@),
            old(self).wf() ==> final(self).wf(),
    {
        if !self.work.stoppable() {
            return false;
        }
        self.told.status = owned("Cancelling…");
        let mut work: Work = Work::Idle;
        std::mem::swap(&mut self.work, &mut work);
        self.work =
        match work {
            Work::Exporting { progress, .. } => Work::Exporting { stopping: true, progress },
            _ => Work::Loading { stoppable: true, stopping: true },
        };
        true
    }

    // ---------------------------------------------------------------------------------------
    // Windows and keys
    // ---------------------------------------------------------------------------------------

    /// Opens a file dialog. Edits are frozen while it is open, so its answer is applied to the
    /// settings that were on screen.
    pub fn open_dialog(&mut self)
        ensures
            *final(self) == (App {
                playback: None,
                told: final(self).told,
                windows: Windows { dialog: true, ..old(self).windows },
                ..*old(self)
            }),
            final(self).told.paused(old(self).told, old(self).playback is Some),
            old(self).wf() ==> final(self).wf(),
    {
        self.stop_playback();
        self.windows.dialog = true;
    }

    /// Opens the video export settings; a batch's are for the videos it adds next.
    pub fn open_video_export(&mut self, batch: bool)
        ensures
            *final(self) == (App {
                playback: None,
                told: final(self).told,
                windows: Windows {
                    export: Some(
                        ExportDialog {
                            options: old(self).video_options,
                            animation: old(self).animation_options,
                            format: if batch {
                                ExportFormat::Video(Container::Mkv)
                            } else {
                                old(self).export_format
                            },
                            batch,
                            from_current_frame: false,
                            confirming: None,
                        },
                    ),
                    ..old(self).windows
                },
                ..*old(self)
            }),
            final(self).told.paused(old(self).told, old(self).playback is Some),
            old(self).wf() ==> final(self).wf(),
    {
        self.stop_playback();
        self.windows.export =
        Some(
            ExportDialog::open(
                self.video_options,
                self.animation_options,
                self.export_format,
                batch,
            ),
        );
    }

    /// Goes on with the choices in the video export settings, for a file of a likely size where
    /// that is known. Whether a destination is to be chosen next.
    pub fn use_export_choices(&mut self, likely: Option<u64>) -> (r: bool)
        ensures
            match old(self).windows.export {
                None => !r && *final(self) == *old(self),
                Some(draft) => match draft.fault() {
                    Some(e) => !r && *final(self) == (App {
                        told: Told { error: Some(Problem::Choice(e)), ..old(self).told },
                        ..*old(self)
                    }),
                    None => if draft.must_ask(likely) {
                        !r && *final(self) == (App {
                            windows: Windows {
                                export: Some(ExportDialog { confirming: likely, ..draft }),
                                ..old(self).windows
                            },
                            ..*old(self)
                        })
                    } else {
                        &&& r == !draft.batch
                        &&& *final(self) == (App {
                            video_options: draft.options,
                            animation_options: draft.animation,
                            export_format: if draft.batch {
                                old(self).export_format
                            } else {
                                draft.format
                            },
                            playback: if draft.batch {
                                old(self).playback
                            } else {
                                None
                            },
                            told: final(self).told,
                            windows: Windows {
                                export: None,
                                dialog: old(self).windows.dialog || r,
                                ..old(self).windows
                            },
                            ..*old(self)
                        })
                        &&& final(self).told.paused(
                            old(self).told,
                            r && old(self).playback is Some,
                        )
                    },
                },
            },
            old(self).wf() ==> final(self).wf(),
    {
        let mut draft: ExportDialog = match self.windows.export {
            Some(draft) => draft,
            None => {
                return false;
            },
        };
        match draft.proceed(likely) {
            Proceed::Refused(e) => {
                self.told.error = Some(Problem::Choice(e));
                false
            },
            Proceed::Confirm => {
                self.windows.export = Some(draft);
                false
            },
            Proceed::Use => {
                self.windows.export = None;
                self.video_options = draft.options;
                self.animation_options = draft.animation;
                if draft.batch {
                    return false;
                }
                self.export_format = draft.format;
                self.open_dialog();
                true
            },
        }
    }

    /// The keys for undo and redo, whatever else was pressed: redoing goes before undoing, and
    /// neither is taken from a window that has the interface, or from a text being typed.
    pub fn shortcut(&mut self, typing: bool, redo: bool, undo: bool, now: u64)
        requires
            old(self).changeable(),
        ensures
            if old(self).modal() || typing || !(redo || undo) {
                *final(self) == *old(self)
            } else if redo {
                exists|moved: bool| #[trigger] old(self).redoes(*final(self), moved, now)
            } else {
                exists|moved: bool| #[trigger] old(self).undoes(*final(self), moved, now)
            },
            old(self).wf() ==> final(self).wf(),
    {
        if self.modal_open() || typing {
            return;
        }
        if redo {
            let _moved: bool = self.redo(now);
        } else if undo {
            let _moved: bool = self.undo(now);
        }
    }

    /// Goes to the selected frame of the video, where it is another one and nothing else is
    /// being done. Whether it does.
    pub fn seek(&mut self, asked: bool, galleries_overlap: bool) -> (r: bool)
        ensures
            r == (asked && !old(self).modal() && old(self).work is Idle && !galleries_overlap
                && old(self).source.selected != old(self).source.frame && old(self).source.video is Some),
            !r ==> *final(self) == *old(self),
            r ==> {
                &&& *final(self) == (App {
                    playback: None,
                    told: final(self).told,
                    work: Work::Loading { stoppable: true, stopping: false },
                    jobs: final(self).jobs,
                    ..*old(self)
                })
                &&& final(self).told.only_says(old(self).told, "Loading video frame…"@)
                &&& adds(old(self).jobs@, final(self).jobs@)
                &&& final(self).jobs@.last() matches Job::LoadVideo { path, frame, cached }
                    && path@ == old(self).source.video->0.path@ && frame
                    == old(self).source.selected && cached == Some(
                    (old(self).source.video->0, old(self).source.frames),
                )
            },
            old(self).wf() ==> final(self).wf(),
    {
        if !asked || galleries_overlap || !self.can_start_work() || self.source.selected
            == self.source.frame {
            return false;
        }
        let video: Arc<Video> = match &self.source.video {
            Some(video) => video.clone(),
            None => {
                return false;
            },
        };
        let frame: u64 = self.source.selected;
        self.load_video(video.path.as_str(), frame, true);
        true
    }

    /// The files for a batch were chosen, or none, with the settings they were chosen for.
    /// Whether any were: the session is then worth saving.
    pub fn batch_chosen(
        &mut self,
        chosen: Option<Chosen>,
        config: &Config,
        options: &Options,
    ) -> (r: bool)
        requires
            old(self).queue@.items.len() <= crate::desktop::batch::MAX_JOBS,
            chosen matches Some(c) ==> c.existing@.len() + crate::desktop::batch::MAX_JOBS
                < usize::MAX,
        ensures
            r == (chosen is Some),
            match chosen {
                None => *final(self) == (App {
                    windows: Windows { dialog: false, ..old(self).windows },
                    ..*old(self)
                }),
                Some(c) => {
                    let before = *old(self);
                    let after = *final(self);
                    let full = before.queue@.items.len() + c.sources@.len()
                        > crate::desktop::batch::MAX_JOBS;
                    &&& after == (App {
                        windows: Windows { dialog: false, queue: true, ..before.windows },
                        queue: after.queue,
                        told: after.told,
                        ..before
                    })
                    &&& after.told.status == before.told.status
                    &&& after.told.preview_error == before.told.preview_error
                    &&& full ==> tells(after.told.error, "Batch queue is limited to 256 jobs"@)
                    &&& !full ==> after.told.error == before.told.error
                    &&& after.queue@.running == before.queue@.running
                    &&& after.queue@.active == before.queue@.active
                    &&& after.queue@.items.len() == if full {
                        crate::desktop::batch::MAX_JOBS as nat
                    } else {
                        before.queue@.items.len() + c.sources@.len()
                    }
                    &&& after.queue@.items.take(before.queue@.items.len() as int)
                        == before.queue@.items
                    &&& forall|i: int|
                        before.queue@.items.len() <= i < after.queue@.items.len()
                            ==> crate::desktop::batch::is_job(
                            #[trigger] after.queue@.items[i],
                            c.sources@[i - before.queue@.items.len()],
                            c.folder@,
                            c.existing@,
                            after.queue@.items.take(i),
                            *config,
                            *options,
                        )
                },
            },
            old(self).wf() ==> final(self).wf(),
    {
        self.windows.dialog = false;
        match chosen {
            None => false,
            Some(c) => {
                match self.queue.add(&c.sources, c.folder.as_str(), &c.existing, config, options) {
                    Ok(()) => {},
                    Err(full) => {
                        self.told.error = Some(Problem::Text(owned(full.message())));
                    },
                }
                self.windows.queue = true;
                true
            },
        }
    }

    /// Starts the queue, or pauses it after the job that is exporting.
    pub fn toggle_queue(&mut self)
        ensures
            *final(self) == (App {
                playback: None,
                told: final(self).told,
                queue: final(self).queue,
                ..*old(self)
            }),
            final(self).queue@ == (crate::desktop::batch::Line {
                running: !old(self).queue@.running,
                ..old(self).queue@
            }),
            final(self).told.paused(old(self).told, old(self).playback is Some),
            old(self).wf() ==> final(self).wf(),
    {
        let running: bool = self.queue.running();
        self.stop_playback();
        self.queue.set_running(!running);
    }

    /// Restores the session on offer, if one is. Whether its source is a project itself, which is
    /// for the caller to read.
    pub fn recover(&mut self, there: bool, several_frames: bool, now: u64) -> (r: bool)
        requires
            old(self).countable(),
            old(self).schedule@.revision < u64::MAX - 1,
        ensures
            match old(self).projects.recovery {
                None => !r && *final(self) == *old(self),
                Some(project) => (App {
                    projects: Projects { recovery: None, ..old(self).projects },
                    ..*old(self)
                }).restores(*final(self), project, there, several_frames, r, now),
            },
            old(self).wf() ==> final(self).wf(),
    {
        let mut recovery: Option<Project> = None;
        std::mem::swap(&mut self.projects.recovery, &mut recovery);
        match recovery {
            Some(project) => self.restore_project(project, there, several_frames, now),
            None => false,
        }
    }

    /// Whether another frame of the interface is needed soon: a change is settling, or a worker
    /// is at work.
    pub fn needs_frames(&self, now: u64) -> (r: bool)
        ensures
            r == (self.schedule@.wants_frames(now as nat) || !(self.work is Idle)),
    {
        self.schedule.needs_frames(now) || !self.work.is_idle()
    }

    // ---------------------------------------------------------------------------------------
    // Previews
    // ---------------------------------------------------------------------------------------

    /// The settings the preview shows: an auditioned look while one is offered, otherwise the
    /// settings in use.
    pub open spec fn shown(self) -> Config {
        match self.audition {
            Some(audition) => audition.config,
            None => self.config,
        }
    }

    pub fn shown_config(&self) -> (r: &Config)
        ensures
            *r == self.shown(),
    {
        match &self.audition {
            Some(audition) => &audition.config,
            None => &self.config,
        }
    }

    /// Whether a job previews a look on the source, within the preview's size.
    pub open spec fn is_preview(self, job: PreviewJob, revision: nat) -> bool {
        job matches PreviewJob::Preview { revision: r, input, config } && {
            &&& r == revision
            &&& input == self.source.input
            &&& config.alike_but_sizes(self.shown())
            &&& config.signal@ == self.shown().signal@
            &&& config.output@ == Config::size_text(
                Config::scaled_size(self.shown().output_of(self.size())->Ok_0, self.preview_limit),
            )
        }
    }

    /// Whether an application is another that has asked for a preview, where one can be.
    pub open spec fn asks(self, after: App) -> bool {
        if self.work is Loading || self.playback is Some || self.schedule@.rendering {
            &&& after == (App { schedule: after.schedule, ..self })
            &&& after.schedule@ == self.schedule@
        } else {
            &&& self.history@.commits(after.history@, self.config)
            &&& match self.shown().fault_for(self.size()) {
                None => {
                    &&& after == (App {
                        schedule: after.schedule,
                        history: after.history,
                        previews: after.previews,
                        ..self
                    })
                    &&& after.schedule@ == self.schedule@.taken()
                    &&& adds(self.previews@, after.previews@)
                    &&& self.is_preview(after.previews@.last(), self.schedule@.revision)
                },
                Some(e) => {
                    &&& after == (App {
                        schedule: after.schedule,
                        history: after.history,
                        told: after.told,
                        ..self
                    })
                    &&& after.schedule@ == (crate::desktop::schedule::Timeline {
                        pending: None,
                        ..self.schedule@
                    })
                    &&& after.told.status == self.told.status
                    &&& after.told.error == self.told.error
                    &&& after.told.preview_error == Some(
                        Problem::Config { lead: "Cannot preview: ", fault: e },
                    )
                },
            }
        }
    }

    /// Asks for a preview of the settings on screen. Also while exporting: previews have their own
    /// worker, and the export works from the settings it captured, so the ones on screen are free
    /// to change.
    pub fn request_preview(&mut self)
        ensures
            old(self).asks(*final(self)),
            old(self).wf() ==> final(self).wf(),
    {
        if self.work.is_loading() || self.playback.is_some() {
            return;
        }
        let revision: u64 = match self.schedule.take() {
            Some(revision) => revision,
            None => {
                return;
            },
        };
        self.history.commit(&self.config);
        let small = self.shown_config().with_max_output_side(
            self.source.input.dimensions(),
            self.preview_limit,
        );
        match small {
            Ok(config) => {
                let ghost before = self.previews@;
                self.previews.push(
                    PreviewJob::Preview { revision, input: self.source.input.clone(), config },
                );
                assert(self.previews@.drop_last() =~= before);
            },
            Err(e) => {
                // Nothing was sent, so nothing will come back.
                self.schedule.returned(revision);
                self.told.preview_error =
                Some(Problem::Config { lead: "Cannot preview: ", fault: e });
            },
        }
    }

    /// Whether an application is another whose settings have become an undo step.
    pub open spec fn commits(self, after: App) -> bool {
        &&& after == (App { history: after.history, ..self })
        &&& self.history@.commits(after.history@, self.config)
    }

    /// What a frame of the interface does for the schedule: a change that has settled becomes an
    /// undo step, and is previewed.
    pub fn keep_schedule(&mut self, now: u64, pointer_down: bool) -> (r: Due)
        ensures
            r == old(self).schedule@.due(now as nat, pointer_down),
            r == Due::Nothing ==> *final(self) == *old(self),
            r == Due::Commit ==> old(self).commits(*final(self)),
            r == Due::Preview ==> exists|mid: App| #[trigger]
                old(self).commits(mid) && if old(self).windows.welcome {
                    *final(self) == mid
                } else {
                    mid.asks(*final(self))
                },
            old(self).wf() ==> final(self).wf(),
    {
        let due: Due = self.schedule.due(now, pointer_down);
        match due {
            Due::Nothing => {},
            Due::Commit => {
                self.history.commit(&self.config);
            },
            Due::Preview => {
                self.history.commit(&self.config);
                assert(old(self).commits(*self));
                if !self.windows.welcome {
                    self.request_preview();
                }
            },
        }
        due
    }

    /// A gallery reports the entry under the pointer, once per frame. The last offer of the frame
    /// wins.
    pub fn offer_audition(&mut self, label: String, config: Config)
        ensures
            *final(self) == (App { offered: Some(Audition { label, config }), ..*old(self) }),
            old(self).wf() ==> final(self).wf(),
    {
        self.offered = Some(Audition { label, config });
    }

    /// What is auditioned after a frame: what was offered, unless that is the look in use.
    pub open spec fn next_audition(self) -> Option<Audition> {
        match self.offered {
            Some(offered) => if offered.config.equal(self.config) {
                None
            } else {
                Some(offered)
            },
            None => None,
        }
    }

    /// Whether the audition stays as it is.
    pub open spec fn audition_stays(self) -> bool {
        match (self.next_audition(), self.audition) {
            (Some(a), Some(b)) => a.equal(b),
            (None, None) => true,
            _ => false,
        }
    }

    /// Called once per frame after the galleries have drawn. Starts, switches or ends the
    /// audition, and asks for a preview when that changes what should be on screen.
    pub fn settle_audition(&mut self, now: u64)
        requires
            old(self).changeable(),
        ensures
            *final(self) == (App {
                offered: None,
                audition: final(self).audition,
                schedule: final(self).schedule,
                ..*old(self)
            }),
            old(self).audition_stays() ==> final(self).audition == old(self).audition && final(self).schedule == old(self).schedule,
            !old(self).audition_stays() ==> final(self).audition == old(self).next_audition()
                && final(self).schedule@ == old(self).schedule@.changed(
                Change::Audition,
                now as nat,
            ),
            old(self).wf() ==> final(self).wf(),
    {
        let mut offered: Option<Audition> = None;
        std::mem::swap(&mut self.offered, &mut offered);
        // Pointing at the look already in use is not an audition of anything.
        let next: Option<Audition> = match offered {
            Some(a) => if a.config.same(&self.config) {
                None
            } else {
                Some(a)
            },
            None => None,
        };
        let stays: bool = match (&next, &self.audition) {
            (Some(a), Some(b)) => a.same(b),
            (None, None) => true,
            _ => false,
        };
        if stays {
            return;
        }
        self.audition = next;
        self.schedule.changed(Change::Audition, now);
    }

    // ---------------------------------------------------------------------------------------
    // Answers
    // ---------------------------------------------------------------------------------------

    /// An export is further on.
    pub fn progressed(&mut self, progress: RenderProgress)
        ensures
            *final(self) == (App {
                work: match old(self).work {
                    Work::Exporting { stopping, .. } => Work::Exporting {
                        stopping,
                        progress: Some(progress),
                    },
                    other => other,
                },
                ..*old(self)
            }),
            old(self).wf() ==> final(self).wf(),
    {
        let mut work: Work = Work::Idle;
        std::mem::swap(&mut self.work, &mut work);
        self.work =
        match work {
            Work::Exporting { stopping, .. } => Work::Exporting {
                stopping,
                progress: Some(progress),
            },
            other => other,
        };
    }

    /// The settings in a rendered file were read, with a video's options, or why not.
    pub fn preset_imported(
        &mut self,
        path: &str,
        result: Outcome<(Config, Option<Options>)>,
        now: u64,
    )
        requires
            old(self).changeable(),
        ensures
            final(self).work is Idle,
            match result {
                Ok((config, options)) => {
                    &&& *final(self) == (App {
                        work: Work::Idle,
                        playback: None,
                        told: final(self).told,
                        schedule: final(self).schedule,
                        history: final(self).history,
                        config,
                        video_options: match options {
                            Some(options) => options,
                            None => old(self).video_options,
                        },
                        gallery_name: final(self).gallery_name,
                        ..*old(self)
                    })
                    &&& final(self).gallery_name@ == crate::path::shown_stem(path@)
                    &&& old(self).restarts(*final(self), now)
                    &&& commits_twice(
                        old(self).history@,
                        final(self).history@,
                        old(self).config,
                        config,
                    )
                    &&& final(self).told.status@ == "Imported preset from "@ + path@
                    &&& final(self).told.error is None
                    &&& final(self).told.preview_error == old(self).told.preview_error
                },
                Err(Failure::Cancelled) => *final(self) == (App {
                    work: Work::Idle,
                    told: final(self).told,
                    ..*old(self)
                }) && final(self).told.only_says(old(self).told, "Preset import cancelled"@),
                Err(Failure::Failed(e)) => *final(self) == (App {
                    work: Work::Idle,
                    told: final(self).told,
                    ..*old(self)
                }) && tells(final(self).told.error, "Cannot import preset: "@ + e@) && final(self).told.status == old(self).told.status && final(self).told.preview_error == old(self).told.preview_error,
            },
            old(self).wf() ==> final(self).wf(),
    {
        self.work = Work::Idle;
        match result {
            Ok((config, options)) => {
                self.gallery_name = stem_or_empty(path);
                self.replace_config(config, now);
                match options {
                    Some(options) => {
                        self.video_options = options;
                    },
                    None => {},
                }
                self.told.status = join("Imported preset from ", path);
                self.told.error = None;
            },
            Err(Failure::Cancelled) => {
                self.told.status = owned("Preset import cancelled");
            },
            Err(Failure::Failed(e)) => {
                self.told.error = Some(Problem::Text(join("Cannot import preset: ", e.as_str())));
            },
        }
    }

    /// A preview came back, rendered or not. Whether it is put on screen: one of settings since
    /// replaced never is.
    pub fn previewed(&mut self, revision: u64, result: Result<(u32, u32), String>, took: &str) -> (r:
        bool)
        ensures
            ({
                let before = *old(self);
                let after = *final(self);
                let timely = revision == before.schedule@.revision;
                let back = crate::desktop::schedule::Timeline {
                    rendering: false,
                    ..before.schedule@
                };
                &&& after == (App {
                    schedule: after.schedule,
                    told: after.told,
                    rendered: before.rendered || r,
                    ..before
                })
                &&& r == (timely && result is Ok)
                &&& after.told.error == before.told.error
                &&& if !timely {
                    after.schedule@ == back && after.told == before.told
                } else {
                    match result {
                        Ok(size) => {
                            &&& after.schedule@ == (crate::desktop::schedule::Timeline {
                                shown: Some(before.schedule@.revision),
                                ..back
                            })
                            &&& after.told.preview_error is None
                            &&& after.told.status@ == if before.work is Exporting {
                                before.told.status@
                            } else {
                                previewed_text(size, took@)
                            }
                        },
                        Err(e) => {
                            &&& after.schedule@ == back
                            &&& after.told.status == before.told.status
                            &&& tells(after.told.preview_error, e@)
                        },
                    }
                }
            }),
            old(self).wf() ==> final(self).wf(),
    {
        if !self.schedule.returned(revision) {
            return false;
        }
        match result {
            Ok(size) => {
                self.rendered = true;
                self.schedule.show_current();
                if !self.work.is_exporting() {
                    let mut status: String = owned("Preview ");
                    status.append(decimal_text(size.0 as u64).as_str());
                    status.append(" × ");
                    status.append(decimal_text(size.1 as u64).as_str());
                    status.append(" · ");
                    status.append(took);
                    status.append("s");
                    self.told.status = status;
                }
                self.told.preview_error = None;
                true
            },
            Err(e) => {
                self.told.preview_error = Some(Problem::Text(e));
                false
            },
        }
    }

    /// An export ended.
    pub fn exported(&mut self, result: Outcome<String>)
        requires
            old(self).wf(),
        ensures
            *final(self) == (App {
                work: Work::Idle,
                queue: final(self).queue,
                told: final(self).told,
                ..*old(self)
            }),
            ends_job(old(self).queue@, final(self).queue@, result, old(self).work.asked_to_stop()),
            final(self).told.preview_error == old(self).told.preview_error,
            match result {
                Ok(path) => final(self).told.status@ == "Saved "@ + path@ && final(self).told.error is None,
                Err(Failure::Cancelled) => final(self).told.status@
                    == "Export cancelled; destination kept unchanged"@ && final(self).told.error is None,
                Err(Failure::Failed(e)) => final(self).told.status == old(self).told.status && tells(
                    final(self).told.error,
                    e@,
                ),
            },
            final(self).wf(),
    {
        self.queue_finished(&result);
        self.work = Work::Idle;
        match result {
            Ok(path) => {
                self.told.status = join("Saved ", path.as_str());
                self.told.error = None;
            },
            Err(Failure::Cancelled) => {
                self.told.status = owned("Export cancelled; destination kept unchanged");
                self.told.error = None;
            },
            Err(Failure::Failed(e)) => {
                self.told.error = Some(Problem::Text(e));
            },
        }
    }

    /// Tells the queue that an export ended. Whether it was the queue's.
    pub fn queue_finished(&mut self, result: &Outcome<String>) -> (r: bool)
        requires
            old(self).wf(),
        ensures
            *final(self) == (App { queue: final(self).queue, ..*old(self) }),
            r == (old(self).queue@.active is Some),
            ends_job(
                old(self).queue@,
                final(self).queue@,
                *result,
                old(self).work.asked_to_stop(),
            ),
            final(self).wf(),
    {
        let asked: bool = self.work.stopping();
        self.queue.finished(result, asked)
    }

    /// Starts the queue's next job once nothing else needs the work thread or the preview.
    /// `existing` is the jobs' outputs that are there.
    pub fn dispatch_queue(&mut self, existing: &Vec<String>) -> (r: bool)
        requires
            old(self).wf(),
        ensures
            ({
                let before = *old(self);
                let after = *final(self);
                let free = !before.modal() && before.work is Idle && !before.schedule@.rendering
                    && before.projects.recovery is None && before.playback is None;
                let next = crate::desktop::batch::next_from(before.queue@.items, existing@, 0);
                &&& r == (free && before.queue@.running && next < before.queue@.items.len())
                &&& !free ==> after == before
                &&& free && !r ==> after == (App { queue: after.queue, ..before })
                &&& free && !before.queue@.running ==> after.queue@ == before.queue@
                &&& free && before.queue@.running ==> {
                    &&& after.queue@.running == r
                    &&& after.queue@.active == if r {
                        Some(next)
                    } else {
                        before.queue@.active
                    }
                    &&& after.queue@.items.len() == before.queue@.items.len()
                    &&& forall|i: int|
                        0 <= i < before.queue@.items.len() ==> crate::desktop::batch::is_passed(
                            #[trigger] after.queue@.items[i],
                            before.queue@.items[i],
                            i,
                            next,
                        )
                }
                &&& r ==> {
                    let job = after.queue@.items[next];
                    &&& after == (App {
                        queue: after.queue,
                        told: after.told,
                        work: after.work,
                        jobs: after.jobs,
                        ..before
                    })
                    &&& after.told.only_says(before.told, "Batch export "@ + job.source@)
                    &&& is_started(after.work, None)
                    &&& adds(before.jobs@, after.jobs@)
                    &&& after.jobs@.last() matches Job::Export { export, path } && path@
                        == job.output@ && (export matches Export::Batch { source, options, config }
                        && source@ == job.source@ && options == job.options && config.alike(
                        job.config,
                    ))
                }
            }),
            final(self).wf(),
    {
        if !self.can_start_work() || self.schedule.rendering() || self.projects.recovery_offered()
            || self.playback.is_some() {
            return false;
        }
        match self.queue.next(existing) {
            None => false,
            Some(job) => {
                let ghost next = crate::desktop::batch::next_from(
                    old(self).queue@.items,
                    existing@,
                    0,
                );
                assert(crate::desktop::batch::is_passed(
                    self.queue@.items[next],
                    old(self).queue@.items[next],
                    next,
                    next,
                ));
                let status: String = join("Batch export ", job.source.as_str());
                let export: Export = Export::Batch {
                    source: job.source,
                    options: job.options,
                    config: job.config,
                };
                self.start_export(export, job.output.as_str(), status, None);
                true
            },
        }
    }

    // ---------------------------------------------------------------------------------------
    // Playing
    // ---------------------------------------------------------------------------------------

    /// The size that a video's frames are rendered at for the preview.
    pub open spec fn playing_size(self, video: Video) -> (u32, u32) {
        let size = Config::scaled_size(self.config.output_of(self.size())->Ok_0, self.preview_limit);
        if crate::crt::config::size_ok(size) {
            size
        } else {
            video.size
        }
    }

    /// Plays the video from where it is. Whether it does.
    pub fn start_playback(&mut self) -> (r: bool)
        ensures
            ({
                let before = *old(self);
                let after = *final(self);
                match before.source.video {
                    None => !r && after == before,
                    Some(video) => match before.config.fault_for(before.size()) {
                        Some(e) => {
                            &&& !r
                            &&& after == (App { playback: None, told: after.told, ..before })
                            &&& after.told.error == Some(
                                Problem::Config { lead: "Cannot play: ", fault: e },
                            )
                            &&& (Told { error: before.told.error, ..after.told }).paused(
                                before.told,
                                before.playback is Some,
                            )
                        },
                        None => {
                            &&& r
                            &&& after == (App {
                                playback: after.playback,
                                told: after.told,
                                schedule: after.schedule,
                                jobs: after.jobs,
                                ..before
                            })
                            &&& after.schedule@ == (crate::desktop::schedule::Timeline {
                                pending: None,
                                ..before.schedule@
                            })
                            &&& after.told.only_says(
                                before.told,
                                "Buffering · warming CRT history…"@,
                            )
                            &&& after.playback matches Some(p) && p@.buffered.len() == 0
                                && p@.clock is None && !p@.ended && p@.capacity
                                == crate::desktop::playback::capacity_for(
                                video.size,
                                before.playing_size(*video),
                            )
                            &&& adds(before.jobs@, after.jobs@)
                            &&& after.jobs@.last() matches Job::Playback {
                                video: v,
                                config,
                                options,
                                start,
                            } && v == video && options == before.video_options && start
                                == crate::desktop::playback::start_of(*video, before.source.time)
                                && config.alike_but_sizes(before.config) && config.signal@
                                == before.config.signal@ && config.output@ == Config::size_text(
                                Config::scaled_size(
                                    before.config.output_of(before.size())->Ok_0,
                                    before.preview_limit,
                                ),
                            )
                        },
                    },
                }
            }),
            old(self).wf() ==> final(self).wf(),
    {
        let video: Arc<Video> = match &self.source.video {
            Some(video) => video.clone(),
            None => {
                return false;
            },
        };
        self.stop_playback();
        let config: Config = match self.config.with_max_output_side(
            self.source.input.dimensions(),
            self.preview_limit,
        ) {
            Ok(config) => config,
            Err(e) => {
                self.told.error = Some(Problem::Config { lead: "Cannot play: ", fault: e });
                return false;
            },
        };
        proof {
            crate::crt::canvas::written_outputs_read_back(
                config,
                Config::scaled_size(
                    self.config.output_of(self.size())->Ok_0,
                    self.preview_limit,
                ),
                video.size,
            );
        }
        let output: (u32, u32) = match config.output_size(video.size) {
            Ok(size) => size,
            Err(_) => video.size,
        };
        let (playback, start) = Playback::new(&video, self.source.time, output);
        self.playback = Some(playback);
        self.schedule.drop_pending();
        self.told.status = owned("Buffering · warming CRT history…");
        let ghost before = self.jobs@;
        self.jobs.push(Job::Playback { video, config, options: self.video_options, start });
        assert(self.jobs@.drop_last() =~= before);
        true
    }

    /// The number of the frame that shows at a time, of the video on screen.
    pub open spec fn frame_at(self, time: Real64) -> u64 {
        match self.source.video {
            Some(video) => {
                let n = time.times(video.fps).rounded(u64::MAX as nat) as u64;
                let last = crate::desktop::preview_ui::last_frame(self.source.frames);
                if n > last {
                    last
                } else {
                    n
                }
            },
            None => self.source.frame,
        }
    }

    /// Shows a frame that has come due: its source as the original. Its CRT picture is the
    /// preview, and is returned.
    fn show_playing(&mut self, frame: PlaybackFrame) -> (r: Picture)
        requires
            old(self).countable(),
            frame.source.wf(),
        ensures
            r == frame.crt,
            old(self).plays(*final(self), frame),
            old(self).wf() ==> final(self).wf(),
    {
        self.source.time = frame.time;
        self.rendered = true;
        self.schedule.show_current();
        match &self.source.video {
            Some(video) => {
                let n: u64 = frame.time.mul(video.fps).round(u64::MAX);
                let last: u64 = if self.source.frames == 0 {
                    0
                } else {
                    self.source.frames - 1
                };
                self.source.frame = if n > last {
                    last
                } else {
                    n
                };
                self.source.selected = self.source.frame;
            },
            None => {},
        }
        self.source.input = Arc::new(frame.source);
        self.source.id = self.source.id + 1;
        frame.crt
    }

    /// Whether an application is another that shows a frame of the video playing.
    pub open spec fn plays(self, after: App, frame: PlaybackFrame) -> bool {
        &&& after == (App {
            source: after.source,
            schedule: after.schedule,
            rendered: true,
            ..self
        })
        &&& after.schedule@ == (crate::desktop::schedule::Timeline {
            shown: Some(self.schedule@.revision),
            ..self.schedule@
        })
        &&& after.source == (Source {
            time: frame.time,
            frame: self.frame_at(frame.time),
            selected: if self.source.video is Some {
                self.frame_at(frame.time)
            } else {
                self.source.selected
            },
            input: after.source.input,
            id: (self.source.id + 1) as u64,
            ..self.source
        })
        &&& *after.source.input == frame.source
    }

    /// Moves playing on: takes what the worker rendered, and shows the frame that is due, whose
    /// picture is returned.
    pub fn tick_playback(&mut self, arrived: &mut Vec<Arrival>, now: u64) -> (r: Option<Picture>)
        requires
            old(self).wf(),
            old(self).countable(),
            frames_whole(old(self).playback, old(arrived)@),
        ensures
            ({
                let before = *old(self);
                let after = *final(self);
                match before.playback {
                    None => r is None && after == before && final(arrived)@ == old(arrived)@,
                    Some(p) => {
                        let reel = p@;
                        let due = reel.filled(old(arrived)@).started(now as nat).frame_at(
                            now as nat,
                        );
                        let change = reel.change(old(arrived)@, now as nat);
                        &&& match due {
                            Some(frame) => r == Some(frame.crt) && before.plays(
                                App { playback: before.playback, told: before.told, ..after },
                                frame,
                            ),
                            None => r is None && after == (App {
                                playback: after.playback,
                                told: after.told,
                                ..before
                            }),
                        }
                        &&& match change {
                            Some(Status::Finished) => after.playback is None,
                            _ => after.playback matches Some(q) && q@ == reel.ticked(
                                old(arrived)@,
                                now as nat,
                            ),
                        }
                        &&& after.told.status@ == match change {
                            Some(Status::Playing) => "Playing"@,
                            Some(Status::CatchingUp) => "Buffering · renderer is catching up…"@,
                            Some(Status::Finished) => "Playback finished"@,
                            None => before.told.status@,
                        }
                        &&& match reel.failure(old(arrived)@) {
                            Some(e) => tells(after.told.error, e),
                            None => after.told.error == before.told.error,
                        }
                        &&& after.told.preview_error == before.told.preview_error
                    },
                }
            }),
            final(self).wf(),
    {
        let mut playing: Option<Playback> = None;
        std::mem::swap(&mut self.playback, &mut playing);
        let mut playback: Playback = match playing {
            Some(playback) => playback,
            None => {
                return None;
            },
        };
        let ghost reel = playback@;
        let tick: Tick = playback.tick(arrived, now);
        match tick.error {
            Some(error) => {
                self.told.error = Some(Problem::Text(error));
            },
            None => {},
        }
        let shown: Option<Picture> = match tick.frame {
            Some(frame) => {
                proof {
                    lemma_due_frames_are_whole(reel, old(arrived)@, now as nat);
                }
                Some(self.show_playing(frame))
            },
            None => None,
        };
        match tick.status {
            Some(status) => {
                self.told.status = owned(status.text());
                if status != Status::Finished {
                    self.playback = Some(playback);
                }
            },
            None => {
                self.playback = Some(playback);
            },
        }
        shown
    }

    // ---------------------------------------------------------------------------------------
    // Thumbnails
    // ---------------------------------------------------------------------------------------

    /// Asks for a preset's thumbnail, if it is missing or out of date.
    pub fn preset_thumbnail(&mut self, name: &str, config: &Config)
        requires
            old(self).thumbnails@.generation < u64::MAX,
        ensures
            ({
                let before = *old(self);
                let after = *final(self);
                let shelf = before.thumbnails@.of_source(before.source.id);
                let key = crate::desktop::worker::Key::Preset(name@);
                let makes = !shelf.preset_asked(key, *config) && config.fault_for(
                    before.size(),
                ) is None;
                &&& after == (App {
                    thumbnails: after.thumbnails,
                    previews: after.previews,
                    ..before
                })
                &&& !makes ==> after.previews@ == before.previews@
                &&& makes ==> adds(before.previews@, after.previews@)
                    && crate::desktop::thumbnails::is_preset_job(
                    after.previews@.last(),
                    shelf.generation,
                    name@,
                    *before.source.input,
                    *config,
                )
                &&& after.thumbnails@.small == shelf.small
                &&& shelf.preset_asked(key, *config) ==> after.thumbnails@ == shelf
                &&& !shelf.preset_asked(key, *config) ==> shelf.asks(
                    after.thumbnails@,
                    key,
                    Some(*config),
                    if makes {
                        crate::desktop::thumbnails::State::Pending
                    } else {
                        crate::desktop::thumbnails::State::Failed
                    },
                )
            }),
            old(self).wf() ==> final(self).wf(),
    {
        let id: u64 = self.source.id;
        match self.thumbnails.preset(id, &self.source.input, name, config) {
            Answer::Make(job) => {
                let ghost before = self.previews@;
                self.previews.push(job);
                assert(self.previews@.drop_last() =~= before);
            },
            _ => {},
        }
    }

    /// Asks for an included LUT's thumbnail, if it is missing.
    pub fn lut_thumbnail(&mut self, index: usize)
        requires
            old(self).wf(),
            old(self).thumbnails@.generation < u64::MAX,
            0 < old(self).size().0 <= 16384,
            0 < old(self).size().1 <= 16384,
        ensures
            ({
                let before = *old(self);
                let after = *final(self);
                let shelf = before.thumbnails@.of_source(before.source.id);
                let key = crate::desktop::worker::Key::Lut(index as nat);
                let makes = !shelf.has(key);
                &&& after == (App {
                    thumbnails: after.thumbnails,
                    previews: after.previews,
                    ..before
                })
                &&& !makes ==> after.previews@ == before.previews@ && after.thumbnails@ == shelf
                &&& makes ==> {
                    &&& adds(before.previews@, after.previews@)
                    &&& after.previews@.last() matches PreviewJob::Thumbnail {
                        generation,
                        key: asked,
                        input: sent,
                        look,
                    } && generation == shelf.generation && asked@ == key && Some(*sent)
                        == after.thumbnails@.small && look == crate::desktop::worker::Look::Lut(
                        index,
                    )
                    &&& shelf.asks(
                        after.thumbnails@,
                        key,
                        None,
                        crate::desktop::thumbnails::State::Pending,
                    )
                    &&& after.thumbnails@.small matches Some(small) && match shelf.small {
                        Some(kept) => small == kept,
                        None => crate::desktop::thumbnails::is_thumbnail(
                            small,
                            *before.source.input,
                            crate::desktop::thumbnails::LUT_SIDE,
                        ),
                    }
                }
            }),
            final(self).wf(),
    {
        let id: u64 = self.source.id;
        match self.thumbnails.lut(id, &self.source.input, index) {
            Answer::Make(job) => {
                let ghost before = self.previews@;
                self.previews.push(job);
                assert(self.previews@.drop_last() =~= before);
            },
            _ => {},
        }
    }

    /// Whether a gallery on screen is still waiting for thumbnails.
    pub fn thumbnails_pending(&self) -> (r: bool)
        ensures
            r == ((self.windows.gallery || self.windows.lut_gallery)
                && self.thumbnails@.any_pending()),
    {
        self.thumbnails.pending(self.windows.gallery || self.windows.lut_gallery)
    }

    // ---------------------------------------------------------------------------------------
    // LUTs and presets
    // ---------------------------------------------------------------------------------------

    /// A LUT was read from a file, or why not. It is used in place of the NES palette.
    pub fn lut_read(&mut self, result: Result<Lut, String>, now: u64)
        requires
            old(self).changeable(),
        ensures
            match result {
                Ok(lut) => {
                    let before = *old(self);
                    let after = *final(self);
                    &&& after == (App {
                        playback: None,
                        told: after.told,
                        schedule: after.schedule,
                        history: after.history,
                        config: after.config,
                        ..before
                    })
                    &&& after.config.lut == Some(lut)
                    &&& after.config.palette is None
                    &&& (Config {
                        lut: before.config.lut,
                        palette: before.config.palette,
                        ..after.config
                    }).alike(before.config)
                    &&& before.restarts(after, now)
                    &&& after.told.only_says(before.told, "LUT imported"@)
                    &&& commits_twice(
                        before.history@,
                        after.history@,
                        before.config,
                        after.config,
                    )
                },
                Err(e) => old(self).only_fails(*final(self), "Cannot import LUT: "@ + e@),
            },
            old(self).wf() ==> final(self).wf(),
    {
        match result {
            Ok(lut) => {
                let mut config: Config = self.config.copy();
                config.lut = Some(lut);
                config.palette = None;
                self.replace_config(config, now);
                self.told.status = owned("LUT imported");
            },
            Err(e) => {
                self.told.error = Some(Problem::Text(join("Cannot import LUT: ", e.as_str())));
            },
        }
    }

    /// Whether an application is another that only tells of a problem more.
    pub open spec fn only_fails(self, after: App, text: Seq<char>) -> bool {
        &&& after == (App { told: after.told, ..self })
        &&& after.told.status == self.told.status
        &&& after.told.preview_error == self.told.preview_error
        &&& tells(after.told.error, text)
    }

    /// A preset was read from a file, or why not.
    pub fn preset_loaded(&mut self, path: &str, result: Result<Config, String>, now: u64)
        requires
            old(self).changeable(),
        ensures
            match result {
                Ok(config) => {
                    let before = *old(self);
                    let after = *final(self);
                    &&& after == (App {
                        playback: None,
                        told: after.told,
                        schedule: after.schedule,
                        history: after.history,
                        config,
                        gallery_name: after.gallery_name,
                        ..before
                    })
                    &&& after.gallery_name@ == crate::path::shown_stem(path@)
                    &&& before.restarts(after, now)
                    &&& commits_twice(before.history@, after.history@, before.config, config)
                    &&& after.told.status@ == "Loaded preset "@ + path@
                    &&& after.told.error is None
                    &&& after.told.preview_error == before.told.preview_error
                },
                Err(e) => old(self).only_fails(*final(self), "Cannot load preset: "@ + e@),
            },
            old(self).wf() ==> final(self).wf(),
    {
        match result {
            Ok(config) => {
                self.gallery_name = stem_or_empty(path);
                self.replace_config(config, now);
                self.told.status = join("Loaded preset ", path);
                self.told.error = None;
            },
            Err(e) => {
                self.told.error = Some(Problem::Text(join("Cannot load preset: ", e.as_str())));
            },
        }
    }

    /// The settings in use were saved to a file, or why not.
    pub fn preset_saved(&mut self, path: &str, result: Result<(), String>)
        ensures
            match result {
                Ok(()) => *final(self) == (App { told: final(self).told, ..*old(self) })
                    && final(self).told.status@ == "Saved preset "@ + path@
                    && final(self).told.error is None && final(self).told.preview_error == old(self).told.preview_error,
                Err(e) => old(self).only_fails(*final(self), "Cannot save preset: "@ + e@),
            },
            old(self).wf() ==> final(self).wf(),
    {
        match result {
            Ok(()) => {
                self.told.status = join("Saved preset ", path);
                self.told.error = None;
            },
            Err(e) => {
                self.told.error = Some(Problem::Text(join("Cannot save preset: ", e.as_str())));
            },
        }
    }

    /// Uses an included LUT, or none. Nothing becomes an undo step where it is in use already.
    pub fn apply_lut(&mut self, lut: Option<Lut>, now: u64)
        requires
            old(self).changeable(),
        ensures
            final(self).told.error is None,
            final(self).told.status@ == match lut {
                Some(lut) => "Applied "@ + lut.name@,
                None => "LUT removed"@,
            },
            ({
                let before = *old(self);
                let after = *final(self);
                let kept = lut is Some && (Config { lut, ..before.config }).equal(before.config);
                &&& after == (App {
                    playback: after.playback,
                    told: after.told,
                    schedule: after.schedule,
                    history: after.history,
                    config: after.config,
                    ..before
                })
                &&& after.told.preview_error == before.told.preview_error
                &&& kept ==> after == (App { told: after.told, ..before })
                &&& !kept ==> {
                    &&& before.restarts(after, now)
                    &&& commits_twice(
                        before.history@,
                        after.history@,
                        before.config,
                        after.config,
                    )
                    &&& after.config.lut == lut
                    &&& (Config { lut: before.config.lut, ..after.config }).alike(before.config)
                }
            }),
            old(self).wf() ==> final(self).wf(),
    {
        let status: String = match &lut {
            Some(lut) => join("Applied ", lut.name.as_str()),
            None => owned("LUT removed"),
        };
        let removed: bool = lut.is_none();
        let mut config: Config = self.config.copy();
        config.lut = lut;
        if removed || !config.same(&self.config) {
            self.replace_config(config, now);
        }
        self.told.error = None;
        self.told.status = status;
    }

    // ---------------------------------------------------------------------------------------
    // Projects
    // ---------------------------------------------------------------------------------------

    /// Whether a project holds the application's work as it is.
    pub open spec fn is_snapshot(self, project: Project) -> bool {
        &&& project.version == 1
        &&& match (project.source, self.source.path) {
            (Some(a), Some(b)) => a@ == b@,
            (None, None) => true,
            _ => false,
        }
        &&& project.frame == self.source.frame
        &&& project.config.alike(self.config)
        &&& project.options == self.video_options
        &&& crate::desktop::batch::items_alike(project.queue@, self.queue@.items)
    }

    /// The application's work as it is, to be saved.
    pub fn snapshot(&self) -> (r: Project)
        ensures
            self.is_snapshot(r),
    {
        let items: &Vec<Item> = self.queue.items();
        let mut queue: Vec<Item> = Vec::new();
        let mut i: usize = 0;
        while i < items.len()
            invariant
                i <= items@.len(),
                items@ == self.queue@.items,
                queue@.len() == i,
                forall|k: int| 0 <= k < i ==> (#[trigger] queue@[k]).alike(items@[k]),
            decreases items@.len() - i,
        {
            queue.push(items[i].copy());
            i = i + 1;
        }
        Project {
            version: 1,
            source: match &self.source.path {
                Some(path) => Some(owned(path.as_str())),
                None => None,
            },
            frame: self.source.frame,
            config: self.config.copy(),
            options: self.video_options,
            queue,
        }
    }

    /// The session to save, unless it is as it was saved, or something else has yet to be
    /// restored or loaded.
    pub fn session_to_save(&self) -> (r: Option<Project>)
        ensures
            self.projects.recovery is Some || self.work is Loading || self.projects.pending is Some
                ==> r is None,
            r matches Some(project) ==> self.is_snapshot(project) && (self.projects.last_saved
                matches Some(last) ==> !last.equal(project)),
            r is None && !(self.projects.recovery is Some || self.work is Loading
                || self.projects.pending is Some) ==> exists|project: Project| #[trigger]
                self.is_snapshot(project) && (self.projects.last_saved matches Some(last)
                    && last.equal(project)),
    {
        if self.projects.recovery_offered() || self.work.is_loading()
            || self.projects.pending.is_some() {
            return None;
        }
        let project: Project = self.snapshot();
        match &self.projects.last_saved {
            Some(last) => {
                if last.same(&project) {
                    assert(self.is_snapshot(project));
                    return None;
                }
            },
            None => {},
        }
        Some(project)
    }

    /// Restores everything of a project but its source.
    pub fn apply_project(&mut self, project: Project, now: u64)
        requires
            old(self).changeable(),
        ensures
            *final(self) == (App {
                playback: None,
                told: final(self).told,
                schedule: final(self).schedule,
                history: final(self).history,
                queue: final(self).queue,
                config: project.config,
                video_options: project.options,
                ..*old(self)
            }),
            final(self).queue@ == (crate::desktop::batch::Line {
                items: project.queue@,
                running: false,
                active: None,
            }),
            old(self).restarts(*final(self), now),
            commits_twice(
                old(self).history@,
                final(self).history@,
                old(self).config,
                project.config,
            ),
            final(self).told.only_says(old(self).told, "Project restored; queue paused"@),
            old(self).wf() ==> final(self).wf(),
    {
        self.video_options = project.options;
        self.queue.replace(project.queue);
        self.replace_config(project.config, now);
        self.told.status = owned("Project restored; queue paused");
    }

    /// Whether an application is another that restores a project, whose source is there or not
    /// and has several frames or not; `reads` where that source is a project to be read itself.
    pub open spec fn restores(
        self,
        after: App,
        project: Project,
        there: bool,
        several_frames: bool,
        reads: bool,
        now: u64,
    ) -> bool {
        match project.source {
            None => {
                &&& !reads
                &&& after == (App {
                    playback: None,
                    told: after.told,
                    schedule: after.schedule,
                    history: after.history,
                    queue: after.queue,
                    config: project.config,
                    video_options: project.options,
                    rendered: false,
                    source: after.source,
                    ..self
                })
                &&& after.schedule@ == self.schedule@.changed(Change::Edit, now as nat).changed(
                    Change::Edit,
                    now as nat,
                )
                &&& commits_twice(self.history@, after.history@, self.config, project.config)
                &&& after.queue@ == (crate::desktop::batch::Line {
                    items: project.queue@,
                    running: false,
                    active: None,
                })
                &&& after.told.only_says(self.told, "Project restored; queue paused"@)
                &&& after.source == (Source {
                    path: None,
                    name: after.source.name,
                    video: None,
                    input: after.source.input,
                    id: (self.source.id + 1) as u64,
                    ..self.source
                })
                &&& after.source.name@ == "Built-in test card"@
                &&& crate::crt::picture::is_card(*after.source.input)
            },
            Some(path) => if !there {
                &&& !reads
                &&& after == (App {
                    playback: None,
                    told: after.told,
                    schedule: after.schedule,
                    history: after.history,
                    queue: after.queue,
                    config: project.config,
                    video_options: project.options,
                    rendered: self.rendered,
                    source: after.source,
                    ..self
                })
                &&& self.restarts(after, now)
                &&& commits_twice(self.history@, after.history@, self.config, project.config)
                &&& after.queue@ == (crate::desktop::batch::Line {
                    items: project.queue@,
                    running: false,
                    active: None,
                })
                &&& after.told.status@ == "Project restored; queue paused"@
                &&& after.told.preview_error == self.told.preview_error
                &&& tells(after.told.error, missing_text(path@))
                &&& after.source == (Source { path: Some(path), ..self.source })
            } else {
                let moving = !(MediaKind::opened(path@, several_frames) is Still);
                &&& reads == (!moving && crate::path::extends_with(path@, "crtsim"@))
                &&& after == (App {
                    playback: None,
                    told: after.told,
                    work: if reads {
                        self.work
                    } else {
                        Work::Loading { stoppable: moving, stopping: false }
                    },
                    jobs: after.jobs,
                    projects: Projects { pending: Some(project), ..self.projects },
                    ..self
                })
                &&& if reads {
                    after.jobs == self.jobs && after.told.paused(
                        self.told,
                        self.playback is Some,
                    )
                } else {
                    &&& adds(self.jobs@, after.jobs@)
                    &&& after.told.only_says(
                        self.told,
                        if moving {
                            "Loading video frame…"@
                        } else {
                            "Loading "@ + path@ + "…"@
                        },
                    )
                    &&& if moving {
                        after.jobs@.last() matches Job::LoadVideo { path: p, frame, cached } && p@
                            == path@ && frame == project.frame && cached is None
                    } else {
                        after.jobs@.last() matches Job::Load(p) && p@ == path@
                    }
                }
            },
        }
    }

    /// Restores a project. A source is loaded first; the rest follows once it is. Whether the
    /// source is a project itself, which is for the caller to read.
    pub fn restore_project(
        &mut self,
        project: Project,
        there: bool,
        several_frames: bool,
        now: u64,
    ) -> (r: bool)
        requires
            old(self).countable(),
            old(self).schedule@.revision < u64::MAX - 1,
        ensures
            old(self).restores(*final(self), project, there, several_frames, r, now),
            old(self).wf() ==> final(self).wf(),
    {
        self.stop_playback();
        let moving: bool = match &project.source {
            Some(path) => MediaKind::of(path.as_str(), several_frames).is_moving(),
            None => false,
        };
        match restore_as(&project, there, moving) {
            Restore::Card => {
                self.show_test_card(now);
                self.apply_project(project, now);
                false
            },
            Restore::Missing => {
                let mut project: Project = project;
                let mut source: Option<String> = None;
                std::mem::swap(&mut project.source, &mut source);
                let mut text: String = owned("Project source is missing: ");
                match &source {
                    Some(path) => text.append(path.as_str()),
                    None => {},
                }
                text.append(
                    ". Edits and queue were recovered. Use Open File to relink the source.",
                );
                self.source.path = source;
                self.apply_project(project, now);
                self.told.error = Some(Problem::Text(text));
                false
            },
            kind => {
                let path: String = match &project.source {
                    Some(path) => owned(path.as_str()),
                    None => String::new(),
                };
                let frame: u64 = project.frame;
                self.projects.pending = Some(project);
                match kind {
                    Restore::Video => {
                        self.load_video(path.as_str(), frame, false);
                        false
                    },
                    _ => self.load(path.as_str(), several_frames),
                }
            },
        }
    }

    /// A project was read, or why not. It is restored, and is the first of the recent ones.
    /// Whether its source is a project itself, which is for the caller to read.
    pub fn open_project(
        &mut self,
        path: &str,
        result: Result<Project, ProjectError>,
        there: bool,
        several_frames: bool,
        now: u64,
    ) -> (r: bool)
        requires
            old(self).countable(),
            old(self).schedule@.revision < u64::MAX - 1,
        ensures
            match result {
                Err(e) => !r && *final(self) == (App {
                    told: Told {
                        error: Some(Problem::Project { lead: "Cannot open project: ", fault: e }),
                        ..old(self).told
                    },
                    ..*old(self)
                }),
                Ok(project) => {
                    let before = *old(self);
                    let after = *final(self);
                    &&& after.projects.path matches Some(p) && p@ == path@
                    &&& crate::desktop::workflow::path_views(after.projects.recent@)
                        == crate::desktop::workflow::kept(
                        seq![path@] + crate::desktop::workflow::others(
                            crate::desktop::workflow::path_views(before.projects.recent@),
                            path@,
                        ),
                    )
                    &&& (App {
                        projects: Projects { path: after.projects.path, ..before.projects },
                        ..before
                    }).restores(
                        App {
                            projects: Projects {
                                recent: before.projects.recent,
                                ..after.projects
                            },
                            ..after
                        },
                        project,
                        there,
                        several_frames,
                        r,
                        now,
                    )
                },
            },
            old(self).wf() ==> final(self).wf(),
    {
        match result {
            Err(e) => {
                self.told.error =
                Some(Problem::Project { lead: "Cannot open project: ", fault: e });
                false
            },
            Ok(project) => {
                self.projects.path = Some(owned(path));
                let reads: bool = self.restore_project(project, there, several_frames, now);
                remember(&mut self.projects.recent, path);
                reads
            },
        }
    }

    /// A project was saved to `path`.
    pub fn project_saved(&mut self, path: &str)
        ensures
            *final(self) == (App {
                told: final(self).told,
                projects: final(self).projects,
                ..*old(self)
            }),
            final(self).projects == (Projects {
                path: final(self).projects.path,
                recent: final(self).projects.recent,
                ..old(self).projects
            }),
            final(self).projects.path matches Some(p) && p@ == path@,
            crate::desktop::workflow::path_views(final(self).projects.recent@)
                == crate::desktop::workflow::kept(
                seq![path@] + crate::desktop::workflow::others(
                    crate::desktop::workflow::path_views(old(self).projects.recent@),
                    path@,
                ),
            ),
            final(self).told.only_says(old(self).told, "Saved project "@ + path@),
            old(self).wf() ==> final(self).wf(),
    {
        self.projects.path = Some(owned(path));
        self.told.status = join("Saved project ", path);
        remember(&mut self.projects.recent, path);
    }

    /// A source came back from the work thread, or why not. A project that waited for it is
    /// restored.
    pub fn loaded(&mut self, result: Outcome<Loaded>, now: u64)
        requires
            old(self).countable(),
            old(self).schedule@.revision < u64::MAX - 1,
            result matches Ok(loaded) ==> loaded.image.wf(),
        ensures
            final(self).projects == (Projects { pending: None, ..old(self).projects }),
            match result {
                Ok(loaded) => {
                    &&& *final(self) == (App {
                        work: Work::Idle,
                        projects: final(self).projects,
                        source: final(self).source,
                        told: final(self).told,
                        schedule: final(self).schedule,
                        playback: None,
                        rendered: false,
                        config: final(self).config,
                        history: final(self).history,
                        queue: final(self).queue,
                        video_options: final(self).video_options,
                        ..*old(self)
                    })
                    &&& final(self).source == (Source {
                        path: Some(loaded.path),
                        name: loaded.name,
                        video: match loaded.video {
                            Some(at) => Some(at.video),
                            None => None,
                        },
                        input: final(self).source.input,
                        id: (old(self).source.id + 1) as u64,
                        ..match loaded.video {
                            Some(at) => Source {
                                frame: at.frame,
                                selected: at.frame,
                                frames: at.frames,
                                time: Real64::of(at.frame as nat).over(at.video.fps),
                                ..old(self).source
                            },
                            None => old(self).source,
                        }
                    })
                    &&& *final(self).source.input == loaded.image
                    &&& final(self).told.preview_error == old(self).told.preview_error
                    &&& final(self).told.error is None
                    &&& final(self).told.status@ == match old(self).projects.pending {
                        Some(_) => "Project restored; queue paused"@,
                        None => if loaded.video is Some {
                            "Video frame loaded"@
                        } else {
                            "Image loaded"@
                        },
                    }
                    &&& match old(self).projects.pending {
                        Some(project) => {
                            &&& final(self).config == project.config
                            &&& final(self).video_options == project.options
                            &&& final(self).queue@ == (crate::desktop::batch::Line {
                                items: project.queue@,
                                running: false,
                                active: None,
                            })
                            &&& commits_twice(
                                old(self).history@,
                                final(self).history@,
                                old(self).config,
                                project.config,
                            )
                            &&& final(self).schedule@ == old(self).schedule@.changed(
                                Change::Edit,
                                now as nat,
                            ).changed(Change::Edit, now as nat)
                        },
                        None => {
                            &&& final(self).config == old(self).config
                            &&& final(self).queue == old(self).queue
                            &&& final(self).video_options == old(self).video_options
                            &&& final(self).history == old(self).history
                            &&& old(self).restarts(*final(self), now)
                        },
                    }
                },
                Err(Failure::Cancelled) => *final(self) == (App {
                    work: Work::Idle,
                    told: final(self).told,
                    projects: final(self).projects,
                    ..*old(self)
                }) && final(self).told.status@ == "Video loading cancelled"@
                    && final(self).told.error is None && final(self).told.preview_error
                    == old(self).told.preview_error,
                Err(Failure::Failed(e)) => *final(self) == (App {
                    work: Work::Idle,
                    told: final(self).told,
                    projects: final(self).projects,
                    ..*old(self)
                }) && tells(final(self).told.error, e@) && final(self).told.status
                    == old(self).told.status && final(self).told.preview_error
                    == old(self).told.preview_error,
            },
            old(self).wf() ==> final(self).wf(),
    {
        self.work = Work::Idle;
        let mut pending: Option<Project> = None;
        std::mem::swap(&mut self.projects.pending, &mut pending);
        match result {
            Ok(loaded) => {
                let status: &str = match &loaded.video {
                    Some(at) => {
                        self.source.time = Real64::from_integer(at.frame).div(at.video.fps);
                        self.source.frame = at.frame;
                        self.source.selected = at.frame;
                        self.source.frames = at.frames;
                        "Video frame loaded"
                    },
                    None => "Image loaded",
                };
                let video: Option<Arc<Video>> = match loaded.video {
                    Some(at) => Some(at.video),
                    None => None,
                };
                self.set_source(Some(loaded.path), loaded.name, video, loaded.image, now);
                self.told.status = owned(status);
                self.told.error = None;
                match pending {
                    Some(project) => {
                        self.apply_project(project, now);
                    },
                    None => {},
                }
            },
            Err(Failure::Cancelled) => {
                self.told.status = owned("Video loading cancelled");
                self.told.error = None;
            },
            Err(Failure::Failed(e)) => {
                self.told.error = Some(Problem::Text(e));
            },
        }
    }
}

/// A source opened for editing: an image, or one frame of a video.
#[derive(Debug)]
pub struct Loaded {
    pub path: String,
    pub name: String,
    pub image: Picture,
    pub video: Option<VideoFrame>,
}

/// A video, and where in it a frame is.
#[derive(Debug)]
pub struct VideoFrame {
    pub video: Arc<Video>,
    pub frame: u64,
    pub frames: u64,
}

/// Whether a history is another with the settings in use made a step, then others.
pub open spec fn commits_twice(
    before: crate::desktop::model::Steps,
    after: crate::desktop::model::Steps,
    first: Config,
    second: Config,
) -> bool {
    exists|mid: crate::desktop::model::Steps| #[trigger]
        before.commits(mid, first) && mid.commits(after, second)
}

/// Whether an export has just been handed out, at a stage or none.
pub open spec fn is_started(work: Work, queued: Option<Seq<char>>) -> bool {
    work matches Work::Exporting { stopping, progress } && {
        &&& !stopping
        &&& match (progress, queued) {
            (Some(p), Some(stage)) => p.fraction == (Real32 { bits: 0 }) && p.stage@ == stage,
            (None, None) => true,
            _ => false,
        }
    }
}

/// What the status bar says of a preview.
pub open spec fn previewed_text(size: (u32, u32), took: Seq<char>) -> Seq<char> {
    "Preview "@ + crate::text::decimal(size.0 as nat) + " × "@ + crate::text::decimal(
        size.1 as nat,
    ) + " · "@ + took + "s"@
}

/// What is told of a project whose source is gone.
pub open spec fn missing_text(path: Seq<char>) -> Seq<char> {
    "Project source is missing: "@ + path
        + ". Edits and queue were recovered. Use Open File to relink the source."@
}

/// Whether a queue is another whose job, if one was exporting, has ended.
pub open spec fn ends_job(
    before: crate::desktop::batch::Line,
    after: crate::desktop::batch::Line,
    result: Outcome<String>,
    asked_to_stop: bool,
) -> bool {
    match before.active {
        None => after == before,
        Some(index) => {
            &&& after.active is None
            &&& after.items == before.items.update(
                index,
                Item { status: after.items[index].status, ..before.items[index] },
            )
            &&& crate::desktop::batch::is_ending(after.items[index].status, result)
            &&& after.running == (before.running && !asked_to_stop && !(result == Err::<
                String,
                Failure,
            >(Failure::Cancelled)))
        },
    }
}

/// Whether every frame that is buffered or arrives is a whole picture.
pub open spec fn frames_whole(playback: Option<Playback>, arrived: Seq<Arrival>) -> bool {
    &&& playback matches Some(p) ==> forall|i: int|
        0 <= i < p@.buffered.len() ==> (#[trigger] p@.buffered[i]).source.wf()
    &&& forall|i: int|
        0 <= i < arrived.len() ==> (#[trigger] arrived[i] matches Arrival::Frame(frame)
            ==> frame.source.wf())
}

proof fn lemma_filled_frames_are_whole(reel: crate::desktop::playback::Reel, arrived: Seq<Arrival>)
    requires
        forall|i: int| 0 <= i < reel.buffered.len() ==> (#[trigger] reel.buffered[i]).source.wf(),
        forall|i: int|
            0 <= i < arrived.len() ==> (#[trigger] arrived[i] matches Arrival::Frame(frame)
                ==> frame.source.wf()),
    ensures
        forall|i: int|
            0 <= i < reel.filled(arrived).buffered.len() ==> (#[trigger] reel.filled(
                arrived,
            ).buffered[i]).source.wf(),
    decreases arrived.len(),
{
    if arrived.len() == 0 || reel.ended || reel.buffered.len() >= reel.capacity {
    } else {
        let next = match arrived[0] {
            Arrival::Frame(frame) => crate::desktop::playback::Reel {
                buffered: reel.buffered.push(frame),
                ..reel
            },
            _ => crate::desktop::playback::Reel { ended: true, ..reel },
        };
        assert forall|i: int| 0 <= i < arrived.skip(1).len() implies (#[trigger] arrived.skip(1)[i]
            matches Arrival::Frame(frame) ==> frame.source.wf()) by {
            assert(arrived.skip(1)[i] == arrived[i + 1]);
        }
        lemma_filled_frames_are_whole(next, arrived.skip(1));
    }
}

proof fn lemma_due_frames_are_whole(
    reel: crate::desktop::playback::Reel,
    arrived: Seq<Arrival>,
    now: nat,
)
    requires
        forall|i: int| 0 <= i < reel.buffered.len() ==> (#[trigger] reel.buffered[i]).source.wf(),
        forall|i: int|
            0 <= i < arrived.len() ==> (#[trigger] arrived[i] matches Arrival::Frame(frame)
                ==> frame.source.wf()),
    ensures
        reel.filled(arrived).started(now).frame_at(now) matches Some(frame) ==> frame.source.wf(),
{
    lemma_filled_frames_are_whole(reel, arrived);
    let ready = reel.filled(arrived).started(now);
    lemma_due_is_buffered(ready.buffered, ready.target(now));
}

proof fn lemma_due_is_buffered(frames: Seq<PlaybackFrame>, target: Real64)
    ensures
        crate::desktop::playback::Reel::due(frames, target) <= frames.len(),
    decreases frames.len(),
{
    if frames.len() > 0 {
        lemma_due_is_buffered(frames.skip(1), target);
    }
}

// -------------------------------------------------------------------------------------------
// Laws
// -------------------------------------------------------------------------------------------

/// An audition never reaches the settings, their history or an export: the next export captures
/// the settings in use, whatever is pointed at.
pub proof fn auditions_stay_previews(before: App, after: App)
    requires
        after == (App {
            offered: None,
            audition: after.audition,
            schedule: after.schedule,
            ..before
        }),
    ensures
        after.config == before.config,
        after.history == before.history,
        after.jobs == before.jobs,
        forall|export: Export| after.is_video_export(export) == before.is_video_export(export),
{
}

/// Once nothing is pointed at, the preview shows the settings in use again.
pub proof fn moving_away_returns_to_the_settings(app: App)
    requires
        app.offered is None,
    ensures
        app.next_audition() is None,
        (App { audition: app.next_audition(), ..app }).shown() == app.config,
{
}

} // verus!
