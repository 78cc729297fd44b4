use crtsim::crt::config::{Config, ConfigError};
use crtsim::crt::lut::Lut;
use crtsim::crt::picture::{test_card, Picture};
use crtsim::crt::render::RenderProgress;
use crtsim::desktop::app::{App, Export, Job, Loaded, Problem, VideoFrame, Work};
use crtsim::desktop::export_ui::ExportFormat;
use crtsim::desktop::model::History;
use crtsim::desktop::playback::{Arrival, Playback, PlaybackFrame};
use crtsim::desktop::schedule::{Due, SETTLE};
use crtsim::desktop::worker::{Failure, PreviewJob, ThumbnailKey};
use crtsim::desktop::workflow::{Project, ProjectError};
use crtsim::media::kind::{AnimationFormat, Container};
use crtsim::media::options::Options;
use crtsim::media::probe::{Source, Video};
use crtsim::number::{Real32, Real64};
use std::sync::Arc;

const MS: u64 = 1_000_000;

fn single(x: f32) -> Real32 {
    Real32 { bits: x.to_bits() }
}

fn double(x: f64) -> Real64 {
    Real64 { bits: x.to_bits() }
}

fn empty(width: u32, height: u32) -> Picture {
    Picture { width, height, pixels: vec![0; 4 * (width * height) as usize] }
}

/// A video of `duration` seconds at 25 frames per second.
fn video(duration: f64, size: (u32, u32)) -> Video {
    Video {
        metadata: vec![],
        tracks: vec![],
        start: double(0.),
        path: "clip.mkv".into(),
        size,
        fps: double(25.),
        rate: "25/1".into(),
        duration: double(duration),
        audio: false,
        audio_offset: double(0.),
        hdr: false,
        stream: 0,
        frames: None,
        source: Source::Ffmpeg,
    }
}

fn text(problem: &Option<Problem>) -> &str {
    match problem {
        Some(Problem::Text(text)) => text,
        _ => panic!("expected a text, got {problem:?}"),
    }
}

fn loaded(app: &mut App, video: Option<Arc<Video>>, now: u64) {
    let found = Loaded {
        path: "/a/clip.mkv".into(),
        name: "clip.mkv".into(),
        image: empty(8, 6),
        video: video.map(|video| VideoFrame { video, frame: 3, frames: 250 }),
    };
    app.loaded(Ok(found), now);
}

#[test]
fn an_audition_is_previewed_without_touching_the_settings() {
    let mut app = App::new(true, 0);
    app.windows.welcome = false;
    let settings = app.config.clone();
    let candidate = Config {
        bloom: single(1.5),
        ..settings.clone()
    };
    let asked = app.schedule.take().unwrap();
    app.schedule.returned(asked);
    app.schedule.show_current();
    app.offer_audition("preset “Bright”".into(), candidate.clone());
    app.settle_audition(MS);
    assert!(!app.schedule.is_current() && app.schedule.is_pending());
    app.request_preview();
    match app.previews.pop() {
        Some(PreviewJob::Preview { revision, config, .. }) => {
            assert!(revision > asked);
            assert_eq!(config.bloom, single(1.5));
        }
        _ => panic!("expected a preview of the auditioned look"),
    }
    assert_eq!(app.config, settings);
    assert_eq!(app.history.undo(&app.config), None, "no undo step recorded");
    // Exports take the settings in use, never the look being pointed at.
    app.export("/exports/out.png");
    match app.jobs.pop() {
        Some(Job::Export { export: Export::Image { config, .. }, .. }) => {
            assert_eq!(config, settings)
        }
        _ => panic!("expected an export"),
    }
}

#[test]
fn moving_away_returns_to_the_settings_and_the_current_look_is_not_an_audition() {
    let mut app = App::new(true, 0);
    app.windows.welcome = false;
    let current = app.config.clone();
    app.offer_audition("current".into(), current);
    app.settle_audition(0);
    assert!(app.audition.is_none());
    let candidate = Config {
        chroma: single(0.),
        ..app.config.clone()
    };
    app.offer_audition("LUT “Gray”".into(), candidate.clone());
    app.settle_audition(0);
    // Still pointed at on the next frame: nothing new to render.
    let revision = app.schedule.take().unwrap();
    app.schedule.returned(revision);
    app.offer_audition("LUT “Gray”".into(), candidate);
    app.settle_audition(0);
    assert!(!app.schedule.is_pending());
    // Nothing offered this frame: the pointer moved away.
    app.settle_audition(0);
    assert!(app.audition.is_none() && app.schedule.is_pending());
    app.schedule.set_live(false);
    assert_eq!(app.schedule.due(SETTLE, false), Due::Preview);
    app.request_preview();
    match app.previews.pop() {
        Some(PreviewJob::Preview { revision: later, config, .. }) => {
            assert!(later > revision);
            assert_eq!(config.chroma, app.config.chroma);
        }
        _ => panic!("ending an audition redraws the settings in use"),
    }
}

#[test]
fn obsolete_preview_cannot_replace_current_settings() {
    let mut app = App::new(false, 0);
    let asked = app.schedule.take().unwrap();
    app.config.bloom = single(0.);
    app.changed(MS);
    assert!(!app.previewed(asked, Ok((256, 224)), "0.10"));
    assert!(!app.rendered);
    assert!(!app.schedule.rendering());
    let settled = MS + 1000 * MS;
    assert_eq!(
        app.schedule.due(settled, false),
        Due::Preview,
        "the change is still to be previewed"
    );
    app.loaded(Err(Failure::Failed("Cannot decode selected file".into())), settled);
    let asked = app.schedule.take().unwrap();
    assert!(app.previewed(asked, Ok((256, 224)), "0.10"));
    assert!(app.schedule.is_current());
    assert_eq!(text(&app.told.error), "Cannot decode selected file");
    assert_eq!(app.told.status, "Preview 256 × 224 · 0.10s");
}

#[test]
fn settings_changed_during_an_export_are_previewed() {
    let mut app = App::new(false, 0);
    app.export("/exports/rendered.png");
    assert!(matches!(app.jobs.pop(), Some(Job::Export { .. })));
    app.config.bloom = single(0.);
    app.changed(MS);
    app.request_preview();
    match app.previews.pop() {
        Some(PreviewJob::Preview { config, .. }) => assert_eq!(config.bloom, single(0.)),
        _ => panic!("expected a preview while exporting"),
    }
    assert!(app.work.is_exporting() && app.schedule.rendering());
}

#[test]
fn export_captures_full_resolution_and_original_source() {
    let mut app = App::new(false, 0);
    app.config.output = "4k".into();
    app.preview_limit = Some(800);
    let source = app.source.input.clone();
    let expected = app.config.clone();
    app.export("/exports/rendered.png");
    app.config.bloom = single(0.);
    app.source.input = Arc::new(empty(1, 1));
    match app.jobs.pop() {
        Some(Job::Export { export: Export::Image { input, config }, .. }) => {
            assert!(Arc::ptr_eq(&input, &source));
            assert!(app.work.stoppable());
            assert_eq!(config, expected);
            assert_eq!(
                config.output_size(input.dimensions()).unwrap(),
                (3840, 2160)
            );
        }
        _ => panic!("expected export job"),
    }
}

#[test]
fn an_animation_is_exported_with_its_own_options_to_its_own_extension() {
    let mut app = App::new(false, 0);
    let mut clip = video(1., (8, 6));
    clip.source = Source::Animated { format: AnimationFormat::Gif, delays: vec![100, 100] };
    app.source.video = Some(Arc::new(clip));
    app.export_format = ExportFormat::Animation(AnimationFormat::Gif);
    app.animation_options.fps = 12;

    app.export_video("/exports/out.mp4");
    assert!(text(&app.told.error).contains(".gif"));
    assert!(app.jobs.is_empty());

    app.export_video("/exports/out.GIF");
    match app.jobs.pop() {
        Some(Job::Export { export: Export::Animation { options, .. }, path }) => {
            assert_eq!(options.fps, 12);
            assert_eq!(path, "/exports/out.GIF");
        }
        _ => panic!("expected an animation export"),
    }
    assert_eq!(app.told.status, "Exporting GIF…");
}

#[test]
fn a_due_frame_becomes_the_current_preview() {
    let mut app = App::new(false, 0);
    let (playback, _) = Playback::new(&video(10., (4, 4)), double(0.), (4, 4));
    app.playback = Some(playback);
    let mut arrived: Vec<Arrival> = [0., 0.04, 0.08]
        .into_iter()
        .map(|time| {
            Arrival::Frame(PlaybackFrame {
                time: double(time),
                source: empty(4, 4),
                crt: empty(4, 4),
            })
        })
        .collect();
    assert!(app.tick_playback(&mut arrived, MS).is_some());
    assert!(app.rendered && app.schedule.is_current());
    assert_eq!(app.told.status, "Playing");
    app.stop_playback();
    assert!(app.playback.is_none());
    assert_eq!(app.told.status, "Playback paused");
}

fn asked(app: &mut App) -> Vec<(u64, ThumbnailKey)> {
    app.previews
        .drain(..)
        .filter_map(|job| match job {
            PreviewJob::Thumbnail { generation, key, .. } => Some((generation, key)),
            _ => None,
        })
        .collect()
}

fn lut_picture(app: &App, index: usize) -> bool {
    app.thumbnails.picture(&ThumbnailKey::Lut(index)).is_some()
}

#[test]
fn thumbnails_are_asked_for_once_per_source_and_preset() {
    let mut app = App::new(false, 0);
    let preset = Config::general();
    app.lut_thumbnail(4);
    assert!(!lut_picture(&app, 4));
    app.preset_thumbnail("General image", &preset);
    assert!(app
        .thumbnails
        .picture(&ThumbnailKey::Preset("General image".into()))
        .is_none());
    let first = asked(&mut app);
    assert_eq!(first.len(), 2);
    // Asking again, as every frame does, sends nothing new.
    app.lut_thumbnail(4);
    app.preset_thumbnail("General image", &preset);
    assert!(asked(&mut app).is_empty());
    // A preset saved again under the same name is rendered again.
    let edited = Config {
        bloom: single(0.),
        ..preset.clone()
    };
    app.preset_thumbnail("General image", &edited);
    assert_eq!(asked(&mut app).len(), 1);
    // A new source asks for everything again, under a new generation...
    let generation = first[0].0;
    app.set_source(None, "other".into(), None, empty(32, 32), MS);
    app.lut_thumbnail(4);
    assert_eq!(asked(&mut app), vec![(generation + 1, ThumbnailKey::Lut(4))]);
    // ...and a late result for the old source is not shown.
    app.thumbnails.ready(generation, &ThumbnailKey::Lut(4), Ok(empty(2, 2)));
    app.lut_thumbnail(4);
    assert!(!lut_picture(&app, 4));
    app.thumbnails.ready(generation + 1, &ThumbnailKey::Lut(4), Ok(empty(2, 2)));
    app.lut_thumbnail(4);
    assert!(lut_picture(&app, 4));
}

#[test]
fn a_failed_thumbnail_does_not_keep_the_smoke_screenshot_waiting() {
    let mut app = App::new(false, 0);
    app.windows.lut_gallery = true;
    app.lut_thumbnail(0);
    assert!(app.thumbnails_pending());
    let generation = app.thumbnails.generation();
    app.thumbnails.ready(generation, &ThumbnailKey::Lut(0), Err("bad".into()));
    assert!(!app.thumbnails_pending());
}

#[test]
fn opening_a_file_depends_on_what_it_is() {
    let mut app = App::new(false, 0);
    assert!(app.load("/a/session.CRTSIM", false), "a project is for the caller to read");
    assert!(app.jobs.is_empty() && app.work.is_idle());
    assert!(!app.load("/a/photo.png", false));
    assert!(matches!(app.jobs.pop(), Some(Job::Load(path)) if path == "/a/photo.png"));
    assert_eq!(app.told.status, "Loading /a/photo.png…");
    assert!(!app.cancel(), "an image is not stopped");
    app.load("/a/clip.mkv", false);
    assert!(matches!(
        app.jobs.pop(),
        Some(Job::LoadVideo { frame: 0, cached: None, .. })
    ));
    assert!(app.cancel() && app.work.stopping());
    app.loaded(Err(Failure::Cancelled), MS);
    assert_eq!(app.told.status, "Video loading cancelled");
    loaded(&mut app, Some(Arc::new(video(10., (8, 6)))), MS);
    assert_eq!(app.told.status, "Video frame loaded");
    assert_eq!((app.source.frame, app.source.frames), (3, 250));
    assert_eq!(app.source.time, double(3. / 25.));
    assert_eq!(app.source.input.dimensions(), (8, 6));
    // Another frame of it comes from the video already open.
    app.source.selected = 7;
    assert!(!app.seek(true, true));
    assert!(app.seek(true, false));
    assert!(matches!(
        app.jobs.pop(),
        Some(Job::LoadVideo { frame: 7, cached: Some((_, 250)), .. })
    ));
    app.import_preset("/a/old.png");
    assert!(matches!(app.jobs.pop(), Some(Job::ImportPreset { input: (8, 6), .. })));
    app.worker_stopped();
    assert!(app.work.is_idle() && text(&app.told.error).starts_with("Render worker stopped"));
}

#[test]
fn exports_end_as_their_worker_says() {
    let mut app = App::new(false, 0);
    app.export("/exports/a.png");
    let done = RenderProgress { fraction: single(0.5), stage: "Half".into() };
    app.progressed(done);
    assert!(matches!(
        &app.work,
        Work::Exporting { progress: Some(p), .. } if p.stage == "Half"
    ));
    app.exported(Ok("/exports/a.png".into()));
    assert_eq!(app.told.status, "Saved /exports/a.png");
    app.exported(Err(Failure::Cancelled));
    assert_eq!(app.told.status, "Export cancelled; destination kept unchanged");
    app.exported(Err(Failure::Failed("full disk".into())));
    assert_eq!(text(&app.told.error), "full disk");
    // Settings that cannot render are refused before anything starts.
    app.config.warmup = 241;
    app.jobs.clear();
    app.export("/exports/a.png");
    assert!(app.jobs.is_empty());
    assert!(matches!(
        app.told.error,
        Some(Problem::Config { lead: "", fault: ConfigError::Warmup })
    ));
    app.changed(MS);
    app.request_preview();
    assert!(app.previews.is_empty() && !app.schedule.rendering());
    assert!(matches!(
        app.told.preview_error,
        Some(Problem::Config { lead: "Cannot preview: ", .. })
    ));
}

#[test]
fn undoing_takes_back_a_replaced_look() {
    let mut app = App::new(false, 0);
    let first = app.config.clone();
    let second = Config { bloom: single(1.), ..first.clone() };
    app.replace_config(second.clone(), MS);
    app.shortcut(true, false, true, 2 * MS);
    assert_eq!(app.config, second, "typing keeps its keys");
    app.shortcut(false, false, true, 2 * MS);
    assert_eq!(app.config, first);
    assert!(!app.undo(3 * MS));
    app.shortcut(false, true, true, 4 * MS);
    assert_eq!(app.config, second, "redo goes before undo");
    app.history = History::new(second.clone());
    assert!(!app.redo(5 * MS));
}

#[test]
fn a_change_that_settled_is_previewed_once_the_welcome_is_gone() {
    let mut app = App::new(true, 0);
    assert_eq!(app.keep_schedule(SETTLE, false), Due::Preview);
    assert!(app.previews.is_empty(), "the welcome is still open");
    app.windows.welcome = false;
    assert_eq!(app.keep_schedule(SETTLE, true), Due::Nothing);
    assert_eq!(app.keep_schedule(SETTLE, false), Due::Preview);
    assert_eq!(app.previews.len(), 1);
    assert!(app.needs_frames(SETTLE));
    assert_eq!(app.keep_schedule(2 * SETTLE, false), Due::Nothing);
}

#[test]
fn tables_are_imported_applied_and_removed() {
    let identity = "LUT_3D_SIZE 2\n0 0 0\n1 0 0\n0 1 0\n1 1 0\n0 0 1\n1 0 1\n0 1 1\n1 1 1";
    let lut = Lut::parse_cube("Gray".into(), identity).unwrap();
    let mut app = App::new(false, 0);
    app.config.use_palette(true);
    app.lut_read(Ok(lut.clone()), MS);
    assert!(app.config.palette.is_none() && app.config.lut.is_some());
    assert_eq!(app.told.status, "LUT imported");
    app.lut_read(Err("Invalid LUT row".into()), MS);
    assert_eq!(text(&app.told.error), "Cannot import LUT: Invalid LUT row");
    app.schedule.drop_pending();
    app.apply_lut(Some(lut), MS);
    assert!(!app.schedule.is_pending(), "it is in use already");
    assert_eq!(app.told.status, "Applied Gray");
    app.apply_lut(None, MS);
    assert!(app.config.lut.is_none() && app.schedule.is_pending());
    assert_eq!(app.told.status, "LUT removed");
}

#[test]
fn presets_are_loaded_saved_and_imported() {
    let mut app = App::new(false, 0);
    let reference = Config::default();
    app.preset_loaded("/a/soft.json", Ok(reference.clone()), MS);
    assert_eq!((app.gallery_name.as_str(), &app.config), ("soft", &reference));
    assert_eq!(app.told.status, "Loaded preset /a/soft.json");
    app.preset_loaded("/a/bad.json", Err("no".into()), MS);
    assert_eq!(text(&app.told.error), "Cannot load preset: no");
    app.preset_saved("/a/soft.json", Ok(()));
    assert_eq!(app.told.status, "Saved preset /a/soft.json");
    app.preset_saved("/a/soft.json", Err("full".into()));
    assert_eq!(text(&app.told.error), "Cannot save preset: full");
    let options = Options { crf: Some(20), ..Options::default() };
    app.preset_imported("/a/b.mkv", Ok((Config::general(), Some(options))), MS);
    assert_eq!((app.video_options, app.gallery_name.as_str()), (options, "b"));
    app.preset_imported("/a/b.mkv", Err(Failure::Cancelled), MS);
    assert_eq!(app.told.status, "Preset import cancelled");
    app.preset_imported("/a/b.mkv", Err(Failure::Failed("none".into())), MS);
    assert_eq!(text(&app.told.error), "Cannot import preset: none");
}

#[test]
fn export_choices_are_used_confirmed_or_refused() {
    let mut app = App::new(false, 0);
    app.open_video_export(true);
    assert_eq!(
        app.windows.export.unwrap().format,
        ExportFormat::Video(Container::Mkv)
    );
    assert!(app.modal_open() && !app.can_start_work());
    assert!(!app.use_export_choices(None), "a batch's are for the jobs it adds");
    assert!(!app.modal_open());
    app.open_video_export(false);
    let mut draft = app.windows.export.unwrap();
    draft.choose_format(ExportFormat::Animation(AnimationFormat::Gif));
    draft.animation.fps = 50;
    app.windows.export = Some(draft);
    assert!(!app.use_export_choices(None));
    assert!(matches!(app.told.error, Some(Problem::Choice(_))));
    draft.animation.fps = 24;
    app.windows.export = Some(draft);
    assert!(!app.use_export_choices(Some(30_000_000)), "asked about first");
    assert_eq!(app.windows.export.unwrap().confirming, Some(30_000_000));
    assert!(app.use_export_choices(Some(30_000_000)));
    assert!(app.windows.dialog && app.windows.export.is_none());
    assert_eq!(app.export_format, ExportFormat::Animation(AnimationFormat::Gif));
}

fn project(source: Option<&str>) -> Project {
    Project {
        version: 1,
        source: source.map(str::to_string),
        frame: 9,
        config: Config::default(),
        options: Options::default(),
        queue: vec![],
    }
}

#[test]
fn projects_come_back_with_or_without_their_source() {
    let mut app = App::new(false, 0);
    assert!(!app.open_project("/p/a.crtsim", Ok(project(None)), false, false, MS));
    assert_eq!(app.config, Config::default());
    assert_eq!(app.told.status, "Project restored; queue paused");
    assert_eq!(app.source.input.dimensions(), test_card().dimensions());
    assert_eq!(app.projects.recent, ["/p/a.crtsim"]);
    // The source is loaded first; the rest follows it.
    app.config = Config::general();
    assert!(!app.open_project("/p/b.crtsim", Ok(project(Some("/v/c.mkv"))), true, false, MS));
    assert!(matches!(app.jobs.pop(), Some(Job::LoadVideo { frame: 9, .. })));
    assert_eq!(app.config, Config::general());
    assert!(app.session_to_save().is_none());
    loaded(&mut app, Some(Arc::new(video(10., (8, 6)))), MS);
    assert_eq!(app.config, Config::default());
    assert_eq!(app.told.status, "Project restored; queue paused");
    assert_eq!(app.projects.recent, ["/p/b.crtsim", "/p/a.crtsim"]);
    // A missing source leaves the edits, and says so.
    app.projects.recovery = Some(project(Some("/v/gone.png")));
    assert!(app.session_to_save().is_none());
    assert!(!app.recover(false, false, MS));
    assert_eq!(
        text(&app.told.error),
        "Project source is missing: /v/gone.png. Edits and queue were recovered. Use Open File \
         to relink the source."
    );
    // A project within a project is read next.
    assert!(app.restore_project(project(Some("/p/c.crtsim")), true, false, MS));
    app.open_project("/p/d.crtsim", Err(ProjectError::Version), false, false, MS);
    assert!(matches!(
        app.told.error,
        Some(Problem::Project { lead: "Cannot open project: ", fault: ProjectError::Version })
    ));
    app.project_saved("/p/a.crtsim");
    assert_eq!(app.projects.recent, ["/p/a.crtsim", "/p/b.crtsim"]);
}

#[test]
fn a_session_is_saved_when_it_changed() {
    let mut app = App::new(false, 0);
    app.source.path = Some("/a/photo.png".into());
    let session = app.session_to_save().unwrap();
    assert_eq!(session.source.as_deref(), Some("/a/photo.png"));
    assert_eq!(session.config, app.config);
    app.projects.last_saved = Some(session);
    assert!(app.session_to_save().is_none());
    app.config.bloom = single(1.);
    assert!(app.session_to_save().is_some());
}

#[test]
fn a_video_plays_from_where_it_is_at_the_previews_size() {
    let mut app = App::new(false, 0);
    assert!(!app.start_playback(), "there is no video");
    loaded(&mut app, Some(Arc::new(video(10., (8, 6)))), MS);
    app.config.output = "4k".into();
    assert!(app.start_playback());
    assert_eq!(app.told.status, "Buffering · warming CRT history…");
    assert!(!app.schedule.is_pending());
    match app.jobs.pop() {
        Some(Job::Playback { config, start, .. }) => {
            assert_eq!(config.output, "1280x720");
            assert_eq!(start, double(3. / 25.));
        }
        _ => panic!("expected the video to play"),
    }
    app.request_preview();
    assert!(app.previews.is_empty(), "what plays is the preview");
    app.changed(2 * MS);
    assert!(app.playback.is_none());
    app.config.warmup = 241;
    assert!(!app.start_playback());
    assert!(matches!(
        app.told.error,
        Some(Problem::Config { lead: "Cannot play: ", .. })
    ));
}
