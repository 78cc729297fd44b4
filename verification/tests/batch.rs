use crtsim::crt::config::Config;
use crtsim::desktop::app::{App, Chosen, Export, Job, Problem, Work};
use crtsim::desktop::batch::{Edit, Item, Queue, SavedError, Status, MAX_JOBS};
use crtsim::desktop::worker::Failure;
use crtsim::media::kind::{AnimationFormat, MediaKind};
use crtsim::media::options::Options;
use crtsim::number::Real32;
use crtsim::path::{file_name, join_paths};

const FOLDER: &str = "/exports";

fn outputs(queue: &Queue) -> Vec<String> {
    queue
        .items()
        .iter()
        .map(|item| file_name(&item.output).unwrap())
        .collect()
}

fn statuses(queue: &Queue) -> Vec<Status> {
    queue.items().iter().map(|item| item.status.copy()).collect()
}

fn sources(names: &[&str]) -> Vec<(String, MediaKind)> {
    names
        .iter()
        .map(|name| (name.to_string(), MediaKind::of(name, false)))
        .collect()
}

/// A running queue of a job for each source, exporting into a folder that holds some files.
fn queue(names: &[&str], existing: &[&str]) -> Queue {
    let mut queue = Queue::default();
    let existing = existing.iter().map(|name| join_paths(FOLDER, name)).collect();
    queue
        .add(
            &sources(names),
            FOLDER,
            &existing,
            &Config::general(),
            &Options::default(),
        )
        .unwrap();
    queue.set_running(true);
    queue
}

fn nothing() -> Vec<String> {
    vec![]
}

#[test]
fn a_job_is_named_after_its_source_and_never_over_a_file_or_another_job() {
    let queue = queue(
        &["a/clip.png", "b/clip.png", "movie.MKV", "c.gif"],
        &["clip-crt.png"],
    );
    assert_eq!(
        outputs(&queue),
        [
            "clip-crt-1.png",
            "clip-crt-2.png",
            "movie-crt.mkv",
            "c-crt.png"
        ]
    );
}

#[test]
fn a_file_is_known_however_its_path_is_written() {
    let mut queue = Queue::default();
    let add = |queue: &mut Queue, folder: &str, existing: &[&str]| {
        let existing = existing.iter().map(|path| path.to_string()).collect();
        let config = Config::general();
        queue.add(&sources(&["clip.png"]), folder, &existing, &config, &Options::default())
    };
    add(&mut queue, "/exports", &["/exports//./clip-crt.png"]).unwrap();
    add(&mut queue, "/exports//", &[]).unwrap();
    add(&mut queue, "/exports/.", &[]).unwrap();
    assert_eq!(outputs(&queue), ["clip-crt-1.png", "clip-crt.png", "clip-crt-2.png"]);
}

#[test]
fn the_queue_stops_adding_once_it_is_full() {
    let mut queue = Queue::default();
    let names: Vec<String> = (0..MAX_JOBS + 10).map(|n| format!("{n}.png")).collect();
    let names: Vec<&str> = names.iter().map(String::as_str).collect();
    let added = queue.add(
        &sources(&names),
        FOLDER,
        &nothing(),
        &Config::general(),
        &Options::default(),
    );
    assert!(added.unwrap_err().message().contains("256"));
    assert_eq!(queue.items().len(), MAX_JOBS);
}

#[test]
fn jobs_run_in_order_and_one_whose_output_appeared_fails_instead() {
    let mut queue = queue(&["first.png", "second.png", "third.png"], &[]);
    let existing = vec![join_paths(FOLDER, "first-crt.png")];
    let job = queue.next(&existing).unwrap();
    assert_eq!(file_name(&job.output).unwrap(), "second-crt.png");
    assert!(matches!(queue.items()[0].status, Status::Failed(_)));
    assert!(queue.exporting());
    assert!(queue.finished(&Ok(job.output), false));
    assert_eq!(
        file_name(&queue.next(&existing).unwrap().source).unwrap(),
        "third.png"
    );
    assert!(queue.finished(&Err(Failure::Failed("full disk".into())), false));
    assert!(queue.next(&existing).is_none());
    assert!(!queue.running(), "a queue with nothing left pauses");
    assert!(
        !queue.finished(&Ok("elsewhere.png".into()), false),
        "not one of the queue's"
    );
}

#[test]
fn cancelling_pauses_the_queue_even_when_it_came_too_late() {
    let mut queue = queue(&["first.png", "second.png", "third.png"], &[]);
    let job = queue.next(&nothing()).unwrap();
    queue.finished(&Ok(job.output), true);
    assert!(!queue.running() && queue.next(&nothing()).is_none());
    queue.set_running(true);
    queue.next(&nothing()).unwrap();
    queue.finished(&Err(Failure::Cancelled), false);
    assert!(!queue.running());
    assert_eq!(
        statuses(&queue),
        [Status::Done, Status::Cancelled, Status::Pending]
    );
}

#[test]
fn jobs_are_edited_only_while_none_exports() {
    let mut queue = queue(&["first.png", "second.png", "third.png"], &[]);
    queue.next(&nothing()).unwrap();
    queue.edit(2, Edit::Remove);
    assert_eq!(queue.items().len(), 3, "refused while the first exports");
    queue.finished(&Err(Failure::Cancelled), false);
    queue.edit(0, Edit::Retry);
    queue.edit(2, Edit::MoveUp);
    queue.edit(0, Edit::Remove);
    assert_eq!(outputs(&queue), ["third-crt.png", "second-crt.png"]);
    queue.edit(0, Edit::Retry);
    assert_eq!(
        statuses(&queue),
        [Status::Pending, Status::Pending],
        "only a failed or cancelled job is retried"
    );
}

#[test]
fn a_saved_job_is_checked_resolved_and_pending_again() {
    let root = "/tmp/projects";
    let elsewhere = "/tmp/output.png";
    let mut item = Item {
        source: "input.png".into(),
        output: elsewhere.into(),
        config: Config::default(),
        options: Options::default(),
        status: Status::Running,
    };
    item.restore(root, false).unwrap();
    assert_eq!(item.source, "/tmp/projects/input.png");
    assert_eq!(item.output, elsewhere);
    assert_eq!(item.status, Status::Pending);
    item.config.warmup = 1000;
    assert!(matches!(item.restore(root, false), Err(SavedError::Config(_))));
    item.config.warmup = 16;
    item.options.crf = Some(52);
    assert!(matches!(item.restore(root, false), Err(SavedError::Options(_))));
}

#[test]
fn a_queued_job_exports_with_its_own_settings_and_cancelling_it_pauses_the_queue() {
    let mut app = App::new(true, 0);
    app.windows.welcome = false;
    let captured = app.config.clone();
    app.queue
        .add(
            &sources(&["first.png", "second.png"]),
            FOLDER,
            &nothing(),
            &captured,
            &Options::default(),
        )
        .unwrap();
    app.config.bloom = Real32 { bits: 0 };
    app.queue.set_running(true);
    app.dispatch_queue(&nothing());
    let Some(Job::Export { export: Export::Batch { config, .. }, path }) = app.jobs.pop() else {
        panic!("Expected batch export");
    };
    assert_eq!(config, captured);
    // Asked while the file was being saved, after the last point the job checks.
    assert!(app.cancel());
    app.queue_finished(&Ok(path));
    app.work = Work::Idle;
    assert!(!app.queue.running());
    app.dispatch_queue(&nothing());
    assert!(app.jobs.is_empty(), "the second job waits to be resumed");
}

#[test]
fn a_batch_captures_what_it_was_chosen_with() {
    let mut app = App::new(false, 0);
    app.open_dialog();
    assert!(app.modal_open() && !app.dispatch_queue(&nothing()));
    let (config, options) = (app.config.clone(), app.video_options);
    assert!(!app.batch_chosen(None, &config, &options));
    assert!(!app.modal_open());
    let chosen = Chosen {
        sources: vec![
            ("/a/clip.gif".into(), MediaKind::Animation(AnimationFormat::Gif)),
            ("/a/still.webp".into(), MediaKind::Animation(AnimationFormat::Webp)),
        ],
        folder: FOLDER.into(),
        existing: vec![],
    };
    assert!(app.batch_chosen(Some(chosen), &config, &options));
    assert!(app.windows.queue);
    assert_eq!(outputs(&app.queue), ["clip-crt.mkv", "still-crt.png"]);
    // More than fits stops with an error, and what fits stays.
    let many = Chosen {
        sources: (0..300).map(|n| (format!("{n}.png"), MediaKind::Still)).collect(),
        folder: FOLDER.into(),
        existing: vec![],
    };
    app.batch_chosen(Some(many), &config, &options);
    assert_eq!(app.queue.items().len(), MAX_JOBS);
    assert!(matches!(&app.told.error, Some(Problem::Text(e)) if e.contains("256")));
    app.toggle_queue();
    assert!(app.queue.running());
    // The queue waits for the last session to be recovered or not.
    assert!(app.dispatch_queue(&nothing()));
    assert_eq!(app.told.status, "Batch export /a/clip.gif");
}
