use crtsim::desktop::schedule::{Change, Due, Schedule, SETTLE};

const MS: u64 = 1_000_000;

#[test]
fn an_edit_is_previewed_once_it_settles_and_only_with_live_preview() {
    let start = 5_000 * MS;
    let mut schedule = Schedule::new(start);
    let edited = start + SETTLE * 2;
    schedule.changed(Change::Edit, edited);
    assert_eq!(schedule.due(edited + SETTLE - MS, false), Due::Nothing);
    assert!(schedule.needs_frames(edited + SETTLE - MS));
    assert_eq!(
        schedule.due(edited + SETTLE, true),
        Due::Nothing,
        "a held pointer is still editing"
    );
    assert_eq!(schedule.due(edited + SETTLE, false), Due::Preview);
    schedule.set_live(false);
    assert_eq!(schedule.due(edited + SETTLE, false), Due::Commit);
    assert!(
        !schedule.needs_frames(edited + SETTLE),
        "without live preview, a settled edit waits for Refresh without drawing"
    );
}

#[test]
fn an_audition_is_previewed_even_without_live_preview_and_edits_do_not_undo_that() {
    let start = 5_000 * MS;
    let mut schedule = Schedule::new(start);
    schedule.set_live(false);
    schedule.changed(Change::Audition, start);
    schedule.changed(Change::Edit, start);
    assert_eq!(schedule.due(start + SETTLE, false), Due::Preview);
    assert!(schedule.needs_frames(start + SETTLE));
    schedule.take();
    schedule.changed(Change::Edit, start);
    assert_eq!(
        schedule.due(start + SETTLE, false),
        Due::Commit,
        "once previewed, the audition asks for nothing more"
    );
}

#[test]
fn one_preview_at_a_time_and_a_late_one_is_never_current() {
    let start = 5_000 * MS;
    let mut schedule = Schedule::new(start);
    let first = schedule.take().unwrap();
    assert!(schedule.rendering() && schedule.needs_frames(start + SETTLE));
    assert_eq!(schedule.due(start + SETTLE, false), Due::Nothing);
    schedule.changed(Change::Edit, start);
    assert_eq!(schedule.take(), None, "the first is still rendering");
    assert!(!schedule.returned(first), "the settings changed since");
    assert!(!schedule.rendering() && !schedule.is_current());
    assert_eq!(
        schedule.due(start + SETTLE, false),
        Due::Preview,
        "the change waited for it"
    );
    let second = schedule.take().unwrap();
    assert!(schedule.returned(second));
    schedule.show_current();
    assert!(schedule.is_current());
    schedule.changed(Change::Edit, start);
    assert!(
        !schedule.is_current(),
        "out of date as soon as anything changes"
    );
}

#[test]
fn dropping_the_pending_change_leaves_a_preview_on_its_way_and_stopping_does_not() {
    let start = 5_000 * MS;
    let mut schedule = Schedule::new(start);
    schedule.take();
    schedule.changed(Change::Audition, start);
    schedule.drop_pending();
    assert_eq!(schedule.due(start + SETTLE, false), Due::Nothing);
    assert!(schedule.rendering());
    schedule.changed(Change::Edit, start);
    schedule.stop();
    assert_eq!(schedule.due(start + SETTLE, false), Due::Nothing);
    assert!(!schedule.rendering() && !schedule.needs_frames(start));
}

/// A clock that has gone back by nothing is not settled, and one long past is.
#[test]
fn a_change_settles_after_its_time_only() {
    let schedule = Schedule::new(1_000 * MS);
    assert_eq!(schedule.due(0, false), Due::Nothing);
    assert_eq!(schedule.due(1_000 * MS + SETTLE - 1, false), Due::Nothing);
    assert_eq!(schedule.due(1_000 * MS + SETTLE, false), Due::Preview);
    assert_eq!(schedule.due(u64::MAX, false), Due::Preview);
    assert_eq!(SETTLE, 180 * MS);
}
