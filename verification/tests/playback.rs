use crtsim::crt::picture::Picture;
use crtsim::desktop::playback::{Arrival, Playback, PlaybackFrame, Status, Tick};
use crtsim::media::probe::{Source, Video};
use crtsim::number::Real64;

const MS: u64 = 1_000_000;

fn double(x: f64) -> Real64 {
    Real64 { bits: x.to_bits() }
}

/// A video of `duration` seconds at 25 frames per second.
fn video(duration: f64, size: (u32, u32)) -> Video {
    Video {
        metadata: vec![],
        tracks: vec![],
        start: double(0.),
        path: "clip.mkv".into(),
        size,
        fps: double(25.),
        rate: "25/1".into(),
        duration: double(duration),
        audio: false,
        audio_offset: double(0.),
        hdr: false,
        stream: 0,
        frames: None,
        source: Source::Ffmpeg,
    }
}

fn frame(time: f64) -> Arrival {
    let empty = Picture { width: 4, height: 4, pixels: vec![0; 64] };
    Arrival::Frame(PlaybackFrame {
        time: double(time),
        source: empty.clone(),
        crt: empty,
    })
}

fn shown(tick: &Tick) -> Option<f64> {
    tick.frame.as_ref().map(|frame| f64::from_bits(frame.time.bits))
}

#[test]
fn it_buffers_before_it_starts_and_shows_each_frame_when_it_is_due() {
    let (mut playback, _) = Playback::new(&video(10., (4, 4)), double(0.), (4, 4));
    let mut feed = vec![];
    let start = 5_000 * MS;
    feed.push(frame(0.));
    let tick = playback.tick(&mut feed, start);
    assert!(
        tick.frame.is_none() && tick.status.is_none(),
        "still buffering"
    );
    feed.push(frame(0.04));
    feed.push(frame(0.08));
    let tick = playback.tick(&mut feed, start);
    assert_eq!(
        (tick.status, shown(&tick)),
        (Some(Status::Playing), Some(0.))
    );
    assert_eq!(
        shown(&playback.tick(&mut feed, start + 20 * MS)),
        None,
        "not due yet"
    );
    assert_eq!(shown(&playback.tick(&mut feed, start + 40 * MS)), Some(0.04));
    feed.push(frame(0.12));
    assert_eq!(
        shown(&playback.tick(&mut feed, start + 130 * MS)),
        Some(0.12),
        "an overdue frame is skipped"
    );
}

#[test]
fn it_waits_when_the_renderer_falls_behind_and_resumes_from_the_next_frame() {
    let (mut playback, _) = Playback::new(&video(10., (4, 4)), double(0.), (4, 4));
    let mut feed = vec![];
    let start = 5_000 * MS;
    for time in [0., 0.04, 0.08] {
        feed.push(frame(time));
    }
    playback.tick(&mut feed, start);
    assert_eq!(
        shown(&playback.tick(&mut feed, start + 100 * MS)),
        Some(0.08)
    );
    // A frame past the one shown and still nothing from the renderer.
    let tick = playback.tick(&mut feed, start + 130 * MS);
    assert_eq!(tick.status, Some(Status::CatchingUp));
    assert!(playback.tick(&mut feed, start + 500 * MS).status.is_none());
    for time in [0.12, 0.16, 0.2] {
        feed.push(frame(time));
    }
    let tick = playback.tick(&mut feed, start + 600 * MS);
    assert_eq!(
        (tick.status, shown(&tick)),
        (Some(Status::Playing), Some(0.12))
    );
}

#[test]
fn frames_before_an_error_still_play_and_then_it_finishes() {
    let (mut playback, _) = Playback::new(&video(10., (4, 4)), double(0.), (4, 4));
    let mut feed = vec![];
    let start = 5_000 * MS;
    feed.push(frame(0.));
    feed.push(frame(0.04));
    feed.push(Arrival::Failed("driver failed".into()));
    let tick = playback.tick(&mut feed, start);
    assert_eq!(tick.error.as_deref(), Some("driver failed"));
    assert_eq!(
        (tick.status, shown(&tick)),
        (Some(Status::Playing), Some(0.))
    );
    let tick = playback.tick(&mut feed, start + 40 * MS);
    assert_eq!(
        (tick.status, shown(&tick)),
        (Some(Status::Finished), Some(0.04))
    );
}

#[test]
fn it_starts_over_from_the_last_frame_and_buffers_less_of_larger_frames() {
    let clip = video(2., (4, 4));
    let start = |position: f64| {
        f64::from_bits(Playback::new(&clip, double(position), (4, 4)).1.bits)
    };
    assert_eq!(start(1.), 1.);
    assert_eq!(start(2. - 1. / 25.), 0.);
    // A 4K source and picture fill the buffer on their own, so one frame starts the clock.
    let large = video(2., (3840, 2160));
    let (mut playback, _) = Playback::new(&large, double(0.), (3840, 2160));
    let mut feed = vec![frame(0.)];
    assert_eq!(playback.tick(&mut feed, MS).status, Some(Status::Playing));
}

#[test]
fn a_full_buffer_leaves_what_arrives_where_it_is() {
    let large = video(2., (3840, 2160));
    let (mut playback, _) = Playback::new(&large, double(0.), (3840, 2160));
    assert_eq!(playback.room(), 1);
    let mut feed = vec![frame(0.), frame(0.04), frame(0.08)];
    let tick = playback.tick(&mut feed, MS);
    assert_eq!((shown(&tick), feed.len()), (Some(0.), 2));
    assert_eq!(Status::CatchingUp.text(), "Buffering · renderer is catching up…");
}
