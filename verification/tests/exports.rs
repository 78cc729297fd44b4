use crtsim::crt::config::Config;
use crtsim::media::args::{Arg, Args};
use crtsim::media::decode::{playback_frame, preroll, preview, preview_frame};
use crtsim::media::export::{
    check_cancel, decoded, encoders_args, extend_log, pipeline, require_encoder, AnimationExport,
    AnimationNext, AnimationStep, Came, Export, Next, Outcome, Rendered, Step, Work,
    Stop, LOG_LIMIT,
};
use crtsim::media::kind::{AnimationFormat, Container};
use crtsim::media::metadata::{check_preset, find_preset, preservation_notes, PresetError};
use crtsim::media::options::{
    Audio, Encoder, EncodingSpeed, Options, OptionsError, Quality, Timing,
};
use crtsim::media::plan::{render_config, ExportPlan, PlanError, Rate};
use crtsim::media::probe::{
    comment_args, count_args, frame_count, known_frames, probe_args, rate, CountError, ProbeError,
    Source, Track, TrackKind, Video,
};
use crtsim::number::{Real32, Real64};
use std::io::Read;

fn double(x: f64) -> Real64 {
    Real64 { bits: x.to_bits() }
}

fn number(x: Real64) -> f64 {
    f64::from_bits(x.bits)
}

/// A 64×48 source at NTSC's rate holding these tracks, each a kind, a codec and how far it
/// starts after the video, numbered from 1 after the video's own.
fn video(tracks: &[(TrackKind, &str, f64)]) -> Video {
    Video {
        metadata: vec![],
        tracks: tracks
            .iter()
            .enumerate()
            .map(|(index, &(kind, codec, offset))| Track {
                index: index as u64 + 1,
                kind,
                codec: codec.into(),
                offset: double(offset),
            })
            .collect(),
        start: double(0.),
        path: "source.mkv".into(),
        size: (64, 48),
        fps: double(30000. / 1001.),
        rate: "30000/1001".into(),
        duration: double(1.),
        audio: tracks.iter().any(|track| track.0 == TrackKind::Audio),
        audio_offset: double(0.),
        hdr: false,
        stream: 0,
        frames: None,
        source: Source::Ffmpeg,
    }
}

fn config() -> Config {
    Config {
        output: "64x48".into(),
        ..Config::default()
    }
}

fn decayed(c: &Config, fps: f64) -> [Real32; 3] {
    c.persistence.map(|w| Real32 {
        bits: f32::from_bits(w.bits).powf((60. / fps) as f32).to_bits(),
    })
}

fn planned<'a>(
    source: &'a Video,
    output: &str,
    config: &'a Config,
    options: &'a Options,
) -> Result<ExportPlan<'a>, PlanError> {
    let fps = number(Rate::of(source, options).fps);
    ExportPlan::new(source, output, config, options, decayed(config, fps))
}

fn args(cmd: &Args) -> Vec<String> {
    cmd.list
        .iter()
        .map(|arg| match arg {
            Arg::Text(text) => text.clone(),
            Arg::Number(n) => number(*n).to_string(),
            Arg::Around(before, n, after) => format!("{before}{}{after}", number(*n)),
        })
        .collect()
}

/// Every value given after `flag`.
fn values(args: &[String], flag: &str) -> Vec<String> {
    args.windows(2)
        .filter(|pair| pair[0] == flag)
        .map(|pair| pair[1].clone())
        .collect()
}

fn mux(plan: &ExportPlan, copy_audio: bool) -> Vec<String> {
    args(&plan.mux("video.tmp", "preset.ffmeta", "out.tmp", 30, copy_audio))
}

const TRACKS: &[(TrackKind, &str, f64)] = &[
    (TrackKind::Audio, "pcm_s16le", 0.),
    (TrackKind::Audio, "aac", 0.12),
    (TrackKind::Subtitle, "subrip", 0.),
    (TrackKind::Subtitle, "hdmv_pgs_subtitle", 0.),
    (TrackKind::Attachment, "ttf", 0.),
    (TrackKind::Data, "bin_data", 0.),
];

#[test]
fn each_container_keeps_the_tracks_it_can_hold() {
    let source = video(TRACKS);
    let options = Options::default();
    let config = config();
    let plan = |name: &str| planned(&source, name, &config, &options);

    let mkv = mux(&plan("out.MKV").unwrap(), false);
    assert_eq!(values(&mkv, "-f").last().unwrap(), "matroska");
    assert_eq!(values(&mkv, "-c:a"), ["aac"]);
    // Every subtitle is copied, and attachments come along.
    assert_eq!(
        values(&mkv, "-map"),
        ["0:v:0", "1:a?", "1:3", "1:4", "1:t?"]
    );
    assert_eq!(values(&mkv, "-c:s:0"), ["copy"]);
    assert_eq!(values(&mkv, "-c:s:1"), ["copy"]);
    assert!(!mkv.contains(&"-movflags".to_string()));

    let mp4 = mux(&plan("out.mp4").unwrap(), false);
    assert_eq!(values(&mp4, "-f").last().unwrap(), "mp4");
    assert_eq!(values(&mp4, "-movflags"), ["+faststart+use_metadata_tags"]);
    // Only the text subtitle fits, converted; no attachments.
    assert_eq!(values(&mp4, "-map"), ["0:v:0", "1:a?", "1:3"]);
    assert_eq!(values(&mp4, "-c:s:0"), ["mov_text"]);

    let webm = mux(&plan("out.webm").unwrap(), false);
    assert_eq!(values(&webm, "-f").last().unwrap(), "webm");
    assert_eq!(values(&webm, "-c:a"), ["libopus"]);
    assert_eq!(values(&webm, "-c:s:0"), ["webvtt"]);

    let notes = |container| preservation_notes(&source, container);
    assert_eq!(notes(Container::Mkv), ["Data track 6 is not copied."]);
    assert_eq!(
        notes(Container::Mp4),
        [
            "Subtitle 4 (hdmv_pgs_subtitle) cannot be stored in mp4; use MKV to preserve it.",
            "Attachment 5 is preserved only in MKV.",
            "Data track 6 is not copied.",
        ]
    );
}

#[test]
fn an_animation_is_muxed_without_reading_its_file_again() {
    let mut source = video(&[]);
    source.source = Source::Animated {
        format: AnimationFormat::Gif,
        delays: [100, 100].into(),
    };
    let config = config();
    let options = Options::default();
    let plan = planned(&source, "out.mkv", &config, &options).unwrap();
    let args = mux(&plan, true);
    assert_eq!(values(&args, "-i"), ["video.tmp", "preset.ffmeta"]);
    assert_eq!(values(&args, "-map"), ["0:v:0"]);
    assert_eq!(values(&args, "-map_metadata"), ["1"]);
    assert_eq!(values(&args, "-map_chapters"), ["-1"]);
}

#[test]
fn audio_is_moved_to_line_up_and_copied_only_when_it_already_does() {
    let config = config();
    let options = Options::default();
    let late = video(&[
        (TrackKind::Audio, "aac", 0.),
        (TrackKind::Audio, "aac", 0.12),
        (TrackKind::Audio, "aac", -0.05),
    ]);
    let plan = planned(&late, "out.mp4", &config, &options).unwrap();
    assert!(!plan.copies_audio());
    let args = mux(&plan, false);
    assert_eq!(
        values(&args, "-filter:a:0"),
        ["asetpts=PTS-STARTPTS,adelay=0:all=1"]
    );
    assert_eq!(
        values(&args, "-filter:a:1"),
        ["asetpts=PTS-STARTPTS,adelay=120:all=1"]
    );
    assert_eq!(
        values(&args, "-filter:a:2"),
        ["atrim=start=0.05,asetpts=PTS-STARTPTS"]
    );

    let aligned = video(&[(TrackKind::Audio, "aac", 0.001)]);
    let plan = planned(&aligned, "out.mp4", &config, &options).unwrap();
    assert!(plan.copies_audio());
    let args = mux(&plan, true);
    assert_eq!(values(&args, "-c:a"), ["copy"]);
    assert!(values(&args, "-filter:a:0").is_empty());
    let encode = Options {
        audio: Audio::Encode,
        ..Options::default()
    };
    let plan = planned(&aligned, "out.mp4", &config, &encode).unwrap();
    assert!(!plan.copies_audio());
}

#[test]
fn muted_or_trimmed_exports_map_only_what_they_keep() {
    let source = video(TRACKS);
    let config = config();
    let mute = Options {
        audio: Audio::Mute,
        ..Options::default()
    };
    let plan = planned(&source, "out.mkv", &config, &mute).unwrap();
    assert!(!mux(&plan, false).iter().any(|arg| arg.starts_with("1:a")));

    let trimmed = Options {
        preserve_streams: false,
        ..Options::default()
    };
    let plan = planned(&source, "out.mkv", &config, &trimmed).unwrap();
    let args = mux(&plan, false);
    assert_eq!(values(&args, "-map"), ["0:v:0", "1:a:0"]);
    assert_eq!(values(&args, "-map_chapters"), ["-1"]);
    assert_eq!(values(&args, "-filter:a:0").len(), 1);
    assert!(values(&args, "-filter:a:1").is_empty());
    // Cut to the 30 frames encoded, at 30000/1001.
    let duration: f64 = values(&args, "-t")[0].parse().unwrap();
    assert!((duration - 1.001).abs() < 1e-9);
}

#[test]
fn rate_control_follows_quality_speed_and_encoder() {
    let source = video(&[]);
    let rate_control = |output: &str, size: &str, options: Options| {
        let config = Config {
            output: size.into(),
            ..Config::default()
        };
        let plan = planned(&source, output, &config, &options).unwrap();
        let args = args(&plan.encode("video.tmp"));
        ["-crf", "-preset", "-cpu-used", "-b:v"]
            .map(|flag| values(&args, flag).join(" "))
            .to_vec()
    };
    let draft = Options {
        quality: Quality::Draft,
        ..Options::default()
    };
    assert_eq!(
        rate_control("a.mp4", "64x48", draft),
        ["26", "veryfast", "", ""]
    );
    let slow = Options {
        speed: Some(EncodingSpeed::Slow),
        ..Options::default()
    };
    assert_eq!(rate_control("a.webm", "64x48", slow), ["24", "", "1", "0"]);
    // Hardware: the profile's 1080p30 rate, scaled to the size and rate and kept in range.
    let hardware = |quality, bitrate_mbps| Options {
        encoder: Encoder::Nvenc,
        quality,
        bitrate_mbps,
        ..Options::default()
    };
    let b_v = |size, options| rate_control("a.mp4", size, options)[3].clone();
    assert_eq!(
        b_v("1920x1080", hardware(Quality::Balanced, None)),
        "11988k"
    );
    assert_eq!(
        b_v("3840x2160", hardware(Quality::Archival, None)),
        "159840k"
    );
    assert_eq!(b_v("64x48", hardware(Quality::High, None)), "2000k");
    assert_eq!(b_v("64x48", hardware(Quality::High, Some(16))), "16000k");
}

#[test]
fn exports_that_cannot_be_encoded_are_refused_before_starting() {
    let source = video(&[]);
    let options = Options::default();
    let refused = |output: &str, size: &str, options: &Options| {
        let config = Config {
            output: size.into(),
            ..Config::default()
        };
        planned(&source, output, &config, options)
            .err()
            .map(|error| error.message().unwrap())
    };
    assert!(refused("a.mp4", "64x48", &options).is_none());
    assert!(refused("a.mp4", "65x48", &options)
        .unwrap()
        .contains("even"));
    assert!(refused("a.mov", "64x48", &options)
        .unwrap()
        .contains("MP4, MKV or WebM"));
    let hardware = Options {
        encoder: Encoder::Qsv,
        ..Options::default()
    };
    assert!(refused("a.webm", "64x48", &hardware)
        .unwrap()
        .contains("VP9"));
}

/// Metadata as FFmpeg reads it back: a backslash keeps the character after it as it is.
fn unescape(text: &str) -> String {
    let mut chars = text.chars();
    let mut plain = String::new();
    while let Some(c) = chars.next() {
        plain.push(if c == '\\' {
            chars.next().unwrap_or(c)
        } else {
            c
        });
    }
    plain
}

/// What `ffprobe` reports of a file with a comment.
fn report(key: &str, comment: &str) -> Vec<u8> {
    let comment = serde_json::Value::String(comment.into());
    format!("{{\"format\":{{\"tags\":{{\"{key}\":{comment}}}}}}}").into_bytes()
}

#[test]
fn ntsc_timing_encodes_at_60_and_the_file_keeps_the_settings_as_chosen() {
    let source = video(&[]);
    let config = config();
    let options = Options {
        timing: Timing::Ntsc60,
        ..Options::default()
    };
    let plan = planned(&source, "a.mkv", &config, &options).unwrap();
    assert_eq!(values(&args(&plan.encode("v")), "-r"), ["60/1"]);
    assert_eq!(number(plan.duration(30)), 0.5);
    let stable = Options::default();
    let plan = planned(&source, "a.mkv", &config, &stable).unwrap();
    assert_eq!(values(&args(&plan.encode("v")), "-r"), ["30000/1001"]);
    // Rendering uses decay adjusted to the rate; the file records the settings chosen.
    assert_ne!(plan.render.persistence, config.persistence);
    let chosen = r#"{"version":1,"config":{"output":"64x48"},"video_options":{}}"#;
    let metadata = plan.metadata(chosen).unwrap();
    let comment = metadata.lines().last().unwrap().strip_prefix("comment=");
    let kept = find_preset(&report("comment", &unescape(comment.unwrap()))).unwrap();
    assert_eq!(kept, chosen);
}

#[test]
fn metadata_keeps_the_source_tags_escaped_but_not_an_older_preset() {
    let mut source = video(&[]);
    source.metadata = [
        ("COMMENT", "Keep this comment"),
        ("comment", "CRTSim-Renderer-Preset:{\"old\":true}"),
        ("title", "A=B; C#D\\E\r\nF"),
    ]
    .map(|(key, value)| (key.to_string(), value.to_string()))
    .into();
    let config = config();
    let options = Options::default();
    let plan = planned(&source, "a.mkv", &config, &options).unwrap();
    let metadata = plan.metadata("{}").unwrap();
    let lines: Vec<&str> = metadata.lines().collect();
    assert_eq!(
        lines[..3],
        [
            ";FFMETADATA1",
            "source_comment=Keep this comment",
            "title=A\\=B\\; C\\#D\\\\E\\"
        ]
    );
    assert_eq!(lines[3], "F");
    assert!(lines[4].starts_with("comment=CRTSim-Renderer-Preset:"));
    assert_eq!(lines.len(), 5);

    let trimmed = Options {
        preserve_streams: false,
        ..Options::default()
    };
    let plan = planned(&source, "a.mkv", &config, &trimmed).unwrap();
    assert_eq!(plan.metadata("{}").unwrap().lines().count(), 2);
}

#[test]
fn rates_and_duration_validation() {
    let read = |text: &str| rate(text).map(number);
    assert_eq!(read("60000/1001"), Some(60000. / 1001.));
    assert_eq!(read("0/0"), None);
    assert_eq!(read("30/0"), None);
    let probe = |more: &str, duration: &str| {
        let report = format!(
            r#"{{"streams": [{{"index":0,"codec_type":"video","width":720,"height":480,"sample_aspect_ratio":"8:9","avg_frame_rate":"30000/1001","duration":"{duration}","side_data_list":[{{"rotation":90}}]{more}}}]}}"#
        );
        crtsim::media::probe::probe("x.mkv".into(), report.as_bytes())
    };
    let info = probe("", "1.0").unwrap();
    assert_eq!(info.size, (480, 640));
    assert_eq!(info.frames, None);
    assert_eq!(
        probe(r#","nb_frames":"42""#, "1.0").unwrap().frames,
        Some(42)
    );
    assert!(probe(r#","nb_frames":"42""#, "NaN").is_err());
}

#[test]
fn refused_files_say_why() {
    let probe = |report: &str| crtsim::media::probe::probe("x".into(), report.as_bytes()).unwrap_err();
    assert_eq!(probe("{"), ProbeError::Unreadable);
    assert_eq!(probe("{}"), ProbeError::NoStreams);
    assert_eq!(probe(r#"{"streams":[]}"#), ProbeError::NoVideo);
    assert_eq!(
        probe(r#"{"streams":[{"codec_type":"video"}]}"#),
        ProbeError::NoWidth
    );
    let count = |report: &str| frame_count(report.as_bytes());
    assert_eq!(count(r#"{"streams":[{"nb_read_frames":"7"}]}"#), Ok(7));
    assert_eq!(count("{"), Err(CountError::Unreadable));
    assert_eq!(count("{}"), Err(CountError::Uncounted));
}

#[test]
fn persistence_uses_media_time() {
    let config = Config::default();
    let at30 = render_config(&config, Timing::Stable, decayed(&config, 30.));
    let at60 = render_config(&config, Timing::Stable, decayed(&config, 60.));
    let first = |c: &Config| f32::from_bits(c.persistence[0].bits);
    assert!((first(&at30) - first(&at60).powi(2)).abs() < 0.00001);
    let disabled = render_config(&config, Timing::Disabled, decayed(&config, 30.));
    assert_eq!(disabled.persistence, [Real32 { bits: 0 }; 3]);
}

#[test]
fn export_overrides_are_checked() {
    let legacy = Options::default();
    assert_eq!((legacy.timing, legacy.audio), (Timing::Stable, Audio::Auto));
    assert_eq!(legacy.effective_crf(Container::Mp4), 18);
    assert_eq!(legacy.effective_crf(Container::Webm), 24);
    assert!(legacy.validate().is_ok());
    let custom = Options {
        crf: Some(21),
        bitrate_mbps: Some(16),
        speed: Some(EncodingSpeed::Slow),
        ..Options::default()
    };
    assert_eq!(custom.effective_crf(Container::Webm), 21);
    assert_eq!(Options { crf: Some(52), ..custom }.validate(), Err(OptionsError::Crf));
    assert_eq!(
        Options { bitrate_mbps: Some(0), ..custom }.validate(),
        Err(OptionsError::Bitrate)
    );
}

#[test]
fn metadata_rejects_unknown_versions_invalid_settings_and_unrelated_comments() {
    // The settings a comment holds: their version and output are what these differ in.
    let parse = |report: &[u8]| -> Option<Result<(), PresetError>> {
        let data: serde_json::Value = serde_json::from_str(&find_preset(report)?).ok()?;
        let config = Config {
            output: data["config"]["output"].as_str()?.into(),
            ..Config::default()
        };
        let version = data["version"].as_u64()? as u32;
        Some(check_preset(version, &config, &Options::default(), (64, 48)))
    };
    let tagged = |version: u32, output: &str| {
        let data = format!(r#"{{"version":{version},"config":{{"output":"{output}"}}}}"#);
        report("COMMENT", &format!("CRTSim-Renderer-Preset:{data}"))
    };
    assert!(matches!(parse(&tagged(1, "reference")), Some(Ok(()))));
    assert!(matches!(parse(&tagged(2, "reference")), Some(Err(PresetError::Version))));
    assert!(matches!(parse(&tagged(1, "0x0")), Some(Err(PresetError::Config(_)))));
    assert!(parse(&report("comment", "ordinary comment")).is_none());
}

#[test]
fn an_export_goes_through_its_steps_or_says_why_not() {
    let export = Export { hardware: true, copies_audio: true };
    assert!(matches!(export.begin(false), Next::Go(Step::Encoders)));
    assert!(matches!(export.begin(true), Next::Stopped(Stop::Cancelled)));
    let after = |step, outcome| export.after(step, outcome, false);
    assert!(matches!(after(Step::Encoders, Outcome::Done), Next::Go(Step::Hardware)));
    assert!(matches!(after(Step::Encoders, Outcome::Failed), Next::Stopped(Stop::NoEncoder)));
    // Audio that cannot be copied is encoded instead; then nothing is left to try.
    let copying = Step::Mux { copy_audio: true };
    let encoding = Step::Mux { copy_audio: false };
    assert!(matches!(
        after(copying, Outcome::Failed),
        Next::Go(Step::Mux { copy_audio: false })
    ));
    assert!(matches!(after(encoding, Outcome::Failed), Next::Stopped(Stop::BothMuxes)));
    assert!(matches!(after(encoding, Outcome::Done), Next::Go(Step::Publish)));
    assert!(matches!(after(Step::Publish, Outcome::Done), Next::Finished));
    assert!(matches!(
        export.after(encoding, Outcome::Done, true),
        Next::Stopped(Stop::Cancelled)
    ));
    assert!(matches!(pipeline(Rendered::All, true, 40), Outcome::Encoded(40)));
    assert!(matches!(pipeline(Rendered::NotTaken, false, 3), Outcome::WriteFailed));
    assert!(matches!(pipeline(Rendered::Failed, true, 3), Outcome::Failed));
    assert!(check_cancel(false).is_ok());
    assert!(check_cancel(true).unwrap_err().message().contains("cancel"));
}

#[test]
fn encoders_are_found_by_their_name_alone() {
    let listing = "Encoders:\n V..... libx264    H.264\n V....D libvpx-vp9 VP9\n";
    assert!(require_encoder(listing, "libx264"));
    assert!(require_encoder(listing, "libvpx-vp9"));
    assert!(!require_encoder(listing, "H.264"));
    let mut log = vec![];
    extend_log(&mut log, &[1; LOG_LIMIT]);
    extend_log(&mut log, &[2; 10]);
    assert_eq!(log.len(), LOG_LIMIT);
    assert_eq!((log[0], *log.last().unwrap()), (1, 2), "the end of the log is kept");
}

#[test]
fn frames_are_decoded_where_they_are() {
    let source = video(&[]);
    assert_eq!(number(source.frame_time(3)), 3. / (30000. / 1001.));
    assert_eq!(number(source.frame_time(30)), 1., "none is past the end");
    assert!(preview(&source, double(0.5)).is_ok());
    assert!(preview(&source, double(1.)).is_err());
    assert!(args(&preview_frame(&source, 3)).iter().any(|arg| arg.contains('3')));
    assert_eq!(number(preroll(double(0.05))), 0.);
    assert_eq!(number(preroll(double(5.))), 5. - 0.2);
    // Frames before the start only warm the history.
    assert!(!playback_frame(double(1.), double(25.), 0).1);
    assert!(playback_frame(double(0.), double(25.), 0).1);
}

#[test]
fn an_animations_export_goes_through_its_steps_or_says_why_not() {
    let export = AnimationExport { passes: 2 };
    let go = |next: AnimationNext| match next {
        AnimationNext::Go(step) => step,
        other => panic!("{other:?}"),
    };
    let mut steps = vec![go(export.begin(false))];
    loop {
        let outcome = match steps.last() {
            Some(AnimationStep::Frames) => Outcome::Encoded(7),
            _ => Outcome::Done,
        };
        match export.after(*steps.last().unwrap(), outcome, false) {
            AnimationNext::Finished => break,
            next => steps.push(go(next)),
        }
    }
    assert_eq!(
        steps,
        [
            AnimationStep::Encoders,
            AnimationStep::Output,
            AnimationStep::Frames,
            AnimationStep::Decoder { frames: 7 },
            AnimationStep::Encoder,
            AnimationStep::Pass { index: 0 },
            AnimationStep::Pass { index: 1 },
            AnimationStep::Publish,
        ]
    );
    let stops = |step, outcome, cancel| match export.after(step, outcome, cancel) {
        AnimationNext::Stopped(stop) => stop,
        other => panic!("{other:?}"),
    };
    assert!(matches!(export.begin(true), AnimationNext::Stopped(Stop::Cancelled)));
    assert_eq!(stops(AnimationStep::Encoders, Outcome::Failed, false), Stop::NoEncoder);
    assert_eq!(stops(AnimationStep::Output, Outcome::Failed, false), Stop::SameFile);
    assert_eq!(stops(AnimationStep::Frames, Outcome::WriteFailed, false), Stop::Write);
    assert_eq!(stops(AnimationStep::Frames, Outcome::Failed, false), Stop::Stage);
    let none = AnimationStep::Decoder { frames: 0 };
    assert_eq!(stops(none, Outcome::Done, false).message(), Some("No frames decoded"));
    assert_eq!(stops(AnimationStep::Encoder, Outcome::Done, true), Stop::Cancelled);
    assert_eq!(stops(AnimationStep::Pass { index: 0 }, Outcome::Failed, false), Stop::Process);
    assert_eq!(stops(AnimationStep::Publish, Outcome::Failed, false), Stop::Publish);
    let plain = AnimationExport { passes: 0 };
    assert_eq!(
        plain.after(AnimationStep::Encoder, Outcome::Done, false),
        AnimationNext::Go(AnimationStep::Publish)
    );
}

/// `count` 2x2 frames, each filled with its own index.
fn numbered_frames(count: u8) -> Vec<u8> {
    (0..count).flat_map(|i| [i; 16]).collect()
}

/// Reads frames of sixteen bytes, renders and writes them, one at a time.
fn run(
    bytes: &[u8],
    mut render: impl FnMut(&[u8], u64) -> Option<Vec<u8>>,
    mut write: impl FnMut(&[u8]) -> bool,
    mut cancelled: impl FnMut() -> bool,
) -> Outcome {
    let mut stream = std::io::Cursor::new(bytes);
    let (mut input, mut output) = (vec![], vec![]);
    let mut work = Work::Receive { done: 0 };
    let mut written = true;
    loop {
        let came = match work {
            Work::Receive { .. } => {
                let mut frame = [0; 16];
                let first = stream.read(&mut frame[..1]).ok();
                let rest = stream.read_exact(&mut frame[1..]).is_ok();
                input = frame.to_vec();
                decoded(first, rest)
            }
            Work::Render { frame } => match render(&input, frame) {
                Some(picture) => {
                    output = picture;
                    Came::Frame
                }
                None => Came::Failed,
            },
            Work::Write { .. } => {
                written = write(&output);
                if written {
                    Came::Frame
                } else {
                    Came::Failed
                }
            }
            Work::Stop { rendered, done } => return pipeline(rendered, written, done),
        };
        work = work.after(came, cancelled());
    }
}

#[test]
fn pipeline_keeps_frame_order_and_counts_what_it_encodes() {
    let mut encoded: Vec<u8> = vec![];
    let mut seen = vec![];
    let outcome = run(
        &numbered_frames(40),
        |frame, count| {
            seen.push(count);
            Some(frame.to_vec())
        },
        |bytes| {
            encoded.extend(bytes);
            true
        },
        || false,
    );
    assert!(matches!(outcome, Outcome::Encoded(40)));
    assert_eq!(seen, (1..=40).collect::<Vec<_>>());
    assert_eq!(encoded, numbered_frames(40));
}

#[test]
fn pipeline_reports_each_way_it_can_stop() {
    let identity = |frame: &[u8], _: u64| Some(frame.to_vec());
    let mut truncated = numbered_frames(3);
    truncated.pop();
    let mut written = 0;
    let count = |_: &[u8]| {
        written += 1;
        true
    };
    assert!(matches!(run(&truncated, identity, count, || false), Outcome::Failed));
    assert_eq!(written, 2, "a truncated frame must fail");
    let mut written = 0;
    let count = |_: &[u8]| {
        written += 1;
        true
    };
    let failing = |_: &[u8], count: u64| if count < 3 { Some(vec![0; 16]) } else { None };
    assert!(matches!(run(&numbered_frames(5), failing, count, || false), Outcome::Failed));
    assert_eq!(written, 2, "a render error must stop the pipeline");
    let closed = run(&numbered_frames(50), identity, |_| false, || false);
    assert!(matches!(closed, Outcome::WriteFailed));
    let refused = |_: &[u8]| -> bool { panic!("cancellation must stop the pipeline") };
    assert!(matches!(run(&numbered_frames(5), identity, refused, || true), Outcome::Failed));
    // Cancelled once the second frame is rendered, which is then not written.
    let (mut written, mut asked) = (0, 0);
    let outcome = run(
        &numbered_frames(5),
        identity,
        |_| {
            written += 1;
            true
        },
        || {
            asked += 1;
            asked == 5
        },
    );
    assert!(matches!(outcome, Outcome::Failed));
    assert_eq!(written, 1);
    assert_eq!(decoded(None, true), Came::Failed);
    assert_eq!(decoded(Some(0), false), Came::Nothing);
}

#[test]
fn programs_are_asked_what_they_can_tell() {
    let asked = |texts: &[&str]| -> Vec<Arg> {
        texts.iter().map(|text| Arg::Text(text.to_string())).collect()
    };
    assert_eq!(
        encoders_args().list,
        asked(&["-v", "error", "-nostdin", "-hide_banner", "-encoders"])
    );
    assert_eq!(
        probe_args("a b.mkv").list,
        asked(&["-v", "error", "-show_streams", "-show_format", "-of", "json", "a b.mkv"])
    );
    assert_eq!(
        comment_args("a.mkv").list,
        asked(&["-v", "error", "-show_entries", "format_tags=comment", "-of", "json", "a.mkv"])
    );
    let mut source = video(&[]);
    source.stream = 12;
    let mut words = vec!["-v", "error", "-select_streams", "12", "-count_frames"];
    words.extend(["-show_entries", "stream=nb_read_frames", "-of", "json", &source.path]);
    assert_eq!(count_args(&source).list, asked(&words));
    for (frames, known) in [(None, None), (Some(0), None), (Some(7), Some(7))] {
        source.frames = frames;
        assert_eq!(known_frames(&source), known);
    }
    assert_eq!(CountError::Uncounted.message(), "Cannot count video frames");
    assert_eq!(CountError::Empty.message(), "Video contains no decoded frames");
    assert_eq!(
        ProbeError::Size.message(),
        "dimensions must be positive, <=16384 per side, and <=64 megapixels"
    );
}
