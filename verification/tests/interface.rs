use crtsim::cli::{check_output, plan_text, presets_text, starting_config, Backend, Overrides, Refusal};
use crtsim::crt::config::{Config, ConfigError, Filter, Fit, MaskRepeats, Phase, SizeError};
use crtsim::crt::picture::Picture;
use crtsim::desktop::chrome::{status_light, Placement, Section, ToolWindow};
use crtsim::desktop::dialogs::{asks_to_replace, destination, openable, Dialog};
use crtsim::desktop::export_ui::{
    confirm_text, size_estimate, ChoiceError, ExportDialog, ExportFormat, Proceed,
};
use crtsim::desktop::files::{
    self, add_text_chunk, check_png_name, crc32, embed_preset, embedded_preset, find_text_chunk,
    png_with_preset, ChunkError, FileError,
};
use crtsim::desktop::galleries::{count_text, lut_label, preset_label, search_luts};
use crtsim::desktop::gallery::{
    builtins, check_description, check_save, is_preset_file, validate_name, welcome_needed,
    NameError, SaveError,
};
use crtsim::desktop::preview_ui::{clock, dense_mask, seeks, select, Seek};
use crtsim::desktop::settings_ui::{large_output, sizes};
use crtsim::desktop::smoke::{Smoke, Step, PATIENCE};
use crtsim::desktop::startup::{help_text, read_arguments, Refused, Start};
use crtsim::desktop::theme::{read_theme, theme_text, themes, Theme, ThemeError};
use crtsim::desktop::thumbnails::opaque_thumbnail;
use crtsim::desktop::widgets::{fraction, Keyed, Presses};
use crtsim::desktop::worker::{
    check_frame, imports_from_picture, next_job, ExportKind, Failure, Look, PreviewJob,
    ThumbnailKey,
};
use crtsim::desktop::batch::{Item, Status};
use crtsim::desktop::workflow::{check_length, keep_recent, remember, Project, ProjectError};
use crtsim::fixed::format_value;
use crtsim::media::animation::{AnimationOptions, AnimationSummary};
use crtsim::media::kind::{AnimationFormat, Container};
use crtsim::media::options::{Encoder, Options};
use crtsim::number::{Real32, Real64};
use crtsim::path::{from_windows, is_rooted, same_path};
use std::sync::Arc;

fn single(x: f32) -> Real32 {
    Real32 { bits: x.to_bits() }
}

fn double(x: f64) -> Real64 {
    Real64 { bits: x.to_bits() }
}

fn number(x: Real64) -> f64 {
    f64::from_bits(x.bits)
}

#[test]
fn saved_placement_is_where_the_window_ended_up() {
    let opened_at = Placement {
        position: [10., 20.].map(single),
        size: [600., 500.].map(single),
    };
    let dragged_to = Placement {
        position: [700., 300.].map(single),
        size: [640., 480.].map(single),
    };
    // Nothing to remember yet: the window has never been placed.
    assert_eq!(ToolWindow::default().to_save().placement, None);
    // Opened but never moved: keep what it opened with.
    let untouched = ToolWindow {
        placement: Some(opened_at),
        on_top: true,
        live: None,
    };
    assert_eq!(untouched.to_save().placement, Some(opened_at));
    assert!(untouched.to_save().on_top);
    // Moved: the live geometry wins, and is not fed back as an opening placement.
    let moved = ToolWindow {
        placement: Some(opened_at),
        on_top: false,
        live: Some(dragged_to),
    };
    assert_eq!(moved.to_save().placement, Some(dragged_to));
    assert_eq!(moved.to_save().live, None);
}

#[test]
fn a_status_light_shows_trouble_before_work() {
    assert_ne!(status_light(true, false), status_light(false, false));
    assert_eq!(status_light(true, true), status_light(false, true));
    assert!(Section::new("Mask").default_open(true).open);
}

#[test]
fn ntsc_and_pal_presets_have_their_line_counts_and_scanning() {
    let presets = builtins();
    for (name, rows, interlaced) in [
        ("NTSC 240p", 240, false),
        ("NTSC 480i", 480, true),
        ("PAL 288p", 288, false),
        ("PAL 576i", 576, true),
    ] {
        let preset = presets.iter().find(|e| e.name == name).unwrap();
        assert_eq!(
            preset.config.signal_size((1920, 1080)).unwrap().1,
            rows,
            "{name}"
        );
        assert_eq!(preset.config.interlace, interlaced, "{name}");
    }
}

#[test]
fn the_game_preset_matches_its_options_screen() {
    let game = builtins()
        .into_iter()
        .find(|e| e.name == "Super Win the Game")
        .unwrap()
        .config;
    let value = |x: Real32| f32::from_bits(x.bits);
    // As the game's CRT options show them.
    assert_eq!(value(game.fov), 30.);
    assert_eq!(value(game.ntsc_blending), 0.35);
    assert_eq!(value(game.lut_strength), 1.);
    let palette = game.palette.unwrap();
    assert_eq!(
        (value(palette.tint), value(palette.tint_i), value(palette.tint_q)),
        (5.18, 1.75, 1.)
    );
    let reference = Config::default();
    assert_eq!(
        (
            game.overscan,
            game.barrel,
            game.pixel_aspect,
            value(game.saturation)
        ),
        (
            reference.overscan,
            reference.barrel,
            reference.pixel_aspect,
            1.35
        )
    );
    assert_eq!(
        (value(game.mask_opacity), value(game.mask_brightness)),
        (1., 0.45)
    );
    assert_eq!(
        (value(game.sharpness), value(game.persistence[0]), value(game.bleed)),
        (0.8, 0.7, 0.5)
    );
    assert_eq!(
        (
            value(game.bloom),
            value(game.bloom_power),
            game.frame_color.map(value)
        ),
        (0.25, 2., [0.06; 3])
    );
}

#[test]
fn presets_for_a_line_count_have_the_mask_follow_it() {
    for entry in builtins() {
        let follows = matches!(
            entry.name.as_str(),
            "Original CRTSim"
                | "Super Win the Game"
                | "Pixel art 240p"
                | "NTSC 240p"
                | "NTSC 480i"
                | "PAL 288p"
                | "PAL 576i"
        );
        let expected = if follows {
            MaskRepeats::Signal
        } else {
            MaskRepeats::Fixed([single(128.), single(224.)])
        };
        assert_eq!(entry.config.mask_repeats, expected, "{}", entry.name);
    }
}

#[test]
fn a_gallerys_names_and_descriptions_are_checked() {
    let c = Config::general();
    let files = vec!["My CRT.json".to_string()];
    assert!(check_save("Other", &c, (1216, 832), &files).is_ok());
    assert!(matches!(check_save("my crt", &c, (1, 1), &files), Err(SaveError::Taken)));
    for name in ["../oops", "CON", "", "nested/file", "trailing "] {
        assert!(check_save(name, &c, (1, 1), &files).is_err(), "{name}");
    }
    assert_eq!(validate_name("con.txt"), Err(NameError::Characters));
    assert_eq!(validate_name("LPT1"), Err(NameError::Reserved));
    assert_eq!(validate_name("Écran 1"), Ok(()));
    assert_eq!(validate_name("a_B-9 z"), Ok(()));
    for name in ["a+b", "a@b", "a[b", "a`b", "a{b", "a:b", "a€b"] {
        assert_eq!(validate_name(name), Err(NameError::Characters), "{name}");
    }
    let mut bad = c.clone();
    bad.warmup = 241;
    assert!(matches!(check_save("Other", &bad, (1, 1), &files), Err(SaveError::Config(_))));
    let text = "Soft mask — for animation\nMy own look";
    assert!(check_description("My CRT", text, true).is_ok());
    assert!(matches!(check_description("My CRT", text, false), Err(SaveError::Gone)));
    assert!(check_description("../outside", "oops", true).is_err());
    assert!(matches!(
        check_description("My CRT", &"x".repeat(4097), true),
        Err(SaveError::TooLong)
    ));
    assert!(check_description("My CRT", "", true).is_ok());
    assert!(is_preset_file("My CRT.JSON") && !is_preset_file("notes.txt"));
    assert!(welcome_needed(None));
    for e in builtins() {
        e.config.validate().unwrap();
        e.config.signal_size((1216, 832)).unwrap();
    }
}

#[test]
fn theme_ids_are_unique_and_round_trip() {
    for (index, theme) in themes().into_iter().enumerate() {
        assert_eq!(Theme::from_id(theme.id()), Some(theme));
        assert!(!theme.name().is_empty());
        assert!(!theme.description().is_empty());
        assert!(!themes()[..index].iter().any(|other| other.id() == theme.id()));
        assert_eq!(theme.colors().accent, theme.accent());
        assert_eq!(read_theme(&theme_text(theme)), Ok(theme));
    }
    assert_eq!(Theme::from_id("unknown"), None);
    assert_eq!(read_theme("unknown"), Err(ThemeError::Unknown));
    assert_eq!(read_theme(&"x".repeat(100_000)), Err(ThemeError::TooLong));
}

/// A value moved as a slider over a range moves it.
fn step(value: f64, range: (f64, f64), fraction: f64, logarithmic: bool, integral: bool) -> f64 {
    let (min, max) = range;
    let keyed = Keyed::new(double(min), double(max), integral).logarithmic(logarithmic);
    let moved = (value.ln() + fraction * (max.ln() - min.ln())).exp();
    number(keyed.stepped(double(value), double(fraction), double(moved)))
}

#[test]
fn arrow_keys_step_by_a_share_of_the_range() {
    assert_eq!(step(0.5, (0., 1.), 0.01, false, false), 0.51);
    assert_eq!(step(0.3, (0., 1.), -0.1, false, false), 0.2);
    assert_eq!(step(0.999, (0., 1.), 0.01, false, false), 1.);
    // A value typed beyond the range stays where it is going the other way.
    assert_eq!(step(1.5, (0., 1.), 0.01, false, false), 1.5);
    assert_eq!(step(1.5, (0., 1.), -0.1, false, false), 1.4);
    // Logarithmic: the same proportion at any value; 1% of 1–100 is a factor of 100^0.01.
    let up = step(10., (1., 100.), 0.01, true, false);
    assert!((up - 10. * 100f64.powf(0.01)).abs() < 1e-5);
    // Whole numbers move by at least one.
    assert_eq!(step(10., (0., 240.), 0.001, false, true), 11.);
    assert_eq!(step(10., (0., 240.), -0.1, false, true), 0.);
    assert_eq!(step(0., (0., 240.), -0.01, false, true), 0.);
}

#[test]
fn keys_step_and_reset_a_slider() {
    let none = Presses { right: 0, left: 0 };
    let right = Presses { right: 1, left: 0 };
    let left = Presses { right: 0, left: 1 };
    let slider = Keyed::new(double(0.), double(1.), false).reset_to(double(0.2));
    let keyed = |value: f64, by: Real64, reset: bool| {
        slider.keyed(double(value), by, reset, double(value)).map(number)
    };
    assert_eq!(keyed(0.5, fraction(none, none, none), false), None);
    assert_eq!(keyed(0.5, fraction(none, none, right), false), Some(0.51));
    assert_eq!(keyed(0.51, fraction(left, none, none), false), Some(0.41));
    assert_eq!(keyed(0.41, fraction(none, right, none), false), Some(0.411));
    assert_eq!(keyed(0.411, fraction(none, none, none), true), Some(0.2));
}

#[test]
fn reset_tooltips_show_values_as_written() {
    let shown = |x: f32| format_value(single(x)).unwrap();
    assert_eq!(shown(0.25), "0.25");
    assert_eq!(shown(50.), "50");
    assert_eq!(shown(-0.115), "-0.115");
    assert_eq!(shown(8. / 7.), "1.143");
}

fn empty(width: u32, height: u32) -> Picture {
    Picture { width, height, pixels: vec![0; 4 * (width * height) as usize] }
}

fn thumbnail(generation: u64, index: usize) -> PreviewJob {
    PreviewJob::Thumbnail {
        generation,
        key: ThumbnailKey::Lut(index),
        input: Arc::new(empty(1, 1)),
        look: Look::Lut(index),
    }
}

#[test]
fn a_preview_goes_before_thumbnails_and_stale_thumbnails_are_dropped() {
    let mut backlog = vec![
        thumbnail(1, 0),
        thumbnail(1, 1),
        PreviewJob::Preview {
            revision: 3,
            input: Arc::new(empty(1, 1)),
            config: Config::default(),
        },
        thumbnail(2, 0),
    ];
    assert!(matches!(
        next_job(&mut backlog),
        Some(PreviewJob::Preview { revision: 3, .. })
    ));
    // The source changed after the first two were asked for: only the newer one is left.
    assert!(matches!(
        next_job(&mut backlog),
        Some(PreviewJob::Thumbnail { generation: 2, .. })
    ));
    assert!(next_job(&mut backlog).is_none());
    backlog.extend([thumbnail(3, 0), PreviewJob::Shutdown]);
    assert!(
        matches!(next_job(&mut backlog), Some(PreviewJob::Shutdown)),
        "shutdown is never kept waiting"
    );
    assert!(backlog.is_empty());
}

#[test]
fn jobs_say_what_they_are_and_how_they_failed() {
    assert_eq!(ExportKind::of_batch("/a/out.mkv"), ExportKind::Video);
    assert_eq!(ExportKind::of_batch("/a/out.png"), ExportKind::Image);
    assert!(ExportKind::Animation.driver_failed().contains("smaller size"));
    assert!(imports_from_picture("/a/out.PNG") && !imports_from_picture("/a/out.mkv"));
    assert!(check_frame(9, 10).is_ok() && check_frame(10, 10).is_err());
    assert!(matches!(Failure::of("bad", true), Failure::Cancelled));
    assert!(matches!(Failure::of("bad", false), Failure::Failed(e) if e == "bad"));
}

/// An encoded picture.
fn png() -> Vec<u8> {
    let mut bytes = vec![];
    image::RgbaImage::from_pixel(3, 2, image::Rgba([1, 2, 3, 255]))
        .write_to(&mut std::io::Cursor::new(&mut bytes), image::ImageOutputFormat::Png)
        .unwrap();
    bytes
}

#[test]
fn a_saved_picture_carries_its_settings() {
    let picture = Picture { width: 3, height: 2, pixels: [1, 2, 3, 255].repeat(6) };
    assert!(picture.is_whole());
    let bytes = files::png(&picture).unwrap();
    assert_eq!(bytes, png());
    let json = br#"{"version":1,"signal":"native"}"#;
    let saved = png_with_preset(&picture, json).unwrap();
    assert_eq!(embedded_preset(&saved).unwrap(), json);
    let mut embedded = bytes;
    embed_preset(&mut embedded, json).unwrap();
    assert_eq!(saved, embedded);
    assert_eq!(image::load_from_memory(&saved).unwrap().to_rgba8().into_raw(), picture.pixels);
    let part = Picture { width: 3, height: 3, pixels: picture.pixels.clone() };
    assert!(!part.is_whole());
    assert_eq!(files::png(&part).unwrap_err(), FileError::Encode);
    let nothing = Picture { width: 0, height: 0, pixels: vec![] };
    assert_eq!(png_with_preset(&nothing, json).unwrap_err(), FileError::Encode);
    assert_eq!(png_with_preset(&picture, b"a\0b").unwrap_err(), FileError::Chunk(ChunkError::Nul));
    assert_eq!(
        png_with_preset(&picture, &vec![b'x'; 1_048_577]).unwrap_err(),
        FileError::TooLarge
    );
}

#[test]
fn paths_are_one_by_their_parts() {
    for (a, b) in [
        ("dir//a-crt.png", "dir/a-crt.png"),
        ("dir/./a", "dir/a"),
        ("/dir/a/", "/./dir//a"),
        ("./a", "./a"),
        ("", ""),
    ] {
        assert!(same_path(a, b), "{a} {b}");
    }
    for (a, b) in [("./a", "a"), ("/a", "a"), ("a/../b", "b"), ("A", "a"), ("a", "a/b")] {
        assert!(!same_path(a, b), "{a} {b}");
    }
}

#[test]
fn a_picture_keeps_its_preset_and_its_pixels() {
    let mut bytes = png();
    let plain = image::load_from_memory(&bytes).unwrap();
    assert_eq!(embedded_preset(&bytes).unwrap_err(), FileError::Missing);
    let json = br#"{"version":1,"signal":"native"}"#;
    embed_preset(&mut bytes, json).unwrap();
    assert_eq!(embedded_preset(&bytes).unwrap(), json);
    assert_eq!(image::load_from_memory(&bytes).unwrap(), plain, "still a whole PNG");
    let mut large = png();
    assert_eq!(
        embed_preset(&mut large, &vec![b'x'; 1_048_577]).unwrap_err(),
        FileError::TooLarge
    );
    assert_eq!(large, png());
    assert_eq!(
        embed_preset(&mut large, b"a\0b").unwrap_err(),
        FileError::Chunk(ChunkError::Nul)
    );
    assert_eq!(
        add_text_chunk(&mut large, &[b'k'; 80], b"x").unwrap_err(),
        ChunkError::Keyword
    );
    assert_eq!(
        add_text_chunk(&mut b"GIF89a".to_vec(), b"Key", b"x").unwrap_err(),
        ChunkError::Png
    );
    assert_eq!(find_text_chunk(&bytes, b"Other"), None);
    assert_eq!(crc32(b"123456789"), 0xcbf4_3926);
    assert!(check_png_name("a.PNG").is_ok() && check_png_name("a.jpg").is_err());
}

#[test]
fn a_project_opens_with_its_paths_resolved_and_its_jobs_pending() {
    let c = Config::default();
    let p = || Project {
        version: 1,
        source: Some("input.png".into()),
        frame: 7,
        config: c.clone(),
        options: Options::default(),
        queue: vec![Item {
            source: "input.png".into(),
            output: "output.png".into(),
            config: c.clone(),
            options: Options::default(),
            status: Status::Running,
        }],
    };
    let read = p().open("/projects", false).unwrap();
    assert_eq!(read.frame, 7);
    assert_eq!(read.source.as_deref(), Some("/projects/input.png"));
    assert_eq!(read.queue[0].status, Status::Pending);
    assert_eq!(read.queue[0].output, "/projects/output.png");
    let mut bad = p();
    bad.version = 99;
    assert!(matches!(bad.open("/projects", false), Err(ProjectError::Version)));
    let mut full = p();
    full.queue = (0..257).map(|_| p().queue.remove(0)).collect();
    assert!(matches!(full.open("/projects", false), Err(ProjectError::Queue)));
    let mut invalid = p();
    invalid.config.warmup = 241;
    assert!(matches!(invalid.open("/projects", false), Err(ProjectError::Saved(_))));
    assert!(check_length(67_108_864).is_ok() && check_length(67_108_865).is_err());
    let mut recent: Vec<String> = (0..12).map(|n| format!("{n}.crtsim")).collect();
    keep_recent(&mut recent);
    assert_eq!(recent.len(), 10);
    remember(&mut recent, "4.crtsim");
    assert_eq!((recent[0].as_str(), recent[1].as_str(), recent.len()), ("4.crtsim", "0.crtsim", 10));
}

#[test]
fn thumbnails_are_small_opaque_and_keep_their_shape() {
    let image = image::RgbaImage::from_fn(256, 128, |x, y| {
        image::Rgba([x as u8, y as u8, 40, 255])
    });
    let input = Picture { width: 256, height: 128, pixels: image.as_raw().clone() };
    let small = opaque_thumbnail(&input, 64);
    let expected = image::imageops::thumbnail(&image, 64, 32);
    assert_eq!(small.dimensions(), (64, 32));
    assert_eq!(&small.pixels, expected.as_raw());
}

#[test]
fn startup_takes_its_arguments_in_order() {
    let read = |args: &[&str]| {
        read_arguments(&args.iter().map(|arg| arg.to_string()).collect())
    };
    let Start::Open(plain) = read(&[]) else {
        panic!("no arguments open the test card");
    };
    assert_eq!((plain.input, plain.backend), (None, Backend::Auto));
    let all = [
        "a.png", "--backend", "vulkan", "--smoke-test", "out.png", "--smoke-gallery", "--backend",
        "metal",
    ];
    let Start::Open(startup) = read(&all) else {
        panic!("all of these are known");
    };
    assert_eq!(startup.input.as_deref(), Some("a.png"));
    assert_eq!(startup.smoke_test.as_deref(), Some("out.png"));
    assert!(startup.smoke_gallery && !startup.smoke_welcome);
    assert_eq!(startup.backend, Backend::Metal);
    assert!(matches!(read(&["a.png", "-h", "--nonsense"]), Start::Help));
    let refused = |args: &[&str]| match read(args) {
        Start::Refused(e) => e.message(),
        _ => panic!("expected {args:?} to be refused"),
    };
    assert_eq!(refused(&["--nonsense", "-h"]), "Unknown option: --nonsense");
    assert_eq!(refused(&["--backend", "gl"]), "Expected --backend auto|vulkan|dx12|metal");
    assert_eq!(refused(&["--backend"]), "Expected --backend auto|vulkan|dx12|metal");
    assert_eq!(refused(&["a", "b"]), "Only one image or video can be opened at startup");
    assert!(matches!(read(&["--smoke-test"]), Start::Refused(Refused::NoPath)));
    assert!(help_text().starts_with("crtsim-desktop [IMAGE_OR_VIDEO]"));
}

#[test]
fn the_command_lines_settings_go_over_the_files() {
    let overrides = Overrides {
        signal: Some("native".into()),
        size: Some("64x48".into()),
        phase: Some(Phase::B),
        warmup: Some(3),
    };
    let c = overrides.apply(Config::default()).unwrap();
    assert_eq!((c.signal.as_str(), c.output.as_str(), c.phase, c.warmup), ("native", "64x48", Phase::B, 3));
    assert_eq!(
        plan_text(&c, (256, 224)).unwrap(),
        "Input 256x224 -> signal 256x224 -> output 64x48; 4 ticks"
    );
    assert_eq!(plan_text(&c, (0, 1)), Err(SizeError::Range));
    let silent = || Overrides { signal: None, size: None, phase: None, warmup: None };
    assert_eq!(silent().apply(Config::default()).unwrap(), Config::default());
    let long = Overrides { warmup: Some(241), ..silent() };
    assert_eq!(long.apply(Config::default()).unwrap_err(), ConfigError::Warmup);
    let general = starting_config(true);
    assert_eq!((general.signal.as_str(), general.fit, general.filter), ("auto", Fit::Contain, Filter::Lanczos));
    assert_eq!(general.saturation, Config::default().saturation);
    assert_eq!(starting_config(false), Config::default());
    assert_eq!(check_output("a.PNG", false, Some(false)), Ok(()));
    assert_eq!(check_output("a.jpg", true, None), Err(Refusal::Exists));
    assert_eq!(check_output("a.jpg", false, None), Err(Refusal::Name));
    assert_eq!(check_output("a.png", false, Some(true)).unwrap_err().message(), "debug directory must be new");
    assert!(presets_text().contains("match-input"));
}

#[test]
fn a_smoke_test_takes_one_screenshot_or_gives_up() {
    let mut smoke = Smoke::new("out.png".into(), 0);
    assert!(matches!(smoke.advance(false, false, 1), Step::Wait));
    assert!(matches!(smoke.advance(true, true, 2), Step::Wait));
    assert!(matches!(smoke.advance(true, false, 3), Step::Screenshot));
    assert!(!matches!(smoke.advance(true, false, 4), Step::Screenshot));
    let mut slow = Smoke::new("out.png".into(), 0);
    assert!(matches!(slow.advance(false, false, PATIENCE + 1), Step::TimedOut));
}

#[test]
fn dialogs_offer_what_can_be_opened_and_never_replace_unasked() {
    let video = ExportFormat::Video(Container::Webm);
    let chooser = Dialog::ExportVideo.chooser(video);
    assert_eq!((chooser.extensions, chooser.save_as), (vec!["webm"], Some("rendered")));
    assert_eq!(Dialog::Lut.chooser(video).extensions, ["cube"]);
    assert_eq!(Dialog::File.chooser(video).extensions, openable());
    assert!(openable().contains(&"png") && openable().contains(&"mkv"));
    let named = destination("/a/out.png", "png");
    assert!(!asks_to_replace(&named, true), "the dialog has asked already");
    let added = destination("/a/out", "png");
    assert_eq!(added.path, "/a/out.png");
    assert!(asks_to_replace(&added, true) && !asks_to_replace(&added, false));
}

#[test]
fn an_export_dialog_keeps_only_choices_that_mean_something() {
    let mut dialog = ExportDialog::open(
        Options { crf: Some(20), ..Options::default() },
        AnimationOptions::default(),
        ExportFormat::Video(Container::Mp4),
        false,
    );
    dialog.choose_format(ExportFormat::Video(Container::Webm));
    assert_eq!(dialog.options.crf, None, "another format's quality means nothing for it");
    dialog.options.encoder = Encoder::Nvenc;
    dialog.settle();
    assert_eq!(dialog.options.encoder, Encoder::Software);
    dialog.options.bitrate_mbps = Some(0);
    assert!(matches!(dialog.proceed(None), Proceed::Refused(ChoiceError::Video(_))));
    let summary = AnimationSummary {
        size: (640, 360),
        frames: 240,
        bytes: (10_000_000, 30_000_000),
        temporary: 50_000_000,
    };
    let estimate = size_estimate(AnimationFormat::Gif, &summary);
    assert!(estimate.extent.contains("640") && estimate.likely.contains("30 MB"));
    assert!(estimate.advice.is_some());
    assert_eq!(confirm_text(30_000_000), "This file could be up to 30 MB. Export it anyway?");
}

#[test]
fn frames_are_stepped_within_a_video() {
    assert_eq!(select(0, 10, Seek::Back), 0);
    assert_eq!(select(4, 10, Seek::Forward), 5);
    assert_eq!(select(9, 10, Seek::Forward), 9);
    assert_eq!(select(4, 10, Seek::To(20)), 9);
    assert!(seeks(true, true, 3, 4) && !seeks(true, true, 3, 3) && !seeks(true, false, 3, 4));
    assert_eq!(clock(double(75.9)), "01:15");
    let c = Config::default();
    assert!(!dense_mask(&Config { output: "4k".into(), ..c.clone() }, (256, 224), None));
    assert!(dense_mask(&Config { output: "64x48".into(), ..c }, (256, 224), None));
}

#[test]
fn settings_follow_the_signal_and_show_their_sizes() {
    let mut c = Config::general();
    c.follow_signal(true, (1920, 1080));
    assert_eq!(c.mask_repeats, MaskRepeats::Signal);
    c.signal = "427x240".into();
    c.follow_signal(false, (1920, 1080));
    assert_eq!(c.mask_repeats, MaskRepeats::Fixed([single(213.5), single(240.)]));
    assert!(sizes(&c, (1920, 1080)).unwrap().contains("427"));
    c.output = "0x0".into();
    assert!(sizes(&c, (1920, 1080)).is_none());
    assert!(large_output((8000, 8000)) && !large_output((1920, 1080)));
    c.set_background([9, 9, 9]);
    assert!(c.has_background([9, 9, 9]) && !c.has_background([0, 0, 0]));
    assert!(f32::from_bits(c.crop_limit(0).bits) < 1.);
}

#[test]
fn tables_are_searched_by_name() {
    assert_eq!(search_luts("").len(), 38);
    assert_eq!(search_luts("smpte-2025"), [0]);
    assert!(search_luts("no such table").is_empty());
    assert_eq!(lut_label("Gray"), "LUT “Gray”");
    assert_eq!(preset_label("Bright"), "preset “Bright”");
    assert!(count_text(3).contains('3'));
}

#[test]
fn a_saved_text_leaves_the_others() {
    let mut bytes = png();
    add_text_chunk(&mut bytes, b"First", b"one").unwrap();
    add_text_chunk(&mut bytes, b"Second", b"two").unwrap();
    add_text_chunk(&mut bytes, b"First", b"again").unwrap();
    assert_eq!(find_text_chunk(&bytes, b"First"), Some(b"one".as_slice()));
    assert_eq!(find_text_chunk(&bytes, b"Second"), Some(b"two".as_slice()));
    assert_eq!(find_text_chunk(&bytes, b"Third"), None);
    assert!(image::load_from_memory(&bytes).is_ok());
}

#[test]
fn windows_paths_are_taken_with_slashes() {
    assert_eq!(from_windows(r"C:\clips\a.mkv"), "C:/clips/a.mkv");
    assert_eq!(from_windows(r"\\?\C:\clips\a.mkv"), "C:/clips/a.mkv");
    assert_eq!(from_windows(r"\\?\UNC\host\clips\a.mkv"), "//host/clips/a.mkv");
    assert_eq!(from_windows("clips/a.mkv"), "clips/a.mkv");
    assert!(is_rooted("C:/clips", true) && !is_rooted("C:/clips", false));
    assert!(is_rooted("/clips", true) && is_rooted("/clips", false));
    assert!(!is_rooted("C:clips", true) && !is_rooted("clips", true) && !is_rooted("1:/a", true));
    let project = Project {
        version: 1,
        source: Some("D:/in.png".into()),
        frame: 0,
        config: Config::default(),
        options: Options::default(),
        queue: vec![],
    };
    assert_eq!(project.open("C:/projects", true).unwrap().source.unwrap(), "D:/in.png");
}
