use crtsim::crt::config::Config;
use crtsim::media::animated::{
    average_rate, copies, delay_ms, probe, schedule, shown_ms, AnimatedError, Request, ScheduleError,
};
use crtsim::media::frames::{
    has_several_frames, kind_of_file, probe_gif, several_gif_frames, several_webp_frames,
    webp_picture, GifPictures, GifProbing, Handing, Probing, ReadError,
};
use crtsim::media::animation::{
    AnimationError, AnimationOptions, AnimationPlan, Dither,
};
use crtsim::media::args::{Arg, Args};
use crtsim::media::decode::decode_span;
use crtsim::media::kind::{AnimationFormat, MediaKind};
use crtsim::media::options::Timing;
use crtsim::media::probe::{Source, Track, TrackKind, Video};
use crtsim::number::{Real32, Real64};
use image::codecs::gif::GifEncoder;
use image::{Delay, Frame, Rgba, RgbaImage};

fn double(x: f64) -> Real64 {
    Real64 { bits: x.to_bits() }
}

fn number(x: Real64) -> f64 {
    f64::from_bits(x.bits)
}

fn request(rate: Option<f64>, start: f64, frame: Option<u64>) -> Request {
    Request {
        rate: rate.map(double),
        start: double(start),
        frame,
        limit: None,
    }
}

/// The arguments as they are written on a command line.
fn written(args: &Args) -> Vec<String> {
    args.list
        .iter()
        .map(|arg| match arg {
            Arg::Text(text) => text.clone(),
            Arg::Number(n) => number(*n).to_string(),
            Arg::Around(before, n, after) => format!("{before}{}{after}", number(*n)),
        })
        .collect()
}

/// Every value given after `flag`.
fn values(args: &Args, flag: &str) -> Vec<String> {
    written(args)
        .windows(2)
        .filter(|pair| pair[0] == flag)
        .map(|pair| pair[1].clone())
        .collect()
}

/// What each persistence weight comes to over one frame at a rate.
fn decayed(c: &Config, fps: f64) -> [Real32; 3] {
    c.persistence.map(|w| Real32 {
        bits: f32::from_bits(w.bits).powf((60. / fps) as f32).to_bits(),
    })
}

/// A GIF of `delays.len()` 3x2 frames, frame `i` filled with gray level `i * 10`.
fn gif(delays_ms: &[u32]) -> Vec<u8> {
    let mut bytes = vec![];
    let mut encoder = GifEncoder::new(&mut bytes);
    for (i, &delay) in delays_ms.iter().enumerate() {
        let level = (i * 10 % 256) as u8;
        let image = RgbaImage::from_pixel(3, 2, Rgba([level, level, level, 255]));
        encoder
            .encode_frame(Frame::from_parts(image, 0, 0, Delay::from_numer_denom_ms(delay, 1)))
            .unwrap();
    }
    drop(encoder);
    bytes
}

/// A chunk of a WebP.
fn chunk(kind: &[u8; 4], data: &[u8]) -> Vec<u8> {
    let mut bytes = kind.to_vec();
    bytes.extend((data.len() as u32).to_le_bytes());
    bytes.extend(data);
    bytes.resize(bytes.len() + data.len() % 2, 0);
    bytes
}

/// A WebP of lossless 4x2 frames of 100 ms, one for each gray level.
fn webp(levels: &[u8]) -> Vec<u8> {
    let mut body = b"WEBP".to_vec();
    body.extend(chunk(b"VP8X", &[2, 0, 0, 0, 3, 0, 0, 1, 0, 0]));
    body.extend(chunk(b"ANIM", &[0; 6]));
    for &level in levels {
        let mut still = vec![];
        image_webp::WebPEncoder::new(&mut still)
            .encode(&[level; 4 * 2 * 3], 4, 2, image_webp::ColorType::Rgb8)
            .unwrap();
        let mut frame = vec![0, 0, 0, 0, 0, 0, 3, 0, 0, 1, 0, 0, 100, 0, 0, 0];
        // What follows the file's header is the chunk of the still's pixels.
        frame.extend(&still[12..]);
        body.extend(chunk(b"ANMF", &frame));
    }
    chunk(b"RIFF", &body)
}

/// The frames that a plan lists, by their first byte.
fn handed(bytes: Vec<u8>, plan: Vec<usize>) -> Vec<u8> {
    let mut gif = GifPictures::open(bytes).unwrap();
    let mut handing = Handing::start(plan);
    let mut levels = vec![];
    let mut index = 0;
    while let Some(picture) = gif.picture() {
        if handing.is_done() {
            break;
        }
        let picture = picture.unwrap();
        assert_eq!(picture.dimensions(), (3, 2));
        for _ in 0..handing.take(index) {
            levels.push(picture.pixels[0]);
        }
        index += 1;
    }
    assert!(handing.is_done());
    levels
}

#[test]
fn short_delays_show_as_browsers_show_them() {
    let rate = |frames, total| {
        let (fps, text) = average_rate(frames, total);
        (number(fps), text)
    };
    assert_eq!(shown_ms(0), 100);
    assert_eq!(shown_ms(10), 100);
    assert_eq!(shown_ms(20), 20);
    assert_eq!(rate(10, 1000), (10., "10/1".into()));
    assert_eq!(rate(24, 1000), (24., "24/1".into()));
    assert_eq!(rate(3, 100), (30., "30/1".into()));
    assert_eq!(rate(1, 5000), (1., "1/1".into()));
}

#[test]
fn a_constant_rate_holds_and_drops_frames_by_their_start() {
    // Frames of 100, 200 and 100 ms at 10 per second: the long one shows twice.
    let delays = [100, 200, 100];
    let ten = Some(10.);
    let plan = schedule(&delays, &request(ten, 0., None)).unwrap();
    assert_eq!(plan, vec![0, 1, 1, 2]);
    // At 5 per second, the second frame starts exactly between two ticks and rounds up
    // to the later one, as FFmpeg rounds it; the third is dropped.
    let five = Some(5.);
    assert_eq!(
        schedule(&delays, &request(five, 0., None)).unwrap(),
        vec![0, 1]
    );
    // From a later start, and cut short by a limit.
    assert_eq!(
        schedule(&delays, &request(ten, 0.1, None)).unwrap(),
        vec![1, 1, 2]
    );
    let limited = Request {
        limit: Some(double(0.2)),
        ..request(ten, 0.1, None)
    };
    assert_eq!(schedule(&delays, &limited).unwrap(), vec![1, 1]);
    // One frame by time, or by number.
    assert_eq!(
        schedule(&delays, &request(None, 0.25, None)).unwrap(),
        vec![1]
    );
    assert_eq!(
        schedule(&delays, &request(None, 0., Some(2))).unwrap(),
        vec![2]
    );
    assert_eq!(
        schedule(&delays, &request(None, 0., Some(3))).unwrap_err(),
        ScheduleError::NoFrame(3)
    );
    assert_eq!(
        schedule(&delays, &request(None, 0.4, None)).unwrap_err(),
        ScheduleError::Outside
    );
}

#[test]
fn gif_frames_probe_and_decode_without_ffmpeg() {
    let clip = gif(&[100, 100, 200, 0]);
    assert_eq!(
        kind_of_file("clip.gif", clip.clone()),
        MediaKind::Animation(AnimationFormat::Gif)
    );
    let video = probe_gif("clip.gif".into(), clip.clone()).unwrap();
    assert_eq!(video.size, (3, 2));
    assert_eq!(video.frames, Some(4));
    // The last frame asks for no delay and shows for 100 ms.
    assert!((number(video.duration) - 0.5).abs() < 1e-9);
    assert_eq!(video.rate, "8/1");
    let Source::Animated { delays, .. } = &video.source else {
        panic!("a GIF is decoded here");
    };
    let plan = schedule(delays, &request(Some(10.), 0., None)).unwrap();
    assert_eq!(plan, vec![0, 1, 2, 2, 3]);
    assert_eq!(handed(clip, plan), vec![0, 10, 20, 20, 30]);

    // A one-frame GIF is a still image.
    assert_eq!(kind_of_file("still.gif", gif(&[100])), MediaKind::Still);
    assert!(!has_several_frames("still.gif", gif(&[100])));
}

#[test]
fn webp_frames_probe_and_decode_without_ffmpeg() {
    // Four lossless 4x2 frames of 100 ms, gray levels 0, 40, 80 and 120.
    let bytes = webp(&[0, 40, 80, 120]);
    assert_eq!(
        kind_of_file("four-frames.webp", bytes.clone()),
        MediaKind::Animation(AnimationFormat::Webp)
    );
    let mut decoder = image_webp::WebPDecoder::new(std::io::Cursor::new(bytes)).unwrap();
    decoder.set_background_color([0; 4]).unwrap();
    let mut buffer = vec![0; decoder.output_buffer_size().unwrap()];
    let mut probing = Probing::start(decoder.dimensions()).unwrap();
    let mut pictures = vec![];
    while let Ok(delay) = decoder.read_frame(&mut buffer) {
        probing.frame(delay).unwrap();
        let size = decoder.dimensions();
        pictures.push(webp_picture(size, decoder.has_alpha(), &buffer).unwrap());
    }
    let video = probing.finish("four-frames.webp".into(), AnimationFormat::Webp).unwrap();
    assert_eq!((video.size, video.frames), ((4, 2), Some(4)));
    assert!((number(video.duration) - 0.4).abs() < 1e-9);
    assert_eq!(video.rate, "10/1");
    let plan = schedule(&[100; 4], &request(None, 0., Some(2))).unwrap();
    let mut handing = Handing::start(plan);
    let taken: Vec<usize> = (0..4).map(|index| handing.take(index)).collect();
    assert_eq!(taken, [0, 0, 1, 0]);
    let bytes = &pictures[2].pixels;
    assert_eq!(bytes.len(), 4 * 2 * 4);
    assert!(matches!(bytes[0], 79 | 80), "{:?}", &bytes[..4]);
    assert_eq!(bytes[3], 255);
}

#[test]
fn frames_that_cannot_be_read_say_why() {
    let open = |bytes: &[u8]| probe_gif("a.gif".into(), bytes.to_vec());
    assert!(matches!(open(b"no GIF at all"), Err(ReadError::Open(_))));
    assert!(!several_gif_frames(b"no GIF at all".to_vec()));
    // Cut off in its second frame.
    let whole = gif(&[100, 100, 100]);
    let second = whole.windows(8).rposition(|w| w == [0x21, 0xf9, 4, 4, 10, 0, 0, 0]);
    let cut = &whole[..second.unwrap_or(whole.len() / 2) + 12];
    assert!(matches!(open(cut), Err(ReadError::Frame(_))));
    let mut read = GifPictures::open(cut.to_vec()).unwrap();
    assert_eq!(read.picture().unwrap().unwrap().pixels[0], 0);
    // A canvas too large is refused before a frame is decoded.
    let mut large = gif(&[100, 100]);
    large[6..8].copy_from_slice(&20_000u16.to_le_bytes());
    assert!(matches!(
        GifProbing::start(large),
        Err(ReadError::Refused(AnimatedError::Size))
    ));
    let mut probing = Probing::start((3, 2)).unwrap();
    for _ in 0..100_000 {
        probing.frame(20).unwrap();
    }
    assert_eq!(probing.frame(20).unwrap_err(), AnimatedError::TooMany);
    assert!(Probing::start((0, 2)).is_err());
    assert_eq!(webp_picture((2, 1), false, &[1, 2, 3, 4, 5]), None);
    assert_eq!(webp_picture((2, 1), true, &[0; 8]).unwrap().pixels, [0; 8]);
    let opaque = webp_picture((2, 1), false, &[1, 2, 3, 4, 5, 6]).unwrap();
    assert_eq!(opaque.pixels, [1, 2, 3, 255, 4, 5, 6, 255]);
    assert_eq!(
        AnimatedError::Size.message(),
        "dimensions must be positive, <=16384 per side, and <=64 megapixels"
    );
    assert_eq!(ScheduleError::NoFrame(3).message(), "The animation has no frame 4");
    assert_eq!(
        ScheduleError::NoFrame(u64::MAX).message(),
        "The animation has no frame 18446744073709551616"
    );
    assert_eq!((delay_ms(30, 2), delay_ms(30, 0)), (15, 0));
}

#[test]
fn a_webp_of_one_frame_is_a_still() {
    assert!(!has_several_frames("a.webp", webp(&[40])));
    assert!(has_several_frames("a.WEBP", webp(&[40, 80])));
    assert!(!has_several_frames("a.webp", b"RIFF".to_vec()));
    assert!(!has_several_frames("a.png", webp(&[40, 80])));
    assert!(several_webp_frames(Some((true, 2))));
    assert!(!several_webp_frames(Some((false, 2))) && !several_webp_frames(Some((true, 1))));
    assert!(!several_webp_frames(None));
}

#[test]
fn files_open_as_before_except_animations_and_batches_keep_webp_a_still() {
    let mut png = vec![];
    RgbaImage::new(2, 2)
        .write_to(&mut std::io::Cursor::new(&mut png), image::ImageOutputFormat::Png)
        .unwrap();
    let kinds = [
        ("any.MKV", vec![]),
        ("clip.GIF", gif(&[100, 100])),
        ("four-frames.webp", webp(&[0, 40, 80, 120])),
        ("still.gif", gif(&[100])),
        ("still.png", png),
    ]
    .map(|(path, bytes)| kind_of_file(path, bytes));
    assert_eq!(
        kinds,
        [
            MediaKind::Video,
            MediaKind::Animation(AnimationFormat::Gif),
            MediaKind::Animation(AnimationFormat::Webp),
            MediaKind::Still,
            MediaKind::Still,
        ]
    );
    assert_eq!(
        kinds.map(MediaKind::is_moving),
        [true, true, true, false, false]
    );
    // A batch made a PNG of an animated WebP before, and still does.
    assert_eq!(
        kinds.map(MediaKind::batch_as_video),
        [true, true, false, false, false]
    );
}

fn video(duration: f64) -> Video {
    Video {
        metadata: vec![],
        tracks: vec![Track {
            index: 0,
            kind: TrackKind::Video,
            codec: "h264".into(),
            offset: double(0.),
        }],
        start: double(0.),
        path: "source.mkv".into(),
        size: (1920, 1080),
        fps: double(30.),
        rate: "30/1".into(),
        duration: double(duration),
        audio: false,
        audio_offset: double(0.),
        hdr: false,
        stream: 0,
        frames: None,
        source: Source::Ffmpeg,
    }
}

fn config() -> Config {
    Config {
        output: "1920x1080".into(),
        ..Config::default()
    }
}

#[test]
fn options_are_checked_for_the_format() {
    let options = AnimationOptions::default();
    assert!(options.validate(AnimationFormat::Gif).is_ok());
    let fast = AnimationOptions { fps: 50, ..options };
    assert!(fast.validate(AnimationFormat::Gif).is_err());
    assert!(fast.validate(AnimationFormat::Webp).is_ok());
    let ntsc = AnimationOptions { timing: Timing::Ntsc60, ..options };
    assert!(ntsc.validate(AnimationFormat::Webp).is_err());
    for bad in [
        AnimationOptions { max_side: 32, ..options },
        AnimationOptions { max_seconds: Some(double(0.)), ..options },
        AnimationOptions { start: double(-1.), ..options },
    ] {
        assert!(bad.validate(AnimationFormat::Gif).is_err());
    }
}

#[test]
fn refused_animations_say_why() {
    let options = AnimationOptions::default();
    let refused = |options: AnimationOptions| options.validate(AnimationFormat::Gif).unwrap_err();
    assert_eq!(refused(AnimationOptions { max_side: 32, ..options }), AnimationError::MaxSide);
    assert_eq!(
        refused(AnimationOptions { fps: 50, ..options }),
        AnimationError::Fps(AnimationFormat::Gif)
    );
    assert_eq!(
        refused(AnimationOptions { timing: Timing::Ntsc60, ..options }),
        AnimationError::Timing
    );
    assert_eq!(
        refused(AnimationOptions { start: double(f64::NAN), ..options }),
        AnimationError::Start
    );
    assert_eq!(
        refused(AnimationOptions { max_seconds: Some(double(0.)), ..options }),
        AnimationError::Length
    );
    assert_eq!(refused(AnimationOptions { quality: 101, ..options }), AnimationError::Quality);
    let late = AnimationOptions { start: double(60.), ..options };
    assert_eq!(
        late.summary(&video(60.), &config(), AnimationFormat::Gif).unwrap_err(),
        AnimationError::Late
    );
    let probed = |size, delays: &[u32]| {
        probe("a.gif".into(), AnimationFormat::Gif, size, delays)
    };
    assert_eq!(probed((0, 2), &[100]).unwrap_err(), AnimatedError::Size);
    assert_eq!(probed((3, 2), &[]).unwrap_err(), AnimatedError::Empty);
    assert_eq!(probed((3, 2), &[20; 100_001]).unwrap_err(), AnimatedError::TooMany);
    assert_eq!(probed((3, 2), &[u32::MAX; 50]).unwrap_err(), AnimatedError::Duration);
}

#[test]
fn the_crt_is_rendered_small_at_the_chosen_rate_for_the_chosen_span() {
    let source = video(60.);
    let options = AnimationOptions {
        start: double(5.),
        ..AnimationOptions::default()
    };
    let summary = options
        .summary(&source, &config(), AnimationFormat::Gif)
        .unwrap();
    // 1920x1080 capped to 640 on the long side; odd sizes are fine for animations.
    assert_eq!(summary.size, (640, 360));
    // Ten seconds at 24 per second.
    assert_eq!(summary.frames, 240);
    assert!(summary.bytes.0 < summary.bytes.1);
    assert!(summary.temporary > summary.bytes.1);
    let odd = AnimationOptions {
        max_side: 333,
        max_seconds: None,
        ..options
    };
    let summary = odd
        .summary(&source, &config(), AnimationFormat::Webp)
        .unwrap();
    assert_eq!(summary.size, (333, 187));
    // The rest of the video after the start.
    assert_eq!(summary.frames, 55 * 24);
    assert_eq!(summary.temporary, 0);
    // Larger, longer or faster animations are estimated larger.
    let bigger = AnimationOptions {
        max_side: 1280,
        fps: 30,
        ..AnimationOptions::default()
    };
    let small = AnimationOptions::default()
        .summary(&source, &config(), AnimationFormat::Gif)
        .unwrap();
    let large = bigger
        .summary(&source, &config(), AnimationFormat::Gif)
        .unwrap();
    assert!(large.bytes.0 > small.bytes.0 * 4);
    let late = AnimationOptions {
        start: double(60.),
        ..AnimationOptions::default()
    };
    assert!(late
        .summary(&source, &config(), AnimationFormat::Gif)
        .is_err());
}

#[test]
fn a_gif_goes_through_a_lossless_file_and_a_palette_and_webp_is_written_directly() {
    let source = video(2.);
    let config = config();
    let options = AnimationOptions {
        dither: Dither::Off,
        ..AnimationOptions::default()
    };
    let decay = decayed(&config, 24.);
    let gif = AnimationPlan::new(&source, AnimationFormat::Gif, &config, &options, decay).unwrap();
    assert_eq!(gif.intermediate(), Some("mkv"));
    let encoder = gif.encoder("video.mkv");
    assert_eq!(values(&encoder, "-c:v"), ["ffv1"]);
    assert_eq!(values(&encoder, "-r"), ["24/1"]);
    assert_eq!(values(&encoder, "-s"), ["640x360"]);
    let steps = gif.finishing("video.mkv", "work/palette.png", "out.tmp");
    assert_eq!(steps.len(), 2);
    assert_eq!(values(&steps[0].1, "-vf"), ["palettegen"]);
    assert_eq!(
        values(&steps[1].1, "-lavfi"),
        ["[0:v][1:v]paletteuse=dither=none:diff_mode=rectangle"]
    );
    assert_eq!(values(&steps[1].1, "-loop"), ["0"]);

    let lossless = AnimationOptions {
        lossless: true,
        fps: 60,
        ..AnimationOptions::default()
    };
    let decay = decayed(&config, 60.);
    let webp =
        AnimationPlan::new(&source, AnimationFormat::Webp, &config, &lossless, decay).unwrap();
    assert_eq!(webp.intermediate(), None);
    let encoder = webp.encoder("out.tmp");
    assert_eq!(values(&encoder, "-c:v"), ["libwebp_anim"]);
    assert_eq!(values(&encoder, "-lossless"), ["1"]);
    assert_eq!(values(&encoder, "-r"), ["60/1"]);
    assert!(webp.finishing("out.tmp", "work/palette.png", "out.tmp").is_empty());
}

#[test]
fn a_sequence_goes_forward_and_all_of_it_is_handed_on() {
    let delays = [30, 500, 20, 20, 110, 90];
    for fps in [3., 10., 23.976, 60.] {
        let plan = schedule(&delays, &request(Some(fps), 0.05, None)).unwrap();
        assert!(plan.windows(2).all(|pair| pair[0] <= pair[1]));
        let mut next = 0;
        for index in 0..delays.len() {
            next += copies(&plan, next, index);
        }
        assert_eq!(next, plan.len());
    }
}

#[test]
fn a_limited_span_is_cut_before_the_output() {
    let source = video(20.);
    let whole = written(&decode_span(&source, "24/1", double(0.), None));
    assert!(!whole.contains(&"-t".to_string()) && !whole.contains(&"-ss".to_string()));
    let cut = decode_span(&source, "24/1", double(2.5), Some(double(4.)));
    assert_eq!(values(&cut, "-t"), ["4"]);
    assert_eq!(values(&cut, "-ss"), ["2.5"]);
    let cut = written(&cut);
    assert_eq!(cut[cut.len() - 3..], ["-t", "4", "pipe:1"]);
    let options = AnimationOptions {
        start: double(15.),
        max_seconds: Some(double(10.)),
        ..AnimationOptions::default()
    };
    let c = config();
    let decay = decayed(&c, 24.);
    let plan = AnimationPlan::new(&source, AnimationFormat::Gif, &c, &options, decay).unwrap();
    assert_eq!(number(plan.length()), 5.);
}
