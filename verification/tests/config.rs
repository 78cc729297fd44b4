use crtsim::crt::config::{
    dimensions, validate_size, ColorMode, Config, ConfigError, Fit, MaskRepeats, NesPalette,
    SizeError,
};
use crtsim::crt::lut::Lut;
use crtsim::crt::picture::{test_card, Picture};
use crtsim::crt::prepare::{prepare, Turn};
use crtsim::crt::preset::{check_preset, PresetError};
use crtsim::number::Real32;

fn single(x: f32) -> Real32 {
    Real32 { bits: x.to_bits() }
}

fn value(x: Real32) -> f32 {
    f32::from_bits(x.bits)
}

fn turn(degrees: f32) -> Turn {
    let (sine, cosine) = degrees.to_radians().sin_cos();
    Turn { sine: single(sine), cosine: single(cosine) }
}

fn prepared(src: &Picture, c: &Config) -> Picture {
    let rotation = turn(value(c.source.rotation));
    prepare(src, c, rotation, turn(value(c.hue)), &None).unwrap()
}

/// A preset's settings: its version is checked, what it holds is set, and the whole is checked.
fn load(json: &[u8]) -> Result<Config, String> {
    check_preset(json).map_err(|e| e.message())?;
    let preset: serde_json::Value = serde_json::from_slice(json).map_err(|e| e.to_string())?;
    let mut c = Config::default();
    if let Some(signal) = preset.get("signal").and_then(|v| v.as_str()) {
        c.signal = signal.to_string();
    }
    if let Some(on) = preset.get("mask_antialias").and_then(|v| v.as_bool()) {
        c.mask_antialias = on;
    }
    if let Some(held) = preset.get("palette") {
        let mut palette = NesPalette::default();
        let number = |key: &str| held.get(key).and_then(|v| v.as_f64()).map(|v| single(v as f32));
        palette.tint = number("tint").unwrap_or(palette.tint);
        palette.tint_i = number("tint_i").unwrap_or(palette.tint_i);
        palette.tint_q = number("tint_q").unwrap_or(palette.tint_q);
        c.palette = Some(palette);
    }
    c.validate().map_err(|e| e.message(""))?;
    Ok(c)
}

fn small_lut() -> Lut {
    let text = "LUT_3D_SIZE 2\n0 0 0\n1 0 0\n0 1 0\n1 1 0\n0 0 1\n1 0 1\n0 1 1\n1 1 1";
    Lut::parse_cube("identity".to_string(), text).unwrap()
}

#[test]
fn old_presets_keep_reference_behavior_and_neutral_grade_is_exact() {
    let c = load(b"{\"version\":1,\"signal\":\"native\"}").unwrap();
    assert_eq!(c.color_mode, ColorMode::Reference);
    // A setting a preset leaves out takes the default's value; one it holds is kept.
    assert!(c.mask_antialias);
    let unfiltered = br#"{"version":1,"mask_antialias":false}"#;
    assert!(!load(unfiltered).unwrap().mask_antialias);
    let src = test_card();
    assert_eq!(prepared(&src, &c), src);
    let mut colorless = c.copy();
    colorless.chroma = single(0.);
    let gray = prepared(&src, &colorless);
    assert!(gray.pixels.chunks(4).all(|p| p[0] == p[1] && p[1] == p[2]));
    let mut turned = c.copy();
    turned.hue = single(30.);
    assert_ne!(prepared(&src, &turned), src);
}

#[test]
fn a_preset_holds_the_nes_palette_as_its_three_controls() {
    let json = br#"{"palette":{"tint":5.0,"tint_i":2.0,"tint_q":0.5}}"#;
    let c = load(json).unwrap();
    let palette = c.palette.unwrap();
    assert_eq!(
        (value(palette.tint), value(palette.tint_i), value(palette.tint_q)),
        (5., 2., 0.5)
    );
    assert!(c.table_name().starts_with("NES palette"));
    // Controls it leaves out take the game's defaults.
    let c = load(br#"{"palette":{}}"#).unwrap();
    assert_eq!(c.palette, Some(NesPalette::default()));
    let mut both = c.copy();
    both.lut = Some(small_lut());
    assert_eq!(both.validate(), Err(ConfigError::TwoTables));
    assert!(load(br#"{"palette":{"tint_i":11}}"#).is_err());
}

#[test]
fn a_mask_follows_the_signal_or_stays_fixed() {
    // The default density: 128 columns and 224 rows for its 256×224 signal.
    let resolved = |repeats: MaskRepeats, size| repeats.resolve(size).map(value);
    assert_eq!(resolved(MaskRepeats::Signal, (256, 224)), [128., 224.]);
    assert_eq!(resolved(MaskRepeats::Signal, (427, 240)), [213.5, 240.]);
    let fixed = MaskRepeats::Fixed([single(90.), single(60.)]);
    assert_eq!(resolved(fixed, (427, 240)), [90., 60.]);
    let mut c = Config::default();
    c.mask_repeats = MaskRepeats::Fixed([single(0.), single(224.)]);
    assert!(c.validate().is_err());
    c.mask_repeats = MaskRepeats::Fixed([single(128.), single(224.)]);
    assert!(c.validate().is_ok());
    assert!(!MaskRepeats::Signal.same(&fixed) && fixed.same(&fixed));
}

#[test]
fn versioned_loader_accepts_legacy_defaults_and_rejects_future_configs() {
    assert_eq!(load(b"{\"signal\":\"native\"}").unwrap().version, 1);
    let error = load(b"{\"version\":2}").unwrap_err();
    assert!(error.contains("unsupported config version 2"));
    assert_eq!(check_preset(b"{\"version\":2}"), Err(PresetError::Version(2)));
    assert_eq!(check_preset(b"{"), Err(PresetError::Unreadable));
    assert_eq!(PresetError::Unreadable.message(), "not JSON");
    // Only a whole number is a version; serde refuses the rest.
    assert_eq!(check_preset(b"{\"version\":\"2\"}"), Ok(()));
}

#[test]
fn presets_and_limits() {
    let mut c = Config::default();
    assert_eq!(c.signal_size((1920, 1080)).unwrap(), (256, 224));
    c.signal = "auto".into();
    assert_eq!(c.signal_size((1920, 1080)).unwrap(), (853, 480));
    assert_eq!(c.signal_size((320, 200)).unwrap(), (320, 200));
    c.signal = "576p".into();
    assert_eq!(c.signal_size((1920, 1080)).unwrap(), (1024, 576));
    c.signal = "288p".into();
    assert_eq!(c.signal_size((640, 480)).unwrap(), (384, 288));
    assert!(dimensions("0x10").is_err());
    assert!(dimensions("16384x16384").is_err());
    c.persistence[0] = single(1.);
    assert!(c.validate().is_err());
}

#[test]
fn a_smaller_canvas_keeps_its_aspect_and_the_signal() {
    let mut c = Config::general();
    c.output = "4k".into();
    let p = c.with_max_output_side((1216, 832), Some(1280)).unwrap();
    assert_eq!(p.output_size((1216, 832)).unwrap(), (1280, 720));
    assert_eq!(
        p.signal_size((1216, 832)).unwrap(),
        c.signal_size((1216, 832)).unwrap()
    );
    assert_eq!(c.output, "4k");
    c.output = "600x1200".into();
    assert_eq!(
        c.with_max_output_side((1, 1), Some(800)).unwrap().output,
        "400x800"
    );
    // The longer side reaches the limit, and one within it stays.
    c.output = "1001x333".into();
    for (limit, longer) in [(1, 1), (7, 7), (640, 640), (1000, 1000), (1001, 1001), (5000, 1001)] {
        let small = c.with_max_output_side((1, 1), Some(limit)).unwrap();
        let (w, h) = small.output_size((1, 1)).unwrap();
        assert_eq!(w.max(h), longer);
        assert!(w <= 1001 && h <= 333);
    }
    assert_eq!(c.with_max_output_side((1, 1), None).unwrap().output, "1001x333");
    c.output = "0x100".into();
    assert!(c.with_max_output_side((1, 1), Some(800)).is_err());
    assert!(c.validate_for((1, 1)).is_err());
}

#[test]
fn fit_and_reference_are_distinct() {
    let mut c = Config::default();
    assert!((value(c.uv_scale((256, 224)).1) - 0.9795918).abs() < 0.0001);
    c.pixel_aspect = single(1.);
    c.fit = Fit::Contain;
    assert!((value(c.uv_scale((1920, 1080)).1) - 4. / 3.).abs() < 0.00001);
}

#[test]
fn alpha_composites_onto_black() {
    let mut c = Config::default();
    c.signal = "native".into();
    let src = Picture { width: 1, height: 1, pixels: vec![255, 0, 0, 128] };
    assert_eq!(prepared(&src, &c).pixels, [128, 0, 0, 255]);
}

#[test]
fn refused_sizes_say_why() {
    assert_eq!(dimensions("640x480"), Ok((640, 480)));
    assert_eq!(dimensions("640"), Err(SizeError::Shape));
    let std = |text: &str| text.parse::<u32>().unwrap_err().to_string();
    let said = |text: &str| dimensions(text).unwrap_err().message(text);
    assert_eq!(said("640x"), std(""));
    assert_eq!(said("ax1"), std("a"));
    assert_eq!(said("x-1"), std(""), "the width is read first");
    assert_eq!(said("1x4294967296"), std("4294967296"));
    assert_eq!(said("99999999999ax1"), std("99999999999a"));
    assert_eq!(said("1x+"), std("+"));
    assert_eq!(dimensions("16385x1"), Err(SizeError::Range));
    assert_eq!(dimensions("+8x8"), Ok((8, 8)));
    assert_eq!(validate_size((8000, 8000)), Ok(()));
    assert_eq!(validate_size((8000, 8001)), Err(SizeError::Range));
    let mut c = Config::default();
    c.signal = "500p".into();
    assert_eq!(c.signal_size((10, 10)), Err(SizeError::Signal));
    assert_eq!(SizeError::Signal.message("500p"), "unknown signal preset: 500p");
    assert_eq!(SizeError::Shape.message("640"), "expected WIDTHxHEIGHT, got 640");
    c.signal = "64x".into();
    assert!(matches!(c.signal_size((10, 10)), Err(SizeError::Number(_))));
    c.output = "tall".into();
    assert_eq!(c.output_size((10, 10)), Err(SizeError::Shape));
    c.output = "match-input".into();
    assert_eq!(c.output_size((10, 12)), Ok((10, 12)));
    assert_eq!(c.output_size((0, 12)), Err(SizeError::Range));
}

#[test]
fn refused_settings_say_why() {
    let mut c = Config::default();
    assert_eq!(c.validate(), Ok(()));
    c.version = 2;
    assert_eq!(c.validate().unwrap_err().message(""), "unsupported config version");
    c.version = 1;
    c.warmup = 241;
    assert_eq!(c.validate().unwrap_err().message(""), "warmup must be <=240 ticks");
    c.warmup = 240;
    assert_eq!(c.validate(), Ok(()));
    c.source.zoom = single(0.);
    assert_eq!(c.validate().unwrap_err().message(""), "Source zoom must be 0.05–20");
    c.source.zoom = single(1.);
    let mut lut = small_lut();
    lut.values[0][0] = single(101.);
    c.lut = Some(lut);
    assert_eq!(c.validate().unwrap_err().message(""), "Invalid LUT value");
    c.lut = None;
    c.output = "8x8".into();
    c.signal = "native".into();
    assert_eq!(c.validate_for((0, 1)), Err(ConfigError::Size(SizeError::Range)));
}
