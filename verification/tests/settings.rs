use crtsim::crt::config::{Config, MaskRepeats};
use crtsim::crt::settings::{numeric_fields, settings, validate, Control, Field, Section};
use crtsim::number::Real32;

fn single(x: f32) -> Real32 {
    Real32 { bits: x.to_bits() }
}

fn keys(prefix: &str, value: &serde_json::Value, out: &mut Vec<String>) {
    match value {
        serde_json::Value::Object(map) => {
            for (key, value) in map {
                let key = if prefix.is_empty() {
                    key.clone()
                } else {
                    format!("{prefix}.{key}")
                };
                keys(&key, value, out);
            }
        }
        _ => out.push(prefix.to_owned()),
    }
}

/// The reference's settings as they are saved.
const REFERENCE: &str = r#"{
    "source": {
        "crop": [0.0, 0.0, 0.0, 0.0], "rotation": 0.0, "zoom": 1.0, "position": [0.0, 0.0],
        "background": [0, 0, 0], "checkerboard": false
    },
    "screen_only": false, "lut": null, "lut_strength": 1.0, "palette": null, "version": 1,
    "signal": "original", "output": "reference", "fit": "reference", "filter": "nearest",
    "pixel_aspect": 1.1428572, "phase": "stable", "warmup": 16, "sharpness": 0.8, "bleed": 0.5,
    "artifacts": 0.5, "ntsc_blending": 0.0, "persistence": [0.7, 0.525, 0.42], "overscan": 1.0,
    "barrel": -0.115, "saturation": 1.35, "mask_brightness": 0.45, "mask_opacity": 1.0,
    "mask_repeats": "signal", "dimming": 0.5, "reflection": 0.3, "diffuse": 0.5, "specular": 0.35,
    "specular_power": 50.0, "rim": 1.0, "light_position": [-10.0, -5.0, 10.0],
    "frame_color": [0.06, 0.06, 0.06], "fov": 15.0, "bloom": 0.25, "bloom_power": 2.0,
    "bloom_spread": 0.025, "color_mode": "reference", "mask_antialias": true, "interlace": false,
    "hue": 0.0, "chroma": 1.0
}"#;

#[test]
fn every_preset_key_has_one_setting() {
    let mut found = vec![];
    keys(
        "",
        &serde_json::from_str(REFERENCE).unwrap(),
        &mut found,
    );
    found.retain(|key| key != "version");
    let mut listed: Vec<_> = settings().iter().map(|s| s.key.to_owned()).collect();
    found.sort();
    listed.sort();
    assert_eq!(found, listed);
}

#[test]
fn numbers_are_checked_against_their_limits_by_name() {
    assert!(validate(&Config::default()).is_ok());
    assert!(validate(&Config::general()).is_ok());
    let c = Config {
        bloom: single(2.5),
        ..Config::default()
    };
    assert_eq!(
        validate(&c).unwrap_err().message("2.5"),
        "Bloom amount must be at least 0 and at most 2, not 2.5"
    );
    let mut c = Config::default();
    c.persistence[1] = single(1.);
    assert_eq!(
        validate(&c).unwrap_err().message("1"),
        "Green persistence must be at least 0 and below 1, not 1"
    );
    // The slider stops short of what a preset may hold.
    c.persistence[1] = single(0.9995);
    c.mask_repeats = MaskRepeats::Fixed([single(0.5), single(224.)]);
    assert!(validate(&c).is_ok());
    c.mask_repeats = MaskRepeats::Fixed([single(0.), single(224.)]);
    assert!(validate(&c).is_err());
    c.mask_repeats = MaskRepeats::Fixed([single(128.), single(224.)]);
    c.frame_color[2] = single(f32::NAN);
    assert!(validate(&c).is_err());
}

#[test]
fn the_references_settings_are_what_is_saved_of_it() {
    let saved: serde_json::Value = serde_json::from_str(REFERENCE).unwrap();
    let reference = Config::default();
    for setting in settings() {
        let Some(field) = setting.numbers else {
            continue;
        };
        let held = reference.numbers(field);
        let expected: Vec<f32> = match &saved[setting.key] {
            serde_json::Value::Number(n) => vec![n.as_f64().unwrap() as f32],
            serde_json::Value::Array(list) => {
                list.iter().map(|n| n.as_f64().unwrap() as f32).collect()
            }
            _ => vec![],
        };
        let held: Vec<f32> = held.iter().map(|v| f32::from_bits(v.bits)).collect();
        assert_eq!(held, expected, "{}", setting.key);
    }
}

#[test]
fn a_number_set_is_the_number_read() {
    for field in numeric_fields() {
        let mut c = Config::default();
        c.mask_repeats = MaskRepeats::Fixed([single(1.), single(2.)]);
        let count = c.numbers(field).len();
        for index in 0..count {
            c.set_number(field, index, single(0.75));
            assert_eq!(c.numbers(field)[index], single(0.75), "{field:?}");
            assert!(!field.name(index).is_empty());
        }
        assert_eq!(c.numbers(field).len(), count);
    }
    assert_eq!(Field::Bloom.section(), Section::Bloom);
    assert!(Field::Bloom.holds(single(2.)) && !Field::Bloom.holds(single(2.01)));
    assert!(matches!(Field::FrameColor.control(), Control::Color));
}
