use crtsim::crt::config::Config;
use crtsim::crt::lut::Lut;
use crtsim::desktop::model::{differences, preview_config, Difference, History};
use crtsim::number::Real32;

fn single(x: f32) -> Real32 {
    Real32 { bits: x.to_bits() }
}

fn lut(name: &str) -> Lut {
    let text = "LUT_3D_SIZE 2\n0 0 0\n1 0 0\n0 1 0\n1 1 0\n0 0 1\n1 0 1\n0 1 1\n1 1 1";
    Lut::parse_cube(name.into(), text).unwrap()
}

#[test]
fn differences_name_each_changed_setting_with_both_values() {
    assert!(differences(&Config::general(), &Config::general()).is_empty());
    let found = differences(&Config::general(), &Config::default());
    let find = |setting: &str| found.iter().find(|d| d.setting == setting);
    assert_eq!(
        find("Signal"),
        Some(&Difference {
            setting: "Signal".into(),
            from: "auto".into(),
            to: "original".into(),
        })
    );
    assert_eq!(find("Pixel aspect").unwrap().to, "1.143");
    assert!(
        find("Bloom amount").is_none(),
        "unchanged settings are not listed"
    );
    let order: Vec<_> = found.iter().map(|d| d.setting.as_str()).collect();
    assert_eq!(
        &order[..2],
        ["Signal", "Export size"],
        "listed in panel order"
    );
    // Nested and array settings, and a LUT by name rather than by table.
    let mut edited = Config::general();
    edited.source.position = [single(0.25), single(0.)];
    edited.persistence[2] = single(0.5);
    edited.mask_antialias = false;
    edited.lut = Some(lut("00 - NES SMPTE-2025"));
    let found = differences(&Config::general(), &edited);
    let settings: Vec<_> = found.iter().map(|d| d.setting.as_str()).collect();
    assert!(settings.contains(&"Pan (X, Y)"));
    assert!(settings.contains(&"Persistence (R, G, B)"));
    let filter = found
        .iter()
        .find(|d| d.setting == "Filter mask when shrinking")
        .unwrap();
    assert_eq!((filter.from.as_str(), filter.to.as_str()), ("On", "Off"));
    let lut = found.iter().find(|d| d.setting == "LUT").unwrap();
    assert_eq!(
        (lut.from.as_str(), lut.to.as_str()),
        ("None", "00 - NES SMPTE-2025")
    );
}

#[test]
fn preview_preserves_signal_and_canvas_aspect() {
    let mut c = Config::general();
    c.output = "4k".into();
    let p = preview_config(&c, (1216, 832), Some(1280)).unwrap();
    assert_eq!(p.output_size((1216, 832)).unwrap(), (1280, 720));
    assert_eq!(
        p.signal_size((1216, 832)).unwrap(),
        c.signal_size((1216, 832)).unwrap()
    );
    assert_eq!(c.output, "4k");
    c.output = "600x1200".into();
    assert_eq!(
        preview_config(&c, (1, 1), Some(800)).unwrap().output,
        "400x800"
    );
    c.output = "0x100".into();
    assert!(preview_config(&c, (1, 1), Some(800)).is_err());
}

#[test]
fn undo_redo_and_new_edit_branch() {
    let a = Config::general();
    let mut b = a.clone();
    b.bloom = single(1.);
    let mut h = History::new(a.clone());
    assert_eq!(h.undo(&b), Some(a.clone()));
    assert_eq!(h.redo(&a), Some(b.clone()));
    assert_eq!(h.undo(&b), Some(a.clone()));
    let mut c = a;
    c.bloom = single(0.);
    h.commit(&c);
    assert!(h.redo(&c).is_none());
}

#[test]
fn only_the_last_hundred_steps_are_kept() {
    let at = |n: u32| Config { warmup: n, ..Config::general() };
    let mut h = History::new(at(0));
    for n in 1..=150 {
        h.commit(&at(n));
    }
    h.commit(&at(150));
    let mut now = at(150);
    let mut steps = 0;
    while let Some(previous) = h.undo(&now) {
        steps += 1;
        now = previous;
    }
    assert_eq!((steps, now.warmup), (100, 50));
}

#[test]
fn going_back_gives_the_looks_in_turn() {
    let look = |n: u32| Config { warmup: n, ..Config::general() };
    let mut history = History::new(look(0));
    for n in 1..=120 {
        history.commit(&look(n));
        history.commit(&look(n));
    }
    let mut shown = look(120);
    for n in (20..120).rev() {
        shown = history.undo(&shown).unwrap();
        assert_eq!(shown.warmup, n);
    }
    assert!(history.undo(&shown).is_none());
    assert!(history.undo(&shown).is_none());
}
