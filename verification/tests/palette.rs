use crtsim::crt::config::NesPalette;
use crtsim::crt::lut::Lut;
use crtsim::crt::palette::{corrections, mame_colors, table_entry, Wave, Waves, LUT_SIZE};
use crtsim::crt::picture::Picture;
use crtsim::number::{Real32, Real64};
use std::f64::consts::PI;

fn double(x: f64) -> Real64 {
    Real64 { bits: x.to_bits() }
}

fn wave(radians: f64) -> Wave {
    let (sin, cos) = radians.sin_cos();
    Wave { sin: double(sin), cos: double(cos) }
}

fn waves() -> Waves {
    Waves {
        phases: std::array::from_fn(|phase| wave(PI * phase as f64 / 6.)),
        burst: wave(PI - PI / 6. * 5.5 + (-8_f64).to_radians()),
        axes: wave(33_f64.to_radians()),
        hues: std::array::from_fn(|n| wave(((n + 1) as f64 * 30. + 287.).to_radians())),
    }
}

fn colors(palette: &NesPalette) -> Vec<[f64; 3]> {
    let turn = wave(f64::from_bits(palette.turn().bits));
    let listed = palette.colors(&waves(), turn);
    listed.iter().map(|c| c.map(|v| f64::from_bits(v.bits))).collect()
}

fn single(x: f32) -> Real32 {
    Real32 { bits: x.to_bits() }
}

fn steps(color: [f64; 3]) -> [i32; 3] {
    color.map(|c| (c * 255.).round() as i32)
}

#[test]
fn the_signal_decodes_to_the_nes_colours_it_is_known_by() {
    let colors = colors(&NesPalette::default());
    // Greys: black, the four levels of hue 0, and hue 13 at level 0 below black.
    assert_eq!(steps(colors[0x0F]), [0, 0, 0]);
    assert_eq!(steps(colors[0x0D]), [0, 0, 0]);
    assert_eq!(steps(colors[0x20]), [255, 255, 255]);
    assert_eq!(steps(colors[0x30]), [255, 255, 255]);
    let [r, g, b] = colors[0x00];
    assert!(r == g && g == b && r > 0.3 && r < 0.5);
    // Hues round the wheel: 2 blue, 6 red, 8 yellow, 10 green, 12 cyan.
    let hue = |index: usize| {
        let [r, g, b] = colors[index];
        let (max, min) = (r.max(g).max(b), r.min(g).min(b));
        let degrees = if max == r {
            60. * ((g - b) / (max - min))
        } else if max == g {
            60. * ((b - r) / (max - min) + 2.)
        } else {
            60. * ((r - g) / (max - min) + 4.)
        };
        degrees.rem_euclid(360.)
    };
    assert!((200. ..260.).contains(&hue(0x12)), "blue {}", hue(0x12));
    assert!(hue(0x16) < 20. || hue(0x16) > 340., "red {}", hue(0x16));
    assert!((40. ..70.).contains(&hue(0x28)), "yellow {}", hue(0x28));
    assert!((90. ..150.).contains(&hue(0x2A)), "green {}", hue(0x2A));
    assert!((170. ..200.).contains(&hue(0x2C)), "cyan {}", hue(0x2C));
}

#[test]
fn tint_turns_hues_and_the_gains_scale_chroma() {
    let neutral = colors(&NesPalette::default());
    let turned = colors(&NesPalette {
        tint: single(5.18 + std::f32::consts::PI),
        ..NesPalette::default()
    });
    // Half a turn swaps a hue for its opposite: blue for yellow-ish.
    assert!(turned[0x12][0] > turned[0x12][2]);
    for c in 0..3 {
        assert!(
            (turned[0x20][c] - neutral[0x20][c]).abs() < 1e-9,
            "grey stays grey"
        );
    }
    let grey = colors(&NesPalette {
        tint_i: single(0.),
        tint_q: single(0.),
        ..NesPalette::default()
    });
    for color in grey {
        assert!((color[0] - color[1]).abs() < 1e-9 && (color[1] - color[2]).abs() < 1e-9);
    }
}

#[test]
fn the_lut_takes_mames_palette_onto_the_generated_one() {
    let settings = NesPalette { tint: single(5.5), ..NesPalette::default() };
    let waves = waves();
    let turn = wave(f64::from_bits(settings.turn().bits));
    let moves = settings.corrections(&waves, turn);
    let targets = colors(&settings);
    let mame: Vec<[f64; 3]> = mame_colors(&waves)
        .iter()
        .map(|c| c.map(|v| f64::from_bits(v.bits)))
        .collect();
    // MAME draws several entries alike; each distinct one lands on its own target.
    for index in [0x00, 0x01, 0x06, 0x12, 0x16, 0x21, 0x27, 0x2A, 0x31, 0x3C] {
        // Only the entries of the table that a color is taken from are worked out.
        let [r, g, b] = steps(mame[index]).map(|c| c as u8);
        let mut lut = Lut {
            name: "NES palette".into(),
            size: LUT_SIZE,
            domain_min: [single(0.); 3],
            domain_max: [single(1.); 3],
            values: vec![[single(0.); 3]; LUT_SIZE * LUT_SIZE * LUT_SIZE],
        };
        let near = |c: u8| {
            let low = (f64::from(c) / 255. * 63.).floor() as usize;
            [low.saturating_sub(1), low, (low + 1).min(63), (low + 2).min(63)]
        };
        for x in near(r) {
            for y in near(g) {
                for z in near(b) {
                    let n = x + 64 * y + 4096 * z;
                    lut.values[n] = table_entry(&moves, n);
                }
            }
        }
        lut.validate().unwrap();
        let mut image = Picture { width: 1, height: 1, pixels: vec![r, g, b, 255] };
        lut.apply(&mut image);
        let want = steps(targets[index]);
        for c in 0..3 {
            let got = i32::from(image.pixels[c]);
            assert!((got - want[c]).abs() <= 3, "{index:#04x}: {:?} for {want:?}", image.pixels);
        }
    }
}

#[test]
fn colors_that_are_their_own_targets_stay() {
    let mame = mame_colors(&waves());
    let moves = corrections(&mame, &mame);
    let middle = table_entry(&moves, 20 + 64 * 30 + 4096 * 40);
    let expected = [20, 30, 40].map(|n| (n as f64 * (1. / 63.)) as f32);
    assert_eq!(middle.map(|v| f32::from_bits(v.bits)), expected);
}
