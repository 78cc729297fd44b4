use crtsim::crt::lut::{Lut, LutError};
use crtsim::crt::nes_luts::{load, names, strip_lut, Strip, StripError};
use crtsim::crt::picture::{test_card, Picture};
use crtsim::crt::source::{SourceEdit, SourceError};
use crtsim::number::Real32;

fn single(x: f32) -> Real32 {
    Real32 { bits: x.to_bits() }
}

fn value(x: Real32) -> f32 {
    f32::from_bits(x.bits)
}

fn turn(edit: &SourceEdit) -> (Real32, Real32) {
    let (sine, cosine) = value(edit.rotation).to_radians().sin_cos();
    (single(sine), single(cosine))
}

fn prepared(edit: &SourceEdit, image: &Picture, canvas: (u32, u32), nearest: bool) -> Picture {
    edit.prepare(image, canvas, nearest, turn(edit))
}

fn pixel(image: &Picture, x: u32, y: u32) -> [u8; 4] {
    let at = 4 * (y * image.width + x) as usize;
    [image.pixels[at], image.pixels[at + 1], image.pixels[at + 2], image.pixels[at + 3]]
}

#[test]
fn cube_identity_and_invalid_tables() {
    let text = "LUT_3D_SIZE 2\n0 0 0\n1 0 0\n0 1 0\n1 1 0\n0 0 1\n1 0 1\n0 1 1\n1 1 1";
    let lut = Lut::parse_cube("identity".into(), text).unwrap();
    let mut im = test_card();
    let original = im.clone();
    lut.apply(&mut im);
    assert_eq!(im, original);
    assert!(Lut::parse_cube("bad".into(), "LUT_3D_SIZE 65\n0 0 0").is_err());
    assert!(Lut::parse_cube("bad".into(), &text.replace("1 1 1", "NaN 1 1")).is_err());
}

#[test]
fn edits_preserve_identity_and_composite_alpha() {
    let im = test_card();
    let mut edit = SourceEdit::default();
    assert_eq!(prepared(&edit, &im, im.dimensions(), true), im);
    edit.background = [255; 3];
    let transparent = Picture { width: 2, height: 2, pixels: vec![0; 16] };
    assert_eq!(
        pixel(&prepared(&edit, &transparent, (2, 2), false), 0, 0),
        [255; 4]
    );
    edit.crop = [0.6, 0., 0.5, 0.].map(single);
    assert!(edit.validate().is_err());
}

#[test]
fn crop_pan_rotation_and_lut_interpolation_have_expected_pixels() {
    let mut im = Picture { width: 4, height: 4, pixels: vec![] };
    for y in 0..4 {
        for x in 0..4 {
            im.pixels.extend([x + 4 * y, 0, 0, 255]);
        }
    }
    let crop = SourceEdit {
        crop: [0.25, 0.25, 0.25, 0.25].map(single),
        ..SourceEdit::default()
    };
    let cropped = prepared(&crop, &im, (2, 2), true);
    assert_eq!(
        cropped.pixels.chunks(4).map(|p| p[0]).collect::<Vec<_>>(),
        [5, 6, 9, 10]
    );
    let rotate = SourceEdit {
        rotation: single(90.),
        ..SourceEdit::default()
    };
    let rotated = prepared(&rotate, &im, (4, 4), true);
    assert_eq!(pixel(&rotated, 0, 0)[0], 12);
    assert_eq!(pixel(&rotated, 3, 0)[0], 0);
    let pan = SourceEdit {
        position: [0.5, 0.].map(single),
        background: [250; 3],
        ..SourceEdit::default()
    };
    let moved = prepared(&pan, &im, (4, 4), true);
    assert_eq!(pixel(&moved, 0, 0)[0], 250);
    assert_eq!(pixel(&moved, 2, 0)[0], 0);
    let lut = Lut::parse_cube(
        "swap red/blue".into(),
        "LUT_3D_SIZE 2\n0 0 0\n0 0 1\n0 1 0\n0 1 1\n1 0 0\n1 0 1\n1 1 0\n1 1 1",
    )
    .unwrap();
    let mut color = Picture { width: 1, height: 1, pixels: vec![32, 96, 192, 255] };
    lut.apply(&mut color);
    assert_eq!(pixel(&color, 0, 0), [192, 96, 32, 255]);
}

#[test]
fn refused_tables_say_why() {
    let refused = |text: &str| Lut::parse_cube("bad".into(), text).unwrap_err();
    assert_eq!(refused("LUT_3D_SIZE 2 2"), LutError::SizeLine);
    assert_eq!(refused("LUT_3D_SIZE 2\nLUT_3D_SIZE 2"), LutError::SizeLine);
    let std = |text: &str| text.parse::<usize>().unwrap_err().to_string();
    for size in ["two", "-1", "99999999999999999999", "9999999999999999999x9", "+"] {
        assert_eq!(refused(&format!("LUT_3D_SIZE {size}")).message(), std(size));
    }
    assert_eq!(refused("LUT_3D_SIZE 1"), LutError::Size);
    assert_eq!(refused("LUT_3D_SIZE 66"), LutError::Size);
    assert_eq!(refused("DOMAIN_MIN 0 0"), LutError::Domain);
    assert_eq!(refused("LUT_1D_SIZE 2"), LutError::OneDimensional);
    assert_eq!(refused("0 0"), LutError::Row);
    assert_eq!(refused("GAMMA 1 2"), LutError::Directive);
    assert_eq!(refused("0 x 0"), LutError::Number);
    assert_eq!(LutError::Number.message(), "x".parse::<f32>().unwrap_err().to_string());
    assert_eq!(refused("LUT_3D_SIZE 2\n0 0 0"), LutError::TableSize);
    assert_eq!(refused(""), LutError::TableSize);
    let text = "LUT_3D_SIZE 2\n0 0 0\n1 0 0\n0 1 0\n1 1 0\n0 0 1\n1 0 1\n0 1 1\n1 1 1";
    assert_eq!(Lut::parse_cube("x".repeat(1025), text).unwrap_err(), LutError::Name);
    assert_eq!(refused(&text.replace("1 1 1", "1 1 101")), LutError::Value);
    assert_eq!(refused(&format!("{text}\nDOMAIN_MAX 1 0 1")), LutError::Domain);
    // Comments, titles and blank lines are passed over.
    assert!(Lut::parse_cube("ok".into(), &format!("# made by hand\nTITLE \"x\"\n\n{text}")).is_ok());
    assert_eq!(LutError::TableSize.message(), "LUT table size does not match LUT_3D_SIZE");
}

#[test]
fn a_tables_strength_mixes_it_with_the_picture() {
    let text = "LUT_3D_SIZE 2\n1 1 1\n0 1 1\n1 0 1\n0 0 1\n1 1 0\n0 1 0\n1 0 0\n0 0 0";
    let negative = Lut::parse_cube("negative".into(), text).unwrap();
    let card = Picture { width: 1, height: 1, pixels: vec![0, 255, 100, 9] };
    for (strength, expected) in [
        (1., [255, 0, 155, 9]),
        (0., [0, 255, 100, 9]),
        (0.5, [128, 128, 128, 9]),
    ] {
        let mut image = card.clone();
        negative.apply_with_strength(&mut image, single(strength));
        assert_eq!(image.pixels, expected, "{strength}");
    }
}

#[test]
fn refused_edits_say_why() {
    let edit = SourceEdit::default();
    assert_eq!(edit.validate(), Ok(()));
    for (bad, error, message) in [
        (
            SourceEdit { crop: [1., 0., 0., 0.].map(single), ..edit },
            SourceError::Crop,
            "Crop must be between 0 and 1",
        ),
        (
            SourceEdit { crop: [0.5, 0., 0.49, 0.].map(single), ..edit },
            SourceError::NothingLeft,
            "Crop must retain at least 1% of each dimension",
        ),
        (
            SourceEdit { rotation: single(361.), ..edit },
            SourceError::Rotation,
            "Rotation must be within ±360 degrees",
        ),
        (
            SourceEdit { zoom: single(f32::NAN), ..edit },
            SourceError::Zoom,
            "Source zoom must be 0.05–20",
        ),
        (
            SourceEdit { position: [0., -4.5].map(single), ..edit },
            SourceError::Position,
            "Source position must be within ±4 canvas sizes",
        ),
    ] {
        assert_eq!(bad.validate(), Err(error));
        assert_eq!(error.message(), message);
    }
    assert_eq!(edit.size((640, 480)), (640, 480));
    let cropped = SourceEdit { crop: [0.25, 0.5, 0.25, 0.].map(single), ..edit };
    assert_eq!(cropped.size((640, 480)), (320, 240));
    let checkered = SourceEdit { checkerboard: true, ..edit };
    assert_eq!(checkered.background_at(15, 0), [192; 3]);
    assert_eq!(checkered.background_at(16, 0), [128; 3]);
    assert_eq!(checkered.background_at(16, 16), [192; 3]);
}

/// A strip whose colors say where in the table they are.
fn strip() -> Strip {
    let mut pixels = vec![];
    for y in 0..64_u32 {
        for x in 0..4096_u32 {
            let (r, g, b) = (x % 64, 63 - y, x / 64);
            pixels.extend([(r * 4) as u8, (g * 4 + 1) as u8, (b * 4 + 2) as u8]);
        }
    }
    Strip { width: 4096, height: 64, pixels }
}

#[test]
fn a_strips_axes_are_red_then_green_then_blue() {
    let strip = strip();
    let lut = strip_lut("axes", &strip).unwrap();
    assert_eq!((lut.name.as_str(), lut.size, lut.values.len()), ("axes", 64, 64 * 64 * 64));
    lut.validate().unwrap();
    // MAME's strip keeps green along its rows, from one edge to the other.
    let at = |r: usize, g: usize, b: usize| {
        lut.values[r + 64 * g + 4096 * b].map(|v| (value(v) * 255.).round() as u8)
    };
    for (r, g, b) in [(0, 0, 0), (63, 0, 0), (0, 63, 0), (0, 0, 63), (30, 20, 10)] {
        let [red, green, blue] = at(r, g, b);
        assert_eq!((red, blue), ((r * 4) as u8, (b * 4 + 2) as u8));
        assert!(green == (g * 4 + 1) as u8 || green == ((63 - g) * 4 + 1) as u8);
    }
    assert_ne!(at(0, 0, 0)[1], at(0, 63, 0)[1]);
    let small = Strip { width: 1, height: 1, pixels: vec![0; 3] };
    assert_eq!(strip_lut("small", &small).unwrap_err(), StripError::Size);
}

#[test]
fn an_encoded_strip_reads_as_its_pixels() {
    let strip = strip();
    let mut png = vec![];
    let image = image::RgbImage::from_raw(4096, 64, strip.pixels.clone()).unwrap();
    image
        .write_to(&mut std::io::Cursor::new(&mut png), image::ImageOutputFormat::Png)
        .unwrap();
    let read = load(0, &png).unwrap();
    assert_eq!(read.name, "00 - NES SMPTE-2025");
    assert_eq!(read.values, strip_lut("any", &strip).unwrap().values);
    assert_eq!(load(38, &png).unwrap_err(), StripError::Unknown);
    assert_eq!(load(0, b"not a picture").unwrap_err(), StripError::Decode);
    let all = names();
    assert_eq!(all.len(), 38);
    for (index, name) in all.iter().enumerate() {
        assert!(!all[..index].contains(name), "{name}");
    }
}

#[test]
fn blank_lines_titles_and_comments_leave_a_table_as_it_is() {
    let plain = "LUT_3D_SIZE 2\n0 0 0\n1 0 0\n0 1 0\n1 1 0\n0 0 1\n1 0 1\n0 1 1\n.5 1 1";
    let noted = plain.replace('\n', " # a note # and more\n\n \t\nTITLE \"x\" # y\n#z\n");
    let read = |text: &str| Lut::parse_cube("a".into(), text).unwrap();
    assert_eq!(read(&noted), read(plain));
    assert_eq!(read(plain).values[7].map(value), [0.5, 1., 1.]);
    assert_eq!(read(plain).values[1].map(value), [1., 0., 0.]);
    // A title with nothing to show is no title.
    let bare = format!("TITLE \n{plain}");
    assert_eq!(Lut::parse_cube("a".into(), &bare).unwrap_err(), LutError::Row);
}
