use crtsim::crt::config::{Config, Filter};
use crtsim::crt::input::{check_dimensions, extensions, is_apart, load_image, Apart, InputError};
use crtsim::crt::kernel::{angle, lanczos3, route, Kernel, Route};
use crtsim::crt::picture::{flatten_alpha, test_card, Picture};
use crtsim::crt::prepare::{prepare, Turn};
use crtsim::crt::texture::{halve, levels, mip_levels, pitch, shadow_mask, unpadded};
use crtsim::number::Real32;
use image::imageops::FilterType;
use image::RgbaImage;

fn single(x: f32) -> Real32 {
    Real32 { bits: x.to_bits() }
}

fn value(x: Real32) -> f32 {
    f32::from_bits(x.bits)
}

fn taken(image: &RgbaImage) -> Picture {
    Picture { width: image.width(), height: image.height(), pixels: image.as_raw().clone() }
}

fn given(image: &Picture) -> RgbaImage {
    RgbaImage::from_raw(image.width, image.height, image.pixels.clone()).unwrap()
}

/// A mask of the bundled one's size, with stripes and rows that halving has to average.
fn mask() -> RgbaImage {
    RgbaImage::from_fn(64, 32, |x, y| {
        let lit = |c: u32| if x % 4 == c && y % 4 != 3 { 252 } else { 12 };
        image::Rgba([lit(0), lit(1), lit(2), 255])
    })
}

#[test]
fn mask_levels_average_the_texels_they_replace() {
    let image = RgbaImage::from_fn(4, 2, |x, y| image::Rgba([(x * 10 + y * 100) as u8; 4]));
    let half = halve(&taken(&image));
    assert_eq!(half.dimensions(), (2, 1));
    // (0 + 10 + 100 + 110) / 4 and (20 + 30 + 120 + 130) / 4.
    assert_eq!(half.pixels[0], 55);
    assert_eq!(half.pixels[4], 75);
    // Down to one row, then one texel: pairs, then the last pair.
    let last = halve(&half);
    assert_eq!((last.dimensions(), last.pixels[0]), ((1, 1), 65));
    assert_eq!(halve(&last), last);
    // A 64×32 mask keeps its average all the way down, give or take the rounding of six
    // halvings.
    let mut bmp = vec![];
    mask()
        .write_to(&mut std::io::Cursor::new(&mut bmp), image::ImageOutputFormat::Bmp)
        .unwrap();
    let chain = shadow_mask(&bmp).unwrap();
    let mean = |image: &Picture, channel: usize| {
        let total: f64 = image.pixels.chunks(4).map(|p| f64::from(p[channel])).sum();
        total / (image.pixels.len() / 4) as f64
    };
    let mask = &chain[0];
    assert_eq!(mask.dimensions(), (64, 32));
    let mut level = mask.clone();
    while level.dimensions() != (1, 1) {
        level = halve(&level);
    }
    for channel in 0..3 {
        assert!((mean(&level, channel) - mean(mask, channel)).abs() < 1.);
    }
}

#[test]
fn a_masks_levels_end_in_one_texel() {
    assert_eq!(levels(64, 32), 7);
    assert_eq!(levels(1, 1), 1);
    assert_eq!(levels(3, 5), 3);
    let chain = mip_levels(taken(&mask()));
    let sizes: Vec<_> = chain.iter().map(Picture::dimensions).collect();
    assert_eq!(
        sizes,
        [(64, 32), (32, 16), (16, 8), (8, 4), (4, 2), (2, 1), (1, 1)]
    );
    let mut bmp = vec![];
    mask()
        .write_to(&mut std::io::Cursor::new(&mut bmp), image::ImageOutputFormat::Bmp)
        .unwrap();
    assert_eq!(shadow_mask(&bmp).unwrap(), chain, "a BMP reads as its pixels");
    assert!(shadow_mask(b"BM").is_none());
}

#[test]
fn rows_are_read_back_without_their_padding() {
    assert_eq!(pitch(1), 256);
    assert_eq!(pitch(64), 256);
    assert_eq!(pitch(65), 512);
    let mut mapped = vec![0; 512];
    mapped[..4].copy_from_slice(&[1, 2, 3, 4]);
    mapped[256..260].copy_from_slice(&[5, 6, 7, 8]);
    let image = unpadded(&mapped, 1, 2).unwrap();
    assert_eq!((image.dimensions(), image.pixels), ((1, 2), vec![1, 2, 3, 4, 5, 6, 7, 8]));
    assert!(unpadded(&mapped[..511], 1, 2).is_none());
}

/// The weights along an axis, with the filter's values taken by the hardware's sine.
fn kernel(input: u32, output: u32, filter: Filter) -> Kernel {
    let values = Kernel::taps(input, output, filter)
        .iter()
        .map(|&x| {
            let sine = single(value(angle(x)).sin());
            let slow = single(value(angle(x.div(single(3.)))).sin());
            match filter {
                Filter::Lanczos => lanczos3(x, sine, slow),
                Filter::Nearest => single(1.),
            }
        })
        .collect();
    Kernel::new(input, output, filter, &values)
}

/// The GPU pass's sums, done on the CPU in the same order.
fn resample(image: &RgbaImage, rows: &Kernel, columns: &Kernel) -> RgbaImage {
    let (width, height) = (image.width(), rows.spans.len() as u32);
    let mut between = vec![[0_f32; 3]; (width * height) as usize];
    for y in 0..height {
        let [first, count, offset, _] = rows.spans[y as usize];
        for x in 0..width {
            let mut total = [0_f32; 3];
            for i in 0..count {
                let p = image.get_pixel(x, first + i);
                let w = value(rows.weights[(offset + i) as usize]);
                for c in 0..3 {
                    total[c] += f32::from(p[c]) * w;
                }
            }
            between[(y * width + x) as usize] = total;
        }
    }
    RgbaImage::from_fn(columns.spans.len() as u32, height, |x, y| {
        let [first, count, offset, _] = columns.spans[x as usize];
        let mut total = [0_f32; 3];
        for i in 0..count {
            let p = between[(y * width + first + i) as usize];
            let w = value(columns.weights[(offset + i) as usize]);
            for c in 0..3 {
                total[c] += p[c] * w;
            }
        }
        let [r, g, b] = total.map(|v| v.clamp(0., 255.).round() as u8);
        image::Rgba([r, g, b, 255])
    })
}

#[test]
fn kernels_reproduce_the_image_crates_resize_exactly() {
    let image = RgbaImage::from_fn(97, 61, |x, y| {
        let v = (x * 37 + y * 101 + x * y * 13) % 256;
        image::Rgba([v as u8, (v * 7 % 256) as u8, (255 - v) as u8, 255])
    });
    for (filter, cpu) in [
        (Filter::Lanczos, FilterType::Lanczos3),
        (Filter::Nearest, FilterType::Nearest),
    ] {
        // Down, up, one axis at a time, a steep downscale and a single row.
        for size in [(40, 30), (200, 150), (97, 20), (13, 61), (5, 3), (97, 1)] {
            let expected = image::imageops::resize(&image, size.0, size.1, cpu);
            let rows = kernel(61, size.1, filter);
            let columns = kernel(97, size.0, filter);
            assert_eq!(
                resample(&image, &rows, &columns),
                expected,
                "{filter:?} to {size:?}"
            );
        }
    }
    let same = resample(&image, &Kernel::identity(61), &Kernel::identity(97));
    assert_eq!(same, image);
}

#[test]
fn a_source_is_resized_as_the_image_crate_resizes() {
    let image = RgbaImage::from_fn(97, 61, |x, y| {
        let v = (x * 37 + y * 101 + x * y * 13) % 256;
        image::Rgba([v as u8, (v * 7 % 256) as u8, (255 - v) as u8, 255])
    });
    let still = Turn { sine: single(0.), cosine: single(1.) };
    for (filter, cpu) in [
        (Filter::Lanczos, FilterType::Lanczos3),
        (Filter::Nearest, FilterType::Nearest),
    ] {
        let c = Config { signal: "40x30".into(), filter, ..Config::default() };
        let prepared = prepare(&taken(&image), &c, still, still, &None).unwrap();
        assert_eq!(given(&prepared), image::imageops::resize(&image, 40, 30, cpu), "{filter:?}");
    }
}

#[test]
fn a_sources_route_follows_its_edits_and_sizes() {
    let mut c = Config::default();
    assert_eq!(route(&c, (256, 224), (256, 224)), Route::Copy);
    assert_eq!(route(&c, (640, 480), (256, 224)), Route::Resample);
    c.source.rotation = single(1.);
    assert_eq!(route(&c, (256, 224), (256, 224)), Route::Edit);
}

#[test]
fn transparency_shows_the_background() {
    let mut image = Picture { width: 2, height: 1, pixels: vec![255, 0, 0, 128, 9, 9, 9, 255] };
    flatten_alpha(&mut image, [0, 0, 255]);
    assert_eq!(image.pixels, [128, 0, 127, 255, 9, 9, 9, 255]);
    let card = test_card();
    let mut flat = card.clone();
    flatten_alpha(&mut flat, [1, 2, 3]);
    assert_eq!(flat, card, "an opaque picture stays as it is");
    assert_eq!(card.dimensions(), (256, 224));
}

/// A WebP of one lossy frame, a single pixel.
const LOSSY: [u8; 42] = [
    82, 73, 70, 70, 34, 0, 0, 0, 87, 69, 66, 80, 86, 80, 56, 32, 22, 0, 0, 0, 48, 1, 0, 157, 1, 42,
    1, 0, 1, 0, 14, 192, 254, 37, 164, 0, 3, 112, 0, 0, 0, 0,
];

#[test]
fn a_webp_of_one_lossy_frame_is_decoded() {
    assert!(!is_apart("a.webp", &LOSSY));
    let read = load_image("a.WebP", &LOSSY, None).unwrap();
    assert_eq!(read, taken(&image::load_from_memory(&LOSSY).unwrap().to_rgba8()));
    assert_eq!(read.dimensions(), (1, 1));
    assert_eq!(read.pixels[3], 255);
    assert_eq!(load_image("a.webp", &LOSSY[..30], None).unwrap_err(), InputError::Dimensions);
    assert_eq!(load_image("a.png", &LOSSY, None).unwrap_err(), InputError::Dimensions);
}

/// The lossy frame on a canvas of so many pixels squared, after and before other chunks.
fn on_canvas(side: u8, before: &[u8; 4], after: &[u8; 4]) -> Vec<u8> {
    let chunk = |kind: &[u8; 4], data: &[u8]| {
        let mut bytes = kind.to_vec();
        bytes.extend((data.len() as u32).to_le_bytes());
        bytes.extend(data);
        bytes.resize(bytes.len() + data.len() % 2, 0);
        bytes
    };
    let mut body = b"WEBP".to_vec();
    body.extend(chunk(b"VP8X", &[0, 0, 0, 0, side - 1, 0, 0, side - 1, 0, 0]));
    body.extend(chunk(before, b"odd"));
    body.extend(&LOSSY[12..]);
    body.extend(chunk(after, b"more"));
    chunk(b"RIFF", &body)
}

#[test]
fn a_lossy_frame_that_fills_its_canvas_is_decoded() {
    let bytes = on_canvas(1, b"ICCP", b"EXIF");
    assert!(!is_apart("a.webp", &bytes));
    assert_eq!(
        load_image("a.webp", &bytes, None).unwrap(),
        taken(&image::load_from_memory(&LOSSY).unwrap().to_rgba8())
    );
    for other in [on_canvas(2, b"ICCP", b"EXIF"), on_canvas(1, b"ALPH", b"EXIF")] {
        assert!(is_apart("a.webp", &other));
        assert_eq!(load_image("a.webp", &other, None).unwrap_err(), InputError::Dimensions);
    }
    assert!(is_apart("a.webp", &on_canvas(1, b"XMP ", b"ANMF")));
}

#[test]
fn other_webps_are_taken_as_they_were_decoded_apart() {
    let mut bytes = vec![];
    image_webp::WebPEncoder::new(&mut bytes)
        .encode(&[1, 2, 3, 4, 5, 6, 7, 8], 2, 1, image_webp::ColorType::Rgba8)
        .unwrap();
    assert!(is_apart("a.webp", &bytes));
    assert!(!is_apart("a.png", &bytes));
    let picture = taken(&image::load_from_memory(&bytes).unwrap().to_rgba8());
    assert_eq!(picture.pixels, [1, 2, 3, 4, 5, 6, 7, 8]);
    let held = |size, picture| Some(Apart { size, picture });
    let load = |held| load_image("a.webp", &bytes, held);
    assert_eq!(load(held((2, 1), Some(picture.clone()))).unwrap(), picture);
    assert_eq!(load(held((2, 1), None)).unwrap_err(), InputError::Decode);
    assert_eq!(
        load(held((20000, 1), Some(picture))).unwrap_err().message(),
        "dimensions must be positive, <=16384 per side, and <=64 megapixels"
    );
    assert_eq!(load(None).unwrap_err(), InputError::Dimensions);
}

/// The start of a JPEG of one pixel: a comment, and the header of a frame of this kind.
fn jpeg_of(kind: u8) -> Vec<u8> {
    let mut bytes = vec![0xff, 0xd8, 0xff, 0xfe, 0, 6, 0xff, 0xc3, 1, 2, 0xff];
    bytes.extend([0xff, kind, 0, 11, 8, 0, 1, 0, 1, 1, 1, 0x11, 0]);
    bytes
}

#[test]
fn lossless_jpegs_are_taken_as_they_were_decoded_apart() {
    let lossless = jpeg_of(0xc3);
    assert!(is_apart("a.jpg", &lossless));
    let picture = Picture { width: 1, height: 1, pixels: vec![1, 2, 3, 4] };
    let held = Some(Apart { size: (1, 1), picture: Some(picture.clone()) });
    assert_eq!(load_image("a.jpg", &lossless, held).unwrap(), picture);
    let held = Some(Apart { size: (1, 1), picture: None });
    assert_eq!(load_image("a.jpg", &lossless, held).unwrap_err(), InputError::Decode);
    assert_eq!(load_image("a.jpg", &lossless, None).unwrap_err(), InputError::Decode);
    assert_eq!(load_image("a.png", &lossless, None).unwrap_err(), InputError::Dimensions);
    // A comment that looks like such a frame is none, nor is a frame of another kind.
    assert!(!is_apart("a.jpg", &jpeg_of(0xc0)));
    assert!(!is_apart("a.jpg", &lossless[..12]));
    assert!(!is_apart("a.jpg", &lossless[1..]));
    assert_eq!(load_image("a.jpg", &jpeg_of(0xc0), None).unwrap_err(), InputError::Decode);
    let mut bytes = vec![];
    image::RgbImage::from_pixel(9, 5, image::Rgb([200, 100, 50]))
        .write_to(&mut std::io::Cursor::new(&mut bytes), image::ImageOutputFormat::Jpeg(90))
        .unwrap();
    assert!(!is_apart("a.jpg", &bytes));
    let read = load_image("a.jpg", &bytes, None).unwrap();
    assert_eq!(read, taken(&image::load_from_memory(&bytes).unwrap().to_rgba8()));
}

#[test]
fn images_are_read_as_the_image_crate_reads_them() {
    let image = RgbaImage::from_fn(5, 3, |x, y| {
        image::Rgba([(x * 50) as u8, (y * 80) as u8, 7, 200])
    });
    let encoded = |format| {
        let mut bytes = vec![];
        image.write_to(&mut std::io::Cursor::new(&mut bytes), format).unwrap();
        bytes
    };
    let png = encoded(image::ImageOutputFormat::Png);
    assert_eq!(load_image("a.png", &png, None).unwrap(), taken(&image));
    assert_eq!(
        load_image("a.bmp", &encoded(image::ImageOutputFormat::Bmp), None).unwrap(),
        taken(&image)
    );
    assert_eq!(load_image("a.txt", &png, None).unwrap_err(), InputError::Dimensions);
    assert_eq!(load_image("a.png", &png[..20], None).unwrap_err(), InputError::Dimensions);
    assert_eq!(load_image("a.png", &png[..png.len() - 20], None).unwrap_err(), InputError::Decode);
    assert!(check_dimensions(Some((16384, 3906))).is_ok());
    assert!(check_dimensions(Some((0, 1))).is_err());
    assert_eq!(check_dimensions(None), Err(InputError::Dimensions));
    assert_eq!(
        InputError::Decode.message(),
        "Cannot decode image (PNG, JPEG, WebP, BMP or GIF expected)"
    );
    assert_eq!(extensions(), ["png", "jpg", "jpeg", "webp", "bmp", "gif"]);
}

#[test]
fn a_near_resize_takes_the_pixel_that_each_middle_falls_in() {
    let image = RgbaImage::from_fn(7, 5, |x, y| image::Rgba([x as u8, y as u8, 3, 255]));
    let still = Turn { sine: single(0.), cosine: single(1.) };
    for (w, h) in [(3, 11), (20, 2), (7, 5)] {
        let c = Config { signal: format!("{w}x{h}"), filter: Filter::Nearest, ..Config::default() };
        let out = given(&prepare(&taken(&image), &c, still, still, &None).unwrap());
        let at = |i: u32, from: u32, to: u32| {
            (((i as f32 + 0.5) * (from as f32 / to as f32)).floor() as u32).min(from - 1)
        };
        for (x, y, pixel) in out.enumerate_pixels() {
            assert_eq!(pixel, image.get_pixel(at(x, 7, w), at(y, 5, h)));
        }
    }
}
