//! The gallery of NES color tables. Each is a PNG strip: 64 squares of 64 by 64, red across a
//! square, green down it, and a square to each blue.
use crate::crt::lut::{Lut, LutError};
use crate::number::Real32;
use vstd::prelude::*;

verus! {

/// The gallery's names, in order.
pub open spec fn entries() -> Seq<Seq<char>> {
    seq![
        "00 - NES SMPTE-2025"@,
        "01 - NES NTSC SAT_x1"@,
        "01 - NES NTSC SAT_x2"@,
        "02 - NES Classic (FBX)"@,
        "03 - NES Composite Direct (FBX)"@,
        "04 - NES PC-10"@,
        "05 - NES PVM Style D93 (FBX)"@,
        "06 - NES Smooth (FBX)"@,
        "07 - NES Sony CXA"@,
        "08 - NES Wavebeam"@,
        "09 - NES ASQ_realityA"@,
        "10 - NES ASQ_realityB"@,
        "11 - NES BMF_final2"@,
        "12 - NES BMF_final3"@,
        "13 - NES FCEU-13-default_nitsuja"@,
        "14 - NES FCEU-15-nitsuja_new"@,
        "15 - NES FCEUX"@,
        "16 - NES nestopia_rgb"@,
        "17 - NES nestopia_yuv"@,
        "18 - NES RP2C03"@,
        "19 - NES SONY_CXA2025AS_US"@,
        "20 - NES Unsaturated-V6"@,
        "21 - NES YUV"@,
        "22 - NES RGB"@,
        "23 - NES Nintendulator NTSC"@,
        "24 - NES PAL"@,
        "25 - NES Rockman 9 - 21 to 2C"@,
        "26 - NES Rockman 9"@,
        "27 - NES Kizul's Definitive NES Palette"@,
        "28 - NES NES Classic Edition"@,
        "29 - NES 3DS VC"@,
        "30 - NES HYBRID"@,
        "31 - NES NESCAP"@,
        "32 - NES NESCLASSIC"@,
        "33 - NES RP2C04_0001"@,
        "34 - NES RP2C04_0002"@,
        "35 - NES RP2C04_0003"@,
        "36 - NES RP2C04_0004"@,
    ]
}

/// The gallery's names, in order.
pub fn names() -> (r: Vec<&'static str>)
    ensures
        r@.len() == 38,
        forall|i: int| 0 <= i < 38 ==> (#[trigger] r@[i])@ == entries()[i],
{
    let mut names: Vec<&'static str> = Vec::new();
    names.push("00 - NES SMPTE-2025");
    names.push("01 - NES NTSC SAT_x1");
    names.push("01 - NES NTSC SAT_x2");
    names.push("02 - NES Classic (FBX)");
    names.push("03 - NES Composite Direct (FBX)");
    names.push("04 - NES PC-10");
    names.push("05 - NES PVM Style D93 (FBX)");
    names.push("06 - NES Smooth (FBX)");
    names.push("07 - NES Sony CXA");
    names.push("08 - NES Wavebeam");
    names.push("09 - NES ASQ_realityA");
    names.push("10 - NES ASQ_realityB");
    names.push("11 - NES BMF_final2");
    names.push("12 - NES BMF_final3");
    names.push("13 - NES FCEU-13-default_nitsuja");
    names.push("14 - NES FCEU-15-nitsuja_new");
    names.push("15 - NES FCEUX");
    names.push("16 - NES nestopia_rgb");
    names.push("17 - NES nestopia_yuv");
    names.push("18 - NES RP2C03");
    names.push("19 - NES SONY_CXA2025AS_US");
    names.push("20 - NES Unsaturated-V6");
    names.push("21 - NES YUV");
    names.push("22 - NES RGB");
    names.push("23 - NES Nintendulator NTSC");
    names.push("24 - NES PAL");
    names.push("25 - NES Rockman 9 - 21 to 2C");
    names.push("26 - NES Rockman 9");
    names.push("27 - NES Kizul's Definitive NES Palette");
    names.push("28 - NES NES Classic Edition");
    names.push("29 - NES 3DS VC");
    names.push("30 - NES HYBRID");
    names.push("31 - NES NESCAP");
    names.push("32 - NES NESCLASSIC");
    names.push("33 - NES RP2C04_0001");
    names.push("34 - NES RP2C04_0002");
    names.push("35 - NES RP2C04_0003");
    names.push("36 - NES RP2C04_0004");
    names
}

/// Why a table is not loaded.
#[derive(Clone, Copy, PartialEq, Eq, Structural, Debug)]
pub enum StripError {
    /// No such entry of the gallery.
    Unknown,
    /// Not a PNG that can be decoded.
    Decode,
    /// Not 4096 by 64.
    Size,
    Lut(LutError),
}

impl StripError {
    pub fn message(&self) -> (r: &'static str)
        ensures
            *self is Unknown ==> r@ == "Unknown NES LUT gallery entry"@,
            *self is Decode ==> r@ == "Could not decode bundled NES LUT"@,
            *self is Size ==> r@ == "NES LUT must be a 4096 × 64 strip"@,
            *self matches StripError::Lut(e) ==> r@ == e.text(),
    {
        match self {
            StripError::Unknown => "Unknown NES LUT gallery entry",
            StripError::Decode => "Could not decode bundled NES LUT",
            StripError::Size => "NES LUT must be a 4096 × 64 strip",
            StripError::Lut(e) => e.message(),
        }
    }
}

/// A decoded strip: its size, and three bytes to a pixel.
#[derive(Debug)]
pub struct Strip {
    pub width: u32,
    pub height: u32,
    pub pixels: Vec<u8>,
}

/// The width, the height and the red, green and blue bytes that
/// `image::load_from_memory_with_format` and `to_rgb8` give of a PNG, where they give any.
pub uninterp spec fn png_pixels(png: Seq<u8>) -> Option<(u32, u32, Seq<u8>)>;

/// Decodes a PNG with `image::load_from_memory_with_format`, and takes it to eight bits of red,
/// green and blue with `DynamicImage::to_rgb8`. A PNG decodes without loss, so the outcome is one
/// of the bytes alone. There are three bytes to every pixel.
#[verifier::external_body]
fn decode_png(png: &[u8]) -> (r: Option<Strip>)
    ensures
        match (r, png_pixels(png@)) {
            (None, None) => true,
            (Some(strip), Some((width, height, pixels))) => strip.width == width && strip.height
                == height && strip.pixels@ == pixels && pixels.len() == 3 * (width * height),
            _ => false,
        },
{
    let decoded = image::load_from_memory_with_format(png, image::ImageFormat::Png).ok()?;
    let image = decoded.to_rgb8();
    Some(Strip { width: image.width(), height: image.height(), pixels: image.into_raw() })
}

/// Where a strip holds a color's place: the byte of channel `c` at red `n % 64`, green
/// `n / 64 % 64` and blue `n / 4096`.
pub open spec fn strip_byte(n: int, c: int) -> int {
    3 * ((n / 64 % 64) * 4096 + (n / 4096) * 64 + n % 64) + c
}

/// A table's color at a place, from a strip.
pub open spec fn strip_color(pixels: Seq<u8>, n: int) -> Seq<Real32> {
    Seq::new(3, |c: int| crate::crt::lut::share(pixels[strip_byte(n, c)]))
}

/// Whether a table holds what a strip does, red the fastest, then green, then blue.
pub open spec fn holds_strip(lut: Lut, pixels: Seq<u8>) -> bool {
    &&& lut.size == 64
    &&& lut.domain_min@ == seq![
        crate::crt::lut::zero(),
        crate::crt::lut::zero(),
        crate::crt::lut::zero(),
    ]
    &&& lut.domain_max@ == seq![
        crate::crt::lut::one(),
        crate::crt::lut::one(),
        crate::crt::lut::one(),
    ]
    &&& lut.values@.len() == 262144
    &&& forall|n: int|
        0 <= n < 262144 ==> (#[trigger] lut.values@[n])@ == strip_color(pixels, n)
}

/// Share after share is a value that a table may hold.
proof fn lemma_shares_are_values(byte: u8)
    ensures
        crate::crt::lut::value_ok(crate::crt::lut::share(byte)),
{
    let f = crate::float::Format::Single;
    let a = f.of(byte as nat);
    let b = f.of(255);
    reveal(Real32::of);
    reveal(Real32::over);
    reveal(Real32::finite);
    reveal(Real32::absolute);
    reveal(Real32::up_to);
    crate::float::small_integers_are_exact(f, byte as nat);
    crate::float::small_integers_are_exact(f, 255);
    let u = crate::float::unit_pow(0);
    crate::float::lemma_unit_pow_grows(0, 0);
    assert(crate::float::scaled(byte as nat, 0) <= crate::float::scaled(255, 0)
        && crate::float::scaled(255, 0) > 0) by (nonlinear_arith)
        requires
            byte <= 255,
            crate::float::unit_pow(0) > 0,
    ;
    crate::float::shares_are_at_most_one(f, a, b);
    crate::float::one_is_exact(f);
}

proof fn lemma_strip_is_a_table(lut: Lut, pixels: Seq<u8>)
    requires
        holds_strip(lut, pixels),
        crate::text::bytes(lut.name@) <= 1024,
    ensures
        lut.fault() is None,
{
    assert forall|n: int| 0 <= n < lut.values@.len() implies crate::crt::lut::row_ok(
        #[trigger] lut.values@[n],
    ) by {
        let row = lut.values@[n]@;
        assert(row == strip_color(pixels, n));
        lemma_shares_are_values(pixels[strip_byte(n, 0)]);
        lemma_shares_are_values(pixels[strip_byte(n, 1)]);
        lemma_shares_are_values(pixels[strip_byte(n, 2)]);
    }
    reveal(Real32::finite);
    reveal(Real32::below);
}

/// What a decoded strip gives, under a name.
pub fn strip_lut(name: &str, strip: &Strip) -> (r: Result<Lut, StripError>)
    requires
        strip.pixels@.len() == 3 * (strip.width * strip.height),
    ensures
        (strip.width, strip.height) != (4096u32, 64u32) ==> r == Err::<Lut, StripError>(
            StripError::Size,
        ),
        (strip.width, strip.height) == (4096u32, 64u32) && crate::text::bytes(name@) <= 1024
            ==> (r matches Ok(lut) && lut.name@ == name@ && holds_strip(lut, strip.pixels@)),
        (strip.width, strip.height) == (4096u32, 64u32) && crate::text::bytes(name@) > 1024
            ==> r == Err::<Lut, StripError>(StripError::Lut(LutError::Name)),
{
    if strip.width != 4096 || strip.height != 64 {
        return Err(StripError::Size);
    }
    let mut values: Vec<[Real32; 3]> = Vec::new();
    let mut n: usize = 0;
    while n < 262144
        invariant
            n <= 262144,
            values@.len() == n,
            strip.pixels@.len() == 786432,
            forall|k: int|
                0 <= k < n ==> (#[trigger] values@[k])@ == strip_color(strip.pixels@, k),
        decreases 262144 - n,
    {
        let at: usize = 3 * ((n / 64 % 64) * 4096 + (n / 4096) * 64 + n % 64);
        let full: Real32 = Real32::from_integer(255);
        let color: [Real32; 3] = [
            Real32::from_integer(strip.pixels[at] as u64).div(full),
            Real32::from_integer(strip.pixels[at + 1] as u64).div(full),
            Real32::from_integer(strip.pixels[at + 2] as u64).div(full),
        ];
        assert(color@ =~= strip_color(strip.pixels@, n as int));
        values.push(color);
        n = n + 1;
    }
    let zero: Real32 = Real32 { bits: 0 };
    let one: Real32 = Real32 { bits: 0x3f80_0000 };
    let domain_min: [Real32; 3] = [zero, zero, zero];
    let domain_max: [Real32; 3] = [one, one, one];
    assert(domain_min@ =~= seq![zero, zero, zero]);
    assert(domain_max@ =~= seq![one, one, one]);
    let lut: Lut = Lut {
        name: name.to_owned(),
        size: 64,
        domain_min,
        domain_max,
        values,
    };
    proof {
        if crate::text::bytes(name@) <= 1024 {
            lemma_strip_is_a_table(lut, strip.pixels@);
        }
        assert(crate::crt::lut::cubed(64) == 262144);
    }
    match lut.validate() {
        Ok(()) => Ok(lut),
        Err(e) => Err(StripError::Lut(e)),
    }
}

/// What a PNG gives, under a name.
pub fn decode_strip(name: &str, png: &[u8]) -> (r: Result<Lut, StripError>)
    ensures
        match png_pixels(png@) {
            None => r == Err::<Lut, StripError>(StripError::Decode),
            Some((width, height, pixels)) => if (width, height) != (4096u32, 64u32) {
                r == Err::<Lut, StripError>(StripError::Size)
            } else if crate::text::bytes(name@) > 1024 {
                r == Err::<Lut, StripError>(StripError::Lut(LutError::Name))
            } else {
                r matches Ok(lut) && lut.name@ == name@ && holds_strip(lut, pixels)
            },
        },
{
    match decode_png(png) {
        None => Err(StripError::Decode),
        Some(strip) => strip_lut(name, &strip),
    }
}

/// No name of the gallery is too long for a table.
proof fn lemma_names_are_short(i: int)
    requires
        0 <= i < 38,
    ensures
        crate::text::bytes(entries()[i]) <= 1024,
{
    assert(entries()[i].len() <= 64) by {
        reveal_strlit("00 - NES SMPTE-2025");
        reveal_strlit("01 - NES NTSC SAT_x1");
        reveal_strlit("01 - NES NTSC SAT_x2");
        reveal_strlit("02 - NES Classic (FBX)");
        reveal_strlit("03 - NES Composite Direct (FBX)");
        reveal_strlit("04 - NES PC-10");
        reveal_strlit("05 - NES PVM Style D93 (FBX)");
        reveal_strlit("06 - NES Smooth (FBX)");
        reveal_strlit("07 - NES Sony CXA");
        reveal_strlit("08 - NES Wavebeam");
        reveal_strlit("09 - NES ASQ_realityA");
        reveal_strlit("10 - NES ASQ_realityB");
        reveal_strlit("11 - NES BMF_final2");
        reveal_strlit("12 - NES BMF_final3");
        reveal_strlit("13 - NES FCEU-13-default_nitsuja");
        reveal_strlit("14 - NES FCEU-15-nitsuja_new");
        reveal_strlit("15 - NES FCEUX");
        reveal_strlit("16 - NES nestopia_rgb");
        reveal_strlit("17 - NES nestopia_yuv");
        reveal_strlit("18 - NES RP2C03");
        reveal_strlit("19 - NES SONY_CXA2025AS_US");
        reveal_strlit("20 - NES Unsaturated-V6");
        reveal_strlit("21 - NES YUV");
        reveal_strlit("22 - NES RGB");
        reveal_strlit("23 - NES Nintendulator NTSC");
        reveal_strlit("24 - NES PAL");
        reveal_strlit("25 - NES Rockman 9 - 21 to 2C");
        reveal_strlit("26 - NES Rockman 9");
        reveal_strlit("27 - NES Kizul's Definitive NES Palette");
        reveal_strlit("28 - NES NES Classic Edition");
        reveal_strlit("29 - NES 3DS VC");
        reveal_strlit("30 - NES HYBRID");
        reveal_strlit("31 - NES NESCAP");
        reveal_strlit("32 - NES NESCLASSIC");
        reveal_strlit("33 - NES RP2C04_0001");
        reveal_strlit("34 - NES RP2C04_0002");
        reveal_strlit("35 - NES RP2C04_0003");
        reveal_strlit("36 - NES RP2C04_0004");
    }
    crate::text::characters_take_four_bytes_at_most(entries()[i]);
}

/// No two names of the gallery are the same.
pub proof fn gallery_names_are_unique(i: int, j: int)
    requires
        0 <= i < j < 38,
    ensures
        entries()[i] != entries()[j],
{
    reveal_strlit("00 - NES SMPTE-2025");
    reveal_strlit("01 - NES NTSC SAT_x1");
    reveal_strlit("01 - NES NTSC SAT_x2");
    reveal_strlit("02 - NES Classic (FBX)");
    reveal_strlit("03 - NES Composite Direct (FBX)");
    reveal_strlit("04 - NES PC-10");
    reveal_strlit("05 - NES PVM Style D93 (FBX)");
    reveal_strlit("06 - NES Smooth (FBX)");
    reveal_strlit("07 - NES Sony CXA");
    reveal_strlit("08 - NES Wavebeam");
    reveal_strlit("09 - NES ASQ_realityA");
    reveal_strlit("10 - NES ASQ_realityB");
    reveal_strlit("11 - NES BMF_final2");
    reveal_strlit("12 - NES BMF_final3");
    reveal_strlit("13 - NES FCEU-13-default_nitsuja");
    reveal_strlit("14 - NES FCEU-15-nitsuja_new");
    reveal_strlit("15 - NES FCEUX");
    reveal_strlit("16 - NES nestopia_rgb");
    reveal_strlit("17 - NES nestopia_yuv");
    reveal_strlit("18 - NES RP2C03");
    reveal_strlit("19 - NES SONY_CXA2025AS_US");
    reveal_strlit("20 - NES Unsaturated-V6");
    reveal_strlit("21 - NES YUV");
    reveal_strlit("22 - NES RGB");
    reveal_strlit("23 - NES Nintendulator NTSC");
    reveal_strlit("24 - NES PAL");
    reveal_strlit("25 - NES Rockman 9 - 21 to 2C");
    reveal_strlit("26 - NES Rockman 9");
    reveal_strlit("27 - NES Kizul's Definitive NES Palette");
    reveal_strlit("28 - NES NES Classic Edition");
    reveal_strlit("29 - NES 3DS VC");
    reveal_strlit("30 - NES HYBRID");
    reveal_strlit("31 - NES NESCAP");
    reveal_strlit("32 - NES NESCLASSIC");
    reveal_strlit("33 - NES RP2C04_0001");
    reveal_strlit("34 - NES RP2C04_0002");
    reveal_strlit("35 - NES RP2C04_0003");
    reveal_strlit("36 - NES RP2C04_0004");
    if entries()[i] == entries()[j] {
        assert(entries()[i][0] == entries()[j][0] && entries()[i][1] == entries()[j][1]);
        if i == 1 && j == 2 {
            assert(entries()[1][19] == '1' && entries()[2][19] == '2');
        }
    }
}

/// Loads the gallery's entry `index` from its PNG, with the values and the order of a .cube file.
pub fn load(index: usize, png: &[u8]) -> (r: Result<Lut, StripError>)
    ensures
        index >= 38 ==> r == Err::<Lut, StripError>(StripError::Unknown),
        index < 38 ==> match png_pixels(png@) {
            None => r == Err::<Lut, StripError>(StripError::Decode),
            Some((width, height, pixels)) => if (width, height) != (4096u32, 64u32) {
                r == Err::<Lut, StripError>(StripError::Size)
            } else {
                r matches Ok(lut) && lut.name@ == entries()[index as int] && holds_strip(
                    lut,
                    pixels,
                )
            },
        },
{
    let names: Vec<&'static str> = names();
    if index >= names.len() {
        return Err(StripError::Unknown);
    }
    let name: &'static str = names[index];
    proof {
        lemma_names_are_short(index as int);
    }
    decode_strip(name, png)
}

} // verus!
