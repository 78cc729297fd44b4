//! Color lookup tables: reading `.cube` files, and mapping colors through a table.
use crate::crt::picture::Picture;
use crate::decimal::parse_decimal;
use crate::float::Format;
use crate::number::Real32;
use crate::text::{
    begins_with, chars_of, find_char, find_integer_fault, is_text, lines_of, parse_unsigned, trim,
    words_of, IntegerFault,
};
use vstd::prelude::*;
use vstd::slice::*;
use vstd::string::*;

verus! {

/// Why a table is refused.
#[derive(Clone, Copy, PartialEq, Eq, Structural, Debug)]
pub enum LutError {
    /// The text is longer than 16 MB.
    TooLong,
    /// `LUT_3D_SIZE` without one number, or a second time.
    SizeLine,
    /// A size that is no number.
    Integer(IntegerFault),
    /// A number that cannot be read.
    Number,
    /// A size outside 2–65.
    Size,
    /// A domain line without three numbers, or a domain that is empty or not finite.
    Domain,
    /// A one-dimensional table.
    OneDimensional,
    /// A row without three values, or more rows than the largest table has.
    Row,
    /// A line that is neither a row nor a known directive.
    Directive,
    /// As many values as the size does not ask for.
    TableSize,
    /// A name longer than 1024 bytes.
    Name,
    /// A value that is not finite, or past ±100.
    Value,
}

impl LutError {
    pub open spec fn text(self) -> Seq<char> {
        match self {
            LutError::TooLong => "LUT exceeds 16 MB"@,
            LutError::SizeLine => "Invalid or duplicate LUT_3D_SIZE"@,
            LutError::Integer(fault) => fault.text(),
            LutError::Number => "invalid float literal"@,
            LutError::Size => "3D LUT size must be 2–65"@,
            LutError::Domain => "Invalid LUT domain"@,
            LutError::OneDimensional => "Use a 3D .cube LUT; 1D LUTs are not supported"@,
            LutError::Row => "Invalid LUT row"@,
            LutError::Directive => "Unknown .cube directive"@,
            LutError::TableSize => "LUT table size does not match LUT_3D_SIZE"@,
            LutError::Name => "LUT name too long"@,
            LutError::Value => "Invalid LUT value"@,
        }
    }

    pub fn message(&self) -> (r: &'static str)
        ensures
            r@ == self.text(),
    {
        match *self {
            LutError::TooLong => "LUT exceeds 16 MB",
            LutError::SizeLine => "Invalid or duplicate LUT_3D_SIZE",
            LutError::Integer(fault) => fault.message(),
            LutError::Number => "invalid float literal",
            LutError::Size => "3D LUT size must be 2–65",
            LutError::Domain => "Invalid LUT domain",
            LutError::OneDimensional => "Use a 3D .cube LUT; 1D LUTs are not supported",
            LutError::Row => "Invalid LUT row",
            LutError::Directive => "Unknown .cube directive",
            LutError::TableSize => "LUT table size does not match LUT_3D_SIZE",
            LutError::Name => "LUT name too long",
            LutError::Value => "Invalid LUT value",
        }
    }
}

/// A color table with `size` samples along each side, red the fastest, then green, then blue.
#[derive(Clone, Debug, PartialEq, Eq)]
pub struct Lut {
    pub name: String,
    pub size: usize,
    pub domain_min: [Real32; 3],
    pub domain_max: [Real32; 3],
    pub values: Vec<[Real32; 3]>,
}

pub open spec fn zero() -> Real32 {
    Real32 { bits: 0 }
}

pub open spec fn one() -> Real32 {
    Real32 { bits: 0x3f80_0000 }
}

pub open spec fn hundred() -> Real32 {
    Real32 { bits: 0x42c8_0000 }
}

/// The most rows a table can have.
pub open spec fn most_rows() -> nat {
    65 * 65 * 65
}

pub open spec fn cubed(n: nat) -> nat {
    n * n * n
}

pub open spec fn value_ok(v: Real32) -> bool {
    v.finite() && v.absolute().up_to(hundred())
}

pub open spec fn row_ok(row: [Real32; 3]) -> bool {
    value_ok(row@[0]) && value_ok(row@[1]) && value_ok(row@[2])
}

pub open spec fn axis_ok(min: Real32, max: Real32) -> bool {
    min.finite() && max.finite() && min.below(max)
}

impl Lut {
    pub open spec fn contents(self) -> Cube {
        Cube {
            size: self.size as nat,
            min: self.domain_min,
            max: self.domain_max,
            values: self.values@,
        }
    }

    /// What is wrong with a table, if anything.
    pub open spec fn fault(self) -> Option<LutError> {
        fault_of(self.name@, self.contents())
    }

    /// Whether two tables hold the same name and numbers.
    pub open spec fn equal(self, other: Self) -> bool {
        &&& self.name@ == other.name@
        &&& self.size == other.size
        &&& row_equal(self.domain_min, other.domain_min)
        &&& row_equal(self.domain_max, other.domain_max)
        &&& self.values@.len() == other.values@.len()
        &&& forall|i: int|
            0 <= i < self.values@.len() ==> row_equal(#[trigger] self.values@[i], other.values@[i])
    }
}

pub open spec fn row_equal(a: [Real32; 3], b: [Real32; 3]) -> bool {
    a@[0].equal(b@[0]) && a@[1].equal(b@[1]) && a@[2].equal(b@[2])
}

fn same_row(a: &[Real32; 3], b: &[Real32; 3]) -> (r: bool)
    ensures
        r == row_equal(*a, *b),
{
    a[0].same(b[0]) && a[1].same(b[1]) && a[2].same(b[2])
}

/// What is wrong with a table of these contents under a name, if anything.
pub open spec fn fault_of(name: Seq<char>, cube: Cube) -> Option<LutError> {
    if !(2 <= cube.size <= 65 && cube.values.len() == cubed(cube.size)) {
        Some(LutError::TableSize)
    } else if crate::text::bytes(name) > 1024 {
        Some(LutError::Name)
    } else if !(forall|k: int| 0 <= k < 3 ==> axis_ok(#[trigger] cube.min@[k], cube.max@[k])) {
        Some(LutError::Domain)
    } else if !(forall|i: int| 0 <= i < cube.values.len() ==> row_ok(#[trigger] cube.values[i])) {
        Some(LutError::Value)
    } else {
        None
    }
}

/// The numbers of a table, as a `.cube` file gives them.
pub struct Cube {
    pub size: nat,
    pub min: [Real32; 3],
    pub max: [Real32; 3],
    pub values: Seq<[Real32; 3]>,
}

pub open spec fn blank_cube() -> Cube {
    Cube {
        size: 0,
        min: [zero(), zero(), zero()],
        max: [one(), one(), one()],
        values: Seq::empty(),
    }
}

/// A line without its comment and the white space around it.
pub open spec fn content(line: Seq<char>) -> Seq<char> {
    crate::text::trimmed(line.take(crate::text::first_at(line, '#', 0)))
}

pub open spec fn single(word: Seq<char>) -> Option<Real32> {
    match crate::decimal::decimal_bits(Format::Single, word) {
        Some(bits) => Some(Real32 { bits: bits as u32 }),
        None => None,
    }
}

pub open spec fn triple(a: Seq<char>, b: Seq<char>, c: Seq<char>) -> Option<[Real32; 3]> {
    match (single(a), single(b), single(c)) {
        (Some(x), Some(y), Some(z)) => Some([x, y, z]),
        _ => None,
    }
}

/// What a line that is not blank, a comment or a title says.
pub open spec fn directive(cube: Cube, words: Seq<Seq<char>>) -> Result<Cube, LutError> {
    if words[0] == "LUT_3D_SIZE"@ {
        if words.len() != 2 || cube.size != 0 {
            Err(LutError::SizeLine)
        } else {
            match crate::text::unsigned(words[1], usize::MAX as nat) {
                None => Err(
                    LutError::Integer(crate::text::integer_fault(words[1], usize::MAX as nat)),
                ),
                Some(n) => if 2 <= n <= 65 {
                    Ok(Cube { size: n, ..cube })
                } else {
                    Err(LutError::Size)
                },
            }
        }
    } else if words[0] == "DOMAIN_MIN"@ || words[0] == "DOMAIN_MAX"@ {
        if words.len() != 4 {
            Err(LutError::Domain)
        } else {
            match triple(words[1], words[2], words[3]) {
                None => Err(LutError::Number),
                Some(v) => if words[0] == "DOMAIN_MIN"@ {
                    Ok(Cube { min: v, ..cube })
                } else {
                    Ok(Cube { max: v, ..cube })
                },
            }
        }
    } else if words[0] == "LUT_1D_SIZE"@ {
        Err(LutError::OneDimensional)
    } else if words.len() != 3 || cube.values.len() >= most_rows() {
        Err(LutError::Row)
    } else if single(words[0]) is None {
        Err(LutError::Directive)
    } else {
        match triple(words[0], words[1], words[2]) {
            None => Err(LutError::Number),
            Some(v) => Ok(Cube { values: cube.values.push(v), ..cube }),
        }
    }
}

pub open spec fn read_line(cube: Cube, line: Seq<char>) -> Result<Cube, LutError> {
    let text = content(line);
    if text.len() == 0 || crate::text::begins(text, "TITLE "@) {
        Ok(cube)
    } else {
        directive(cube, crate::text::words(text))
    }
}

/// The lines of a `.cube` file, read in turn until one is refused.
pub open spec fn read_lines(cube: Cube, lines: Seq<Seq<char>>) -> Result<Cube, LutError>
    decreases lines.len(),
{
    if lines.len() == 0 {
        Ok(cube)
    } else {
        match read_line(cube, lines[0]) {
            Err(e) => Err(e),
            Ok(next) => read_lines(next, lines.skip(1)),
        }
    }
}

/// What a `.cube` file's text holds.
pub open spec fn cube_of(text: Seq<char>) -> Result<Cube, LutError> {
    if crate::text::bytes(text) > 16 * 1024 * 1024 {
        Err(LutError::TooLong)
    } else {
        read_lines(blank_cube(), crate::text::lines(text))
    }
}

impl Lut {
    /// The table that a `.cube` file's text holds.
    pub fn parse_cube(name: String, text: &str) -> (r: Result<Lut, LutError>)
        ensures
            match cube_of(text@) {
                Err(e) => r == Err::<Lut, LutError>(e),
                Ok(cube) => match fault_of(name@, cube) {
                    Some(e) => r == Err::<Lut, LutError>(e),
                    None => r matches Ok(lut) && lut.name == name && lut.contents() == cube,
                },
            },
    {
        if text.len() > 16 * 1024 * 1024 {
            return Err(LutError::TooLong);
        }
        let chars: Vec<char> = chars_of(text);
        let lines: Vec<Vec<char>> = lines_of(chars.as_slice());
        let mut lut: Lut = Lut {
            name,
            size: 0,
            domain_min: [Real32 { bits: 0 }, Real32 { bits: 0 }, Real32 { bits: 0 }],
            domain_max: [
                Real32 { bits: 0x3f80_0000 },
                Real32 { bits: 0x3f80_0000 },
                Real32 { bits: 0x3f80_0000 },
            ],
            values: Vec::new(),
        };
        let ghost all = crate::text::views(lines@);
        let ghost mut cube = blank_cube();
        let mut i: usize = 0;
        proof {
            assert(all.skip(0) == all);
            assert(lut.domain_min@ =~= cube.min@);
            assert(lut.domain_max@ =~= cube.max@);
            assert(lut.contents().values =~= cube.values);
        }
        while i < lines.len()
            invariant
                i <= lines@.len(),
                all == crate::text::views(lines@),
                cube_of(text@) == read_lines(blank_cube(), all),
                lut.name == name,
                lut.contents() == cube,
                read_lines(blank_cube(), all) == read_lines(cube, all.skip(i as int)),
            decreases lines@.len() - i,
        {
            proof {
                assert(all.skip(i as int)[0] == lines@[i as int]@);
                assert(all.skip(i as int).skip(1) == all.skip(i as int + 1));
            }
            match lut.take_line(lines[i].as_slice(), Ghost(cube)) {
                Err(e) => {
                    return Err(e);
                },
                Ok(()) => {},
            }
            proof {
                cube = read_line(cube, lines@[i as int]@)->Ok_0;
            }
            i = i + 1;
        }
        proof {
            assert(all.skip(i as int) == Seq::<Seq<char>>::empty());
        }
        match lut.validate() {
            Err(e) => Err(e),
            Ok(()) => Ok(lut),
        }
    }

    fn take_line(&mut self, line: &[char], Ghost(cube): Ghost<Cube>) -> (r: Result<(), LutError>)
        requires
            old(self).contents() == cube,
        ensures
            final(self).name == old(self).name,
            match read_line(cube, line@) {
                Ok(next) => r is Ok && final(self).contents() == next,
                Err(e) => r == Err::<(), LutError>(e),
            },
    {
        let end: usize = find_char(line, '#', 0);
        let head: &[char] = slice_subrange(line, 0, end);
        assert(head@ == line@.take(end as int));
        let text: &[char] = trim(head);
        if text.len() == 0 || begins_with(text, "TITLE ") {
            return Ok(());
        }
        let words: Vec<Vec<char>> = words_of(text);
        let ghost spoken = crate::text::words(text@);
        proof {
            crate::text::lemma_trimmed_starts_solid(head@);
            assert(spoken.len() > 0);
            assert(words@.len() == spoken.len());
            assert forall|k: int| 0 <= k < spoken.len() implies #[trigger] spoken[k]
                == words@[k]@ by {}
        }
        if is_text(words[0].as_slice(), "LUT_3D_SIZE") {
            if words.len() != 2 || self.size != 0 {
                return Err(LutError::SizeLine);
            }
            match parse_unsigned(words[1].as_slice(), usize::MAX as u64) {
                None => Err(
                    LutError::Integer(find_integer_fault(words[1].as_slice(), usize::MAX as u64)),
                ),
                Some(n) => {
                    if 2 <= n && n <= 65 {
                        self.size = n as usize;
                        Ok(())
                    } else {
                        Err(LutError::Size)
                    }
                },
            }
        } else if is_text(words[0].as_slice(), "DOMAIN_MIN") {
            if words.len() != 4 {
                return Err(LutError::Domain);
            }
            match read_triple(words[1].as_slice(), words[2].as_slice(), words[3].as_slice()) {
                None => Err(LutError::Number),
                Some(v) => {
                    self.domain_min = v;
                    Ok(())
                },
            }
        } else if is_text(words[0].as_slice(), "DOMAIN_MAX") {
            if words.len() != 4 {
                return Err(LutError::Domain);
            }
            match read_triple(words[1].as_slice(), words[2].as_slice(), words[3].as_slice()) {
                None => Err(LutError::Number),
                Some(v) => {
                    self.domain_max = v;
                    Ok(())
                },
            }
        } else if is_text(words[0].as_slice(), "LUT_1D_SIZE") {
            Err(LutError::OneDimensional)
        } else {
            if words.len() != 3 || self.values.len() >= 65 * 65 * 65 {
                return Err(LutError::Row);
            }
            if read_single(words[0].as_slice()).is_none() {
                return Err(LutError::Directive);
            }
            match read_triple(words[0].as_slice(), words[1].as_slice(), words[2].as_slice()) {
                None => Err(LutError::Number),
                Some(v) => {
                    self.values.push(v);
                    Ok(())
                },
            }
        }
    }

    /// Checks a table's size, name, domain and values.
    #[verifier::loop_isolation(false)]
    pub fn validate(&self) -> (r: Result<(), LutError>)
        ensures
            r == match self.fault() {
                None => Ok::<(), LutError>(()),
                Some(e) => Err::<(), LutError>(e),
            },
    {
        let n: usize = self.size;
        if n < 2 || n > 65 {
            return Err(LutError::TableSize);
        }
        proof {
            assert(n * n <= 65 * 65) by (nonlinear_arith)
                requires
                    n <= 65,
            ;
            assert(n * n * n <= 65 * 65 * 65) by (nonlinear_arith)
                requires
                    n <= 65,
                    n * n <= 65 * 65,
            ;
        }
        if self.values.len() != n * n * n {
            return Err(LutError::TableSize);
        }
        if self.name.as_str().len() > 1024 {
            return Err(LutError::Name);
        }
        let mut axis: usize = 0;
        while axis < 3
            invariant
                axis <= 3,
                forall|k: int|
                    0 <= k < axis ==> axis_ok(#[trigger] self.domain_min@[k], self.domain_max@[k]),
            decreases 3 - axis,
        {
            let low: Real32 = self.domain_min[axis];
            let high: Real32 = self.domain_max[axis];
            if !(low.is_finite() && high.is_finite() && low.less(high)) {
                assert(!axis_ok(
                    self.contents().min@[axis as int],
                    self.contents().max@[axis as int],
                ));
                return Err(LutError::Domain);
            }
            axis = axis + 1;
        }
        let mut i: usize = 0;
        while i < self.values.len()
            invariant
                i <= self.values@.len(),
                forall|k: int| 0 <= k < i ==> row_ok(#[trigger] self.values@[k]),
            decreases self.values@.len() - i,
        {
            let row: [Real32; 3] = self.values[i];
            if !(plain_value(row[0]) && plain_value(row[1]) && plain_value(row[2])) {
                assert(!row_ok(self.values@[i as int]));
                return Err(LutError::Value);
            }
            i = i + 1;
        }
        Ok(())
    }

    /// A table of its own with the same name and numbers.
    pub fn copy(&self) -> (r: Lut)
        ensures
            r.name == self.name,
            r.contents() == self.contents(),
    {
        Lut {
            name: self.name.clone(),
            size: self.size,
            domain_min: self.domain_min,
            domain_max: self.domain_max,
            values: slice_to_vec(self.values.as_slice()),
        }
    }

    /// Whether two tables hold the same name and numbers.
    pub fn same(&self, other: &Lut) -> (r: bool)
        ensures
            r == self.equal(*other),
    {
        if !(self.name == other.name && self.size == other.size && same_row(
            &self.domain_min,
            &other.domain_min,
        ) && same_row(&self.domain_max, &other.domain_max) && self.values.len()
            == other.values.len()) {
            return false;
        }
        let mut i: usize = 0;
        while i < self.values.len()
            invariant
                i <= self.values@.len() == other.values@.len(),
                forall|k: int|
                    0 <= k < i ==> row_equal(#[trigger] self.values@[k], other.values@[k]),
            decreases self.values@.len() - i,
        {
            if !same_row(&self.values[i], &other.values[i]) {
                assert(!row_equal(self.values@[i as int], other.values@[i as int]));
                return false;
            }
            i = i + 1;
        }
        true
    }
}

fn plain_value(v: Real32) -> (r: bool)
    ensures
        r == value_ok(v),
{
    v.is_finite() && v.abs().at_most(Real32 { bits: 0x42c8_0000 })
}

fn read_single(word: &[char]) -> (r: Option<Real32>)
    ensures
        r == single(word@),
{
    match parse_decimal(Format::Single, word) {
        Some(bits) => Some(Real32 { bits: bits as u32 }),
        None => None,
    }
}

fn read_triple(a: &[char], b: &[char], c: &[char]) -> (r: Option<[Real32; 3]>)
    ensures
        r == triple(a@, b@, c@),
{
    match (read_single(a), read_single(b), read_single(c)) {
        (Some(x), Some(y), Some(z)) => Some([x, y, z]),
        _ => None,
    }
}


// -------------------------------------------------------------------------------------------
// Mapping colors
// -------------------------------------------------------------------------------------------

/// A number kept within 0 and 1.
pub open spec fn unit_clamped(v: Real32) -> Real32 {
    if v.below(zero()) {
        zero()
    } else if one().below(v) {
        one()
    } else {
        v
    }
}

/// An 8-bit step as a share of the brightest.
pub open spec fn share(byte: u8) -> Real32 {
    Real32::of(byte as nat).over(Real32::of(255))
}

impl Lut {
    /// Whether the table has a value at every place.
    pub open spec fn filled(self) -> bool {
        1 <= self.size <= 65 && self.values@.len() == cubed(self.size as nat)
    }

    /// Where a channel's step falls along its side of the table.
    pub open spec fn place(self, byte: u8, c: int) -> Real32 {
        unit_clamped(
            share(byte).minus(self.domain_min@[c]).over(
                self.domain_max@[c].minus(self.domain_min@[c]),
            ),
        ).times(Real32::of((self.size - 1) as nat))
    }

    /// The sample at or before that place, and the one after it.
    pub open spec fn before(self, byte: u8, c: int) -> nat {
        self.place(byte, c).truncated((self.size - 1) as nat)
    }

    pub open spec fn after(self, byte: u8, c: int) -> nat {
        if self.before(byte, c) + 1 < self.size {
            self.before(byte, c) + 1
        } else {
            (self.size - 1) as nat
        }
    }

    /// How far the place is past the sample before it.
    pub open spec fn past(self, byte: u8, c: int) -> Real32 {
        self.place(byte, c).minus(Real32::of(self.before(byte, c)))
    }

    /// Which of the two samples along a side corner `n` of a cell takes.
    pub open spec fn far(n: int, c: int) -> bool {
        if c == 0 {
            n % 2 == 1
        } else if c == 1 {
            (n / 2) % 2 == 1
        } else {
            n / 4 == 1
        }
    }

    pub open spec fn corner_sample(self, rgb: Seq<u8>, n: int, c: int) -> nat {
        if Self::far(n, c) {
            self.after(rgb[c], c)
        } else {
            self.before(rgb[c], c)
        }
    }

    pub open spec fn corner_index(self, rgb: Seq<u8>, n: int) -> int {
        self.corner_sample(rgb, n, 0) + self.size * self.corner_sample(rgb, n, 1) + self.size
            * self.size * self.corner_sample(rgb, n, 2)
    }

    pub open spec fn corner_side(self, rgb: Seq<u8>, n: int, c: int) -> Real32 {
        if Self::far(n, c) {
            self.past(rgb[c], c)
        } else {
            one().minus(self.past(rgb[c], c))
        }
    }

    /// How much of corner `n` of its cell a color takes.
    pub open spec fn corner_weight(self, rgb: Seq<u8>, n: int) -> Real32 {
        self.corner_side(rgb, n, 0).times(self.corner_side(rgb, n, 1)).times(
            self.corner_side(rgb, n, 2),
        )
    }

    /// A channel of the first `n` corners of a color's cell, weighted and added in turn.
    pub open spec fn weighted(self, rgb: Seq<u8>, c: int, n: nat) -> Real32
        decreases n,
    {
        if n == 0 {
            zero()
        } else {
            self.weighted(rgb, c, (n - 1) as nat).plus(
                self.values@[self.corner_index(rgb, n - 1)]@[c].times(
                    self.corner_weight(rgb, n - 1),
                ),
            )
        }
    }

    /// A channel of the color that the table gives for `rgb`.
    pub open spec fn looked_up(self, rgb: Seq<u8>, c: int) -> Real32 {
        unit_clamped(self.weighted(rgb, c, 8))
    }

    /// A channel of the color that the table gives, to the nearest 8-bit step; with a strength,
    /// only that much of the table's color, and the rest of its own.
    #[verifier::opaque]
    pub open spec fn tone(self, rgb: Seq<u8>, c: int, strength: Option<Real32>) -> u8 {
        let value = match strength {
            None => self.looked_up(rgb, c),
            Some(s) => share(rgb[c]).times(one().minus(s)).plus(self.looked_up(rgb, c).times(s)),
        };
        value.times(Real32::of(255)).rounded(255) as u8
    }

    /// What becomes of byte `i` of a picture's pixels.
    pub open spec fn applied(self, pixels: Seq<u8>, i: int, strength: Option<Real32>) -> u8 {
        if i % 4 == 3 {
            pixels[i]
        } else {
            self.tone(pixels.subrange(i - i % 4, i - i % 4 + 3), i % 4, strength)
        }
    }

    fn side(&self, byte: u8, c: usize) -> (r: (usize, usize, Real32))
        requires
            self.filled(),
            c < 3,
        ensures
            r.0 == self.before(byte, c as int),
            r.1 == self.after(byte, c as int),
            r.2 == self.past(byte, c as int),
            r.0 < self.size,
            r.1 < self.size,
    {
        let low: Real32 = self.domain_min[c];
        let own: Real32 = Real32::from_integer(byte as u64).div(Real32::from_integer(255));
        let place: Real32 = clamp_unit(own.sub(low).div(self.domain_max[c].sub(low))).mul(
            Real32::from_integer((self.size - 1) as u64),
        );
        let before: u32 = place.truncate((self.size - 1) as u32);
        let after: usize = if (before as usize) + 1 < self.size {
            before as usize + 1
        } else {
            self.size - 1
        };
        (before as usize, after, place.sub(Real32::from_integer(before as u64)))
    }

    fn look_up(&self, rgb: [u8; 3]) -> (r: [Real32; 3])
        requires
            self.filled(),
        ensures
            forall|c: int| 0 <= c < 3 ==> r@[c] == self.looked_up(rgb@, c),
    {
        let red: (usize, usize, Real32) = self.side(rgb[0], 0);
        let green: (usize, usize, Real32) = self.side(rgb[1], 1);
        let blue: (usize, usize, Real32) = self.side(rgb[2], 2);
        let unit: Real32 = Real32 { bits: 0x3f80_0000 };
        let mut total: [Real32; 3] = [Real32 { bits: 0 }, Real32 { bits: 0 }, Real32 { bits: 0 }];
        let size: usize = self.size;
        let mut n: usize = 0;
        while n < 8
            invariant
                n <= 8,
                self.filled(),
                size == self.size,
                unit == one(),
                red.0 == self.before(rgb@[0], 0) && red.1 == self.after(rgb@[0], 0),
                red.2 == self.past(rgb@[0], 0) && red.0 < size && red.1 < size,
                green.0 == self.before(rgb@[1], 1) && green.1 == self.after(rgb@[1], 1),
                green.2 == self.past(rgb@[1], 1) && green.0 < size && green.1 < size,
                blue.0 == self.before(rgb@[2], 2) && blue.1 == self.after(rgb@[2], 2),
                blue.2 == self.past(rgb@[2], 2) && blue.0 < size && blue.1 < size,
                forall|c: int| 0 <= c < 3 ==> total@[c] == self.weighted(rgb@, c, n as nat),
            decreases 8 - n,
        {
            let x: usize = if n % 2 == 1 {
                red.1
            } else {
                red.0
            };
            let y: usize = if (n / 2) % 2 == 1 {
                green.1
            } else {
                green.0
            };
            let z: usize = if n / 4 == 1 {
                blue.1
            } else {
                blue.0
            };
            proof {
                lemma_cell_index(size as int, x as int, y as int, z as int);
            }
            let index: usize = x + size * y + size * size * z;
            let wx: Real32 = if n % 2 == 1 {
                red.2
            } else {
                unit.sub(red.2)
            };
            let wy: Real32 = if (n / 2) % 2 == 1 {
                green.2
            } else {
                unit.sub(green.2)
            };
            let wz: Real32 = if n / 4 == 1 {
                blue.2
            } else {
                unit.sub(blue.2)
            };
            let weight: Real32 = wx.mul(wy).mul(wz);
            proof {
                assert(index == self.corner_index(rgb@, n as int));
                assert(weight == self.corner_weight(rgb@, n as int));
            }
            let row: [Real32; 3] = self.values[index];
            let r0: Real32 = total[0].add(row[0].mul(weight));
            let r1: Real32 = total[1].add(row[1].mul(weight));
            let r2: Real32 = total[2].add(row[2].mul(weight));
            total = [r0, r1, r2];
            n = n + 1;
        }
        [clamp_unit(total[0]), clamp_unit(total[1]), clamp_unit(total[2])]
    }

    fn map_channel(&self, found: Real32, byte: u8, strength: Option<Real32>) -> (r: u8)
        ensures
            r == (match strength {
                None => found,
                Some(s) => share(byte).times(one().minus(s)).plus(found.times(s)),
            }).times(Real32::of(255)).rounded(255) as u8,
    {
        let full: Real32 = Real32::from_integer(255);
        let unit: Real32 = Real32 { bits: 0x3f80_0000 };
        let value: Real32 = match strength {
            None => found,
            Some(s) => {
                let own: Real32 = Real32::from_integer(byte as u64).div(full);
                own.mul(unit.sub(s)).add(found.mul(s))
            },
        };
        value.mul(full).round(255) as u8
    }

    fn map_color(&self, rgb: [u8; 3], strength: Option<Real32>) -> (r: [u8; 3])
        requires
            self.filled(),
        ensures
            r@[0] == self.tone(rgb@, 0, strength),
            r@[1] == self.tone(rgb@, 1, strength),
            r@[2] == self.tone(rgb@, 2, strength),
    {
        proof {
            reveal(Lut::tone);
        }
        let found: [Real32; 3] = self.look_up(rgb);
        [
            self.map_channel(found[0], rgb[0], strength),
            self.map_channel(found[1], rgb[1], strength),
            self.map_channel(found[2], rgb[2], strength),
        ]
    }

    fn apply_all(&self, image: &mut Picture, strength: Option<Real32>)
        requires
            self.filled(),
            old(image).wf(),
        ensures
            final(image).wf(),
            final(image).same_size(*old(image)),
            forall|i: int|
                0 <= i < old(image).pixels@.len() ==> final(image).pixels@[i] == self.applied(
                    old(image).pixels@,
                    i,
                    strength,
                ),
    {
        let ghost before = image.pixels@;
        let n: usize = image.pixels.len();
        let mut i: usize = 0;
        while i < n
            invariant
                self.filled(),
                image.wf(),
                image.same_size(*old(image)),
                before == old(image).pixels@,
                n == before.len(),
                n == image.pixels@.len(),
                n % 4 == 0,
                i % 4 == 0,
                i <= n,
                forall|j: int| 0 <= j < i ==> image.pixels@[j] == self.applied(before, j, strength),
                forall|j: int| i <= j < n ==> image.pixels@[j] == before[j],
            decreases n - i,
        {
            let rgb: [u8; 3] = [image.pixels[i], image.pixels[i + 1], image.pixels[i + 2]];
            assert(rgb@ =~= before.subrange(i as int, i + 3));
            let mapped: [u8; 3] = self.map_color(rgb, strength);
            image.pixels.set(i, mapped[0]);
            image.pixels.set(i + 1, mapped[1]);
            image.pixels.set(i + 2, mapped[2]);
            i = i + 4;
        }
    }

    /// Maps every color of a picture through the table; transparency stays as it is.
    pub fn apply(&self, image: &mut Picture)
        requires
            self.filled(),
            old(image).wf(),
        ensures
            final(image).wf(),
            final(image).same_size(*old(image)),
            forall|i: int|
                0 <= i < old(image).pixels@.len() ==> final(image).pixels@[i] == self.applied(
                    old(image).pixels@,
                    i,
                    None,
                ),
    {
        self.apply_all(image, None)
    }

    /// Maps every color of a picture towards what the table gives: all the way at 1, and not at
    /// all at 0.
    pub fn apply_with_strength(&self, image: &mut Picture, strength: Real32)
        requires
            self.filled(),
            old(image).wf(),
        ensures
            final(image).wf(),
            final(image).same_size(*old(image)),
            forall|i: int|
                0 <= i < old(image).pixels@.len() ==> final(image).pixels@[i] == self.applied(
                    old(image).pixels@,
                    i,
                    Some(strength),
                ),
    {
        self.apply_all(image, Some(strength))
    }
}

pub(crate) fn clamp_unit(v: Real32) -> (r: Real32)
    ensures
        r == unit_clamped(v),
{
    let low: Real32 = Real32 { bits: 0 };
    let high: Real32 = Real32 { bits: 0x3f80_0000 };
    if v.less(low) {
        low
    } else if high.less(v) {
        high
    } else {
        v
    }
}

/// A place in a table is one of its values.
pub proof fn lemma_cell_index(size: int, x: int, y: int, z: int)
    requires
        1 <= size <= 65,
        0 <= x < size,
        0 <= y < size,
        0 <= z < size,
    ensures
        0 <= x + size * y + size * size * z < size * size * size,
        size * y <= 65 * 65,
        size * size <= 65 * 65,
        size * size * z <= 65 * 65 * 65,
        size * size * size <= 65 * 65 * 65,
        0 <= size * y,
        0 <= size * size,
        0 <= size * size * z,
{
    assert(size * y <= size * (size - 1) && 0 <= size * y) by (nonlinear_arith)
        requires
            0 <= y <= size - 1,
            1 <= size,
    ;
    assert(size * (size - 1) == size * size - size) by (nonlinear_arith);
    assert(1 <= size * size <= 65 * 65) by (nonlinear_arith)
        requires
            1 <= size <= 65,
    ;
    let square = size * size;
    assert(square * z <= square * (size - 1) && 0 <= square * z) by (nonlinear_arith)
        requires
            0 <= z <= size - 1,
            1 <= square,
    ;
    assert(square * (size - 1) == square * size - square) by (nonlinear_arith);
    assert(square * size <= 65 * 65 * 65) by (nonlinear_arith)
        requires
            1 <= square <= 65 * 65,
            1 <= size <= 65,
    ;
}

// -------------------------------------------------------------------------------------------
// Laws
// -------------------------------------------------------------------------------------------

/// Whether a line says nothing of the table: it is blank, a comment or a title.
pub open spec fn idle(line: Seq<char>) -> bool {
    content(line).len() == 0 || crate::text::begins(content(line), "TITLE "@)
}

/// Whether lines are others with idle ones put between them, and with comments at their ends.
pub open spec fn noted(lines: Seq<Seq<char>>, more: Seq<Seq<char>>) -> bool
    decreases more.len(),
{
    if more.len() == 0 {
        lines.len() == 0
    } else {
        ||| idle(more[0]) && noted(lines, more.skip(1))
        ||| lines.len() > 0 && content(more[0]) == content(lines[0]) && noted(
            lines.skip(1),
            more.skip(1),
        )
    }
}

proof fn lemma_notes_say_nothing(cube: Cube, lines: Seq<Seq<char>>, more: Seq<Seq<char>>)
    requires
        noted(lines, more),
    ensures
        read_lines(cube, more) == read_lines(cube, lines),
    decreases more.len(),
{
    if more.len() > 0 {
        if idle(more[0]) && noted(lines, more.skip(1)) {
            lemma_notes_say_nothing(cube, lines, more.skip(1));
        } else {
            match read_line(cube, lines[0]) {
                Ok(next) => lemma_notes_say_nothing(next, lines.skip(1), more.skip(1)),
                Err(_) => {},
            }
        }
    }
}

/// Blank lines, titles and comments leave a `.cube` file's table as it is, while the file stays
/// within its limit.
pub proof fn notes_leave_the_table(text: Seq<char>, more: Seq<char>)
    requires
        noted(crate::text::lines(text), crate::text::lines(more)),
        crate::text::bytes(text) <= 16 * 1024 * 1024,
        crate::text::bytes(more) <= 16 * 1024 * 1024,
    ensures
        cube_of(more) == cube_of(text),
{
    lemma_notes_say_nothing(blank_cube(), crate::text::lines(text), crate::text::lines(more));
}

/// A comment at a line's end, or all of a line, says nothing.
pub proof fn comments_say_nothing(line: Seq<char>, comment: Seq<char>)
    ensures
        content(line.push('#') + comment) == content(line),
        idle(seq!['#'] + comment),
{
    let longer = line.push('#') + comment;
    crate::text::lemma_first_at(line, '#', 0);
    crate::text::lemma_first_at(longer, '#', 0);
    let a = crate::text::first_at(line, '#', 0);
    let b = crate::text::first_at(longer, '#', 0);
    assert(longer[line.len() as int] == '#');
    assert forall|k: int| 0 <= k < line.len() implies longer[k] == line[k] by {}
    if b < a {
        assert(longer[b] == line[b]);
        assert(false);
    }
    if a < line.len() {
        assert(longer[a] == '#');
    }
    assert(a == b);
    assert(longer.take(b) =~= line.take(a));
    let whole = seq!['#'] + comment;
    assert(whole[0] == '#');
    assert(crate::text::first_at(whole, '#', 0) == 0);
    assert(whole.take(0).len() == 0);
}

/// A line of white space says nothing.
pub proof fn blank_lines_say_nothing(line: Seq<char>)
    requires
        forall|i: int| 0 <= i < line.len() ==> crate::text::is_space(#[trigger] line[i]),
    ensures
        idle(line),
{
    crate::text::lemma_first_at(line, '#', 0);
    lemma_blank(line.take(crate::text::first_at(line, '#', 0)));
}

proof fn lemma_blank(s: Seq<char>)
    requires
        forall|i: int| 0 <= i < s.len() ==> crate::text::is_space(#[trigger] s[i]),
    ensures
        crate::text::trimmed(s).len() == 0,
    decreases s.len(),
{
    if s.len() > 0 {
        assert(crate::text::is_space(s[0]));
        assert forall|i: int| 0 <= i < s.skip(1).len() implies crate::text::is_space(
            #[trigger] s.skip(1)[i],
        ) by {
            assert(s.skip(1)[i] == s[i + 1]);
        }
        lemma_blank(s.skip(1));
    }
}

proof fn lemma_trimming_keeps(s: Seq<char>, k: int)
    requires
        0 <= k < s.len(),
        !crate::text::is_space(s[0]),
        !crate::text::is_space(s[k]),
    ensures
        crate::text::trimmed(s).len() > k,
        crate::text::trimmed(s).take(k + 1) == s.take(k + 1),
    decreases s.len(),
{
    if crate::text::is_space(s.last()) {
        assert(s.drop_last()[0] == s[0]);
        assert(s.drop_last()[k] == s[k]);
        lemma_trimming_keeps(s.drop_last(), k);
        assert(s.drop_last().take(k + 1) =~= s.take(k + 1));
    }
}

/// A title says nothing. Its text has something to show, at `k`, ahead of any comment.
pub proof fn titles_say_nothing(line: Seq<char>, k: int)
    requires
        crate::text::begins(line, "TITLE "@),
        6 <= k < line.len(),
        !crate::text::is_space(line[k]),
        forall|i: int| 0 <= i <= k ==> line[i] != '#',
    ensures
        idle(line),
{
    reveal_strlit("TITLE ");
    let title = "TITLE "@;
    crate::text::lemma_first_at(line, '#', 0);
    let head = line.take(crate::text::first_at(line, '#', 0));
    assert(line.take(6)[0] == 'T');
    assert(head[0] == line[0] && head[k] == line[k]);
    lemma_trimming_keeps(head, k);
    let text = crate::text::trimmed(head);
    assert(text.take(6) =~= text.take(k + 1).take(6));
    assert(head.take(k + 1).take(6) =~= line.take(6));
    assert(text.len() >= title.len() && text.take(title.len() as int) == title);
}

/// The row of colors that a line holds, if it holds one.
pub open spec fn row_of(line: Seq<char>) -> Option<[Real32; 3]> {
    let words = crate::text::words(content(line));
    if idle(line) || words[0] == "LUT_3D_SIZE"@ || words[0] == "DOMAIN_MIN"@ || words[0]
        == "DOMAIN_MAX"@ {
        None
    } else {
        triple(words[0], words[1], words[2])
    }
}

/// The rows of colors that lines hold, in their order.
pub open spec fn rows_of(lines: Seq<Seq<char>>) -> Seq<[Real32; 3]>
    decreases lines.len(),
{
    if lines.len() == 0 {
        Seq::empty()
    } else {
        match row_of(lines[0]) {
            Some(row) => seq![row] + rows_of(lines.skip(1)),
            None => rows_of(lines.skip(1)),
        }
    }
}

proof fn lemma_rows(cube: Cube, lines: Seq<Seq<char>>)
    requires
        read_lines(cube, lines) is Ok,
    ensures
        read_lines(cube, lines)->Ok_0.values == cube.values + rows_of(lines),
    decreases lines.len(),
{
    if lines.len() > 0 {
        let next = read_line(cube, lines[0])->Ok_0;
        lemma_rows(next, lines.skip(1));
        match row_of(lines[0]) {
            Some(row) => {
                assert(next.values == cube.values.push(row));
                assert(cube.values.push(row) + rows_of(lines.skip(1)) =~= cube.values + (seq![row]
                    + rows_of(lines.skip(1))));
            },
            None => {
                assert(next.values == cube.values);
            },
        }
    } else {
        assert(cube.values + rows_of(lines) =~= cube.values);
    }
}

/// A `.cube` file's table holds the file's rows in their order, a cube of them with a side of 2
/// to 65.
pub proof fn tables_hold_their_rows(name: Seq<char>, text: Seq<char>)
    requires
        cube_of(text) is Ok,
        fault_of(name, cube_of(text)->Ok_0) is None,
    ensures
        ({
            let cube = cube_of(text)->Ok_0;
            &&& 2 <= cube.size <= 65
            &&& cube.values.len() == cubed(cube.size)
            &&& cube.values == rows_of(crate::text::lines(text))
        }),
{
    let lines = crate::text::lines(text);
    lemma_rows(blank_cube(), lines);
    assert(Seq::<[Real32; 3]>::empty() + rows_of(lines) =~= rows_of(lines));
}

// -------------------------------------------------------------------------------------------
// What a table does to colors
// -------------------------------------------------------------------------------------------

/// With no strength a table changes nothing, and with all of it the color is the table's.
pub proof fn strength_runs_from_none_to_all(lut: Lut, rgb: Seq<u8>, c: int, strength: Real32)
    requires
        rgb.len() == 3,
        0 <= c < 3,
        lut.looked_up(rgb, c).finite(),
        strength.finite(),
    ensures
        crate::margin::worth(strength) == 0 ==> lut.tone(rgb, c, Some(strength)) == rgb[c],
        crate::margin::worth(strength) == crate::margin::unit() ==> lut.tone(
            rgb,
            c,
            Some(strength),
        ) == lut.tone(rgb, c, None),
{
    reveal(Lut::tone);
    let own = share(rgb[c]);
    let table = lut.looked_up(rgb, c);
    let rest = one().minus(strength);
    crate::margin::near_share(rgb[c]);
    crate::margin::lemma_units();
    lemma_one();
    if crate::margin::worth(strength) == 0 {
        crate::margin::nothing_adds_nothing(one(), strength);
        crate::margin::one_and_zero_multiply(own, rest);
        crate::margin::one_and_zero_multiply(table, strength);
        let value = own.times(rest).plus(table.times(strength));
        crate::margin::nothing_adds_nothing(own.times(rest), table.times(strength));
        lemma_step_of_share(value, rgb[c]);
    }
    if crate::margin::worth(strength) == crate::margin::unit() {
        assert(crate::margin::worth(rest) == 0 && rest.finite()) by {
            reveal(Real32::finite);
            reveal(Real32::minus);
            crate::margin::near_difference(one(), strength);
            crate::margin::differences_keep_sides(
                crate::float::Format::Single,
                one().at(),
                strength.at(),
            );
        }
        crate::margin::one_and_zero_multiply(own, rest);
        crate::margin::one_and_zero_multiply(table, strength);
        let value = own.times(rest).plus(table.times(strength));
        crate::margin::nothing_adds_nothing(table.times(strength), own.times(rest));
        crate::margin::alike_worths_round_alike(value, table, 255);
    }
}

proof fn lemma_one()
    ensures
        one().finite(),
        zero().finite(),
        crate::margin::worth(one()) == crate::margin::unit(),
        crate::margin::worth(zero()) == 0,
{
    reveal(Real32::finite);
    reveal(Real32::of);
    let f = crate::float::Format::Single;
    crate::float::one_is_exact(f);
    crate::float::small_integers_are_exact(f, 1);
    crate::margin::lemma_zero(f);
}

/// What is worth a byte's share is worth the byte once it is brought back to steps.
proof fn lemma_step_of_share(value: Real32, byte: u8)
    requires
        value.finite(),
        crate::margin::worth(value) == crate::margin::worth(share(byte)),
    ensures
        value.times(Real32::of(255)).rounded(255) == byte,
{
    crate::margin::near_share(byte);
    crate::margin::near_step(value);
    crate::margin::lemma_units();
    let u = crate::margin::unit();
    lemma_one();
    reveal(Real32::below);
    reveal(Real32::finite);
    let f = crate::float::Format::Single;
    crate::float::order_follows_value(f, value.at(), zero().at());
    crate::float::order_follows_value(f, one().at(), value.at());
    assert(unit_clamped(value) == value);
    let step = value.times(Real32::of(255)).rounded(255) as int;
    let b = byte as int;
    assert(step == b) by (nonlinear_arith)
        requires
            crate::margin::within(2 * (step * u), 2 * (255 * crate::margin::worth(value)), u + 64 * crate::margin::slack()),
            crate::margin::within(255 * crate::margin::worth(value), b * u, 255 * crate::margin::slack()),
            u >= 0x1000 * crate::margin::slack(),
            crate::margin::slack() > 0,
    ;
}

impl Lut {
    /// Whether the table is full of numbers that a table can hold, over a domain of a common size.
    pub open spec fn common(self) -> bool {
        &&& self.filled()
        &&& forall|i: int| 0 <= i < self.values@.len() ==> row_ok(#[trigger] self.values@[i])
        &&& forall|c: int|
            0 <= c < 3 ==> {
                &&& (#[trigger] self.domain_min@[c]).finite()
                &&& self.domain_max@[c].finite()
                &&& -3 * crate::margin::unit() <= crate::margin::worth(self.domain_min@[c])
                &&& crate::margin::worth(self.domain_max@[c]) <= 3 * crate::margin::unit()
                &&& crate::margin::worth(self.domain_min@[c]) + 4 * crate::margin::slack()
                    <= crate::margin::worth(self.domain_max@[c])
            }
    }

    /// The row of the table for red `r`, green `g` and blue `b`: red runs fastest.
    pub open spec fn row(self, r: int, g: int, b: int) -> [Real32; 3] {
        self.values@[r + self.size * g + self.size * self.size * b]
    }
}

/// A place along a side of the table is on that side, and past the sample before it by no more than
/// one.
proof fn lemma_place(lut: Lut, byte: u8, c: int)
    requires
        lut.common(),
        0 <= c < 3,
    ensures
        lut.before(byte, c) < lut.size,
        lut.after(byte, c) < lut.size,
        lut.past(byte, c).finite(),
        0 <= crate::margin::worth(lut.past(byte, c)) <= crate::margin::unit()
            + crate::margin::slack(),
{
    reveal(Real32::finite);
    reveal(Real32::minus);
    reveal(Real32::over);
    reveal(Real32::times);
    reveal(Real32::of);
    reveal(Real32::truncated);
    reveal(Real32::below);
    let f = crate::float::Format::Single;
    let (low, high) = (lut.domain_min@[c], lut.domain_max@[c]);
    crate::margin::near_share(byte);
    crate::margin::lemma_units();
    lemma_one();
    crate::margin::near_difference(share(byte), low);
    crate::margin::near_difference(high, low);
    let above = share(byte).minus(low);
    let wide = high.minus(low);
    let q = above.over(wide);
    crate::margin::quotients_are_numbers(f, above.at(), wide.at());
    let part = unit_clamped(q);
    assert(part.finite() && 0 <= crate::margin::worth(part) <= crate::margin::unit() && !f.negative(
        part.at(),
    ) || crate::margin::worth(part) == 0) by {
        crate::float::one_is_exact(f);
        if f.finite(q.at()) {
            crate::float::order_follows_value(f, q.at(), zero().at());
            crate::float::order_follows_value(f, one().at(), q.at());
        }
    }
    let top = (lut.size - 1) as nat;
    crate::float::small_integers_are_exact(f, top);
    let place = lut.place(byte, c);
    lemma_part_of(part, top);
    let u = crate::margin::unit();
    let w = crate::margin::worth(place);
    let k = lut.before(byte, c);
    assert(crate::float::unit_pow(0) == u);
    assert(k <= top && k * u <= w && w <= k * u + u) by {
        let v = w / u;
        assert(v * u <= w < v * u + u && v >= 0) by (nonlinear_arith)
            requires
                v == w / u,
                u > 0,
                w >= 0,
        ;
        let t = top as int;
        if f.negative(place.at()) {
            assert(w == 0 && k == 0);
        } else if v < t {
            assert(k == v);
        } else {
            assert(k == top);
            assert(t * u <= v * u) by (nonlinear_arith)
                requires
                    t <= v,
                    u > 0,
            ;
        }
    }
    crate::float::small_integers_are_exact(f, k);
    crate::margin::near_difference(place, Real32::of(k));
    crate::margin::differences_keep_sides(f, place.at(), Real32::of(k).at());
}

/// A part of a whole number of samples is no more than all of them.
proof fn lemma_part_of(part: Real32, top: nat)
    requires
        part.finite(),
        0 <= crate::margin::worth(part) <= crate::margin::unit(),
        top <= 64,
    ensures
        part.times(Real32::of(top)).finite(),
        0 <= crate::margin::worth(part.times(Real32::of(top))) <= top * crate::margin::unit(),
        crate::float::Format::Single.negative(part.times(Real32::of(top)).at())
            ==> crate::margin::worth(part.times(Real32::of(top))) == 0,
{
    reveal(Real32::finite);
    reveal(Real32::times);
    reveal(Real32::of);
    let f = crate::float::Format::Single;
    crate::margin::lemma_units();
    lemma_one();
    crate::float::one_is_exact(f);
    crate::float::small_integers_are_exact(f, top);
    let whole = f.of(top);
    let u = crate::margin::unit();
    assert(top * u <= 64 * u) by (nonlinear_arith)
        requires
            top <= 64,
            u > 0,
    ;
    crate::margin::products_commute(part, Real32::of(top));
    lemma_weighted_value(Real32::of(top), part);
    if f.negative(part.at()) {
        crate::margin::one_and_zero_multiply(Real32::of(top), part);
    } else {
        crate::margin::products_keep_order(f, part.at(), one().at(), whole);
        crate::margin::one_and_zero_multiply(Real32::of(top), one());
        crate::float::order_follows_value(
            f,
            f.product(part.at(), whole),
            f.product(one().at(), whole),
        );
    }
}

/// What a corner of a cell adds where all channels but one fall on a sample.
proof fn lemma_corner(lut: Lut, rgb: Seq<u8>, c: int, axis: int, n: int)
    requires
        lut.common(),
        rgb.len() == 3,
        0 <= c < 3,
        0 <= axis < 3,
        0 <= n < 8,
        forall|o: int|
            0 <= o < 3 && o != axis ==> crate::margin::worth(#[trigger] lut.past(rgb[o], o)) == 0,
    ensures
        ({
            let row = lut.values@[lut.corner_index(rgb, n)];
            let term = row@[c].times(lut.corner_weight(rgb, n));
            let t = crate::margin::worth(lut.past(rgb[axis], axis));
            let u = crate::margin::unit();
            let e = crate::margin::slack();
            let beside = exists|o: int| 0 <= o < 3 && o != axis && #[trigger] Lut::far(n, o);
            let v = crate::margin::worth(row@[c]);
            &&& 0 <= lut.corner_index(rgb, n) < lut.values@.len()
            &&& row@[c].finite()
            &&& -100 * u <= v <= 100 * u
            &&& term.finite()
            &&& beside ==> crate::margin::worth(term) == 0
            &&& !beside && Lut::far(n, axis) ==> crate::margin::within(
                crate::margin::worth(term) * u,
                v * t,
                (32 * e) * u,
            )
            &&& !beside && !Lut::far(n, axis) ==> crate::margin::within(
                crate::margin::worth(term) * u,
                v * (u - t),
                (150 * e) * u,
            )
        }),
{
    reveal(Real32::up_to);
    lemma_place(lut, rgb[0], 0);
    lemma_place(lut, rgb[1], 1);
    lemma_place(lut, rgb[2], 2);
    lemma_one();
    crate::margin::lemma_units();
    let u = crate::margin::unit();
    let e = crate::margin::slack();
    lemma_cell_index(
        lut.size as int,
        lut.corner_sample(rgb, n, 0) as int,
        lut.corner_sample(rgb, n, 1) as int,
        lut.corner_sample(rgb, n, 2) as int,
    );
    let row = lut.values@[lut.corner_index(rgb, n)];
    assert(row_ok(row));
    let v = crate::margin::worth(row@[c]);
    lemma_value_is_small(row@[c]);
    let t = crate::margin::worth(lut.past(rgb[axis], axis));
    let (s0, s1, s2) = (
        lut.corner_side(rgb, n, 0),
        lut.corner_side(rgb, n, 1),
        lut.corner_side(rgb, n, 2),
    );
    lemma_side(lut, rgb, n, 0);
    lemma_side(lut, rgb, n, 1);
    lemma_side(lut, rgb, n, 2);
    let side = lut.corner_side(rgb, n, axis);
    let weight = lut.corner_weight(rgb, n);
    let beside = exists|o: int| 0 <= o < 3 && o != axis && #[trigger] Lut::far(n, o);
    let (f0, f1, f2) = (Lut::far(n, 0), Lut::far(n, 1), Lut::far(n, 2));
    if axis == 0 {
        assert(beside == (f1 || f2));
        crate::margin::one_and_zero_multiply(s0, s1);
        crate::margin::one_and_zero_multiply(s0.times(s1), s2);
    } else if axis == 1 {
        assert(beside == (f0 || f2));
        crate::margin::one_and_zero_multiply(s1, s0);
        crate::margin::one_and_zero_multiply(s0.times(s1), s2);
    } else {
        assert(beside == (f0 || f1));
        crate::margin::one_and_zero_multiply(s0, s1);
        crate::margin::one_and_zero_multiply(s2, s0.times(s1));
    }
    if beside {
        crate::margin::one_and_zero_multiply(row@[c], weight);
    } else {
        assert(crate::margin::worth(weight) == crate::margin::worth(side));
        let w = crate::margin::worth(weight);
        lemma_weighted_value(row@[c], weight);
        let term = crate::margin::worth(row@[c].times(weight));
        if !Lut::far(n, axis) {
            assert(crate::margin::within(term * u, v * (u - t), (150 * e) * u)) by (nonlinear_arith)
                requires
                    crate::margin::within(term * u, v * w, (32 * e) * u),
                    crate::margin::within(w, u - t, e),
                    -100 * u <= v <= 100 * u,
                    e > 0,
                    u > 0,
            ;
        }
    }
}

proof fn lemma_side(lut: Lut, rgb: Seq<u8>, n: int, o: int)
    requires
        lut.common(),
        rgb.len() == 3,
        0 <= o < 3,
    ensures
        ({
            let side = lut.corner_side(rgb, n, o);
            let t = crate::margin::worth(lut.past(rgb[o], o));
            &&& side.finite()
            &&& Lut::far(n, o) ==> crate::margin::worth(side) == t
            &&& !Lut::far(n, o) ==> crate::margin::within(
                crate::margin::worth(side),
                crate::margin::unit() - t,
                crate::margin::slack(),
            )
            &&& !Lut::far(n, o) && t == 0 ==> crate::margin::worth(side) == crate::margin::unit()
            &&& -crate::margin::unit() <= crate::margin::worth(side) <= 2 * crate::margin::unit()
        }),
{
    lemma_place(lut, rgb[o], o);
    lemma_one();
    crate::margin::lemma_units();
    let past = lut.past(rgb[o], o);
    crate::margin::near_difference(one(), past);
    if crate::margin::worth(past) == 0 {
        crate::margin::nothing_adds_nothing(one(), past);
    }
}

proof fn lemma_value_is_small(v: Real32)
    requires
        value_ok(v),
    ensures
        v.finite(),
        -100 * crate::margin::unit() <= crate::margin::worth(v) <= 100 * crate::margin::unit(),
{
    reveal(Real32::finite);
    reveal(Real32::up_to);
    reveal(Real32::absolute);
    let f = crate::float::Format::Single;
    vstd::arithmetic::power2::lemma2_to64();
    crate::margin::lemma_literal(0x42c8_0000, 0xc8_0000, 17, 0x2_0000);
    crate::margin::lemma_magnitude(f, v.at());
    crate::float::order_follows_value(f, f.magnitude(v.at()), hundred().at());
}

/// A value times a weight is near the exact product.
proof fn lemma_weighted_value(v: Real32, w: Real32)
    requires
        v.finite(),
        w.finite(),
        -100 * crate::margin::unit() <= crate::margin::worth(v) <= 100 * crate::margin::unit(),
        -crate::margin::unit() <= crate::margin::worth(w) <= 2 * crate::margin::unit(),
    ensures
        v.times(w).finite(),
        crate::margin::within(
            crate::margin::worth(v.times(w)) * crate::margin::unit(),
            crate::margin::worth(v) * crate::margin::worth(w),
            (32 * crate::margin::slack()) * crate::margin::unit(),
        ),
{
    reveal(Real32::finite);
    reveal(Real32::times);
    crate::margin::lemma_units();
    let f = crate::float::Format::Single;
    let (x, y, u) = (crate::margin::worth(v), crate::margin::worth(w), crate::margin::unit());
    let big = crate::float::unit_pow(8) as int;
    assert(-(big * u) < x * y < big * u) by (nonlinear_arith)
        requires
            -100 * u <= x <= 100 * u,
            -u <= y <= 2 * u,
            big == 256 * u,
            u > 0,
    ;
    crate::margin::products_are_close(f, v.at(), w.at(), 8);
}

/// The corner of a cell after the first along one axis.
spec fn next_corner(axis: int) -> int {
    if axis == 0 {
        1
    } else if axis == 1 {
        2
    } else {
        4
    }
}

spec fn corner_term(lut: Lut, rgb: Seq<u8>, c: int, n: int) -> Real32 {
    lut.values@[lut.corner_index(rgb, n)]@[c].times(lut.corner_weight(rgb, n))
}

proof fn lemma_weighted(lut: Lut, rgb: Seq<u8>, c: int, axis: int, n: nat)
    requires
        lut.common(),
        rgb.len() == 3,
        0 <= c < 3,
        0 <= axis < 3,
        1 <= n <= 8,
        forall|o: int|
            0 <= o < 3 && o != axis ==> crate::margin::worth(#[trigger] lut.past(rgb[o], o)) == 0,
    ensures
        ({
            let w = lut.weighted(rgb, c, n);
            let first = crate::margin::worth(corner_term(lut, rgb, c, 0));
            let second = crate::margin::worth(corner_term(lut, rgb, c, next_corner(axis)));
            &&& w.finite()
            &&& n <= next_corner(axis) ==> crate::margin::worth(w) == first
            &&& n > next_corner(axis) ==> crate::margin::within(
                crate::margin::worth(w),
                first + second,
                32 * crate::margin::slack(),
            )
        }),
    decreases n,
{
    let k = n - 1;
    lemma_corner(lut, rgb, c, axis, k);
    lemma_one();
    let term = corner_term(lut, rgb, c, k);
    let before = lut.weighted(rgb, c, k as nat);
    if n == 1 {
        assert(before == zero());
        crate::margin::nothing_adds_nothing(term, before);
    } else {
        lemma_weighted(lut, rgb, c, axis, k as nat);
        if k == next_corner(axis) {
            lemma_corner(lut, rgb, c, axis, 0);
            assert(!Lut::far(0, 0) && !Lut::far(0, 1) && !Lut::far(0, 2));
            crate::margin::lemma_units();
            lemma_place(lut, rgb[axis], axis);
            lemma_term_is_small(lut, rgb, c, axis, 0);
            lemma_term_is_small(lut, rgb, c, axis, k);
            reveal(Real32::finite);
            reveal(Real32::plus);
            crate::margin::sums_are_close(
                crate::float::Format::Single,
                before.at(),
                term.at(),
                8,
            );
        } else {
            assert(exists|o: int| 0 <= o < 3 && o != axis && #[trigger] Lut::far(k, o)) by {
                assert(Lut::far(k, 0) || Lut::far(k, 1) || Lut::far(k, 2));
                if axis == 0 {
                    assert(Lut::far(k, 1) || Lut::far(k, 2));
                } else if axis == 1 {
                    assert(Lut::far(k, 0) || Lut::far(k, 2));
                } else {
                    assert(Lut::far(k, 0) || Lut::far(k, 1));
                }
            }
            crate::margin::nothing_adds_nothing(before, term);
        }
    }
}

proof fn lemma_term_is_small(lut: Lut, rgb: Seq<u8>, c: int, axis: int, n: int)
    requires
        lut.common(),
        rgb.len() == 3,
        0 <= c < 3,
        0 <= axis < 3,
        n == 0 || n == next_corner(axis),
        forall|o: int|
            0 <= o < 3 && o != axis ==> crate::margin::worth(#[trigger] lut.past(rgb[o], o)) == 0,
    ensures
        crate::margin::within(
            crate::margin::worth(corner_term(lut, rgb, c, n)),
            0,
            102 * crate::margin::unit(),
        ),
        corner_term(lut, rgb, c, n).finite(),
{
    lemma_corner(lut, rgb, c, axis, n);
    lemma_place(lut, rgb[axis], axis);
    crate::margin::lemma_units();
    let row = lut.values@[lut.corner_index(rgb, n)];
    let v = crate::margin::worth(row@[c]);
    let t = crate::margin::worth(lut.past(rgb[axis], axis));
    let (u, e) = (crate::margin::unit(), crate::margin::slack());
    let w = crate::margin::worth(corner_term(lut, rgb, c, n));
    let side = if n == 0 {
        u - t
    } else {
        t
    };
    assert(!Lut::far(n, 0) || axis == 0);
    assert(!Lut::far(n, 1) || axis == 1);
    assert(!Lut::far(n, 2) || axis == 2);
    assert(Lut::far(n, axis) == (n != 0));
    assert((32 * e) * u <= (150 * e) * u) by (nonlinear_arith)
        requires
            e > 0,
            u > 0,
    ;
    assert(crate::margin::within(w, 0, 102 * u)) by (nonlinear_arith)
        requires
            crate::margin::within(w * u, v * side, (150 * e) * u),
            -100 * u <= v <= 100 * u,
            -e <= side <= u + e,
            u == 0x40_0000 * e,
            e > 0,
    ;
}

/// A color that falls on samples in all channels but one is the mix of the two rows around it, red
/// running fastest through the table, by how far it is past the first: as near as single numbers
/// come to it.
#[verifier::rlimit(40)]
pub proof fn colors_between_two_samples_mix_them(lut: Lut, rgb: Seq<u8>, c: int, axis: int)
    requires
        lut.common(),
        rgb.len() == 3,
        0 <= c < 3,
        0 <= axis < 3,
        forall|o: int|
            0 <= o < 3 && o != axis ==> crate::margin::worth(#[trigger] lut.past(rgb[o], o)) == 0,
    ensures
        ({
            let (r, g, b) = (
                lut.before(rgb[0], 0) as int,
                lut.before(rgb[1], 1) as int,
                lut.before(rgb[2], 2) as int,
            );
            let first = crate::margin::worth(lut.row(r, g, b)@[c]);
            let second = crate::margin::worth(
                if axis == 0 {
                    lut.row(lut.after(rgb[0], 0) as int, g, b)@[c]
                } else if axis == 1 {
                    lut.row(r, lut.after(rgb[1], 1) as int, b)@[c]
                } else {
                    lut.row(r, g, lut.after(rgb[2], 2) as int)@[c]
                },
            );
            let t = crate::margin::worth(lut.past(rgb[axis], axis));
            let u = crate::margin::unit();
            &&& lut.weighted(rgb, c, 8).finite()
            &&& 0 <= t <= u + crate::margin::slack()
            &&& crate::margin::within(
                crate::margin::worth(lut.weighted(rgb, c, 8)) * u,
                first * (u - t) + second * t,
                (250 * crate::margin::slack()) * u,
            )
        }),
{
    lemma_weighted(lut, rgb, c, axis, 8);
    lemma_place(lut, rgb[axis], axis);
    crate::margin::lemma_units();
    let n = next_corner(axis);
    lemma_corner(lut, rgb, c, axis, 0);
    lemma_corner(lut, rgb, c, axis, n);
    assert(!Lut::far(0, 0) && !Lut::far(0, 1) && !Lut::far(0, 2));
    assert(Lut::far(n, 0) == (axis == 0));
    assert(Lut::far(n, 1) == (axis == 1));
    assert(Lut::far(n, 2) == (axis == 2));
    let (a, b) = (
        crate::margin::worth(corner_term(lut, rgb, c, 0)),
        crate::margin::worth(corner_term(lut, rgb, c, n)),
    );
    let first = crate::margin::worth(lut.values@[lut.corner_index(rgb, 0)]@[c]);
    let second = crate::margin::worth(lut.values@[lut.corner_index(rgb, n)]@[c]);
    let t = crate::margin::worth(lut.past(rgb[axis], axis));
    let (u, e) = (crate::margin::unit(), crate::margin::slack());
    let w = crate::margin::worth(lut.weighted(rgb, c, 8));
    let (x, y) = (first * (u - t), second * t);
    assert(crate::margin::within(w * u, x + y, (250 * e) * u)) by (nonlinear_arith)
        requires
            crate::margin::within(w, a + b, 32 * e),
            crate::margin::within(a * u, x, (150 * e) * u),
            crate::margin::within(b * u, y, (32 * e) * u),
            e > 0,
            u > 0,
    ;
}

/// A channel between the ends of the table's domain falls in proportion along its side: at the first
/// sample where the domain starts and at the last where it ends, as near as single numbers come.
#[verifier::rlimit(40)]
pub proof fn places_are_in_proportion(lut: Lut, byte: u8, c: int)
    requires
        lut.common(),
        0 <= c < 3,
        crate::margin::worth(lut.domain_min@[c]) <= crate::margin::worth(share(byte)),
        crate::margin::worth(share(byte)) <= crate::margin::worth(lut.domain_max@[c]),
    ensures
        ({
            let low = crate::margin::worth(lut.domain_min@[c]);
            let high = crate::margin::worth(lut.domain_max@[c]);
            let u = crate::margin::unit();
            crate::margin::within(
                crate::margin::worth(lut.place(byte, c)) * (high - low),
                (lut.size - 1) * ((crate::margin::worth(share(byte)) - low) * u),
                (1024 * crate::margin::slack()) * u,
            )
        }),
{
    reveal(Real32::finite);
    reveal(Real32::minus);
    reveal(Real32::over);
    reveal(Real32::below);
    reveal(Real32::of);
    let f = crate::float::Format::Single;
    let (low, high) = (lut.domain_min@[c], lut.domain_max@[c]);
    crate::margin::near_share(byte);
    crate::margin::lemma_units();
    lemma_one();
    crate::float::one_is_exact(f);
    let (u, e) = (crate::margin::unit(), crate::margin::slack());
    crate::margin::near_difference(share(byte), low);
    crate::margin::near_difference(high, low);
    let above = share(byte).minus(low);
    let wide = high.minus(low);
    let q = above.over(wide);
    crate::margin::lemma_negated(f, low.at());
    crate::float::order_follows_value(f, share(byte).at(), high.at());
    crate::float::sums_keep_order(f, share(byte).at(), high.at(), f.negated(low.at()));
    crate::float::order_follows_value(f, above.at(), wide.at());
    crate::margin::differences_keep_sides(f, share(byte).at(), low.at());
    let a = crate::margin::worth(above);
    let b = crate::margin::worth(wide);
    crate::float::small_integers_are_exact(f, byte as nat);
    crate::float::small_integers_are_exact(f, 255);
    crate::float::shares_are_not_negative(f, f.of(byte as nat), f.of(255));
    crate::margin::positive_differences(f, share(byte).at(), low.at());
    crate::margin::positive_differences(f, high.at(), low.at());
    let two = crate::float::unit_pow(3) as int;
    assert(a * u < b * two) by (nonlinear_arith)
        requires
            0 <= a <= b,
            b > 0,
            two == 8 * u,
            u > 0,
    ;
    crate::margin::quotients_are_close(f, above.at(), wide.at(), 3);
    crate::float::shares_are_at_most_one(f, above.at(), wide.at());
    let w = crate::margin::worth(q);
    crate::float::order_follows_value(f, q.at(), zero().at());
    crate::float::order_follows_value(f, one().at(), q.at());
    crate::float::order_follows_value(f, q.at(), one().at());
    assert(unit_clamped(q) == q);
    let top = (lut.size - 1) as nat;
    let n = top as int;
    crate::float::small_integers_are_exact(f, top);
    assert(0 <= n * u <= 100 * u) by (nonlinear_arith)
        requires
            0 <= n <= 64,
            u > 0,
    ;
    crate::margin::products_commute(q, Real32::of(top));
    lemma_weighted_value(Real32::of(top), q);
    let p = crate::margin::worth(lut.place(byte, c));
    let nw = n * w;
    assert(crate::margin::within(p, nw, 32 * e)) by (nonlinear_arith)
        requires
            crate::margin::within(p * u, (n * u) * w, (32 * e) * u),
            nw == n * w,
            u > 0,
    ;
    let width = crate::margin::worth(high) - crate::margin::worth(low);
    let part = crate::margin::worth(share(byte)) - crate::margin::worth(low);
    let (wide_w, pu) = (w * width, part * u);
    assert(crate::margin::within(wide_w, pu, (9 * e) * u)) by (nonlinear_arith)
        requires
            w * b <= a * u + b * e,
            a * u <= w * b + b * e,
            crate::margin::within(a, part, e),
            crate::margin::within(b, width, e),
            0 <= w <= u,
            0 < b,
            width <= 6 * u,
            wide_w == w * width,
            pu == part * u,
            b <= 7 * u,
            e > 0,
            u > 0,
    ;
    let np = n * pu;
    assert(crate::margin::within(n * wide_w, np, (576 * e) * u)) by (nonlinear_arith)
        requires
            crate::margin::within(wide_w, pu, (9 * e) * u),
            0 <= n <= 64,
            np == n * pu,
            e > 0,
            u > 0,
    ;
    assert(crate::margin::within(p * width, n * wide_w, (192 * e) * u)) by (nonlinear_arith)
        requires
            crate::margin::within(p, nw, 32 * e),
            nw == n * w,
            wide_w == w * width,
            0 <= width <= 6 * u,
            e > 0,
            u > 0,
    ;
    assert((576 * e) * u + (192 * e) * u <= (1024 * e) * u) by (nonlinear_arith)
        requires
            e > 0,
            u > 0,
    ;
}

} // verus!
