//! The settings panel: which controls it shows, and what its switches change.
use crate::crt::config::{Config, Fit, MaskRepeats, NesPalette};
use crate::crt::settings::{numeric_fields, Control, Field, Section};
use crate::crt::source::SourceEdit;
use crate::number::Real32;
use crate::text::{decimal_text, owned};
use vstd::prelude::*;

verus! {

// -------------------------------------------------------------------------------------------
// Numbers
// -------------------------------------------------------------------------------------------

/// One number of the panel: which it is, what it is, and what its reset returns it to.
#[derive(Clone, Copy, PartialEq, Eq, Structural, Debug)]
pub struct Row {
    pub field: Field,
    pub index: usize,
    pub value: Real32,
    pub default: Real32,
}

/// What a number's reset returns it to: the default, or, where there is none, what it is.
pub open spec fn default_of(c: Config, defaults: Config, field: Field, index: int) -> Real32 {
    if index < defaults.numbers_of(field).len() {
        defaults.numbers_of(field)[index]
    } else {
        c.numbers_of(field)[index]
    }
}

/// The rows of one setting.
pub open spec fn rows_of(c: Config, defaults: Config, field: Field) -> Seq<Row> {
    Seq::new(
        c.numbers_of(field).len(),
        |i: int|
            Row {
                field,
                index: i as usize,
                value: c.numbers_of(field)[i],
                default: default_of(c, defaults, field, i),
            },
    )
}

/// The rows of a section, of the settings among the first `n`.
pub open spec fn section_rows(c: Config, defaults: Config, section: Section, n: nat) -> Seq<Row>
    decreases n,
{
    if n == 0 {
        Seq::empty()
    } else {
        let field = crate::crt::settings::fields()[n - 1];
        section_rows(c, defaults, section, (n - 1) as nat) + if field.section_of() == section {
            rows_of(c, defaults, field)
        } else {
            Seq::empty()
        }
    }
}

/// The numbers of one section of the panel, in the order of the settings.
pub fn numbers(c: &Config, defaults: &Config, section: Section) -> (r: Vec<Row>)
    ensures
        r@ == section_rows(*c, *defaults, section, crate::crt::settings::fields().len()),
{
    let fields: Vec<Field> = numeric_fields();
    let mut rows: Vec<Row> = Vec::new();
    let mut n: usize = 0;
    while n < fields.len()
        invariant
            n <= fields@.len(),
            fields@ == crate::crt::settings::fields(),
            rows@ == section_rows(*c, *defaults, section, n as nat),
        decreases fields@.len() - n,
    {
        let field: Field = fields[n];
        if field.section() == section {
            let values: Vec<Real32> = c.numbers(field);
            let usual: Vec<Real32> = defaults.numbers(field);
            let ghost before = rows@;
            let mut i: usize = 0;
            while i < values.len()
                invariant
                    i <= values@.len(),
                    values@ == c.numbers_of(field),
                    usual@ == defaults.numbers_of(field),
                    rows@ == before + rows_of(*c, *defaults, field).take(i as int),
                decreases values@.len() - i,
            {
                let ghost all = rows_of(*c, *defaults, field);
                rows.push(
                    Row {
                        field,
                        index: i,
                        value: values[i],
                        default: if i < usual.len() {
                            usual[i]
                        } else {
                            values[i]
                        },
                    },
                );
                proof {
                    assert(all.take(i + 1) =~= all.take(i as int).push(all[i as int]));
                    assert(rows@ =~= before + all.take(i + 1));
                }
                i = i + 1;
            }
            assert(rows_of(*c, *defaults, field).take(i as int) =~= rows_of(*c, *defaults, field));
        } else {
            assert(rows@ + Seq::<Row>::empty() =~= rows@);
        }
        n = n + 1;
    }
    rows
}

impl Row {
    /// Whether its reset has anything to do.
    pub fn can_reset(&self) -> (r: bool)
        ensures
            r == !self.value.equal(self.default),
    {
        !self.value.same(self.default)
    }

    /// Its name and its control.
    pub fn shown(&self) -> (r: (&'static str, Control))
        ensures
            r.0 == self.field.name_of(self.index as int),
            r.1 == self.field.control_of(),
    {
        (self.field.name(self.index), self.field.control())
    }
}

// -------------------------------------------------------------------------------------------
// Switches
// -------------------------------------------------------------------------------------------

/// The mask's columns and rows for the signal of an input, or the reference's where its size is
/// not known.
pub open spec fn density(c: Config, input: (u32, u32)) -> Seq<Real32> {
    c.repeats(
        match c.signal_of(input) {
            Ok(signal) => signal,
            Err(_) => (256u32, 224u32),
        },
    )
}

impl Config {
    /// Has the mask follow the signal, or gives it columns and rows of its own, which start from
    /// the density in use so the picture does not jump.
    pub fn follow_signal(&mut self, follows: bool, input: (u32, u32))
        ensures
            *final(self) == (Config { mask_repeats: final(self).mask_repeats, ..*old(self) }),
            follows ==> final(self).mask_repeats is Signal,
            !follows ==> (final(self).mask_repeats matches MaskRepeats::Fixed(m) && m@ == density(
                *old(self),
                input,
            )),
    {
        self.mask_repeats =
        if follows {
            MaskRepeats::Signal
        } else {
            let signal: (u32, u32) = match self.signal_size(input) {
                Ok(size) => size,
                Err(_) => (256, 224),
            };
            let repeats: [Real32; 2] = self.mask_repeats.resolve(signal);
            assert(repeats@ =~= density(*self, input));
            MaskRepeats::Fixed(repeats)
        };
    }

    /// Sets a color behind transparency.
    pub fn set_background(&mut self, color: [u8; 3])
        ensures
            *final(self) == (Config {
                source: SourceEdit { background: color, checkerboard: false, ..old(self).source },
                ..*old(self)
            }),
    {
        self.source.background = color;
        self.source.checkerboard = false;
    }

    /// Whether a plain color is what is behind transparency.
    pub fn has_background(&self, color: [u8; 3]) -> (r: bool)
        ensures
            r == (!self.source.checkerboard && self.source.background@ == color@),
    {
        let b: [u8; 3] = self.source.background;
        let same: bool = b[0] == color[0] && b[1] == color[1] && b[2] == color[2];
        assert(same ==> b@ =~= color@);
        !self.source.checkerboard && same
    }

    /// Takes back the crop, rotation, zoom, pan and background.
    pub fn reset_framing(&mut self)
        ensures
            *final(self) == (Config { source: final(self).source, ..*old(self) }),
            final(self).source == SourceEdit::none(),
    {
        self.source = SourceEdit::default();
    }

    /// Turns the NES palette on, in place of any LUT, or off.
    pub fn use_palette(&mut self, on: bool)
        ensures
            *final(self) == (Config {
                palette: final(self).palette,
                lut: if on {
                    None
                } else {
                    old(self).lut
                },
                ..*old(self)
            }),
            on ==> (final(self).palette matches Some(palette) && palette.is_game()),
            !on ==> final(self).palette is None,
    {
        if on {
            self.palette = Some(NesPalette::default());
            self.lut = None;
        } else {
            self.palette = None;
        }
    }

    /// What the panel calls the color table in use.
    pub open spec fn table_text(self) -> Seq<char> {
        if self.palette is Some {
            "NES palette from the composite signal"@
        } else if let Some(lut) = self.lut {
            lut.name@
        } else {
            "No LUT"@
        }
    }

    pub fn table_name(&self) -> (r: String)
        ensures
            r@ == self.table_text(),
    {
        if self.palette.is_some() {
            return owned("NES palette from the composite signal");
        }
        match &self.lut {
            Some(lut) => owned(lut.name.as_str()),
            None => owned("No LUT"),
        }
    }

    /// The most of an edge that can be cropped, which leaves 2% of the picture with what its
    /// opposite takes.
    pub open spec fn crop_room(self, edge: int) -> Real32 {
        let room = Real32 { bits: 0x3f7a_e148 }.minus(self.source.crop@[(edge + 2) % 4]);
        if Real32::of(0).up_to(room) {
            room
        } else {
            Real32::of(0)
        }
    }

    /// The most of an edge that its slider crops: left, top, right, bottom.
    pub fn crop_limit(&self, edge: usize) -> (r: Real32)
        requires
            edge < 4,
        ensures
            r == self.crop_room(edge as int),
    {
        let crop: [Real32; 4] = self.source.crop;
        let room: Real32 = Real32 { bits: 0x3f7a_e148 }.sub(crop[(edge + 2) % 4]);
        let none: Real32 = Real32::from_integer(0);
        if none.at_most(room) {
            room
        } else {
            none
        }
    }

    /// Whether the picture can lose content at its edges.
    pub fn may_crop(&self) -> (r: bool)
        ensures
            r == (self.fit == Fit::Cover || self.fit == Fit::Reference || Real32::of(1).below(
                self.overscan,
            )),
    {
        self.fit == Fit::Cover || self.fit == Fit::Reference || Real32::from_integer(1).less(
            self.overscan,
        )
    }
}

/// Turning the mask's own density on and the signal's back on gives the signal's.
pub proof fn following_the_signal_again(c: Config, own: Config, again: Config)
    requires
        c.mask_repeats is Signal,
        own == (Config { mask_repeats: own.mask_repeats, ..c }),
        again == (Config { mask_repeats: MaskRepeats::Signal, ..own }),
    ensures
        again == c,
{
}

/// Whether an output takes notably more memory and time: past 4K.
pub fn large_output(size: (u32, u32)) -> (r: bool)
    ensures
        r == (size.0 * size.1 > 8_300_000),
{
    proof {
        assert(0 <= size.0 * size.1 <= 0xffff_ffff * 0xffff_ffff) by (nonlinear_arith)
            requires
                size.0 <= 0xffff_ffff,
                size.1 <= 0xffff_ffff,
        ;
    }
    size.0 as u64 * size.1 as u64 > 8_300_000
}

/// What the panel says of the sizes a look gives an input.
pub open spec fn sizes_text(signal: (u32, u32), output: (u32, u32)) -> Seq<char> {
    "Signal: "@ + crate::text::decimal(signal.0 as nat) + " × "@ + crate::text::decimal(
        signal.1 as nat,
    ) + " → Output: "@ + crate::text::decimal(output.0 as nat) + " × "@ + crate::text::decimal(
        output.1 as nat,
    )
}

/// What the panel says of the sizes a look gives an input; none where it gives none.
pub fn sizes(c: &Config, input: (u32, u32)) -> (r: Option<String>)
    ensures
        match (c.signal_of(input), c.output_of(input)) {
            (Ok(signal), Ok(output)) => r matches Some(text) && text@ == sizes_text(signal, output),
            _ => r is None,
        },
{
    match (c.signal_size(input), c.output_size(input)) {
        (Ok(signal), Ok(output)) => {
            let mut r: String = owned("Signal: ");
            r.append(decimal_text(signal.0 as u64).as_str());
            r.append(" × ");
            r.append(decimal_text(signal.1 as u64).as_str());
            r.append(" → Output: ");
            r.append(decimal_text(output.0 as u64).as_str());
            r.append(" × ");
            r.append(decimal_text(output.1 as u64).as_str());
            Some(r)
        },
        _ => None,
    }
}

} // verus!
