//! What the sliders do: how far a key press moves one, and what its reset returns to.
use crate::number::Real64;
use vstd::prelude::*;

verus! {

/// The fractions of its range by which an arrow press moves a slider: with Shift, with Alt, and
/// alone. 0.1, 0.001 and 0.01.
pub open spec fn steps() -> (Real64, Real64, Real64) {
    (
        Real64 { bits: 0x3fb9_9999_9999_999a },
        Real64 { bits: 0x3f50_624d_d2f1_a9fc },
        Real64 { bits: 0x3f84_7ae1_47ae_147b },
    )
}

/// How many times the right and the left arrow were pressed, under one modifier.
#[derive(Clone, Copy, PartialEq, Eq, Structural, Debug)]
pub struct Presses {
    pub right: u32,
    pub left: u32,
}

impl Presses {
    /// How far they move a slider whose arrow press moves it by `step`.
    pub open spec fn share(self, step: Real64) -> Real64 {
        step.times(Real64::of(self.right as nat).minus(Real64::of(self.left as nat)))
    }
}

/// The fraction of its range that a frame's arrow presses move a slider by.
pub open spec fn fraction_of(shift: Presses, alt: Presses, plain: Presses) -> Real64 {
    Real64::of(0).plus(shift.share(steps().0)).plus(alt.share(steps().1)).plus(
        plain.share(steps().2),
    )
}

fn share(presses: Presses, step: Real64) -> (r: Real64)
    ensures
        r == presses.share(step),
{
    step.mul(
        Real64::from_integer(presses.right as u64).sub(Real64::from_integer(presses.left as u64)),
    )
}

/// The fraction of its range that a frame's arrow presses move a slider by.
pub fn fraction(shift: Presses, alt: Presses, plain: Presses) -> (r: Real64)
    ensures
        r == fraction_of(shift, alt, plain),
{
    Real64::from_integer(0).add(share(shift, Real64 { bits: 0x3fb9_9999_9999_999a })).add(
        share(alt, Real64 { bits: 0x3f50_624d_d2f1_a9fc }),
    ).add(share(plain, Real64 { bits: 0x3f84_7ae1_47ae_147b }))
}

/// A slider's range, and how it moves along it.
#[derive(Clone, Copy, PartialEq, Eq, Structural, Debug)]
pub struct Keyed {
    pub min: Real64,
    pub max: Real64,
    pub logarithmic: bool,
    /// Whether it holds whole numbers.
    pub integral: bool,
    pub default: Option<Real64>,
}

impl Keyed {
    pub fn new(min: Real64, max: Real64, integral: bool) -> (r: Self)
        ensures
            r == (Keyed { min, max, logarithmic: false, integral, default: None }),
    {
        Keyed { min, max, logarithmic: false, integral, default: None }
    }

    pub fn logarithmic(self, logarithmic: bool) -> (r: Self)
        ensures
            r == (Keyed { logarithmic, ..self }),
    {
        Keyed { logarithmic, ..self }
    }

    pub fn reset_to(self, default: Real64) -> (r: Self)
        ensures
            r == (Keyed { default: Some(default), ..self }),
    {
        Keyed { default: Some(default), ..self }
    }

    /// Whether the range's ends and a value are numbers.
    pub open spec fn holds(self, value: Real64) -> bool {
        self.min.up_to(self.min) && self.max.up_to(self.max) && value.up_to(value)
    }

    /// Whether a value moves in proportion rather than evenly.
    pub open spec fn proportional(self, value: Real64) -> bool {
        self.logarithmic && Real64::of(0).below(self.min) && Real64::of(0).below(value)
    }

    /// A moved value as a person would type it: whole numbers move by at least one, others have
    /// at most six decimals.
    pub open spec fn tidied(self, value: Real64, fraction: Real64, moved: Real64) -> Real64 {
        if self.integral {
            if moved.whole().equal(value) {
                value.plus(sign_of(fraction))
            } else {
                moved.whole()
            }
        } else {
            moved.times(Real64::of(1_000_000)).whole().over(Real64::of(1_000_000))
        }
    }

    /// A value moved a fraction of the way across the range. `moved` is where it comes when it
    /// moves in proportion. It stops at the range's ends, but a value already beyond one is not
    /// pulled back in.
    pub open spec fn stepped_to(self, value: Real64, fraction: Real64, moved: Real64) -> Real64 {
        let moved = if self.proportional(value) {
            moved
        } else {
            value.plus(fraction.times(self.max.minus(self.min)))
        };
        self.tidied(value, fraction, moved).clamped(
            self.min.lesser(value),
            self.max.greater(value),
        )
    }

    /// Whether `stepped` takes its `moved`, the exponential of the value's logarithm and the
    /// fraction of the way between those of the range's ends.
    pub fn moves_in_proportion(&self, value: Real64) -> (r: bool)
        ensures
            r == self.proportional(value),
    {
        let zero: Real64 = Real64::from_integer(0);
        self.logarithmic && zero.less(self.min) && zero.less(value)
    }

    /// `value` moved `fraction` of the way across the range, down when negative: evenly, or, on a
    /// logarithmic slider, in proportion, to `moved`.
    pub fn stepped(&self, value: Real64, fraction: Real64, moved: Real64) -> (r: Real64)
        requires
            self.holds(value),
        ensures
            r == self.stepped_to(value, fraction, moved),
    {
        let moved: Real64 = if self.moves_in_proportion(value) {
            moved
        } else {
            value.add(fraction.mul(self.max.sub(self.min)))
        };
        let tidied: Real64 = if self.integral {
            let rounded: Real64 = moved.round_whole();
            if rounded.same(value) {
                value.add(signum(fraction))
            } else {
                rounded
            }
        } else {
            moved.mul(Real64::from_integer(1_000_000)).round_whole().div(
                Real64::from_integer(1_000_000),
            )
        };
        tidied.clamp(self.min.min(value), self.max.max(value))
    }

    /// The value after a frame's key presses: Delete or Backspace returns it to its default, the
    /// arrows step it. None where the keys leave it alone.
    pub fn keyed(&self, value: Real64, fraction: Real64, reset: bool, moved: Real64) -> (r: Option<
        Real64,
    >)
        requires
            self.holds(value),
        ensures
            r == match self.default {
                Some(default) if reset => Some(default),
                _ if !fraction.equal(Real64::of(0)) => Some(
                    self.stepped_to(value, fraction, moved),
                ),
                _ => None,
            },
    {
        if reset {
            match self.default {
                Some(default) => {
                    return Some(default);
                },
                None => {},
            }
        }
        if fraction.same(Real64::from_integer(0)) {
            None
        } else {
            Some(self.stepped(value, fraction, moved))
        }
    }
}

/// One with a number's sign; of a NaN, the number.
pub open spec fn sign_of(x: Real64) -> Real64 {
    if crate::float::Format::Double.nan(x.at()) {
        x
    } else if x.bits < 0x8000_0000_0000_0000 {
        Real64::of(1)
    } else {
        Real64::of(1).negated()
    }
}

fn signum(x: Real64) -> (r: Real64)
    ensures
        r == sign_of(x),
{
    if !crate::float::Format::Double.is_at_most(x.bits, x.bits) {
        x
    } else if x.bits < 0x8000_0000_0000_0000 {
        Real64::from_integer(1)
    } else {
        Real64::from_integer(1).neg()
    }
}

/// A value within a slider's range is stepped to one within it.
pub proof fn steps_stay_in_range(slider: Keyed, value: Real64, fraction: Real64, moved: Real64)
    requires
        slider.min.up_to(value),
        value.up_to(slider.max),
    ensures
        ({
            let next = slider.stepped_to(value, fraction, moved);
            !next.below(slider.min) && !slider.max.below(next)
        }),
{
    reveal(Real64::below);
    reveal(Real64::up_to);
}

} // verus!
