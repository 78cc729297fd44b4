//! Binary floating point on bit patterns, in the single and double formats of IEEE 754.
//!
//! A number is held as its bits. Each operation computes the exact result and rounds it once, to
//! the nearest number of the format, ties to even, as the hardware does. Only the payload of a
//! NaN is not kept: every operation that gives one gives the same quiet NaN.
use vstd::arithmetic::div_mod::*;
use vstd::arithmetic::mul::*;
use vstd::arithmetic::power2::*;
use vstd::prelude::*;

verus! {

/// 2^e in units of 2^-4000, which is finer than anything two doubles multiply or divide to.
pub open spec fn unit_pow(e: int) -> nat {
    pow2((e + 4000) as nat)
}

/// m·2^e in units of 2^-4000.
pub open spec fn scaled(m: nat, e: int) -> nat {
    m * unit_pow(e)
}

/// The integer nearest to a/b, the even one of two equally near.
pub open spec fn half_even(a: nat, b: nat) -> nat {
    let q = a / b;
    let r = a % b;
    if 2 * r < b {
        q
    } else if 2 * r > b {
        q + 1
    } else {
        q + q % 2
    }
}

/// The two formats a number can be held in.
#[derive(Clone, Copy, PartialEq, Eq, Structural, Debug)]
pub enum Format {
    Single,
    Double,
}

impl Format {
    /// The bits of a significand, with the hidden one.
    pub open spec fn precision(self) -> int {
        match self {
            Format::Single => 24,
            Format::Double => 53,
        }
    }

    /// The exponent of the smallest step between two numbers.
    pub open spec fn least(self) -> int {
        match self {
            Format::Single => -149,
            Format::Double => -1074,
        }
    }

    /// The hidden bit of a significand.
    pub open spec fn hidden(self) -> nat {
        match self {
            Format::Single => 0x80_0000,
            Format::Double => 0x10_0000_0000_0000,
        }
    }

    /// The bits of positive infinity.
    pub open spec fn infinity(self) -> nat {
        match self {
            Format::Single => 0x7f80_0000,
            Format::Double => 0x7ff0_0000_0000_0000,
        }
    }

    /// The sign bit.
    pub open spec fn sign(self) -> nat {
        match self {
            Format::Single => 0x8000_0000,
            Format::Double => 0x8000_0000_0000_0000,
        }
    }

    /// The one NaN that operations give.
    pub open spec fn quiet(self) -> nat {
        match self {
            Format::Single => 0x7fc0_0000,
            Format::Double => 0x7ff8_0000_0000_0000,
        }
    }

    pub open spec fn holds(self, bits: nat) -> bool {
        bits < 2 * self.sign()
    }

    pub open spec fn negative(self, bits: nat) -> bool {
        bits >= self.sign()
    }

    pub open spec fn magnitude(self, bits: nat) -> nat {
        bits % self.sign()
    }

    pub open spec fn nan(self, bits: nat) -> bool {
        self.magnitude(bits) > self.infinity()
    }

    pub open spec fn infinite(self, bits: nat) -> bool {
        self.magnitude(bits) == self.infinity()
    }

    pub open spec fn finite(self, bits: nat) -> bool {
        self.magnitude(bits) < self.infinity()
    }

    pub open spec fn zero(self, bits: nat) -> bool {
        self.magnitude(bits) == 0
    }

    /// The significand of a finite number.
    pub open spec fn significand(self, bits: nat) -> nat {
        let m = self.magnitude(bits);
        if m < self.hidden() {
            m
        } else {
            self.hidden() + m % self.hidden()
        }
    }

    /// The exponent of a finite number: its value is its significand times two to this.
    pub open spec fn exponent(self, bits: nat) -> int {
        let m = self.magnitude(bits);
        if m < self.hidden() {
            self.least()
        } else {
            self.least() + m / self.hidden() - 1
        }
    }

    /// What a finite number is worth, in units of 2^-4000.
    pub open spec fn value(self, bits: nat) -> int {
        let v = scaled(self.significand(bits), self.exponent(bits)) as int;
        if self.negative(bits) {
            -v
        } else {
            v
        }
    }

    /// Whether numbers about n/d large, in units of 2^-4000, are multiples of 2^k.
    pub open spec fn is_quantum(self, n: nat, d: nat, k: int) -> bool {
        &&& k >= self.least()
        &&& n < d * unit_pow(k + self.precision())
        &&& k > self.least() ==> n >= d * unit_pow(k - 1 + self.precision())
    }

    pub open spec fn quantum(self, n: nat, d: nat) -> int {
        choose|k: int| self.is_quantum(n, d, k)
    }

    /// The magnitude bits of the number nearest to n/d, in units of 2^-4000: ties to even, and
    /// infinity past the largest number.
    pub open spec fn nearest(self, n: nat, d: nat) -> nat {
        let k = self.quantum(n, d);
        let bits = (k - self.least()) * self.hidden() + half_even(n, d * unit_pow(k));
        if bits < self.infinity() {
            bits as nat
        } else {
            self.infinity()
        }
    }

    pub open spec fn signed(self, negative: bool, magnitude: nat) -> nat {
        if negative {
            self.sign() + magnitude
        } else {
            magnitude
        }
    }

    pub open spec fn sum(self, a: nat, b: nat) -> nat {
        if self.nan(a) || self.nan(b) || (self.infinite(a) && self.infinite(b) && self.negative(a)
            != self.negative(b)) {
            self.quiet()
        } else if self.infinite(a) {
            a
        } else if self.infinite(b) {
            b
        } else {
            let v = self.value(a) + self.value(b);
            if v == 0 {
                self.signed(self.negative(a) && self.negative(b), 0)
            } else if v < 0 {
                self.signed(true, self.nearest((-v) as nat, 1))
            } else {
                self.nearest(v as nat, 1)
            }
        }
    }

    pub open spec fn negated(self, a: nat) -> nat {
        if self.negative(a) {
            (a - self.sign()) as nat
        } else {
            a + self.sign()
        }
    }

    pub open spec fn difference(self, a: nat, b: nat) -> nat {
        self.sum(a, self.negated(b))
    }

    pub open spec fn product(self, a: nat, b: nat) -> nat {
        let negative = self.negative(a) != self.negative(b);
        if self.nan(a) || self.nan(b) || (self.infinite(a) && self.zero(b)) || (self.zero(a)
            && self.infinite(b)) {
            self.quiet()
        } else if self.infinite(a) || self.infinite(b) {
            self.signed(negative, self.infinity())
        } else {
            self.signed(
                negative,
                self.nearest(
                    scaled(
                        self.significand(a) * self.significand(b),
                        self.exponent(a) + self.exponent(b),
                    ),
                    1,
                ),
            )
        }
    }

    pub open spec fn quotient(self, a: nat, b: nat) -> nat {
        let negative = self.negative(a) != self.negative(b);
        if self.nan(a) || self.nan(b) || (self.infinite(a) && self.infinite(b)) || (self.zero(a)
            && self.zero(b)) {
            self.quiet()
        } else if self.infinite(a) || self.zero(b) {
            self.signed(negative, self.infinity())
        } else if self.infinite(b) {
            self.signed(negative, 0)
        } else {
            self.signed(
                negative,
                self.nearest(
                    scaled(self.significand(a), self.exponent(a) - self.exponent(b)),
                    self.significand(b),
                ),
            )
        }
    }

    /// Where a number that is not a NaN stands among the others: by sign, then by magnitude,
    /// with one zero.
    pub open spec fn rank(self, a: nat) -> int {
        if self.negative(a) {
            -(self.magnitude(a) as int)
        } else {
            self.magnitude(a) as int
        }
    }

    pub open spec fn less(self, a: nat, b: nat) -> bool {
        !self.nan(a) && !self.nan(b) && self.rank(a) < self.rank(b)
    }

    pub open spec fn at_most(self, a: nat, b: nat) -> bool {
        !self.nan(a) && !self.nan(b) && self.rank(a) <= self.rank(b)
    }

    pub open spec fn same(self, a: nat, b: nat) -> bool {
        !self.nan(a) && !self.nan(b) && self.rank(a) == self.rank(b)
    }

    /// The integer nearest to a number, halves away from zero, kept within 0 and `most`.
    pub open spec fn rounded(self, a: nat, most: nat) -> nat {
        if self.nan(a) || self.negative(a) {
            0
        } else if self.infinite(a) {
            most
        } else {
            let v = (2 * self.value(a) + unit_pow(0)) / (2 * unit_pow(0) as int);
            if v < most {
                v as nat
            } else {
                most
            }
        }
    }

    /// The largest integer that a number reaches, kept within `most` of zero; 0 of a NaN.
    pub open spec fn floored(self, a: nat, most: nat) -> int {
        if self.nan(a) {
            0
        } else if self.infinite(a) {
            if self.negative(a) {
                -(most as int)
            } else {
                most as int
            }
        } else {
            let v = self.value(a) / (unit_pow(0) as int);
            if v < -(most as int) {
                -(most as int)
            } else if v > most {
                most as int
            } else {
                v
            }
        }
    }

    /// A number without its fraction, kept within 0 and `most`.
    pub open spec fn truncated(self, a: nat, most: nat) -> nat {
        if self.nan(a) || self.negative(a) {
            0
        } else if self.infinite(a) {
            most
        } else {
            let v = self.value(a) / (unit_pow(0) as int);
            if v < most {
                v as nat
            } else {
                most
            }
        }
    }
}

// -------------------------------------------------------------------------------------------
// Rounding
// -------------------------------------------------------------------------------------------

pub proof fn lemma_unit_pow_adds(e: int, s: nat)
    requires
        e >= -4000,
    ensures
        unit_pow(e + s) == unit_pow(e) * pow2(s),
        unit_pow(e) > 0,
{
    lemma_pow2_adds((e + 4000) as nat, s);
    lemma_pow2_pos((e + 4000) as nat);
}

pub proof fn lemma_unit_pow_grows(e1: int, e2: int)
    requires
        -4000 <= e1 <= e2,
    ensures
        0 < unit_pow(e1) <= unit_pow(e2),
{
    lemma_pow2_pos((e1 + 4000) as nat);
    if e1 < e2 {
        lemma_pow2_strictly_increases((e1 + 4000) as nat, (e2 + 4000) as nat);
    }
}

/// A number has one quantum only.
pub proof fn lemma_quantum_is_unique(f: Format, n: nat, d: nat, k: int)
    requires
        f.is_quantum(n, d, k),
    ensures
        f.quantum(n, d) == k,
{
    let other = f.quantum(n, d);
    assert(f.is_quantum(n, d, other));
    let p = f.precision();
    if other < k {
        lemma_unit_pow_grows(other + p, k - 1 + p);
        lemma_mul_inequality(unit_pow(other + p) as int, unit_pow(k - 1 + p) as int, d as int);
        assert(d * unit_pow(other + p) <= d * unit_pow(k - 1 + p)) by (nonlinear_arith)
            requires
                unit_pow(other + p) <= unit_pow(k - 1 + p),
        ;
    } else if k < other {
        lemma_unit_pow_grows(k + p, other - 1 + p);
        assert(d * unit_pow(k + p) <= d * unit_pow(other - 1 + p)) by (nonlinear_arith)
            requires
                unit_pow(k + p) <= unit_pow(other - 1 + p),
        ;
    }
}

pub proof fn lemma_half_even_scales(a: nat, b: nat, c: nat)
    requires
        b > 0,
        c > 0,
    ensures
        b * c > 0,
        half_even(a * c, b * c) == half_even(a, b),
{
    lemma_mul_is_commutative(a as int, c as int);
    lemma_mul_is_commutative(b as int, c as int);
    lemma_div_multiples_vanish_quotient(c as int, a as int, b as int);
    lemma_truncate_middle(a as int, c as int, b as int);
    let r = a % b;
    assert((a * c) % (b * c) == c * r);
    assert((2 * r < b) == (2 * (c * r) < b * c)) by (nonlinear_arith)
        requires
            c > 0,
    ;
    assert((2 * r > b) == (2 * (c * r) > b * c)) by (nonlinear_arith)
        requires
            c > 0,
    ;
}

/// Two to the power of `s`.
fn power_of_two(s: u32) -> (r: u128)
    requires
        s < 128,
    ensures
        r == pow2(s as nat),
        r > 0,
{
    proof {
        lemma2_to64();
        lemma_pow2_pos(s as nat);
    }
    let mut r: u128 = 1;
    let mut i: u32 = 0;
    while i < s
        invariant
            i <= s < 128,
            r == pow2(i as nat),
        decreases s - i,
    {
        proof {
            lemma_pow2_unfold((i + 1) as nat);
            lemma_pow2_128();
            if i + 1 < 127 {
                lemma_pow2_strictly_increases((i + 1) as nat, 127);
            }
        }
        r = r * 2;
        i = i + 1;
    }
    r
}

pub proof fn lemma_pow2_128()
    ensures
        pow2(127) == 0x8000_0000_0000_0000_0000_0000_0000_0000,
        pow2(126) == 0x4000_0000_0000_0000_0000_0000_0000_0000,
        pow2(120) == 0x100_0000_0000_0000_0000_0000_0000_0000,
        pow2(117) == 0x20_0000_0000_0000_0000_0000_0000_0000,
        pow2(64) == 0x1_0000_0000_0000_0000,
        pow2(53) == 0x20_0000_0000_0000,
        pow2(60) == 0x1000_0000_0000_0000,
        pow2(24) == 0x100_0000,
        pow2(1) == 2,
        pow2(0) == 1,
{
    lemma2_to64();
    lemma2_to64_rest();
    lemma_pow2_adds(64, 63);
    lemma_pow2_adds(64, 62);
    lemma_pow2_adds(64, 56);
    lemma_pow2_adds(64, 53);
    assert(0x1_0000_0000_0000_0000 * 0x8000_0000_0000_0000
        == 0x8000_0000_0000_0000_0000_0000_0000_0000) by (nonlinear_arith);
    assert(0x1_0000_0000_0000_0000 * 0x4000_0000_0000_0000
        == 0x4000_0000_0000_0000_0000_0000_0000_0000) by (nonlinear_arith);
    assert(0x1_0000_0000_0000_0000 * 0x100_0000_0000_0000
        == 0x100_0000_0000_0000_0000_0000_0000_0000) by (nonlinear_arith);
    assert(0x1_0000_0000_0000_0000 * 0x20_0000_0000_0000
        == 0x20_0000_0000_0000_0000_0000_0000_0000) by (nonlinear_arith);
}

/// How many bits `n` takes.
fn bit_length(n: u128) -> (b: u32)
    requires
        0 < n < 0x100_0000_0000_0000_0000_0000_0000_0000,
    ensures
        0 < b <= 120,
        pow2((b - 1) as nat) <= n < pow2(b as nat),
{
    proof {
        lemma_pow2_128();
    }
    let mut b: u32 = 1;
    let mut power: u128 = 2;
    while power <= n
        invariant
            0 < b <= 120,
            power == pow2(b as nat),
            pow2((b - 1) as nat) <= n < 0x100_0000_0000_0000_0000_0000_0000_0000,
        decreases 121 - b,
    {
        proof {
            lemma_pow2_128();
            lemma_pow2_unfold((b + 1) as nat);
            if b >= 120 {
                assert(false);
            }
        }
        power = power * 2;
        b = b + 1;
    }
    b
}

impl Format {
    pub(crate) fn precision_bits(self) -> (r: i32)
        ensures
            r == self.precision(),
    {
        match self {
            Format::Single => 24,
            Format::Double => 53,
        }
    }

    pub(crate) fn least_exponent(self) -> (r: i32)
        ensures
            r == self.least(),
    {
        match self {
            Format::Single => -149,
            Format::Double => -1074,
        }
    }

    pub(crate) fn hidden_bit(self) -> (r: u64)
        ensures
            r == self.hidden(),
    {
        match self {
            Format::Single => 0x80_0000,
            Format::Double => 0x10_0000_0000_0000,
        }
    }

    pub(crate) fn infinity_bits(self) -> (r: u64)
        ensures
            r == self.infinity(),
    {
        match self {
            Format::Single => 0x7f80_0000,
            Format::Double => 0x7ff0_0000_0000_0000,
        }
    }

    pub(crate) fn sign_bit(self) -> (r: u64)
        ensures
            r == self.sign(),
    {
        match self {
            Format::Single => 0x8000_0000,
            Format::Double => 0x8000_0000_0000_0000,
        }
    }

    pub(crate) fn quiet_nan(self) -> (r: u64)
        ensures
            r == self.quiet(),
    {
        match self {
            Format::Single => 0x7fc0_0000,
            Format::Double => 0x7ff8_0000_0000_0000,
        }
    }
}


/// Whether n < d·2^s.
spec fn under(n: nat, d: nat, s: int) -> bool {
    if s >= 0 {
        n < d * pow2(s as nat)
    } else {
        n * pow2((-s) as nat) < d
    }
}

proof fn lemma_under(n: nat, d: nat, e: int, s: int)
    requires
        e >= -4000,
        e + s >= -4000,
    ensures
        under(n, d, s) == (scaled(n, e) < d * unit_pow(e + s)),
{
    if s >= 0 {
        lemma_unit_pow_adds(e, s as nat);
        let u = unit_pow(e);
        let w = pow2(s as nat);
        assert((n < d * w) == (n * u < d * (u * w))) by (nonlinear_arith)
            requires
                u > 0,
        ;
    } else {
        lemma_unit_pow_adds(e + s, (-s) as nat);
        let u = unit_pow(e + s);
        let w = pow2((-s) as nat);
        assert((n * w < d) == (n * (u * w) < d * u)) by (nonlinear_arith)
            requires
                u > 0,
        ;
    }
}

proof fn lemma_under_grows(n: nat, d: nat, s1: int, s2: int)
    requires
        -4000 <= s1 <= s2,
        under(n, d, s1),
    ensures
        under(n, d, s2),
{
    lemma_under(n, d, 0, s1);
    lemma_under(n, d, 0, s2);
    lemma_unit_pow_grows(s1, s2);
    assert(d * unit_pow(s1) <= d * unit_pow(s2)) by (nonlinear_arith)
        requires
            unit_pow(s1) <= unit_pow(s2),
    ;
}

/// n/d lies within a factor of two of what the lengths of n and d tell.
proof fn lemma_lengths_bound(n: nat, d: nat, bn: int, bd: int)
    requires
        bn > 0,
        bd > 0,
        pow2((bn - 1) as nat) <= n < pow2(bn as nat),
        pow2((bd - 1) as nat) <= d < pow2(bd as nat),
    ensures
        under(n, d, bn - bd + 1),
        !under(n, d, bn - bd - 1),
{
    let s = bn - bd + 1;
    if s >= 0 {
        lemma_pow2_adds((bd - 1) as nat, s as nat);
        assert(d * pow2(s as nat) >= pow2((bd - 1) as nat) * pow2(s as nat)) by (nonlinear_arith)
            requires
                d >= pow2((bd - 1) as nat),
        ;
    } else {
        lemma_pow2_adds(bn as nat, (-s) as nat);
        lemma_pow2_pos((-s) as nat);
        assert(n * pow2((-s) as nat) < pow2(bn as nat) * pow2((-s) as nat)) by (nonlinear_arith)
            requires
                n < pow2(bn as nat),
                pow2((-s) as nat) > 0,
        ;
    }
    let t = bn - bd - 1;
    if t >= 0 {
        lemma_pow2_adds(bd as nat, t as nat);
        lemma_pow2_pos(t as nat);
        assert(d * pow2(t as nat) < pow2(bd as nat) * pow2(t as nat)) by (nonlinear_arith)
            requires
                d < pow2(bd as nat),
                pow2(t as nat) > 0,
        ;
    } else {
        lemma_pow2_adds((bn - 1) as nat, (-t) as nat);
        assert(n * pow2((-t) as nat) >= pow2((bn - 1) as nat) * pow2((-t) as nat))
            by (nonlinear_arith)
            requires
                n >= pow2((bn - 1) as nat),
        ;
    }
}

/// Whether n < d·2^s, where s is the difference of the lengths of n and d.
fn is_under(n: u128, d: u128, bn: u32, bd: u32) -> (r: bool)
    requires
        0 < bn <= 120,
        0 < bd <= 120,
        pow2((bn - 1) as nat) <= n < pow2(bn as nat),
        pow2((bd - 1) as nat) <= d < pow2(bd as nat),
    ensures
        r == under(n as nat, d as nat, bn - bd),
{
    proof {
        lemma_pow2_128();
        lemma_pow2_strictly_increases_or_same(bn as nat, 120);
        lemma_pow2_strictly_increases_or_same(bd as nat, 120);
    }
    if bn >= bd {
        let w: u128 = power_of_two(bn - bd);
        proof {
            lemma_pow2_adds(bd as nat, (bn - bd) as nat);
            assert(d * w < pow2(bd as nat) * w) by (nonlinear_arith)
                requires
                    d < pow2(bd as nat),
                    w > 0,
            ;
        }
        n < d * w
    } else {
        let w: u128 = power_of_two(bd - bn);
        proof {
            lemma_pow2_adds(bn as nat, (bd - bn) as nat);
            assert(n * w < pow2(bn as nat) * w) by (nonlinear_arith)
                requires
                    n < pow2(bn as nat),
                    w > 0,
            ;
        }
        n * w < d
    }
}

proof fn lemma_pow2_strictly_increases_or_same(a: nat, b: nat)
    requires
        a <= b,
    ensures
        0 < pow2(a) <= pow2(b),
{
    lemma_pow2_pos(a);
    if a < b {
        lemma_pow2_strictly_increases(a, b);
    }
}

fn half_even_quotient(a: u128, b: u128) -> (r: u128)
    requires
        b > 0,
        a < 0x8000_0000_0000_0000_0000_0000_0000_0000,
    ensures
        r == half_even(a as nat, b as nat),
{
    let q: u128 = a / b;
    let r: u128 = a % b;
    let rest: u128 = b - r;
    if r < rest {
        q
    } else {
        proof {
            assert(q <= a) by (nonlinear_arith)
                requires
                    q == a / b,
                    b > 0,
                    a >= 0,
            ;
        }
        if r > rest {
            q + 1
        } else {
            q + q % 2
        }
    }
}

/// Numbers and divisors whose quotient is exact enough to round.
spec fn fits(n: u128, d: u64) -> bool {
    ||| d == 1 && n < 0x100_0000_0000_0000_0000_0000_0000_0000
    ||| 0 < d < 0x1000_0000_0000_0000 && n < 0x1000_0000_0000_0000
}

impl Format {
    /// The magnitude bits of the number nearest to n/d·2^e.
    fn round_nearest(self, n: u128, d: u64, e: i32) -> (r: u64)
        requires
            fits(n, d),
            -2200 <= e <= 2200,
        ensures
            r == self.nearest(scaled(n as nat, e as int), d as nat),
            r <= self.infinity(),
    {
        let p: i32 = self.precision_bits();
        let least: i32 = self.least_exponent();
        let wide: u128 = d as u128;
        let ghost exact = scaled(n as nat, e as int);
        if n == 0 {
            proof {
                lemma_unit_pow_grows(least as int, least + p);
                lemma_unit_pow_grows(least as int, least as int);
                let u = unit_pow(least + p);
                assert(exact == 0) by (nonlinear_arith)
                    requires
                        exact == n * unit_pow(e as int),
                        n == 0,
                ;
                assert(d * u > 0) by (nonlinear_arith)
                    requires
                        d > 0,
                        u > 0,
                ;
                assert(self.is_quantum(exact, d as nat, least as int));
                lemma_quantum_is_unique(self, exact, d as nat, least as int);
                let b = d * unit_pow(least as int);
                assert(b > 0) by (nonlinear_arith)
                    requires
                        b == d * unit_pow(least as int),
                        d > 0,
                        unit_pow(least as int) > 0,
                ;
                lemma_small_mod(0, b as nat);
                lemma_basic_div(0, b as int);
                assert(half_even(0, b as nat) == 0);
                assert((least - self.least()) * self.hidden() == 0) by (nonlinear_arith)
                    requires
                        least == self.least(),
                ;
            }
            return 0;
        }
        proof {
            lemma_pow2_128();
        }
        let bn: u32 = bit_length(n);
        let bd: u32 = bit_length(wide);
        let below: bool = is_under(n, wide, bn, bd);
        proof {
            lemma_lengths_bound(n as nat, d as nat, bn as int, bd as int);
        }
        let s: i32 = if below {
            bn as i32 - bd as i32
        } else {
            bn as i32 - bd as i32 + 1
        };
        let k: i32 = if e + s - p < least {
            least
        } else {
            e + s - p
        };
        proof {
            assert(under(n as nat, d as nat, s as int));
            assert(!under(n as nat, d as nat, s - 1));
            lemma_under_grows(n as nat, d as nat, s as int, k + p - e);
            lemma_under(n as nat, d as nat, e as int, k + p - e);
            if k > least {
                lemma_under(n as nat, d as nat, e as int, k - 1 + p - e);
            }
            assert(self.is_quantum(exact, d as nat, k as int));
            lemma_quantum_is_unique(self, exact, d as nat, k as int);
            if d > 1 && bn > 60 {
                lemma_pow2_strictly_increases_or_same(60, (bn - 1) as nat);
            }
        }
        let m: u128 = self.round_at(n, d, e, k, bn);
        let steps: u64 = (k - least) as u64;
        let hidden: u64 = self.hidden_bit();
        let infinity: u64 = self.infinity_bits();
        proof {
            assert(steps as u128 * hidden as u128 <= 3500 * 0x10_0000_0000_0000) by (nonlinear_arith)
                requires
                    steps <= 3500,
                    hidden <= 0x10_0000_0000_0000,
            ;
        }
        let bits: u128 = steps as u128 * hidden as u128 + m;
        if bits < infinity as u128 {
            bits as u64
        } else {
            infinity
        }
    }

    /// n/d·2^e in steps of 2^k.
    fn round_at(self, n: u128, d: u64, e: i32, k: i32, bn: u32) -> (m: u128)
        requires
            fits(n, d),
            n > 0,
            -2200 <= e <= 2200,
            -1074 <= k <= 2400,
            0 < bn <= 120,
            n < pow2(bn as nat),
            d > 1 ==> bn <= 60,
            self.is_quantum(scaled(n as nat, e as int), d as nat, k as int),
        ensures
            m == half_even(scaled(n as nat, e as int), d as nat * unit_pow(k as int)),
            m <= 0x20_0000_0000_0000,
    {
        let p: i32 = self.precision_bits();
        let wide: u128 = d as u128;
        let ghost exact = scaled(n as nat, e as int);
        proof {
            lemma_pow2_128();
            lemma_unit_pow_grows(k as int, k as int);
            lemma_unit_pow_grows(e as int, e as int);
            lemma_unit_pow_adds(k as int, p as nat);
            lemma_pow2_strictly_increases_or_same(p as nat, 53);
            // The rounded quotient is at most 2^p.
            let b = (d * unit_pow(k as int)) as nat;
            let w = pow2(p as nat);
            let u = unit_pow(k as int);
            assert(d * (u * w) == (d * u) * w) by (nonlinear_arith);
            assert(b > 0) by (nonlinear_arith)
                requires
                    b == d * u,
                    d > 0,
                    u > 0,
            ;
            lemma_half_even_at_most(exact, b, w);
        }
        if e >= k {
            let shift: u32 = (e - k) as u32;
            proof {
                lemma_unit_pow_adds(k as int, shift as nat);
                lemma_unit_pow_adds(k as int, p as nat);
                lemma_pow2_pos(shift as nat);
                let u = unit_pow(k as int);
                let w = pow2(shift as nat);
                let top = pow2(p as nat);
                assert(exact == (n * w) * u) by (nonlinear_arith)
                    requires
                        exact == n * (u * w),
                ;
                assert(n * w < d * top) by (nonlinear_arith)
                    requires
                        (n * w) * u < d * (u * top),
                        u > 0,
                ;
                assert(d * top <= 0x1000_0000_0000_0000 * 0x20_0000_0000_0000) by (nonlinear_arith)
                    requires
                        d <= 0x1000_0000_0000_0000,
                        top <= 0x20_0000_0000_0000,
                ;
                assert(0x1000_0000_0000_0000 * 0x20_0000_0000_0000
                    == 0x2_0000_0000_0000_0000_0000_0000_0000) by (nonlinear_arith);
                assert(w <= n * w) by (nonlinear_arith)
                    requires
                        n > 0,
                ;
                if shift >= 127 {
                    lemma_pow2_strictly_increases_or_same(127, shift as nat);
                    assert(false);
                }
                lemma_half_even_scales((n * w) as nat, d as nat, u);
            }
            let power: u128 = power_of_two(shift);
            half_even_quotient(n * power, wide)
        } else {
            let shift: i32 = k - e;
            proof {
                lemma_unit_pow_adds(e as int, shift as nat);
                lemma_pow2_pos(shift as nat);
            }
            let ghost u = unit_pow(e as int);
            let ghost w = pow2(shift as nat);
            proof {
                assert(d * (u * w) == (d * w) * u) by (nonlinear_arith);
                assert(d * w > 0) by (nonlinear_arith)
                    requires
                        d > 0,
                        w > 0,
                ;
                lemma_half_even_scales(n as nat, (d * w) as nat, u);
                assert(exact == n * u);
            }
            if shift >= bn as i32 + 2 {
                proof {
                    lemma_pow2_strictly_increases_or_same((bn + 2) as nat, shift as nat);
                    lemma_pow2_adds(bn as nat, 2);
                    lemma2_to64();
                    assert(4 * n < d * w) by (nonlinear_arith)
                        requires
                            4 * n < w,
                            d >= 1,
                    ;
                    lemma_small_mod(n as nat, (d * w) as nat);
                    lemma_basic_div(n as int, (d * w) as int);
                }
                return 0;
            }
            proof {
                lemma_pow2_strictly_increases_or_same(shift as nat, (bn + 1) as nat);
                lemma_pow2_strictly_increases_or_same((bn + 1) as nat, 121);
                lemma_pow2_strictly_increases_or_same(121, 126);
                lemma_pow2_strictly_increases_or_same(bn as nat, 120);
                if d > 1 {
                    lemma_pow2_strictly_increases_or_same((bn + 1) as nat, 61);
                    lemma_pow2_adds(60, 1);
                    assert(d * w <= 0x1000_0000_0000_0000 * 0x2000_0000_0000_0000)
                        by (nonlinear_arith)
                        requires
                            d <= 0x1000_0000_0000_0000,
                            w <= 0x2000_0000_0000_0000,
                    ;
                    assert(0x1000_0000_0000_0000 * 0x2000_0000_0000_0000
                        == 0x200_0000_0000_0000_0000_0000_0000_0000) by (nonlinear_arith);
                }
            }
            let power: u128 = power_of_two(shift as u32);
            half_even_quotient(n, wide * power)
        }
    }
}

/// What is below b·w rounds to at most w.
pub proof fn lemma_half_even_at_most(a: nat, b: nat, w: nat)
    requires
        b > 0,
        a < b * w,
    ensures
        half_even(a, b) <= w,
{
    lemma_fundamental_div_mod(a as int, b as int);
    let q = a / b;
    if q >= w {
        assert(b * q >= b * w) by (nonlinear_arith)
            requires
                q >= w,
                b > 0,
        ;
    }
}


// -------------------------------------------------------------------------------------------
// Operations
// -------------------------------------------------------------------------------------------

pub proof fn lemma_half_even_of(a: nat, b: nat, q: nat, r: nat)
    requires
        r < b,
        a == b * q + r,
    ensures
        half_even(a, b) == (if 2 * r < b {
            q
        } else if 2 * r > b {
            q + 1
        } else {
            q + q % 2
        }),
{
    lemma_mul_is_commutative(b as int, q as int);
    lemma_fundamental_div_mod_converse(a as int, b as int, q as int, r as int);
}

/// The bits of a number give back its significand and exponent.
proof fn lemma_parts_of_magnitude(f: Format, bits: nat)
    ensures
        f.magnitude(bits) >= f.hidden() ==> {
            &&& f.magnitude(bits) == (f.exponent(bits) - f.least()) * f.hidden() + f.significand(
                bits,
            )
            &&& f.hidden() <= f.significand(bits) < 2 * f.hidden()
            &&& f.exponent(bits) >= f.least()
        },
        f.magnitude(bits) < f.hidden() ==> f.significand(bits) < f.hidden() && f.exponent(bits)
            == f.least(),
        f.finite(bits) ==> f.exponent(bits) <= 971,
        f.precision() == 53 || f.precision() == 24,
        2 * f.hidden() == pow2(f.precision() as nat),
{
    lemma_pow2_128();
    let m = f.magnitude(bits) as int;
    let h = f.hidden() as int;
    lemma_fundamental_div_mod(m, h);
    if m >= h {
        assert(m / h >= 1) by (nonlinear_arith)
            requires
                m >= h,
                h > 0,
        ;
        let e = m / h - 1;
        assert(h * (m / h) == e * h + h) by (nonlinear_arith)
            requires
                e == m / h - 1,
        ;
    }
    if m < f.infinity() {
        assert(m / h <= 2046) by (nonlinear_arith)
            requires
                m < 2047 * h,
                h > 0,
                m >= 0,
        ;
        match f {
            Format::Single => {
                assert(m / h <= 254) by (nonlinear_arith)
                    requires
                        m < 255 * h,
                        h > 0,
                        m >= 0,
                ;
            },
            Format::Double => {},
        }
    }
}

/// Less than an eighth of its last place, added to a number or taken from it, rounds away.
proof fn lemma_far_rounds_away(f: Format, bits: nat, v: nat, d: nat, less: bool)
    requires
        f.finite(bits),
        f.exponent(bits) > f.least(),
        8 * d < unit_pow(f.exponent(bits)),
        less ==> v == scaled(f.significand(bits), f.exponent(bits)) - d,
        !less ==> v == scaled(f.significand(bits), f.exponent(bits)) + d,
    ensures
        f.nearest(v, 1) == f.magnitude(bits),
{
    lemma_parts_of_magnitude(f, bits);
    let e = f.exponent(bits);
    let m = f.significand(bits);
    let h = f.hidden();
    let p = f.precision();
    let u = unit_pow(e);
    lemma_unit_pow_adds(e, p as nat);
    lemma_unit_pow_adds(e - 1, p as nat);
    lemma_unit_pow_adds(e - 1, 1);
    lemma_unit_pow_adds(e - 2, p as nat);
    lemma_unit_pow_adds(e - 2, 1);
    lemma_pow2_128();
    let w = unit_pow(e - 1);
    let x = unit_pow(e - 2);
    assert(u == 2 * w && w == 2 * x);
    assert(unit_pow(e + p) == 2 * h * u) by (nonlinear_arith)
        requires
            unit_pow(e + p) == u * (2 * h),
    ;
    assert(unit_pow(e - 1 + p) == h * u) by (nonlinear_arith)
        requires
            unit_pow(e - 1 + p) == w * (2 * h),
            u == 2 * w,
    ;
    assert(unit_pow(e - 2 + p) == h * w) by (nonlinear_arith)
        requires
            unit_pow(e - 2 + p) == x * (2 * h),
            w == 2 * x,
    ;
    if less && m == h && d > 0 {
        assert(h * u >= 2 * d + h * w) by (nonlinear_arith)
            requires
                u == 2 * w,
                8 * d < u,
                h >= 1,
        ;
        assert(f.is_quantum(v, 1, e - 1));
        lemma_quantum_is_unique(f, v, 1, e - 1);
        assert(v == w * ((2 * h - 1) as nat) + (w - d)) by (nonlinear_arith)
            requires
                v == h * u - d,
                u == 2 * w,
                h >= 1,
        ;
        lemma_half_even_of(v, w, (2 * h - 1) as nat, (w - d) as nat);
        assert((e - 1 - f.least()) * h + 2 * h == (e - f.least()) * h + h) by (nonlinear_arith);
    } else {
        assert(m * u <= 2 * h * u - u) by (nonlinear_arith)
            requires
                m <= 2 * h - 1,
        ;
        if less && d > 0 {
            assert(m * u >= h * u + u) by (nonlinear_arith)
                requires
                    m >= h + 1,
            ;
        } else {
            assert(m * u >= h * u) by (nonlinear_arith)
                requires
                    m >= h,
            ;
        }
        assert(f.is_quantum(v, 1, e));
        lemma_quantum_is_unique(f, v, 1, e);
        if less && d > 0 {
            assert(v == u * ((m - 1) as nat) + (u - d)) by (nonlinear_arith)
                requires
                    v == m * u - d,
                    m >= 1,
            ;
            lemma_half_even_of(v, u, (m - 1) as nat, (u - d) as nat);
        } else {
            assert(v == u * m + d) by (nonlinear_arith)
                requires
                    v == m * u + d,
            ;
            lemma_half_even_of(v, u, m, d);
        }
    }
}

/// A number's sign, significand and exponent.
struct Parts {
    negative: bool,
    significand: u64,
    exponent: i32,
}

impl Format {
    spec fn parted(self, bits: nat, parts: Parts) -> bool {
        &&& parts.negative == self.negative(bits)
        &&& parts.significand == self.significand(bits)
        &&& parts.exponent == self.exponent(bits)
        &&& parts.significand < 0x20_0000_0000_0000
        &&& -1074 <= parts.exponent <= 971
        &&& parts.significand == 0 <==> self.zero(bits)
    }

    fn magnitude_bits(self, bits: u64) -> (r: u64)
        requires
            self.holds(bits as nat),
        ensures
            r == self.magnitude(bits as nat),
    {
        let sign: u64 = self.sign_bit();
        if bits >= sign {
            proof {
                lemma_fundamental_div_mod_converse(
                    bits as int,
                    sign as int,
                    1,
                    (bits - sign) as int,
                );
            }
            bits - sign
        } else {
            proof {
                lemma_small_mod(bits as nat, sign as nat);
            }
            bits
        }
    }

    fn is_negative(self, bits: u64) -> (r: bool)
        ensures
            r == self.negative(bits as nat),
    {
        bits >= self.sign_bit()
    }

    fn parts(self, bits: u64) -> (r: Parts)
        requires
            self.holds(bits as nat),
            self.finite(bits as nat),
        ensures
            self.parted(bits as nat, r),
    {
        proof {
            lemma_parts_of_magnitude(self, bits as nat);
        }
        let negative: bool = self.is_negative(bits);
        let m: u64 = self.magnitude_bits(bits);
        let hidden: u64 = self.hidden_bit();
        let least: i32 = self.least_exponent();
        if m < hidden {
            Parts { negative, significand: m, exponent: least }
        } else {
            let steps: u64 = m / hidden;
            proof {
                assert(self.exponent(bits as nat) == least + steps - 1);
            }
            Parts { negative, significand: hidden + m % hidden, exponent: least + (steps as i32) - 1 }
        }
    }

    pub(crate) fn with_sign(self, negative: bool, magnitude: u64) -> (r: u64)
        requires
            magnitude < self.sign(),
        ensures
            r == self.signed(negative, magnitude as nat),
    {
        if negative {
            self.sign_bit() + magnitude
        } else {
            magnitude
        }
    }

    /// a + b of finite numbers, where a's exponent is the larger.
    fn sum_ordered(self, a: u64, b: u64, x: Parts, y: Parts) -> (r: u64)
        requires
            self.holds(a as nat),
            self.holds(b as nat),
            self.finite(a as nat),
            self.finite(b as nat),
            self.parted(a as nat, x),
            self.parted(b as nat, y),
            x.exponent >= y.exponent,
        ensures
            r == self.sum(a as nat, b as nat),
            self.holds(r as nat),
    {
        let gap: i32 = x.exponent - y.exponent;
        let ghost u = unit_pow(y.exponent as int);
        proof {
            lemma_pow2_128();
            lemma_unit_pow_adds(y.exponent as int, gap as nat);
        }
        if gap > 64 {
            proof {
                lemma_parts_of_magnitude(self, a as nat);
                lemma_parts_of_magnitude(self, b as nat);
                lemma_pow2_strictly_increases_or_same(60, gap as nat);
                let d = y.significand as nat * u;
                let top = unit_pow(x.exponent as int);
                assert(8 * d < top) by (nonlinear_arith)
                    requires
                        d == y.significand * u,
                        y.significand < 0x20_0000_0000_0000,
                        top == u * pow2(gap as nat),
                        pow2(gap as nat) >= 0x1000_0000_0000_0000,
                        u > 0,
                ;
                let own = (x.significand * top) as nat;
                assert(own >= top) by (nonlinear_arith)
                    requires
                        own == x.significand * top,
                        x.significand >= 1,
                ;
                if x.negative == y.negative {
                    lemma_far_rounds_away(self, a as nat, own + d, d, false);
                } else {
                    lemma_far_rounds_away(self, a as nat, (own - d) as nat, d, true);
                }
                let sign = self.sign() as int;
                if x.negative {
                    lemma_fundamental_div_mod_converse(a as int, sign, 1, a - sign);
                } else {
                    lemma_small_mod(a as nat, sign as nat);
                }
            }
            return a;
        }
        let power: u128 = power_of_two(gap as u32);
        proof {
            lemma_pow2_strictly_increases_or_same(gap as nat, 64);
            assert(x.significand * power < 0x20_0000_0000_0000 * 0x1_0000_0000_0000_0000)
                by (nonlinear_arith)
                requires
                    x.significand < 0x20_0000_0000_0000,
                    power <= 0x1_0000_0000_0000_0000,
                    power > 0,
            ;
            assert(0x20_0000_0000_0000 * 0x1_0000_0000_0000_0000
                == 0x20_0000_0000_0000_0000_0000_0000_0000) by (nonlinear_arith);
        }
        let high: u128 = x.significand as u128 * power;
        let low: u128 = y.significand as u128;
        proof {
            assert(scaled(x.significand as nat, x.exponent as int) == high * u) by (nonlinear_arith)
                requires
                    scaled(x.significand as nat, x.exponent as int) == x.significand * (u * power),
                    high == x.significand * power,
            ;
            assert(high * u + low * u == (high + low) * u) by (nonlinear_arith);
            assert(high * u - low * u == (high - low) * u) by (nonlinear_arith);
            assert(low * u - high * u == (low - high) * u) by (nonlinear_arith);
            assert((high + low) * u >= 0) by (nonlinear_arith)
                requires
                    high + low >= 0,
                    u > 0,
            ;
            assert(high + low > 0 ==> (high + low) * u > 0) by (nonlinear_arith)
                requires
                    u > 0,
            ;
            assert(high > low ==> (high - low) * u > 0) by (nonlinear_arith)
                requires
                    u > 0,
            ;
            assert(low > high ==> (low - high) * u > 0) by (nonlinear_arith)
                requires
                    u > 0,
            ;
            assert(0 * u == 0) by (nonlinear_arith);
        }
        if x.negative == y.negative {
            let n: u128 = high + low;
            let m: u64 = self.round_nearest(n, 1, y.exponent);
            if n == 0 {
                return self.with_sign(x.negative, 0);
            }
            self.with_sign(x.negative, m)
        } else if high == low {
            0
        } else if high > low {
            let m: u64 = self.round_nearest(high - low, 1, y.exponent);
            self.with_sign(x.negative, m)
        } else {
            let m: u64 = self.round_nearest(low - high, 1, y.exponent);
            self.with_sign(y.negative, m)
        }
    }

    pub fn add(self, a: u64, b: u64) -> (r: u64)
        requires
            self.holds(a as nat),
            self.holds(b as nat),
        ensures
            r == self.sum(a as nat, b as nat),
            self.holds(r as nat),
    {
        let infinity: u64 = self.infinity_bits();
        let am: u64 = self.magnitude_bits(a);
        let bm: u64 = self.magnitude_bits(b);
        if am > infinity || bm > infinity {
            return self.quiet_nan();
        }
        if am == infinity {
            if bm == infinity && self.is_negative(a) != self.is_negative(b) {
                return self.quiet_nan();
            }
            return a;
        }
        if bm == infinity {
            return b;
        }
        let x: Parts = self.parts(a);
        let y: Parts = self.parts(b);
        if x.exponent >= y.exponent {
            self.sum_ordered(a, b, x, y)
        } else {
            self.sum_ordered(b, a, y, x)
        }
    }

    pub fn negate(self, a: u64) -> (r: u64)
        requires
            self.holds(a as nat),
        ensures
            r == self.negated(a as nat),
            self.holds(r as nat),
    {
        let sign: u64 = self.sign_bit();
        if a >= sign {
            a - sign
        } else {
            a + sign
        }
    }

    pub fn subtract(self, a: u64, b: u64) -> (r: u64)
        requires
            self.holds(a as nat),
            self.holds(b as nat),
        ensures
            r == self.difference(a as nat, b as nat),
            self.holds(r as nat),
    {
        let c: u64 = self.negate(b);
        self.add(a, c)
    }

    pub fn multiply(self, a: u64, b: u64) -> (r: u64)
        requires
            self.holds(a as nat),
            self.holds(b as nat),
        ensures
            r == self.product(a as nat, b as nat),
            self.holds(r as nat),
    {
        let infinity: u64 = self.infinity_bits();
        let am: u64 = self.magnitude_bits(a);
        let bm: u64 = self.magnitude_bits(b);
        let negative: bool = self.is_negative(a) != self.is_negative(b);
        if am > infinity || bm > infinity || (am == infinity && bm == 0) || (am == 0 && bm
            == infinity) {
            return self.quiet_nan();
        }
        if am == infinity || bm == infinity {
            return self.with_sign(negative, infinity);
        }
        let x: Parts = self.parts(a);
        let y: Parts = self.parts(b);
        proof {
            assert(x.significand * y.significand < 0x20_0000_0000_0000 * 0x20_0000_0000_0000)
                by (nonlinear_arith)
                requires
                    x.significand < 0x20_0000_0000_0000,
                    y.significand < 0x20_0000_0000_0000,
            ;
            assert(0x20_0000_0000_0000 * 0x20_0000_0000_0000 == 0x400_0000_0000_0000_0000_0000_0000)
                by (nonlinear_arith);
        }
        let n: u128 = x.significand as u128 * y.significand as u128;
        let m: u64 = self.round_nearest(n, 1, x.exponent + y.exponent);
        self.with_sign(negative, m)
    }

    pub fn divide(self, a: u64, b: u64) -> (r: u64)
        requires
            self.holds(a as nat),
            self.holds(b as nat),
        ensures
            r == self.quotient(a as nat, b as nat),
            self.holds(r as nat),
    {
        let infinity: u64 = self.infinity_bits();
        let am: u64 = self.magnitude_bits(a);
        let bm: u64 = self.magnitude_bits(b);
        let negative: bool = self.is_negative(a) != self.is_negative(b);
        if am > infinity || bm > infinity || (am == infinity && bm == infinity) || (am == 0 && bm
            == 0) {
            return self.quiet_nan();
        }
        if am == infinity || bm == 0 {
            return self.with_sign(negative, infinity);
        }
        if bm == infinity {
            return self.with_sign(negative, 0);
        }
        let x: Parts = self.parts(a);
        let y: Parts = self.parts(b);
        let m: u64 = self.round_nearest(
            x.significand as u128,
            y.significand,
            x.exponent - y.exponent,
        );
        self.with_sign(negative, m)
    }

    /// The number nearest to an integer.
    pub open spec fn of(self, n: nat) -> nat {
        self.nearest(scaled(n, 0), 1)
    }

    pub fn from_integer(self, n: u64) -> (r: u64)
        ensures
            r == self.of(n as nat),
            r <= self.infinity(),
    {
        self.round_nearest(n as u128, 1, 0)
    }

    pub fn less_than(self, a: u64, b: u64) -> (r: bool)
        requires
            self.holds(a as nat),
            self.holds(b as nat),
        ensures
            r == self.less(a as nat, b as nat),
    {
        let infinity: u64 = self.infinity_bits();
        let am: u64 = self.magnitude_bits(a);
        let bm: u64 = self.magnitude_bits(b);
        if am > infinity || bm > infinity {
            return false;
        }
        if self.is_negative(a) {
            if self.is_negative(b) {
                am > bm
            } else {
                am > 0 || bm > 0
            }
        } else if self.is_negative(b) {
            false
        } else {
            am < bm
        }
    }

    pub fn is_at_most(self, a: u64, b: u64) -> (r: bool)
        requires
            self.holds(a as nat),
            self.holds(b as nat),
        ensures
            r == self.at_most(a as nat, b as nat),
    {
        let infinity: u64 = self.infinity_bits();
        let am: u64 = self.magnitude_bits(a);
        let bm: u64 = self.magnitude_bits(b);
        if am > infinity || bm > infinity {
            return false;
        }
        !self.less_than(b, a)
    }

    pub fn equals(self, a: u64, b: u64) -> (r: bool)
        requires
            self.holds(a as nat),
            self.holds(b as nat),
        ensures
            r == self.same(a as nat, b as nat),
    {
        self.is_at_most(a, b) && self.is_at_most(b, a)
    }

    pub fn is_finite(self, a: u64) -> (r: bool)
        requires
            self.holds(a as nat),
        ensures
            r == self.finite(a as nat),
    {
        self.magnitude_bits(a) < self.infinity_bits()
    }
}


/// What a number of halves and units divides to, with what it is scaled by cancelled.
proof fn lemma_scaled_quotients(m: nat, w: nat, v: nat)
    requires
        v > 0,
        w > 0,
    ensures
        (2 * (m * v) + v * w) / (2 * (v * w)) == (2 * m + w) / (2 * w),
        (m * v) / (v * w) == m / w,
{
    assert(2 * (m * v) + v * w == v * (2 * m + w)) by (nonlinear_arith);
    assert(2 * (v * w) == v * (2 * w)) by (nonlinear_arith);
    assert(m * v == v * m) by (nonlinear_arith);
    lemma_div_multiples_vanish_quotient(v as int, (2 * m + w) as int, 2 * w as int);
    lemma_div_multiples_vanish_quotient(v as int, m as int, w as int);
}

impl Format {
    /// A finite, positive number's integer part, or with `half` the integer nearest to it.
    fn whole(self, x: Parts, half: bool, most: u64) -> (r: u64)
        requires
            !x.negative,
            x.significand < 0x20_0000_0000_0000,
            -1074 <= x.exponent <= 971,
            x.exponent > 0 ==> x.significand > 0,
        ensures
            ({
                let v = scaled(x.significand as nat, x.exponent as int) as int;
                let whole = if half {
                    (2 * v + unit_pow(0)) / (2 * unit_pow(0) as int)
                } else {
                    v / (unit_pow(0) as int)
                };
                r == (if whole < most {
                    whole
                } else {
                    most as int
                })
            }),
            r <= most,
    {
        let m: u128 = x.significand as u128;
        let limit: u128 = most as u128;
        let ghost zero = unit_pow(0);
        proof {
            lemma_pow2_128();
            lemma_unit_pow_adds(0, 0);
        }
        if x.exponent >= 0 {
            let e: u32 = x.exponent as u32;
            proof {
                lemma_unit_pow_adds(0, e as nat);
                lemma_pow2_pos(e as nat);
                let w = pow2(e as nat);
                let n = (m * w) as nat;
                assert(m * (zero * w) == n * zero) by (nonlinear_arith)
                    requires
                        n == m * w,
                ;
                lemma_scaled_quotients(n, 1, zero);
                assert(zero * 1 == zero);
                assert((2 * n + 1) / 2 == n);
                assert(n / 1 == n);
                if e > 64 {
                    lemma_pow2_strictly_increases_or_same(64, e as nat);
                    assert(n >= w) by (nonlinear_arith)
                        requires
                            n == m * w,
                            m >= 1,
                    ;
                }
            }
            if e > 64 {
                return most;
            }
            let power: u128 = power_of_two(e);
            proof {
                lemma_pow2_strictly_increases_or_same(e as nat, 64);
                assert(m * power < 0x20_0000_0000_0000 * 0x1_0000_0000_0000_0000)
                    by (nonlinear_arith)
                    requires
                        m < 0x20_0000_0000_0000,
                        0 < power <= 0x1_0000_0000_0000_0000,
                ;
                assert(0x20_0000_0000_0000 * 0x1_0000_0000_0000_0000
                    == 0x20_0000_0000_0000_0000_0000_0000_0000) by (nonlinear_arith);
            }
            let n: u128 = m * power;
            if n < limit {
                n as u64
            } else {
                most
            }
        } else {
            let g: u32 = (-x.exponent) as u32;
            proof {
                lemma_unit_pow_adds(x.exponent as int, g as nat);
                lemma_pow2_pos(g as nat);
                lemma_scaled_quotients(m as nat, pow2(g as nat), unit_pow(x.exponent as int));
                if g > 60 {
                    lemma_pow2_strictly_increases_or_same(60, g as nat);
                    let w = pow2(g as nat) as int;
                    lemma_basic_div(2 * m + w, 2 * w);
                    lemma_basic_div(m as int, w);
                }
            }
            if g > 60 {
                return 0;
            }
            let power: u128 = power_of_two(g);
            proof {
                lemma_pow2_strictly_increases_or_same(g as nat, 60);
            }
            let n: u128 = if half {
                (2 * m + power) / (2 * power)
            } else {
                m / power
            };
            if n < limit {
                n as u64
            } else {
                most
            }
        }
    }

    /// The integer nearest to a number, halves away from zero, within 0 and `most`.
    pub fn round_to(self, a: u64, most: u64) -> (r: u64)
        requires
            self.holds(a as nat),
        ensures
            r == self.rounded(a as nat, most as nat),
            r <= most,
    {
        let infinity: u64 = self.infinity_bits();
        let am: u64 = self.magnitude_bits(a);
        if am > infinity || self.is_negative(a) {
            return 0;
        }
        if am == infinity {
            return most;
        }
        proof {
            lemma_parts_of_magnitude(self, a as nat);
        }
        let x: Parts = self.parts(a);
        self.whole(x, true, most)
    }

    /// A number without its fraction, within 0 and `most`.
    pub fn truncate_to(self, a: u64, most: u64) -> (r: u64)
        requires
            self.holds(a as nat),
        ensures
            r == self.truncated(a as nat, most as nat),
            r <= most,
    {
        let infinity: u64 = self.infinity_bits();
        let am: u64 = self.magnitude_bits(a);
        if am > infinity || self.is_negative(a) {
            return 0;
        }
        if am == infinity {
            return most;
        }
        proof {
            lemma_parts_of_magnitude(self, a as nat);
        }
        let x: Parts = self.parts(a);
        self.whole(x, false, most)
    }
}


/// How far below zero the floor of -m·v in units of v·w is.
proof fn lemma_negative_floor(m: nat, w: nat, v: nat)
    requires
        v > 0,
        w > 0,
    ensures
        (-(m * v)) / ((v * w) as int) == -((m + w - 1) / (w as int)),
{
    let q = (m + w - 1) / (w as int);
    let r = (m + w - 1) % (w as int);
    lemma_fundamental_div_mod(m + w - 1, w as int);
    // m = w·q - (w - 1 - r), so -m·v = -q·(v·w) + (w - 1 - r)·v.
    let rest = (w - 1 - r) * v;
    assert(0 <= rest < v * w) by (nonlinear_arith)
        requires
            rest == (w - 1 - r) * v,
            0 <= r < w,
            v > 0,
    ;
    assert(-(m * v) == (-q) * (v * w) + rest) by (nonlinear_arith)
        requires
            m + w - 1 == w * q + r,
            rest == (w - 1 - r) * v,
    ;
    lemma_fundamental_div_mod_converse(-(m * v), (v * w) as int, -q, rest);
}

impl Format {
    /// A finite, positive number's ceiling.
    fn ceiling(self, x: Parts, most: u64) -> (r: u64)
        requires
            x.significand < 0x20_0000_0000_0000,
            -1074 <= x.exponent <= 971,
            x.exponent > 0 ==> x.significand > 0,
        ensures
            ({
                let v = scaled(x.significand as nat, x.exponent as int) as int;
                let floor = (-v) / (unit_pow(0) as int);
                -(r as int) == (if floor < -(most as int) {
                    -(most as int)
                } else {
                    floor
                })
            }),
            r <= most,
    {
        let m: u128 = x.significand as u128;
        let limit: u128 = most as u128;
        let ghost zero = unit_pow(0);
        proof {
            lemma_pow2_128();
            lemma_unit_pow_adds(0, 0);
        }
        if x.exponent >= 0 {
            let e: u32 = x.exponent as u32;
            proof {
                lemma_unit_pow_adds(0, e as nat);
                lemma_pow2_pos(e as nat);
                let w = pow2(e as nat);
                let n = (m * w) as nat;
                assert(m * (zero * w) == n * zero) by (nonlinear_arith)
                    requires
                        n == m * w,
                ;
                lemma_negative_floor(n, 1, zero);
                assert(zero * 1 == zero);
                assert((n + 1 - 1) / 1 == n);
                if e > 64 {
                    lemma_pow2_strictly_increases_or_same(64, e as nat);
                    assert(n >= w) by (nonlinear_arith)
                        requires
                            n == m * w,
                            m >= 1,
                    ;
                }
            }
            if e > 64 {
                return most;
            }
            let power: u128 = power_of_two(e);
            proof {
                lemma_pow2_strictly_increases_or_same(e as nat, 64);
                assert(m * power < 0x20_0000_0000_0000 * 0x1_0000_0000_0000_0000)
                    by (nonlinear_arith)
                    requires
                        m < 0x20_0000_0000_0000,
                        0 < power <= 0x1_0000_0000_0000_0000,
                ;
                assert(0x20_0000_0000_0000 * 0x1_0000_0000_0000_0000
                    == 0x20_0000_0000_0000_0000_0000_0000_0000) by (nonlinear_arith);
            }
            let n: u128 = m * power;
            if n < limit {
                n as u64
            } else {
                most
            }
        } else {
            let g: u32 = (-x.exponent) as u32;
            proof {
                lemma_unit_pow_adds(x.exponent as int, g as nat);
                lemma_pow2_pos(g as nat);
                lemma_negative_floor(m as nat, pow2(g as nat), unit_pow(x.exponent as int));
                let w = pow2(g as nat) as int;
                if g > 60 {
                    lemma_pow2_strictly_increases_or_same(60, g as nat);
                    if m > 0 {
                        lemma_fundamental_div_mod_converse(m + w - 1, w, 1, m - 1);
                    } else {
                        lemma_basic_div(w - 1, w);
                    }
                }
            }
            let n: u128 = if g > 60 {
                if m > 0 {
                    1
                } else {
                    0
                }
            } else {
                let power: u128 = power_of_two(g);
                proof {
                    lemma_pow2_strictly_increases_or_same(g as nat, 60);
                }
                (m + (power - 1)) / power
            };
            if n < limit {
                n as u64
            } else {
                most
            }
        }
    }

    /// The largest integer that a number reaches, within `most` of zero.
    pub fn floor_to(self, a: u64, most: i64) -> (r: i64)
        requires
            self.holds(a as nat),
            most >= 0,
        ensures
            r == self.floored(a as nat, most as nat),
            -most <= r <= most,
    {
        let infinity: u64 = self.infinity_bits();
        let am: u64 = self.magnitude_bits(a);
        if am > infinity {
            return 0;
        }
        let negative: bool = self.is_negative(a);
        if am == infinity {
            return if negative {
                -most
            } else {
                most
            };
        }
        proof {
            lemma_parts_of_magnitude(self, a as nat);
            lemma_unit_pow_adds(0, 0);
        }
        let x: Parts = self.parts(a);
        if negative {
            let n: u64 = self.ceiling(x, most as u64);
            proof {
                let v = scaled(x.significand as nat, x.exponent as int) as int;
                assert(v >= 0);
                assert((-v) / (unit_pow(0) as int) <= 0) by (nonlinear_arith)
                    requires
                        v >= 0,
                        unit_pow(0) > 0,
                ;
            }
            -(n as i64)
        } else {
            proof {
                let v = scaled(x.significand as nat, x.exponent as int) as int;
                assert(v / (unit_pow(0) as int) >= 0) by (nonlinear_arith)
                    requires
                        v >= 0,
                        unit_pow(0) > 0,
                ;
            }
            self.whole(x, false, most as u64) as i64
        }
    }
}


// -------------------------------------------------------------------------------------------
// Order
// -------------------------------------------------------------------------------------------

pub proof fn lemma_quantum_exists(f: Format, n: nat, d: nat, from: int) -> (k: int)
    requires
        d > 0,
        from >= f.least(),
        from > -4000,
        from > f.least() ==> n >= d * unit_pow(from - 1 + f.precision()),
    ensures
        f.is_quantum(n, d, k),
        k >= from,
    decreases n - d * unit_pow(from + f.precision()),
{
    let p = f.precision();
    if n < d * unit_pow(from + p) {
        from
    } else {
        lemma_unit_pow_adds(from + p, 1);
        lemma2_to64();
        let u = unit_pow(from + p);
        assert(d * (u * 2) > d * u) by (nonlinear_arith)
            requires
                d > 0,
                u > 0,
        ;
        if n < d * (u * 2) {
            from + 1
        } else {
            lemma_quantum_exists(f, n, d, from + 1)
        }
    }
}

proof fn lemma_half_even_grows(a1: nat, a2: nat, b: nat)
    requires
        b > 0,
        a1 <= a2,
    ensures
        half_even(a1, b) <= half_even(a2, b),
{
    lemma_div_is_ordered(a1 as int, a2 as int, b as int);
    lemma_fundamental_div_mod(a1 as int, b as int);
    lemma_fundamental_div_mod(a2 as int, b as int);
    let q1 = a1 / b;
    let q2 = a2 / b;
    if q1 == q2 {
        assert(b * q1 == b * q2);
    }
}

proof fn lemma_half_even_at_least(a: nat, b: nat, w: nat)
    requires
        b > 0,
        a >= b * w,
    ensures
        half_even(a, b) >= w,
{
    lemma_mul_is_commutative(b as int, w as int);
    lemma_div_multiples_vanish(w as int, b as int);
    lemma_div_is_ordered((b * w) as int, a as int, b as int);
}

/// Rounding keeps order.
pub proof fn rounding_keeps_order(f: Format, n1: nat, n2: nat, d: nat)
    requires
        d > 0,
        n1 <= n2,
    ensures
        f.nearest(n1, d) <= f.nearest(n2, d) <= f.infinity(),
{
    let least = f.least();
    let h = f.hidden();
    let p = f.precision();
    let k1 = lemma_quantum_exists(f, n1, d, least);
    let k2 = lemma_quantum_exists(f, n2, d, least);
    lemma_quantum_is_unique(f, n1, d, k1);
    lemma_quantum_is_unique(f, n2, d, k2);
    lemma_pow2_128();
    lemma_unit_pow_adds(k1, p as nat);
    let u1 = unit_pow(k1);
    let u2 = unit_pow(k2);
    let b1 = d * u1;
    let b2 = d * u2;
    lemma_unit_pow_grows(k2, k2);
    assert(b1 > 0) by (nonlinear_arith)
        requires
            b1 == d * u1,
            d > 0,
            u1 > 0,
    ;
    assert(b2 > 0) by (nonlinear_arith)
        requires
            b2 == d * u2,
            d > 0,
            u2 > 0,
    ;
    if k2 < k1 {
        lemma_unit_pow_grows(k2 + p, k1 - 1 + p);
        assert(d * unit_pow(k2 + p) <= d * unit_pow(k1 - 1 + p)) by (nonlinear_arith)
            requires
                unit_pow(k2 + p) <= unit_pow(k1 - 1 + p),
        ;
        assert(false);
    }
    assert(pow2(p as nat) == 2 * h);
    assert(n1 < b1 * (2 * h)) by (nonlinear_arith)
        requires
            n1 < d * (u1 * (2 * h)),
            b1 == d * u1,
    ;
    lemma_half_even_at_most(n1, b1, 2 * h);
    if k1 == k2 {
        lemma_half_even_grows(n1, n2, b1);
    } else {
        lemma_unit_pow_adds(k2 - 1, p as nat);
        lemma_unit_pow_adds(k2 - 1, 1);
        let below = unit_pow(k2 - 1);
        assert(u2 == 2 * below);
        assert(n2 >= b2 * h) by (nonlinear_arith)
            requires
                n2 >= d * (below * (2 * h)),
                b2 == d * u2,
                u2 == 2 * below,
        ;
        lemma_half_even_at_least(n2, b2, h);
        assert((k2 - least) * h >= (k1 - least) * h + h) by (nonlinear_arith)
            requires
                k2 >= k1 + 1,
        ;
    }
    assert((k1 - least) * h >= 0) by (nonlinear_arith)
        requires
            k1 >= least,
            h >= 0,
    ;
}

/// A number of the format is the nearest to itself.
pub proof fn rounding_keeps_numbers(f: Format, bits: nat)
    requires
        f.finite(bits),
    ensures
        f.nearest(scaled(f.significand(bits), f.exponent(bits)), 1) == f.magnitude(bits),
{
    lemma_parts_of_magnitude(f, bits);
    let e = f.exponent(bits);
    let m = f.significand(bits);
    let u = unit_pow(e);
    lemma_unit_pow_grows(e, e);
    if e > f.least() {
        lemma_far_rounds_away(f, bits, scaled(m, e), 0, false);
    } else {
        let p = f.precision();
        lemma_unit_pow_adds(e, p as nat);
        assert(m * u < u * (2 * f.hidden())) by (nonlinear_arith)
            requires
                m < 2 * f.hidden(),
                u > 0,
        ;
        assert(f.is_quantum(m * u, 1, e));
        lemma_quantum_is_unique(f, m * u, 1, e);
        lemma_half_even_of(m * u, u, m, 0);
        assert((e - f.least()) * f.hidden() == 0) by (nonlinear_arith)
            requires
                e == f.least(),
        ;
        assert(m * u == u * m + 0) by (nonlinear_arith);
    }
}

/// Numbers are worth more the larger their magnitude bits are.
pub proof fn worth_follows_magnitude(f: Format, a: nat, b: nat)
    requires
        f.finite(a),
        f.finite(b),
        f.magnitude(a) <= f.magnitude(b),
    ensures
        scaled(f.significand(a), f.exponent(a)) <= scaled(f.significand(b), f.exponent(b)),
{
    let va = scaled(f.significand(a), f.exponent(a));
    let vb = scaled(f.significand(b), f.exponent(b));
    if va > vb {
        rounding_keeps_order(f, vb, va, 1);
        rounding_keeps_numbers(f, a);
        rounding_keeps_numbers(f, b);
        assert(f.magnitude(a) == f.magnitude(b));
    }
}

/// Finite numbers are ordered as what they are worth.
pub proof fn order_follows_value(f: Format, a: nat, b: nat)
    requires
        f.finite(a),
        f.finite(b),
    ensures
        f.at_most(a, b) == (f.value(a) <= f.value(b)),
        f.less(a, b) == (f.value(a) < f.value(b)),
{
    if f.magnitude(a) <= f.magnitude(b) {
        lemma_worth_is_strict(f, a, b);
    } else {
        lemma_worth_is_strict(f, b, a);
    }
    lemma_zero_is_worth_nothing(f, a);
    lemma_zero_is_worth_nothing(f, b);
}

proof fn lemma_worth_is_strict(f: Format, a: nat, b: nat)
    requires
        f.finite(a),
        f.finite(b),
        f.magnitude(a) <= f.magnitude(b),
    ensures
        scaled(f.significand(a), f.exponent(a)) <= scaled(f.significand(b), f.exponent(b)),
        f.magnitude(a) < f.magnitude(b) ==> scaled(f.significand(a), f.exponent(a)) < scaled(
            f.significand(b),
            f.exponent(b),
        ),
{
    worth_follows_magnitude(f, a, b);
    rounding_keeps_numbers(f, a);
    rounding_keeps_numbers(f, b);
}

proof fn lemma_zero_is_worth_nothing(f: Format, a: nat)
    requires
        f.finite(a),
    ensures
        (scaled(f.significand(a), f.exponent(a)) == 0) == (f.magnitude(a) == 0),
{
    lemma_parts_of_magnitude(f, a);
    let u = unit_pow(f.exponent(a));
    let m = f.significand(a);
    lemma_unit_pow_grows(f.exponent(a), f.exponent(a));
    assert((m * u == 0) == (m == 0)) by (nonlinear_arith)
        requires
            u > 0,
    ;
}


/// The number whose bits stand for q steps of 2^k is worth that.
proof fn lemma_decoded(f: Format, k: int, q: nat)
    requires
        k >= f.least(),
        q <= 2 * f.hidden(),
        k > f.least() ==> q >= f.hidden(),
        (k - f.least()) * f.hidden() + q < f.infinity(),
    ensures
        ({
            let bits = ((k - f.least()) * f.hidden() + q) as nat;
            &&& f.magnitude(bits) == bits
            &&& !f.negative(bits)
            &&& f.finite(bits)
            &&& f.value(bits) == scaled(q, k)
        }),
{
    let least = f.least();
    let h = f.hidden();
    let m = (k - least) * h + q;
    assert((k - least) * h >= 0) by (nonlinear_arith)
        requires
            k >= least,
            h > 0,
    ;
    lemma_small_mod(m as nat, f.sign());
    if q < h {
        assert((k - least) * h == 0) by (nonlinear_arith)
            requires
                k == least,
        ;
    } else if q < 2 * h {
        assert(m == (k - least + 1) * h + (q - h)) by (nonlinear_arith)
            requires
                m == (k - least) * h + q,
        ;
        lemma_fundamental_div_mod_converse(m, h as int, k - least + 1, q - h);
        assert(m >= h);
    } else {
        assert(m == (k - least + 2) * h + 0) by (nonlinear_arith)
            requires
                m == (k - least) * h + 2 * h,
        ;
        lemma_fundamental_div_mod_converse(m, h as int, k - least + 2, 0);
        lemma_unit_pow_adds(k, 1);
        lemma_pow2_128();
        let u = unit_pow(k);
        assert(h * (u * 2) == (2 * h) * u) by (nonlinear_arith);
    }
}

/// n·2^e is held exactly where n fits a significand.
pub proof fn dyadics_are_exact(f: Format, n: nat, e: int)
    requires
        n < 2 * f.hidden(),
        f.least() <= e <= 100,
    ensures
        ({
            let r = f.nearest(scaled(n, e), 1);
            &&& f.finite(r)
            &&& !f.negative(r)
            &&& f.magnitude(r) == r
            &&& f.value(r) == scaled(n, e)
        }),
{
    let least = f.least();
    let h = f.hidden();
    let p = f.precision();
    let exact = scaled(n, e);
    let k = lemma_quantum_exists(f, exact, 1, least);
    lemma_quantum_is_unique(f, exact, 1, k);
    lemma_pow2_128();
    let base = unit_pow(e);
    lemma_unit_pow_adds(e, p as nat);
    lemma_unit_pow_grows(k, k);
    assert(exact < base * (2 * h)) by (nonlinear_arith)
        requires
            exact == n * base,
            n < 2 * h,
            base > 0,
    ;
    if k > e {
        lemma_unit_pow_grows(e + p, k - 1 + p);
        assert(false);
    }
    let u = unit_pow(k);
    lemma_unit_pow_adds(k, (e - k) as nat);
    let w = pow2((e - k) as nat);
    let q = n * w;
    assert(exact == u * q + 0) by (nonlinear_arith)
        requires
            exact == n * (u * w),
            q == n * w,
    ;
    lemma_half_even_of(exact, u, q, 0);
    lemma_unit_pow_adds(k, p as nat);
    assert(q < 2 * h) by (nonlinear_arith)
        requires
            u * q < u * (2 * h),
            u > 0,
    ;
    if k > least {
        lemma_unit_pow_adds(k - 1, p as nat);
        lemma_unit_pow_adds(k - 1, 1);
        let below = unit_pow(k - 1);
        assert(q >= h) by (nonlinear_arith)
            requires
                u * q >= below * (2 * h),
                u == below * 2,
                below > 0,
        ;
    }
    assert((k - least) * h <= (100 - least) * h) by (nonlinear_arith)
        requires
            k <= 100,
            h > 0,
    ;
    lemma_decoded(f, k, q);
    assert(q * u == exact) by (nonlinear_arith)
        requires
            exact == u * q + 0,
    ;
}

/// Integers that fit a significand are held exactly.
pub proof fn small_integers_are_exact(f: Format, n: nat)
    requires
        n < 2 * f.hidden(),
    ensures
        f.finite(f.of(n)),
        !f.negative(f.of(n)),
        f.magnitude(f.of(n)) == f.of(n),
        f.value(f.of(n)) == scaled(n, 0),
{
    dyadics_are_exact(f, n, 0);
}

/// A rounded quotient is within half a step of the exact one.
pub proof fn rounding_is_within_half_a_step(f: Format, n: nat, d: nat)
    requires
        d > 0,
        f.nearest(n, d) < f.infinity(),
    ensures
        ({
            let r = f.nearest(n, d);
            let half = d * unit_pow(f.quantum(n, d));
            &&& !f.negative(r)
            &&& f.magnitude(r) == r
            &&& 2 * (f.value(r) * d) <= 2 * n + half
            &&& 2 * n <= 2 * (f.value(r) * d) + half
            &&& f.is_quantum(n, d, f.quantum(n, d))
        }),
{
    let least = f.least();
    let h = f.hidden();
    let p = f.precision();
    let k = lemma_quantum_exists(f, n, d, least);
    lemma_quantum_is_unique(f, n, d, k);
    lemma_pow2_128();
    lemma_unit_pow_adds(k, p as nat);
    let u = unit_pow(k);
    let b = d * u;
    assert(b > 0) by (nonlinear_arith)
        requires
            b == d * u,
            d > 0,
            u > 0,
    ;
    assert(n < b * (2 * h)) by (nonlinear_arith)
        requires
            n < d * (u * (2 * h)),
            b == d * u,
    ;
    lemma_half_even_at_most(n, b, 2 * h);
    let q = half_even(n, b);
    if k > least {
        lemma_unit_pow_adds(k - 1, p as nat);
        lemma_unit_pow_adds(k - 1, 1);
        let below = unit_pow(k - 1);
        assert(n >= b * h) by (nonlinear_arith)
            requires
                n >= d * (below * (2 * h)),
                b == d * u,
                u == below * 2,
        ;
        lemma_half_even_at_least(n, b, h);
    }
    lemma_decoded(f, k, q);
    lemma_fundamental_div_mod(n as int, b as int);
    let whole = n / b;
    assert((q * u) * d == b * q) by (nonlinear_arith)
        requires
            b == d * u,
    ;
    assert(q == whole || q == whole + 1);
    assert(b * (whole + 1) == b * whole + b) by (nonlinear_arith);
}

/// Taking something from a number that is not negative leaves no more than there was.
pub proof fn difference_is_no_more(f: Format, a: nat, b: nat)
    requires
        f.holds(a),
        f.holds(b),
        f.finite(a),
        f.finite(b),
        !f.negative(a),
        f.rank(b) >= 0,
    ensures
        ({
            let r = f.difference(a, b);
            &&& f.holds(r)
            &&& f.finite(r)
            &&& f.negative(r) || f.magnitude(r) <= f.magnitude(a)
            &&& f.negative(r) ==> f.value(a) < f.value(b)
        }),
{
    let c = f.negated(b);
    let sign = f.sign() as int;
    if f.negative(b) {
        lemma_fundamental_div_mod_converse(b as int, sign, 1, b - sign);
        lemma_small_mod((b - sign) as nat, f.sign());
    } else {
        lemma_small_mod(b, f.sign());
        lemma_fundamental_div_mod_converse(b + sign, sign, 1, b as int);
    }
    assert(f.magnitude(c) == f.magnitude(b));
    lemma_small_mod(a, f.sign());
    lemma_zero_is_worth_nothing(f, b);
    let va = scaled(f.significand(a), f.exponent(a));
    let vb = scaled(f.significand(b), f.exponent(b));
    let v = f.value(a) + f.value(c);
    assert(v == va - vb || vb == 0);
    rounding_keeps_numbers(f, a);
    rounding_keeps_numbers(f, b);
    if v > 0 {
        rounding_keeps_order(f, v as nat, va, 1);
        lemma_small_mod(f.nearest(v as nat, 1), f.sign());
    } else if v < 0 {
        rounding_keeps_order(f, (-v) as nat, vb, 1);
        let m = f.nearest((-v) as nat, 1);
        lemma_fundamental_div_mod_converse(sign + m, sign, 1, m as int);
    } else {
        lemma_small_mod(0, f.sign());
        if f.negative(a) && f.negative(c) {
            lemma_fundamental_div_mod_converse(sign, sign, 1, 0);
        }
    }
}

/// A number that is not negative, times one that is at most 1, is no more than it was.
pub proof fn product_is_no_more(f: Format, a: nat, b: nat, one: nat)
    requires
        f.holds(a),
        f.holds(b),
        f.finite(a),
        f.finite(b),
        !f.negative(a),
        one == f.of(1),
        f.negative(b) || f.magnitude(b) <= f.magnitude(one),
    ensures
        ({
            let r = f.product(a, b);
            &&& f.holds(r)
            &&& f.negative(b) ==> f.negative(r)
            &&& !f.negative(b) ==> !f.negative(r) && f.magnitude(r) <= f.magnitude(a)
        }),
{
    let sign = f.sign() as int;
    let (ma, ea) = (f.significand(a), f.exponent(a));
    let (mb, eb) = (f.significand(b), f.exponent(b));
    lemma_parts_of_magnitude(f, a);
    lemma_parts_of_magnitude(f, b);
    let v = scaled(ma * mb, ea + eb);
    rounding_keeps_order(f, 0, v, 1);
    let m = f.nearest(v, 1);
    if f.negative(b) {
        lemma_fundamental_div_mod_converse(sign + m, sign, 1, m as int);
    } else {
        small_integers_are_exact(f, 1);
        worth_follows_magnitude(f, b, one);
        let zero = unit_pow(0);
        // mb·2^eb is at most 1.
        let ub = unit_pow(eb);
        lemma_unit_pow_grows(eb, eb);
        lemma_unit_pow_grows(ea, ea);
        lemma_unit_pow_adds(ea + eb, (4000 - ea) as nat);
        lemma_unit_pow_adds(ea, 0);
        units_multiply(ea, eb);
        let ua = unit_pow(ea);
        let uab = unit_pow(ea + eb);
        assert(1 * zero == zero);
        assert(mb * ub <= zero);
        let left = ma * mb;
        let right = ma * ua;
        assert((left * uab) * zero == left * (uab * zero)) by (nonlinear_arith);
        assert(left * (ua * ub) == right * (mb * ub)) by (nonlinear_arith)
            requires
                left == ma * mb,
                right == ma * ua,
        ;
        assert(right * (mb * ub) <= right * zero) by (nonlinear_arith)
            requires
                mb * ub <= zero,
                right >= 0,
        ;
        assert(left * uab <= right) by (nonlinear_arith)
            requires
                (left * uab) * zero <= right * zero,
                zero > 0,
        ;
        rounding_keeps_order(f, v, scaled(ma, ea), 1);
        rounding_keeps_numbers(f, a);
        lemma_small_mod(m, f.sign());
    }
}

/// Powers of two multiply by adding their exponents.
pub proof fn units_multiply(a: int, b: int)
    requires
        -2200 <= a <= 2200,
        -1100 <= b <= 1100,
    ensures
        unit_pow(a + b) * unit_pow(0) == unit_pow(a) * unit_pow(b),
        unit_pow(0) > 0,
{
    lemma_pow2_adds((a + b + 4000) as nat, 4000);
    lemma_pow2_adds((a + 4000) as nat, (b + 4000) as nat);
    lemma_pow2_pos(4000);
}

/// Rounding to integers keeps order.
pub proof fn integers_keep_order(f: Format, a: nat, b: nat, most: nat)
    requires
        f.finite(a),
        f.finite(b),
        !f.negative(a),
        !f.negative(b),
        f.magnitude(a) <= f.magnitude(b),
    ensures
        f.rounded(a, most) <= f.rounded(b, most),
{
    worth_follows_magnitude(f, a, b);
    lemma_unit_pow_grows(0, 0);
    let d = 2 * unit_pow(0) as int;
    let x = 2 * f.value(a) + unit_pow(0);
    let y = 2 * f.value(b) + unit_pow(0);
    lemma_div_is_ordered(x, y, d);
    lemma_div_pos_is_pos(x, d);
}

/// An integer held exactly rounds to itself.
pub proof fn integers_round_to_themselves(f: Format, n: nat, most: nat)
    requires
        n < 2 * f.hidden(),
        n <= most,
    ensures
        f.rounded(f.of(n), most) == n,
{
    small_integers_are_exact(f, n);
    let u = unit_pow(0);
    lemma_unit_pow_grows(0, 0);
    assert(2 * (n * u) + u == n * (2 * u) + u) by (nonlinear_arith);
    lemma_fundamental_div_mod_converse((2 * (n * u) + u) as int, 2 * u as int, n as int, u as int);
}


/// The bits of 1.
pub proof fn one_is_exact(f: Format)
    ensures
        f.of(1) == (match f {
            Format::Single => 0x3f80_0000nat,
            Format::Double => 0x3ff0_0000_0000_0000nat,
        }),
{
    lemma2_to64();
    lemma2_to64_rest();
    match f {
        Format::Single => {
            rounding_keeps_numbers(f, 0x3f80_0000);
            lemma_unit_pow_adds(-23, 23);
            let u = unit_pow(-23);
            assert(u * pow2(23) == 0x80_0000 * u) by (nonlinear_arith)
                requires
                    pow2(23) == 0x80_0000,
            ;
            assert(scaled(1, 0) == scaled(0x80_0000, -23));
        },
        Format::Double => {
            rounding_keeps_numbers(f, 0x3ff0_0000_0000_0000);
            lemma_unit_pow_adds(-52, 52);
            let u = unit_pow(-52);
            assert(u * pow2(52) == 0x10_0000_0000_0000 * u) by (nonlinear_arith)
                requires
                    pow2(52) == 0x10_0000_0000_0000,
            ;
            assert(scaled(1, 0) == scaled(0x10_0000_0000_0000, -52));
        },
    }
}


/// A finite number's significand and exponent are within its format.
pub proof fn number_parts(f: Format, bits: nat)
    requires
        f.finite(bits),
    ensures
        f.significand(bits) < 2 * f.hidden(),
        -1074 <= f.exponent(bits) <= 971,
        (f.significand(bits) == 0) == f.zero(bits),
{
    lemma_parts_of_magnitude(f, bits);
}

/// A divisor that the dividend holds cancels.
pub proof fn lemma_nearest_cancels(f: Format, n: nat, d: nat)
    requires
        d > 0,
    ensures
        f.nearest((d * n) as nat, d) == f.nearest(n, 1),
{
    let k = lemma_quantum_exists(f, n, 1, f.least());
    lemma_quantum_is_unique(f, n, 1, k);
    let p = f.precision();
    let x = unit_pow(k + p);
    let y = unit_pow(k - 1 + p);
    assert(d * n < d * x) by (nonlinear_arith)
        requires
            n < x,
            d > 0,
    ;
    assert(n >= y ==> d * n >= d * y) by (nonlinear_arith)
        requires
            d > 0,
    ;
    assert(f.is_quantum((d * n) as nat, d, k));
    lemma_quantum_is_unique(f, (d * n) as nat, d, k);
    let u = unit_pow(k);
    lemma_unit_pow_grows(k, k);
    lemma_half_even_scales(n, u, d);
    assert(d * n == n * d) by (nonlinear_arith);
    assert(d * u == u * d) by (nonlinear_arith);
    assert(1 * u == u);
}

/// Adding what is not negative to what is not negative gives no less.
pub proof fn sums_grow(f: Format, a: nat, b: nat)
    requires
        !f.nan(a),
        !f.nan(b),
        !f.negative(a),
        !f.negative(b),
    ensures
        ({
            let s = f.sum(a, b);
            !f.nan(s) && !f.negative(s) && f.at_most(a, s)
        }),
{
    if f.finite(a) && f.finite(b) {
        let v = f.value(a) + f.value(b);
        rounding_keeps_numbers(f, a);
        rounding_keeps_order(f, f.value(a) as nat, v as nat, 1);
        lemma_zero_is_worth_nothing(f, a);
    }
}

/// A number that is not negative over a positive one is not negative.
pub proof fn shares_are_not_negative(f: Format, a: nat, b: nat)
    requires
        !f.nan(a),
        !f.negative(a),
        f.finite(b),
        !f.negative(b),
        !f.zero(b),
    ensures
        !f.nan(f.quotient(a, b)),
        !f.negative(f.quotient(a, b)),
{
    if f.finite(a) {
        let n = scaled(f.significand(a), f.exponent(a) - f.exponent(b));
        number_parts(f, b);
        rounding_keeps_order(f, n, n, f.significand(b));
    }
}

/// A number that is not negative over one that is at least one is no more than it was.
pub proof fn shares_are_no_more(f: Format, a: nat, b: nat)
    requires
        f.finite(a),
        !f.negative(a),
        f.finite(b),
        !f.negative(b),
        f.value(b) >= unit_pow(0),
    ensures
        f.quotient(a, b) <= a,
        f.finite(f.quotient(a, b)),
        !f.negative(f.quotient(a, b)),
{
    let sa = f.significand(a);
    let sb = f.significand(b);
    let ea = f.exponent(a);
    let eb = f.exponent(b);
    number_parts(f, a);
    number_parts(f, b);
    lemma_unit_pow_grows(0, 0);
    assert(sb > 0) by {
        if sb == 0 {
            assert(scaled(sb, eb) == 0) by (nonlinear_arith)
                requires
                    sb == 0,
            ;
        }
    }
    let u = unit_pow(ea - eb);
    let ua = unit_pow(ea);
    let ub = unit_pow(eb);
    let one = unit_pow(0);
    units_multiply(ea - eb, eb);
    lemma_unit_pow_grows(ea, ea);
    assert(ua * one == u * ub);
    assert(u * one <= u * (sb * ub)) by (nonlinear_arith)
        requires
            one <= sb * ub,
            u >= 0,
    ;
    assert(u * (sb * ub) == sb * (u * ub)) by (nonlinear_arith);
    assert(sb * (ua * one) == (sb * ua) * one) by (nonlinear_arith);
    assert(u <= sb * ua) by (nonlinear_arith)
        requires
            u * one <= (sb * ua) * one,
            one > 0,
    ;
    assert(sa * u <= sa * (sb * ua)) by (nonlinear_arith)
        requires
            u <= sb * ua,
            sa >= 0,
    ;
    assert(sa * (sb * ua) == sb * (sa * ua)) by (nonlinear_arith);
    rounding_keeps_order(f, sa * u, sb * (sa * ua), sb);
    lemma_nearest_cancels(f, sa * ua, sb);
    rounding_keeps_numbers(f, a);
}

/// A number that is not negative over one that is at least as large is at most one.
pub proof fn shares_are_at_most_one(f: Format, a: nat, b: nat)
    requires
        f.finite(a),
        !f.negative(a),
        f.finite(b),
        !f.negative(b),
        f.value(a) <= f.value(b),
        f.value(b) > 0,
    ensures
        f.quotient(a, b) <= f.of(1),
        f.finite(f.quotient(a, b)),
        !f.negative(f.quotient(a, b)),
{
    let sa = f.significand(a);
    let sb = f.significand(b);
    let ea = f.exponent(a);
    let eb = f.exponent(b);
    number_parts(f, a);
    number_parts(f, b);
    assert(sb > 0) by {
        if sb == 0 {
            assert(scaled(sb, eb) == 0) by (nonlinear_arith)
                requires
                    sb == 0,
            ;
        }
    }
    let u = unit_pow(ea - eb);
    let ua = unit_pow(ea);
    let ub = unit_pow(eb);
    let one = unit_pow(0);
    units_multiply(ea - eb, eb);
    lemma_unit_pow_grows(eb, eb);
    lemma_unit_pow_grows(0, 0);
    assert((sa * u) * ub == sa * (u * ub)) by (nonlinear_arith);
    assert(sa * (ua * one) == (sa * ua) * one) by (nonlinear_arith);
    assert((sa * ua) * one <= (sb * ub) * one) by (nonlinear_arith)
        requires
            sa * ua <= sb * ub,
            one > 0,
    ;
    assert((sb * ub) * one == (sb * one) * ub) by (nonlinear_arith);
    assert(sa * u <= sb * one) by (nonlinear_arith)
        requires
            (sa * u) * ub <= (sb * one) * ub,
            ub > 0,
    ;
    rounding_keeps_order(f, sa * u, sb * one, sb);
    lemma_nearest_cancels(f, one, sb);
    assert(scaled(1, 0) == one) by (nonlinear_arith)
        requires
            one == unit_pow(0),
    ;
    one_is_exact(f);
}

/// The rank of a sum of finite numbers is that of its exact value, rounded.
proof fn lemma_sum_rank(f: Format, a: nat, b: nat)
    requires
        f.finite(a),
        f.finite(b),
        f.holds(a),
        f.holds(b),
    ensures
        ({
            let v = f.value(a) + f.value(b);
            let s = f.sum(a, b);
            &&& !f.nan(s)
            &&& f.holds(s)
            &&& v >= 0 ==> f.rank(s) == f.nearest(v as nat, 1)
            &&& v < 0 ==> f.rank(s) == -(f.nearest((-v) as nat, 1) as int)
        }),
{
    let v = f.value(a) + f.value(b);
    if v < 0 {
        rounding_keeps_order(f, (-v) as nat, (-v) as nat, 1);
    } else {
        rounding_keeps_order(f, v as nat, v as nat, 1);
        if v == 0 {
            small_integers_are_exact(f, 0);
            rounding_keeps_numbers(f, 0);
            lemma_zero_is_worth_nothing(f, 0);
        }
    }
}

/// Adding the same number to both keeps two in order, on either side.
pub proof fn sums_keep_order(f: Format, a: nat, b: nat, c: nat)
    requires
        f.holds(a),
        f.holds(b),
        f.holds(c),
        f.at_most(a, b),
        f.finite(c),
    ensures
        f.at_most(f.sum(a, c), f.sum(b, c)),
        f.sum(a, c) == f.sum(c, a),
        f.sum(b, c) == f.sum(c, b),
        f.holds(f.sum(a, c)),
        f.holds(f.sum(b, c)),
{
    if f.finite(a) {
        lemma_sum_rank(f, a, c);
    }
    if f.finite(b) {
        lemma_sum_rank(f, b, c);
    }
    if f.finite(a) && f.finite(b) {
        order_follows_value(f, a, b);
        let v = f.value(a) + f.value(c);
        let w = f.value(b) + f.value(c);
        if v >= 0 {
            rounding_keeps_order(f, v as nat, w as nat, 1);
        } else if w < 0 {
            rounding_keeps_order(f, (-w) as nat, (-v) as nat, 1);
        }
    }
}

/// Dividing both by the same positive number keeps two numbers in order.
pub proof fn quotients_keep_order(f: Format, a: nat, b: nat, d: nat)
    requires
        !f.negative(a),
        !f.negative(b),
        f.at_most(a, b),
        f.finite(d),
        !f.negative(d),
        !f.zero(d),
    ensures
        f.at_most(f.quotient(a, d), f.quotient(b, d)),
        !f.negative(f.quotient(a, d)),
        !f.negative(f.quotient(b, d)),
{
    if f.finite(a) && f.finite(b) {
        let (ea, eb, ed) = (f.exponent(a), f.exponent(b), f.exponent(d));
        let (sa, sb, sd) = (f.significand(a), f.significand(b), f.significand(d));
        number_parts(f, a);
        number_parts(f, b);
        number_parts(f, d);
        order_follows_value(f, a, b);
        let n1 = scaled(sa, ea - ed);
        let n2 = scaled(sb, eb - ed);
        let v1 = scaled(sa, ea);
        let v2 = scaled(sb, eb);
        let p = pow2((ed + 1074) as nat);
        let q = pow2(1074);
        lemma_unit_pow_adds(ea - ed, (ed + 1074) as nat);
        lemma_unit_pow_adds(eb - ed, (ed + 1074) as nat);
        lemma_unit_pow_adds(ea, 1074);
        lemma_unit_pow_adds(eb, 1074);
        lemma_pow2_pos((ed + 1074) as nat);
        assert(n1 * p == v1 * q) by (nonlinear_arith)
            requires
                n1 == sa * unit_pow(ea - ed),
                v1 == sa * unit_pow(ea),
                unit_pow(ea - ed) * p == unit_pow(ea) * q,
        ;
        assert(n2 * p == v2 * q) by (nonlinear_arith)
            requires
                n2 == sb * unit_pow(eb - ed),
                v2 == sb * unit_pow(eb),
                unit_pow(eb - ed) * p == unit_pow(eb) * q,
        ;
        assert(n1 <= n2) by (nonlinear_arith)
            requires
                n1 * p == v1 * q,
                n2 * p == v2 * q,
                v1 <= v2,
                p > 0,
        ;
        rounding_keeps_order(f, n1, n2, sd);
    } else if f.finite(a) {
        let n = scaled(f.significand(a), f.exponent(a) - f.exponent(d));
        number_parts(f, d);
        rounding_keeps_order(f, n, n, f.significand(d));
    }
}

impl Format {
    /// The number of this format nearest to one of another.
    pub open spec fn converted(self, from: Format, a: nat) -> nat {
        if from.nan(a) {
            self.quiet()
        } else if from.infinite(a) {
            self.signed(from.negative(a), self.infinity())
        } else {
            self.signed(
                from.negative(a),
                self.nearest(scaled(from.significand(a), from.exponent(a)), 1),
            )
        }
    }

    pub fn convert(self, from: Format, a: u64) -> (r: u64)
        requires
            from.holds(a as nat),
        ensures
            r == self.converted(from, a as nat),
            self.holds(r as nat),
    {
        let m: u64 = from.magnitude_bits(a);
        if m > from.infinity_bits() {
            return self.quiet_nan();
        }
        let negative: bool = from.is_negative(a);
        if m == from.infinity_bits() {
            return self.with_sign(negative, self.infinity_bits());
        }
        let x: Parts = from.parts(a);
        let near: u64 = self.round_nearest(x.significand as u128, 1, x.exponent);
        self.with_sign(negative, near)
    }
}

} // verus!
