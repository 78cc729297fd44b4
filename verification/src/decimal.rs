//! Reading decimal numbers into binary ones, exactly: a text's digits are kept whole, however
//! many there are, and rounded once.
use crate::float::Format;
use crate::text::{alike_chars, digit_of, find_char, to_lower};
use vstd::arithmetic::div_mod::*;
use vstd::arithmetic::mul::*;
use vstd::arithmetic::power::*;
use vstd::arithmetic::power2::*;
use vstd::prelude::*;
use vstd::slice::*;

verus! {

// -------------------------------------------------------------------------------------------
// Natural numbers of any size
// -------------------------------------------------------------------------------------------

spec fn base() -> int {
    0x1_0000_0000
}

/// What limbs are worth, the least first.
spec fn limbs(s: Seq<u32>) -> nat
    decreases s.len(),
{
    if s.len() == 0 {
        0
    } else {
        limbs(s.drop_last()) + s.last() as nat * pow(base(), (s.len() - 1) as nat) as nat
    }
}

proof fn lemma_limbs_push(s: Seq<u32>, x: u32)
    ensures
        limbs(s.push(x)) == limbs(s) + x as nat * pow(base(), s.len()),
        pow(base(), s.len()) > 0,
{
    assert(s.push(x).drop_last() == s);
    lemma_pow_positive(base(), s.len());
}

proof fn lemma_limbs_bound(s: Seq<u32>)
    ensures
        limbs(s) < pow(base(), s.len()),
    decreases s.len(),
{
    reveal(pow);
    if s.len() > 0 {
        lemma_limbs_bound(s.drop_last());
        let below = pow(base(), (s.len() - 1) as nat);
        lemma_pow_positive(base(), (s.len() - 1) as nat);
        assert(pow(base(), s.len()) == base() * below);
        assert(s.last() as int * below <= (base() - 1) * below) by (nonlinear_arith)
            requires
                s.last() <= base() - 1,
                below > 0,
        ;
        assert((base() - 1) * below + below == base() * below) by (nonlinear_arith);
    }
}

/// A natural number.
struct Big {
    limbs: Vec<u32>,
}

impl Big {
    spec fn value(self) -> nat {
        limbs(self.limbs@)
    }

    fn one() -> (r: Big)
        ensures
            r.value() == 1,
    {
        let mut limbs: Vec<u32> = Vec::new();
        proof {
            lemma_limbs_push(limbs@, 1);
            lemma_pow0(base());
        }
        limbs.push(1);
        Big { limbs }
    }

    fn zero() -> (r: Big)
        ensures
            r.value() == 0,
    {
        Big { limbs: Vec::new() }
    }

    /// self·m + plus.
    fn multiply(&self, m: u64, plus: u64) -> (r: Big)
        ensures
            r.value() == self.value() * m + plus,
    {
        let mut out: Vec<u32> = Vec::new();
        let mut carry: u128 = plus as u128;
        let mut i: usize = 0;
        proof {
            lemma_pow0(base());
            assert(self.limbs@.take(0) == Seq::<u32>::empty());
            assert(carry * 1 == carry);
            assert(0 * m == 0) by (nonlinear_arith);
        }
        while i < self.limbs.len()
            invariant
                i <= self.limbs@.len(),
                out@.len() == i,
                carry < 0x1_0000_0000_0000_0000,
                limbs(out@) + carry * pow(base(), i as nat) == limbs(self.limbs@.take(i as int)) * m
                    + plus,
            decreases self.limbs@.len() - i,
        {
            let limb: u32 = self.limbs[i];
            proof {
                assert(limb * m <= 0xffff_ffff * 0xffff_ffff_ffff_ffff) by (nonlinear_arith)
                    requires
                        limb <= 0xffff_ffff,
                        m <= 0xffff_ffff_ffff_ffff,
                ;
            }
            let whole: u128 = limb as u128 * m as u128 + carry;
            let low: u32 = (whole % 0x1_0000_0000) as u32;
            let high: u128 = whole / 0x1_0000_0000;
            proof {
                let b = pow(base(), i as nat);
                let before = self.limbs@.take(i as int);
                assert(self.limbs@.take(i as int + 1) == before.push(limb));
                lemma_limbs_push(before, limb);
                lemma_limbs_push(out@, low);
                reveal(pow);
                assert(pow(base(), (i + 1) as nat) == base() * b);
                assert(limbs(out@) + low * b + high * (base() * b) == (limbs(before) + limb * b) * m
                    + plus) by (nonlinear_arith)
                    requires
                        limbs(out@) + carry * b == limbs(before) * m + plus,
                        base() * high + low == limb * m + carry,
                ;
            }
            out.push(low);
            carry = high;
            i = i + 1;
        }
        let low: u32 = (carry % 0x1_0000_0000) as u32;
        let high: u32 = (carry / 0x1_0000_0000) as u32;
        proof {
            assert(self.limbs@.take(i as int) == self.limbs@);
            let b = pow(base(), i as nat);
            lemma_limbs_push(out@, low);
            lemma_limbs_push(out@.push(low), high);
            reveal(pow);
            assert(pow(base(), (i + 1) as nat) == base() * b);
            assert(low * b + high * (base() * b) == carry * b) by (nonlinear_arith)
                requires
                    base() * high + low == carry,
            ;
        }
        out.push(low);
        out.push(high);
        Big { limbs: out }
    }

    /// Whether self < other, and whether they are equal.
    fn compare(&self, other: &Big) -> (r: (bool, bool))
        ensures
            r.0 == (self.value() < other.value()),
            r.1 == (self.value() == other.value()),
    {
        let n: usize = if self.limbs.len() > other.limbs.len() {
            self.limbs.len()
        } else {
            other.limbs.len()
        };
        let mut less: bool = false;
        let mut equal: bool = true;
        let mut i: usize = 0;
        let ghost mut x: Seq<u32> = Seq::empty();
        let ghost mut y: Seq<u32> = Seq::empty();
        while i < n
            invariant
                i <= n,
                n >= self.limbs@.len(),
                n >= other.limbs@.len(),
                x.len() == i,
                y.len() == i,
                i <= self.limbs@.len() ==> x == self.limbs@.take(i as int),
                i > self.limbs@.len() ==> limbs(x) == limbs(self.limbs@),
                i <= other.limbs@.len() ==> y == other.limbs@.take(i as int),
                i > other.limbs@.len() ==> limbs(y) == limbs(other.limbs@),
                less == (limbs(x) < limbs(y)),
                equal == (limbs(x) == limbs(y)),
            decreases n - i,
        {
            let a: u32 = if i < self.limbs.len() {
                self.limbs[i]
            } else {
                0
            };
            let b: u32 = if i < other.limbs.len() {
                other.limbs[i]
            } else {
                0
            };
            proof {
                lemma_limbs_bound(x);
                lemma_limbs_bound(y);
                lemma_limbs_push(x, a);
                lemma_limbs_push(y, b);
                let p = pow(base(), i as nat);
                if a < b {
                    assert(a * p + p <= b * p) by (nonlinear_arith)
                        requires
                            a + 1 <= b,
                            p > 0,
                    ;
                } else if b < a {
                    assert(b * p + p <= a * p) by (nonlinear_arith)
                        requires
                            b + 1 <= a,
                            p > 0,
                    ;
                }
                if i < self.limbs@.len() {
                    assert(self.limbs@.take(i as int + 1) == x.push(a));
                } else {
                    assert(self.limbs@.take(self.limbs@.len() as int) == self.limbs@);
                    assert(0 * p == 0);
                }
                if i < other.limbs@.len() {
                    assert(other.limbs@.take(i as int + 1) == y.push(b));
                } else {
                    assert(other.limbs@.take(other.limbs@.len() as int) == other.limbs@);
                    assert(0 * p == 0);
                }
                x = x.push(a);
                y = y.push(b);
            }
            if a != b {
                less = a < b;
                equal = false;
            }
            i = i + 1;
        }
        proof {
            assert(self.limbs@.take(self.limbs@.len() as int) == self.limbs@);
            assert(other.limbs@.take(other.limbs@.len() as int) == other.limbs@);
        }
        (less, equal)
    }

    /// self·2^s.
    fn doubled(&self, s: u32) -> (r: Big)
        ensures
            r.value() == self.value() * pow2(s as nat),
    {
        let mut r: Big = self.multiply(1, 0);
        let mut i: u32 = 0;
        proof {
            lemma2_to64();
        }
        while i < s
            invariant
                i <= s,
                r.value() == self.value() * pow2(i as nat),
            decreases s - i,
        {
            proof {
                lemma_pow2_unfold((i + 1) as nat);
                assert(self.value() * pow2(i as nat) * 2 == self.value() * (2 * pow2(i as nat)))
                    by (nonlinear_arith);
            }
            r = r.multiply(2, 0);
            i = i + 1;
        }
        r
    }

    /// self·10^s.
    fn tenfold(&self, s: u128) -> (r: Big)
        ensures
            r.value() == self.value() * pow(10, s as nat),
    {
        let mut r: Big = self.multiply(1, 0);
        let mut i: u128 = 0;
        proof {
            lemma_pow0(10);
        }
        while i < s
            invariant
                i <= s,
                r.value() == self.value() * pow(10, i as nat),
            decreases s - i,
        {
            proof {
                reveal(pow);
                assert(pow(10, (i + 1) as nat) == 10 * pow(10, i as nat));
                assert(self.value() * pow(10, i as nat) * 10 == self.value() * (10 * pow(
                    10,
                    i as nat,
                ))) by (nonlinear_arith);
            }
            r = r.multiply(10, 0);
            i = i + 1;
        }
        r
    }
}

/// The integer nearest to a/b, ties to even.
fn big_half_even(a: &Big, b: &Big, most: u64) -> (r: u64)
    requires
        b.value() > 0,
        a.value() < b.value() * most,
        most <= 0x20_0000_0000_0000,
    ensures
        r == crate::float::half_even(a.value(), b.value()),
        r <= most,
{
    let ghost x = a.value();
    let ghost y = b.value();
    let mut low: u64 = 0;
    let mut high: u64 = most;
    proof {
        assert(y * 0 == 0) by (nonlinear_arith);
    }
    while high - low > 1
        invariant
            low < high <= most <= 0x20_0000_0000_0000,
            x == a.value(),
            y == b.value(),
            y * low <= x < y * high,
        decreases high - low,
    {
        let mid: u64 = low + (high - low) / 2;
        let at: Big = b.multiply(mid, 0);
        let (over, _): (bool, bool) = a.compare(&at);
        if over {
            high = mid;
        } else {
            low = mid;
        }
    }
    let ghost rest = (x - y * low) as nat;
    proof {
        if low >= high {
            assert(false);
        }
        assert(high == low + 1);
        assert(y * (low + 1) == y * low + y) by (nonlinear_arith);
        crate::float::lemma_half_even_of(x, y, low as nat, rest);
    }
    let twice: Big = a.multiply(2, 0);
    let middle: Big = b.multiply(2 * low + 1, 0);
    proof {
        assert(y * (2 * low + 1) == 2 * (y * low) + y) by (nonlinear_arith);
    }
    let (less, equal): (bool, bool) = twice.compare(&middle);
    if less {
        low
    } else if equal {
        low + low % 2
    } else {
        low + 1
    }
}

/// The magnitude bits of the number nearest to n/d.
fn big_nearest(f: Format, n: &Big, d: &Big) -> (r: u64)
    requires
        d.value() > 0,
    ensures
        r == f.nearest(n.value() * crate::float::unit_pow(0), d.value()),
        r <= f.infinity(),
{
    let p: i32 = f.precision_bits();
    let least: i32 = f.least_exponent();
    let ghost u = crate::float::unit_pow(least as int);
    let ghost exact = n.value() * crate::float::unit_pow(0);
    let a: Big = n.doubled((-least) as u32);
    let mut b: Big = d.multiply(1, 0);
    let mut top: Big = d.doubled(p as u32);
    let mut k: i32 = least;
    let hidden: u64 = f.hidden_bit();
    let infinity: u64 = f.infinity_bits();
    proof {
        crate::float::lemma_unit_pow_adds(least as int, (-least) as nat);
        lemma2_to64();
        assert(exact == a.value() * u) by (nonlinear_arith)
            requires
                exact == n.value() * crate::float::unit_pow(0),
                crate::float::unit_pow(0) == u * pow2((-least) as nat),
                a.value() == n.value() * pow2((-least) as nat),
        ;
    }
    loop
        invariant
            p == f.precision(),
            least == f.least(),
            hidden == f.hidden(),
            infinity == f.infinity(),
            least <= k <= 1100,
            d.value() > 0,
            u == crate::float::unit_pow(least as int),
            u > 0,
            exact == a.value() * u,
            exact == n.value() * crate::float::unit_pow(0),
            b.value() == d.value() * pow2((k - least) as nat),
            top.value() == b.value() * pow2(p as nat),
            k > least ==> exact >= d.value() * crate::float::unit_pow(k - 1 + p),
        ensures
            least <= k <= 1100,
            a.value() < top.value(),
            k > least ==> exact >= d.value() * crate::float::unit_pow(k - 1 + p),
            b.value() == d.value() * pow2((k - least) as nat),
            top.value() == b.value() * pow2(p as nat),
        decreases 1101 - k,
    {
        let (under, _): (bool, bool) = a.compare(&top);
        if under {
            break;
        }
        proof {
            lemma_quantum_bounds(d.value(), b.value(), a.value(), least as int, k as int, p as int);
        }
        if k == 1100 {
            proof {
                lemma_nearest_huge(f, exact, d.value());
            }
            return infinity;
        }
        proof {
            lemma_pow2_unfold((k - least + 1) as nat);
            assert(d.value() * pow2((k - least) as nat) * 2 == d.value() * (2 * pow2(
                (k - least) as nat,
            ))) by (nonlinear_arith);
            assert(b.value() * 2 * pow2(p as nat) == (b.value() * pow2(p as nat)) * 2)
                by (nonlinear_arith);
        }
        b = b.multiply(2, 0);
        top = top.multiply(2, 0);
        k = k + 1;
    }
    proof {
        lemma_quantum_bounds(d.value(), b.value(), a.value(), least as int, k as int, p as int);
        crate::float::lemma_quantum_is_unique(f, exact, d.value(), k as int);
        crate::float::lemma_unit_pow_adds(least as int, (k - least) as nat);
        lemma_pow2_pos((k - least) as nat);
        let w = pow2((k - least) as nat);
        assert(b.value() > 0) by (nonlinear_arith)
            requires
                b.value() == d.value() * w,
                d.value() > 0,
                w > 0,
        ;
        crate::float::lemma_half_even_scales(a.value(), b.value(), u);
        assert(b.value() * u == d.value() * (u * w)) by (nonlinear_arith)
            requires
                b.value() == d.value() * w,
        ;
        crate::float::lemma_pow2_128();
    }
    let most: u64 = 2 * hidden;
    let m: u64 = big_half_even(&a, &b, most);
    let steps: u64 = (k - least) as u64;
    proof {
        assert(steps as u128 * hidden as u128 <= 2200 * 0x10_0000_0000_0000) by (nonlinear_arith)
            requires
                steps <= 2200,
                hidden <= 0x10_0000_0000_0000,
        ;
    }
    let bits: u128 = steps as u128 * hidden as u128 + m as u128;
    if bits < infinity as u128 {
        bits as u64
    } else {
        infinity
    }
}

proof fn lemma_quantum_bounds(d: nat, b: nat, a: nat, least: int, k: int, p: int)
    requires
        -1074 <= least <= k,
        p > 0,
        b == d * pow2((k - least) as nat),
    ensures
        (a < b * pow2(p as nat)) == (a * crate::float::unit_pow(least) < d * crate::float::unit_pow(
            k + p,
        )),
{
    let u = crate::float::unit_pow(least);
    crate::float::lemma_unit_pow_adds(least, (k - least) as nat);
    crate::float::lemma_unit_pow_adds(k, p as nat);
    let w = pow2((k - least) as nat);
    let t = pow2(p as nat);
    assert(d * ((u * w) * t) == (b * t) * u) by (nonlinear_arith)
        requires
            b == d * w,
    ;
    assert((a < b * t) == (a * u < (b * t) * u)) by (nonlinear_arith)
        requires
            u > 0,
    ;
}

/// What is past the largest number is infinity.
proof fn lemma_nearest_huge(f: Format, n: nat, d: nat)
    requires
        d > 0,
        n >= d * crate::float::unit_pow(1100 + f.precision()),
    ensures
        f.nearest(n, d) == f.infinity(),
{
    let p = f.precision();
    // Some exponent is large enough.
    let k = crate::float::lemma_quantum_exists(f, n, d, 1101);
    crate::float::lemma_quantum_is_unique(f, n, d, k);
    assert((k - f.least()) * f.hidden() >= 1100 * f.hidden()) by (nonlinear_arith)
        requires
            k - f.least() >= 1100,
            f.hidden() > 0,
    ;
    match f {
        Format::Single => {},
        Format::Double => {
            assert((k - f.least()) * f.hidden() >= 2047 * f.hidden()) by (nonlinear_arith)
                requires
                    k - f.least() >= 2047,
                    f.hidden() > 0,
            ;
        },
    }
}

// -------------------------------------------------------------------------------------------
// Decimal text
// -------------------------------------------------------------------------------------------

/// The bits of the number nearest to n·10^scale.
pub open spec fn decimal_nearest(f: Format, n: nat, scale: int) -> nat {
    if scale >= 0 {
        f.nearest((n * pow(10, scale as nat)) as nat * crate::float::unit_pow(0), 1)
    } else {
        f.nearest(n * crate::float::unit_pow(0), pow(10, (-scale) as nat) as nat)
    }
}

/// Where the exponent starts: at the first e of either case, or nowhere.
pub open spec fn exponent_at(s: Seq<char>, from: int) -> int
    decreases s.len() - from,
{
    if from >= s.len() {
        s.len() as int
    } else if crate::text::lower(s[from]) == 'e' {
        from
    } else {
        exponent_at(s, from + 1)
    }
}

pub open spec fn has_sign(s: Seq<char>) -> bool {
    s.len() > 0 && (s[0] == '+' || s[0] == '-')
}

pub open spec fn without_sign(s: Seq<char>) -> Seq<char> {
    if has_sign(s) {
        s.skip(1)
    } else {
        s
    }
}

/// A whole number with or without a sign.
pub open spec fn signed_integer(s: Seq<char>) -> Option<int> {
    let digits = without_sign(s);
    if digits.len() > 0 && crate::text::all_digits(digits) {
        let n = crate::text::digits_value(digits) as int;
        Some(
            if s[0] == '-' {
                -n
            } else {
                n
            },
        )
    } else {
        None
    }
}

/// The digits of a mantissa, before its point and after it.
pub open spec fn mantissa_digits(s: Seq<char>) -> Seq<char> {
    let dot = crate::text::first_at(s, '.', 0);
    s.take(dot) + mantissa_fraction(s)
}

pub open spec fn mantissa_fraction(s: Seq<char>) -> Seq<char> {
    let dot = crate::text::first_at(s, '.', 0);
    if dot < s.len() {
        s.skip(dot + 1)
    } else {
        Seq::empty()
    }
}

pub open spec fn decimal_exponent(s: Seq<char>) -> Option<int> {
    let e = exponent_at(s, 0);
    if e >= s.len() {
        Some(0int)
    } else {
        signed_integer(s.skip(e + 1))
    }
}

/// The magnitude bits of the number that a text without a sign holds.
pub open spec fn decimal_magnitude(f: Format, s: Seq<char>) -> Option<nat> {
    if crate::text::alike(s, seq!['n', 'a', 'n']) {
        Some(f.quiet())
    } else if crate::text::alike(s, seq!['i', 'n', 'f']) || crate::text::alike(
        s,
        seq!['i', 'n', 'f', 'i', 'n', 'i', 't', 'y'],
    ) {
        Some(f.infinity())
    } else {
        let mantissa = s.take(exponent_at(s, 0));
        let digits = mantissa_digits(mantissa);
        match decimal_exponent(s) {
            Some(e) if digits.len() > 0 && crate::text::all_digits(digits) => Some(
                decimal_nearest(
                    f,
                    crate::text::digits_value(digits),
                    e - mantissa_fraction(mantissa).len(),
                ),
            ),
            _ => None,
        }
    }
}

/// The bits of the number that a text holds: a sign or none, then digits with or without a point
/// and an exponent, or `inf`, `infinity` or `nan` in either case.
pub open spec fn decimal_bits(f: Format, s: Seq<char>) -> Option<nat> {
    match decimal_magnitude(f, without_sign(s)) {
        Some(m) => Some(f.signed(s.len() > 0 && s[0] == '-', m)),
        None => None,
    }
}

proof fn lemma_ten_exceeds_eight(k: nat)
    ensures
        pow(10, k) >= pow2(3 * k),
        pow(10, k) > 0,
    decreases k,
{
    reveal(pow);
    lemma_pow_positive(10, k);
    lemma2_to64();
    if k == 0 {
        lemma_pow0(10);
    } else {
        lemma_ten_exceeds_eight((k - 1) as nat);
        lemma_pow2_adds(3, (3 * (k - 1)) as nat);
        assert(pow(10, k) == 10 * pow(10, (k - 1) as nat));
    }
}

proof fn lemma_digits_bound(s: Seq<char>)
    requires
        crate::text::all_digits(s),
    ensures
        crate::text::digits_value(s) < pow(10, s.len()),
    decreases s.len(),
{
    reveal(pow);
    lemma_pow0(10);
    if s.len() > 0 {
        let rest = s.drop_last();
        assert forall|i: int| 0 <= i < rest.len() implies crate::text::is_digit(
            #[trigger] rest[i],
        ) by {
            assert(rest[i] == s[i]);
        }
        lemma_digits_bound(rest);
        assert(crate::text::is_digit(s[s.len() - 1]));
        assert(pow(10, s.len()) == 10 * pow(10, rest.len()));
    }
}

/// What is below half the smallest step is zero.
proof fn lemma_nearest_tiny(f: Format, n: nat, d: nat)
    requires
        d > 0,
        n < d * crate::float::unit_pow(-1076),
    ensures
        f.nearest(n, d) == 0,
{
    let least = f.least();
    let u = crate::float::unit_pow(least);
    crate::float::lemma_unit_pow_adds(-1076, (least + 1076) as nat);
    crate::float::lemma_unit_pow_adds(-1076, 2);
    crate::float::lemma_unit_pow_grows(-1074, least);
    crate::float::lemma_unit_pow_grows(-1074, least + f.precision());
    lemma2_to64();
    let t = crate::float::unit_pow(-1076);
    assert(4 * (d * t) <= d * u) by (nonlinear_arith)
        requires
            u >= t * 4,
    ;
    assert(4 * (d * t) <= d * crate::float::unit_pow(least + f.precision())) by (nonlinear_arith)
        requires
            crate::float::unit_pow(least + f.precision()) >= t * 4,
    ;
    assert(d * t > 0) by (nonlinear_arith)
        requires
            d > 0,
            t > 0,
    ;
    assert(f.is_quantum(n, d, least));
    crate::float::lemma_quantum_is_unique(f, n, d, least);
    lemma_small_mod(n, (d * u) as nat);
    lemma_basic_div(n as int, (d * u) as int);
    assert((least - f.least()) * f.hidden() == 0) by (nonlinear_arith)
        requires
            least == f.least(),
    ;
}

/// The largest exponent that is kept as it is.
spec fn cap() -> int {
    100_000_000_000_000_000_000_000_000_000
}

spec fn capped(n: int) -> int {
    if n < -cap() {
        -cap()
    } else if n > cap() {
        cap()
    } else {
        n
    }
}

/// A whole number with or without a sign, held within ±10^29.
fn parse_exponent(chars: &[char]) -> (r: Option<i128>)
    ensures
        r is Some == (signed_integer(chars@) is Some),
        r matches Some(x) ==> x == capped(signed_integer(chars@)->0),
{
    let start: usize = if chars.len() > 0 && (chars[0] == '+' || chars[0] == '-') {
        1
    } else {
        0
    };
    let ghost digits = without_sign(chars@);
    assert(digits == chars@.skip(start as int));
    if start == chars.len() {
        return None;
    }
    let mut value: i128 = 0;
    let mut i: usize = start;
    while i < chars.len()
        invariant
            start <= i <= chars@.len(),
            digits == without_sign(chars@),
            digits == chars@.skip(start as int),
            0 <= value <= cap(),
            value == capped(crate::text::digits_value(digits.take(i - start)) as int),
            forall|j: int| 0 <= j < i - start ==> crate::text::is_digit(digits[j]),
        decreases chars@.len() - i,
    {
        let c: char = chars[i];
        let ghost n = i - start;
        assert(digits[n] == c);
        if !('0' <= c && c <= '9') {
            assert(!crate::text::is_digit(digits[n]));
            return None;
        }
        proof {
            assert(digits.take(n + 1).drop_last() == digits.take(n));
            assert(digits.take(n + 1).last() == c);
        }
        let next: i128 = value * 10 + digit_of(c) as i128;
        value = if next > 100_000_000_000_000_000_000_000_000_000 {
            100_000_000_000_000_000_000_000_000_000
        } else {
            next
        };
        i = i + 1;
    }
    assert(digits.take(digits.len() as int) == digits);
    if chars[0] == '-' {
        Some(-value)
    } else {
        Some(value)
    }
}

fn find_exponent(chars: &[char]) -> (r: usize)
    ensures
        r == exponent_at(chars@, 0),
        r <= chars@.len(),
{
    let mut i: usize = 0;
    while i < chars.len()
        invariant
            i <= chars@.len(),
            exponent_at(chars@, 0) == exponent_at(chars@, i as int),
        decreases chars@.len() - i,
    {
        if to_lower(chars[i]) == 'e' {
            return i;
        }
        i = i + 1;
    }
    i
}

/// The digits that `chars` continue, as a number.
fn read_digits(before: &Big, chars: &[char], Ghost(read): Ghost<Seq<char>>) -> (r: Option<Big>)
    requires
        before.value() == crate::text::digits_value(read),
        crate::text::all_digits(read),
    ensures
        r is Some == crate::text::all_digits(read + chars@),
        r matches Some(n) ==> n.value() == crate::text::digits_value(read + chars@),
{
    let mut n: Big = before.multiply(1, 0);
    let mut i: usize = 0;
    assert(read + chars@.take(0) == read);
    while i < chars.len()
        invariant
            i <= chars@.len(),
            n.value() == crate::text::digits_value(read + chars@.take(i as int)),
            crate::text::all_digits(read + chars@.take(i as int)),
        decreases chars@.len() - i,
    {
        let c: char = chars[i];
        if !('0' <= c && c <= '9') {
            assert((read + chars@)[read.len() + i] == c);
            return None;
        }
        proof {
            let next = read + chars@.take(i as int + 1);
            assert(next.drop_last() == read + chars@.take(i as int));
            assert(next.last() == c);
            assert forall|j: int| 0 <= j < next.len() implies crate::text::is_digit(
                #[trigger] next[j],
            ) by {
                if j < next.len() - 1 {
                    assert(next[j] == (read + chars@.take(i as int))[j]);
                }
            }
        }
        n = n.multiply(10, digit_of(c) as u64);
        i = i + 1;
    }
    assert(chars@.take(chars@.len() as int) == chars@);
    Some(n)
}

fn nearest_decimal(f: Format, n: &Big, digits: usize, scale: i128) -> (r: u64)
    requires
        n.value() < pow(10, digits as nat),
        -300_000_000_000_000_000_000_000_000_000 <= scale
            <= 300_000_000_000_000_000_000_000_000_000,
    ensures
        r == decimal_nearest(f, n.value(), scale as int),
        r <= f.infinity(),
{
    let zero: Big = Big::zero();
    let one: Big = Big::one();
    let (_, none): (bool, bool) = n.compare(&zero);
    if none {
        proof {
            lemma_zero_stays(f, scale as int);
        }
        return 0;
    }
    if scale > 400 {
        proof {
            lemma_far_scale_up(f, n.value(), scale as int);
        }
        return f.infinity_bits();
    }
    if scale < -401 - digits as i128 {
        proof {
            lemma_far_scale_down(f, n.value(), digits as int, scale as int);
        }
        return 0;
    }
    if scale >= 0 {
        let top: Big = n.tenfold(scale as u128);
        big_nearest(f, &top, &one)
    } else {
        let bottom: Big = one.tenfold((-scale) as u128);
        proof {
            lemma_ten_exceeds_eight((-scale) as nat);
            assert(1 * pow(10, (-scale) as nat) == pow(10, (-scale) as nat));
        }
        big_nearest(f, n, &bottom)
    }
}

fn parse_magnitude(f: Format, chars: &[char]) -> (r: Option<u64>)
    ensures
        r is Some == (decimal_magnitude(f, chars@) is Some),
        r matches Some(m) ==> decimal_magnitude(f, chars@) == Some(m as nat) && m < f.sign(),
{
    let nan: [char; 3] = ['n', 'a', 'n'];
    let inf: [char; 3] = ['i', 'n', 'f'];
    let infinity: [char; 8] = ['i', 'n', 'f', 'i', 'n', 'i', 't', 'y'];
    assert(nan@ == seq!['n', 'a', 'n']);
    assert(inf@ == seq!['i', 'n', 'f']);
    assert(infinity@ == seq!['i', 'n', 'f', 'i', 'n', 'i', 't', 'y']);
    if alike_chars(chars, &nan) {
        return Some(f.quiet_nan());
    }
    if alike_chars(chars, &inf) || alike_chars(chars, &infinity) {
        return Some(f.infinity_bits());
    }
    let e: usize = find_exponent(chars);
    let mantissa: &[char] = slice_subrange(chars, 0, e);
    assert(mantissa@ == chars@.take(e as int));
    let exponent: Option<i128> = if e == chars.len() {
        Some(0)
    } else {
        let tail: &[char] = slice_subrange(chars, e + 1, chars.len());
        assert(tail@ == chars@.skip(e as int + 1));
        parse_exponent(tail)
    };
    let dot: usize = find_char(mantissa, '.', 0);
    let whole: &[char] = slice_subrange(mantissa, 0, dot);
    let fraction: &[char] = if dot < mantissa.len() {
        slice_subrange(mantissa, dot + 1, mantissa.len())
    } else {
        slice_subrange(mantissa, dot, dot)
    };
    let ghost digits = mantissa_digits(mantissa@);
    proof {
        assert(whole@ == mantissa@.take(dot as int));
        assert(fraction@ == mantissa_fraction(mantissa@));
        assert(digits == whole@ + fraction@);
        assert(Seq::<char>::empty() + whole@ == whole@);
    }
    match exponent {
        None => None,
        Some(x) => {
            if whole.len() == 0 && fraction.len() == 0 {
                return None;
            }
            let start: Big = Big::zero();
            match read_digits(&start, whole, Ghost(Seq::<char>::empty())) {
                None => {
                    proof {
                        let j = choose|j: int|
                            0 <= j < whole@.len() && !crate::text::is_digit(#[trigger] whole@[j]);
                        assert(digits[j] == whole@[j]);
                    }
                    None
                },
                Some(n) => match read_digits(&n, fraction, Ghost(whole@)) {
                    None => None,
                    Some(all) => {
                        let length: usize = if dot < mantissa.len() {
                            mantissa.len() - 1
                        } else {
                            mantissa.len()
                        };
                        proof {
                            assert(digits.len() == length);
                            lemma_digits_bound(digits);
                            lemma_scale_is_capped(
                                f,
                                crate::text::digits_value(digits),
                                length as int,
                                decimal_exponent(chars@)->0,
                                fraction@.len() as int,
                            );
                        }
                        Some(nearest_decimal(f, &all, length, x - fraction.len() as i128))
                    },
                },
            }
        },
    }
}

/// An exponent past ±10^29 rounds to what it does at ±10^29.
proof fn lemma_scale_is_capped(f: Format, n: nat, length: int, exponent: int, fraction: int)
    requires
        0 <= fraction <= length <= usize::MAX,
        n < pow(10, length as nat),
    ensures
        decimal_nearest(f, n, exponent - fraction) == decimal_nearest(
            f,
            n,
            capped(exponent) - fraction,
        ),
{
    if exponent > cap() {
        lemma_far_scale_up(f, n, exponent - fraction);
        lemma_far_scale_up(f, n, cap() - fraction);
    } else if exponent < -cap() {
        lemma_far_scale_down(f, n, length, exponent - fraction);
        lemma_far_scale_down(f, n, length, -cap() - fraction);
    }
}

proof fn lemma_zero_stays(f: Format, scale: int)
    ensures
        decimal_nearest(f, 0, scale) == 0,
{
    let u = crate::float::unit_pow(0);
    let t = crate::float::unit_pow(-1076);
    crate::float::lemma_unit_pow_adds(-1076, 0);
    assert(0 * u == 0) by (nonlinear_arith);
    if scale >= 0 {
        assert(0 * pow(10, scale as nat) == 0) by (nonlinear_arith);
        lemma_nearest_tiny(f, 0, 1);
    } else {
        lemma_ten_exceeds_eight((-scale) as nat);
        let d = pow(10, (-scale) as nat) as nat;
        assert(d * t > 0) by (nonlinear_arith)
            requires
                d > 0,
                t > 0,
        ;
        lemma_nearest_tiny(f, 0, d);
    }
}

proof fn lemma_far_scale_up(f: Format, n: nat, scale: int)
    requires
        scale > 400,
    ensures
        decimal_nearest(f, n, scale) == (if n == 0 {
            0
        } else {
            f.infinity()
        }),
{
    let u = crate::float::unit_pow(0);
    let p = f.precision();
    crate::float::lemma_unit_pow_adds(0, (1100 + p) as nat);
    lemma_ten_exceeds_eight(scale as nat);
    let power = pow(10, scale as nat);
    if n == 0 {
        lemma_zero_stays(f, scale);
    } else {
        if 1100 + p < 3 * scale {
            lemma_pow2_strictly_increases((1100 + p) as nat, (3 * scale) as nat);
        }
        let w = pow2((1100 + p) as nat);
        assert((n * power) * u >= u * w) by (nonlinear_arith)
            requires
                n >= 1,
                power >= w,
                u > 0,
        ;
        lemma_nearest_huge(f, (n * power) as nat * u, 1);
    }
}

proof fn lemma_far_scale_down(f: Format, n: nat, length: int, scale: int)
    requires
        0 <= length,
        n < pow(10, length as nat),
        scale < -401 - length,
    ensures
        decimal_nearest(f, n, scale) == 0,
{
    let u = crate::float::unit_pow(0);
    let l = length as nat;
    lemma_ten_exceeds_eight((-scale) as nat);
    let d = pow(10, (-scale) as nat) as nat;
    lemma_pow_adds(10, l, (-scale - l) as nat);
    lemma_ten_exceeds_eight((-scale - l) as nat);
    let power = pow(10, (-scale - l) as nat);
    if 1203 < 3 * (-scale - l) {
        lemma_pow2_strictly_increases(1203, (3 * (-scale - l)) as nat);
    }
    lemma_pow2_pos(1203);
    crate::float::lemma_unit_pow_adds(-1203, 1203);
    crate::float::lemma_unit_pow_grows(-1203, -1076);
    let t = crate::float::unit_pow(-1203);
    let w = pow2(1203);
    let ten = pow(10, l);
    assert(n * (t * w) < d * t) by (nonlinear_arith)
        requires
            n < ten,
            d == ten * power,
            power >= w,
            t > 0,
            w > 0,
    ;
    assert(d * t <= d * crate::float::unit_pow(-1076)) by (nonlinear_arith)
        requires
            t <= crate::float::unit_pow(-1076),
    ;
    lemma_nearest_tiny(f, n * u, d);
}

/// The bits of the number that a text holds.
pub fn parse_decimal(f: Format, chars: &[char]) -> (r: Option<u64>)
    ensures
        r is Some == (decimal_bits(f, chars@) is Some),
        r matches Some(bits) ==> decimal_bits(f, chars@) == Some(bits as nat) && f.holds(
            bits as nat,
        ),
{
    let signed: bool = chars.len() > 0 && (chars[0] == '+' || chars[0] == '-');
    let body: &[char] = if signed {
        slice_subrange(chars, 1, chars.len())
    } else {
        slice_subrange(chars, 0, chars.len())
    };
    assert(body@ == without_sign(chars@));
    match parse_magnitude(f, body) {
        Some(m) => Some(f.with_sign(chars.len() > 0 && chars[0] == '-', m)),
        None => None,
    }
}

} // verus!
