//! Text as characters: taking it apart, and putting it together.
use vstd::prelude::*;
use vstd::slice::*;
use vstd::string::*;

verus! {

/// Appends one character, as `String::push` does.
pub assume_specification[ String::push ](text: &mut String, c: char)
    ensures
        final(text)@ == old(text)@.push(c),
;

/// How many bytes a text takes.
pub open spec fn bytes(s: Seq<char>) -> usize {
    vstd::utf8::encode_utf8(s).len() as usize
}

/// No character takes more than four bytes.
pub proof fn characters_take_four_bytes_at_most(s: Seq<char>)
    requires
        s.len() <= 0x1000,
    ensures
        bytes(s) <= 4 * s.len(),
{
    lemma_encoded_length(s);
}

/// An ASCII character takes one byte.
pub proof fn ascii_takes_a_byte_each(s: Seq<char>)
    requires
        s.len() <= 0x1000,
        forall|i: int| 0 <= i < s.len() ==> (#[trigger] s[i]) as u32 <= 127,
    ensures
        bytes(s) == s.len(),
{
    lemma_ascii_length(s);
}

proof fn lemma_ascii_length(s: Seq<char>)
    requires
        forall|i: int| 0 <= i < s.len() ==> (#[trigger] s[i]) as u32 <= 127,
    ensures
        vstd::utf8::encode_utf8(s).len() == s.len(),
    decreases s.len(),
{
    if s.len() > 0 {
        assert(s[0] as u32 <= 127);
        assert forall|i: int| 0 <= i < s.drop_first().len() implies (#[trigger] s.drop_first()[i])
            as u32 <= 127 by {
            assert(s.drop_first()[i] == s[i + 1]);
        }
        lemma_ascii_length(s.drop_first());
    }
}

proof fn lemma_encoded_length(s: Seq<char>)
    ensures
        vstd::utf8::encode_utf8(s).len() <= 4 * s.len(),
    decreases s.len(),
{
    if s.len() > 0 {
        lemma_encoded_length(s.drop_first());
    }
}

/// The characters of a text.
pub fn chars_of(text: &str) -> (r: Vec<char>)
    ensures
        r@ == text@,
{
    let mut r: Vec<char> = Vec::new();
    for c in it: text.chars()
        invariant
            it.seq() == text@,
            r@ == text@.take(it.index() as int),
    {
        r.push(c);
        assert(r@ == text@.take(it.index() as int + 1));
    }
    assert(text@.take(text@.len() as int) == text@);
    r
}

/// Characters from `from` up to `to`, as a text.
pub fn text_between(chars: &[char], from: usize, to: usize) -> (r: String)
    requires
        from <= to <= chars@.len(),
    ensures
        r@ == chars@.subrange(from as int, to as int),
{
    let mut r: String = String::new();
    let mut i: usize = from;
    while i < to
        invariant
            from <= i <= to <= chars@.len(),
            r@ == chars@.subrange(from as int, i as int),
        decreases to - i,
    {
        r.push(chars[i]);
        assert(chars@.subrange(from as int, i as int + 1) == chars@.subrange(
            from as int,
            i as int,
        ).push(chars@[i as int]));
        i = i + 1;
    }
    r
}

pub fn text_of(chars: &[char]) -> (r: String)
    ensures
        r@ == chars@,
{
    let r: String = text_between(chars, 0, chars.len());
    assert(chars@.subrange(0, chars@.len() as int) == chars@);
    r
}

/// A text of its own.
pub fn owned(text: &str) -> (r: String)
    ensures
        r@ == text@,
{
    text.to_owned()
}

pub fn same_chars(a: &[char], b: &[char]) -> (r: bool)
    ensures
        r == (a@ == b@),
{
    if a.len() != b.len() {
        return false;
    }
    let mut i: usize = 0;
    while i < a.len()
        invariant
            i <= a@.len() == b@.len(),
            a@.take(i as int) == b@.take(i as int),
        decreases a@.len() - i,
    {
        if a[i] != b[i] {
            assert(a@[i as int] != b@[i as int]);
            return false;
        }
        assert(a@.take(i as int + 1) == a@.take(i as int).push(a@[i as int]));
        assert(b@.take(i as int + 1) == b@.take(i as int).push(b@[i as int]));
        i = i + 1;
    }
    assert(a@.take(a@.len() as int) == a@);
    assert(b@.take(b@.len() as int) == b@);
    true
}

/// Whether two texts are the same.
pub fn same_text(a: &str, b: &str) -> (r: bool)
    ensures
        r == (a@ == b@),
{
    let x: Vec<char> = chars_of(a);
    let y: Vec<char> = chars_of(b);
    same_chars(x.as_slice(), y.as_slice())
}

/// Where the first `c` from `from` on is, or the end.
pub open spec fn first_at(s: Seq<char>, c: char, from: int) -> int
    decreases s.len() - from,
{
    if from >= s.len() {
        s.len() as int
    } else if s[from] == c {
        from
    } else {
        first_at(s, c, from + 1)
    }
}

pub fn find_char(chars: &[char], c: char, from: usize) -> (r: usize)
    requires
        from <= chars@.len(),
    ensures
        r == first_at(chars@, c, from as int),
        from <= r <= chars@.len(),
        r < chars@.len() ==> chars@[r as int] == c,
        forall|j: int| from <= j < r ==> chars@[j] != c,
{
    let mut i: usize = from;
    while i < chars.len()
        invariant
            from <= i <= chars@.len(),
            first_at(chars@, c, from as int) == first_at(chars@, c, i as int),
            forall|j: int| from <= j < i ==> chars@[j] != c,
        decreases chars@.len() - i,
    {
        if chars[i] == c {
            return i;
        }
        i = i + 1;
    }
    i
}

// -------------------------------------------------------------------------------------------
// White space, words and lines
// -------------------------------------------------------------------------------------------

/// Unicode's white space.
pub open spec fn is_space(c: char) -> bool {
    ||| '\u{9}' <= c <= '\u{d}'
    ||| c == ' '
    ||| c == '\u{85}'
    ||| c == '\u{a0}'
    ||| c == '\u{1680}'
    ||| '\u{2000}' <= c <= '\u{200a}'
    ||| c == '\u{2028}'
    ||| c == '\u{2029}'
    ||| c == '\u{202f}'
    ||| c == '\u{205f}'
    ||| c == '\u{3000}'
}

pub fn space(c: char) -> (r: bool)
    ensures
        r == is_space(c),
{
    ('\u{9}' <= c && c <= '\u{d}') || c == ' ' || c == '\u{85}' || c == '\u{a0}' || c == '\u{1680}'
        || ('\u{2000}' <= c && c <= '\u{200a}') || c == '\u{2028}' || c == '\u{2029}' || c
        == '\u{202f}' || c == '\u{205f}' || c == '\u{3000}'
}

/// How many characters a text starts with that are no white space.
pub open spec fn word_length(s: Seq<char>) -> nat
    decreases s.len(),
{
    if s.len() == 0 || is_space(s[0]) {
        0
    } else {
        1 + word_length(s.skip(1))
    }
}

proof fn lemma_word_length_bound(s: Seq<char>)
    ensures
        word_length(s) <= s.len(),
        s.len() > 0 && !is_space(s[0]) ==> word_length(s) > 0,
    decreases s.len(),
{
    if s.len() > 0 && !is_space(s[0]) {
        lemma_word_length_bound(s.skip(1));
    }
}

/// The words of a text, between white space.
pub open spec fn words(s: Seq<char>) -> Seq<Seq<char>>
    decreases s.len(),
    via words_decreases
{
    if s.len() == 0 {
        Seq::empty()
    } else if is_space(s[0]) {
        words(s.skip(1))
    } else {
        seq![s.take(word_length(s) as int)] + words(s.skip(word_length(s) as int))
    }
}

#[via_fn]
proof fn words_decreases(s: Seq<char>) {
    lemma_word_length_bound(s);
}

pub open spec fn views(v: Seq<Vec<char>>) -> Seq<Seq<char>> {
    v.map_values(|w: Vec<char>| w@)
}

fn vec_between(chars: &[char], from: usize, to: usize) -> (r: Vec<char>)
    requires
        from <= to <= chars@.len(),
    ensures
        r@ == chars@.subrange(from as int, to as int),
{
    slice_to_vec(slice_subrange(chars, from, to))
}

fn word_end(chars: &[char], from: usize) -> (r: usize)
    requires
        from <= chars@.len(),
    ensures
        from <= r <= chars@.len(),
        r == from + word_length(chars@.skip(from as int)),
{
    let mut i: usize = from;
    while i < chars.len()
        invariant
            from <= i <= chars@.len(),
            word_length(chars@.skip(from as int)) == i - from + word_length(chars@.skip(i as int)),
        decreases chars@.len() - i,
    {
        assert(chars@.skip(i as int)[0] == chars@[i as int]);
        if space(chars[i]) {
            return i;
        }
        assert(chars@.skip(i as int).skip(1) == chars@.skip(i as int + 1));
        i = i + 1;
    }
    i
}

pub fn words_of(chars: &[char]) -> (r: Vec<Vec<char>>)
    ensures
        views(r@) == words(chars@),
{
    let mut r: Vec<Vec<char>> = Vec::new();
    let mut i: usize = 0;
    assert(chars@.skip(0) == chars@);
    assert(views(r@) + words(chars@) == words(chars@));
    while i < chars.len()
        invariant
            i <= chars@.len(),
            words(chars@) == views(r@) + words(chars@.skip(i as int)),
        decreases chars@.len() - i,
    {
        let ghost rest = chars@.skip(i as int);
        assert(rest[0] == chars@[i as int]);
        if space(chars[i]) {
            assert(rest.skip(1) == chars@.skip(i as int + 1));
            i = i + 1;
        } else {
            let end: usize = word_end(chars, i);
            proof {
                lemma_word_length_bound(rest);
                assert(rest.skip(end - i) == chars@.skip(end as int));
                assert(rest.take(end - i) == chars@.subrange(i as int, end as int));
            }
            let ghost before = views(r@);
            let word: Vec<char> = vec_between(chars, i, end);
            r.push(word);
            proof {
                assert(views(r@) == before.push(word@));
                assert(before.push(word@) + words(chars@.skip(end as int)) == before + (
                seq![word@] + words(chars@.skip(end as int))));
            }
            i = end;
        }
    }
    assert(chars@.skip(i as int) == Seq::<char>::empty());
    assert(views(r@) + Seq::<Seq<char>>::empty() == views(r@));
    r
}

/// A text without the white space at its ends.
pub open spec fn trimmed(s: Seq<char>) -> Seq<char>
    decreases s.len(),
{
    if s.len() > 0 && is_space(s[0]) {
        trimmed(s.skip(1))
    } else if s.len() > 0 && is_space(s.last()) {
        trimmed(s.drop_last())
    } else {
        s
    }
}

pub fn trim(chars: &[char]) -> (r: &[char])
    ensures
        r@ == trimmed(chars@),
{
    let mut from: usize = 0;
    let mut to: usize = chars.len();
    assert(chars@.subrange(0, to as int) == chars@);
    while from < to && space(chars[from])
        invariant
            from <= to == chars@.len(),
            trimmed(chars@) == trimmed(chars@.subrange(from as int, to as int)),
        decreases to - from,
    {
        assert(chars@.subrange(from as int, to as int).skip(1) == chars@.subrange(
            from as int + 1,
            to as int,
        ));
        from = from + 1;
    }
    while from < to && space(chars[to - 1])
        invariant
            from <= to <= chars@.len(),
            from < to ==> !is_space(chars@[from as int]),
            trimmed(chars@) == trimmed(chars@.subrange(from as int, to as int)),
        decreases to - from,
    {
        assert(chars@.subrange(from as int, to as int).drop_last() == chars@.subrange(
            from as int,
            to as int - 1,
        ));
        to = to - 1;
    }
    slice_subrange(chars, from, to)
}

/// The lines of a text: what ends in a line feed, with or without a carriage return before it,
/// and what is left after the last.
pub open spec fn lines(s: Seq<char>) -> Seq<Seq<char>>
    decreases s.len(),
    via lines_decreases
{
    let end = first_at(s, '\n', 0);
    if s.len() == 0 {
        Seq::empty()
    } else if end >= s.len() {
        seq![s]
    } else {
        seq![without_return(s.take(end))] + lines(s.skip(end + 1))
    }
}

#[via_fn]
proof fn lines_decreases(s: Seq<char>) {
    lemma_first_at(s, '\n', 0);
}

pub proof fn lemma_first_at(s: Seq<char>, c: char, from: int)
    requires
        0 <= from <= s.len(),
    ensures
        from <= first_at(s, c, from) <= s.len(),
        first_at(s, c, from) < s.len() ==> s[first_at(s, c, from)] == c,
        forall|j: int| from <= j < first_at(s, c, from) ==> s[j] != c,
    decreases s.len() - from,
{
    if from < s.len() && s[from] != c {
        lemma_first_at(s, c, from + 1);
    }
}

pub open spec fn without_return(s: Seq<char>) -> Seq<char> {
    if s.len() > 0 && s.last() == '\r' {
        s.drop_last()
    } else {
        s
    }
}

proof fn lemma_first_at_skips(s: Seq<char>, c: char, from: int, k: int)
    requires
        0 <= k <= from <= s.len(),
    ensures
        first_at(s.skip(k), c, from - k) == first_at(s, c, from) - k,
    decreases s.len() - from,
{
    if from < s.len() && s[from] != c {
        lemma_first_at_skips(s, c, from + 1, k);
    }
}

pub fn lines_of(chars: &[char]) -> (r: Vec<Vec<char>>)
    ensures
        views(r@) == lines(chars@),
{
    let mut r: Vec<Vec<char>> = Vec::new();
    let mut i: usize = 0;
    assert(chars@.skip(0) == chars@);
    assert(views(r@) + lines(chars@) == lines(chars@));
    while i < chars.len()
        invariant
            i <= chars@.len(),
            lines(chars@) == views(r@) + lines(chars@.skip(i as int)),
        decreases chars@.len() - i,
    {
        let ghost rest = chars@.skip(i as int);
        let ghost before = views(r@);
        let end: usize = find_char(chars, '\n', i);
        proof {
            lemma_first_at_skips(chars@, '\n', i as int, i as int);
        }
        if end == chars.len() {
            let line: Vec<char> = vec_between(chars, i, end);
            assert(line@ == rest);
            r.push(line);
            proof {
                assert(views(r@) == before.push(line@));
                assert(lines(chars@.skip(end as int)) == Seq::<Seq<char>>::empty());
                assert(before.push(line@) + Seq::<Seq<char>>::empty() == before + seq![rest]);
            }
            i = end;
        } else {
            let stop: usize = if end > i && chars[end - 1] == '\r' {
                end - 1
            } else {
                end
            };
            let line: Vec<char> = vec_between(chars, i, stop);
            proof {
                assert(rest.take(end - i) == chars@.subrange(i as int, end as int));
                if end > i {
                    assert(rest.take(end - i).last() == chars@[end - 1]);
                    assert(rest.take(end - i).drop_last() == chars@.subrange(i as int, end - 1));
                }
                assert(line@ == without_return(rest.take(end - i)));
                assert(rest.skip(end - i + 1) == chars@.skip(end as int + 1));
            }
            r.push(line);
            proof {
                assert(views(r@) == before.push(line@));
                assert(before.push(line@) + lines(chars@.skip(end as int + 1)) == before + (
                seq![line@] + lines(chars@.skip(end as int + 1))));
            }
            i = end + 1;
        }
    }
    assert(chars@.skip(i as int) == Seq::<char>::empty());
    assert(views(r@) + Seq::<Seq<char>>::empty() == views(r@));
    r
}

// -------------------------------------------------------------------------------------------
// Integers
// -------------------------------------------------------------------------------------------

pub open spec fn is_digit(c: char) -> bool {
    '0' <= c <= '9'
}

pub open spec fn digit_value(c: char) -> nat {
    (c as int - '0' as int) as nat
}

pub open spec fn all_digits(s: Seq<char>) -> bool {
    forall|i: int| 0 <= i < s.len() ==> is_digit(#[trigger] s[i])
}

/// What digits are worth, read in tens.
pub open spec fn digits_value(s: Seq<char>) -> nat
    decreases s.len(),
{
    if s.len() == 0 {
        0
    } else {
        10 * digits_value(s.drop_last()) + digit_value(s.last())
    }
}

/// The digits after a plus sign, where there is one.
pub open spec fn unsigned_digits(s: Seq<char>) -> Seq<char> {
    if s.len() > 0 && s[0] == '+' {
        s.skip(1)
    } else {
        s
    }
}

/// The number a text holds, up to `most`: digits, and a plus sign before them if any.
pub open spec fn unsigned(s: Seq<char>, most: nat) -> Option<nat> {
    let digits = unsigned_digits(s);
    if digits.len() > 0 && all_digits(digits) && digits_value(digits) <= most {
        Some(digits_value(digits))
    } else {
        None
    }
}

/// Why a text is no integer.
#[derive(Clone, Copy, PartialEq, Eq, Structural, Debug)]
pub enum IntegerFault {
    Empty,
    Digit,
    Large,
}

impl IntegerFault {
    pub open spec fn text(self) -> Seq<char> {
        match self {
            IntegerFault::Empty => "cannot parse integer from empty string"@,
            IntegerFault::Digit => "invalid digit found in string"@,
            IntegerFault::Large => "number too large to fit in target type"@,
        }
    }

    pub fn message(&self) -> (r: &'static str)
        ensures
            r@ == self.text(),
    {
        match *self {
            IntegerFault::Empty => "cannot parse integer from empty string",
            IntegerFault::Digit => "invalid digit found in string",
            IntegerFault::Large => "number too large to fit in target type",
        }
    }
}

/// What first keeps digits from being a number up to `most`, where those before are `value`.
pub open spec fn digits_fault(digits: Seq<char>, value: nat, most: nat) -> IntegerFault
    decreases digits.len(),
{
    if digits.len() == 0 || !is_digit(digits[0]) {
        IntegerFault::Digit
    } else if 10 * value + digit_value(digits[0]) > most {
        IntegerFault::Large
    } else {
        digits_fault(digits.skip(1), 10 * value + digit_value(digits[0]), most)
    }
}

/// Why a text that holds no number up to `most` does not.
pub open spec fn integer_fault(s: Seq<char>, most: nat) -> IntegerFault {
    if s.len() == 0 {
        IntegerFault::Empty
    } else {
        digits_fault(unsigned_digits(s), 0, most)
    }
}

pub fn find_integer_fault(chars: &[char], most: u64) -> (r: IntegerFault)
    ensures
        r == integer_fault(chars@, most as nat),
{
    if chars.len() == 0 {
        return IntegerFault::Empty;
    }
    let start: usize = if chars[0] == '+' {
        1
    } else {
        0
    };
    let ghost digits = unsigned_digits(chars@);
    assert(digits == chars@.skip(start as int));
    assert(digits.skip(0) == digits);
    let mut value: u64 = 0;
    let mut i: usize = start;
    while i < chars.len()
        invariant
            start <= i <= chars@.len(),
            chars@.len() > 0,
            digits == unsigned_digits(chars@),
            digits == chars@.skip(start as int),
            value <= most,
            integer_fault(chars@, most as nat) == digits_fault(
                digits.skip(i - start),
                value as nat,
                most as nat,
            ),
        decreases chars@.len() - i,
    {
        let c: char = chars[i];
        proof {
            assert(digits.skip(i - start)[0] == c);
            assert(digits.skip(i - start).skip(1) == digits.skip(i - start + 1));
        }
        if !('0' <= c && c <= '9') {
            return IntegerFault::Digit;
        }
        let next: u128 = value as u128 * 10 + digit_of(c) as u128;
        if next > most as u128 {
            return IntegerFault::Large;
        }
        value = next as u64;
        i = i + 1;
    }
    IntegerFault::Digit
}

pub proof fn lemma_digits_grow(s: Seq<char>, n: int)
    requires
        0 <= n <= s.len(),
    ensures
        digits_value(s.take(n)) <= digits_value(s),
    decreases s.len() - n,
{
    if n < s.len() {
        lemma_digits_grow(s, n + 1);
        assert(s.take(n + 1).drop_last() == s.take(n));
    } else {
        assert(s.take(n) == s);
    }
}

pub fn digit_of(c: char) -> (r: u32)
    requires
        is_digit(c),
    ensures
        r == digit_value(c),
        r < 10,
{
    c as u32 - '0' as u32
}

/// The number a text holds, up to `most`.
pub fn parse_unsigned(chars: &[char], most: u64) -> (r: Option<u64>)
    ensures
        r is Some == (unsigned(chars@, most as nat) is Some),
        r matches Some(n) ==> unsigned(chars@, most as nat) == Some(n as nat) && n <= most,
{
    let start: usize = if chars.len() > 0 && chars[0] == '+' {
        1
    } else {
        0
    };
    let ghost digits = unsigned_digits(chars@);
    assert(digits == chars@.skip(start as int));
    if start == chars.len() {
        return None;
    }
    let mut value: u64 = 0;
    let mut i: usize = start;
    while i < chars.len()
        invariant
            start <= i <= chars@.len(),
            digits == unsigned_digits(chars@),
            digits == chars@.skip(start as int),
            value <= most,
            value == digits_value(digits.take(i - start)),
            forall|j: int| 0 <= j < i - start ==> is_digit(digits[j]),
        decreases chars@.len() - i,
    {
        let c: char = chars[i];
        let ghost n = i - start;
        assert(digits[n] == c);
        if !('0' <= c && c <= '9') {
            return None;
        }
        let d: u64 = digit_of(c) as u64;
        proof {
            assert(digits.take(n + 1).drop_last() == digits.take(n));
            assert(digits.take(n + 1).last() == c);
            lemma_digits_grow(digits, n + 1);
        }
        let next: u128 = value as u128 * 10 + d as u128;
        if next > most as u128 {
            return None;
        }
        value = next as u64;
        i = i + 1;
    }
    assert(digits.take(digits.len() as int) == digits);
    Some(value)
}

pub fn parse_u32(chars: &[char]) -> (r: Option<u32>)
    ensures
        r is Some == (unsigned(chars@, u32::MAX as nat) is Some),
        r matches Some(n) ==> unsigned(chars@, u32::MAX as nat) == Some(n as nat),
{
    match parse_unsigned(chars, u32::MAX as u64) {
        Some(n) => Some(n as u32),
        None => None,
    }
}

pub open spec fn digit_char(d: nat) -> char {
    ('0' as int + d) as char
}

/// A number in tens.
pub open spec fn decimal(n: nat) -> Seq<char>
    decreases n,
{
    if n < 10 {
        seq![digit_char(n)]
    } else {
        decimal(n / 10).push(digit_char(n % 10))
    }
}

fn char_of_digit(d: u64) -> (c: char)
    requires
        d < 10,
    ensures
        c == digit_char(d as nat),
{
    (48u8 + d as u8) as char
}

pub fn decimal_text(n: u64) -> (r: String)
    ensures
        r@ == decimal(n as nat),
    decreases n,
{
    if n < 10 {
        let mut r: String = String::new();
        r.push(char_of_digit(n));
        assert(r@ == seq![digit_char(n as nat)]);
        r
    } else {
        let mut r: String = decimal_text(n / 10);
        r.push(char_of_digit(n % 10));
        r
    }
}

/// Reading a number back gives what was written.
pub proof fn decimal_reads_back(n: nat, most: nat)
    requires
        n <= most,
    ensures
        unsigned(decimal(n), most) == Some(n),
        all_digits(decimal(n)),
        decimal(n).len() > 0,
        digits_value(decimal(n)) == n,
    decreases n,
{
    if n < 10 {
        let s = seq![digit_char(n)];
        assert(s.drop_last() == Seq::<char>::empty());
        assert(digits_value(s.drop_last()) == 0);
        assert(s.last() == digit_char(n));
    } else {
        decimal_reads_back(n / 10, most);
        let s = decimal(n);
        assert(s.drop_last() == decimal(n / 10));
        assert(s.last() == digit_char(n % 10));
        assert forall|i: int| 0 <= i < s.len() implies is_digit(#[trigger] s[i]) by {
            if i < s.len() - 1 {
                assert(s[i] == decimal(n / 10)[i]);
            }
        }
    }
    assert(is_digit(decimal(n)[0]));
}


// -------------------------------------------------------------------------------------------
// Case
// -------------------------------------------------------------------------------------------

/// A letter of the English alphabet in lower case; any other character as it is.
pub open spec fn lower(c: char) -> char {
    if 'A' <= c <= 'Z' {
        (c as int + 32) as char
    } else {
        c
    }
}

pub fn to_lower(c: char) -> (r: char)
    ensures
        r == lower(c),
{
    if 'A' <= c && c <= 'Z' {
        (c as u8 + 32) as char
    } else {
        c
    }
}

/// Whether two texts are the same but for the case of English letters.
pub open spec fn alike(a: Seq<char>, b: Seq<char>) -> bool {
    a.len() == b.len() && forall|i: int| 0 <= i < a.len() ==> lower(#[trigger] a[i]) == lower(b[i])
}

pub fn alike_chars(a: &[char], b: &[char]) -> (r: bool)
    ensures
        r == alike(a@, b@),
{
    if a.len() != b.len() {
        return false;
    }
    let mut i: usize = 0;
    while i < a.len()
        invariant
            i <= a@.len() == b@.len(),
            forall|j: int| 0 <= j < i ==> lower(#[trigger] a@[j]) == lower(b@[j]),
        decreases a@.len() - i,
    {
        if to_lower(a[i]) != to_lower(b[i]) {
            assert(lower(a@[i as int]) != lower(b@[i as int]));
            return false;
        }
        i = i + 1;
    }
    true
}

pub fn alike_text(a: &str, b: &str) -> (r: bool)
    ensures
        r == alike(a@, b@),
{
    let x: Vec<char> = chars_of(a);
    let y: Vec<char> = chars_of(b);
    alike_chars(x.as_slice(), y.as_slice())
}


// -------------------------------------------------------------------------------------------
// Parts of a text
// -------------------------------------------------------------------------------------------

pub open spec fn begins(s: Seq<char>, with: Seq<char>) -> bool {
    s.len() >= with.len() && s.take(with.len() as int) == with
}

pub fn begins_with(chars: &[char], with: &str) -> (r: bool)
    ensures
        r == begins(chars@, with@),
{
    let other: Vec<char> = chars_of(with);
    if chars.len() < other.len() {
        return false;
    }
    let head: &[char] = slice_subrange(chars, 0, other.len());
    assert(head@ == chars@.take(with@.len() as int));
    same_chars(head, other.as_slice())
}

pub fn is_text(chars: &[char], text: &str) -> (r: bool)
    ensures
        r == (chars@ == text@),
{
    let other: Vec<char> = chars_of(text);
    same_chars(chars, other.as_slice())
}

/// One text after another.
pub fn join(a: &str, b: &str) -> (r: String)
    ensures
        r@ == a@ + b@,
{
    let mut r: String = owned(a);
    r.append(b);
    r
}

pub fn join3(a: &str, b: &str, c: &str) -> (r: String)
    ensures
        r@ == a@ + b@ + c@,
{
    let mut r: String = join(a, b);
    r.append(c);
    r
}

/// What is left of a text after trimming does not start with white space.
pub proof fn lemma_trimmed_starts_solid(s: Seq<char>)
    ensures
        trimmed(s).len() > 0 ==> !is_space(trimmed(s)[0]),
    decreases s.len(),
{
    if s.len() > 0 && is_space(s[0]) {
        lemma_trimmed_starts_solid(s.skip(1));
    } else if s.len() > 0 && is_space(s.last()) {
        lemma_trimmed_starts_solid(s.drop_last());
    }
}

} // verus!
