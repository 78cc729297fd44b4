//! Settings inside PNG files: a text chunk that keeps them with the picture they made.
use crate::crt::picture::Picture;
use image::ImageEncoder;
use vstd::prelude::*;
use vstd::slice::*;

verus! {

/// The most bytes of settings a PNG, or a preset file, may hold.
pub const PRESET_LIMIT: usize = 1_048_576;

/// The keyword of the chunk that holds settings: CRTSim-Renderer-Preset.
pub open spec fn preset_keyword() -> Seq<u8> {
    seq![
        67u8, 82, 84, 83, 105, 109, 45, 82, 101, 110, 100, 101, 114, 101, 114, 45, 80, 114, 101,
        115, 101, 116,
    ]
}

fn keyword() -> (r: [u8; 22])
    ensures
        r@ == preset_keyword(),
{
    let r: [u8; 22] = [
        67, 82, 84, 83, 105, 109, 45, 82, 101, 110, 100, 101, 114, 101, 114, 45, 80, 114, 101, 115,
        101, 116,
    ];
    assert(r@ =~= preset_keyword());
    r
}

// -------------------------------------------------------------------------------------------
// Checksums
// -------------------------------------------------------------------------------------------

/// One bit of a CRC-32 as PNG has it: the polynomial's bits are taken in reverse.
pub open spec fn crc_bit(crc: u32) -> u32 {
    if crc & 1 != 0 {
        (crc >> 1) ^ 0xedb8_8320
    } else {
        crc >> 1
    }
}

pub open spec fn crc_bits(crc: u32, n: nat) -> u32
    decreases n,
{
    if n == 0 {
        crc
    } else {
        crc_bit(crc_bits(crc, (n - 1) as nat))
    }
}

/// The state after bytes.
pub open spec fn crc_state(bytes: Seq<u8>) -> u32
    decreases bytes.len(),
{
    if bytes.len() == 0 {
        0xffff_ffff
    } else {
        crc_bits(crc_state(bytes.drop_last()) ^ (bytes.last() as u32), 8)
    }
}

pub open spec fn crc_of(bytes: Seq<u8>) -> u32 {
    !crc_state(bytes)
}

/// A CRC-32, as zip and PNG have it.
pub fn crc32(bytes: &[u8]) -> (r: u32)
    ensures
        r == crc_of(bytes@),
{
    let mut crc: u32 = 0xffff_ffff;
    let mut i: usize = 0;
    while i < bytes.len()
        invariant
            i <= bytes@.len(),
            crc == crc_state(bytes@.take(i as int)),
        decreases bytes@.len() - i,
    {
        crc = crc ^ (bytes[i] as u32);
        let ghost start = crc;
        let mut n: u32 = 0;
        while n < 8
            invariant
                n <= 8,
                crc == crc_bits(start, n as nat),
            decreases 8 - n,
        {
            crc =
            if crc & 1 != 0 {
                (crc >> 1) ^ 0xedb8_8320
            } else {
                crc >> 1
            };
            n = n + 1;
        }
        proof {
            assert(bytes@.take(i + 1).drop_last() == bytes@.take(i as int));
        }
        i = i + 1;
    }
    assert(bytes@.take(i as int) == bytes@);
    !crc
}

// -------------------------------------------------------------------------------------------
// Chunks
// -------------------------------------------------------------------------------------------

/// A number as four bytes, the highest first.
pub open spec fn big_endian(n: u32) -> Seq<u8> {
    seq![
        (n / 0x100_0000) as u8,
        (n / 0x1_0000 % 0x100) as u8,
        (n / 0x100 % 0x100) as u8,
        (n % 0x100) as u8,
    ]
}

/// The number that four bytes from `at` on are.
pub open spec fn from_big_endian(bytes: Seq<u8>, at: int) -> int {
    0x100_0000 * bytes[at] + 0x1_0000 * bytes[at + 1] + 0x100 * bytes[at + 2] + bytes[at + 3]
}

pub open spec fn png_signature() -> Seq<u8> {
    seq![0x89u8, 0x50, 0x4e, 0x47, 0x0d, 0x0a, 0x1a, 0x0a]
}

/// The kind of a text chunk: tEXt.
pub open spec fn text_kind() -> Seq<u8> {
    seq![0x74u8, 0x45, 0x58, 0x74]
}

pub open spec fn is_png(bytes: Seq<u8>) -> bool {
    bytes.len() >= 8 && bytes.take(8) == png_signature()
}

/// A whole text chunk: its length, its kind, the keyword and the text with a zero between, and
/// the checksum of all but the length.
pub open spec fn text_chunk(keyword: Seq<u8>, text: Seq<u8>) -> Seq<u8> {
    let data = keyword.push(0) + text;
    big_endian((data.len() % 0x1_0000_0000) as u32) + text_kind() + data + big_endian(
        crc_of(text_kind() + data),
    )
}

/// Why a text chunk cannot be added.
#[derive(Clone, Copy, Debug, PartialEq, Eq, Structural)]
pub enum ChunkError {
    /// A keyword over 79 bytes, or with a zero.
    Keyword,
    /// A text with a zero.
    Nul,
    /// Not a PNG.
    Png,
}

impl ChunkError {
    pub fn message(self) -> (r: &'static str)
        ensures
            r@ == (match self {
                ChunkError::Keyword => "Invalid PNG metadata keyword"@,
                ChunkError::Nul => "Preset metadata contains an unsupported NUL byte"@,
                ChunkError::Png => "Invalid PNG output"@,
            }),
    {
        match self {
            Self::Keyword => "Invalid PNG metadata keyword",
            Self::Nul => "Preset metadata contains an unsupported NUL byte",
            Self::Png => "Invalid PNG output",
        }
    }
}

pub open spec fn chunk_fault(bytes: Seq<u8>, keyword: Seq<u8>, text: Seq<u8>) -> Option<ChunkError> {
    if keyword.len() > 79 || keyword.contains(0) {
        Some(ChunkError::Keyword)
    } else if text.contains(0) {
        Some(ChunkError::Nul)
    } else if !is_png(bytes) || bytes.len() < 12 {
        Some(ChunkError::Png)
    } else {
        None
    }
}

/// A PNG with a text chunk before its last chunk, which is always the empty one that ends it.
pub open spec fn with_text(bytes: Seq<u8>, keyword: Seq<u8>, text: Seq<u8>) -> Seq<u8> {
    bytes.take(bytes.len() - 12) + text_chunk(keyword, text) + bytes.skip(bytes.len() - 12)
}

fn find_zero(bytes: &[u8], from: usize, to: usize) -> (r: usize)
    requires
        from <= to <= bytes@.len(),
    ensures
        r == first_zero(bytes@, from as int, to as int),
        from <= r <= to,
{
    let mut i: usize = from;
    while i < to && bytes[i] != 0
        invariant
            from <= i <= to <= bytes@.len(),
            first_zero(bytes@, from as int, to as int) == first_zero(bytes@, i as int, to as int),
        decreases to - i,
    {
        i = i + 1;
    }
    i
}

/// Where the first zero from `from` on is, or `to`.
pub open spec fn first_zero(bytes: Seq<u8>, from: int, to: int) -> int
    decreases to - from,
{
    if from >= to {
        to
    } else if bytes[from] == 0 {
        from
    } else {
        first_zero(bytes, from + 1, to)
    }
}

proof fn lemma_first_zero(bytes: Seq<u8>, from: int, to: int)
    requires
        0 <= from <= to <= bytes.len(),
    ensures
        from <= first_zero(bytes, from, to) <= to,
        first_zero(bytes, from, to) < to ==> bytes[first_zero(bytes, from, to)] == 0,
        forall|i: int| from <= i < first_zero(bytes, from, to) ==> #[trigger] bytes[i] != 0,
    decreases to - from,
{
    if from < to && bytes[from] != 0 {
        lemma_first_zero(bytes, from + 1, to);
    }
}

fn has_zero(bytes: &[u8]) -> (r: bool)
    ensures
        r == bytes@.contains(0),
{
    let at: usize = find_zero(bytes, 0, bytes.len());
    proof {
        lemma_first_zero(bytes@, 0, bytes@.len() as int);
        if at < bytes@.len() {
            assert(bytes@[at as int] == 0);
        }
    }
    at < bytes.len()
}

fn push_all(to: &mut Vec<u8>, bytes: &[u8])
    ensures
        final(to)@ == old(to)@ + bytes@,
{
    let mut i: usize = 0;
    while i < bytes.len()
        invariant
            i <= bytes@.len(),
            to@ == old(to)@ + bytes@.take(i as int),
        decreases bytes@.len() - i,
    {
        to.push(bytes[i]);
        assert(bytes@.take(i + 1) == bytes@.take(i as int).push(bytes@[i as int]));
        i = i + 1;
    }
    assert(bytes@.take(i as int) == bytes@);
}

fn push_number(to: &mut Vec<u8>, n: u32)
    ensures
        final(to)@ == old(to)@ + big_endian(n),
{
    to.push((n / 0x100_0000) as u8);
    to.push((n / 0x1_0000 % 0x100) as u8);
    to.push((n / 0x100 % 0x100) as u8);
    to.push((n % 0x100) as u8);
    assert(to@ =~= old(to)@ + big_endian(n));
}

fn starts_as_png(bytes: &[u8]) -> (r: bool)
    ensures
        r == is_png(bytes@),
{
    if bytes.len() < 8 {
        return false;
    }
    let r: bool = bytes[0] == 0x89 && bytes[1] == 0x50 && bytes[2] == 0x4e && bytes[3] == 0x47
        && bytes[4] == 0x0d && bytes[5] == 0x0a && bytes[6] == 0x1a && bytes[7] == 0x0a;
    proof {
        let head = bytes@.take(8);
        if r {
            assert(head =~= png_signature());
        } else if head == png_signature() {
            assert(forall|i: int| 0 <= i < 8 ==> head[i] == #[trigger] bytes@[i]);
            assert(head[0] == 0x89 && head[1] == 0x50 && head[2] == 0x4e && head[3] == 0x47
                && head[4] == 0x0d && head[5] == 0x0a && head[6] == 0x1a && head[7] == 0x0a);
        }
    }
    r
}

/// Adds a text chunk to a PNG.
pub fn add_text_chunk(bytes: &mut Vec<u8>, keyword: &[u8], text: &[u8]) -> (r: Result<
    (),
    ChunkError,
>)
    ensures
        match chunk_fault(old(bytes)@, keyword@, text@) {
            Some(e) => r == Err::<(), ChunkError>(e) && final(bytes)@ == old(bytes)@,
            None => r is Ok && final(bytes)@ == with_text(old(bytes)@, keyword@, text@),
        },
{
    if keyword.len() > 79 || has_zero(keyword) {
        return Err(ChunkError::Keyword);
    }
    if has_zero(text) {
        return Err(ChunkError::Nul);
    }
    if !starts_as_png(bytes.as_slice()) || bytes.len() < 12 {
        return Err(ChunkError::Png);
    }
    let mut data: Vec<u8> = Vec::new();
    push_all(&mut data, keyword);
    data.push(0);
    push_all(&mut data, text);
    let ghost content = keyword@.push(0) + text@;
    assert(data@ == content);
    let mut summed: Vec<u8> = Vec::new();
    push_all(&mut summed, &[0x74, 0x45, 0x58, 0x74]);
    assert(summed@ =~= text_kind());
    push_all(&mut summed, data.as_slice());
    let crc: u32 = crc32(summed.as_slice());
    let at: usize = bytes.len() - 12;
    let mut result: Vec<u8> = Vec::new();
    push_all(&mut result, slice_subrange(bytes.as_slice(), 0, at));
    push_number(&mut result, (data.len() as u64 % 0x1_0000_0000) as u32);
    push_all(&mut result, summed.as_slice());
    push_number(&mut result, crc);
    push_all(&mut result, slice_subrange(bytes.as_slice(), at, bytes.len()));
    proof {
        let whole = bytes@;
        assert(whole.subrange(0, at as int) == whole.take(at as int));
        assert(whole.subrange(at as int, whole.len() as int) == whole.skip(at as int));
        assert(result@ =~= with_text(whole, keyword@, text@));
    }
    *bytes = result;
    Ok(())
}

/// The text of the first text chunk, from `offset` on, with a keyword.
pub open spec fn text_from(bytes: Seq<u8>, keyword: Seq<u8>, offset: int) -> Option<Seq<u8>>
    decreases bytes.len() - offset,
{
    if offset < 0 || offset + 12 > bytes.len() {
        None
    } else {
        let start = offset + 8;
        let end = start + from_big_endian(bytes, offset);
        if end < start || end + 4 > bytes.len() {
            None
        } else {
            let zero = first_zero(bytes, start, end);
            if bytes.subrange(offset + 4, start) == text_kind() && zero < end && bytes.subrange(
                start,
                zero,
            ) == keyword {
                Some(bytes.subrange(zero + 1, end))
            } else {
                text_from(bytes, keyword, end + 4)
            }
        }
    }
}

/// The text a PNG holds under a keyword.
pub open spec fn text_in(bytes: Seq<u8>, keyword: Seq<u8>) -> Option<Seq<u8>> {
    if is_png(bytes) {
        text_from(bytes, keyword, 8)
    } else {
        None
    }
}

fn same(a: &[u8], b: &[u8]) -> (r: bool)
    ensures
        r == (a@ == b@),
{
    crate::crt::picture::same_bytes(a, b)
}

/// Finds the text a PNG holds under a keyword.
pub fn find_text_chunk<'a>(bytes: &'a [u8], keyword: &[u8]) -> (r: Option<&'a [u8]>)
    ensures
        match r {
            Some(text) => text_in(bytes@, keyword@) == Some(text@),
            None => text_in(bytes@, keyword@) is None,
        },
{
    if !starts_as_png(bytes) {
        return None;
    }
    let total: usize = bytes.len();
    let mut offset: usize = 8;
    while offset <= total && total - offset >= 12
        invariant
            total == bytes@.len(),
            8 <= offset <= total,
            text_in(bytes@, keyword@) == text_from(bytes@, keyword@, offset as int),
        decreases total - offset,
    {
        let length: u64 = 0x100_0000 * bytes[offset] as u64 + 0x1_0000 * bytes[offset + 1] as u64
            + 0x100 * bytes[offset + 2] as u64 + bytes[offset + 3] as u64;
        let start: usize = offset + 8;
        if length > (total - start - 4) as u64 {
            return None;
        }
        let end: usize = start + length as usize;
        let kind: &[u8] = slice_subrange(bytes, offset + 4, start);
        let text: bool = kind[0] == 0x74 && kind[1] == 0x45 && kind[2] == 0x58 && kind[3] == 0x74;
        proof {
            if text {
                assert(kind@ =~= text_kind());
            } else if kind@ == text_kind() {
                assert(kind@[0] == 0x74 && kind@[1] == 0x45 && kind@[2] == 0x58 && kind@[3] == 0x74);
            }
        }
        if text {
            let zero: usize = find_zero(bytes, start, end);
            if zero < end && same(slice_subrange(bytes, start, zero), keyword) {
                return Some(slice_subrange(bytes, zero + 1, end));
            }
        }
        offset = end + 4;
    }
    None
}

// -------------------------------------------------------------------------------------------
// Reading back
// -------------------------------------------------------------------------------------------

/// Whether chunks from `offset` on end at `end`, and none of them is a text under a keyword.
pub open spec fn chunks_to(bytes: Seq<u8>, keyword: Seq<u8>, offset: int, end: int) -> bool
    decreases end - offset,
{
    if offset >= end {
        offset == end
    } else {
        let start = offset + 8;
        let stop = start + from_big_endian(bytes, offset);
        let zero = first_zero(bytes, start, stop);
        &&& 0 <= offset
        &&& start <= stop
        &&& stop + 4 <= end
        &&& !(bytes.subrange(offset + 4, start) == text_kind() && zero < stop && bytes.subrange(
            start,
            zero,
        ) == keyword)
        &&& chunks_to(bytes, keyword, stop + 4, end)
    }
}

proof fn lemma_big_endian_reads_back(n: u32)
    ensures
        big_endian(n).len() == 4,
        from_big_endian(big_endian(n), 0) == n,
{
    let a = n / 0x100_0000;
    let b = n / 0x1_0000 % 0x100;
    let c = n / 0x100 % 0x100;
    let d = n % 0x100;
    assert(n == 0x100_0000 * a + 0x1_0000 * b + 0x100 * c + d && a < 0x100) by (nonlinear_arith)
        requires
            a == n / 0x100_0000,
            b == n / 0x1_0000 % 0x100,
            c == n / 0x100 % 0x100,
            d == n % 0x100,
            0 <= n < 0x1_0000_0000,
    ;
}

proof fn lemma_zero_agrees(a: Seq<u8>, b: Seq<u8>, from: int, to: int)
    requires
        forall|i: int| from <= i < to ==> #[trigger] a[i] == b[i],
    ensures
        first_zero(a, from, to) == first_zero(b, from, to),
    decreases to - from,
{
    if from < to {
        assert(a[from] == b[from]);
        if a[from] != 0 {
            lemma_zero_agrees(a, b, from + 1, to);
        }
    }
}

/// Past chunks that hold nothing under the keyword, what is found is what follows them.
proof fn lemma_skip_chunks(
    bytes: Seq<u8>,
    longer: Seq<u8>,
    keyword: Seq<u8>,
    offset: int,
    end: int,
)
    requires
        0 <= offset <= end,
        end + 12 <= bytes.len(),
        end + 12 <= longer.len(),
        longer.take(end) == bytes.take(end),
        chunks_to(bytes, keyword, offset, end),
    ensures
        text_from(longer, keyword, offset) == text_from(longer, keyword, end),
    decreases end - offset,
{
    if offset < end {
        let start = offset + 8;
        let stop = start + from_big_endian(bytes, offset);
        assert(forall|i: int| 0 <= i < end ==> #[trigger] longer[i] == longer.take(end)[i]);
        assert(forall|i: int| 0 <= i < end ==> #[trigger] bytes[i] == bytes.take(end)[i]);
        assert forall|i: int| 0 <= i < end implies #[trigger] longer[i] == bytes[i] by {
            assert(longer.take(end)[i] == bytes.take(end)[i]);
        }
        assert(from_big_endian(longer, offset) == from_big_endian(bytes, offset));
        lemma_zero_agrees(longer, bytes, start, stop);
        let zero = first_zero(bytes, start, stop);
        lemma_first_zero(bytes, start, stop);
        assert(longer.subrange(offset + 4, start) == bytes.subrange(offset + 4, start));
        assert(longer.subrange(start, zero) == bytes.subrange(start, zero));
        lemma_skip_chunks(bytes, longer, keyword, stop + 4, end);
    }
}

/// What the text chunk that is added looks like where it stands: its keyword and its text.
#[verifier::spinoff_prover]
#[verifier::rlimit(40)]
proof fn lemma_added_chunk(bytes: Seq<u8>, keyword: Seq<u8>, text: Seq<u8>)
    requires
        chunk_fault(bytes, keyword, text) is None,
        keyword.len() + 1 + text.len() < 0x1_0000_0000,
    ensures
        ({
            let longer = with_text(bytes, keyword, text);
            let end = bytes.len() - 12;
            let start = end + 8;
            let stop = start + keyword.len() + 1 + text.len();
            let zero = first_zero(longer, start, stop);
            &&& longer.len() == stop + 4 + 12
            &&& longer.take(end) == bytes.take(end)
            &&& from_big_endian(longer, end) == stop - start
            &&& longer.subrange(end + 4, start) == text_kind()
            &&& zero == start + keyword.len()
            &&& longer.subrange(start, zero) == keyword
            &&& longer.subrange(zero + 1, stop) == text
            &&& longer.skip(stop + 4) == bytes.skip(end)
        }),
{
    let end = bytes.len() - 12;
    let longer = with_text(bytes, keyword, text);
    let chunk = text_chunk(keyword, text);
    let data = keyword.push(0) + text;
    assert(longer.take(end) =~= bytes.take(end));
    lemma_big_endian_reads_back(data.len() as u32);
    let start = end + 8;
    let stop = start + data.len();
    assert(longer.skip(stop + 4) =~= bytes.skip(end));
    assert forall|i: int| 0 <= i < chunk.len() implies #[trigger] longer[end + i] == chunk[i] by {}
    assert forall|i: int| 0 <= i < 4 implies #[trigger] chunk[i] == big_endian(
        data.len() as u32,
    )[i] by {}
    assert(longer[end + 0] == chunk[0] && longer[end + 1] == chunk[1] && longer[end + 2] == chunk[2]
        && longer[end + 3] == chunk[3]);
    assert(from_big_endian(longer, end) == data.len());
    assert(longer.subrange(end + 4, start) =~= text_kind()) by {
        assert forall|i: int| 0 <= i < 4 implies longer[end + 4 + i] == text_kind()[i] by {
            assert(longer[end + (4 + i)] == chunk[4 + i]);
        }
    }
    assert forall|i: int| 0 <= i < data.len() implies #[trigger] longer[start + i] == data[i] by {
        assert(longer[end + (8 + i)] == chunk[8 + i]);
    }
    lemma_first_zero(longer, start, stop);
    let zero = first_zero(longer, start, stop);
    assert(longer[start + keyword.len()] == data[keyword.len() as int]);
    assert(zero <= start + keyword.len());
    if zero < start + keyword.len() {
        assert(longer[start + (zero - start)] == data[zero - start]);
        assert(keyword[zero - start] == 0);
        assert(keyword.contains(0));
    }
    assert(longer.subrange(start, zero) =~= keyword) by {
        assert forall|i: int| 0 <= i < keyword.len() implies longer[start + i] == keyword[i] by {
            assert(longer[start + i] == data[i]);
        }
    }
    assert(longer.subrange(zero + 1, stop) =~= text) by {
        assert forall|i: int| 0 <= i < text.len() implies longer[zero + 1 + i] == text[i] by {
            assert(longer[start + (keyword.len() + 1 + i)] == data[keyword.len() + 1 + i]);
        }
    }
}

/// A text is found in the chunk that holds it.
proof fn lemma_text_here(bytes: Seq<u8>, keyword: Seq<u8>, text: Seq<u8>, offset: int, stop: int)
    requires
        0 <= offset,
        offset + 8 <= stop,
        stop + 4 <= bytes.len(),
        from_big_endian(bytes, offset) == stop - offset - 8,
        bytes.subrange(offset + 4, offset + 8) == text_kind(),
        first_zero(bytes, offset + 8, stop) < stop,
        bytes.subrange(offset + 8, first_zero(bytes, offset + 8, stop)) == keyword,
        bytes.subrange(first_zero(bytes, offset + 8, stop) + 1, stop) == text,
    ensures
        text_from(bytes, keyword, offset) == Some(text),
{
}

/// What is saved in a PNG under a keyword that it does not use yet is what is read back. The
/// PNG is any whose chunks run up to the empty one that ends it, and the text any that a chunk
/// can hold.
#[verifier::spinoff_prover]
#[verifier::rlimit(40)]
pub proof fn saved_text_reads_back(bytes: Seq<u8>, keyword: Seq<u8>, text: Seq<u8>)
    requires
        chunk_fault(bytes, keyword, text) is None,
        bytes.len() >= 20,
        chunks_to(bytes, keyword, 8, bytes.len() - 12),
        keyword.len() + 1 + text.len() < 0x1_0000_0000,
    ensures
        text_in(with_text(bytes, keyword, text), keyword) == Some(text),
{
    let end = bytes.len() - 12;
    let longer = with_text(bytes, keyword, text);
    lemma_added_chunk(bytes, keyword, text);
    assert(longer.take(8) =~= longer.take(end).take(8));
    assert(bytes.take(8) =~= bytes.take(end).take(8));
    lemma_skip_chunks(bytes, longer, keyword, 8, end);
    lemma_text_here(longer, keyword, text, end, longer.len() - 16);
}

/// Whether chunks from `offset` on end at `end`.
pub open spec fn framed(bytes: Seq<u8>, offset: int, end: int) -> bool
    decreases end - offset,
{
    if offset >= end {
        offset == end
    } else {
        let stop = offset + 8 + from_big_endian(bytes, offset);
        &&& 0 <= offset
        &&& offset + 8 <= stop
        &&& stop + 4 <= end
        &&& framed(bytes, stop + 4, end)
    }
}

/// Two files with the same chunks up to an end hold the same texts, if what follows does.
proof fn lemma_same_chunks(a: Seq<u8>, b: Seq<u8>, keyword: Seq<u8>, offset: int, end: int)
    requires
        0 <= offset <= end,
        end + 12 <= a.len(),
        end + 12 <= b.len(),
        a.take(end) == b.take(end),
        framed(a, offset, end),
        text_from(a, keyword, end) == text_from(b, keyword, end),
    ensures
        text_from(a, keyword, offset) == text_from(b, keyword, offset),
    decreases end - offset,
{
    if offset < end {
        let start = offset + 8;
        let stop = start + from_big_endian(a, offset);
        assert forall|i: int| 0 <= i < end implies #[trigger] a[i] == b[i] by {
            assert(a[i] == a.take(end)[i] && b[i] == b.take(end)[i]);
        }
        assert(from_big_endian(a, offset) == from_big_endian(b, offset));
        lemma_zero_agrees(a, b, start, stop);
        let zero = first_zero(a, start, stop);
        lemma_first_zero(a, start, stop);
        assert(a.subrange(offset + 4, start) =~= b.subrange(offset + 4, start));
        assert(a.subrange(start, zero) =~= b.subrange(start, zero));
        if zero < stop {
            assert(a.subrange(zero + 1, stop) =~= b.subrange(zero + 1, stop));
        }
        lemma_same_chunks(a, b, keyword, stop + 4, end);
    }
}

/// The last twelve bytes hold no text.
proof fn lemma_no_text_at_the_end(bytes: Seq<u8>, keyword: Seq<u8>)
    requires
        bytes.len() >= 12,
    ensures
        text_from(bytes, keyword, bytes.len() - 12) is None,
{
    let offset = bytes.len() - 12;
    let end = offset + 8 + from_big_endian(bytes, offset);
    if end + 4 <= bytes.len() {
        assert(first_zero(bytes, offset + 8, end) == end);
        assert(text_from(bytes, keyword, end + 4) is None);
    }
}

/// A text under another keyword is looked for past a text chunk.
proof fn lemma_past_text(bytes: Seq<u8>, keyword: Seq<u8>, other: Seq<u8>, offset: int, stop: int)
    requires
        0 <= offset,
        offset + 8 <= stop,
        stop + 4 <= bytes.len(),
        from_big_endian(bytes, offset) == stop - offset - 8,
        bytes.subrange(offset + 8, first_zero(bytes, offset + 8, stop)) == keyword,
        other != keyword,
    ensures
        text_from(bytes, other, offset) == text_from(bytes, other, stop + 4),
{
}

/// A text saved in a PNG leaves the text under every other keyword as it was. The PNG is any
/// whose chunks run up to the empty one that ends it, and the text any that a chunk can hold.
#[verifier::spinoff_prover]
#[verifier::rlimit(40)]
pub proof fn saved_text_leaves_the_others(
    bytes: Seq<u8>,
    keyword: Seq<u8>,
    text: Seq<u8>,
    other: Seq<u8>,
)
    requires
        chunk_fault(bytes, keyword, text) is None,
        bytes.len() >= 20,
        framed(bytes, 8, bytes.len() - 12),
        keyword.len() + 1 + text.len() < 0x1_0000_0000,
        other != keyword,
    ensures
        text_in(with_text(bytes, keyword, text), other) == text_in(bytes, other),
{
    let end = bytes.len() - 12;
    let longer = with_text(bytes, keyword, text);
    lemma_added_chunk(bytes, keyword, text);
    assert(longer.take(8) =~= longer.take(end).take(8));
    assert(bytes.take(8) =~= bytes.take(end).take(8));
    lemma_no_text_at_the_end(bytes, other);
    lemma_no_text_at_the_end(longer, other);
    lemma_past_text(longer, keyword, other, end, longer.len() - 16);
    lemma_same_chunks(bytes, longer, other, 8, end);
}

// -------------------------------------------------------------------------------------------
// Saving and loading
// -------------------------------------------------------------------------------------------

/// Why a picture cannot be saved with its settings, or they be read from it.
#[derive(Clone, Copy, Debug, PartialEq, Eq, Structural)]
pub enum FileError {
    /// A name that does not end in .png.
    Name,
    /// Settings over 1 MB.
    TooLarge,
    /// A picture over 512 MB.
    ImageTooLarge,
    /// No settings in the picture.
    Missing,
    /// A picture that cannot be written as a PNG.
    Encode,
    Chunk(ChunkError),
}

impl FileError {
    pub open spec fn text(self) -> Seq<char> {
        match self {
            FileError::Name => "Export filename must end in .png"@,
            FileError::TooLarge => "Preset metadata exceeds 1 MB"@,
            FileError::ImageTooLarge => "Image file exceeds 512 MB"@,
            FileError::Missing => "This image does not contain a CRTSim-Renderer preset"@,
            FileError::Encode => "Cannot encode the image"@,
            FileError::Chunk(ChunkError::Keyword) => "Invalid PNG metadata keyword"@,
            FileError::Chunk(ChunkError::Nul) =>
            "Preset metadata contains an unsupported NUL byte"@,
            FileError::Chunk(ChunkError::Png) => "Invalid PNG output"@,
        }
    }

    pub fn message(self) -> (r: &'static str)
        ensures
            r@ == self.text(),
    {
        match self {
            Self::Name => "Export filename must end in .png",
            Self::TooLarge => "Preset metadata exceeds 1 MB",
            Self::ImageTooLarge => "Image file exceeds 512 MB",
            Self::Missing => "This image does not contain a CRTSim-Renderer preset",
            Self::Encode => "Cannot encode the image",
            Self::Chunk(e) => e.message(),
        }
    }
}

/// Whether a picture can be saved under a name: it ends in .png.
pub fn check_png_name(path: &str) -> (r: Result<(), FileError>)
    ensures
        r == (if crate::path::extends_with(path@, "png"@) {
            Ok::<(), FileError>(())
        } else {
            Err::<(), FileError>(FileError::Name)
        }),
{
    if crate::path::has_extension(path, "png") {
        Ok(())
    } else {
        Err(FileError::Name)
    }
}

/// Puts settings, as JSON, into an encoded PNG.
pub fn embed_preset(bytes: &mut Vec<u8>, json: &[u8]) -> (r: Result<(), FileError>)
    ensures
        if json@.len() > PRESET_LIMIT {
            r == Err::<(), FileError>(FileError::TooLarge) && final(bytes)@ == old(bytes)@
        } else {
            match chunk_fault(old(bytes)@, preset_keyword(), json@) {
                Some(e) => r == Err::<(), FileError>(FileError::Chunk(e)) && final(bytes)@ == old(
                    bytes,
                )@,
                None => r is Ok && final(bytes)@ == with_text(
                    old(bytes)@,
                    preset_keyword(),
                    json@,
                ),
            }
        },
{
    if json.len() > PRESET_LIMIT {
        return Err(FileError::TooLarge);
    }
    let key: [u8; 22] = keyword();
    match add_text_chunk(bytes, key.as_slice(), json) {
        Ok(()) => Ok(()),
        Err(e) => Err(FileError::Chunk(e)),
    }
}

/// The PNG that `image::codecs::png::PngEncoder` makes of a picture of this size and these pixels,
/// where it makes one.
pub uninterp spec fn png_made(size: (u32, u32), pixels: Seq<u8>) -> Option<Seq<u8>>;

/// Writes a picture with the `write_image` of `image::codecs::png::PngEncoder`, as eight bits of
/// red, green, blue and alpha. What comes back depends on the picture alone. It starts as a PNG
/// does, the chunk that gives its size and those of its pixels follow, no text among them, and the
/// empty chunk that ends it, of twelve bytes, is the last. The encoder panics on a picture whose
/// bytes do not fill its size, and counts the bytes of a row in 32 bits.
#[verifier::external_body]
fn write_png(picture: &Picture) -> (r: Option<Vec<u8>>)
    requires
        writable(*picture),
    ensures
        match (r, png_made((picture.width, picture.height), picture.pixels@)) {
            (Some(bytes), Some(made)) => bytes@ == made,
            (None, None) => true,
            _ => false,
        },
        r matches Some(bytes) ==> is_png(bytes@) && bytes@.len() >= 20 && chunks_to(
            bytes@,
            preset_keyword(),
            8,
            bytes@.len() - 12,
        ),
{
    let mut bytes = Vec::new();
    let (width, height) = (picture.width, picture.height);
    let encoder = image::codecs::png::PngEncoder::new(&mut bytes);
    encoder.write_image(&picture.pixels, width, height, image::ColorType::Rgba8).ok()?;
    Some(bytes)
}

/// Whether a picture can be written: its bytes fill its size, and its rows can be counted.
pub open spec fn writable(picture: Picture) -> bool {
    picture.wf() && picture.width < 0x4000_0000
}

/// What a picture is written as, where it is written.
pub open spec fn png_of(picture: Picture) -> Option<Seq<u8>> {
    if writable(picture) {
        png_made((picture.width, picture.height), picture.pixels@)
    } else {
        None
    }
}

/// Writes a picture as a PNG.
pub fn png(picture: &Picture) -> (r: Result<Vec<u8>, FileError>)
    ensures
        match (r, png_of(*picture)) {
            (Ok(bytes), Some(made)) => bytes@ == made,
            (Err(e), None) => e == FileError::Encode,
            _ => false,
        },
        r matches Ok(bytes) ==> is_png(bytes@) && bytes@.len() >= 20 && chunks_to(
            bytes@,
            preset_keyword(),
            8,
            bytes@.len() - 12,
        ),
{
    if !picture.is_whole() || picture.width >= 0x4000_0000 {
        return Err(FileError::Encode);
    }
    match write_png(picture) {
        Some(bytes) => Ok(bytes),
        None => Err(FileError::Encode),
    }
}

/// What a picture is saved as with its settings: the settings are in it as text.
pub open spec fn is_saved(
    r: Result<Vec<u8>, FileError>,
    made: Option<Seq<u8>>,
    json: Seq<u8>,
) -> bool {
    match made {
        None => r == Err::<Vec<u8>, FileError>(FileError::Encode),
        Some(made) => if json.len() > PRESET_LIMIT {
            r == Err::<Vec<u8>, FileError>(FileError::TooLarge)
        } else if json.contains(0) {
            r == Err::<Vec<u8>, FileError>(FileError::Chunk(ChunkError::Nul))
        } else {
            r matches Ok(bytes) && bytes@ == with_text(made, preset_keyword(), json)
        },
    }
}

/// Writes a picture as a PNG that carries settings, as JSON. What is then read back from it are
/// these settings.
pub fn png_with_preset(picture: &Picture, json: &[u8]) -> (r: Result<Vec<u8>, FileError>)
    ensures
        is_saved(r, png_of(*picture), json@),
        r matches Ok(bytes) ==> text_in(bytes@, preset_keyword()) == Some(json@),
{
    let mut bytes: Vec<u8> = match png(picture) {
        Ok(bytes) => bytes,
        Err(e) => {
            return Err(e);
        },
    };
    let ghost made = bytes@;
    proof {
        assert(!preset_keyword().contains(0)) by {
            assert forall|i: int| 0 <= i < 22 implies preset_keyword()[i] != 0 by {}
        }
    }
    match embed_preset(&mut bytes, json) {
        Ok(()) => {
            proof {
                saved_text_reads_back(made, preset_keyword(), json@);
            }
            Ok(bytes)
        },
        Err(e) => Err(e),
    }
}

/// Finds the settings, as JSON, in a PNG this application produced.
pub fn embedded_preset<'a>(bytes: &'a [u8]) -> (r: Result<&'a [u8], FileError>)
    ensures
        if bytes@.len() > 536_870_912 {
            r == Err::<&'a [u8], FileError>(FileError::ImageTooLarge)
        } else {
            match text_in(bytes@, preset_keyword()) {
                None => r == Err::<&'a [u8], FileError>(FileError::Missing),
                Some(json) => if json.len() > PRESET_LIMIT {
                    r == Err::<&'a [u8], FileError>(FileError::TooLarge)
                } else {
                    r matches Ok(found) && found@ == json
                },
            }
        },
{
    if bytes.len() > 536_870_912 {
        return Err(FileError::ImageTooLarge);
    }
    let key: [u8; 22] = keyword();
    match find_text_chunk(bytes, key.as_slice()) {
        None => Err(FileError::Missing),
        Some(json) => if json.len() > PRESET_LIMIT {
            Err(FileError::TooLarge)
        } else {
            Ok(json)
        },
    }
}

} // verus!
