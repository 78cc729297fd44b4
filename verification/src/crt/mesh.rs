//! Reader for M3D 2.1 meshes.
//!
//! A mesh is a header, its counts, 16-bit indices, then streams: each a usage, a stride, and one
//! element for every vertex. Numbers are little-endian.
use crate::number::Real32;
use vstd::prelude::*;
use vstd::slice::*;

verus! {

/// Why a mesh is refused.
#[derive(Clone, Copy, PartialEq, Eq, Structural, Debug)]
pub enum MeshError {
    Truncated,
    /// Not M3D 2.1.
    Version,
    Counts,
    /// Indices that are not 16-bit.
    IndexSize,
    /// An index past the vertices.
    Index,
    /// A number that is not finite.
    NotFinite,
    UnsupportedStream(u32),
    /// A stream of the wrong stride, or a second one of its usage.
    Stream,
    MissingStream,
    Trailing,
}

#[derive(Clone, Copy, PartialEq, Eq, Debug)]
pub struct Vertex {
    pub position: [Real32; 3],
    pub normal: [Real32; 3],
    pub color: [Real32; 4],
    pub uv: [Real32; 2],
    pub reflection: Real32,
}

#[derive(Clone, Copy, PartialEq, Eq, Structural, Debug)]
pub struct StreamInfo {
    pub usage: u32,
    pub stride: u32,
}

#[derive(Clone, Debug, PartialEq, Eq)]
pub struct Mesh {
    pub vertices: Vec<Vertex>,
    pub indices: Vec<u16>,
    pub streams: Vec<StreamInfo>,
}

/// The four bytes at `at` as a number.
pub open spec fn word(bytes: Seq<u8>, at: int) -> u32 {
    (bytes[at] + 0x100 * bytes[at + 1] + 0x1_0000 * bytes[at + 2] + 0x100_0000 * bytes[at + 3]) as u32
}

/// The two bytes at `at` as a number.
pub open spec fn half_word(bytes: Seq<u8>, at: int) -> u16 {
    (bytes[at] + 0x100 * bytes[at + 1]) as u16
}

pub open spec fn single(bytes: Seq<u8>, at: int) -> Real32 {
    Real32 { bits: word(bytes, at) }
}

/// What is wrong with the header and the counts, if anything.
pub open spec fn header_fault(bytes: Seq<u8>) -> Option<MeshError> {
    if bytes.len() < 8 {
        Some(MeshError::Truncated)
    } else if bytes.take(6) != seq![0x2eu8, 0x6d, 0x33, 0x64, 2, 1] {
        Some(MeshError::Version)
    } else if bytes.len() < 20 {
        Some(MeshError::Truncated)
    } else if !(4 <= word(bytes, 8) <= 5 && 0 < word(bytes, 12) <= 65536 && word(bytes, 16)
        <= 1_000_000 && word(bytes, 16) % 3 == 0) {
        Some(MeshError::Counts)
    } else if bytes.len() < 25 {
        Some(MeshError::Truncated)
    } else if word(bytes, 21) != 2 {
        Some(MeshError::IndexSize)
    } else {
        None
    }
}

/// What is wrong with the indices from `i` on, if anything.
pub open spec fn index_fault(bytes: Seq<u8>, count: int, vertices: int, i: int) -> Option<MeshError>
    decreases count - i,
{
    if i >= count {
        None
    } else if bytes.len() < 25 + 2 * i + 2 {
        Some(MeshError::Truncated)
    } else if half_word(bytes, 25 + 2 * i) >= vertices {
        Some(MeshError::Index)
    } else {
        index_fault(bytes, count, vertices, i + 1)
    }
}

/// The bytes an element of a stream takes, by the stream's usage.
pub open spec fn stride_of(usage: u32) -> Option<u32> {
    if usage == 0 || usage == 1 {
        Some(12u32)
    } else if usage == 4 || usage == 6 {
        Some(4u32)
    } else if usage == 5 {
        Some(8u32)
    } else {
        None
    }
}

/// What is wrong with a stream's numbers from `j` on, if anything. Colors are any four bytes.
pub open spec fn data_fault(
    bytes: Seq<u8>,
    at: int,
    words: int,
    color: bool,
    j: int,
) -> Option<MeshError>
    decreases words - j,
{
    if j >= words {
        None
    } else if bytes.len() < at + 4 * j + 4 {
        Some(MeshError::Truncated)
    } else if !color && !single(bytes, at + 4 * j).finite() {
        Some(MeshError::NotFinite)
    } else {
        data_fault(bytes, at, words, color, j + 1)
    }
}

/// A stream and where its elements start.
pub struct Placed {
    pub usage: u32,
    pub at: int,
}

/// Where the stream of a usage starts, if there is one.
pub open spec fn place(streams: Seq<Placed>, usage: u32) -> Option<int>
    decreases streams.len(),
{
    if streams.len() == 0 {
        None
    } else if streams.last().usage == usage {
        Some(streams.last().at)
    } else {
        place(streams.drop_last(), usage)
    }
}

/// The streams after those in `done`, `left` of them, from `at` on; and where they end.
pub open spec fn streams_from(
    bytes: Seq<u8>,
    vertices: int,
    done: Seq<Placed>,
    at: int,
    left: nat,
) -> Result<(Seq<Placed>, int), MeshError>
    decreases left,
{
    if left == 0 {
        Ok((done, at))
    } else if bytes.len() < at + 8 {
        Err(MeshError::Truncated)
    } else {
        let usage = word(bytes, at);
        match stride_of(usage) {
            None => Err(MeshError::UnsupportedStream(usage)),
            Some(stride) => if word(bytes, at + 4) != stride || place(done, usage) is Some {
                Err(MeshError::Stream)
            } else if let Some(e) = data_fault(
                bytes,
                at + 8,
                vertices * (stride as int / 4),
                usage == 4,
                0,
            ) {
                Err(e)
            } else {
                streams_from(
                    bytes,
                    vertices,
                    done.push(Placed { usage, at: at + 8 }),
                    at + 8 + vertices * stride,
                    (left - 1) as nat,
                )
            },
        }
    }
}

/// The streams of a mesh, or what is wrong with it.
pub open spec fn streams_of(bytes: Seq<u8>) -> Result<Seq<Placed>, MeshError> {
    if let Some(e) = header_fault(bytes) {
        Err(e)
    } else if let Some(e) = index_fault(
        bytes,
        word(bytes, 16) as int,
        word(bytes, 12) as int,
        0,
    ) {
        Err(e)
    } else {
        match streams_from(
            bytes,
            word(bytes, 12) as int,
            Seq::empty(),
            25 + 2 * word(bytes, 16),
            word(bytes, 8) as nat,
        ) {
            Err(e) => Err(e),
            Ok((streams, end)) => if place(streams, 0) is None || place(streams, 1) is None || place(
                streams,
                4,
            ) is None || place(streams, 5) is None {
                Err(MeshError::MissingStream)
            } else if end != bytes.len() {
                Err(MeshError::Trailing)
            } else {
                Ok(streams)
            },
        }
    }
}

/// Number `k` of element `v` of a stream whose elements have `n` numbers; zero without one.
pub open spec fn element(bytes: Seq<u8>, at: Option<int>, n: int, v: int, k: int) -> Real32 {
    match at {
        Some(at) => single(bytes, at + 4 * (n * v) + 4 * k),
        None => Real32 { bits: 0 },
    }
}

/// A channel of a color, whose bytes are blue, green, red and alpha.
pub open spec fn color_channel(bytes: Seq<u8>, at: Option<int>, v: int, c: int) -> Real32 {
    match at {
        Some(at) => crate::crt::lut::share(
            bytes[at + 4 * v + (if c == 3 {
                3
            } else {
                2 - c
            })],
        ),
        None => Real32 { bits: 0 },
    }
}

/// Whether a vertex is what the streams hold at `v`.
pub open spec fn vertex_is(vertex: Vertex, bytes: Seq<u8>, streams: Seq<Placed>, v: int) -> bool {
    &&& forall|k: int|
        0 <= k < 3 ==> #[trigger] vertex.position@[k] == element(bytes, place(streams, 0), 3, v, k)
    &&& forall|k: int|
        0 <= k < 3 ==> #[trigger] vertex.normal@[k] == element(bytes, place(streams, 1), 3, v, k)
    &&& forall|c: int|
        0 <= c < 4 ==> #[trigger] vertex.color@[c] == color_channel(bytes, place(streams, 4), v, c)
    &&& forall|k: int|
        0 <= k < 2 ==> #[trigger] vertex.uv@[k] == element(bytes, place(streams, 5), 2, v, k)
    &&& vertex.reflection == element(bytes, place(streams, 6), 1, v, 0)
}

fn u32le(bytes: &[u8], at: usize) -> (r: u32)
    requires
        at + 4 <= bytes@.len(),
    ensures
        r == word(bytes@, at as int),
{
    bytes[at] as u32 + 0x100 * bytes[at + 1] as u32 + 0x1_0000 * bytes[at + 2] as u32 + 0x100_0000
        * bytes[at + 3] as u32
}

fn f32le(bytes: &[u8], at: usize) -> (r: Real32)
    requires
        at + 4 <= bytes@.len(),
    ensures
        r == single(bytes@, at as int),
{
    Real32 { bits: u32le(bytes, at) }
}

fn share_of(byte: u8) -> (r: Real32)
    ensures
        r == crate::crt::lut::share(byte),
{
    Real32::from_integer(byte as u64).div(Real32::from_integer(255))
}

/// Finds the first number of a stream that is missing or not finite.
fn check_data(bytes: &[u8], at: usize, words: usize, color: bool) -> (r: Option<MeshError>)
    requires
        at <= bytes@.len(),
        words <= 200_000,
    ensures
        r == data_fault(bytes@, at as int, words as int, color, 0),
        r is None ==> at + 4 * words <= bytes@.len(),
{
    let mut j: usize = 0;
    while j < words
        invariant
            j <= words <= 200_000,
            at + 4 * j <= bytes@.len(),
            data_fault(bytes@, at as int, words as int, color, 0) == data_fault(
                bytes@,
                at as int,
                words as int,
                color,
                j as int,
            ),
        decreases words - j,
    {
        if bytes.len() - at < 4 * j + 4 {
            return Some(MeshError::Truncated);
        }
        if !color && !f32le(bytes, at + 4 * j).is_finite() {
            return Some(MeshError::NotFinite);
        }
        j = j + 1;
    }
    None
}

proof fn lemma_place_push(streams: Seq<Placed>, new: Placed, usage: u32)
    ensures
        place(streams.push(new), usage) == (if new.usage == usage {
            Some(new.at)
        } else {
            place(streams, usage)
        }),
{
    assert(streams.push(new).drop_last() == streams);
}

/// A vertex with one more stream's element read into it.
fn fill(vertex: Vertex, bytes: &[u8], usage: u32, at: usize, v: usize, Ghost(done): Ghost<
    Seq<Placed>,
>) -> (r: Vertex)
    requires
        stride_of(usage) is Some,
        v < 65536,
        at + stride_of(usage)->0 * v + stride_of(usage)->0 <= bytes@.len(),
        place(done, usage) is None,
        vertex_is(vertex, bytes@, done, v as int),
    ensures
        vertex_is(r, bytes@, done.push(Placed { usage, at: at as int }), v as int),
{
    proof {
        let new = Placed { usage, at: at as int };
        lemma_place_push(done, new, 0);
        lemma_place_push(done, new, 1);
        lemma_place_push(done, new, 4);
        lemma_place_push(done, new, 5);
        lemma_place_push(done, new, 6);
    }
    let length: usize = bytes.len();
    let ghost stride = stride_of(usage)->0;
    assert(stride == 12 ==> stride * v == 12 * v);
    assert(stride == 8 ==> stride * v == 8 * v);
    assert(stride == 4 ==> stride * v == 4 * v);
    assert(at + stride * v + stride <= length);
    let mut r: Vertex = vertex;
    if usage == 0 {
        r.position =
        [
            f32le(bytes, at + 12 * v),
            f32le(bytes, at + 12 * v + 4),
            f32le(bytes, at + 12 * v + 8),
        ];
    } else if usage == 1 {
        r.normal =
        [
            f32le(bytes, at + 12 * v),
            f32le(bytes, at + 12 * v + 4),
            f32le(bytes, at + 12 * v + 8),
        ];
    } else if usage == 4 {
        r.color =
        [
            share_of(bytes[at + 4 * v + 2]),
            share_of(bytes[at + 4 * v + 1]),
            share_of(bytes[at + 4 * v]),
            share_of(bytes[at + 4 * v + 3]),
        ];
    } else if usage == 5 {
        r.uv = [f32le(bytes, at + 8 * v), f32le(bytes, at + 8 * v + 4)];
    } else {
        r.reflection = f32le(bytes, at + 4 * v);
    }
    r
}

fn blank_vertex() -> (r: Vertex)
    ensures
        forall|bytes: Seq<u8>, v: int| vertex_is(r, bytes, Seq::empty(), v),
{
    let zero: Real32 = Real32 { bits: 0 };
    Vertex {
        position: [zero, zero, zero],
        normal: [zero, zero, zero],
        color: [zero, zero, zero, zero],
        uv: [zero, zero],
        reflection: zero,
    }
}

fn check_header(bytes: &[u8]) -> (r: Option<MeshError>)
    ensures
        r == header_fault(bytes@),
{
    if bytes.len() < 8 {
        return Some(MeshError::Truncated);
    }
    let magic: bool = bytes[0] == 0x2e && bytes[1] == 0x6d && bytes[2] == 0x33 && bytes[3] == 0x64
        && bytes[4] == 2 && bytes[5] == 1;
    proof {
        let expected = seq![0x2eu8, 0x6d, 0x33, 0x64, 2, 1];
        let head = bytes@.take(6);
        if magic {
            assert(head =~= expected);
        } else if head == expected {
            assert(head[0] == expected[0] && head[1] == expected[1] && head[2] == expected[2]
                && head[3] == expected[3] && head[4] == expected[4] && head[5] == expected[5]);
        }
    }
    if !magic {
        return Some(MeshError::Version);
    }
    if bytes.len() < 20 {
        return Some(MeshError::Truncated);
    }
    let count: u32 = u32le(bytes, 8);
    let nv: u32 = u32le(bytes, 12);
    let ni: u32 = u32le(bytes, 16);
    if !(4 <= count && count <= 5 && nv > 0 && nv <= 65536 && ni <= 1_000_000 && ni % 3 == 0) {
        return Some(MeshError::Counts);
    }
    if bytes.len() < 25 {
        return Some(MeshError::Truncated);
    }
    if u32le(bytes, 21) != 2 {
        return Some(MeshError::IndexSize);
    }
    None
}

fn read_indices(bytes: &[u8], count: usize, vertices: u32) -> (r: Result<Vec<u16>, MeshError>)
    requires
        bytes@.len() >= 25,
        count <= 1_000_000,
    ensures
        match index_fault(bytes@, count as int, vertices as int, 0) {
            Some(e) => r == Err::<Vec<u16>, MeshError>(e),
            None => r matches Ok(v) && v@.len() == count && bytes@.len() >= 25 + 2 * count
                && forall|i: int|
                0 <= i < count ==> #[trigger] v@[i] == half_word(bytes@, 25 + 2 * i) && v@[i]
                    < vertices,
        },
{
    let mut r: Vec<u16> = Vec::new();
    let mut i: usize = 0;
    while i < count
        invariant
            i <= count <= 1_000_000,
            r@.len() == i,
            bytes@.len() >= 25 + 2 * i,
            index_fault(bytes@, count as int, vertices as int, 0) == index_fault(
                bytes@,
                count as int,
                vertices as int,
                i as int,
            ),
            forall|k: int|
                0 <= k < i ==> #[trigger] r@[k] == half_word(bytes@, 25 + 2 * k) && r@[k]
                    < vertices,
        decreases count - i,
    {
        if bytes.len() < 25 + 2 * i + 2 {
            return Err(MeshError::Truncated);
        }
        let index: u16 = bytes[25 + 2 * i] as u16 + 0x100 * bytes[25 + 2 * i + 1] as u16;
        if index as u32 >= vertices {
            return Err(MeshError::Index);
        }
        r.push(index);
        i = i + 1;
    }
    Ok(r)
}

/// Whether streams are those placed.
pub open spec fn listed(streams: Seq<StreamInfo>, placed: Seq<Placed>) -> bool {
    &&& streams.len() == placed.len()
    &&& forall|i: int|
        0 <= i < streams.len() ==> (#[trigger] streams[i]).usage == placed[i].usage && Some(
            streams[i].stride,
        ) == stride_of(placed[i].usage)
}

impl Mesh {
    /// Whether a mesh is what bytes hold, with its streams placed so.
    pub open spec fn is_of(self, bytes: Seq<u8>, placed: Seq<Placed>) -> bool {
        &&& self.indices@.len() == word(bytes, 16)
        &&& forall|i: int|
            0 <= i < self.indices@.len() ==> #[trigger] self.indices@[i] == half_word(
                bytes,
                25 + 2 * i,
            )
        &&& self.vertices@.len() == word(bytes, 12)
        &&& forall|v: int|
            0 <= v < self.vertices@.len() ==> vertex_is(
                #[trigger] self.vertices@[v],
                bytes,
                placed,
                v,
            )
        &&& listed(self.streams@, placed)
    }

    /// Whether every index is one of the vertices, and the indices are triangles.
    pub open spec fn wf(self) -> bool {
        &&& self.indices@.len() % 3 == 0
        &&& forall|i: int|
            0 <= i < self.indices@.len() ==> #[trigger] self.indices@[i] < self.vertices@.len()
    }

    /// Reads a mesh.
    #[verifier::loop_isolation(false)]
    pub fn read(bytes: &[u8]) -> (r: Result<Mesh, MeshError>)
        ensures
            match streams_of(bytes@) {
                Err(e) => r == Err::<Mesh, MeshError>(e),
                Ok(placed) => r matches Ok(mesh) && mesh.is_of(bytes@, placed) && mesh.wf(),
            },
    {
        match check_header(bytes) {
            Some(e) => {
                return Err(e);
            },
            None => {},
        }
        let count: u32 = u32le(bytes, 8);
        let nv: u32 = u32le(bytes, 12);
        let ni: u32 = u32le(bytes, 16);
        let indices: Vec<u16> = match read_indices(bytes, ni as usize, nv) {
            Err(e) => {
                return Err(e);
            },
            Ok(v) => v,
        };
        let mut vertices: Vec<Vertex> = Vec::new();
        let ghost mut placed: Seq<Placed> = Seq::empty();
        while vertices.len() < nv as usize
            invariant
                vertices@.len() <= nv,
                forall|v: int|
                    0 <= v < vertices@.len() ==> vertex_is(
                        #[trigger] vertices@[v],
                        bytes@,
                        placed,
                        v,
                    ),
            decreases nv - vertices@.len(),
        {
            vertices.push(blank_vertex());
        }
        let mut streams: Vec<StreamInfo> = Vec::new();
        let mut at: usize = 25 + 2 * ni as usize;
        let mut left: u32 = count;
        while left > 0
            invariant
                left <= count,
                at <= bytes@.len(),
                vertices@.len() == nv,
                listed(streams@, placed),
                streams_from(
                    bytes@,
                    nv as int,
                    Seq::empty(),
                    25 + 2 * ni,
                    count as nat,
                ) == streams_from(bytes@, nv as int, placed, at as int, left as nat),
                forall|v: int|
                    0 <= v < vertices@.len() ==> vertex_is(
                        #[trigger] vertices@[v],
                        bytes@,
                        placed,
                        v,
                    ),
            decreases left,
        {
            if bytes.len() - at < 8 {
                return Err(MeshError::Truncated);
            }
            let usage: u32 = u32le(bytes, at);
            let stride: u32 = u32le(bytes, at + 4);
            let expected: u32 = if usage == 0 || usage == 1 {
                12
            } else if usage == 4 || usage == 6 {
                4
            } else if usage == 5 {
                8
            } else {
                return Err(MeshError::UnsupportedStream(usage));
            };
            if stride != expected || has_stream(&streams, usage, Ghost(placed)) {
                return Err(MeshError::Stream);
            }
            assert(nv * (expected as int / 4) <= 65536 * 3) by (nonlinear_arith)
                requires
                    nv <= 65536,
                    expected == 4 || expected == 8 || expected == 12,
            ;
            let words: usize = nv as usize * (expected as usize / 4);
            let base: usize = at + 8;
            match check_data(bytes, base, words, usage == 4) {
                Some(e) => {
                    return Err(e);
                },
                None => {},
            }
            let ghost next = placed.push(Placed { usage, at: base as int });
            assert(nv * expected == 4 * (nv * (expected as int / 4))) by (nonlinear_arith)
                requires
                    expected == 4 || expected == 8 || expected == 12,
            ;
            let mut v: usize = 0;
            while v < nv as usize
                invariant
                    v <= nv,
                    vertices@.len() == nv,
                    forall|w: int|
                        0 <= w < v ==> vertex_is(#[trigger] vertices@[w], bytes@, next, w),
                    forall|w: int|
                        v <= w < nv ==> vertex_is(#[trigger] vertices@[w], bytes@, placed, w),
                decreases nv - v,
            {
                let before: Vertex = vertices[v];
                assert(expected * v + expected <= nv * expected) by (nonlinear_arith)
                    requires
                        v < nv,
                        expected > 0,
                ;
                let filled: Vertex = fill(before, bytes, usage, base, v, Ghost(placed));
                vertices.set(v, filled);
                v = v + 1;
            }
            streams.push(StreamInfo { usage, stride });
            proof {
                placed = next;
            }
            at = base + nv as usize * expected as usize;
            left = left - 1;
        }
        if !(has_stream(&streams, 0, Ghost(placed)) && has_stream(&streams, 1, Ghost(placed))
            && has_stream(&streams, 4, Ghost(placed)) && has_stream(&streams, 5, Ghost(placed))) {
            return Err(MeshError::MissingStream);
        }
        if at != bytes.len() {
            return Err(MeshError::Trailing);
        }
        Ok(Mesh { vertices, indices, streams })
    }
}

/// Whether a stream of a usage has been read.
fn has_stream(streams: &Vec<StreamInfo>, usage: u32, Ghost(placed): Ghost<Seq<Placed>>) -> (r: bool)
    requires
        listed(streams@, placed),
    ensures
        r == (place(placed, usage) is Some),
{
    let mut i: usize = streams.len();
    proof {
        assert(placed.take(placed.len() as int) == placed);
    }
    while i > 0
        invariant
            i <= streams@.len(),
            listed(streams@, placed),
            place(placed, usage) is Some == (place(placed.take(i as int), usage) is Some),
        decreases i,
    {
        proof {
            let head = placed.take(i as int);
            assert(head.last() == placed[i - 1]);
            assert(head.drop_last() == placed.take(i - 1));
        }
        if streams[i - 1].usage == usage {
            return true;
        }
        i = i - 1;
    }
    false
}

// -------------------------------------------------------------------------------------------
// Laws
// -------------------------------------------------------------------------------------------

proof fn lemma_index_fault_of_prefix(a: Seq<u8>, b: Seq<u8>, count: int, vertices: int, i: int)
    requires
        a.is_prefix_of(b),
        0 <= i,
        index_fault(a, count, vertices, i) is None,
    ensures
        index_fault(b, count, vertices, i) is None,
    decreases count - i,
{
    if i < count {
        assert(forall|k: int| 0 <= k < a.len() ==> #[trigger] a[k] == b[k]);
        lemma_index_fault_of_prefix(a, b, count, vertices, i + 1);
    }
}

proof fn lemma_data_fault_of_prefix(
    a: Seq<u8>,
    b: Seq<u8>,
    at: int,
    words: int,
    color: bool,
    j: int,
)
    requires
        a.is_prefix_of(b),
        0 <= at,
        0 <= j,
        data_fault(a, at, words, color, j) is None,
    ensures
        data_fault(b, at, words, color, j) is None,
    decreases words - j,
{
    if j < words {
        assert(forall|k: int| 0 <= k < a.len() ==> #[trigger] a[k] == b[k]);
        lemma_data_fault_of_prefix(a, b, at, words, color, j + 1);
    }
}

proof fn lemma_streams_of_prefix(
    a: Seq<u8>,
    b: Seq<u8>,
    vertices: int,
    done: Seq<Placed>,
    at: int,
    left: nat,
)
    requires
        a.is_prefix_of(b),
        0 <= at,
        0 <= vertices,
        streams_from(a, vertices, done, at, left) is Ok,
    ensures
        streams_from(b, vertices, done, at, left) == streams_from(a, vertices, done, at, left),
    decreases left,
{
    if left > 0 {
        assert(forall|k: int| 0 <= k < a.len() ==> #[trigger] a[k] == b[k]);
        let usage = word(a, at);
        assert(usage == word(b, at));
        assert(word(a, at + 4) == word(b, at + 4));
        let stride = stride_of(usage)->0;
        lemma_data_fault_of_prefix(
            a,
            b,
            at + 8,
            vertices * (stride as int / 4),
            usage == 4,
            0,
        );
        assert(vertices * stride >= 0) by (nonlinear_arith)
            requires
                vertices >= 0,
                stride >= 0,
        ;
        lemma_streams_of_prefix(
            a,
            b,
            vertices,
            done.push(Placed { usage, at: at + 8 }),
            at + 8 + vertices * stride,
            (left - 1) as nat,
        );
    }
}

/// No mesh goes on after its end: what starts as a mesh and is longer is none. So no part of a
/// mesh from its start is a mesh itself.
pub proof fn a_mesh_is_no_start_of_another(a: Seq<u8>, b: Seq<u8>)
    requires
        a.is_prefix_of(b),
        a.len() < b.len(),
        streams_of(a) is Ok,
    ensures
        streams_of(b) == Err::<Seq<Placed>, MeshError>(MeshError::Trailing),
{
    assert(forall|k: int| 0 <= k < a.len() ==> #[trigger] a[k] == b[k]);
    assert(a.take(6) =~= b.take(6));
    assert(word(a, 8) == word(b, 8) && word(a, 12) == word(b, 12) && word(a, 16) == word(b, 16)
        && word(a, 21) == word(b, 21));
    lemma_index_fault_of_prefix(a, b, word(a, 16) as int, word(a, 12) as int, 0);
    lemma_streams_of_prefix(
        a,
        b,
        word(a, 12) as int,
        Seq::empty(),
        25 + 2 * word(a, 16),
        word(a, 8) as nat,
    );
}

} // verus!
