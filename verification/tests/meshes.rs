use crtsim::crt::mesh::{Mesh, MeshError, StreamInfo};
use crtsim::number::Real32;

/// A mesh of three vertices and one triangle, with the streams asked for.
fn mesh(streams: &[u32]) -> Vec<u8> {
    let mut bytes = b".m3d\x02\x01\xaa\xbb".to_vec();
    let mut words: Vec<u32> = vec![streams.len() as u32, 3, 3];
    for word in words.drain(..) {
        bytes.extend(word.to_le_bytes());
    }
    bytes.push(0);
    bytes.extend(2_u32.to_le_bytes());
    for index in [2_u16, 1, 0] {
        bytes.extend(index.to_le_bytes());
    }
    for &usage in streams {
        let stride: u32 = match usage {
            0 | 1 => 12,
            5 => 8,
            _ => 4,
        };
        bytes.extend(usage.to_le_bytes());
        bytes.extend(stride.to_le_bytes());
        for vertex in 0..3_u32 {
            for i in 0..stride / 4 {
                if usage == 4 {
                    bytes.extend((0x8000_00ff + (vertex << 16)).to_le_bytes());
                } else {
                    bytes.extend(((usage * 100 + vertex * 10 + i) as f32).to_le_bytes());
                }
            }
        }
    }
    bytes
}

fn screen() -> Vec<u8> {
    mesh(&[0, 1, 4, 5, 6])
}

fn values<const N: usize>(row: [Real32; N]) -> [f32; N] {
    row.map(|v| f32::from_bits(v.bits))
}

#[test]
fn malformed_meshes_are_rejected() {
    assert!(Mesh::read(&screen()[..100]).is_err());
    let mut b = screen();
    b[0] = 0;
    assert!(Mesh::read(&b).is_err());
    let mut b = screen();
    b.push(0);
    assert!(Mesh::read(&b).is_err());
}

#[test]
fn a_mesh_keeps_all_attributes() {
    let read = Mesh::read(&screen()).unwrap();
    assert_eq!((read.vertices.len(), read.indices.clone()), (3, vec![2, 1, 0]));
    assert_eq!(read.streams.len(), 5);
    assert_eq!(read.streams[3], StreamInfo { usage: 5, stride: 8 });
    let last = &read.vertices[2];
    assert_eq!(values(last.position), [20., 21., 22.]);
    assert_eq!(values(last.normal), [120., 121., 122.]);
    assert_eq!(values(last.color), [2. / 255., 0., 1., 128. / 255.]);
    assert_eq!(values(last.uv), [520., 521.]);
    assert_eq!(f32::from_bits(last.reflection.bits), 620.);
    let plain = Mesh::read(&mesh(&[5, 4, 1, 0])).unwrap();
    assert_eq!(f32::from_bits(plain.vertices[0].reflection.bits), 0.);
}

#[test]
fn refused_meshes_say_why() {
    let refused = |bytes: &[u8]| Mesh::read(bytes).unwrap_err();
    let with = |at: usize, byte: u8| {
        let mut b = screen();
        b[at] = byte;
        b
    };
    assert_eq!(refused(&[]), MeshError::Truncated);
    assert_eq!(refused(&with(4, 3)), MeshError::Version);
    assert_eq!(refused(&with(8, 3)), MeshError::Counts);
    assert_eq!(refused(&with(16, 4)), MeshError::Counts);
    assert_eq!(refused(&with(21, 4)), MeshError::IndexSize);
    assert_eq!(refused(&with(25, 3)), MeshError::Index);
    // The first stream is named right after the indices.
    assert_eq!(refused(&with(31, 3)), MeshError::UnsupportedStream(3));
    assert_eq!(refused(&with(35, 8)), MeshError::Stream);
    let mut infinite = screen();
    infinite[39..43].copy_from_slice(&f32::INFINITY.to_le_bytes());
    assert_eq!(refused(&infinite), MeshError::NotFinite);
    assert_eq!(refused(&mesh(&[0, 0, 4, 5])), MeshError::Stream);
    assert_eq!(refused(&mesh(&[0, 1, 4, 6])), MeshError::MissingStream);
    let mut longer = screen();
    longer.push(0);
    assert_eq!(refused(&longer), MeshError::Trailing);
}

#[test]
fn no_start_of_a_mesh_is_a_mesh() {
    let whole = screen();
    for end in 0..whole.len() {
        assert!(Mesh::read(&whole[..end]).is_err(), "the first {end} bytes");
    }
    let mut longer = whole;
    longer.extend([1, 2, 3]);
    assert!(matches!(Mesh::read(&longer), Err(MeshError::Trailing)));
}
