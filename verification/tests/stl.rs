use stl_letters::{
    cube, read_stl, to_stl, write_stl, Point, ReadError, Triangle, Vector, WriteError,
};

fn file_of(mesh: &[Triangle]) -> Vec<u8> {
    let mut bytes = Vec::new();
    write_stl(&mut bytes, mesh).unwrap();
    bytes
}

fn float_at(bytes: &[u8], at: usize) -> f32 {
    f32::from_le_bytes([bytes[at], bytes[at + 1], bytes[at + 2], bytes[at + 3]])
}

fn triangle(n: [i64; 3], a: [i64; 3], b: [i64; 3], c: [i64; 3]) -> Triangle {
    Triangle {
        normal: Vector { x: n[0], y: n[1], z: n[2] },
        vertices: [
            Point { x: a[0], y: a[1], z: a[2] },
            Point { x: b[0], y: b[1], z: b[2] },
            Point { x: c[0], y: c[1], z: c[2] },
        ],
    }
}

#[test]
fn empty_mesh_is_header_and_zero_count() {
    let bytes = file_of(&[]);
    assert_eq!(bytes, vec![0u8; 84]);
}

#[test]
fn file_has_84_bytes_and_50_per_triangle() {
    assert_eq!(file_of(&cube()).len(), 84 + 50 * 12);
    let text = to_stl("STL 42").unwrap();
    assert_eq!(file_of(&text).len(), 84 + 50 * text.len());
    assert_eq!(file_of(&cube()[..1]).len(), 134);
}

#[test]
fn header_is_zero_and_count_is_little_endian() {
    let mesh = to_stl("ABCDEFGHIJ").unwrap();
    assert!(mesh.len() > 256);
    let bytes = file_of(&mesh);
    assert!(bytes[..80].iter().all(|b| *b == 0));
    assert_eq!(bytes[80..84], (mesh.len() as u32).to_le_bytes());
    assert_eq!(bytes[80] as usize, mesh.len() % 256);
    assert_eq!(bytes[81] as usize, mesh.len() / 256);
}

#[test]
fn record_is_normal_then_corners_then_zero_attribute() {
    let t = triangle([0, 0, -1], [7, -2, 3], [100, 200, -300], [16_777_216, -16_777_216, 65_536]);
    let bytes = file_of(&[t]);
    assert_eq!(bytes.len(), 134);
    let expected: [f32; 12] = [
        0.0,
        0.0,
        -1.0,
        7.0,
        -2.0,
        3.0,
        100.0,
        200.0,
        -300.0,
        16_777_216.0,
        -16_777_216.0,
        65_536.0,
    ];
    for (i, value) in expected.iter().enumerate() {
        assert_eq!(bytes[84 + 4 * i..88 + 4 * i], value.to_le_bytes());
        assert_eq!(float_at(&bytes, 84 + 4 * i), *value);
    }
    assert_eq!(bytes[132..134], [0, 0]);
}

#[test]
fn one_is_written_low_byte_first() {
    let t = triangle([1, 0, 0], [0, 0, 0], [0, 0, 0], [0, 0, 0]);
    let bytes = file_of(&[t]);
    assert_eq!(bytes[84..88], [0x00, 0x00, 0x80, 0x3F]);
    assert_eq!(bytes[80..84], [1, 0, 0, 0]);
}

#[test]
fn records_follow_the_order_of_the_mesh() {
    let mesh = cube();
    let bytes = file_of(&mesh);
    for (k, t) in mesh.iter().enumerate() {
        let at = 84 + 50 * k;
        assert_eq!(float_at(&bytes, at), t.normal.x as f32);
        assert_eq!(float_at(&bytes, at + 4), t.normal.y as f32);
        assert_eq!(float_at(&bytes, at + 8), t.normal.z as f32);
        for (v, p) in t.vertices.iter().enumerate() {
            assert_eq!(float_at(&bytes, at + 12 + 12 * v), p.x as f32);
            assert_eq!(float_at(&bytes, at + 16 + 12 * v), p.y as f32);
            assert_eq!(float_at(&bytes, at + 20 + 12 * v), p.z as f32);
        }
        assert_eq!(bytes[at + 48..at + 50], [0, 0]);
    }
}

#[test]
fn write_appends_to_what_the_destination_holds() {
    let mut destination = vec![1u8, 2, 3];
    write_stl(&mut destination, &cube()).unwrap();
    assert_eq!(destination[..3], [1, 2, 3]);
    assert_eq!(destination[3..], file_of(&cube())[..]);
}

#[test]
fn coordinate_out_of_range_is_rejected_and_nothing_is_written() {
    let good = triangle([0, 0, 1], [0, 0, 0], [1, 0, 0], [0, 1, 0]);
    let far = triangle([0, 0, 1], [0, 0, 0], [16_777_217, 0, 0], [0, 1, 0]);
    let mut destination = vec![9u8];
    assert_eq!(
        write_stl(&mut destination, &[good, good, far, good]),
        Err(WriteError::CoordinateOutOfRange { triangle: 2 })
    );
    assert_eq!(destination, vec![9u8]);
    let low = triangle([0, 0, 1], [0, 0, -16_777_217], [1, 0, 0], [0, 1, 0]);
    assert_eq!(
        write_stl(&mut destination, &[low, far]),
        Err(WriteError::CoordinateOutOfRange { triangle: 0 })
    );
    let long_normal = triangle([0, i64::MAX, 0], [0, 0, 0], [1, 0, 0], [0, 1, 0]);
    assert_eq!(
        write_stl(&mut destination, &[good, long_normal]),
        Err(WriteError::CoordinateOutOfRange { triangle: 1 })
    );
    assert_eq!(destination, vec![9u8]);
}

#[test]
fn edge_of_the_range_is_written() {
    let edge = triangle(
        [0, 0, 1],
        [16_777_216, 0, 0],
        [0, -16_777_216, 0],
        [16_777_215, -16_777_215, 16_777_216],
    );
    assert_eq!(read_stl(&file_of(&[edge])), Ok(vec![edge]));
}

#[test]
fn reading_a_written_file_gives_the_mesh() {
    for text in ["", "0", "a b", "HELLO-WORLD", "abcdefghijklmnopqrstuvwxyz-0123456789"] {
        let mesh = to_stl(text).unwrap();
        let bytes = file_of(&mesh);
        assert_eq!(bytes.len(), 84 + 50 * mesh.len());
        let back = read_stl(&bytes).unwrap();
        assert_eq!(back.len(), mesh.len());
        assert_eq!(back, mesh);
    }
    assert_eq!(read_stl(&file_of(&cube())), Ok(cube()));
}

#[test]
fn reading_a_file_made_by_hand() {
    let mut bytes = vec![0u8; 80];
    bytes.extend(1u32.to_le_bytes());
    for value in [0.0f32, 1.0, 0.0, 5.0, 0.0, -3.0, 6.0, 0.0, -3.0, 5.0, 0.0, -2.0] {
        bytes.extend(value.to_le_bytes());
    }
    bytes.extend(0u16.to_le_bytes());
    assert_eq!(
        read_stl(&bytes),
        Ok(vec![triangle([0, 1, 0], [5, 0, -3], [6, 0, -3], [5, 0, -2])])
    );
}

#[test]
fn header_text_attribute_and_negative_zero_are_accepted() {
    let mut bytes = file_of(&cube());
    for (i, b) in b"binary mesh".iter().enumerate() {
        bytes[i] = *b;
    }
    bytes[84 + 48] = 7;
    bytes[84 + 49] = 1;
    bytes[84..88].copy_from_slice(&(-0.0f32).to_le_bytes());
    assert_eq!(read_stl(&bytes), Ok(cube()));
}

#[test]
fn too_short_is_rejected() {
    assert_eq!(read_stl(&[]), Err(ReadError::TooShort));
    assert_eq!(read_stl(&[0u8; 83]), Err(ReadError::TooShort));
    assert_eq!(read_stl(&[0u8; 84]), Ok(vec![]));
}

#[test]
fn wrong_length_is_rejected() {
    let bytes = file_of(&cube());
    assert_eq!(read_stl(&bytes[..bytes.len() - 1]), Err(ReadError::LengthMismatch));
    let mut longer = bytes.clone();
    longer.push(0);
    assert_eq!(read_stl(&longer), Err(ReadError::LengthMismatch));
    let mut more = bytes.clone();
    more[80] = 13;
    assert_eq!(read_stl(&more), Err(ReadError::LengthMismatch));
    let mut huge = vec![0u8; 84];
    huge[80..84].copy_from_slice(&u32::MAX.to_le_bytes());
    assert_eq!(read_stl(&huge), Err(ReadError::LengthMismatch));
    assert_eq!(read_stl(&[0u8; 85]), Err(ReadError::LengthMismatch));
}

#[test]
fn number_off_the_lattice_is_rejected() {
    let bytes = file_of(&cube());
    for value in [0.5f32, 1e9, f32::NAN, f32::INFINITY, 16_777_218.0] {
        let mut bad = bytes.clone();
        let at = 84 + 50 * 5 + 12 + 4;
        bad[at..at + 4].copy_from_slice(&value.to_le_bytes());
        assert_eq!(read_stl(&bad), Err(ReadError::NotOnLattice { triangle: 5 }));
    }
    let mut two = bytes.clone();
    two[84 + 50 * 7..84 + 50 * 7 + 4].copy_from_slice(&0.25f32.to_le_bytes());
    two[84 + 50 * 3 + 44..84 + 50 * 3 + 48].copy_from_slice(&2.5f32.to_le_bytes());
    assert_eq!(read_stl(&two), Err(ReadError::NotOnLattice { triangle: 3 }));
}
