//! The binary mesh format.
//!
//! A file is 80 reserved bytes, all zero, then the number of triangles as an unsigned
//! 32-bit integer, then one record of 50 bytes for each triangle: the normal and the three
//! corners, each as three single-precision numbers, and an attribute byte count, an
//! unsigned 16-bit integer that is always 0. Every number is little-endian.

use crate::geometry::{Point, Vec3, Vector, MAX_COORD};
use crate::mesh::{facets, Facet, Triangle};
use crate::single::{
    decode_single,
    encode_single,
    lemma_single_round_trip,
    single_of,
    single_value,
};
use byteorder::{ByteOrder, LittleEndian};
use vstd::prelude::*;

verus! {

/// The length of the reserved header.
pub const HEADER_LEN: usize = 80;

/// The length of what stands before the first record: the header and the triangle count.
pub const PREAMBLE_LEN: usize = 84;

/// The length of the record of one triangle.
pub const RECORD_LEN: usize = 50;

/// The four bytes of `n`, the least significant first.
pub open spec fn le_bytes_u32(n: u32) -> Seq<u8> {
    seq![
        (n % 0x100) as u8,
        (n / 0x100 % 0x100) as u8,
        (n / 0x1_0000 % 0x100) as u8,
        (n / 0x100_0000) as u8,
    ]
}

/// The two bytes of `n`, the least significant first.
pub open spec fn le_bytes_u16(n: u16) -> Seq<u8> {
    seq![(n % 0x100) as u8, (n / 0x100) as u8]
}

/// The bytes of one coordinate: its single-precision number, little-endian.
pub open spec fn coordinate_bytes(n: int) -> Seq<u8> {
    le_bytes_u32(single_of(n))
}

/// The twelve bytes of a vector or a point: X, Y, Z.
pub open spec fn vector_bytes(v: Vec3) -> Seq<u8> {
    coordinate_bytes(v.x) + coordinate_bytes(v.y) + coordinate_bytes(v.z)
}

/// The record of one triangle: normal, first, second and third corner, and the attribute
/// byte count 0.
#[verifier::opaque]
pub open spec fn record_bytes(facet: Facet) -> Seq<u8> {
    vector_bytes(facet.normal) + vector_bytes(facet.a) + vector_bytes(facet.b) + vector_bytes(
        facet.c,
    ) + le_bytes_u16(0)
}

/// The records of the first `count` triangles of `mesh`, in the order of the mesh.
pub open spec fn records_bytes(mesh: Seq<Facet>, count: nat) -> Seq<u8>
    decreases count,
{
    if count == 0 {
        Seq::empty()
    } else {
        records_bytes(mesh, (count - 1) as nat) + record_bytes(mesh[count - 1])
    }
}

/// The reserved header: 80 zero bytes.
pub open spec fn header_bytes() -> Seq<u8> {
    Seq::new(80, |i: int| 0u8)
}

/// The file of `mesh` up to the record of triangle `count`.
pub open spec fn file_prefix(mesh: Seq<Facet>, count: nat) -> Seq<u8> {
    header_bytes() + le_bytes_u32(mesh.len() as u32) + records_bytes(mesh, count)
}

/// The file of `mesh`.
pub open spec fn file_bytes(mesh: Seq<Facet>) -> Seq<u8> {
    file_prefix(mesh, mesh.len())
}

/// Whether the first `count` triangles of `mesh` are encodable.
pub open spec fn encodable_prefix(mesh: Seq<Facet>, count: int) -> bool {
    forall|i: int| 0 <= i < count ==> (#[trigger] mesh[i]).encodable()
}

/// Whether `mesh` has a file: its triangles can be counted in 32 bits and each is encodable.
pub open spec fn writable(mesh: Seq<Facet>) -> bool {
    mesh.len() <= u32::MAX && encodable_prefix(mesh, mesh.len() as int)
}

/// Why a mesh has no file.
#[derive(Clone, Copy, Debug, PartialEq, Eq)]
pub enum WriteError {
    /// The mesh has more triangles than the 32-bit count of the format can say.
    TooManyTriangles,
    /// Triangle number `triangle` has a coordinate of magnitude above 2^24.
    CoordinateOutOfRange { triangle: usize },
}

/// `byteorder`'s `LittleEndian::write_u32`, on a buffer of four bytes.
///
/// Trusted: the buffer then holds the four bytes of `n`, the least significant first.
#[verifier::external_body]
fn le_u32(n: u32) -> (r: [u8; 4])
    ensures
        r@ == le_bytes_u32(n),
{
    let mut buffer = [0u8; 4];
    LittleEndian::write_u32(&mut buffer, n);
    buffer
}

/// `byteorder`'s `LittleEndian::write_u16`, on a buffer of two bytes.
///
/// Trusted: the buffer then holds the two bytes of `n`, the least significant first.
#[verifier::external_body]
fn le_u16(n: u16) -> (r: [u8; 2])
    ensures
        r@ == le_bytes_u16(n),
{
    let mut buffer = [0u8; 2];
    LittleEndian::write_u16(&mut buffer, n);
    buffer
}

/// The record of triangle `count` follows the file up to that record.
proof fn lemma_file_prefix_step(mesh: Seq<Facet>, count: nat)
    ensures
        file_prefix(mesh, count + 1) == file_prefix(mesh, count) + record_bytes(
            mesh[count as int],
        ),
{
    let head = header_bytes() + le_bytes_u32(mesh.len() as u32);
    let body = records_bytes(mesh, count);
    let record = record_bytes(mesh[count as int]);
    assert((head + body) + record =~= head + (body + record));
}

/// Appends the four bytes of `n` to `out`.
fn put_u32(out: &mut Vec<u8>, n: u32)
    ensures
        final(out)@ == old(out)@ + le_bytes_u32(n),
{
    let bytes = le_u32(n);
    out.push(bytes[0]);
    out.push(bytes[1]);
    out.push(bytes[2]);
    out.push(bytes[3]);
    assert(out@ =~= old(out)@ + le_bytes_u32(n));
}

/// Appends the bytes of the coordinates `x`, `y`, `z` to `out`, if each has a
/// single-precision number of exactly its value.
fn put_coordinates(out: &mut Vec<u8>, x: i64, y: i64, z: i64) -> (ok: bool)
    ensures
        ok <==> (Vec3 { x: x as int, y: y as int, z: z as int }).within(MAX_COORD as int),
        ok ==> final(out)@ == old(out)@ + vector_bytes(
            Vec3 { x: x as int, y: y as int, z: z as int },
        ),
{
    match (encode_single(x), encode_single(y), encode_single(z)) {
        (Some(bx), Some(by), Some(bz)) => {
            put_u32(out, bx);
            put_u32(out, by);
            put_u32(out, bz);
            assert(out@ =~= old(out)@ + vector_bytes(
                Vec3 { x: x as int, y: y as int, z: z as int },
            ));
            true
        },
        _ => false,
    }
}

/// Appends the record of `triangle` to `out`, if the triangle is encodable.
fn put_record(out: &mut Vec<u8>, triangle: &Triangle) -> (ok: bool)
    ensures
        ok <==> triangle@.encodable(),
        ok ==> final(out)@ == old(out)@ + record_bytes(triangle@),
{
    let n = &triangle.normal;
    let a = &triangle.vertices[0];
    let b = &triangle.vertices[1];
    let c = &triangle.vertices[2];
    if !put_coordinates(out, n.x, n.y, n.z) {
        return false;
    }
    if !put_coordinates(out, a.x, a.y, a.z) {
        return false;
    }
    if !put_coordinates(out, b.x, b.y, b.z) {
        return false;
    }
    if !put_coordinates(out, c.x, c.y, c.z) {
        return false;
    }
    let attribute = le_u16(0);
    out.push(attribute[0]);
    out.push(attribute[1]);
    assert(out@ =~= old(out)@ + record_bytes(triangle@)) by {
        reveal(record_bytes);
    }
    true
}

/// Appends the file of `triangles` to `destination`: the header, the count, and the record
/// of each triangle in the order of the mesh.
///
/// Nothing is appended when the mesh has no file. That is so when it has more triangles
/// than 32 bits can count, and otherwise when a triangle has a coordinate of magnitude
/// above 2^24; the error then names the first such triangle.
pub fn write_stl(destination: &mut Vec<u8>, triangles: &[Triangle]) -> (r: Result<(), WriteError>)
    ensures
        match r {
            Ok(()) => {
                &&& writable(facets(triangles@))
                &&& final(destination)@ == old(destination)@ + file_bytes(facets(triangles@))
                &&& final(destination)@.len() == old(destination)@.len() + 84 + 50
                    * triangles@.len()
            },
            Err(WriteError::TooManyTriangles) => {
                &&& triangles@.len() > u32::MAX
                &&& final(destination)@ == old(destination)@
            },
            Err(WriteError::CoordinateOutOfRange { triangle }) => {
                &&& triangles@.len() <= u32::MAX
                &&& triangle < triangles@.len()
                &&& encodable_prefix(facets(triangles@), triangle as int)
                &&& !facets(triangles@)[triangle as int].encodable()
                &&& final(destination)@ == old(destination)@
            },
        },
{
    let count = triangles.len();
    if count > u32::MAX as usize {
        return Err(WriteError::TooManyTriangles);
    }
    let ghost mesh = facets(triangles@);
    let mut file: Vec<u8> = Vec::new();
    let mut i: usize = 0;
    while i < HEADER_LEN
        invariant
            i <= HEADER_LEN,
            file@ == header_bytes().take(i as int),
        decreases HEADER_LEN - i,
    {
        file.push(0);
        i += 1;
        assert(file@ =~= header_bytes().take(i as int));
    }
    put_u32(&mut file, count as u32);
    assert(file@ =~= file_prefix(mesh, 0));
    let mut k: usize = 0;
    while k < count
        invariant
            k <= count <= u32::MAX,
            count == triangles@.len(),
            mesh == facets(triangles@),
            encodable_prefix(mesh, k as int),
            file@ === file_prefix(mesh, k as nat),
        decreases count - k,
    {
        let ghost before = file@;
        assert(mesh[k as int] == triangles@[k as int]@);
        if !put_record(&mut file, &triangles[k]) {
            return Err(WriteError::CoordinateOutOfRange { triangle: k });
        }
        proof {
            lemma_file_prefix_step(mesh, k as nat);
            assert(file@ === before + record_bytes(mesh[k as int]));
        }
        k += 1;
    }
    proof {
        lemma_file_length(mesh);
    }
    destination.append(&mut file);
    Ok(())
}

/// The unsigned 32-bit integer that the four bytes of `bytes` from `at` spell, the least
/// significant first.
pub open spec fn le_u32_at(bytes: Seq<u8>, at: int) -> u32 {
    (bytes[at] + 0x100 * bytes[at + 1] + 0x1_0000 * bytes[at + 2] + 0x100_0000 * bytes[at
        + 3]) as u32
}

/// The coordinate that the four bytes of `bytes` from `at` spell, if they spell an integer
/// of magnitude at most 2^24.
pub open spec fn coordinate_at(bytes: Seq<u8>, at: int) -> Option<int> {
    single_value(le_u32_at(bytes, at))
}

/// The vector that the twelve bytes of `bytes` from `at` spell, if each of its coordinates
/// is spelt.
pub open spec fn vector_at(bytes: Seq<u8>, at: int) -> Option<Vec3> {
    match (coordinate_at(bytes, at), coordinate_at(bytes, at + 4), coordinate_at(bytes, at + 8)) {
        (Some(x), Some(y), Some(z)) => Some(Vec3 { x, y, z }),
        _ => None,
    }
}

/// The triangle of the record that starts at `at`, if each of its coordinates is spelt. The
/// attribute byte count of the record is not looked at.
#[verifier::opaque]
pub open spec fn facet_at(bytes: Seq<u8>, at: int) -> Option<Facet> {
    match (
        vector_at(bytes, at),
        vector_at(bytes, at + 12),
        vector_at(bytes, at + 24),
        vector_at(bytes, at + 36),
    ) {
        (Some(normal), Some(a), Some(b), Some(c)) => Some(Facet { normal, a, b, c }),
        _ => None,
    }
}

/// Where record number `k` starts.
pub open spec fn record_start(k: int) -> int {
    84 + 50 * k
}

/// The number of triangles that the file says it holds.
pub open spec fn declared_count(bytes: Seq<u8>) -> int {
    le_u32_at(bytes, 80) as int
}

/// Whether `bytes` has a preamble and exactly as many records as it says.
pub open spec fn well_sized(bytes: Seq<u8>) -> bool {
    bytes.len() >= 84 && bytes.len() == 84 + 50 * declared_count(bytes)
}

/// Whether each of the first `count` records of `bytes` spells a triangle.
pub open spec fn readable_prefix(bytes: Seq<u8>, count: int) -> bool {
    forall|k: int| 0 <= k < count ==> (#[trigger] facet_at(bytes, record_start(k))) is Some
}

/// The mesh of the file `bytes`, if `bytes` is a file of this format whose coordinates are
/// integers of magnitude at most 2^24. What the header holds is not looked at.
pub open spec fn parsed(bytes: Seq<u8>) -> Option<Seq<Facet>> {
    if well_sized(bytes) && readable_prefix(bytes, declared_count(bytes)) {
        Some(
            Seq::new(
                declared_count(bytes) as nat,
                |k: int| facet_at(bytes, record_start(k)).unwrap(),
            ),
        )
    } else {
        None
    }
}

/// Why some bytes are no file of a lattice mesh.
#[derive(Clone, Copy, Debug, PartialEq, Eq)]
pub enum ReadError {
    /// There are fewer than 84 bytes: no header and count.
    TooShort,
    /// The number of bytes is not that of the header, the count and as many records as the
    /// count says.
    LengthMismatch,
    /// Record number `triangle` holds a number that is no integer of magnitude at most 2^24.
    NotOnLattice { triangle: usize },
}

/// `byteorder`'s `LittleEndian::read_u32`, on the bytes of `bytes` from `at` on.
///
/// Trusted: the result is the integer that the first four of those bytes spell, the least
/// significant first. The precondition asks for four bytes, without which the call panics.
#[verifier::external_body]
fn read_le_u32(bytes: &[u8], at: usize) -> (r: u32)
    requires
        at + 4 <= bytes@.len(),
    ensures
        r == le_u32_at(bytes@, at as int),
{
    LittleEndian::read_u32(&bytes[at..])
}

/// The three coordinates that the twelve bytes from `at` spell.
fn read_coordinates(bytes: &[u8], at: usize) -> (r: Option<(i64, i64, i64)>)
    requires
        at + 12 <= bytes@.len() <= usize::MAX,
    ensures
        match r {
            Some((x, y, z)) => vector_at(bytes@, at as int) == Some(
                Vec3 { x: x as int, y: y as int, z: z as int },
            ),
            None => vector_at(bytes@, at as int) is None,
        },
{
    let x = decode_single(read_le_u32(bytes, at));
    let y = decode_single(read_le_u32(bytes, at + 4));
    let z = decode_single(read_le_u32(bytes, at + 8));
    match (x, y, z) {
        (Some(x), Some(y), Some(z)) => Some((x, y, z)),
        _ => None,
    }
}

/// The triangle of the record that starts at `at`.
fn read_record(bytes: &[u8], at: usize) -> (r: Option<Triangle>)
    requires
        at + 50 <= bytes@.len() <= usize::MAX,
    ensures
        match r {
            Some(triangle) => facet_at(bytes@, at as int) == Some(triangle@),
            None => facet_at(bytes@, at as int) is None,
        },
{
    proof {
        reveal(facet_at);
    }
    let normal = read_coordinates(bytes, at);
    let a = read_coordinates(bytes, at + 12);
    let b = read_coordinates(bytes, at + 24);
    let c = read_coordinates(bytes, at + 36);
    match (normal, a, b, c) {
        (Some(n), Some(a), Some(b), Some(c)) => Some(
            Triangle {
                normal: Vector { x: n.0, y: n.1, z: n.2 },
                vertices: [
                    Point { x: a.0, y: a.1, z: a.2 },
                    Point { x: b.0, y: b.1, z: b.2 },
                    Point { x: c.0, y: c.1, z: c.2 },
                ],
            },
        ),
        _ => None,
    }
}

/// The mesh of the file `bytes`.
///
/// The bytes are rejected when they are fewer than a header and a count, when their number
/// does not fit the count, and otherwise when a record holds a number that is no integer of
/// magnitude at most 2^24; the error then names the first such record.
pub fn read_stl(bytes: &[u8]) -> (r: Result<Vec<Triangle>, ReadError>)
    ensures
        match r {
            Ok(mesh) => parsed(bytes@) == Some(facets(mesh@)),
            Err(ReadError::TooShort) => bytes@.len() < 84,
            Err(ReadError::LengthMismatch) => bytes@.len() >= 84 && !well_sized(bytes@),
            Err(ReadError::NotOnLattice { triangle }) => {
                &&& well_sized(bytes@)
                &&& triangle < declared_count(bytes@)
                &&& readable_prefix(bytes@, triangle as int)
                &&& facet_at(bytes@, record_start(triangle as int)) is None
            },
        },
{
    if bytes.len() < PREAMBLE_LEN {
        return Err(ReadError::TooShort);
    }
    let count = read_le_u32(bytes, HEADER_LEN);
    if bytes.len() as u64 != PREAMBLE_LEN as u64 + RECORD_LEN as u64 * (count as u64) {
        return Err(ReadError::LengthMismatch);
    }
    let mut mesh: Vec<Triangle> = Vec::new();
    let mut k: usize = 0;
    while k < count as usize
        invariant
            k <= count,
            count == declared_count(bytes@),
            bytes@.len() == 84 + 50 * count,
            bytes@.len() <= usize::MAX,
            mesh@.len() == k,
            forall|j: int|
                0 <= j < k ==> #[trigger] facet_at(bytes@, record_start(j)) == Some(mesh@[j]@),
        decreases count - k,
    {
        let ghost read = mesh@;
        let at = PREAMBLE_LEN + RECORD_LEN * k;
        assert(at == record_start(k as int) && at + 50 <= bytes@.len());
        match read_record(bytes, at) {
            Some(triangle) => {
                mesh.push(triangle);
                assert forall|j: int| 0 <= j < k + 1 implies #[trigger] facet_at(
                    bytes@,
                    record_start(j),
                ) == Some(mesh@[j]@) by {
                    if j < k {
                        assert(mesh@[j] == read[j]);
                    }
                }
            },
            None => {
                assert(well_sized(bytes@));
                return Err(ReadError::NotOnLattice { triangle: k });
            },
        }
        k += 1;
    }
    proof {
        assert(well_sized(bytes@));
        assert(readable_prefix(bytes@, declared_count(bytes@)));
        assert(facets(mesh@) =~= parsed(bytes@).unwrap());
    }
    Ok(mesh)
}

/// The four bytes of `n` spell `n`.
pub proof fn lemma_le_u32_round_trip(bytes: Seq<u8>, at: int, n: u32)
    requires
        0 <= at,
        at + 4 <= bytes.len(),
        bytes.subrange(at, at + 4) == le_bytes_u32(n),
    ensures
        le_u32_at(bytes, at) == n,
{
    let part = bytes.subrange(at, at + 4);
    assert(part[0] == bytes[at] && part[1] == bytes[at + 1] && part[2] == bytes[at + 2] && part[3]
        == bytes[at + 3]);
}

/// The twelve bytes of a vector with encodable coordinates spell the vector.
proof fn lemma_vector_at(bytes: Seq<u8>, at: int, v: Vec3)
    requires
        0 <= at,
        at + 12 <= bytes.len(),
        v.within(MAX_COORD as int),
        bytes.subrange(at, at + 12) == vector_bytes(v),
    ensures
        vector_at(bytes, at) == Some(v),
{
    let part = bytes.subrange(at, at + 12);
    assert(bytes.subrange(at, at + 4) =~= part.subrange(0, 4));
    assert(bytes.subrange(at + 4, at + 8) =~= part.subrange(4, 8));
    assert(bytes.subrange(at + 8, at + 12) =~= part.subrange(8, 12));
    assert(part.subrange(0, 4) =~= coordinate_bytes(v.x));
    assert(part.subrange(4, 8) =~= coordinate_bytes(v.y));
    assert(part.subrange(8, 12) =~= coordinate_bytes(v.z));
    lemma_le_u32_round_trip(bytes, at, single_of(v.x));
    lemma_le_u32_round_trip(bytes, at + 4, single_of(v.y));
    lemma_le_u32_round_trip(bytes, at + 8, single_of(v.z));
    lemma_single_round_trip(v.x);
    lemma_single_round_trip(v.y);
    lemma_single_round_trip(v.z);
}

/// A record has 50 bytes.
pub proof fn lemma_record_length(facet: Facet)
    ensures
        record_bytes(facet).len() == 50,
{
    reveal(record_bytes);
}

/// The record of an encodable triangle spells the triangle.
proof fn lemma_facet_at(bytes: Seq<u8>, at: int, facet: Facet)
    requires
        0 <= at,
        at + 50 <= bytes.len(),
        facet.encodable(),
        bytes.subrange(at, at + 50) == record_bytes(facet),
    ensures
        facet_at(bytes, at) == Some(facet),
{
    reveal(record_bytes);
    reveal(facet_at);
    let part = bytes.subrange(at, at + 50);
    assert(bytes.subrange(at, at + 12) =~= part.subrange(0, 12));
    assert(bytes.subrange(at + 12, at + 24) =~= part.subrange(12, 24));
    assert(bytes.subrange(at + 24, at + 36) =~= part.subrange(24, 36));
    assert(bytes.subrange(at + 36, at + 48) =~= part.subrange(36, 48));
    assert(part.subrange(0, 12) =~= vector_bytes(facet.normal));
    assert(part.subrange(12, 24) =~= vector_bytes(facet.a));
    assert(part.subrange(24, 36) =~= vector_bytes(facet.b));
    assert(part.subrange(36, 48) =~= vector_bytes(facet.c));
    lemma_vector_at(bytes, at, facet.normal);
    lemma_vector_at(bytes, at + 12, facet.a);
    lemma_vector_at(bytes, at + 24, facet.b);
    lemma_vector_at(bytes, at + 36, facet.c);
}

/// The records of `count` triangles take 50 bytes each, and record `k` stands at `50 * k`.
proof fn lemma_records_layout(mesh: Seq<Facet>, count: nat, k: int)
    requires
        0 <= k < count,
    ensures
        records_bytes(mesh, count).len() == 50 * count,
        records_bytes(mesh, count).subrange(50 * k, 50 * k + 50) == record_bytes(mesh[k]),
    decreases count,
{
    lemma_records_length(mesh, (count - 1) as nat);
    lemma_record_length(mesh[count - 1]);
    let before = records_bytes(mesh, (count - 1) as nat);
    let last = record_bytes(mesh[count - 1]);
    if k == count - 1 {
        assert((before + last).subrange(50 * k, 50 * k + 50) =~= last);
    } else {
        lemma_records_layout(mesh, (count - 1) as nat, k);
        assert((before + last).subrange(50 * k, 50 * k + 50) =~= before.subrange(
            50 * k,
            50 * k + 50,
        ));
    }
}

/// The records of `count` triangles take 50 bytes each.
pub proof fn lemma_records_length(mesh: Seq<Facet>, count: nat)
    ensures
        records_bytes(mesh, count).len() == 50 * count,
    decreases count,
{
    if count > 0 {
        lemma_records_length(mesh, (count - 1) as nat);
        lemma_record_length(mesh[count - 1]);
    }
}

/// The file of a mesh of N triangles has 84 + 50·N bytes.
pub proof fn lemma_file_length(mesh: Seq<Facet>)
    ensures
        file_bytes(mesh).len() == 84 + 50 * mesh.len(),
{
    lemma_records_length(mesh, mesh.len());
}

/// Reading the file of a mesh gives back the mesh: as many triangles, and of each the
/// normal and the corners, coordinate for coordinate.
pub proof fn lemma_write_read_round_trip(mesh: Seq<Facet>)
    requires
        writable(mesh),
    ensures
        parsed(file_bytes(mesh)) == Some(mesh),
{
    let file = file_bytes(mesh);
    let head = header_bytes() + le_bytes_u32(mesh.len() as u32);
    let body = records_bytes(mesh, mesh.len());
    lemma_records_length(mesh, mesh.len());
    assert(file.subrange(80, 84) =~= le_bytes_u32(mesh.len() as u32));
    lemma_le_u32_round_trip(file, 80, mesh.len() as u32);
    assert(declared_count(file) == mesh.len());
    assert forall|k: int| 0 <= k < mesh.len() implies (#[trigger] facet_at(file, record_start(k)))
        == Some(mesh[k]) by {
        lemma_records_layout(mesh, mesh.len(), k);
        assert(file.subrange(84 + 50 * k, 84 + 50 * k + 50) =~= body.subrange(
            50 * k,
            50 * k + 50,
        ));
        lemma_facet_at(file, record_start(k), mesh[k]);
    }
    assert(parsed(file).unwrap() =~= mesh);
}

} // verus!
