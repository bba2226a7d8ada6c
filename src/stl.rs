//! The flat binary triangle format: an 80-byte header, a little-endian
//! 32-bit triangle count, then 50 bytes per triangle (normal, three corners,
//! a 16-bit attribute field set to zero).
use vstd::prelude::*;
use crate::mesh::{Face, Mesh, face_in_range};

verus! {

/// Number of bytes in the header.
pub const HEADER_LEN: usize = 80;

/// The byte the header is filled with.
pub const HEADER_BYTE: u8 = 255;

/// Bytes per triangle record: twelve 4-byte floats and a 2-byte attribute.
pub const RECORD_LEN: usize = 50;

/// Three single-precision floats, little-endian, as stored in a record.
pub type EncodedVec3 = [u8; 12];

pub open spec fn le32(n: u32) -> Seq<u8> {
    seq![
        (n % 256) as u8,
        ((n / 256) % 256) as u8,
        ((n / 65536) % 256) as u8,
        (n / 16777216) as u8,
    ]
}

/// The number that four little-endian bytes stand for.
pub open spec fn read_le32(b: Seq<u8>) -> int {
    b[0] + 256 * b[1] + 65536 * b[2] + 16777216 * b[3]
}

pub open spec fn header() -> Seq<u8> {
    Seq::new(HEADER_LEN as nat, |i: int| HEADER_BYTE)
}

/// The record of one triangle: its normal, its three corners and two zero
/// bytes.
pub open spec fn face_record(vertices: Seq<EncodedVec3>, f: Face, normal: EncodedVec3) -> Seq<u8> {
    normal@ + vertices[f.0 as int]@ + vertices[f.1 as int]@ + vertices[f.2 as int]@ + seq![0u8, 0u8]
}

pub open spec fn face_records(
    vertices: Seq<EncodedVec3>,
    faces: Seq<Face>,
    normals: Seq<EncodedVec3>,
) -> Seq<u8>
    decreases faces.len(),
{
    if faces.len() == 0 {
        Seq::empty()
    } else {
        let i = faces.len() - 1;
        face_records(vertices, faces.drop_last(), normals) + face_record(vertices, faces[i], normals[i])
    }
}

pub open spec fn stl_bytes(
    vertices: Seq<EncodedVec3>,
    faces: Seq<Face>,
    normals: Seq<EncodedVec3>,
) -> Seq<u8> {
    header() + le32(faces.len() as u32) + face_records(vertices, faces, normals)
}

proof fn lemma_records_len(vertices: Seq<EncodedVec3>, faces: Seq<Face>, normals: Seq<EncodedVec3>)
    ensures
        face_records(vertices, faces, normals).len() == RECORD_LEN * faces.len(),
    decreases faces.len(),
{
    if faces.len() > 0 {
        let i = faces.len() - 1;
        lemma_records_len(vertices, faces.drop_last(), normals);
        assert(normals[i]@.len() == 12);
        assert(vertices[faces[i].0 as int]@.len() == 12);
        assert(vertices[faces[i].1 as int]@.len() == 12);
        assert(vertices[faces[i].2 as int]@.len() == 12);
    }
}

proof fn lemma_le32_round_trip(n: u32)
    ensures
        read_le32(le32(n)) == n,
{
    let x = n as int;
    let a = x / 256;
    let b = a / 256;
    let c = b / 256;
    assert(x == 256 * a + x % 256);
    assert(a == 256 * b + a % 256);
    assert(b == 256 * c + b % 256);
    assert(x / 65536 == b);
    assert(x / 16777216 == c);
    assert(c < 256);
    let s = le32(n);
    assert(s[0] == x % 256);
    assert(s[1] == a % 256);
    assert(s[2] == b % 256);
    assert(s[3] == c);
}

/// The exported buffer of a mesh with `F` faces is `84 + 50 * F` bytes long,
/// and its count field, read as a little-endian 32-bit number, is `F`.
pub proof fn lemma_stl_shape(vertices: Seq<EncodedVec3>, faces: Seq<Face>, normals: Seq<EncodedVec3>)
    requires
        faces.len() <= u32::MAX,
    ensures
        stl_bytes(vertices, faces, normals).len() == HEADER_LEN + 4 + RECORD_LEN * faces.len(),
        read_le32(stl_bytes(vertices, faces, normals).subrange(
            HEADER_LEN as int,
            HEADER_LEN + 4,
        )) == faces.len(),
{
    lemma_records_len(vertices, faces, normals);
    lemma_le32_round_trip(faces.len() as u32);
    let s = stl_bytes(vertices, faces, normals);
    assert(s.subrange(HEADER_LEN as int, HEADER_LEN + 4) =~= le32(faces.len() as u32));
}

fn push_vec3(out: &mut Vec<u8>, v: &EncodedVec3)
    ensures
        final(out)@ == old(out)@ + v@,
{
    let ghost start = out@;
    let mut i: usize = 0;
    while i < 12
        invariant
            i <= 12,
            v@.len() == 12,
            out@ == start + v@.take(i as int),
        decreases 12 - i,
    {
        out.push(v[i]);
        i += 1;
        assert(out@ =~= start + v@.take(i as int));
    }
    assert(v@.take(12) == v@);
}

/// Serialises a mesh whose vertices are already encoded, with the encoded
/// normal of each face, into the binary triangle format. Every face is
/// written out in order with its own copy of its corners.
pub fn generate_binary_stl(mesh: &Mesh<EncodedVec3>, normals: &Vec<EncodedVec3>) -> (r: Vec<u8>)
    requires
        mesh.wf(),
        normals@.len() == mesh.faces@.len(),
        mesh.faces@.len() <= u32::MAX,
    ensures
        r@ == stl_bytes(mesh.vertices@, mesh.faces@, normals@),
{
    let mut out: Vec<u8> = Vec::new();
    let mut i: usize = 0;
    while i < HEADER_LEN
        invariant
            i <= HEADER_LEN,
            out@ == header().take(i as int),
        decreases HEADER_LEN - i,
    {
        out.push(HEADER_BYTE);
        i += 1;
        assert(out@ =~= header().take(i as int));
    }
    assert(header().take(HEADER_LEN as int) == header());
    let n = mesh.faces.len() as u32;
    out.push((n % 256) as u8);
    out.push(((n / 256) % 256) as u8);
    out.push(((n / 65536) % 256) as u8);
    out.push((n / 16777216) as u8);
    let ghost start = out@;
    assert(start =~= header() + le32(n));

    let mut i: usize = 0;
    while i < mesh.faces.len()
        invariant
            mesh.wf(),
            normals@.len() == mesh.faces@.len(),
            i <= mesh.faces@.len(),
            out@ == start + face_records(mesh.vertices@, mesh.faces@.take(i as int), normals@),
        decreases mesh.faces@.len() - i,
    {
        let f = mesh.faces[i];
        assert(face_in_range(mesh.faces@[i as int], mesh.vertices@.len() as int));
        push_vec3(&mut out, &normals[i]);
        push_vec3(&mut out, &mesh.vertices[f.0 as usize]);
        push_vec3(&mut out, &mesh.vertices[f.1 as usize]);
        push_vec3(&mut out, &mesh.vertices[f.2 as usize]);
        out.push(0);
        out.push(0);
        i += 1;
        assert(mesh.faces@.take(i as int).drop_last() == mesh.faces@.take(i - 1));
        assert(out@ =~= start + face_records(mesh.vertices@, mesh.faces@.take(i as int), normals@));
    }
    assert(mesh.faces@.take(mesh.faces@.len() as int) == mesh.faces@);
    out
}

} // verus!
