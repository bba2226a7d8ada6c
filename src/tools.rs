//! Operations that build a new mesh out of existing ones.
use vstd::prelude::*;
use crate::mesh::{Face, Mesh, VertWeight, VertexGroup, group_in_range, face_in_range};

verus! {

/// The local index of position `i` of the first ring.
pub open spec fn ring1(i: int) -> u32 {
    i as u32
}

/// The local index of position `j` of the second ring, stored after the `m`
/// entries of the first.
pub open spec fn ring2(m: int, j: int) -> u32 {
    (m + j) as u32
}

/// The fan that closes a bridge once the first ring is used up: every
/// remaining edge of the second ring, from position `p2` on, joined to the
/// last vertex `p1` of the first ring.
pub open spec fn fan_ring2(m: int, k: int, p1: int, p2: int) -> Seq<Face> {
    Seq::new((k - p2) as nat, |i: int| Face(ring1(p1), ring2(m, p2 + i), ring2(m, p2 + i - 1)))
}

/// The fan that closes a bridge once the second ring is used up: every
/// remaining edge of the first ring, from position `p1` on, joined to the
/// last vertex `p2` of the second ring.
pub open spec fn fan_ring1(m: int, k: int, p1: int, p2: int) -> Seq<Face> {
    Seq::new((m - p1) as nat, |i: int| Face(ring1(p1 + i - 1), ring1(p1 + i), ring2(m, p2)))
}

/// The triangles that the greedy walk emits from cursor positions `p1` on
/// the first ring (of `m` entries) and `p2` on the second (of `k`).
/// `nearer[p1][p2]` says whether position `p1` of the first ring is strictly
/// nearer to position `p2` of the second ring than to position `p2 + 1`:
/// where it is, the walk advances on the first ring, else on the second.
pub open spec fn bridge_walk(m: int, k: int, nearer: Seq<Vec<bool>>, p1: int, p2: int) -> Seq<Face>
    decreases (m - p1) + (k - p2),
{
    if !(1 <= p1 <= m - 2 && 1 <= p2 <= k - 2) {
        Seq::empty()
    } else if nearer[p1]@[p2] {
        let f = Face(ring1(p1 - 1), ring1(p1), ring2(m, p2 - 1));
        if p1 + 1 == m - 1 {
            seq![f, Face(ring1(p1), ring1(p1 + 1), ring2(m, p2 - 1))] + fan_ring2(m, k, p1 + 1, p2)
        } else {
            seq![f] + bridge_walk(m, k, nearer, p1 + 1, p2)
        }
    } else {
        let f = Face(ring1(p1 - 1), ring2(m, p2), ring2(m, p2 - 1));
        if p2 + 1 == k - 1 {
            seq![f, Face(ring1(p1 - 1), ring2(m, p2 + 1), ring2(m, p2))] + fan_ring1(m, k, p1, p2 + 1)
        } else {
            seq![f] + bridge_walk(m, k, nearer, p1, p2 + 1)
        }
    }
}

/// The triangles of a whole bridge: the walk from the second entry of each
/// ring, the first entries being the trailing corners of the first triangle.
pub open spec fn bridge_faces(m: int, k: int, nearer: Seq<Vec<bool>>) -> Seq<Face> {
    bridge_walk(m, k, nearer, 1, 1)
}

/// The positions of the vertices that a group lists, in group order.
pub open spec fn ring_points<V>(vertices: Seq<V>, group: Seq<VertWeight>) -> Seq<V> {
    Seq::new(group.len(), |i: int| vertices[group[i].vert_index as int])
}

/// Shape of the walk: from cursors `(p1, p2)` it emits `m + k - p1 - p2`
/// triangles, each with indices below `m + k`.
proof fn lemma_walk_shape(m: int, k: int, nearer: Seq<Vec<bool>>, p1: int, p2: int)
    requires
        3 <= m,
        3 <= k,
        m + k <= u32::MAX,
        1 <= p1 <= m - 2,
        1 <= p2 <= k - 2,
    ensures
        bridge_walk(m, k, nearer, p1, p2).len() == m + k - p1 - p2,
        forall|i: int|
            0 <= i < bridge_walk(m, k, nearer, p1, p2).len() ==> face_in_range(
                #[trigger] bridge_walk(m, k, nearer, p1, p2)[i],
                m + k,
            ),
    decreases (m - p1) + (k - p2),
{
    if nearer[p1]@[p2] {
        if p1 + 1 != m - 1 {
            lemma_walk_shape(m, k, nearer, p1 + 1, p2);
        }
    } else {
        if p2 + 1 != k - 1 {
            lemma_walk_shape(m, k, nearer, p1, p2 + 1);
        }
    }
}

/// A bridge between closed rings of `m` and `k` entries is made of exactly
/// `m + k - 2` triangles, and every index in them is a local one, below
/// `m + k`.
pub proof fn lemma_bridge_shape(m: int, k: int, nearer: Seq<Vec<bool>>)
    requires
        3 <= m,
        3 <= k,
        m + k <= u32::MAX,
    ensures
        bridge_faces(m, k, nearer).len() == m + k - 2,
        forall|i: int|
            0 <= i < bridge_faces(m, k, nearer).len() ==> face_in_range(
                #[trigger] bridge_faces(m, k, nearer)[i],
                m + k,
            ),
{
    lemma_walk_shape(m, k, nearer, 1, 1);
}


/// Stitches two closed rings together with a strip of triangles.
///
/// `vertex_group_1` lists a closed ring of `mesh1` (its first entry repeated
/// at the end), `vertex_group_2` one of `mesh2`. The result holds copies of
/// the ring vertices, the first ring's and then the second's, and the
/// triangles of a greedy walk along both rings: at each step the ring whose
/// next vertex keeps the new edge shorter advances, as `nearer` tells (see
/// `bridge_walk`). The result has no vertex groups.
pub fn generate_vertex_bridge<V: Copy>(
    mesh1: &Mesh<V>,
    mesh2: &Mesh<V>,
    vertex_group_1: &VertexGroup,
    vertex_group_2: &VertexGroup,
    nearer: &Vec<Vec<bool>>,
) -> (r: Mesh<V>)
    requires
        group_in_range(vertex_group_1@, mesh1.vertices@.len() as int),
        group_in_range(vertex_group_2@, mesh2.vertices@.len() as int),
        3 <= vertex_group_1@.len(),
        3 <= vertex_group_2@.len(),
        vertex_group_1@.len() + vertex_group_2@.len() <= u32::MAX,
        nearer@.len() == vertex_group_1@.len(),
        forall|i: int|
            0 <= i < nearer@.len() ==> (#[trigger] nearer@[i])@.len() + 1 == vertex_group_2@.len(),
    ensures
        r.wf(),
        r.vertices@ == ring_points(mesh1.vertices@, vertex_group_1@) + ring_points(
            mesh2.vertices@,
            vertex_group_2@,
        ),
        r.faces@ == bridge_faces(vertex_group_1@.len() as int, vertex_group_2@.len() as int, nearer@),
        r.faces@.len() == vertex_group_1@.len() + vertex_group_2@.len() - 2,
        r.vertex_groups@.len() == 0,
{
    let m = vertex_group_1.len();
    let k = vertex_group_2.len();
    let ghost t = nearer@;
    let mut verts: Vec<V> = Vec::with_capacity(m + k);
    let mut i: usize = 0;
    while i < m
        invariant
            m == vertex_group_1@.len(),
            i <= m,
            group_in_range(vertex_group_1@, mesh1.vertices@.len() as int),
            verts@ == ring_points(mesh1.vertices@, vertex_group_1@.take(i as int)),
        decreases m - i,
    {
        verts.push(mesh1.vertices[vertex_group_1[i].vert_index as usize]);
        i += 1;
        assert(verts@ =~= ring_points(mesh1.vertices@, vertex_group_1@.take(i as int)));
    }
    assert(vertex_group_1@.take(m as int) == vertex_group_1@);
    let ghost first = verts@;
    let mut i: usize = 0;
    while i < k
        invariant
            k == vertex_group_2@.len(),
            i <= k,
            group_in_range(vertex_group_2@, mesh2.vertices@.len() as int),
            verts@ == first + ring_points(mesh2.vertices@, vertex_group_2@.take(i as int)),
        decreases k - i,
    {
        verts.push(mesh2.vertices[vertex_group_2[i].vert_index as usize]);
        i += 1;
        assert(verts@ =~= first + ring_points(mesh2.vertices@, vertex_group_2@.take(i as int)));
    }
    assert(vertex_group_2@.take(k as int) == vertex_group_2@);

    let mu = m as u32;
    let mut faces: Vec<Face> = Vec::new();
    let mut p1: usize = 1;
    let mut p2: usize = 1;
    proof {
        lemma_bridge_shape(m as int, k as int, t);
    }
    loop
        invariant_except_break
            1 <= p1 <= m - 2,
            1 <= p2 <= k - 2,
            faces@ + bridge_walk(m as int, k as int, t, p1 as int, p2 as int) == bridge_faces(
                m as int,
                k as int,
                t,
            ),
        invariant
            m == vertex_group_1@.len(),
            k == vertex_group_2@.len(),
            mu == m,
            3 <= m,
            3 <= k,
            m + k <= u32::MAX,
            t == nearer@,
            nearer@.len() == m,
            forall|i: int| 0 <= i < nearer@.len() ==> (#[trigger] nearer@[i])@.len() + 1 == k,
        ensures
            faces@ == bridge_faces(m as int, k as int, t),
        decreases (m - p1) + (k - p2),
    {
        let row = &nearer[p1];
        if row[p2] {
            faces.push(Face(p1 as u32 - 1, p1 as u32, mu + p2 as u32 - 1));
            p1 += 1;
        } else {
            faces.push(Face(p1 as u32 - 1, mu + p2 as u32, mu + p2 as u32 - 1));
            p2 += 1;
        }
        if p1 == m - 1 {
            faces.push(Face(p1 as u32 - 1, p1 as u32, mu + p2 as u32 - 1));
            let ghost head = faces@;
            assert(head + fan_ring2(m as int, k as int, p1 as int, p2 as int) =~= bridge_faces(
                m as int,
                k as int,
                t,
            ));
            let ghost p2_start = p2 as int;
            while p2 < k
                invariant
                    m == vertex_group_1@.len(),
                    k == vertex_group_2@.len(),
                    mu == m,
                    m + k <= u32::MAX,
                    p1 == m - 1,
                    1 <= p2_start <= p2 <= k,
                    faces@ == head + fan_ring2(m as int, k as int, p1 as int, p2_start).take(
                        p2 - p2_start,
                    ),
                decreases k - p2,
            {
                faces.push(Face(p1 as u32, mu + p2 as u32, mu + p2 as u32 - 1));
                p2 += 1;
                assert(faces@ =~= head + fan_ring2(m as int, k as int, p1 as int, p2_start).take(
                    p2 - p2_start,
                ));
            }
            assert(fan_ring2(m as int, k as int, p1 as int, p2_start).take(k - p2_start) =~= fan_ring2(
                m as int,
                k as int,
                p1 as int,
                p2_start,
            ));
            break ;
        }
        if p2 == k - 1 {
            faces.push(Face(p1 as u32 - 1, mu + p2 as u32, mu + p2 as u32 - 1));
            let ghost head = faces@;
            assert(head + fan_ring1(m as int, k as int, p1 as int, p2 as int) =~= bridge_faces(
                m as int,
                k as int,
                t,
            ));
            let ghost p1_start = p1 as int;
            while p1 < m
                invariant
                    m == vertex_group_1@.len(),
                    k == vertex_group_2@.len(),
                    mu == m,
                    m + k <= u32::MAX,
                    p2 == k - 1,
                    1 <= p1_start <= p1 <= m,
                    faces@ == head + fan_ring1(m as int, k as int, p1_start, p2 as int).take(
                        p1 - p1_start,
                    ),
                decreases m - p1,
            {
                faces.push(Face(p1 as u32 - 1, p1 as u32, mu + p2 as u32));
                p1 += 1;
                assert(faces@ =~= head + fan_ring1(m as int, k as int, p1_start, p2 as int).take(
                    p1 - p1_start,
                ));
            }
            assert(fan_ring1(m as int, k as int, p1_start, p2 as int).take(m - p1_start) =~= fan_ring1(
                m as int,
                k as int,
                p1_start,
                p2 as int,
            ));
            break ;
        }
        assert(faces@ + bridge_walk(m as int, k as int, t, p1 as int, p2 as int) =~= bridge_faces(
            m as int,
            k as int,
            t,
        ));
    }
    let r = Mesh { vertices: verts, faces, vertex_groups: Vec::new() };
    assert(r.faces@ == bridge_faces(m as int, k as int, t));
    r
}

} // verus!
