//! The indexed mesh model.
//!
//! A mesh is a vertex buffer, a buffer of triangles that index into it and a
//! set of named vertex groups. The library never looks inside a vertex: it is
//! generic over the vertex payload, so every operation here is about index
//! bookkeeping, and the geometry itself is left to the caller.
use vstd::prelude::*;

verus! {

/// Position of a vertex in a mesh's vertex buffer.
pub type VertexIndex = u32;

/// A triangle, as three corners given by vertex index. The order of the
/// corners is the winding of the triangle.
#[derive(Debug, Clone, Copy, PartialEq, Eq, Structural)]
pub struct Face(pub VertexIndex, pub VertexIndex, pub VertexIndex);

/// A member of a vertex group: a vertex index and a weight. The weight is
/// kept as the bit pattern of a single-precision float; nothing here reads
/// it, every operation carries it along unchanged.
#[derive(Debug, Clone, Copy, PartialEq, Eq, Structural)]
pub struct VertWeight {
    pub vert_index: VertexIndex,
    pub weight_bits: u32,
}

/// An ordered subset of a mesh's vertices.
pub type VertexGroup = Vec<VertWeight>;

impl VertWeight {
    pub fn new(vert_index: VertexIndex, weight_bits: u32) -> (r: Self)
        ensures
            r.vert_index == vert_index,
            r.weight_bits == weight_bits,
    {
        VertWeight { vert_index, weight_bits }
    }
}

pub open spec fn face_in_range(f: Face, n: int) -> bool {
    f.0 < n && f.1 < n && f.2 < n
}

pub open spec fn group_in_range(g: Seq<VertWeight>, n: int) -> bool {
    forall|i: int| 0 <= i < g.len() ==> #[trigger] g[i].vert_index < n
}

/// The face with every corner moved up by `off`.
pub open spec fn shift_face(f: Face, off: int) -> Face {
    Face((f.0 + off) as u32, (f.1 + off) as u32, (f.2 + off) as u32)
}

/// The group entry with its vertex index moved up by `off`.
pub open spec fn shift_weight(w: VertWeight, off: int) -> VertWeight {
    VertWeight { vert_index: (w.vert_index + off) as u32, weight_bits: w.weight_bits }
}

pub open spec fn shift_faces(fs: Seq<Face>, off: int) -> Seq<Face> {
    fs.map_values(|f: Face| shift_face(f, off))
}

pub open spec fn shift_group(g: Seq<VertWeight>, off: int) -> Seq<VertWeight> {
    g.map_values(|w: VertWeight| shift_weight(w, off))
}

/// Appends the entries of `src` to `dst`, each vertex index moved up by `off`.
fn append_shifted(dst: &mut VertexGroup, src: &VertexGroup, off: u32)
    requires
        forall|i: int| 0 <= i < src@.len() ==> #[trigger] src@[i].vert_index + off <= u32::MAX,
    ensures
        final(dst)@ == old(dst)@ + shift_group(src@, off as int),
{
    let ghost start = dst@;
    let mut i: usize = 0;
    while i < src.len()
        invariant
            i <= src@.len(),
            forall|j: int| 0 <= j < src@.len() ==> #[trigger] src@[j].vert_index + off <= u32::MAX,
            dst@ == start + shift_group(src@.take(i as int), off as int),
        decreases src@.len() - i,
    {
        let w = src[i];
        dst.push(VertWeight { vert_index: w.vert_index + off, weight_bits: w.weight_bits });
        i += 1;
        assert(src@.take(i as int) == src@.take(i - 1).push(w));
        assert(shift_group(src@.take(i as int), off as int) == shift_group(
            src@.take(i - 1),
            off as int,
        ).push(shift_weight(w, off as int)));
    }
    assert(src@.take(src@.len() as int) == src@);
}

/// Returns a copy of `group` with every vertex index moved up by `offset`.
pub fn offset_vert_group(group: &VertexGroup, offset: u32) -> (r: VertexGroup)
    requires
        forall|i: int| 0 <= i < group@.len() ==> #[trigger] group@[i].vert_index + offset <= u32::MAX,
    ensures
        r@ == shift_group(group@, offset as int),
{
    let mut r: VertexGroup = Vec::new();
    append_shifted(&mut r, group, offset);
    assert(r@ =~= shift_group(group@, offset as int));
    r
}

/// What a list of named groups holds, as a map from name to entries. Where a
/// name occurs twice the later entry wins; a well-formed mesh has unique names.
pub open spec fn groups_map(gs: Seq<(String, VertexGroup)>) -> Map<Seq<char>, Seq<VertWeight>>
    decreases gs.len(),
{
    if gs.len() == 0 {
        Map::empty()
    } else {
        groups_map(gs.drop_last()).insert(gs.last().0@, gs.last().1@)
    }
}

pub open spec fn names_unique(gs: Seq<(String, VertexGroup)>) -> bool {
    forall|i: int, j: int| 0 <= i < j < gs.len() ==> #[trigger] gs[i].0@ != #[trigger] gs[j].0@
}

/// The groups of `a` joined with those of `b`, whose indices are moved up by
/// `off`: a name in both gets `b`'s entries after its own, a name in one of
/// them keeps (shifted, for `b`) what it had.
pub open spec fn join_groups(
    a: Map<Seq<char>, Seq<VertWeight>>,
    b: Map<Seq<char>, Seq<VertWeight>>,
    off: int,
) -> Map<Seq<char>, Seq<VertWeight>> {
    Map::new(
        |n: Seq<char>| a.contains_key(n) || b.contains_key(n),
        |n: Seq<char>|
            if b.contains_key(n) {
                (if a.contains_key(n) {
                    a[n]
                } else {
                    Seq::empty()
                }) + shift_group(b[n], off)
            } else {
                a[n]
            },
    )
}

proof fn lemma_groups_map_lookup(gs: Seq<(String, VertexGroup)>)
    requires
        names_unique(gs),
    ensures
        forall|i: int|
            0 <= i < gs.len() ==> groups_map(gs).contains_key(#[trigger] gs[i].0@) && groups_map(
                gs,
            )[gs[i].0@] == gs[i].1@,
        forall|n: Seq<char>|
            #[trigger] groups_map(gs).contains_key(n) ==> exists|i: int|
                0 <= i < gs.len() && gs[i].0@ == n,
    decreases gs.len(),
{
    if gs.len() > 0 {
        let dl = gs.drop_last();
        assert(names_unique(dl));
        lemma_groups_map_lookup(dl);
        assert forall|n: Seq<char>| #[trigger] groups_map(gs).contains_key(n) implies exists|i: int|
            0 <= i < gs.len() && gs[i].0@ == n by {
            if n != gs.last().0@ {
                assert(groups_map(dl).contains_key(n));
                let i = choose|i: int| 0 <= i < dl.len() && dl[i].0@ == n;
                assert(gs[i].0@ == n);
            } else {
                assert(gs[gs.len() - 1].0@ == n);
            }
        }
        assert forall|i: int| 0 <= i < gs.len() implies groups_map(gs).contains_key(
            #[trigger] gs[i].0@,
        ) && groups_map(gs)[gs[i].0@] == gs[i].1@ by {
            if i < gs.len() - 1 {
                assert(dl[i] == gs[i]);
                assert(gs[i].0@ != gs[gs.len() - 1].0@);
            }
        }
    }
}

proof fn lemma_groups_map_update(gs: Seq<(String, VertexGroup)>, j: int, x: (String, VertexGroup))
    requires
        names_unique(gs),
        0 <= j < gs.len(),
        gs[j].0@ == x.0@,
    ensures
        groups_map(gs.update(j, x)) == groups_map(gs).insert(x.0@, x.1@),
        names_unique(gs.update(j, x)),
    decreases gs.len(),
{
    let u = gs.update(j, x);
    let dl = gs.drop_last();
    assert(names_unique(u)) by {
        assert forall|a: int, b: int| 0 <= a < b < u.len() implies #[trigger] u[a].0@
            != #[trigger] u[b].0@ by {
            assert(gs[a].0@ != gs[b].0@);
        }
    }
    if j == gs.len() - 1 {
        assert(u.drop_last() == dl);
        assert(groups_map(u) =~= groups_map(gs).insert(x.0@, x.1@));
    } else {
        assert(names_unique(dl));
        assert(u.drop_last() == dl.update(j, x));
        lemma_groups_map_update(dl, j, x);
        assert(gs[j].0@ != gs[gs.len() - 1].0@);
        assert(groups_map(u) =~= groups_map(gs).insert(x.0@, x.1@));
    }
}

/// A triangle mesh: vertices, triangles that index into them, and named
/// vertex groups.
pub struct Mesh<V> {
    pub vertices: Vec<V>,
    pub faces: Vec<Face>,
    pub vertex_groups: Vec<(String, VertexGroup)>,
}

impl<V> Mesh<V> {
    /// Every face and group index is below the vertex count, and group names
    /// are unique.
    pub open spec fn wf(&self) -> bool {
        &&& forall|i: int|
            0 <= i < self.faces@.len() ==> face_in_range(
                #[trigger] self.faces@[i],
                self.vertices@.len() as int,
            )
        &&& forall|i: int|
            0 <= i < self.vertex_groups@.len() ==> group_in_range(
                #[trigger] self.vertex_groups@[i].1@,
                self.vertices@.len() as int,
            )
        &&& names_unique(self.vertex_groups@)
    }

    pub open spec fn groups(&self) -> Map<Seq<char>, Seq<VertWeight>> {
        groups_map(self.vertex_groups@)
    }
}


/// The index of the group named `name`, if there is one.
fn find_group(gs: &Vec<(String, VertexGroup)>, name: &String) -> (r: Option<usize>)
    ensures
        match r {
            Some(j) => j < gs@.len() && gs@[j as int].0@ == name@,
            None => forall|i: int| 0 <= i < gs@.len() ==> #[trigger] gs@[i].0@ != name@,
        },
{
    let mut i: usize = 0;
    while i < gs.len()
        invariant
            i <= gs@.len(),
            forall|k: int| 0 <= k < i ==> #[trigger] gs@[k].0@ != name@,
        decreases gs@.len() - i,
    {
        if gs[i].0 == *name {
            return Some(i);
        }
        i += 1;
    }
    None
}

impl<V: Copy> Mesh<V> {
    /// Joins `other` into this mesh: its vertices are appended, its faces
    /// and groups are appended with every index moved up by the old vertex
    /// count, and a group whose name this mesh already has is appended to
    /// the existing group. Returns the old vertex count, the amount by which
    /// `other`'s indices were moved.
    pub fn extend(&mut self, other: &Self) -> (r: u32)
        requires
            old(self).wf(),
            other.wf(),
            old(self).vertices@.len() + other.vertices@.len() <= u32::MAX,
        ensures
            r == old(self).vertices@.len(),
            final(self).wf(),
            final(self).vertices@ == old(self).vertices@ + other.vertices@,
            final(self).faces@ == old(self).faces@ + shift_faces(other.faces@, r as int),
            final(self).groups() == join_groups(old(self).groups(), other.groups(), r as int),
    {
        let ghost old_self = *self;
        let vert_offset = self.vertices.len() as u32;
        let mut i: usize = 0;
        while i < other.vertices.len()
            invariant
                i <= other.vertices@.len(),
                self.vertices@ == old_self.vertices@ + other.vertices@.take(i as int),
                self.faces == old_self.faces,
                self.vertex_groups == old_self.vertex_groups,
            decreases other.vertices@.len() - i,
        {
            self.vertices.push(other.vertices[i]);
            i += 1;
            assert(other.vertices@.take(i as int) == other.vertices@.take(i - 1).push(
                other.vertices@[i - 1],
            ));
        }
        assert(other.vertices@.take(other.vertices@.len() as int) == other.vertices@);
        let ghost n = self.vertices@.len() as int;
        let ghost verts = self.vertices@;

        let mut i: usize = 0;
        while i < other.faces.len()
            invariant
                i <= other.faces@.len(),
                n == self.vertices@.len(),
                n == vert_offset + other.vertices@.len(),
                n <= u32::MAX,
                other.wf(),
                self.vertices@ == verts,
                self.faces@ == old_self.faces@ + shift_faces(other.faces@.take(i as int), vert_offset as int),
                self.vertex_groups == old_self.vertex_groups,
            decreases other.faces@.len() - i,
        {
            let f = other.faces[i];
            assert(face_in_range(other.faces@[i as int], other.vertices@.len() as int));
            self.faces.push(Face(f.0 + vert_offset, f.1 + vert_offset, f.2 + vert_offset));
            i += 1;
            assert(other.faces@.take(i as int) == other.faces@.take(i - 1).push(f));
            assert(shift_faces(other.faces@.take(i as int), vert_offset as int) == shift_faces(
                other.faces@.take(i - 1),
                vert_offset as int,
            ).push(shift_face(f, vert_offset as int)));
        }
        assert(other.faces@.take(other.faces@.len() as int) == other.faces@);

        let ghost a = old_self.groups();
        let mut i: usize = 0;
        while i < other.vertex_groups.len()
            invariant
                i <= other.vertex_groups@.len(),
                n == self.vertices@.len(),
                n == vert_offset + other.vertices@.len(),
                n <= u32::MAX,
                vert_offset == old_self.vertices@.len(),
                other.wf(),
                old_self.wf(),
                self.vertices@ == verts,
                self.faces@ == old_self.faces@ + shift_faces(other.faces@, vert_offset as int),
                names_unique(self.vertex_groups@),
                forall|k: int|
                    0 <= k < self.vertex_groups@.len() ==> group_in_range(
                        #[trigger] self.vertex_groups@[k].1@,
                        n,
                    ),
                self.groups() == join_groups(
                    a,
                    groups_map(other.vertex_groups@.take(i as int)),
                    vert_offset as int,
                ),
            decreases other.vertex_groups@.len() - i,
        {
            let ghost gs = self.vertex_groups@;
            let ghost taken = other.vertex_groups@.take(i as int);
            let ghost name = other.vertex_groups@[i as int].0@;
            let src = &other.vertex_groups[i].1;
            assert(group_in_range(src@, other.vertices@.len() as int));
            proof {
                lemma_groups_map_lookup(gs);
                assert(names_unique(taken));
                lemma_groups_map_lookup(taken);
                assert(!groups_map(taken).contains_key(name)) by {
                    if groups_map(taken).contains_key(name) {
                        let k = choose|k: int| 0 <= k < taken.len() && taken[k].0@ == name;
                        assert(other.vertex_groups@[k].0@ != other.vertex_groups@[i as int].0@);
                    }
                }
            }
            match find_group(&self.vertex_groups, &other.vertex_groups[i].0) {
                Some(j) => {
                    let mut merged: VertexGroup = Vec::new();
                    append_shifted(&mut merged, &self.vertex_groups[j].1, 0);
                    append_shifted(&mut merged, src, vert_offset);
                    let entry = (other.vertex_groups[i].0.clone(), merged);
                    proof {
                        assert(shift_group(gs[j as int].1@, 0) =~= gs[j as int].1@);
                        lemma_groups_map_update(gs, j as int, entry);
                    }
                    self.vertex_groups.set(j, entry);
                },
                None => {
                    let shifted = offset_vert_group(src, vert_offset);
                    self.vertex_groups.push((other.vertex_groups[i].0.clone(), shifted));
                    assert(self.vertex_groups@.drop_last() == gs);
                    assert(!groups_map(gs).contains_key(name)) by {
                        if groups_map(gs).contains_key(name) {
                            let k = choose|k: int| 0 <= k < gs.len() && gs[k].0@ == name;
                        }
                    }
                },
            }
            i += 1;
            assert(other.vertex_groups@.take(i as int).drop_last() == taken);
            assert(self.groups() =~= join_groups(
                a,
                groups_map(other.vertex_groups@.take(i as int)),
                vert_offset as int,
            ));
        }
        assert(other.vertex_groups@.take(other.vertex_groups@.len() as int) == other.vertex_groups@);
        vert_offset
    }
}


impl<V> Mesh<V> {
    /// The group named `name`, if the mesh has one.
    pub fn group(&self, name: &String) -> (r: Option<&VertexGroup>)
        requires
            self.wf(),
        ensures
            match r {
                Some(g) => self.groups().contains_key(name@) && g@ == self.groups()[name@],
                None => !self.groups().contains_key(name@),
            },
    {
        proof {
            lemma_groups_map_lookup(self.vertex_groups@);
        }
        match find_group(&self.vertex_groups, name) {
            Some(j) => Some(&self.vertex_groups[j].1),
            None => None,
        }
    }
}

impl<V> Mesh<V> {
    /// Whether every index is in range and group names are unique.
    pub fn is_well_formed(&self) -> (r: bool)
        ensures
            r == self.wf(),
    {
        let n = self.vertices.len();
        let mut i: usize = 0;
        while i < self.faces.len()
            invariant
                n == self.vertices@.len(),
                i <= self.faces@.len(),
                forall|q: int| 0 <= q < i ==> face_in_range(#[trigger] self.faces@[q], n as int),
            decreases self.faces@.len() - i,
        {
            let f = self.faces[i];
            if f.0 as usize >= n || f.1 as usize >= n || f.2 as usize >= n {
                assert(!face_in_range(self.faces@[i as int], n as int));
                return false;
            }
            i += 1;
        }
        let mut i: usize = 0;
        while i < self.vertex_groups.len()
            invariant
                n == self.vertices@.len(),
                i <= self.vertex_groups@.len(),
                forall|q: int| 0 <= q < self.faces@.len() ==> face_in_range(#[trigger] self.faces@[q], n as int),
                forall|q: int|
                    0 <= q < i ==> group_in_range(#[trigger] self.vertex_groups@[q].1@, n as int),
                forall|a: int, b: int|
                    0 <= a < b < self.vertex_groups@.len() && a < i ==> #[trigger] self.vertex_groups@[a].0@
                        != #[trigger] self.vertex_groups@[b].0@,
            decreases self.vertex_groups@.len() - i,
        {
            let g = &self.vertex_groups[i].1;
            let mut j: usize = 0;
            while j < g.len()
                invariant
                    n == self.vertices@.len(),
                    i < self.vertex_groups@.len(),
                    g@ == self.vertex_groups@[i as int].1@,
                    j <= g@.len(),
                    forall|q: int| 0 <= q < j ==> #[trigger] g@[q].vert_index < n,
                decreases g@.len() - j,
            {
                if g[j].vert_index as usize >= n {
                    assert(g@[j as int].vert_index >= n);
                    assert(!group_in_range(self.vertex_groups@[i as int].1@, n as int));
                    return false;
                }
                j += 1;
            }
            let mut j: usize = i + 1;
            while j < self.vertex_groups.len()
                invariant
                    i < j <= self.vertex_groups@.len(),
                    forall|b: int|
                        i < b < j ==> self.vertex_groups@[i as int].0@ != #[trigger] self.vertex_groups@[b].0@,
                decreases self.vertex_groups@.len() - j,
            {
                if self.vertex_groups[i].0 == self.vertex_groups[j].0 {
                    return false;
                }
                j += 1;
            }
            i += 1;
        }
        true
    }
}

impl<V> Default for Mesh<V> {
    /// The empty mesh.
    fn default() -> (r: Self)
        ensures
            r.vertices@.len() == 0,
            r.faces@.len() == 0,
            r.vertex_groups@.len() == 0,
    {
        Mesh { vertices: Vec::new(), faces: Vec::new(), vertex_groups: Vec::new() }
    }
}

/// Joining a mesh with an empty one changes nothing: the vertices, the faces
/// and the groups that `extend` states for the result are those the mesh
/// had, and the returned offset is its vertex count.
pub proof fn lemma_extend_with_empty<V>(target: Mesh<V>, empty: Mesh<V>)
    requires
        empty.vertices@.len() == 0,
        empty.faces@.len() == 0,
        empty.vertex_groups@.len() == 0,
    ensures
        target.vertices@ + empty.vertices@ == target.vertices@,
        target.faces@ + shift_faces(empty.faces@, target.vertices@.len() as int) == target.faces@,
        join_groups(target.groups(), empty.groups(), target.vertices@.len() as int)
            == target.groups(),
{
    assert(target.vertices@ + empty.vertices@ =~= target.vertices@);
    assert(target.faces@ + shift_faces(empty.faces@, target.vertices@.len() as int) =~= target.faces@);
    assert(empty.groups() == Map::<Seq<char>, Seq<VertWeight>>::empty());
    assert(join_groups(target.groups(), empty.groups(), target.vertices@.len() as int)
        =~= target.groups());
}

/// The first position `p >= from` of `leaders` whose vertex `row` marks as
/// near, or `leaders.len()` where there is none.
pub open spec fn first_near(row: Seq<bool>, leaders: Seq<u32>, from: int) -> int
    decreases leaders.len() - from,
{
    if from >= leaders.len() || from < 0 {
        leaders.len() as int
    } else if row[leaders[from] as int] {
        from
    } else {
        first_near(row, leaders, from + 1)
    }
}

/// The vertices that welding keeps among the first `i`, by original index,
/// in order: a vertex is kept unless it is near one kept before it.
/// `near[i][j]` says whether vertex `i` lies within the weld distance of an
/// earlier vertex `j`.
pub open spec fn weld_leaders(near: Seq<Vec<bool>>, i: int) -> Seq<u32>
    decreases i,
{
    if i <= 0 {
        Seq::empty()
    } else {
        let ls = weld_leaders(near, i - 1);
        if first_near(near[i - 1]@, ls, 0) < ls.len() {
            ls
        } else {
            ls.push((i - 1) as u32)
        }
    }
}

/// The new index of vertex `i`: the position of the first kept vertex it is
/// near, or its own new position where it is kept.
pub open spec fn weld_target(near: Seq<Vec<bool>>, i: int) -> int {
    first_near(near[i]@, weld_leaders(near, i), 0)
}

pub open spec fn weld_face(near: Seq<Vec<bool>>, f: Face) -> Face {
    Face(
        weld_target(near, f.0 as int) as u32,
        weld_target(near, f.1 as int) as u32,
        weld_target(near, f.2 as int) as u32,
    )
}

pub open spec fn degenerate(f: Face) -> bool {
    f.0 == f.1 || f.1 == f.2 || f.0 == f.2
}

/// The faces rewritten through the weld, in order, without those that lost
/// a corner.
pub open spec fn welded_faces(faces: Seq<Face>, near: Seq<Vec<bool>>) -> Seq<Face>
    decreases faces.len(),
{
    if faces.len() == 0 {
        Seq::empty()
    } else {
        let prev = welded_faces(faces.drop_last(), near);
        let f = weld_face(near, faces.last());
        if degenerate(f) {
            prev
        } else {
            prev.push(f)
        }
    }
}

pub open spec fn square_table(t: Seq<Vec<bool>>, n: int) -> bool {
    t.len() == n && forall|i: int| 0 <= i < n ==> (#[trigger] t[i])@.len() == n
}

impl<V: Copy> Mesh<V> {
    /// Welds vertices that lie within a distance of each other, returning a
    /// new mesh. `near[i][j]` (for `j < i`) tells whether vertex `i` lies
    /// within that distance of vertex `j`.
    ///
    /// Vertices are taken in order; each one joins the first kept vertex it
    /// is near, or is kept. Faces are rewritten through this map and those
    /// with two equal corners are dropped. Vertex groups are not kept.
    pub fn merge_by_distance(&self, near: &Vec<Vec<bool>>) -> (r: Self)
        requires
            self.wf(),
            self.vertices@.len() <= u32::MAX,
            square_table(near@, self.vertices@.len() as int),
        ensures
            r.wf(),
            r.vertices@ == weld_leaders(near@, self.vertices@.len() as int).map_values(
                |j: u32| self.vertices@[j as int],
            ),
            r.faces@ == welded_faces(self.faces@, near@),
            r.vertex_groups@.len() == 0,
    {
        let n = self.vertices.len();
        let ghost t = near@;
        let mut leaders: Vec<u32> = Vec::new();
        let mut new_vertices: Vec<V> = Vec::new();
        let mut index_remap: Vec<u32> = Vec::new();
        let mut i: usize = 0;
        while i < n
            invariant
                n == self.vertices@.len(),
                n <= u32::MAX,
                t == near@,
                square_table(t, n as int),
                i <= n,
                leaders@ == weld_leaders(t, i as int),
                leaders@.len() <= i,
                forall|q: int| 0 <= q < leaders@.len() ==> #[trigger] leaders@[q] < i,
                new_vertices@ == leaders@.map_values(|j: u32| self.vertices@[j as int]),
                index_remap@.len() == i,
                forall|q: int|
                    0 <= q < i ==> #[trigger] index_remap@[q] == weld_target(t, q)
                        && index_remap@[q] < leaders@.len(),
            decreases n - i,
        {
            let row = &near[i];
            assert(row@.len() == n);
            let mut p: usize = 0;
            let mut found = false;
            while p < leaders.len()
                invariant_except_break
                    !found,
                invariant
                    row@ == t[i as int]@,
                    row@.len() == n,
                    i < n,
                    leaders@.len() <= i,
                    forall|q: int| 0 <= q < leaders@.len() ==> #[trigger] leaders@[q] < i,
                    p <= leaders@.len(),
                    first_near(row@, leaders@, 0) == first_near(row@, leaders@, p as int),
                ensures
                    found ==> p < leaders@.len() && first_near(row@, leaders@, 0) == p,
                    !found ==> first_near(row@, leaders@, 0) == leaders@.len(),
                decreases leaders@.len() - p,
            {
                if row[leaders[p] as usize] {
                    found = true;
                    break;
                }
                p += 1;
            }
            let ghost ls = leaders@;
            if found {
                index_remap.push(p as u32);
            } else {
                index_remap.push(leaders.len() as u32);
                leaders.push(i as u32);
                new_vertices.push(self.vertices[i]);
                assert(new_vertices@ =~= leaders@.map_values(|j: u32| self.vertices@[j as int]));
            }
            i += 1;
            assert(weld_leaders(t, i as int) == leaders@);
        }

        let mut faces: Vec<Face> = Vec::new();
        let mut i: usize = 0;
        while i < self.faces.len()
            invariant
                self.wf(),
                n == self.vertices@.len(),
                index_remap@.len() == n,
                forall|q: int|
                    0 <= q < n ==> #[trigger] index_remap@[q] == weld_target(t, q)
                        && index_remap@[q] < new_vertices@.len(),
                new_vertices@.len() == leaders@.len(),
                i <= self.faces@.len(),
                faces@ == welded_faces(self.faces@.take(i as int), t),
                forall|q: int| 0 <= q < faces@.len() ==> face_in_range(#[trigger] faces@[q], new_vertices@.len() as int),
            decreases self.faces@.len() - i,
        {
            let f = self.faces[i];
            assert(face_in_range(self.faces@[i as int], n as int));
            let v1 = index_remap[f.0 as usize];
            let v2 = index_remap[f.1 as usize];
            let v3 = index_remap[f.2 as usize];
            if v1 != v2 && v2 != v3 && v1 != v3 {
                faces.push(Face(v1, v2, v3));
            }
            i += 1;
            assert(self.faces@.take(i as int).drop_last() == self.faces@.take(i - 1));
        }
        assert(self.faces@.take(self.faces@.len() as int) == self.faces@);
        Mesh { vertices: new_vertices, faces, vertex_groups: Vec::new() }
    }
}


proof fn lemma_first_near(row: Seq<bool>, leaders: Seq<u32>, from: int)
    requires
        0 <= from <= leaders.len(),
    ensures
        first_near(row, leaders, from) < leaders.len() ==> from <= first_near(row, leaders, from)
            && row[leaders[first_near(row, leaders, from)] as int],
        first_near(row, leaders, from) == leaders.len() || first_near(row, leaders, from)
            < leaders.len(),
        first_near(row, leaders, from) == leaders.len() ==> forall|p: int|
            from <= p < leaders.len() ==> !row[#[trigger] leaders[p] as int],
    decreases leaders.len() - from,
{
    if from < leaders.len() && !row[leaders[from] as int] {
        lemma_first_near(row, leaders, from + 1);
    }
}

proof fn lemma_leaders_bounded(near: Seq<Vec<bool>>, i: int)
    requires
        0 <= i <= u32::MAX,
    ensures
        weld_leaders(near, i).len() <= i,
        forall|q: int|
            0 <= q < weld_leaders(near, i).len() ==> #[trigger] weld_leaders(near, i)[q] < i,
        forall|a: int, b: int|
            0 <= a < b < weld_leaders(near, i).len() ==> #[trigger] weld_leaders(near, i)[a]
                < #[trigger] weld_leaders(near, i)[b],
    decreases i,
{
    if i > 0 {
        lemma_leaders_bounded(near, i - 1);
    }
}

proof fn lemma_leaders_prefix(near: Seq<Vec<bool>>, i: int, j: int)
    requires
        0 <= i <= j <= u32::MAX,
    ensures
        weld_leaders(near, i).len() <= weld_leaders(near, j).len(),
        weld_leaders(near, j).take(weld_leaders(near, i).len() as int) == weld_leaders(near, i),
        forall|q: int|
            weld_leaders(near, i).len() <= q < weld_leaders(near, j).len() ==> #[trigger] weld_leaders(
                near,
                j,
            )[q] >= i,
    decreases j,
{
    if i < j {
        lemma_leaders_prefix(near, i, j - 1);
        let a = weld_leaders(near, i);
        let b = weld_leaders(near, j - 1);
        assert(weld_leaders(near, j).take(b.len() as int) == b);
        assert(weld_leaders(near, j).take(a.len() as int) =~= a);
    } else {
        assert(weld_leaders(near, j).take(weld_leaders(near, j).len() as int) =~= weld_leaders(near, j));
    }
}

/// Whether welding keeps vertex `v`.
pub open spec fn weld_keeps(near: Seq<Vec<bool>>, v: int) -> bool {
    first_near(near[v]@, weld_leaders(near, v), 0) == weld_leaders(near, v).len()
}

proof fn lemma_kept_member(near: Seq<Vec<bool>>, n: int, v: int)
    requires
        0 <= v < n <= u32::MAX,
    ensures
        weld_leaders(near, n).contains(v as u32) <==> weld_keeps(near, v),
{
    lemma_leaders_prefix(near, v + 1, n);
    lemma_leaders_bounded(near, v);
    lemma_first_near(near[v]@, weld_leaders(near, v), 0);
    let all = weld_leaders(near, n);
    let upto = weld_leaders(near, v + 1);
    if weld_keeps(near, v) {
        assert(all[upto.len() - 1] == upto[upto.len() - 1]);
    } else {
        assert(upto == weld_leaders(near, v));
        if all.contains(v as u32) {
            let q = choose|q: int| 0 <= q < all.len() && all[q] == v as u32;
            if q < upto.len() {
                assert(all[q] == upto[q]);
            }
        }
    }
}

/// Welding with a larger distance keeps no more vertices than with a smaller
/// one, where nearness at the larger distance is transitive.
///
/// `near_small` and `near_large` give the nearness of the same vertices at a
/// smaller and a larger distance: whatever is near at the smaller one is near
/// at the larger. Without transitivity the law fails: greedy welding can keep
/// more vertices at the larger distance.
pub proof fn lemma_weld_monotone(near_small: Seq<Vec<bool>>, near_large: Seq<Vec<bool>>, n: int)
    requires
        0 <= n <= u32::MAX,
        square_table(near_small, n),
        square_table(near_large, n),
        forall|i: int, j: int|
            0 <= j < i < n && #[trigger] near_small[i]@[j] ==> near_large[i]@[j],
        forall|a: int, b: int, c: int|
            0 <= c < b < a < n && #[trigger] near_large[a]@[b] && #[trigger] near_large[b]@[c]
                ==> near_large[a]@[c],
    ensures
        weld_leaders(near_large, n).len() <= weld_leaders(near_small, n).len(),
{
    let ls = weld_leaders(near_small, n);
    let ll = weld_leaders(near_large, n);
    lemma_leaders_bounded(near_small, n);
    lemma_leaders_bounded(near_large, n);
    assert forall|x: u32| ll.contains(x) implies ls.contains(x) by {
        let q = choose|q: int| 0 <= q < ll.len() && ll[q] == x;
        let v = x as int;
        lemma_kept_member(near_large, n, v);
        lemma_kept_member(near_small, n, v);
        if !ls.contains(x) {
            // `v` joins some kept `w` at the smaller distance, so it is near
            // `w` at the larger one too.
            let sv = weld_leaders(near_small, v);
            lemma_first_near(near_small[v]@, sv, 0);
            lemma_leaders_bounded(near_small, v);
            let w = sv[first_near(near_small[v]@, sv, 0)] as int;
            assert(near_large[v]@[w]);
            let lv = weld_leaders(near_large, v);
            lemma_first_near(near_large[v]@, lv, 0);
            lemma_leaders_prefix(near_large, w, v);
            lemma_leaders_prefix(near_large, w + 1, v);
            lemma_kept_member(near_large, v, w);
            if weld_keeps(near_large, w) {
                let p = choose|p: int| 0 <= p < lv.len() && lv[p] == w as u32;
                assert(!near_large[v]@[lv[p] as int]);
            } else {
                // `w` joined some kept `z` before it; `v` is near `z` too.
                let lw = weld_leaders(near_large, w);
                lemma_first_near(near_large[w]@, lw, 0);
                lemma_leaders_bounded(near_large, w);
                let pz = first_near(near_large[w]@, lw, 0);
                let z = lw[pz] as int;
                assert(near_large[v]@[z]);
                assert(lv[pz] == lw[pz]);
                assert(!near_large[v]@[lv[pz] as int]);
            }
        }
    }
    ll.unique_seq_to_set();
    ls.unique_seq_to_set();
    assert(ll.to_set().subset_of(ls.to_set()));
    vstd::set_lib::lemma_len_subset(ll.to_set(), ls.to_set());
}

} // verus!
