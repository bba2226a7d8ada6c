//! Ordering a vertex group into a closed ring.
use vstd::prelude::*;
use crate::mesh::{VertWeight, VertexGroup, group_in_range};

verus! {

broadcast use vstd::seq_lib::group_to_multiset_ensures;

/// The entries of `g` come in order of falling key, the key of an entry
/// being that of its vertex.
pub open spec fn radially_ordered(keys: Seq<u32>, g: Seq<VertWeight>) -> bool {
    forall|i: int, j: int|
        #![trigger g[i], g[j]]
        0 <= i < j < g.len() ==> keys[g[i].vert_index as int] >= keys[g[j].vert_index as int]
}

/// Orders a vertex group by the angle of its vertices about the bend axis,
/// largest angle first, and closes it into a loop by repeating its new first
/// entry at the end.
///
/// `angle_keys[v]` stands for the angle of vertex `v`: keys order as the
/// angles do. Entries of equal angle keep their relative order.
pub fn sort_vertex_group_radial(angle_keys: &Vec<u32>, vert_group: &mut VertexGroup)
    requires
        old(vert_group)@.len() > 0,
        group_in_range(old(vert_group)@, angle_keys@.len() as int),
    ensures
        final(vert_group)@.len() == old(vert_group)@.len() + 1,
        final(vert_group)@.drop_last().to_multiset() == old(vert_group)@.to_multiset(),
        radially_ordered(angle_keys@, final(vert_group)@.drop_last()),
        final(vert_group)@.last() == final(vert_group)@[0],
{
    let ghost keys = angle_keys@;
    let ghost input = vert_group@;
    let mut sorted: VertexGroup = Vec::new();
    let mut i: usize = 0;
    while i < vert_group.len()
        invariant
            vert_group@ == input,
            keys == angle_keys@,
            group_in_range(input, keys.len() as int),
            i <= input.len(),
            sorted@.len() == i,
            sorted@.to_multiset() == input.take(i as int).to_multiset(),
            group_in_range(sorted@, keys.len() as int),
            radially_ordered(keys, sorted@),
        decreases input.len() - i,
    {
        let w = vert_group[i];
        assert(w.vert_index < keys.len());
        let key = angle_keys[w.vert_index as usize];
        let mut p: usize = 0;
        while p < sorted.len() && angle_keys[sorted[p].vert_index as usize] >= key
            invariant
                p <= sorted@.len(),
                group_in_range(sorted@, keys.len() as int),
                keys == angle_keys@,
                w.vert_index < keys.len(),
                key == keys[w.vert_index as int],
                forall|q: int| 0 <= q < p ==> keys[#[trigger] sorted@[q].vert_index as int] >= key,
            decreases sorted@.len() - p,
        {
            p += 1;
        }
        let ghost before = sorted@;
        sorted.insert(p, w);
        proof {
            assert(input.take(i + 1) == input.take(i as int).push(w));
            assert forall|a: int, b: int|
                #![trigger sorted@[a], sorted@[b]]
                0 <= a < b < sorted@.len() implies keys[sorted@[a].vert_index as int]
                >= keys[sorted@[b].vert_index as int] by {
                if a < p && b > p {
                    assert(sorted@[a] == before[a]);
                    assert(sorted@[b] == before[b - 1]);
                } else if a == p && b > p {
                    assert(sorted@[b] == before[b - 1]);
                    if p < before.len() {
                        assert(keys[before[p as int].vert_index as int] < key);
                        assert(keys[before[p as int].vert_index as int] >= keys[before[b - 1].vert_index as int]);
                    }
                } else if a > p {
                    assert(sorted@[a] == before[a - 1]);
                    assert(sorted@[b] == before[b - 1]);
                } else if b == p {
                    assert(sorted@[a] == before[a]);
                } else {
                    assert(sorted@[a] == before[a]);
                    assert(sorted@[b] == before[b]);
                }
            }
        }
        i += 1;
    }
    assert(input.take(input.len() as int) == input);
    let ghost done = sorted@;
    let first = sorted[0];
    sorted.push(first);
    assert(sorted@.drop_last() == done);
    *vert_group = sorted;
}

} // verus!
