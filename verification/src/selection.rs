//! Which neighbors an estimator samples at a vertex.
//!
//! A neighborhood is an unordered set, but the numerical result at a vertex depends on
//! which of its members are sampled. The choice is therefore pinned: neighbors are taken
//! by increasing vertex index. The tangent frame of a vertex points toward its first
//! neighbor in that order, and the paraboloid is fitted through its first three.

use crate::mesh::MeshView;
use crate::neighborhood::{lemma_neighbors_in_range, neighbors};
use crate::walk::{lemma_set_walk_ascends, lists_ascending};
use std::collections::BTreeSet;
use vstd::prelude::*;
use vstd::std_specs::iter::IteratorSpec;

verus! {

/// The members of `set` that are smaller than `bound`, by increasing value.
pub open spec fn members_below(set: Set<u32>, bound: nat) -> Seq<u32>
    decreases bound,
{
    if bound == 0 {
        Seq::empty()
    } else {
        let top = (bound - 1) as nat;
        let lower = members_below(set, top);
        if top <= u32::MAX && set.contains(top as u32) {
            lower.push(top as u32)
        } else {
            lower
        }
    }
}

/// The members of `set` by increasing value: the order in which neighbors are sampled.
pub open spec fn ascending(set: Set<u32>) -> Seq<u32> {
    members_below(set, 0x1_0000_0000)
}

/// The first `limit` members of `set` by increasing value, or all of them if there are fewer.
pub open spec fn leading(set: Set<u32>, limit: nat) -> Seq<u32> {
    if limit <= ascending(set).len() {
        ascending(set).take(limit as int)
    } else {
        ascending(set)
    }
}

/// The neighbor toward which the tangent frame of a vertex is built: the smallest member
/// of its neighborhood. A vertex without neighbors has none.
pub open spec fn first_neighbor(set: Set<u32>) -> Option<u32> {
    let walk = ascending(set);
    if walk.len() >= 1 {
        Some(walk[0])
    } else {
        None
    }
}

/// The three neighbors through which the paraboloid at a vertex is fitted: the three
/// smallest members of its neighborhood, by increasing value. A vertex with fewer than
/// three neighbors has none.
pub open spec fn first_three_neighbors(set: Set<u32>) -> Option<(u32, u32, u32)> {
    let walk = ascending(set);
    if walk.len() >= 3 {
        Some((walk[0], walk[1], walk[2]))
    } else {
        None
    }
}

/// The listing of the members below `bound` holds exactly those members, by increasing
/// value.
proof fn lemma_members_below(set: Set<u32>, bound: nat)
    ensures
        forall|k: int|
            0 <= k < members_below(set, bound).len() ==> set.contains(
                #[trigger] members_below(set, bound)[k],
            ) && members_below(set, bound)[k] < bound,
        forall|x: u32|
            set.contains(x) && x < bound ==> #[trigger] members_below(set, bound).contains(x),
        forall|i: int, j: int|
            0 <= i < j < members_below(set, bound).len() ==> #[trigger] members_below(
                set,
                bound,
            )[i] < #[trigger] members_below(set, bound)[j],
    decreases bound,
{
    if bound > 0 {
        let top = (bound - 1) as nat;
        let lower = members_below(set, top);
        let all = members_below(set, bound);
        lemma_members_below(set, top);
        assert forall|x: u32| set.contains(x) && x < bound implies #[trigger] all.contains(x) by {
            if x < top {
                assert(lower.contains(x));
                let k = choose|k: int| 0 <= k < lower.len() && lower[k] == x;
                assert(all[k] == x);
            } else {
                assert(all[all.len() - 1] == x);
            }
        }
    }
}

/// The ascending listing of a set lists exactly its members, each once, by increasing value.
pub proof fn lemma_ascending_lists(set: Set<u32>)
    ensures
        lists_ascending(set, ascending(set)),
{
    lemma_members_below(set, 0x1_0000_0000);
}

/// Two ascending listings of the same set agree on their first `upto` entries.
proof fn lemma_listings_agree_upto(set: Set<u32>, a: Seq<u32>, b: Seq<u32>, upto: int)
    requires
        lists_ascending(set, a),
        lists_ascending(set, b),
        0 <= upto <= a.len(),
    ensures
        upto <= b.len(),
        forall|k: int| 0 <= k < upto ==> a[k] == b[k],
    decreases upto,
{
    if upto > 0 {
        let i = upto - 1;
        lemma_listings_agree_upto(set, a, b, i);
        assert(set.contains(a[i]));
        assert(b.contains(a[i]));
        let j = choose|j: int| 0 <= j < b.len() && b[j] == a[i];
        if j < i {
            assert(a[j] == b[j]);
            assert(a[j] < a[i]);
        }
        assert(set.contains(b[i]));
        assert(a.contains(b[i]));
        let m = choose|m: int| 0 <= m < a.len() && a[m] == b[i];
        if m < i {
            assert(a[m] == b[m]);
            assert(b[m] < b[i]);
        }
        if i < j {
            assert(b[i] < b[j]);
        }
        if i < m {
            assert(a[i] < a[m]);
        }
    }
}

/// The sampling order leaves no freedom: two ascending listings of the same set are the
/// same sequence. Whatever is selected from a neighborhood in this order is determined by
/// the neighborhood alone.
pub proof fn lemma_ascending_unique(set: Set<u32>, a: Seq<u32>, b: Seq<u32>)
    requires
        lists_ascending(set, a),
        lists_ascending(set, b),
    ensures
        a == b,
{
    lemma_listings_agree_upto(set, a, b, a.len() as int);
    lemma_listings_agree_upto(set, b, a, b.len() as int);
    assert(a =~= b);
}

/// Any ascending listing of a set is its sampling order.
pub proof fn lemma_listing_is_ascending(set: Set<u32>, walk: Seq<u32>)
    requires
        lists_ascending(set, walk),
    ensures
        walk == ascending(set),
{
    lemma_ascending_lists(set);
    lemma_ascending_unique(set, walk, ascending(set));
}

/// A finite set has as many members as its ascending listing has entries.
pub proof fn lemma_ascending_len(set: Set<u32>)
    requires
        set.finite(),
    ensures
        ascending(set).len() == set.len(),
{
    let walk = ascending(set);
    lemma_ascending_lists(set);
    assert(walk.no_duplicates()) by {
        assert forall|i: int, j: int|
            0 <= i < walk.len() && 0 <= j < walk.len() && i != j implies walk[i] != walk[j] by {
            if i < j {
                assert(walk[i] < walk[j]);
            } else {
                assert(walk[j] < walk[i]);
            }
        }
    }
    walk.unique_seq_to_set();
    assert(walk.to_set() =~= set) by {
        assert forall|x: u32| walk.to_set().contains(x) <==> set.contains(x) by {
            if walk.contains(x) {
                let k = choose|k: int| 0 <= k < walk.len() && walk[k] == x;
                assert(set.contains(walk[k]));
            }
            if set.contains(x) {
                assert(walk.contains(x));
            }
        }
    }
}

/// A vertex has no frame neighbor exactly when its neighborhood is empty, and otherwise
/// its frame neighbor is the smallest member of the neighborhood.
pub proof fn lemma_first_neighbor_is_least(set: Set<u32>)
    ensures
        first_neighbor(set) is None <==> set == Set::<u32>::empty(),
        first_neighbor(set) matches Some(a) ==> set.contains(a) && forall|x: u32|
            set.contains(x) ==> a <= x,
{
    let walk = ascending(set);
    lemma_ascending_lists(set);
    if walk.len() == 0 {
        assert forall|x: u32| !set.contains(x) by {
            if set.contains(x) {
                assert(walk.contains(x));
            }
        }
        assert(set =~= Set::<u32>::empty());
    } else {
        assert(set.contains(walk[0]));
        assert forall|x: u32| set.contains(x) implies walk[0] <= x by {
            assert(walk.contains(x));
            let k = choose|k: int| 0 <= k < walk.len() && walk[k] == x;
            if 0 < k {
                assert(walk[0] < walk[k]);
            }
        }
    }
}

/// The fit neighbors of a vertex are three distinct members of its neighborhood in
/// increasing order, every other member is larger than all three, and the first of them is
/// its frame neighbor. A vertex has none exactly when it has fewer than three neighbors.
pub proof fn lemma_first_three_are_least(set: Set<u32>)
    ensures
        set.finite() ==> (first_three_neighbors(set) is None <==> set.len() < 3),
        first_three_neighbors(set) matches Some((a, b, c)) ==> {
            &&& set.contains(a) && set.contains(b) && set.contains(c)
            &&& a < b < c
            &&& forall|x: u32| set.contains(x) && x != a && x != b && x != c ==> c < x
            &&& first_neighbor(set) == Some(a)
        },
{
    let walk = ascending(set);
    lemma_ascending_lists(set);
    if set.finite() {
        lemma_ascending_len(set);
    }
    if walk.len() >= 3 {
        assert(set.contains(walk[0]) && set.contains(walk[1]) && set.contains(walk[2]));
        assert(walk[0] < walk[1] && walk[1] < walk[2]);
        assert forall|x: u32|
            set.contains(x) && x != walk[0] && x != walk[1] && x != walk[2] implies walk[2]
            < x by {
            assert(walk.contains(x));
            let k = choose|k: int| 0 <= k < walk.len() && walk[k] == x;
            assert(2 < k);
            assert(walk[2] < walk[k]);
        }
    }
}

/// In a well-formed mesh the neighbors chosen at a vertex are vertices of the mesh.
pub proof fn lemma_chosen_neighbors_exist(mesh: MeshView, v: int)
    requires
        mesh.well_formed(),
    ensures
        first_neighbor(neighbors(mesh.indices, v)) matches Some(a) ==> a < mesh.vertex_count,
        first_three_neighbors(neighbors(mesh.indices, v)) matches Some((a, b, c)) ==> a
            < mesh.vertex_count && b < mesh.vertex_count && c < mesh.vertex_count,
{
    let nbhd = neighbors(mesh.indices, v);
    lemma_first_neighbor_is_least(nbhd);
    lemma_first_three_are_least(nbhd);
    if let Some(a) = first_neighbor(nbhd) {
        lemma_neighbors_in_range(mesh, v, a);
    }
    if let Some((a, b, c)) = first_three_neighbors(nbhd) {
        lemma_neighbors_in_range(mesh, v, a);
        lemma_neighbors_in_range(mesh, v, b);
        lemma_neighbors_in_range(mesh, v, c);
    }
}

/// The first `limit` neighbors of a vertex in sampling order, or all of them if it has
/// fewer.
pub fn leading_neighbors(nbhd: &BTreeSet<u32>, limit: usize) -> (picked: Vec<u32>)
    ensures
        picked@ == leading(nbhd@, limit as nat),
        nbhd@.finite(),
        picked.len() == if limit <= nbhd@.len() {
            limit as nat
        } else {
            nbhd@.len()
        },
{
    let ghost walk = nbhd.iter().remaining().unref();
    proof {
        lemma_set_walk_ascends(nbhd);
        lemma_listing_is_ascending(nbhd@, walk);
        lemma_ascending_len(nbhd@);
    }
    let mut picked: Vec<u32> = Vec::new();
    if limit == 0 {
        assert(picked@ =~= leading(nbhd@, limit as nat));
        return picked;
    }
    for x in it: nbhd.iter()
        invariant
            it.seq().unref() == walk,
            walk == ascending(nbhd@),
            walk.len() == nbhd@.len(),
            nbhd@.finite(),
            picked@ == walk.take(it.index()),
            picked.len() < limit,
    {
        assert(*x == walk[it.index()]);
        picked.push(*x);
        assert(picked@ =~= walk.take(it.index() + 1));
        if picked.len() == limit {
            return picked;
        }
    }
    assert(picked@ =~= walk);
    picked
}

/// The neighbor toward which the tangent frame of a vertex is built, or `None` for a
/// vertex without neighbors, whose frame is undefined.
pub fn frame_neighbor(nbhd: &BTreeSet<u32>) -> (toward: Option<u32>)
    ensures
        toward == first_neighbor(nbhd@),
        toward is None <==> nbhd@.len() == 0,
{
    let picked = leading_neighbors(nbhd, 1);
    if picked.len() == 1 {
        Some(picked[0])
    } else {
        None
    }
}

/// The three neighbors through which the paraboloid at a vertex is fitted, or `None` for
/// a vertex with fewer than three neighbors, at which no estimate is formed.
pub fn fit_neighbors(nbhd: &BTreeSet<u32>) -> (samples: Option<(u32, u32, u32)>)
    ensures
        samples == first_three_neighbors(nbhd@),
        samples is None <==> nbhd@.len() < 3,
{
    let picked = leading_neighbors(nbhd, 3);
    if picked.len() == 3 {
        Some((picked[0], picked[1], picked[2]))
    } else {
        None
    }
}

/// Chooses the frame neighbor of every vertex.
///
/// Entry `v` of the result is the frame neighbor of the vertex whose neighborhood is
/// `nbhds[v]`; `None` marks a vertex whose tangent frame is undefined.
pub fn select_frame_neighbors(nbhds: &Vec<BTreeSet<u32>>) -> (chosen: Vec<Option<u32>>)
    ensures
        chosen.len() == nbhds.len(),
        forall|v: int|
            0 <= v < chosen.len() ==> #[trigger] chosen[v] == first_neighbor(nbhds[v]@),
        forall|v: int|
            0 <= v < chosen.len() ==> (#[trigger] chosen[v] is None <==> nbhds[v]@.len() == 0),
{
    let mut chosen: Vec<Option<u32>> = Vec::new();
    let mut v: usize = 0;
    while v < nbhds.len()
        invariant
            v <= nbhds.len(),
            chosen.len() == v,
            forall|k: int| 0 <= k < v ==> #[trigger] chosen[k] == first_neighbor(nbhds[k]@),
            forall|k: int|
                0 <= k < v ==> (#[trigger] chosen[k] is None <==> nbhds[k]@.len() == 0),
        decreases nbhds.len() - v,
    {
        chosen.push(frame_neighbor(&nbhds[v]));
        v = v + 1;
    }
    chosen
}

/// Chooses the fit neighbors of every vertex.
///
/// Entry `v` of the result holds the three fit neighbors of the vertex whose neighborhood
/// is `nbhds[v]`; `None` marks a vertex at which no estimate is formed.
pub fn select_fit_neighbors(nbhds: &Vec<BTreeSet<u32>>) -> (chosen: Vec<Option<(u32, u32, u32)>>)
    ensures
        chosen.len() == nbhds.len(),
        forall|v: int|
            0 <= v < chosen.len() ==> #[trigger] chosen[v] == first_three_neighbors(nbhds[v]@),
        forall|v: int|
            0 <= v < chosen.len() ==> (#[trigger] chosen[v] is None <==> nbhds[v]@.len() < 3),
{
    let mut chosen: Vec<Option<(u32, u32, u32)>> = Vec::new();
    let mut v: usize = 0;
    while v < nbhds.len()
        invariant
            v <= nbhds.len(),
            chosen.len() == v,
            forall|k: int|
                0 <= k < v ==> #[trigger] chosen[k] == first_three_neighbors(nbhds[k]@),
            forall|k: int|
                0 <= k < v ==> (#[trigger] chosen[k] is None <==> nbhds[k]@.len() < 3),
        decreases nbhds.len() - v,
    {
        chosen.push(fit_neighbors(&nbhds[v]));
        v = v + 1;
    }
    chosen
}

} // verus!
