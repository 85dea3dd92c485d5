//! The order in which a neighborhood is walked.

use std::collections::BTreeSet;
use vstd::prelude::*;
use vstd::std_specs::cmp::OrdSpec;
use vstd::std_specs::iter::IteratorSpec;

verus! {

/// Whether `walk` lists the members of `set` by increasing value, each exactly once.
pub open spec fn lists_ascending(set: Set<u32>, walk: Seq<u32>) -> bool {
    &&& forall|k: int| 0 <= k < walk.len() ==> set.contains(#[trigger] walk[k])
    &&& forall|x: u32| set.contains(x) ==> #[trigger] walk.contains(x)
    &&& forall|i: int, j: int| 0 <= i < j < walk.len() ==> #[trigger] walk[i] < #[trigger] walk[j]
}

/// Walking an ordered set of vertex indices visits its members by increasing value.
pub proof fn lemma_set_walk_ascends(set: &BTreeSet<u32>)
    ensures
        lists_ascending(set@, set.iter().remaining().unref()),
        set@.finite(),
{
    let refs = set.iter().remaining();
    let walk = refs.unref();
    assert(vstd::std_specs::btree::increasing_seq(refs));
    assert(vstd::laws_cmp::obeys_cmp::<u32>());
    assert(vstd::laws_cmp::obeys_cmp::<&u32>());
    assert forall|i: int, j: int| 0 <= i < j < walk.len() implies #[trigger] walk[i]
        < #[trigger] walk[j] by {
        assert(OrdSpec::cmp_spec(&refs[i], &refs[j]) is Less);
    }
    assert(walk.to_set() == set@);
    vstd::seq_lib::seq_to_set_is_finite(walk);
    assert forall|k: int| 0 <= k < walk.len() implies set@.contains(#[trigger] walk[k]) by {
        assert(walk.contains(walk[k]));
        assert(walk.to_set().contains(walk[k]));
    }
    assert forall|x: u32| set@.contains(x) implies #[trigger] walk.contains(x) by {
        assert(walk.to_set().contains(x));
    }
}

} // verus!
