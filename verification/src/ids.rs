//! Lookup in lists whose elements carry an identifier.

use vstd::prelude::*;

verus! {

/// The position of the first `id`, or the length of the list where there is
/// none.
pub open spec fn first_id(ids: Seq<u128>, id: u128) -> int
    decreases ids.len(),
{
    if ids.len() == 0 || ids[0] == id {
        0
    } else {
        1 + first_id(ids.drop_first(), id)
    }
}

pub proof fn lemma_first_id(ids: Seq<u128>, id: u128)
    ensures
        0 <= first_id(ids, id) <= ids.len(),
        first_id(ids, id) < ids.len() ==> ids[first_id(ids, id)] == id,
        forall|j: int| 0 <= j < first_id(ids, id) ==> ids[j] != id,
        first_id(ids, id) < ids.len() <==> ids.contains(id),
    decreases ids.len(),
{
    if ids.len() == 0 || ids[0] == id {
        if ids.len() > 0 {
            assert(ids.contains(ids[0]));
        }
    } else {
        let t = ids.drop_first();
        lemma_first_id(t, id);
        assert forall|j: int| 0 <= j < first_id(ids, id) implies ids[j] != id by {
            if j > 0 {
                assert(ids[j] == t[j - 1]);
            }
        }
        if first_id(ids, id) < ids.len() {
            assert(ids[first_id(ids, id)] == t[first_id(t, id)]);
        } else if ids.contains(id) {
            let j = choose|j: int| 0 <= j < ids.len() && ids[j] == id;
            assert(ids[j] == id);
        }
    }
}

pub proof fn lemma_first_id_unique(ids: Seq<u128>, id: u128, i: int)
    requires
        0 <= i <= ids.len(),
        i < ids.len() ==> ids[i] == id,
        forall|j: int| 0 <= j < i ==> ids[j] != id,
    ensures
        first_id(ids, id) == i,
{
    lemma_first_id(ids, id);
    let k = first_id(ids, id);
    if k < i {
        assert(ids[k] != id);
    } else if i < k {
        assert(ids[i] != id);
    }
}

} // verus!
