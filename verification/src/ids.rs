use std::collections::HashMap;

use vstd::prelude::*;

verus! {

broadcast use vstd::std_specs::hash::group_hash_axioms;

/// Why an attribute ID could not be assigned.
#[derive(Clone, Debug)]
pub enum IdError {
    /// The implicit ID would count past 255.
    Overflow,
    /// The ID is already assigned to the named item.
    Taken { id: u8, owner: String },
}

/// The ID an item gets after the previous item's ID `last`: its explicit ID
/// if it has one, otherwise one past `last`, otherwise zero.
pub open spec fn spec_next_id(id: Option<u8>, last: Option<u8>) -> int {
    match id {
        Some(x) => x as int,
        None => match last {
            Some(l) => l + 1,
            None => 0,
        },
    }
}

/// The IDs a sequence of items gets, counting up like enum discriminants:
/// an explicit ID is taken as is, and an implicit one is one past the
/// previous item's ID (zero for the first item).
pub open spec fn assigned_ids(explicit: Seq<Option<u8>>) -> Seq<int>
    decreases explicit.len(),
{
    if explicit.len() == 0 {
        Seq::empty()
    } else {
        let prev = assigned_ids(explicit.drop_last());
        prev.push(
            match explicit.last() {
                Some(x) => x as int,
                None => if prev.len() == 0 {
                    0
                } else {
                    prev.last() + 1
                },
            },
        )
    }
}

/// The ID at position `k` fits in a `u8` and differs from every earlier ID.
pub open spec fn id_ok(ids: Seq<int>, k: int) -> bool {
    &&& ids[k] <= 255
    &&& forall|j: int| 0 <= j < k ==> ids[j] != ids[k]
}

/// Every ID fits in a `u8` and no two are equal.
pub open spec fn ids_ok(ids: Seq<int>) -> bool {
    forall|k: int| 0 <= k < ids.len() ==> #[trigger] id_ok(ids, k)
}

/// The error reported for the invalid ID at position `k`, given each
/// item's name.
pub open spec fn id_error_matches(e: IdError, ids: Seq<int>, names: Seq<Seq<char>>, k: int) -> bool {
    match e {
        IdError::Overflow => ids[k] > 255,
        IdError::Taken { id, owner } => {
            &&& ids[k] <= 255
            &&& id == ids[k]
            &&& exists|j: int| 0 <= j < k && ids[j] == ids[k] && owner@ == names[j]
        },
    }
}

/// There is one assigned ID per item, and none is negative.
pub proof fn lemma_assigned_len(explicit: Seq<Option<u8>>)
    ensures
        assigned_ids(explicit).len() == explicit.len(),
        forall|k: int| 0 <= k < explicit.len() ==> #[trigger] assigned_ids(explicit)[k] >= 0,
    decreases explicit.len(),
{
    if explicit.len() > 0 {
        lemma_assigned_len(explicit.drop_last());
    }
}

/// Assigning one more item appends its ID.
pub proof fn lemma_assigned_push(explicit: Seq<Option<u8>>, id: Option<u8>)
    ensures
        assigned_ids(explicit.push(id)) == assigned_ids(explicit).push(
            match id {
                Some(x) => x as int,
                None => if explicit.len() == 0 {
                    0
                } else {
                    assigned_ids(explicit).last() + 1
                },
            },
        ),
{
    assert(explicit.push(id).drop_last() =~= explicit);
    lemma_assigned_len(explicit);
}


/// IDs count up like enum discriminants: an item with an explicit ID gets
/// it, the first item without one gets zero, and every later item without
/// one gets one more than the item before it. Items without explicit IDs
/// from the start are numbered by their positions.
pub proof fn lemma_assigned_ids_count_up(explicit: Seq<Option<u8>>)
    ensures
        forall|k: int|
            0 <= k < explicit.len() ==> (#[trigger] explicit[k] matches Some(x) ==> assigned_ids(explicit)[k] == x),
        explicit.len() > 0 && explicit[0] is None ==> assigned_ids(explicit)[0] == 0,
        forall|k: int|
            0 < k < explicit.len() && #[trigger] explicit[k] is None ==> assigned_ids(explicit)[k]
                == assigned_ids(explicit)[k - 1] + 1,
        (forall|k: int| 0 <= k < explicit.len() ==> #[trigger] explicit[k] is None) ==> forall|k: int|
            0 <= k < explicit.len() ==> #[trigger] assigned_ids(explicit)[k] == k,
    decreases explicit.len(),
{
    lemma_assigned_len(explicit);
    if explicit.len() > 0 {
        let d = explicit.drop_last();
        lemma_assigned_ids_count_up(d);
        lemma_assigned_len(d);
        assert forall|k: int| 0 <= k < d.len() implies assigned_ids(explicit)[k] == assigned_ids(d)[k] by {}
        assert forall|k: int| 0 <= k < d.len() implies #[trigger] explicit[k] == d[k] by {}
        if forall|k: int| 0 <= k < explicit.len() ==> #[trigger] explicit[k] is None {
            assert forall|k: int| 0 <= k < d.len() implies #[trigger] d[k] is None by {
                assert(explicit[k] == d[k]);
            }
        }
    }
}

/// The IDs of a prefix of the items are a prefix of the IDs.
pub proof fn lemma_assigned_prefix(explicit: Seq<Option<u8>>, m: int)
    requires
        0 <= m <= explicit.len(),
    ensures
        assigned_ids(explicit.take(m)) == assigned_ids(explicit).take(m),
    decreases explicit.len(),
{
    lemma_assigned_len(explicit);
    lemma_assigned_len(explicit.take(m));
    if m == explicit.len() {
        assert(explicit.take(m) =~= explicit);
        assert(assigned_ids(explicit).take(m) =~= assigned_ids(explicit));
    } else {
        let d = explicit.drop_last();
        assert(explicit.take(m) =~= d.take(m));
        lemma_assigned_prefix(d, m);
        lemma_assigned_len(d);
        assert(assigned_ids(explicit).take(m) =~= assigned_ids(d).take(m));
    }
}

/// Valid IDs stay valid in every prefix.
pub proof fn lemma_ids_ok_prefix(ids: Seq<int>, m: int)
    requires
        0 <= m <= ids.len(),
        ids_ok(ids),
    ensures
        ids_ok(ids.take(m)),
{
    assert forall|k: int| 0 <= k < m implies #[trigger] id_ok(ids.take(m), k) by {
        assert(id_ok(ids, k));
    }
}

/// Assigns the next attribute ID to the named item and records it.
///
/// The ID is the item's explicit ID, or one past the last assigned ID, or
/// zero for the first item. It fails when counting past 255, and when the
/// ID is already recorded for another item: the error then names that item,
/// and the map records the new item in its place.
pub fn advance_attribute_id(
    name: &String,
    id: Option<u8>,
    ids: &mut HashMap<u8, String>,
    last: Option<u8>,
) -> (r: Result<Option<u8>, IdError>)
    ensures
        r is Ok <==> spec_next_id(id, last) <= 255 && !old(ids)@.contains_key(
            spec_next_id(id, last) as u8,
        ),
        r matches Ok(v) ==> v == Some(spec_next_id(id, last) as u8) && final(ids)@ == old(ids)@.insert(
            spec_next_id(id, last) as u8,
            *name,
        ),
        r matches Err(IdError::Overflow) <==> spec_next_id(id, last) > 255,
        r matches Err(IdError::Taken { id: taken, owner }) ==> taken == spec_next_id(id, last) && owner
            == old(ids)@[taken],
        r matches Err(IdError::Taken { .. }) ==> final(ids)@ == old(ids)@.insert(
            spec_next_id(id, last) as u8,
            *name,
        ),
        r matches Err(IdError::Overflow) ==> final(ids)@ == old(ids)@,
{
    let next = match id {
        Some(explicit) => explicit,
        None => match last {
            Some(last) => {
                if last < 255 {
                    last + 1
                } else {
                    return Err(IdError::Overflow);
                }
            },
            None => 0,
        },
    };
    match ids.insert(next, name.clone()) {
        Some(owner) => Err(IdError::Taken { id: next, owner }),
        None => Ok(Some(next)),
    }
}

} // verus!
