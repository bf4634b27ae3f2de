//! Laws of JSON values.

use vstd::prelude::*;

use crate::json;
use crate::json::{Json, JsonView};

verus! {

/// An array is its items, one by one.
pub proof fn law_arrays_item_by_item(items: Seq<Json>)
    ensures
        json::array_of(items).len() == items.len(),
        forall|i: int| 0 <= i < items.len() ==> #[trigger] json::array_of(items)[i] == items[i]@,
{
}

/// An object is what its members say, a later one in place of an earlier one with its key.
pub proof fn law_the_last_member_counts(members: Seq<(String, Json)>, key: String, value: Json)
    ensures
        json::object_of(Seq::empty()) == Map::<Seq<char>, JsonView>::empty(),
        json::object_of(members.push((key, value))) == json::object_of(members).insert(
            key@,
            value@,
        ),
{
    assert(members.push((key, value)).drop_last() =~= members);
}

} // verus!
