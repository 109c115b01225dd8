//! What is registered under which names.

use std::sync::Arc;
use vstd::hash_map::StringHashMap;
use vstd::prelude::*;

verus! {

/// What an implementation leaves open of a value: something of which nothing is known but that it
/// is one and the same for the same value and the same question.
pub open spec fn left_open<T: ?Sized, Q, A>(value: &T, question: Q) -> A {
    (choose|p: (&T, Q, A)| p.0 == value && p.1 == question).2
}

/// The table after `item` has been registered under `names`, in place of whatever was registered
/// under them before.
pub open spec fn registered<T>(
    item: T,
    names: Seq<Seq<char>>,
    table: Map<Seq<char>, T>,
) -> Map<Seq<char>, T>
    decreases names.len(),
{
    if names.len() == 0 {
        table
    } else {
        registered(item, names.drop_last(), table).insert(
            names.last(),
            item,
        )
    }
}

/// Maps `key` to what `value` shares.
pub(crate) fn insert_shared<T: ?Sized>(map: &mut StringHashMap<Arc<T>>, key: String, value: &Arc<T>)
    ensures
        final(map)@ == old(map)@.insert(key@, *value),
{
    map.insert(key, value.clone());
}

/// What was registered last under a name is what is found under it; under other names nothing
/// changes.
pub proof fn law_last_registered_wins<T>(
    table: Map<Seq<char>, T>,
    names: Seq<Seq<char>>,
    item: T,
)
    ensures
        ({
            let after = registered(item, names, table);
            &&& forall|e: Seq<char>|
                names.contains(e) ==> #[trigger] after.contains_key(e) && after[e] == item
            &&& forall|e: Seq<char>|
                !names.contains(e) ==> (#[trigger] after.contains_key(e)
                    == table.contains_key(e)) && (table.contains_key(e) ==> after[e]
                    == table[e])
        }),
    decreases names.len(),
{
    if names.len() > 0 {
        let before = names.drop_last();
        law_last_registered_wins(table, before, item);
        let earlier = registered(item, before, table);
        let after = registered(item, names, table);
        assert forall|e: Seq<char>| names.contains(e) implies #[trigger] after.contains_key(e)
            && after[e] == item by {
            if e != names.last() {
                let i = choose|i: int| 0 <= i < names.len() && names[i] == e;
                assert(before[i] == e);
                assert(before.contains(e));
                assert(earlier.contains_key(e));
            }
        }
        assert forall|e: Seq<char>| !names.contains(e) implies (#[trigger] after.contains_key(
            e,
        ) == table.contains_key(e)) && (table.contains_key(e) ==> after[e]
            == table[e]) by {
            assert(names[names.len() - 1] == names.last());
            assert(after.contains_key(e) == earlier.contains_key(e));
            if before.contains(e) {
                let i = choose|i: int| 0 <= i < before.len() && before[i] == e;
                assert(names[i] == e);
            }
        }
    }
}

} // verus!
