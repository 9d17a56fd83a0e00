//! What holds of the methods of maps.

use vstd::prelude::*;

use super::equality;
use super::maps;
use super::object_laws::Call;
use super::primitive::Primitive;
use crate::value::Value;

verus! {

/// Whether one method of a map was called before another, on the same map, and
/// nothing happened to the objects in between.
pub open spec fn goes_before(first: Call, second: Call) -> bool {
    &&& second.before.heap == first.after.heap
    &&& second.argument(0) == first.argument(0)
}

/// Whether a key is one that a map takes.
pub open spec fn is_key(call: Call, key: Value) -> bool {
    super::arguments::spec_is_value_type(&call.before, key) && !equality::is_nan_value(key)
}

/// What was stored under a key is found under it, and the key is there.
pub proof fn law_stored_is_found(stored: Call, asked: Call)
    requires
        stored.of(Primitive::MapSetAt, 2),
        maps::spec_entries(&stored.before, stored.argument(0)) is Some,
        is_key(stored, stored.argument(1)),
        goes_before(stored, asked),
        asked.argument(1) == stored.argument(1),
    ensures
        stored.gives(stored.argument(2)),
        asked.of(Primitive::MapAt, 1) ==> asked.gives(stored.argument(2)),
        asked.of(Primitive::MapContainsKey, 1) ==> asked.says(true),
{
    maps::law_stored_value_is_read_back(
        &stored.before,
        &stored.after,
        stored.argument(0),
        stored.argument(1),
        stored.argument(2),
    );
    lemma_heap_decides(stored.after, asked.before, asked.argument(0), asked.argument(1), 0);
    let id = stored.argument(1).spec_as_object();
    assert(super::arguments::spec_is_value_type(&asked.before, asked.argument(1)));
}

/// What a map holds is decided by the objects alone.
proof fn lemma_heap_decides(
    a: crate::vm::Vm,
    b: crate::vm::Vm,
    map: Value,
    key: Value,
    from: int,
)
    requires
        a.heap == b.heap,
    ensures
        maps::entries_or_none(&a, map) == maps::entries_or_none(&b, map),
        maps::entry_for(&a, maps::entries_or_none(&a, map), key, from) == maps::entry_for(
            &b,
            maps::entries_or_none(&b, map),
            key,
            from,
        ),
    decreases maps::entries_or_none(&a, map).len() - from,
{
    let entries = maps::entries_or_none(&a, map);
    if 0 <= from < entries.len() {
        assert(equality::spec_values_equal(&a, entries[from].key, key)
            == equality::spec_values_equal(&b, entries[from].key, key));
        lemma_heap_decides(a, b, map, key, from + 1);
    }
}

/// A key is bound to the value of an entry whose key is equal, and to nothing
/// where there is none: a map gives that value, or null.
pub proof fn law_found_is_an_entry(call: Call)
    requires
        maps::spec_entries(&call.before, call.argument(0)) is Some,
        is_key(call, call.argument(1)),
    ensures
        ({
            let entries = maps::spec_entries(&call.before, call.argument(0))->0;
            let key = call.argument(1);
            let there = exists|i: int|
                0 <= i < entries.len() && equality::spec_values_equal(
                    &call.before,
                    (#[trigger] entries[i]).key,
                    key,
                );
            &&& call.of(Primitive::MapContainsKey, 1) ==> call.says(there)
            &&& call.of(Primitive::MapAt, 1) && !there ==> call.gives(Value::null())
            &&& call.of(Primitive::MapAt, 1) && there ==> exists|i: int|
                0 <= i < entries.len() && equality::spec_values_equal(
                    &call.before,
                    (#[trigger] entries[i]).key,
                    key,
                ) && call.gives(entries[i].value)
        }),
{
    let entries = maps::spec_entries(&call.before, call.argument(0))->0;
    lemma_found(call, entries, call.argument(1), 0);
}

/// Where a key is found.
proof fn lemma_found(
    call: Call,
    entries: Seq<crate::object::MapEntry>,
    key: Value,
    from: int,
)
    requires
        0 <= from <= entries.len(),
    ensures
        match maps::entry_for(&call.before, entries, key, from) {
            Some(i) => from <= i < entries.len() && equality::spec_values_equal(
                &call.before,
                entries[i].key,
                key,
            ),
            None => forall|i: int|
                from <= i < entries.len() ==> !equality::spec_values_equal(
                    &call.before,
                    (#[trigger] entries[i]).key,
                    key,
                ),
        },
    decreases entries.len() - from,
{
    if from < entries.len() {
        lemma_found(call, entries, key, from + 1);
    }
}

/// A map counts its entries.
pub proof fn law_map_counts_its_entries(call: Call)
    requires
        call.of(Primitive::MapCount, 0),
        maps::spec_entries(&call.before, call.argument(0)) is Some,
    ensures
        call.gives(
            super::list_laws::index(
                maps::spec_entries(&call.before, call.argument(0))->0.len(),
            ),
        ),
{
}

/// A key that was removed is no longer there, and what was under it is given
/// back.
pub proof fn law_removed_key_is_no_longer_there(removed: Call, asked: Call)
    requires
        removed.of(Primitive::MapRemove, 1),
        maps::spec_entries(&removed.before, removed.argument(0)) is Some,
        is_key(removed, removed.argument(1)),
        ({
            let entries = maps::spec_entries(&removed.before, removed.argument(0))->0;
            forall|i: int, j: int|
                0 <= i < j < entries.len() && equality::spec_values_equal(
                    &removed.before,
                    (#[trigger] entries[i]).key,
                    removed.argument(1),
                ) ==> !equality::spec_values_equal(
                    &removed.before,
                    (#[trigger] entries[j]).key,
                    removed.argument(1),
                )
        }),
        goes_before(removed, asked),
        asked.argument(1) == removed.argument(1),
    ensures
        removed.gives(
            match maps::bound_to(
                &removed.before,
                maps::spec_entries(&removed.before, removed.argument(0))->0,
                removed.argument(1),
            ) {
                Some(value) => value,
                None => Value::null(),
            },
        ),
        asked.of(Primitive::MapAt, 1) ==> asked.gives(Value::null()),
        asked.of(Primitive::MapContainsKey, 1) ==> asked.says(false),
{
    let key = removed.argument(1);
    let entries = maps::spec_entries(&removed.before, removed.argument(0))->0;
    maps::law_removed_key_is_gone(&removed.before, entries, key);
    let now = maps::without_binding(&removed.before, entries, key);
    assert(maps::entries_or_none(&removed.after, removed.argument(0)) == now);
    maps::lemma_same_lookup(&removed.before, &removed.after, now, key, 0);
    lemma_heap_decides(removed.after, asked.before, asked.argument(0), key, 0);
    assert(super::arguments::spec_is_value_type(&asked.before, asked.argument(1)));
}

/// A map that was cleared holds nothing.
pub proof fn law_cleared_map_is_empty(call: Call)
    requires
        call.of(Primitive::MapClear, 0),
        maps::spec_entries(&call.before, call.argument(0)) is Some,
    ensures
        call.gives(Value::null()),
        maps::spec_entries(&call.after, call.argument(0)) matches Some(entries)
            && entries.len() == 0,
{
}

/// The keys of a map and its values are lists, in the order of its entries.
pub proof fn law_keys_and_values_go_together(keys: Call, values: Call)
    requires
        keys.of(Primitive::MapKeys, 0),
        values.of(Primitive::MapValues, 0),
        keys.asks_as(values),
        maps::spec_entries(&keys.before, keys.argument(0)) is Some,
    ensures
        ({
            let entries = maps::spec_entries(&keys.before, keys.argument(0))->0;
            let first = super::lists::spec_elements(&keys.after, keys.value());
            let second = super::lists::spec_elements(&values.after, values.value());
            &&& first is Some && second is Some
            &&& first->0.len() == entries.len() && second->0.len() == entries.len()
            &&& forall|i: int|
                0 <= i < entries.len() ==> first->0[i] == (#[trigger] entries[i]).key
                    && second->0[i] == entries[i].value
        }),
{
    broadcast use crate::value::law_object_round_trip;

}

/// Iterating a map goes through its entries by their places: to the first to
/// begin with, after one to the next, and after the last there is none.
pub proof fn law_map_is_iterated_by_places(call: Call, n: int)
    requires
        call.of(Primitive::MapIterate, 1),
        maps::spec_entries(&call.before, call.argument(0)) is Some,
        ({
            let length = maps::spec_entries(&call.before, call.argument(0))->0.len();
            length < crate::number::MAX_COUNT && length <= usize::MAX && -1 <= n < length
        }),
        call.argument(1) == if n < 0 {
            Value::null()
        } else {
            super::list_laws::index(n as nat)
        },
    ensures
        call.gives(
            if n + 1 < maps::spec_entries(&call.before, call.argument(0))->0.len() {
                super::list_laws::index((n + 1) as nat)
            } else {
                Value::bool(false)
            },
        ),
{
    if n >= 0 {
        super::list_laws::lemma_index(n as nat);
    }
}

/// What a map gives for a place is the entry there: its key is that of the
/// entry, and its value that of the entry.
pub proof fn law_iterated_entry_is_read(read: Call, asked: Call, n: int)
    requires
        read.of(Primitive::MapIteratorValue, 1),
        maps::spec_entries(&read.before, read.argument(0)) matches Some(entries) && 0 <= n
            < entries.len() && n < crate::number::MAX_COUNT && n <= usize::MAX,
        read.argument(1) == super::list_laws::index(n as nat),
        asked.before.heap@ == read.after.heap@,
        asked.argument(0) == read.value(),
    ensures
        ({
            let entry = maps::spec_entries(&read.before, read.argument(0))->0[n];
            &&& asked.of(Primitive::MapEntryKey, 0) ==> asked.gives(entry.key)
            &&& asked.of(Primitive::MapEntryValue, 0) ==> asked.gives(entry.value)
        }),
{
    broadcast use crate::value::law_object_round_trip;

    super::list_laws::lemma_index(n as nat);
}

/// A new map has no entries, and one to which an entry is added in a literal is
/// itself what comes of it.
pub proof fn law_maps_are_made(call: Call, asked: Call)
    ensures
        call.of(Primitive::MapNew, 0) ==> maps::spec_entries(&call.after, call.value()) == Some(
            Seq::<crate::object::MapEntry>::empty(),
        ),
        call.of(Primitive::MapAddCore, 2) && maps::spec_entries(&call.before, call.argument(0))
            is Some && is_key(call, call.argument(1)) && goes_before(call, asked)
            && asked.argument(1) == call.argument(1) ==> call.gives(call.argument(0)) && (asked.of(
            Primitive::MapAt,
            1,
        ) ==> asked.gives(call.argument(2))),
{
    broadcast use crate::value::law_object_round_trip;

    if call.of(Primitive::MapAddCore, 2) && maps::spec_entries(&call.before, call.argument(0))
        is Some && is_key(call, call.argument(1)) && goes_before(call, asked) && asked.argument(1)
        == call.argument(1) {
        maps::law_stored_value_is_read_back(
            &call.before,
            &call.after,
            call.argument(0),
            call.argument(1),
            call.argument(2),
        );
        lemma_heap_decides(call.after, asked.before, asked.argument(0), asked.argument(1), 0);
        assert(super::arguments::spec_is_value_type(&asked.before, asked.argument(1)));
    }
}

} // verus!
