//! Maps.

use vstd::prelude::*;

use super::arguments;
use super::arguments::{argument, number_argument, receiver, value_type_argument};
use super::equality;
use super::equality::values_equal;
use super::list_methods;
use super::list_methods::next_index;
use super::primitive::Primitive;
use super::reply;
use super::reply::{deny, give, Reply, ReplyModel};
use super::views;
use super::views::new_view;
use crate::handle::ObjectId;
use crate::heap::HeapModel;
use crate::number::{counted, to_usize};
use crate::object::{MapEntry, ObjMap, Object};
use crate::value::Value;
use crate::vm::{RuntimeError, Vm};

verus! {

/// The entries of a map.
pub open spec fn spec_entries(vm: &Vm, value: Value) -> Option<Seq<MapEntry>> {
    match value.spec_as_object() {
        Some(id) => match vm.heap@.map(id) {
            Some(map) => Some(map.entries@),
            None => None,
        },
        None => None,
    }
}

/// The entries of a map; none for anything else.
pub open spec fn entries_or_none(vm: &Vm, value: Value) -> Seq<MapEntry> {
    match spec_entries(vm, value) {
        Some(entries) => entries,
        None => Seq::empty(),
    }
}

/// Where the entry for a key is, from a place on.
pub open spec fn entry_for(vm: &Vm, entries: Seq<MapEntry>, key: Value, from: int) -> Option<int>
    decreases entries.len() - from,
{
    if from < 0 || from >= entries.len() {
        None
    } else if equality::spec_values_equal(vm, entries[from].key, key) {
        Some(from)
    } else {
        entry_for(vm, entries, key, from + 1)
    }
}

/// What a key is bound to.
pub open spec fn bound_to(vm: &Vm, entries: Seq<MapEntry>, key: Value) -> Option<Value> {
    match entry_for(vm, entries, key, 0) {
        Some(i) => Some(entries[i].value),
        None => None,
    }
}

/// Entries once a key is bound to a value. A key that is there keeps its place.
pub open spec fn with_binding(
    vm: &Vm,
    entries: Seq<MapEntry>,
    key: Value,
    value: Value,
) -> Seq<MapEntry> {
    match entry_for(vm, entries, key, 0) {
        Some(i) => entries.update(i, MapEntry { key: entries[i].key, value }),
        None => entries.push(MapEntry { key, value }),
    }
}

/// Entries once a key is taken out.
pub open spec fn without_binding(vm: &Vm, entries: Seq<MapEntry>, key: Value) -> Seq<MapEntry> {
    match entry_for(vm, entries, key, 0) {
        Some(i) => entries.remove(i),
        None => entries,
    }
}

/// An entry that is found is in the map.
proof fn lemma_entry_for(vm: &Vm, entries: Seq<MapEntry>, key: Value, from: int)
    requires
        0 <= from,
    ensures
        entry_for(vm, entries, key, from) matches Some(i) ==> from <= i < entries.len()
            && equality::spec_values_equal(vm, entries[i].key, key),
    decreases entries.len() - from,
{
    if from < entries.len() && !equality::spec_values_equal(vm, entries[from].key, key) {
        lemma_entry_for(vm, entries, key, from + 1);
    }
}

/// A binding changes where no key is but its own.
proof fn lemma_with_binding(
    vm: &Vm,
    entries: Seq<MapEntry>,
    key: Value,
    value: Value,
    other: Value,
    from: int,
)
    requires
        0 <= from,
        from <= entries.len(),
    ensures
        ({
            let after = with_binding(vm, entries, key, value);
            match entry_for(vm, entries, other, from) {
                Some(i) => entry_for(vm, after, other, from) == Some(i),
                None => entry_for(vm, after, other, from) == if entry_for(vm, entries, key, 0)
                    is None && equality::spec_values_equal(vm, key, other) {
                    Some(entries.len() as int)
                } else {
                    None
                },
            }
        }),
    decreases entries.len() - from,
{
    let after = with_binding(vm, entries, key, value);
    lemma_entry_for(vm, entries, key, 0);
    if from < entries.len() {
        assert(after[from].key == entries[from].key);
        if !equality::spec_values_equal(vm, entries[from].key, other) {
            lemma_with_binding(vm, entries, key, value, other, from + 1);
        }
    } else if after.len() > entries.len() {
        assert(entry_for(vm, after, other, from + 1) is None);
    }
}

/// A key that was bound to a value is bound to it. A NaN equals no key, itself
/// among them, so it is never found.
pub proof fn law_binding_is_found(vm: &Vm, entries: Seq<MapEntry>, key: Value, value: Value)
    requires
        !equality::is_nan_value(key),
    ensures
        bound_to(vm, with_binding(vm, entries, key, value), key) == Some(value),
{
    equality::law_equality_is_reflexive(vm, key);
    lemma_entry_for(vm, entries, key, 0);
    lemma_with_binding(vm, entries, key, value, key, 0);
}

/// Binding one key leaves every other bound to what it was bound to.
pub proof fn law_other_bindings_stay(
    vm: &Vm,
    entries: Seq<MapEntry>,
    key: Value,
    value: Value,
    other: Value,
)
    requires
        !equality::spec_values_equal(vm, key, other),
        entry_for(vm, entries, key, 0) is Some ==> entry_for(vm, entries, other, 0) != entry_for(
            vm,
            entries,
            key,
            0,
        ),
    ensures
        bound_to(vm, with_binding(vm, entries, key, value), other) == bound_to(vm, entries, other),
{
    lemma_entry_for(vm, entries, key, 0);
    lemma_entry_for(vm, entries, other, 0);
    lemma_with_binding(vm, entries, key, value, other, 0);
}

/// A copy of a map's entries; none for anything else.
pub fn map_entries(vm: &Vm, map: Value) -> (entries: Vec<MapEntry>)
    requires
        vm.wf(),
    ensures
        entries@ == entries_or_none(vm, map),
{
    let mut copy: Vec<MapEntry> = Vec::new();
    match map.as_object() {
        None => {},
        Some(id) => match vm.heap.map(id) {
            None => {},
            Some(map) => {
                let mut i: usize = 0;
                while i < map.entries.len()
                    invariant
                        i <= map.entries@.len(),
                        copy@ == map.entries@.take(i as int),
                    decreases map.entries@.len() - i,
                {
                    copy.push(map.entries[i]);
                    proof {
                        assert(copy@ =~= map.entries@.take(i as int + 1));
                    }
                    i = i + 1;
                }
                proof {
                    assert(map.entries@.take(i as int) =~= map.entries@);
                }
            },
        },
    }
    copy
}

/// Where the entry for a key is.
pub fn map_index(vm: &Vm, map: Value, key: Value) -> (r: Option<usize>)
    requires
        vm.wf(),
    ensures
        match entry_for(vm, entries_or_none(vm, map), key, 0) {
            Some(i) => r matches Some(index) && index == i && i < entries_or_none(vm, map).len(),
            None => r is None,
        },
{
    let entries: Vec<MapEntry> = map_entries(vm, map);
    let mut i: usize = 0;
    while i < entries.len()
        invariant
            vm.wf(),
            i <= entries@.len(),
            entries@ == entries_or_none(vm, map),
            entry_for(vm, entries@, key, 0) == entry_for(vm, entries@, key, i as int),
        decreases entries@.len() - i,
    {
        if values_equal(vm, entries[i].key, key) {
            return Some(i);
        }
        i = i + 1;
    }
    None
}

/// What a key is bound to.
pub fn map_get(vm: &Vm, map: Value, key: Value) -> (r: Option<Value>)
    requires
        vm.wf(),
    ensures
        r == bound_to(vm, entries_or_none(vm, map), key),
{
    match map_index(vm, map, key) {
        None => None,
        Some(i) => {
            let entries: Vec<MapEntry> = map_entries(vm, map);
            Some(entries[i].value)
        },
    }
}

/// Whether a machine is an earlier one with a map given other entries.
pub open spec fn entries_set(
    before: &Vm,
    after: &Vm,
    map: Value,
    entries: Seq<MapEntry>,
    key: Value,
    value: Value,
) -> bool {
    &&& *after == (Vm { heap: after.heap, ..*before })
    &&& map.spec_as_object() matches Some(id)
    &&& after.heap@.map(id) matches Some(now)
    &&& now.entries@ == entries
    &&& now.count == entries.len()
    &&& after.heap@ == (HeapModel {
        maps: before.heap@.maps.insert(id.spec_index(), now),
        ..before.heap@
    })
    &&& after.heap.stats() == before.heap.stats()
    &&& after.heap.same_room(&before.heap)
    &&& forall|other: ObjectId| #[trigger]
        after.heap.spec_young(other) == before.heap.spec_young(other)
    &&& forall|other: ObjectId| #[trigger]
        after.heap.spec_remembered(other) == (before.heap.spec_remembered(other) || (other == id
            && (before.heap.crosses(id, key) || before.heap.crosses(id, value))))
}

/// Give a map other entries, in which a key and a value may be new.
fn set_entries(vm: &mut Vm, map: Value, entries: Vec<MapEntry>, key: Value, value: Value)
    requires
        old(vm).wf(),
        spec_entries(old(vm), map) is Some,
    ensures
        final(vm).wf(),
        entries_set(old(vm), final(vm), map, entries@, key, value),
{
    match map.as_object() {
        None => {},
        Some(id) => {
            let count: usize = entries.len();
            match vm.heap.map_mut(id) {
                None => {},
                Some(now) => {
                    *now = ObjMap { entries, count };
                },
            }
            vm.heap.wrote(id, key);
            vm.heap.wrote(id, value);
        },
    }
}

/// Whether a machine is an earlier one after a key was bound, or that was
/// refused.
pub open spec fn key_bound(
    before: &Vm,
    after: &Vm,
    map: Value,
    key: Value,
    value: Value,
    r: Result<(), RuntimeError>,
) -> bool {
    match spec_entries(before, map) {
        None => *after == *before && crate::vm::fails(r, "Receiver must be a map."@),
        Some(entries) => r is Ok && entries_set(
            before,
            after,
            map,
            with_binding(before, entries, key, value),
            key,
            value,
        ),
    }
}

/// Bind a key of a map to a value.
pub fn map_set(vm: &mut Vm, map: Value, key: Value, value: Value) -> (r: Result<(), RuntimeError>)
    requires
        old(vm).wf(),
    ensures
        final(vm).wf(),
        key_bound(old(vm), final(vm), map, key, value, r),
{
    let is_map: bool = match map.as_object() {
        None => false,
        Some(id) => match vm.heap.map(id) {
            None => false,
            Some(_) => true,
        },
    };
    if !is_map {
        return Err(RuntimeError::new("Receiver must be a map."));
    }
    let existing = map_index(vm, map, key);
    let mut entries: Vec<MapEntry> = map_entries(vm, map);
    match existing {
        Some(i) => {
            let old_key = entries[i].key;
            entries.set(i, MapEntry { key: old_key, value });
        },
        None => {
            entries.push(MapEntry { key, value });
        },
    }
    set_entries(vm, map, entries, key, value);
    Ok(())
}

/// What was stored in a map under a key is read back under it, unless the key
/// is a NaN, which equals no key.
pub proof fn law_stored_value_is_read_back(
    before: &Vm,
    after: &Vm,
    map: Value,
    key: Value,
    value: Value,
)
    requires
        key_bound(before, after, map, key, value, Ok(())),
        !equality::is_nan_value(key),
    ensures
        bound_to(after, entries_or_none(after, map), key) == Some(value),
{
    let entries = entries_or_none(after, map);
    law_binding_is_found(before, entries_or_none(before, map), key, value);
    lemma_same_lookup(before, after, entries, key, 0);
}

/// Keys are compared by what no map holds.
pub proof fn lemma_same_lookup(before: &Vm, after: &Vm, entries: Seq<MapEntry>, key: Value, from: int)
    requires
        after.heap@.strings == before.heap@.strings,
        after.heap@.ranges == before.heap@.ranges,
    ensures
        entry_for(after, entries, key, from) == entry_for(before, entries, key, from),
    decreases entries.len() - from,
{
    if 0 <= from < entries.len() {
        let at = entries[from].key;
        assert(equality::spec_values_equal(after, at, key) == equality::spec_values_equal(
            before,
            at,
            key,
        ));
        lemma_same_lookup(before, after, entries, key, from + 1);
    }
}

/// Whether a method only asks something of a map.
pub open spec fn is_map_query(p: Primitive) -> bool {
    match p {
        Primitive::MapAt | Primitive::MapCount | Primitive::MapContainsKey
        | Primitive::MapIterate => true,
        _ => false,
    }
}

/// What a question about a map comes to.
pub open spec fn map_reply(vm: &Vm, p: Primitive, at: usize) -> ReplyModel {
    let that = arguments::given(vm, at, 1);
    let entries = entries_or_none(vm, arguments::given(vm, at, 0));
    match p {
        Primitive::MapCount => reply::gives(Value::num(crate::number::tally(entries.len()))),
        Primitive::MapIterate => list_methods::next_reply(entries.len(), that),
        _ => match arguments::spec_key(vm, that) {
            Err(message) => reply::denies(message),
            Ok(key) => reply::gives(
                if p is MapAt {
                    match bound_to(vm, entries, key) {
                        Some(value) => value,
                        None => Value::null(),
                    }
                } else {
                    Value::bool(bound_to(vm, entries, key) is Some)
                },
            ),
        },
    }
}

/// Answer a question about a map.
pub fn reply_of_map_query(vm: &Vm, p: Primitive, at: usize) -> (reply: Reply)
    requires
        vm.wf(),
        is_map_query(p),
        arguments::called_with(vm, at, p.spec_arity()),
    ensures
        reply.model() == map_reply(vm, p, at),
{
    let this = receiver(vm, at);
    match p {
        Primitive::MapCount => {
            let entries: Vec<MapEntry> = map_entries(vm, this);
            give(Value::num(counted(entries.len())))
        },
        Primitive::MapIterate => {
            let entries: Vec<MapEntry> = map_entries(vm, this);
            next_index(vm, entries.len(), at)
        },
        _ => match value_type_argument(vm, at, 1) {
            Err(error) => Reply::Done(Err(error)),
            Ok(key) => {
                let found = map_get(vm, this, key);
                match p {
                    Primitive::MapAt => match found {
                        Some(value) => give(value),
                        None => give(Value::null()),
                    },
                    _ => give(Value::bool(found.is_some())),
                }
            },
        },
    }
}

/// The keys of entries.
pub open spec fn keys_of(entries: Seq<MapEntry>) -> Seq<Value> {
    entries.map_values(|entry: MapEntry| entry.key)
}

/// The values of entries.
pub open spec fn values_of(entries: Seq<MapEntry>) -> Seq<Value> {
    entries.map_values(|entry: MapEntry| entry.value)
}

/// The keys of a map, or its values.
pub fn map_listing(vm: &Vm, map: Value, keys: bool) -> (values: Vec<Value>)
    requires
        vm.wf(),
    ensures
        values@ == if keys {
            keys_of(entries_or_none(vm, map))
        } else {
            values_of(entries_or_none(vm, map))
        },
{
    let entries: Vec<MapEntry> = map_entries(vm, map);
    let ghost all = if keys {
        keys_of(entries@)
    } else {
        values_of(entries@)
    };
    let mut out: Vec<Value> = Vec::new();
    let mut i: usize = 0;
    while i < entries.len()
        invariant
            i <= entries@.len(),
            all == if keys {
                keys_of(entries@)
            } else {
                values_of(entries@)
            },
            out@ == all.take(i as int),
        decreases entries@.len() - i,
    {
        if keys {
            out.push(entries[i].key);
        } else {
            out.push(entries[i].value);
        }
        proof {
            assert(out@ =~= all.take(i as int + 1));
        }
        i = i + 1;
    }
    proof {
        assert(all.take(i as int) =~= all);
    }
    out
}

/// Whether a machine is an earlier one with a map of nothing added.
pub open spec fn made_map(before: &Vm, after: &Vm, reply: ReplyModel) -> bool {
    &&& reply matches ReplyModel::Done(Ok(value))
    &&& value.spec_as_object() matches Some(id)
    &&& value == Value::object(id)
    &&& after.heap@.map(id) matches Some(map)
    &&& map.entries@ == Seq::<MapEntry>::empty()
    &&& map.count == 0
    &&& after.heap.allocated(&before.heap, id, Object::MapObject(map))
    &&& *after == (Vm { heap: after.heap, ..*before })
}

/// Make a map of nothing.
pub fn new_map(vm: &mut Vm) -> (reply: Reply)
    requires
        old(vm).wf(),
        old(vm).heap.has_room(1),
    ensures
        final(vm).wf(),
        made_map(old(vm), final(vm), reply.model()),
{
    broadcast use crate::value::law_object_round_trip;

    let map = ObjMap::new();
    proof {
        assert(map.entries@ =~= Seq::<MapEntry>::empty());
    }
    give(Value::object(vm.heap.allocate(Object::MapObject(map))))
}

/// Whether a machine is an earlier one after an iterator of a map was read.
pub open spec fn read_entry(before: &Vm, after: &Vm, at: usize, reply: ReplyModel) -> bool {
    let entries = entries_or_none(before, arguments::given(before, at, 0));
    match arguments::spec_number(arguments::given(before, at, 1)) {
        Err(message) => reply == reply::denies(message) && *after == *before,
        Ok(bits) => {
            let index = crate::number::pressed(bits, 0, usize::MAX as int);
            if index >= entries.len() {
                reply == reply::denies("Index out of bounds."@) && *after == *before
            } else {
                &&& reply matches ReplyModel::Done(Ok(value))
                &&& views::made_instance(
                    before,
                    after,
                    value,
                    before.map_entry_class,
                    seq![entries[index].key, entries[index].value],
                )
            }
        },
    }
}

/// Read the entry that an iterator of a map is at.
pub fn reply_of_map_entry(vm: &mut Vm, at: usize) -> (reply: Reply)
    requires
        old(vm).wf(),
        arguments::called_with(old(vm), at, 1),
        old(vm).heap.has_room(1),
    ensures
        final(vm).wf(),
        read_entry(old(vm), final(vm), at, reply.model()),
{
    let entries: Vec<MapEntry> = map_entries(vm, receiver(vm, at));
    match number_argument(vm, at, 1) {
        Err(error) => Reply::Done(Err(error)),
        Ok(bits) => {
            let index: usize = to_usize(bits);
            if index >= entries.len() {
                return deny("Index out of bounds.");
            }
            let mut fields: Vec<Value> = Vec::new();
            fields.push(entries[index].key);
            fields.push(entries[index].value);
            proof {
                assert(fields@ =~= seq![
                    entries@[index as int].key,
                    entries@[index as int].value,
                ]);
            }
            let class = vm.map_entry_class;
            give(new_view(vm, class, fields))
        },
    }
}

/// Whether a method changes a map.
pub open spec fn is_map_change(p: Primitive) -> bool {
    match p {
        Primitive::MapAddCore | Primitive::MapSetAt | Primitive::MapRemove
        | Primitive::MapClear => true,
        _ => false,
    }
}

/// Whether a machine is an earlier one after a key was bound and a value
/// answered.
pub open spec fn stored_in(
    before: &Vm,
    after: &Vm,
    map: Value,
    key: Value,
    value: Value,
    answer: Value,
    reply: ReplyModel,
) -> bool {
    match spec_entries(before, map) {
        None => reply == reply::denies("Receiver must be a map."@) && *after == *before,
        Some(_) => reply == reply::gives(answer) && key_bound(
            before,
            after,
            map,
            key,
            value,
            Ok(()),
        ),
    }
}

/// Whether a machine is an earlier one after a key was taken out of a map.
pub open spec fn removed_from(
    before: &Vm,
    after: &Vm,
    map: Value,
    key: Value,
    reply: ReplyModel,
) -> bool {
    let entries = entries_or_none(before, map);
    if map.spec_as_object() is None {
        reply == reply::denies("Receiver must be a map."@) && *after == *before
    } else {
        match bound_to(before, entries, key) {
            None => reply == reply::gives(Value::null()) && *after == *before,
            Some(value) => {
                &&& reply == reply::gives(value)
                &&& entries_set(
                    before,
                    after,
                    map,
                    without_binding(before, entries, key),
                    Value::null(),
                    Value::null(),
                )
            },
        }
    }
}

/// Whether a machine is an earlier one after a method that changes a map.
pub open spec fn map_changed(
    before: &Vm,
    after: &Vm,
    p: Primitive,
    at: usize,
    reply: ReplyModel,
) -> bool {
    let map = arguments::given(before, at, 0);
    let that = arguments::given(before, at, 1);
    let value = arguments::given(before, at, 2);
    match p {
        Primitive::MapAddCore => stored_in(before, after, map, that, value, map, reply),
        Primitive::MapClear => {
            &&& reply == reply::gives(Value::null())
            &&& if spec_entries(before, map) is None {
                *after == *before
            } else {
                entries_set(before, after, map, Seq::empty(), Value::null(), Value::null())
            }
        },
        _ => match arguments::spec_key(before, that) {
            Err(message) => reply == reply::denies(message) && *after == *before,
            Ok(key) => if p is MapSetAt {
                stored_in(before, after, map, key, value, value, reply)
            } else {
                removed_from(before, after, map, key, reply)
            },
        },
    }
}

/// Bind a key and answer with a value.
fn store_in(vm: &mut Vm, map: Value, key: Value, value: Value, answer: Value) -> (reply: Reply)
    requires
        old(vm).wf(),
    ensures
        final(vm).wf(),
        stored_in(old(vm), final(vm), map, key, value, answer, reply.model()),
{
    match map_set(vm, map, key, value) {
        Err(error) => Reply::Done(Err(error)),
        Ok(_) => give(answer),
    }
}

/// Take a key out of a map.
fn remove_from(vm: &mut Vm, map: Value, key: Value) -> (reply: Reply)
    requires
        old(vm).wf(),
    ensures
        final(vm).wf(),
        removed_from(old(vm), final(vm), map, key, reply.model()),
{
    if map.as_object().is_none() {
        return deny("Receiver must be a map.");
    }
    match map_index(vm, map, key) {
        None => give(Value::null()),
        Some(i) => {
            let mut entries: Vec<MapEntry> = map_entries(vm, map);
            let gone = entries.remove(i);
            set_entries(vm, map, entries, Value::null(), Value::null());
            give(gone.value)
        },
    }
}

/// Carry out a method that changes a map.
pub fn reply_of_map_change(vm: &mut Vm, p: Primitive, at: usize) -> (reply: Reply)
    requires
        old(vm).wf(),
        is_map_change(p),
        arguments::called_with(old(vm), at, p.spec_arity()),
    ensures
        final(vm).wf(),
        map_changed(old(vm), final(vm), p, at, reply.model()),
{
    let map = receiver(vm, at);
    match p {
        Primitive::MapAddCore => {
            let key = argument(vm, at, 1);
            let value = argument(vm, at, 2);
            store_in(vm, map, key, value, map)
        },
        Primitive::MapClear => {
            let is_map: bool = match map.as_object() {
                None => false,
                Some(id) => match vm.heap.map(id) {
                    None => false,
                    Some(_) => true,
                },
            };
            if is_map {
                let nothing: Vec<MapEntry> = Vec::new();
                set_entries(vm, map, nothing, Value::null(), Value::null());
            }
            give(Value::null())
        },
        _ => match value_type_argument(vm, at, 1) {
            Err(error) => Reply::Done(Err(error)),
            Ok(key) => match p {
                Primitive::MapSetAt => {
                    let value = argument(vm, at, 2);
                    store_in(vm, map, key, value, value)
                },
                _ => remove_from(vm, map, key),
            },
        },
    }
}

/// A key that was taken out of a map in which no key occurs twice is bound to
/// nothing.
pub proof fn law_removed_key_is_gone(vm: &Vm, entries: Seq<MapEntry>, key: Value)
    requires
        forall|i: int, j: int|
            0 <= i < j < entries.len() && equality::spec_values_equal(
                vm,
                (#[trigger] entries[i]).key,
                key,
            ) ==> !equality::spec_values_equal(vm, (#[trigger] entries[j]).key, key),
    ensures
        bound_to(vm, without_binding(vm, entries, key), key) is None,
{
    lemma_entry_for(vm, entries, key, 0);
    let after = without_binding(vm, entries, key);
    lemma_entry_for(vm, after, key, 0);
    match entry_for(vm, entries, key, 0) {
        None => {},
        Some(at) => match entry_for(vm, after, key, 0) {
            None => {},
            Some(i) => {
                if i < at {
                    assert(after[i] == entries[i]);
                } else {
                    assert(after[i] == entries[i + 1]);
                }
            },
        },
    }
}

} // verus!
