//! What a collection follows: everything that an object holds.

use vstd::prelude::*;

use super::HeapModel;
use crate::handle::ObjectId;
use crate::object::MapEntry;
use crate::value::Value;

verus! {

/// Whether a run of values holds a handle.
pub open spec fn holds(values: Seq<Value>, id: ObjectId) -> bool {
    exists|i: int| 0 <= i < values.len() && (#[trigger] values[i]).spec_as_object() == Some(id)
}

/// What is in either part is in both together.
proof fn lemma_both(a: Seq<ObjectId>, b: Seq<ObjectId>, id: ObjectId)
    ensures
        (a + b).contains(id) == (a.contains(id) || b.contains(id)),
{
    super::collector::lemma_add_contains(a, b, id);
}

/// The values of a list, and those of an instance with its class, are followed.
pub proof fn law_what_a_list_or_an_instance_holds_is_followed(
    heap: HeapModel,
    holder: ObjectId,
    id: ObjectId,
)
    ensures
        heap.list(holder) matches Some(list) ==> (holds(list.elements@, id) ==> heap.refs(
            holder,
        ).contains(id)),
        heap.instance(holder) matches Some(instance) ==> (instance.class == id || holds(
            instance.fields,
            id,
        ) ==> heap.refs(holder).contains(id)),
{
    match heap.list(holder) {
        Some(list) => {
            super::laws::lemma_values_refs(list.elements@, id);
        },
        None => {},
    }
    match heap.instance(holder) {
        Some(instance) => {
            super::laws::lemma_values_refs(instance.fields, id);
            lemma_both(
                seq![instance.class],
                crate::object::values_refs(instance.fields),
                id,
            );
            assert(seq![instance.class].contains(instance.class)) by {
                assert(seq![instance.class][0] == instance.class);
            }
        },
        None => {},
    }
}

/// What the entries of a map hold.
proof fn lemma_entries(entries: Seq<MapEntry>, i: int, id: ObjectId)
    requires
        0 <= i < entries.len(),
        entries[i].key.spec_as_object() == Some(id) || entries[i].value.spec_as_object() == Some(
            id,
        ),
    ensures
        crate::object::entries_refs(entries).contains(id),
    decreases entries.len(),
{
    let front = crate::object::entries_refs(entries.drop_last());
    let key = crate::object::value_refs(entries.last().key);
    let value = crate::object::value_refs(entries.last().value);
    lemma_both(front, key, id);
    lemma_both(front + key, value, id);
    if i < entries.len() - 1 {
        lemma_entries(entries.drop_last(), i, id);
    } else if entries[i].key.spec_as_object() == Some(id) {
        assert(key[0] == id);
    } else {
        assert(value[0] == id);
    }
}

/// The keys and the values of a map are followed.
pub proof fn law_what_a_map_holds_is_followed(
    heap: HeapModel,
    holder: ObjectId,
    i: int,
    id: ObjectId,
)
    requires
        heap.map(holder) matches Some(map) && 0 <= i < map.entries@.len() && (
        map.entries@[i].key.spec_as_object() == Some(id)
            || map.entries@[i].value.spec_as_object() == Some(id)),
    ensures
        heap.refs(holder).contains(id),
{
    lemma_entries(heap.map(holder)->0.entries@, i, id);
}

/// The function of a closure and what it captured are followed, what a captured
/// variable holds once it is closed, and the constants of a function.
pub proof fn law_what_a_closure_holds_is_followed(
    heap: HeapModel,
    holder: ObjectId,
    id: ObjectId,
)
    ensures
        heap.closure(holder) matches Some(closure) ==> (closure.function == id
            || closure.upvalues@.contains(id) ==> heap.refs(holder).contains(id)),
        heap.upvalue(holder) matches Some(upvalue) ==> (upvalue.closed.spec_as_object() == Some(id)
            ==> heap.refs(holder).contains(id)),
        heap.function(holder) matches Some(function) ==> (holds(function.chunk.constants@, id)
            ==> heap.refs(holder).contains(id)),
{
    match heap.closure(holder) {
        Some(closure) => {
            lemma_both(seq![closure.function], closure.upvalues@, id);
            assert(seq![closure.function][0] == closure.function);
        },
        None => {},
    }
    match heap.upvalue(holder) {
        Some(upvalue) => {
            if upvalue.closed.spec_as_object() == Some(id) {
                assert(crate::object::value_refs(upvalue.closed)[0] == id);
            }
        },
        None => {},
    }
    match heap.function(holder) {
        Some(function) => {
            super::laws::lemma_values_refs(function.chunk.constants@, id);
        },
        None => {},
    }
}

/// What the method table of a class holds.
proof fn lemma_methods(entries: Seq<u32>, i: int, id: ObjectId)
    requires
        0 <= i < entries.len(),
        crate::object::spec_entry_closure(entries[i]) == Some(id),
    ensures
        crate::object::methods_refs(entries).contains(id),
    decreases entries.len(),
{
    let front = crate::object::methods_refs(entries.drop_last());
    let last = crate::object::option_refs(crate::object::spec_entry_closure(entries.last()));
    lemma_both(front, last, id);
    if i < entries.len() - 1 {
        lemma_methods(entries.drop_last(), i, id);
    } else {
        assert(last[0] == id);
    }
}

/// The name of a class, the class it inherits from, its metaclass, its
/// attributes, its static fields and its methods are followed.
pub proof fn law_what_a_class_holds_is_followed(
    heap: HeapModel,
    holder: ObjectId,
    symbol: int,
    id: ObjectId,
)
    requires
        heap.class(holder) matches Some(class) && (class.name == id || class.superclass == Some(id)
            || class.metaclass == Some(id) || class.attributes.spec_as_object() == Some(id)
            || holds(class.static_fields@, id) || (0 <= symbol < class.methods.entries().len()
            && crate::object::spec_entry_closure(class.methods.entries()[symbol]) == Some(id))),
    ensures
        heap.refs(holder).contains(id),
{
    let class = heap.class(holder)->0;
    let name = seq![class.name];
    let superclass = crate::object::option_refs(class.superclass);
    let metaclass = crate::object::option_refs(class.metaclass);
    let attributes = crate::object::value_refs(class.attributes);
    let fields = crate::object::values_refs(class.static_fields@);
    let methods = crate::object::methods_refs(class.methods.entries());
    lemma_both(name, superclass, id);
    lemma_both(name + superclass, metaclass, id);
    lemma_both(name + superclass + metaclass, attributes, id);
    lemma_both(name + superclass + metaclass + attributes, fields, id);
    lemma_both(name + superclass + metaclass + attributes + fields, methods, id);
    super::laws::lemma_values_refs(class.static_fields@, id);
    assert(name[0] == class.name);
    if class.superclass == Some(id) {
        assert(superclass[0] == id);
    }
    if class.metaclass == Some(id) {
        assert(metaclass[0] == id);
    }
    if class.attributes.spec_as_object() == Some(id) {
        assert(attributes[0] == id);
    }
    if 0 <= symbol < class.methods.entries().len() && crate::object::spec_entry_closure(
        class.methods.entries()[symbol],
    ) == Some(id) {
        lemma_methods(class.methods.entries(), symbol, id);
    }
}

/// The stack of a fiber that was put aside, the closures it runs, the fiber that
/// resumed it, its error and what it starts with are followed.
pub proof fn law_what_a_fiber_holds_is_followed(
    heap: HeapModel,
    holder: ObjectId,
    frame: int,
    id: ObjectId,
)
    requires
        heap.fiber(holder) matches Some(fiber) && (holds(fiber.stack@, id) || (0 <= frame
            < fiber.frames@.len() && fiber.frames@[frame].closure == id) || fiber.caller == Some(id)
            || fiber.error.spec_as_object() == Some(id) || fiber.entry == Some(id)),
    ensures
        heap.refs(holder).contains(id),
{
    let fiber = heap.fiber(holder)->0;
    let stack = crate::object::values_refs(fiber.stack@);
    let frames = crate::object::frames_refs(fiber.frames@);
    let caller = crate::object::option_refs(fiber.caller);
    let error = crate::object::value_refs(fiber.error);
    let entry = crate::object::option_refs(fiber.entry);
    lemma_both(stack, frames, id);
    lemma_both(stack + frames, caller, id);
    lemma_both(stack + frames + caller, error, id);
    lemma_both(stack + frames + caller + error, entry, id);
    super::laws::lemma_values_refs(fiber.stack@, id);
    if 0 <= frame < fiber.frames@.len() && fiber.frames@[frame].closure == id {
        assert(frames[frame] == id);
    }
    if fiber.caller == Some(id) {
        assert(caller[0] == id);
    }
    if fiber.error.spec_as_object() == Some(id) {
        assert(error[0] == id);
    }
    if fiber.entry == Some(id) {
        assert(entry[0] == id);
    }
}

} // verus!
