//! What holds of the heap as a whole.

use vstd::prelude::*;

use super::{Heap, HeapModel, InstanceModel};
use crate::handle::ObjectId;
use crate::object::{Object, ObjectType, Trace};
use crate::value::Value;

verus! {

/// What was put under a handle is read back from it, and no other handle
/// learns of it.
pub proof fn law_allocated_is_read_back(
    model: HeapModel,
    id: ObjectId,
    object: Object,
    fields: Seq<Value>,
)
    requires
        id.spec_tag() == object.kind().spec_tag(),
    ensures
        model.with(id, object, fields).has(id),
        match object {
            Object::Closure(it) => model.with(id, object, fields).closure(id) == Some(it),
            Object::Fn(it) => model.with(id, object, fields).function(id) == Some(*it),
            Object::List(it) => model.with(id, object, fields).list(id) == Some(it),
            Object::MapObject(it) => model.with(id, object, fields).map(id) == Some(it),
            Object::Range(it) => model.with(id, object, fields).range(id) == Some(it),
            Object::String(it) => model.with(id, object, fields).string(id) == Some(it),
            Object::Upvalue(it) => model.with(id, object, fields).upvalue(id) == Some(it),
            Object::Fiber(it) => model.with(id, object, fields).fiber(id) == Some(*it),
            Object::Class(it) => model.with(id, object, fields).class(id) == Some(*it),
            Object::Instance(it) => model.with(id, object, fields).instance(id) == Some(
                (InstanceModel { class: it.class, fields }),
            ),
        },
        forall|other: ObjectId|
            other != id ==> #[trigger] model.with(id, object, fields).has(other) == model.has(other),
        forall|other: ObjectId|
            other != id && model.has(other) ==> #[trigger] model.with(id, object, fields).refs(
                other,
            ) == model.refs(other),
{
    crate::handle::lemma_parts_determine(id);
}

/// What a peak is raised to is no less than it was, and no less than what is
/// held: it never falls.
pub proof fn law_peak_never_falls(peak: usize, bytes: usize)
    ensures
        super::raised(peak, bytes) >= peak,
        super::raised(peak, bytes) >= bytes,
        super::raised(peak, bytes) == peak || super::raised(peak, bytes) == bytes,
{
}

/// A handle that names nothing goes on naming nothing while objects are made,
/// unless it is the one that is given out.
pub proof fn law_stale_handle_stays_stale(
    before: &Heap,
    after: &Heap,
    id: ObjectId,
    object: Object,
    stale: ObjectId,
)
    requires
        after.allocated(before, id, object),
        !before@.has(stale),
        stale != id,
    ensures
        !after@.has(stale),
{
    law_allocated_is_read_back(before@, id, object, before.fields_of(object));
}

/// A handle reads as an object of one type at most: the type it names.
pub proof fn law_handle_reads_one_type(model: HeapModel, id: ObjectId)
    ensures
        model.closure(id) is Some ==> id.spec_tag() == ObjectType::Closure.spec_tag(),
        model.function(id) is Some ==> id.spec_tag() == ObjectType::Fn.spec_tag(),
        model.list(id) is Some ==> id.spec_tag() == ObjectType::List.spec_tag(),
        model.map(id) is Some ==> id.spec_tag() == ObjectType::MapObject.spec_tag(),
        model.range(id) is Some ==> id.spec_tag() == ObjectType::Range.spec_tag(),
        model.string(id) is Some ==> id.spec_tag() == ObjectType::String.spec_tag(),
        model.upvalue(id) is Some ==> id.spec_tag() == ObjectType::Upvalue.spec_tag(),
        model.fiber(id) is Some ==> id.spec_tag() == ObjectType::Fiber.spec_tag(),
        model.class(id) is Some ==> id.spec_tag() == ObjectType::Class.spec_tag(),
        model.instance(id) is Some ==> id.spec_tag() == ObjectType::Instance.spec_tag(),
        !model.has(id) ==> model.closure(id) is None && model.function(id) is None && model.list(id) is None && model.map(id) is None && model.range(id) is None && model.string(id) is None && model.upvalue(id) is None && model.fiber(id) is None && model.class(id) is None && model.instance(id) is None,
{
}

/// A stored field reads as what was stored, and the others as what they were,
/// or null where there were none.
pub proof fn law_stored_field_is_read_back(fields: Seq<Value>, index: int, value: Value)
    requires
        0 <= index,
    ensures
        super::instances::stored(fields, index, value)[index] == value,
        super::instances::stored(fields, index, value).len() == if fields.len() <= index {
            index + 1
        } else {
            fields.len() as int
        },
        forall|i: int|
            0 <= i < super::instances::stored(fields, index, value).len() && i != index
                ==> #[trigger] super::instances::stored(fields, index, value)[i] == if i < fields.len() {
                fields[i]
            } else {
                Value::null()
            },
{
}

/// What a kept object refers to.
proof fn lemma_refs_kept(before: HeapModel, after: HeapModel, kept: Set<ObjectId>, id: ObjectId)
    requires
        after.swept(before, kept),
        after.has(id),
    ensures
        before.has(id),
        after.refs(id) == before.refs(id),
        after.permanent(id) == before.permanent(id),
{
    let i = id.spec_index();
    match ObjectType::spec_from_tag(id.spec_tag()) {
        Some(ObjectType::Class) => {
            after.classes[i].lemma_same(&before.classes[i]);
        },
        Some(ObjectType::Closure) => {
            after.closures[i].lemma_same(&before.closures[i]);
        },
        Some(ObjectType::Fn) => {
            after.functions[i].lemma_same(&before.functions[i]);
        },
        Some(ObjectType::List) => {
            after.lists[i].lemma_same(&before.lists[i]);
        },
        Some(ObjectType::MapObject) => {
            after.maps[i].lemma_same(&before.maps[i]);
        },
        Some(ObjectType::Range) => {
            after.ranges[i].lemma_same(&before.ranges[i]);
        },
        Some(ObjectType::String) => {
            after.strings[i].lemma_same(&before.strings[i]);
        },
        Some(ObjectType::Upvalue) => {
            after.upvalues[i].lemma_same(&before.upvalues[i]);
        },
        Some(ObjectType::Fiber) => {
            after.fibers[i].lemma_same(&before.fibers[i]);
        },
        Some(ObjectType::Instance) => {
            assert(after.instances[i] == before.instances[i]);
        },
        None => {},
    }
}

/// What the roots reach, a full collection leaves within their reach.
proof fn lemma_chain_kept(
    before: HeapModel,
    after: HeapModel,
    roots: Seq<Value>,
    chain: Seq<ObjectId>,
)
    requires
        after.swept(before, before.kept_by(roots)),
        before.chain(
            before.ids(),
            super::graph::handles(crate::object::values_refs(roots)),
            chain,
        ),
    ensures
        after.chain(after.ids(), super::graph::handles(crate::object::values_refs(roots)), chain),
{
    let start = super::graph::handles(crate::object::values_refs(roots));
    assert forall|i: int| 0 <= i < chain.len() implies after.has(#[trigger] chain[i]) by {
        let part = chain.take(i + 1);
        assert(part[0] == chain[0]);
        assert forall|j: int| 0 <= j < part.len() implies before.ids().contains(
            #[trigger] part[j],
        ) by {
            assert(part[j] == chain[j]);
        }
        assert forall|j: int| 0 < j < part.len() implies before.refs(part[j - 1]).contains(
            #[trigger] part[j],
        ) by {
            assert(part[j] == chain[j]);
            assert(part[j - 1] == chain[j - 1]);
        }
        assert(before.chain(before.ids(), start, part));
        assert(part.last() == chain[i]);
        assert(before.reachable(start, chain[i]));
        assert(before.kept_by(roots).contains(chain[i]));
        assert(before.ids().contains(chain[i]));
    }
    assert forall|i: int| 0 < i < chain.len() implies after.refs(chain[i - 1]).contains(
        #[trigger] chain[i],
    ) by {
        assert(after.has(chain[i - 1]));
        lemma_refs_kept(before, after, before.kept_by(roots), chain[i - 1]);
    }
}

/// A full collection loses nothing that the roots reach, and what they reached
/// before it they reach after it.
pub proof fn law_collect_keeps_reachable(
    before: HeapModel,
    after: HeapModel,
    roots: Seq<Value>,
    id: ObjectId,
)
    requires
        after.swept(before, before.kept_by(roots)),
        before.reachable(super::graph::handles(crate::object::values_refs(roots)), id),
    ensures
        after.has(id),
        after.reachable(super::graph::handles(crate::object::values_refs(roots)), id),
{
    let start = super::graph::handles(crate::object::values_refs(roots));
    let chain = choose|chain: Seq<ObjectId>| #[trigger]
        before.chain(before.ids(), start, chain) && chain.last() == id;
    lemma_chain_kept(before, after, roots, chain);
    assert(after.ids().contains(chain[chain.len() - 1]));
}

/// Collecting again from the same roots frees nothing more.
pub proof fn law_collect_is_idempotent(
    before: HeapModel,
    after: HeapModel,
    again: HeapModel,
    roots: Seq<Value>,
    id: ObjectId,
)
    requires
        after.swept(before, before.kept_by(roots)),
        again.swept(after, after.kept_by(roots)),
    ensures
        again.has(id) == after.has(id),
{
    if after.has(id) {
        lemma_refs_kept(before, after, before.kept_by(roots), id);
        let start = super::graph::handles(crate::object::values_refs(roots));
        if before.reachable(start, id) {
            law_collect_keeps_reachable(before, after, roots, id);
        }
        assert(after.kept_by(roots).contains(id));
    }
}

/// Every link of a chain that is young is reached by a minor collection, if the
/// barrier has been kept.
proof fn lemma_young_link_reached(
    heap: &Heap,
    roots: Seq<ObjectId>,
    chain: Seq<ObjectId>,
    at: int,
)
    requires
        heap.barrier_kept(),
        heap@.chain(heap@.ids(), super::graph::handles(roots), chain),
        0 <= at < chain.len(),
    ensures
        heap.spec_young(chain[at]) ==> heap@.reaches(
            heap.enterable(true),
            heap.minor_start(roots),
            chain[at],
        ),
    decreases at,
{
    let among = heap.enterable(true);
    let start = heap.minor_start(roots);
    assert(heap@.ids().contains(chain[at]));
    if heap.spec_young(chain[at]) {
        assert(among.contains(chain[at]));
        if at == 0 {
            assert(roots.contains(chain[0]));
            heap@.lemma_root_reached(among, start, chain[0]);
        } else {
            let from = chain[at - 1];
            lemma_young_link_reached(heap, roots, chain, at - 1);
            assert(heap@.refs(from).contains(chain[at]));
            assert(heap@.ids().contains(from));
            if heap.spec_young(from) {
                heap@.lemma_step_reached(among, start, from, chain[at]);
            } else {
                assert(!heap.breach(from, chain[at]));
                assert(heap.scanned(from));
                assert(start.contains(chain[at]));
                heap@.lemma_root_reached(among, start, chain[at]);
            }
        }
    }
}

/// As long as every store that made something old point at something young was
/// recorded, a minor collection frees nothing that its roots reach.
pub proof fn law_minor_keeps_reachable(heap: &Heap, roots: Seq<ObjectId>, id: ObjectId)
    requires
        heap.barrier_kept(),
        heap@.reachable(super::graph::handles(roots), id),
    ensures
        heap@.has(id),
        heap.kept_young(roots).contains(id),
{
    let chain = choose|chain: Seq<ObjectId>| #[trigger]
        heap@.chain(heap@.ids(), super::graph::handles(roots), chain) && chain.last() == id;
    lemma_young_link_reached(heap, roots, chain, chain.len() - 1);
    assert(heap@.ids().contains(chain[chain.len() - 1]));
}

/// What a run of values refers to.
pub proof fn lemma_values_refs(values: Seq<Value>, id: ObjectId)
    ensures
        crate::object::values_refs(values).contains(id) <==> exists|i: int|
            0 <= i < values.len() && (#[trigger] values[i]).spec_as_object() == Some(id),
    decreases values.len(),
{
    if values.len() > 0 {
        let front = values.drop_last();
        let last = values.last();
        lemma_values_refs(front, id);
        super::collector::lemma_add_contains(
            crate::object::values_refs(front),
            crate::object::value_refs(last),
            id,
        );
        if crate::object::values_refs(front).contains(id) {
            let i = choose|i: int|
                0 <= i < front.len() && (#[trigger] front[i]).spec_as_object() == Some(id);
            assert(values[i].spec_as_object() == Some(id));
        }
        if crate::object::value_refs(last).contains(id) {
            assert(values[values.len() - 1].spec_as_object() == Some(id));
        }
        if exists|i: int|
            0 <= i < values.len() && (#[trigger] values[i]).spec_as_object() == Some(id) {
            let i = choose|i: int|
                0 <= i < values.len() && (#[trigger] values[i]).spec_as_object() == Some(id);
            if i < front.len() {
                assert(front[i].spec_as_object() == Some(id));
            } else {
                assert(crate::object::value_refs(last)[0] == id);
            }
        }
    }
}

/// A store that goes through the barrier keeps what a minor collection depends
/// on: `after` is `before` with a value stored into a field of an instance and
/// the barrier told.
pub proof fn law_store_keeps_barrier(
    before: &Heap,
    after: &Heap,
    id: ObjectId,
    index: int,
    value: Value,
)
    requires
        before.barrier_kept(),
        before@.instance(id) is Some,
        0 <= index,
        after@ == (HeapModel {
            instances: before@.instances.insert(
                id.spec_index(),
                (InstanceModel {
                    class: before@.instance(id)->0.class,
                    fields: super::instances::stored(
                        before@.instance(id)->0.fields,
                        index,
                        value,
                    ),
                }),
            ),
            ..before@
        }),
        after.barrier_told(before, id, value),
    ensures
        after.barrier_kept(),
{
    assert forall|from: ObjectId, to: ObjectId| !(#[trigger] after.breach(from, to)) by {
        if after.breach(from, to) {
            assert(!before.breach(from, to));
            crate::handle::lemma_parts_determine(id);
            if from == id {
                let fields = before@.instance(id)->0.fields;
                let new = super::instances::stored(fields, index, value);
                let class = before@.instance(id)->0.class;
                super::collector::lemma_add_contains(
                    seq![class],
                    crate::object::values_refs(new),
                    to,
                );
                super::collector::lemma_add_contains(
                    seq![class],
                    crate::object::values_refs(fields),
                    to,
                );
                lemma_values_refs(new, to);
                lemma_values_refs(fields, to);
                if crate::object::values_refs(new).contains(to) && !seq![class].contains(to) {
                    let i = choose|i: int|
                        0 <= i < new.len() && (#[trigger] new[i]).spec_as_object() == Some(to);
                    law_stored_field_is_read_back(fields, index, value);
                    if i == index {
                        assert(before.crosses(id, value));
                    } else {
                        assert(i < fields.len());
                        assert(fields[i].spec_as_object() == Some(to));
                    }
                }
            } else {
                assert(after@.refs(from) == before@.refs(from));
            }
            assert(false);
        }
    }
}

} // verus!
