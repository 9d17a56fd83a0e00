//! Giving the core library's classes their methods, and the first module its
//! variables.

use vstd::prelude::*;
use vstd::string::*;

use super::arguments;
use super::arguments::signature_for;
use super::bindings;
use super::bindings::{
    define, equip, give_rows, new_class, set_fields, set_metaclass, Row, MAX_PRIMITIVES,
};
use super::primitive::Primitive;
use super::tables;
use crate::handle::ObjectId;
use crate::heap::HeapModel;
use crate::value::Value;
use crate::vm::{Module, Vm};

verus! {

/// The metaclasses that the core library makes, and the one class that only a
/// variable refers to.
#[derive(Clone, Copy, PartialEq, Eq, Structural, Debug)]
pub struct Homes {
    pub function: ObjectId,
    pub fiber: ObjectId,
    pub string: ObjectId,
    pub number: ObjectId,
    pub list: ObjectId,
    pub map: ObjectId,
    pub system: ObjectId,
    pub system_class: ObjectId,
}

/// The most arguments that a function can be called with.
pub const MAX_CALL: usize = 16;

/// The methods that call a function, for each number of arguments.
pub open spec fn call_rows() -> Seq<(Seq<char>, Primitive)> {
    Seq::new(
        (MAX_CALL + 1) as nat,
        |i: int| (arguments::signature_of("call"@, i as nat), Primitive::FnCall),
    )
}

/// What every class of the core library answers.
pub open spec fn core_bindings(vm: &Vm, homes: Homes) -> Map<(ObjectId, Seq<char>), Primitive> {
    let b = values_bindings(vm, Map::empty(), homes.function, homes.fiber);
    let b = scalars_bindings(vm, b, homes.string, homes.number);
    let b = sequence_bindings(vm, b);
    let b = collections_bindings(vm, b, homes.list, homes.map);
    bindings::with_rows(b, homes.system, tables::system_rows())
}

/// Whether the core classes can be given methods.
pub open spec fn core_definable(vm: &Vm) -> bool {
    &&& vm.heap@.definable(vm.object_class)
    &&& vm.heap@.definable(vm.num_class)
    &&& vm.heap@.definable(vm.bool_class)
    &&& vm.heap@.definable(vm.null_class)
    &&& vm.heap@.definable(vm.string_class)
    &&& vm.heap@.definable(vm.list_class)
    &&& vm.heap@.definable(vm.map_class)
    &&& vm.heap@.definable(vm.range_class)
    &&& vm.heap@.definable(vm.class_class)
    &&& vm.heap@.definable(vm.fn_class)
    &&& vm.heap@.definable(vm.map_entry_class)
    &&& vm.heap@.definable(vm.fiber_class)
    &&& vm.heap@.definable(vm.sequence_class)
    &&& vm.heap@.definable(vm.map_sequence_class)
    &&& vm.heap@.definable(vm.where_sequence_class)
    &&& vm.heap@.definable(vm.take_sequence_class)
    &&& vm.heap@.definable(vm.skip_sequence_class)
}

/// Whether the core classes were made since a heap was as it was.
pub open spec fn core_made(vm: &Vm, start: HeapModel) -> bool {
    &&& bindings::made_since(vm, start, vm.object_class)
    &&& bindings::made_since(vm, start, vm.num_class)
    &&& bindings::made_since(vm, start, vm.bool_class)
    &&& bindings::made_since(vm, start, vm.null_class)
    &&& bindings::made_since(vm, start, vm.string_class)
    &&& bindings::made_since(vm, start, vm.list_class)
    &&& bindings::made_since(vm, start, vm.map_class)
    &&& bindings::made_since(vm, start, vm.range_class)
    &&& bindings::made_since(vm, start, vm.class_class)
    &&& bindings::made_since(vm, start, vm.fn_class)
    &&& bindings::made_since(vm, start, vm.map_entry_class)
    &&& bindings::made_since(vm, start, vm.fiber_class)
    &&& bindings::made_since(vm, start, vm.sequence_class)
    &&& bindings::made_since(vm, start, vm.map_sequence_class)
    &&& bindings::made_since(vm, start, vm.where_sequence_class)
    &&& bindings::made_since(vm, start, vm.take_sequence_class)
    &&& bindings::made_since(vm, start, vm.skip_sequence_class)
}

/// Whether the classes that get a metaclass are different ones.
pub open spec fn core_apart(vm: &Vm) -> bool {
    &&& vm.fn_class != vm.fiber_class
    &&& vm.fn_class != vm.string_class
    &&& vm.fn_class != vm.num_class
    &&& vm.fn_class != vm.list_class
    &&& vm.fn_class != vm.map_class
    &&& vm.fiber_class != vm.string_class
    &&& vm.fiber_class != vm.num_class
    &&& vm.fiber_class != vm.list_class
    &&& vm.fiber_class != vm.map_class
    &&& vm.string_class != vm.num_class
    &&& vm.string_class != vm.list_class
    &&& vm.string_class != vm.map_class
    &&& vm.num_class != vm.list_class
    &&& vm.num_class != vm.map_class
    &&& vm.list_class != vm.map_class
}

/// Whether the metaclasses are those of their classes.
pub open spec fn homes_of(vm: &Vm, homes: Homes) -> bool {
    &&& bindings::shape_of(vm.heap@, vm.fn_class)->0.metaclass == Some(homes.function)
    &&& bindings::shape_of(vm.heap@, vm.fiber_class)->0.metaclass == Some(homes.fiber)
    &&& bindings::shape_of(vm.heap@, vm.string_class)->0.metaclass == Some(homes.string)
    &&& bindings::shape_of(vm.heap@, vm.num_class)->0.metaclass == Some(homes.number)
    &&& bindings::shape_of(vm.heap@, vm.list_class)->0.metaclass == Some(homes.list)
    &&& bindings::shape_of(vm.heap@, vm.map_class)->0.metaclass == Some(homes.map)
    &&& bindings::shape_of(vm.heap@, homes.system_class) matches Some(shape)
    &&& shape.metaclass == Some(homes.system)
    &&& shape.superclass is None
    &&& homes_called(vm.heap@, homes)
}

/// Whether the metaclasses have their names.
pub open spec fn homes_called(heap: HeapModel, homes: Homes) -> bool {
    &&& bindings::called(heap, homes.function, "Fn metaclass"@)
    &&& bindings::called(heap, homes.fiber, "Fiber metaclass"@)
    &&& bindings::called(heap, homes.string, "String metaclass"@)
    &&& bindings::called(heap, homes.number, "Num metaclass"@)
    &&& bindings::called(heap, homes.list, "List metaclass"@)
    &&& bindings::called(heap, homes.map, "Map metaclass"@)
    &&& bindings::called(heap, homes.system, "System metaclass"@)
    &&& bindings::called(heap, homes.system_class, "System"@)
}

/// Have functions answer every call with up to the most arguments.
fn give_calls(vm: &mut Vm, class: ObjectId)
    requires
        old(vm).wf(),
        old(vm).primitives@.len() + MAX_CALL + 1 < MAX_PRIMITIVES,
        old(vm).heap@.definable(class),
    ensures
        final(vm).wf(),
        bindings::grew(old(vm), final(vm), MAX_CALL + 1, 0),
        bindings::same_shapes(final(vm).heap@, old(vm).heap@),
        forall|id: ObjectId| #[trigger] final(vm).heap@.has(id) == old(vm).heap@.has(id),
        forall|start: HeapModel, given: Map<(ObjectId, Seq<char>), Primitive>| #[trigger]
            bindings::holds(old(vm), start, given) && bindings::made_since(old(vm), start, class)
                ==> bindings::holds(
                final(vm),
                start,
                bindings::with_rows(given, class, call_rows()),
            ),
{
    let ghost before = *vm;
    let ghost all = call_rows();
    proof {
        assert(all.take(0) =~= Seq::<(Seq<char>, Primitive)>::empty());
    }
    let mut arity: usize = 0;
    while arity <= MAX_CALL
        invariant
            before == *old(vm),
            before.heap@.definable(class),
            before.primitives@.len() + MAX_CALL + 1 < MAX_PRIMITIVES,
            arity <= MAX_CALL + 1,
            all == call_rows(),
            vm.wf(),
            bindings::only_bound(&before, vm),
            vm.primitives@.len() == before.primitives@.len() + arity,
            forall|start: HeapModel, given: Map<(ObjectId, Seq<char>), Primitive>| #[trigger]
                bindings::holds(&before, start, given) && bindings::made_since(
                    &before,
                    start,
                    class,
                ) ==> bindings::holds(
                    vm,
                    start,
                    bindings::with_rows(given, class, all.take(arity as int)),
                ),
        decreases MAX_CALL + 1 - arity,
    {
        let ghost between = *vm;
        let signature = signature_for("call", arity);
        define(vm, class, signature.as_str(), Primitive::FnCall);
        proof {
            let more = all.take(arity as int + 1);
            assert(more.drop_last() =~= all.take(arity as int));
            assert(more.last() == (signature@, Primitive::FnCall));
            assert forall|start: HeapModel, given: Map<(ObjectId, Seq<char>), Primitive>| #[trigger]
                bindings::holds(&before, start, given) && bindings::made_since(
                    &before,
                    start,
                    class,
                ) implies bindings::holds(
                vm,
                start,
                bindings::with_rows(given, class, more),
            ) by {
                let earlier = bindings::with_rows(given, class, all.take(arity as int));
                assert(bindings::holds(&between, start, earlier));
                assert(bindings::made_since(&between, start, class));
            }
        }
        arity = arity + 1;
    }
    proof {
        assert(all.take(arity as int) =~= all);
        bindings::lemma_bound_shapes(&before, vm);
        assert forall|n: int| #[trigger] before.heap.has_slots(n) implies vm.heap.has_slots(
            n - 0,
        ) by {
            assert(vm.heap.has_slots(n));
        }
    }
}

/// How many primitives the core library has.
pub const CORE_PRIMITIVES: usize = 203;

/// How many objects the core library's methods take.
pub const CORE_OBJECTS: usize = 16;

/// Make `System`, with a metaclass that prints.
fn install_system(vm: &mut Vm) -> (made: (ObjectId, ObjectId))
    requires
        old(vm).wf(),
        old(vm).primitives@.len() + 3 < MAX_PRIMITIVES,
        old(vm).heap.has_slots(4),
    ensures
        final(vm).wf(),
        bindings::grew(old(vm), final(vm), 3, 4),
        bindings::same_shapes(final(vm).heap@, old(vm).heap@),
        bindings::shape_of(final(vm).heap@, made.1) matches Some(shape) && shape.metaclass == Some(
            made.0,
        ) && shape.superclass is None,
        bindings::called(final(vm).heap@, made.0, "System metaclass"@),
        bindings::called(final(vm).heap@, made.1, "System"@),
        forall|start: HeapModel, given: Map<(ObjectId, Seq<char>), Primitive>| #[trigger]
            bindings::holds(old(vm), start, given) ==> bindings::holds(
                final(vm),
                start,
                bindings::with_rows(given, made.0, tables::system_rows()),
            ),
{
    let ghost before = *vm;
    proof {
        vm.heap.lemma_slots(4, 2);
    }
    let metaclass = new_class(vm, "System metaclass", None);
    let ghost first = *vm;
    proof {
        bindings::lemma_added_shapes(&before, &first, metaclass, "System metaclass"@, None);
        assert(first.heap.has_slots(2));
        assert(bindings::shape_of(first.heap@, metaclass) is Some);
    }
    let class = new_class(vm, "System", None);
    let ghost second = *vm;
    proof {
        bindings::lemma_added_shapes(&first, &second, class, "System"@, None);
        assert(bindings::shape_of(second.heap@, metaclass) is Some);
    }
    set_metaclass(vm, class, metaclass);
    let ghost third = *vm;
    let ghost set = crate::object::ObjClass {
        metaclass: Some(metaclass),
        ..second.heap@.class(class)->0
    };
    proof {
        bindings::lemma_reshaped(&second, &third, class, set, before.heap@, Map::empty());
        assert(metaclass != class);
        assert(bindings::shape_of(third.heap@, metaclass) is Some);
    }
    let rows = tables::system_table();
    proof {
        assert(bindings::said(rows@).len() == rows@.len());
        assert(bindings::shape_of(third.heap@, class) is Some);
    }
    give_rows(vm, metaclass, &rows);
    proof {
        assert forall|start: HeapModel, given: Map<(ObjectId, Seq<char>), Primitive>| #[trigger]
            bindings::holds(&before, start, given) implies bindings::holds(
            vm,
            start,
            bindings::with_rows(given, metaclass, tables::system_rows()),
        ) by {
            bindings::lemma_added(
                &before,
                &first,
                metaclass,
                "System metaclass"@,
                None,
                start,
                given,
            );
            bindings::lemma_added(&first, &second, class, "System"@, None, start, given);
            bindings::lemma_reshaped(&second, &third, class, set, start, given);
            assert(bindings::made_since(&third, start, metaclass));
        }
        assert forall|other: ObjectId|
            (#[trigger] bindings::shape_of(before.heap@, other)) is Some implies bindings::shape_of(
            vm.heap@,
            other,
        ) == bindings::shape_of(before.heap@, other) && (before.heap@.definable(other)
            ==> vm.heap@.definable(other)) by {
            assert(bindings::shape_of(first.heap@, other) is Some);
            assert(other != class);
            assert(bindings::shape_of(second.heap@, other) is Some);
            assert(bindings::shape_of(third.heap@, other) is Some);
        }
        assert forall|n: int| #[trigger] before.heap.has_slots(n) implies vm.heap.has_slots(
            n - 4,
        ) by {
            assert(first.heap.has_slots(n - 2));
            assert(second.heap.has_slots(n - 2 - 2));
            assert(third.heap.has_slots(n - 4));
        }
        assert forall|id: ObjectId|
            (#[trigger] before.heap@.string(id)) is Some implies vm.heap@.string(id)
            == before.heap@.string(id) by {
            assert(first.heap@.string(id) == before.heap@.string(id));
            assert(second.heap@.string(id) == first.heap@.string(id));
            assert(third.heap@.string(id) == second.heap@.string(id));
        }
    }
    (metaclass, class)
}

/// Whether every class that was there is what it was, apart from its methods
/// and its metaclass.
pub open spec fn kept_shapes(after: HeapModel, before: HeapModel) -> bool {
    forall|id: ObjectId|
        (#[trigger] bindings::shape_of(before, id)) is Some ==> {
            &&& bindings::shape_of(after, id) matches Some(shape)
            &&& shape == (bindings::Shape {
                metaclass: shape.metaclass,
                ..bindings::shape_of(before, id)->0
            })
            &&& before.definable(id) ==> after.definable(id)
        }
}

/// Whether a class has the metaclass that it had.
spec fn same_metaclass(after: HeapModel, before: HeapModel, id: ObjectId) -> bool {
    &&& bindings::shape_of(after, id) matches Some(shape)
    &&& shape.metaclass == bindings::shape_of(before, id)->0.metaclass
}

/// Whether a machine that began as another has got so far with the methods of
/// its core classes.
spec fn reached(first: &Vm, vm: &Vm, given: Map<(ObjectId, Seq<char>), Primitive>, primitives: int, objects: int) -> bool {
    &&& vm.wf()
    &&& bindings::grew(first, vm, primitives, objects)
    &&& kept_shapes(vm.heap@, first.heap@)
    &&& forall|start: HeapModel|
        bindings::holds(first, start, Map::empty()) && #[trigger] core_made(first, start)
            ==> bindings::holds(vm, start, given)
}

/// Whether a class can be given methods, in a machine that began as another.
spec fn known(first: &Vm, vm: &Vm, class: ObjectId) -> bool {
    &&& vm.heap@.definable(class)
    &&& forall|start: HeapModel|
        bindings::holds(first, start, Map::empty()) && #[trigger] core_made(first, start)
            ==> bindings::made_since(vm, start, class)
}

/// A core class can be given methods at any time.
proof fn lemma_known(
    first: &Vm,
    vm: &Vm,
    given: Map<(ObjectId, Seq<char>), Primitive>,
    primitives: int,
    objects: int,
    class: ObjectId,
)
    requires
        reached(first, vm, given, primitives, objects),
        first.heap@.definable(class),
        forall|start: HeapModel| #[trigger]
            core_made(first, start) ==> bindings::made_since(first, start, class),
    ensures
        known(first, vm, class),
{
    assert(bindings::shape_of(first.heap@, class) is Some);
}

/// Give one more class methods.
fn add_rows(
    vm: &mut Vm,
    Ghost(first): Ghost<Vm>,
    Ghost(given): Ghost<Map<(ObjectId, Seq<char>), Primitive>>,
    Ghost(primitives): Ghost<int>,
    Ghost(objects): Ghost<int>,
    class: ObjectId,
    rows: &Vec<Row>,
)
    requires
        reached(&first, old(vm), given, primitives, objects),
        known(&first, old(vm), class),
        first.primitives@.len() + primitives + rows@.len() < MAX_PRIMITIVES,
    ensures
        forall|id: ObjectId, name: Seq<char>| #[trigger]
            bindings::called(old(vm).heap@, id, name) ==> bindings::called(
                final(vm).heap@,
                id,
                name,
            ),
        reached(
            &first,
            final(vm),
            bindings::with_rows(given, class, bindings::said(rows@)),
            primitives + rows@.len(),
            objects,
        ),
        bindings::same_shapes(final(vm).heap@, old(vm).heap@),
        forall|id: ObjectId| known(&first, old(vm), id) ==> #[trigger] known(&first, final(vm), id),
{
    let ghost before = *vm;
    give_rows(vm, class, rows);
    proof {
        lemma_stayed(&first, &before, vm);
        assert forall|start: HeapModel|
            bindings::holds(&first, start, Map::empty()) && #[trigger] core_made(
                &first,
                start,
            ) implies bindings::holds(
            vm,
            start,
            bindings::with_rows(given, class, bindings::said(rows@)),
        ) by {
            assert(bindings::holds(&before, start, given));
        }
        assert forall|n: int| #[trigger] first.heap.has_slots(n) implies vm.heap.has_slots(
            n - objects,
        ) by {
            assert(before.heap.has_slots(n - objects));
            assert(vm.heap.has_slots(n - objects - 0));
        }
    }
}

/// Have functions answer calls.
fn add_calls(
    vm: &mut Vm,
    Ghost(first): Ghost<Vm>,
    Ghost(given): Ghost<Map<(ObjectId, Seq<char>), Primitive>>,
    Ghost(primitives): Ghost<int>,
    Ghost(objects): Ghost<int>,
    class: ObjectId,
)
    requires
        reached(&first, old(vm), given, primitives, objects),
        known(&first, old(vm), class),
        first.primitives@.len() + primitives + MAX_CALL + 1 < MAX_PRIMITIVES,
    ensures
        forall|id: ObjectId, name: Seq<char>| #[trigger]
            bindings::called(old(vm).heap@, id, name) ==> bindings::called(
                final(vm).heap@,
                id,
                name,
            ),
        reached(
            &first,
            final(vm),
            bindings::with_rows(given, class, call_rows()),
            primitives + MAX_CALL + 1,
            objects,
        ),
        bindings::same_shapes(final(vm).heap@, old(vm).heap@),
        forall|id: ObjectId| known(&first, old(vm), id) ==> #[trigger] known(&first, final(vm), id),
{
    let ghost before = *vm;
    give_calls(vm, class);
    proof {
        lemma_stayed(&first, &before, vm);
        assert forall|start: HeapModel|
            bindings::holds(&first, start, Map::empty()) && #[trigger] core_made(
                &first,
                start,
            ) implies bindings::holds(
            vm,
            start,
            bindings::with_rows(given, class, call_rows()),
        ) by {
            assert(bindings::holds(&before, start, given));
        }
        assert forall|n: int| #[trigger] first.heap.has_slots(n) implies vm.heap.has_slots(
            n - objects,
        ) by {
            assert(before.heap.has_slots(n - objects));
            assert(vm.heap.has_slots(n - objects - 0));
        }
    }
}

/// What was there stays there when only methods are added.
proof fn lemma_stayed(first: &Vm, before: &Vm, after: &Vm)
    requires
        kept_shapes(before.heap@, first.heap@),
        bindings::same_shapes(after.heap@, before.heap@),
    ensures
        kept_shapes(after.heap@, first.heap@),
        forall|id: ObjectId| known(first, before, id) ==> #[trigger] known(first, after, id),
{
    assert forall|id: ObjectId|
        (#[trigger] bindings::shape_of(first.heap@, id)) is Some implies {
        &&& bindings::shape_of(after.heap@, id) matches Some(shape)
        &&& shape == (bindings::Shape {
            metaclass: shape.metaclass,
            ..bindings::shape_of(first.heap@, id)->0
        })
        &&& first.heap@.definable(id) ==> after.heap@.definable(id)
    } by {
        assert(bindings::shape_of(before.heap@, id) is Some);
    }
    assert forall|id: ObjectId| known(first, before, id) implies #[trigger] known(
        first,
        after,
        id,
    ) by {
        assert(bindings::shape_of(before.heap@, id) is Some);
        assert forall|start: HeapModel|
            bindings::holds(first, start, Map::empty()) && #[trigger] core_made(
                first,
                start,
            ) implies bindings::made_since(after, start, id) by {
            assert(bindings::made_since(before, start, id));
        }
    }
}

/// Give one more class a metaclass with methods, and methods of its own.
fn add_home(
    vm: &mut Vm,
    Ghost(first): Ghost<Vm>,
    Ghost(given): Ghost<Map<(ObjectId, Seq<char>), Primitive>>,
    Ghost(primitives): Ghost<int>,
    Ghost(objects): Ghost<int>,
    class: ObjectId,
    name: &str,
    meta: &Vec<Row>,
    own: &Vec<Row>,
) -> (metaclass: ObjectId)
    requires
        reached(&first, old(vm), given, primitives, objects),
        known(&first, old(vm), class),
        first.primitives@.len() + primitives + meta@.len() + own@.len() < MAX_PRIMITIVES,
        first.heap.has_slots(objects + 2),
    ensures
        forall|id: ObjectId, name: Seq<char>| #[trigger]
            bindings::called(old(vm).heap@, id, name) ==> bindings::called(
                final(vm).heap@,
                id,
                name,
            ),
        reached(
            &first,
            final(vm),
            bindings::with_rows(
                bindings::with_rows(given, metaclass, bindings::said(meta@)),
                class,
                bindings::said(own@),
            ),
            primitives + meta@.len() + own@.len(),
            objects + 2,
        ),
        known(&first, final(vm), metaclass),
        bindings::same_shapes_but(final(vm).heap@, old(vm).heap@, class),
        bindings::called(final(vm).heap@, metaclass, name@),
        bindings::shape_of(final(vm).heap@, class) is Some,
        bindings::shape_of(final(vm).heap@, class)->0.metaclass == Some(metaclass),
        forall|id: ObjectId| known(&first, old(vm), id) ==> #[trigger] known(&first, final(vm), id),
{
    let ghost before = *vm;
    proof {
        assert(vm.heap.has_slots(objects + 2 - objects));
        assert(bindings::shape_of(before.heap@, class) is Some);
    }
    let metaclass = equip(vm, class, name, meta, own);
    proof {
        let more = bindings::with_rows(
            bindings::with_rows(given, metaclass, bindings::said(meta@)),
            class,
            bindings::said(own@),
        );
        assert forall|start: HeapModel|
            bindings::holds(&first, start, Map::empty()) && #[trigger] core_made(
                &first,
                start,
            ) implies bindings::holds(vm, start, more) && bindings::made_since(
            vm,
            start,
            metaclass,
        ) by {
            assert(bindings::holds(&before, start, given));
            assert(bindings::made_since(&before, start, class));
        }
        assert forall|id: ObjectId|
            (#[trigger] bindings::shape_of(first.heap@, id)) is Some implies {
            &&& bindings::shape_of(vm.heap@, id) matches Some(shape)
            &&& shape == (bindings::Shape {
                metaclass: shape.metaclass,
                ..bindings::shape_of(first.heap@, id)->0
            })
            &&& first.heap@.definable(id) ==> vm.heap@.definable(id)
        } by {
            assert(bindings::shape_of(before.heap@, id) is Some);
        }
        assert forall|id: ObjectId| known(&first, &before, id) implies #[trigger] known(
            &first,
            vm,
            id,
        ) by {
            assert(bindings::shape_of(before.heap@, id) is Some);
            assert forall|start: HeapModel|
                bindings::holds(&first, start, Map::empty()) && #[trigger] core_made(
                    &first,
                    start,
                ) implies bindings::made_since(vm, start, id) by {
                assert(bindings::made_since(&before, start, id));
            }
        }
        assert forall|n: int| #[trigger] first.heap.has_slots(n) implies vm.heap.has_slots(
            n - (objects + 2),
        ) by {
            assert(before.heap.has_slots(n - objects));
            assert(vm.heap.has_slots(n - objects - 2));
        }
    }
    metaclass
}

/// Bindings with the methods of objects, functions and fibers added.
pub open spec fn values_bindings(vm: &Vm, given: Map<(ObjectId, Seq<char>), Primitive>, function_home: ObjectId, fiber_home: ObjectId) -> Map<(ObjectId, Seq<char>), Primitive> {
    let b = given;
    let b = bindings::with_rows(b, vm.object_class, tables::object_rows());
    let b = bindings::with_rows(b, function_home, tables::fn_meta_rows());
    let b = bindings::with_rows(b, vm.fn_class, tables::fn_rows());
    let b = bindings::with_rows(b, vm.fn_class, call_rows());
    let b = bindings::with_rows(b, fiber_home, tables::fiber_meta_rows());
    let b = bindings::with_rows(b, vm.fiber_class, tables::fiber_rows());
    b
}

/// Give objects, functions and fibers their methods.
#[verifier::rlimit(50)]
fn install_values(
    vm: &mut Vm,
    Ghost(first): Ghost<Vm>,
    Ghost(given): Ghost<Map<(ObjectId, Seq<char>), Primitive>>,
    Ghost(primitives): Ghost<int>,
    Ghost(objects): Ghost<int>,
) -> (made: (ObjectId, ObjectId))
    requires
        reached(&first, old(vm), given, primitives, objects),
        core_definable(&first),
        core_apart(&first),
        first.primitives@.len() + primitives + 38 < MAX_PRIMITIVES,
        first.heap.has_slots(objects + 4),
    ensures
        bindings::called(final(vm).heap@, made.0, "Fn metaclass"@),
        bindings::called(final(vm).heap@, made.1, "Fiber metaclass"@),
        forall|id: ObjectId, name: Seq<char>| #[trigger]
            bindings::called(old(vm).heap@, id, name) ==> bindings::called(
                final(vm).heap@,
                id,
                name,
            ),
        reached(&first, final(vm), values_bindings(&first, given, made.0, made.1), primitives + 38, objects + 4),
        bindings::shape_of(final(vm).heap@, first.fn_class)->0.metaclass == Some(made.0),
        bindings::shape_of(final(vm).heap@, first.fiber_class)->0.metaclass == Some(made.1),
        forall|id: ObjectId|
            id != first.fn_class && id != first.fiber_class && (#[trigger] bindings::shape_of(old(vm).heap@, id)) is Some ==> same_metaclass(
                final(vm).heap@,
                old(vm).heap@,
                id,
            ),
{
    let ghost v0 = *vm;
    let ghost b = given;
    let class = vm.object_class;
    let rows = tables::object_table();
    proof {
        assert(bindings::said(rows@).len() == rows@.len());
        lemma_known(&first, vm, b, primitives + 0, objects + 0, class);
    }
    add_rows(vm, Ghost(first), Ghost(b), Ghost(primitives + 0), Ghost(objects + 0), class, &rows);
    let ghost b = bindings::with_rows(b, class, tables::object_rows());
    let class = vm.fn_class;
    let meta = tables::fn_meta_table();
    let own: Vec<Row> = tables::fn_table();
    proof {
        assert(bindings::said(meta@).len() == meta@.len());
        assert(bindings::said(own@).len() == own@.len());
        first.heap.lemma_slots(objects + 4, objects + 2);
        lemma_known(&first, vm, b, primitives + 6, objects + 0, class);
    }
    let function_home = add_home(
        vm,
        Ghost(first),
        Ghost(b),
        Ghost(primitives + 6),
        Ghost(objects + 0),
        class,
        "Fn metaclass",
        &meta,
        &own,
    );
    let ghost b = bindings::with_rows(
        bindings::with_rows(b, function_home, tables::fn_meta_rows()),
        class,
        tables::fn_rows(),
    );
    proof {
        assert(bindings::shape_of(vm.heap@, first.fn_class) is Some);
        assert(bindings::shape_of(vm.heap@, first.fn_class)->0.metaclass == Some(function_home));
    }
    let class = vm.fn_class;
    proof {
        lemma_known(&first, vm, b, primitives + 8, objects + 2, class);
    }
    add_calls(vm, Ghost(first), Ghost(b), Ghost(primitives + 8), Ghost(objects + 2), class);
    let ghost b = bindings::with_rows(b, class, call_rows());
    proof {
        assert(bindings::shape_of(vm.heap@, first.fn_class) is Some);
        assert(bindings::shape_of(vm.heap@, first.fn_class)->0.metaclass == Some(function_home));
    }
    let class = vm.fiber_class;
    let meta = tables::fiber_meta_table();
    let own: Vec<Row> = tables::fiber_table();
    proof {
        assert(bindings::said(meta@).len() == meta@.len());
        assert(bindings::said(own@).len() == own@.len());
        first.heap.lemma_slots(objects + 4, objects + 4);
        lemma_known(&first, vm, b, primitives + 25, objects + 2, class);
    }
    let fiber_home = add_home(
        vm,
        Ghost(first),
        Ghost(b),
        Ghost(primitives + 25),
        Ghost(objects + 2),
        class,
        "Fiber metaclass",
        &meta,
        &own,
    );
    let ghost b = bindings::with_rows(
        bindings::with_rows(b, fiber_home, tables::fiber_meta_rows()),
        class,
        tables::fiber_rows(),
    );
    proof {
        assert(bindings::shape_of(vm.heap@, first.fn_class) is Some);
        assert(bindings::shape_of(vm.heap@, first.fn_class)->0.metaclass == Some(function_home));
        assert(bindings::shape_of(vm.heap@, first.fiber_class) is Some);
        assert(bindings::shape_of(vm.heap@, first.fiber_class)->0.metaclass == Some(fiber_home));
    }
    (function_home, fiber_home)
}

/// Bindings with the methods of numbers, truth values, null and strings added.
pub open spec fn scalars_bindings(vm: &Vm, given: Map<(ObjectId, Seq<char>), Primitive>, string_home: ObjectId, number_home: ObjectId) -> Map<(ObjectId, Seq<char>), Primitive> {
    let b = given;
    let b = bindings::with_rows(b, vm.num_class, tables::num_rows());
    let b = bindings::with_rows(b, vm.bool_class, tables::bool_rows());
    let b = bindings::with_rows(b, vm.null_class, tables::null_rows());
    let b = bindings::with_rows(b, vm.string_class, tables::string_rows());
    let b = bindings::with_rows(b, vm.string_class, tables::string_extras_rows());
    let b = bindings::with_rows(b, string_home, tables::string_meta_rows());
    let b = bindings::with_rows(b, vm.num_class, tables::num_extras_rows());
    let b = bindings::with_rows(b, number_home, tables::num_meta_rows());
    b
}

/// Give numbers, truth values, null and strings their methods.
#[verifier::rlimit(50)]
fn install_scalars(
    vm: &mut Vm,
    Ghost(first): Ghost<Vm>,
    Ghost(given): Ghost<Map<(ObjectId, Seq<char>), Primitive>>,
    Ghost(primitives): Ghost<int>,
    Ghost(objects): Ghost<int>,
) -> (made: (ObjectId, ObjectId))
    requires
        reached(&first, old(vm), given, primitives, objects),
        core_definable(&first),
        core_apart(&first),
        first.primitives@.len() + primitives + 89 < MAX_PRIMITIVES,
        first.heap.has_slots(objects + 4),
    ensures
        bindings::called(final(vm).heap@, made.0, "String metaclass"@),
        bindings::called(final(vm).heap@, made.1, "Num metaclass"@),
        forall|id: ObjectId, name: Seq<char>| #[trigger]
            bindings::called(old(vm).heap@, id, name) ==> bindings::called(
                final(vm).heap@,
                id,
                name,
            ),
        reached(&first, final(vm), scalars_bindings(&first, given, made.0, made.1), primitives + 89, objects + 4),
        bindings::shape_of(final(vm).heap@, first.string_class)->0.metaclass == Some(made.0),
        bindings::shape_of(final(vm).heap@, first.num_class)->0.metaclass == Some(made.1),
        forall|id: ObjectId|
            id != first.string_class && id != first.num_class && (#[trigger] bindings::shape_of(old(vm).heap@, id)) is Some ==> same_metaclass(
                final(vm).heap@,
                old(vm).heap@,
                id,
            ),
{
    let ghost v0 = *vm;
    let ghost b = given;
    let class = vm.num_class;
    let rows = tables::num_table();
    proof {
        assert(bindings::said(rows@).len() == rows@.len());
        lemma_known(&first, vm, b, primitives + 0, objects + 0, class);
    }
    add_rows(vm, Ghost(first), Ghost(b), Ghost(primitives + 0), Ghost(objects + 0), class, &rows);
    let ghost b = bindings::with_rows(b, class, tables::num_rows());
    let class = vm.bool_class;
    let rows = tables::bool_table();
    proof {
        assert(bindings::said(rows@).len() == rows@.len());
        lemma_known(&first, vm, b, primitives + 19, objects + 0, class);
    }
    add_rows(vm, Ghost(first), Ghost(b), Ghost(primitives + 19), Ghost(objects + 0), class, &rows);
    let ghost b = bindings::with_rows(b, class, tables::bool_rows());
    let class = vm.null_class;
    let rows = tables::null_table();
    proof {
        assert(bindings::said(rows@).len() == rows@.len());
        lemma_known(&first, vm, b, primitives + 23, objects + 0, class);
    }
    add_rows(vm, Ghost(first), Ghost(b), Ghost(primitives + 23), Ghost(objects + 0), class, &rows);
    let ghost b = bindings::with_rows(b, class, tables::null_rows());
    let class = vm.string_class;
    let rows = tables::string_table();
    proof {
        assert(bindings::said(rows@).len() == rows@.len());
        lemma_known(&first, vm, b, primitives + 27, objects + 0, class);
    }
    add_rows(vm, Ghost(first), Ghost(b), Ghost(primitives + 27), Ghost(objects + 0), class, &rows);
    let ghost b = bindings::with_rows(b, class, tables::string_rows());
    let class = vm.string_class;
    let rows = tables::string_extras_table();
    proof {
        assert(bindings::said(rows@).len() == rows@.len());
        lemma_known(&first, vm, b, primitives + 32, objects + 0, class);
    }
    add_rows(vm, Ghost(first), Ghost(b), Ghost(primitives + 32), Ghost(objects + 0), class, &rows);
    let ghost b = bindings::with_rows(b, class, tables::string_extras_rows());
    let class = vm.string_class;
    let meta = tables::string_meta_table();
    let own: Vec<Row> = Vec::new();
    proof {
        assert(bindings::said(meta@).len() == meta@.len());
        assert(bindings::said(own@).len() == own@.len());
        first.heap.lemma_slots(objects + 4, objects + 2);
        lemma_known(&first, vm, b, primitives + 51, objects + 0, class);
    }
    let string_home = add_home(
        vm,
        Ghost(first),
        Ghost(b),
        Ghost(primitives + 51),
        Ghost(objects + 0),
        class,
        "String metaclass",
        &meta,
        &own,
    );
    proof {
        assert(bindings::said(own@) =~= Seq::<(Seq<char>, Primitive)>::empty());
    }
    let ghost b = bindings::with_rows(b, string_home, tables::string_meta_rows());
    proof {
        assert(bindings::shape_of(vm.heap@, first.string_class) is Some);
        assert(bindings::shape_of(vm.heap@, first.string_class)->0.metaclass == Some(string_home));
    }
    let class = vm.num_class;
    let rows = tables::num_extras_table();
    proof {
        assert(bindings::said(rows@).len() == rows@.len());
        lemma_known(&first, vm, b, primitives + 53, objects + 2, class);
    }
    add_rows(vm, Ghost(first), Ghost(b), Ghost(primitives + 53), Ghost(objects + 2), class, &rows);
    let ghost b = bindings::with_rows(b, class, tables::num_extras_rows());
    proof {
        assert(bindings::shape_of(vm.heap@, first.string_class) is Some);
        assert(bindings::shape_of(vm.heap@, first.string_class)->0.metaclass == Some(string_home));
    }
    let class = vm.num_class;
    let meta = tables::num_meta_table();
    let own: Vec<Row> = Vec::new();
    proof {
        assert(bindings::said(meta@).len() == meta@.len());
        assert(bindings::said(own@).len() == own@.len());
        first.heap.lemma_slots(objects + 4, objects + 4);
        lemma_known(&first, vm, b, primitives + 81, objects + 2, class);
    }
    let number_home = add_home(
        vm,
        Ghost(first),
        Ghost(b),
        Ghost(primitives + 81),
        Ghost(objects + 2),
        class,
        "Num metaclass",
        &meta,
        &own,
    );
    proof {
        assert(bindings::said(own@) =~= Seq::<(Seq<char>, Primitive)>::empty());
    }
    let ghost b = bindings::with_rows(b, number_home, tables::num_meta_rows());
    proof {
        assert(bindings::shape_of(vm.heap@, first.string_class) is Some);
        assert(bindings::shape_of(vm.heap@, first.string_class)->0.metaclass == Some(string_home));
        assert(bindings::shape_of(vm.heap@, first.num_class) is Some);
        assert(bindings::shape_of(vm.heap@, first.num_class)->0.metaclass == Some(number_home));
    }
    (string_home, number_home)
}

/// Bindings with the methods of sequences, and of what views of them there are added.
pub open spec fn sequence_bindings(vm: &Vm, given: Map<(ObjectId, Seq<char>), Primitive>) -> Map<(ObjectId, Seq<char>), Primitive> {
    let b = given;
    let b = bindings::with_rows(b, vm.sequence_class, tables::sequence_rows());
    let b = bindings::with_rows(b, vm.map_sequence_class, tables::map_sequence_rows());
    let b = bindings::with_rows(b, vm.where_sequence_class, tables::where_sequence_rows());
    let b = bindings::with_rows(b, vm.take_sequence_class, tables::take_sequence_rows());
    let b = bindings::with_rows(b, vm.skip_sequence_class, tables::skip_sequence_rows());
    b
}

/// Give sequences and views of them their methods.
#[verifier::rlimit(50)]
fn install_sequence(
    vm: &mut Vm,
    Ghost(first): Ghost<Vm>,
    Ghost(given): Ghost<Map<(ObjectId, Seq<char>), Primitive>>,
    Ghost(primitives): Ghost<int>,
    Ghost(objects): Ghost<int>,
)
    requires
        reached(&first, old(vm), given, primitives, objects),
        core_definable(&first),
        core_apart(&first),
        first.primitives@.len() + primitives + 23 < MAX_PRIMITIVES,
        first.heap.has_slots(objects + 0),
    ensures
        forall|id: ObjectId, name: Seq<char>| #[trigger]
            bindings::called(old(vm).heap@, id, name) ==> bindings::called(
                final(vm).heap@,
                id,
                name,
            ),
        reached(&first, final(vm), sequence_bindings(&first, given), primitives + 23, objects + 0),
        forall|id: ObjectId|
            (#[trigger] bindings::shape_of(old(vm).heap@, id)) is Some ==> same_metaclass(
                final(vm).heap@,
                old(vm).heap@,
                id,
            ),
{
    let ghost v0 = *vm;
    let ghost b = given;
    let class = vm.sequence_class;
    let rows = tables::sequence_table();
    proof {
        assert(bindings::said(rows@).len() == rows@.len());
        lemma_known(&first, vm, b, primitives + 0, objects + 0, class);
    }
    add_rows(vm, Ghost(first), Ghost(b), Ghost(primitives + 0), Ghost(objects + 0), class, &rows);
    let ghost b = bindings::with_rows(b, class, tables::sequence_rows());
    let class = vm.map_sequence_class;
    let rows = tables::map_sequence_table();
    proof {
        assert(bindings::said(rows@).len() == rows@.len());
        lemma_known(&first, vm, b, primitives + 15, objects + 0, class);
    }
    add_rows(vm, Ghost(first), Ghost(b), Ghost(primitives + 15), Ghost(objects + 0), class, &rows);
    let ghost b = bindings::with_rows(b, class, tables::map_sequence_rows());
    let class = vm.where_sequence_class;
    let rows = tables::where_sequence_table();
    proof {
        assert(bindings::said(rows@).len() == rows@.len());
        lemma_known(&first, vm, b, primitives + 17, objects + 0, class);
    }
    add_rows(vm, Ghost(first), Ghost(b), Ghost(primitives + 17), Ghost(objects + 0), class, &rows);
    let ghost b = bindings::with_rows(b, class, tables::where_sequence_rows());
    let class = vm.take_sequence_class;
    let rows = tables::take_sequence_table();
    proof {
        assert(bindings::said(rows@).len() == rows@.len());
        lemma_known(&first, vm, b, primitives + 19, objects + 0, class);
    }
    add_rows(vm, Ghost(first), Ghost(b), Ghost(primitives + 19), Ghost(objects + 0), class, &rows);
    let ghost b = bindings::with_rows(b, class, tables::take_sequence_rows());
    let class = vm.skip_sequence_class;
    let rows = tables::skip_sequence_table();
    proof {
        assert(bindings::said(rows@).len() == rows@.len());
        lemma_known(&first, vm, b, primitives + 21, objects + 0, class);
    }
    add_rows(vm, Ghost(first), Ghost(b), Ghost(primitives + 21), Ghost(objects + 0), class, &rows);
    let ghost b = bindings::with_rows(b, class, tables::skip_sequence_rows());
}

/// Bindings with the methods of lists, maps and ranges added.
pub open spec fn collections_bindings(vm: &Vm, given: Map<(ObjectId, Seq<char>), Primitive>, list_home: ObjectId, map_home: ObjectId) -> Map<(ObjectId, Seq<char>), Primitive> {
    let b = given;
    let b = bindings::with_rows(b, list_home, tables::list_meta_rows());
    let b = bindings::with_rows(b, vm.list_class, tables::list_rows());
    let b = bindings::with_rows(b, vm.list_class, tables::list_extras_rows());
    let b = bindings::with_rows(b, list_home, tables::list_meta_extras_rows());
    let b = bindings::with_rows(b, map_home, tables::map_meta_rows());
    let b = bindings::with_rows(b, vm.map_class, tables::map_rows());
    let b = bindings::with_rows(b, vm.map_entry_class, tables::map_entry_rows());
    let b = bindings::with_rows(b, vm.range_class, tables::range_rows());
    b
}

/// Give lists, maps and ranges their methods.
#[verifier::rlimit(50)]
fn install_collections(
    vm: &mut Vm,
    Ghost(first): Ghost<Vm>,
    Ghost(given): Ghost<Map<(ObjectId, Seq<char>), Primitive>>,
    Ghost(primitives): Ghost<int>,
    Ghost(objects): Ghost<int>,
) -> (made: (ObjectId, ObjectId))
    requires
        reached(&first, old(vm), given, primitives, objects),
        core_definable(&first),
        core_apart(&first),
        first.primitives@.len() + primitives + 50 < MAX_PRIMITIVES,
        first.heap.has_slots(objects + 4),
    ensures
        bindings::called(final(vm).heap@, made.0, "List metaclass"@),
        bindings::called(final(vm).heap@, made.1, "Map metaclass"@),
        forall|id: ObjectId, name: Seq<char>| #[trigger]
            bindings::called(old(vm).heap@, id, name) ==> bindings::called(
                final(vm).heap@,
                id,
                name,
            ),
        reached(&first, final(vm), collections_bindings(&first, given, made.0, made.1), primitives + 50, objects + 4),
        bindings::shape_of(final(vm).heap@, first.list_class)->0.metaclass == Some(made.0),
        bindings::shape_of(final(vm).heap@, first.map_class)->0.metaclass == Some(made.1),
        forall|id: ObjectId|
            id != first.list_class && id != first.map_class && (#[trigger] bindings::shape_of(old(vm).heap@, id)) is Some ==> same_metaclass(
                final(vm).heap@,
                old(vm).heap@,
                id,
            ),
{
    let ghost v0 = *vm;
    let ghost b = given;
    let class = vm.list_class;
    let meta = tables::list_meta_table();
    let own: Vec<Row> = tables::list_table();
    proof {
        assert(bindings::said(meta@).len() == meta@.len());
        assert(bindings::said(own@).len() == own@.len());
        first.heap.lemma_slots(objects + 4, objects + 2);
        lemma_known(&first, vm, b, primitives + 0, objects + 0, class);
    }
    let list_home = add_home(
        vm,
        Ghost(first),
        Ghost(b),
        Ghost(primitives + 0),
        Ghost(objects + 0),
        class,
        "List metaclass",
        &meta,
        &own,
    );
    let ghost b = bindings::with_rows(
        bindings::with_rows(b, list_home, tables::list_meta_rows()),
        class,
        tables::list_rows(),
    );
    proof {
        assert(bindings::shape_of(vm.heap@, first.list_class) is Some);
        assert(bindings::shape_of(vm.heap@, first.list_class)->0.metaclass == Some(list_home));
    }
    let class = vm.list_class;
    let rows = tables::list_extras_table();
    proof {
        assert(bindings::said(rows@).len() == rows@.len());
        lemma_known(&first, vm, b, primitives + 9, objects + 2, class);
    }
    add_rows(vm, Ghost(first), Ghost(b), Ghost(primitives + 9), Ghost(objects + 2), class, &rows);
    let ghost b = bindings::with_rows(b, class, tables::list_extras_rows());
    proof {
        assert(bindings::shape_of(vm.heap@, first.list_class) is Some);
        assert(bindings::shape_of(vm.heap@, first.list_class)->0.metaclass == Some(list_home));
    }
    let class = list_home;
    let rows = tables::list_meta_extras_table();
    proof {
        assert(bindings::said(rows@).len() == rows@.len());
    }
    add_rows(vm, Ghost(first), Ghost(b), Ghost(primitives + 26), Ghost(objects + 2), class, &rows);
    let ghost b = bindings::with_rows(b, class, tables::list_meta_extras_rows());
    proof {
        assert(bindings::shape_of(vm.heap@, first.list_class) is Some);
        assert(bindings::shape_of(vm.heap@, first.list_class)->0.metaclass == Some(list_home));
    }
    let class = vm.map_class;
    let meta = tables::map_meta_table();
    let own: Vec<Row> = tables::map_table();
    proof {
        assert(bindings::said(meta@).len() == meta@.len());
        assert(bindings::said(own@).len() == own@.len());
        first.heap.lemma_slots(objects + 4, objects + 4);
        lemma_known(&first, vm, b, primitives + 27, objects + 2, class);
    }
    let map_home = add_home(
        vm,
        Ghost(first),
        Ghost(b),
        Ghost(primitives + 27),
        Ghost(objects + 2),
        class,
        "Map metaclass",
        &meta,
        &own,
    );
    let ghost b = bindings::with_rows(
        bindings::with_rows(b, map_home, tables::map_meta_rows()),
        class,
        tables::map_rows(),
    );
    proof {
        assert(bindings::shape_of(vm.heap@, first.list_class) is Some);
        assert(bindings::shape_of(vm.heap@, first.list_class)->0.metaclass == Some(list_home));
        assert(bindings::shape_of(vm.heap@, first.map_class) is Some);
        assert(bindings::shape_of(vm.heap@, first.map_class)->0.metaclass == Some(map_home));
    }
    let class = vm.map_entry_class;
    let rows = tables::map_entry_table();
    proof {
        assert(bindings::said(rows@).len() == rows@.len());
        lemma_known(&first, vm, b, primitives + 40, objects + 4, class);
    }
    add_rows(vm, Ghost(first), Ghost(b), Ghost(primitives + 40), Ghost(objects + 4), class, &rows);
    let ghost b = bindings::with_rows(b, class, tables::map_entry_rows());
    proof {
        assert(bindings::shape_of(vm.heap@, first.list_class) is Some);
        assert(bindings::shape_of(vm.heap@, first.list_class)->0.metaclass == Some(list_home));
        assert(bindings::shape_of(vm.heap@, first.map_class) is Some);
        assert(bindings::shape_of(vm.heap@, first.map_class)->0.metaclass == Some(map_home));
    }
    let class = vm.range_class;
    let rows = tables::range_table();
    proof {
        assert(bindings::said(rows@).len() == rows@.len());
        lemma_known(&first, vm, b, primitives + 43, objects + 4, class);
    }
    add_rows(vm, Ghost(first), Ghost(b), Ghost(primitives + 43), Ghost(objects + 4), class, &rows);
    let ghost b = bindings::with_rows(b, class, tables::range_rows());
    proof {
        assert(bindings::shape_of(vm.heap@, first.list_class) is Some);
        assert(bindings::shape_of(vm.heap@, first.list_class)->0.metaclass == Some(list_home));
        assert(bindings::shape_of(vm.heap@, first.map_class) is Some);
        assert(bindings::shape_of(vm.heap@, first.map_class)->0.metaclass == Some(map_home));
    }
    (list_home, map_home)
}

/// Give every class of the core library its methods.
#[verifier::rlimit(50)]
fn install_methods(vm: &mut Vm) -> (homes: Homes)
    requires
        old(vm).wf(),
        old(vm).primitives@.len() + CORE_PRIMITIVES < MAX_PRIMITIVES,
        old(vm).heap.has_slots(CORE_OBJECTS as int),
        core_definable(old(vm)),
        core_apart(old(vm)),
    ensures
        final(vm).wf(),
        bindings::grew(old(vm), final(vm), CORE_PRIMITIVES as int, CORE_OBJECTS as int),
        kept_shapes(final(vm).heap@, old(vm).heap@),
        homes_of(final(vm), homes),
        forall|start: HeapModel|
            bindings::holds(old(vm), start, Map::empty()) && #[trigger] core_made(old(vm), start)
                ==> bindings::holds(final(vm), start, core_bindings(final(vm), homes)),
{
    let ghost first = *vm;
    let ghost b = Map::<(ObjectId, Seq<char>), Primitive>::empty();
    proof {
        assert forall|n: int| #[trigger] first.heap.has_slots(n) implies vm.heap.has_slots(
            n - 0,
        ) by {}
        assert(reached(&first, vm, b, 0, 0));
        first.heap.lemma_slots(CORE_OBJECTS as int, 4);
        first.heap.lemma_slots(CORE_OBJECTS as int, 8);
        first.heap.lemma_slots(CORE_OBJECTS as int, 12);
        assert(bindings::shape_of(first.heap@, first.fn_class) is Some);
        assert(bindings::shape_of(first.heap@, first.fiber_class) is Some);
        assert(bindings::shape_of(first.heap@, first.string_class) is Some);
        assert(bindings::shape_of(first.heap@, first.num_class) is Some);
        assert(bindings::shape_of(first.heap@, first.list_class) is Some);
        assert(bindings::shape_of(first.heap@, first.map_class) is Some);
    }
    let (function, fiber) = install_values(vm, Ghost(first), Ghost(b), Ghost(0), Ghost(0));
    let ghost b = values_bindings(&first, b, function, fiber);
    let ghost v0 = *vm;
    proof {
        assert(bindings::shape_of(v0.heap@, first.fn_class) is Some);
        assert(bindings::shape_of(v0.heap@, first.fiber_class) is Some);
        assert(bindings::shape_of(v0.heap@, first.string_class) is Some);
        assert(bindings::shape_of(v0.heap@, first.num_class) is Some);
        assert(bindings::shape_of(v0.heap@, first.list_class) is Some);
        assert(bindings::shape_of(v0.heap@, first.map_class) is Some);
    }
    let (string, number) = install_scalars(vm, Ghost(first), Ghost(b), Ghost(38), Ghost(4));
    let ghost b = scalars_bindings(&first, b, string, number);
    let ghost v1 = *vm;
    proof {
        assert(bindings::shape_of(v1.heap@, first.fn_class) is Some);
        assert(bindings::shape_of(v1.heap@, first.fiber_class) is Some);
        assert(bindings::shape_of(v1.heap@, first.string_class) is Some);
        assert(bindings::shape_of(v1.heap@, first.num_class) is Some);
        assert(bindings::shape_of(v1.heap@, first.list_class) is Some);
        assert(bindings::shape_of(v1.heap@, first.map_class) is Some);
    }
    install_sequence(vm, Ghost(first), Ghost(b), Ghost(127), Ghost(8));
    let ghost b = sequence_bindings(&first, b);
    let ghost v2 = *vm;
    proof {
        assert(bindings::shape_of(v2.heap@, first.fn_class) is Some);
        assert(bindings::shape_of(v2.heap@, first.fiber_class) is Some);
        assert(bindings::shape_of(v2.heap@, first.string_class) is Some);
        assert(bindings::shape_of(v2.heap@, first.num_class) is Some);
        assert(bindings::shape_of(v2.heap@, first.list_class) is Some);
        assert(bindings::shape_of(v2.heap@, first.map_class) is Some);
    }
    let (list, map) = install_collections(vm, Ghost(first), Ghost(b), Ghost(150), Ghost(8));
    let ghost b = collections_bindings(&first, b, list, map);
    let ghost v3 = *vm;
    proof {
        assert(bindings::shape_of(v3.heap@, first.fn_class) is Some);
        assert(bindings::shape_of(v3.heap@, first.fiber_class) is Some);
        assert(bindings::shape_of(v3.heap@, first.string_class) is Some);
        assert(bindings::shape_of(v3.heap@, first.num_class) is Some);
        assert(bindings::shape_of(v3.heap@, first.list_class) is Some);
        assert(bindings::shape_of(v3.heap@, first.map_class) is Some);
    }
    proof {
        assert(vm.heap.has_slots(CORE_OBJECTS - 12));
    }
    let (system, system_class) = install_system(vm);
    proof {
        assert forall|id: ObjectId|
            (#[trigger] bindings::shape_of(first.heap@, id)) is Some implies {
            &&& bindings::shape_of(vm.heap@, id) matches Some(shape)
            &&& shape == (bindings::Shape {
                metaclass: shape.metaclass,
                ..bindings::shape_of(first.heap@, id)->0
            })
            &&& first.heap@.definable(id) ==> vm.heap@.definable(id)
        } by {
            assert(bindings::shape_of(v3.heap@, id) is Some);
        }
        assert forall|start: HeapModel|
            bindings::holds(&first, start, Map::empty()) && #[trigger] core_made(
                &first,
                start,
            ) implies bindings::holds(
            vm,
            start,
            bindings::with_rows(b, system, tables::system_rows()),
        ) by {
            assert(bindings::holds(&v3, start, b));
        }
        assert forall|n: int| #[trigger] first.heap.has_slots(n) implies vm.heap.has_slots(
            n - CORE_OBJECTS,
        ) by {
            assert(v3.heap.has_slots(n - 12));
            assert(vm.heap.has_slots(n - 12 - 4));
        }
    }
    Homes { function, fiber, string, number, list, map, system, system_class }
}

/// The variables of a module.
pub struct Scope {
    pub names: Seq<Seq<char>>,
    pub values: Seq<Value>,
}

/// The variables of a module.
pub open spec fn scope_of(module: &Module) -> Scope {
    Scope { names: module.names@, values: module.values@ }
}

/// Variables with one given a value, added if it is new.
pub open spec fn put(scope: Scope, name: Seq<char>, value: Value) -> Scope {
    if scope.names.contains(name) {
        Scope { values: scope.values.update(scope.names.index_of(name), value), ..scope }
    } else {
        Scope { names: scope.names.push(name), values: scope.values.push(value) }
    }
}

/// Variables with those of the core library added.
pub open spec fn core_scope(vm: &Vm, system: ObjectId, scope: Scope) -> Scope {
    let s = put(scope, "List"@, Value::object(vm.list_class));
    let s = put(s, "System"@, Value::object(system));
    let s = put(s, "Object"@, Value::object(vm.object_class));
    let s = put(s, "Bool"@, Value::object(vm.bool_class));
    let s = put(s, "Class"@, Value::object(vm.class_class));
    let s = put(s, "Fn"@, Value::object(vm.fn_class));
    let s = put(s, "List"@, Value::object(vm.list_class));
    let s = put(s, "Map"@, Value::object(vm.map_class));
    let s = put(s, "Null"@, Value::object(vm.null_class));
    let s = put(s, "Num"@, Value::object(vm.num_class));
    let s = put(s, "Fiber"@, Value::object(vm.fiber_class));
    let s = put(s, "Range"@, Value::object(vm.range_class));
    let s = put(s, "Sequence"@, Value::object(vm.sequence_class));
    put(s, "String"@, Value::object(vm.string_class))
}

/// Give a module's variable a class as its value.
fn put_class(module: &mut Module, name: &str, class: ObjectId)
    requires
        old(module).wf(),
    ensures
        final(module).wf(),
        final(module).name == old(module).name,
        scope_of(final(module)) == put(scope_of(old(module)), name@, Value::object(class)),
{
    let ghost before = *module;
    let index: usize = module.define(name, Value::object(class));
    proof {
        if before.names@.contains(name@) {
            crate::symbol::lemma_index(&module.names, name@, index as int);
        }
    }
}

/// What classes answer does not rest on a module.
pub proof fn lemma_modules_apart(
    before: &Vm,
    after: &Vm,
    start: HeapModel,
    given: Map<(ObjectId, Seq<char>), Primitive>,
)
    requires
        bindings::holds(before, start, given),
        after.heap == before.heap,
        after.primitives == before.primitives,
        after.method_names == before.method_names,
    ensures
        bindings::holds(after, start, given),
{
    assert forall|class: ObjectId| #[trigger]
        bindings::made_since(after, start, class) implies bindings::class_holds(
        after,
        class,
        given,
    ) by {
        assert(bindings::made_since(before, start, class));
        assert(bindings::class_holds(before, class, given));
        assert forall|symbol: int|
            (#[trigger] crate::object::entry_at(after.heap@.entries(class), symbol))
                != crate::object::NO_METHOD implies 0 <= symbol < after.method_names@.len()
            && after.spec_method(
            crate::object::entry_at(after.heap@.entries(class), symbol),
        ) is Some by {
            assert(before.spec_method(
                crate::object::entry_at(before.heap@.entries(class), symbol),
            ) is Some);
        }
        assert forall|signature: Seq<char>| #[trigger]
            bindings::answer_of(after, class, signature) == bindings::bound_in(
            given,
            class,
            signature,
        ) by {
            assert(bindings::answer_of(before, class, signature) == bindings::bound_in(
                given,
                class,
                signature,
            ));
        }
    }
    assert forall|class: ObjectId, signature: Seq<char>| #[trigger]
        given.contains_key((class, signature)) implies bindings::made_since(
        after,
        start,
        class,
    ) by {
        assert(bindings::made_since(before, start, class));
    }
}

/// Give every class of the core library its methods, and the first module the
/// core library's variables.
pub fn install(vm: &mut Vm) -> (homes: Homes)
    requires
        old(vm).wf(),
        old(vm).primitives@.len() + CORE_PRIMITIVES < MAX_PRIMITIVES,
        old(vm).heap.has_slots(CORE_OBJECTS as int),
        old(vm).modules@.len() > 0,
        core_definable(old(vm)),
        core_apart(old(vm)),
    ensures
        final(vm).wf(),
        *final(vm) == (Vm {
            heap: final(vm).heap,
            primitives: final(vm).primitives,
            method_names: final(vm).method_names,
            modules: final(vm).modules,
            ..*old(vm)
        }),
        final(vm).primitives@.len() == old(vm).primitives@.len() + CORE_PRIMITIVES,
        bindings::extends(final(vm).primitives@, old(vm).primitives@),
        bindings::extends(final(vm).method_names@, old(vm).method_names@),
        final(vm).heap.stats().same_settings(old(vm).heap.stats()),
        final(vm).heap.chunks() == old(vm).heap.chunks(),
        forall|n: int| #[trigger]
            old(vm).heap.has_slots(n) ==> final(vm).heap.has_slots(n - CORE_OBJECTS),
        forall|id: ObjectId|
            (#[trigger] old(vm).heap@.string(id)) is Some ==> final(vm).heap@.string(id)
                == old(vm).heap@.string(id),
        kept_shapes(final(vm).heap@, old(vm).heap@),
        homes_of(final(vm), homes),
        final(vm).modules@.len() == old(vm).modules@.len(),
        forall|i: int|
            0 < i < old(vm).modules@.len() ==> #[trigger] final(vm).modules@[i]
                == old(vm).modules@[i],
        final(vm).modules@[0].name == old(vm).modules@[0].name,
        scope_of(&final(vm).modules@[0]) == core_scope(
            final(vm),
            homes.system_class,
            scope_of(&old(vm).modules@[0]),
        ),
        forall|start: HeapModel|
            bindings::holds(old(vm), start, Map::empty()) && #[trigger] core_made(old(vm), start)
                ==> bindings::holds(final(vm), start, core_bindings(final(vm), homes)),
{
    let ghost before = *vm;
    let homes = install_methods(vm);
    let ghost between = *vm;
    let first = vm.modules.remove(0);
    let mut module = first;
    put_class(&mut module, "List", vm.list_class);
    put_class(&mut module, "System", homes.system_class);
    put_class(&mut module, "Object", vm.object_class);
    put_class(&mut module, "Bool", vm.bool_class);
    put_class(&mut module, "Class", vm.class_class);
    put_class(&mut module, "Fn", vm.fn_class);
    put_class(&mut module, "List", vm.list_class);
    put_class(&mut module, "Map", vm.map_class);
    put_class(&mut module, "Null", vm.null_class);
    put_class(&mut module, "Num", vm.num_class);
    put_class(&mut module, "Fiber", vm.fiber_class);
    put_class(&mut module, "Range", vm.range_class);
    put_class(&mut module, "Sequence", vm.sequence_class);
    put_class(&mut module, "String", vm.string_class);
    vm.modules.insert(0, module);
    proof {
        assert forall|i: int| 0 <= i < vm.modules@.len() implies (
        #[trigger] vm.modules@[i]).wf() by {
            if i > 0 {
                assert(vm.modules@[i] == before.modules@[i]);
            }
        }
        assert forall|start: HeapModel|
            bindings::holds(&before, start, Map::empty()) && #[trigger] core_made(
                &before,
                start,
            ) implies bindings::holds(vm, start, core_bindings(vm, homes)) by {
            assert(bindings::holds(&between, start, core_bindings(&between, homes)));
            lemma_modules_apart(&between, vm, start, core_bindings(&between, homes));
        }
    }
    homes
}

/// How many primitives random numbers take.
pub const RANDOM_PRIMITIVES: usize = 11;

/// Whether a machine is an earlier one with the built-in module of random
/// numbers added.
pub open spec fn random_installed(before: &Vm, after: &Vm, index: usize) -> bool {
    let class = after.random_class;
    &&& *after == (Vm {
        heap: after.heap,
        primitives: after.primitives,
        method_names: after.method_names,
        modules: after.modules,
        module_names: after.module_names,
        module_places: after.module_places,
        random_class: class,
        ..*before
    })
    &&& bindings::extends(after.primitives@, before.primitives@)
    &&& bindings::extends(after.method_names@, before.method_names@)
    &&& after.heap.stats().same_settings(before.heap.stats())
    &&& after.heap@.keeps(before.heap@)
    &&& !before.heap@.has(class)
    &&& bindings::called(after.heap@, class, "Random"@)
    &&& bindings::shape_of(after.heap@, class) matches Some(shape)
    &&& shape.superclass == Some(before.object_class)
    &&& shape.num_fields == 4
    &&& shape.metaclass matches Some(metaclass)
    &&& !before.heap@.has(metaclass)
    &&& bindings::called(after.heap@, metaclass, "Random metaclass"@)
    &&& bindings::shape_of(after.heap@, metaclass)->0.superclass is None
    &&& bindings::holds(
        after,
        before.heap@,
        bindings::with_rows(
            bindings::with_rows(Map::empty(), metaclass, tables::random_meta_rows()),
            class,
            tables::random_rows(),
        ),
    )
    &&& bindings::same_shapes(after.heap@, before.heap@)
    &&& index == before.modules@.len()
    &&& after.modules@.len() == before.modules@.len() + 1
    &&& after.modules@.take(index as int) == before.modules@
    &&& scope_of(&after.modules@[index as int]) == put(
        (Scope { names: Seq::empty(), values: Seq::empty() }),
        "Random"@,
        Value::object(class),
    )
    &&& after.spec_module_named("random"@) == Some(index)
    &&& forall|other: Seq<char>|
        other != "random"@ ==> #[trigger] after.spec_module_named(other)
            == before.spec_module_named(other)
}

/// Add the built-in module of random numbers, and say which it is.
pub fn install_random(vm: &mut Vm) -> (index: usize)
    requires
        old(vm).wf(),
        old(vm).primitives@.len() + RANDOM_PRIMITIVES < MAX_PRIMITIVES,
        old(vm).heap.has_slots(4),
    ensures
        final(vm).wf(),
        random_installed(old(vm), final(vm), index),
{
    let ghost before = *vm;
    proof {
        vm.heap.lemma_slots(4, 2);
    }
    let parent = vm.object_class;
    let class = new_class(vm, "Random", Some(parent));
    let ghost first = *vm;
    let meta = tables::random_meta_table();
    let own = tables::random_table();
    proof {
        bindings::lemma_added_shapes(&before, &first, class, "Random"@, Some(parent));
        assert(bindings::said(meta@).len() == meta@.len());
        assert(bindings::said(own@).len() == own@.len());
        assert(bindings::holds(&before, before.heap@, Map::empty()));
        bindings::lemma_added(
            &before,
            &first,
            class,
            "Random"@,
            Some(parent),
            before.heap@,
            Map::empty(),
        );
        assert(first.heap.has_slots(4 - 2));
        assert(bindings::shape_of(first.heap@, class) is Some);
    }
    let metaclass = equip(vm, class, "Random metaclass", &meta, &own);
    let ghost second = *vm;
    proof {
        assert(bindings::shape_of(second.heap@, class) is Some);
    }
    set_fields(vm, class, 4);
    let ghost third = *vm;
    let ghost given = bindings::with_rows(
        bindings::with_rows(Map::empty(), metaclass, tables::random_meta_rows()),
        class,
        tables::random_rows(),
    );
    proof {
        let set = crate::object::ObjClass { num_fields: 4, ..second.heap@.class(class)->0 };
        bindings::lemma_reshaped(&second, &third, class, set, before.heap@, given);
        assert forall|id: ObjectId|
            (#[trigger] bindings::shape_of(before.heap@, id)) is Some implies bindings::shape_of(
            third.heap@,
            id,
        ) == bindings::shape_of(before.heap@, id) && (before.heap@.definable(id)
            ==> third.heap@.definable(id)) by {
            assert(id != class);
            assert(bindings::shape_of(first.heap@, id) is Some);
            assert(bindings::shape_of(second.heap@, id) is Some);
        }
    }
    vm.random_class = class;
    let mut module = Module::new();
    put_class(&mut module, "Random", class);
    let index: usize = vm.modules.len();
    vm.modules.push(module);
    let ghost added = *vm;
    vm.register_module("random", index);
    proof {
        lemma_modules_apart(&third, vm, before.heap@, given);
        assert(vm.modules@.take(index as int) =~= before.modules@);
        assert forall|other: Seq<char>| other != "random"@ implies #[trigger] vm.spec_module_named(
            other,
        ) == before.spec_module_named(other) by {
            assert(added.spec_module_named(other) == before.spec_module_named(other));
        }
    }
    index
}

} // verus!
