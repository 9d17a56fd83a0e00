//! Which method a class answers a signature with.

use vstd::prelude::*;

use super::primitive::Primitive;
use crate::handle::ObjectId;
use crate::heap::HeapModel;
use crate::object::{Method, ObjClass, ObjString, Object, NO_METHOD};
use crate::vm::inherit;
use crate::vm::Vm;

verus! {

/// How many primitives can be told apart.
pub const MAX_PRIMITIVES: usize = 0x7fff_ffff;

/// What a class itself answers a signature with.
pub open spec fn answer_of(vm: &Vm, class: ObjectId, signature: Seq<char>) -> Option<Method> {
    if vm.method_names@.contains(signature) {
        vm.spec_find_method(class, vm.method_names@.index_of(signature))
    } else {
        None
    }
}

/// What a class is to answer a signature with.
pub open spec fn bound_in(
    bindings: Map<(ObjectId, Seq<char>), Primitive>,
    class: ObjectId,
    signature: Seq<char>,
) -> Option<Method> {
    if bindings.contains_key((class, signature)) {
        Some(Method::Primitive(bindings[(class, signature)]))
    } else {
        None
    }
}

/// Whether a class was made since a heap was as it was.
pub open spec fn made_since(vm: &Vm, start: HeapModel, class: ObjectId) -> bool {
    vm.heap@.class(class) is Some && !start.has(class)
}

/// Whether a class answers what it is to answer, and nothing else.
pub open spec fn class_holds(
    vm: &Vm,
    class: ObjectId,
    bindings: Map<(ObjectId, Seq<char>), Primitive>,
) -> bool {
    &&& vm.heap@.definable(class)
    &&& forall|symbol: int|
        (#[trigger] crate::object::entry_at(vm.heap@.entries(class), symbol)) != NO_METHOD ==> 0
            <= symbol < vm.method_names@.len() && vm.spec_method(
            crate::object::entry_at(vm.heap@.entries(class), symbol),
        ) is Some
    &&& forall|signature: Seq<char>| #[trigger]
        answer_of(vm, class, signature) == bound_in(bindings, class, signature)
}

/// Whether every class made since a heap was as it was answers what it is to
/// answer, and nothing else, and everything that was in the heap then is as it
/// was.
pub open spec fn holds(
    vm: &Vm,
    start: HeapModel,
    bindings: Map<(ObjectId, Seq<char>), Primitive>,
) -> bool {
    &&& forall|class: ObjectId| #[trigger]
        made_since(vm, start, class) ==> class_holds(vm, class, bindings)
    &&& forall|class: ObjectId, signature: Seq<char>| #[trigger]
        bindings.contains_key((class, signature)) ==> made_since(vm, start, class)
    &&& vm.heap@.keeps(start)
}

/// Whether a class has a name.
pub open spec fn called(heap: HeapModel, id: ObjectId, name: Seq<char>) -> bool {
    &&& heap.class(id) matches Some(class)
    &&& heap.string(class.name) matches Some(text)
    &&& text.bytes@ == vstd::utf8::encode_utf8(name)
}

/// Whether a list is an earlier one with more at its end.
pub open spec fn extends<T>(after: Seq<T>, before: Seq<T>) -> bool {
    &&& before.len() <= after.len()
    &&& forall|i: int| 0 <= i < before.len() ==> #[trigger] after[i] == before[i]
}

/// Whether two heaps differ in one class at most.
pub open spec fn only_class(after: HeapModel, before: HeapModel, id: ObjectId) -> bool {
    &&& after == (HeapModel { classes: after.classes, ..before })
    &&& forall|i: u32|
        i != id.spec_index() && before.classes.contains_key(i)
            ==> #[trigger] after.classes.contains_key(i) && after.classes[i] == before.classes[i]
}

/// A change to a class that is new leaves what is old as it was.
proof fn lemma_old_kept(after: HeapModel, before: HeapModel, id: ObjectId, start: HeapModel)
    requires
        only_class(after, before, id),
        before.class(id) is Some,
        !start.has(id),
        before.keeps(start),
    ensures
        after.keeps(start),
{
    assert(start.classes.submap_of(after.classes)) by {
        assert forall|i: u32| #[trigger] start.classes.contains_key(i) implies after.classes.contains_key(i)
            && start.classes[i] == after.classes[i] by {
            assert(i != id.spec_index());
            assert(before.classes.contains_key(i));
        }
    }
}

/// A class answers a new signature with what it was given, and every other as
/// it did.
proof fn lemma_defined(
    before: &Vm,
    after: &Vm,
    start: HeapModel,
    bindings: Map<(ObjectId, Seq<char>), Primitive>,
    class: ObjectId,
    signature: Seq<char>,
    primitive: Primitive,
    symbol: int,
)
    requires
        before.wf(),
        after.wf(),
        holds(before, start, bindings),
        made_since(before, start, class),
        before.primitives@.len() < MAX_PRIMITIVES,
        after.primitives@ == before.primitives@.push(primitive),
        inherit::only_methods(after.heap@, before.heap@),
        0 <= symbol < after.method_names@.len(),
        after.method_names@[symbol] == signature,
        after.method_names@ == before.method_names@ || after.method_names@
            == before.method_names@.push(signature),
        after.heap@.entries(class) == crate::object::defined(
            before.heap@.entries(class),
            symbol,
            crate::object::spec_primitive_entry(before.primitives@.len() as int),
        ),
        forall|other: ObjectId|
            other != class ==> #[trigger] after.heap@.entries(other) == before.heap@.entries(
                other,
            ),
        only_class(after.heap@, before.heap@, class),
    ensures
        holds(after, start, bindings.insert((class, signature), primitive)),
{
    let more = bindings.insert((class, signature), primitive);
    let index = before.primitives@.len() as int;
    let entry = crate::object::spec_primitive_entry(index);
    crate::object::law_method_entry_round_trip(ObjectId(0), index);
    crate::symbol::lemma_index(&after.method_names, signature, symbol);
    assert forall|other: ObjectId| #[trigger] made_since(after, start, other) implies class_holds(
        after,
        other,
        more,
    ) by {
        assert(made_since(before, start, other));
        assert(class_holds(before, other, bindings));
        assert forall|at: int|
            (#[trigger] crate::object::entry_at(after.heap@.entries(other), at))
                != NO_METHOD implies 0 <= at < after.method_names@.len() && after.spec_method(
            crate::object::entry_at(after.heap@.entries(other), at),
        ) is Some by {
            if other == class {
                crate::object::law_define_then_lookup(
                    before.heap@.entries(class),
                    symbol,
                    entry,
                    at,
                );
            }
            if other != class || at != symbol {
                let old = crate::object::entry_at(before.heap@.entries(other), at);
                assert(before.spec_method(old) is Some);
            }
        }
        assert forall|name: Seq<char>| #[trigger] answer_of(after, other, name) == bound_in(
            more,
            other,
            name,
        ) by {
            assert(answer_of(before, other, name) == bound_in(bindings, other, name));
            if other == class && name == signature {
                crate::object::law_define_then_lookup(
                    before.heap@.entries(class),
                    symbol,
                    entry,
                    symbol,
                );
            } else {
                if before.method_names@.contains(name) {
                    let at = before.method_names@.index_of(name);
                    assert(before.method_names@[at] == name);
                    assert(after.method_names@[at] == name);
                    crate::symbol::lemma_index(&after.method_names, name, at);
                    if other == class {
                        crate::object::law_define_then_lookup(
                            before.heap@.entries(class),
                            symbol,
                            entry,
                            at,
                        );
                        assert(at != symbol);
                    }
                    let kept = crate::object::entry_at(before.heap@.entries(other), at);
                    assert(crate::object::entry_at(after.heap@.entries(other), at) == kept);
                    if kept != NO_METHOD {
                        assert(before.spec_method(kept) is Some);
                    }
                    assert(after.spec_method(kept) == before.spec_method(kept));
                } else if after.method_names@.contains(name) {
                    let at = after.method_names@.index_of(name);
                    assert(after.method_names@[at] == name);
                    assert(at == before.method_names@.len());
                    assert(name == signature);
                    assert(crate::object::entry_at(before.heap@.entries(other), at) == NO_METHOD);
                }
            }
        }
    }
    assert forall|other: ObjectId, name: Seq<char>| #[trigger]
        more.contains_key((other, name)) implies made_since(after, start, other) by {
        if (other, name) != (class, signature) {
            assert(bindings.contains_key((other, name)));
        }
        assert(made_since(before, start, other));
    }
    lemma_old_kept(after.heap@, before.heap@, class, start);
}

/// Whether a machine is an earlier one with only methods given to its classes.
pub open spec fn only_bound(before: &Vm, after: &Vm) -> bool {
    &&& *after == (Vm {
        heap: after.heap,
        primitives: after.primitives,
        method_names: after.method_names,
        ..*before
    })
    &&& extends(after.primitives@, before.primitives@)
    &&& extends(after.method_names@, before.method_names@)
    &&& inherit::only_methods(after.heap@, before.heap@)
    &&& after.heap.same_books(&before.heap)
}

/// Have a class answer a signature with a primitive.
pub fn define(vm: &mut Vm, class: ObjectId, signature: &str, primitive: Primitive)
    requires
        old(vm).wf(),
        old(vm).primitives@.len() < MAX_PRIMITIVES,
        old(vm).heap@.definable(class),
    ensures
        final(vm).wf(),
        only_bound(old(vm), final(vm)),
        final(vm).primitives@ == old(vm).primitives@.push(primitive),
        forall|start: HeapModel, bindings: Map<(ObjectId, Seq<char>), Primitive>| #[trigger]
            holds(old(vm), start, bindings) && made_since(old(vm), start, class) ==> holds(
                final(vm),
                start,
                bindings.insert((class, signature@), primitive),
            ),
{
    let ghost before = *vm;
    let symbol: usize = vm.method_names.ensure(signature);
    let names: usize = vm.method_names.len();
    let ghost named = *vm;
    vm.bind_primitive(class, symbol, primitive);
    proof {
        let index = class.spec_index();
        crate::handle::lemma_parts_determine(class);
        assert(vm.heap@.classes.dom() =~= before.heap@.classes.dom()) by {
            assert forall|i: u32| vm.heap@.classes.contains_key(i)
                == before.heap@.classes.contains_key(i) by {
                if i == index {
                    assert(vm.heap@.class(class) is Some);
                }
            }
        }
        assert forall|i: u32| #[trigger] vm.heap@.classes.contains_key(i) implies {
            &&& vm.heap@.classes[i].class().same_but_methods(&before.heap@.classes[i].class())
            &&& (vm.heap@.classes[i] is Static == before.heap@.classes[i] is Static)
            &&& (vm.heap@.classes[i].class().methods is Static
                == before.heap@.classes[i].class().methods is Static)
        } by {
            if i != index {
                assert(vm.heap@.classes[i] == before.heap@.classes[i]);
            }
        }
        assert forall|other: ObjectId| other != class implies #[trigger] vm.heap@.entries(other)
            == before.heap@.entries(other) by {
            if other.spec_tag() == class.spec_tag() {
                assert(other.spec_index() != index);
                assert(vm.heap@.classes.contains_key(other.spec_index())
                    == before.heap@.classes.contains_key(other.spec_index()));
            }
        }
        assert forall|start: HeapModel, bindings: Map<(ObjectId, Seq<char>), Primitive>| #[trigger]
            holds(&before, start, bindings) && made_since(&before, start, class) implies holds(
            vm,
            start,
            bindings.insert((class, signature@), primitive),
        ) by {
            lemma_defined(
                &before,
                vm,
                start,
                bindings,
                class,
                signature@,
                primitive,
                symbol as int,
            );
        }
    }
}

/// A signature and what answers it.
pub struct Row {
    pub signature: &'static str,
    pub primitive: Primitive,
}

/// What rows say.
pub open spec fn said(rows: Seq<Row>) -> Seq<(Seq<char>, Primitive)> {
    rows.map_values(|row: Row| (row.signature@, row.primitive))
}

/// Bindings with those of a class added, a later one for a signature in place
/// of an earlier one.
pub open spec fn with_rows(
    bindings: Map<(ObjectId, Seq<char>), Primitive>,
    class: ObjectId,
    rows: Seq<(Seq<char>, Primitive)>,
) -> Map<(ObjectId, Seq<char>), Primitive>
    decreases rows.len(),
{
    if rows.len() == 0 {
        bindings
    } else {
        with_rows(bindings, class, rows.drop_last()).insert(
            (class, rows.last().0),
            rows.last().1,
        )
    }
}

/// What one class's rows leave of another's bindings is all of them.
pub proof fn law_rows_of_others_stay(
    bindings: Map<(ObjectId, Seq<char>), Primitive>,
    class: ObjectId,
    rows: Seq<(Seq<char>, Primitive)>,
    other: ObjectId,
    signature: Seq<char>,
)
    requires
        other != class,
    ensures
        bound_in(with_rows(bindings, class, rows), other, signature) == bound_in(
            bindings,
            other,
            signature,
        ),
    decreases rows.len(),
{
    if rows.len() > 0 {
        law_rows_of_others_stay(bindings, class, rows.drop_last(), other, signature);
    }
}

/// A class answers the signature of a row with what the row says, unless a
/// later row has the same signature.
pub proof fn law_row_is_answered(
    bindings: Map<(ObjectId, Seq<char>), Primitive>,
    class: ObjectId,
    rows: Seq<(Seq<char>, Primitive)>,
    i: int,
)
    requires
        0 <= i < rows.len(),
        forall|k: int| i < k < rows.len() ==> (#[trigger] rows[k]).0 != rows[i].0,
    ensures
        bound_in(with_rows(bindings, class, rows), class, rows[i].0) == Some(
            Method::Primitive(rows[i].1),
        ),
    decreases rows.len(),
{
    if i < rows.len() - 1 {
        let fewer = rows.drop_last();
        assert(fewer[i] == rows[i]);
        assert forall|k: int| i < k < fewer.len() implies (#[trigger] fewer[k]).0
            != fewer[i].0 by {
            assert(fewer[k] == rows[k]);
        }
        law_row_is_answered(bindings, class, fewer, i);
        assert(rows[rows.len() - 1].0 != rows[i].0);
    }
}

/// Have a class answer what rows say.
pub fn define_all(vm: &mut Vm, class: ObjectId, rows: &Vec<Row>)
    requires
        old(vm).wf(),
        old(vm).primitives@.len() + rows@.len() < MAX_PRIMITIVES,
        old(vm).heap@.definable(class),
    ensures
        final(vm).wf(),
        only_bound(old(vm), final(vm)),
        final(vm).primitives@.len() == old(vm).primitives@.len() + rows@.len(),
        forall|start: HeapModel, bindings: Map<(ObjectId, Seq<char>), Primitive>| #[trigger]
            holds(old(vm), start, bindings) && made_since(old(vm), start, class) ==> holds(
                final(vm),
                start,
                with_rows(bindings, class, said(rows@)),
            ),
{
    let ghost before = *vm;
    let ghost all = said(rows@);
    proof {
        assert(all.take(0) =~= Seq::<(Seq<char>, Primitive)>::empty());
    }
    let mut i: usize = 0;
    while i < rows.len()
        invariant
            before == *old(vm),
            before.heap@.definable(class),
            before.primitives@.len() + rows@.len() < MAX_PRIMITIVES,
            i <= rows@.len(),
            all == said(rows@),
            vm.wf(),
            only_bound(&before, vm),
            vm.primitives@.len() == before.primitives@.len() + i,
            forall|start: HeapModel, bindings: Map<(ObjectId, Seq<char>), Primitive>| #[trigger]
                holds(&before, start, bindings) && made_since(&before, start, class) ==> holds(
                    vm,
                    start,
                    with_rows(bindings, class, all.take(i as int)),
                ),
        decreases rows@.len() - i,
    {
        let ghost between = *vm;
        define(vm, class, rows[i].signature, rows[i].primitive);
        proof {
            let more = all.take(i as int + 1);
            assert(more.drop_last() =~= all.take(i as int));
            assert(more.last() == (rows@[i as int].signature@, rows@[i as int].primitive));
            assert forall|start: HeapModel, bindings: Map<(ObjectId, Seq<char>), Primitive>|
                #[trigger] holds(&before, start, bindings) && made_since(
                    &before,
                    start,
                    class,
                ) implies holds(vm, start, with_rows(bindings, class, more)) by {
                let earlier = with_rows(bindings, class, all.take(i as int));
                assert(holds(&between, start, earlier));
                assert(made_since(&between, start, class));
            }
        }
        i = i + 1;
    }
    proof {
        assert(all.take(i as int) =~= all);
    }
}

/// Whether a machine is an earlier one with a class added that has no methods.
pub open spec fn added_class(
    before: &Vm,
    after: &Vm,
    id: ObjectId,
    name: Seq<char>,
    superclass: Option<ObjectId>,
) -> bool {
    &&& *after == (Vm { heap: after.heap, ..*before })
    &&& !before.heap@.has(id)
    &&& after.heap@.keeps(before.heap@)
    &&& after.heap.stats().same_settings(before.heap.stats())
    &&& after.heap@.class(id) matches Some(class)
    &&& after.heap@.definable(id)
    &&& class.superclass == superclass
    &&& class.metaclass is None
    &&& class.num_fields == 0
    &&& class.methods.entries().len() == 0
    &&& class.attributes == crate::value::Value::null()
    &&& class.static_fields@.len() == 0
    &&& after.heap@.string(class.name) matches Some(text)
    &&& text.bytes@ == vstd::utf8::encode_utf8(name)
    &&& forall|other: ObjectId|
        other != id && (#[trigger] after.heap@.class(other)) is Some
            ==> before.heap@.class(other) is Some
}

/// A class without methods leaves every other class's as they are.
pub proof fn lemma_added(
    before: &Vm,
    after: &Vm,
    id: ObjectId,
    name: Seq<char>,
    superclass: Option<ObjectId>,
    start: HeapModel,
    bindings: Map<(ObjectId, Seq<char>), Primitive>,
)
    requires
        added_class(before, after, id, name, superclass),
        holds(before, start, bindings),
    ensures
        holds(after, start, bindings),
        made_since(after, start, id),
{
    assert forall|other: ObjectId| #[trigger] made_since(after, start, other) implies class_holds(
        after,
        other,
        bindings,
    ) by {
        if other == id {
            crate::object::law_method_entry_round_trip(ObjectId(0), 0);
            assert forall|signature: Seq<char>| #[trigger] answer_of(after, id, signature)
                == bound_in(bindings, id, signature) by {
                if bindings.contains_key((id, signature)) {
                    assert(made_since(before, start, id));
                }
            }
        } else {
            assert(before.heap@.class(other) is Some);
            assert(made_since(before, start, other));
            assert(after.heap@.class(other) == before.heap@.class(other));
            assert(after.heap@.classes[other.spec_index()]
                == before.heap@.classes[other.spec_index()]);
            assert(class_holds(before, other, bindings));
            assert forall|signature: Seq<char>| #[trigger] answer_of(after, other, signature)
                == bound_in(bindings, other, signature) by {
                assert(answer_of(before, other, signature) == bound_in(
                    bindings,
                    other,
                    signature,
                ));
            }
        }
    }
    assert forall|other: ObjectId, signature: Seq<char>| #[trigger]
        bindings.contains_key((other, signature)) implies made_since(after, start, other) by {
        assert(made_since(before, start, other));
    }
    after.heap@.lemma_kept_on(before.heap@, start);
}

/// Add a class that has no methods.
pub fn new_class(vm: &mut Vm, name: &str, superclass: Option<ObjectId>) -> (id: ObjectId)
    requires
        old(vm).wf(),
        old(vm).heap.has_slots(2),
    ensures
        final(vm).wf(),
        added_class(old(vm), final(vm), id, name@, superclass),
        final(vm).heap.chunks() == old(vm).heap.chunks(),
        forall|n: int| #[trigger]
            old(vm).heap.has_slots(n) ==> final(vm).heap.has_slots(n - 2),
{
    let ghost before = *vm;
    proof {
        vm.heap.lemma_slots(2, 1);
    }
    let text = vm.heap.allocate(Object::String(ObjString::from_text(name)));
    let ghost between = *vm;
    proof {
        vm.heap.law_allocation_keeps(
            &before.heap,
            text,
            Object::String(vm.heap@.string(text)->0),
        );
        assert(between.heap.has_slots(1));
    }
    let class = ObjClass::new(text, superclass);
    let id = vm.heap.allocate(Object::Class(Box::new(class)));
    proof {
        vm.heap.law_allocation_keeps(&between.heap, id, Object::Class(Box::new(class)));
        vm.heap@.lemma_kept_on(between.heap@, before.heap@);
        crate::handle::lemma_parts_determine(id);
        assert(!before.heap@.has(id)) by {
            assert(id.spec_tag() == crate::object::ObjectType::Class.spec_tag());
        }
        assert forall|n: int| #[trigger] before.heap.has_slots(n) implies vm.heap.has_slots(
            n - 2,
        ) by {
            assert(between.heap.has_slots(n - 1));
        }
    }
    id
}

/// What a class is, apart from its methods.
pub struct Shape {
    pub name: ObjectId,
    pub superclass: Option<ObjectId>,
    pub metaclass: Option<ObjectId>,
    pub num_fields: int,
}

/// What a class is, apart from its methods.
pub open spec fn shape_of(heap: HeapModel, id: ObjectId) -> Option<Shape> {
    match heap.class(id) {
        None => None,
        Some(class) => Some(
            Shape {
                name: class.name,
                superclass: class.superclass,
                metaclass: class.metaclass,
                num_fields: class.num_fields as int,
            },
        ),
    }
}

/// Whether every class is what it was, apart from its methods.
pub open spec fn same_shapes(after: HeapModel, before: HeapModel) -> bool {
    forall|id: ObjectId|
        (#[trigger] shape_of(before, id)) is Some ==> shape_of(after, id) == shape_of(before, id)
            && (before.definable(id) ==> after.definable(id))
}

/// Whether every class is what it was, apart from its methods, and apart from
/// the metaclass of one.
pub open spec fn same_shapes_but(after: HeapModel, before: HeapModel, one: ObjectId) -> bool {
    forall|id: ObjectId|
        (#[trigger] shape_of(before, id)) is Some ==> {
            &&& shape_of(after, id) matches Some(shape)
            &&& shape == (Shape { metaclass: shape.metaclass, ..shape_of(before, id)->0 })
            &&& id != one ==> shape.metaclass == shape_of(before, id)->0.metaclass
            &&& before.definable(id) ==> after.definable(id)
        }
}

/// Giving a class methods leaves what else it is.
pub proof fn lemma_bound_shapes(before: &Vm, after: &Vm)
    requires
        only_bound(before, after),
    ensures
        same_shapes(after.heap@, before.heap@),
        forall|id: ObjectId, name: Seq<char>| #[trigger]
            called(before.heap@, id, name) ==> called(after.heap@, id, name),
{
    assert forall|id: ObjectId, name: Seq<char>| #[trigger]
        called(before.heap@, id, name) implies called(after.heap@, id, name) by {
        assert(after.heap@.classes.contains_key(id.spec_index()));
    }
    assert forall|id: ObjectId| (#[trigger] shape_of(before.heap@, id)) is Some implies shape_of(
        after.heap@,
        id,
    ) == shape_of(before.heap@, id) && (before.heap@.definable(id) ==> after.heap@.definable(
        id,
    )) by {
        assert(after.heap@.classes.contains_key(id.spec_index()));
    }
}

/// Adding a class leaves what every other is.
pub proof fn lemma_added_shapes(
    before: &Vm,
    after: &Vm,
    id: ObjectId,
    name: Seq<char>,
    superclass: Option<ObjectId>,
)
    requires
        added_class(before, after, id, name, superclass),
    ensures
        same_shapes(after.heap@, before.heap@),
        called(after.heap@, id, name),
        forall|other: ObjectId, text: Seq<char>| #[trigger]
            called(before.heap@, other, text) ==> called(after.heap@, other, text),
{
    assert forall|other: ObjectId|
        (#[trigger] shape_of(before.heap@, other)) is Some implies shape_of(after.heap@, other)
        == shape_of(before.heap@, other) && (before.heap@.definable(other)
        ==> after.heap@.definable(other)) by {
        assert(before.heap@.classes.contains_key(other.spec_index()));
        assert(after.heap@.classes[other.spec_index()] == before.heap@.classes[other.spec_index()]);
    }
}

/// Whether a machine is an earlier one with something about a class changed
/// that is not its methods.
pub open spec fn reshaped(before: &Vm, after: &Vm, id: ObjectId, class: ObjClass) -> bool {
    &&& before.heap@.definable(id)
    &&& class.methods == before.heap@.class(id)->0.methods
    &&& *after == (Vm { heap: after.heap, ..*before })
    &&& after.heap@ == before.heap@.with_class(id, class)
    &&& after.heap.same_books(&before.heap)
}

/// What is not a method leaves what classes answer, and what every other class
/// is.
pub proof fn lemma_reshaped(
    before: &Vm,
    after: &Vm,
    id: ObjectId,
    class: ObjClass,
    start: HeapModel,
    bindings: Map<(ObjectId, Seq<char>), Primitive>,
)
    requires
        reshaped(before, after, id, class),
    ensures
        after.heap@.definable(id),
        after.heap@.class(id) == Some(class),
        forall|other: ObjectId|
            other != id && (#[trigger] shape_of(before.heap@, other)) is Some ==> shape_of(
                after.heap@,
                other,
            ) == shape_of(before.heap@, other) && (before.heap@.definable(other)
                ==> after.heap@.definable(other)),
        forall|other: ObjectId| #[trigger] after.heap@.has(other) == before.heap@.has(other),
        class.name == before.heap@.class(id)->0.name ==> forall|other: ObjectId, text: Seq<char>|
            #[trigger] called(before.heap@, other, text) ==> called(after.heap@, other, text),
        holds(before, start, bindings) && !start.has(id) ==> holds(after, start, bindings),
{
    crate::handle::lemma_parts_determine(id);
    assert forall|other: ObjectId|
        other != id && (#[trigger] shape_of(before.heap@, other)) is Some implies shape_of(
        after.heap@,
        other,
    ) == shape_of(before.heap@, other) && (before.heap@.definable(other)
        ==> after.heap@.definable(other)) by {
        assert(other.spec_index() != id.spec_index());
    }
    assert forall|other: ObjectId| #[trigger] after.heap@.has(other) == before.heap@.has(
        other,
    ) by {}
    if holds(before, start, bindings) && !start.has(id) {
        assert forall|other: ObjectId| #[trigger]
            made_since(after, start, other) implies class_holds(after, other, bindings) by {
            if other != id {
                assert(other.spec_index() != id.spec_index() || other.spec_tag() != id.spec_tag());
            }
            assert(made_since(before, start, other));
            assert(class_holds(before, other, bindings));
            assert(after.heap@.entries(other) == before.heap@.entries(other));
            assert forall|signature: Seq<char>| #[trigger] answer_of(after, other, signature)
                == bound_in(bindings, other, signature) by {
                assert(answer_of(before, other, signature) == bound_in(
                    bindings,
                    other,
                    signature,
                ));
            }
        }
        assert forall|other: ObjectId, signature: Seq<char>| #[trigger]
            bindings.contains_key((other, signature)) implies made_since(after, start, other) by {
            assert(made_since(before, start, other));
        }
        lemma_old_kept(after.heap@, before.heap@, id, start);
    }
}

/// Give a class a metaclass.
pub fn set_metaclass(vm: &mut Vm, id: ObjectId, metaclass: ObjectId)
    requires
        old(vm).wf(),
        old(vm).heap@.definable(id),
    ensures
        final(vm).wf(),
        reshaped(
            old(vm),
            final(vm),
            id,
            (ObjClass { metaclass: Some(metaclass), ..old(vm).heap@.class(id)->0 }),
        ),
{
    match vm.heap.class_mut(id) {
        None => {},
        Some(class) => {
            class.metaclass = Some(metaclass);
        },
    }
}

/// Have a class inherit from another.
pub fn set_superclass(vm: &mut Vm, id: ObjectId, superclass: ObjectId)
    requires
        old(vm).wf(),
        old(vm).heap@.definable(id),
    ensures
        final(vm).wf(),
        reshaped(
            old(vm),
            final(vm),
            id,
            (ObjClass { superclass: Some(superclass), ..old(vm).heap@.class(id)->0 }),
        ),
{
    match vm.heap.class_mut(id) {
        None => {},
        Some(class) => {
            class.superclass = Some(superclass);
        },
    }
}

/// Say how many fields an instance of a class has.
pub fn set_fields(vm: &mut Vm, id: ObjectId, num_fields: i32)
    requires
        old(vm).wf(),
        old(vm).heap@.definable(id),
    ensures
        final(vm).wf(),
        reshaped(
            old(vm),
            final(vm),
            id,
            (ObjClass { num_fields, ..old(vm).heap@.class(id)->0 }),
        ),
{
    match vm.heap.class_mut(id) {
        None => {},
        Some(class) => {
            class.num_fields = num_fields;
        },
    }
}

/// Whether a machine is an earlier one with so many primitives and so few
/// objects more.
pub open spec fn grew(before: &Vm, after: &Vm, primitives: int, objects: int) -> bool {
    &&& *after == (Vm {
        heap: after.heap,
        primitives: after.primitives,
        method_names: after.method_names,
        ..*before
    })
    &&& after.primitives@.len() == before.primitives@.len() + primitives
    &&& extends(after.primitives@, before.primitives@)
    &&& extends(after.method_names@, before.method_names@)
    &&& after.heap.stats().same_settings(before.heap.stats())
    &&& forall|id: ObjectId, name: Seq<char>| #[trigger]
        called(before.heap@, id, name) ==> called(after.heap@, id, name)
    &&& after.heap.chunks() == before.heap.chunks()
    &&& forall|n: int| #[trigger]
        before.heap.has_slots(n) ==> after.heap.has_slots(n - objects)
    &&& forall|id: ObjectId|
        (#[trigger] before.heap@.string(id)) is Some ==> after.heap@.string(id)
            == before.heap@.string(id)
}

/// Give a class a new metaclass.
pub fn give_metaclass(vm: &mut Vm, id: ObjectId, name: &str) -> (metaclass: ObjectId)
    requires
        old(vm).wf(),
        old(vm).heap@.definable(id),
        old(vm).heap.has_slots(2),
    ensures
        final(vm).wf(),
        grew(old(vm), final(vm), 0, 2),
        final(vm).heap@.definable(id),
        final(vm).heap@.definable(metaclass),
        !old(vm).heap@.has(metaclass),
        shape_of(final(vm).heap@, id) == Some(
            Shape { metaclass: Some(metaclass), ..shape_of(old(vm).heap@, id)->0 },
        ),
        shape_of(final(vm).heap@, metaclass) matches Some(shape) && shape.superclass is None
            && shape.metaclass is None && shape.num_fields == 0,
        called(final(vm).heap@, metaclass, name@),
        same_shapes_but(final(vm).heap@, old(vm).heap@, id),
        forall|start: HeapModel, bindings: Map<(ObjectId, Seq<char>), Primitive>| #[trigger]
            holds(old(vm), start, bindings) && made_since(old(vm), start, id) ==> holds(
                final(vm),
                start,
                bindings,
            ) && made_since(final(vm), start, metaclass),
{
    let ghost before = *vm;
    let metaclass = new_class(vm, name, None);
    let ghost between = *vm;
    proof {
        lemma_added_shapes(&before, &between, metaclass, name@, None);
        assert(shape_of(before.heap@, id) is Some);
    }
    set_metaclass(vm, id, metaclass);
    proof {
        let class = ObjClass { metaclass: Some(metaclass), ..between.heap@.class(id)->0 };
        lemma_reshaped(&between, vm, id, class, before.heap@, Map::empty());
        assert(shape_of(between.heap@, metaclass) is Some);
        assert forall|start: HeapModel, bindings: Map<(ObjectId, Seq<char>), Primitive>| #[trigger]
            holds(&before, start, bindings) && made_since(&before, start, id) implies holds(
            vm,
            start,
            bindings,
        ) && made_since(vm, start, metaclass) by {
            lemma_added(&before, &between, metaclass, name@, None, start, bindings);
            lemma_reshaped(&between, vm, id, class, start, bindings);
        }
        assert forall|n: int| #[trigger] before.heap.has_slots(n) implies vm.heap.has_slots(
            n - 2,
        ) by {
            assert(between.heap.has_slots(n - 2));
        }
        assert(same_shapes_but(vm.heap@, before.heap@, id)) by {
            assert forall|other: ObjectId| (#[trigger] shape_of(before.heap@, other)) is Some implies {
                &&& shape_of(vm.heap@, other) matches Some(shape)
                &&& shape == (Shape {
                    metaclass: shape.metaclass,
                    ..shape_of(before.heap@, other)->0
                })
                &&& other != id ==> shape.metaclass == shape_of(before.heap@, other)->0.metaclass
                &&& before.heap@.definable(other) ==> vm.heap@.definable(other)
            } by {
                assert(shape_of(between.heap@, other) is Some);
            }
        }
    }
    metaclass
}

/// Give a class the methods that rows say.
pub fn give_rows(vm: &mut Vm, class: ObjectId, rows: &Vec<Row>)
    requires
        old(vm).wf(),
        old(vm).primitives@.len() + rows@.len() < MAX_PRIMITIVES,
        old(vm).heap@.definable(class),
    ensures
        final(vm).wf(),
        grew(old(vm), final(vm), rows@.len() as int, 0),
        same_shapes(final(vm).heap@, old(vm).heap@),
        forall|id: ObjectId| #[trigger] final(vm).heap@.has(id) == old(vm).heap@.has(id),
        forall|start: HeapModel, bindings: Map<(ObjectId, Seq<char>), Primitive>| #[trigger]
            holds(old(vm), start, bindings) && made_since(old(vm), start, class) ==> holds(
                final(vm),
                start,
                with_rows(bindings, class, said(rows@)),
            ),
{
    let ghost before = *vm;
    define_all(vm, class, rows);
    proof {
        lemma_bound_shapes(&before, vm);
        assert forall|n: int| #[trigger] before.heap.has_slots(n) implies vm.heap.has_slots(
            n - 0,
        ) by {
            assert(vm.heap.has_slots(n));
        }
    }
}

/// Give a class a new metaclass with methods, and methods of its own.
pub fn equip(
    vm: &mut Vm,
    class: ObjectId,
    name: &str,
    meta: &Vec<Row>,
    own: &Vec<Row>,
) -> (metaclass: ObjectId)
    requires
        old(vm).wf(),
        old(vm).primitives@.len() + meta@.len() + own@.len() < MAX_PRIMITIVES,
        old(vm).heap@.definable(class),
        old(vm).heap.has_slots(2),
    ensures
        final(vm).wf(),
        grew(old(vm), final(vm), (meta@.len() + own@.len()) as int, 2),
        same_shapes_but(final(vm).heap@, old(vm).heap@, class),
        !old(vm).heap@.has(metaclass),
        final(vm).heap@.definable(metaclass),
        called(final(vm).heap@, metaclass, name@),
        shape_of(final(vm).heap@, class)->0.metaclass == Some(metaclass),
        shape_of(final(vm).heap@, metaclass)->0.superclass is None,
        forall|start: HeapModel, bindings: Map<(ObjectId, Seq<char>), Primitive>| #[trigger]
            holds(old(vm), start, bindings) && made_since(old(vm), start, class) ==> holds(
                final(vm),
                start,
                with_rows(with_rows(bindings, metaclass, said(meta@)), class, said(own@)),
            ) && made_since(final(vm), start, metaclass),
{
    let ghost before = *vm;
    proof {
        assert(shape_of(before.heap@, class) is Some);
    }
    let metaclass = give_metaclass(vm, class, name);
    let ghost first = *vm;
    proof {
        assert(shape_of(first.heap@, class) is Some);
        assert(shape_of(first.heap@, metaclass) is Some);
    }
    give_rows(vm, metaclass, meta);
    let ghost second = *vm;
    proof {
        assert(shape_of(second.heap@, class) is Some);
        assert(shape_of(second.heap@, metaclass) is Some);
    }
    give_rows(vm, class, own);
    proof {
        assert forall|start: HeapModel, bindings: Map<(ObjectId, Seq<char>), Primitive>| #[trigger]
            holds(&before, start, bindings) && made_since(&before, start, class) implies holds(
            vm,
            start,
            with_rows(with_rows(bindings, metaclass, said(meta@)), class, said(own@)),
        ) && made_since(vm, start, metaclass) by {
            assert(holds(&first, start, bindings));
            let more = with_rows(bindings, metaclass, said(meta@));
            assert(holds(&second, start, more));
            assert(made_since(&second, start, class));
        }
        assert(same_shapes_but(vm.heap@, before.heap@, class)) by {
            assert forall|other: ObjectId| (#[trigger] shape_of(before.heap@, other)) is Some implies {
                &&& shape_of(vm.heap@, other) matches Some(shape)
                &&& shape == (Shape {
                    metaclass: shape.metaclass,
                    ..shape_of(before.heap@, other)->0
                })
                &&& other != class ==> shape.metaclass == shape_of(
                    before.heap@,
                    other,
                )->0.metaclass
                &&& before.heap@.definable(other) ==> vm.heap@.definable(other)
            } by {
                assert(shape_of(first.heap@, other) is Some);
                assert(shape_of(second.heap@, other) is Some);
            }
        }
        assert forall|n: int| #[trigger] before.heap.has_slots(n) implies vm.heap.has_slots(
            n - 2,
        ) by {
            assert(first.heap.has_slots(n - 2));
            assert(second.heap.has_slots(n - 2 - 0));
        }
    }
    metaclass
}

} // verus!
