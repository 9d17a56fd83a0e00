//! Starting a machine up: its classes, its core library, and the inheritance
//! between them.

use vstd::prelude::*;

use super::inherit;
use super::{
    Module, Vm, NUM_ADD, NUM_DIV, NUM_GE, NUM_GT, NUM_LE, NUM_LT, NUM_MOD, NUM_MUL, NUM_OP_NONE,
    NUM_SUB,
};
use crate::corelib::bindings;
use crate::corelib::bindings::set_superclass;
use crate::corelib::install;
use crate::corelib::install::{Homes, CORE_OBJECTS};
use crate::handle::ObjectId;
use crate::heap::{Heap, HeapModel};
use crate::object::{ObjClass, ObjString, Object};
use crate::symbol::SymbolTable;

verus! {

/// How many objects a machine is made of to begin with.
pub const BOOT_OBJECTS: usize = 60;

/// Whether a class has a name and inherits from another.
pub open spec fn named(
    heap: HeapModel,
    id: ObjectId,
    name: Seq<char>,
    superclass: Option<ObjectId>,
) -> bool {
    &&& heap.class(id) matches Some(class)
    &&& class.superclass == superclass
    &&& heap.string(class.name) matches Some(text)
    &&& text.bytes@ == vstd::utf8::encode_utf8(name)
}

/// Whether every class made since a heap was as it was has no methods yet.
pub open spec fn bare(heap: HeapModel, start: HeapModel) -> bool {
    &&& heap.keeps(start)
    &&& forall|id: ObjectId|
        (#[trigger] heap.class(id)) is Some && !start.has(id) ==> heap.definable(id)
            && heap.entries(id).len() == 0
}

/// Make a class that has no methods yet.
fn class_named(heap: &mut Heap, name: &str, superclass: Option<ObjectId>) -> (id: ObjectId)
    requires
        old(heap).wf(),
        old(heap).has_slots(2),
    ensures
        final(heap).wf(),
        named(final(heap)@, id, name@, superclass),
        !old(heap)@.has(id),
        forall|other: ObjectId| (#[trigger] old(heap)@.class(other)) is Some ==> other != id,
        forall|other: ObjectId, text: Seq<char>, parent: Option<ObjectId>| #[trigger]
            named(old(heap)@, other, text, parent) ==> named(final(heap)@, other, text, parent),
        forall|start: HeapModel| #[trigger]
            bare(old(heap)@, start) ==> bare(final(heap)@, start) && !start.has(id),
        final(heap).stats().same_settings(old(heap).stats()),
        final(heap).chunks() == old(heap).chunks(),
        forall|n: int| #[trigger] old(heap).has_slots(n) ==> final(heap).has_slots(n - 2),
{
    let ghost before = *heap;
    proof {
        heap.lemma_slots(2, 1);
    }
    let text = heap.allocate(Object::String(ObjString::from_text(name)));
    let ghost between = *heap;
    proof {
        heap.law_allocation_keeps(&before, text, Object::String(heap@.string(text)->0));
        assert(between.has_slots(2 - 1));
    }
    let class = ObjClass::new(text, superclass);
    let id = heap.allocate(Object::Class(Box::new(class)));
    proof {
        heap.law_allocation_keeps(&between, id, Object::Class(Box::new(class)));
        heap@.lemma_kept_on(between@, before@);
        crate::handle::lemma_parts_determine(id);
        assert(!before@.has(id)) by {
            assert(id.spec_tag() == crate::object::ObjectType::Class.spec_tag());
        }
        assert forall|other: ObjectId, text: Seq<char>, parent: Option<ObjectId>| #[trigger]
            named(before@, other, text, parent) implies named(heap@, other, text, parent) by {
            assert(heap@.class(other) == before@.class(other));
            let called = before@.class(other)->0.name;
            assert(heap@.string(called) == before@.string(called));
        }
        assert forall|start: HeapModel| #[trigger] bare(before@, start) implies bare(heap@, start)
            && !start.has(id) by {
            heap@.lemma_kept_on(before@, start);
            assert forall|x: ObjectId|
                (#[trigger] heap@.class(x)) is Some && !start.has(x) implies heap@.definable(x)
                && heap@.entries(x).len() == 0 by {
                if x != id {
                    assert(x.spec_index() != id.spec_index() || x.spec_tag() != id.spec_tag());
                    assert(before@.class(x) is Some);
                    assert(heap@.classes[x.spec_index()] == before@.classes[x.spec_index()]);
                }
            }
        }
        assert forall|n: int| #[trigger] before.has_slots(n) implies heap.has_slots(n - 2) by {
            assert(between.has_slots(n - 1));
        }
    }
    id
}

/// The classes that a machine has to begin with.
#[derive(Clone, Copy, PartialEq, Eq, Structural, Debug)]
pub struct CoreClasses {
    pub object: ObjectId,
    pub num: ObjectId,
    pub bool: ObjectId,
    pub null: ObjectId,
    pub string: ObjectId,
    pub list: ObjectId,
    pub map: ObjectId,
    pub range: ObjectId,
    pub class: ObjectId,
    pub function: ObjectId,
    pub map_entry: ObjectId,
    pub fiber: ObjectId,
    pub sequence: ObjectId,
    pub map_sequence: ObjectId,
    pub where_sequence: ObjectId,
    pub take_sequence: ObjectId,
    pub skip_sequence: ObjectId,
    pub map_key_sequence: ObjectId,
    pub map_value_sequence: ObjectId,
    pub class_attributes: ObjectId,
    pub string_byte_sequence: ObjectId,
    pub string_code_point_sequence: ObjectId,
}

/// Whether the classes are there, each under its name.
pub open spec fn classes_made(heap: HeapModel, classes: CoreClasses) -> bool {
    &&& named(heap, classes.object, "Object"@, None)
    &&& named(heap, classes.num, "Num"@, Some(classes.object))
    &&& named(heap, classes.bool, "Bool"@, Some(classes.object))
    &&& named(heap, classes.null, "Null"@, Some(classes.object))
    &&& named(heap, classes.string, "String"@, Some(classes.object))
    &&& named(heap, classes.list, "List"@, Some(classes.object))
    &&& named(heap, classes.map, "Map"@, Some(classes.object))
    &&& named(heap, classes.range, "Range"@, Some(classes.object))
    &&& named(heap, classes.class, "Class"@, Some(classes.object))
    &&& named(heap, classes.function, "Fn"@, Some(classes.object))
    &&& named(heap, classes.map_entry, "MapEntry"@, Some(classes.object))
    &&& named(heap, classes.fiber, "Fiber"@, Some(classes.object))
    &&& named(heap, classes.sequence, "Sequence"@, Some(classes.object))
    &&& named(heap, classes.map_sequence, "MapSequence"@, Some(classes.sequence))
    &&& named(heap, classes.where_sequence, "WhereSequence"@, Some(classes.sequence))
    &&& named(heap, classes.take_sequence, "TakeSequence"@, Some(classes.sequence))
    &&& named(heap, classes.skip_sequence, "SkipSequence"@, Some(classes.sequence))
    &&& named(heap, classes.map_key_sequence, "MapKeySequence"@, Some(classes.sequence))
    &&& named(heap, classes.map_value_sequence, "MapValueSequence"@, Some(classes.sequence))
    &&& named(heap, classes.class_attributes, "ClassAttributes"@, Some(classes.object))
    &&& named(heap, classes.string_byte_sequence, "StringByteSequence"@, Some(classes.sequence))
    &&& named(heap, classes.string_code_point_sequence, "StringCodePointSequence"@, Some(classes.sequence))
}

/// Whether none of the classes was there before.
pub open spec fn classes_new(start: HeapModel, classes: CoreClasses) -> bool {
    &&& !start.has(classes.object)
    &&& !start.has(classes.num)
    &&& !start.has(classes.bool)
    &&& !start.has(classes.null)
    &&& !start.has(classes.string)
    &&& !start.has(classes.list)
    &&& !start.has(classes.map)
    &&& !start.has(classes.range)
    &&& !start.has(classes.class)
    &&& !start.has(classes.function)
    &&& !start.has(classes.map_entry)
    &&& !start.has(classes.fiber)
    &&& !start.has(classes.sequence)
    &&& !start.has(classes.map_sequence)
    &&& !start.has(classes.where_sequence)
    &&& !start.has(classes.take_sequence)
    &&& !start.has(classes.skip_sequence)
    &&& !start.has(classes.map_key_sequence)
    &&& !start.has(classes.map_value_sequence)
    &&& !start.has(classes.class_attributes)
    &&& !start.has(classes.string_byte_sequence)
    &&& !start.has(classes.string_code_point_sequence)
}

/// Whether the classes that get a metaclass are different ones, and so are the
/// ones that are sequences.
pub open spec fn classes_apart(classes: CoreClasses) -> bool {
    &&& classes.num != classes.list
    &&& classes.num != classes.map
    &&& classes.string != classes.object
    &&& classes.string != classes.num
    &&& classes.string != classes.bool
    &&& classes.string != classes.null
    &&& classes.string != classes.list
    &&& classes.string != classes.map
    &&& classes.string != classes.class
    &&& classes.string != classes.map_entry
    &&& classes.string != classes.sequence
    &&& classes.string != classes.map_sequence
    &&& classes.string != classes.where_sequence
    &&& classes.string != classes.take_sequence
    &&& classes.string != classes.skip_sequence
    &&& classes.string != classes.map_key_sequence
    &&& classes.string != classes.map_value_sequence
    &&& classes.string != classes.class_attributes
    &&& classes.string != classes.string_byte_sequence
    &&& classes.string != classes.string_code_point_sequence
    &&& classes.list != classes.object
    &&& classes.list != classes.bool
    &&& classes.list != classes.null
    &&& classes.list != classes.map
    &&& classes.list != classes.range
    &&& classes.list != classes.class
    &&& classes.list != classes.map_entry
    &&& classes.list != classes.sequence
    &&& classes.list != classes.map_sequence
    &&& classes.list != classes.where_sequence
    &&& classes.list != classes.take_sequence
    &&& classes.list != classes.skip_sequence
    &&& classes.list != classes.map_key_sequence
    &&& classes.list != classes.map_value_sequence
    &&& classes.list != classes.class_attributes
    &&& classes.list != classes.string_byte_sequence
    &&& classes.list != classes.string_code_point_sequence
    &&& classes.map != classes.object
    &&& classes.map != classes.bool
    &&& classes.map != classes.null
    &&& classes.map != classes.range
    &&& classes.map != classes.class
    &&& classes.map != classes.map_entry
    &&& classes.map != classes.sequence
    &&& classes.map != classes.map_sequence
    &&& classes.map != classes.where_sequence
    &&& classes.map != classes.take_sequence
    &&& classes.map != classes.skip_sequence
    &&& classes.map != classes.map_key_sequence
    &&& classes.map != classes.map_value_sequence
    &&& classes.map != classes.class_attributes
    &&& classes.map != classes.string_byte_sequence
    &&& classes.map != classes.string_code_point_sequence
    &&& classes.range != classes.object
    &&& classes.range != classes.num
    &&& classes.range != classes.bool
    &&& classes.range != classes.null
    &&& classes.range != classes.string
    &&& classes.range != classes.class
    &&& classes.range != classes.function
    &&& classes.range != classes.map_entry
    &&& classes.range != classes.fiber
    &&& classes.range != classes.sequence
    &&& classes.range != classes.map_sequence
    &&& classes.range != classes.where_sequence
    &&& classes.range != classes.take_sequence
    &&& classes.range != classes.skip_sequence
    &&& classes.range != classes.map_key_sequence
    &&& classes.range != classes.map_value_sequence
    &&& classes.range != classes.class_attributes
    &&& classes.range != classes.string_byte_sequence
    &&& classes.range != classes.string_code_point_sequence
    &&& classes.function != classes.num
    &&& classes.function != classes.string
    &&& classes.function != classes.list
    &&& classes.function != classes.map
    &&& classes.function != classes.fiber
    &&& classes.fiber != classes.num
    &&& classes.fiber != classes.string
    &&& classes.fiber != classes.list
    &&& classes.fiber != classes.map
}

/// Make the classes that a machine has to begin with.
#[verifier::rlimit(60)]
fn make_classes(heap: &mut Heap) -> (classes: CoreClasses)
    requires
        old(heap).wf(),
        old(heap).has_slots(BOOT_OBJECTS as int),
    ensures
        final(heap).wf(),
        classes_made(final(heap)@, classes),
        classes_new(old(heap)@, classes),
        classes_apart(classes),
        bare(final(heap)@, old(heap)@),
        final(heap).stats().same_settings(old(heap).stats()),
        final(heap).has_slots(CORE_OBJECTS as int),
        final(heap).chunks() == old(heap).chunks(),
{
    let ghost start = heap@;
    proof {
        assert(bare(heap@, start));
        heap.lemma_slots(BOOT_OBJECTS as int, 2);
    }
    let object = class_named(heap, "Object", None);
    proof {
        assert(heap.has_slots(BOOT_OBJECTS - 2));
        heap.lemma_slots(BOOT_OBJECTS - 2, 2);
    }
    let num = class_named(heap, "Num", Some(object));
    proof {
        assert(heap.has_slots(BOOT_OBJECTS - 4));
        heap.lemma_slots(BOOT_OBJECTS - 4, 2);
    }
    let bool = class_named(heap, "Bool", Some(object));
    proof {
        assert(heap.has_slots(BOOT_OBJECTS - 6));
        heap.lemma_slots(BOOT_OBJECTS - 6, 2);
    }
    let null = class_named(heap, "Null", Some(object));
    proof {
        assert(heap.has_slots(BOOT_OBJECTS - 8));
        heap.lemma_slots(BOOT_OBJECTS - 8, 2);
    }
    let string = class_named(heap, "String", Some(object));
    proof {
        assert(heap.has_slots(BOOT_OBJECTS - 10));
        heap.lemma_slots(BOOT_OBJECTS - 10, 2);
    }
    let list = class_named(heap, "List", Some(object));
    proof {
        assert(heap.has_slots(BOOT_OBJECTS - 12));
        heap.lemma_slots(BOOT_OBJECTS - 12, 2);
    }
    let map = class_named(heap, "Map", Some(object));
    proof {
        assert(heap.has_slots(BOOT_OBJECTS - 14));
        heap.lemma_slots(BOOT_OBJECTS - 14, 2);
    }
    let range = class_named(heap, "Range", Some(object));
    proof {
        assert(heap.has_slots(BOOT_OBJECTS - 16));
        heap.lemma_slots(BOOT_OBJECTS - 16, 2);
    }
    let class = class_named(heap, "Class", Some(object));
    proof {
        assert(heap.has_slots(BOOT_OBJECTS - 18));
        heap.lemma_slots(BOOT_OBJECTS - 18, 2);
    }
    let function = class_named(heap, "Fn", Some(object));
    proof {
        assert(heap.has_slots(BOOT_OBJECTS - 20));
        heap.lemma_slots(BOOT_OBJECTS - 20, 2);
    }
    let map_entry = class_named(heap, "MapEntry", Some(object));
    proof {
        assert(heap.has_slots(BOOT_OBJECTS - 22));
        heap.lemma_slots(BOOT_OBJECTS - 22, 2);
    }
    let fiber = class_named(heap, "Fiber", Some(object));
    proof {
        assert(heap.has_slots(BOOT_OBJECTS - 24));
        heap.lemma_slots(BOOT_OBJECTS - 24, 2);
    }
    let sequence = class_named(heap, "Sequence", Some(object));
    proof {
        assert(heap.has_slots(BOOT_OBJECTS - 26));
        heap.lemma_slots(BOOT_OBJECTS - 26, 2);
    }
    let map_sequence = class_named(heap, "MapSequence", Some(sequence));
    proof {
        assert(heap.has_slots(BOOT_OBJECTS - 28));
        heap.lemma_slots(BOOT_OBJECTS - 28, 2);
    }
    let where_sequence = class_named(heap, "WhereSequence", Some(sequence));
    proof {
        assert(heap.has_slots(BOOT_OBJECTS - 30));
        heap.lemma_slots(BOOT_OBJECTS - 30, 2);
    }
    let take_sequence = class_named(heap, "TakeSequence", Some(sequence));
    proof {
        assert(heap.has_slots(BOOT_OBJECTS - 32));
        heap.lemma_slots(BOOT_OBJECTS - 32, 2);
    }
    let skip_sequence = class_named(heap, "SkipSequence", Some(sequence));
    proof {
        assert(heap.has_slots(BOOT_OBJECTS - 34));
        heap.lemma_slots(BOOT_OBJECTS - 34, 2);
    }
    let map_key_sequence = class_named(heap, "MapKeySequence", Some(sequence));
    proof {
        assert(heap.has_slots(BOOT_OBJECTS - 36));
        heap.lemma_slots(BOOT_OBJECTS - 36, 2);
    }
    let map_value_sequence = class_named(heap, "MapValueSequence", Some(sequence));
    proof {
        assert(heap.has_slots(BOOT_OBJECTS - 38));
        heap.lemma_slots(BOOT_OBJECTS - 38, 2);
    }
    let class_attributes = class_named(heap, "ClassAttributes", Some(object));
    proof {
        assert(heap.has_slots(BOOT_OBJECTS - 40));
        heap.lemma_slots(BOOT_OBJECTS - 40, 2);
    }
    let string_byte_sequence = class_named(heap, "StringByteSequence", Some(sequence));
    proof {
        assert(heap.has_slots(BOOT_OBJECTS - 42));
        heap.lemma_slots(BOOT_OBJECTS - 42, 2);
    }
    let string_code_point_sequence = class_named(heap, "StringCodePointSequence", Some(sequence));
    proof {
        assert(heap.has_slots(BOOT_OBJECTS - 44));
        heap.lemma_slots(BOOT_OBJECTS - 44, 2);
    }
    CoreClasses {
        object,
        num,
        bool,
        null,
        string,
        list,
        map,
        range,
        class,
        function,
        map_entry,
        fiber,
        sequence,
        map_sequence,
        where_sequence,
        take_sequence,
        skip_sequence,
        map_key_sequence,
        map_value_sequence,
        class_attributes,
        string_byte_sequence,
        string_code_point_sequence,
    }
}

/// Whether the core classes inherit from each other as they should. Lists,
/// maps, ranges and strings are sequences.
pub open spec fn hierarchy(vm: &Vm) -> bool {
    &&& named(vm.heap@, vm.object_class, "Object"@, None)
    &&& named(vm.heap@, vm.num_class, "Num"@, Some(vm.object_class))
    &&& named(vm.heap@, vm.bool_class, "Bool"@, Some(vm.object_class))
    &&& named(vm.heap@, vm.null_class, "Null"@, Some(vm.object_class))
    &&& named(vm.heap@, vm.string_class, "String"@, Some(vm.sequence_class))
    &&& named(vm.heap@, vm.list_class, "List"@, Some(vm.sequence_class))
    &&& named(vm.heap@, vm.map_class, "Map"@, Some(vm.sequence_class))
    &&& named(vm.heap@, vm.range_class, "Range"@, Some(vm.sequence_class))
    &&& named(vm.heap@, vm.class_class, "Class"@, Some(vm.object_class))
    &&& named(vm.heap@, vm.fn_class, "Fn"@, Some(vm.object_class))
    &&& named(vm.heap@, vm.map_entry_class, "MapEntry"@, Some(vm.object_class))
    &&& named(vm.heap@, vm.fiber_class, "Fiber"@, Some(vm.object_class))
    &&& named(vm.heap@, vm.sequence_class, "Sequence"@, Some(vm.object_class))
    &&& named(vm.heap@, vm.map_sequence_class, "MapSequence"@, Some(vm.sequence_class))
    &&& named(vm.heap@, vm.where_sequence_class, "WhereSequence"@, Some(vm.sequence_class))
    &&& named(vm.heap@, vm.take_sequence_class, "TakeSequence"@, Some(vm.sequence_class))
    &&& named(vm.heap@, vm.skip_sequence_class, "SkipSequence"@, Some(vm.sequence_class))
    &&& named(vm.heap@, vm.map_key_sequence_class, "MapKeySequence"@, Some(vm.sequence_class))
    &&& named(vm.heap@, vm.map_value_sequence_class, "MapValueSequence"@, Some(vm.sequence_class))
    &&& named(vm.heap@, vm.class_attributes_class, "ClassAttributes"@, Some(vm.object_class))
    &&& named(vm.heap@, vm.string_byte_sequence_class, "StringByteSequence"@, Some(vm.sequence_class))
    &&& named(vm.heap@, vm.string_code_point_sequence_class, "StringCodePointSequence"@, Some(vm.sequence_class))
}

/// The arithmetic that a signature is.
pub open spec fn operation_of(signature: Seq<char>) -> u8 {
    if signature == ">=(_)"@ {
        NUM_GE
    } else if signature == "<=(_)"@ {
        NUM_LE
    } else if signature == ">(_)"@ {
        NUM_GT
    } else if signature == "<(_)"@ {
        NUM_LT
    } else if signature == "%(_)"@ {
        NUM_MOD
    } else if signature == "/(_)"@ {
        NUM_DIV
    } else if signature == "*(_)"@ {
        NUM_MUL
    } else if signature == "-(_)"@ {
        NUM_SUB
    } else if signature == "+(_)"@ {
        NUM_ADD
    } else {
        NUM_OP_NONE
    }
}

/// Whether it is known of the first symbols which arithmetic they are.
pub open spec fn operators_known(vm: &Vm) -> bool {
    forall|symbol: int|
        0 <= symbol < 256 ==> #[trigger] vm.num_ops@[symbol] == if symbol
            < vm.method_names@.len() {
            operation_of(vm.method_names@[symbol])
        } else {
            NUM_OP_NONE
        }
}

/// A class without methods answers nothing.
proof fn lemma_bare_holds(vm: &Vm, start: HeapModel)
    requires
        bare(vm.heap@, start),
    ensures
        bindings::holds(vm, start, Map::empty()),
{
    crate::object::law_method_entry_round_trip(ObjectId(0), 0);
    assert forall|class: ObjectId| #[trigger]
        bindings::made_since(vm, start, class) implies bindings::class_holds(
        vm,
        class,
        Map::empty(),
    ) by {
        assert(vm.heap@.class(class) is Some);
        assert(vm.heap@.entries(class).len() == 0);
    }
}

/// Have a class inherit from the class of sequences, where it inherited from
/// another.
fn make_sequence(vm: &mut Vm, Ghost(start): Ghost<HeapModel>, class: ObjectId, Ghost(name): Ghost<Seq<char>>, Ghost(parent): Ghost<Option<ObjectId>>)
    requires
        old(vm).wf(),
        old(vm).heap@.definable(class),
        named(old(vm).heap@, class, name, parent),
        bindings::holds(old(vm), start, Map::empty()),
        !start.has(class),
    ensures
        final(vm).wf(),
        *final(vm) == (Vm { heap: final(vm).heap, ..*old(vm) }),
        final(vm).heap.stats() == old(vm).heap.stats(),
        named(final(vm).heap@, class, name, Some(old(vm).sequence_class)),
        forall|other: ObjectId, text: Seq<char>, above: Option<ObjectId>|
            other != class && #[trigger] named(old(vm).heap@, other, text, above) ==> named(
                final(vm).heap@,
                other,
                text,
                above,
            ),
        forall|other: ObjectId| #[trigger]
            old(vm).heap@.definable(other) ==> final(vm).heap@.definable(other),
        forall|other: ObjectId| #[trigger]
            bindings::made_since(old(vm), start, other) ==> bindings::made_since(
                final(vm),
                start,
                other,
            ),
        bindings::holds(final(vm), start, Map::empty()),
        forall|n: int| #[trigger] old(vm).heap.has_slots(n) ==> final(vm).heap.has_slots(n),
{
    let ghost before = *vm;
    let sequence = vm.sequence_class;
    set_superclass(vm, class, sequence);
    proof {
        let set = ObjClass { superclass: Some(sequence), ..before.heap@.class(class)->0 };
        bindings::lemma_reshaped(&before, vm, class, set, start, Map::empty());
        assert forall|other: ObjectId, text: Seq<char>, above: Option<ObjectId>|
            other != class && #[trigger] named(before.heap@, other, text, above) implies named(
            vm.heap@,
            other,
            text,
            above,
        ) by {
            assert(bindings::shape_of(before.heap@, other) is Some);
        }
        assert forall|other: ObjectId| #[trigger] before.heap@.definable(
            other,
        ) implies vm.heap@.definable(other) by {
            if other != class {
                assert(bindings::shape_of(before.heap@, other) is Some);
            }
        }
        assert forall|other: ObjectId| #[trigger]
            bindings::made_since(&before, start, other) implies bindings::made_since(
            vm,
            start,
            other,
        ) by {
            if other != class {
                assert(bindings::shape_of(before.heap@, other) is Some);
                assert(bindings::shape_of(vm.heap@, other) is Some);
            }
        }
    }
}

/// What keeps a class's name and what it inherits from keeps the hierarchy.
proof fn lemma_hierarchy(before: &Vm, after: &Vm)
    requires
        hierarchy(before),
        after.same_classes(before),
        install::kept_shapes(after.heap@, before.heap@),
        forall|id: ObjectId|
            (#[trigger] before.heap@.string(id)) is Some ==> after.heap@.string(id)
                == before.heap@.string(id),
    ensures
        hierarchy(after),
{
    assert forall|id: ObjectId, name: Seq<char>, parent: Option<ObjectId>| #[trigger]
        named(before.heap@, id, name, parent) implies named(after.heap@, id, name, parent) by {
        assert(bindings::shape_of(before.heap@, id) is Some);
    }
}

/// What was made stays made where classes are kept.
proof fn lemma_core_made(before: &Vm, after: &Vm, start: HeapModel)
    requires
        install::core_made(before, start),
        after.same_classes(before),
        install::kept_shapes(after.heap@, before.heap@),
    ensures
        install::core_made(after, start),
{
    assert forall|id: ObjectId| #[trigger] bindings::made_since(before, start, id) implies bindings::made_since(
        after,
        start,
        id,
    ) by {
        assert(bindings::shape_of(before.heap@, id) is Some);
    }
}

impl Vm {
    /// Remember which arithmetic a signature is.
    fn learn(&mut self, signature: &str, operation: u8)
        requires
            old(self).wf(),
        ensures
            final(self).wf(),
            *final(self) == (Vm { num_ops: final(self).num_ops, ..*old(self) }),
            forall|symbol: int|
                0 <= symbol < 256 ==> #[trigger] final(self).num_ops@[symbol] == if symbol
                    < old(self).method_names@.len() && old(self).method_names@[symbol]
                    == signature@ {
                    operation
                } else {
                    old(self).num_ops@[symbol]
                },
    {
        match self.method_names.find(signature) {
            None => {},
            Some(symbol) => {
                proof {
                    assert forall|other: int|
                        0 <= other < self.method_names@.len() && #[trigger] self.method_names@[other]
                            == signature@ implies other == symbol by {
                        crate::symbol::law_numbers_tell_names_apart(
                            &self.method_names,
                            other,
                            symbol as int,
                        );
                    }
                }
                if symbol < 256 {
                    self.num_ops[symbol] = operation;
                }
            },
        }
    }

    /// Remember which symbols are arithmetic.
    fn learn_numeric_operators(&mut self)
        requires
            old(self).wf(),
            forall|symbol: int|
                0 <= symbol < 256 ==> #[trigger] old(self).num_ops@[symbol] == NUM_OP_NONE,
        ensures
            final(self).wf(),
            *final(self) == (Vm { num_ops: final(self).num_ops, ..*old(self) }),
            operators_known(final(self)),
    {
        self.learn("+(_)", NUM_ADD);
        self.learn("-(_)", NUM_SUB);
        self.learn("*(_)", NUM_MUL);
        self.learn("/(_)", NUM_DIV);
        self.learn("%(_)", NUM_MOD);
        self.learn("<(_)", NUM_LT);
        self.learn(">(_)", NUM_GT);
        self.learn("<=(_)", NUM_LE);
        self.learn(">=(_)", NUM_GE);
    }

    /// Whether a machine is one that has just been given its core library, with
    /// no class inheriting methods yet. Everything that was in the heap before
    /// is as it was.
    pub open spec fn furnished(&self, start: HeapModel, homes: Homes) -> bool {
        &&& self.heap@.keeps(start)
        &&& hierarchy(self)
        &&& install::core_made(self, start)
        &&& install::homes_of(self, homes)
        &&& bindings::holds(self, start, install::core_bindings(self, homes))
        &&& self.modules@.len() == 1
        &&& install::scope_of(&self.modules@[0]) == install::core_scope(
            self,
            homes.system_class,
            (install::Scope { names: Seq::empty(), values: Seq::empty() }),
        )
        &&& operators_known(self)
        &&& self.random_class == self.object_class
        &&& self.module_names@.len() == 0
        &&& self.stack@.len() == 0
        &&& self.frames@.len() == 0
        &&& self.open_upvalues@.len() == 0
        &&& self.output@.len() == 0
        &&& self.current_fiber is None
        &&& self.root_fiber is None
        &&& self.pending_switch is None
        &&& !self.halting
    }

    /// Whether a machine is one that has just started up: every class answers
    /// what it does itself, and what it does not, as the nearest class above
    /// it does.
    pub open spec fn booted(&self, start: HeapModel, before: &Vm, homes: Homes) -> bool {
        &&& before.furnished(start, homes)
        &&& *self == (Vm {
            heap: self.heap,
            core_variables: self.core_variables,
            ..*before
        })
        &&& self.core_variables == self.modules@[0].values@.len()
        &&& inherit::only_methods(self.heap@, before.heap@)
        &&& forall|id: ObjectId, symbol: int|
            inherit::depth(before.heap@, id) <= inherit::MAX_DEPTH ==> crate::object::entry_at(
                #[trigger] self.heap@.entries(id),
                symbol,
            ) == #[trigger] inherit::resolved(
                before.heap@,
                id,
                symbol,
                inherit::MAX_DEPTH as nat,
            )
    }

    /// A machine on a heap of its own.
    pub fn new() -> (vm: Vm)
        ensures
            vm.wf(),
            exists|start: HeapModel, before: Vm, homes: Homes|
                (forall|id: ObjectId| !(#[trigger] start.has(id))) && #[trigger] vm.booted(
                    start,
                    &before,
                    homes,
                ),
            vm.heap.stats().same_settings(crate::heap::fresh_stats()),
    {
        let heap = Heap::new();
        let ghost start = heap@;
        proof {
            heap.lemma_slots(crate::fields::MAX_CHUNKS as int, BOOT_OBJECTS as int);
        }
        let vm = Vm::with_heap(heap);
        proof {
            let (before, homes) = choose|before: Vm, homes: Homes| #[trigger]
                vm.booted(start, &before, homes);
            assert(vm.booted(start, &before, homes));
        }
        vm
    }

    /// A machine on a heap, with its classes and core library added.
    #[verifier::rlimit(80)]
    pub fn with_heap(heap: Heap) -> (vm: Vm)
        requires
            heap.wf(),
            heap.has_slots(BOOT_OBJECTS as int),
        ensures
            vm.wf(),
            exists|before: Vm, homes: Homes| #[trigger] vm.booted(heap@, &before, homes),
            vm.heap.stats().same_settings(heap.stats()),
    {
        let ghost start = heap@;
        let ghost settings = heap.stats();
        let mut heap = heap;
        let classes = make_classes(&mut heap);
        let mut modules: Vec<Module> = Vec::new();
        modules.push(Module::new());
        let mut vm = Vm {
            heap,
            stack: Vec::new(),
            primitives: Vec::new(),
            method_names: SymbolTable::new(),
            num_ops: [NUM_OP_NONE; 256],
            modules,
            module_names: SymbolTable::new(),
            module_places: Vec::new(),
            core_variables: 0,
            num_class: classes.num,
            bool_class: classes.bool,
            null_class: classes.null,
            string_class: classes.string,
            list_class: classes.list,
            map_class: classes.map,
            range_class: classes.range,
            class_class: classes.class,
            object_class: classes.object,
            fn_class: classes.function,
            map_entry_class: classes.map_entry,
            fiber_class: classes.fiber,
            random_class: classes.object,
            sequence_class: classes.sequence,
            map_sequence_class: classes.map_sequence,
            where_sequence_class: classes.where_sequence,
            take_sequence_class: classes.take_sequence,
            skip_sequence_class: classes.skip_sequence,
            map_key_sequence_class: classes.map_key_sequence,
            map_value_sequence_class: classes.map_value_sequence,
            class_attributes_class: classes.class_attributes,
            string_byte_sequence_class: classes.string_byte_sequence,
            string_code_point_sequence_class: classes.string_code_point_sequence,
            current_fiber: None,
            root_fiber: None,
            pending_switch: None,
            halting: false,
            frames: Vec::new(),
            open_upvalues: Vec::new(),
            output: Vec::new(),
        };
        proof {
            lemma_bare_holds(&vm, start);
            assert(bindings::made_since(&vm, start, vm.object_class));
            assert(vm.heap@.definable(vm.object_class));
            assert(bindings::made_since(&vm, start, vm.num_class));
            assert(vm.heap@.definable(vm.num_class));
            assert(bindings::made_since(&vm, start, vm.bool_class));
            assert(vm.heap@.definable(vm.bool_class));
            assert(bindings::made_since(&vm, start, vm.null_class));
            assert(vm.heap@.definable(vm.null_class));
            assert(bindings::made_since(&vm, start, vm.string_class));
            assert(vm.heap@.definable(vm.string_class));
            assert(bindings::made_since(&vm, start, vm.list_class));
            assert(vm.heap@.definable(vm.list_class));
            assert(bindings::made_since(&vm, start, vm.map_class));
            assert(vm.heap@.definable(vm.map_class));
            assert(bindings::made_since(&vm, start, vm.range_class));
            assert(vm.heap@.definable(vm.range_class));
            assert(bindings::made_since(&vm, start, vm.class_class));
            assert(vm.heap@.definable(vm.class_class));
            assert(bindings::made_since(&vm, start, vm.fn_class));
            assert(vm.heap@.definable(vm.fn_class));
            assert(bindings::made_since(&vm, start, vm.map_entry_class));
            assert(vm.heap@.definable(vm.map_entry_class));
            assert(bindings::made_since(&vm, start, vm.fiber_class));
            assert(vm.heap@.definable(vm.fiber_class));
            assert(bindings::made_since(&vm, start, vm.sequence_class));
            assert(vm.heap@.definable(vm.sequence_class));
            assert(bindings::made_since(&vm, start, vm.map_sequence_class));
            assert(vm.heap@.definable(vm.map_sequence_class));
            assert(bindings::made_since(&vm, start, vm.where_sequence_class));
            assert(vm.heap@.definable(vm.where_sequence_class));
            assert(bindings::made_since(&vm, start, vm.take_sequence_class));
            assert(vm.heap@.definable(vm.take_sequence_class));
            assert(bindings::made_since(&vm, start, vm.skip_sequence_class));
            assert(vm.heap@.definable(vm.skip_sequence_class));
        }
        make_sequence(
            &mut vm,
            Ghost(start),
            classes.list,
            Ghost("List"@),
            Ghost(Some(classes.object)),
        );
        make_sequence(
            &mut vm,
            Ghost(start),
            classes.map,
            Ghost("Map"@),
            Ghost(Some(classes.object)),
        );
        make_sequence(
            &mut vm,
            Ghost(start),
            classes.range,
            Ghost("Range"@),
            Ghost(Some(classes.object)),
        );
        make_sequence(
            &mut vm,
            Ghost(start),
            classes.string,
            Ghost("String"@),
            Ghost(Some(classes.object)),
        );
        let ghost ready = vm;
        proof {
            assert(install::core_definable(&ready));
            assert(install::core_made(&ready, start));
            assert(install::core_apart(&ready));
            assert(hierarchy(&ready));
        }
        let homes = install::install(&mut vm);
        let ghost filled = vm;
        proof {
            lemma_hierarchy(&ready, &filled);
            lemma_core_made(&ready, &filled, start);
        }
        vm.learn_numeric_operators();
        let ghost before = vm;
        proof {
            install::lemma_modules_apart(
                &filled,
                &before,
                start,
                install::core_bindings(&filled, homes),
            );
            lemma_hierarchy(&filled, &before);
            lemma_core_made(&filled, &before, start);
            assert(before.furnished(start, homes));
        }
        vm.flatten_class_hierarchy();
        vm.core_variables = vm.modules[0].values.len();
        proof {
            assert(vm.heap.stats().same_settings(settings));
            assert(vm.booted(start, &before, homes));
        }
        vm
    }
}

/// Starting up leaves what was in the heap as it was. Only a class that was
/// there may come to answer more: what the classes above it answer.
pub proof fn law_start_up_keeps_what_was_there(
    vm: &Vm,
    start: HeapModel,
    before: &Vm,
    homes: Homes,
)
    requires
        vm.booted(start, before, homes),
    ensures
        vm.heap@.keeps(HeapModel { classes: Map::empty(), ..start }),
        forall|i: u32| #[trigger]
            start.classes.contains_key(i) ==> vm.heap@.classes.contains_key(i)
                && vm.heap@.classes[i].class().same_but_methods(&start.classes[i].class()),
{
    assert forall|i: u32| #[trigger] start.classes.contains_key(i) implies vm.heap@.classes.contains_key(i)
        && vm.heap@.classes[i].class().same_but_methods(&start.classes[i].class()) by {
        assert(before.heap@.classes.contains_key(i));
        assert(before.heap@.classes[i] == start.classes[i]);
    }
}

} // verus!
