//! Methods of objects, truth values, null, functions, and whatever answers
//! with its receiver or its argument.

use vstd::prelude::*;

use super::reply;
use super::arguments;
use super::arguments::{argument, receiver};
use super::primitive::Primitive;
use super::reply::{deny, give, Reply, ReplyModel};
use crate::handle::ObjectId;
use crate::heap::HeapModel;
use crate::number::counted;
use crate::value::Value;
use crate::vm::Vm;

verus! {

/// Whether a class is another, or inherits from it, looking up so far.
pub open spec fn inherits_from(
    heap: HeapModel,
    class: Option<ObjectId>,
    wanted: ObjectId,
    limit: nat,
) -> bool
    decreases limit,
{
    match class {
        None => false,
        Some(id) => if limit == 0 {
            false
        } else {
            id == wanted || inherits_from(heap, heap.superclass(id), wanted, (limit - 1) as nat)
        },
    }
}

/// Whether a value is of a class, or why that cannot be asked.
pub open spec fn is_reply(vm: &Vm, value: Value, wanted: Value) -> ReplyModel {
    match wanted.spec_as_object() {
        None => reply::denies("Right operand must be a class."@),
        Some(class) => if vm.heap@.class(class) is None {
            reply::denies("Right operand must be a class."@)
        } else {
            reply::gives(
                Value::bool(
                    inherits_from(vm.heap@, vm.spec_class_of(value), class, vm.chain_limit()),
                ),
            )
        },
    }
}

/// Whether a value is of a class. A hierarchy with more classes than there are
/// objects goes round in a circle, and is followed no further.
fn is_of(vm: &Vm, value: Value, wanted: Value) -> (reply: Reply)
    requires
        vm.wf(),
    ensures
        reply.model() == is_reply(vm, value, wanted),
{
    let class = match wanted.as_object() {
        None => {
            return deny("Right operand must be a class.");
        },
        Some(id) => id,
    };
    match vm.heap.class(class) {
        None => {
            return deny("Right operand must be a class.");
        },
        Some(_) => {},
    }
    let mut current: Option<ObjectId> = vm.class_of(value);
    let mut left: usize = vm.heap.live();
    while left > 0
        invariant
            vm.wf(),
            wanted.spec_as_object() == Some(class),
            vm.heap@.class(class) is Some,
            inherits_from(vm.heap@, vm.spec_class_of(value), class, vm.chain_limit())
                == inherits_from(vm.heap@, current, class, left as nat),
        decreases left,
    {
        match current {
            None => {
                return give(Value::bool(false));
            },
            Some(id) => {
                if id == class {
                    return give(Value::bool(true));
                }
                current = match vm.heap.class(id) {
                    Some(found) => found.superclass,
                    None => None,
                };
            },
        }
        left = left - 1;
    }
    give(Value::bool(false))
}

/// Whether a method is one of these.
pub open spec fn is_object_method(p: Primitive) -> bool {
    match p {
        Primitive::ObjectNot | Primitive::ObjectEqual | Primitive::ObjectUnequal
        | Primitive::ObjectToString | Primitive::ObjectIs | Primitive::ObjectClass
        | Primitive::BoolNot | Primitive::BoolToString | Primitive::BoolEqual
        | Primitive::BoolUnequal | Primitive::NullNot | Primitive::NullToString
        | Primitive::NullEqual | Primitive::NullUnequal | Primitive::FnNew | Primitive::FnArity
        | Primitive::FnCall | Primitive::NumToString | Primitive::RangeToString
        | Primitive::StringToString | Primitive::ListToList | Primitive::RangeIteratorValue
        | Primitive::MapEntryKey | Primitive::MapEntryValue
        | Primitive::MapEntryToString => true,
        _ => false,
    }
}

/// A field of an instance; null where there is none.
pub open spec fn spec_instance_field(vm: &Vm, value: Value, index: int) -> Value {
    match value.spec_as_object() {
        Some(id) => match vm.heap@.instance(id) {
            Some(instance) => crate::vm::upvalues::at_or_null(instance.fields, index),
            None => Value::null(),
        },
        None => Value::null(),
    }
}

/// A field of an instance; null where there is none.
pub fn instance_field(vm: &Vm, value: Value, index: usize) -> (field: Value)
    requires
        vm.wf(),
    ensures
        field == spec_instance_field(vm, value, index as int),
{
    match value.as_object() {
        Some(id) => match vm.heap.field_read(id, index) {
            Some(field) => field,
            None => Value::null(),
        },
        None => Value::null(),
    }
}

/// What such a method comes to.
pub open spec fn object_reply(vm: &Vm, p: Primitive, at: usize) -> ReplyModel {
    let this = arguments::given(vm, at, 0);
    let that = arguments::given(vm, at, 1);
    match p {
        Primitive::ObjectNot => reply::gives(Value::bool(false)),
        Primitive::ObjectEqual => reply::gives(Value::bool(this == that)),
        Primitive::ObjectUnequal => reply::gives(Value::bool(this != that)),
        Primitive::ObjectIs => is_reply(vm, this, that),
        Primitive::ObjectClass => reply::gives(
            match vm.spec_class_of(this) {
                Some(class) => Value::object(class),
                None => Value::null(),
            },
        ),
        Primitive::BoolNot => reply::gives(Value::bool(this.spec_is_falsy())),
        Primitive::BoolEqual => reply::gives(Value::bool(this == that)),
        Primitive::BoolUnequal => reply::gives(Value::bool(this != that)),
        Primitive::NullNot => reply::gives(Value::bool(true)),
        Primitive::NullEqual => reply::gives(Value::bool(that == Value::null())),
        Primitive::NullUnequal => reply::gives(Value::bool(that != Value::null())),
        Primitive::NullToString => ReplyModel::Show(Value::null()),
        Primitive::FnNew => if vm.spec_closure_value(that) is Some {
            reply::gives(that)
        } else {
            reply::denies("Argument must be a function."@)
        },
        Primitive::FnArity => match this.spec_as_object() {
            None => reply::denies("Receiver must be a function."@),
            Some(id) => reply::gives(
                Value::num(
                    crate::number::tally(
                        match vm.spec_function_of(id) {
                            Some(function) => function.arity as nat,
                            None => 0,
                        },
                    ),
                ),
            ),
        },
        Primitive::FnCall => match this.spec_as_object() {
            None => reply::denies("Receiver must be a function."@),
            Some(closure) => ReplyModel::Call { closure, at },
        },
        Primitive::StringToString => reply::gives(this),
        Primitive::ListToList => reply::gives(this),
        Primitive::RangeIteratorValue => reply::gives(that),
        Primitive::MapEntryKey => reply::gives(spec_instance_field(vm, this, 0)),
        Primitive::MapEntryValue => reply::gives(spec_instance_field(vm, this, 1)),
        Primitive::MapEntryToString => ReplyModel::ShowPair(
            spec_instance_field(vm, this, 0),
            spec_instance_field(vm, this, 1),
        ),
        _ => ReplyModel::Show(this),
    }
}

/// Carry out such a method.
pub fn reply_of_object(vm: &Vm, p: Primitive, at: usize) -> (reply: Reply)
    requires
        vm.wf(),
        is_object_method(p),
        arguments::called_with(vm, at, p.spec_arity()),
    ensures
        reply.model() == object_reply(vm, p, at),
{
    let this = receiver(vm, at);
    match p {
        Primitive::ObjectNot => give(Value::bool(false)),
        Primitive::ObjectEqual => give(Value::bool(this.is_same(argument(vm, at, 1)))),
        Primitive::ObjectUnequal => give(Value::bool(!this.is_same(argument(vm, at, 1)))),
        Primitive::ObjectIs => is_of(vm, this, argument(vm, at, 1)),
        Primitive::ObjectClass => match vm.class_of(this) {
            Some(class) => give(Value::object(class)),
            None => give(Value::null()),
        },
        Primitive::BoolNot => give(Value::bool(this.is_falsy())),
        Primitive::BoolEqual => give(Value::bool(this.is_same(argument(vm, at, 1)))),
        Primitive::BoolUnequal => give(Value::bool(!this.is_same(argument(vm, at, 1)))),
        Primitive::NullNot => give(Value::bool(true)),
        Primitive::NullEqual => give(Value::bool(argument(vm, at, 1).is_null())),
        Primitive::NullUnequal => give(Value::bool(!argument(vm, at, 1).is_null())),
        Primitive::NullToString => Reply::Show(Value::null()),
        Primitive::FnNew => {
            let block = argument(vm, at, 1);
            match block.as_object() {
                Some(id) => match vm.heap.closure(id) {
                    Some(_) => give(block),
                    None => deny("Argument must be a function."),
                },
                None => deny("Argument must be a function."),
            }
        },
        Primitive::FnArity => match this.as_object() {
            None => deny("Receiver must be a function."),
            Some(id) => match vm.arity_of(id) {
                Some(arity) => give(Value::num(counted(arity))),
                None => give(Value::num(counted(0))),
            },
        },
        Primitive::FnCall => match this.as_object() {
            None => deny("Receiver must be a function."),
            Some(closure) => Reply::Call { closure, at },
        },
        Primitive::StringToString => give(this),
        Primitive::ListToList => give(this),
        Primitive::RangeIteratorValue => give(argument(vm, at, 1)),
        Primitive::MapEntryKey => give(instance_field(vm, this, 0)),
        Primitive::MapEntryValue => give(instance_field(vm, this, 1)),
        Primitive::MapEntryToString => {
            let key = instance_field(vm, this, 0);
            let value = instance_field(vm, this, 1);
            Reply::ShowPair(key, value)
        },
        _ => Reply::Show(this),
    }
}

} // verus!
