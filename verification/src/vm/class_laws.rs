//! What holds of classes, their methods and their fields together.

use vstd::prelude::*;

use super::classes::MAX_CLASS_FIELDS;
use super::step::{Outcome, Run};
use super::{RuntimeError, Vm};
use crate::bytecode::Op;
use crate::handle::ObjectId;
use crate::object::Method;
use crate::value::Value;

verus! {

/// A method that was bound to a class: to class `class`, which inherits from
/// class `parent`, under a symbol.
pub struct Binding {
    pub before: Vm,
    pub after: Vm,
    pub class: ObjectId,
    pub parent: ObjectId,
    pub closure: ObjectId,
    pub symbol: usize,
}

impl Binding {
    /// Whether the method was bound, and is one of instances.
    pub open spec fn holds(self) -> bool {
        &&& self.after.method_bound(
            &self.before,
            Value::object(self.class),
            Value::object(self.closure),
            self.symbol,
            false,
            Ok::<(), RuntimeError>(()),
        )
        &&& self.before.heap@.class(self.class) matches Some(class)
        &&& class.superclass == Some(self.parent)
        &&& self.before.heap@.class(self.parent) matches Some(parent)
        &&& 0 <= parent.num_fields <= MAX_CLASS_FIELDS
        &&& self.before.spec_function_of(self.closure) is Some
    }

    /// How many fields the class inherited from has.
    pub open spec fn inherited(self) -> int {
        self.before.heap@.class(self.parent)->0.num_fields as int
    }

    /// Whether a machine runs the method: it began a call of its closure, and
    /// has come back to it from whatever that called.
    pub open spec fn runs_in(self, vm: Vm, caller: Vm, entered: Vm, run: Run, next: Run) -> bool {
        &&& caller.spec_function_of(self.closure) == self.after.spec_function_of(self.closure)
        &&& entered.entered(&caller, self.closure, run, next, Outcome::Next)
        &&& vm.frames@.len() == entered.frames@.len()
        &&& vm.frames@.last() == entered.frames@.last()
    }
}

/// What the function of a method learns when it is bound.
proof fn lemma_bound_function(binding: Binding)
    requires
        binding.holds(),
    ensures
        binding.after.spec_function_of(binding.closure) matches Some(function)
            && function.field_offset == binding.inherited() && function.super_class == Some(
            binding.parent,
        ),
{
    broadcast use crate::value::law_object_round_trip;

    let before = binding.before.heap@;
    let whole = before.closure(binding.closure)->0.function;
    before.lemma_root_reached(super::classes::functions(before), set![whole], whole);
    assert(super::classes::part_of(before, whole, whole));
    assert(super::classes::slot_part_of(before, whole, whole.spec_index()));
}

/// Where a machine runs a method that was bound to a class, the method's own
/// fields start behind those of the class inherited from.
proof fn lemma_own_fields_start(
    binding: Binding,
    vm: Vm,
    caller: Vm,
    entered: Vm,
    run: Run,
    next: Run,
)
    requires
        binding.holds(),
        binding.runs_in(vm, caller, entered, run, next),
    ensures
        vm.spec_field_offset() == binding.inherited(),
{
    lemma_bound_function(binding);
}

/// Fields of different classes are apart. A method bound to a class stores its
/// field `index` behind all the fields that the class inherits, and every other
/// field of the instance stays as it was.
pub proof fn law_fields_of_classes_are_apart(
    binding: Binding,
    before: Vm,
    after: Vm,
    caller: Vm,
    entered: Vm,
    run: Run,
    next: Run,
    instance: ObjectId,
    index: usize,
    value: Value,
)
    requires
        binding.holds(),
        binding.runs_in(before, caller, entered, run, next),
        after.field_set(
            &before,
            Value::object(instance),
            index,
            value,
            Ok::<(), RuntimeError>(()),
        ),
    ensures
        before.heap@.instance(instance) matches Some(was) && after.heap@.instance(
            instance,
        ) matches Some(is) && {
            let place = binding.inherited() + index;
            &&& place < is.fields.len()
            &&& is.fields[place] == value
            &&& was.fields.len() <= is.fields.len()
            &&& forall|other: int|
                0 <= other < was.fields.len() && other != place ==> #[trigger] is.fields[other]
                    == was.fields[other]
        },
{
    broadcast use crate::value::law_object_round_trip;

    lemma_own_fields_start(binding, before, caller, entered, run, next);
}

/// What a method bound to a class reads as its field `index` is what is behind
/// all the fields that the class inherits.
pub proof fn law_own_fields_are_read_behind_the_inherited(
    binding: Binding,
    vm: Vm,
    caller: Vm,
    entered: Vm,
    run: Run,
    next: Run,
    instance: ObjectId,
    index: int,
)
    requires
        binding.holds(),
        binding.runs_in(vm, caller, entered, run, next),
        0 <= index,
    ensures
        vm.heap@.instance(instance) matches Some(it) ==> vm.spec_field(
            Value::object(instance),
            index,
        ) == Ok::<Value, Seq<char>>(
            if binding.inherited() + index < it.fields.len() {
                it.fields[binding.inherited() + index]
            } else {
                Value::null()
            },
        ),
{
    broadcast use crate::value::law_object_round_trip;

    lemma_own_fields_start(binding, vm, caller, entered, run, next);
}

/// What a method of the class inherited from reads is not touched by what a
/// method of the class that inherits stores.
pub proof fn law_inherited_fields_are_not_touched(
    binding: Binding,
    before: Vm,
    after: Vm,
    caller: Vm,
    entered: Vm,
    run: Run,
    next: Run,
    instance: ObjectId,
    index: usize,
    value: Value,
    earlier: Vm,
    later: Vm,
    read: int,
)
    requires
        binding.holds(),
        binding.runs_in(before, caller, entered, run, next),
        after.field_set(
            &before,
            Value::object(instance),
            index,
            value,
            Ok::<(), RuntimeError>(()),
        ),
        earlier.heap@ == before.heap@,
        later.heap@ == after.heap@,
        earlier.frames@ == later.frames@,
        0 <= read,
        earlier.spec_field_offset() + read < binding.inherited(),
    ensures
        later.spec_field(Value::object(instance), read) == earlier.spec_field(
            Value::object(instance),
            read,
        ),
{
    broadcast use crate::value::law_object_round_trip;

    law_fields_of_classes_are_apart(
        binding,
        before,
        after,
        caller,
        entered,
        run,
        next,
        instance,
        index,
        value,
    );
}

/// A method that was bound is what the class answers with under its symbol, and
/// under any other symbol it answers as before.
pub proof fn law_bound_method_is_found(binding: Binding, other: int)
    requires
        binding.holds(),
        binding.before.heap@.definable(binding.class),
        binding.closure.0 < 0x8000_0000,
        other != binding.symbol,
    ensures
        binding.after.spec_find_method(binding.class, binding.symbol as int) == Some(
            Method::Closure(binding.closure),
        ),
        binding.after.spec_find_method(binding.class, other) == binding.before.spec_find_method(
            binding.class,
            other,
        ),
{
    broadcast use crate::value::law_object_round_trip;

    crate::object::law_method_entry_round_trip(binding.closure, 0);
}

/// A static method that was bound is what the class itself answers with: it is
/// bound to the metaclass, and instances of the class answer as before.
pub proof fn law_static_method_is_found_on_the_class(
    before: Vm,
    after: Vm,
    class: ObjectId,
    metaclass: ObjectId,
    closure: ObjectId,
    symbol: usize,
    other: int,
)
    requires
        after.method_bound(
            &before,
            Value::object(class),
            Value::object(closure),
            symbol,
            true,
            Ok::<(), RuntimeError>(()),
        ),
        before.heap@.class(class) matches Some(it) && it.metaclass == Some(metaclass),
        before.heap@.class(metaclass) is Some,
        before.heap@.definable(metaclass),
        class != metaclass,
        class.spec_tag() == crate::object::ObjectType::Class.spec_tag(),
        closure.0 < 0x8000_0000,
    ensures
        after.spec_class_of(Value::object(class)) == Some(metaclass),
        after.spec_find_method(metaclass, symbol as int) == Some(Method::Closure(closure)),
        class.spec_index() != metaclass.spec_index() ==> after.spec_find_method(class, other)
            == before.spec_find_method(class, other),
{
    broadcast use crate::value::law_object_round_trip;

    crate::object::law_method_entry_round_trip(closure, 0);
    crate::value::law_kinds_exclusive(Value::object(class));
}

/// `super` calls what the class inherited from answers with, whatever the
/// receiver's own class does.
pub proof fn law_super_calls_what_was_inherited(
    binding: Binding,
    before: Vm,
    after: Vm,
    caller: Vm,
    entered: Vm,
    run: Run,
    next: Run,
    at: Run,
    then: Run,
    outcome: Outcome,
    callee: ObjectId,
)
    requires
        binding.holds(),
        binding.runs_in(before, caller, entered, run, next),
        before.spec_function_of(binding.closure) == binding.after.spec_function_of(
            binding.closure,
        ),
        after.did_call(&before, Op::Super, at, then, outcome),
        at.within(at.ip + 1),
        before.stack@.len() > at.operand(),
        before.spec_find_method(binding.parent, at.unit(at.ip + 1) as int) == Some(
            Method::Closure(callee),
        ),
    ensures
        after.entered(&before, callee, at, then, outcome),
{
    lemma_bound_function(binding);
}

/// A class that was just made answers everything as the class it inherits from
/// does, and its instances have the fields of both.
pub proof fn law_new_class_answers_as_its_parent(
    before: Vm,
    after: Vm,
    name: Value,
    parent: ObjectId,
    declared: usize,
    child: Seq<char>,
    made: ObjectId,
    symbol: int,
)
    requires
        after.class_made(
            &before,
            name,
            Value::object(parent),
            declared,
            child,
            Ok::<Value, RuntimeError>(Value::object(made)),
        ),
        0 <= symbol,
        before.heap@.class(parent) matches Some(class) ==> class.num_fields >= 0,
    ensures
        after.spec_find_method(made, symbol) == before.spec_find_method(parent, symbol),
        before.heap@.class(parent) matches Some(class) && after.heap@.class(made) matches Some(
            heir,
        ) && heir.num_fields == class.num_fields + declared && heir.superclass == Some(parent),
{
    broadcast use crate::value::law_object_round_trip;

}

/// A value has the class of its kind: an instance its own, a class its
/// metaclass, and every other object the class that all objects of its kind
/// have.
pub proof fn law_values_have_the_class_of_their_kind(vm: Vm, id: ObjectId)
    ensures
        ({
            let class = vm.spec_class_of(Value::object(id));
            &&& vm.heap@.list(id) is Some ==> class == Some(vm.list_class)
            &&& vm.heap@.map(id) is Some ==> class == Some(vm.map_class)
            &&& vm.heap@.string(id) is Some ==> class == Some(vm.string_class)
            &&& vm.heap@.range(id) is Some ==> class == Some(vm.range_class)
            &&& vm.heap@.closure(id) is Some ==> class == Some(vm.fn_class)
            &&& vm.heap@.fiber(id) is Some ==> class == Some(vm.fiber_class)
            &&& vm.heap@.instance(id) matches Some(instance) ==> class == Some(instance.class)
            &&& vm.heap@.class(id) matches Some(it) ==> it.metaclass is Some ==> class
                == it.metaclass
        }),
        forall|bits: u64|
            crate::number::finite(bits) ==> #[trigger] vm.spec_class_of(Value::num(bits)) == Some(
                vm.num_class,
            ),
        forall|truth: bool| #[trigger]
            vm.spec_class_of(Value::bool(truth)) == Some(vm.bool_class),
        vm.spec_class_of(Value::null()) == Some(vm.null_class),
{
    broadcast use crate::value::law_object_round_trip;

    crate::value::law_kinds_exclusive(Value::object(id));
    crate::value::law_kinds_exclusive(Value::null());
    crate::value::law_kinds_exclusive(Value::bool(true));
    crate::value::law_kinds_exclusive(Value::bool(false));
    assert forall|bits: u64| crate::number::finite(bits) implies #[trigger] vm.spec_class_of(
        Value::num(bits),
    ) == Some(vm.num_class) by {
        crate::value::law_finite_number_is_a_value(bits);
    }
}

} // verus!
