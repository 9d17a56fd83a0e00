//! What holds of instructions that make objects, and that read and write what
//! objects hold.

use vstd::prelude::*;

use super::call_laws::Move;
use super::super::Vm;
use crate::bytecode::Op;
use crate::handle::ObjectId;
use crate::value::Value;

verus! {

/// A field that was stored is loaded again with the value that was stored, by
/// the method that stored it.
pub proof fn law_stored_field_is_loaded(store: Move, load: Move)
    requires
        store.after.did_store_this(&store.before, store.run, store.next, store.outcome),
        store.outcome is Next,
        store.before.stack@.len() > 0,
        load.before.heap@ == store.after.heap@,
        load.before.frames == store.after.frames,
        super::local(load.before.stack@, load.run.base as int, 0) == super::local(
            store.before.stack@,
            store.run.base as int,
            0,
        ),
        load.after.did_stack(&load.before, Op::LoadFieldThis, load.run, load.next, load.outcome),
        load.run.operand() == store.run.operand(),
        load.run.within(load.run.ip as int),
    ensures
        load.outcome is Next,
        load.after.stack@ == load.before.stack@.push(store.before.stack@.last()),
        store.after.stack@ == store.before.stack@,
{
    let receiver = super::local(store.before.stack@, store.run.base as int, 0)->0;
    super::super::fields::law_stored_field_is_read_back(
        store.before,
        store.after,
        receiver,
        store.run.operand(),
        store.run.operand(),
        store.before.stack@.last(),
    );
    assert(load.run.chunk.code@.len() == load.run.chunk.code.len());
}

/// Whether a closure is running that holds an upvalue under a number.
pub open spec fn holds_upvalue(vm: Vm, number: int, id: ObjectId) -> bool {
    &&& vm.frames@.len() > 0
    &&& vm.heap@.closure(vm.frames@.last().closure) matches Some(closure)
    &&& 0 <= number < closure.upvalues@.len()
    &&& closure.upvalues@[number] == id
}

/// A closure is made with an upvalue for each variable that it captures, in
/// order. One for a local of the call that makes it is open on the place of
/// that local.
pub proof fn law_closure_captures_the_local(make: Move, index: int)
    requires
        make.after.did_closure(&make.before, make.run, make.next, make.outcome),
        make.outcome is Next,
        Vm::closure_readable(make.run),
        make.run.operand() == 1,
        make.run.unit(make.run.ip + 2) % 256 != 0,
        index == crate::bytecode::unit_operand(make.run.unit(make.run.ip + 2)),
    ensures
        ({
            let pushed = make.after.stack@.last();
            &&& make.after.stack@.drop_last() == make.before.stack@
            &&& pushed.spec_as_object() matches Some(id)
            &&& make.after.heap@.closure(id) matches Some(closure)
            &&& make.run.spec_constant(make.run.ip + 1)->0.spec_as_object() == Some(
                closure.function,
            )
            &&& closure.upvalues@.len() == 1
            &&& super::super::upvalues::open_on(
                make.after.heap@,
                closure.upvalues@[0],
                make.run.base + index,
            )
        }),
{
    broadcast use crate::value::law_object_round_trip;

    let function = make.run.spec_constant(make.run.ip + 1)->0.spec_as_object()->0;
    let (mid, ids) = choose|mid: Vm, ids: Seq<ObjectId>| #[trigger]
        mid.captured_all(&make.before, make.run, 1, ids) && make.after.closure_pushed(
            &mid,
            function,
            ids,
        );
    reveal_with_fuel(Vm::captured_all, 2);
    let first = choose|first: Vm|
        first.captured_all(&make.before, make.run, 0, ids.drop_last())
            && #[trigger] mid.captured_one(&first, make.run, 0, ids.last());
    assert(first == make.before);
    assert(mid.captured(&make.before, (make.run.base + index) as usize, ids[0]));
    let (id, closure) = choose|id: ObjectId, closure: crate::object::ObjClosure|
        {
            &&& #[trigger] make.after.heap.allocated(
                &mid.heap,
                id,
                crate::object::Object::Closure(closure),
            )
            &&& closure.function == function
            &&& closure.upvalues@ == ids
            &&& make.after == (Vm { heap: make.after.heap, stack: make.after.stack, ..mid })
            &&& make.after.stack@ == mid.stack@.push(Value::object(id))
        };
    make.after.heap.law_allocation_keeps(&mid.heap, id, crate::object::Object::Closure(closure));
    assert(mid.stack@ == make.before.stack@);
    assert(make.after.stack@.drop_last() =~= make.before.stack@);
    assert(make.after.heap@.upvalue(ids[0]) == mid.heap@.upvalue(ids[0]));
}

/// While a variable is open, a closure that captured it reads what is in the
/// place of the local, and what it stores is there for all: the local itself
/// and every other closure.
pub proof fn law_open_variable_is_shared(step: Move, id: ObjectId, place: int, number: int)
    requires
        holds_upvalue(step.before, number, id),
        super::super::upvalues::open_on(step.before.heap@, id, place),
        0 <= place < step.before.stack@.len(),
        step.run.operand() == number,
        step.run.within(step.run.ip as int),
    ensures
        step.after.did_stack(&step.before, Op::LoadUpvalue, step.run, step.next, step.outcome)
            ==> step.outcome is Next && step.after.stack@ == step.before.stack@.push(
            step.before.stack@[place],
        ),
        step.after.did_store_upvalue(&step.before, step.run, step.next, step.outcome)
            ==> step.outcome is Next && step.after.stack@ == step.before.stack@.update(
            place,
            step.before.stack@.last(),
        ) && step.after.heap == step.before.heap,
{
    assert(step.run.chunk.code@.len() == step.run.chunk.code.len());
}

/// An instance that is constructed is one of the class that it was constructed
/// of, takes the place of the class as the receiver, and has as many fields as
/// the class says, all of them null.
pub proof fn law_constructed_instance_is_of_its_class(step: Move, class: ObjectId)
    requires
        step.after.did_construct(&step.before, step.run, step.next, step.outcome),
        step.outcome is Next,
        super::local(step.before.stack@, step.run.base as int, 0) == Some(Value::object(class)),
        step.before.heap@.class(class) is Some,
    ensures
        ({
            let instance = step.after.stack@[step.run.base as int];
            let count = step.before.heap@.class(class)->0.num_fields as int;
            &&& step.after.stack@.len() == step.before.stack@.len()
            &&& instance.spec_as_object() matches Some(id)
            &&& !step.before.heap@.has(id)
            &&& step.after.heap@.instance(id) matches Some(made)
            &&& made.class == class
            &&& made.fields.len() == if count > 0 {
                count
            } else {
                0
            }
            &&& forall|i: int|
                0 <= i < made.fields.len() ==> #[trigger] made.fields[i] == Value::null()
        }),
{
    broadcast use crate::value::law_object_round_trip;

}

/// A static field that was stored is loaded again with the value that was
/// stored.
pub proof fn law_stored_static_field_is_loaded(store: Move, load: Move, owner: ObjectId)
    requires
        store.after.did_store_static(&store.before, store.run, store.next, store.outcome),
        store.before.stack@.len() > 0,
        store.before.spec_owner_class() == Some(owner),
        store.before.heap@.class(owner) is Some,
        !store.before.heap@.permanent(owner),
        load.before.heap@ == store.after.heap@,
        load.before.spec_owner_class() == Some(owner),
        load.after.did_stack(&load.before, Op::LoadStaticField, load.run, load.next, load.outcome),
        load.run.operand() == store.run.operand(),
        load.run.within(load.run.ip as int),
    ensures
        load.outcome is Next,
        load.after.stack@ == load.before.stack@.push(store.before.stack@.last()),
{
    assert(load.run.chunk.code@.len() == load.run.chunk.code.len());
}

/// An imported variable has the value that a variable of that name has in the
/// module that was loaded under the name it is imported from.
pub proof fn law_imported_variable_has_its_value(step: Move, module: Seq<char>, name: Seq<char>)
    requires
        step.after.variable_imported(
            &step.before,
            module,
            name,
            step.run,
            step.next,
            step.outcome,
        ),
        step.outcome is Next,
    ensures
        exists|loaded: int, i: int|
            #![trigger step.before.module_names@[loaded], step.before.modules@[step.before.module_places@[loaded] as int].names@[i]]
            {
                &&& 0 <= loaded < step.before.module_names@.len()
                &&& step.before.module_names@[loaded] == super::super::paths::spec_resolve(
                    step.before.modules@[step.run.module as int].name@,
                    module,
                )
                &&& ({
                    let from = step.before.modules@[step.before.module_places@[loaded] as int];
                    &&& 0 <= i < from.names@.len()
                    &&& from.names@[i] == name
                    &&& step.after.stack@ == step.before.stack@.push(from.values@[i])
                })
            },
{
    let wanted = super::super::paths::spec_resolve(
        step.before.modules@[step.run.module as int].name@,
        module,
    );
    let loaded = step.before.module_names@.index_of(wanted);
    let from = step.before.modules@[step.before.module_places@[loaded] as int];
    let i = from.names@.index_of(name);
    assert(step.before.module_names@[loaded] == wanted && 0 <= loaded
        < step.before.module_names@.len());
    assert(from.names@[i] == name && 0 <= i < from.names@.len());
    assert(step.before.modules@[step.before.module_places@[loaded] as int].names@[i] == name);
}

} // verus!
