//! Methods of fibers.

use vstd::prelude::*;

use super::arguments;
use super::arguments::{argument, receiver};
use super::primitive::Primitive;
use super::reply;
use super::reply::{deny, give, Reply, ReplyModel};
use crate::handle::ObjectId;
use crate::object::{ObjFiber, Object};
use crate::value::Value;
use crate::vm::{Switch, Vm};

verus! {

/// The fiber under a value.
pub open spec fn spec_fiber(vm: &Vm, value: Value) -> Option<ObjFiber> {
    match value.spec_as_object() {
        Some(id) => vm.heap@.fiber(id),
        None => None,
    }
}

/// Whether a method only asks something of fibers.
pub open spec fn is_fiber_query(p: Primitive) -> bool {
    match p {
        Primitive::FiberCurrent | Primitive::FiberAbort | Primitive::FiberIsDone
        | Primitive::FiberError => true,
        _ => false,
    }
}

/// What a question about fibers comes to.
pub open spec fn fiber_reply(vm: &Vm, p: Primitive, at: usize) -> ReplyModel {
    match p {
        Primitive::FiberCurrent => reply::gives(
            match vm.current_fiber {
                Some(id) => Value::object(id),
                None => Value::null(),
            },
        ),
        Primitive::FiberAbort => if arguments::given(vm, at, 1) == Value::null() {
            reply::gives(Value::null())
        } else {
            ReplyModel::Abort(arguments::given(vm, at, 1))
        },
        _ => match spec_fiber(vm, arguments::given(vm, at, 0)) {
            None => reply::denies("Receiver must be a fiber."@),
            Some(fiber) => if p is FiberIsDone {
                reply::gives(Value::bool(fiber.done))
            } else {
                reply::gives(fiber.error)
            },
        },
    }
}

/// Answer a question about fibers.
pub fn reply_of_fiber_query(vm: &Vm, p: Primitive, at: usize) -> (reply: Reply)
    requires
        vm.wf(),
        is_fiber_query(p),
        arguments::called_with(vm, at, p.spec_arity()),
    ensures
        reply.model() == fiber_reply(vm, p, at),
{
    match p {
        Primitive::FiberCurrent => match vm.current_fiber {
            Some(id) => give(Value::object(id)),
            None => give(Value::null()),
        },
        Primitive::FiberAbort => {
            let message = argument(vm, at, 1);
            if message.is_null() {
                give(Value::null())
            } else {
                Reply::Abort(message)
            }
        },
        _ => match receiver(vm, at).as_object() {
            None => deny("Receiver must be a fiber."),
            Some(id) => match vm.heap.fiber(id) {
                None => deny("Receiver must be a fiber."),
                Some(fiber) => match p {
                    Primitive::FiberIsDone => give(Value::bool(fiber.done)),
                    _ => give(fiber.error),
                },
            },
        },
    }
}

/// Why a value cannot be what a fiber runs.
pub open spec fn entry_refused(vm: &Vm, function: Value) -> Option<Seq<char>> {
    match function.spec_as_object() {
        None => Some("Argument must be a function."@),
        Some(closure) => if vm.heap@.closure(closure) is None {
            Some("Argument must be a function."@)
        } else {
            match vm.spec_function_of(closure) {
                Some(code) => if code.arity > 1 {
                    Some("Function cannot take more than one parameter."@)
                } else {
                    None
                },
                None => None,
            }
        },
    }
}

/// Whether a machine is an earlier one after a fiber was made.
pub open spec fn made_fiber(before: &Vm, after: &Vm, function: Value, reply: ReplyModel) -> bool {
    match entry_refused(before, function) {
        Some(message) => reply == reply::denies(message) && *after == *before,
        None => {
            &&& reply matches ReplyModel::Done(Ok(value))
            &&& value.spec_as_object() matches Some(id)
            &&& value == Value::object(id)
            &&& after.heap@.fiber(id) matches Some(fiber)
            &&& fiber.entry == function.spec_as_object()
            &&& fiber.stack@.len() == 0
            &&& fiber.frames@.len() == 0
            &&& fiber.caller is None
            &&& fiber.error == Value::null()
            &&& !fiber.done
            &&& !fiber.catching
            &&& after.heap.allocated(&before.heap, id, Object::Fiber(Box::new(fiber)))
            &&& *after == (Vm { heap: after.heap, ..*before })
        },
    }
}

/// Make a fiber.
pub fn new_fiber(vm: &mut Vm, function: Value) -> (reply: Reply)
    requires
        old(vm).wf(),
        old(vm).heap.has_room(1),
    ensures
        final(vm).wf(),
        made_fiber(old(vm), final(vm), function, reply.model()),
{
    broadcast use crate::value::law_object_round_trip;

    let closure = match function.as_object() {
        None => {
            return deny("Argument must be a function.");
        },
        Some(closure) => closure,
    };
    match vm.heap.closure(closure) {
        None => {
            return deny("Argument must be a function.");
        },
        Some(_) => {},
    }
    match vm.arity_of(closure) {
        None => {},
        Some(arity) => {
            if arity > 1 {
                return deny("Function cannot take more than one parameter.");
            }
        },
    }
    give(Value::object(vm.heap.allocate(Object::Fiber(Box::new(ObjFiber::new(closure))))))
}

/// Why a fiber cannot be switched to.
pub open spec fn switch_refused(vm: &Vm, target: Value, set_caller: bool) -> Option<Seq<char>> {
    match spec_fiber(vm, target) {
        None => Some("Receiver must be a fiber."@),
        Some(fiber) => if fiber.done {
            Some("Cannot call a finished fiber."@)
        } else if set_caller && vm.root_fiber == target.spec_as_object() {
            Some("Cannot call root fiber."@)
        } else {
            None
        },
    }
}

/// Whether a machine is an earlier one after it was asked to switch fibers.
pub open spec fn switching(
    before: &Vm,
    after: &Vm,
    target: Value,
    value: Value,
    set_caller: bool,
    catching: bool,
    reply: ReplyModel,
) -> bool {
    match switch_refused(before, target, set_caller) {
        Some(message) => reply == reply::denies(message) && *after == *before,
        None => {
            &&& reply == reply::gives(Value::null())
            &&& *after == (Vm {
                pending_switch: Some(
                    Switch {
                        target: target.spec_as_object()->0,
                        value,
                        set_caller,
                        catching,
                        finishing: false,
                        as_error: false,
                    },
                ),
                ..*before
            })
        },
    }
}

/// Ask to go on in another fiber.
pub fn switch_into(
    vm: &mut Vm,
    at: usize,
    value: Value,
    set_caller: bool,
    catching: bool,
) -> (reply: Reply)
    requires
        old(vm).wf(),
        arguments::called_with(old(vm), at, 0),
    ensures
        final(vm).wf(),
        switching(
            old(vm),
            final(vm),
            arguments::given(old(vm), at, 0),
            value,
            set_caller,
            catching,
            reply.model(),
        ),
{
    let target = match receiver(vm, at).as_object() {
        None => {
            return deny("Receiver must be a fiber.");
        },
        Some(target) => target,
    };
    match vm.heap.fiber(target) {
        None => {
            return deny("Receiver must be a fiber.");
        },
        Some(fiber) => {
            if fiber.done {
                return deny("Cannot call a finished fiber.");
            }
        },
    }
    if set_caller {
        match vm.root_fiber {
            None => {},
            Some(root) => {
                if root == target {
                    return deny("Cannot call root fiber.");
                }
            },
        }
    }
    vm.pending_switch = Some(
        Switch { target, value, set_caller, catching, finishing: false, as_error: false },
    );
    give(Value::null())
}

/// The fiber that resumed the running one.
pub open spec fn resumer(vm: &Vm) -> Option<ObjectId> {
    match vm.current_fiber {
        None => None,
        Some(id) => match vm.heap@.fiber(id) {
            Some(fiber) => fiber.caller,
            None => None,
        },
    }
}

/// Whether a machine is an earlier one after it was asked to yield.
pub open spec fn yielding(before: &Vm, after: &Vm, value: Value, reply: ReplyModel) -> bool {
    match resumer(before) {
        None => reply == reply::denies("No fiber to yield to."@) && *after == *before,
        Some(caller) => {
            &&& reply == reply::gives(Value::null())
            &&& *after == (Vm {
                pending_switch: Some(
                    Switch {
                        target: caller,
                        value,
                        set_caller: false,
                        catching: false,
                        finishing: false,
                        as_error: false,
                    },
                ),
                ..*before
            })
        },
    }
}

/// Ask to go back to the fiber that resumed this one.
pub fn yield_to_caller(vm: &mut Vm, value: Value) -> (reply: Reply)
    requires
        old(vm).wf(),
    ensures
        final(vm).wf(),
        yielding(old(vm), final(vm), value, reply.model()),
{
    let caller = match vm.current_fiber {
        None => None,
        Some(id) => match vm.heap.fiber(id) {
            Some(fiber) => fiber.caller,
            None => None,
        },
    };
    match caller {
        None => deny("No fiber to yield to."),
        Some(target) => {
            vm.pending_switch = Some(
                Switch {
                    target,
                    value,
                    set_caller: false,
                    catching: false,
                    finishing: false,
                    as_error: false,
                },
            );
            give(Value::null())
        },
    }
}

/// Whether a method makes a fiber or leaves the running one.
pub open spec fn is_fiber_move(p: Primitive) -> bool {
    match p {
        Primitive::FiberNew | Primitive::FiberYield | Primitive::FiberYieldValue
        | Primitive::FiberCall | Primitive::FiberCallValue | Primitive::FiberTry
        | Primitive::FiberTryValue | Primitive::FiberTransfer
        | Primitive::FiberTransferValue => true,
        _ => false,
    }
}

/// Whether a machine is an earlier one after a method that makes a fiber or
/// leaves the running one.
pub open spec fn moved(
    before: &Vm,
    after: &Vm,
    p: Primitive,
    at: usize,
    reply: ReplyModel,
) -> bool {
    let this = arguments::given(before, at, 0);
    let that = arguments::given(before, at, 1);
    let none = Value::null();
    match p {
        Primitive::FiberNew => made_fiber(before, after, that, reply),
        Primitive::FiberYield => yielding(before, after, none, reply),
        Primitive::FiberYieldValue => yielding(before, after, that, reply),
        Primitive::FiberCall => switching(before, after, this, none, true, false, reply),
        Primitive::FiberCallValue => switching(before, after, this, that, true, false, reply),
        Primitive::FiberTry => switching(before, after, this, none, true, true, reply),
        Primitive::FiberTryValue => switching(before, after, this, that, true, true, reply),
        Primitive::FiberTransfer => switching(before, after, this, none, false, false, reply),
        _ => switching(before, after, this, that, false, false, reply),
    }
}

/// Carry out a method that makes a fiber or leaves the running one.
pub fn reply_of_fiber_move(vm: &mut Vm, p: Primitive, at: usize) -> (reply: Reply)
    requires
        old(vm).wf(),
        is_fiber_move(p),
        arguments::called_with(old(vm), at, p.spec_arity()),
        p is FiberNew ==> old(vm).heap.has_room(1),
    ensures
        final(vm).wf(),
        moved(old(vm), final(vm), p, at, reply.model()),
{
    let none = Value::null();
    match p {
        Primitive::FiberNew => {
            let function = argument(vm, at, 1);
            new_fiber(vm, function)
        },
        Primitive::FiberYield => yield_to_caller(vm, none),
        Primitive::FiberYieldValue => {
            let value = argument(vm, at, 1);
            yield_to_caller(vm, value)
        },
        Primitive::FiberCall => switch_into(vm, at, none, true, false),
        Primitive::FiberCallValue => {
            let value = argument(vm, at, 1);
            switch_into(vm, at, value, true, false)
        },
        Primitive::FiberTry => switch_into(vm, at, none, true, true),
        Primitive::FiberTryValue => {
            let value = argument(vm, at, 1);
            switch_into(vm, at, value, true, true)
        },
        Primitive::FiberTransfer => switch_into(vm, at, none, false, false),
        _ => {
            let value = argument(vm, at, 1);
            switch_into(vm, at, value, false, false)
        },
    }
}

} // verus!
