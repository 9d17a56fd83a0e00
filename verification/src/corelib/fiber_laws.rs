//! What holds of fibers, from one switch to the next.

use vstd::prelude::*;
use vstd::utf8::*;

use super::primitive::Primitive;
use super::reply::ReplyModel;
use crate::handle::ObjectId;
use crate::value::Value;
use crate::vm::step::{Outcome, Run};
use crate::vm::{RuntimeError, Vm};

verus! {

/// A method of a fiber that was called from another, and led there.
pub struct Switching {
    /// The machine before the call.
    pub before: Vm,
    /// After the method asked for the switch.
    pub asked: Vm,
    /// After the switch.
    pub after: Vm,
    pub at: usize,
    pub line: u16,
    pub run: Run,
    pub next: Run,
    /// The fiber whose method was called.
    pub fiber: ObjectId,
    /// The fiber it was called from.
    pub caller: ObjectId,
    /// What the method gave.
    pub given: Value,
}

impl Switching {
    /// Whether the method was this one.
    pub open spec fn came_of(self, p: Primitive) -> bool {
        &&& super::perform::performed(
            &self.before,
            &self.asked,
            p,
            self.at,
            ReplyModel::Done(Ok(self.given)),
        )
        &&& self.at < self.before.stack@.len()
        &&& self.before.stack@[self.at as int] == Value::object(self.fiber)
        &&& self.runs_caller()
        &&& self.caller != self.fiber
        &&& self.leads()
    }

    /// Whether the caller runs before.
    pub open spec fn runs_caller(self) -> bool {
        &&& self.before.current_fiber == Some(self.caller)
        &&& self.before.running().fiber(self.caller) matches Some(caller)
        &&& !caller.done
        &&& self.before.frames@.len() > 0
        &&& !self.before.halting
    }

    /// Whether running goes on elsewhere after.
    pub open spec fn leads(self) -> bool {
        self.after.did_primitive(
            &self.asked,
            Ok::<Value, RuntimeError>(self.given),
            self.at,
            self.line,
            self.run,
            self.next,
            Outcome::Jumped,
        )
    }
}

/// How things stand after a switch into a fiber: the caller is put aside where
/// it was, without the call it made.
proof fn lemma_switched(s: Switching, p: Primitive)
    requires
        s.came_of(p),
        p is FiberTry || p is FiberTryValue || p is FiberCall || p is FiberCallValue
            || p is FiberTransfer || p is FiberTransferValue,
    ensures
        s.after.current_fiber == Some(s.fiber),
        s.after.running().fiber(s.fiber) matches Some(fiber) && {
            &&& !fiber.done
            &&& !(p is FiberTransfer || p is FiberTransferValue) ==> fiber.caller == Some(
                s.caller,
            ) && fiber.catching == (p is FiberTry || p is FiberTryValue)
            &&& (p is FiberTransfer || p is FiberTransferValue) ==> (s.before.running().fiber(
                s.fiber,
            ) matches Some(was) && fiber.caller == was.caller && fiber.catching == was.catching)
        },
        s.after.running().fiber(s.caller) matches Some(caller) && {
            &&& !caller.done
            &&& caller.stack == s.before.stack@.take(s.at as int)
            &&& caller.frames.len() == s.before.frames@.len()
            &&& caller.frames.last().ip == s.run.ip
            &&& caller.frames.last().chunk == Some(s.run.chunk)
            &&& caller.frames.last().base == s.before.frames@.last().base
        },
        s.before.running().fiber(s.fiber) matches Some(was) && s.after.stack@.len() > 0 && {
            let sent = if p is FiberTryValue || p is FiberCallValue || p is FiberTransferValue {
                s.before.stack@[s.at + 1]
            } else {
                Value::null()
            };
            was.frames.len() > 0 ==> s.after.stack@ == was.stack.push(sent)
        },
{
    broadcast use crate::value::law_object_round_trip;

    crate::handle::lemma_parts_determine(s.fiber);
    crate::handle::lemma_parts_determine(s.caller);
    let switch = s.asked.pending_switch->0;
    let (mid, left, r, to) = choose|
        mid: Vm,
        left: Vm,
        r: Result<(), RuntimeError>,
        to: Result<crate::vm::fibers::Landing, RuntimeError>,
    | #[trigger]
        s.after.switched_over(
            &s.asked,
            mid,
            left,
            r,
            to,
            s.at,
            switch,
            s.line,
            s.run,
            s.next,
            Outcome::Jumped,
        );
    assert(s.after.running().fibers =~= left.running().fibers);
}

/// An error in a fiber, where a machine runs it.
pub struct Failure {
    /// The machine where the error comes up.
    pub before: Vm,
    /// Where it went.
    pub after: Vm,
    pub error: RuntimeError,
    pub ip: usize,
    pub run: Run,
    pub next: Run,
    pub outcome: Outcome,
}

impl Failure {
    /// Whether the error comes up in a fiber that was switched to, while its
    /// caller waits, and is handed on.
    pub open spec fn in_fiber(self, s: Switching) -> bool {
        &&& self.before.current_fiber == Some(s.fiber)
        &&& self.before.running().fiber(s.fiber) matches Some(fiber)
        &&& s.after.running().fiber(s.fiber) matches Some(was)
        &&& fiber.caller == was.caller
        &&& fiber.catching == was.catching
        &&& self.before.running().fiber(s.caller) == s.after.running().fiber(s.caller)
        &&& self.before.heap.stats().live > 0
        &&& self.before.heap.has_slots(1)
        &&& self.after.handed_on(
            &self.before,
            self.error,
            self.ip,
            self.run,
            self.next,
            self.outcome,
        )
    }
}

/// Trying a fiber catches its errors. The program goes on: in the fiber that
/// tried, behind the call of `try`, with the error's message as what that call
/// gave; and the fiber that was tried is done, with that error.
pub proof fn law_try_catches(s: Switching, p: Primitive, failure: Failure)
    requires
        p is FiberTry || p is FiberTryValue,
        s.came_of(p),
        failure.in_fiber(s),
    ensures
        failure.outcome is Jumped,
        failure.after.current_fiber == Some(s.caller),
        failure.next.ip == s.run.ip,
        failure.next.chunk == s.run.chunk,
        exists|text: ObjectId|
            {
                &&& #[trigger] failure.after.heap@.string(text) matches Some(string)
                &&& string.bytes@ == encode_utf8(failure.error.message@)
                &&& failure.after.stack@ == s.before.stack@.take(s.at as int).push(
                    Value::object(text),
                )
                &&& failure.after.running().fiber(s.fiber) matches Some(fiber)
                &&& fiber.done
                &&& fiber.error == Value::object(text)
            },
{
    lemma_switched(s, p);
    crate::handle::lemma_parts_determine(s.fiber);
    crate::handle::lemma_parts_determine(s.caller);
    let before = failure.before;
    let after = failure.after;
    let limit = before.chain_limit();
    assert(before.running().catcher(Some(s.fiber), limit) == Some(s.caller));
    let r = choose|r: Result<crate::vm::fibers::Landing, RuntimeError>| #[trigger]
        after.delivered(&before, failure.error, failure.ip, failure.run.chunk, r)
            && crate::vm::step::calling::handed(
            after,
            failure.run,
            failure.next,
            failure.outcome,
            r,
        );
    let (mid, text) = choose|mid: Vm, id: ObjectId| #[trigger]
        mid.told_error(&before, id, failure.error.message@) && after.landed(
            &mid,
            s.caller,
            Value::object(id),
            failure.ip,
            failure.run.chunk,
            r,
        );
    let fiber = before.running().fiber(s.fiber)->0;
    let failed = crate::vm::fibers::FiberModel {
        error: Value::object(text),
        done: true,
        ..fiber
    };
    assert(mid.running() == before.running().with_fiber(s.fiber, failed));
    assert(after.heap@.string(text) == mid.heap@.string(text));
    assert(mid.current_fiber == Some(s.fiber)) by {
        assert(mid.running().current == before.running().current);
    }
    assert(after.heap@.string(text) is Some);
}

/// Calling a fiber catches nothing: where nobody further up tries, its errors
/// are the program's.
pub proof fn law_call_does_not_catch(s: Switching, p: Primitive, failure: Failure)
    requires
        p is FiberCall || p is FiberCallValue,
        s.came_of(p),
        failure.in_fiber(s),
        failure.before.running().catcher(
            Some(s.caller),
            (failure.before.heap.stats().live - 1) as nat,
        ) is None,
    ensures
        failure.outcome == Outcome::Failed(failure.error),
        failure.after == failure.before,
{
    lemma_switched(s, p);
}

/// A fiber goes on with what it was called with. One that was put aside has its
/// stack again, with the value, or null without one, as what its own call gave.
pub proof fn law_called_fiber_goes_on_with_the_value(s: Switching, p: Primitive)
    requires
        p is FiberTry || p is FiberTryValue || p is FiberCall || p is FiberCallValue
            || p is FiberTransfer || p is FiberTransferValue,
        s.came_of(p),
        s.before.running().fiber(s.fiber) matches Some(was) ==> was.frames.len() > 0,
    ensures
        s.after.current_fiber == Some(s.fiber),
        s.before.running().fiber(s.fiber) matches Some(was) && s.after.stack@ == was.stack.push(
            if p is FiberTryValue || p is FiberCallValue || p is FiberTransferValue {
                s.before.stack@[s.at + 1]
            } else {
                Value::null()
            },
        ),
{
    lemma_switched(s, p);
}

/// A fiber that was called remembers who called it, and one that was
/// transferred to does not.
pub proof fn law_transferring_leaves_the_caller(s: Switching, p: Primitive)
    requires
        p is FiberTransfer || p is FiberTransferValue || p is FiberCall || p is FiberCallValue,
        s.came_of(p),
    ensures
        s.after.running().fiber(s.fiber) matches Some(fiber) && if p is FiberCall
            || p is FiberCallValue {
            fiber.caller == Some(s.caller)
        } else {
            s.before.running().fiber(s.fiber) matches Some(was) && fiber.caller == was.caller
        },
{
    lemma_switched(s, p);
}

/// Yielding goes back to the fiber that called: it has its stack again, with
/// what was yielded as what its call gave, and the fiber that yielded is put
/// aside where it was.
pub proof fn law_yielding_goes_back(s: Switching, p: Primitive)
    requires
        p is FiberYield || p is FiberYieldValue,
        super::perform::performed(
            &s.before,
            &s.asked,
            p,
            s.at,
            ReplyModel::Done(Ok(s.given)),
        ),
        s.at + (if p is FiberYieldValue {
            1int
        } else {
            0
        }) < s.before.stack@.len(),
        s.runs_caller(),
        s.leads(),
        s.before.running().fiber(s.caller)->0.caller == Some(s.fiber),
        s.caller != s.fiber,
        s.before.running().fiber(s.fiber) matches Some(was) ==> was.frames.len() > 0,
    ensures
        s.after.current_fiber == Some(s.fiber),
        s.before.running().fiber(s.fiber) matches Some(was) && s.after.stack@ == was.stack.push(
            if p is FiberYieldValue {
                s.before.stack@[s.at + 1]
            } else {
                Value::null()
            },
        ),
        s.after.running().fiber(s.caller) matches Some(caller) && !caller.done && caller.stack
            == s.before.stack@.take(s.at as int) && caller.frames.last().ip == s.run.ip,
{
    broadcast use crate::value::law_object_round_trip;

    crate::handle::lemma_parts_determine(s.fiber);
    crate::handle::lemma_parts_determine(s.caller);
    let switch = s.asked.pending_switch->0;
    let (mid, left, r, to) = choose|
        mid: Vm,
        left: Vm,
        r: Result<(), RuntimeError>,
        to: Result<crate::vm::fibers::Landing, RuntimeError>,
    | #[trigger]
        s.after.switched_over(
            &s.asked,
            mid,
            left,
            r,
            to,
            s.at,
            switch,
            s.line,
            s.run,
            s.next,
            Outcome::Jumped,
        );
    assert(s.after.running().fibers =~= left.running().fibers);
}

/// A fiber whose function returns is done, and goes back to the fiber that
/// called it: that one has its stack again, with what was returned as what its
/// call gave.
pub proof fn law_returning_from_a_fiber_goes_back(
    before: Vm,
    after: Vm,
    run: Run,
    next: Run,
    outcome: Outcome,
    fiber: ObjectId,
    caller: ObjectId,
)
    requires
        after.did_return(&before, crate::bytecode::Op::Return, run, next, outcome),
        outcome is Jumped,
        before.current_fiber == Some(fiber),
        before.running().fiber(fiber) matches Some(it) && it.caller == Some(caller),
        fiber != caller,
        before.running().fiber(caller) matches Some(was) && !was.done && was.frames.len() > 0,
        before.frames@.len() == 1,
        before.stack@.len() > 0,
    ensures
        after.current_fiber == Some(caller),
        before.running().fiber(caller) matches Some(was) && after.stack@ == was.stack.push(
            before.stack@.last(),
        ),
        after.running().fiber(fiber) matches Some(it) && it.done,
{
    broadcast use crate::value::law_object_round_trip;

    crate::handle::lemma_parts_determine(fiber);
    crate::handle::lemma_parts_determine(caller);
    let value = before.stack@.last();
    let ip = run.ip + 1;
    let (top, closed, mid, left, r, to) = choose|
        top: Vm,
        closed: Vm,
        mid: Vm,
        left: Vm,
        r: Result<(), RuntimeError>,
        to: Result<crate::vm::fibers::Landing, RuntimeError>,
    | #[trigger]
        after.return_step(
            &before,
            value,
            true,
            ip,
            top,
            closed,
            mid,
            left,
            r,
            to,
            run,
            next,
            outcome,
        );
    assert(mid.frames@.len() == 0);
    assert(mid.heap@.fibers == before.heap@.fibers);
    assert(mid.running().fibers =~= before.running().fibers);
    assert(mid.running().fiber(fiber) == before.running().fiber(fiber));
    assert(mid.running().fiber(caller) == before.running().fiber(caller));
    assert(after.running().fibers =~= left.running().fibers);
}

} // verus!
