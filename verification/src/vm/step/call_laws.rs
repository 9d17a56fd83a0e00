//! What holds of calling and returning together, and of instructions that stand
//! for two.

use vstd::prelude::*;

use super::returning::Returned;
use super::{Outcome, Run};
use super::super::Vm;
use crate::bytecode::Op;
use crate::handle::ObjectId;
use crate::value::Value;

verus! {

/// A machine before and after an instruction.
pub struct Move {
    pub before: Vm,
    pub after: Vm,
    pub run: Run,
    pub next: Run,
    pub outcome: Outcome,
}

impl Move {
    /// Where the receiver of a call is on the stack.
    pub open spec fn receiver_at(self) -> int {
        self.before.stack@.len() - self.run.operand() - 1
    }

    /// Whether a method of the receiver's class was called, one that was
    /// written in the language, with as many arguments as it takes.
    pub open spec fn calls(self, closure: ObjectId) -> bool {
        let class = self.before.spec_class_of(self.before.stack@[self.receiver_at()]);
        let symbol = self.run.unit(self.run.ip + 1) as int;
        &&& self.after.did_call(&self.before, Op::Call, self.run, self.next, self.outcome)
        &&& self.run.within(self.run.ip + 1)
        &&& self.receiver_at() >= 0
        &&& super::calling::arithmetic_of(self.before, self.run, Op::Call) is None
        &&& class is Some
        &&& self.before.spec_find_method(class->0, symbol) == Some(
            crate::object::Method::Closure(closure),
        )
        &&& self.before.spec_function_of(closure) matches Some(function)
        &&& function.arity == self.run.operand()
        &&& 0 < self.before.frames@.len() < super::super::MAX_FRAMES
    }
}

/// A method that is called finds its receiver and its arguments in its first
/// locals, in order, and runs from the start of its own code.
pub proof fn law_call_binds_receiver_and_arguments(call: Move, closure: ObjectId)
    requires
        call.calls(closure),
    ensures
        call.outcome is Next,
        call.next.ip == 0,
        call.next.chunk == call.before.spec_function_of(closure)->0.chunk,
        call.next.module == call.before.spec_function_of(closure)->0.module,
        call.after.stack@ == call.before.stack@,
        super::local(call.after.stack@, call.next.base as int, 0) == Some(
            call.before.stack@[call.receiver_at()],
        ),
        forall|i: int|
            1 <= i <= call.run.operand() ==> #[trigger] super::local(
                call.after.stack@,
                call.next.base as int,
                i,
            ) == Some(call.before.stack@[call.receiver_at() + i]),
        call.next.base + call.run.operand() + 1 == call.after.stack@.len(),
        call.after.frames@.len() == call.before.frames@.len() + 1,
        call.after.frames@.last().closure == closure,
{
    assert(call.before.stack@.len() == call.before.stack.len());
}

/// Calling with the wrong number of arguments fails, and nothing is called.
pub proof fn law_wrong_arity_fails(call: Move, closure: ObjectId)
    requires
        call.after.entered(&call.before, closure, call.run, call.next, call.outcome),
        call.before.spec_function_of(closure) matches Some(function)
            && function.arity != call.run.operand(),
    ensures
        call.outcome is Failed,
        call.after == call.before,
{
}

/// What a return instruction hands back.
pub open spec fn handed_back(vm: Vm, op: Op, run: Run) -> Value {
    match op {
        Op::Return => vm.stack@.last(),
        Op::LoadLocalReturn => vm.stack@[run.base + run.operand()],
        _ => Value::null(),
    }
}

/// A call comes to what its method returns. Where a method returns, and what it
/// called has returned before, the caller goes on behind the call with what was
/// returned in place of the receiver and the arguments; the rest of its stack
/// is as it was.
pub proof fn law_call_comes_to_what_was_returned(
    call: Move,
    closure: ObjectId,
    back: Move,
    op: Op,
)
    requires
        call.calls(closure),
        call.before.frames@.last().base == call.run.base,
        call.before.frames@.last().module == call.run.module,
        op is Return || op is End || op is LoadLocalReturn,
        back.after.did_return(&back.before, op, back.run, back.next, back.outcome),
        back.before.frames@.len() == call.after.frames@.len(),
        back.before.frames@.drop_last() == call.after.frames@.drop_last(),
        back.run.base == call.next.base,
        back.run.floor == call.run.floor,
        call.before.frames@.len() > call.run.floor,
        back.before.stack@.len() > back.run.base,
        back.before.stack@.take(back.run.base as int) == call.before.stack@.take(
            call.receiver_at(),
        ),
        op is LoadLocalReturn ==> back.run.within(back.run.ip + 1) && back.run.base
            + back.run.operand() < back.before.stack@.len(),
    ensures
        back.outcome is Next,
        back.next == (Run { ip: (call.run.ip + 2) as usize, ..call.run }),
        back.after.stack@ == call.before.stack@.take(call.receiver_at()).push(
            handed_back(back.before, op, back.run),
        ),
        back.after.frames@.len() == call.before.frames@.len(),
        back.after.frames@.last().closure == call.before.frames@.last().closure,
{
    law_call_binds_receiver_and_arguments(call, closure);
    let base = back.run.base as int;
    let stack = back.before.stack@;
    match back.before.returned(op, back.run) {
        Returned::Gives { value, popped, ip } => {
            assert(value == handed_back(back.before, op, back.run));
            let (top, closed, mid, left, r, to) = choose|
                top: Vm,
                closed: Vm,
                mid: Vm,
                left: Vm,
                r: Result<(), super::super::RuntimeError>,
                to: Result<super::super::fibers::Landing, super::super::RuntimeError>,
            | #[trigger]
                back.after.return_step(
                    &back.before,
                    value,
                    popped,
                    ip,
                    top,
                    closed,
                    mid,
                    left,
                    r,
                    to,
                    back.run,
                    back.next,
                    back.outcome,
                );
            assert(closed.stack@ == top.stack@);
            assert(top.stack@.take(base) =~= stack.take(base));
            assert(mid.stack@ =~= stack.take(base));
            let frames = call.after.frames@.drop_last();
            assert(mid.frames@ == frames);
            assert(frames =~= call.before.running().stopped(
                (call.run.ip + 2) as usize,
                call.run.chunk,
            ));
            assert(left.frames@ == frames);
            assert(frames.last().chunk == Some(call.run.chunk));
        },
        _ => {},
    }
}

/// Two instructions carried out one after the other, and the one that stands for
/// both in code where they are fused.
pub struct Fused {
    pub first: Move,
    pub second: Move,
    pub both: Move,
}

impl Fused {
    /// The code in which the two are apart.
    pub open spec fn code(self) -> Seq<u16> {
        self.first.run.chunk.code@
    }

    /// The instruction at a place in it.
    pub open spec fn op(self, at: int) -> Option<Op> {
        Op::spec_from_byte(crate::bytecode::unit_opcode(self.code()[at]))
    }

    /// The one that stands for both.
    pub open spec fn joint(self) -> Option<Op> {
        let ip = self.first.run.ip as int;
        crate::bytecode::fused_pair(self.code()[ip], self.code()[ip + 1])
    }

    /// Whether the two were carried out one after the other, and in another run
    /// of the same machine the one that stands for both.
    pub open spec fn holds(self) -> bool {
        let ip = self.first.run.ip as int;
        &&& 0 <= ip
        &&& ip + 1 < self.code().len()
        &&& crate::bytecode::unit_span(self.code()[ip]) == 1
        &&& self.joint() is Some
        &&& self.both.run.chunk.code@ == crate::bytecode::fusion::fuse_one(
            self.code(),
            ip,
            self.joint()->0,
        )
        &&& self.both.run.chunk.constants@ == self.first.run.chunk.constants@
        &&& self.both.run == (Run { chunk: self.both.run.chunk, ..self.first.run })
        &&& self.both.before == self.first.before
        &&& self.second.before == self.first.after
        &&& self.second.run == self.first.next
        &&& self.first.outcome is Next
        &&& self.first.after.did(
            &self.first.before,
            self.op(ip)->0,
            self.first.run,
            self.first.next,
            self.first.outcome,
        )
        &&& self.second.after.did(
            &self.second.before,
            self.op(ip + 1)->0,
            self.second.run,
            self.second.next,
            self.second.outcome,
        )
        &&& self.both.after.did(
            &self.both.before,
            self.joint()->0,
            self.both.run,
            self.both.next,
            self.both.outcome,
        )
    }
}

/// Where fused code reads what the code reads that it came of.
proof fn lemma_fused_reads(fused: Fused)
    requires
        fused.holds(),
    ensures
        fused.both.run.operand() == fused.first.run.operand(),
        fused.both.run.chunk.code@.len() == fused.code().len(),
        forall|i: int|
            0 <= i < fused.code().len() && i != fused.first.run.ip ==> #[trigger] fused.both.run.unit(
                i,
            ) == fused.code()[i],
{
    let ip = fused.first.run.ip as int;
    let op = fused.joint()->0;
    crate::bytecode::law_opcode_round_trip(op);
    crate::bytecode::fusion::lemma_unit_parts(
        op.spec_byte(),
        crate::bytecode::length_field(
            crate::bytecode::unit_span(fused.code()[ip]) + crate::bytecode::unit_span(
                fused.code()[ip + 1],
            ),
        ),
        crate::bytecode::unit_operand(fused.code()[ip]),
    );
    assert(fused.both.run.chunk.code@.len() == fused.both.run.chunk.code.len());
}

/// Two loads that are fused leave the stack as the two do, and go on where the
/// second does.
pub proof fn law_fused_loads_do_both(fused: Fused)
    requires
        fused.holds(),
        fused.op(fused.first.run.ip as int) == Some(Op::LoadLocal),
        fused.op(fused.first.run.ip + 1) == Some(Op::LoadLocal) || fused.op(
            fused.first.run.ip + 1,
        ) == Some(Op::Constant),
        fused.second.outcome is Next,
        fused.op(fused.first.run.ip + 1) == Some(Op::LoadLocal) ==> fused.second.run.base
            + fused.second.run.operand() < fused.first.before.stack@.len(),
    ensures
        fused.both.outcome is Next,
        fused.both.after.stack@ == fused.second.after.stack@,
        fused.both.next.ip == fused.second.next.ip,
{
    lemma_fused_reads(fused);
    assert(fused.first.run.chunk.code@.len() == fused.first.run.chunk.code.len());
}

/// A load and a return that are fused hand back what the two hand back.
pub proof fn law_fused_returns_hand_back_the_same(fused: Fused)
    requires
        fused.holds(),
        fused.op(fused.first.run.ip as int) == Some(Op::LoadLocal) || fused.op(
            fused.first.run.ip as int,
        ) == Some(Op::LoadFieldThis),
        fused.op(fused.first.run.ip + 1) == Some(Op::Return),
    ensures
        ({
            let apart = fused.second.before.returned(Op::Return, fused.second.run);
            let joined = fused.both.before.returned(fused.joint()->0, fused.both.run);
            &&& apart is Gives && joined is Gives
            &&& apart->value == joined->value
            &&& apart->Gives_ip == joined->Gives_ip
            &&& fused.second.before.stack@.drop_last() == fused.both.before.stack@
        }),
{
    lemma_fused_reads(fused);
    assert(fused.first.run.chunk.code@.len() == fused.first.run.chunk.code.len());
    assert(fused.second.before.stack@.drop_last() =~= fused.both.before.stack@);
}

/// A store to a field and a drop that are fused leave the stack and what the
/// objects hold as the two do.
pub proof fn law_fused_store_does_both(fused: Fused)
    requires
        fused.holds(),
        fused.op(fused.first.run.ip as int) == Some(Op::StoreFieldThis),
        fused.op(fused.first.run.ip + 1) == Some(Op::Pop),
        fused.first.run.base + 1 < fused.first.before.stack@.len(),
    ensures
        fused.both.outcome is Next,
        fused.both.after.stack@ == fused.second.after.stack@,
        fused.both.after.heap@ == fused.second.after.heap@,
        fused.both.next.ip == fused.second.next.ip,
{
    lemma_fused_reads(fused);
    assert(fused.first.run.chunk.code@.len() == fused.first.run.chunk.code.len());
}

} // verus!
