//! Fetching instructions and carrying them out.

use std::rc::Rc;

use vstd::prelude::*;

use super::objects;
use super::super::calls::bad_opcode;
use super::super::Vm;
use super::{Outcome, Run};
use crate::bytecode::{Chunk, Op};
use crate::value::Value;

verus! {

/// Whether running goes on after an outcome without anything from outside.
pub open spec fn goes_on(outcome: Outcome) -> bool {
    outcome is Next || outcome is Jumped
}

impl Vm {
    /// Where running the frame on top begins.
    pub fn begin(&self, chunk: Rc<Chunk>, floor: usize) -> (run: Run)
        requires
            self.wf(),
        ensures
            run == (Run {
                chunk,
                ip: if self.frames@.len() > 0 {
                    self.frames@.last().ip
                } else {
                    0
                },
                base: if self.frames@.len() > 0 {
                    self.frames@.last().base
                } else {
                    0
                },
                module: self.spec_current_module(),
                floor,
            }),
    {
        let module: usize = self.current_module();
        let depth: usize = self.frames.len();
        if depth > 0 {
            let frame = &self.frames[depth - 1];
            Run { chunk, ip: frame.ip, base: frame.base, module, floor }
        } else {
            Run { chunk, ip: 0, base: 0, module, floor }
        }
    }

    /// Whether a machine is an earlier one after an instruction.
    pub open spec fn did(
        &self,
        before: &Vm,
        op: Op,
        run: Run,
        next: Run,
        outcome: Outcome,
    ) -> bool {
        match op {
            Op::StoreModuleVar => self.did_store_module(before, run, next, outcome),
            Op::StoreUpvalue => self.did_store_upvalue(before, run, next, outcome),
            Op::CloseUpvalue => self.did_close_upvalue(before, run, next, outcome),
            Op::Closure => self.did_closure(before, run, next, outcome),
            Op::Class => self.did_class(before, run, next, outcome),
            Op::MethodInstance => self.did_method(before, false, run, next, outcome),
            Op::MethodStatic => self.did_method(before, true, run, next, outcome),
            Op::StoreFieldThis => self.did_store_this(before, run, next, outcome),
            Op::StoreFieldThisPop => self.did_store_this_pop(before, run, next, outcome),
            Op::StoreField => self.did_store_field(before, run, next, outcome),
            Op::Construct => self.did_construct(before, run, next, outcome),
            Op::StoreStaticField => self.did_store_static(before, run, next, outcome),
            Op::SetAttributes => {
                &&& outcome is Next
                &&& next == run.moved(run.ip + 1)
                &&& self.attributes_set(before)
            },
            Op::ImportVariable => self.did_import_variable(before, run, next, outcome),
            Op::ImportModule => self.did_import(before, run, next, outcome),
            Op::Call | Op::Super => self.did_call(before, op, run, next, outcome),
            Op::Return | Op::End | Op::LoadLocalReturn | Op::LoadFieldThisReturn => self.did_return(
                before,
                op,
                run,
                next,
                outcome,
            ),
            _ => self.did_stack(before, op, run, next, outcome),
        }
    }

    /// Whether the heap has room for all that an instruction may make: a closure
    /// and an upvalue for each variable it captures, a class with its metaclass
    /// and a name for that, an instance, or a place for fields that grew.
    pub open spec fn has_room_for(&self, op: Op, run: Run) -> bool {
        match op {
            Op::Closure => self.heap.has_slots(run.operand() + 1),
            Op::Class => self.heap.has_slots(3),
            Op::StoreFieldThis | Op::StoreFieldThisPop => match super::local(
                self.stack@,
                run.base as int,
                0,
            ) {
                Some(receiver) => self.can_set(receiver, run.operand()),
                None => true,
            },
            Op::StoreField => self.can_set(
                super::super::fields::from_top(self.stack@, 1),
                run.operand(),
            ),
            Op::Construct => self.heap.has_room(1),
            _ => true,
        }
    }

    /// Whether the heap has room for all that an instruction may make.
    fn fits_for(&self, op: Op, run: &Run) -> (r: bool)
        requires
            self.wf(),
            run.within(run.ip as int),
        ensures
            r == self.has_room_for(op, *run),
    {
        let operand: usize = Chunk::inline_operand(run.chunk.code[run.ip]) as usize;
        match op {
            Op::Closure => self.heap.fits_objects(operand + 1),
            Op::Class => self.heap.fits_objects(3),
            Op::StoreFieldThis | Op::StoreFieldThisPop => match self.local_at(run, 0) {
                Some(receiver) => self.fits_set(receiver, operand),
                None => true,
            },
            Op::StoreField => {
                let depth: usize = self.stack.len();
                let receiver: Value = if depth >= 2 {
                    self.stack[depth - 2]
                } else {
                    Value::null()
                };
                proof {
                    assert(receiver == super::super::fields::from_top(self.stack@, 1));
                }
                self.fits_set(receiver, operand)
            },
            Op::Construct => self.heap.fits_more(1),
            _ => true,
        }
    }

    /// Whether a machine is an earlier one after the instruction its run was
    /// at.
    pub open spec fn instructed(&self, before: &Vm, run: Run, next: Run, outcome: Outcome) -> bool {
        if !run.within(run.ip as int) {
            objects::refused(*before, *self, run, next, outcome)
        } else {
            let byte = crate::bytecode::unit_opcode(run.unit(run.ip as int));
            match Op::spec_from_byte(byte) {
                Some(op) => if before.has_room_for(op, run) {
                    self.did(before, op, run, next, outcome)
                } else {
                    outcome is Exhausted && *self == *before && next == run
                },
                None => {
                    &&& outcome matches Outcome::Failed(error)
                    &&& error.message@ == "bad opcode "@ + crate::text::decimal(byte as nat)
                    &&& run.on_line(error.line)
                    &&& *self == *before
                    &&& next == run
                },
            }
        }
    }

    /// Carry out an instruction.
    fn carry_out(&mut self, run: &mut Run, op: Op) -> (outcome: Outcome)
        requires
            old(self).wf(),
            old(run).within(old(run).ip as int),
            old(self).has_room_for(op, *old(run)),
        ensures
            final(self).wf(),
            final(self).did(old(self), op, *old(run), *final(run), outcome),
    {
        match op {
            Op::StoreModuleVar => self.do_store_module(run),
            Op::StoreUpvalue => self.do_store_upvalue(run),
            Op::CloseUpvalue => self.do_close_upvalue(run),
            Op::Closure => self.do_closure(run),
            Op::Class => self.do_class(run),
            Op::MethodInstance => self.do_method(run, false),
            Op::MethodStatic => self.do_method(run, true),
            Op::StoreFieldThis => self.do_store_this(run),
            Op::StoreFieldThisPop => self.do_store_this_pop(run),
            Op::StoreField => self.do_store_field(run),
            Op::Construct => self.do_construct(run),
            Op::StoreStaticField => self.do_store_static(run),
            Op::SetAttributes => {
                let size: usize = run.chunk.code.len();
                self.set_attributes();
                run.ip = run.ip + 1;
                Outcome::Next
            },
            Op::ImportVariable => self.do_import_variable(run),
            Op::ImportModule => self.do_import(run),
            Op::Call | Op::Super => self.do_call(run, op),
            Op::Return | Op::End | Op::LoadLocalReturn | Op::LoadFieldThisReturn => {
                self.do_return(run, op)
            },
            _ => self.do_stack(run, op),
        }
    }

    /// Fetch an instruction and carry it out.
    pub fn instruct(&mut self, run: &mut Run) -> (outcome: Outcome)
        requires
            old(self).wf(),
        ensures
            final(self).wf(),
            final(self).instructed(old(self), *old(run), *final(run), outcome),
    {
        if run.ip >= run.chunk.code.len() {
            return Outcome::Malformed;
        }
        let unit: u16 = run.chunk.code[run.ip];
        let byte: u8 = Chunk::opcode_of(unit);
        match Op::from_byte(byte) {
            Some(op) => {
                if !self.fits_for(op, run) {
                    return Outcome::Exhausted;
                }
                self.carry_out(run, op)
            },
            None => {
                let line: u16 = run.chunk.line_at(run.ip);
                Outcome::Failed(bad_opcode(byte, line))
            },
        }
    }

    /// Whether a machine is an earlier one after an instruction, and after
    /// collecting if it was time to.
    pub open spec fn stepped(&self, before: &Vm, run: Run, next: Run, outcome: Outcome) -> bool {
        exists|mid: Vm| #[trigger]
            mid.instructed(before, run, next, outcome) && if outcome is Next {
                self.collected_at(&mid, next.ip)
            } else {
                *self == mid
            }
    }

    /// Carry out an instruction, and collect if it is time to.
    pub fn step(&mut self, run: &mut Run) -> (outcome: Outcome)
        requires
            old(self).wf(),
        ensures
            final(self).wf(),
            final(self).stepped(old(self), *old(run), *final(run), outcome),
    {
        let ghost before = *self;
        let ghost start = *run;
        let outcome = self.instruct(run);
        let ghost mid = *self;
        if matches!(outcome, Outcome::Next) {
            self.collect_point(run.ip);
        }
        proof {
            assert(mid.instructed(&before, start, *run, outcome));
        }
        outcome
    }

    /// Whether a machine is an earlier one after so many instructions, or
    /// after fewer if one of them did not let running go on.
    pub open spec fn ran(
        &self,
        before: &Vm,
        steps: nat,
        run: Run,
        next: Run,
        outcome: Outcome,
    ) -> bool
        decreases steps,
    {
        if steps == 0 {
            *self == *before && next == run && outcome is Next
        } else {
            exists|mid: Vm, at: Run, first: Outcome| #[trigger]
                mid.stepped(before, run, at, first) && if goes_on(first) {
                    self.ran(&mid, (steps - 1) as nat, at, next, outcome)
                } else {
                    *self == mid && next == at && outcome == first
                }
        }
    }

    /// Carry out so many instructions, or fewer if one of them does not let
    /// running go on.
    pub fn run_steps(&mut self, run: &mut Run, steps: usize) -> (outcome: Outcome)
        requires
            old(self).wf(),
        ensures
            final(self).wf(),
            final(self).ran(old(self), steps as nat, *old(run), *final(run), outcome),
    {
        let ghost before = *self;
        let ghost start = *run;
        let mut left: usize = steps;
        while left > 0
            invariant
                before == *old(self),
                start == *old(run),
                self.wf(),
                left <= steps,
                forall|after: Vm, next: Run, outcome: Outcome| #[trigger]
                    after.ran(self, left as nat, *run, next, outcome) ==> after.ran(
                        &before,
                        steps as nat,
                        start,
                        next,
                        outcome,
                    ),
            decreases left,
        {
            let ghost mid = *self;
            let ghost at = *run;
            let outcome = self.step(run);
            let on: bool = matches!(outcome, Outcome::Next | Outcome::Jumped);
            proof {
                assert(self.stepped(&mid, at, *run, outcome));
                assert(on == goes_on(outcome));
            }
            if !on {
                proof {
                    assert(self.ran(&mid, left as nat, at, *run, outcome));
                }
                return outcome;
            }
            left = left - 1;
            proof {
                assert forall|after: Vm, next: Run, last: Outcome| #[trigger]
                    after.ran(self, left as nat, *run, next, last) implies after.ran(
                    &before,
                    steps as nat,
                    start,
                    next,
                    last,
                ) by {
                    assert(((left + 1) as nat - 1) as nat == left as nat);
                    assert(after.ran(&mid, (left + 1) as nat, at, next, last));
                }
            }
        }
        proof {
            assert(self.ran(self, 0, *run, *run, Outcome::Next));
        }
        Outcome::Next
    }
}

} // verus!
