//! Returning from a call: to its caller, to the fiber that resumed this one,
//! or out of the run.

use vstd::prelude::*;

use super::objects;
use super::calling;
use super::super::fields;
use super::super::fibers::Landing;
use super::super::{RuntimeError, Switch, Vm};
use super::{Outcome, Run};
use crate::bytecode::{Chunk, Op};
use crate::handle::ObjectId;
use crate::value::Value;

verus! {

/// What a call is left with.
pub enum Returned {
    /// The instruction refers to what is not there.
    Malformed,
    /// What was to be returned cannot be read.
    Fails(Seq<char>),
    /// This value, taken off the stack or not, and the instruction after.
    Gives { value: Value, popped: bool, ip: int },
}

/// Going back to the fiber that resumed this one, with a value.
pub open spec fn back_to(caller: ObjectId, value: Value) -> Switch {
    Switch {
        target: caller,
        value,
        set_caller: false,
        catching: false,
        finishing: true,
        as_error: false,
    }
}

impl Vm {
    /// What a return instruction leaves a call with.
    pub open spec fn returned(&self, op: Op, run: Run) -> Returned {
        let ip = run.ip as int;
        match op {
            Op::End => Returned::Gives { value: Value::null(), popped: false, ip: ip + 1 },
            Op::Return => Returned::Gives {
                value: fields::from_top(self.stack@, 0),
                popped: true,
                ip: ip + 1,
            },
            Op::LoadLocalReturn => match super::local(
                self.stack@,
                run.base as int,
                run.operand(),
            ) {
                Some(value) => if run.within(ip + 1) {
                    Returned::Gives { value, popped: false, ip: ip + 2 }
                } else {
                    Returned::Malformed
                },
                None => Returned::Malformed,
            },
            _ => match super::local(self.stack@, run.base as int, 0) {
                Some(receiver) => if run.within(ip + 1) {
                    match self.spec_field(receiver, run.operand()) {
                        Ok(value) => Returned::Gives { value, popped: false, ip: ip + 2 },
                        Err(message) => Returned::Fails(message),
                    }
                } else {
                    Returned::Malformed
                },
                None => Returned::Malformed,
            },
        }
    }

    /// Whether a machine is an earlier one with a call's variables closed over
    /// and off the stack, and its frame gone.
    pub open spec fn unwound(&self, before: &Vm, popped: bool, base: usize, top: Vm, closed: Vm) -> bool {
        &&& top.only_stack(
            before,
            if popped {
                fields::dropped(before.stack@, 1)
            } else {
                before.stack@
            },
        )
        &&& closed.closed_upvalues(&top, base)
        &&& *self == (Vm { stack: self.stack, frames: self.frames, ..closed })
        &&& self.stack@ == if base < closed.stack@.len() {
            closed.stack@.take(base as int)
        } else {
            closed.stack@
        }
        &&& self.frames@ == if closed.frames@.len() > 0 {
            closed.frames@.drop_last()
        } else {
            closed.frames@
        }
    }

    /// The fiber that resumed the running one.
    pub open spec fn resumer(&self) -> Option<ObjectId> {
        match self.current_fiber {
            Some(id) => match self.heap@.fiber(id) {
                Some(fiber) => fiber.caller,
                None => None,
            },
            None => None,
        }
    }

    /// The fiber that resumed the running one.
    fn find_resumer(&self) -> (r: Option<ObjectId>)
        requires
            self.wf(),
        ensures
            r == self.resumer(),
    {
        match self.current_fiber {
            Some(id) => match self.heap.fiber(id) {
                Some(fiber) => fiber.caller,
                None => None,
            },
            None => None,
        }
    }

    /// Whether a machine is an earlier one, its call unwound, gone on with the
    /// value: in the caller, in the fiber that resumed this one, or not here.
    pub open spec fn gone_back(
        &self,
        before: &Vm,
        value: Value,
        ip: usize,
        left: Vm,
        r: Result<(), RuntimeError>,
        to: Result<Landing, RuntimeError>,
        run: Run,
        next: Run,
        outcome: Outcome,
    ) -> bool {
        if before.frames@.len() > run.floor {
            &&& left.only_stack(before, before.stack@.push(value))
            &&& self.took_off(&left, to)
            &&& match to {
                Err(error) => outcome == Outcome::Failed(error) && next == run,
                Ok(landing) => outcome is Next && next == calling::landed_at(run, landing),
            }
        } else if before.frames@.len() == 0 && before.resumer() is Some {
            &&& left.performed(before, back_to(before.resumer()->0, value), ip, run.chunk, r)
            &&& match r {
                Err(error) => outcome == Outcome::Failed(error) && *self == left && next == run,
                Ok(_) => {
                    &&& self.took_off(&left, to)
                    &&& match to {
                        Err(error) => outcome == Outcome::Failed(error) && next == run,
                        Ok(landing) => outcome is Jumped && next == calling::landed_at(run, landing),
                    }
                },
            }
        } else {
            &&& outcome == Outcome::Finished(value)
            &&& next == run
            &&& if before.frames@.len() == 0 {
                &&& self.only_fibers(before)
                &&& self.running() == before.running().finished(before.current_fiber)
            } else {
                *self == *before
            }
        }
    }

    /// How a return comes about.
    pub open spec fn return_step(
        &self,
        before: &Vm,
        value: Value,
        popped: bool,
        ip: int,
        top: Vm,
        closed: Vm,
        mid: Vm,
        left: Vm,
        r: Result<(), RuntimeError>,
        to: Result<Landing, RuntimeError>,
        run: Run,
        next: Run,
        outcome: Outcome,
    ) -> bool {
        &&& mid.unwound(before, popped, run.base, top, closed)
        &&& self.gone_back(&mid, value, ip as usize, left, r, to, run, next, outcome)
    }

    /// Whether a machine is an earlier one after a return instruction.
    pub open spec fn did_return(
        &self,
        before: &Vm,
        op: Op,
        run: Run,
        next: Run,
        outcome: Outcome,
    ) -> bool {
        match before.returned(op, run) {
            Returned::Malformed => objects::refused(*before, *self, run, next, outcome),
            Returned::Fails(message) => {
                &&& outcome matches Outcome::Failed(error)
                &&& error.message@ == message
                &&& error.line == 0
                &&& *self == *before
                &&& next == run
            },
            Returned::Gives { value, popped, ip } => exists|
                top: Vm,
                closed: Vm,
                mid: Vm,
                left: Vm,
                r: Result<(), RuntimeError>,
                to: Result<Landing, RuntimeError>,
            | #[trigger]
                self.return_step(
                    before,
                    value,
                    popped,
                    ip,
                    top,
                    closed,
                    mid,
                    left,
                    r,
                    to,
                    run,
                    next,
                    outcome,
                ),
        }
    }

    /// Go on with the value of a call that is unwound.
    fn go_back(&mut self, run: &mut Run, value: Value, ip: usize) -> (outcome: Outcome)
        requires
            old(self).wf(),
        ensures
            final(self).wf(),
            exists|left: Vm, r: Result<(), RuntimeError>, to: Result<Landing, RuntimeError>|
                #[trigger]
                final(self).gone_back(
                    old(self),
                    value,
                    ip,
                    left,
                    r,
                    to,
                    *old(run),
                    *final(run),
                    outcome,
                ),
    {
        let ghost before = *self;
        let ghost start = *run;
        let ghost nothing = Ok::<(), RuntimeError>(());
        let ghost nowhere = Err::<Landing, RuntimeError>(arbitrary());
        let depth: usize = self.frames.len();
        if depth > run.floor {
            self.stack.push(value);
            let ghost left = *self;
            let landed = self.land();
            let ghost to = landed;
            let went = Vm::go_to(run, landed);
            let outcome = match went {
                Outcome::Jumped => Outcome::Next,
                other => other,
            };
            proof {
                assert(self.gone_back(
                    &before,
                    value,
                    ip,
                    left,
                    nothing,
                    to,
                    start,
                    *run,
                    outcome,
                ));
            }
            return outcome;
        }
        if depth == 0 {
            match self.find_resumer() {
                Some(caller) => {
                    let switch = Switch {
                        target: caller,
                        value,
                        set_caller: false,
                        catching: false,
                        finishing: true,
                        as_error: false,
                    };
                    let chunk = super::super::lookup::share(&run.chunk);
                    let performed = self.perform_switch(switch, ip, chunk);
                    let ghost left = *self;
                    let ghost r = performed;
                    match performed {
                        Err(error) => {
                            proof {
                                assert(self.gone_back(
                                    &before,
                                    value,
                                    ip,
                                    left,
                                    r,
                                    nowhere,
                                    start,
                                    *run,
                                    Outcome::Failed(error),
                                ));
                            }
                            return Outcome::Failed(error);
                        },
                        Ok(_) => {
                            let landed = self.land();
                            let ghost to = landed;
                            let outcome = Vm::go_to(run, landed);
                            proof {
                                assert(self.gone_back(
                                    &before,
                                    value,
                                    ip,
                                    left,
                                    r,
                                    to,
                                    start,
                                    *run,
                                    outcome,
                                ));
                            }
                            return outcome;
                        },
                    }
                },
                None => {},
            }
            self.finish_fiber(self.current_fiber);
        }
        proof {
            assert(self.gone_back(
                &before,
                value,
                ip,
                before,
                nothing,
                nowhere,
                start,
                *run,
                Outcome::Finished(value),
            ));
        }
        Outcome::Finished(value)
    }

    /// Return from a call.
    pub fn do_return(&mut self, run: &mut Run, op: Op) -> (outcome: Outcome)
        requires
            old(self).wf(),
            old(run).within(old(run).ip as int),
            op is Return || op is End || op is LoadLocalReturn || op is LoadFieldThisReturn,
        ensures
            final(self).wf(),
            final(self).did_return(old(self), op, *old(run), *final(run), outcome),
    {
        let ghost before = *self;
        let ghost start = *run;
        let size: usize = run.chunk.code.len();
        let operand: usize = Chunk::inline_operand(run.chunk.code[run.ip]) as usize;
        let mut ip: usize = run.ip + 1;
        let mut popped: bool = false;
        let value: Value = match op {
            Op::End => Value::null(),
            Op::Return => {
                popped = true;
                self.take_top()
            },
            Op::LoadLocalReturn => {
                if ip >= size {
                    return Outcome::Malformed;
                }
                ip = ip + 1;
                match self.local_at(run, operand) {
                    Some(value) => value,
                    None => {
                        return Outcome::Malformed;
                    },
                }
            },
            _ => {
                if ip >= size {
                    return Outcome::Malformed;
                }
                ip = ip + 1;
                match self.local_at(run, 0) {
                    Some(receiver) => match self.field_of(receiver, operand) {
                        Ok(value) => value,
                        Err(error) => {
                            return Outcome::Failed(error);
                        },
                    },
                    None => {
                        return Outcome::Malformed;
                    },
                }
            },
        };
        let ghost top = *self;
        self.close_upvalues(run.base);
        let ghost closed = *self;
        self.stack.truncate(run.base);
        let _ = self.frames.pop();
        let ghost mid = *self;
        proof {
            assert(mid.stack@ =~= if start.base < closed.stack@.len() {
                closed.stack@.take(start.base as int)
            } else {
                closed.stack@
            });
            assert(mid.frames@ =~= if closed.frames@.len() > 0 {
                closed.frames@.drop_last()
            } else {
                closed.frames@
            });
            assert(mid.unwound(&before, popped, start.base, top, closed));
            assert(before.returned(op, start) == (Returned::Gives { value, popped, ip: ip as int }));
        }
        let outcome = self.go_back(run, value, ip);
        proof {
            let (left, r, to) = choose|
                left: Vm,
                r: Result<(), RuntimeError>,
                to: Result<Landing, RuntimeError>,
            | #[trigger]
                self.gone_back(&mid, value, ip, left, r, to, start, *run, outcome);
            let got = before.returned(op, start);
            assert(got is Gives);
            assert(self.return_step(
                &before,
                got->value,
                got->popped,
                got->ip,
                top,
                closed,
                mid,
                left,
                r,
                to,
                start,
                *run,
                outcome,
            ));
            assert(exists|
                t: Vm,
                c: Vm,
                m: Vm,
                l: Vm,
                a: Result<(), RuntimeError>,
                b: Result<Landing, RuntimeError>,
            | #[trigger]
                self.return_step(
                    &before,
                    got->value,
                    got->popped,
                    got->ip,
                    t,
                    c,
                    m,
                    l,
                    a,
                    b,
                    start,
                    *run,
                    outcome,
                ));
        }
        outcome
    }
}

} // verus!
