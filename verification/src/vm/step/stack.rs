//! Instructions that change the stack, or where to go on, and nothing else.

use vstd::prelude::*;

use super::super::fields;
use super::super::{RuntimeError, Vm};
use super::{Outcome, Run};
use crate::bytecode::{Chunk, Op};
use crate::value::Value;

verus! {

/// What an instruction makes of the stack.
pub enum StackStep {
    /// It refers to what is not there.
    Malformed,
    /// It fails, having left the stack so.
    Fails { stack: Seq<Value>, message: Seq<char> },
    /// It leaves the stack so, and goes on there.
    Goes { stack: Seq<Value>, ip: int },
}

/// Going on at a place, if it is in the code or just behind it.
pub open spec fn goes(run: Run, stack: Seq<Value>, ip: int) -> StackStep {
    if 0 <= ip <= run.chunk.code@.len() {
        StackStep::Goes { stack, ip }
    } else {
        StackStep::Malformed
    }
}

/// Pushing a value, if there is one, and going on.
pub open spec fn pushes(run: Run, stack: Seq<Value>, value: Option<Value>, ip: int) -> StackStep {
    match value {
        Some(value) => goes(run, stack.push(value), ip),
        None => StackStep::Malformed,
    }
}

/// Pushing what was read, or failing.
pub open spec fn reads(
    run: Run,
    stack: Seq<Value>,
    value: Result<Value, Seq<char>>,
    ip: int,
) -> StackStep {
    match value {
        Ok(value) => goes(run, stack.push(value), ip),
        Err(message) => StackStep::Fails { stack, message },
    }
}

/// Whether an instruction is one of these.
pub open spec fn is_stack_op(op: Op) -> bool {
    match op {
        Op::Constant | Op::Null | Op::False | Op::True | Op::LoadLocal | Op::LoadLocalConstant
        | Op::LoadLocalPair | Op::StoreLocal | Op::LoadModuleVar | Op::Pop | Op::LoadUpvalue
        | Op::LoadStaticField | Op::LoadFieldThis | Op::LoadField | Op::Jump | Op::Loop
        | Op::JumpIf | Op::And | Op::Or => true,
        _ => false,
    }
}

impl Vm {
    /// A variable of the running module, if there is one.
    pub open spec fn module_variable(&self, module: int, index: int) -> Option<Value> {
        if 0 <= module < self.modules@.len() && 0 <= index
            < self.modules@[module].values@.len() {
            Some(self.modules@[module].values@[index])
        } else {
            None
        }
    }

    /// What an instruction makes of the stack.
    pub open spec fn stack_step(&self, run: Run, op: Op) -> StackStep {
        let stack = self.stack@;
        let base = run.base as int;
        let ip = run.ip as int;
        let operand = run.operand();
        match op {
            Op::Null => goes(run, stack.push(Value::null()), ip + 1),
            Op::False => goes(run, stack.push(Value::bool(false)), ip + 1),
            Op::True => goes(run, stack.push(Value::bool(true)), ip + 1),
            Op::Pop => goes(run, fields::dropped(stack, 1), ip + 1),
            Op::Constant => pushes(run, stack, run.spec_constant(ip + 1), ip + 2),
            Op::LoadLocal => pushes(run, stack, super::local(stack, base, operand), ip + 1),
            Op::LoadLocalConstant => match super::local(stack, base, operand) {
                Some(value) => pushes(run, stack.push(value), run.spec_constant(ip + 2), ip + 3),
                None => StackStep::Malformed,
            },
            Op::LoadLocalPair => match super::local(stack, base, operand) {
                Some(value) => if run.within(ip + 1) {
                    pushes(
                        run,
                        stack.push(value),
                        super::local(
                            stack,
                            base,
                            crate::bytecode::unit_operand(run.unit(ip + 1)) as int,
                        ),
                        ip + 2,
                    )
                } else {
                    StackStep::Malformed
                },
                None => StackStep::Malformed,
            },
            Op::StoreLocal => if super::local(stack, base, operand) is Some {
                goes(run, stack.update(base + operand, stack.last()), ip + 1)
            } else {
                StackStep::Malformed
            },
            Op::LoadModuleVar => if run.within(ip + 1) {
                pushes(
                    run,
                    stack,
                    self.module_variable(run.module as int, run.unit(ip + 1) as int),
                    ip + 2,
                )
            } else {
                StackStep::Malformed
            },
            Op::LoadUpvalue => reads(run, stack, self.spec_read_upvalue(operand), ip + 1),
            Op::LoadStaticField => goes(
                run,
                stack.push(self.spec_static_field(operand)),
                ip + 1,
            ),
            Op::LoadFieldThis => match super::local(stack, base, 0) {
                Some(receiver) => reads(run, stack, self.spec_field(receiver, operand), ip + 1),
                None => StackStep::Malformed,
            },
            Op::LoadField => reads(
                run,
                fields::dropped(stack, 1),
                self.spec_field(fields::from_top(stack, 0), operand),
                ip + 1,
            ),
            Op::Jump => if run.within(ip + 1) {
                goes(run, stack, ip + 2 + run.unit(ip + 1))
            } else {
                StackStep::Malformed
            },
            Op::Loop => if run.within(ip + 1) {
                goes(run, stack, ip + 2 - run.unit(ip + 1))
            } else {
                StackStep::Malformed
            },
            Op::JumpIf => if run.within(ip + 1) {
                goes(
                    run,
                    fields::dropped(stack, 1),
                    if fields::from_top(stack, 0).spec_is_falsy() {
                        ip + 2 + run.unit(ip + 1)
                    } else {
                        ip + 2
                    },
                )
            } else {
                StackStep::Malformed
            },
            Op::And => if run.within(ip + 1) {
                if fields::from_top(stack, 0).spec_is_falsy() {
                    goes(run, stack, ip + 2 + run.unit(ip + 1))
                } else {
                    goes(run, fields::dropped(stack, 1), ip + 2)
                }
            } else {
                StackStep::Malformed
            },
            Op::Or => if run.within(ip + 1) {
                if fields::from_top(stack, 0).spec_is_falsy() {
                    goes(run, fields::dropped(stack, 1), ip + 2)
                } else {
                    goes(run, stack, ip + 2 + run.unit(ip + 1))
                }
            } else {
                StackStep::Malformed
            },
            _ => StackStep::Malformed,
        }
    }

    /// Whether a machine is an earlier one after such an instruction.
    pub open spec fn did_stack(
        &self,
        before: &Vm,
        op: Op,
        run: Run,
        next: Run,
        outcome: Outcome,
    ) -> bool {
        match before.stack_step(run, op) {
            StackStep::Malformed => outcome is Malformed && *self == *before && next == run,
            StackStep::Fails { stack, message } => {
                &&& outcome matches Outcome::Failed(error)
                &&& error.message@ == message
                &&& error.line == 0
                &&& self.only_stack(before, stack)
                &&& next == run
            },
            StackStep::Goes { stack, ip } => {
                &&& outcome is Next
                &&& self.only_stack(before, stack)
                &&& next == run.moved(ip)
            },
        }
    }

    /// Push a value, if there is one, and go on.
    fn push_then(&mut self, run: &mut Run, value: Option<Value>, ip: usize) -> (outcome: Outcome)
        requires
            ip <= old(run).chunk.code@.len(),
        ensures
            match value {
                Some(value) => {
                    &&& outcome is Next
                    &&& final(self).only_stack(old(self), old(self).stack@.push(value))
                    &&& *final(run) == old(run).moved(ip as int)
                },
                None => outcome is Malformed && *final(self) == *old(self) && *final(run) == *old(
                    run,
                ),
            },
    {
        match value {
            Some(value) => {
                self.stack.push(value);
                run.ip = ip;
                Outcome::Next
            },
            None => Outcome::Malformed,
        }
    }

    /// Instructions that push a constant.
    fn do_literal(&mut self, run: &mut Run, op: Op) -> (outcome: Outcome)
        requires
            old(self).wf(),
            old(run).within(old(run).ip as int),
            op is Null || op is False || op is True || op is Pop || op is Constant,
        ensures
            final(self).wf(),
            final(self).did_stack(old(self), op, *old(run), *final(run), outcome),
    {
        let ip: usize = run.ip;
        let size: usize = run.chunk.code.len();
        match op {
            Op::Null => self.push_then(run, Some(Value::null()), ip + 1),
            Op::False => self.push_then(run, Some(Value::bool(false)), ip + 1),
            Op::True => self.push_then(run, Some(Value::bool(true)), ip + 1),
            Op::Pop => {
                let _ = self.take_top();
                run.ip = ip + 1;
                Outcome::Next
            },
            _ => {
                if ip + 1 >= size {
                    return Outcome::Malformed;
                }
                let value = run.constant(ip + 1);
                self.push_then(run, value, ip + 2)
            },
        }
    }

    /// Instructions that read or write local variables.
    fn do_local(&mut self, run: &mut Run, op: Op) -> (outcome: Outcome)
        requires
            old(self).wf(),
            old(run).within(old(run).ip as int),
            op is LoadLocal || op is LoadLocalConstant || op is LoadLocalPair || op is StoreLocal,
        ensures
            final(self).wf(),
            final(self).did_stack(old(self), op, *old(run), *final(run), outcome),
    {
        let ip: usize = run.ip;
        let size: usize = run.chunk.code.len();
        let slot: usize = Chunk::inline_operand(run.chunk.code[ip]) as usize;
        let value: Value = match self.local_at(run, slot) {
            None => {
                return Outcome::Malformed;
            },
            Some(value) => value,
        };
        match op {
            Op::LoadLocal => self.push_then(run, Some(value), ip + 1),
            Op::LoadLocalConstant => {
                if ip + 1 >= size || ip + 2 >= size {
                    return Outcome::Malformed;
                }
                match run.constant(ip + 2) {
                    None => Outcome::Malformed,
                    Some(constant) => {
                        self.stack.push(value);
                        self.push_then(run, Some(constant), ip + 3)
                    },
                }
            },
            Op::LoadLocalPair => {
                if ip + 1 >= size {
                    return Outcome::Malformed;
                }
                let other: usize = Chunk::inline_operand(run.chunk.code[ip + 1]) as usize;
                match self.local_at(run, other) {
                    None => Outcome::Malformed,
                    Some(second) => {
                        self.stack.push(value);
                        self.push_then(run, Some(second), ip + 2)
                    },
                }
            },
            _ => {
                let top: Value = self.stack[self.stack.len() - 1];
                self.stack.set(run.base + slot, top);
                run.ip = ip + 1;
                Outcome::Next
            },
        }
    }

    /// Instructions that read a variable that is not a local one.
    fn do_read(&mut self, run: &mut Run, op: Op) -> (outcome: Outcome)
        requires
            old(self).wf(),
            old(run).within(old(run).ip as int),
            op is LoadModuleVar || op is LoadUpvalue || op is LoadStaticField || op is LoadFieldThis
                || op is LoadField,
        ensures
            final(self).wf(),
            final(self).did_stack(old(self), op, *old(run), *final(run), outcome),
    {
        let ip: usize = run.ip;
        let size: usize = run.chunk.code.len();
        let operand: usize = Chunk::inline_operand(run.chunk.code[ip]) as usize;
        let read: Result<Value, RuntimeError> = match op {
            Op::LoadModuleVar => {
                if ip + 1 >= size {
                    return Outcome::Malformed;
                }
                let index: usize = run.chunk.code[ip + 1] as usize;
                if run.module < self.modules.len() && index < self.modules[run.module].values.len() {
                    let value = self.modules[run.module].values[index];
                    return self.push_then(run, Some(value), ip + 2);
                }
                return Outcome::Malformed;
            },
            Op::LoadUpvalue => self.read_upvalue(operand),
            Op::LoadStaticField => Ok(self.static_field(operand)),
            Op::LoadFieldThis => match self.local_at(run, 0) {
                None => {
                    return Outcome::Malformed;
                },
                Some(receiver) => self.field_of(receiver, operand),
            },
            _ => {
                let receiver = self.take_top();
                self.field_of(receiver, operand)
            },
        };
        match read {
            Ok(value) => self.push_then(run, Some(value), ip + 1),
            Err(error) => Outcome::Failed(error),
        }
    }

    /// Go on at a place, if it is in the code or just behind it.
    fn jump_to(&mut self, run: &mut Run, after: usize, offset: usize) -> (outcome: Outcome)
        requires
            after <= old(run).chunk.code@.len(),
        ensures
            *final(self) == *old(self),
            after + offset <= old(run).chunk.code@.len() ==> outcome is Next && *final(run) == old(
                run,
            ).moved(after + offset),
            after + offset > old(run).chunk.code@.len() ==> outcome is Malformed && *final(run)
                == *old(run),
    {
        if offset <= run.chunk.code.len() - after {
            run.ip = after + offset;
            Outcome::Next
        } else {
            Outcome::Malformed
        }
    }

    /// Instructions that jump.
    fn do_jump(&mut self, run: &mut Run, op: Op) -> (outcome: Outcome)
        requires
            old(self).wf(),
            old(run).within(old(run).ip as int),
            op is Jump || op is Loop || op is JumpIf || op is And || op is Or,
        ensures
            final(self).wf(),
            final(self).did_stack(old(self), op, *old(run), *final(run), outcome),
    {
        let ip: usize = run.ip;
        let size: usize = run.chunk.code.len();
        if ip + 1 >= size {
            return Outcome::Malformed;
        }
        let after: usize = ip + 2;
        let offset: usize = run.chunk.code[ip + 1] as usize;
        let top: Value = if self.stack.len() > 0 {
            self.stack[self.stack.len() - 1]
        } else {
            Value::null()
        };
        let falsy: bool = top.is_falsy();
        match op {
            Op::Jump => self.jump_to(run, after, offset),
            Op::Loop => {
                if offset > after {
                    return Outcome::Malformed;
                }
                run.ip = after - offset;
                Outcome::Next
            },
            Op::JumpIf => {
                if falsy && offset > size - after {
                    return Outcome::Malformed;
                }
                let _ = self.take_top();
                if falsy {
                    self.jump_to(run, after, offset)
                } else {
                    run.ip = after;
                    Outcome::Next
                }
            },
            Op::And => {
                if falsy {
                    self.jump_to(run, after, offset)
                } else {
                    let _ = self.take_top();
                    run.ip = after;
                    Outcome::Next
                }
            },
            _ => {
                if falsy {
                    let _ = self.take_top();
                    run.ip = after;
                    Outcome::Next
                } else {
                    self.jump_to(run, after, offset)
                }
            },
        }
    }

    /// Instructions that change the stack, or where to go on, and nothing
    /// else.
    pub fn do_stack(&mut self, run: &mut Run, op: Op) -> (outcome: Outcome)
        requires
            old(self).wf(),
            old(run).within(old(run).ip as int),
            is_stack_op(op),
        ensures
            final(self).wf(),
            final(self).did_stack(old(self), op, *old(run), *final(run), outcome),
    {
        match op {
            Op::Null | Op::False | Op::True | Op::Pop | Op::Constant => self.do_literal(run, op),
            Op::LoadLocal | Op::LoadLocalConstant | Op::LoadLocalPair | Op::StoreLocal => {
                self.do_local(run, op)
            },
            Op::Jump | Op::Loop | Op::JumpIf | Op::And | Op::Or => self.do_jump(run, op),
            _ => self.do_read(run, op),
        }
    }
}

} // verus!
