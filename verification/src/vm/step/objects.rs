//! Instructions that make objects, or change them.

use vstd::prelude::*;

use super::super::fields;
use super::super::paths::resolve_module;
use super::super::{Module, RuntimeError, Vm};
use super::{Outcome, Run};
use crate::bytecode::Chunk;
use crate::handle::ObjectId;
use crate::object::{ObjClosure, Object};
use crate::value::Value;

verus! {

/// What an instruction that gives nothing back came to.
pub open spec fn gave(outcome: Outcome) -> Result<(), RuntimeError> {
    match outcome {
        Outcome::Failed(error) => Err(error),
        _ => Ok(()),
    }
}

/// Whether an instruction either failed where it was or went on there.
pub open spec fn went(run: Run, next: Run, outcome: Outcome, ip: int) -> bool {
    match outcome {
        Outcome::Failed(_) => next == run,
        Outcome::Next => next == run.moved(ip),
        _ => false,
    }
}

/// Whether an instruction was not carried out.
pub open spec fn refused(before: Vm, after: Vm, run: Run, next: Run, outcome: Outcome) -> bool {
    outcome is Malformed && after == before && next == run
}

impl Vm {
    /// Whether a machine is an earlier one with a module's variable written.
    pub open spec fn variable_set(
        &self,
        before: &Vm,
        module: int,
        index: int,
        value: Value,
    ) -> bool {
        &&& *self == (Vm { modules: self.modules, ..*before })
        &&& self.modules@.len() == before.modules@.len()
        &&& forall|i: int|
            0 <= i < self.modules@.len() && i != module ==> #[trigger] self.modules@[i]
                == before.modules@[i]
        &&& self.modules@[module] == (Module {
            values: self.modules@[module].values,
            ..before.modules@[module]
        })
        &&& self.modules@[module].values@ == before.modules@[module].values@.update(index, value)
    }

    /// Whether a machine is an earlier one after writing a module's variable.
    pub open spec fn did_store_module(
        &self,
        before: &Vm,
        run: Run,
        next: Run,
        outcome: Outcome,
    ) -> bool {
        let ip = run.ip as int;
        if run.within(ip + 1) && before.stack@.len() > 0 && before.module_variable(
            run.module as int,
            run.unit(ip + 1) as int,
        ) is Some {
            &&& outcome is Next
            &&& next == run.moved(ip + 2)
            &&& self.variable_set(
                before,
                run.module as int,
                run.unit(ip + 1) as int,
                before.stack@.last(),
            )
        } else {
            refused(*before, *self, run, next, outcome)
        }
    }

    /// Write a variable of the running module.
    pub fn do_store_module(&mut self, run: &mut Run) -> (outcome: Outcome)
        requires
            old(self).wf(),
            old(run).within(old(run).ip as int),
        ensures
            final(self).wf(),
            final(self).did_store_module(old(self), *old(run), *final(run), outcome),
    {
        let ip: usize = run.ip;
        let size: usize = run.chunk.code.len();
        if ip + 1 >= size || self.stack.len() == 0 {
            return Outcome::Malformed;
        }
        let index: usize = run.chunk.code[ip + 1] as usize;
        let module: usize = run.module;
        if module >= self.modules.len() || index >= self.modules[module].values.len() {
            return Outcome::Malformed;
        }
        let ghost before = *self;
        let top: Value = self.stack[self.stack.len() - 1];
        let mut taken = Module::new();
        core::mem::swap(&mut taken, &mut self.modules[module]);
        taken.values.set(index, top);
        self.modules.set(module, taken);
        run.ip = ip + 2;
        proof {
            assert(self.variable_set(&before, module as int, index as int, top));
        }
        Outcome::Next
    }

    /// Whether a machine is an earlier one after writing a captured variable.
    pub open spec fn did_store_upvalue(
        &self,
        before: &Vm,
        run: Run,
        next: Run,
        outcome: Outcome,
    ) -> bool {
        if before.stack@.len() > 0 {
            &&& went(run, next, outcome, run.ip + 1)
            &&& self.wrote_upvalue(
                before,
                run.operand() as usize,
                before.stack@.last(),
                gave(outcome),
            )
        } else {
            refused(*before, *self, run, next, outcome)
        }
    }

    /// Write a captured variable.
    pub fn do_store_upvalue(&mut self, run: &mut Run) -> (outcome: Outcome)
        requires
            old(self).wf(),
            old(run).within(old(run).ip as int),
        ensures
            final(self).wf(),
            final(self).did_store_upvalue(old(self), *old(run), *final(run), outcome),
    {
        let ip: usize = run.ip;
        let size: usize = run.chunk.code.len();
        if self.stack.len() == 0 {
            return Outcome::Malformed;
        }
        let operand: usize = Chunk::inline_operand(run.chunk.code[ip]) as usize;
        let top: Value = self.stack[self.stack.len() - 1];
        match self.write_upvalue(operand, top) {
            Ok(_) => {
                run.ip = ip + 1;
                Outcome::Next
            },
            Err(error) => Outcome::Failed(error),
        }
    }

    /// Whether a machine is an earlier one with the variable on top of the
    /// stack closed over and taken off.
    pub open spec fn did_close_upvalue(
        &self,
        before: &Vm,
        run: Run,
        next: Run,
        outcome: Outcome,
    ) -> bool {
        if before.stack@.len() > 0 {
            &&& outcome is Next
            &&& next == run.moved(run.ip + 1)
            &&& exists|mid: Vm| #[trigger]
                mid.closed_upvalues(before, (before.stack@.len() - 1) as usize)
                    && self.only_stack(&mid, fields::dropped(before.stack@, 1))
        } else {
            refused(*before, *self, run, next, outcome)
        }
    }

    /// Close over the variable on top of the stack, and take it off.
    pub fn do_close_upvalue(&mut self, run: &mut Run) -> (outcome: Outcome)
        requires
            old(self).wf(),
            old(run).within(old(run).ip as int),
        ensures
            final(self).wf(),
            final(self).did_close_upvalue(old(self), *old(run), *final(run), outcome),
    {
        let size: usize = run.chunk.code.len();
        if self.stack.len() == 0 {
            return Outcome::Malformed;
        }
        let ghost before = *self;
        self.close_upvalues(self.stack.len() - 1);
        let ghost mid = *self;
        let _ = self.take_top();
        run.ip = run.ip + 1;
        proof {
            assert(mid.closed_upvalues(&before, (before.stack@.len() - 1) as usize));
            assert(self.only_stack(&mid, fields::dropped(before.stack@, 1)));
        }
        Outcome::Next
    }

    /// Whether a machine is an earlier one with the first so many variables a
    /// closure names captured.
    pub open spec fn captured_all(
        &self,
        before: &Vm,
        run: Run,
        count: nat,
        ids: Seq<ObjectId>,
    ) -> bool
        decreases count,
    {
        if count == 0 {
            *self == *before && ids.len() == 0
        } else {
            &&& ids.len() == count
            &&& exists|mid: Vm|
                mid.captured_all(before, run, (count - 1) as nat, ids.drop_last())
                    && #[trigger] self.captured_one(&mid, run, count - 1, ids.last())
        }
    }

    /// Whether a machine is an earlier one with one variable a closure names
    /// captured: from the running call, or from the running closure.
    pub open spec fn captured_one(&self, before: &Vm, run: Run, at: int, id: ObjectId) -> bool {
        let descriptor = run.unit(run.ip + 2 + at);
        let index = crate::bytecode::unit_operand(descriptor) as int;
        if descriptor % 256 != 0 {
            self.captured(before, (run.base + index) as usize, id)
        } else {
            *self == *before && before.spec_upvalue_of_current(index) == Ok::<ObjectId, Seq<char>>(
                id,
            )
        }
    }

    /// Whether a machine is an earlier one with a closure made of so many
    /// variables and pushed.
    pub open spec fn closure_pushed(
        &self,
        before: &Vm,
        function: ObjectId,
        ids: Seq<ObjectId>,
    ) -> bool {
        exists|id: ObjectId, closure: ObjClosure|
            {
                &&& #[trigger] self.heap.allocated(&before.heap, id, Object::Closure(closure))
                &&& closure.function == function
                &&& closure.upvalues@ == ids
                &&& *self == (Vm { heap: self.heap, stack: self.stack, ..*before })
                &&& self.stack@ == before.stack@.push(Value::object(id))
            }
    }

    /// Whether a closure instruction can be read.
    pub open spec fn closure_readable(run: Run) -> bool {
        &&& run.spec_constant(run.ip + 1) is Some
        &&& run.ip + 2 + run.operand() <= run.chunk.code@.len()
        &&& run.base + 256 < u32::MAX
    }

    /// Whether a machine is an earlier one after making a closure.
    pub open spec fn did_closure(
        &self,
        before: &Vm,
        run: Run,
        next: Run,
        outcome: Outcome,
    ) -> bool {
        let count = run.operand();
        if !Vm::closure_readable(run) {
            refused(*before, *self, run, next, outcome)
        } else {
            match run.spec_constant(run.ip + 1)->0.spec_as_object() {
                None => {
                    &&& outcome matches Outcome::Failed(error)
                    &&& error.message@ == "Closure constant is not a function."@
                    &&& error.line == 0
                    &&& *self == *before
                    &&& next == run
                },
                Some(function) => match outcome {
                    Outcome::Next => {
                        &&& next == run.moved(run.ip + 2 + count)
                        &&& exists|mid: Vm, ids: Seq<ObjectId>| #[trigger]
                            mid.captured_all(before, run, count as nat, ids)
                                && self.closure_pushed(&mid, function, ids)
                    },
                    Outcome::Failed(error) => {
                        &&& next == run
                        &&& exists|done: nat, ids: Seq<ObjectId>|
                            {
                                &&& #[trigger] self.captured_all(before, run, done, ids)
                                &&& done < count
                                &&& run.unit(run.ip + 2 + done) % 256 == 0
                                &&& super::super::fails(
                                    Err::<(), RuntimeError>(error),
                                    self.spec_upvalue_of_current(
                                        crate::bytecode::unit_operand(
                                            run.unit(run.ip + 2 + done),
                                        ) as int,
                                    )->Err_0,
                                )
                                &&& self.spec_upvalue_of_current(
                                    crate::bytecode::unit_operand(
                                        run.unit(run.ip + 2 + done),
                                    ) as int,
                                ) is Err
                            }
                    },
                    _ => false,
                },
            }
        }
    }

    /// Make a closure of a function and the variables it captures.
    pub fn do_closure(&mut self, run: &mut Run) -> (outcome: Outcome)
        requires
            old(self).wf(),
            old(run).within(old(run).ip as int),
            old(self).heap.has_slots(old(run).operand() + 1),
        ensures
            final(self).wf(),
            final(self).did_closure(old(self), *old(run), *final(run), outcome),
    {
        let ip: usize = run.ip;
        let size: usize = run.chunk.code.len();
        let count: usize = Chunk::inline_operand(run.chunk.code[ip]) as usize;
        if ip + 1 >= size || count > size - ip - 2 || run.base >= 0xffff_ffff - 256 {
            return Outcome::Malformed;
        }
        let constant: Value = match run.constant(ip + 1) {
            None => {
                return Outcome::Malformed;
            },
            Some(constant) => constant,
        };
        let function: ObjectId = match constant.as_object() {
            None => {
                return Outcome::Failed(RuntimeError::new("Closure constant is not a function."));
            },
            Some(function) => function,
        };
        let ghost before = *self;
        let ghost start = *run;
        let mut upvalues: Vec<ObjectId> = Vec::new();
        let mut k: usize = 0;
        while k < count
            invariant
                before == *old(self),
                start == *old(run),
                *run == start,
                before.wf(),
                self.wf(),
                ip == start.ip,
                size == start.chunk.code@.len(),
                count == start.operand(),
                count <= 255,
                ip + 2 + count <= size,
                Vm::closure_readable(start),
                start.spec_constant(ip + 1)->0.spec_as_object() == Some(function),
                k <= count,
                upvalues@.len() == k,
                self.captured_all(&before, start, k as nat, upvalues@),
                self.heap.has_slots(count + 1 - k),
            decreases count - k,
        {
            let ghost mid = *self;
            let ghost earlier = upvalues@;
            let descriptor: u16 = run.chunk.code[ip + 2 + k];
            let index: usize = Chunk::inline_operand(descriptor) as usize;
            let id: ObjectId = if descriptor % 256 != 0 {
                proof {
                    mid.heap.lemma_slots(count + 1 - k, 1);
                }
                self.capture_upvalue(run.base + index)
            } else {
                match self.upvalue_of_current(index) {
                    Ok(id) => id,
                    Err(error) => {
                        return Outcome::Failed(error);
                    },
                }
            };
            upvalues.push(id);
            proof {
                assert(upvalues@.drop_last() =~= earlier);
                assert(mid.captured_all(
                    &before,
                    start,
                    ((k + 1) as nat - 1) as nat,
                    upvalues@.drop_last(),
                ));
                assert(self.captured_one(&mid, start, (k + 1) as nat - 1, upvalues@.last()));
                mid.heap.lemma_slots(count + 1 - k, count + 1 - k - 1);
                assert(self.heap.has_slots(count + 1 - k - 1));
            }
            k = k + 1;
        }
        let ghost mid = *self;
        let ghost ids = upvalues@;
        proof {
            mid.heap.lemma_slots(count + 1 - k, 1);
        }
        let closure = ObjClosure { function, upvalues };
        let id = self.heap.allocate(Object::Closure(closure));
        self.stack.push(Value::object(id));
        run.ip = ip + 2 + count;
        proof {
            assert(self.heap.allocated(&mid.heap, id, Object::Closure(closure)));
            assert(mid.captured_all(&before, start, start.operand() as nat, ids));
            assert(*self == (Vm { heap: self.heap, stack: self.stack, ..mid }));
            assert(self.closure_pushed(&mid, function, ids));
            assert(*run == start.moved(start.ip + 2 + start.operand()));
        }
        Outcome::Next
    }

    /// Whether a machine is an earlier one after making a class.
    pub open spec fn did_class(
        &self,
        before: &Vm,
        run: Run,
        next: Run,
        outcome: Outcome,
    ) -> bool {
        let name = fields::from_top(before.stack@, 1);
        match before.spec_text(name) {
            None => {
                &&& outcome == (Outcome::ShowClass { name })
                &&& *self == *before
                &&& next == run
            },
            Some(child) => self.class_stepped(before, child, run, next, outcome),
        }
    }

    /// Whether a machine is an earlier one after making a class whose name is
    /// shown like this.
    pub open spec fn class_stepped(
        &self,
        before: &Vm,
        child: Seq<char>,
        run: Run,
        next: Run,
        outcome: Outcome,
    ) -> bool {
        exists|mid: Vm, made: Vm, r: Result<Value, RuntimeError>| #[trigger]
            self.class_step(before, run, next, outcome, child, mid, made, r)
    }

    /// How making a class comes about: the name and the superclass are taken
    /// off the stack, and the class, if it can be made, put there.
    pub open spec fn class_step(
        &self,
        before: &Vm,
        run: Run,
        next: Run,
        outcome: Outcome,
        child: Seq<char>,
        mid: Vm,
        made: Vm,
        r: Result<Value, RuntimeError>,
    ) -> bool {
        let rest = fields::dropped(before.stack@, 2);
        &&& mid.only_stack(before, rest)
        &&& made.class_made(
            &mid,
            fields::from_top(before.stack@, 1),
            fields::from_top(before.stack@, 0),
            run.operand() as usize,
            child,
            r,
        )
        &&& match r {
            Ok(class) => {
                &&& outcome is Next
                &&& next == run.moved(run.ip + 1)
                &&& self.only_stack(&made, rest.push(class))
            },
            Err(error) => {
                &&& outcome == Outcome::Failed(error)
                &&& next == run
                &&& *self == made
            },
        }
    }

    /// Make a class, or ask how its name is shown.
    pub fn do_class(&mut self, run: &mut Run) -> (outcome: Outcome)
        requires
            old(self).wf(),
            old(run).within(old(run).ip as int),
            old(self).heap.has_slots(3),
        ensures
            final(self).wf(),
            final(self).did_class(old(self), *old(run), *final(run), outcome),
    {
        let depth: usize = self.stack.len();
        let name: Value = if depth >= 2 {
            self.stack[depth - 2]
        } else {
            Value::null()
        };
        proof {
            assert(name == fields::from_top(old(self).stack@, 1));
        }
        match self.text(name) {
            None => Outcome::ShowClass { name },
            Some(child) => self.class_named(run, child.as_str()),
        }
    }

    /// Whether a machine is an earlier one gone on once it was said how the
    /// name of a class is shown.
    pub open spec fn did_class_shown(
        &self,
        before: &Vm,
        child: Seq<char>,
        run: Run,
        next: Run,
        outcome: Outcome,
    ) -> bool {
        if !run.within(run.ip as int) {
            refused(*before, *self, run, next, outcome)
        } else if !before.heap.has_slots(3) {
            outcome is Exhausted && *self == *before && next == run
        } else {
            exists|mid: Vm| #[trigger]
                mid.class_stepped(before, child, run, next, outcome) && if outcome is Next {
                    self.collected_at(&mid, next.ip)
                } else {
                    *self == mid
                }
        }
    }

    /// Make a class once it is known how its name is shown, and collect if it
    /// is time to.
    pub fn class_shown(&mut self, run: &mut Run, child: &str) -> (outcome: Outcome)
        requires
            old(self).wf(),
        ensures
            final(self).wf(),
            final(self).did_class_shown(old(self), child@, *old(run), *final(run), outcome),
    {
        if run.ip >= run.chunk.code.len() {
            return Outcome::Malformed;
        }
        if !self.heap.fits_objects(3) {
            return Outcome::Exhausted;
        }
        let ghost before = *self;
        let ghost start = *run;
        let outcome = self.class_named(run, child);
        let ghost mid = *self;
        proof {
            assert(mid.class_stepped(&before, child@, start, *run, outcome));
        }
        if matches!(outcome, Outcome::Next) {
            self.collect_point(run.ip);
        }
        outcome
    }

    /// Make a class whose name is shown like this.
    fn class_named(&mut self, run: &mut Run, child: &str) -> (outcome: Outcome)
        requires
            old(self).wf(),
            old(run).within(old(run).ip as int),
            old(self).heap.has_slots(3),
        ensures
            final(self).wf(),
            final(self).class_stepped(old(self), child@, *old(run), *final(run), outcome),
    {
        let ip: usize = run.ip;
        let size: usize = run.chunk.code.len();
        let declared: usize = Chunk::inline_operand(run.chunk.code[ip]) as usize;
        let ghost before = *self;
        let superclass = self.take_top();
        let name = self.take_top();
        let ghost mid = *self;
        proof {
            assert(mid.stack@ =~= fields::dropped(before.stack@, 2));
            assert(mid.only_stack(&before, fields::dropped(before.stack@, 2)));
            assert(superclass == fields::from_top(before.stack@, 0));
            assert(name == fields::from_top(before.stack@, 1));
            assert(declared == old(run).operand() as usize);
        }
        let made = self.make_class(name, superclass, declared, child);
        let ghost result = made;
        let ghost after = *self;
        proof {
            assert(after.class_made(&mid, name, superclass, declared, child@, result));
        }
        let outcome = match made {
            Ok(class) => {
                self.stack.push(class);
                run.ip = ip + 1;
                Outcome::Next
            },
            Err(error) => Outcome::Failed(error),
        };
        proof {
            assert(self.class_step(&before, *old(run), *run, outcome, child@, mid, after, result));
        }
        outcome
    }

    /// Whether a machine is an earlier one after binding a method.
    pub open spec fn did_method(
        &self,
        before: &Vm,
        is_static: bool,
        run: Run,
        next: Run,
        outcome: Outcome,
    ) -> bool {
        if run.within(run.ip + 1) {
            &&& went(run, next, outcome, run.ip + 2)
            &&& exists|mid: Vm| #[trigger]
                mid.only_stack(before, fields::dropped(before.stack@, 2)) && self.method_bound(
                    &mid,
                    fields::from_top(before.stack@, 0),
                    fields::from_top(before.stack@, 1),
                    run.unit(run.ip + 1) as usize,
                    is_static,
                    gave(outcome),
                )
        } else {
            refused(*before, *self, run, next, outcome)
        }
    }

    /// Bind a method to a class.
    pub fn do_method(&mut self, run: &mut Run, is_static: bool) -> (outcome: Outcome)
        requires
            old(self).wf(),
            old(run).within(old(run).ip as int),
        ensures
            final(self).wf(),
            final(self).did_method(old(self), is_static, *old(run), *final(run), outcome),
    {
        let ip: usize = run.ip;
        let size: usize = run.chunk.code.len();
        if ip + 1 >= size {
            return Outcome::Malformed;
        }
        let symbol: usize = run.chunk.code[ip + 1] as usize;
        let ghost before = *self;
        let class = self.take_top();
        let body = self.take_top();
        let ghost mid = *self;
        proof {
            assert(mid.stack@ =~= fields::dropped(before.stack@, 2));
            assert(mid.only_stack(&before, fields::dropped(before.stack@, 2)));
        }
        match self.bind_method(class, body, symbol, is_static) {
            Ok(_) => {
                run.ip = ip + 2;
                Outcome::Next
            },
            Err(error) => Outcome::Failed(error),
        }
    }

    /// Whether a machine is an earlier one after writing a field of the
    /// receiver, the value being left where it is.
    pub open spec fn did_store_this(
        &self,
        before: &Vm,
        run: Run,
        next: Run,
        outcome: Outcome,
    ) -> bool {
        match super::local(before.stack@, run.base as int, 0) {
            None => refused(*before, *self, run, next, outcome),
            Some(receiver) => if before.field_fits(run.operand()) {
                &&& went(run, next, outcome, run.ip + 1)
                &&& self.field_set(
                    before,
                    receiver,
                    run.operand() as usize,
                    before.stack@.last(),
                    gave(outcome),
                )
            } else {
                refused(*before, *self, run, next, outcome)
            },
        }
    }

    /// Write a field of the receiver, leaving the value where it is.
    pub fn do_store_this(&mut self, run: &mut Run) -> (outcome: Outcome)
        requires
            old(self).wf(),
            old(run).within(old(run).ip as int),
            super::local(old(self).stack@, old(run).base as int, 0) matches Some(receiver)
                ==> old(self).can_set(receiver, old(run).operand()),
        ensures
            final(self).wf(),
            final(self).did_store_this(old(self), *old(run), *final(run), outcome),
    {
        let ip: usize = run.ip;
        let size: usize = run.chunk.code.len();
        let operand: usize = Chunk::inline_operand(run.chunk.code[ip]) as usize;
        match self.local_at(run, 0) {
            None => Outcome::Malformed,
            Some(receiver) => {
                if self.current_field_offset() + operand >= crate::fields::MAX_FIELDS {
                    return Outcome::Malformed;
                }
                let value: Value = self.stack[self.stack.len() - 1];
                match self.set_field(receiver, operand, value) {
                    Ok(_) => {
                        run.ip = ip + 1;
                        Outcome::Next
                    },
                    Err(error) => Outcome::Failed(error),
                }
            },
        }
    }

    /// Whether a machine is an earlier one after taking a value off the stack
    /// and writing it to a field of the receiver.
    pub open spec fn did_store_this_pop(
        &self,
        before: &Vm,
        run: Run,
        next: Run,
        outcome: Outcome,
    ) -> bool {
        let rest = fields::dropped(before.stack@, 1);
        match super::local(rest, run.base as int, 0) {
            None => refused(*before, *self, run, next, outcome),
            Some(receiver) => if run.within(run.ip + 1) && before.field_fits(run.operand()) {
                &&& went(run, next, outcome, run.ip + 2)
                &&& exists|mid: Vm| #[trigger]
                    mid.only_stack(before, rest) && self.field_set(
                        &mid,
                        receiver,
                        run.operand() as usize,
                        fields::from_top(before.stack@, 0),
                        gave(outcome),
                    )
            } else {
                refused(*before, *self, run, next, outcome)
            },
        }
    }

    /// Take a value off the stack and write it to a field of the receiver.
    pub fn do_store_this_pop(&mut self, run: &mut Run) -> (outcome: Outcome)
        requires
            old(self).wf(),
            old(run).within(old(run).ip as int),
            super::local(old(self).stack@, old(run).base as int, 0) matches Some(receiver)
                ==> old(self).can_set(receiver, old(run).operand()),
        ensures
            final(self).wf(),
            final(self).did_store_this_pop(old(self), *old(run), *final(run), outcome),
    {
        let ip: usize = run.ip;
        let size: usize = run.chunk.code.len();
        let operand: usize = Chunk::inline_operand(run.chunk.code[ip]) as usize;
        let depth: usize = self.stack.len();
        if ip + 1 >= size || depth == 0 || run.base >= depth - 1
            || self.current_field_offset() + operand >= crate::fields::MAX_FIELDS {
            return Outcome::Malformed;
        }
        let ghost before = *self;
        let receiver: Value = self.stack[run.base];
        let value = self.take_top();
        let ghost mid = *self;
        proof {
            assert(mid.only_stack(&before, fields::dropped(before.stack@, 1)));
        }
        match self.set_field(receiver, operand, value) {
            Ok(_) => {
                run.ip = ip + 2;
                Outcome::Next
            },
            Err(error) => Outcome::Failed(error),
        }
    }

    /// Whether a machine is an earlier one after writing a field of a value on
    /// the stack.
    pub open spec fn did_store_field(
        &self,
        before: &Vm,
        run: Run,
        next: Run,
        outcome: Outcome,
    ) -> bool {
        let rest = fields::dropped(before.stack@, 2);
        let value = fields::from_top(before.stack@, 0);
        if before.field_fits(run.operand()) {
            &&& went(run, next, outcome, run.ip + 1)
            &&& exists|mid: Vm, set: Vm|
                {
                    &&& #[trigger] mid.only_stack(before, rest)
                    &&& #[trigger] set.field_set(
                        &mid,
                        fields::from_top(before.stack@, 1),
                        run.operand() as usize,
                        value,
                        gave(outcome),
                    )
                    &&& if outcome is Next {
                        self.only_stack(&set, rest.push(value))
                    } else {
                        *self == set
                    }
                }
        } else {
            refused(*before, *self, run, next, outcome)
        }
    }

    /// Write a field of a value on the stack, leaving what was written in its
    /// place.
    pub fn do_store_field(&mut self, run: &mut Run) -> (outcome: Outcome)
        requires
            old(self).wf(),
            old(run).within(old(run).ip as int),
            old(self).can_set(fields::from_top(old(self).stack@, 1), old(run).operand()),
        ensures
            final(self).wf(),
            final(self).did_store_field(old(self), *old(run), *final(run), outcome),
    {
        let ip: usize = run.ip;
        let size: usize = run.chunk.code.len();
        let operand: usize = Chunk::inline_operand(run.chunk.code[ip]) as usize;
        if self.current_field_offset() + operand >= crate::fields::MAX_FIELDS {
            return Outcome::Malformed;
        }
        let ghost before = *self;
        let value = self.take_top();
        let receiver = self.take_top();
        let ghost mid = *self;
        proof {
            assert(mid.stack@ =~= fields::dropped(before.stack@, 2));
            assert(mid.only_stack(&before, fields::dropped(before.stack@, 2)));
        }
        proof {
            assert(operand == old(run).operand() as usize);
            assert(receiver == fields::from_top(before.stack@, 1));
        }
        let stored = self.set_field(receiver, operand, value);
        let ghost result = stored;
        let ghost set = *self;
        proof {
            assert(set.field_set(&mid, receiver, operand, value, result));
        }
        match stored {
            Ok(_) => {
                self.stack.push(value);
                run.ip = ip + 1;
                proof {
                    assert(set.field_set(&mid, receiver, operand, value, gave(Outcome::Next)));
                    assert(self.only_stack(&set, fields::dropped(before.stack@, 2).push(value)));
                }
                Outcome::Next
            },
            Err(error) => Outcome::Failed(error),
        }
    }

    /// Whether a machine is an earlier one with the class in the receiver's
    /// place replaced by an instance of it.
    pub open spec fn did_construct(
        &self,
        before: &Vm,
        run: Run,
        next: Run,
        outcome: Outcome,
    ) -> bool {
        match super::local(before.stack@, run.base as int, 0) {
            None => refused(*before, *self, run, next, outcome),
            Some(class) => if before.spec_field_count(class) matches Ok(count) && count
                > crate::fields::MAX_FIELDS {
                refused(*before, *self, run, next, outcome)
            } else {
                exists|made: Vm, r: Result<Value, RuntimeError>| #[trigger]
                    made.instantiated(before, class, r) && match r {
                        Ok(instance) => {
                            &&& outcome is Next
                            &&& next == run.moved(run.ip + 1)
                            &&& self.only_stack(
                                &made,
                                before.stack@.update(run.base as int, instance),
                            )
                        },
                        Err(error) => {
                            &&& outcome == Outcome::Failed(error)
                            &&& next == run
                            &&& *self == made
                        },
                    }
            },
        }
    }

    /// Replace the class in the receiver's place by an instance of it.
    pub fn do_construct(&mut self, run: &mut Run) -> (outcome: Outcome)
        requires
            old(self).wf(),
            old(run).within(old(run).ip as int),
            old(self).heap.has_room(1),
        ensures
            final(self).wf(),
            final(self).did_construct(old(self), *old(run), *final(run), outcome),
    {
        let size: usize = run.chunk.code.len();
        let class: Value = match self.local_at(run, 0) {
            None => {
                return Outcome::Malformed;
            },
            Some(class) => class,
        };
        if !self.instance_fits(class) {
            return Outcome::Malformed;
        }
        let ghost before = *self;
        let made = self.instantiate(class);
        let ghost result = made;
        let ghost after = *self;
        proof {
            assert(after.instantiated(&before, class, result));
        }
        match made {
            Ok(instance) => {
                self.stack.set(run.base, instance);
                run.ip = run.ip + 1;
                Outcome::Next
            },
            Err(error) => Outcome::Failed(error),
        }
    }

    /// Whether a machine is an earlier one after writing a static field.
    pub open spec fn did_store_static(
        &self,
        before: &Vm,
        run: Run,
        next: Run,
        outcome: Outcome,
    ) -> bool {
        if before.stack@.len() > 0 {
            &&& went(run, next, outcome, run.ip + 1)
            &&& self.static_field_set(
                before,
                run.operand() as usize,
                before.stack@.last(),
                gave(outcome),
            )
        } else {
            refused(*before, *self, run, next, outcome)
        }
    }

    /// Write a static field.
    pub fn do_store_static(&mut self, run: &mut Run) -> (outcome: Outcome)
        requires
            old(self).wf(),
            old(run).within(old(run).ip as int),
        ensures
            final(self).wf(),
            final(self).did_store_static(old(self), *old(run), *final(run), outcome),
    {
        let ip: usize = run.ip;
        let size: usize = run.chunk.code.len();
        if self.stack.len() == 0 {
            return Outcome::Malformed;
        }
        let operand: usize = Chunk::inline_operand(run.chunk.code[ip]) as usize;
        let top: Value = self.stack[self.stack.len() - 1];
        match self.set_static_field(operand, top) {
            Ok(_) => {
                run.ip = ip + 1;
                Outcome::Next
            },
            Err(error) => Outcome::Failed(error),
        }
    }

    /// Whether a machine is an earlier one after importing a variable from the
    /// module that goes by a name in the one that runs.
    pub open spec fn variable_imported(
        &self,
        before: &Vm,
        module: Seq<char>,
        variable: Seq<char>,
        run: Run,
        next: Run,
        outcome: Outcome,
    ) -> bool {
        let from = super::super::paths::spec_resolve(
            before.modules@[run.module as int].name@,
            module,
        );
        match before.spec_imported(from, variable) {
            Ok(value) => {
                &&& outcome is Next
                &&& next == run.moved(run.ip + 3)
                &&& self.only_stack(before, before.stack@.push(value))
            },
            Err(message) => {
                &&& outcome matches Outcome::Failed(error)
                &&& error.message@ == message
                &&& run.on_line(error.line)
                &&& *self == *before
                &&& next == run
            },
        }
    }

    /// Whether the running code has what an import of a variable refers to.
    pub open spec fn variable_readable(&self, run: Run) -> bool {
        &&& run.module < self.modules@.len()
        &&& run.spec_constant(run.ip + 1) is Some
        &&& run.spec_constant(run.ip + 2) is Some
    }

    /// Whether a machine is an earlier one after importing a variable, or asks
    /// how its name and its module's are shown.
    pub open spec fn did_import_variable(
        &self,
        before: &Vm,
        run: Run,
        next: Run,
        outcome: Outcome,
    ) -> bool {
        let module = run.spec_constant(run.ip + 1)->0;
        let variable = run.spec_constant(run.ip + 2)->0;
        if before.variable_readable(run) {
            match (before.spec_text(module), before.spec_text(variable)) {
                (Some(from), Some(name)) => self.variable_imported(
                    before,
                    from,
                    name,
                    run,
                    next,
                    outcome,
                ),
                _ => {
                    &&& outcome == (Outcome::ShowVariable { module, variable })
                    &&& *self == *before
                    &&& next == run
                },
            }
        } else {
            refused(*before, *self, run, next, outcome)
        }
    }

    /// Import a variable from the module that goes by a name in the one that
    /// runs.
    fn import_variable(&mut self, run: &mut Run, module: &str, variable: &str) -> (outcome: Outcome)
        requires
            old(self).wf(),
            old(self).variable_readable(*old(run)),
        ensures
            final(self).wf(),
            final(self).variable_imported(
                old(self),
                module@,
                variable@,
                *old(run),
                *final(run),
                outcome,
            ),
    {
        let ip: usize = run.ip;
        let size: usize = run.chunk.code.len();
        let from = resolve_module(self.modules[run.module].name.as_str(), module);
        let line: u16 = run.chunk.line_at(ip);
        match self.imported_variable(from.as_str(), variable, line) {
            Ok(value) => {
                self.stack.push(value);
                run.ip = ip + 3;
                Outcome::Next
            },
            Err(error) => Outcome::Failed(error),
        }
    }

    /// Import a variable, or ask how its name and its module's are shown.
    pub fn do_import_variable(&mut self, run: &mut Run) -> (outcome: Outcome)
        requires
            old(self).wf(),
            old(run).within(old(run).ip as int),
        ensures
            final(self).wf(),
            final(self).did_import_variable(old(self), *old(run), *final(run), outcome),
    {
        let ip: usize = run.ip;
        let size: usize = run.chunk.code.len();
        if size - ip < 3 || run.module >= self.modules.len() {
            return Outcome::Malformed;
        }
        match (run.constant(ip + 1), run.constant(ip + 2)) {
            (Some(module), Some(variable)) => match (self.text(module), self.text(variable)) {
                (Some(from), Some(name)) => self.import_variable(run, from.as_str(), name.as_str()),
                _ => Outcome::ShowVariable { module, variable },
            },
            _ => Outcome::Malformed,
        }
    }

    /// Whether a machine is an earlier one gone on once it was said how the
    /// names of a variable and of its module are shown.
    pub open spec fn did_import_shown(
        &self,
        before: &Vm,
        module: Seq<char>,
        variable: Seq<char>,
        run: Run,
        next: Run,
        outcome: Outcome,
    ) -> bool {
        if before.variable_readable(run) {
            exists|mid: Vm| #[trigger]
                mid.variable_imported(before, module, variable, run, next, outcome)
                    && if outcome is Next {
                    self.collected_at(&mid, next.ip)
                } else {
                    *self == mid
                }
        } else {
            refused(*before, *self, run, next, outcome)
        }
    }

    /// Import a variable once it is known how its name and its module's are
    /// shown, and collect if it is time to.
    pub fn import_shown(&mut self, run: &mut Run, module: &str, variable: &str) -> (outcome:
        Outcome)
        requires
            old(self).wf(),
        ensures
            final(self).wf(),
            final(self).did_import_shown(
                old(self),
                module@,
                variable@,
                *old(run),
                *final(run),
                outcome,
            ),
    {
        let ip: usize = run.ip;
        let size: usize = run.chunk.code.len();
        if ip >= size || size - ip < 3 || run.module >= self.modules.len() || run.constant(
            ip + 1,
        ).is_none() || run.constant(ip + 2).is_none() {
            return Outcome::Malformed;
        }
        let ghost before = *self;
        let ghost start = *run;
        let outcome = self.import_variable(run, module, variable);
        let ghost mid = *self;
        proof {
            assert(mid.variable_imported(&before, module@, variable@, start, *run, outcome));
        }
        if matches!(outcome, Outcome::Next) {
            self.collect_point(run.ip);
        }
        outcome
    }
}

} // verus!
