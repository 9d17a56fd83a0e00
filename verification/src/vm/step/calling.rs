//! Calling methods, and going on once what was asked for is there.

use vstd::prelude::*;

use super::objects;
use super::super::fields;
use super::super::calls::{stack_overflow, wrong_arity};
use super::super::fibers::Landing;
use super::super::paths::resolve_module;
use super::super::{
    Frame, RuntimeError, Switch, Vm, MAX_FRAMES, NUM_GT, NUM_LE, NUM_LT, NUM_MOD, NUM_OP_NONE,
};
use super::{Outcome, Run};
use crate::bytecode::{Chunk, Op};
use crate::handle::ObjectId;
use crate::number::{less, same};
use crate::object::Method;
use crate::value::Value;

verus! {

/// What a comparison of two numbers says.
pub open spec fn compares(operation: u8, a: u64, b: u64) -> bool {
    if operation == NUM_LT {
        crate::number::below(a, b)
    } else if operation == NUM_GT {
        crate::number::below(b, a)
    } else if operation == NUM_LE {
        crate::number::below(a, b) || crate::number::equal(a, b)
    } else {
        crate::number::below(b, a) || crate::number::equal(a, b)
    }
}

/// What a comparison of two numbers says.
pub fn compare_numbers(operation: u8, a: u64, b: u64) -> (r: bool)
    ensures
        r == compares(operation, a, b),
{
    if operation == NUM_LT {
        less(a, b)
    } else if operation == NUM_GT {
        less(b, a)
    } else if operation == NUM_LE {
        less(a, b) || same(a, b)
    } else {
        less(b, a) || same(a, b)
    }
}

/// The arithmetic that a call is, if it is one on two numbers.
pub open spec fn arithmetic_of(vm: Vm, run: Run, op: Op) -> Option<(u8, u64, u64)> {
    let symbol = run.unit(run.ip + 1) as int;
    let depth = vm.stack@.len();
    if op is Call && run.operand() == 1 && symbol < 256 && vm.num_ops@[symbol] != NUM_OP_NONE
        && depth >= 2 && vm.stack@[depth - 2].spec_is_num() && vm.stack@[depth - 1].spec_is_num() {
        Some((vm.num_ops@[symbol], vm.stack@[depth - 2].0, vm.stack@[depth - 1].0))
    } else {
        None
    }
}

/// What a call calls.
pub enum Callee {
    /// It fails before it is known what.
    Fails(Seq<char>),
    /// There is no such method.
    Missing,
    /// This.
    Found(Method),
}

/// What a call calls: a method of the receiver's class, or of the class that
/// the running method's class inherits from.
pub open spec fn callee_of(vm: Vm, run: Run, op: Op) -> Callee {
    let symbol = run.unit(run.ip + 1) as int;
    let receiver = vm.stack@[vm.stack@.len() - run.operand() - 1];
    let class = if op is Super {
        vm.spec_super_class()
    } else {
        vm.spec_class_of(receiver)
    };
    match class {
        None => Callee::Fails(
            if op is Super {
                "Cannot use 'super' outside of a method."@
            } else {
                "Receiver has no class."@
            },
        ),
        Some(class) => match vm.spec_find_method(class, symbol) {
            None => Callee::Missing,
            Some(method) => Callee::Found(method),
        },
    }
}

/// Where running goes on once an error was handed on.
pub open spec fn handed(
    vm: Vm,
    run: Run,
    next: Run,
    outcome: Outcome,
    r: Result<Landing, RuntimeError>,
) -> bool {
    match r {
        Ok(landing) => {
            &&& outcome is Jumped
            &&& next == (Run {
                chunk: landing.chunk,
                ip: landing.ip,
                base: landing.base,
                module: vm.spec_current_module(),
                floor: run.floor,
            })
        },
        Err(error) => outcome == Outcome::Failed(error) && next == run,
    }
}

/// A run that goes on at a landing.
pub open spec fn landed_at(run: Run, landing: Landing) -> Run {
    Run {
        chunk: landing.chunk,
        ip: landing.ip,
        base: landing.base,
        module: landing.module,
        floor: run.floor,
    }
}

impl Vm {
    /// Where the running method's `super` starts looking.
    pub open spec fn spec_super_class(&self) -> Option<ObjectId> {
        if self.frames@.len() > 0 {
            match self.spec_function_of(self.frames@.last().closure) {
                Some(function) => function.super_class,
                None => None,
            }
        } else {
            None
        }
    }

    /// Where the running method's `super` starts looking.
    pub fn super_class(&self) -> (r: Option<ObjectId>)
        requires
            self.wf(),
        ensures
            r == self.spec_super_class(),
    {
        let depth: usize = self.frames.len();
        if depth > 0 {
            match self.function_of(self.frames[depth - 1].closure) {
                Some(function) => function.super_class,
                None => None,
            }
        } else {
            None
        }
    }

    /// Whether a machine is an earlier one with an error handed to whoever
    /// asked for it, and running goes on there; or it is the program's. With
    /// no room for its message, nothing is done.
    pub open spec fn handed_on(
        &self,
        before: &Vm,
        error: RuntimeError,
        ip: usize,
        run: Run,
        next: Run,
        outcome: Outcome,
    ) -> bool {
        if before.has_catcher() && !before.heap.has_slots(1) {
            outcome is Exhausted && *self == *before && next == run
        } else {
            exists|r: Result<Landing, RuntimeError>| #[trigger]
                self.delivered(before, error, ip, run.chunk, r) && handed(
                    *self,
                    run,
                    next,
                    outcome,
                    r,
                )
        }
    }

    /// Hand an error to whoever asked for it, and go on there.
    pub fn hand_on(&mut self, run: &mut Run, error: RuntimeError, ip: usize) -> (outcome: Outcome)
        requires
            old(self).wf(),
        ensures
            final(self).wf(),
            final(self).handed_on(old(self), error, ip, *old(run), *final(run), outcome),
    {
        let ghost before = *self;
        let ghost start = *run;
        if self.catcher().is_some() && !self.heap.fits_objects(1) {
            return Outcome::Exhausted;
        }
        let chunk = super::super::lookup::share(&run.chunk);
        let delivered = self.deliver_error(error, ip, chunk);
        let ghost result = delivered;
        proof {
            assert(self.delivered(&before, error, ip, start.chunk, result));
        }
        match delivered {
            Ok(landing) => {
                let module: usize = self.current_module();
                let floor: usize = run.floor;
                *run = Run {
                    chunk: landing.chunk,
                    ip: landing.ip,
                    base: landing.base,
                    module,
                    floor,
                };
                proof {
                    assert(handed(*self, start, *run, Outcome::Jumped, result));
                }
                Outcome::Jumped
            },
            Err(error) => {
                proof {
                    assert(handed(*self, start, *run, Outcome::Failed(error), result));
                }
                Outcome::Failed(error)
            },
        }
    }

    /// Whether a machine is an earlier one that began a call of a closure, or
    /// why it did not.
    pub open spec fn entered(
        &self,
        before: &Vm,
        closure: ObjectId,
        run: Run,
        next: Run,
        outcome: Outcome,
    ) -> bool {
        let given = run.operand();
        let at = before.stack@.len() - given - 1;
        match before.spec_function_of(closure) {
            None => {
                &&& outcome matches Outcome::Failed(error)
                &&& error.message@ == if before.heap@.closure(closure) is None {
                    "Not a closure."@
                } else {
                    "Closure has no function."@
                }
                &&& error.line == 0
                &&& *self == *before
                &&& next == run
            },
            Some(function) => if function.arity != given || before.frames@.len() >= MAX_FRAMES {
                &&& outcome matches Outcome::Failed(error)
                &&& error.message@ == if function.arity != given {
                    super::super::calls::arity_message(function.arity as nat, given as nat)
                } else {
                    "Stack overflow."@
                }
                &&& run.on_line(error.line)
                &&& *self == *before
                &&& next == run
            } else {
                &&& outcome is Next
                &&& *self == (Vm { frames: self.frames, ..*before })
                &&& self.frames@ == before.running().stopped(
                    (run.ip + 2) as usize,
                    run.chunk,
                ).push(before.first_frame(closure, at as usize))
                &&& next == (Run {
                    chunk: function.chunk,
                    ip: 0,
                    base: at as usize,
                    module: function.module,
                    floor: run.floor,
                })
            },
        }
    }

    /// Whether a machine is an earlier one after a call instruction.
    pub open spec fn did_call(
        &self,
        before: &Vm,
        op: Op,
        run: Run,
        next: Run,
        outcome: Outcome,
    ) -> bool {
        let depth = before.stack@.len();
        let after = run.moved(run.ip + 2);
        if !run.within(run.ip + 1) || depth < run.operand() + 1 {
            objects::refused(*before, *self, run, next, outcome)
        } else {
            match arithmetic_of(*before, run, op) {
                Some((operation, left, right)) => {
                    &&& next == after
                    &&& if operation <= NUM_MOD {
                        &&& outcome == (Outcome::Arithmetic { operation, left, right })
                        &&& self.only_stack(before, fields::dropped(before.stack@, 2))
                    } else {
                        &&& outcome is Next
                        &&& self.only_stack(
                            before,
                            fields::dropped(before.stack@, 2).push(
                                Value::bool(compares(operation, left, right)),
                            ),
                        )
                    }
                },
                None => match callee_of(*before, run, op) {
                    Callee::Fails(message) => {
                        &&& outcome matches Outcome::Failed(error)
                        &&& error.message@ == message
                        &&& error.line == 0
                        &&& *self == *before
                        &&& next == run
                    },
                    Callee::Missing => exists|error: RuntimeError|
                        {
                            &&& error.message@ == super::super::calls::no_method_message(
                                before.spec_receiver_class(
                                    before.stack@[depth - run.operand() - 1],
                                ),
                                before.spec_signature(run.unit(run.ip + 1) as int),
                            )
                            &&& run.on_line(error.line)
                            &&& #[trigger] self.handed_on(
                                before,
                                error,
                                (run.ip + 2) as usize,
                                run,
                                next,
                                outcome,
                            )
                        },
                    Callee::Found(Method::Primitive(primitive)) => {
                        &&& outcome matches Outcome::Primitive { primitive: asked, at, line }
                        &&& asked == primitive
                        &&& at == depth - run.operand() - 1
                        &&& run.on_line(line)
                        &&& *self == *before
                        &&& next == after
                    },
                    Callee::Found(Method::Closure(closure)) => self.entered(
                        before,
                        closure,
                        run,
                        next,
                        outcome,
                    ),
                },
            }
        }
    }

    /// Begin a call of a closure whose receiver and arguments are on the
    /// stack.
    fn enter_closure(
        &mut self,
        run: &mut Run,
        closure: ObjectId,
        given: usize,
        at: usize,
        line: u16,
    ) -> (outcome: Outcome)
        requires
            old(self).wf(),
            old(run).within(old(run).ip + 1),
            given == old(run).operand(),
            at == old(self).stack@.len() - given - 1,
            old(run).on_line(line),
        ensures
            final(self).wf(),
            final(self).entered(old(self), closure, *old(run), *final(run), outcome),
    {
        let size: usize = run.chunk.code.len();
        let target = match self.call_target(closure) {
            Err(error) => {
                return Outcome::Failed(error);
            },
            Ok(target) => target,
        };
        if target.arity != given {
            return Outcome::Failed(wrong_arity(target.arity, given, line));
        }
        if self.frames.len() >= MAX_FRAMES {
            return Outcome::Failed(stack_overflow(line));
        }
        let chunk = super::super::lookup::share(&run.chunk);
        self.stop_frame(run.ip + 2, chunk);
        self.frames.push(
            Frame {
                closure,
                ip: 0,
                base: at,
                chunk: None,
                module: target.module,
                field_offset: target.field_offset,
            },
        );
        let floor: usize = run.floor;
        *run = Run { chunk: target.chunk, ip: 0, base: at, module: target.module, floor };
        Outcome::Next
    }

    /// Call a method.
    #[verifier::rlimit(40)]
    pub fn do_call(&mut self, run: &mut Run, op: Op) -> (outcome: Outcome)
        requires
            old(self).wf(),
            old(run).within(old(run).ip as int),
            op is Call || op is Super,
        ensures
            final(self).wf(),
            final(self).did_call(old(self), op, *old(run), *final(run), outcome),
    {
        let ip: usize = run.ip;
        let size: usize = run.chunk.code.len();
        let given: usize = Chunk::inline_operand(run.chunk.code[ip]) as usize;
        let depth: usize = self.stack.len();
        if ip + 1 >= size || depth < given + 1 {
            return Outcome::Malformed;
        }
        let symbol: usize = run.chunk.code[ip + 1] as usize;
        let ghost before = *self;
        let ghost start = *run;
        let plain: bool = matches!(op, Op::Call);
        if plain && given == 1 && symbol < 256 && self.num_ops[symbol] != NUM_OP_NONE {
            let operation: u8 = self.num_ops[symbol];
            match (self.stack[depth - 2].as_num(), self.stack[depth - 1].as_num()) {
                (Some(left), Some(right)) => {
                    proof {
                        assert(arithmetic_of(before, start, op) == Some((operation, left, right)));
                    }
                    self.stack.truncate(depth - 2);
                    run.ip = ip + 2;
                    if operation <= NUM_MOD {
                        return Outcome::Arithmetic { operation, left, right };
                    }
                    self.stack.push(Value::bool(compare_numbers(operation, left, right)));
                    return Outcome::Next;
                },
                _ => {},
            }
        }
        proof {
            assert(arithmetic_of(before, start, op) is None);
        }
        let at: usize = depth - given - 1;
        let class: ObjectId = if plain {
            match self.class_of(self.stack[at]) {
                Some(class) => class,
                None => {
                    return Outcome::Failed(RuntimeError::new("Receiver has no class."));
                },
            }
        } else {
            match self.super_class() {
                Some(class) => class,
                None => {
                    return Outcome::Failed(
                        RuntimeError::new("Cannot use 'super' outside of a method."),
                    );
                },
            }
        };
        let line: u16 = run.chunk.line_at(ip);
        match self.find_method(class, symbol) {
            None => {
                let error = self.no_such_method(at, symbol, line);
                let ghost problem = error;
                let outcome = self.hand_on(run, error, ip + 2);
                proof {
                    assert(self.handed_on(
                        &before,
                        problem,
                        (start.ip + 2) as usize,
                        start,
                        *run,
                        outcome,
                    ));
                }
                outcome
            },
            Some(Method::Primitive(primitive)) => {
                run.ip = ip + 2;
                Outcome::Primitive { primitive, at, line }
            },
            Some(Method::Closure(closure)) => self.enter_closure(run, closure, given, at, line),
        }
    }

    /// Whether a machine is an earlier one with this on its stack, collected if
    /// it was time to.
    pub open spec fn pushed(&self, before: &Vm, stack: Seq<Value>, ip: usize) -> bool {
        exists|mid: Vm| #[trigger]
            mid.only_stack(before, stack) && self.collected_at(&mid, ip)
    }

    /// Put what was computed where the operands were, and collect if it is
    /// time to.
    pub fn answer(&mut self, run: &Run, value: Value)
        requires
            old(self).wf(),
        ensures
            final(self).wf(),
            final(self).pushed(old(self), old(self).stack@.push(value), run.ip),
    {
        let ghost before = *self;
        self.stack.push(value);
        let ghost mid = *self;
        proof {
            assert(mid.only_stack(&before, before.stack@.push(value)));
        }
        self.collect_point(run.ip);
    }

    /// The stack once a primitive's receiver and arguments are off it.
    pub open spec fn without_call(&self, at: usize) -> Seq<Value> {
        if at < self.stack@.len() {
            self.stack@.take(at as int)
        } else {
            self.stack@
        }
    }

    /// Whether a machine is an earlier one gone on in another fiber, because a
    /// primitive asked for it.
    pub open spec fn switched_over(
        &self,
        before: &Vm,
        mid: Vm,
        left: Vm,
        r: Result<(), RuntimeError>,
        to: Result<Landing, RuntimeError>,
        at: usize,
        switch: Switch,
        line: u16,
        run: Run,
        next: Run,
        outcome: Outcome,
    ) -> bool {
        &&& mid == (Vm { stack: mid.stack, pending_switch: None, ..*before })
        &&& mid.stack@ == before.without_call(at)
        &&& left.performed(&mid, switch, run.ip, run.chunk, r)
        &&& match r {
            Err(error) => outcome == Outcome::Failed(error) && *self == left && next == run,
            Ok(_) => if switch.as_error {
                &&& outcome == (Outcome::Raise { value: switch.value, line })
                &&& *self == left
                &&& next == run
            } else {
                &&& self.took_off(&left, to)
                &&& match to {
                    Err(error) => outcome == Outcome::Failed(error) && next == run,
                    Ok(landing) => outcome is Jumped && next == landed_at(run, landing),
                }
            },
        }
    }

    /// Whether a machine is an earlier one gone on after a primitive gave this.
    pub open spec fn did_primitive(
        &self,
        before: &Vm,
        result: Result<Value, RuntimeError>,
        at: usize,
        line: u16,
        run: Run,
        next: Run,
        outcome: Outcome,
    ) -> bool {
        match result {
            Err(error) => exists|told: RuntimeError|
                {
                    &&& told.message@ == error.message@
                    &&& told.line == if error.line == 0 {
                        line
                    } else {
                        error.line
                    }
                    &&& #[trigger] self.handed_on(before, told, run.ip, run, next, outcome)
                },
            Ok(value) => if before.halting {
                &&& outcome == Outcome::Finished(Value::null())
                &&& *self == (Vm { stack: self.stack, halting: false, ..*before })
                &&& self.stack@ == before.without_call(at)
                &&& next == run
            } else {
                match before.pending_switch {
                    Some(switch) => exists|
                        mid: Vm,
                        left: Vm,
                        r: Result<(), RuntimeError>,
                        to: Result<Landing, RuntimeError>,
                    | #[trigger]
                        self.switched_over(
                            before,
                            mid,
                            left,
                            r,
                            to,
                            at,
                            switch,
                            line,
                            run,
                            next,
                            outcome,
                        ),
                    None => {
                        &&& outcome is Next
                        &&& self.pushed(before, before.without_call(at).push(value), run.ip)
                        &&& next == run
                    },
                }
            },
        }
    }

    /// Go on after a primitive: with its value, collecting if it is time to; in
    /// the fiber it asked for; or with its error.
    pub fn finish_primitive(
        &mut self,
        run: &mut Run,
        result: Result<Value, RuntimeError>,
        at: usize,
        line: u16,
    ) -> (outcome: Outcome)
        requires
            old(self).wf(),
        ensures
            final(self).wf(),
            final(self).did_primitive(
                old(self),
                result,
                at,
                line,
                *old(run),
                *final(run),
                outcome,
            ),
    {
        let ghost before = *self;
        let ghost start = *run;
        let value: Value = match result {
            Err(error) => {
                let told = RuntimeError {
                    message: error.message,
                    line: if error.line == 0 {
                        line
                    } else {
                        error.line
                    },
                };
                let ghost problem = told;
                let ip: usize = run.ip;
                let outcome = self.hand_on(run, told, ip);
                proof {
                    assert(self.handed_on(&before, problem, start.ip, start, *run, outcome));
                }
                return outcome;
            },
            Ok(value) => value,
        };
        self.stack.truncate(at);
        proof {
            assert(self.stack@ =~= before.without_call(at));
        }
        if self.halting {
            self.halting = false;
            return Outcome::Finished(Value::null());
        }
        match self.pending_switch.take() {
            None => {
                self.stack.push(value);
                let ghost mid = *self;
                proof {
                    assert(mid.only_stack(&before, before.without_call(at).push(value)));
                }
                self.collect_point(run.ip);
                Outcome::Next
            },
            Some(switch) => {
                let ghost mid = *self;
                let chunk = super::super::lookup::share(&run.chunk);
                let performed = self.perform_switch(switch, run.ip, chunk);
                let ghost left = *self;
                let ghost r = performed;
                let ghost nowhere = Err::<Landing, RuntimeError>(arbitrary());
                match performed {
                    Err(error) => {
                        proof {
                            assert(self.switched_over(
                                &before,
                                mid,
                                left,
                                r,
                                nowhere,
                                at,
                                switch,
                                line,
                                start,
                                *run,
                                Outcome::Failed(error),
                            ));
                        }
                        Outcome::Failed(error)
                    },
                    Ok(_) => {
                        if switch.as_error {
                            proof {
                                assert(self.switched_over(
                                    &before,
                                    mid,
                                    left,
                                    r,
                                    nowhere,
                                    at,
                                    switch,
                                    line,
                                    start,
                                    *run,
                                    Outcome::Raise { value: switch.value, line },
                                ));
                            }
                            return Outcome::Raise { value: switch.value, line };
                        }
                        let landed = self.land();
                        let ghost to = landed;
                        let outcome = Vm::go_to(run, landed);
                        proof {
                            assert(self.switched_over(
                                &before,
                                mid,
                                left,
                                r,
                                to,
                                at,
                                switch,
                                line,
                                start,
                                *run,
                                outcome,
                            ));
                        }
                        outcome
                    },
                }
            },
        }
    }

    /// Go on at a landing, if there is one.
    pub fn go_to(run: &mut Run, landed: Result<Landing, RuntimeError>) -> (outcome: Outcome)
        ensures
            match landed {
                Err(error) => outcome == Outcome::Failed(error) && *final(run) == *old(run),
                Ok(landing) => outcome is Jumped && *final(run) == landed_at(*old(run), landing),
            },
    {
        match landed {
            Err(error) => Outcome::Failed(error),
            Ok(landing) => {
                let floor: usize = run.floor;
                *run = Run {
                    chunk: landing.chunk,
                    ip: landing.ip,
                    base: landing.base,
                    module: landing.module,
                    floor,
                };
                Outcome::Jumped
            },
        }
    }

    /// Whether a machine is an earlier one in which the running fiber failed
    /// with a message.
    pub open spec fn did_raise(
        &self,
        before: &Vm,
        message: Seq<char>,
        line: u16,
        run: Run,
        next: Run,
        outcome: Outcome,
    ) -> bool {
        exists|error: RuntimeError|
            {
                &&& error.message@ == message
                &&& error.line == line
                &&& #[trigger] self.handed_on(before, error, 0, run, next, outcome)
            }
    }

    /// Let the running fiber fail with a message.
    pub fn raise(&mut self, run: &mut Run, message: &str, line: u16) -> (outcome: Outcome)
        requires
            old(self).wf(),
        ensures
            final(self).wf(),
            final(self).did_raise(old(self), message@, line, *old(run), *final(run), outcome),
    {
        let error = RuntimeError { message: message.to_owned(), line };
        let ghost problem = error;
        let ghost before = *self;
        let ghost start = *run;
        let outcome = self.hand_on(run, error, 0);
        proof {
            assert(self.handed_on(&before, problem, 0, start, *run, outcome));
        }
        outcome
    }

    /// Whether an instruction asked for a module.
    pub open spec fn did_import(
        &self,
        before: &Vm,
        run: Run,
        next: Run,
        outcome: Outcome,
    ) -> bool {
        match run.spec_constant(run.ip + 1) {
            Some(value) => if run.module < before.modules@.len() {
                &&& match before.spec_text(value) {
                    Some(name) => before.asks_for(run, name, outcome),
                    None => outcome == (Outcome::ShowModule { value }),
                }
                &&& *self == *before
                &&& next == run.moved(run.ip + 2)
            } else {
                objects::refused(*before, *self, run, next, outcome)
            },
            None => objects::refused(*before, *self, run, next, outcome),
        }
    }

    /// Whether an outcome asks for the module that goes by a name in the one
    /// that runs.
    pub open spec fn asks_for(&self, run: Run, name: Seq<char>, outcome: Outcome) -> bool {
        &&& outcome matches Outcome::Import { name: asked }
        &&& asked@ == super::super::paths::spec_resolve(
            self.modules@[run.module as int].name@,
            name,
        )
    }

    /// Ask for the module that goes by a name in the one that runs.
    pub fn import_named(&self, run: &Run, name: &str) -> (outcome: Outcome)
        ensures
            if run.module < self.modules@.len() {
                self.asks_for(*run, name@, outcome)
            } else {
                outcome is Malformed
            },
    {
        if run.module >= self.modules.len() {
            return Outcome::Malformed;
        }
        Outcome::Import { name: resolve_module(self.modules[run.module].name.as_str(), name) }
    }

    /// Ask for a module.
    pub fn do_import(&mut self, run: &mut Run) -> (outcome: Outcome)
        requires
            old(self).wf(),
            old(run).within(old(run).ip as int),
        ensures
            final(self).wf(),
            final(self).did_import(old(self), *old(run), *final(run), outcome),
    {
        let ip: usize = run.ip;
        let size: usize = run.chunk.code.len();
        if ip + 1 >= size || run.module >= self.modules.len() {
            return Outcome::Malformed;
        }
        match run.constant(ip + 1) {
            None => Outcome::Malformed,
            Some(value) => {
                let outcome = match self.text(value) {
                    None => Outcome::ShowModule { value },
                    Some(name) => self.import_named(run, name.as_str()),
                };
                run.ip = ip + 2;
                outcome
            },
        }
    }

    /// Whether a machine is an earlier one that went into a module's code.
    pub open spec fn entered_module(
        &self,
        before: &Vm,
        closure: ObjectId,
        run: Run,
        next: Run,
        outcome: Outcome,
    ) -> bool {
        let frames = before.running().stopped(run.ip, run.chunk);
        &&& *self == (Vm { stack: self.stack, frames: self.frames, ..*before })
        &&& self.stack@ == before.stack@.push(Value::null())
        &&& match before.call_refused(closure) {
            Some(message) => {
                &&& outcome matches Outcome::Failed(error)
                &&& error.message@ == message
                &&& error.line == 0
                &&& self.frames@ == frames
                &&& next == run
            },
            None => {
                &&& outcome is Jumped
                &&& self.frames@ == frames.push(
                    before.first_frame(closure, before.stack@.len() as usize),
                )
                &&& next == (Run {
                    chunk: before.spec_function_of(closure)->0.chunk,
                    ip: 0,
                    base: before.stack@.len() as usize,
                    module: before.spec_function_of(closure)->0.module,
                    floor: run.floor,
                })
            },
        }
    }

    /// Go into a module's code; what it returns is dropped.
    pub fn enter_module(&mut self, run: &mut Run, closure: ObjectId) -> (outcome: Outcome)
        requires
            old(self).wf(),
        ensures
            final(self).wf(),
            final(self).entered_module(old(self), closure, *old(run), *final(run), outcome),
    {
        let base: usize = self.stack.len();
        self.stack.push(Value::null());
        let chunk = super::super::lookup::share(&run.chunk);
        self.stop_frame(run.ip, chunk);
        match self.push_frame(closure, base) {
            Err(error) => Outcome::Failed(error),
            Ok(code) => {
                let module: usize = self.module_of(closure);
                let floor: usize = run.floor;
                *run = Run { chunk: code, ip: 0, base, module, floor };
                Outcome::Jumped
            },
        }
    }
}

} // verus!
