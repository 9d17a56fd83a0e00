//! Moving between fibers: parking the one that runs, resuming another, and
//! handing an error to whoever asked for it.

use std::rc::Rc;

use vstd::prelude::*;

use super::{Frame, RuntimeError, Switch, Vm};
use crate::bytecode::Chunk;
use crate::handle::ObjectId;
use crate::heap::HeapModel;
use crate::object::{ObjFiber, ObjString, Object, ObjectType};
use crate::value::Value;

verus! {

/// What a fiber holds.
#[verifier::ext_equal]
pub struct FiberModel {
    pub stack: Seq<Value>,
    pub frames: Seq<Frame>,
    pub entry: Option<ObjectId>,
    pub caller: Option<ObjectId>,
    pub error: Value,
    pub done: bool,
    pub catching: bool,
}

impl ObjFiber {
    /// What the fiber holds.
    pub open spec fn model(&self) -> FiberModel {
        FiberModel {
            stack: self.stack@,
            frames: self.frames@,
            entry: self.entry,
            caller: self.caller,
            error: self.error,
            done: self.done,
            catching: self.catching,
        }
    }
}

/// The fibers, and what of the one that runs is on the machine.
#[verifier::ext_equal]
pub struct Running {
    pub fibers: Map<u32, FiberModel>,
    pub stack: Seq<Value>,
    pub frames: Seq<Frame>,
    pub current: Option<ObjectId>,
}

impl Running {
    /// The fiber under a handle.
    pub open spec fn fiber(self, id: ObjectId) -> Option<FiberModel> {
        if id.spec_tag() == ObjectType::Fiber.spec_tag() && self.fibers.contains_key(
            id.spec_index(),
        ) {
            Some(self.fibers[id.spec_index()])
        } else {
            None
        }
    }

    /// The same with one fiber as given, if there is such a fiber.
    pub open spec fn with_fiber(self, id: ObjectId, fiber: FiberModel) -> Running {
        if self.fiber(id) is Some {
            Running { fibers: self.fibers.insert(id.spec_index(), fiber), ..self }
        } else {
            self
        }
    }

    /// The frames once the running one has stopped at a place in its code.
    pub open spec fn stopped(self, ip: usize, chunk: Rc<Chunk>) -> Seq<Frame> {
        if self.frames.len() == 0 {
            self.frames
        } else {
            self.frames.update(
                self.frames.len() - 1,
                Frame { ip, chunk: Some(chunk), ..self.frames.last() },
            )
        }
    }

    /// The running fiber's stack and frames put back into it.
    pub open spec fn parked(self, ip: usize, chunk: Rc<Chunk>) -> Running {
        match self.current {
            None => Running { frames: self.stopped(ip, chunk), ..self },
            Some(id) => {
                let empty = Running { stack: Seq::empty(), frames: Seq::empty(), ..self };
                match self.fiber(id) {
                    Some(fiber) => empty.with_fiber(
                        id,
                        FiberModel {
                            stack: self.stack,
                            frames: self.stopped(ip, chunk),
                            ..fiber
                        },
                    ),
                    None => empty,
                }
            },
        }
    }

    /// What resuming a fiber with a value makes of this, and why it fails, if
    /// it does.
    ///
    /// A fiber that has not started begins with its function, and the value as
    /// the argument if the function takes one; one that has goes on with the
    /// value as what its call gave.
    pub open spec fn resumed(self, heap: HeapModel, target: ObjectId, value: Value) -> (
        Running,
        Option<Seq<char>>,
    ) {
        match self.fiber(target) {
            None => (self, Some("Not a fiber."@)),
            Some(fiber) => {
                let left = self.with_fiber(
                    target,
                    FiberModel { stack: Seq::empty(), frames: Seq::empty(), ..fiber },
                );
                if fiber.done {
                    (left, Some("Cannot call a finished fiber."@))
                } else if fiber.frames.len() > 0 {
                    (
                        Running {
                            stack: fiber.stack.push(value),
                            frames: fiber.frames,
                            current: Some(target),
                            ..left
                        },
                        None,
                    )
                } else {
                    match fiber.entry {
                        None => (left, Some("Fiber has no function."@)),
                        Some(entry) => match heap.closure(entry) {
                            None => (left, Some("Not a closure."@)),
                            Some(closure) => match heap.function(closure.function) {
                                None => (left, Some("Closure has no function."@)),
                                Some(function) => (
                                    Running {
                                        stack: if function.arity > 0 {
                                            fiber.stack.push(Value::object(entry)).push(value)
                                        } else {
                                            fiber.stack.push(Value::object(entry))
                                        },
                                        frames: seq![
                                            Frame {
                                                closure: entry,
                                                ip: 0,
                                                base: 0,
                                                chunk: Some(function.chunk),
                                                module: function.module,
                                                field_offset: function.field_offset as u16,
                                            },
                                        ],
                                        current: Some(target),
                                        ..left
                                    },
                                    None,
                                ),
                            },
                        },
                    }
                }
            },
        }
    }

    /// The target of a switch remembering who resumed it, where it is to.
    pub open spec fn with_caller(self, switch: Switch, from: Option<ObjectId>) -> Running {
        match self.fiber(switch.target) {
            Some(fiber) => if switch.set_caller {
                self.with_fiber(
                    switch.target,
                    FiberModel { caller: from, catching: switch.catching, ..fiber },
                )
            } else {
                self
            },
            None => self,
        }
    }

    /// A fiber marked as finished.
    pub open spec fn finished(self, id: Option<ObjectId>) -> Running {
        match id {
            Some(id) => match self.fiber(id) {
                Some(fiber) => self.with_fiber(id, FiberModel { done: true, ..fiber }),
                None => self,
            },
            None => self,
        }
    }

    /// What a switch makes of this, and why it fails, if it does.
    pub open spec fn switched(
        self,
        heap: HeapModel,
        switch: Switch,
        ip: usize,
        chunk: Rc<Chunk>,
    ) -> (Running, Option<Seq<char>>) {
        let told = self.parked(ip, chunk).with_caller(switch, self.current);
        let left = if switch.finishing {
            told.finished(self.current)
        } else {
            told
        };
        left.resumed(heap, switch.target, switch.value)
    }

    /// Who asked for the errors of a fiber: the caller of the nearest fiber,
    /// itself or above it, that was tried. A chain longer than the limit is
    /// taken to have none.
    pub open spec fn catcher(self, at: Option<ObjectId>, limit: nat) -> Option<ObjectId>
        decreases limit,
    {
        match at {
            None => None,
            Some(id) => if limit == 0 {
                None
            } else {
                match self.fiber(id) {
                    None => None,
                    Some(fiber) => if fiber.catching {
                        fiber.caller
                    } else {
                        self.catcher(fiber.caller, (limit - 1) as nat)
                    },
                }
            },
        }
    }

    /// Every fiber from one up to the nearest that was tried marked as failed,
    /// and cut from its caller unless it is that one.
    pub open spec fn failed(self, at: Option<ObjectId>, message: Value, limit: nat) -> Running
        decreases limit,
    {
        match at {
            None => self,
            Some(id) => if limit == 0 {
                self
            } else {
                match self.fiber(id) {
                    None => self,
                    Some(fiber) => if fiber.catching {
                        self.with_fiber(id, FiberModel { error: message, done: true, ..fiber })
                    } else {
                        self.with_fiber(
                            id,
                            FiberModel { error: message, done: true, caller: None, ..fiber },
                        ).failed(fiber.caller, message, (limit - 1) as nat)
                    },
                }
            },
        }
    }
}

impl Vm {
    /// The fibers, and what of the one that runs is here.
    pub open spec fn running(&self) -> Running {
        Running {
            fibers: self.heap@.fibers.map_values(|fiber: Box<ObjFiber>| fiber.model()),
            stack: self.stack@,
            frames: self.frames@,
            current: self.current_fiber,
        }
    }

    /// Whether a machine differs from an earlier one in its fibers at most,
    /// and in which of them runs.
    pub open spec fn only_fibers(&self, before: &Vm) -> bool {
        &&& *self == (Vm {
            heap: self.heap,
            stack: self.stack,
            frames: self.frames,
            current_fiber: self.current_fiber,
            ..*before
        })
        &&& self.heap@ == (HeapModel { fibers: self.heap@.fibers, ..before.heap@ })
        &&& self.heap.same_books(&before.heap)
    }

    /// Write where the running frame stopped.
    pub fn stop_frame(&mut self, ip: usize, chunk: Rc<Chunk>)
        ensures
            *final(self) == (Vm { frames: final(self).frames, ..*old(self) }),
            final(self).frames@ == old(self).running().stopped(ip, chunk),
    {
        let depth: usize = self.frames.len();
        if depth > 0 {
            let frame = &self.frames[depth - 1];
            let stopped = Frame {
                closure: frame.closure,
                ip,
                base: frame.base,
                chunk: Some(chunk),
                module: frame.module,
                field_offset: frame.field_offset,
            };
            self.frames.set(depth - 1, stopped);
        }
    }

    /// Put the running fiber's stack and frames back into it.
    pub fn park_current(&mut self, ip: usize, chunk: Rc<Chunk>)
        requires
            old(self).wf(),
        ensures
            final(self).wf(),
            final(self).only_fibers(old(self)),
            final(self).running() == old(self).running().parked(ip, chunk),
    {
        let ghost before = *self;
        self.stop_frame(ip, chunk);
        let id = match self.current_fiber {
            None => {
                proof {
                    assert(self.running() =~= before.running().parked(ip, chunk));
                }
                return;
            },
            Some(id) => id,
        };
        let mut stack: Vec<Value> = Vec::new();
        let mut frames: Vec<Frame> = Vec::new();
        core::mem::swap(&mut stack, &mut self.stack);
        core::mem::swap(&mut frames, &mut self.frames);
        match self.heap.fiber_mut(id) {
            Some(fiber) => {
                fiber.stack = stack;
                fiber.frames = frames;
            },
            None => {},
        }
        proof {
            assert(self.running() =~= before.running().parked(ip, chunk));
        }
    }

    /// The code of the frame on top, taken out of it now that it runs.
    pub fn resume_chunk(&mut self) -> (r: Result<Rc<Chunk>, RuntimeError>)
        requires
            old(self).wf(),
        ensures
            final(self).wf(),
            *final(self) == (Vm { frames: final(self).frames, ..*old(self) }),
            super::agrees(r, old(self).spec_resume_chunk()),
            final(self).frames@ == started(old(self).frames@),
    {
        let depth: usize = self.frames.len();
        if depth == 0 {
            return Err(RuntimeError::new("No frame to resume."));
        }
        let ghost before = *self;
        let mut top = match self.frames.pop() {
            Some(top) => top,
            None => {
                return Err(RuntimeError::new("No frame to resume."));
            },
        };
        let closure = top.closure;
        let chunk: Option<Rc<Chunk>> = top.chunk.take();
        self.frames.push(top);
        proof {
            assert(self.frames@ =~= started(before.frames@));
        }
        match chunk {
            Some(chunk) => Ok(chunk),
            None => match self.call_target(closure) {
                Ok(target) => Ok(target.chunk),
                Err(error) => Err(error),
            },
        }
    }

    /// The code of the frame on top, or why it has none.
    pub open spec fn spec_resume_chunk(&self) -> Result<Rc<Chunk>, Seq<char>> {
        if self.frames@.len() == 0 {
            Err("No frame to resume."@)
        } else {
            match self.frames@.last().chunk {
                Some(chunk) => Ok(chunk),
                None => match self.heap@.closure(self.frames@.last().closure) {
                    None => Err("Not a closure."@),
                    Some(closure) => match self.heap@.function(closure.function) {
                        None => Err("Closure has no function."@),
                        Some(function) => Ok(function.chunk),
                    },
                },
            }
        }
    }

    /// Go on in a fiber with a value.
    pub fn resume(&mut self, target: ObjectId, value: Value) -> (r: Result<(), RuntimeError>)
        requires
            old(self).wf(),
        ensures
            final(self).wf(),
            final(self).only_fibers(old(self)),
            final(self).running() == old(self).running().resumed(
                old(self).heap@,
                target,
                value,
            ).0,
            match old(self).running().resumed(old(self).heap@, target, value).1 {
                None => r is Ok,
                Some(message) => super::fails(r, message),
            },
    {
        let ghost before = *self;
        let ghost next = before.running().resumed(before.heap@, target, value).0;
        let mut stack: Vec<Value> = Vec::new();
        let mut frames: Vec<Frame> = Vec::new();
        let entry: Option<ObjectId>;
        let done: bool;
        match self.heap.fiber_mut(target) {
            None => {
                return Err(RuntimeError::new("Not a fiber."));
            },
            Some(fiber) => {
                core::mem::swap(&mut stack, &mut fiber.stack);
                core::mem::swap(&mut frames, &mut fiber.frames);
                entry = fiber.entry;
                done = fiber.done;
            },
        }
        if done {
            proof {
                assert(self.running() =~= next);
            }
            return Err(RuntimeError::new("Cannot call a finished fiber."));
        }
        if frames.len() == 0 {
            let entry = match entry {
                None => {
                    proof {
                        assert(self.running() =~= next);
                    }
                    return Err(RuntimeError::new("Fiber has no function."));
                },
                Some(entry) => entry,
            };
            match self.call_target(entry) {
                Err(error) => {
                    proof {
                        assert(self.running() =~= next);
                    }
                    return Err(error);
                },
                Ok(code) => {
                    stack.push(Value::object(entry));
                    if code.arity > 0 {
                        stack.push(value);
                    }
                    frames.push(
                        Frame {
                            closure: entry,
                            ip: 0,
                            base: 0,
                            chunk: Some(code.chunk),
                            module: code.module,
                            field_offset: code.field_offset,
                        },
                    );
                },
            }
        } else {
            stack.push(value);
        }
        self.stack = stack;
        self.frames = frames;
        self.current_fiber = Some(target);
        proof {
            assert(self.running() =~= next);
        }
        Ok(())
    }

    /// Mark a fiber as finished.
    pub fn finish_fiber(&mut self, id: Option<ObjectId>)
        requires
            old(self).wf(),
        ensures
            final(self).wf(),
            final(self).only_fibers(old(self)),
            final(self).running() == old(self).running().finished(id),
    {
        let ghost before = *self;
        match id {
            None => {},
            Some(id) => {
                match self.heap.fiber_mut(id) {
                    Some(fiber) => {
                        fiber.done = true;
                    },
                    None => {},
                }
            },
        }
        proof {
            assert(self.running() =~= before.running().finished(id));
        }
    }

    /// Whether a machine is an earlier one that left its fiber for another, or
    /// why not.
    pub open spec fn performed(
        &self,
        before: &Vm,
        switch: Switch,
        ip: usize,
        chunk: Rc<Chunk>,
        r: Result<(), RuntimeError>,
    ) -> bool {
        let (next, error) = before.running().switched(before.heap@, switch, ip, chunk);
        &&& self.only_fibers(before)
        &&& self.running() == next
        &&& match error {
            None => r is Ok,
            Some(message) => super::fails(r, message),
        }
    }

    /// Leave the running fiber for another.
    pub fn perform_switch(&mut self, switch: Switch, ip: usize, chunk: Rc<Chunk>) -> (r: Result<
        (),
        RuntimeError,
    >)
        requires
            old(self).wf(),
        ensures
            final(self).wf(),
            final(self).performed(old(self), switch, ip, chunk, r),
    {
        let ghost before = *self;
        let from: Option<ObjectId> = self.current_fiber;
        self.park_current(ip, chunk);
        let ghost parked = *self;
        if switch.set_caller {
            match self.heap.fiber_mut(switch.target) {
                Some(fiber) => {
                    fiber.caller = from;
                    fiber.catching = switch.catching;
                },
                None => {},
            }
        }
        proof {
            assert(self.running() =~= parked.running().with_caller(switch, from));
        }
        if switch.finishing {
            self.finish_fiber(from);
        }
        self.resume(switch.target, switch.value)
    }

    /// The limit on a chain of callers: how many objects there are.
    pub open spec fn chain_limit(&self) -> nat {
        self.heap.stats().live as nat
    }

    /// Whether anyone asked for the running fiber's errors.
    pub open spec fn has_catcher(&self) -> bool {
        self.running().catcher(self.current_fiber, self.chain_limit()) is Some
    }

    /// Who asked for the running fiber's errors.
    pub fn catcher(&self) -> (r: Option<ObjectId>)
        requires
            self.wf(),
        ensures
            r == self.running().catcher(self.current_fiber, self.chain_limit()),
    {
        let mut current: Option<ObjectId> = self.current_fiber;
        let mut left: usize = self.heap.live();
        while left > 0
            invariant
                self.wf(),
                self.running().catcher(self.current_fiber, self.chain_limit())
                    == self.running().catcher(current, left as nat),
            decreases left,
        {
            match current {
                None => {
                    return None;
                },
                Some(id) => {
                    match self.heap.fiber(id) {
                        None => {
                            return None;
                        },
                        Some(fiber) => {
                            if fiber.catching {
                                return fiber.caller;
                            }
                            current = fiber.caller;
                        },
                    }
                },
            }
            left = left - 1;
        }
        None
    }

    /// Mark every fiber from the running one up to the nearest that was tried
    /// as failed.
    fn fail_fibers(&mut self, message: Value, limit: usize)
        requires
            old(self).wf(),
        ensures
            final(self).wf(),
            final(self).only_fibers(old(self)),
            final(self).running() == old(self).running().failed(
                old(self).current_fiber,
                message,
                limit as nat,
            ),
    {
        let ghost before = *self;
        let mut current: Option<ObjectId> = self.current_fiber;
        let mut left: usize = limit;
        while left > 0
            invariant
                before == *old(self),
                self.wf(),
                self.only_fibers(&before),
                self.running().failed(current, message, left as nat) == before.running().failed(
                    before.current_fiber,
                    message,
                    limit as nat,
                ),
            decreases left,
        {
            let ghost mid = *self;
            match current {
                None => {
                    return;
                },
                Some(id) => {
                    let mut caught: bool = false;
                    match self.heap.fiber_mut(id) {
                        None => {
                            return;
                        },
                        Some(fiber) => {
                            fiber.error = message;
                            fiber.done = true;
                            if fiber.catching {
                                caught = true;
                            } else {
                                current = fiber.caller;
                                fiber.caller = None;
                            }
                        },
                    }
                    proof {
                        let fiber = mid.running().fiber(id)->0;
                        if caught {
                            assert(self.running() =~= mid.running().with_fiber(
                                id,
                                FiberModel { error: message, done: true, ..fiber },
                            ));
                        } else {
                            assert(self.running() =~= mid.running().with_fiber(
                                id,
                                FiberModel { error: message, done: true, caller: None, ..fiber },
                            ));
                        }
                    }
                    if caught {
                        return;
                    }
                },
            }
            left = left - 1;
        }
    }

    /// Whether a machine is an earlier one with an error handed on, and where it goes
    /// on.
    pub open spec fn delivered(&self, before: &Vm, error: RuntimeError, ip: usize, chunk: Rc<Chunk>, r: Result<Landing, RuntimeError>) -> bool {
        &&& match before.running().catcher(before.current_fiber, before.chain_limit()) {
            None => r == Err::<Landing, RuntimeError>(error) && *self == *before,
            Some(catcher) => exists|mid: Vm, id: ObjectId| #[trigger]
                mid.told_error(before, id, error.message@) && self.landed(
                    &mid,
                    catcher,
                    Value::object(id),
                    ip,
                    chunk,
                    r,
                ),
        }
    }

    /// Hand an error to whoever asked for it, and go on there. Without anyone,
    /// it is the program's.
    ///
    /// The fibers in between have failed: each is finished, and remembers the
    /// error.
    pub fn deliver_error(&mut self, error: RuntimeError, ip: usize, chunk: Rc<Chunk>) -> (r: Result<
        Landing,
        RuntimeError,
    >)
        requires
            old(self).wf(),
            old(self).has_catcher() ==> old(self).heap.has_slots(1),
        ensures
            final(self).wf(),
            final(self).delivered(old(self), error, ip, chunk, r),
    {
        let catcher = match self.catcher() {
            None => {
                return Err(error);
            },
            Some(catcher) => catcher,
        };
        let ghost before = *self;
        let limit: usize = self.heap.live();
        let id = self.heap.allocate(Object::String(ObjString::from_text(error.message.as_str())));
        let message = Value::object(id);
        let ghost stringed = *self;
        self.fail_fibers(message, limit);
        let ghost mid = *self;
        proof {
            assert(stringed.running() =~= before.running());
            assert(mid.told_error(&before, id, error.message@));
        }
        let switch = Switch {
            target: catcher,
            value: message,
            set_caller: false,
            catching: false,
            finishing: false,
            as_error: false,
        };
        let switched = self.perform_switch(switch, ip, chunk);
        match switched {
            Err(error) => Err(error),
            Ok(_) => self.land(),
        }
    }

    /// Whether a machine is an earlier one with the frame on top begun, and
    /// where it goes on.
    pub open spec fn took_off(&self, before: &Vm, r: Result<Landing, RuntimeError>) -> bool {
        &&& *self == (Vm { frames: self.frames, ..*before })
        &&& self.frames@ == started(before.frames@)
        &&& super::agrees(r, landing_of(before.heap@, before.frames@))
    }

    /// Where to go on, in the frame on top.
    pub fn land(&mut self) -> (r: Result<Landing, RuntimeError>)
        requires
            old(self).wf(),
        ensures
            final(self).wf(),
            final(self).took_off(old(self), r),
    {
        match self.resume_chunk() {
            Err(error) => Err(error),
            Ok(chunk) => {
                let depth: usize = self.frames.len();
                let frame = &self.frames[depth - 1];
                Ok(Landing { chunk, ip: frame.ip, base: frame.base, module: frame.module })
            },
        }
    }

    /// Whether a machine is an earlier one with an error's message made a
    /// string, and the fibers it passes through marked as failed.
    pub open spec fn told_error(&self, before: &Vm, id: ObjectId, message: Seq<char>) -> bool {
        let string = self.heap@.string(id)->0;
        &&& !before.heap@.has(id)
        &&& id.spec_tag() == ObjectType::String.spec_tag()
        &&& string.wf()
        &&& string.bytes@ == vstd::utf8::encode_utf8(message)
        &&& self.heap@ == (HeapModel {
            strings: before.heap@.strings.insert(id.spec_index(), string),
            fibers: self.heap@.fibers,
            ..before.heap@
        })
        &&& self.running() == before.running().failed(
            before.current_fiber,
            Value::object(id),
            before.chain_limit(),
        )
        &&& *self == (Vm {
            heap: self.heap,
            stack: self.stack,
            frames: self.frames,
            current_fiber: self.current_fiber,
            ..*before
        })
        &&& forall|n: int| #[trigger] before.heap.has_slots(n) ==> self.heap.has_slots(n - 1)
        &&& self.heap.chunks() == before.heap.chunks()
    }

    /// Whether a machine is an earlier one gone on in a fiber with a value, at
    /// the place given; or why it could not.
    pub open spec fn landed(
        &self,
        before: &Vm,
        target: ObjectId,
        value: Value,
        ip: usize,
        chunk: Rc<Chunk>,
        r: Result<Landing, RuntimeError>,
    ) -> bool {
        let switch = Switch {
            target,
            value,
            set_caller: false,
            catching: false,
            finishing: false,
            as_error: false,
        };
        let (next, error) = before.running().switched(before.heap@, switch, ip, chunk);
        &&& self.only_fibers(before)
        &&& match error {
            Some(message) => super::fails(r, message) && self.running() == next,
            None => {
                &&& self.running() == (Running { frames: started(next.frames), ..next })
                &&& super::agrees(r, landing_of(before.heap@, next.frames))
            },
        }
    }
}

/// Where a run of frames goes on.
pub struct Landing {
    pub chunk: Rc<Chunk>,
    pub ip: usize,
    pub base: usize,
    pub module: usize,
}

/// Where a run of frames goes on, or why it cannot.
pub open spec fn landing_of(heap: HeapModel, frames: Seq<Frame>) -> Result<Landing, Seq<char>> {
    if frames.len() == 0 {
        Err("No frame to resume."@)
    } else {
        let top = frames.last();
        match top.chunk {
            Some(chunk) => Ok(
                Landing { chunk, ip: top.ip, base: top.base, module: top.module },
            ),
            None => match heap.closure(top.closure) {
                None => Err("Not a closure."@),
                Some(closure) => match heap.function(closure.function) {
                    None => Err("Closure has no function."@),
                    Some(function) => Ok(
                        Landing {
                            chunk: function.chunk,
                            ip: top.ip,
                            base: top.base,
                            module: top.module,
                        },
                    ),
                },
            },
        }
    }
}

/// The frames once the one on top has begun to run: it gives up its code.
pub open spec fn started(frames: Seq<Frame>) -> Seq<Frame> {
    if frames.len() == 0 {
        frames
    } else {
        frames.update(frames.len() - 1, Frame { chunk: None, ..frames.last() })
    }
}

/// A fiber that was put aside goes on where it stopped: with the stack it had,
/// the value it was resumed with on top, and the frames it had.
pub proof fn law_parked_fiber_goes_on(
    running: Running,
    heap: HeapModel,
    id: ObjectId,
    ip: usize,
    chunk: Rc<Chunk>,
    value: Value,
)
    requires
        running.current == Some(id),
        running.fiber(id) is Some,
        !running.fiber(id)->0.done,
        running.frames.len() > 0,
    ensures
        running.parked(ip, chunk).resumed(heap, id, value).1 is None,
        running.parked(ip, chunk).resumed(heap, id, value).0.stack == running.stack.push(value),
        running.parked(ip, chunk).resumed(heap, id, value).0.frames == running.stopped(ip, chunk),
        running.parked(ip, chunk).resumed(heap, id, value).0.current == Some(id),
{
}

} // verus!
