//! Calls: what they need set up, and how they go wrong.

use std::rc::Rc;

use vstd::prelude::*;
use vstd::string::*;

use super::{Frame, RuntimeError, Vm, MAX_FRAMES};
use crate::bytecode::Chunk;
use crate::handle::ObjectId;
use crate::heap::{HeapModel, InstanceModel};
use crate::object::{Method, ObjFiber, ObjString, Object, ObjectType};
use crate::text::push_decimal;
use crate::value::Value;

verus! {

/// What is said where a receiver has no such method.
pub open spec fn no_method_message(class: Seq<char>, signature: Seq<char>) -> Seq<char> {
    class + " does not implement '"@ + signature + "'."@
}

/// What is said where a function is given the wrong number of arguments.
pub open spec fn arity_message(expected: nat, given: nat) -> Seq<char> {
    "Function expects "@ + crate::text::decimal(expected) + " argument(s) but got "@
        + crate::text::decimal(given) + "."@
}

/// The error for too many calls in progress.
pub fn stack_overflow(line: u16) -> (error: RuntimeError)
    ensures
        error.message@ == "Stack overflow."@,
        error.line == line,
{
    RuntimeError { message: "Stack overflow.".to_owned(), line }
}

/// The error for an instruction there is no such thing as.
pub fn bad_opcode(byte: u8, line: u16) -> (error: RuntimeError)
    ensures
        error.message@ == "bad opcode "@ + crate::text::decimal(byte as nat),
        error.line == line,
{
    let mut message: String = "bad opcode ".to_owned();
    push_decimal(&mut message, byte as u64);
    RuntimeError { message, line }
}

/// The error for the wrong number of arguments.
pub fn wrong_arity(expected: usize, given: usize, line: u16) -> (error: RuntimeError)
    ensures
        error.message@ == arity_message(expected as nat, given as nat),
        error.line == line,
{
    let mut message: String = "Function expects ".to_owned();
    push_decimal(&mut message, expected as u64);
    message.append(" argument(s) but got ");
    push_decimal(&mut message, given as u64);
    message.append(".");
    RuntimeError { message, line }
}

/// The error for a method that is not there.
pub fn lacks_method(class: &str, signature: &str, line: u16) -> (error: RuntimeError)
    ensures
        error.message@ == no_method_message(class@, signature@),
        error.line == line,
{
    let mut message: String = class.to_owned();
    message.append(" does not implement '");
    message.append(signature);
    message.append("'.");
    RuntimeError { message, line }
}

/// A call that is ready to be made.
pub struct Prepared {
    /// What to call.
    pub method: Method,
    /// Where its receiver is on the stack.
    pub at: usize,
}

impl Vm {
    /// Make a string of text.
    pub fn new_string(&mut self, text: &str) -> (value: Value)
        requires
            old(self).wf(),
            old(self).heap.has_slots(1),
        ensures
            final(self).wf(),
            *final(self) == (Vm { heap: final(self).heap, ..*old(self) }),
            final(self).made_string(old(self), value, vstd::utf8::encode_utf8(text@)),
    {
        broadcast use crate::value::law_object_round_trip;

        Value::object(self.heap.allocate(Object::String(ObjString::from_text(text))))
    }

    /// Make a string of bytes.
    pub fn new_string_bytes(&mut self, bytes: Vec<u8>) -> (value: Value)
        requires
            old(self).wf(),
            old(self).heap.has_slots(1),
        ensures
            final(self).wf(),
            *final(self) == (Vm { heap: final(self).heap, ..*old(self) }),
            final(self).made_string(old(self), value, bytes@),
    {
        broadcast use crate::value::law_object_round_trip;

        Value::object(self.heap.allocate(Object::String(ObjString::new(bytes))))
    }

    /// Whether a machine is an earlier one with a string of these bytes added.
    pub open spec fn made_string(&self, before: &Vm, value: Value, bytes: Seq<u8>) -> bool {
        &&& value.spec_as_object() matches Some(id)
        &&& value == Value::object(id)
        &&& self.heap@.string(id) matches Some(string)
        &&& string.wf()
        &&& string.bytes@ == bytes
        &&& self.heap.allocated(&before.heap, id, Object::String(string))
    }

    /// Make the object that a class's attributes are read through.
    pub fn new_class_attributes(&mut self, own: Value, methods: Value) -> (value: Value)
        requires
            old(self).wf(),
            old(self).heap.has_room(1),
        ensures
            final(self).wf(),
            *final(self) == (Vm { heap: final(self).heap, ..*old(self) }),
            ({
                &&& value.spec_as_object() matches Some(id)
                &&& value == Value::object(id)
                &&& id.spec_tag() == ObjectType::Instance.spec_tag()
                &&& !old(self).heap@.has(id)
                &&& final(self).heap@ == (HeapModel {
                    instances: old(self).heap@.instances.insert(
                        id.spec_index(),
                        (InstanceModel {
                            class: old(self).class_attributes_class,
                            fields: seq![own, methods],
                        }),
                    ),
                    ..old(self).heap@
                })
            }),
    {
        broadcast use crate::value::law_object_round_trip;

        let class = self.class_attributes_class;
        let mut fields: Vec<Value> = Vec::new();
        fields.push(own);
        fields.push(methods);
        proof {
            assert(fields@ =~= seq![own, methods]);
        }
        Value::object(self.heap.new_instance(class, fields.as_slice()))
    }

    /// Why a call of a closure cannot begin.
    pub open spec fn call_refused(&self, closure: ObjectId) -> Option<Seq<char>> {
        if self.frames@.len() >= MAX_FRAMES {
            Some("Stack overflow."@)
        } else if self.heap@.closure(closure) is None {
            Some("Not a closure."@)
        } else if self.spec_function_of(closure) is None {
            Some("Closure has no function."@)
        } else {
            None
        }
    }

    /// The frame a call of a closure begins with.
    pub open spec fn first_frame(&self, closure: ObjectId, base: usize) -> Frame {
        Frame {
            closure,
            ip: 0,
            base,
            chunk: None,
            module: self.spec_function_of(closure)->0.module,
            field_offset: self.spec_function_of(closure)->0.field_offset as u16,
        }
    }

    /// Begin a call of a closure.
    pub fn push_frame(&mut self, closure: ObjectId, base: usize) -> (r: Result<
        Rc<Chunk>,
        RuntimeError,
    >)
        requires
            old(self).wf(),
        ensures
            final(self).wf(),
            match old(self).call_refused(closure) {
                Some(message) => super::fails(r, message) && *final(self) == *old(self),
                None => {
                    &&& r matches Ok(chunk)
                    &&& chunk == old(self).spec_function_of(closure)->0.chunk
                    &&& *final(self) == (Vm { frames: final(self).frames, ..*old(self) })
                    &&& final(self).frames@ == old(self).frames@.push(
                        old(self).first_frame(closure, base),
                    )
                },
            },
    {
        if self.frames.len() >= MAX_FRAMES {
            return Err(RuntimeError::new("Stack overflow."));
        }
        match self.call_target(closure) {
            Err(error) => Err(error),
            Ok(target) => {
                self.frames.push(
                    Frame {
                        closure,
                        ip: 0,
                        base,
                        chunk: None,
                        module: target.module,
                        field_offset: target.field_offset,
                    },
                );
                Ok(target.chunk)
            },
        }
    }

    /// Begin running a closure as a program: in a fiber of its own if there is
    /// none yet, on top of what is on the stack.
    pub fn start_closure(&mut self, closure: ObjectId) -> (r: Result<Rc<Chunk>, RuntimeError>)
        requires
            old(self).wf(),
            old(self).heap.has_slots(1),
        ensures
            final(self).wf(),
            final(self).stack@ == old(self).stack@.push(Value::null()),
            match old(self).current_fiber {
                Some(_) => {
                    &&& final(self).heap == old(self).heap
                    &&& *final(self) == (Vm {
                        stack: final(self).stack,
                        frames: final(self).frames,
                        ..*old(self)
                    })
                },
                None => {
                    &&& final(self).current_fiber matches Some(root)
                    &&& final(self).heap@.fiber(root) matches Some(fiber)
                    &&& final(self).heap.allocated(
                        &old(self).heap,
                        root,
                        Object::Fiber(Box::new(fiber)),
                    )
                    &&& fiber.model() == (super::fibers::FiberModel {
                        stack: Seq::empty(),
                        frames: Seq::empty(),
                        entry: Some(closure),
                        caller: None,
                        error: Value::null(),
                        done: false,
                        catching: false,
                    })
                    &&& *final(self) == (Vm {
                        heap: final(self).heap,
                        stack: final(self).stack,
                        frames: final(self).frames,
                        current_fiber: Some(root),
                        root_fiber: Some(root),
                        ..*old(self)
                    })
                },
            },
            match old(self).call_refused(closure) {
                Some(message) => super::fails(r, message) && final(self).frames
                    == old(self).frames,
                None => {
                    &&& r matches Ok(chunk)
                    &&& chunk == old(self).spec_function_of(closure)->0.chunk
                    &&& final(self).frames@ == old(self).frames@.push(
                        old(self).first_frame(closure, old(self).stack@.len() as usize),
                    )
                },
            },
    {
        let ghost before = *self;
        if self.current_fiber.is_none() {
            let fiber = ObjFiber::new(closure);
            proof {
                assert(fiber.model() =~= (super::fibers::FiberModel {
                    stack: Seq::empty(),
                    frames: Seq::empty(),
                    entry: Some(closure),
                    caller: None,
                    error: Value::null(),
                    done: false,
                    catching: false,
                }));
            }
            let root = self.heap.allocate(Object::Fiber(Box::new(fiber)));
            self.current_fiber = Some(root);
            self.root_fiber = Some(root);
        }
        proof {
            assert(self.spec_function_of(closure) == before.spec_function_of(closure));
            assert(self.heap@.closure(closure) == before.heap@.closure(closure));
        }
        let base: usize = self.stack.len();
        self.stack.push(Value::null());
        self.push_frame(closure, base)
    }

    /// The error for a receiver on the stack that has no method under a
    /// symbol.
    pub fn no_such_method(&self, receiver_at: usize, symbol: usize, line: u16) -> (error:
        RuntimeError)
        requires
            self.wf(),
            receiver_at < self.stack@.len(),
        ensures
            error.line == line,
            error.message@ == no_method_message(
                self.spec_receiver_class(self.stack@[receiver_at as int]),
                self.spec_signature(symbol as int),
            ),
    {
        let class = self.receiver_class(self.stack[receiver_at]);
        match self.method_names.name(symbol) {
            Some(name) => lacks_method(class.as_str(), name, line),
            None => lacks_method(class.as_str(), "?", line),
        }
    }

    /// The signature a symbol stands for, or a question mark.
    pub open spec fn spec_signature(&self, symbol: int) -> Seq<char> {
        if 0 <= symbol < self.method_names@.len() {
            self.method_names@[symbol]
        } else {
            "?"@
        }
    }

    /// The name of a receiver's class as errors give it.
    pub open spec fn spec_receiver_class(&self, receiver: Value) -> Seq<char> {
        match self.spec_class_of(receiver) {
            Some(class) => self.spec_class_name(class),
            None => "null"@,
        }
    }

    /// The name of a receiver's class as errors give it.
    pub fn receiver_class(&self, receiver: Value) -> (name: String)
        requires
            self.wf(),
        ensures
            name@ == self.spec_receiver_class(receiver),
    {
        match self.class_of(receiver) {
            Some(class) => self.class_name(class),
            None => "null".to_owned(),
        }
    }

    /// The method a receiver has under a signature.
    pub open spec fn spec_method_of(&self, receiver: Value, signature: Seq<char>) -> Option<
        Method,
    > {
        if self.method_names@.contains(signature) {
            match self.spec_class_of(receiver) {
                Some(class) => self.spec_find_method(
                    class,
                    self.method_names@.index_of(signature),
                ),
                None => None,
            }
        } else {
            None
        }
    }

    /// Set up a call of a method without arguments. A receiver that has no
    /// such method is its own answer, and nothing is set up.
    pub fn prepare_invoke(&mut self, receiver: Value, signature: &str) -> (r: Option<Prepared>)
        requires
            old(self).wf(),
        ensures
            final(self).wf(),
            match old(self).spec_method_of(receiver, signature@) {
                None => r is None && *final(self) == *old(self),
                Some(method) => {
                    &&& r matches Some(call)
                    &&& call.method == method
                    &&& call.at == old(self).stack@.len()
                    &&& *final(self) == (Vm { stack: final(self).stack, ..*old(self) })
                    &&& final(self).stack@ == old(self).stack@.push(receiver)
                },
            },
    {
        let symbol: usize = match self.method_names.find(signature) {
            None => {
                return None;
            },
            Some(symbol) => symbol,
        };
        proof {
            crate::symbol::lemma_index(&self.method_names, signature@, symbol as int);
        }
        match self.class_of(receiver) {
            None => None,
            Some(class) => match self.find_method(class, symbol) {
                None => None,
                Some(method) => {
                    let at: usize = self.stack.len();
                    self.stack.push(receiver);
                    Some(Prepared { method, at })
                },
            },
        }
    }

    /// Why a method cannot be invoked on a receiver.
    pub open spec fn invoke_refused(&self, receiver: Value, signature: Seq<char>) -> Option<
        Seq<char>,
    > {
        if !self.method_names@.contains(signature) {
            Some(no_method_message(self.spec_receiver_class(receiver), signature))
        } else {
            match self.spec_class_of(receiver) {
                None => Some("Receiver has no class."@),
                Some(class) => if self.spec_method_of(receiver, signature) is None {
                    Some(no_method_message(self.spec_class_name(class), signature))
                } else {
                    None
                },
            }
        }
    }

    /// Set up a call of a method with arguments.
    pub fn prepare_invoke_with(&mut self, receiver: Value, signature: &str, args: &[Value]) -> (r:
        Result<Prepared, RuntimeError>)
        requires
            old(self).wf(),
        ensures
            final(self).wf(),
            match old(self).invoke_refused(receiver, signature@) {
                Some(message) => super::fails(r, message) && *final(self) == *old(self),
                None => {
                    &&& r matches Ok(call)
                    &&& Some(call.method) == old(self).spec_method_of(receiver, signature@)
                    &&& call.at == old(self).stack@.len()
                    &&& *final(self) == (Vm { stack: final(self).stack, ..*old(self) })
                    &&& final(self).stack@ == old(self).stack@.push(receiver) + args@
                },
            },
    {
        let symbol: usize = match self.method_names.find(signature) {
            None => {
                let class = self.receiver_class(receiver);
                return Err(lacks_method(class.as_str(), signature, 0));
            },
            Some(symbol) => symbol,
        };
        proof {
            crate::symbol::lemma_index(&self.method_names, signature@, symbol as int);
        }
        match self.class_of(receiver) {
            None => Err(RuntimeError::new("Receiver has no class.")),
            Some(class) => match self.find_method(class, symbol) {
                None => {
                    let name = self.class_name(class);
                    Err(lacks_method(name.as_str(), signature, 0))
                },
                Some(method) => {
                    let at: usize = self.stack.len();
                    self.push_call(receiver, args);
                    Ok(Prepared { method, at })
                },
            },
        }
    }

    /// Push a receiver and its arguments.
    fn push_call(&mut self, receiver: Value, args: &[Value])
        ensures
            *final(self) == (Vm { stack: final(self).stack, ..*old(self) }),
            final(self).stack@ == old(self).stack@.push(receiver) + args@,
    {
        self.stack.push(receiver);
        let ghost before = *self;
        let mut i: usize = 0;
        while i < args.len()
            invariant
                i <= args@.len(),
                *self == (Vm { stack: self.stack, ..before }),
                self.stack@ == before.stack@ + args@.take(i as int),
            decreases args@.len() - i,
        {
            self.stack.push(args[i]);
            proof {
                assert(self.stack@ =~= before.stack@ + args@.take(i as int + 1));
            }
            i = i + 1;
        }
        proof {
            assert(args@.take(i as int) =~= args@);
        }
    }

    /// The closure that a value is.
    pub open spec fn spec_closure_value(&self, value: Value) -> Option<ObjectId> {
        match value.spec_as_object() {
            Some(id) => if self.heap@.closure(id) is Some {
                Some(id)
            } else {
                None
            },
            None => None,
        }
    }

    /// Set up a call of a function value.
    pub fn prepare_call(&mut self, function: Value, args: &[Value]) -> (r: Result<
        Prepared,
        RuntimeError,
    >)
        requires
            old(self).wf(),
        ensures
            final(self).wf(),
            match old(self).spec_closure_value(function) {
                None => {
                    &&& super::fails(r, "Argument must be a function."@)
                    &&& *final(self) == *old(self)
                },
                Some(closure) => {
                    &&& r matches Ok(call)
                    &&& call.method == Method::Closure(closure)
                    &&& call.at == old(self).stack@.len()
                    &&& *final(self) == (Vm { stack: final(self).stack, ..*old(self) })
                    &&& final(self).stack@ == old(self).stack@.push(function) + args@
                },
            },
    {
        match function.as_object() {
            None => Err(RuntimeError::new("Argument must be a function.")),
            Some(closure) => match self.heap.closure(closure) {
                None => Err(RuntimeError::new("Argument must be a function.")),
                Some(_) => {
                    let at: usize = self.stack.len();
                    self.push_call(function, args);
                    Ok(Prepared { method: Method::Closure(closure), at })
                },
            },
        }
    }

    /// Take a finished call's receiver and arguments off the stack.
    pub fn end_call(&mut self, at: usize)
        ensures
            *final(self) == (Vm { stack: final(self).stack, ..*old(self) }),
            final(self).stack@ == if at < old(self).stack@.len() {
                old(self).stack@.take(at as int)
            } else {
                old(self).stack@
            },
    {
        self.stack.truncate(at);
    }
}

} // verus!
