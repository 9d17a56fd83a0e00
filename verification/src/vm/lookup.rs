//! From a value to its class, from a class to its methods, and from a closure
//! to its code.

use std::rc::Rc;

use vstd::prelude::*;
use vstd::utf8::*;

use super::{RuntimeError, Vm};
use crate::bytecode::Chunk;
use crate::corelib::primitive::Primitive;
use crate::handle::ObjectId;
use crate::object::{
    entry_closure, entry_primitive, primitive_entry, Method, ObjFn, ObjectType,
};
use crate::value::Value;

verus! {

/// `Rc::clone`: another owner of the same chunk.
#[verifier::external_body]
pub(crate) fn share(chunk: &Rc<Chunk>) -> (r: Rc<Chunk>)
    ensures
        r == *chunk,
{
    Rc::clone(chunk)
}

/// What a call needs to know of the closure it calls.
pub struct CallTarget {
    pub chunk: Rc<Chunk>,
    pub arity: usize,
    pub module: usize,
    pub field_offset: u16,
}

/// What a name says where it has none, or is not text.
pub open spec fn text_or(bytes: Seq<u8>, fallback: Seq<char>) -> Seq<char> {
    if valid_utf8(bytes) {
        decode_utf8(bytes)
    } else {
        fallback
    }
}

impl Vm {
    /// The class of a value. Most types have one class, whatever the object
    /// holds, so the handle decides; a class or an instance that is gone has
    /// none, and neither has an upvalue, which no program can hold.
    pub open spec fn spec_class_of(&self, value: Value) -> Option<ObjectId> {
        if value.spec_is_num() {
            Some(self.num_class)
        } else if value == Value::bool(true) || value == Value::bool(false) {
            Some(self.bool_class)
        } else if value == Value::null() {
            Some(self.null_class)
        } else {
            match value.spec_as_object() {
                Some(id) => match ObjectType::spec_from_tag(id.spec_tag()) {
                    Some(ObjectType::String) => Some(self.string_class),
                    Some(ObjectType::List) => Some(self.list_class),
                    Some(ObjectType::MapObject) => Some(self.map_class),
                    Some(ObjectType::Range) => Some(self.range_class),
                    Some(ObjectType::Fn) => Some(self.fn_class),
                    Some(ObjectType::Closure) => Some(self.fn_class),
                    Some(ObjectType::Fiber) => Some(self.fiber_class),
                    Some(ObjectType::Class) => match self.heap@.class(id) {
                        Some(class) => match class.metaclass {
                            Some(metaclass) => Some(metaclass),
                            None => Some(self.class_class),
                        },
                        None => None,
                    },
                    Some(ObjectType::Instance) => match self.heap@.instance(id) {
                        Some(instance) => Some(instance.class),
                        None => None,
                    },
                    Some(ObjectType::Upvalue) => None,
                    None => None,
                },
                None => None,
            }
        }
    }

    /// The class of a value.
    pub fn class_of(&self, value: Value) -> (r: Option<ObjectId>)
        requires
            self.wf(),
        ensures
            r == self.spec_class_of(value),
    {
        if value.is_num() {
            return Some(self.num_class);
        }
        if value.is_bool() {
            return Some(self.bool_class);
        }
        if value.is_null() {
            return Some(self.null_class);
        }
        let id = match value.as_object() {
            Some(id) => id,
            None => {
                return None;
            },
        };
        match self.heap.kind_of(id) {
            Some(ObjectType::String) => Some(self.string_class),
            Some(ObjectType::List) => Some(self.list_class),
            Some(ObjectType::MapObject) => Some(self.map_class),
            Some(ObjectType::Range) => Some(self.range_class),
            Some(ObjectType::Fn) => Some(self.fn_class),
            Some(ObjectType::Closure) => Some(self.fn_class),
            Some(ObjectType::Fiber) => Some(self.fiber_class),
            Some(ObjectType::Class) => match self.heap.class(id) {
                Some(class) => match class.metaclass {
                    Some(metaclass) => Some(metaclass),
                    None => Some(self.class_class),
                },
                None => None,
            },
            Some(ObjectType::Instance) => match self.heap.instance(id) {
                Some(instance) => Some(instance.class),
                None => None,
            },
            Some(ObjectType::Upvalue) => None,
            None => None,
        }
    }

    /// What a packed entry names.
    pub open spec fn spec_method(&self, entry: u32) -> Option<Method> {
        match crate::object::spec_entry_closure(entry) {
            Some(closure) => Some(Method::Closure(closure)),
            None => match crate::object::spec_entry_primitive(entry) {
                Some(index) => if index < self.primitives@.len() {
                    Some(Method::Primitive(self.primitives@[index]))
                } else {
                    None
                },
                None => None,
            },
        }
    }

    /// The method a class has under a symbol.
    pub open spec fn spec_find_method(&self, class: ObjectId, symbol: int) -> Option<Method> {
        match self.heap@.class(class) {
            Some(class) => self.spec_method(
                crate::object::entry_at(class.methods.entries(), symbol),
            ),
            None => None,
        }
    }

    /// The method a class has under a symbol.
    pub fn find_method(&self, class: ObjectId, symbol: usize) -> (r: Option<Method>)
        requires
            self.wf(),
        ensures
            r == self.spec_find_method(class, symbol as int),
    {
        let entry: u32 = match self.heap.class(class) {
            Some(class) => class.method_entry(symbol),
            None => {
                return None;
            },
        };
        match entry_closure(entry) {
            Some(closure) => Some(Method::Closure(closure)),
            None => match entry_primitive(entry) {
                Some(index) => if index < self.primitives.len() {
                    Some(Method::Primitive(self.primitives[index]))
                } else {
                    None
                },
                None => None,
            },
        }
    }

    /// Give a class a primitive under a symbol.
    ///
    /// The primitive is numbered whether or not the class is in the image, so
    /// that the numbers come out the same either way.
    pub fn bind_primitive(&mut self, class: ObjectId, symbol: usize, function: Primitive)
        requires
            old(self).wf(),
            symbol < usize::MAX,
        ensures
            final(self).wf(),
            final(self).primitives@ == old(self).primitives@.push(function),
            *final(self) == (Vm {
                heap: final(self).heap,
                primitives: final(self).primitives,
                ..*old(self)
            }),
            final(self).heap.same_books(&old(self).heap),
            old(self).heap@.class(class) is None || old(self).heap@.permanent(class)
                ==> final(self).heap@ == old(self).heap@,
            old(self).heap@.class(class) is Some && !old(self).heap@.permanent(class) ==> {
                &&& final(self).heap@ == (crate::heap::HeapModel {
                    classes: final(self).heap@.classes,
                    ..old(self).heap@
                })
                &&& forall|i: u32|
                    i != class.spec_index() ==> #[trigger] final(self).heap@.classes.contains_key(i)
                        == old(self).heap@.classes.contains_key(i) && final(self).heap@.classes[i]
                        == old(self).heap@.classes[i]
                &&& final(self).heap@.class(class) is Some
                &&& final(self).heap@.classes[class.spec_index()] is Owned
                &&& final(self).heap@.class(class)->0.same_but_methods(
                    &old(self).heap@.class(class)->0,
                )
                &&& old(self).heap@.class(class)->0.methods is Owned
                    ==> final(self).heap@.class(class)->0.methods.entries()
                    == crate::object::defined(
                    old(self).heap@.class(class)->0.methods.entries(),
                    symbol as int,
                    crate::object::spec_primitive_entry(
                        old(self).primitives@.len() as u32 as int,
                    ),
                )
                &&& old(self).heap@.class(class)->0.methods is Owned
                    ==> final(self).heap@.class(class)->0.methods is Owned
            },
    {
        let index: usize = self.primitives.len();
        self.primitives.push(function);
        match self.heap.class_mut(class) {
            Some(class) => {
                class.define(symbol, primitive_entry(index));
            },
            None => {},
        }
    }

    /// A class's name, or a question mark where it has none.
    pub open spec fn spec_class_name(&self, class: ObjectId) -> Seq<char> {
        match self.heap@.class(class) {
            Some(class) => match self.heap@.string(class.name) {
                Some(name) => text_or(name.bytes@, "?"@),
                None => "?"@,
            },
            None => "?"@,
        }
    }

    /// A class's name, or a question mark where it has none.
    pub fn class_name(&self, class: ObjectId) -> (name: String)
        requires
            self.wf(),
        ensures
            name@ == self.spec_class_name(class),
    {
        match self.heap.class(class) {
            Some(class) => match self.heap.string(class.name) {
                Some(name) => match name.as_str() {
                    Some(text) => text.to_owned(),
                    None => "?".to_owned(),
                },
                None => "?".to_owned(),
            },
            None => "?".to_owned(),
        }
    }

    /// The function a closure is made from.
    pub open spec fn spec_function_of(&self, closure: ObjectId) -> Option<ObjFn> {
        match self.heap@.closure(closure) {
            Some(closure) => self.heap@.function(closure.function),
            None => None,
        }
    }

    /// The function a closure is made from.
    pub fn function_of(&self, closure: ObjectId) -> (r: Option<&ObjFn>)
        requires
            self.wf(),
        ensures
            match r {
                Some(function) => self.spec_function_of(closure) == Some(*function),
                None => self.spec_function_of(closure) is None,
            },
    {
        match self.heap.closure(closure) {
            Some(closure) => self.heap.function(closure.function),
            None => None,
        }
    }

    /// How many arguments a closure takes.
    pub fn arity_of(&self, closure: ObjectId) -> (r: Option<usize>)
        requires
            self.wf(),
        ensures
            r == match self.spec_function_of(closure) {
                Some(function) => Some(function.arity),
                None => None,
            },
    {
        match self.function_of(closure) {
            Some(function) => Some(function.arity),
            None => None,
        }
    }

    /// The module a closure's code resolves its variables against.
    pub open spec fn spec_module_of(&self, closure: ObjectId) -> usize {
        match self.spec_function_of(closure) {
            Some(function) => function.module,
            None => 0,
        }
    }

    /// The module a closure's code resolves its variables against.
    pub fn module_of(&self, closure: ObjectId) -> (module: usize)
        requires
            self.wf(),
        ensures
            module == self.spec_module_of(closure),
    {
        match self.function_of(closure) {
            Some(function) => function.module,
            None => 0,
        }
    }

    /// The module of the call that is running.
    pub open spec fn spec_current_module(&self) -> usize {
        if self.frames@.len() > 0 {
            self.spec_module_of(self.frames@.last().closure)
        } else {
            0
        }
    }

    /// The module of the call that is running.
    pub fn current_module(&self) -> (module: usize)
        requires
            self.wf(),
        ensures
            module == self.spec_current_module(),
    {
        let depth: usize = self.frames.len();
        if depth > 0 {
            self.module_of(self.frames[depth - 1].closure)
        } else {
            0
        }
    }

    /// What a call needs to know of a closure.
    pub fn call_target(&self, closure: ObjectId) -> (r: Result<CallTarget, RuntimeError>)
        requires
            self.wf(),
        ensures
            match self.heap@.closure(closure) {
                None => super::fails(r, "Not a closure."@),
                Some(_) => match self.spec_function_of(closure) {
                    None => super::fails(r, "Closure has no function."@),
                    Some(function) => r matches Ok(target) && {
                        &&& target.chunk == function.chunk
                        &&& target.arity == function.arity
                        &&& target.module == function.module
                        &&& target.field_offset == function.field_offset as u16
                    },
                },
            },
    {
        match self.heap.closure(closure) {
            None => Err(RuntimeError::new("Not a closure.")),
            Some(closure) => match self.heap.function(closure.function) {
                None => Err(RuntimeError::new("Closure has no function.")),
                Some(function) => Ok(
                    CallTarget {
                        chunk: share(&function.chunk),
                        arity: function.arity,
                        module: function.module,
                        field_offset: function.field_offset as u16,
                    },
                ),
            },
        }
    }

    /// The string that a value is.
    pub open spec fn spec_string(&self, value: Value) -> Option<Seq<u8>> {
        match value.spec_as_object() {
            Some(id) => match self.heap@.string(id) {
                Some(string) => Some(string.bytes@),
                None => None,
            },
            None => None,
        }
    }

    /// Whether a value is a string.
    pub fn is_string(&self, value: Value) -> (r: bool)
        requires
            self.wf(),
        ensures
            r == (self.spec_string(value) is Some),
    {
        match value.as_object() {
            Some(id) => match self.heap.string(id) {
                Some(_) => true,
                None => false,
            },
            None => false,
        }
    }

    /// The text of a value that is a string, where its bytes are text.
    pub fn string_at(&self, value: Value) -> (r: Option<&str>)
        requires
            self.wf(),
        ensures
            match r {
                Some(text) => {
                    &&& self.spec_string(value) is Some
                    &&& valid_utf8(self.spec_string(value)->0)
                    &&& text@ == decode_utf8(self.spec_string(value)->0)
                },
                None => self.spec_string(value) is None || !valid_utf8(self.spec_string(value)->0),
            },
    {
        match value.as_object() {
            Some(id) => match self.heap.string(id) {
                Some(string) => string.as_str(),
                None => None,
            },
            None => None,
        }
    }
}

} // verus!
