//! Fields of instances and of classes, as running code reaches them.

use vstd::prelude::*;

use super::{RuntimeError, Vm};
use crate::fields::MAX_FIELDS;
use crate::handle::ObjectId;
use crate::heap::{HeapModel, HeapStats, InstanceModel};
use crate::object::{ObjClass, ObjectType};
use crate::value::Value;

verus! {

/// Values with one stored at an index, grown with nulls as needed.
pub open spec fn stored(values: Seq<Value>, index: int, value: Value) -> Seq<Value> {
    crate::heap::instances::stored(values, index, value)
}

impl Vm {
    /// Where the running method's own fields start in its receiver.
    pub open spec fn spec_field_offset(&self) -> int {
        if self.frames@.len() > 0 {
            self.frames@.last().field_offset as int
        } else {
            0
        }
    }

    /// Where the running method's own fields start in its receiver.
    pub fn current_field_offset(&self) -> (offset: usize)
        ensures
            offset == self.spec_field_offset(),
            offset <= u16::MAX,
    {
        let depth: usize = self.frames.len();
        if depth > 0 {
            self.frames[depth - 1].field_offset as usize
        } else {
            0
        }
    }

    /// What a field of a value holds for the running method, or why it holds
    /// nothing. A field that was never written is null.
    pub open spec fn spec_field(&self, receiver: Value, index: int) -> Result<Value, Seq<char>> {
        match receiver.spec_as_object() {
            None => Err("Cannot access a field outside of a class."@),
            Some(id) => match self.heap@.instance(id) {
                None => Err("Cannot access a field outside of a class."@),
                Some(instance) => Ok(
                    super::upvalues::at_or_null(instance.fields, self.spec_field_offset() + index),
                ),
            },
        }
    }

    /// Read a field of a value for the running method.
    pub fn field_of(&self, receiver: Value, index: usize) -> (r: Result<Value, RuntimeError>)
        requires
            self.wf(),
            index <= u8::MAX,
        ensures
            super::agrees(r, self.spec_field(receiver, index as int)),
    {
        let offset: usize = self.current_field_offset();
        match receiver.as_object() {
            None => Err(RuntimeError::new("Cannot access a field outside of a class.")),
            Some(id) => match self.heap.field_read(id, offset + index) {
                Some(value) => Ok(value),
                None => Err(RuntimeError::new("Cannot access a field outside of a class.")),
            },
        }
    }

    /// Whether a field of the running method's is one an instance can have.
    pub open spec fn field_fits(&self, index: int) -> bool {
        self.spec_field_offset() + index < MAX_FIELDS
    }

    /// Whether there is room to write a field of a value for the running
    /// method.
    pub open spec fn can_set(&self, receiver: Value, index: int) -> bool {
        match receiver.spec_as_object() {
            Some(id) => self.heap.can_store(id, self.spec_field_offset() + index),
            None => true,
        }
    }

    /// Whether there is room to write a field of a value for the running
    /// method.
    pub fn fits_set(&self, receiver: Value, index: usize) -> (r: bool)
        requires
            self.wf(),
            index <= u8::MAX,
        ensures
            r == self.can_set(receiver, index as int),
    {
        match receiver.as_object() {
            Some(id) => self.heap.fits_field(id, self.current_field_offset() + index),
            None => true,
        }
    }

    /// Whether a machine is an earlier one with a field written, or why not.
    pub open spec fn field_set(&self, before: &Vm, receiver: Value, index: usize, value: Value, r: Result<(), RuntimeError>) -> bool {
        &&& *self == (Vm { heap: self.heap, ..*before })
        &&& match before.spec_field(receiver, index as int) {
            Err(message) => super::fails(r, message) && *self == *before,
            Ok(_) => {
                let id = receiver.spec_as_object()->0;
                &&& r is Ok
                &&& self.heap@ == (HeapModel {
                    instances: before.heap@.instances.insert(
                        id.spec_index(),
                        (InstanceModel {
                            class: before.heap@.instance(id)->0.class,
                            fields: stored(
                                before.heap@.instance(id)->0.fields,
                                before.spec_field_offset() + index,
                                value,
                            ),
                        }),
                    ),
                    ..before.heap@
                })
                &&& self.heap.stats() == (HeapStats {
                    bytes: self.heap.stats().bytes,
                    peak: crate::heap::raised(
                        before.heap.stats().peak,
                        self.heap.stats().bytes,
                    ),
                    ..before.heap.stats()
                })
                &&& before.spec_field_offset() + index < before.heap@.instance(
                    id,
                )->0.fields.len() ==> self.heap.stats().bytes
                    == before.heap.stats().bytes
                &&& self.heap.barrier_told(&before.heap, id, value)
                &&& self.heap.chunks() <= before.heap.chunks() + 1
                &&& forall|n: int| #[trigger]
                    self.heap.has_slots(n) == before.heap.has_slots(n)
            },
        }
    }

    /// Write a field of a value for the running method.
    pub fn set_field(&mut self, receiver: Value, index: usize, value: Value) -> (r: Result<
        (),
        RuntimeError,
    >)
        requires
            old(self).wf(),
            old(self).field_fits(index as int),
            old(self).can_set(receiver, index as int),
        ensures
            final(self).wf(),
            final(self).field_set(old(self), receiver, index, value, r),
    {
        let offset: usize = self.current_field_offset();
        match receiver.as_object() {
            None => Err(RuntimeError::new("Cannot access a field outside of a class.")),
            Some(id) => if self.heap.set_instance_field(id, offset + index, value) {
                Ok(())
            } else {
                Err(RuntimeError::new("Cannot access a field outside of a class."))
            },
        }
    }

    /// The class the running method was defined in.
    pub open spec fn spec_owner_class(&self) -> Option<ObjectId> {
        if self.frames@.len() > 0 {
            match self.spec_function_of(self.frames@.last().closure) {
                Some(function) => function.owner_class,
                None => None,
            }
        } else {
            None
        }
    }

    /// The class the running method was defined in.
    pub fn owner_class(&self) -> (r: Option<ObjectId>)
        requires
            self.wf(),
        ensures
            r == self.spec_owner_class(),
    {
        let depth: usize = self.frames.len();
        if depth > 0 {
            match self.function_of(self.frames[depth - 1].closure) {
                Some(function) => function.owner_class,
                None => None,
            }
        } else {
            None
        }
    }

    /// What a static field holds for the running method; null where it was
    /// never written, or where there is no class.
    pub open spec fn spec_static_field(&self, index: int) -> Value {
        match self.spec_owner_class() {
            None => Value::null(),
            Some(owner) => match self.heap@.class(owner) {
                None => Value::null(),
                Some(class) => super::upvalues::at_or_null(class.static_fields@, index),
            },
        }
    }

    /// Read a static field for the running method.
    pub fn static_field(&self, index: usize) -> (value: Value)
        requires
            self.wf(),
        ensures
            value == self.spec_static_field(index as int),
    {
        match self.owner_class() {
            None => Value::null(),
            Some(owner) => match self.heap.class(owner) {
                None => Value::null(),
                Some(class) => if index < class.static_fields.len() {
                    class.static_fields[index]
                } else {
                    Value::null()
                },
            },
        }
    }

    /// Whether a machine is an earlier one with a static field written, or why not.
    pub open spec fn static_field_set(&self, before: &Vm, index: usize, value: Value, r: Result<(), RuntimeError>) -> bool {
        &&& *self == (Vm { heap: self.heap, ..*before })
        &&& match before.spec_owner_class() {
            None => {
                &&& super::fails(
                    r,
                    "Cannot use a static field outside of a class definition."@,
                )
                &&& *self == *before
            },
            Some(owner) => {
                &&& r is Ok
                &&& self.heap.stats() == before.heap.stats()
                &&& self.heap.same_room(&before.heap)
                &&& self.heap.barrier_told(&before.heap, owner, value)
                &&& if before.heap@.class(owner) is None || before.heap@.permanent(owner) {
                    self.heap@ == before.heap@
                } else {
                    let class = self.heap@.class(owner)->0;
                    &&& self.heap@ == before.heap@.with_class(owner, class)
                    &&& class == (ObjClass {
                        static_fields: class.static_fields,
                        ..before.heap@.class(owner)->0
                    })
                    &&& class.static_fields@ == stored(
                        before.heap@.class(owner)->0.static_fields@,
                        index as int,
                        value,
                    )
                }
            },
        }
    }

    /// Write a static field for the running method. A class in the image stays
    /// as it is.
    pub fn set_static_field(&mut self, index: usize, value: Value) -> (r: Result<(), RuntimeError>)
        requires
            old(self).wf(),
            index < usize::MAX,
        ensures
            final(self).wf(),
            final(self).static_field_set(old(self), index, value, r),
    {
        let owner = match self.owner_class() {
            None => {
                return Err(
                    RuntimeError::new("Cannot use a static field outside of a class definition."),
                );
            },
            Some(owner) => owner,
        };
        match self.heap.class_mut(owner) {
            Some(class) => {
                store(&mut class.static_fields, index, value);
            },
            None => {},
        }
        self.heap.wrote(owner, value);
        Ok(())
    }

    /// Whether a machine is an earlier one with a class given its attributes.
    pub open spec fn attributes_set(&self, before: &Vm) -> bool {
        &&& *self == (Vm {
            heap: self.heap,
            stack: self.stack,
            ..*before
        })
        &&& self.stack@ == dropped(before.stack@, 2)
        &&& self.heap.stats() == before.heap.stats()
        &&& self.heap.same_room(&before.heap)
        &&& ({
            let attributes = from_top(before.stack@, 0);
            match from_top(before.stack@, 1).spec_as_object() {
                None => self.heap == before.heap,
                Some(id) => {
                    &&& self.heap.barrier_told(&before.heap, id, attributes)
                    &&& if before.heap@.class(id) is None || before.heap@.permanent(id) {
                        self.heap@ == before.heap@
                    } else {
                        self.heap@ == before.heap@.with_class(
                            id,
                            (ObjClass { attributes, ..before.heap@.class(id)->0 }),
                        )
                    }
                },
            }
        })
    }

    /// Take a class and its attributes off the stack, and give it them.
    ///
    /// Anything that is missing from the stack counts as null, and what is not
    /// a class of its own stays as it is.
    pub fn set_attributes(&mut self)
        requires
            old(self).wf(),
        ensures
            final(self).wf(),
            final(self).attributes_set(old(self)),
    {
        let ghost before = *self;
        let attributes = self.take_top();
        let class = self.take_top();
        proof {
            assert(self.stack@ =~= dropped(before.stack@, 2));
        }
        match class.as_object() {
            None => {},
            Some(id) => {
                match self.heap.class_mut(id) {
                    Some(class) => {
                        class.attributes = attributes;
                    },
                    None => {},
                }
                self.heap.wrote(id, attributes);
            },
        }
    }

    /// Take the top off the stack; null where there is nothing.
    pub fn take_top(&mut self) -> (value: Value)
        ensures
            value == from_top(old(self).stack@, 0),
            *final(self) == (Vm { stack: final(self).stack, ..*old(self) }),
            final(self).stack@ == dropped(old(self).stack@, 1),
    {
        match self.stack.pop() {
            Some(value) => value,
            None => Value::null(),
        }
    }

    /// How many fields an instance of a class has, or why it has none.
    pub open spec fn spec_field_count(&self, class: Value) -> Result<int, Seq<char>> {
        match class.spec_as_object() {
            None => Err("Not a class."@),
            Some(id) => match self.heap@.class(id) {
                None => Err("Not a class."@),
                Some(class) => Ok(
                    if class.num_fields > 0 {
                        class.num_fields as int
                    } else {
                        0
                    },
                ),
            },
        }
    }

    /// Whether an instance of a class can be held.
    pub fn instance_fits(&self, class: Value) -> (r: bool)
        requires
            self.wf(),
        ensures
            r == (self.spec_field_count(class) matches Ok(count) ==> count <= MAX_FIELDS),
    {
        match class.as_object() {
            None => true,
            Some(id) => match self.heap.class(id) {
                None => true,
                Some(class) => class.num_fields <= MAX_FIELDS as i32,
            },
        }
    }

    /// Whether a machine is an earlier one with an instance added, or why not.
    pub open spec fn instantiated(&self, before: &Vm, class: Value, r: Result<Value, RuntimeError>) -> bool {
        &&& *self == (Vm { heap: self.heap, ..*before })
        &&& match before.spec_field_count(class) {
            Err(message) => super::fails(r, message) && *self == *before,
            Ok(count) => {
                &&& r matches Ok(value)
                &&& value.spec_as_object() matches Some(id)
                &&& value == Value::object(id)
                &&& id.spec_tag() == ObjectType::Instance.spec_tag()
                &&& !before.heap@.has(id)
                &&& self.heap@ == (HeapModel {
                    instances: before.heap@.instances.insert(
                        id.spec_index(),
                        (InstanceModel {
                            class: class.spec_as_object()->0,
                            fields: Seq::new(count as nat, |i: int| Value::null()),
                        }),
                    ),
                    ..before.heap@
                })
                &&& forall|other: ObjectId| #[trigger]
                    self.heap.spec_young(other) == (before.heap.spec_young(other)
                        || other == id)
                &&& forall|other: ObjectId| #[trigger]
                    self.heap.spec_remembered(other)
                        == before.heap.spec_remembered(other)
            },
        }
    }

    /// Make an instance of a class, its fields null.
    pub fn instantiate(&mut self, class: Value) -> (r: Result<Value, RuntimeError>)
        requires
            old(self).wf(),
            old(self).heap.has_room(1),
            old(self).spec_field_count(class) matches Ok(count) ==> count <= MAX_FIELDS,
        ensures
            final(self).wf(),
            final(self).instantiated(old(self), class, r),
    {
        broadcast use crate::value::law_object_round_trip;

        let id = match class.as_object() {
            None => {
                return Err(RuntimeError::new("Not a class."));
            },
            Some(id) => id,
        };
        let count: usize = match self.heap.class(id) {
            None => {
                return Err(RuntimeError::new("Not a class."));
            },
            Some(class) => if class.num_fields > 0 {
                class.num_fields as usize
            } else {
                0
            },
        };
        let fields: Vec<Value> = nulls(count);
        let instance = self.heap.new_instance(id, fields.as_slice());
        Ok(Value::object(instance))
    }
}

/// A value counted down from the top of a stack; null past the bottom.
pub open spec fn from_top(stack: Seq<Value>, depth: int) -> Value {
    super::upvalues::at_or_null(stack, stack.len() - 1 - depth)
}

/// A stack without its topmost values.
pub open spec fn dropped(stack: Seq<Value>, count: int) -> Seq<Value> {
    if count <= stack.len() {
        stack.take(stack.len() - count)
    } else {
        Seq::empty()
    }
}

/// A run of nulls.
pub fn nulls(count: usize) -> (values: Vec<Value>)
    ensures
        values@ == Seq::new(count as nat, |i: int| Value::null()),
{
    let mut values: Vec<Value> = Vec::new();
    while values.len() < count
        invariant
            values@.len() <= count,
            forall|i: int| 0 <= i < values@.len() ==> values@[i] == Value::null(),
        decreases count - values.len(),
    {
        values.push(Value::null());
    }
    proof {
        assert(values@ =~= Seq::new(count as nat, |i: int| Value::null()));
    }
    values
}

/// Store a value at an index, growing with nulls as needed.
pub fn store(values: &mut Vec<Value>, index: usize, value: Value)
    requires
        index < usize::MAX,
    ensures
        final(values)@ == stored(old(values)@, index as int, value),
{
    let ghost before = values@;
    while values.len() <= index
        invariant
            index < usize::MAX,
            before.len() <= values@.len(),
            values@.len() <= before.len() || values@.len() <= index + 1,
            forall|i: int| 0 <= i < before.len() ==> values@[i] == before[i],
            forall|i: int| before.len() <= i < values@.len() ==> values@[i] == Value::null(),
        decreases index + 1 - values.len(),
    {
        values.push(Value::null());
    }
    values.set(index, value);
    proof {
        assert(values@ =~= stored(before, index as int, value));
    }
}

/// A field reads as what was stored in it last, and no other field changes.
pub proof fn law_stored_field_is_read_back(
    before: Vm,
    after: Vm,
    receiver: Value,
    index: int,
    other: int,
    value: Value,
)
    requires
        before.spec_field(receiver, index) is Ok,
        0 <= index,
        0 <= other,
        after.frames == before.frames,
        ({
            let id = receiver.spec_as_object()->0;
            after.heap@ == (HeapModel {
                instances: before.heap@.instances.insert(
                    id.spec_index(),
                    (InstanceModel {
                        class: before.heap@.instance(id)->0.class,
                        fields: stored(
                            before.heap@.instance(id)->0.fields,
                            before.spec_field_offset() + index,
                            value,
                        ),
                    }),
                ),
                ..before.heap@
            })
        }),
    ensures
        after.spec_field(receiver, index) == Ok::<Value, Seq<char>>(value),
        other != index ==> after.spec_field(receiver, other) == before.spec_field(receiver, other),
{
}

} // verus!
