//! The generations: which objects are young, which old ones point at them,
//! and what lies under a handle.

use vstd::prelude::*;

use super::Heap;
use crate::handle::ObjectId;
use crate::object::ObjectType;
use crate::value::Value;

verus! {

impl Heap {
    /// Whether storing a value into an object makes something old point at
    /// something young.
    pub open spec fn crosses(&self, target: ObjectId, new: Value) -> bool {
        &&& new.spec_as_object() matches Some(young)
        &&& self.spec_young(young)
        &&& !self.spec_young(target)
        &&& ObjectType::spec_from_tag(target.spec_tag()) is Some
    }

    /// What the write barrier leaves behind: the generations are as they were,
    /// and the target is remembered if the store crossed between them.
    pub open spec fn barrier_told(&self, before: &Heap, target: ObjectId, new: Value) -> bool {
        &&& forall|id: ObjectId| #[trigger] self.spec_young(id) == before.spec_young(id)
        &&& forall|id: ObjectId| #[trigger]
            self.spec_remembered(id) == (before.spec_remembered(id) || (id == target
                && before.crosses(target, new)))
    }

    /// Whether this object has not yet survived a collection.
    pub fn is_young(&self, id: ObjectId) -> (r: bool)
        ensures
            r == self.spec_young(id),
    {
        let index: u32 = id.index();
        match ObjectType::from_tag(id.tag()) {
            Some(ObjectType::Class) => self.classes.is_young(index),
            Some(ObjectType::Closure) => self.closures.is_young(index),
            Some(ObjectType::Fn) => self.functions.is_young(index),
            Some(ObjectType::Instance) => self.instances.is_young(index),
            Some(ObjectType::List) => self.lists.is_young(index),
            Some(ObjectType::MapObject) => self.maps.is_young(index),
            Some(ObjectType::Range) => self.ranges.is_young(index),
            Some(ObjectType::String) => self.strings.is_young(index),
            Some(ObjectType::Upvalue) => self.upvalues.is_young(index),
            Some(ObjectType::Fiber) => self.fibers.is_young(index),
            None => false,
        }
    }

    /// Whether this object is recorded as pointing at something young.
    pub fn is_remembered(&self, id: ObjectId) -> (r: bool)
        ensures
            r == self.spec_remembered(id),
    {
        let index: u32 = id.index();
        match ObjectType::from_tag(id.tag()) {
            Some(ObjectType::Class) => self.classes.is_remembered(index),
            Some(ObjectType::Closure) => self.closures.is_remembered(index),
            Some(ObjectType::Fn) => self.functions.is_remembered(index),
            Some(ObjectType::Instance) => self.instances.is_remembered(index),
            Some(ObjectType::List) => self.lists.is_remembered(index),
            Some(ObjectType::MapObject) => self.maps.is_remembered(index),
            Some(ObjectType::Range) => self.ranges.is_remembered(index),
            Some(ObjectType::String) => self.strings.is_remembered(index),
            Some(ObjectType::Upvalue) => self.upvalues.is_remembered(index),
            Some(ObjectType::Fiber) => self.fibers.is_remembered(index),
            None => false,
        }
    }

    /// Whether there is still an object under this handle.
    pub fn is_live(&self, id: ObjectId) -> (r: bool)
        requires
            self.wf(),
        ensures
            r == self@.has(id),
    {
        let index: u32 = id.index();
        match ObjectType::from_tag(id.tag()) {
            Some(ObjectType::Class) => self.classes.occupied(index),
            Some(ObjectType::Closure) => self.closures.occupied(index),
            Some(ObjectType::Fn) => self.functions.occupied(index),
            Some(ObjectType::Instance) => self.instances.occupied(index),
            Some(ObjectType::List) => self.lists.occupied(index),
            Some(ObjectType::MapObject) => self.maps.occupied(index),
            Some(ObjectType::Range) => self.ranges.occupied(index),
            Some(ObjectType::String) => self.strings.occupied(index),
            Some(ObjectType::Upvalue) => self.upvalues.occupied(index),
            Some(ObjectType::Fiber) => self.fibers.occupied(index),
            None => false,
        }
    }

    /// What kind of object a handle names, from the handle alone.
    ///
    /// Says nothing about whether the object is there: a handle whose object
    /// has been swept still names the type it used to be.
    pub fn kind_of(&self, id: ObjectId) -> (r: Option<ObjectType>)
        ensures
            r == ObjectType::spec_from_tag(id.spec_tag()),
    {
        ObjectType::from_tag(id.tag())
    }

    /// What kind of object a handle refers to, or `None` if it refers to
    /// nothing any more. This looks in the type's table.
    pub fn type_of(&self, id: ObjectId) -> (r: Option<ObjectType>)
        requires
            self.wf(),
        ensures
            r == if self@.has(id) {
                ObjectType::spec_from_tag(id.spec_tag())
            } else {
                None
            },
    {
        if self.is_live(id) {
            ObjectType::from_tag(id.tag())
        } else {
            None
        }
    }

    /// The write barrier: tell the heap that `new` has been stored into
    /// `target`.
    ///
    /// An old object that now points at a young one has to be found by a minor
    /// collection, which does not look at old objects otherwise.
    pub fn wrote(&mut self, target: ObjectId, new: Value)
        requires
            old(self).wf(),
        ensures
            final(self).wf(),
            final(self)@ == old(self)@,
            final(self).stats() == old(self).stats(),
            final(self).same_room(old(self)),
            final(self).barrier_told(old(self), target, new),
    {
        let young = match new.as_object() {
            Some(young) => young,
            None => {
                return;
            },
        };
        if !self.is_young(young) || self.is_young(target) {
            return;
        }
        let ghost before = *self;
        let index: u32 = target.index();
        match ObjectType::from_tag(target.tag()) {
            Some(ObjectType::Class) => self.classes.remember(index),
            Some(ObjectType::Closure) => self.closures.remember(index),
            Some(ObjectType::Fn) => self.functions.remember(index),
            Some(ObjectType::Instance) => self.instances.remember(index),
            Some(ObjectType::List) => self.lists.remember(index),
            Some(ObjectType::MapObject) => self.maps.remember(index),
            Some(ObjectType::Range) => self.ranges.remember(index),
            Some(ObjectType::String) => self.strings.remember(index),
            Some(ObjectType::Upvalue) => self.upvalues.remember(index),
            Some(ObjectType::Fiber) => self.fibers.remember(index),
            None => {},
        }
        proof {
            crate::handle::lemma_parts_determine(target);
            assert(self.instance_model() =~= before.instance_model());
            assert(self.runs_wf());
        }
    }

    /// How many objects are in the young generation.
    pub fn young(&self) -> (n: usize)
        ensures
            n == self.stats().young_total,
    {
        self.young_total
    }

    /// What an object costs: its slot, and no less than it holds, or just that
    /// where it has nothing in reserve; nothing if there is none under the handle.
    pub fn size_at(&self, id: ObjectId) -> (bytes: usize)
        requires
            self.wf(),
        ensures
            self@.has(id) ==> bytes >= crate::memory::capped(self@.least_at(id)),
            self@.has(id) && self@.exact_at(id) ==> bytes == crate::memory::capped(
                self@.least_at(id),
            ),
            !self@.has(id) ==> bytes == 0,
    {
        let index: u32 = id.index();
        match ObjectType::from_tag(id.tag()) {
            Some(ObjectType::Class) => self.classes.size_at(index),
            Some(ObjectType::Closure) => self.closures.size_at(index),
            Some(ObjectType::Fn) => self.functions.size_at(index),
            Some(ObjectType::Instance) => self.instances.size_at(index),
            Some(ObjectType::List) => self.lists.size_at(index),
            Some(ObjectType::MapObject) => self.maps.size_at(index),
            Some(ObjectType::Range) => self.ranges.size_at(index),
            Some(ObjectType::String) => self.strings.size_at(index),
            Some(ObjectType::Upvalue) => self.upvalues.size_at(index),
            Some(ObjectType::Fiber) => self.fibers.size_at(index),
            None => 0,
        }
    }
}

} // verus!
