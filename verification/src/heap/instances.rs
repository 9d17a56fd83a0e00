//! Instances and their fields, and the write barrier.

use vstd::prelude::*;

use super::Heap;
use crate::fields::MAX_FIELDS;
use crate::handle::ObjectId;
use crate::object::{ClassRef, ObjClass, ObjInstance, Object, ObjectType};
use crate::value::Value;

verus! {

impl Heap {
    /// Take a class that lives in the image, and give it a handle.
    ///
    /// The class is not copied, not charged for and never freed.
    pub fn adopt_class(&mut self, class: &'static ObjClass) -> (id: ObjectId)
        requires
            old(self).wf(),
            old(self).has_slots(1),
        ensures
            final(self).wf(),
            id.spec_tag() == ObjectType::Class.spec_tag(),
            !old(self)@.has(id),
            final(self)@ == (super::HeapModel {
                classes: old(self)@.classes.insert(id.spec_index(), ClassRef::Static(class)),
                ..old(self)@
            }),
            final(self).stats() == (super::HeapStats {
                live: (old(self).stats().live + 1) as usize,
                touched: true,
                ..old(self).stats()
            }),
            final(self).same_generations(old(self)),
            forall|n: int| #[trigger] old(self).has_slots(n) ==> final(self).has_slots(n - 1),
            final(self).chunks() == old(self).chunks(),
    {
        let ghost before = *self;
        proof {
            before.lemma_counts();
        }
        let index: u32 = self.classes.allocate(ClassRef::Static(class));
        proof {
            assert forall|i: u32| #[trigger] self.classes.young_has(i) implies self.classes@.contains_key(
                i,
            ) by {
                assert(before.classes.young_has(i));
            }
            assert(self.instance_model() =~= before.instance_model());
            self.lemma_counts();
        }
        self.live = self.live + 1;
        self.touched = true;
        ObjectId::tagged(ObjectType::Class.tag(), index)
    }

    /// Whether this class lives in the image rather than the heap.
    pub fn class_is_static(&self, id: ObjectId) -> (r: bool)
        requires
            self.wf(),
        ensures
            r == self@.permanent(id),
    {
        if id.tag() == ObjectType::Class.tag() {
            match self.classes.get(id.index()) {
                Some(class) => class.is_static(),
                None => false,
            }
        } else {
            false
        }
    }

    /// Put a run of fields in the arena and say where it went.
    fn place_fields(&mut self, fields: &[Value]) -> (at: u32)
        requires
            old(self).wf(),
            old(self).chunks() < crate::fields::MAX_CHUNKS,
            fields@.len() <= MAX_FIELDS,
        ensures
            final(self).wf(),
            final(self)@ == old(self)@,
            *final(self) == (Heap { arena: final(self).arena, ..*old(self) }),
            final(self).stats() == old(self).stats(),
            final(self).same_generations(old(self)),
            at < u32::MAX,
            final(self).arena.holds(at as int, fields@.len() as int),
            final(self).arena.run(at as int, fields@.len() as int) == fields@,
            forall|i: u32|
                final(self).instances@.contains_key(i) ==> crate::fields::apart(
                    (#[trigger] final(self).instances@[i]).spec_at(),
                    final(self).instances@[i].fields as int,
                    at as int,
                    fields@.len() as int,
                ),
            final(self).chunks() <= old(self).chunks() + 1,
            forall|n: int| #[trigger] old(self).has_slots(n) == final(self).has_slots(n),
    {
        let ghost before = *self;
        let at: u32 = self.arena.place_fields(fields);
        proof {
            assert(self.instance_model() =~= before.instance_model());
        }
        at
    }

    /// Create an instance whose fields are `fields`.
    pub fn new_instance(&mut self, class: ObjectId, fields: &[Value]) -> (id: ObjectId)
        requires
            old(self).wf(),
            old(self).has_room(1),
            fields@.len() <= MAX_FIELDS,
        ensures
            final(self).wf(),
            id.spec_tag() == ObjectType::Instance.spec_tag(),
            !old(self)@.has(id),
            final(self)@ == (super::HeapModel {
                instances: old(self)@.instances.insert(
                    id.spec_index(),
                    (super::InstanceModel { class, fields: fields@ }),
                ),
                ..old(self)@
            }),
            final(self).stats().live == old(self).stats().live + 1,
            final(self).stats().young_total == old(self).stats().young_total + 1,
            final(self).stats().bytes == crate::memory::capped(
                old(self).stats().bytes as nat + vstd::layout::size_of::<Option<ObjInstance>>()
                    + fields@.len() * vstd::layout::size_of::<Value>(),
            ),
            final(self).stats().young_bytes == crate::memory::capped(
                old(self).stats().young_bytes as nat + vstd::layout::size_of::<
                    Option<ObjInstance>,
                >() + fields@.len() * vstd::layout::size_of::<Value>(),
            ),
            final(self).stats().peak == super::raised(
                old(self).stats().peak,
                final(self).stats().bytes,
            ),
            final(self).stats() == (super::HeapStats {
                live: final(self).stats().live,
                bytes: final(self).stats().bytes,
                peak: final(self).stats().peak,
                young_total: final(self).stats().young_total,
                young_bytes: final(self).stats().young_bytes,
                touched: true,
                profile: final(self).stats().profile,
                newborn: final(self).stats().newborn,
                ..old(self).stats()
            }),
            exists|instance: ObjInstance| #[trigger]
                super::profile::tallied(
                    final(self).stats(),
                    old(self).stats(),
                    id,
                    Object::Instance(instance),
                ) && instance.fields == fields@.len(),
            forall|other: ObjectId| #[trigger]
                final(self).spec_young(other) == (old(self).spec_young(other) || other == id),
            forall|other: ObjectId| #[trigger]
                final(self).spec_remembered(other) == old(self).spec_remembered(other),
            forall|n: int| #[trigger] old(self).has_slots(n) ==> final(self).has_slots(n - 1),
            final(self).chunks() <= old(self).chunks() + 1,
    {
        let at: u32 = self.place_fields(fields);
        let ghost placed = *self;
        let instance = ObjInstance::new(class, at as usize, fields.len());
        proof {
            assert(placed.fits(instance));
        }
        let id = self.allocate(Object::Instance(instance));
        proof {
            assert(super::profile::tallied(
                self.stats(),
                placed.stats(),
                id,
                Object::Instance(instance),
            ));
        }
        id
    }

    /// Where an instance's fields are, if there is an instance.
    fn run_of(&self, id: ObjectId) -> (r: Option<(u32, usize)>)
        requires
            self.wf(),
        ensures
            match r {
                Some((at, count)) => {
                    &&& self@.instance(id) is Some
                    &&& self.instances@.contains_key(id.spec_index())
                    &&& at == self.instances@[id.spec_index()].spec_at()
                    &&& count == self.instances@[id.spec_index()].fields
                    &&& count == self@.instance(id)->0.fields.len()
                    &&& self.arena.holds(at as int, count as int)
                    &&& self.arena.run(at as int, count as int) == self@.instance(id)->0.fields
                },
                None => self@.instance(id) is None,
            },
    {
        if id.tag() != ObjectType::Instance.tag() {
            return None;
        }
        match self.instances.get(id.index()) {
            Some(instance) => Some((instance.at() as u32, instance.count())),
            None => None,
        }
    }

    /// An instance's fields; none where there is no instance.
    pub fn instance_fields(&self, id: ObjectId) -> (fields: Vec<Value>)
        requires
            self.wf(),
        ensures
            fields@ == match self@.instance(id) {
                Some(instance) => instance.fields,
                None => Seq::empty(),
            },
    {
        let mut fields: Vec<Value> = Vec::new();
        match self.run_of(id) {
            Some((at, count)) => {
                let mut i: usize = 0;
                let ghost all = self@.instance(id)->0.fields;
                while i < count
                    invariant
                        self.wf(),
                        self.arena.wf(),
                        i <= count,
                        count == all.len(),
                        self.arena.holds(at as int, count as int),
                        self.arena.run(at as int, count as int) == all,
                        fields@ == all.take(i as int),
                    decreases count - i,
                {
                    fields.push(self.arena.read(at, count, i));
                    proof {
                        assert(all.take(i as int + 1) =~= all.take(i as int).push(all[i as int]));
                    }
                    i = i + 1;
                }
                proof {
                    assert(all.take(count as int) =~= all);
                }
            },
            None => {},
        }
        fields
    }

    /// One field, or `None` if the instance does not have that many.
    pub fn instance_field(&self, id: ObjectId, index: usize) -> (r: Option<Value>)
        requires
            self.wf(),
        ensures
            r == match self@.instance(id) {
                Some(instance) => if index < instance.fields.len() {
                    Some(instance.fields[index as int])
                } else {
                    None
                },
                None => None,
            },
    {
        match self.run_of(id) {
            Some((at, count)) => if index < count {
                Some(self.arena.read(at, count, index))
            } else {
                None
            },
            None => None,
        }
    }

    /// Read one field. `None` means the handle is not an instance; an index
    /// past the instance's fields reads as null.
    pub fn field_read(&self, id: ObjectId, index: usize) -> (r: Option<Value>)
        requires
            self.wf(),
        ensures
            r == match self@.instance(id) {
                Some(instance) => if index < instance.fields.len() {
                    Some(instance.fields[index as int])
                } else {
                    Some(Value::null())
                },
                None => None,
            },
    {
        match self.run_of(id) {
            Some((at, count)) => if index < count {
                Some(self.arena.read(at, count, index))
            } else {
                Some(Value::null())
            },
            None => None,
        }
    }

    /// Whether there is room to store a field: there has to be a place for
    /// fields that grow.
    pub open spec fn can_store(&self, id: ObjectId, index: int) -> bool {
        (self@.instance(id) matches Some(instance) && index >= instance.fields.len())
            ==> self.chunks() < crate::fields::MAX_CHUNKS
    }

    /// Whether there is room to store a field.
    pub fn fits_field(&self, id: ObjectId, index: usize) -> (r: bool)
        requires
            self.wf(),
        ensures
            r == self.can_store(id, index as int),
    {
        match self.run_of(id) {
            Some((_, count)) => index < count || self.arena.chunks.len()
                < crate::fields::MAX_CHUNKS,
            None => true,
        }
    }

    /// Store one field, growing the instance with nulls if it is short, and
    /// tell the write barrier. `false` if the handle is not an instance.
    pub fn set_instance_field(&mut self, id: ObjectId, index: usize, value: Value) -> (r: bool)
        requires
            old(self).wf(),
            old(self).can_store(id, index as int),
            index < MAX_FIELDS,
        ensures
            final(self).wf(),
            r == (old(self)@.instance(id) is Some),
            !r ==> *final(self) == *old(self),
            r ==> final(self)@ == (super::HeapModel {
                instances: old(self)@.instances.insert(
                    id.spec_index(),
                    (super::InstanceModel {
                        class: old(self)@.instance(id)->0.class,
                        fields: stored(old(self)@.instance(id)->0.fields, index as int, value),
                    }),
                ),
                ..old(self)@
            }),
            r ==> final(self).barrier_told(old(self), id, value),
            r && index < old(self)@.instance(id)->0.fields.len() ==> final(self).stats()
                == old(self).stats() && final(self).same_room(old(self)),
            final(self).stats() == (super::HeapStats {
                bytes: final(self).stats().bytes,
                peak: super::raised(old(self).stats().peak, final(self).stats().bytes),
                ..old(self).stats()
            }),
            r && index >= old(self)@.instance(id)->0.fields.len() ==> final(self).stats().bytes
                == crate::memory::capped(
                old(self).stats().bytes as nat + crate::memory::capped(
                    ((index + 1 - old(self)@.instance(id)->0.fields.len())
                        * vstd::layout::size_of::<Value>()) as nat,
                ),
            ),
            forall|n: int| #[trigger] old(self).has_slots(n) == final(self).has_slots(n),
            final(self).chunks() <= old(self).chunks() + 1,
    {
        let ghost before = *self;
        let (at, count) = match self.run_of(id) {
            Some(run) => run,
            None => {
                return false;
            },
        };
        if index < count {
            self.arena.write(at, count, index, value);
            let ghost written = *self;
            proof {
                Heap::lemma_written(&before, &written, id, at, count, index, value);
            }
            self.wrote(id, value);
            proof {
                let fields = before@.instance(id)->0.fields;
                assert(stored(fields, index as int, value) =~= fields.update(index as int, value));
            }
            return true;
        }
        let mut grown: Vec<Value> = self.instance_fields(id);
        let ghost fields = before@.instance(id)->0.fields;
        while grown.len() < index
            invariant
                count <= grown@.len() <= index,
                count == fields.len(),
                forall|i: int| 0 <= i < count ==> grown@[i] == fields[i],
                forall|i: int| count <= i < grown@.len() ==> grown@[i] == Value::null(),
            decreases index - grown.len(),
        {
            grown.push(Value::null());
        }
        grown.push(value);
        proof {
            assert(grown@ =~= stored(fields, index as int, value));
        }
        let moved: u32 = self.place_fields(grown.as_slice());
        let ghost placed = *self;
        match self.instances.get_mut(id.index()) {
            Some(instance) => {
                instance.moved_to(moved as usize, index + 1);
            },
            None => {},
        }
        let extra: usize = crate::memory::sized(index + 1 - count, core::mem::size_of::<Value>());
        self.bytes = self.bytes.saturating_add(extra);
        self.raise_peak();
        self.refresh_due();
        let ghost grew = *self;
        proof {
            Heap::lemma_moved(&placed, &grew, id, moved, (index + 1) as int);
        }
        self.wrote(id, value);
        true
    }

    /// Writing one field of one instance changes that field alone.
    proof fn lemma_written(
        before: &Heap,
        after: &Heap,
        id: ObjectId,
        at: u32,
        count: usize,
        index: usize,
        value: Value,
    )
        requires
            before.wf(),
            before.instances@.contains_key(id.spec_index()),
            at == before.instances@[id.spec_index()].spec_at(),
            count == before.instances@[id.spec_index()].fields,
            index < count,
            *after == (Heap { arena: after.arena, ..*before }),
            after.arena.wf(),
            after.arena.chunks@.len() == before.arena.chunks@.len(),
            after.arena.run(at as int, count as int) == before.arena.run(
                at as int,
                count as int,
            ).update(index as int, value),
            forall|a: int, c: int| #[trigger]
                after.arena.holds(a, c) == before.arena.holds(a, c),
            forall|a: int, c: int|
                before.arena.holds(a, c) && crate::fields::apart(a, c, at as int, count as int)
                    ==> #[trigger] after.arena.run(a, c) == before.arena.run(a, c),
        ensures
            after.wf(),
            after.stats() == before.stats(),
            after.same_generations(before),
            after.same_room(before),
            after@ == (super::HeapModel {
                instances: before@.instances.insert(
                    id.spec_index(),
                    (super::InstanceModel {
                        class: before.instances@[id.spec_index()].class,
                        fields: before.arena.run(at as int, count as int).update(
                            index as int,
                            value,
                        ),
                    }),
                ),
                ..before@
            }),
    {
        let expected = before@.instances.insert(
            id.spec_index(),
            super::InstanceModel {
                class: before.instances@[id.spec_index()].class,
                fields: before.arena.run(at as int, count as int).update(index as int, value),
            },
        );
        assert(after.instance_model() =~= expected) by {
            assert forall|i: u32| after.instances@.contains_key(i) implies #[trigger] after.instance_model()[i]
                == expected[i] by {
                if i != id.spec_index() {
                    let run = before.instances@[i];
                    assert(before.arena.holds(run.spec_at(), run.fields as int));
                    assert(before.instances@[id.spec_index()].spec_at() == at);
                    assert(crate::fields::apart(
                        run.spec_at(),
                        run.fields as int,
                        at as int,
                        count as int,
                    ));
                }
            }
        }
    }

    /// Giving one instance another run of fields changes that instance alone.
    proof fn lemma_moved(before: &Heap, after: &Heap, id: ObjectId, at: u32, count: int)
        requires
            before.wf(),
            before.instances@.contains_key(id.spec_index()),
            before.arena.holds(at as int, count),
            forall|i: u32|
                before.instances@.contains_key(i) ==> crate::fields::apart(
                    (#[trigger] before.instances@[i]).spec_at(),
                    before.instances@[i].fields as int,
                    at as int,
                    count,
                ),
            after.instances.wf(),
            after.instances.same_books(&before.instances),
            after.instances@ == before.instances@.insert(
                id.spec_index(),
                after.instances@[id.spec_index()],
            ),
            after.instances@[id.spec_index()].class == before.instances@[id.spec_index()].class,
            after.instances@[id.spec_index()].spec_at() == at,
            after.instances@[id.spec_index()].fields == count,
            *after == (Heap {
                instances: after.instances,
                bytes: after.bytes,
                peak: after.peak,
                due: after.due,
                ..*before
            }),
            after.peak >= after.bytes,
            after.due == after.stats().wants_collection(),
        ensures
            after.wf(),
            after.stats() == (super::HeapStats {
                bytes: after.stats().bytes,
                peak: after.stats().peak,
                ..before.stats()
            }),
            after.same_generations(before),
            after.same_room(before),
            after@ == (super::HeapModel {
                instances: before@.instances.insert(
                    id.spec_index(),
                    (super::InstanceModel {
                        class: before.instances@[id.spec_index()].class,
                        fields: before.arena.run(at as int, count),
                    }),
                ),
                ..before@
            }),
    {
        let expected = before@.instances.insert(
            id.spec_index(),
            super::InstanceModel {
                class: before.instances@[id.spec_index()].class,
                fields: before.arena.run(at as int, count),
            },
        );
        assert(after.instance_model() =~= expected);
        assert(after.runs_wf()) by {
            assert forall|i: u32, j: u32|
                after.instances@.contains_key(i) && after.instances@.contains_key(j) && i
                    != j implies crate::fields::apart(
                (#[trigger] after.instances@[i]).spec_at(),
                after.instances@[i].fields as int,
                (#[trigger] after.instances@[j]).spec_at(),
                after.instances@[j].fields as int,
            ) by {
                let a = before.instances@[i];
                let b = before.instances@[j];
            }
        }
    }
}

/// A run of fields with a value stored at an index, nulls in between where it
/// was short.
pub open spec fn stored(fields: Seq<Value>, index: int, value: Value) -> Seq<Value> {
    let room = if fields.len() <= index {
        fields + Seq::new((index + 1 - fields.len()) as nat, |i: int| Value::null())
    } else {
        fields
    };
    room.update(index, value)
}

} // verus!
