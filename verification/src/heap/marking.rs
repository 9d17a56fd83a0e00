//! The mark phase: following references from a set of roots.

use vstd::prelude::*;
use vstd::set_lib::*;

use super::Heap;
use crate::handle::ObjectId;
use crate::object::{gray_values, ObjectType};
use crate::value::Value;

verus! {

/// The raw handles of a set of objects.
spec fn raws(ids: Set<ObjectId>) -> Set<int> {
    Set::new(|raw: int| 0 <= raw < 0x1_0000_0000 && ids.contains(ObjectId(raw as u32)))
}

/// There are no more raw handles than a handle has values.
proof fn lemma_raws(ids: Set<ObjectId>)
    ensures
        raws(ids).finite(),
        raws(ids).len() <= 0x1_0000_0000,
{
    lemma_int_range(0, 0x1_0000_0000);
    assert(raws(ids).subset_of(set_int_range(0, 0x1_0000_0000)));
    lemma_len_subset(raws(ids), set_int_range(0, 0x1_0000_0000));
}

/// One handle more is one raw handle more.
proof fn lemma_raws_insert(ids: Set<ObjectId>, id: ObjectId)
    requires
        !ids.contains(id),
    ensures
        raws(ids.insert(id)).len() == raws(ids).len() + 1,
{
    lemma_raws(ids);
    assert(raws(ids.insert(id)) =~= raws(ids).insert(id.0 as int));
}

impl Heap {
    /// Every object with a mark.
    spec fn marks(&self) -> Set<ObjectId> {
        Set::new(|id: ObjectId| self.spec_marked(id))
    }

    /// Whether an object carries a mark.
    pub fn is_marked_at(&self, id: ObjectId) -> (r: bool)
        ensures
            r == self.spec_marked(id),
    {
        let index: u32 = id.index();
        match ObjectType::from_tag(id.tag()) {
            Some(ObjectType::Class) => self.classes.is_marked(index),
            Some(ObjectType::Closure) => self.closures.is_marked(index),
            Some(ObjectType::Fn) => self.functions.is_marked(index),
            Some(ObjectType::Instance) => self.instances.is_marked(index),
            Some(ObjectType::List) => self.lists.is_marked(index),
            Some(ObjectType::MapObject) => self.maps.is_marked(index),
            Some(ObjectType::Range) => self.ranges.is_marked(index),
            Some(ObjectType::String) => self.strings.is_marked(index),
            Some(ObjectType::Upvalue) => self.upvalues.is_marked(index),
            Some(ObjectType::Fiber) => self.fibers.is_marked(index),
            None => false,
        }
    }

    /// Tables that hold the same weigh the same.
    proof fn lemma_least_same(before: &Heap, after: &Heap)
        requires
            before.tables_wf(),
            after.tables_wf(),
            after.classes@ == before.classes@,
            after.closures@ == before.closures@,
            after.functions@ == before.functions@,
            after.instances@ == before.instances@,
            after.lists@ == before.lists@,
            after.maps@ == before.maps@,
            after.ranges@ == before.ranges@,
            after.strings@ == before.strings@,
            after.upvalues@ == before.upvalues@,
            after.fibers@ == before.fibers@,
        ensures
            after.least_bytes() == before.least_bytes(),
    {
        after.classes.lemma_least_bytes(&before.classes);
        after.closures.lemma_least_bytes(&before.closures);
        after.functions.lemma_least_bytes(&before.functions);
        after.instances.lemma_least_bytes(&before.instances);
        after.lists.lemma_least_bytes(&before.lists);
        after.maps.lemma_least_bytes(&before.maps);
        after.ranges.lemma_least_bytes(&before.ranges);
        after.strings.lemma_least_bytes(&before.strings);
        after.upvalues.lemma_least_bytes(&before.upvalues);
        after.fibers.lemma_least_bytes(&before.fibers);
    }

    /// Take every mark away.
    pub(super) fn clear_marks(&mut self)
        requires
            old(self).wf(),
        ensures
            final(self).wf(),
            final(self)@ == old(self)@,
            final(self).same_books(old(self)),
            final(self).arena == old(self).arena,
            final(self).least_bytes() == old(self).least_bytes(),
            forall|id: ObjectId| !(#[trigger] final(self).spec_marked(id)),
    {
        let ghost before = *self;
        self.classes.clear_marks();
        self.closures.clear_marks();
        self.functions.clear_marks();
        self.instances.clear_marks();
        self.lists.clear_marks();
        self.maps.clear_marks();
        self.ranges.clear_marks();
        self.strings.clear_marks();
        self.upvalues.clear_marks();
        self.fibers.clear_marks();
        proof {
            assert(self.instance_model() =~= before.instance_model());
            assert(self.runs_wf());
            Heap::lemma_least_same(&before, self);
        }
    }

    /// Mark the object under a handle; `false` if it was marked already, or is
    /// gone.
    pub(super) fn mark_at(&mut self, id: ObjectId) -> (r: bool)
        requires
            old(self).wf(),
        ensures
            final(self).wf(),
            final(self)@ == old(self)@,
            final(self).same_books(old(self)),
            final(self).arena == old(self).arena,
            final(self).least_bytes() == old(self).least_bytes(),
            r == (old(self)@.has(id) && !old(self).spec_marked(id)),
            forall|other: ObjectId| #[trigger]
                final(self).spec_marked(other) == (old(self).spec_marked(other) || (other == id
                    && r)),
    {
        let ghost before = *self;
        let index: u32 = id.index();
        let r: bool = match ObjectType::from_tag(id.tag()) {
            Some(ObjectType::Class) => self.classes.mark(index),
            Some(ObjectType::Closure) => self.closures.mark(index),
            Some(ObjectType::Fn) => self.functions.mark(index),
            Some(ObjectType::Instance) => self.instances.mark(index),
            Some(ObjectType::List) => self.lists.mark(index),
            Some(ObjectType::MapObject) => self.maps.mark(index),
            Some(ObjectType::Range) => self.ranges.mark(index),
            Some(ObjectType::String) => self.strings.mark(index),
            Some(ObjectType::Upvalue) => self.upvalues.mark(index),
            Some(ObjectType::Fiber) => self.fibers.mark(index),
            None => false,
        };
        proof {
            crate::handle::lemma_parts_determine(id);
            assert(self.instance_model() =~= before.instance_model());
            assert(self.runs_wf());
            Heap::lemma_least_same(&before, self);
        }
        r
    }

    /// Push everything that the object under a handle refers to.
    pub(super) fn trace_at(&self, id: ObjectId, gray: &mut Vec<ObjectId>)
        requires
            self.wf(),
        ensures
            final(gray)@ == old(gray)@ + if self@.has(id) {
                self@.refs(id)
            } else {
                Seq::empty()
            },
    {
        let ghost before = gray@;
        let index: u32 = id.index();
        match ObjectType::from_tag(id.tag()) {
            Some(ObjectType::Instance) => {
                self.instances.trace(index, gray);
                let fields: Vec<Value> = self.instance_fields(id);
                gray_values(&fields, gray);
                proof {
                    if self@.has(id) {
                        assert(gray@ =~= before + self@.refs(id));
                    } else {
                        assert(fields@ =~= Seq::<Value>::empty());
                        assert(gray@ =~= before + Seq::<ObjectId>::empty());
                    }
                }
            },
            Some(ObjectType::Class) => self.classes.trace(index, gray),
            Some(ObjectType::Closure) => self.closures.trace(index, gray),
            Some(ObjectType::Fn) => self.functions.trace(index, gray),
            Some(ObjectType::List) => self.lists.trace(index, gray),
            Some(ObjectType::MapObject) => self.maps.trace(index, gray),
            Some(ObjectType::Range) => self.ranges.trace(index, gray),
            Some(ObjectType::String) => self.strings.trace(index, gray),
            Some(ObjectType::Upvalue) => self.upvalues.trace(index, gray),
            Some(ObjectType::Fiber) => self.fibers.trace(index, gray),
            None => {
                proof {
                    assert(gray@ =~= before + Seq::<ObjectId>::empty());
                }
            },
        }
    }

    /// The objects a mark phase may enter: all of them, or the young ones.
    pub open spec fn enterable(&self, young_only: bool) -> Set<ObjectId> {
        if young_only {
            Set::new(|id: ObjectId| self@.has(id) && self.spec_young(id))
        } else {
            self@.ids()
        }
    }

    /// Mark everything the roots reach, without entering an old object if only
    /// the young ones are wanted.
    ///
    /// The work list is a vector, so a deep object graph is not a deep
    /// recursion.
    pub(super) fn mark_from(&mut self, roots: Vec<ObjectId>, young_only: bool)
        requires
            old(self).wf(),
            forall|id: ObjectId| !(#[trigger] old(self).spec_marked(id)),
        ensures
            final(self).wf(),
            final(self)@ == old(self)@,
            final(self).same_books(old(self)),
            final(self).arena == old(self).arena,
            final(self).least_bytes() == old(self).least_bytes(),
            forall|id: ObjectId| #[trigger]
                final(self).spec_marked(id) == old(self)@.reaches(
                    old(self).enterable(young_only),
                    super::graph::handles(roots@),
                    id,
                ),
    {
        let ghost before = *self;
        let ghost model = self@;
        let ghost among = self.enterable(young_only);
        let ghost start = super::graph::handles(roots@);
        let mut gray: Vec<ObjectId> = roots;
        proof {
            assert forall|k: int| 0 <= k < gray@.len() && among.contains(
                #[trigger] gray@[k],
            ) implies model.reaches(among, start, gray@[k]) by {
                assert(start.contains(gray@[k]));
                model.lemma_root_reached(among, start, gray@[k]);
            }
            lemma_raws(self.marks());
        }
        while gray.len() > 0
            invariant
                self.wf(),
                before.wf(),
                self@ == model,
                model == before@,
                self.same_books(&before),
                self.arena == before.arena,
                self.least_bytes() == before.least_bytes(),
                among == before.enterable(young_only),
                raws(self.marks()).len() <= 0x1_0000_0000,
                forall|id: ObjectId| #[trigger]
                    self.spec_marked(id) ==> model.reaches(among, start, id) && among.contains(id),
                forall|k: int|
                    0 <= k < gray@.len() && among.contains(#[trigger] gray@[k])
                        ==> model.reaches(among, start, gray@[k]),
                forall|r: ObjectId| #[trigger]
                    start.contains(r) && among.contains(r) ==> self.spec_marked(r)
                        || gray@.contains(r),
                forall|a: ObjectId, b: ObjectId|
                    self.spec_marked(a) && #[trigger] model.refs(a).contains(b) && among.contains(b)
                        ==> self.spec_marked(b) || gray@.contains(b),
            decreases 0x1_0000_0000 - raws(self.marks()).len(), gray@.len(),
        {
            let ghost held = gray@;
            let ghost earlier = *self;
            let id = gray.pop().unwrap();
            proof {
                assert(id == held.last());
                assert(gray@ =~= held.drop_last());
                assert forall|other: ObjectId| held.contains(other) implies other == id
                    || gray@.contains(other) by {
                    let k = choose|k: int| 0 <= k < held.len() && held[k] == other;
                    if k < held.len() - 1 {
                        assert(gray@[k] == other);
                    }
                }
            }
            if young_only && !self.is_young(id) {
                proof {
                    assert(!among.contains(id));
                    assert forall|k: int| 0 <= k < gray@.len() && among.contains(
                        #[trigger] gray@[k],
                    ) implies model.reaches(among, start, gray@[k]) by {
                        assert(gray@[k] == held[k]);
                    }
                }
                continue;
            }
            if !self.mark_at(id) {
                proof {
                    assert(self.marks() =~= earlier.marks());
                    assert forall|k: int| 0 <= k < gray@.len() && among.contains(
                        #[trigger] gray@[k],
                    ) implies model.reaches(among, start, gray@[k]) by {
                        assert(gray@[k] == held[k]);
                    }
                }
                continue;
            }
            let ghost popped = gray@;
            self.trace_at(id, &mut gray);
            proof {
                assert(among.contains(id));
                assert(model.reaches(among, start, id)) by {
                    assert(held[held.len() - 1] == id);
                }
                assert(self.marks() =~= earlier.marks().insert(id));
                lemma_raws_insert(earlier.marks(), id);
                lemma_raws(self.marks());
                assert(gray@ == popped + model.refs(id));
                assert forall|k: int| 0 <= k < gray@.len() && among.contains(
                    #[trigger] gray@[k],
                ) implies model.reaches(among, start, gray@[k]) by {
                    if k < popped.len() {
                        assert(gray@[k] == held[k]);
                    } else {
                        assert(gray@[k] == model.refs(id)[k - popped.len()]);
                        assert(model.refs(id).contains(gray@[k]));
                        model.lemma_step_reached(among, start, id, gray@[k]);
                    }
                }
                assert forall|other: ObjectId| popped.contains(other) implies gray@.contains(
                    other,
                ) by {
                    let k = choose|k: int| 0 <= k < popped.len() && popped[k] == other;
                    assert(gray@[k] == other);
                }
                assert forall|other: ObjectId|
                    model.refs(id).contains(other) implies gray@.contains(other) by {
                    let k = choose|k: int|
                        0 <= k < model.refs(id).len() && model.refs(id)[k] == other;
                    assert(gray@[popped.len() + k] == other);
                }
            }
        }
        proof {
            assert forall|id: ObjectId| #[trigger] self.spec_marked(id) == model.reaches(
                among,
                start,
                id,
            ) by {
                if model.reaches(among, start, id) {
                    model.lemma_closed_holds(among, start, self.marks(), id);
                }
            }
        }
    }
}

} // verus!
