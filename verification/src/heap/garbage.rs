//! What kind of garbage there is: how much of it a reference count would have
//! freed the moment it died, and how much it would have leaked.

use vstd::prelude::*;

use super::{Heap, HeapModel};
use crate::handle::ObjectId;
use crate::object::gray_values;
use crate::value::Value;

verus! {

/// Whether everything in a set is referred to from within it, so that no count
/// of references to it ever comes to nothing.
pub open spec fn self_sustaining(model: HeapModel, ids: Set<ObjectId>) -> bool {
    forall|id: ObjectId| #[trigger] ids.contains(id) ==> fed(model, ids, id)
}

/// Whether something in a set refers to an object.
pub open spec fn fed(model: HeapModel, ids: Set<ObjectId>, id: ObjectId) -> bool {
    exists|from: ObjectId| #[trigger] ids.contains(from) && model.refs(from).contains(id)
}

/// Whether a set is the garbage that a reference count would leak: the largest
/// part of it that sustains itself.
pub open spec fn leaked(
    model: HeapModel,
    garbage: Set<ObjectId>,
    cyclic: Set<ObjectId>,
) -> bool {
    &&& cyclic.subset_of(garbage)
    &&& self_sustaining(model, cyclic)
    &&& forall|other: Set<ObjectId>|
        other.subset_of(garbage) && #[trigger] self_sustaining(model, other) ==> other.subset_of(
            cyclic,
        )
}

/// There is one such set.
pub proof fn law_leak_is_unique(
    model: HeapModel,
    garbage: Set<ObjectId>,
    one: Set<ObjectId>,
    other: Set<ObjectId>,
)
    requires
        leaked(model, garbage, one),
        leaked(model, garbage, other),
    ensures
        one == other,
{
    assert(one =~= other);
}

/// Whether a handle is in a list.
fn listed(ids: &Vec<ObjectId>, id: ObjectId) -> (r: bool)
    ensures
        r == ids@.contains(id),
{
    let mut i: usize = 0;
    while i < ids.len()
        invariant
            i <= ids@.len(),
            forall|k: int| 0 <= k < i ==> #[trigger] ids@[k] != id,
        decreases ids@.len() - i,
    {
        if ids[i] == id {
            return true;
        }
        i = i + 1;
    }
    false
}

impl HeapModel {
    /// What the next collection would free.
    pub open spec fn garbage(self, roots: Seq<Value>) -> Set<ObjectId> {
        Set::new(|id: ObjectId| self.has(id) && !self.kept_by(roots).contains(id))
    }
}

impl Heap {
    /// The garbage there is, a handle at a time.
    fn list_garbage(&mut self, roots: &Vec<Value>) -> (garbage: Vec<ObjectId>)
        requires
            old(self).wf(),
        ensures
            final(self).wf(),
            final(self)@ == old(self)@,
            final(self).same_books(old(self)),
            garbage@.no_duplicates(),
            garbage@.to_set() == old(self)@.garbage(roots@),
    {
        let ghost start = *self;
        self.clear_marks();
        let ghost cleared = *self;
        let mut gray: Vec<ObjectId> = Vec::new();
        gray_values(roots, &mut gray);
        proof {
            assert(gray@ =~= crate::object::values_refs(roots@));
        }
        self.mark_from(gray, false);
        let ids: Vec<ObjectId> = self.ids();
        let mut garbage: Vec<ObjectId> = Vec::new();
        let mut i: usize = 0;
        while i < ids.len()
            invariant
                self.wf(),
                i <= ids@.len(),
                ids@.no_duplicates(),
                garbage@.no_duplicates(),
                forall|id: ObjectId| #[trigger]
                    garbage@.contains(id) <==> ids@.take(i as int).contains(id)
                        && !self.spec_marked(id) && !self@.permanent(id),
            decreases ids@.len() - i,
        {
            let id = ids[i];
            let ghost earlier = garbage@;
            proof {
                assert(ids@.take(i as int + 1) =~= ids@.take(i as int).push(id));
                assert(!ids@.take(i as int).contains(id)) by {
                    if ids@.take(i as int).contains(id) {
                        let k = ids@.take(i as int).index_of(id);
                        assert(ids@[k] == ids@[i as int]);
                    }
                }
            }
            if !self.is_marked_at(id) && !self.class_is_static(id) {
                garbage.push(id);
            }
            proof {
                assert(!earlier.contains(id));
                assert(garbage@.no_duplicates()) by {
                    assert forall|a: int, b: int|
                        0 <= a < b < garbage@.len() implies garbage@[a] != garbage@[b] by {
                        if b == earlier.len() {
                            assert(earlier.contains(earlier[a]));
                        }
                    }
                }
                assert forall|other: ObjectId| #[trigger]
                    garbage@.contains(other) <==> ids@.take(i as int + 1).contains(other)
                        && !self.spec_marked(other) && !self@.permanent(other) by {
                    super::collector::lemma_push_contains(ids@.take(i as int), id, other);
                    super::collector::lemma_push_contains(earlier, id, other);
                }
            }
            i = i + 1;
        }
        proof {
            assert(ids@.take(i as int) =~= ids@);
            assert(garbage@.to_set() =~= start@.garbage(roots@));
        }
        garbage
    }

    /// What a reference count would have managed on its own: how much of the
    /// garbage it would have freed, and how much it would have leaked, a cycle
    /// and whatever hangs on one.
    ///
    /// Whatever nothing in the garbage refers to goes, then whatever only that
    /// referred to, and so on. What is left sustains itself.
    pub fn profile_garbage(&mut self, roots: &Vec<Value>) -> (r: (usize, usize))
        requires
            old(self).wf(),
        ensures
            final(self).wf(),
            final(self)@ == old(self)@,
            final(self).same_books(old(self)),
            exists|cyclic: Set<ObjectId>| #[trigger]
                leaked(old(self)@, old(self)@.garbage(roots@), cyclic) && r.1 == cyclic.len()
                    && r.0 + r.1 == old(self)@.garbage(roots@).len(),
    {
        let ghost model = self@;
        let ghost garbage = model.garbage(roots@);
        let mut rest: Vec<ObjectId> = self.list_garbage(roots);
        let total: usize = rest.len();
        proof {
            rest@.unique_seq_to_set();
        }
        let mut settled: bool = false;
        while !settled
            invariant
                self.wf(),
                self@ == model,
                garbage == model.garbage(roots@),
                total == garbage.len(),
                rest@.len() <= total,
                rest@.no_duplicates(),
                rest@.to_set().subset_of(garbage),
                settled ==> self_sustaining(model, rest@.to_set()),
                forall|other: Set<ObjectId>|
                    other.subset_of(garbage) && #[trigger] self_sustaining(model, other)
                        ==> other.subset_of(rest@.to_set()),
            decreases
                    rest@.len(),
                    if settled {
                        0nat
                    } else {
                        1
                    },
        {
            let mut referred: Vec<ObjectId> = Vec::new();
            self.trace_list(&rest, &mut referred);
            let kept: Vec<ObjectId> = still_referred(&rest, &referred);
            proof {
                assert forall|id: ObjectId| rest@.to_set().contains(id) implies #[trigger] referred@.contains(
                    id,
                ) == fed(model, rest@.to_set(), id) by {
                    if referred@.contains(id) {
                        let k = choose|k: int|
                            0 <= k < rest@.len() && model.has(#[trigger] rest@[k]) && model.refs(
                                rest@[k],
                            ).contains(id);
                        assert(rest@.to_set().contains(rest@[k]));
                    }
                    if fed(model, rest@.to_set(), id) {
                        let from = choose|from: ObjectId| #[trigger]
                            rest@.to_set().contains(from) && model.refs(from).contains(id);
                        let k = choose|k: int| 0 <= k < rest@.len() && rest@[k] == from;
                        assert(model.has(rest@[k]));
                    }
                }
                assert forall|other: Set<ObjectId>|
                    other.subset_of(garbage) && #[trigger] self_sustaining(
                        model,
                        other,
                    ) implies other.subset_of(kept@.to_set()) by {
                    assert(other.subset_of(rest@.to_set()));
                    assert forall|id: ObjectId| other.contains(id) implies kept@.to_set().contains(
                        id,
                    ) by {
                        assert(fed(model, other, id));
                        let from = choose|from: ObjectId| #[trigger]
                            other.contains(from) && model.refs(from).contains(id);
                        assert(rest@.to_set().contains(from));
                        assert(rest@.to_set().contains(id));
                        assert(fed(model, rest@.to_set(), id));
                    }
                }
                if kept@.len() == rest@.len() {
                    assert forall|id: ObjectId| #[trigger]
                        rest@.to_set().contains(id) implies fed(model, rest@.to_set(), id) by {
                        assert(rest@.contains(id));
                        assert(kept@.contains(id));
                    }
                }
            }
            settled = kept.len() == rest.len();
            if !settled {
                rest = kept;
            }
        }
        proof {
            rest@.unique_seq_to_set();
            assert(leaked(model, garbage, rest@.to_set()));
        }
        (total - rest.len(), rest.len())
    }
}

/// The handles of a list that another list holds too.
fn still_referred(ids: &Vec<ObjectId>, referred: &Vec<ObjectId>) -> (kept: Vec<ObjectId>)
    requires
        ids@.no_duplicates(),
    ensures
        kept@.no_duplicates(),
        kept@.len() <= ids@.len(),
        forall|id: ObjectId| #[trigger]
            kept@.contains(id) <==> ids@.contains(id) && referred@.contains(id),
        kept@.len() == ids@.len() ==> kept@ == ids@,
{
    let mut kept: Vec<ObjectId> = Vec::new();
    let mut i: usize = 0;
    while i < ids.len()
        invariant
            i <= ids@.len(),
            ids@.no_duplicates(),
            kept@.no_duplicates(),
            kept@.len() <= i,
            kept@.len() == i ==> kept@ == ids@.take(i as int),
            forall|id: ObjectId| #[trigger]
                kept@.contains(id) <==> ids@.take(i as int).contains(id) && referred@.contains(id),
        decreases ids@.len() - i,
    {
        let id = ids[i];
        let ghost earlier = kept@;
        proof {
            assert(ids@.take(i as int + 1) =~= ids@.take(i as int).push(id));
            assert(!ids@.take(i as int).contains(id)) by {
                if ids@.take(i as int).contains(id) {
                    let k = ids@.take(i as int).index_of(id);
                    assert(ids@[k] == ids@[i as int]);
                }
            }
        }
        if listed(referred, id) {
            kept.push(id);
        }
        proof {
            assert(!earlier.contains(id));
            assert(kept@.no_duplicates()) by {
                assert forall|a: int, b: int|
                    0 <= a < b < kept@.len() implies kept@[a] != kept@[b] by {
                    if b == earlier.len() {
                        assert(earlier.contains(earlier[a]));
                    }
                }
            }
            assert forall|other: ObjectId| #[trigger]
                kept@.contains(other) <==> ids@.take(i as int + 1).contains(other)
                    && referred@.contains(other) by {
                super::collector::lemma_push_contains(ids@.take(i as int), id, other);
                super::collector::lemma_push_contains(earlier, id, other);
            }
        }
        i = i + 1;
    }
    proof {
        assert(ids@.take(i as int) =~= ids@);
    }
    kept
}

} // verus!
