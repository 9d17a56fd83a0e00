//! Closing the holes that a sweep leaves among the fields of instances.

use vstd::prelude::*;

use super::Heap;
use crate::fields;
use crate::fields::{sort_runs, Run};
use crate::object::ObjInstance;

verus! {

/// A list of runs that names every instance once, with where its fields are.
spec fn lists(runs: Seq<Run>, instances: Map<u32, ObjInstance>) -> bool {
    &&& forall|k: int|
        0 <= k < runs.len() ==> {
            &&& instances.contains_key((#[trigger] runs[k]).2)
            &&& runs[k].0 == instances[runs[k].2].spec_at()
            &&& runs[k].1 == instances[runs[k].2].fields
        }
    &&& forall|k: int, m: int|
        0 <= k < m < runs.len() ==> (#[trigger] runs[k]).2 != (#[trigger] runs[m]).2
    &&& forall|i: u32| #[trigger]
        instances.contains_key(i) ==> exists|k: int|
            0 <= k < runs.len() && (#[trigger] runs[k]).2 == i
}

/// How many fields the instances below a slot have between them.
spec fn fields_below(instances: Map<u32, ObjInstance>, upto: int) -> nat
    decreases upto,
{
    if upto <= 0 {
        0
    } else {
        fields_below(instances, upto - 1) + if instances.contains_key((upto - 1) as u32) {
            instances[(upto - 1) as u32].fields as nat
        } else {
            0
        }
    }
}

/// The order of the list does not matter.
proof fn lemma_lists_sorted(before: Seq<Run>, after: Seq<Run>, instances: Map<u32, ObjInstance>)
    requires
        lists(before, instances),
        after.to_multiset() == before.to_multiset(),
    ensures
        lists(after, instances),
{
    broadcast use vstd::seq_lib::group_to_multiset_ensures;

    assert(before.no_duplicates());
    before.lemma_multiset_has_no_duplicates();
    after.lemma_multiset_has_no_duplicates_conv();
    assert forall|k: int| 0 <= k < after.len() implies {
        &&& instances.contains_key((#[trigger] after[k]).2)
        &&& after[k].0 == instances[after[k].2].spec_at()
        &&& after[k].1 == instances[after[k].2].fields
    } by {
        assert(after.contains(after[k]));
        assert(after.to_multiset().count(after[k]) > 0);
        assert(before.contains(after[k]));
    }
    assert forall|i: u32| #[trigger] instances.contains_key(i) implies exists|k: int|
        0 <= k < after.len() && (#[trigger] after[k]).2 == i by {
        let k = choose|k: int| 0 <= k < before.len() && (#[trigger] before[k]).2 == i;
        assert(before.contains(before[k]));
        assert(before.to_multiset().count(before[k]) > 0);
        assert(after.contains(before[k]));
    }
}

impl Heap {
    /// The run of every instance, sorted by where it is.
    fn field_runs(&self) -> (runs: Vec<Run>)
        requires
            self.wf(),
        ensures
            lists(runs@, self.instances@),
            self.arena.runs_wf(runs@),
    {
        let mut runs: Vec<Run> = Vec::new();
        let total: usize = self.instances.slots();
        proof {
            self.instances.lemma_count();
        }
        let mut index: usize = 0;
        while index < total
            invariant
                self.wf(),
                self.tables_wf(),
                index <= total,
                total == self.instances.numbered(),
                total <= crate::table::MAX_SLOTS,
                forall|k: int|
                    0 <= k < runs@.len() ==> {
                        &&& self.instances@.contains_key((#[trigger] runs@[k]).2)
                        &&& runs@[k].0 == self.instances@[runs@[k].2].spec_at()
                        &&& runs@[k].1 == self.instances@[runs@[k].2].fields
                        &&& runs@[k].2 < index
                    },
                forall|k: int, m: int|
                    0 <= k < m < runs@.len() ==> (#[trigger] runs@[k]).2 != (#[trigger] runs@[m]).2,
                forall|i: u32| #[trigger]
                    self.instances@.contains_key(i) && i < index ==> exists|k: int|
                        0 <= k < runs@.len() && (#[trigger] runs@[k]).2 == i,
            decreases total - index,
        {
            let ghost earlier = runs@;
            match self.instances.get(index as u32) {
                Some(instance) => {
                    runs.push((instance.at() as u32, instance.count() as u32, index as u32));
                    proof {
                        assert forall|i: u32| #[trigger]
                            self.instances@.contains_key(i) && i < index + 1 implies exists|k: int|
                            0 <= k < runs@.len() && (#[trigger] runs@[k]).2 == i by {
                            if i == index {
                                assert(runs@[runs@.len() - 1].2 == i);
                            } else {
                                let k = choose|k: int|
                                    0 <= k < earlier.len() && (#[trigger] earlier[k]).2 == i;
                                assert(runs@[k].2 == i);
                            }
                        }
                    }
                },
                None => {},
            }
            index = index + 1;
        }
        proof {
            self.instances.lemma_numbered();
            assert(lists(runs@, self.instances@));
        }
        let ghost found = runs@;
        sort_runs(&mut runs);
        proof {
            lemma_lists_sorted(found, runs@, self.instances@);
            assert forall|k: int| 0 <= k < runs@.len() implies self.arena.holds(
                (#[trigger] runs@[k]).0 as int,
                runs@[k].1 as int,
            ) by {
                assert(self.instances@.contains_key(runs@[k].2));
            }
            assert forall|k: int, m: int| 0 <= k < m < runs@.len() implies crate::fields::run_le(
                #[trigger] runs@[k],
                #[trigger] runs@[m],
            ) && crate::fields::apart(
                runs@[k].0 as int,
                runs@[k].1 as int,
                runs@[m].0 as int,
                runs@[m].1 as int,
            ) by {
                let a = self.instances@[runs@[k].2];
                let b = self.instances@[runs@[m].2];
            }
        }
        runs
    }

    /// How many fields the instances have between them.
    pub(super) closed spec fn fields_held(&self) -> nat {
        fields_below(self.instances@, self.instances.numbered() as int)
    }

    /// How many fields the instances have between them.
    fn live_fields(&self) -> (total: u64)
        requires
            self.wf(),
        ensures
            total == self.fields_held(),
    {
        let slots: usize = self.instances.slots();
        proof {
            self.instances.lemma_count();
        }
        let mut total: u64 = 0;
        let mut index: usize = 0;
        while index < slots
            invariant
                self.wf(),
                index <= slots,
                slots == self.instances.numbered(),
                slots <= crate::table::MAX_SLOTS,
                total <= index * 65535,
                total == fields_below(self.instances@, index as int),
            decreases slots - index,
        {
            match self.instances.get(index as u32) {
                Some(instance) => {
                    total = total + instance.count() as u64;
                },
                None => {},
            }
            index = index + 1;
        }
        total
    }

    /// How many fields lie in the used part of the arena.
    pub(super) closed spec fn fields_used(&self) -> nat {
        self.arena.room_before(self.arena.chunks@.len() - 1) + self.arena.used as nat
    }

    /// Whether the fields are those of an earlier heap, placed one behind the
    /// other in the order they were in.
    pub(super) closed spec fn packed_over(&self, before: &Heap) -> bool {
        exists|runs: Seq<Run>| #[trigger] self.packed_as(before, runs)
    }

    /// Whether the fields are those of an earlier heap, placed one behind the
    /// other in the order of these runs.
    closed spec fn packed_as(&self, before: &Heap, runs: Seq<Run>) -> bool {
        let sizes = fields::sizes_of(before.arena.chunks@);
        &&& lists(runs, before.instances@)
        &&& before.arena.runs_wf(runs)
        &&& self.arena.packed(&before.arena, runs)
        &&& forall|k: int|
            0 <= k < runs.len() ==> self.instances@[(#[trigger] runs[k]).2].spec_at() == fields::place_of(
                fields::packed_at(sizes, runs, k).0,
                fields::packed_at(sizes, runs, k).1,
            )
    }

    /// Close the holes a sweep left among the fields. Where there is none,
    /// nothing moves.
    ///
    /// Contents move and objects do not: a handle still names the same slot in
    /// the same table, and an instance still has the fields it had.
    pub(super) fn compact_fields(&mut self)
        requires
            old(self).wf(),
        ensures
            final(self).wf(),
            final(self)@ == old(self)@,
            final(self).stats() == old(self).stats(),
            final(self).same_generations(old(self)),
            forall|n: int| #[trigger] final(self).has_slots(n) == old(self).has_slots(n),
            final(self).chunks() <= old(self).chunks(),
            final(self).least_bytes() == old(self).least_bytes(),
            if old(self).fields_held() == old(self).fields_used() {
                *final(self) == *old(self)
            } else {
                final(self).packed_over(old(self))
            },
    {
        if self.live_fields() == self.arena.used_fields() {
            return;
        }
        let ghost before = *self;
        let runs: Vec<Run> = self.field_runs();
        let moved: Vec<u32> = self.arena.compact(&runs);
        let ghost packed = self.arena;
        let mut k: usize = 0;
        while k < runs.len()
            invariant
                before.wf(),
                self.arena == packed,
                *self == (Heap { arena: self.arena, instances: self.instances, ..before }),
                self.instances.wf(),
                self.instances.same_books(&before.instances),
                lists(runs@, before.instances@),
                moved@.len() == runs@.len(),
                k <= runs@.len(),
                forall|i: int| 0 <= i < moved@.len() ==> (#[trigger] moved@[i]) < u32::MAX,
                forall|i: u32| #[trigger]
                    self.instances@.contains_key(i) == before.instances@.contains_key(i),
                forall|i: u32|
                    before.instances@.contains_key(i) ==> {
                        &&& (#[trigger] self.instances@[i]).class == before.instances@[i].class
                        &&& self.instances@[i].fields == before.instances@[i].fields
                    },
                forall|j: int|
                    0 <= j < k ==> self.instances@[(#[trigger] runs@[j]).2].spec_at() == moved@[j],
            decreases runs.len() - k,
        {
            let (_, count, index) = runs[k];
            let ghost earlier = self.instances@;
            match self.instances.get_mut(index) {
                Some(instance) => {
                    instance.moved_to(moved[k] as usize, count as usize);
                },
                None => {},
            }
            proof {
                assert(runs@[k as int].2 == index);
                assert(self.instances@ == earlier.insert(index, self.instances@[index]));
                assert forall|j: int| 0 <= j < k + 1 implies self.instances@[(
                #[trigger] runs@[j]).2].spec_at() == moved@[j] by {
                    if j < k {
                        assert(runs@[j].2 != runs@[k as int].2);
                    }
                }
            }
            k = k + 1;
        }
        proof {
            assert(self.packed_as(&before, runs@));
            self.instances.lemma_least_bytes(&before.instances);
            assert(self.runs_wf()) by {
                assert forall|i: u32| self.instances@.contains_key(i) implies self.arena.holds(
                    (#[trigger] self.instances@[i]).spec_at(),
                    self.instances@[i].fields as int,
                ) by {
                    assert(before.instances@.contains_key(i));
                    let j = choose|j: int| 0 <= j < runs@.len() && (#[trigger] runs@[j]).2 == i;
                    assert(moved@[j] < u32::MAX);
                }
                assert forall|i: u32, j: u32|
                    self.instances@.contains_key(i) && self.instances@.contains_key(j) && i
                        != j implies crate::fields::apart(
                    (#[trigger] self.instances@[i]).spec_at(),
                    self.instances@[i].fields as int,
                    (#[trigger] self.instances@[j]).spec_at(),
                    self.instances@[j].fields as int,
                ) by {
                    assert(before.instances@.contains_key(i));
                    assert(before.instances@.contains_key(j));
                    let a = choose|a: int| 0 <= a < runs@.len() && (#[trigger] runs@[a]).2 == i;
                    let b = choose|b: int| 0 <= b < runs@.len() && (#[trigger] runs@[b]).2 == j;
                    if a < b {
                        assert(moved@[a] < u32::MAX && moved@[b] < u32::MAX);
                    } else {
                        assert(moved@[b] < u32::MAX && moved@[a] < u32::MAX);
                    }
                }
            }
            assert(self.instance_model() =~= before.instance_model()) by {
                assert forall|i: u32| self.instances@.contains_key(
                    i,
                ) implies #[trigger] self.instance_model()[i] == before.instance_model()[i] by {
                    assert(before.instances@.contains_key(i));
                    let j = choose|j: int| 0 <= j < runs@.len() && (#[trigger] runs@[j]).2 == i;
                    assert(moved@[j] < u32::MAX);
                    assert(self.instances@[i].class == before.instances@[i].class);
                }
            }
        }
    }
}

} // verus!
