//! What the heap has been doing, tallied while that is asked for.

use vstd::prelude::*;

use super::{Collection, Heap, HeapStats};
use crate::handle::ObjectId;
use crate::object::{gray_values, Object};
use crate::value::Value;

verus! {


/// What the allocator and the collector have been doing.
#[derive(Clone, Copy, Debug)]
pub struct Profile {
    /// Objects ever allocated, by type in the order of their tags.
    pub allocated: [u64; 10],
    /// How many collections of everything ran.
    pub collections: u64,
    /// What the objects were estimated to cost when they were allocated.
    pub allocated_bytes: u64,
    /// Objects visited by the mark phase, summed over every collection.
    pub marked: u64,
    /// Objects freed by collections of everything.
    pub swept: u64,
    /// Live objects right after each of them, summed.
    pub survived: u64,
    /// Live objects right before each of them, summed.
    pub live_before: u64,
    /// Garbage that a count of references would have freed when it died.
    pub garbage_acyclic: u64,
    /// Garbage that it would have leaked.
    pub garbage_cyclic: u64,
    /// The most objects that were ever alive.
    pub peak_live: usize,
    /// The most bytes that were ever held.
    pub peak_bytes: usize,
    /// Slots ever swept over.
    pub slots_swept: u64,
    /// Objects freed by a count of their references; nothing counts them.
    pub freed_promptly: u64,
    /// How many collections of the young objects ran.
    pub minor_collections: u64,
    /// Young objects that survived one.
    pub promoted: u64,
    /// Young objects that one freed.
    pub freed_young: u64,
    /// Objects ever allocated.
    pub young_allocated: u64,
    /// Objects allocated since the collection of everything before that were
    /// still alive at the next, summed.
    pub young_survived: u64,
    /// How often candidates were confirmed against the roots; there are none.
    pub flushes: u64,
}

/// What a profile says.
pub struct ProfileModel {
    pub allocated: Seq<u64>,
    pub collections: u64,
    pub allocated_bytes: u64,
    pub marked: u64,
    pub swept: u64,
    pub survived: u64,
    pub live_before: u64,
    pub garbage_acyclic: u64,
    pub garbage_cyclic: u64,
    pub peak_live: usize,
    pub peak_bytes: usize,
    pub slots_swept: u64,
    pub freed_promptly: u64,
    pub minor_collections: u64,
    pub promoted: u64,
    pub freed_young: u64,
    pub young_allocated: u64,
    pub young_survived: u64,
    pub flushes: u64,
}

/// A profile of nothing.
pub open spec fn blank() -> ProfileModel {
    ProfileModel {
        allocated: Seq::new(10, |i: int| 0u64),
        collections: 0,
        allocated_bytes: 0,
        marked: 0,
        swept: 0,
        survived: 0,
        live_before: 0,
        garbage_acyclic: 0,
        garbage_cyclic: 0,
        peak_live: 0,
        peak_bytes: 0,
        slots_swept: 0,
        freed_promptly: 0,
        minor_collections: 0,
        promoted: 0,
        freed_young: 0,
        young_allocated: 0,
        young_survived: 0,
        flushes: 0,
    }
}

impl View for Profile {
    type V = ProfileModel;

    open spec fn view(&self) -> ProfileModel {
        ProfileModel {
            allocated: self.allocated@,
            collections: self.collections,
            allocated_bytes: self.allocated_bytes,
            marked: self.marked,
            swept: self.swept,
            survived: self.survived,
            live_before: self.live_before,
            garbage_acyclic: self.garbage_acyclic,
            garbage_cyclic: self.garbage_cyclic,
            peak_live: self.peak_live,
            peak_bytes: self.peak_bytes,
            slots_swept: self.slots_swept,
            freed_promptly: self.freed_promptly,
            minor_collections: self.minor_collections,
            promoted: self.promoted,
            freed_young: self.freed_young,
            young_allocated: self.young_allocated,
            young_survived: self.young_survived,
            flushes: self.flushes,
        }
    }
}

/// A tally with so many more, as far as it goes.
pub open spec fn more(tally: u64, n: nat) -> u64 {
    if tally + n <= u64::MAX {
        (tally + n) as u64
    } else {
        u64::MAX
    }
}

/// A tally with so many more, as far as it goes.
fn add_to(tally: u64, n: usize) -> (r: u64)
    ensures
        r == more(tally, n as nat),
{
    tally.saturating_add(n as u64)
}

impl Default for Profile {
    fn default() -> (profile: Profile)
        ensures
            profile@ == blank(),
    {
        let profile = Profile {
            allocated: [0; 10],
            collections: 0,
            allocated_bytes: 0,
            marked: 0,
            swept: 0,
            survived: 0,
            live_before: 0,
            garbage_acyclic: 0,
            garbage_cyclic: 0,
            peak_live: 0,
            peak_bytes: 0,
            slots_swept: 0,
            freed_promptly: 0,
            minor_collections: 0,
            promoted: 0,
            freed_young: 0,
            young_allocated: 0,
            young_survived: 0,
            flushes: 0,
        };
        proof {
            assert(profile@.allocated =~= blank().allocated);
        }
        profile
    }
}

/// Whether a heap's figures are earlier ones as far as making an object is
/// tallied: counted by its type, charged for, and newborn.
pub open spec fn tallied(
    after: HeapStats,
    before: HeapStats,
    id: ObjectId,
    object: Object,
) -> bool {
    let kind = object.kind().spec_tag() as int;
    let was = before.profile;
    let is = after.profile;
    if before.profiling {
        &&& after.newborn == before.newborn.push(id)
        &&& is == (ProfileModel {
            allocated: was.allocated.update(kind, more(was.allocated[kind], 1)),
            young_allocated: more(was.young_allocated, 1),
            allocated_bytes: is.allocated_bytes,
            peak_live: super::raised(was.peak_live, after.live),
            peak_bytes: super::raised(was.peak_bytes, after.bytes),
            ..was
        })
        &&& is.allocated_bytes >= more(
            was.allocated_bytes,
            crate::memory::capped(super::least_cost(object)),
        )
        &&& super::exact_cost(object) ==> is.allocated_bytes == more(
            was.allocated_bytes,
            crate::memory::capped(super::least_cost(object)),
        )
    } else {
        after.newborn == before.newborn && is == was
    }
}

/// The handles in a list that have an object.
pub open spec fn alive(ids: Seq<ObjectId>, heap: super::HeapModel) -> Seq<ObjectId> {
    ids.filter(|id: ObjectId| heap.has(id))
}

/// What is left of a number.
pub open spec fn less(n: int, taken: int) -> nat {
    if n >= taken {
        (n - taken) as nat
    } else {
        0
    }
}

impl Heap {
    /// The objects that carry a mark.
    pub open spec fn marked_ids(&self) -> Set<ObjectId> {
        Set::new(|id: ObjectId| self@.has(id) && self.spec_marked(id))
    }

    /// The objects that a collection of everything visits.
    pub open spec fn visited(&self, roots: Seq<Value>) -> Set<ObjectId> {
        Set::new(
            |id: ObjectId|
                self@.has(id) && self@.reaches(
                    self.enterable(false),
                    super::graph::handles(crate::object::values_refs(roots)),
                    id,
                ),
        )
    }

    /// The objects that a collection of the young ones visits.
    pub open spec fn visited_young(&self, roots: Seq<ObjectId>) -> Set<ObjectId> {
        Set::new(
            |id: ObjectId|
                self@.has(id) && self@.reaches(
                    self.enterable(true),
                    self.minor_start(roots),
                    id,
                ),
        )
    }

    /// How many slots the tables have.
    pub closed spec fn slot_total(&self) -> nat {
        (self.classes.numbered() + self.closures.numbered() + self.functions.numbered()
            + self.instances.numbered() + self.lists.numbered() + self.maps.numbered()
            + self.ranges.numbered() + self.strings.numbered() + self.upvalues.numbered()
            + self.fibers.numbered()) as nat
    }

    /// Whether a heap's tallies are those of an earlier one after everything
    /// was collected.
    pub open spec fn traced(&self, before: &Heap, roots: Seq<Value>) -> bool {
        let was = before.stats();
        let is = self.stats();
        if was.profiling {
            &&& is.newborn == Seq::<ObjectId>::empty()
            &&& exists|cyclic: Set<ObjectId>| #[trigger]
                super::garbage::leaked(before@, before@.garbage(roots), cyclic) && is.profile
                    == traced_profile(*before, *self, roots, cyclic)
        } else {
            is.newborn == was.newborn && is.profile == was.profile
        }
    }

    /// Whether a heap's tallies are those of an earlier one after the young
    /// objects were collected.
    pub open spec fn traced_young(&self, before: &Heap, roots: Seq<ObjectId>) -> bool {
        let was = before.stats();
        let is = self.stats();
        let dead = less(was.live as int, is.live as int);
        if was.profiling {
            &&& is.newborn == alive(was.newborn, self@)
            &&& is.profile == (ProfileModel {
                marked: more(was.profile.marked, before.visited_young(roots).len()),
                minor_collections: more(was.profile.minor_collections, 1),
                promoted: more(
                    was.profile.promoted,
                    less(was.young_total as int, dead as int),
                ),
                freed_young: more(was.profile.freed_young, dead),
                ..was.profile
            })
        } else {
            is.newborn == was.newborn && is.profile == was.profile
        }
    }
}

/// The tallies after everything was collected, so much of the garbage being
/// such that a count of references would have leaked it.
pub open spec fn traced_profile(
    before: Heap,
    after: Heap,
    roots: Seq<Value>,
    cyclic: Set<ObjectId>,
) -> ProfileModel {
    let was = before.stats();
    let is = after.stats();
    ProfileModel {
        collections: more(was.profile.collections, 1),
        marked: more(was.profile.marked, before.visited(roots).len()),
        swept: more(was.profile.swept, less(was.live as int, is.live as int)),
        survived: more(was.profile.survived, is.live as nat),
        live_before: more(was.profile.live_before, was.live as nat),
        garbage_acyclic: more(
            was.profile.garbage_acyclic,
            less(before@.garbage(roots).len() as int, cyclic.len() as int),
        ),
        garbage_cyclic: more(was.profile.garbage_cyclic, cyclic.len()),
        slots_swept: more(was.profile.slots_swept, before.slot_total()),
        young_survived: more(
            was.profile.young_survived,
            alive(was.newborn, after@).len(),
        ),
        ..was.profile
    }
}

impl Heap {
    /// What the heap has been doing.
    pub fn profile(&self) -> (profile: &Profile)
        ensures
            profile@ == self.stats().profile,
    {
        &self.profile
    }

    /// Tally what the heap does from now on, or stop doing so.
    ///
    /// It costs a second trace at each collection, and one more to tell cycles
    /// from other garbage.
    pub fn set_profiling(&mut self, wanted: bool)
        requires
            old(self).wf(),
        ensures
            final(self).wf(),
            final(self)@ == old(self)@,
            final(self).stats() == (HeapStats { profiling: wanted, ..old(self).stats() }),
            final(self).same_generations(old(self)),
            final(self).same_room(old(self)),
    {
        let ghost before = *self;
        self.profiling = wanted;
        proof {
            Heap::lemma_same_contents(&before, self);
        }
    }

    /// Count an object that was just made.
    pub(super) fn note_allocation(&mut self, id: ObjectId, cost: usize)
        requires
            id.spec_tag() < 10,
        ensures
            *final(self) == (Heap {
                profile: final(self).profile,
                newborns: final(self).newborns,
                ..*old(self)
            }),
            final(self).newborns@ == old(self).newborns@.push(id),
            final(self).profile@ == (ProfileModel {
                allocated: old(self).profile.allocated@.update(
                    id.spec_tag() as int,
                    more(old(self).profile.allocated@[id.spec_tag() as int], 1),
                ),
                young_allocated: more(old(self).profile.young_allocated, 1),
                allocated_bytes: more(old(self).profile.allocated_bytes, cost as nat),
                peak_live: super::raised(old(self).profile.peak_live, old(self).live),
                peak_bytes: super::raised(old(self).profile.peak_bytes, old(self).bytes),
                ..old(self).profile@
            }),
    {
        let kind: usize = id.tag() as usize;
        let mut profile: Profile = self.profile;
        profile.allocated[kind] = add_to(profile.allocated[kind], 1);
        profile.young_allocated = add_to(profile.young_allocated, 1);
        profile.allocated_bytes = add_to(profile.allocated_bytes, cost);
        if profile.peak_live < self.live {
            profile.peak_live = self.live;
        }
        if profile.peak_bytes < self.bytes {
            profile.peak_bytes = self.bytes;
        }
        self.profile = profile;
        self.newborns.push(id);
    }

    /// How many objects carry a mark.
    fn count_marked(&self) -> (n: usize)
        requires
            self.wf(),
        ensures
            n == self.marked_ids().len(),
    {
        let ids: Vec<ObjectId> = self.ids();
        let mut found: Vec<ObjectId> = Vec::new();
        let mut i: usize = 0;
        while i < ids.len()
            invariant
                i <= ids@.len(),
                ids@.no_duplicates(),
                found@.no_duplicates(),
                forall|id: ObjectId| #[trigger]
                    found@.contains(id) <==> ids@.take(i as int).contains(id)
                        && self.spec_marked(id),
            decreases ids@.len() - i,
        {
            let id = ids[i];
            let ghost earlier = found@;
            proof {
                assert(ids@.take(i as int + 1) =~= ids@.take(i as int).push(id));
                assert(!ids@.take(i as int).contains(id)) by {
                    if ids@.take(i as int).contains(id) {
                        let k = ids@.take(i as int).index_of(id);
                        assert(ids@[k] == ids@[i as int]);
                    }
                }
            }
            if self.is_marked_at(id) {
                found.push(id);
            }
            proof {
                assert(!earlier.contains(id));
                assert(found@.no_duplicates()) by {
                    assert forall|a: int, b: int|
                        0 <= a < b < found@.len() implies found@[a] != found@[b] by {
                        if b == earlier.len() {
                            assert(earlier.contains(earlier[a]));
                        }
                    }
                }
                assert forall|other: ObjectId| #[trigger]
                    found@.contains(other) <==> ids@.take(i as int + 1).contains(other)
                        && self.spec_marked(other) by {
                    super::collector::lemma_push_contains(ids@.take(i as int), id, other);
                    super::collector::lemma_push_contains(earlier, id, other);
                }
            }
            i = i + 1;
        }
        proof {
            assert(ids@.take(i as int) =~= ids@);
            found@.unique_seq_to_set();
            assert(found@.to_set() =~= self.marked_ids());
        }
        found.len()
    }

    /// How many objects a collection of everything is going to visit.
    fn foresee(&mut self, roots: &Vec<Value>) -> (n: usize)
        requires
            old(self).wf(),
        ensures
            final(self).wf(),
            final(self)@ == old(self)@,
            final(self).same_books(old(self)),
            n == old(self).visited(roots@).len(),
    {
        let ghost before = *self;
        self.clear_marks();
        let ghost cleared = *self;
        let mut gray: Vec<ObjectId> = Vec::new();
        gray_values(roots, &mut gray);
        proof {
            assert(gray@ =~= crate::object::values_refs(roots@));
        }
        self.mark_from(gray, false);
        proof {
            assert(cleared.enterable(false) =~= before.enterable(false));
            assert(self.marked_ids() =~= before.visited(roots@));
        }
        self.count_marked()
    }

    /// How many objects a collection of the young ones is going to visit.
    fn foresee_young(&mut self, roots: &Vec<ObjectId>) -> (n: usize)
        requires
            old(self).wf(),
        ensures
            final(self).wf(),
            final(self)@ == old(self)@,
            final(self).same_books(old(self)),
            final(self).least_bytes() == old(self).least_bytes(),
            n == old(self).visited_young(roots@).len(),
    {
        let ghost before = *self;
        self.mark_young(roots);
        proof {
            assert(self.marked_ids() =~= before.visited_young(roots@));
        }
        self.count_marked()
    }

    /// How many slots the tables have.
    fn count_slots(&self) -> (n: u64)
        ensures
            n == more(0, self.slot_total()),
    {
        let mut n: u64 = add_to(0, self.classes.slots());
        n = add_to(n, self.closures.slots());
        n = add_to(n, self.functions.slots());
        n = add_to(n, self.instances.slots());
        n = add_to(n, self.lists.slots());
        n = add_to(n, self.maps.slots());
        n = add_to(n, self.ranges.slots());
        n = add_to(n, self.strings.slots());
        n = add_to(n, self.upvalues.slots());
        add_to(n, self.fibers.slots())
    }

    /// The newborn objects that are still there.
    fn newborns_alive(&self) -> (ids: Vec<ObjectId>)
        requires
            self.wf(),
        ensures
            ids@ == alive(self.newborns@, self@),
    {
        let mut ids: Vec<ObjectId> = Vec::new();
        let mut i: usize = 0;
        proof {
            assert(self.newborns@.take(0).filter(|id: ObjectId| self@.has(id)) =~= Seq::<
                ObjectId,
            >::empty());
        }
        while i < self.newborns.len()
            invariant
                self.wf(),
                i <= self.newborns@.len(),
                ids@ == alive(self.newborns@.take(i as int), self@),
            decreases self.newborns@.len() - i,
        {
            let id = self.newborns[i];
            proof {
                let part = self.newborns@.take(i as int + 1);
                assert(part.drop_last() =~= self.newborns@.take(i as int));
                reveal(Seq::filter);
            }
            if self.is_live(id) {
                ids.push(id);
            }
            i = i + 1;
        }
        proof {
            assert(self.newborns@.take(i as int) =~= self.newborns@);
        }
        ids
    }

    /// Mark everything reachable from `roots`, free the rest, and move the
    /// threshold.
    ///
    /// An object reachable only from somewhere that is not in `roots` is freed.
    pub fn collect(&mut self, roots: &Vec<Value>) -> (r: Collection)
        requires
            old(self).wf(),
        ensures
            final(self).wf(),
            final(self)@.swept(old(self)@, old(self)@.kept_by(roots@)),
            r == (Collection {
                before: old(self).stats().live,
                after: final(self).stats().live,
                bytes_after: final(self).stats().bytes,
            }),
            final(self).stats().bytes >= crate::memory::capped(final(self).least_bytes()),
            super::collector::settled(final(self).stats(), old(self).stats()),
            final(self).traced(old(self), roots@),
            forall|id: ObjectId| !(#[trigger] final(self).spec_young(id)),
            forall|id: ObjectId| !(#[trigger] final(self).spec_remembered(id)),
            forall|n: int| #[trigger] old(self).has_slots(n) ==> final(self).has_slots(n),
            final(self).chunks() <= old(self).chunks(),
    {
        if !self.profiling {
            return self.collect_all(roots);
        }
        let ghost before = *self;
        let slots: u64 = self.count_slots();
        let marked: usize = self.foresee(roots);
        let ghost seen = *self;
        let (acyclic, cyclic) = self.profile_garbage(roots);
        let ghost told = *self;
        let r = self.collect_all(roots);
        let ghost mid = *self;
        let newborn: usize = self.newborns_alive().len();
        let mut profile: Profile = self.profile;
        profile.collections = add_to(profile.collections, 1);
        profile.marked = add_to(profile.marked, marked);
        profile.swept = add_to(profile.swept, r.before.saturating_sub(r.after));
        profile.survived = add_to(profile.survived, r.after);
        profile.live_before = add_to(profile.live_before, r.before);
        profile.garbage_acyclic = add_to(profile.garbage_acyclic, acyclic);
        profile.garbage_cyclic = add_to(profile.garbage_cyclic, cyclic);
        profile.slots_swept = profile.slots_swept.saturating_add(slots);
        profile.young_survived = add_to(profile.young_survived, newborn);
        self.profile = profile;
        self.newborns = Vec::new();
        proof {
            Heap::lemma_same_contents(&mid, self);
            let leaked = choose|cyclic_ids: Set<ObjectId>| #[trigger]
                super::garbage::leaked(seen@, seen@.garbage(roots@), cyclic_ids) && cyclic
                    == cyclic_ids.len() && acyclic + cyclic == seen@.garbage(roots@).len();
            assert(super::garbage::leaked(before@, before@.garbage(roots@), leaked));
            assert(self.stats().profile =~= traced_profile(before, *self, roots@, leaked));
            assert forall|n: int| #[trigger] before.has_slots(n) implies self.has_slots(n) by {
                assert(seen.has_slots(n));
                assert(told.has_slots(n));
                assert(mid.has_slots(n));
            }
        }
        r
    }

    /// Collect the young generation only.
    ///
    /// Nothing moves: a survivor is made old where it stands. The trace starts
    /// at the roots, at the objects the write barrier remembered and at the old
    /// fibers, and it does not enter any other old object.
    pub fn collect_minor(&mut self, roots: &Vec<ObjectId>) -> (r: Collection)
        requires
            old(self).wf(),
        ensures
            final(self).wf(),
            final(self)@.restricted(old(self)@, old(self).kept_young(roots@)),
            r == (Collection {
                before: old(self).stats().live,
                after: final(self).stats().live,
                bytes_after: final(self).stats().bytes,
            }),
            final(self).least_bytes() <= old(self).least_bytes(),
            final(self).stats().bytes == 0 || final(self).stats().bytes + crate::memory::capped(
                (old(self).least_bytes() - final(self).least_bytes()) as nat,
            ) <= old(self).stats().bytes,
            super::collector::settled_young(final(self).stats(), old(self).stats()),
            final(self).traced_young(old(self), roots@),
            forall|id: ObjectId| !(#[trigger] final(self).spec_young(id)),
            forall|id: ObjectId| !(#[trigger] final(self).spec_remembered(id)),
            forall|n: int| #[trigger] old(self).has_slots(n) ==> final(self).has_slots(n),
            final(self).chunks() == old(self).chunks(),
    {
        if !self.profiling {
            return self.collect_young(roots);
        }
        let ghost before = *self;
        let young: usize = self.young_total;
        let marked: usize = self.foresee_young(roots);
        let ghost seen = *self;
        proof {
            assert(seen.kept_young(roots@) =~= before.kept_young(roots@)) by {
                assert(seen.enterable(true) =~= before.enterable(true));
                assert(seen.minor_start(roots@) =~= before.minor_start(roots@)) by {
                    assert forall|id: ObjectId| seen.minor_start(roots@).contains(id)
                        == before.minor_start(roots@).contains(id) by {
                        if seen.minor_start(roots@).contains(id) && !roots@.contains(id) {
                            let from = choose|from: ObjectId| #[trigger]
                                seen.scanned(from) && seen@.refs(from).contains(id);
                            assert(before.scanned(from));
                        }
                        if before.minor_start(roots@).contains(id) && !roots@.contains(id) {
                            let from = choose|from: ObjectId| #[trigger]
                                before.scanned(from) && before@.refs(from).contains(id);
                            assert(seen.scanned(from));
                        }
                    }
                }
            }
        }
        let r = self.collect_young(roots);
        let ghost mid = *self;
        let newborn: Vec<ObjectId> = self.newborns_alive();
        let dead: usize = r.before.saturating_sub(r.after);
        let mut profile: Profile = self.profile;
        profile.marked = add_to(profile.marked, marked);
        profile.minor_collections = add_to(profile.minor_collections, 1);
        profile.promoted = add_to(profile.promoted, young.saturating_sub(dead));
        profile.freed_young = add_to(profile.freed_young, dead);
        self.profile = profile;
        self.newborns = newborn;
        proof {
            Heap::lemma_same_contents(&mid, self);
            assert forall|n: int| #[trigger] before.has_slots(n) implies self.has_slots(n) by {
                assert(seen.has_slots(n));
                assert(mid.has_slots(n));
            }
        }
        r
    }
}

/// Of what is listed once, what is still there is listed once.
pub proof fn law_living_newborns_are_distinct(ids: Seq<ObjectId>, heap: super::HeapModel)
    requires
        ids.no_duplicates(),
    ensures
        alive(ids, heap).no_duplicates(),
        forall|id: ObjectId| #[trigger]
            alive(ids, heap).contains(id) <==> ids.contains(id) && heap.has(id),
    decreases ids.len(),
{
    reveal(Seq::filter);
    if ids.len() > 0 {
        let rest = ids.drop_last();
        let last = ids.last();
        law_living_newborns_are_distinct(rest, heap);
        assert(ids =~= rest.push(last));
        assert(!rest.contains(last)) by {
            if rest.contains(last) {
                let k = rest.index_of(last);
                assert(ids[k] == ids[ids.len() - 1]);
            }
        }
        assert forall|id: ObjectId| #[trigger]
            alive(ids, heap).contains(id) <==> ids.contains(id) && heap.has(id) by {
            super::collector::lemma_push_contains(rest, last, id);
            super::collector::lemma_push_contains(alive(rest, heap), last, id);
        }
        assert(alive(ids, heap).no_duplicates()) by {
            assert(!alive(rest, heap).contains(last));
            let out = alive(ids, heap);
            assert forall|a: int, b: int| 0 <= a < b < out.len() implies out[a] != out[b] by {
                if b == alive(rest, heap).len() {
                    assert(alive(rest, heap).contains(alive(rest, heap)[a]));
                }
            }
        }
    }
}

/// What is newborn is listed once, and is there: an object that is made was not
/// there before.
pub proof fn law_newborns_are_distinct(before: &Heap, after: &Heap, id: ObjectId, object: Object)
    requires
        after.allocated(before, id, object),
        before.stats().newborn.no_duplicates(),
        forall|k: int|
            0 <= k < before.stats().newborn.len() ==> before@.has(
                #[trigger] before.stats().newborn[k],
            ),
    ensures
        after.stats().newborn.no_duplicates(),
        forall|k: int|
            0 <= k < after.stats().newborn.len() ==> after@.has(
                #[trigger] after.stats().newborn[k],
            ),
{
    after.law_allocation_keeps(before, id, object);
    assert forall|k: int| 0 <= k < after.stats().newborn.len() implies after@.has(
        #[trigger] after.stats().newborn[k],
    ) by {
        if k < before.stats().newborn.len() {
            assert(before@.has(before.stats().newborn[k]));
        }
    }
}

} // verus!
