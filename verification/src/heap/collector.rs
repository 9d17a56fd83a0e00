//! The two collections.
//!
//! A full one marks from the roots and frees everything else. A minor one
//! looks only at the young generation and at what the write barrier recorded.

use vstd::prelude::*;

use super::settings::Collection;
use super::{Heap, HeapModel, HeapStats, INITIAL_THRESHOLD};
use crate::handle::ObjectId;
use crate::object::{gray_values, ObjectType, Trace};
use crate::table::Table;
use crate::value::Value;

verus! {

/// What is in a list with one more item.
pub(super) proof fn lemma_push_contains<A>(list: Seq<A>, item: A, x: A)
    ensures
        list.push(item).contains(x) <==> (list.contains(x) || x == item),
{
    if list.contains(x) {
        let k = choose|k: int| 0 <= k < list.len() && list[k] == x;
        assert(list.push(item)[k] == x);
    }
    if x == item {
        assert(list.push(item)[list.len() as int] == x);
    }
}

/// What is in two lists one after the other.
pub(super) proof fn lemma_add_contains<A>(a: Seq<A>, b: Seq<A>, x: A)
    ensures
        (a + b).contains(x) <==> (a.contains(x) || b.contains(x)),
{
    if a.contains(x) {
        let k = choose|k: int| 0 <= k < a.len() && a[k] == x;
        assert((a + b)[k] == x);
    }
    if b.contains(x) {
        let k = choose|k: int| 0 <= k < b.len() && b[k] == x;
        assert((a + b)[a.len() + k] == x);
    }
}

impl HeapModel {
    /// Whether these are the objects of `before` that are in `kept`, each
    /// holding what it held, and no others.
    pub open spec fn swept(self, before: HeapModel, kept: Set<ObjectId>) -> bool {
        &&& forall|id: ObjectId| #[trigger]
            self.has(id) == (before.has(id) && kept.contains(id))
        &&& forall|i: u32|
            self.classes.contains_key(i) ==> (#[trigger] self.classes[i]).same_as(&before.classes[i])
        &&& forall|i: u32|
            self.closures.contains_key(i) ==> (#[trigger] self.closures[i]).same_as(&before.closures[i])
        &&& forall|i: u32|
            self.functions.contains_key(i) ==> (#[trigger] self.functions[i]).same_as(&before.functions[i])
        &&& forall|i: u32|
            self.instances.contains_key(i) ==> #[trigger] self.instances[i] == before.instances[i]
        &&& forall|i: u32|
            self.lists.contains_key(i) ==> (#[trigger] self.lists[i]).same_as(&before.lists[i])
        &&& forall|i: u32|
            self.maps.contains_key(i) ==> (#[trigger] self.maps[i]).same_as(&before.maps[i])
        &&& forall|i: u32|
            self.ranges.contains_key(i) ==> (#[trigger] self.ranges[i]).same_as(&before.ranges[i])
        &&& forall|i: u32|
            self.strings.contains_key(i) ==> (#[trigger] self.strings[i]).same_as(&before.strings[i])
        &&& forall|i: u32|
            self.upvalues.contains_key(i) ==> (#[trigger] self.upvalues[i]).same_as(&before.upvalues[i])
        &&& forall|i: u32|
            self.fibers.contains_key(i) ==> (#[trigger] self.fibers[i]).same_as(&before.fibers[i])
    }

    /// Whether these are the objects of `before` that are in `kept`, and no
    /// others.
    pub open spec fn restricted(self, before: HeapModel, kept: Set<ObjectId>) -> bool {
        &&& forall|id: ObjectId| #[trigger]
            self.has(id) == (before.has(id) && kept.contains(id))
        &&& forall|i: u32|
            self.classes.contains_key(i) ==> #[trigger] self.classes[i] == before.classes[i]
        &&& forall|i: u32|
            self.closures.contains_key(i) ==> #[trigger] self.closures[i] == before.closures[i]
        &&& forall|i: u32|
            self.functions.contains_key(i) ==> #[trigger] self.functions[i] == before.functions[i]
        &&& forall|i: u32|
            self.instances.contains_key(i) ==> #[trigger] self.instances[i] == before.instances[i]
        &&& forall|i: u32|
            self.lists.contains_key(i) ==> #[trigger] self.lists[i] == before.lists[i]
        &&& forall|i: u32|
            self.maps.contains_key(i) ==> #[trigger] self.maps[i] == before.maps[i]
        &&& forall|i: u32|
            self.ranges.contains_key(i) ==> #[trigger] self.ranges[i] == before.ranges[i]
        &&& forall|i: u32|
            self.strings.contains_key(i) ==> #[trigger] self.strings[i] == before.strings[i]
        &&& forall|i: u32|
            self.upvalues.contains_key(i) ==> #[trigger] self.upvalues[i] == before.upvalues[i]
        &&& forall|i: u32|
            self.fibers.contains_key(i) ==> #[trigger] self.fibers[i] == before.fibers[i]
    }

    /// What a full collection keeps: what the roots reach, and the image.
    pub open spec fn kept_by(self, roots: Seq<Value>) -> Set<ObjectId> {
        Set::new(
            |id: ObjectId|
                self.reachable(super::graph::handles(crate::object::values_refs(roots)), id)
                    || self.permanent(id),
        )
    }
}

/// Where the next collection is due, given what the last one left.
pub open spec fn next_threshold(stats: HeapStats, bytes: usize) -> nat {
    match stats.headroom {
        Some(headroom) => crate::memory::capped((bytes + headroom) as nat),
        None => {
            let grown = crate::memory::capped(
                ((bytes * stats.growth.0) / (stats.growth.1 as int)) as nat,
            );
            if grown < INITIAL_THRESHOLD {
                INITIAL_THRESHOLD as nat
            } else {
                grown
            }
        },
    }
}

/// Whether a heap's figures are earlier ones after everything was collected.
pub open spec fn settled(after: HeapStats, before: HeapStats) -> bool {
    &&& after.threshold == next_threshold(before, after.bytes)
    &&& after == (HeapStats {
        live: after.live,
        bytes: after.bytes,
        peak: super::raised(before.peak, after.bytes),
        threshold: after.threshold,
        collections: if before.collections < usize::MAX {
            (before.collections + 1) as usize
        } else {
            usize::MAX
        },
        young_total: 0,
        young_bytes: 0,
        profile: after.profile,
        newborn: after.newborn,
        ..before
    })
}

/// Whether a heap's figures are earlier ones after the young objects were
/// collected.
pub open spec fn settled_young(after: HeapStats, before: HeapStats) -> bool {
    &&& after.bytes <= before.bytes
    &&& after == (HeapStats {
        live: after.live,
        bytes: after.bytes,
        young_total: 0,
        young_bytes: 0,
        profile: after.profile,
        newborn: after.newborn,
        ..before
    })
}

impl Heap {
    /// Whether an old object is looked at by a minor collection anyway: it is
    /// remembered, or it is a fiber, whose stack is not written through the
    /// barrier.
    pub open spec fn scanned(&self, id: ObjectId) -> bool {
        &&& self@.has(id)
        &&& self.spec_remembered(id) || (id.spec_tag() == ObjectType::Fiber.spec_tag()
            && !self.spec_young(id))
    }

    /// Where the trace of a minor collection starts.
    pub open spec fn minor_start(&self, roots: Seq<ObjectId>) -> Set<ObjectId> {
        Set::new(
            |id: ObjectId|
                roots.contains(id) || exists|from: ObjectId| #[trigger]
                    self.scanned(from) && self@.refs(from).contains(id),
        )
    }

    /// What a minor collection keeps: everything old, the image, and the young
    /// objects that its trace reaches.
    pub open spec fn kept_young(&self, roots: Seq<ObjectId>) -> Set<ObjectId> {
        Set::new(
            |id: ObjectId|
                !self.spec_young(id) || self@.permanent(id) || self@.reaches(
                    self.enterable(true),
                    self.minor_start(roots),
                    id,
                ),
        )
    }

    /// A minor collection keeps what it starts from.
    pub proof fn lemma_root_kept(&self, roots: Seq<ObjectId>, id: ObjectId)
        requires
            roots.contains(id),
            self@.has(id),
        ensures
            self.kept_young(roots).contains(id),
    {
        if self.spec_young(id) {
            self@.lemma_root_reached(self.enterable(true), self.minor_start(roots), id);
        }
    }

    /// Sweep one table, settle its generations and give back its tail.
    fn sweep_table<T: Trace>(table: &mut Table<T>) -> (bytes: usize)
        requires
            old(table).wf(),
        ensures
            final(table).wf(),
            forall|i: u32| #[trigger] final(table)@.contains_key(i) == old(table).kept(i),
            forall|i: u32|
                final(table)@.contains_key(i) ==> (#[trigger] final(table)@[i]).same_as(
                    &old(table)@[i],
                ),
            bytes >= crate::memory::capped(final(table).least_bytes()),
            final(table).room() >= old(table).room(),
            final(table).numbered() <= old(table).numbered(),
            final(table).block_size() == old(table).block_size(),
            final(table).young_list().len() == 0,
            forall|i: u32| !(#[trigger] final(table).young_has(i)),
            forall|i: u32| !(#[trigger] final(table).remembered_has(i)),
    {
        let bytes: usize = table.sweep();
        let ghost swept = *table;
        table.settle_generations();
        table.trim();
        proof {
            table.lemma_least_bytes(&swept);
        }
        bytes
    }

    /// How many objects the tables hold.
    pub fn occupancy(&self) -> (n: usize)
        requires
            self.wf(),
        ensures
            n == self.stats().live,
    {
        self.count_objects()
    }

    /// How many objects the tables hold, counted table by table.
    fn count_objects(&self) -> (n: usize)
        requires
            self.tables_wf(),
        ensures
            n == self.object_count(),
    {
        proof {
            self.classes.lemma_count();
            self.closures.lemma_count();
            self.functions.lemma_count();
            self.instances.lemma_count();
            self.lists.lemma_count();
            self.maps.lemma_count();
            self.ranges.lemma_count();
            self.strings.lemma_count();
            self.upvalues.lemma_count();
            self.fibers.lemma_count();
        }
        self.classes.occupancy() + self.closures.occupancy() + self.functions.occupancy() + self.instances.occupancy() + self.lists.occupancy() + self.maps.occupancy() + self.ranges.occupancy() + self.strings.occupancy() + self.upvalues.occupancy() + self.fibers.occupancy()
    }

    /// Where the next collection is due.
    fn next_due(&self, bytes: usize) -> (threshold: usize)
        requires
            self.settings_wf(),
        ensures
            threshold == next_threshold(self.stats(), bytes),
    {
        match self.headroom {
            Some(headroom) => bytes.saturating_add(headroom),
            None => {
                let (num, den) = self.growth;
                proof {
                    assert(bytes * num <= 0xffff_ffff_ffff_ffff * 0xffff_ffff_ffff_ffff) by (nonlinear_arith)
                        requires
                            bytes <= 0xffff_ffff_ffff_ffff,
                            num <= 0xffff_ffff_ffff_ffff,
                    ;
                    assert(0 <= bytes * num) by (nonlinear_arith);
                }
                let grown: u128 = (bytes as u128 * num as u128) / den as u128;
                let capped: usize = if grown > usize::MAX as u128 {
                    usize::MAX
                } else {
                    grown as usize
                };
                if capped < INITIAL_THRESHOLD {
                    INITIAL_THRESHOLD
                } else {
                    capped
                }
            },
        }
    }

    /// Free whatever carries no mark, and settle the generations.
    fn sweep_all(&mut self) -> (bytes: usize)
        requires
            old(self).wf(),
        ensures
            final(self).tables_wf(),
            final(self).runs_wf(),
            final(self).young_live(),
            final(self).young_count() == 0,
            final(self).arena == old(self).arena,
            final(self).stats() == old(self).stats(),
            forall|id: ObjectId| !(#[trigger] final(self).spec_young(id)),
            forall|id: ObjectId| !(#[trigger] final(self).spec_remembered(id)),
            forall|n: int| #[trigger] old(self).has_slots(n) ==> final(self).has_slots(n),
            old(self).unnumbered() ==> final(self).unnumbered(),
            final(self).blocks_alike(),
            bytes >= crate::memory::capped(final(self).least_bytes()),
            final(self)@.swept(
                old(self)@,
                Set::new(
                    |id: ObjectId| old(self).spec_marked(id) || old(self)@.permanent(id),
                ),
            ),
    {
        let ghost before = *self;
        let classes_bytes: usize = Heap::sweep_table(&mut self.classes);
        let closures_bytes: usize = Heap::sweep_table(&mut self.closures);
        let functions_bytes: usize = Heap::sweep_table(&mut self.functions);
        let instances_bytes: usize = Heap::sweep_table(&mut self.instances);
        let lists_bytes: usize = Heap::sweep_table(&mut self.lists);
        let maps_bytes: usize = Heap::sweep_table(&mut self.maps);
        let ranges_bytes: usize = Heap::sweep_table(&mut self.ranges);
        let strings_bytes: usize = Heap::sweep_table(&mut self.strings);
        let upvalues_bytes: usize = Heap::sweep_table(&mut self.upvalues);
        let fibers_bytes: usize = Heap::sweep_table(&mut self.fibers);
        proof {
            assert(self.instance_model().dom() =~= self.instances@.dom());
            assert forall|i: u32| self.instances@.contains_key(i) implies #[trigger] self.instance_model()[i]
                == before.instance_model()[i] by {
                assert(self.instances@[i].same_as(&before.instances@[i]));
            }
            let kept = Set::new(|id: ObjectId| before.spec_marked(id) || before@.permanent(id));
            assert forall|id: ObjectId| #[trigger] self@.has(id) == (before@.has(id)
                && kept.contains(id)) by {
                let index = id.spec_index();
                assert(self.classes@.contains_key(index) == before.classes.kept(index));
                assert(self.closures@.contains_key(index) == before.closures.kept(index));
                assert(self.functions@.contains_key(index) == before.functions.kept(index));
                assert(self.instances@.contains_key(index) == before.instances.kept(index));
                assert(self.lists@.contains_key(index) == before.lists.kept(index));
                assert(self.maps@.contains_key(index) == before.maps.kept(index));
                assert(self.ranges@.contains_key(index) == before.ranges.kept(index));
                assert(self.strings@.contains_key(index) == before.strings.kept(index));
                assert(self.upvalues@.contains_key(index) == before.upvalues.kept(index));
                assert(self.fibers@.contains_key(index) == before.fibers.kept(index));
            }
        }
        let total: usize = classes_bytes
            .saturating_add(closures_bytes)
            .saturating_add(functions_bytes)
            .saturating_add(instances_bytes)
            .saturating_add(lists_bytes)
            .saturating_add(maps_bytes)
            .saturating_add(ranges_bytes)
            .saturating_add(strings_bytes)
            .saturating_add(upvalues_bytes)
            .saturating_add(fibers_bytes);
        total
    }

    /// Mark everything the roots reach, free the rest, and move the threshold,
    /// tallying nothing.
    pub(super) fn collect_all(&mut self, roots: &Vec<Value>) -> (r: Collection)
        requires
            old(self).wf(),
        ensures
            final(self).wf(),
            final(self)@.swept(old(self)@, old(self)@.kept_by(roots@)),
            r == (Collection {
                before: old(self).stats().live,
                after: final(self).stats().live,
                bytes_after: final(self).stats().bytes,
            }),
            final(self).stats().bytes >= crate::memory::capped(final(self).least_bytes()),
            settled(final(self).stats(), old(self).stats()),
            final(self).stats().profile == old(self).stats().profile,
            final(self).stats().newborn == old(self).stats().newborn,
            forall|id: ObjectId| !(#[trigger] final(self).spec_young(id)),
            forall|id: ObjectId| !(#[trigger] final(self).spec_remembered(id)),
            forall|n: int| #[trigger] old(self).has_slots(n) ==> final(self).has_slots(n),
            final(self).chunks() <= old(self).chunks(),
    {
        let ghost start = *self;
        let before: usize = self.live;
        self.clear_marks();
        let ghost cleared = *self;
        let mut gray: Vec<ObjectId> = Vec::new();
        gray_values(roots, &mut gray);
        proof {
            assert(gray@ =~= crate::object::values_refs(roots@));
        }
        self.mark_from(gray, false);
        let ghost marked = *self;
        let bytes: usize = self.sweep_all();
        let ghost swept = *self;
        self.live = self.count_objects();
        self.bytes = bytes;
        self.raise_peak();
        self.threshold = self.next_due(bytes);
        self.young_total = 0;
        self.young_bytes = 0;
        self.collections = self.collections.saturating_add(1);
        self.refresh_due();
        proof {
            Heap::lemma_same_contents(&swept, self);
            let kept = Set::new(|id: ObjectId| marked.spec_marked(id) || marked@.permanent(id));
            assert(kept =~= start@.kept_by(roots@));
        }
        let ghost settled = *self;
        self.compact_fields();
        proof {
            assert forall|n: int| #[trigger] start.has_slots(n) implies self.has_slots(n) by {
                assert(cleared.has_slots(n));
                assert(marked.has_slots(n));
                assert(swept.has_slots(n));
                assert(settled.has_slots(n));
            }
        }
        Collection { before, after: self.live, bytes_after: self.bytes }
    }

    /// Collect the handles of the remembered objects of one table.
    fn list_remembered<T: Trace>(kind: ObjectType, table: &Table<T>, out: &mut Vec<ObjectId>)
        requires
            table.wf(),
        ensures
            forall|id: ObjectId| #[trigger]
                final(out)@.contains(id) <==> (old(out)@.contains(id) || (id.spec_tag()
                    == kind.spec_tag() && table.remembered_has(id.spec_index()))),
    {
        let ghost before = out@;
        let mut k: usize = 0;
        proof {
            table.lemma_generations();
        }
        while k < table.remembered_len()
            invariant
                table.wf(),
                    k <= table.remembered_list().len(),
                forall|i: u32| #[trigger]
                    table.remembered_list().contains(i) <==> table.remembered_has(i),
                forall|i: u32| #[trigger]
                    table.remembered_has(i) ==> i < crate::table::MAX_SLOTS,
                forall|id: ObjectId| #[trigger]
                    out@.contains(id) <==> (before.contains(id) || (id.spec_tag()
                        == kind.spec_tag() && table.remembered_list().take(k as int).contains(
                        id.spec_index(),
                    ))),
            decreases table.remembered_list().len() - k,
        {
            let index: u32 = table.remembered_at(k);
            let ghost earlier = out@;
            proof {
                assert(table.remembered_list().contains(index));
            }
            let id = ObjectId::tagged(kind.tag(), index);
            out.push(id);
            proof {
                let all = table.remembered_list();
                assert(all.take(k as int + 1) =~= all.take(k as int).push(index));
                assert forall|other: ObjectId| #[trigger] out@.contains(other) <==> (
                before.contains(other) || (other.spec_tag() == kind.spec_tag() && all.take(
                    k as int + 1,
                ).contains(other.spec_index()))) by {
                    lemma_push_contains(earlier, id, other);
                    lemma_push_contains(all.take(k as int), index, other.spec_index());
                    crate::handle::lemma_parts_determine(id);
                    crate::handle::lemma_parts_determine(other);
                }
            }
            k = k + 1;
        }
        proof {
            assert(table.remembered_list().take(k as int) =~= table.remembered_list());
        }
    }

    /// The old objects that a minor collection looks at.
    fn list_scanned(&self) -> (out: Vec<ObjectId>)
        requires
            self.wf(),
        ensures
            forall|id: ObjectId| #[trigger]
                out@.contains(id) && self@.has(id) <==> self.scanned(id),
    {
        let mut out: Vec<ObjectId> = Vec::new();
        Heap::list_remembered(ObjectType::Class, &self.classes, &mut out);
        Heap::list_remembered(ObjectType::Closure, &self.closures, &mut out);
        Heap::list_remembered(ObjectType::Fn, &self.functions, &mut out);
        Heap::list_remembered(ObjectType::Instance, &self.instances, &mut out);
        Heap::list_remembered(ObjectType::List, &self.lists, &mut out);
        Heap::list_remembered(ObjectType::MapObject, &self.maps, &mut out);
        Heap::list_remembered(ObjectType::Range, &self.ranges, &mut out);
        Heap::list_remembered(ObjectType::String, &self.strings, &mut out);
        Heap::list_remembered(ObjectType::Upvalue, &self.upvalues, &mut out);
        Heap::list_remembered(ObjectType::Fiber, &self.fibers, &mut out);
        let ghost remembered = out@;
        proof {
            assert forall|id: ObjectId| remembered.contains(id) implies self.spec_remembered(id) by {}
            assert forall|id: ObjectId| self.spec_remembered(id) implies remembered.contains(id) by {}
        }
        let total: usize = self.fibers.slots();
        proof {
            self.fibers.lemma_count();
        }
        let mut index: usize = 0;
        while index < total
            invariant
                self.wf(),
                self.tables_wf(),
                index <= total,
                total == self.fibers.numbered(),
                total <= crate::table::MAX_SLOTS,
                forall|id: ObjectId| remembered.contains(id) <==> self.spec_remembered(id),
                forall|id: ObjectId| #[trigger]
                    out@.contains(id) <==> (remembered.contains(id) || (id.spec_tag()
                        == ObjectType::Fiber.spec_tag() && id.spec_index() < index
                        && self.fibers@.contains_key(id.spec_index()) && !self.fibers.young_has(
                        id.spec_index(),
                    ))),
            decreases total - index,
        {
            let ghost earlier = out@;
            if self.fibers.occupied(index as u32) && !self.fibers.is_young(index as u32) {
                let id = ObjectId::tagged(ObjectType::Fiber.tag(), index as u32);
                out.push(id);
                proof {
                    assert forall|other: ObjectId| #[trigger] out@.contains(other) <==> (
                    earlier.contains(other) || other == id) by {
                        lemma_push_contains(earlier, id, other);
                    }
                    assert forall|other: ObjectId| other == id <==> (other.spec_tag()
                        == ObjectType::Fiber.spec_tag() && other.spec_index() == index) by {
                        crate::handle::lemma_parts_determine(id);
                        crate::handle::lemma_parts_determine(other);
                    }
                }
            }
            index = index + 1;
        }
        proof {
            self.fibers.lemma_numbered();
            assert forall|id: ObjectId| #[trigger] out@.contains(id) && self@.has(
                id,
            ) <==> self.scanned(id) by {}
        }
        out
    }

    /// Push what a list of objects refers to.
    pub(super) fn trace_list(&self, list: &Vec<ObjectId>, gray: &mut Vec<ObjectId>)
        requires
            self.wf(),
        ensures
            forall|id: ObjectId| #[trigger]
                final(gray)@.contains(id) <==> (old(gray)@.contains(id) || exists|k: int|
                    0 <= k < list@.len() && self@.has(#[trigger] list@[k]) && self@.refs(
                        list@[k],
                    ).contains(id)),
    {
        let ghost before = gray@;
        let mut k: usize = 0;
        while k < list.len()
            invariant
                self.wf(),
                k <= list@.len(),
                forall|id: ObjectId| #[trigger]
                    gray@.contains(id) <==> (before.contains(id) || exists|j: int|
                        0 <= j < k && self@.has(#[trigger] list@[j]) && self@.refs(
                            list@[j],
                        ).contains(id)),
            decreases list@.len() - k,
        {
            let ghost earlier = gray@;
            self.trace_at(list[k], gray);
            proof {
                let from = list@[k as int];
                let added = if self@.has(from) {
                    self@.refs(from)
                } else {
                    Seq::empty()
                };
                assert forall|id: ObjectId| #[trigger] gray@.contains(id) <==> (before.contains(id)
                    || exists|j: int|
                    0 <= j < k + 1 && self@.has(#[trigger] list@[j]) && self@.refs(
                        list@[j],
                    ).contains(id)) by {
                    lemma_add_contains(earlier, added, id);
                    if earlier.contains(id) && !before.contains(id) {
                        let j = choose|j: int|
                            0 <= j < k && self@.has(#[trigger] list@[j]) && self@.refs(
                                list@[j],
                            ).contains(id);
                        assert(0 <= j < k + 1 && self@.has(list@[j]));
                    }
                    if added.contains(id) {
                        assert(self@.has(list@[k as int]));
                    }
                    if exists|j: int|
                        0 <= j < k + 1 && self@.has(#[trigger] list@[j]) && self@.refs(
                            list@[j],
                        ).contains(id) {
                        let j = choose|j: int|
                            0 <= j < k + 1 && self@.has(#[trigger] list@[j]) && self@.refs(
                                list@[j],
                            ).contains(id);
                        if j < k {
                            assert(self@.has(list@[j]));
                        }
                    }
                }
            }
            k = k + 1;
        }
    }

    /// Free the young objects of one table that carry no mark, and make the
    /// rest old.
    fn sweep_young_table<T: Trace>(table: &mut Table<T>) -> (r: (usize, usize))
        requires
            old(table).wf(),
            forall|i: u32| #[trigger] old(table).young_has(i) ==> old(table)@.contains_key(i),
        ensures
            final(table).wf(),
            forall|i: u32| #[trigger]
                final(table)@.contains_key(i) == (old(table)@.contains_key(i)
                    && !old(table).dies_young(i)),
            forall|i: u32|
                final(table)@.contains_key(i) ==> #[trigger] final(table)@[i] == old(table)@[i],
            final(table).count() == old(table).count() - r.0,
            final(table).least_bytes() <= old(table).least_bytes(),
            r.1 >= crate::memory::capped(
                (old(table).least_bytes() - final(table).least_bytes()) as nat,
            ),
            0 <= final(table).count(),
            0 <= old(table).count() <= crate::table::MAX_SLOTS,
            final(table).room() >= old(table).room(),
            final(table).numbered() == old(table).numbered(),
            final(table).block_size() == old(table).block_size(),
            final(table).young_list().len() == 0,
            forall|i: u32| !(#[trigger] final(table).young_has(i)),
            forall|i: u32| !(#[trigger] final(table).remembered_has(i)),
    {
        proof {
            table.lemma_count();
        }
        let r: (usize, usize) = table.sweep_young();
        let ghost swept = *table;
        table.settle_generations();
        proof {
            table.lemma_count();
            table.lemma_least_bytes(&swept);
        }
        r
    }

    /// Free the young objects that carry no mark, and make the rest old.
    #[verifier::rlimit(40)]
    fn sweep_nursery(&mut self) -> (r: (usize, usize))
        requires
            old(self).wf(),
        ensures
            final(self).tables_wf(),
            final(self).runs_wf(),
            final(self).young_live(),
            final(self).young_count() == 0,
            final(self).arena == old(self).arena,
            final(self).stats() == old(self).stats(),
            final(self).object_count() == old(self).object_count() - r.0,
            final(self).least_bytes() <= old(self).least_bytes(),
            r.1 >= crate::memory::capped(
                (old(self).least_bytes() - final(self).least_bytes()) as nat,
            ),
            forall|id: ObjectId| !(#[trigger] final(self).spec_young(id)),
            forall|id: ObjectId| !(#[trigger] final(self).spec_remembered(id)),
            forall|n: int| #[trigger] old(self).has_slots(n) ==> final(self).has_slots(n),
            old(self).unnumbered() ==> final(self).unnumbered(),
            final(self).blocks_alike(),
            final(self)@.restricted(
                old(self)@,
                Set::new(
                    |id: ObjectId|
                        !old(self).spec_young(id) || old(self).spec_marked(id)
                            || old(self)@.permanent(id),
                ),
            ),
    {
        let ghost before = *self;
        proof {
            before.lemma_counts();
            before.classes.lemma_count();
            before.closures.lemma_count();
            before.functions.lemma_count();
            before.instances.lemma_count();
            before.lists.lemma_count();
            before.maps.lemma_count();
            before.ranges.lemma_count();
            before.strings.lemma_count();
            before.upvalues.lemma_count();
            before.fibers.lemma_count();
        }
        let (dead_classes, freed_classes) = Heap::sweep_young_table(&mut self.classes);
        let (dead_closures, freed_closures) = Heap::sweep_young_table(&mut self.closures);
        let (dead_functions, freed_functions) = Heap::sweep_young_table(&mut self.functions);
        let (dead_instances, freed_instances) = Heap::sweep_young_table(&mut self.instances);
        let (dead_lists, freed_lists) = Heap::sweep_young_table(&mut self.lists);
        let (dead_maps, freed_maps) = Heap::sweep_young_table(&mut self.maps);
        let (dead_ranges, freed_ranges) = Heap::sweep_young_table(&mut self.ranges);
        let (dead_strings, freed_strings) = Heap::sweep_young_table(&mut self.strings);
        let (dead_upvalues, freed_upvalues) = Heap::sweep_young_table(&mut self.upvalues);
        let (dead_fibers, freed_fibers) = Heap::sweep_young_table(&mut self.fibers);
        proof {
            self.classes.lemma_count();
            self.closures.lemma_count();
            self.functions.lemma_count();
            self.instances.lemma_count();
            self.lists.lemma_count();
            self.maps.lemma_count();
            self.ranges.lemma_count();
            self.strings.lemma_count();
            self.upvalues.lemma_count();
            self.fibers.lemma_count();
            assert(self.instance_model().dom() =~= self.instances@.dom());
            assert forall|i: u32| self.instances@.contains_key(i) implies #[trigger] self.instance_model()[i]
                == before.instance_model()[i] by {
                assert(self.instances@[i] == before.instances@[i]);
            }
            let kept = Set::new(
                |id: ObjectId|
                    !before.spec_young(id) || before.spec_marked(id) || before@.permanent(id),
            );
            assert forall|id: ObjectId| #[trigger] self@.has(id) == (before@.has(id)
                && kept.contains(id)) by {
                let index = id.spec_index();
                assert(self.classes@.contains_key(index) == (before.classes@.contains_key(index)
                    && !before.classes.dies_young(index)));
                assert(self.closures@.contains_key(index) == (before.closures@.contains_key(index)
                    && !before.closures.dies_young(index)));
                assert(self.functions@.contains_key(index) == (before.functions@.contains_key(index)
                    && !before.functions.dies_young(index)));
                assert(self.instances@.contains_key(index) == (before.instances@.contains_key(index)
                    && !before.instances.dies_young(index)));
                assert(self.lists@.contains_key(index) == (before.lists@.contains_key(index)
                    && !before.lists.dies_young(index)));
                assert(self.maps@.contains_key(index) == (before.maps@.contains_key(index)
                    && !before.maps.dies_young(index)));
                assert(self.ranges@.contains_key(index) == (before.ranges@.contains_key(index)
                    && !before.ranges.dies_young(index)));
                assert(self.strings@.contains_key(index) == (before.strings@.contains_key(index)
                    && !before.strings.dies_young(index)));
                assert(self.upvalues@.contains_key(index) == (before.upvalues@.contains_key(index)
                    && !before.upvalues.dies_young(index)));
                assert(self.fibers@.contains_key(index) == (before.fibers@.contains_key(index)
                    && !before.fibers.dies_young(index)));
            }
        }
        let dead: usize = dead_classes + dead_closures + dead_functions + dead_instances + dead_lists + dead_maps + dead_ranges + dead_strings + dead_upvalues + dead_fibers;
        let freed: usize = freed_classes
            .saturating_add(freed_closures)
            .saturating_add(freed_functions)
            .saturating_add(freed_instances)
            .saturating_add(freed_lists)
            .saturating_add(freed_maps)
            .saturating_add(freed_ranges)
            .saturating_add(freed_strings)
            .saturating_add(freed_upvalues)
            .saturating_add(freed_fibers);
        (dead, freed)
    }

    /// Mark every young object that `roots`, and the old objects that were
    /// written to, lead to.
    pub(super) fn mark_young(&mut self, roots: &Vec<ObjectId>)
        requires
            old(self).wf(),
        ensures
            final(self).wf(),
            final(self)@ == old(self)@,
            final(self).same_books(old(self)),
            final(self).arena == old(self).arena,
            final(self).least_bytes() == old(self).least_bytes(),
            forall|id: ObjectId| #[trigger]
                final(self).spec_marked(id) == old(self)@.reaches(
                    old(self).enterable(true),
                    old(self).minor_start(roots@),
                    id,
                ),
    {
        let ghost start = *self;
        self.clear_marks();
        let ghost cleared = *self;
        let mut gray: Vec<ObjectId> = roots.clone();
        let scan: Vec<ObjectId> = self.list_scanned();
        self.trace_list(&scan, &mut gray);
        let ghost from = gray@;
        self.mark_from(gray, true);
        proof {
            assert(super::graph::handles(from) =~= start.minor_start(roots@)) by {
                assert forall|id: ObjectId| super::graph::handles(from).contains(id)
                    == start.minor_start(roots@).contains(id) by {
                    if super::graph::handles(from).contains(id) && !roots@.contains(id) {
                        let k = choose|k: int|
                            0 <= k < scan@.len() && cleared@.has(#[trigger] scan@[k])
                                && cleared@.refs(scan@[k]).contains(id);
                        assert(scan@.contains(scan@[k]));
                        assert(cleared.scanned(scan@[k]));
                        assert(start.scanned(scan@[k]));
                    }
                    if start.minor_start(roots@).contains(id) && !roots@.contains(id) {
                        let s = choose|s: ObjectId| #[trigger]
                            start.scanned(s) && start@.refs(s).contains(id);
                        assert(cleared.scanned(s));
                        assert(scan@.contains(s) && cleared@.has(s));
                        let k = choose|k: int| 0 <= k < scan@.len() && scan@[k] == s;
                        assert(cleared@.has(scan@[k]));
                    }
                }
            }
            assert(cleared.enterable(true) =~= start.enterable(true));
        }
    }

    /// Free every young object that nothing leads to, and make the others old,
    /// tallying nothing.
    pub(super) fn collect_young(&mut self, roots: &Vec<ObjectId>) -> (r: Collection)
        requires
            old(self).wf(),
        ensures
            final(self).wf(),
            final(self)@.restricted(old(self)@, old(self).kept_young(roots@)),
            r == (Collection {
                before: old(self).stats().live,
                after: final(self).stats().live,
                bytes_after: final(self).stats().bytes,
            }),
            final(self).least_bytes() <= old(self).least_bytes(),
            final(self).stats().bytes == 0 || final(self).stats().bytes + crate::memory::capped(
                (old(self).least_bytes() - final(self).least_bytes()) as nat,
            ) <= old(self).stats().bytes,
            settled_young(final(self).stats(), old(self).stats()),
            final(self).stats().profile == old(self).stats().profile,
            final(self).stats().newborn == old(self).stats().newborn,
            forall|id: ObjectId| !(#[trigger] final(self).spec_young(id)),
            forall|id: ObjectId| !(#[trigger] final(self).spec_remembered(id)),
            forall|n: int| #[trigger] old(self).has_slots(n) ==> final(self).has_slots(n),
            final(self).chunks() == old(self).chunks(),
    {
        let ghost start = *self;
        let before: usize = self.live;
        self.mark_young(roots);
        let ghost marked = *self;
        let (dead, freed) = self.sweep_nursery();
        let ghost swept = *self;
        proof {
            marked.lemma_counts();
            swept.lemma_counts();
        }
        self.live = self.live - dead;
        self.bytes = self.bytes.saturating_sub(freed);
        self.young_total = 0;
        self.young_bytes = 0;
        self.refresh_due();
        proof {
            Heap::lemma_same_contents(&swept, self);
            let kept = Set::new(
                |id: ObjectId|
                    !marked.spec_young(id) || marked.spec_marked(id) || marked@.permanent(id),
            );
            assert(kept =~= start.kept_young(roots@));
            assert forall|n: int| #[trigger] start.has_slots(n) implies self.has_slots(n) by {
                assert(marked.has_slots(n));
                assert(swept.has_slots(n));
            }
        }
        Collection { before, after: self.live, bytes_after: self.bytes }
    }
}

} // verus!
