//! What the heap holds, counted: for diagnostics, and for the passes that have
//! to see every object.

use vstd::prelude::*;

use super::Heap;
use crate::bytecode::Chunk;
use crate::fields::FieldRooms;
use crate::handle::ObjectId;
use crate::memory::{reserved, sized};
use crate::object::{
    ClassRef, Methods, ObjClass, ObjClosure, ObjFiber, ObjFn, ObjInstance, ObjList, ObjMap, ObjRange,
    ObjString, ObjUpvalue, ObjectType, Trace,
};
use crate::table::{Table, TableRooms};
use crate::value::Value;

verus! {

/// How many bytes the blocks of a table would take that its slots span and that
/// are not held.
pub open spec fn unheld_bytes<T: Trace>(table: &Table<T>) -> nat {
    table.bytes_of_blocks((table.spanned() - table.held(table.spanned() as int)) as nat)
}

/// What the methods of the classes in the first `upto` slots take, those in the
/// image left out.
pub open spec fn method_bytes(classes: Map<u32, ClassRef>, upto: int) -> nat
    decreases upto,
{
    if upto <= 0 {
        0
    } else {
        method_bytes(classes, upto - 1) + if classes.contains_key((upto - 1) as u32) {
            match classes[(upto - 1) as u32] {
                ClassRef::Owned(class) => match class.methods {
                    Methods::Owned(entries) => entries@.len() * vstd::layout::size_of::<u32>(),
                    Methods::Static(entries) => 0,
                },
                ClassRef::Static(class) => 0,
            }
        } else {
            0
        }
    }
}

/// What the static fields of the classes in the first `upto` slots take, those
/// in the image left out.
pub open spec fn static_bytes(classes: Map<u32, ClassRef>, upto: int) -> nat
    decreases upto,
{
    if upto <= 0 {
        0
    } else {
        static_bytes(classes, upto - 1) + if classes.contains_key((upto - 1) as u32) {
            match classes[(upto - 1) as u32] {
                ClassRef::Owned(class) => class.static_fields@.len() * vstd::layout::size_of::<
                    Value,
                >(),
                ClassRef::Static(class) => 0,
            }
        } else {
            0
        }
    }
}

/// How much room the vectors of classes have, slot by slot: that of the methods
/// and that of the static fields.
pub struct ClassRooms {
    pub methods: Seq<usize>,
    pub statics: Seq<usize>,
}

impl ClassRooms {
    /// What the methods of the classes in the first `upto` slots take.
    pub open spec fn method_bytes(&self, classes: Map<u32, ClassRef>, upto: int) -> nat
        decreases upto,
    {
        if upto <= 0 {
            0
        } else {
            self.method_bytes(classes, upto - 1) + if classes.contains_key((upto - 1) as u32)
                && classes[(upto - 1) as u32] is Owned && classes[(upto
                - 1) as u32].class().methods is Owned {
                self.methods[upto - 1] as nat * vstd::layout::size_of::<u32>()
            } else {
                0
            }
        }
    }

    /// What the static fields of the classes in the first `upto` slots take.
    pub open spec fn static_bytes(&self, classes: Map<u32, ClassRef>, upto: int) -> nat
        decreases upto,
    {
        if upto <= 0 {
            0
        } else {
            self.static_bytes(classes, upto - 1) + if classes.contains_key((upto - 1) as u32)
                && classes[(upto - 1) as u32] is Owned {
                self.statics[upto - 1] as nat * vstd::layout::size_of::<Value>()
            } else {
                0
            }
        }
    }

    /// Whether there is room for what the classes in the first slots hold, and
    /// two numbers of bytes are what that takes.
    pub open spec fn fit(
        &self,
        classes: Map<u32, ClassRef>,
        slots: nat,
        methods: usize,
        statics: usize,
    ) -> bool {
        &&& self.methods.len() == slots
        &&& self.statics.len() == slots
        &&& forall|i: u32| #[trigger]
            classes.contains_key(i) && i < slots && classes[i] is Owned ==> self.methods[i as int]
                >= classes[i].class().methods.owned() && self.statics[i as int]
                >= classes[i].class().static_fields@.len()
        &&& methods == crate::memory::capped(self.method_bytes(classes, slots as int))
        &&& statics == crate::memory::capped(self.static_bytes(classes, slots as int))
    }

    /// Room in slots further on makes no difference.
    proof fn lemma_further(&self, more: &ClassRooms, classes: Map<u32, ClassRef>, upto: int)
        requires
            upto <= self.methods.len() < more.methods.len(),
            upto <= self.statics.len() < more.statics.len(),
            forall|i: int| 0 <= i < upto ==> #[trigger] self.methods[i] == more.methods[i],
            forall|i: int| 0 <= i < upto ==> #[trigger] self.statics[i] == more.statics[i],
        ensures
            self.method_bytes(classes, upto) == more.method_bytes(classes, upto),
            self.static_bytes(classes, upto) == more.static_bytes(classes, upto),
        decreases upto,
    {
        if upto > 0 {
            self.lemma_further(more, classes, upto - 1);
            assert(self.methods[upto - 1] == more.methods[upto - 1]);
            assert(self.statics[upto - 1] == more.statics[upto - 1]);
        }
    }
}

/// Whether handles are listed table by table, and slot by slot in each.
pub open spec fn in_table_order(ids: Seq<ObjectId>) -> bool {
    forall|k: int, m: int|
        0 <= k < m < ids.len() ==> {
            ||| (#[trigger] ids[k]).spec_tag() < (#[trigger] ids[m]).spec_tag()
            ||| ids[k].spec_tag() == ids[m].spec_tag() && ids[k].spec_index()
                < ids[m].spec_index()
        }
}

impl Heap {
    /// An old object that points at a young one without the barrier knowing.
    ///
    /// Fibers are exempt: a minor collection looks at every old fiber.
    pub open spec fn breach(&self, from: ObjectId, to: ObjectId) -> bool {
        &&& self@.has(from)
        &&& !self.spec_young(from)
        &&& from.spec_tag() != ObjectType::Fiber.spec_tag()
        &&& self@.refs(from).contains(to)
        &&& self.spec_young(to)
        &&& !self.spec_remembered(from)
    }

    /// Every store that made something old point at something young has been
    /// recorded.
    pub open spec fn barrier_kept(&self) -> bool {
        forall|from: ObjectId, to: ObjectId| !(#[trigger] self.breach(from, to))
    }

    /// The breaches among the references of one object, in their order.
    pub open spec fn breaches_of(&self, from: ObjectId, refs: Seq<ObjectId>) -> Seq<
        (ObjectId, ObjectId),
    >
        decreases refs.len(),
    {
        if refs.len() == 0 {
            Seq::empty()
        } else if self.breach(from, refs.last()) {
            self.breaches_of(from, refs.drop_last()).push((from, refs.last()))
        } else {
            self.breaches_of(from, refs.drop_last())
        }
    }

    /// The breaches of some objects, object by object.
    pub open spec fn breaches_among(&self, ids: Seq<ObjectId>) -> Seq<(ObjectId, ObjectId)>
        decreases ids.len(),
    {
        if ids.len() == 0 {
            Seq::empty()
        } else {
            self.breaches_among(ids.drop_last()) + self.breaches_of(
                ids.last(),
                self@.refs(ids.last()),
            )
        }
    }

    /// Whether some handles are all there are, table by table.
    pub open spec fn lists(&self, ids: Seq<ObjectId>) -> bool {
        &&& forall|id: ObjectId| #[trigger] ids.contains(id) <==> self@.has(id)
        &&& in_table_order(ids)
    }

    /// An object that is young, remembered or a fiber breaches nothing.
    proof fn lemma_no_breach(&self, from: ObjectId, refs: Seq<ObjectId>)
        requires
            self.spec_young(from) || self.spec_remembered(from) || from.spec_tag()
                == ObjectType::Fiber.spec_tag(),
        ensures
            self.breaches_of(from, refs) == Seq::<(ObjectId, ObjectId)>::empty(),
        decreases refs.len(),
    {
        if refs.len() > 0 {
            self.lemma_no_breach(from, refs.drop_last());
        }
    }

    /// Every live handle, table by table: classes, closures, functions,
    /// instances, lists, maps, ranges, strings, upvalues, fibers.
    pub fn ids(&self) -> (out: Vec<ObjectId>)
        requires
            self.wf(),
        ensures
            out@.len() == self.stats().live,
            out@.no_duplicates(),
            forall|id: ObjectId| #[trigger] out@.contains(id) <==> self@.has(id),
            in_table_order(out@),
    {
        let mut out: Vec<ObjectId> = Vec::new();
        self.list_kind(ObjectType::Class, &self.classes, &mut out);
        self.list_kind(ObjectType::Closure, &self.closures, &mut out);
        self.list_kind(ObjectType::Fn, &self.functions, &mut out);
        self.list_kind(ObjectType::Instance, &self.instances, &mut out);
        self.list_kind(ObjectType::List, &self.lists, &mut out);
        self.list_kind(ObjectType::MapObject, &self.maps, &mut out);
        self.list_kind(ObjectType::Range, &self.ranges, &mut out);
        self.list_kind(ObjectType::String, &self.strings, &mut out);
        self.list_kind(ObjectType::Upvalue, &self.upvalues, &mut out);
        self.list_kind(ObjectType::Fiber, &self.fibers, &mut out);
        out
    }

    /// Add the handles of one table to a list.
    fn list_kind<T: Trace>(&self, kind: ObjectType, table: &Table<T>, out: &mut Vec<ObjectId>)
        requires
            table.wf(),
            in_table_order(old(out)@),
            forall|id: ObjectId| #[trigger]
                old(out)@.contains(id) ==> id.spec_tag() < kind.spec_tag(),
        ensures
            final(out)@.len() == old(out)@.len() + table.count(),
            final(out)@.no_duplicates(),
            in_table_order(final(out)@),
            forall|id: ObjectId| #[trigger]
                final(out)@.contains(id) <==> (old(out)@.contains(id) || (id.spec_tag()
                    == kind.spec_tag() && table@.contains_key(id.spec_index()))),
    {
        let ghost before = out@;
        proof {
            table.lemma_count();
        }
        table.list_ids(kind.tag(), out);
        proof {
            let n = before.len() as int;
            assert forall|id: ObjectId| #[trigger] out@.contains(id) <==> (before.contains(id) || (
            id.spec_tag() == kind.spec_tag() && table@.contains_key(id.spec_index()))) by {
                if out@.contains(id) {
                    let k = choose|k: int| 0 <= k < out@.len() && out@[k] == id;
                    if k < n {
                        assert(before[k] == out@.take(n)[k]);
                        assert(before.contains(id));
                    }
                }
                if before.contains(id) {
                    let k = choose|k: int| 0 <= k < before.len() && before[k] == id;
                    assert(out@[k] == out@.take(n)[k]);
                }
                if id.spec_tag() == kind.spec_tag() && table@.contains_key(id.spec_index()) {
                    crate::handle::lemma_parts_determine(id);
                    assert(out@.contains(ObjectId::spec_tagged(kind.spec_tag(), id.spec_index())));
                }
            }
            assert forall|k: int, m: int| 0 <= k < m < out@.len() implies {
                ||| (#[trigger] out@[k]).spec_tag() < (#[trigger] out@[m]).spec_tag()
                ||| out@[k].spec_tag() == out@[m].spec_tag() && out@[k].spec_index()
                    < out@[m].spec_index()
            } by {
                if m < n {
                    assert(out@[k] == out@.take(n)[k]);
                    assert(out@[m] == out@.take(n)[m]);
                } else if k < n {
                    assert(out@[k] == out@.take(n)[k]);
                    assert(before.contains(out@[k]));
                } else {
                    assert(out@[k].spec_index() < out@[m].spec_index());
                }
            }
        }
    }

    /// Check what a minor collection depends on: an old object points at a
    /// young one only if the barrier recorded it. Each breach comes back as the
    /// old object and the young one.
    pub fn verify_remembered(&self) -> (breaches: Vec<(ObjectId, ObjectId)>)
        requires
            self.wf(),
        ensures
            exists|ids: Seq<ObjectId>| #[trigger]
                self.lists(ids) && breaches@ == self.breaches_among(ids),
            forall|from: ObjectId, to: ObjectId| #[trigger]
                breaches@.contains((from, to)) <==> self.breach(from, to),
            (breaches@.len() == 0) == self.barrier_kept(),
    {
        let mut breaches: Vec<(ObjectId, ObjectId)> = Vec::new();
        let ids: Vec<ObjectId> = self.ids();
        let mut i: usize = 0;
        while i < ids.len()
            invariant
                self.wf(),
                i <= ids@.len(),
                forall|id: ObjectId| #[trigger] ids@.contains(id) <==> self@.has(id),
                forall|from: ObjectId, to: ObjectId| #[trigger]
                    breaches@.contains((from, to)) <==> self.breach(from, to) && ids@.take(
                        i as int,
                    ).contains(from),
                breaches@ == self.breaches_among(ids@.take(i as int)),
            decreases ids@.len() - i,
        {
            let id = ids[i];
            let ghost earlier = breaches@;
            let fiber: bool = id.tag() == ObjectType::Fiber.tag();
            let mut referents: Vec<ObjectId> = Vec::new();
            proof {
                assert(ids@.contains(id));
                let more = ids@.take(i as int + 1);
                assert(more =~= ids@.take(i as int).push(id));
                assert forall|other: ObjectId| #[trigger] more.contains(other) <==> (ids@.take(
                    i as int,
                ).contains(other) || other == id) by {
                    super::collector::lemma_push_contains(ids@.take(i as int), id, other);
                }
                assert(more.drop_last() =~= ids@.take(i as int));
            }
            if !self.is_young(id) && !fiber && !self.is_remembered(id) {
                self.trace_at(id, &mut referents);
                proof {
                    assert(referents@ =~= self@.refs(id));
                }
                let mut k: usize = 0;
                proof {
                    assert(breaches@ =~= earlier + self.breaches_of(id, referents@.take(0)));
                }
                while k < referents.len()
                    invariant
                        self.wf(),
                        k <= referents@.len(),
                        self@.has(id),
                        !self.spec_young(id),
                        !self.spec_remembered(id),
                        id.spec_tag() != ObjectType::Fiber.spec_tag(),
                        referents@ == self@.refs(id),
                        forall|from: ObjectId, to: ObjectId| #[trigger]
                            breaches@.contains((from, to)) <==> (earlier.contains((from, to)) || (
                            from == id && self.spec_young(to) && referents@.take(k as int).contains(
                                to,
                            ))),
                        breaches@ == earlier + self.breaches_of(id, referents@.take(k as int)),
                    decreases referents@.len() - k,
                {
                    let target = referents[k];
                    let ghost sooner = breaches@;
                    if self.is_young(target) {
                        breaches.push((id, target));
                    }
                    proof {
                        assert(referents@.take(k as int + 1) =~= referents@.take(k as int).push(
                            target,
                        ));
                        assert(referents@.take(k as int + 1).drop_last() =~= referents@.take(
                            k as int,
                        ));
                        assert(referents@.contains(target));
                        assert(breaches@ =~= earlier + self.breaches_of(
                            id,
                            referents@.take(k as int + 1),
                        ));
                        assert forall|from: ObjectId, to: ObjectId| #[trigger]
                            breaches@.contains((from, to)) <==> (earlier.contains((from, to)) || (
                            from == id && self.spec_young(to) && referents@.take(
                                k as int + 1,
                            ).contains(to))) by {
                            super::collector::lemma_push_contains(
                                referents@.take(k as int),
                                target,
                                to,
                            );
                            super::collector::lemma_push_contains(sooner, (id, target), (from, to));
                        }
                    }
                    k = k + 1;
                }
                proof {
                    assert(referents@.take(k as int) =~= referents@);
                }
            } else {
                proof {
                    self.lemma_no_breach(id, self@.refs(id));
                    assert(breaches@ =~= earlier + self.breaches_of(id, self@.refs(id)));
                }
            }
            i = i + 1;
        }
        proof {
            assert(ids@.take(i as int) =~= ids@);
            assert(self.lists(ids@));
            if breaches@.len() == 0 {
                assert forall|from: ObjectId, to: ObjectId| !(#[trigger] self.breach(from, to)) by {
                    assert(!breaches@.contains((from, to)));
                }
            } else {
                let (from, to) = breaches@[0];
                assert(breaches@.contains((from, to)));
                assert(self.breach(from, to));
            }
        }
        breaches
    }

    /// How many function slots there are, for walking every chunk.
    pub fn function_count(&self) -> (n: usize)
        requires
            self.wf(),
        ensures
            n == self.slots_of(ObjectType::Fn).0,
            forall|id: ObjectId| #[trigger]
                self@.function(id) is Some ==> id.spec_index() < n,
    {
        proof {
            self.functions.lemma_numbered();
        }
        self.functions.slots()
    }

    /// The chunk of the function in a slot, if the slot holds one.
    pub fn function_chunk(&self, index: usize) -> (r: Option<&Chunk>)
        requires
            self.wf(),
        ensures
            match r {
                Some(chunk) => index <= u32::MAX && self@.functions.contains_key(index as u32)
                    && *chunk == *self@.functions[index as u32].chunk,
                None => index > u32::MAX || !self@.functions.contains_key(index as u32),
            },
    {
        if index > u32::MAX as usize {
            return None;
        }
        match self.functions.get(index as u32) {
            Some(function) => Some(&*function.chunk),
            None => None,
        }
    }

    /// How the blocks of one table stand.
    fn blocks_of<T: Trace>(table: &Table<T>) -> (r: (usize, usize, usize))
        requires
            table.wf(),
        ensures
            r.0 == table.spanned(),
            r.0 <= crate::table::MAX_SLOTS,
            r.1 == table.held(table.spanned() as int),
            r.1 <= r.0,
            r.0 == r.1 ==> r.2 == 0,
            r.2 == crate::memory::capped(unheld_bytes(table)),
    {
        let (spanned, held, gone) = table.blocks_held();
        proof {
            table.lemma_span();
        }
        (spanned, held, table.block_bytes(gone))
    }

    /// How the blocks of the tables stand: how many the slots span, how many
    /// are held, and how many bytes the others would take.
    #[verifier::spinoff_prover]
    #[verifier::rlimit(60)]
    pub fn block_census(&self) -> (r: Option<(usize, usize, usize)>)
        requires
            self.wf(),
        ensures
            r matches Some((spanned, held, given_back)) && {
                &&& spanned == self.blocks_spanned()
                &&& held == self.blocks_in_use()
                &&& held <= spanned
                &&& spanned == held ==> given_back == 0
                &&& given_back == crate::memory::capped(self.bytes_given_back())
            },
    {
        let (spanned_classes, held_classes, gone_classes) = Heap::blocks_of(&self.classes);
        let (spanned_closures, held_closures, gone_closures) = Heap::blocks_of(&self.closures);
        let (spanned_functions, held_functions, gone_functions) = Heap::blocks_of(&self.functions);
        let (spanned_instances, held_instances, gone_instances) = Heap::blocks_of(&self.instances);
        let (spanned_lists, held_lists, gone_lists) = Heap::blocks_of(&self.lists);
        let (spanned_maps, held_maps, gone_maps) = Heap::blocks_of(&self.maps);
        let (spanned_ranges, held_ranges, gone_ranges) = Heap::blocks_of(&self.ranges);
        let (spanned_strings, held_strings, gone_strings) = Heap::blocks_of(&self.strings);
        let (spanned_upvalues, held_upvalues, gone_upvalues) = Heap::blocks_of(&self.upvalues);
        let (spanned_fibers, held_fibers, gone_fibers) = Heap::blocks_of(&self.fibers);
        let spanned: usize = spanned_classes + spanned_closures + spanned_functions + spanned_instances + spanned_lists + spanned_maps + spanned_ranges + spanned_strings + spanned_upvalues + spanned_fibers;
        let held: usize = held_classes + held_closures + held_functions + held_instances + held_lists + held_maps + held_ranges + held_strings + held_upvalues + held_fibers;
        let given_back: usize = gone_classes
            .saturating_add(gone_closures)
            .saturating_add(gone_functions)
            .saturating_add(gone_instances)
            .saturating_add(gone_lists)
            .saturating_add(gone_maps)
            .saturating_add(gone_ranges)
            .saturating_add(gone_strings)
            .saturating_add(gone_upvalues)
            .saturating_add(gone_fibers);
        Some((spanned, held, given_back))
    }

    /// How many bytes the blocks would take that the slots of the tables span
    /// and that are not held.
    pub closed spec fn bytes_given_back(&self) -> nat {
        unheld_bytes(&self.classes) + unheld_bytes(&self.closures) + unheld_bytes(&self.functions) + unheld_bytes(&self.instances) + unheld_bytes(&self.lists) + unheld_bytes(&self.maps) + unheld_bytes(&self.ranges) + unheld_bytes(&self.strings) + unheld_bytes(&self.upvalues) + unheld_bytes(&self.fibers)
    }

    /// How many blocks the slots of all tables span.
    pub closed spec fn blocks_spanned(&self) -> nat {
        self.classes.spanned() + self.closures.spanned() + self.functions.spanned() + self.instances.spanned() + self.lists.spanned() + self.maps.spanned() + self.ranges.spanned() + self.strings.spanned() + self.upvalues.spanned() + self.fibers.spanned()
    }

    /// How many of those blocks are held.
    pub closed spec fn blocks_in_use(&self) -> nat {
        self.classes.held(self.classes.spanned() as int) + self.closures.held(self.closures.spanned() as int) + self.functions.held(self.functions.spanned() as int) + self.instances.held(self.instances.spanned() as int) + self.lists.held(self.lists.spanned() as int) + self.maps.held(self.maps.spanned() as int) + self.ranges.held(self.ranges.spanned() as int) + self.strings.held(self.strings.spanned() as int) + self.upvalues.held(self.upvalues.spanned() as int) + self.fibers.held(self.fibers.spanned() as int)
    }

    /// Whether two numbers of bytes are what the table of a type takes with so
    /// much room, for its slots and for the bookkeeping.
    pub closed spec fn takes_for(
        &self,
        kind: ObjectType,
        r: (usize, usize),
        rooms: TableRooms,
    ) -> bool {
        match kind {
            ObjectType::Class => self.classes.takes(r, rooms),
            ObjectType::Closure => self.closures.takes(r, rooms),
            ObjectType::Fn => self.functions.takes(r, rooms),
            ObjectType::Instance => self.instances.takes(r, rooms),
            ObjectType::List => self.lists.takes(r, rooms),
            ObjectType::MapObject => self.maps.takes(r, rooms),
            ObjectType::Range => self.ranges.takes(r, rooms),
            ObjectType::String => self.strings.takes(r, rooms),
            ObjectType::Upvalue => self.upvalues.takes(r, rooms),
            ObjectType::Fiber => self.fibers.takes(r, rooms),
        }
    }

    /// Whether a number of bytes is what the fields of instances take with so
    /// much room.
    pub closed spec fn takes_for_fields(&self, bytes: usize, rooms: FieldRooms) -> bool {
        self.arena.takes(bytes, rooms)
    }

    /// Whether a number of bytes is what the objects of a type own beyond their
    /// slots with so much room, slot by slot.
    pub closed spec fn owns_for(
        &self,
        kind: ObjectType,
        bytes: usize,
        rooms: Seq<usize>,
    ) -> bool {
        match kind {
            ObjectType::Class => self.classes.owns(bytes, rooms),
            ObjectType::Closure => self.closures.owns(bytes, rooms),
            ObjectType::Fn => self.functions.owns(bytes, rooms),
            ObjectType::Instance => self.instances.owns(bytes, rooms),
            ObjectType::List => self.lists.owns(bytes, rooms),
            ObjectType::MapObject => self.maps.owns(bytes, rooms),
            ObjectType::Range => self.ranges.owns(bytes, rooms),
            ObjectType::String => self.strings.owns(bytes, rooms),
            ObjectType::Upvalue => self.upvalues.owns(bytes, rooms),
            ObjectType::Fiber => self.fibers.owns(bytes, rooms),
        }
    }

    /// The least that the slots of a type take, and the bookkeeping beside them.
    pub closed spec fn needs_of(&self, kind: ObjectType) -> (nat, nat) {
        match kind {
            ObjectType::Class => (
                self.classes.least_slot_bytes(),
                self.classes.least_book_bytes(),
            ),
            ObjectType::Closure => (
                self.closures.least_slot_bytes(),
                self.closures.least_book_bytes(),
            ),
            ObjectType::Fn => (
                self.functions.least_slot_bytes(),
                self.functions.least_book_bytes(),
            ),
            ObjectType::Instance => (
                self.instances.least_slot_bytes(),
                self.instances.least_book_bytes(),
            ),
            ObjectType::List => (
                self.lists.least_slot_bytes(),
                self.lists.least_book_bytes(),
            ),
            ObjectType::MapObject => (
                self.maps.least_slot_bytes(),
                self.maps.least_book_bytes(),
            ),
            ObjectType::Range => (
                self.ranges.least_slot_bytes(),
                self.ranges.least_book_bytes(),
            ),
            ObjectType::String => (
                self.strings.least_slot_bytes(),
                self.strings.least_book_bytes(),
            ),
            ObjectType::Upvalue => (
                self.upvalues.least_slot_bytes(),
                self.upvalues.least_book_bytes(),
            ),
            ObjectType::Fiber => (
                self.fibers.least_slot_bytes(),
                self.fibers.least_book_bytes(),
            ),
        }
    }

    /// The least that the objects of a type own beyond their slots.
    pub closed spec fn owned_by(&self, kind: ObjectType) -> nat {
        match kind {
            ObjectType::Class => self.classes.least_owned(self.classes.numbered() as int),
            ObjectType::Closure => self.closures.least_owned(self.closures.numbered() as int),
            ObjectType::Fn => self.functions.least_owned(self.functions.numbered() as int),
            ObjectType::Instance => self.instances.least_owned(self.instances.numbered() as int),
            ObjectType::List => self.lists.least_owned(self.lists.numbered() as int),
            ObjectType::MapObject => self.maps.least_owned(self.maps.numbered() as int),
            ObjectType::Range => self.ranges.least_owned(self.ranges.numbered() as int),
            ObjectType::String => self.strings.least_owned(self.strings.numbered() as int),
            ObjectType::Upvalue => self.upvalues.least_owned(self.upvalues.numbered() as int),
            ObjectType::Fiber => self.fibers.least_owned(self.fibers.numbered() as int),
        }
    }

    /// How many slots the table of a type numbers, and how many are free.
    pub closed spec fn slots_of(&self, kind: ObjectType) -> (nat, nat) {
        match kind {
            ObjectType::Class => (self.classes.numbered(), self.classes.vacant()),
            ObjectType::Closure => (self.closures.numbered(), self.closures.vacant()),
            ObjectType::Fn => (self.functions.numbered(), self.functions.vacant()),
            ObjectType::Instance => (self.instances.numbered(), self.instances.vacant()),
            ObjectType::List => (self.lists.numbered(), self.lists.vacant()),
            ObjectType::MapObject => (self.maps.numbered(), self.maps.vacant()),
            ObjectType::Range => (self.ranges.numbered(), self.ranges.vacant()),
            ObjectType::String => (self.strings.numbered(), self.strings.vacant()),
            ObjectType::Upvalue => (self.upvalues.numbered(), self.upvalues.vacant()),
            ObjectType::Fiber => (self.fibers.numbered(), self.fibers.vacant()),
        }
    }

    /// Per table: how many slots it numbers, how many are free, and what one
    /// slot costs.
    pub fn slot_census(&self) -> (rows: Vec<(&'static str, usize, usize, usize)>)
        requires
            self.wf(),
        ensures
            rows@.len() == 10,
            rows@[0].0@ == "Class"@,
            (rows@[0].1 as nat, rows@[0].2 as nat) == self.slots_of(ObjectType::Class),
            rows@[0].3 == vstd::layout::size_of::<Option<ClassRef>>(),
            rows@[1].0@ == "Closure"@,
            (rows@[1].1 as nat, rows@[1].2 as nat) == self.slots_of(ObjectType::Closure),
            rows@[1].3 == vstd::layout::size_of::<Option<ObjClosure>>(),
            rows@[2].0@ == "Fn"@,
            (rows@[2].1 as nat, rows@[2].2 as nat) == self.slots_of(ObjectType::Fn),
            rows@[2].3 == vstd::layout::size_of::<Option<Box<ObjFn>>>(),
            rows@[3].0@ == "Fiber"@,
            (rows@[3].1 as nat, rows@[3].2 as nat) == self.slots_of(ObjectType::Fiber),
            rows@[3].3 == vstd::layout::size_of::<Option<Box<ObjFiber>>>(),
            rows@[4].0@ == "Instance"@,
            (rows@[4].1 as nat, rows@[4].2 as nat) == self.slots_of(ObjectType::Instance),
            rows@[4].3 == vstd::layout::size_of::<Option<ObjInstance>>(),
            rows@[5].0@ == "List"@,
            (rows@[5].1 as nat, rows@[5].2 as nat) == self.slots_of(ObjectType::List),
            rows@[5].3 == vstd::layout::size_of::<Option<ObjList>>(),
            rows@[6].0@ == "Map"@,
            (rows@[6].1 as nat, rows@[6].2 as nat) == self.slots_of(ObjectType::MapObject),
            rows@[6].3 == vstd::layout::size_of::<Option<ObjMap>>(),
            rows@[7].0@ == "Range"@,
            (rows@[7].1 as nat, rows@[7].2 as nat) == self.slots_of(ObjectType::Range),
            rows@[7].3 == vstd::layout::size_of::<Option<ObjRange>>(),
            rows@[8].0@ == "String"@,
            (rows@[8].1 as nat, rows@[8].2 as nat) == self.slots_of(ObjectType::String),
            rows@[8].3 == vstd::layout::size_of::<Option<ObjString>>(),
            rows@[9].0@ == "Upvalue"@,
            (rows@[9].1 as nat, rows@[9].2 as nat) == self.slots_of(ObjectType::Upvalue),
            rows@[9].3 == vstd::layout::size_of::<Option<ObjUpvalue>>(),
    {
        let mut rows: Vec<(&'static str, usize, usize, usize)> = Vec::new();
        rows.push(
            ("Class", self.classes.slots(), self.classes.free_slots(), self.classes.slot_size()),
        );
        rows.push(
            ("Closure", self.closures.slots(), self.closures.free_slots(), self.closures.slot_size()),
        );
        rows.push(
            ("Fn", self.functions.slots(), self.functions.free_slots(), self.functions.slot_size()),
        );
        rows.push(
            ("Fiber", self.fibers.slots(), self.fibers.free_slots(), self.fibers.slot_size()),
        );
        rows.push(
            ("Instance", self.instances.slots(), self.instances.free_slots(), self.instances.slot_size()),
        );
        rows.push(
            ("List", self.lists.slots(), self.lists.free_slots(), self.lists.slot_size()),
        );
        rows.push(
            ("Map", self.maps.slots(), self.maps.free_slots(), self.maps.slot_size()),
        );
        rows.push(
            ("Range", self.ranges.slots(), self.ranges.free_slots(), self.ranges.slot_size()),
        );
        rows.push(
            ("String", self.strings.slots(), self.strings.free_slots(), self.strings.slot_size()),
        );
        rows.push(
            ("Upvalue", self.upvalues.slots(), self.upvalues.free_slots(), self.upvalues.slot_size()),
        );
        rows
    }

    /// What the heap has taken from the allocator, by table: the slots, and the
    /// bookkeeping beside them. The fields of instances come last.
    ///
    /// What a vector has in reserve is the allocator's choice, so each figure
    /// is no less than what the table needs.
    pub fn memory_census(&self) -> (rows: Vec<(&'static str, usize, usize)>)
        requires
            self.wf(),
        ensures
            rows@.len() == 11,
            rows@[0].0@ == "Class"@,
            rows@[0].1 >= crate::memory::capped(self.needs_of(ObjectType::Class).0),
            rows@[0].2 >= crate::memory::capped(self.needs_of(ObjectType::Class).1),
            exists|rooms: TableRooms| #[trigger]
                self.takes_for(ObjectType::Class, (rows@[0].1, rows@[0].2), rooms),
            rows@[1].0@ == "Closure"@,
            rows@[1].1 >= crate::memory::capped(self.needs_of(ObjectType::Closure).0),
            rows@[1].2 >= crate::memory::capped(self.needs_of(ObjectType::Closure).1),
            exists|rooms: TableRooms| #[trigger]
                self.takes_for(ObjectType::Closure, (rows@[1].1, rows@[1].2), rooms),
            rows@[2].0@ == "Fn"@,
            rows@[2].1 >= crate::memory::capped(self.needs_of(ObjectType::Fn).0),
            rows@[2].2 >= crate::memory::capped(self.needs_of(ObjectType::Fn).1),
            exists|rooms: TableRooms| #[trigger]
                self.takes_for(ObjectType::Fn, (rows@[2].1, rows@[2].2), rooms),
            rows@[3].0@ == "Fiber"@,
            rows@[3].1 >= crate::memory::capped(self.needs_of(ObjectType::Fiber).0),
            rows@[3].2 >= crate::memory::capped(self.needs_of(ObjectType::Fiber).1),
            exists|rooms: TableRooms| #[trigger]
                self.takes_for(ObjectType::Fiber, (rows@[3].1, rows@[3].2), rooms),
            rows@[4].0@ == "Instance"@,
            rows@[4].1 >= crate::memory::capped(self.needs_of(ObjectType::Instance).0),
            rows@[4].2 >= crate::memory::capped(self.needs_of(ObjectType::Instance).1),
            exists|rooms: TableRooms| #[trigger]
                self.takes_for(ObjectType::Instance, (rows@[4].1, rows@[4].2), rooms),
            rows@[5].0@ == "List"@,
            rows@[5].1 >= crate::memory::capped(self.needs_of(ObjectType::List).0),
            rows@[5].2 >= crate::memory::capped(self.needs_of(ObjectType::List).1),
            exists|rooms: TableRooms| #[trigger]
                self.takes_for(ObjectType::List, (rows@[5].1, rows@[5].2), rooms),
            rows@[6].0@ == "Map"@,
            rows@[6].1 >= crate::memory::capped(self.needs_of(ObjectType::MapObject).0),
            rows@[6].2 >= crate::memory::capped(self.needs_of(ObjectType::MapObject).1),
            exists|rooms: TableRooms| #[trigger]
                self.takes_for(ObjectType::MapObject, (rows@[6].1, rows@[6].2), rooms),
            rows@[7].0@ == "Range"@,
            rows@[7].1 >= crate::memory::capped(self.needs_of(ObjectType::Range).0),
            rows@[7].2 >= crate::memory::capped(self.needs_of(ObjectType::Range).1),
            exists|rooms: TableRooms| #[trigger]
                self.takes_for(ObjectType::Range, (rows@[7].1, rows@[7].2), rooms),
            rows@[8].0@ == "String"@,
            rows@[8].1 >= crate::memory::capped(self.needs_of(ObjectType::String).0),
            rows@[8].2 >= crate::memory::capped(self.needs_of(ObjectType::String).1),
            exists|rooms: TableRooms| #[trigger]
                self.takes_for(ObjectType::String, (rows@[8].1, rows@[8].2), rooms),
            rows@[9].0@ == "Upvalue"@,
            rows@[9].1 >= crate::memory::capped(self.needs_of(ObjectType::Upvalue).0),
            rows@[9].2 >= crate::memory::capped(self.needs_of(ObjectType::Upvalue).1),
            exists|rooms: TableRooms| #[trigger]
                self.takes_for(ObjectType::Upvalue, (rows@[9].1, rows@[9].2), rooms),
            rows@[10].0@ == "fields"@,
            rows@[10].1 >= crate::memory::capped(
                self.chunks() * vstd::layout::size_of::<Vec<Value>>(),
            ),
            exists|rooms: FieldRooms| #[trigger] self.takes_for_fields(rows@[10].1, rooms),
            rows@[10].2 == 0,
    {
        let mut rows: Vec<(&'static str, usize, usize)> = Vec::new();
        let taken_classes: (usize, usize) = self.classes.footprint();
        proof {
            let rooms = choose|rooms: TableRooms| #[trigger] self.classes.takes(taken_classes, rooms);
            assert(self.takes_for(ObjectType::Class, taken_classes, rooms));
        }
        rows.push(("Class", taken_classes.0, taken_classes.1));
        let taken_closures: (usize, usize) = self.closures.footprint();
        proof {
            let rooms = choose|rooms: TableRooms| #[trigger] self.closures.takes(taken_closures, rooms);
            assert(self.takes_for(ObjectType::Closure, taken_closures, rooms));
        }
        rows.push(("Closure", taken_closures.0, taken_closures.1));
        let taken_functions: (usize, usize) = self.functions.footprint();
        proof {
            let rooms = choose|rooms: TableRooms| #[trigger] self.functions.takes(taken_functions, rooms);
            assert(self.takes_for(ObjectType::Fn, taken_functions, rooms));
        }
        rows.push(("Fn", taken_functions.0, taken_functions.1));
        let taken_fibers: (usize, usize) = self.fibers.footprint();
        proof {
            let rooms = choose|rooms: TableRooms| #[trigger] self.fibers.takes(taken_fibers, rooms);
            assert(self.takes_for(ObjectType::Fiber, taken_fibers, rooms));
        }
        rows.push(("Fiber", taken_fibers.0, taken_fibers.1));
        let taken_instances: (usize, usize) = self.instances.footprint();
        proof {
            let rooms = choose|rooms: TableRooms| #[trigger] self.instances.takes(taken_instances, rooms);
            assert(self.takes_for(ObjectType::Instance, taken_instances, rooms));
        }
        rows.push(("Instance", taken_instances.0, taken_instances.1));
        let taken_lists: (usize, usize) = self.lists.footprint();
        proof {
            let rooms = choose|rooms: TableRooms| #[trigger] self.lists.takes(taken_lists, rooms);
            assert(self.takes_for(ObjectType::List, taken_lists, rooms));
        }
        rows.push(("List", taken_lists.0, taken_lists.1));
        let taken_maps: (usize, usize) = self.maps.footprint();
        proof {
            let rooms = choose|rooms: TableRooms| #[trigger] self.maps.takes(taken_maps, rooms);
            assert(self.takes_for(ObjectType::MapObject, taken_maps, rooms));
        }
        rows.push(("Map", taken_maps.0, taken_maps.1));
        let taken_ranges: (usize, usize) = self.ranges.footprint();
        proof {
            let rooms = choose|rooms: TableRooms| #[trigger] self.ranges.takes(taken_ranges, rooms);
            assert(self.takes_for(ObjectType::Range, taken_ranges, rooms));
        }
        rows.push(("Range", taken_ranges.0, taken_ranges.1));
        let taken_strings: (usize, usize) = self.strings.footprint();
        proof {
            let rooms = choose|rooms: TableRooms| #[trigger] self.strings.takes(taken_strings, rooms);
            assert(self.takes_for(ObjectType::String, taken_strings, rooms));
        }
        rows.push(("String", taken_strings.0, taken_strings.1));
        let taken_upvalues: (usize, usize) = self.upvalues.footprint();
        proof {
            let rooms = choose|rooms: TableRooms| #[trigger] self.upvalues.takes(taken_upvalues, rooms);
            assert(self.takes_for(ObjectType::Upvalue, taken_upvalues, rooms));
        }
        rows.push(("Upvalue", taken_upvalues.0, taken_upvalues.1));
        let fields: usize = self.arena.footprint();
        proof {
            let rooms = choose|rooms: FieldRooms| #[trigger] self.arena.takes(fields, rooms);
            assert(self.takes_for_fields(fields, rooms));
        }
        rows.push(("fields", fields, 0));
        rows
    }

    /// How many classes live in the image.
    pub open spec fn image_classes(&self) -> nat {
        self@.classes.dom().filter(|i: u32| self@.classes[i] is Static).len()
    }

    /// What the classes take: how many are in the image, what the others'
    /// structs take, and what their methods and static fields take.
    fn class_contents(&self) -> (r: (usize, usize, usize, usize))
        requires
            self.wf(),
        ensures
            r.0 == self.image_classes(),
            r.1 == crate::memory::capped(
                ((self@.classes.dom().len() - self.image_classes()) * vstd::layout::size_of::<
                    ObjClass,
                >()) as nat,
            ),
            r.2 >= crate::memory::capped(
                method_bytes(self@.classes, self.slots_of(ObjectType::Class).0 as int),
            ),
            r.3 >= crate::memory::capped(
                static_bytes(self@.classes, self.slots_of(ObjectType::Class).0 as int),
            ),
            exists|rooms: ClassRooms| #[trigger]
                rooms.fit(self@.classes, self.slots_of(ObjectType::Class).0, r.2, r.3),
    {
        let total: usize = self.classes.slots();
        let mut frozen: usize = 0;
        let mut owned: usize = 0;
        let mut methods: usize = 0;
        let mut statics: usize = 0;
        let mut index: usize = 0;
        let ghost mut seen: Set<u32> = Set::empty();
        let ghost mut still: Set<u32> = Set::empty();
        let ghost mut method_rooms: Seq<usize> = Seq::empty();
        let ghost mut static_rooms: Seq<usize> = Seq::empty();
        proof {
            self.classes.lemma_count();
            self.classes.lemma_numbered();
        }
        while index < total
            invariant
                self.wf(),
                self.tables_wf(),
                index <= total,
                total == self.classes.numbered(),
                total <= crate::table::MAX_SLOTS,
                seen.finite(),
                still.finite(),
                forall|i: u32| #[trigger]
                    seen.contains(i) <==> i < index && self.classes@.contains_key(i),
                forall|i: u32| #[trigger]
                    still.contains(i) <==> i < index && self.classes@.contains_key(i)
                        && self.classes@[i] is Static,
                frozen == still.len(),
                owned + frozen == seen.len(),
                frozen + owned <= index,
                methods >= crate::memory::capped(method_bytes(self.classes@, index as int)),
                statics >= crate::memory::capped(static_bytes(self.classes@, index as int)),
                (ClassRooms { methods: method_rooms, statics: static_rooms }).fit(
                    self.classes@,
                    index as nat,
                    methods,
                    statics,
                ),
            decreases total - index,
        {
            let ghost earlier = ClassRooms { methods: method_rooms, statics: static_rooms };
            proof {
                method_rooms = method_rooms.push(0);
                static_rooms = static_rooms.push(0);
            }
            match self.classes.get(index as u32) {
                Some(class) => {
                    proof {
                        seen = seen.insert(index as u32);
                    }
                    if class.is_static() {
                        frozen = frozen + 1;
                        proof {
                            still = still.insert(index as u32);
                        }
                    } else {
                        owned = owned + 1;
                        let held = class.get();
                        let entries: usize = held.methods.footprint();
                        proof {
                            if held.methods is Owned {
                                let drawn = choose|drawn: usize| #[trigger]
                                    crate::memory::takes(
                                        entries,
                                        drawn,
                                        held.methods.owned(),
                                        vstd::layout::size_of::<u32>(),
                                    );
                                method_rooms = method_rooms.update(index as int, drawn);
                            }
                        }
                        methods = methods.saturating_add(entries);
                        let room: usize = reserved(&held.static_fields);
                        let size: usize = core::mem::size_of::<Value>();
                        proof {
                            crate::memory::lemma_sized(
                                held.static_fields@.len(),
                                room as nat,
                                size as nat,
                            );
                            static_rooms = static_rooms.update(index as int, room);
                        }
                        statics = statics.saturating_add(sized(room, size));
                    }
                },
                None => {},
            }
            proof {
                let now = ClassRooms { methods: method_rooms, statics: static_rooms };
                earlier.lemma_further(&now, self.classes@, index as int);
            }
            index = index + 1;
        }
        proof {
            let rooms = ClassRooms { methods: method_rooms, statics: static_rooms };
            assert(rooms.fit(
                self@.classes,
                self.slots_of(ObjectType::Class).0,
                methods,
                statics,
            ));
            assert(seen =~= self@.classes.dom());
            assert(still =~= self@.classes.dom().filter(|i: u32| self@.classes[i] is Static));
        }
        let r: (usize, usize, usize, usize) = (
            frozen,
            sized(owned, core::mem::size_of::<ObjClass>()),
            methods,
            statics,
        );
        assert(r.2 == methods && r.3 == statics);
        r
    }

    /// How many objects of a type there are.
    pub closed spec fn count_of(&self, kind: ObjectType) -> int {
        match kind {
            ObjectType::Class => self.classes.count(),
            ObjectType::Closure => self.closures.count(),
            ObjectType::Fn => self.functions.count(),
            ObjectType::Instance => self.instances.count(),
            ObjectType::List => self.lists.count(),
            ObjectType::MapObject => self.maps.count(),
            ObjectType::Range => self.ranges.count(),
            ObjectType::String => self.strings.count(),
            ObjectType::Upvalue => self.upvalues.count(),
            ObjectType::Fiber => self.fibers.count(),
        }
    }

    /// What each kind of live object owns beyond its slot, by kind.
    ///
    /// What an object's vectors have in reserve is the allocator's choice, so
    /// a figure that counts it is no less than what the objects hold.
    pub fn contents_census(&self) -> (rows: Vec<(&'static str, usize, usize)>)
        requires
            self.wf(),
        ensures
            rows@.len() == 12,
            rows@[0].0@ == "Class"@,
            rows@[0].1 == self.count_of(ObjectType::Class),
            rows@[0].2 >= crate::memory::capped(self.owned_by(ObjectType::Class)),
            exists|rooms: Seq<usize>| #[trigger]
                self.owns_for(ObjectType::Class, rows@[0].2, rooms),
            rows@[1].0@ == "String"@,
            rows@[1].1 == self.count_of(ObjectType::String),
            rows@[1].2 >= crate::memory::capped(self.owned_by(ObjectType::String)),
            exists|rooms: Seq<usize>| #[trigger]
                self.owns_for(ObjectType::String, rows@[1].2, rooms),
            rows@[2].0@ == " of which in flash"@,
            rows@[2].1 == 0,
            rows@[2].2 == self.image_classes(),
            rows@[3].0@ == " of which struct"@,
            rows@[3].1 == vstd::layout::size_of::<ObjClass>(),
            rows@[3].2 == crate::memory::capped(
                ((self@.classes.dom().len() - self.image_classes()) * vstd::layout::size_of::<
                    ObjClass,
                >()) as nat,
            ),
            rows@[4].0@ == " of which methods"@,
            rows@[4].1 == 0,
            rows@[4].2 >= crate::memory::capped(
                method_bytes(self@.classes, self.slots_of(ObjectType::Class).0 as int),
            ),
            rows@[5].0@ == " of which statics"@,
            rows@[5].1 == 0,
            rows@[5].2 >= crate::memory::capped(
                static_bytes(self@.classes, self.slots_of(ObjectType::Class).0 as int),
            ),
            exists|rooms: ClassRooms| #[trigger]
                rooms.fit(
                    self@.classes,
                    self.slots_of(ObjectType::Class).0,
                    rows@[4].2,
                    rows@[5].2,
                ),
            rows@[6].0@ == " String slot is"@,
            rows@[6].1 == vstd::layout::size_of::<Option<ObjString>>(),
            rows@[6].2 == 0,
            rows@[7].0@ == "Fn"@,
            rows@[7].1 == self.count_of(ObjectType::Fn),
            rows@[7].2 == crate::memory::capped(self.owned_by(ObjectType::Fn)),
            rows@[8].0@ == "Closure"@,
            rows@[8].1 == self.count_of(ObjectType::Closure),
            rows@[8].2 >= crate::memory::capped(self.owned_by(ObjectType::Closure)),
            exists|rooms: Seq<usize>| #[trigger]
                self.owns_for(ObjectType::Closure, rows@[8].2, rooms),
            rows@[9].0@ == "List"@,
            rows@[9].1 == self.count_of(ObjectType::List),
            rows@[9].2 >= crate::memory::capped(self.owned_by(ObjectType::List)),
            exists|rooms: Seq<usize>| #[trigger]
                self.owns_for(ObjectType::List, rows@[9].2, rooms),
            rows@[10].0@ == "Map"@,
            rows@[10].1 == self.count_of(ObjectType::MapObject),
            rows@[10].2 >= crate::memory::capped(self.owned_by(ObjectType::MapObject)),
            exists|rooms: Seq<usize>| #[trigger]
                self.owns_for(ObjectType::MapObject, rows@[10].2, rooms),
            rows@[11].0@ == "Instance"@,
            rows@[11].1 == self.count_of(ObjectType::Instance),
            rows@[11].2 == crate::memory::capped(self.owned_by(ObjectType::Instance)),
    {
        let mut rows: Vec<(&'static str, usize, usize)> = Vec::new();
        let owned_classes: usize = self.classes.contents();
        proof {
            let rooms = choose|rooms: Seq<usize>| #[trigger] self.classes.owns(owned_classes, rooms);
            assert(self.owns_for(ObjectType::Class, owned_classes, rooms));
        }
        rows.push(("Class", self.classes.occupancy(), owned_classes));
        let owned_strings: usize = self.strings.contents();
        proof {
            let rooms = choose|rooms: Seq<usize>| #[trigger] self.strings.owns(owned_strings, rooms);
            assert(self.owns_for(ObjectType::String, owned_strings, rooms));
        }
        rows.push(("String", self.strings.occupancy(), owned_strings));
        let (frozen, structs, methods, statics) = self.class_contents();
        rows.push((" of which in flash", 0, frozen));
        rows.push((" of which struct", core::mem::size_of::<ObjClass>(), structs));
        rows.push((" of which methods", 0, methods));
        rows.push((" of which statics", 0, statics));
        rows.push((" String slot is", self.strings.slot_size(), 0));
        rows.push(("Fn", self.functions.occupancy(), self.functions.contents()));
        let owned_closures: usize = self.closures.contents();
        proof {
            let rooms = choose|rooms: Seq<usize>| #[trigger] self.closures.owns(owned_closures, rooms);
            assert(self.owns_for(ObjectType::Closure, owned_closures, rooms));
        }
        rows.push(("Closure", self.closures.occupancy(), owned_closures));
        let owned_lists: usize = self.lists.contents();
        proof {
            let rooms = choose|rooms: Seq<usize>| #[trigger] self.lists.owns(owned_lists, rooms);
            assert(self.owns_for(ObjectType::List, owned_lists, rooms));
        }
        rows.push(("List", self.lists.occupancy(), owned_lists));
        let owned_maps: usize = self.maps.contents();
        proof {
            let rooms = choose|rooms: Seq<usize>| #[trigger] self.maps.owns(owned_maps, rooms);
            assert(self.owns_for(ObjectType::MapObject, owned_maps, rooms));
        }
        rows.push(("Map", self.maps.occupancy(), owned_maps));
        rows.push(("Instance", self.instances.occupancy(), self.instances.contents()));
        proof {
            assert(rows@[0].2 == owned_classes);
            assert(rows@[1].2 == owned_strings);
            assert(rows@[4].2 == methods);
            assert(rows@[5].2 == statics);
            assert(rows@[8].2 == owned_closures);
            assert(rows@[9].2 == owned_lists);
            assert(rows@[10].2 == owned_maps);
        }
        rows
    }
}

} // verus!
