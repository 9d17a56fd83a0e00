//! Inheritance: every class's method table holds what it inherits, so that a
//! call looks in one place.

use vstd::prelude::*;

use super::Vm;
use crate::handle::ObjectId;
use crate::heap::HeapModel;
use crate::object::{entry_closure, grow_entries, ObjClass, Trace, NO_METHOD};
use crate::value::Value;

verus! {

/// A method table with the entries it lacks taken from another.
pub open spec fn merged(own: Seq<u32>, inherited: Seq<u32>) -> Seq<u32> {
    Seq::new(
        if own.len() < inherited.len() {
            inherited.len()
        } else {
            own.len()
        },
        |symbol: int|
            if crate::object::entry_at(own, symbol) == NO_METHOD {
                crate::object::entry_at(inherited, symbol)
            } else {
                crate::object::entry_at(own, symbol)
            },
    )
}

/// Whether a table gets a closure from another under a symbol.
pub open spec fn takes(own: Seq<u32>, inherited: Seq<u32>, symbol: int, closure: ObjectId) -> bool {
    &&& 0 <= symbol < inherited.len()
    &&& crate::object::entry_at(own, symbol) == NO_METHOD
    &&& crate::object::spec_entry_closure(inherited[symbol]) == Some(closure)
}

/// How many classes there are above a point in the hierarchy, counted up to a
/// limit.
pub open spec fn height(heap: HeapModel, at: Option<ObjectId>, limit: nat) -> nat
    decreases limit,
{
    match at {
        Some(id) => if limit == 0 {
            0
        } else {
            1 + height(heap, heap.superclass(id), (limit - 1) as nat)
        },
        None => 0,
    }
}

/// The most superclasses that are followed.
pub const MAX_DEPTH: usize = 64;

/// How many classes a class inherits from, counted up to one more than
/// `MAX_DEPTH`.
pub open spec fn depth(heap: HeapModel, id: ObjectId) -> nat {
    height(heap, heap.superclass(id), (MAX_DEPTH + 1) as nat)
}

/// The entry a class has under a symbol, its own or the nearest one above it.
pub open spec fn resolved(heap: HeapModel, id: ObjectId, symbol: int, limit: nat) -> u32
    decreases limit,
{
    let own = crate::object::entry_at(heap.entries(id), symbol);
    if own != NO_METHOD || limit == 0 || !heap.definable(id) {
        own
    } else {
        match heap.superclass(id) {
            Some(parent) => resolved(heap, parent, symbol, (limit - 1) as nat),
            None => own,
        }
    }
}

/// A count that stops short of its limit is the same under a greater one.
proof fn lemma_height(heap: HeapModel, at: Option<ObjectId>, limit: nat, more: nat)
    requires
        height(heap, at, limit) < limit,
        limit <= more,
    ensures
        height(heap, at, more) == height(heap, at, limit),
    decreases limit,
{
    match at {
        Some(id) => {
            lemma_height(heap, heap.superclass(id), (limit - 1) as nat, (more - 1) as nat);
        },
        None => {},
    }
}

/// Looking further than there are classes finds nothing more.
proof fn lemma_resolved(heap: HeapModel, id: ObjectId, symbol: int, limit: nat, more: nat)
    requires
        height(heap, heap.superclass(id), more) <= limit,
        limit <= more,
    ensures
        resolved(heap, id, symbol, more) == resolved(heap, id, symbol, limit),
    decreases limit,
{
    match heap.superclass(id) {
        Some(parent) => {
            if more > 0 && limit > 0 {
                lemma_resolved(heap, parent, symbol, (limit - 1) as nat, (more - 1) as nat);
            }
        },
        None => {},
    }
}

/// Whether a heap is an earlier one with the entries of some classes added to.
pub open spec fn only_methods(after: HeapModel, before: HeapModel) -> bool {
    &&& after == (HeapModel { classes: after.classes, ..before })
    &&& after.classes.dom() == before.classes.dom()
    &&& forall|i: u32| #[trigger]
        after.classes.contains_key(i) ==> after.classes[i].class().same_but_methods(
            &before.classes[i].class(),
        )
    &&& forall|i: u32| #[trigger]
        after.classes.contains_key(i) ==> (after.classes[i] is Static == before.classes[i] is Static)
    &&& forall|i: u32| #[trigger]
        after.classes.contains_key(i) ==> (after.classes[i].class().methods is Static
            == before.classes[i].class().methods is Static)
}

impl Vm {
    /// Whether an object came to point at something young by taking entries
    /// from another class.
    pub open spec fn told_of_inherited(&self, child: ObjectId, parent: ObjectId) -> bool {
        self.heap@.definable(child) && exists|symbol: int, closure: ObjectId|
            takes(self.heap@.entries(child), self.heap@.entries(parent), symbol, closure)
                && #[trigger] self.heap.crosses(child, Value::object(closure)) && #[trigger] in_table(
                self.heap@.entries(parent),
                symbol,
            )
    }

    /// Give a class the methods it lacks of another.
    pub fn inherit_methods(&mut self, child: ObjectId, parent: ObjectId)
        requires
            old(self).wf(),
        ensures
            final(self).wf(),
            *final(self) == (Vm { heap: final(self).heap, ..*old(self) }),
            final(self).heap.stats() == old(self).heap.stats(),
            final(self).heap.same_room(&old(self).heap),
            forall|id: ObjectId| #[trigger]
                final(self).heap.spec_young(id) == old(self).heap.spec_young(id),
            forall|id: ObjectId| #[trigger]
                final(self).heap.spec_remembered(id) == (old(self).heap.spec_remembered(id) || (id
                    == child && old(self).told_of_inherited(child, parent))),
            !(old(self).heap@.definable(child) && old(self).heap@.class(parent) is Some)
                ==> final(self).heap@ == old(self).heap@,
            old(self).heap@.definable(child) && old(self).heap@.class(parent) is Some ==> {
                let class = final(self).heap@.class(child)->0;
                &&& final(self).heap@ == old(self).heap@.with_class(child, class)
                &&& class.same_but_methods(&old(self).heap@.class(child)->0)
                &&& class.methods is Owned
                &&& class.methods.entries() == merged(
                    old(self).heap@.entries(child),
                    old(self).heap@.entries(parent),
                )
            },
            only_methods(final(self).heap@, old(self).heap@),
            old(self).heap.barrier_kept() ==> final(self).heap.barrier_kept(),
    {
        let ghost before = *self;
        let ghost own = before.heap@.entries(child);
        let ghost above = before.heap@.entries(parent);
        let inherited: Vec<u32> = match self.heap.class(parent) {
            Some(class) => copy_entries(class.methods.as_slice()),
            None => {
                return;
            },
        };
        let mut copied: Vec<ObjectId> = Vec::new();
        match self.heap.class_mut(child) {
            None => {
                return;
            },
            Some(class) => {
                match class.methods.as_mut() {
                    None => {},
                    Some(entries) => {
                        grow_entries(entries, inherited.len());
                        let ghost grown = entries@;
                        let mut symbol: usize = 0;
                        while symbol < inherited.len()
                            invariant
                                symbol <= inherited@.len(),
                                inherited@ == above,
                                grown.len() >= above.len(),
                                entries@.len() == grown.len(),
                                forall|i: int|
                                    0 <= i < grown.len() ==> #[trigger] grown[i]
                                        == crate::object::entry_at(own, i),
                                grown.len() == if own.len() < above.len() {
                                    above.len()
                                } else {
                                    own.len()
                                },
                                forall|i: int|
                                    0 <= i < symbol ==> #[trigger] entries@[i] == merged(
                                        own,
                                        above,
                                    )[i],
                                forall|i: int|
                                    symbol <= i < grown.len() ==> #[trigger] entries@[i]
                                        == grown[i],
                                forall|closure: ObjectId| #[trigger]
                                    copied@.contains(closure) <==> exists|i: int|
                                        #[trigger] in_table(above, i) && i < symbol && takes(
                                            own,
                                            above,
                                            i,
                                            closure,
                                        ),
                            decreases inherited@.len() - symbol,
                        {
                            let ghost earlier = copied@;
                            let entry: u32 = inherited[symbol];
                            if entries[symbol] == NO_METHOD {
                                entries.set(symbol, entry);
                                match entry_closure(entry) {
                                    Some(closure) => {
                                        copied.push(closure);
                                        proof {
                                            crate::lists::lemma_pushed(earlier, closure);
                                        }
                                    },
                                    None => {},
                                }
                            }
                            proof {
                                assert(in_table(above, symbol as int));
                                assert forall|closure: ObjectId| #[trigger]
                                    copied@.contains(closure) <==> exists|i: int|
                                        #[trigger] in_table(above, i) && i < symbol + 1 && takes(
                                            own,
                                            above,
                                            i,
                                            closure,
                                        ) by {
                                    if takes(own, above, symbol as int, closure) {
                                        assert(copied@.contains(closure));
                                    }
                                }
                            }
                            symbol = symbol + 1;
                        }
                        proof {
                            assert(entries@ =~= merged(own, above));
                        }
                    },
                }
            },
        }
        let ghost written = *self;
        proof {
            assert(written.heap@.classes.dom() =~= before.heap@.classes.dom());
            if !before.heap@.definable(child) {
                assert(written.heap@.classes =~= before.heap@.classes);
            }
        }
        let mut i: usize = 0;
        while i < copied.len()
            invariant
                i <= copied@.len(),
                written.wf(),
                self.heap.wf(),
                *self == (Vm { heap: self.heap, ..written }),
                self.heap@ == written.heap@,
                self.heap.stats() == written.heap.stats(),
                self.heap.same_room(&written.heap),
                forall|id: ObjectId| #[trigger]
                    self.heap.spec_young(id) == written.heap.spec_young(id),
                forall|id: ObjectId| #[trigger]
                    self.heap.spec_remembered(id) == (written.heap.spec_remembered(id) || (id
                        == child && exists|k: int|
                        0 <= k < i && written.heap.crosses(
                            child,
                            Value::object(#[trigger] copied@[k]),
                        ))),
            decreases copied@.len() - i,
        {
            let ghost mid = self.heap;
            self.heap.wrote(child, Value::object(copied[i]));
            proof {
                assert(mid.crosses(child, Value::object(copied@[i as int]))
                    == written.heap.crosses(child, Value::object(copied@[i as int])));
            }
            i = i + 1;
        }
        proof {
            assert forall|id: ObjectId| #[trigger]
                self.heap.spec_remembered(id) == (before.heap.spec_remembered(id) || (id == child
                    && before.told_of_inherited(child, parent))) by {
                assert(written.heap.spec_remembered(id) == before.heap.spec_remembered(id));
                if id == child && before.told_of_inherited(child, parent) {
                    let (symbol, closure) = choose|symbol: int, closure: ObjectId|
                        takes(own, above, symbol, closure) && #[trigger] before.heap.crosses(
                            child,
                            Value::object(closure),
                        ) && #[trigger] in_table(above, symbol);
                    assert(copied@.contains(closure));
                    let k = choose|k: int| 0 <= k < copied@.len() && copied@[k] == closure;
                    assert(written.heap.crosses(child, Value::object(copied@[k])));
                }
                if id == child && exists|k: int|
                    0 <= k < i && written.heap.crosses(child, Value::object(#[trigger] copied@[k])) {
                    let k = choose|k: int|
                        0 <= k < i && written.heap.crosses(
                            child,
                            Value::object(#[trigger] copied@[k]),
                        );
                    assert(copied@.contains(copied@[k]));
                    assert(before.heap.crosses(child, Value::object(copied@[k])));
                    assert(before.heap@.definable(child));
                }
            }
            if before.heap.barrier_kept() {
                lemma_inherit_keeps_barrier(before, *self, child, parent);
            }
        }
    }

    /// How many classes a class inherits from, up to one more than
    /// `MAX_DEPTH`.
    ///
    /// Counted with a limit rather than trusted: a cycle here would otherwise
    /// hang the machine at start-up.
    fn class_depth(&self, id: ObjectId) -> (steps: usize)
        requires
            self.wf(),
        ensures
            steps == depth(self.heap@, id),
    {
        let mut steps: usize = 0;
        let mut current: Option<ObjectId> = match self.heap.class(id) {
            Some(class) => class.superclass,
            None => None,
        };
        while steps <= MAX_DEPTH && current.is_some()
            invariant
                self.wf(),
                steps <= MAX_DEPTH + 1,
                depth(self.heap@, id) == steps + height(
                    self.heap@,
                    current,
                    (MAX_DEPTH + 1 - steps) as nat,
                ),
            decreases MAX_DEPTH + 1 - steps,
        {
            match current {
                Some(parent) => {
                    current = match self.heap.class(parent) {
                        Some(class) => class.superclass,
                        None => None,
                    };
                },
                None => {},
            }
            steps = steps + 1;
        }
        steps
    }

    /// Let every class at one depth inherit.
    fn flatten_level(&mut self, classes: &Vec<(usize, ObjectId)>, level: usize)
        requires
            old(self).wf(),
            forall|k: int|
                0 <= k < classes@.len() ==> (#[trigger] classes@[k]).0 == depth(
                    old(self).heap@,
                    classes@[k].1,
                ),
            forall|i: int, j: int|
                0 <= i < j < classes@.len() ==> (#[trigger] classes@[i]).1 != (
                #[trigger] classes@[j]).1,
        ensures
            final(self).wf(),
            *final(self) == (Vm { heap: final(self).heap, ..*old(self) }),
            final(self).heap.stats() == old(self).heap.stats(),
            final(self).heap.same_room(&old(self).heap),
            forall|id: ObjectId| #[trigger]
                final(self).heap.spec_young(id) == old(self).heap.spec_young(id),
            old(self).heap.barrier_kept() ==> final(self).heap.barrier_kept(),
            only_methods(final(self).heap@, old(self).heap@),
            forall|id: ObjectId|
                depth(old(self).heap@, id) != level ==> #[trigger] final(self).heap@.entries(id)
                    == old(self).heap@.entries(id),
            level <= MAX_DEPTH ==> forall|k: int|
                #![trigger classes@[k]]
                0 <= k < classes@.len() && classes@[k].0 == level ==> final(self).heap@.entries(
                    classes@[k].1,
                ) == inherited_entries(old(self).heap@, classes@[k].1),
    {
        let ghost before = *self;
        let mut k: usize = 0;
        while k < classes.len()
            invariant
                before.wf(),
                self.wf(),
                k <= classes@.len(),
                forall|k: int|
                    0 <= k < classes@.len() ==> (#[trigger] classes@[k]).0 == depth(
                        before.heap@,
                        classes@[k].1,
                    ),
                forall|i: int, j: int|
                    0 <= i < j < classes@.len() ==> (#[trigger] classes@[i]).1 != (
                    #[trigger] classes@[j]).1,
                *self == (Vm { heap: self.heap, ..before }),
                self.heap.stats() == before.heap.stats(),
                self.heap.same_room(&before.heap),
                forall|id: ObjectId| #[trigger]
                    self.heap.spec_young(id) == before.heap.spec_young(id),
                before.heap.barrier_kept() ==> self.heap.barrier_kept(),
                only_methods(self.heap@, before.heap@),
                forall|id: ObjectId|
                    depth(before.heap@, id) != level ==> #[trigger] self.heap@.entries(id)
                        == before.heap@.entries(id),
                forall|j: int|
                    k <= j < classes@.len() ==> self.heap@.entries((#[trigger] classes@[j]).1)
                        == before.heap@.entries(classes@[j].1),
                level <= MAX_DEPTH ==> forall|j: int|
                    #![trigger classes@[j]]
                    0 <= j < k && classes@[j].0 == level ==> self.heap@.entries(classes@[j].1)
                        == inherited_entries(before.heap@, classes@[j].1),
            decreases classes@.len() - k,
        {
            let ghost mid = *self;
            if classes[k].0 == level {
                let id = classes[k].1;
                let parent: Option<ObjectId> = match self.heap.class(id) {
                    Some(class) => class.superclass,
                    None => None,
                };
                match parent {
                    Some(parent) => {
                        self.inherit_methods(id, parent);
                        proof {
                            crate::handle::lemma_parts_determine(id);
                            lemma_step(before.heap@, mid.heap@, self.heap@, id, parent, level as nat);
                            assert forall|other: ObjectId| other != id implies #[trigger]
                            self.heap@.entries(other) == mid.heap@.entries(other) by {
                                assert(other.spec_tag() == id.spec_tag() ==> other.spec_index()
                                    != id.spec_index());
                            }
                        }
                    },
                    None => {
                        proof {
                            lemma_same_classes(before.heap@, mid.heap@, id);
                        }
                    },
                }
            }
            k = k + 1;
        }
    }

    /// Flatten every class's inheritance into its own method table.
    pub fn flatten_class_hierarchy(&mut self)
        requires
            old(self).wf(),
        ensures
            final(self).wf(),
            *final(self) == (Vm { heap: final(self).heap, ..*old(self) }),
            final(self).heap.stats() == old(self).heap.stats(),
            final(self).heap.same_room(&old(self).heap),
            forall|id: ObjectId| #[trigger]
                final(self).heap.spec_young(id) == old(self).heap.spec_young(id),
            old(self).heap.barrier_kept() ==> final(self).heap.barrier_kept(),
            only_methods(final(self).heap@, old(self).heap@),
            forall|id: ObjectId, symbol: int|
                depth(old(self).heap@, id) <= MAX_DEPTH ==> crate::object::entry_at(
                    #[trigger] final(self).heap@.entries(id),
                    symbol,
                ) == #[trigger] resolved(old(self).heap@, id, symbol, MAX_DEPTH as nat),
    {
        let ghost before = *self;
        let ids: Vec<ObjectId> = self.heap.ids();
        let mut classes: Vec<(usize, ObjectId)> = Vec::new();
        let mut i: usize = 0;
        while i < ids.len()
            invariant
                self.wf(),
                *self == before,
                i <= ids@.len(),
                ids@.no_duplicates(),
                forall|id: ObjectId| #[trigger] ids@.contains(id) <==> self.heap@.has(id),
                forall|k: int|
                    0 <= k < classes@.len() ==> (#[trigger] classes@[k]).0 == depth(
                        self.heap@,
                        classes@[k].1,
                    ),
                forall|k: int|
                    0 <= k < classes@.len() ==> ids@.take(i as int).contains(
                        (#[trigger] classes@[k]).1,
                    ),
                forall|a: int, b: int|
                    0 <= a < b < classes@.len() ==> (#[trigger] classes@[a]).1 != (
                    #[trigger] classes@[b]).1,
                forall|k: int|
                    0 <= k < i && self.heap@.class(#[trigger] ids@[k]) is Some
                        ==> exists|j: int| 0 <= j < classes@.len() && (#[trigger] classes@[j]).1
                        == ids@[k],
            decreases ids@.len() - i,
        {
            let id = ids[i];
            let ghost earlier = classes@;
            proof {
                assert(ids@.take(i as int + 1) =~= ids@.take(i as int).push(id));
                crate::lists::lemma_pushed(ids@.take(i as int), id);
                assert(!ids@.take(i as int).contains(id));
            }
            match self.heap.class(id) {
                Some(_) => {
                    let steps: usize = self.class_depth(id);
                    classes.push((steps, id));
                    proof {
                        assert(classes@[earlier.len() as int].1 == id);
                        assert forall|k: int|
                            0 <= k < i + 1 && self.heap@.class(#[trigger] ids@[k]) is Some implies exists|
                            j: int,
                        | 0 <= j < classes@.len() && (#[trigger] classes@[j]).1 == ids@[k] by {
                            if k < i {
                                let j = choose|j: int|
                                    0 <= j < earlier.len() && (#[trigger] earlier[j]).1 == ids@[k];
                                assert(classes@[j].1 == ids@[k]);
                            }
                        }
                    }
                },
                None => {},
            }
            i = i + 1;
        }
        proof {
            assert forall|id: ObjectId| #[trigger] before.heap@.class(id) is Some implies exists|
                j: int,
            | 0 <= j < classes@.len() && (#[trigger] classes@[j]).1 == id by {
                assert(before.heap@.has(id));
                assert(ids@.contains(id));
                let k = choose|k: int| 0 <= k < ids@.len() && ids@[k] == id;
                assert(before.heap@.class(ids@[k]) is Some);
            }
        }
        let mut level: usize = 0;
        while level <= MAX_DEPTH + 1
            invariant
                before.wf(),
                self.wf(),
                level <= MAX_DEPTH + 2,
                *self == (Vm { heap: self.heap, ..before }),
                self.heap.stats() == before.heap.stats(),
                self.heap.same_room(&before.heap),
                forall|id: ObjectId| #[trigger]
                    self.heap.spec_young(id) == before.heap.spec_young(id),
                before.heap.barrier_kept() ==> self.heap.barrier_kept(),
                only_methods(self.heap@, before.heap@),
                forall|k: int|
                    0 <= k < classes@.len() ==> (#[trigger] classes@[k]).0 == depth(
                        before.heap@,
                        classes@[k].1,
                    ),
                forall|a: int, b: int|
                    0 <= a < b < classes@.len() ==> (#[trigger] classes@[a]).1 != (
                    #[trigger] classes@[b]).1,
                forall|id: ObjectId| #[trigger] before.heap@.class(id) is Some ==> exists|j: int|
                    0 <= j < classes@.len() && (#[trigger] classes@[j]).1 == id,
                forall|id: ObjectId|
                    depth(before.heap@, id) >= level ==> #[trigger] self.heap@.entries(id)
                        == before.heap@.entries(id),
                forall|id: ObjectId, symbol: int|
                    depth(before.heap@, id) <= MAX_DEPTH && depth(before.heap@, id) < level
                        ==> crate::object::entry_at(#[trigger] self.heap@.entries(id), symbol)
                        == #[trigger] resolved(before.heap@, id, symbol, MAX_DEPTH as nat),
            decreases MAX_DEPTH + 2 - level,
        {
            let ghost mid = *self;
            proof {
                assert forall|k: int| 0 <= k < classes@.len() implies (#[trigger] classes@[k]).0
                    == depth(mid.heap@, classes@[k].1) by {
                    lemma_same_depth(before.heap@, mid.heap@, classes@[k].1);
                }
            }
            self.flatten_level(&classes, level);
            proof {
                assert forall|id: ObjectId| depth(before.heap@, id) != level implies #[trigger]
                self.heap@.entries(id) == mid.heap@.entries(id) by {
                    lemma_same_depth(before.heap@, mid.heap@, id);
                }
                if level <= MAX_DEPTH {
                    assert forall|id: ObjectId, symbol: int|
                        depth(before.heap@, id) == level implies crate::object::entry_at(
                        #[trigger] self.heap@.entries(id),
                        symbol,
                    ) == #[trigger] resolved(before.heap@, id, symbol, MAX_DEPTH as nat) by {
                        if before.heap@.class(id) is Some {
                            let j = choose|j: int|
                                0 <= j < classes@.len() && (#[trigger] classes@[j]).1 == id;
                            assert(self.heap@.entries(classes@[j].1) == inherited_entries(
                                mid.heap@,
                                id,
                            ));
                            lemma_resolves(before.heap@, mid.heap@, id, symbol, level as nat);
                        } else {
                            assert(self.heap@.class(id) is None);
                        }
                    }
                }
            }
            level = level + 1;
        }
        let ghost flat = *self;
        let mut k: usize = 0;
        while k < classes.len()
            invariant
                before.wf(),
                flat.wf(),
                self.wf(),
                k <= classes@.len(),
                *self == (Vm { heap: self.heap, ..before }),
                *self == (Vm { heap: self.heap, ..flat }),
                self.heap.same_books(&flat.heap),
                only_methods(self.heap@, flat.heap@),
                forall|id: ObjectId| #[trigger] self.heap@.entries(id) == flat.heap@.entries(id),
                forall|id: ObjectId| #[trigger] self.heap@.refs(id) == flat.heap@.refs(id),
            decreases classes@.len() - k,
        {
            let ghost mid = *self;
            let id = classes[k].1;
            match self.heap.class_mut(id) {
                Some(class) => {
                    class.settle();
                },
                None => {},
            }
            proof {
                if mid.heap@.class(id) is Some && !mid.heap@.permanent(id) {
                    let class = self.heap@.class(id)->0;
                    assert(class.same_as(&mid.heap@.class(id)->0));
                    assert(self.heap@ == mid.heap@.with_class(id, class));
                }
                lemma_settled(flat, mid, *self, id);
            }
            k = k + 1;
        }
        proof {
            if flat.heap.barrier_kept() {
                assert forall|from: ObjectId, to: ObjectId| !(#[trigger] self.heap.breach(
                    from,
                    to,
                )) by {
                    assert(!flat.heap.breach(from, to));
                    assert(self.heap@.refs(from) == flat.heap@.refs(from));
                }
            }
        }
    }
}

/// The method table a class has once it has taken what it lacks from its
/// superclass.
pub open spec fn inherited_entries(heap: HeapModel, id: ObjectId) -> Seq<u32> {
    match heap.superclass(id) {
        Some(parent) => if heap.definable(id) && heap.class(parent) is Some {
            merged(heap.entries(id), heap.entries(parent))
        } else {
            heap.entries(id)
        },
        None => heap.entries(id),
    }
}

/// Changing methods changes no class's place in the hierarchy.
proof fn lemma_same_classes(before: HeapModel, after: HeapModel, id: ObjectId)
    requires
        only_methods(after, before),
    ensures
        after.class(id) is Some == before.class(id) is Some,
        after.superclass(id) == before.superclass(id),
        after.definable(id) == before.definable(id),
        after.permanent(id) == before.permanent(id),
{
    assert(after.classes.contains_key(id.spec_index()) == before.classes.contains_key(
        id.spec_index(),
    ));
}

/// Changing methods leaves every height as it was.
proof fn lemma_same_height(
    before: HeapModel,
    after: HeapModel,
    at: Option<ObjectId>,
    limit: nat,
)
    requires
        only_methods(after, before),
    ensures
        height(after, at, limit) == height(before, at, limit),
    decreases limit,
{
    match at {
        Some(id) => {
            if limit > 0 {
                lemma_same_classes(before, after, id);
                lemma_same_height(before, after, before.superclass(id), (limit - 1) as nat);
            }
        },
        None => {},
    }
}

/// Changing methods leaves every depth as it was.
proof fn lemma_same_depth(before: HeapModel, after: HeapModel, id: ObjectId)
    requires
        only_methods(after, before),
    ensures
        depth(after, id) == depth(before, id),
{
    lemma_same_classes(before, after, id);
    lemma_same_height(before, after, before.superclass(id), (MAX_DEPTH + 1) as nat);
}

/// A class whose depth is known is one deeper than its superclass.
proof fn lemma_parent_depth(heap: HeapModel, id: ObjectId, parent: ObjectId)
    requires
        heap.superclass(id) == Some(parent),
        depth(heap, id) <= MAX_DEPTH,
    ensures
        depth(heap, parent) + 1 == depth(heap, id),
{
    let limit = MAX_DEPTH as nat;
    assert(depth(heap, id) == 1 + height(heap, heap.superclass(parent), limit));
    lemma_height(heap, heap.superclass(parent), limit, limit + 1);
}

/// One class inheriting, seen from the state before its level began.
proof fn lemma_step(
    before: HeapModel,
    mid: HeapModel,
    after: HeapModel,
    id: ObjectId,
    parent: ObjectId,
    level: nat,
)
    requires
        only_methods(mid, before),
        only_methods(after, mid),
        mid.superclass(id) == Some(parent),
        depth(before, id) == level,
        mid.entries(id) == before.entries(id),
        forall|other: ObjectId|
            depth(before, other) != level ==> #[trigger] mid.entries(other) == before.entries(other),
        !(mid.definable(id) && mid.class(parent) is Some) ==> after == mid,
        mid.definable(id) && mid.class(parent) is Some ==> after.entries(id) == merged(
            mid.entries(id),
            mid.entries(parent),
        ),
    ensures
        only_methods(after, before),
        level <= MAX_DEPTH ==> after.entries(id) == inherited_entries(before, id),
{
    lemma_same_classes(before, mid, id);
    lemma_same_classes(before, mid, parent);
    assert(after.classes.dom() =~= before.classes.dom());
    assert forall|i: u32| #[trigger] after.classes.contains_key(i) implies {
        &&& after.classes[i].class().same_but_methods(&before.classes[i].class())
        &&& after.classes[i] is Static == before.classes[i] is Static
        &&& after.classes[i].class().methods is Static
            == before.classes[i].class().methods is Static
    } by {
        assert(mid.classes.contains_key(i));
    }
    if level <= MAX_DEPTH {
        lemma_parent_depth(before, id, parent);
        assert(mid.entries(parent) == before.entries(parent));
    }
}

/// Once a superclass's table is complete, so is that of a class that took what
/// it lacks from it.
proof fn lemma_resolves(
    before: HeapModel,
    mid: HeapModel,
    id: ObjectId,
    symbol: int,
    level: nat,
)
    requires
        only_methods(mid, before),
        depth(before, id) == level,
        level <= MAX_DEPTH,
        mid.entries(id) == before.entries(id),
        forall|other: ObjectId, s: int|
            depth(before, other) < level ==> crate::object::entry_at(
                #[trigger] mid.entries(other),
                s,
            ) == #[trigger] resolved(before, other, s, MAX_DEPTH as nat),
    ensures
        crate::object::entry_at(inherited_entries(mid, id), symbol) == resolved(
            before,
            id,
            symbol,
            MAX_DEPTH as nat,
        ),
{
    lemma_same_classes(before, mid, id);
    match before.superclass(id) {
        Some(parent) => {
            lemma_same_classes(before, mid, parent);
            lemma_parent_depth(before, id, parent);
            let limit = (MAX_DEPTH - 1) as nat;
            assert(crate::object::entry_at(mid.entries(parent), symbol) == resolved(
                before,
                parent,
                symbol,
                MAX_DEPTH as nat,
            ));
            lemma_height(
                before,
                before.superclass(parent),
                MAX_DEPTH as nat,
                (MAX_DEPTH + 1) as nat,
            );
            lemma_resolved(before, parent, symbol, limit, MAX_DEPTH as nat);
        },
        None => {},
    }
}

/// Giving back a table's slack changes nothing else.
proof fn lemma_settled(flat: Vm, mid: Vm, after: Vm, id: ObjectId)
    requires
        only_methods(mid.heap@, flat.heap@),
        forall|other: ObjectId| #[trigger] mid.heap@.entries(other) == flat.heap@.entries(other),
        forall|other: ObjectId| #[trigger] mid.heap@.refs(other) == flat.heap@.refs(other),
        after.heap@ == mid.heap@ || (mid.heap@.class(id) is Some && !mid.heap@.permanent(id)
            && exists|class: ObjClass| #[trigger]
            class.same_as(&mid.heap@.class(id)->0) && after.heap@ == mid.heap@.with_class(
                id,
                class,
            )),
    ensures
        only_methods(after.heap@, flat.heap@),
        forall|other: ObjectId| #[trigger] after.heap@.entries(other) == flat.heap@.entries(other),
        forall|other: ObjectId| #[trigger] after.heap@.refs(other) == flat.heap@.refs(other),
{
    if after.heap@ != mid.heap@ {
        let class = choose|class: ObjClass| #[trigger]
            class.same_as(&mid.heap@.class(id)->0) && after.heap@ == mid.heap@.with_class(
                id,
                class,
            );
        class.lemma_same(&mid.heap@.class(id)->0);
        assert(after.heap@.classes.dom() =~= flat.heap@.classes.dom());
        assert forall|i: u32| #[trigger] after.heap@.classes.contains_key(i) implies {
            &&& after.heap@.classes[i].class().same_but_methods(&flat.heap@.classes[i].class())
            &&& after.heap@.classes[i] is Static == flat.heap@.classes[i] is Static
            &&& after.heap@.classes[i].class().methods is Static
                == flat.heap@.classes[i].class().methods is Static
        } by {
            assert(mid.heap@.classes.contains_key(i));
        }
        assert forall|other: ObjectId| #[trigger]
            after.heap@.entries(other) == flat.heap@.entries(other) by {
            assert(mid.heap@.entries(other) == flat.heap@.entries(other));
        }
        assert forall|other: ObjectId| #[trigger]
            after.heap@.refs(other) == flat.heap@.refs(other) by {
            assert(mid.heap@.refs(other) == flat.heap@.refs(other));
        }
    }
}

/// What a method table refers to, entry by entry.
proof fn lemma_methods_refs(entries: Seq<u32>, to: ObjectId)
    ensures
        crate::object::methods_refs(entries).contains(to) <==> exists|symbol: int| #[trigger]
            in_table(entries, symbol) && crate::object::spec_entry_closure(entries[symbol]) == Some(
                to,
            ),
    decreases entries.len(),
{
    if entries.len() > 0 {
        let rest = entries.drop_last();
        lemma_methods_refs(rest, to);
        crate::lists::lemma_added(
            crate::object::methods_refs(rest),
            crate::object::option_refs(crate::object::spec_entry_closure(entries.last())),
        );
        assert(crate::object::option_refs(
            crate::object::spec_entry_closure(entries.last()),
        ).contains(to) <==> crate::object::spec_entry_closure(entries.last()) == Some(to)) by {
            if crate::object::spec_entry_closure(entries.last()) == Some(to) {
                assert(seq![to][0] == to);
            }
        }
        if exists|symbol: int| #[trigger]
            in_table(entries, symbol) && crate::object::spec_entry_closure(entries[symbol]) == Some(
                to,
            ) {
            let symbol = choose|symbol: int| #[trigger]
                in_table(entries, symbol) && crate::object::spec_entry_closure(entries[symbol])
                    == Some(to);
            if symbol < rest.len() {
                assert(in_table(rest, symbol));
            }
        }
        if exists|symbol: int| #[trigger]
            in_table(rest, symbol) && crate::object::spec_entry_closure(rest[symbol]) == Some(to) {
            let symbol = choose|symbol: int| #[trigger]
                in_table(rest, symbol) && crate::object::spec_entry_closure(rest[symbol]) == Some(
                    to,
                );
            assert(in_table(entries, symbol));
        }
        assert(in_table(entries, entries.len() - 1));
    }
}

/// Inheriting keeps the barrier: whatever young a class comes to point at, it
/// is remembered for.
proof fn lemma_inherit_keeps_barrier(before: Vm, after: Vm, child: ObjectId, parent: ObjectId)
    requires
        before.heap.barrier_kept(),
        forall|id: ObjectId| #[trigger]
            after.heap.spec_young(id) == before.heap.spec_young(id),
        forall|id: ObjectId| #[trigger]
            after.heap.spec_remembered(id) == (before.heap.spec_remembered(id) || (id == child
                && before.told_of_inherited(child, parent))),
        !(before.heap@.definable(child) && before.heap@.class(parent) is Some) ==> after.heap@
            == before.heap@,
        before.heap@.definable(child) && before.heap@.class(parent) is Some ==> {
            let class = after.heap@.class(child)->0;
            &&& after.heap@ == before.heap@.with_class(child, class)
            &&& class.same_but_methods(&before.heap@.class(child)->0)
            &&& class.methods.entries() == merged(
                before.heap@.entries(child),
                before.heap@.entries(parent),
            )
        },
    ensures
        after.heap.barrier_kept(),
{
    broadcast use crate::value::law_object_round_trip;

    assert forall|from: ObjectId, to: ObjectId| !(#[trigger] after.heap.breach(from, to)) by {
        if after.heap.breach(from, to) {
            assert(!before.heap.breach(from, to));
            crate::handle::lemma_parts_determine(child);
            if from == child && before.heap@.definable(child) && before.heap@.class(
                parent,
            ) is Some {
                let old_class = before.heap@.class(child)->0;
                let new_class = after.heap@.class(child)->0;
                let own = before.heap@.entries(child);
                let above = before.heap@.entries(parent);
                let rest = seq![old_class.name] + crate::object::option_refs(old_class.superclass)
                    + crate::object::option_refs(old_class.metaclass) + crate::object::value_refs(
                    old_class.attributes,
                ) + crate::object::values_refs(old_class.static_fields@);
                crate::lists::lemma_added(rest, crate::object::methods_refs(own));
                crate::lists::lemma_added(rest, crate::object::methods_refs(merged(own, above)));
                lemma_methods_refs(own, to);
                lemma_methods_refs(merged(own, above), to);
                if !before.heap@.refs(from).contains(to) {
                    let symbol = choose|symbol: int| #[trigger]
                        in_table(merged(own, above), symbol) && crate::object::spec_entry_closure(
                            merged(own, above)[symbol],
                        ) == Some(to);
                    if crate::object::entry_at(own, symbol) != NO_METHOD {
                        assert(in_table(own, symbol));
                    } else {
                        assert(in_table(above, symbol));
                        assert(takes(own, above, symbol, to));
                        assert(before.heap.crosses(child, Value::object(to)));
                    }
                    assert(false);
                }
            }
        }
    }
}

/// Whether a symbol is within a method table.
pub open spec fn in_table(entries: Seq<u32>, symbol: int) -> bool {
    0 <= symbol < entries.len()
}

/// A copy of a method table.
fn copy_entries(entries: &[u32]) -> (copy: Vec<u32>)
    ensures
        copy@ == entries@,
{
    let mut copy: Vec<u32> = Vec::new();
    let mut i: usize = 0;
    while i < entries.len()
        invariant
            i <= entries@.len(),
            copy@ == entries@.take(i as int),
        decreases entries@.len() - i,
    {
        copy.push(entries[i]);
        proof {
            assert(entries@.take(i as int + 1) =~= entries@.take(i as int).push(
                entries@[i as int],
            ));
        }
        i = i + 1;
    }
    proof {
        assert(entries@.take(i as int) =~= entries@);
    }
    copy
}

} // verus!
