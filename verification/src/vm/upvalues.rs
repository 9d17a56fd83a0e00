//! Captured variables: open while they are still on the stack, closed once
//! they are not.

use vstd::prelude::*;

use super::{RuntimeError, Vm};
use crate::handle::ObjectId;
use crate::heap::HeapModel;
use crate::object::{ObjUpvalue, Object, ObjectType};
use crate::value::Value;

verus! {

/// Whether a handle is an open upvalue for a stack slot.
pub open spec fn open_on(heap: HeapModel, id: ObjectId, slot: int) -> bool {
    heap.upvalue(id) matches Some(upvalue) && upvalue.spec_is_open() && upvalue.spec_slot() == slot
}

/// The first of a run of handles that is an open upvalue for a stack slot.
pub open spec fn first_open_on(heap: HeapModel, ids: Seq<ObjectId>, slot: int) -> Option<ObjectId>
    decreases ids.len(),
{
    if ids.len() == 0 {
        None
    } else if open_on(heap, ids[0], slot) {
        Some(ids[0])
    } else {
        first_open_on(heap, ids.drop_first(), slot)
    }
}

/// What is on a stack at a slot, or null past its end.
pub open spec fn at_or_null(stack: Seq<Value>, slot: int) -> Value {
    if 0 <= slot < stack.len() {
        stack[slot]
    } else {
        Value::null()
    }
}

/// Whether an upvalue is open on a slot below a limit.
pub open spec fn open_below(heap: HeapModel, id: ObjectId, limit: int) -> bool {
    heap.upvalue(id) matches Some(upvalue) && upvalue.spec_is_open() && upvalue.spec_slot() < limit
}

/// Whether an upvalue is open on a slot at a limit or above it.
pub open spec fn open_from(heap: HeapModel, id: ObjectId, limit: int) -> bool {
    heap.upvalue(id) matches Some(upvalue) && upvalue.spec_is_open() && upvalue.spec_slot() >= limit
}

/// An upvalue as it is once closed over a stack.
pub open spec fn closed_over(upvalue: ObjUpvalue, stack: Seq<Value>) -> ObjUpvalue {
    ObjUpvalue { closed: at_or_null(stack, upvalue.spec_slot()), ..upvalue }
}

/// Whether the upvalue in a slot of its table is among a run of handles.
pub open spec fn listed(ids: Seq<ObjectId>, index: u32) -> bool {
    exists|id: ObjectId| #[trigger]
        ids.contains(id) && id.spec_tag() == ObjectType::Upvalue.spec_tag() && id.spec_index()
            == index
}

/// What the heap holds once the listed upvalues at a limit or above it are
/// closed over a stack.
pub open spec fn with_closed(
    heap: HeapModel,
    ids: Seq<ObjectId>,
    limit: int,
    stack: Seq<Value>,
) -> HeapModel {
    HeapModel {
        upvalues: heap.upvalues.map_entries(
            |index: u32, upvalue: ObjUpvalue|
                if listed(ids, index) && upvalue.spec_is_open() && upvalue.spec_slot() >= limit {
                    closed_over(upvalue, stack)
                } else {
                    upvalue
                },
        ),
        ..heap
    }
}

impl Vm {
    /// Whether a machine is an earlier one with a stack slot captured.
    pub open spec fn captured(&self, before: &Vm, slot: usize, id: ObjectId) -> bool {
        &&& match first_open_on(before.heap@, before.open_upvalues@, slot as int) {
            Some(shared) => id == shared && *self == *before,
            None => {
                &&& self.heap.allocated(
                    &before.heap,
                    id,
                    Object::Upvalue(
                        (ObjUpvalue { place: (slot + 1) as u32, closed: Value::undefined() }),
                    ),
                )
                &&& self.open_upvalues@ == before.open_upvalues@.push(id)
                &&& *self == (Vm {
                    heap: self.heap,
                    open_upvalues: self.open_upvalues,
                    ..*before
                })
            },
        }
        &&& open_on(self.heap@, id, slot as int)
    }

    /// The upvalue for a stack slot: the one that is open on it already, or a
    /// new one.
    ///
    /// Two closures over the same variable have to share it, or a write
    /// through one would not be seen through the other.
    pub fn capture_upvalue(&mut self, slot: usize) -> (id: ObjectId)
        requires
            old(self).wf(),
            old(self).heap.has_slots(1),
            slot < u32::MAX,
        ensures
            final(self).wf(),
            final(self).captured(old(self), slot, id),
    {
        let mut i: usize = 0;
        proof {
            assert(self.open_upvalues@.skip(0) =~= self.open_upvalues@);
        }
        while i < self.open_upvalues.len()
            invariant
                self.wf(),
                *self == *old(self),
                i <= self.open_upvalues@.len(),
                first_open_on(self.heap@, self.open_upvalues@, slot as int) == first_open_on(
                    self.heap@,
                    self.open_upvalues@.skip(i as int),
                    slot as int,
                ),
            decreases self.open_upvalues@.len() - i,
        {
            let existing = self.open_upvalues[i];
            proof {
                let rest = self.open_upvalues@.skip(i as int);
                assert(rest[0] == existing);
                assert(rest.drop_first() =~= self.open_upvalues@.skip(i as int + 1));
            }
            match self.heap.upvalue(existing) {
                Some(upvalue) => {
                    if upvalue.is_open() && upvalue.slot() == slot {
                        return existing;
                    }
                },
                None => {},
            }
            i = i + 1;
        }
        let upvalue = ObjUpvalue::new(slot, Value::undefined());
        let id = self.heap.allocate(Object::Upvalue(upvalue));
        self.open_upvalues.push(id);
        id
    }

    /// Whether an upvalue is one that closing from a limit closes.
    pub open spec fn closes(&self, id: ObjectId, limit: int) -> bool {
        self.open_upvalues@.contains(id) && open_from(self.heap@, id, limit)
    }

    /// Whether a machine is an earlier one with its upvalues closed from a slot up.
    pub open spec fn closed_upvalues(&self, before: &Vm, from: usize) -> bool {
        &&& self.open_upvalues@ == before.open_upvalues@.filter(
            |id: ObjectId| open_below(before.heap@, id, from as int),
        )
        &&& self.heap@ == with_closed(
            before.heap@,
            before.open_upvalues@,
            from as int,
            before.stack@,
        )
        &&& self.heap.stats() == before.heap.stats()
        &&& self.heap.same_room(&before.heap)
        &&& forall|id: ObjectId| #[trigger]
            self.heap.spec_young(id) == before.heap.spec_young(id)
        &&& forall|id: ObjectId| #[trigger]
            self.heap.spec_remembered(id) == (before.heap.spec_remembered(id) || (
            before.closes(id, from as int) && before.heap.crosses(
                id,
                at_or_null(before.stack@, before.heap@.upvalue(id)->0.spec_slot()),
            )))
        &&& *self == (Vm {
            heap: self.heap,
            open_upvalues: self.open_upvalues,
            ..*before
        })
    }

    /// Close every open upvalue on a slot at a limit or above it: the variable
    /// moves from the stack into the upvalue.
    pub fn close_upvalues(&mut self, from: usize)
        requires
            old(self).wf(),
        ensures
            final(self).wf(),
            final(self).closed_upvalues(old(self), from),
    {
        let ghost before = *self;
        let ghost keeps = |id: ObjectId| open_below(before.heap@, id, from as int);
        let mut still_open: Vec<ObjectId> = Vec::new();
        let mut i: usize = 0;
        proof {
            reveal(Seq::filter);
            assert(before.open_upvalues@.take(0) =~= Seq::<ObjectId>::empty());
            assert(still_open@ =~= before.open_upvalues@.take(0).filter(keeps));
            assert(self.heap@.upvalues =~= with_closed(
                before.heap@,
                before.open_upvalues@.take(0),
                from as int,
                before.stack@,
            ).upvalues);
        }
        while i < self.open_upvalues.len()
            invariant
                before == *old(self),
                before.wf(),
                self.heap.wf(),
                *self == (Vm { heap: self.heap, ..before }),
                i <= self.open_upvalues@.len(),
                keeps == |id: ObjectId| open_below(before.heap@, id, from as int),
                still_open@ == before.open_upvalues@.take(i as int).filter(keeps),
                self.heap@ == with_closed(
                    before.heap@,
                    before.open_upvalues@.take(i as int),
                    from as int,
                    before.stack@,
                ),
                self.heap.stats() == before.heap.stats(),
                self.heap.same_room(&before.heap),
                forall|id: ObjectId| #[trigger]
                    self.heap.spec_young(id) == before.heap.spec_young(id),
                forall|id: ObjectId| #[trigger]
                    self.heap.spec_remembered(id) == (before.heap.spec_remembered(id) || (
                    before.open_upvalues@.take(i as int).contains(id) && open_from(
                        before.heap@,
                        id,
                        from as int,
                    ) && before.heap.crosses(
                        id,
                        at_or_null(before.stack@, before.heap@.upvalue(id)->0.spec_slot()),
                    ))),
            decreases self.open_upvalues@.len() - i,
        {
            let id = self.open_upvalues[i];
            let ghost earlier = before.open_upvalues@.take(i as int);
            let ghost sofar = before.open_upvalues@.take(i as int + 1);
            let ghost mid = self.heap;
            proof {
                assert(sofar =~= earlier.push(id));
                earlier.lemma_filter_push(id, keeps);
                crate::lists::lemma_pushed(earlier, id);
            }
            let slot: Option<usize> = match self.heap.upvalue(id) {
                Some(upvalue) => if upvalue.is_open() {
                    Some(upvalue.slot())
                } else {
                    None
                },
                None => None,
            };
            match slot {
                Some(slot) => {
                    if slot < from {
                        still_open.push(id);
                    } else {
                        let value: Value = if slot < self.stack.len() {
                            self.stack[slot]
                        } else {
                            Value::null()
                        };
                        match self.heap.upvalue_mut(id) {
                            Some(upvalue) => {
                                upvalue.closed = value;
                            },
                            None => {},
                        }
                        self.heap.wrote(id, value);
                    }
                },
                None => {},
            }
            proof {
                crate::handle::lemma_parts_determine(id);
                assert forall|index: u32| #[trigger] listed(sofar, index) <==> (listed(
                    earlier,
                    index,
                ) || (id.spec_tag() == ObjectType::Upvalue.spec_tag() && id.spec_index()
                    == index)) by {
                    if listed(earlier, index) {
                        let other = choose|other: ObjectId| #[trigger]
                            earlier.contains(other) && other.spec_tag()
                                == ObjectType::Upvalue.spec_tag() && other.spec_index() == index;
                        assert(sofar.contains(other));
                    }
                    assert(sofar.contains(id));
                }
                assert(self.heap@.upvalues =~= with_closed(
                    before.heap@,
                    sofar,
                    from as int,
                    before.stack@,
                ).upvalues);
            }
            i = i + 1;
        }
        proof {
            assert(before.open_upvalues@.take(i as int) =~= before.open_upvalues@);
        }
        self.open_upvalues = still_open;
    }

    /// The upvalue the running closure holds under an index, or why there is
    /// none.
    pub open spec fn spec_upvalue_of_current(&self, index: int) -> Result<ObjectId, Seq<char>> {
        if self.frames@.len() == 0 {
            Err("No frame."@)
        } else {
            match self.heap@.closure(self.frames@.last().closure) {
                None => Err("No closure."@),
                Some(closure) => if 0 <= index < closure.upvalues@.len() {
                    Ok(closure.upvalues@[index])
                } else {
                    Err("No such upvalue."@)
                },
            }
        }
    }

    /// The upvalue the running closure holds under an index.
    pub fn upvalue_of_current(&self, index: usize) -> (r: Result<ObjectId, RuntimeError>)
        requires
            self.wf(),
        ensures
            super::agrees(r, self.spec_upvalue_of_current(index as int)),
    {
        let depth: usize = self.frames.len();
        if depth == 0 {
            return Err(RuntimeError::new("No frame."));
        }
        match self.heap.closure(self.frames[depth - 1].closure) {
            None => Err(RuntimeError::new("No closure.")),
            Some(closure) => if index < closure.upvalues.len() {
                Ok(closure.upvalues[index])
            } else {
                Err(RuntimeError::new("No such upvalue."))
            },
        }
    }

    /// What the running closure's variable under an index holds, or why there
    /// is none.
    pub open spec fn spec_read_upvalue(&self, index: int) -> Result<Value, Seq<char>> {
        match self.spec_upvalue_of_current(index) {
            Err(message) => Err(message),
            Ok(id) => match self.heap@.upvalue(id) {
                None => Err("Not an upvalue."@),
                Some(upvalue) => if upvalue.spec_is_open() {
                    Ok(at_or_null(self.stack@, upvalue.spec_slot()))
                } else {
                    Ok(upvalue.closed)
                },
            },
        }
    }

    /// Read a captured variable: from the stack while it is open, from the
    /// upvalue once it is closed.
    pub fn read_upvalue(&self, slot: usize) -> (r: Result<Value, RuntimeError>)
        requires
            self.wf(),
        ensures
            super::agrees(r, self.spec_read_upvalue(slot as int)),
    {
        match self.upvalue_of_current(slot) {
            Err(error) => Err(error),
            Ok(id) => match self.heap.upvalue(id) {
                None => Err(RuntimeError::new("Not an upvalue.")),
                Some(upvalue) => if upvalue.is_open() {
                    let at: usize = upvalue.slot();
                    if at < self.stack.len() {
                        Ok(self.stack[at])
                    } else {
                        Ok(Value::null())
                    }
                } else {
                    Ok(upvalue.closed)
                },
            },
        }
    }

    /// Whether a machine is an earlier one with a captured variable written, or why
    /// not.
    pub open spec fn wrote_upvalue(&self, before: &Vm, slot: usize, value: Value, r: Result<(), RuntimeError>) -> bool {
        &&& match before.spec_upvalue_of_current(slot as int) {
            Err(message) => super::fails(r, message) && *self == *before,
            Ok(id) => match before.heap@.upvalue(id) {
                None => super::fails(r, "Not an upvalue."@) && *self == *before,
                Some(upvalue) => r is Ok && if upvalue.spec_is_open() {
                    &&& *self == (Vm { stack: self.stack, ..*before })
                    &&& self.stack@ == if upvalue.spec_slot() < before.stack@.len() {
                        before.stack@.update(upvalue.spec_slot(), value)
                    } else {
                        before.stack@
                    }
                } else {
                    &&& *self == (Vm { heap: self.heap, ..*before })
                    &&& self.heap@ == (HeapModel {
                        upvalues: before.heap@.upvalues.insert(
                            id.spec_index(),
                            ObjUpvalue { closed: value, ..upvalue },
                        ),
                        ..before.heap@
                    })
                    &&& self.heap.stats() == before.heap.stats()
                    &&& self.heap.same_room(&before.heap)
                    &&& self.heap.barrier_told(&before.heap, id, value)
                },
            },
        }
    }

    /// Write a captured variable: on the stack while it is open, in the
    /// upvalue once it is closed.
    pub fn write_upvalue(&mut self, slot: usize, value: Value) -> (r: Result<(), RuntimeError>)
        requires
            old(self).wf(),
        ensures
            final(self).wf(),
            final(self).wrote_upvalue(old(self), slot, value, r),
    {
        let id = match self.upvalue_of_current(slot) {
            Err(error) => {
                return Err(error);
            },
            Ok(id) => id,
        };
        let target: Option<usize> = match self.heap.upvalue(id) {
            None => {
                return Err(RuntimeError::new("Not an upvalue."));
            },
            Some(upvalue) => if upvalue.is_open() {
                Some(upvalue.slot())
            } else {
                None
            },
        };
        match target {
            Some(at) => {
                if at < self.stack.len() {
                    self.stack.set(at, value);
                }
            },
            None => {
                match self.heap.upvalue_mut(id) {
                    Some(upvalue) => {
                        upvalue.closed = value;
                    },
                    None => {},
                }
                self.heap.wrote(id, value);
            },
        }
        Ok(())
    }
}

/// A captured variable reads as what was written to it last, whether it is
/// still on the stack or already closed.
pub proof fn law_written_upvalue_is_read_back(before: Vm, after: Vm, slot: int, value: Value)
    requires
        before.spec_read_upvalue(slot) is Ok,
        value != Value::undefined(),
        after.frames == before.frames,
        ({
            let id = before.spec_upvalue_of_current(slot)->Ok_0;
            let upvalue = before.heap@.upvalue(id)->0;
            if upvalue.spec_is_open() {
                &&& upvalue.spec_slot() < before.stack@.len()
                &&& after.heap == before.heap
                &&& after.stack@ == before.stack@.update(upvalue.spec_slot(), value)
            } else {
                &&& after.stack == before.stack
                &&& after.heap@ == (HeapModel {
                    upvalues: before.heap@.upvalues.insert(
                        id.spec_index(),
                        ObjUpvalue { closed: value, ..upvalue },
                    ),
                    ..before.heap@
                })
            }
        }),
    ensures
        after.spec_read_upvalue(slot) == Ok::<Value, Seq<char>>(value),
{
}

/// Closing a variable does not change what a closure reads of it.
pub proof fn law_closing_keeps_the_value(before: Vm, after: Vm, slot: int, limit: int)
    requires
        before.spec_read_upvalue(slot) is Ok,
        before.spec_read_upvalue(slot)->Ok_0 != Value::undefined(),
        after.frames == before.frames,
        after.stack == before.stack,
        after.heap@ == with_closed(before.heap@, before.open_upvalues@, limit, before.stack@),
    ensures
        after.spec_read_upvalue(slot) == before.spec_read_upvalue(slot),
{
    let id = before.spec_upvalue_of_current(slot)->Ok_0;
    assert(after.heap@.upvalues.contains_key(id.spec_index()));
}

} // verus!
