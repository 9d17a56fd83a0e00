//! What keeps an object alive, and when the collector runs.

use vstd::prelude::*;

use super::{Frame, Module, Vm, NURSERY_OBJECTS};
use crate::handle::ObjectId;
use crate::object::gray_values;
use crate::value::Value;

verus! {

/// The values of a run of modules, in order.
pub open spec fn module_values(modules: Seq<Module>) -> Seq<Value>
    decreases modules.len(),
{
    if modules.len() == 0 {
        Seq::empty()
    } else {
        module_values(modules.drop_last()) + modules.last().values@
    }
}

/// The frames once where the running one got to is written down.
pub open spec fn noted(frames: Seq<Frame>, ip: usize) -> Seq<Frame> {
    if frames.len() == 0 {
        frames
    } else {
        frames.update(frames.len() - 1, Frame { ip, ..frames.last() })
    }
}

/// Add values to a list.
fn push_values(values: &Vec<Value>, list: &mut Vec<Value>)
    ensures
        final(list)@ == old(list)@ + values@,
{
    let ghost before = list@;
    let mut i: usize = 0;
    while i < values.len()
        invariant
            i <= values@.len(),
            list@ == before + values@.take(i as int),
        decreases values@.len() - i,
    {
        list.push(values[i]);
        proof {
            assert(list@ =~= before + values@.take(i as int + 1));
        }
        i = i + 1;
    }
    proof {
        assert(values@.take(i as int) =~= values@);
    }
}

impl Vm {
    /// Everything the machine holds: the stack, the modules' variables, the
    /// closures that run, the open upvalues, the running fiber, and the core
    /// classes.
    pub open spec fn spec_roots(&self) -> Seq<Value> {
        self.stack@ + module_values(self.modules@) + self.frames@.map_values(
            |frame: Frame| Value::object(frame.closure),
        ) + self.open_upvalues@.map_values(|id: ObjectId| Value::object(id)) + (
        match self.current_fiber {
            Some(id) => seq![Value::object(id)],
            None => Seq::empty(),
        }) + self.class_roots()
    }

    /// Everything the machine holds.
    pub fn roots(&self) -> (roots: Vec<Value>)
        ensures
            roots@ == self.spec_roots(),
    {
        let mut roots: Vec<Value> = Vec::new();
        push_values(&self.stack, &mut roots);
        proof {
            assert(roots@ =~= self.stack@);
        }
        let ghost so_far = roots@;
        let mut i: usize = 0;
        proof {
            assert(self.modules@.take(0) =~= Seq::<Module>::empty());
            assert(so_far + module_values(self.modules@.take(0)) =~= so_far);
        }
        while i < self.modules.len()
            invariant
                i <= self.modules@.len(),
                roots@ == so_far + module_values(self.modules@.take(i as int)),
            decreases self.modules@.len() - i,
        {
            push_values(&self.modules[i].values, &mut roots);
            proof {
                let upto = self.modules@.take(i as int + 1);
                assert(upto.drop_last() =~= self.modules@.take(i as int));
                assert(roots@ =~= so_far + module_values(upto));
            }
            i = i + 1;
        }
        proof {
            assert(self.modules@.take(i as int) =~= self.modules@);
        }
        let ghost so_far = roots@;
        let ghost closures = self.frames@.map_values(|frame: Frame| Value::object(frame.closure));
        let mut j: usize = 0;
        while j < self.frames.len()
            invariant
                j <= self.frames@.len(),
                closures == self.frames@.map_values(|frame: Frame| Value::object(frame.closure)),
                roots@ == so_far + closures.take(j as int),
            decreases self.frames@.len() - j,
        {
            roots.push(Value::object(self.frames[j].closure));
            proof {
                assert(roots@ =~= so_far + closures.take(j as int + 1));
            }
            j = j + 1;
        }
        proof {
            assert(closures.take(j as int) =~= closures);
        }
        let ghost so_far = roots@;
        let ghost upvalues = self.open_upvalues@.map_values(|id: ObjectId| Value::object(id));
        let mut k: usize = 0;
        while k < self.open_upvalues.len()
            invariant
                k <= self.open_upvalues@.len(),
                upvalues == self.open_upvalues@.map_values(|id: ObjectId| Value::object(id)),
                roots@ == so_far + upvalues.take(k as int),
            decreases self.open_upvalues@.len() - k,
        {
            roots.push(Value::object(self.open_upvalues[k]));
            proof {
                assert(roots@ =~= so_far + upvalues.take(k as int + 1));
            }
            k = k + 1;
        }
        proof {
            assert(upvalues.take(k as int) =~= upvalues);
        }
        let ghost so_far = roots@;
        match self.current_fiber {
            Some(id) => {
                roots.push(Value::object(id));
                proof {
                    assert(roots@ =~= so_far + seq![Value::object(id)]);
                }
            },
            None => {
                proof {
                    assert(roots@ =~= so_far + Seq::<Value>::empty());
                }
            },
        }
        self.push_class_roots(&mut roots);
        roots
    }

    /// What the machine holds, as handles.
    pub open spec fn root_handles(&self) -> Seq<ObjectId> {
        crate::object::values_refs(self.spec_roots())
    }

    /// The class of classes is among what the machine holds.
    proof fn lemma_class_rooted(&self)
        ensures
            self.root_handles().contains(self.class_class),
    {
        broadcast use crate::value::law_object_round_trip;

        let roots = self.spec_roots();
        let at = roots.len() - self.class_roots().len() + 7;
        assert(roots[at] == self.class_roots()[7]);
        assert(roots[at].spec_as_object() == Some(self.class_class));
        crate::heap::laws::lemma_values_refs(roots, self.class_class);
    }

    /// Free every object that nothing the machine holds leads to.
    pub fn collect_garbage(&mut self)
        requires
            old(self).wf(),
        ensures
            final(self).wf(),
            *final(self) == (Vm { heap: final(self).heap, ..*old(self) }),
            final(self).heap@.swept(
                old(self).heap@,
                old(self).heap@.kept_by(old(self).spec_roots()),
            ),
            final(self).heap.stats().bytes >= crate::memory::capped(
                final(self).heap.least_bytes(),
            ),
            crate::heap::collector::settled(final(self).heap.stats(), old(self).heap.stats()),
            final(self).heap.traced(&old(self).heap, old(self).spec_roots()),
            forall|id: ObjectId| !(#[trigger] final(self).heap.spec_young(id)),
            forall|id: ObjectId| !(#[trigger] final(self).heap.spec_remembered(id)),
            forall|n: int| #[trigger]
                old(self).heap.has_slots(n) ==> final(self).heap.has_slots(n),
            final(self).heap.chunks() <= old(self).heap.chunks(),
    {
        let roots: Vec<Value> = self.roots();
        let ghost before = *self;
        self.heap.collect(&roots);
        proof {
            before.lemma_class_rooted();
            let start = crate::heap::graph::handles(before.root_handles());
            before.heap@.lemma_root_reached(before.heap@.ids(), start, before.class_class);
            assert(self.heap@.has(before.class_class));
        }
    }

    /// Free every young object that nothing the machine holds, and nothing old
    /// that was written to, leads to.
    pub fn collect_young(&mut self)
        requires
            old(self).wf(),
        ensures
            final(self).wf(),
            *final(self) == (Vm { heap: final(self).heap, ..*old(self) }),
            final(self).heap@.restricted(
                old(self).heap@,
                old(self).heap.kept_young(old(self).root_handles()),
            ),
            final(self).heap.least_bytes() <= old(self).heap.least_bytes(),
            final(self).heap.stats().bytes == 0 || final(self).heap.stats().bytes
                + crate::memory::capped(
                (old(self).heap.least_bytes() - final(self).heap.least_bytes()) as nat,
            ) <= old(self).heap.stats().bytes,
            crate::heap::collector::settled_young(
                final(self).heap.stats(),
                old(self).heap.stats(),
            ),
            final(self).heap.traced_young(&old(self).heap, old(self).root_handles()),
            forall|id: ObjectId| !(#[trigger] final(self).heap.spec_young(id)),
            forall|id: ObjectId| !(#[trigger] final(self).heap.spec_remembered(id)),
            forall|n: int| #[trigger]
                old(self).heap.has_slots(n) ==> final(self).heap.has_slots(n),
            final(self).heap.chunks() == old(self).heap.chunks(),
    {
        let roots: Vec<Value> = self.roots();
        let ghost before = *self;
        let mut handles: Vec<ObjectId> = Vec::new();
        gray_values(&roots, &mut handles);
        proof {
            assert(handles@ =~= before.root_handles());
        }
        self.heap.collect_minor(&handles);
        proof {
            before.lemma_class_rooted();
            before.heap.lemma_root_kept(before.root_handles(), before.class_class);
            assert(self.heap@.has(before.class_class));
        }
    }

    /// Write down where the running frame got to.
    fn note_ip(&mut self, ip: usize)
        ensures
            *final(self) == (Vm { frames: final(self).frames, ..*old(self) }),
            final(self).frames@ == noted(old(self).frames@, ip),
    {
        let ghost before = *self;
        match self.frames.pop() {
            Some(top) => {
                self.frames.push(
                    Frame {
                        closure: top.closure,
                        ip,
                        base: top.base,
                        chunk: top.chunk,
                        module: top.module,
                        field_offset: top.field_offset,
                    },
                );
                proof {
                    assert(self.frames@ =~= noted(before.frames@, ip));
                }
            },
            None => {},
        }
    }

    /// Whether a machine is an earlier one that collected if it was time to.
    pub open spec fn collected_at(&self, before: &Vm, ip: usize) -> bool {
        &&& *self == (Vm {
            heap: self.heap,
            frames: self.frames,
            ..*before
        })
        &&& if before.heap.stats().young_total >= NURSERY_OBJECTS {
            &&& self.frames@ == noted(before.frames@, ip)
            &&& self.heap@.restricted(
                before.heap@,
                before.heap.kept_young(before.root_handles()),
            )
            &&& crate::heap::collector::settled_young(self.heap.stats(), before.heap.stats())
            &&& self.heap.traced_young(&before.heap, before.root_handles())
        } else if before.heap.stats().wants_collection() {
            &&& self.frames@ == noted(before.frames@, ip)
            &&& self.heap@.swept(
                before.heap@,
                before.heap@.kept_by(before.spec_roots()),
            )
            &&& crate::heap::collector::settled(self.heap.stats(), before.heap.stats())
            &&& self.heap.traced(&before.heap, before.spec_roots())
        } else {
            *self == *before
        }
        &&& forall|n: int| #[trigger]
            before.heap.has_slots(n) ==> self.heap.has_slots(n)
        &&& self.heap.chunks() <= before.heap.chunks()
    }

    /// Collect if it is time to: the young objects once there are enough of
    /// them, everything once the old ones have grown enough.
    pub fn collect_point(&mut self, ip: usize)
        requires
            old(self).wf(),
        ensures
            final(self).wf(),
            final(self).collected_at(old(self), ip),
    {
        let ghost before = *self;
        if self.heap.young() >= NURSERY_OBJECTS {
            self.note_ip(ip);
            proof {
                lemma_noted_roots(before, *self, ip);
            }
            self.collect_young();
        } else if self.heap.collection_due() {
            self.note_ip(ip);
            proof {
                lemma_noted_roots(before, *self, ip);
            }
            self.collect_garbage();
        }
    }
}

/// Writing down where a frame got to changes nothing that is held.
proof fn lemma_noted_roots(before: Vm, after: Vm, ip: usize)
    requires
        after == (Vm { frames: after.frames, ..before }),
        after.frames@ == noted(before.frames@, ip),
    ensures
        after.spec_roots() == before.spec_roots(),
{
    assert(after.frames@.map_values(|frame: Frame| Value::object(frame.closure))
        =~= before.frames@.map_values(|frame: Frame| Value::object(frame.closure)));
}

/// Where a machine collects if it is time to, it never goes on with a full
/// nursery: what floats between two collections of the young objects is
/// bounded.
pub proof fn law_nursery_is_bounded(before: &Vm, after: &Vm, ip: usize)
    requires
        after.collected_at(before, ip),
    ensures
        after.heap.stats().young_total < NURSERY_OBJECTS,
{
}

/// Collecting everything frees nothing the machine holds, whatever it was
/// doing.
pub proof fn law_collection_keeps_what_is_held(before: Vm, after: Vm, root: int, id: ObjectId)
    requires
        0 <= root < before.spec_roots().len(),
        before.spec_roots()[root].spec_as_object() == Some(id),
        before.heap@.has(id),
        after.heap@.swept(before.heap@, before.heap@.kept_by(before.spec_roots())),
    ensures
        after.heap@.has(id),
{
    crate::heap::laws::lemma_values_refs(before.spec_roots(), id);
    let start = crate::heap::graph::handles(before.root_handles());
    before.heap@.lemma_root_reached(before.heap@.ids(), start, id);
}

/// Collecting the young objects frees nothing that can be reached, so long as
/// every store told the barrier.
pub proof fn law_young_collection_keeps_reachable(before: Vm, after: Vm, id: ObjectId)
    requires
        before.heap.barrier_kept(),
        before.heap@.reachable(crate::heap::graph::handles(before.root_handles()), id),
        after.heap@.restricted(
            before.heap@,
            before.heap.kept_young(before.root_handles()),
        ),
    ensures
        after.heap@.has(id),
{
    crate::heap::laws::law_minor_keeps_reachable(&before.heap, before.root_handles(), id);
}

/// What the variables of modules hold is among them.
proof fn lemma_module_values(modules: Seq<Module>, module: int, i: int)
    requires
        0 <= module < modules.len(),
        0 <= i < modules[module].values@.len(),
    ensures
        exists|k: int|
            0 <= k < module_values(modules).len() && #[trigger] module_values(modules)[k]
                == modules[module].values@[i],
    decreases modules.len(),
{
    let earlier = module_values(modules.drop_last());
    let last = modules.last().values@;
    if module < modules.len() - 1 {
        lemma_module_values(modules.drop_last(), module, i);
        let k = choose|k: int|
            0 <= k < earlier.len() && #[trigger] earlier[k] == modules.drop_last()[module].values@[i];
        assert(module_values(modules)[k] == modules[module].values@[i]);
    } else {
        assert(module_values(modules)[earlier.len() + i] == last[i]);
    }
}

/// Whether a handle is held by one of the places that running reads: the stack,
/// a variable of a module, a call in progress, a captured variable that is
/// open, the running fiber, or what the machine knows as the class of a value.
pub open spec fn held_by(vm: Vm, id: ObjectId, place: int, module: int) -> bool {
    ||| 0 <= place < vm.stack@.len() && vm.stack@[place].spec_as_object() == Some(id)
    ||| 0 <= module < vm.modules@.len() && 0 <= place < vm.modules@[module].values@.len()
        && vm.modules@[module].values@[place].spec_as_object() == Some(id)
    ||| 0 <= place < vm.frames@.len() && vm.frames@[place].closure == id
    ||| 0 <= place < vm.open_upvalues@.len() && vm.open_upvalues@[place] == id
    ||| vm.current_fiber == Some(id)
    ||| id == vm.num_class || id == vm.bool_class || id == vm.null_class || id == vm.string_class
    ||| id == vm.list_class || id == vm.map_class || id == vm.range_class || id == vm.class_class
    ||| id == vm.object_class || id == vm.fn_class || id == vm.fiber_class
    ||| id == vm.map_entry_class || id == vm.sequence_class
}

/// A collection frees nothing that the machine holds.
pub proof fn law_collection_keeps_what_running_reads(
    before: Vm,
    after: Vm,
    id: ObjectId,
    place: int,
    module: int,
)
    requires
        held_by(before, id, place, module),
        before.heap@.has(id),
        after.heap@.swept(before.heap@, before.heap@.kept_by(before.spec_roots())),
    ensures
        after.heap@.has(id),
{
    broadcast use crate::value::law_object_round_trip;

    let stack = before.stack@;
    let variables = module_values(before.modules@);
    let frames = before.frames@.map_values(|frame: Frame| Value::object(frame.closure));
    let open = before.open_upvalues@.map_values(|id: ObjectId| Value::object(id));
    let fiber = match before.current_fiber {
        Some(id) => seq![Value::object(id)],
        None => Seq::empty(),
    };
    let classes = before.class_roots();
    let roots = before.spec_roots();
    assert(roots == stack + variables + frames + open + fiber + classes);
    let at = if 0 <= place < stack.len() && stack[place].spec_as_object() == Some(id) {
        place
    } else if 0 <= module < before.modules@.len() && 0 <= place
        < before.modules@[module].values@.len()
        && before.modules@[module].values@[place].spec_as_object() == Some(id) {
        lemma_module_values(before.modules@, module, place);
        let k = choose|k: int|
            0 <= k < variables.len() && #[trigger] variables[k]
                == before.modules@[module].values@[place];
        stack.len() + k
    } else if 0 <= place < frames.len() && before.frames@[place].closure == id {
        assert(frames[place] == Value::object(id));
        stack.len() + variables.len() + place
    } else if 0 <= place < open.len() && before.open_upvalues@[place] == id {
        assert(open[place] == Value::object(id));
        stack.len() + variables.len() + frames.len() + place
    } else if before.current_fiber == Some(id) {
        assert(fiber[0] == Value::object(id));
        (stack.len() + variables.len() + frames.len() + open.len()) as int
    } else {
        let k = choose|k: int| 0 <= k < classes.len() && #[trigger] classes[k] == Value::object(id);
        assert(classes[0] == Value::object(before.num_class));
        assert(classes[1] == Value::object(before.bool_class));
        assert(classes[2] == Value::object(before.null_class));
        assert(classes[3] == Value::object(before.string_class));
        assert(classes[4] == Value::object(before.list_class));
        assert(classes[5] == Value::object(before.map_class));
        assert(classes[6] == Value::object(before.range_class));
        assert(classes[7] == Value::object(before.class_class));
        assert(classes[8] == Value::object(before.object_class));
        assert(classes[9] == Value::object(before.fn_class));
        assert(classes[10] == Value::object(before.map_entry_class));
        assert(classes[11] == Value::object(before.fiber_class));
        assert(classes[13] == Value::object(before.sequence_class));
        stack.len() + variables.len() + frames.len() + open.len() + fiber.len() + k
    };
    assert(roots[at].spec_as_object() == Some(id));
    law_collection_keeps_what_is_held(before, after, at, id);
}

} // verus!
