//! The knobs a host sets, and the tallies it reads.

use vstd::arithmetic::power2::*;
use vstd::prelude::*;

use super::{Heap, HeapStats, MIN_HEADROOM};
use crate::fields::MAX_CHUNKS;
use crate::handle::ObjectId;
use crate::table::MAX_SLOT_BLOCK;

verus! {

/// How many objects there were, how many are left, and what they hold.
#[derive(Clone, Copy, Debug)]
pub struct Collection {
    /// Objects alive before the sweep.
    pub before: usize,
    /// Objects alive after it.
    pub after: usize,
    /// Estimated bytes alive after it.
    pub bytes_after: usize,
}

impl Collection {
    /// How many objects were freed.
    pub fn freed(&self) -> (n: usize)
        requires
            self.after <= self.before,
        ensures
            n == self.before - self.after,
    {
        self.before - self.after
    }
}

/// A size that a block of slots may have.
pub open spec fn block_allowed(slots: int) -> bool {
    exists|shift: nat| shift <= 12 && slots == #[trigger] pow2(shift)
}

/// The powers of two that a block may be.
proof fn lemma_block_sizes()
    ensures
        pow2(0) == 1,
        pow2(12) == 4096,
        forall|shift: nat| #[trigger] pow2(shift + 1) == 2 * pow2(shift),
{
    lemma2_to64();
    assert forall|shift: nat| #[trigger] pow2(shift + 1) == 2 * pow2(shift) by {
        lemma_pow2_unfold(shift + 1);
    }
}

/// A headroom raised to the least there may be: with none at all, every
/// allocation would set off a collection.
pub open spec fn allowed_headroom(bytes: usize) -> usize {
    if bytes < MIN_HEADROOM {
        MIN_HEADROOM
    } else {
        bytes
    }
}

impl Heap {
    /// Whether nothing has ever been allocated. Once something has, this does
    /// not come back, though everything be freed.
    pub open spec fn untouched(&self) -> bool {
        !self.stats().touched
    }

    /// How many slots a block holds.
    pub open spec fn spec_slot_block(&self) -> int {
        self.stats().slot_block as int
    }

    /// Choose how much the live set may grow before collecting again.
    ///
    /// A denominator of zero, or a factor of one or less, would mean collecting
    /// forever, so both are raised.
    pub fn set_growth(&mut self, numerator: usize, denominator: usize)
        requires
            old(self).wf(),
            denominator < usize::MAX,
        ensures
            final(self).wf(),
            final(self)@ == old(self)@,
            final(self).same_generations(old(self)),
            final(self).same_room(old(self)),
            ({
                let den: usize = if denominator == 0 { 1 } else { denominator };
                let num: usize = if numerator <= den { (den + 1) as usize } else { numerator };
                final(self).stats() == (HeapStats { growth: (num, den), ..old(self).stats() })
            }),
    {
        let ghost before = *self;
        let den: usize = if denominator < 1 { 1 } else { denominator };
        let num: usize = if numerator < den + 1 { den + 1 } else { numerator };
        self.growth = (num, den);
        proof {
            Heap::lemma_same_contents(&before, self);
        }
    }

    /// Collect once the live set has grown by this many bytes, rather than by
    /// a multiple of itself. `None` restores the multiple, from the next
    /// collection on.
    pub fn set_headroom(&mut self, bytes: Option<usize>)
        requires
            old(self).wf(),
        ensures
            final(self).wf(),
            final(self)@ == old(self)@,
            final(self).same_generations(old(self)),
            final(self).same_room(old(self)),
            final(self).stats() == match bytes {
                Some(n) => (HeapStats {
                    headroom: Some(allowed_headroom(n)),
                    threshold: crate::memory::capped(
                        old(self).stats().bytes as nat + allowed_headroom(n) as nat,
                    ) as usize,
                    ..old(self).stats()
                }),
                None => (HeapStats { headroom: None, ..old(self).stats() }),
            },
    {
        let ghost before = *self;
        match bytes {
            Some(n) => {
                let ceiling: usize = if n < MIN_HEADROOM {
                    MIN_HEADROOM
                } else {
                    n
                };
                self.headroom = Some(ceiling);
                self.threshold = self.bytes.saturating_add(ceiling);
            },
            None => {
                self.headroom = None;
            },
        }
        self.refresh_due();
        proof {
            Heap::lemma_same_contents(&before, self);
        }
    }

    /// The ceiling on floating garbage, if one is set.
    pub fn headroom(&self) -> (r: Option<usize>)
        ensures
            r == self.stats().headroom,
    {
        self.headroom
    }

    /// Choose how many slots one block of a table holds.
    ///
    /// Only a power of two will do, and only before anything is allocated. Says
    /// whether it took.
    pub fn set_slot_block(&mut self, slots: usize) -> (r: bool)
        requires
            old(self).wf(),
        ensures
            final(self).wf(),
            r == (block_allowed(slots as int) && old(self).untouched()),
            final(self).stats() == (HeapStats {
                slot_block: if r {
                    slots
                } else {
                    old(self).stats().slot_block
                },
                ..old(self).stats()
            }),
            !r ==> *final(self) == *old(self),
            final(self)@ == old(self)@,
            final(self).same_generations(old(self)),
            final(self).same_room(old(self)),
    {
        let ghost before = *self;
        proof {
            lemma_block_sizes();
        }
        let mut shift: usize = 0;
        let mut size: usize = 1;
        while shift < 12 && size != slots
            invariant
                shift <= 12,
                size == pow2(shift as nat),
                1 <= size <= 4096,
                pow2(0) == 1,
                pow2(12) == 4096,
                forall|k: nat| #[trigger] pow2(k + 1) == 2 * pow2(k),
                forall|k: nat| k < shift ==> #[trigger] pow2(k) != slots,
            decreases 12 - shift,
        {
            proof {
                assert(pow2(shift as nat + 1) == 2 * pow2(shift as nat));
                lemma_pow2_strictly_increases(shift as nat, 12);
                if shift < 11 {
                    lemma_pow2_strictly_increases(shift as nat + 1, 12);
                }
            }
            size = size * 2;
            shift = shift + 1;
        }
        if size != slots {
            return false;
        }
        proof {
            assert(block_allowed(slots as int));
        }
        if self.touched {
            return false;
        }
        self.classes.set_shift(shift);
        self.closures.set_shift(shift);
        self.functions.set_shift(shift);
        self.instances.set_shift(shift);
        self.lists.set_shift(shift);
        self.maps.set_shift(shift);
        self.ranges.set_shift(shift);
        self.strings.set_shift(shift);
        self.upvalues.set_shift(shift);
        self.fibers.set_shift(shift);
        proof {
            assert(self.instance_model() =~= before.instance_model());
        }
        true
    }

    /// How many slots one block holds.
    pub fn slot_block(&self) -> (r: Option<usize>)
        requires
            self.wf(),
        ensures
            r matches Some(n) && n == self.spec_slot_block(),
    {
        Some(self.classes.block())
    }

    /// The growth factor in force, as a fraction.
    pub fn growth(&self) -> (r: (usize, usize))
        ensures
            r == self.stats().growth,
    {
        self.growth
    }

    /// Where the next collection is due, in estimated live bytes.
    pub fn threshold(&self) -> (r: usize)
        ensures
            r == self.stats().threshold,
    {
        self.threshold
    }

    /// Whether a collection is due, as last worked out.
    pub fn collection_due(&self) -> (r: bool)
        requires
            self.wf(),
        ensures
            r == self.stats().wants_collection(),
    {
        self.due
    }

    /// Suspend collection while a construction of several steps is in flight.
    pub fn pause(&mut self)
        requires
            old(self).wf(),
        ensures
            final(self).wf(),
            final(self)@ == old(self)@,
            final(self).same_generations(old(self)),
            final(self).same_room(old(self)),
            final(self).stats() == (HeapStats { paused: true, ..old(self).stats() }),
    {
        let ghost before = *self;
        self.paused = true;
        self.refresh_due();
        proof {
            Heap::lemma_same_contents(&before, self);
        }
    }

    /// Let collections happen again.
    pub fn resume(&mut self)
        requires
            old(self).wf(),
        ensures
            final(self).wf(),
            final(self)@ == old(self)@,
            final(self).same_generations(old(self)),
            final(self).same_room(old(self)),
            final(self).stats() == (HeapStats { paused: false, ..old(self).stats() }),
    {
        let ghost before = *self;
        self.paused = false;
        self.refresh_due();
        proof {
            Heap::lemma_same_contents(&before, self);
        }
    }

    /// Whether objects start out in a young generation.
    pub fn nursery() -> (r: bool)
        ensures
            r,
    {
        true
    }

    /// How many objects are alive.
    pub fn live(&self) -> (n: usize)
        ensures
            n == self.stats().live,
    {
        self.live
    }

    /// Roughly how many bytes the live objects hold.
    pub fn bytes(&self) -> (n: usize)
        ensures
            n == self.stats().bytes,
    {
        self.bytes
    }

    /// The most bytes there have ever been.
    pub fn peak_bytes(&self) -> (n: usize)
        ensures
            n == self.stats().peak,
    {
        self.peak
    }

    /// How many full collections have run.
    pub fn collections(&self) -> (n: usize)
        ensures
            n == self.stats().collections,
    {
        self.collections
    }

    /// Whether `n` more objects of any type fit, fields and all.
    pub fn fits_more(&self, n: usize) -> (r: bool)
        requires
            self.wf(),
            n <= MAX_SLOT_BLOCK,
        ensures
            r == self.has_room(n as int),
    {
        self.fits_objects(n) && self.arena.chunks.len() + n <= crate::fields::MAX_CHUNKS
    }

    /// Whether `n` more objects of any type have handles.
    pub fn fits_objects(&self, n: usize) -> (r: bool)
        requires
            self.wf(),
            n <= MAX_SLOT_BLOCK,
        ensures
            r == self.has_slots(n as int),
    {
        self.classes.has_room_for(n) && self.closures.has_room_for(n) && self.functions.has_room_for(n) && self.instances.has_room_for(n) && self.lists.has_room_for(n) && self.maps.has_room_for(n) && self.ranges.has_room_for(n) && self.strings.has_room_for(n) && self.upvalues.has_room_for(n) && self.fibers.has_room_for(n)
    }

}

impl Default for Heap {
    fn default() -> (heap: Heap)
        ensures
            heap.wf(),
            forall|id: ObjectId| !(#[trigger] heap@.has(id)),
            forall|id: ObjectId| !(#[trigger] heap.spec_young(id)),
            forall|id: ObjectId| !(#[trigger] heap.spec_remembered(id)),
            heap.stats() == super::fresh_stats(),
            heap.has_room(MAX_CHUNKS as int),
    {
        Heap::new()
    }
}

} // verus!
