//! One type's objects: its slots, its free list and its mark bits.
//!
//! Slots come in blocks. A block is handed back once everything in it is free,
//! and made again when an allocation reuses one of its slots; the slots keep
//! their numbers throughout.

use vstd::arithmetic::div_mod::*;
use vstd::arithmetic::mul::*;
use vstd::arithmetic::power2::*;
use vstd::bits::*;
use vstd::prelude::*;
use vstd::set_lib::*;

use crate::bitmap::{Bitmap, Members};
use crate::handle::ObjectId;
use crate::memory::{reserved, rooms_of, sized, summed};
use crate::object::Trace;

verus! {

/// How many slots one block of a table holds, by default.
pub const SLOT_BLOCK: usize = 16;

/// The largest block a caller may ask for.
pub const MAX_SLOT_BLOCK: usize = 4096;

/// How many slots a table can number: a handle keeps twenty-eight bits for it.
pub const MAX_SLOTS: usize = 0x1000_0000;

/// One type's objects.
pub struct Table<T> {
    /// Slots, in blocks. An empty vector is a block that has been given back.
    blocks: Vec<Vec<Option<T>>>,
    /// The block size, as a shift.
    shift: usize,
    /// How many slots the table numbers, blocks that are gone among them.
    addressed: usize,
    /// Slots that hold nothing, newest last.
    free: Vec<u32>,
    /// One bit per slot, cleared at the start of each mark phase.
    marks: Bitmap,
    /// Slots holding an object that has not yet survived a collection.
    young: Members,
    /// Old slots that have had a young reference stored into them.
    remembered: Members,
}

/// Whether a block holds an object.
pub open spec fn in_use<T>(block: Seq<Option<T>>) -> bool {
    exists|k: int| 0 <= k < block.len() && (#[trigger] block[k]) is Some
}

/// The slots of a list that are below a limit, in the order they are listed in.
pub open spec fn slots_below(list: Seq<u32>, limit: int) -> Seq<u32>
    decreases list.len(),
{
    if list.len() == 0 {
        list
    } else {
        let earlier = slots_below(list.drop_last(), limit);
        if list.last() < limit {
            earlier.push(list.last())
        } else {
            earlier
        }
    }
}

/// Where every slot is below the limit, the list is as it was.
proof fn lemma_all_below(list: Seq<u32>, limit: int)
    requires
        forall|k: int| 0 <= k < list.len() ==> (#[trigger] list[k]) < limit,
    ensures
        slots_below(list, limit) == list,
    decreases list.len(),
{
    if list.len() > 0 {
        let earlier = list.drop_last();
        assert forall|k: int| 0 <= k < earlier.len() implies (#[trigger] earlier[k]) < limit by {
            assert(earlier[k] == list[k]);
        }
        lemma_all_below(earlier, limit);
        assert(earlier.push(list.last()) =~= list);
    }
}

/// Nothing is gained or lost by splitting an index into block and offset.
proof fn lemma_split(index: int, size: int)
    requires
        0 <= index,
        0 < size,
    ensures
        0 <= index % size < size,
        0 <= index / size,
        index == size * (index / size) + index % size,
{
    lemma_fundamental_div_mod(index, size);
    lemma_mod_bound(index, size);
    lemma_div_pos_is_pos(index, size);
}

/// An index is in the block its quotient names, and in no other.
proof fn lemma_same_place(a: int, b: int, size: int)
    requires
        0 <= a,
        0 <= b,
        0 < size,
        a / size == b / size,
        a % size == b % size,
    ensures
        a == b,
{
    lemma_split(a, size);
    lemma_split(b, size);
}

impl<T> Table<T> {
    /// How many slots one block holds.
    pub closed spec fn block_size(&self) -> int {
        pow2(self.shift as nat) as int
    }

    /// What slot `index` holds; `None` where the block is not here.
    pub closed spec fn slot_at(&self, index: int) -> Option<T> {
        let block = index / self.block_size();
        if 0 <= index && block < self.blocks@.len() && self.blocks@[block]@.len() > 0 {
            self.blocks@[block]@[index % self.block_size()]
        } else {
            None
        }
    }

    /// How many slots the table numbers.
    pub closed spec fn numbered(&self) -> nat {
        self.addressed as nat
    }

    /// How many slots hold an object.
    pub closed spec fn count(&self) -> int {
        self.addressed - self.free@.len()
    }

    /// The free slots, the one freed last at the end.
    pub closed spec fn free_list(&self) -> Seq<u32> {
        self.free@
    }

    /// Whether an object is in the block that the last numbered slot is in.
    pub open spec fn last_block_in_use(&self) -> bool {
        exists|i: u32| #[trigger]
            self@.contains_key(i) && i as int / self.block_size() == (self.numbered() - 1)
                / self.block_size()
    }

    /// How many numbered slots are free.
    pub closed spec fn vacant(&self) -> nat {
        self.free@.len()
    }

    /// The slot the next allocation takes: the one freed last, or a new one.
    pub closed spec fn next_slot(&self) -> u32 {
        if self.free@.len() > 0 {
            self.free@.last()
        } else {
            self.addressed as u32
        }
    }

    /// How many more objects the table can take before it runs out of numbers.
    pub closed spec fn room(&self) -> int {
        MAX_SLOTS - self.addressed + self.free@.len()
    }

    /// Whether a slot is marked.
    pub closed spec fn marked(&self, index: u32) -> bool {
        self.marks.has(index as int)
    }

    /// Whether a slot is in the young generation.
    pub closed spec fn young_has(&self, index: u32) -> bool {
        self.young.has(index)
    }

    /// The young slots, oldest first.
    pub closed spec fn young_list(&self) -> Seq<u32> {
        self.young.listed()
    }

    /// Whether a slot is remembered as pointing at something young.
    pub closed spec fn remembered_has(&self, index: u32) -> bool {
        self.remembered.has(index)
    }

    /// The remembered slots, in the order they were recorded.
    pub closed spec fn remembered_list(&self) -> Seq<u32> {
        self.remembered.listed()
    }

    /// The objects, by slot.
    pub open spec fn view(&self) -> Map<u32, T> {
        Map::new(|index: u32| self.slot_at(index as int) is Some, |index: u32|
            self.slot_at(index as int)->0)
    }

    /// The blocks cover the numbered slots, and every block is whole or gone.
    closed spec fn blocks_wf(&self) -> bool {
        &&& self.shift <= 12
        &&& self.addressed <= MAX_SLOTS
        &&& forall|b: int|
            0 <= b < self.blocks@.len() ==> (#[trigger] self.blocks@[b])@.len() == 0
                || self.blocks@[b]@.len() == self.block_size()
        &&& forall|i: int|
            0 <= i < self.addressed ==> #[trigger] (i / self.block_size()) < self.blocks@.len()
        &&& self.blocks@.len() > 0 ==> (self.blocks@.len() - 1) * self.block_size()
            < self.addressed
        &&& forall|b: int|
            0 <= b < self.blocks@.len() && (#[trigger] self.blocks@[b])@.len() > 0 ==> in_use(
                self.blocks@[b]@,
            )
    }

    /// The free list holds exactly the numbered slots that hold nothing.
    closed spec fn free_wf(&self) -> bool {
        &&& self.free@.no_duplicates()
        &&& forall|k: int|
            0 <= k < self.free@.len() ==> (#[trigger] self.free@[k]) < self.addressed
                && self.slot_at(self.free@[k] as int) is None
        &&& forall|i: int|
            0 <= i < self.addressed && (#[trigger] self.slot_at(i)) is None
                ==> self.free@.contains(i as u32)
        &&& forall|i: int| (#[trigger] self.slot_at(i)) is Some ==> i < self.addressed
    }

    /// The table's invariant.
    pub closed spec fn wf(&self) -> bool {
        &&& self.blocks_wf()
        &&& self.free_wf()
        &&& self.marks.room() >= self.addressed
        &&& self.young.wf()
        &&& self.remembered.wf()
        &&& forall|i: u32| #[trigger] self.remembered.has(i) ==> i < MAX_SLOTS
    }

    /// The block size of a well-formed table is a power of two within bounds.
    proof fn lemma_block_size(&self)
        requires
            self.shift <= 12,
        ensures
            1 <= self.block_size() <= 4096,
    {
        lemma_pow2_pos(self.shift as nat);
        lemma2_to64();
        if self.shift < 12 {
            lemma_pow2_strictly_increases(self.shift as nat, 12);
        }
    }

    /// Where an index lies.
    fn place(&self, index: usize) -> (r: (usize, usize))
        requires
            self.shift <= 12,
        ensures
            r.0 == index as int / self.block_size(),
            r.1 == index as int % self.block_size(),
            r.1 < self.block_size(),
    {
        proof {
            self.lemma_block_size();
            lemma_usize_shr_is_div(index, self.shift);
            lemma_usize_low_bits_mask_is_mod(index, self.shift as nat);
            lemma_split(index as int, self.block_size());
            lemma_usize_shl_is_mul(1, self.shift);
        }
        (index >> self.shift, index & ((1usize << self.shift) - 1))
    }

    /// An empty table.
    pub fn new() -> (table: Table<T>)
        ensures
            table.wf(),
            table@ == Map::<u32, T>::empty(),
            table.numbered() == 0,
            table.vacant() == 0,
            table.count() == 0,
            table.room() == MAX_SLOTS,
            table.block_size() == SLOT_BLOCK,
            table.young_list().len() == 0,
            table.remembered_list().len() == 0,
            forall|index: u32| !(#[trigger] table.young_has(index)),
            forall|index: u32| !(#[trigger] table.remembered_has(index)),
    {
        let table = Table {
            blocks: Vec::new(),
            shift: 4,
            addressed: 0,
            free: Vec::new(),
            marks: Bitmap::new(),
            young: Members::new(),
            remembered: Members::new(),
        };
        proof {
            lemma2_to64();
            assert(table@ =~= Map::<u32, T>::empty());
        }
        table
    }

    /// Storing into one place changes that slot and no other.
    proof fn lemma_stored(before: &Table<T>, after: &Table<T>, index: int, value: Option<T>)
        requires
            before.shift <= 12,
            after.shift == before.shift,
            0 <= index,
            index / before.block_size() < before.blocks@.len(),
            after.blocks@.len() == before.blocks@.len(),
            before.blocks@[index / before.block_size()]@.len() == before.block_size(),
            after.blocks@[index / before.block_size()]@ == before.blocks@[index
                / before.block_size()]@.update(index % before.block_size(), value),
            forall|b: int|
                0 <= b < before.blocks@.len() && b != index / before.block_size()
                    ==> #[trigger] after.blocks@[b] == before.blocks@[b],
        ensures
            after.slot_at(index) == value,
            forall|j: int| j != index ==> #[trigger] after.slot_at(j) == before.slot_at(j),
    {
        let size = before.block_size();
        before.lemma_block_size();
        lemma_split(index, size);
        assert forall|j: int| j != index implies #[trigger] after.slot_at(j) == before.slot_at(
            j,
        ) by {
            if 0 <= j {
                lemma_split(j, size);
                if j / size == index / size {
                    if j % size == index % size {
                        lemma_same_place(j, index, size);
                    }
                }
            }
        }
    }

    /// Make the block that holds `index` if it is not here.
    fn ensure_block(&mut self, index: usize)
        requires
            old(self).shift <= 12,
            index < MAX_SLOTS,
            forall|b: int|
                0 <= b < old(self).blocks@.len() ==> (#[trigger] old(self).blocks@[b])@.len() == 0
                    || old(self).blocks@[b]@.len() == old(self).block_size(),
        ensures
            final(self).shift == old(self).shift,
            final(self).addressed == old(self).addressed,
            final(self).free == old(self).free,
            final(self).marks == old(self).marks,
            final(self).young == old(self).young,
            final(self).remembered == old(self).remembered,
            final(self).blocks@.len() == if old(self).blocks@.len() <= index as int
                / old(self).block_size() {
                index as int / old(self).block_size() + 1
            } else {
                old(self).blocks@.len() as int
            },
            forall|b: int|
                0 <= b < final(self).blocks@.len() ==> (#[trigger] final(self).blocks@[b])@.len()
                    == 0 || final(self).blocks@[b]@.len() == final(self).block_size(),
            final(self).blocks@[index as int / old(self).block_size()]@.len() == final(self).block_size(),
            forall|j: int| #[trigger] final(self).slot_at(j) == old(self).slot_at(j),
            forall|b: int|
                0 <= b < final(self).blocks@.len() && b != index as int / old(self).block_size()
                    ==> if b < old(self).blocks@.len() {
                    #[trigger] final(self).blocks@[b] == old(self).blocks@[b]
                } else {
                    final(self).blocks@[b]@.len() == 0
                },
    {
        let ghost before = *self;
        let ghost size = self.block_size();
        proof {
            self.lemma_block_size();
        }
        let (block, offset) = self.place(index);
        while self.blocks.len() <= block
            invariant
                before.shift <= 12,
                size == before.block_size(),
                1 <= size <= 4096,
                block == index as int / size,
                before.blocks@.len() <= self.blocks@.len(),
                self.blocks@.len() <= before.blocks@.len() || self.blocks@.len() <= block + 1,
                self.shift == before.shift,
                self.addressed == before.addressed,
                self.free == before.free,
                self.marks == before.marks,
                self.young == before.young,
                self.remembered == before.remembered,
                forall|b: int|
                    0 <= b < self.blocks@.len() ==> (#[trigger] self.blocks@[b])@.len() == 0
                        || self.blocks@[b]@.len() == size,
                forall|j: int| #[trigger] self.slot_at(j) == before.slot_at(j),
                forall|b: int|
                    0 <= b < self.blocks@.len() ==> if b < before.blocks@.len() {
                        #[trigger] self.blocks@[b] == before.blocks@[b]
                    } else {
                        self.blocks@[b]@.len() == 0
                    },
            decreases block + 1 - self.blocks.len(),
        {
            let ghost prior = *self;
            self.blocks.push(Vec::new());
            proof {
                assert forall|j: int| #[trigger] self.slot_at(j) == before.slot_at(j) by {
                    assert(prior.slot_at(j) == before.slot_at(j));
                    if 0 <= j {
                        lemma_split(j, size);
                        if j / size < prior.blocks@.len() {
                            assert(self.blocks@[j / size] == prior.blocks@[j / size]);
                        }
                    }
                }
            }
        }
        if self.blocks[block].len() == 0 {
            let ghost prior = *self;
            let wanted: usize = 1usize << self.shift;
            proof {
                lemma_usize_shl_is_mul(1, self.shift);
            }
            let mut slots: Vec<Option<T>> = Vec::new();
            while slots.len() < wanted
                invariant
                    slots@.len() <= wanted,
                    forall|k: int| 0 <= k < slots@.len() ==> (#[trigger] slots@[k]) is None,
                decreases wanted - slots.len(),
            {
                slots.push(None);
            }
            self.blocks.set(block, slots);
            proof {
                assert forall|j: int| #[trigger] self.slot_at(j) == before.slot_at(j) by {
                    assert(prior.slot_at(j) == before.slot_at(j));
                    if 0 <= j {
                        lemma_split(j, size);
                    }
                }
            }
        }
    }

    /// Put a value in a free slot and say which.
    pub fn allocate(&mut self, value: T) -> (index: u32)
        requires
            old(self).wf(),
            old(self).room() > 0,
        ensures
            final(self).wf(),
            index == old(self).next_slot(),
            index < MAX_SLOTS,
            !old(self)@.contains_key(index),
            final(self)@ == old(self)@.insert(index, value),
            final(self).count() == old(self).count() + 1,
            final(self).room() == old(self).room() - 1,
            final(self).numbered() == if old(self).vacant() > 0 {
                old(self).numbered()
            } else {
                old(self).numbered() + 1
            },
            final(self).block_size() == old(self).block_size(),
            final(self).young_list() == old(self).young_list(),
            final(self).remembered_list() == old(self).remembered_list(),
            forall|i: u32| #[trigger] final(self).marked(i) == old(self).marked(i),
            forall|i: u32| #[trigger] final(self).young_has(i) == old(self).young_has(i),
            forall|i: u32| #[trigger] final(self).remembered_has(i) == old(self).remembered_has(i),
    {
        let ghost before = *self;
        let ghost size = self.block_size();
        proof {
            self.lemma_block_size();
        }
        let index: usize = match self.free.pop() {
            Some(index) => {
                proof {
                    assert(before.free@[before.free@.len() - 1] == index);
                    assert(self.free@ =~= before.free@.drop_last());
                }
                index as usize
            },
            None => {
                let index: usize = self.addressed;
                self.addressed = index + 1;
                if !self.marks.covers(index) {
                    self.marks.grow();
                }
                index
            },
        };
        self.ensure_block(index);
        let (block, offset) = self.place(index);
        let ghost made = *self;
        self.blocks[block][offset] = Some(value);
        proof {
            lemma_split(index as int, size);
            Self::lemma_stored(&made, self, index as int, Some(value));
            assert forall|j: int| j != index implies #[trigger] self.slot_at(j) == before.slot_at(
                j,
            ) by {
                assert(made.slot_at(j) == before.slot_at(j));
            }
            assert(before.slot_at(index as int) is None);
            assert forall|i: int| 0 <= i < self.addressed implies #[trigger] (i
                / self.block_size()) < self.blocks@.len() by {
                if i < before.addressed {
                    assert(i / before.block_size() < before.blocks@.len());
                }
            }
            if self.blocks@.len() > before.blocks@.len() {
                assert((self.blocks@.len() - 1) == index as int / size);
                assert(size * (index as int / size) <= index);
                lemma_mul_is_commutative(size, index as int / size);
            }
            assert forall|b: int|
                0 <= b < self.blocks@.len() && (#[trigger] self.blocks@[b])@.len()
                    > 0 implies in_use(self.blocks@[b]@) by {
                if b == block {
                    assert(self.blocks@[b]@[offset as int] is Some);
                } else {
                    assert(self.blocks@[b] == made.blocks@[b]);
                    if b < before.blocks@.len() {
                        assert(made.blocks@[b] == before.blocks@[b]);
                    }
                }
            }
            assert(self.blocks_wf());
            assert forall|i: int|
                0 <= i < self.addressed && (#[trigger] self.slot_at(i)) is None implies self.free@.contains(
                i as u32,
            ) by {
                assert(i != index);
                assert(before.slot_at(i) is None);
                assert(i < before.addressed);
                assert(before.free@.contains(i as u32));
                let k = before.free@.index_of(i as u32);
                if before.free@.len() > 0 {
                    assert(before.free@[before.free@.len() - 1] == index);
                    assert(k < self.free@.len());
                    assert(self.free@[k] == i as u32);
                }
            }
            assert forall|k: int| 0 <= k < self.free@.len() implies (#[trigger] self.free@[k])
                < self.addressed && self.slot_at(self.free@[k] as int) is None by {
                assert(before.free@[k] == self.free@[k]);
                assert(before.free@[k] != index as u32);
                assert(before.slot_at(before.free@[k] as int) is None);
            }
            assert forall|i: int| (#[trigger] self.slot_at(i)) is Some implies i
                < self.addressed by {
                if i != index {
                    assert(before.slot_at(i) is Some);
                }
            }
            assert(self.free_wf());
            assert(self@ =~= before@.insert(index as u32, value));
        }
        index as u32
    }

    /// Whether two tables agree on everything but the objects themselves.
    pub open spec fn same_books(&self, other: &Table<T>) -> bool {
        &&& self.numbered() == other.numbered()
        &&& self.count() == other.count()
        &&& self.vacant() == other.vacant()
        &&& self.room() == other.room()
        &&& self.next_slot() == other.next_slot()
        &&& self.block_size() == other.block_size()
        &&& self.young_list() == other.young_list()
        &&& self.remembered_list() == other.remembered_list()
        &&& forall|i: u32| #[trigger] self.marked(i) == other.marked(i)
        &&& forall|i: u32| #[trigger] self.young_has(i) == other.young_has(i)
        &&& forall|i: u32| #[trigger] self.remembered_has(i) == other.remembered_has(i)
    }

    /// The view of a slot.
    proof fn lemma_slot(&self, index: u32)
        ensures
            self@.contains_key(index) == (self.slot_at(index as int) is Some),
            self@.contains_key(index) ==> self.slot_at(index as int) == Some(self@[index]),
    {
    }

    /// How many slots one block of this table holds.
    pub fn block(&self) -> (size: usize)
        requires
            self.wf(),
        ensures
            size == self.block_size(),
    {
        proof {
            self.lemma_block_size();
            lemma_usize_shl_is_mul(1, self.shift);
        }
        1usize << self.shift
    }

    /// How many slots this table numbers.
    pub fn slots(&self) -> (n: usize)
        ensures
            n == self.numbered(),
    {
        self.addressed
    }

    /// Whether there is a number left for `n` more objects.
    pub fn has_room_for(&self, n: usize) -> (r: bool)
        requires
            self.wf(),
            n <= MAX_SLOTS,
        ensures
            r == (self.room() >= n),
    {
        proof {
            self.lemma_count();
        }
        self.addressed - self.free.len() + n <= MAX_SLOTS
    }

    /// Every object is in a slot that the table numbers.
    pub proof fn lemma_numbered(&self)
        requires
            self.wf(),
        ensures
            forall|i: u32| #[trigger] self@.contains_key(i) ==> i < self.numbered(),
    {
        assert forall|i: u32| #[trigger] self@.contains_key(i) implies i < self.numbered() by {
            assert(self.slot_at(i as int) is Some);
        }
    }

    /// How many objects the table holds.
    pub fn occupancy(&self) -> (n: usize)
        requires
            self.wf(),
        ensures
            n == self.count(),
    {
        proof {
            self.lemma_count();
        }
        self.addressed - self.free.len()
    }

    /// How many numbered slots are free.
    pub fn free_slots(&self) -> (n: usize)
        ensures
            n == self.vacant(),
    {
        self.free.len()
    }

    /// The object in a slot.
    pub fn get(&self, index: u32) -> (r: Option<&T>)
        requires
            self.wf(),
        ensures
            match r {
                Some(value) => self@.contains_key(index) && *value == self@[index],
                None => !self@.contains_key(index),
            },
    {
        let (block, offset) = self.place(index as usize);
        if block < self.blocks.len() {
            if self.blocks[block].len() > 0 {
                return self.blocks[block][offset].as_ref();
            }
        }
        None
    }

    /// Does the slot hold an object?
    pub fn occupied(&self, index: u32) -> (r: bool)
        requires
            self.wf(),
        ensures
            r == self@.contains_key(index),
    {
        self.get(index).is_some()
    }

    /// Replacing the object in an occupied slot keeps the table well formed and
    /// touches nothing else.
    proof fn lemma_changed(before: &Table<T>, after: &Table<T>, index: u32, value: T)
        requires
            before.wf(),
            before.slot_at(index as int) is Some,
            after.shift == before.shift,
            after.addressed == before.addressed,
            after.free == before.free,
            after.marks == before.marks,
            after.young == before.young,
            after.remembered == before.remembered,
            after.blocks@.len() == before.blocks@.len(),
            after.blocks@[index as int / before.block_size()]@ == before.blocks@[index as int
                / before.block_size()]@.update(index as int % before.block_size(), Some(value)),
            forall|b: int|
                0 <= b < before.blocks@.len() && b != index as int / before.block_size()
                    ==> #[trigger] after.blocks@[b] == before.blocks@[b],
        ensures
            after.wf(),
            after@ == before@.insert(index, value),
            after.same_books(before),
    {
        let size = before.block_size();
        before.lemma_block_size();
        lemma_split(index as int, size);
        Self::lemma_stored(before, after, index as int, Some(value));
        assert forall|i: int| 0 <= i < after.addressed implies #[trigger] (i
            / after.block_size()) < after.blocks@.len() by {
            assert(i / before.block_size() < before.blocks@.len());
        }
        assert forall|k: int| 0 <= k < after.free@.len() implies (#[trigger] after.free@[k])
            < after.addressed && after.slot_at(after.free@[k] as int) is None by {
            assert(before.slot_at(before.free@[k] as int) is None);
        }
        assert(after.free_wf());
        assert(after@ =~= before@.insert(index, value));
    }

    /// The object in a slot, for changing.
    pub fn get_mut(&mut self, index: u32) -> (r: Option<&mut T>)
        requires
            old(self).wf(),
        ensures
            match r {
                Some(value) => {
                    &&& old(self)@.contains_key(index)
                    &&& *value == old(self)@[index]
                    &&& final(self).wf()
                    &&& final(self)@ == old(self)@.insert(index, *final(value))
                    &&& final(self).same_books(old(self))
                },
                None => !old(self)@.contains_key(index) && *final(self) == *old(self),
            },
    {
        let ghost before = *self;
        let (block, offset) = self.place(index as usize);
        if block < self.blocks.len() {
            if self.blocks[block].len() > 0 {
                if self.blocks[block][offset].is_some() {
                    let ghost after = *final(self);
                    let slot = self.blocks[block][offset].as_mut();
                    proof {
                        Self::lemma_changed(&before, &after, index, *final(slot->0));
                    }
                    return slot;
                }
            }
        }
        None
    }

    /// Empty a slot, and give its block back if that was the last one in it.
    fn release(&mut self, index: usize)
        requires
            old(self).blocks_wf(),
            old(self).slot_at(index as int) is Some,
        ensures
            final(self).shift == old(self).shift,
            final(self).addressed == old(self).addressed,
            final(self).free == old(self).free,
            final(self).marks == old(self).marks,
            final(self).young == old(self).young,
            final(self).remembered == old(self).remembered,
            final(self).blocks_wf(),
            final(self).slot_at(index as int) is None,
            forall|j: int| j != index ==> #[trigger] final(self).slot_at(j) == old(self).slot_at(j),
    {
        let ghost before = *self;
        let ghost size = self.block_size();
        proof {
            self.lemma_block_size();
        }
        let (block, offset) = self.place(index);
        proof {
            lemma_split(index as int, size);
        }
        self.blocks[block][offset] = None;
        let ghost emptied = *self;
        proof {
            Self::lemma_stored(&before, &emptied, index as int, None);
        }
        let mut all_free: bool = true;
        let mut i: usize = 0;
        while i < self.blocks[block].len()
            invariant
                *self == emptied,
                block < self.blocks@.len(),
                i <= self.blocks@[block as int]@.len(),
                all_free ==> forall|k: int| 0 <= k < i ==> self.blocks@[block as int]@[k] is None,
                !all_free ==> in_use(self.blocks@[block as int]@),
            decreases self.blocks@[block as int]@.len() - i,
        {
            if self.blocks[block][i].is_some() {
                all_free = false;
            }
            i = i + 1;
        }
        if all_free {
            self.blocks.set(block, Vec::new());
            proof {
                assert forall|j: int| #[trigger] self.slot_at(j) == emptied.slot_at(j) by {
                    if 0 <= j {
                        lemma_split(j, size);
                        if j / size == block {
                            assert(self.slot_at(j) is None);
                            assert(emptied.slot_at(j) is None);
                        }
                    }
                }
            }
        }
        proof {
            assert forall|j: int| j != index implies #[trigger] self.slot_at(j) == before.slot_at(
                j,
            ) by {
                assert(emptied.slot_at(j) == before.slot_at(j));
            }
            assert(emptied.slot_at(index as int) is None);
            assert forall|k: int| 0 <= k < self.addressed implies #[trigger] (k
                / self.block_size()) < self.blocks@.len() by {
                assert(k / before.block_size() < before.blocks@.len());
            }
            assert forall|b: int|
                0 <= b < self.blocks@.len() && (#[trigger] self.blocks@[b])@.len()
                    > 0 implies in_use(self.blocks@[b]@) by {
                if b != block {
                    assert(self.blocks@[b] == before.blocks@[b]);
                }
            }
        }
    }

    /// Empty a slot and put it on the free list, if it holds anything.
    pub fn discard(&mut self, index: u32)
        requires
            old(self).wf(),
        ensures
            final(self).wf(),
            final(self)@ == old(self)@.remove(index),
            final(self).numbered() == old(self).numbered(),
            final(self).block_size() == old(self).block_size(),
            final(self).count() == if old(self)@.contains_key(index) {
                old(self).count() - 1
            } else {
                old(self).count()
            },
            old(self)@.contains_key(index) ==> final(self).next_slot() == index,
            final(self).room() >= old(self).room(),
            final(self).young_list() == old(self).young_list(),
            final(self).remembered_list() == old(self).remembered_list(),
            forall|i: u32| #[trigger] final(self).marked(i) == old(self).marked(i),
            forall|i: u32| #[trigger] final(self).young_has(i) == old(self).young_has(i),
            forall|i: u32| #[trigger] final(self).remembered_has(i) == old(self).remembered_has(i),
    {
        let ghost before = *self;
        if self.occupied(index) {
            proof {
                assert(before.slot_at(index as int) is Some);
                if before.free@.contains(index) {
                    let k = before.free@.index_of(index);
                    assert(before.slot_at(before.free@[k] as int) is None);
                }
            }
            self.release(index as usize);
            let ghost emptied = *self;
            self.free.push(index);
            proof {
                assert forall|j: int| #[trigger] self.slot_at(j) == emptied.slot_at(j) by {}
                assert forall|k: int| 0 <= k < self.free@.len() implies (#[trigger] self.free@[k])
                    < self.addressed && self.slot_at(self.free@[k] as int) is None by {
                    if k < before.free@.len() {
                        assert(before.free@[k] == self.free@[k]);
                        assert(before.slot_at(before.free@[k] as int) is None);
                    }
                }
                assert forall|i: int|
                    0 <= i < self.addressed && (#[trigger] self.slot_at(i)) is None implies self.free@.contains(
                    i as u32,
                ) by {
                    if i == index {
                        assert(self.free@[before.free@.len() as int] == i as u32);
                    } else {
                        assert(before.slot_at(i) is None);
                        assert(before.free@.contains(i as u32));
                        let k = before.free@.index_of(i as u32);
                        assert(self.free@[k] == i as u32);
                    }
                }
                assert forall|i: int| (#[trigger] self.slot_at(i)) is Some implies i
                    < self.addressed by {
                    assert(before.slot_at(i) is Some);
                }
                assert(self.free_wf());
                assert(self@ =~= before@.remove(index));
            }
        } else {
            proof {
                assert(self@ =~= before@.remove(index));
            }
        }
    }

    /// Clear every mark.
    pub fn clear_marks(&mut self)
        requires
            old(self).wf(),
        ensures
            final(self).wf(),
            final(self)@ == old(self)@,
            final(self).numbered() == old(self).numbered(),
            final(self).count() == old(self).count(),
            final(self).room() == old(self).room(),
            final(self).block_size() == old(self).block_size(),
            final(self).young_list() == old(self).young_list(),
            final(self).remembered_list() == old(self).remembered_list(),
            forall|i: u32| !(#[trigger] final(self).marked(i)),
            forall|i: u32| #[trigger] final(self).young_has(i) == old(self).young_has(i),
            forall|i: u32| #[trigger] final(self).remembered_has(i) == old(self).remembered_has(i),
    {
        let ghost before = *self;
        self.marks.clear();
        proof {
            Self::lemma_same_slots(&before, self);
        }
    }

    /// What hangs on the slots alone.
    proof fn lemma_same_slots(before: &Table<T>, after: &Table<T>)
        requires
            after.blocks == before.blocks,
            after.shift == before.shift,
            after.addressed == before.addressed,
            after.free == before.free,
        ensures
            before.blocks_wf() ==> after.blocks_wf(),
            before.free_wf() ==> after.free_wf(),
            after@ == before@,
            forall|i: int| #[trigger] after.slot_at(i) == before.slot_at(i),
    {
        assert forall|i: int| #[trigger] after.slot_at(i) == before.slot_at(i) by {}
        assert(after@ =~= before@);
        if before.free_wf() {
            assert forall|k: int| 0 <= k < after.free@.len() implies (#[trigger] after.free@[k])
                < after.addressed && after.slot_at(after.free@[k] as int) is None by {
                assert(before.slot_at(before.free@[k] as int) is None);
            }
        }
    }

    /// Is the slot marked?
    pub fn is_marked(&self, index: u32) -> (r: bool)
        ensures
            r == self.marked(index),
    {
        self.marks.get(index as usize)
    }

    /// Mark an occupied slot; `false` if it was marked already or holds
    /// nothing.
    pub fn mark(&mut self, index: u32) -> (r: bool)
        requires
            old(self).wf(),
        ensures
            final(self).wf(),
            final(self)@ == old(self)@,
            r == (old(self)@.contains_key(index) && !old(self).marked(index)),
            final(self).numbered() == old(self).numbered(),
            final(self).count() == old(self).count(),
            final(self).room() == old(self).room(),
            final(self).block_size() == old(self).block_size(),
            final(self).young_list() == old(self).young_list(),
            final(self).remembered_list() == old(self).remembered_list(),
            forall|i: u32| #[trigger]
                final(self).marked(i) == (old(self).marked(i) || (i == index && r)),
            forall|i: u32| #[trigger] final(self).young_has(i) == old(self).young_has(i),
            forall|i: u32| #[trigger] final(self).remembered_has(i) == old(self).remembered_has(i),
    {
        let ghost before = *self;
        if !self.occupied(index) || self.marks.get(index as usize) {
            return false;
        }
        self.marks.set(index as usize);
        proof {
            Self::lemma_same_slots(&before, self);
            assert(before.slot_at(index as int) is Some);
        }
        true
    }

    /// Is this slot's object still in the young generation?
    pub fn is_young(&self, index: u32) -> (r: bool)
        ensures
            r == self.young_has(index),
    {
        self.young.contains(index)
    }

    /// Put a freshly allocated slot in the young generation.
    pub fn make_young(&mut self, index: u32)
        requires
            old(self).wf(),
        ensures
            final(self).wf(),
            final(self)@ == old(self)@,
            final(self).numbered() == old(self).numbered(),
            final(self).count() == old(self).count(),
            final(self).room() == old(self).room(),
            final(self).block_size() == old(self).block_size(),
            final(self).young_list() == if old(self).young_has(index) {
                old(self).young_list()
            } else {
                old(self).young_list().push(index)
            },
            final(self).remembered_list() == old(self).remembered_list(),
            forall|i: u32| #[trigger] final(self).marked(i) == old(self).marked(i),
            forall|i: u32| #[trigger]
                final(self).young_has(i) == (old(self).young_has(i) || i == index),
            forall|i: u32| #[trigger] final(self).remembered_has(i) == old(self).remembered_has(i),
    {
        let ghost before = *self;
        self.young.insert(index);
        proof {
            Self::lemma_same_slots(&before, self);
        }
    }

    /// Is this slot remembered?
    pub fn is_remembered(&self, index: u32) -> (r: bool)
        ensures
            r == self.remembered_has(index),
    {
        self.remembered.contains(index)
    }

    /// Note that an old slot now refers to something young.
    pub fn remember(&mut self, index: u32)
        requires
            old(self).wf(),
            index < MAX_SLOTS,
        ensures
            final(self).wf(),
            final(self)@ == old(self)@,
            final(self).numbered() == old(self).numbered(),
            final(self).count() == old(self).count(),
            final(self).room() == old(self).room(),
            final(self).next_slot() == old(self).next_slot(),
            final(self).block_size() == old(self).block_size(),
            final(self).young_list() == old(self).young_list(),
            final(self).remembered_list() == if old(self).remembered_has(index) {
                old(self).remembered_list()
            } else {
                old(self).remembered_list().push(index)
            },
            forall|i: u32| #[trigger] final(self).marked(i) == old(self).marked(i),
            forall|i: u32| #[trigger] final(self).young_has(i) == old(self).young_has(i),
            forall|i: u32| #[trigger]
                final(self).remembered_has(i) == (old(self).remembered_has(i) || i == index),
    {
        let ghost before = *self;
        self.remembered.insert(index);
        proof {
            Self::lemma_same_slots(&before, self);
        }
    }

    /// The member lists agree with membership, once each.
    pub proof fn lemma_generations(&self)
        requires
            self.wf(),
        ensures
            self.young_list().no_duplicates(),
            forall|i: u32| #[trigger] self.young_list().contains(i) <==> self.young_has(i),
            self.remembered_list().no_duplicates(),
            forall|i: u32| #[trigger] self.remembered_list().contains(i) <==> self.remembered_has(
                i,
            ),
            forall|i: u32| #[trigger] self.remembered_has(i) ==> i < MAX_SLOTS,
    {
        self.young.lemma_listed();
        self.remembered.lemma_listed();
    }

    /// There are no more young slots than objects, where every young slot
    /// holds one.
    pub proof fn lemma_young_bound(&self)
        requires
            self.wf(),
            forall|i: u32| #[trigger] self.young_has(i) ==> self@.contains_key(i),
        ensures
            self.young_list().len() <= self.count(),
    {
        self.lemma_count();
        self.lemma_generations();
        let young = self.young_list().to_set();
        self.young_list().unique_seq_to_set();
        assert(young.subset_of(self@.dom())) by {
            assert forall|i: u32| young.contains(i) implies self@.dom().contains(i) by {
                assert(self.young_list().contains(i));
                assert(self.young_has(i));
            }
        }
        lemma_len_subset(young, self@.dom());
    }

    /// How many remembered slots there are.
    pub fn remembered_len(&self) -> (n: usize)
        ensures
            n == self.remembered_list().len(),
    {
        self.remembered.len()
    }

    /// A remembered slot, by its place in the list.
    pub fn remembered_at(&self, i: usize) -> (index: u32)
        requires
            i < self.remembered_list().len(),
        ensures
            index == self.remembered_list()[i as int],
    {
        self.remembered.at(i)
    }

    /// Everything alive is old now, and no old slot is remembered.
    pub fn settle_generations(&mut self)
        requires
            old(self).wf(),
        ensures
            final(self).wf(),
            final(self)@ == old(self)@,
            final(self).numbered() == old(self).numbered(),
            final(self).count() == old(self).count(),
            final(self).room() == old(self).room(),
            final(self).block_size() == old(self).block_size(),
            final(self).young_list().len() == 0,
            final(self).remembered_list().len() == 0,
            forall|i: u32| !(#[trigger] final(self).young_has(i)),
            forall|i: u32| !(#[trigger] final(self).remembered_has(i)),
    {
        let ghost before = *self;
        self.age_all();
        self.forget_all();
        proof {
            Self::lemma_same_slots(&before, self);
        }
    }

    /// Everything alive is old now.
    fn age_all(&mut self)
        ensures
            final(self).blocks == old(self).blocks,
            final(self).shift == old(self).shift,
            final(self).addressed == old(self).addressed,
            final(self).free == old(self).free,
            final(self).marks == old(self).marks,
            final(self).remembered == old(self).remembered,
            final(self).young.wf(),
            final(self).young.listed().len() == 0,
            forall|i: u32| !(#[trigger] final(self).young.has(i)),
    {
        self.young.clear();
    }

    /// Nothing old is remembered.
    fn forget_all(&mut self)
        ensures
            final(self).blocks == old(self).blocks,
            final(self).shift == old(self).shift,
            final(self).addressed == old(self).addressed,
            final(self).free == old(self).free,
            final(self).marks == old(self).marks,
            final(self).young == old(self).young,
            final(self).remembered.wf(),
            final(self).remembered.listed().len() == 0,
            forall|i: u32| !(#[trigger] final(self).remembered.has(i)),
    {
        self.remembered.clear();
    }

    /// The count is the number of slots that hold something.
    pub proof fn lemma_count(&self)
        requires
            self.wf(),
        ensures
            self@.dom().finite(),
            self.count() == self@.dom().len(),
            0 <= self.count() <= self.numbered() <= MAX_SLOTS,
    {
        let all: Set<u32> = Set::range(0u32, self.addressed as u32);
        let free = self.free@.to_set();
        u32::range_properties(0u32, self.addressed as u32);
        self.free@.unique_seq_to_set();
        assert(free.finite()) by {
            self.free@.lemma_cardinality_of_set();
        }
        assert(self@.dom() =~= all.difference(free)) by {
            assert forall|i: u32| self@.dom().contains(i) <==> all.difference(free).contains(
                i,
            ) by {
                if self@.dom().contains(i) {
                    assert(self.slot_at(i as int) is Some);
                    if free.contains(i) {
                        let k = self.free@.index_of(i);
                        assert(self.slot_at(self.free@[k] as int) is None);
                    }
                }
                if all.contains(i) && !free.contains(i) {
                    if self.slot_at(i as int) is None {
                        assert(self.free@.contains(i));
                    }
                }
            }
        }
        assert(all.intersect(free) =~= free) by {
            assert forall|i: u32| free.contains(i) implies all.contains(i) by {
                let k = self.free@.index_of(i);
                assert(self.free@[k] < self.addressed);
            }
        }
        lemma_set_difference_len(all, free);
    }

    /// A table cut at the end of its blocks is well formed.
    proof fn lemma_trimmed(before: &Table<T>, after: &Table<T>, size: int)
        requires
            before.wf(),
            size == before.block_size(),
            1 <= size,
            after.shift == before.shift,
            after.blocks@.len() <= before.blocks@.len(),
            forall|b: int|
                0 <= b < after.blocks@.len() ==> #[trigger] after.blocks@[b] == before.blocks@[b],
            forall|b: int|
                after.blocks@.len() <= b < before.blocks@.len()
                    ==> (#[trigger] before.blocks@[b])@.len() == 0,
            after.addressed <= before.addressed,
            after.addressed <= after.blocks@.len() * size,
            after.addressed == before.addressed || after.addressed == after.blocks@.len() * size,
            after.free@.no_duplicates(),
            forall|k: int|
                0 <= k < after.free@.len() ==> (#[trigger] after.free@[k]) < after.addressed
                    && before.free@.contains(after.free@[k]),
            forall|k: int|
                0 <= k < before.free@.len() && #[trigger] before.free@[k] < after.addressed
                    ==> after.free@.contains(before.free@[k]),
            after.marks.room() >= after.addressed,
            after.young == before.young,
            after.remembered == before.remembered,
        ensures
            after.wf(),
            after@ == before@,
            after.count() == before.count(),
            after.room() == before.room(),
    {
        assert forall|i: int| #[trigger] after.slot_at(i) == before.slot_at(i) by {
            if 0 <= i {
                lemma_split(i, size);
            }
        }
        assert(after@ =~= before@);
        let n = after.blocks@.len() as int;
        assert forall|i: int| 0 <= i < after.addressed implies #[trigger] (i
            / after.block_size()) < after.blocks@.len() by {
            lemma_split(i, size);
            assert(i / size < n) by (nonlinear_arith)
                requires
                    i < n * size,
                    i == size * (i / size) + i % size,
                    0 <= i % size,
                    size >= 1,
            ;
        }
        if n > 0 {
            assert((before.blocks@.len() - 1) * size < before.addressed);
            lemma_mul_inequality(n - 1, before.blocks@.len() - 1, size);
            assert((n - 1) * size < n * size) by (nonlinear_arith)
                requires
                    size >= 1,
            ;
        }
        assert(after.blocks_wf());
        assert forall|k: int| 0 <= k < after.free@.len() implies (#[trigger] after.free@[k])
            < after.addressed && after.slot_at(after.free@[k] as int) is None by {
            let m = before.free@.index_of(after.free@[k]);
            assert(before.slot_at(before.free@[m] as int) is None);
        }
        assert forall|i: int|
            0 <= i < after.addressed && (#[trigger] after.slot_at(i)) is None implies after.free@.contains(
            i as u32,
        ) by {
            assert(before.slot_at(i) is None);
            assert(before.free@.contains(i as u32));
            let m = before.free@.index_of(i as u32);
            assert(before.free@[m] < after.addressed);
        }
        assert forall|i: int| (#[trigger] after.slot_at(i)) is Some implies i < after.addressed by {
            assert(before.slot_at(i) is Some);
            lemma_split(i, size);
            assert(i < n * size) by (nonlinear_arith)
                requires
                    i / size < n,
                    i == size * (i / size) + i % size,
                    i % size < size,
                    size >= 1,
            ;
        }
        assert(after.free_wf());
        before.lemma_count();
        after.lemma_count();
    }

    /// A table whose last block is held has an object in it, and numbers slots
    /// up to somewhere in that block.
    proof fn lemma_last_block(&self)
        requires
            self.wf(),
            self.blocks@.len() > 0,
            self.blocks@.last()@.len() > 0,
        ensures
            self.last_block_in_use(),
    {
        self.lemma_block_size();
        let size = self.block_size();
        let b = self.blocks@.len() - 1;
        assert(in_use(self.blocks@[b]@));
        let k = choose|k: int|
            0 <= k < self.blocks@[b]@.len() && (#[trigger] self.blocks@[b]@[k]) is Some;
        let i = b * size + k;
        assert(0 <= b * size) by (nonlinear_arith)
            requires
                0 <= b,
                1 <= size,
        ;
        lemma_fundamental_div_mod_converse(i, size, b, k);
        assert(self.slot_at(i) is Some);
        assert(self@.contains_key(i as u32));
        let last = self.addressed - 1;
        assert(last / size < self.blocks@.len());
        lemma_fundamental_div_mod_converse(b * size, size, b, 0);
        lemma_div_is_ordered(b * size, last, size);
        assert(i as u32 as int / size == last / size);
    }

    /// Drop empty blocks off the end of the table and forget their slots: the
    /// last block that is left has an object in it, and only slots in blocks
    /// that are left are numbered.
    pub fn trim(&mut self)
        requires
            old(self).wf(),
        ensures
            final(self).wf(),
            final(self)@ == old(self)@,
            final(self).numbered() <= old(self).numbered(),
            final(self).numbered() == 0 || final(self).last_block_in_use(),
            final(self).numbered() == old(self).numbered() || final(self).numbered() as int
                % old(self).block_size() == 0,
            final(self).free_list() == slots_below(
                old(self).free_list(),
                final(self).numbered() as int,
            ),
            forall|i: u32|
                i < final(self).numbered() ==> #[trigger] final(self).marked(i) == old(
                    self,
                ).marked(i),
            final(self).count() == old(self).count(),
            final(self).room() == old(self).room(),
            final(self).block_size() == old(self).block_size(),
            final(self).young_list() == old(self).young_list(),
            final(self).remembered_list() == old(self).remembered_list(),
            forall|i: u32| #[trigger] final(self).young_has(i) == old(self).young_has(i),
            forall|i: u32| #[trigger] final(self).remembered_has(i) == old(self).remembered_has(i),
    {
        let ghost before = *self;
        let ghost size = self.block_size();
        proof {
            self.lemma_block_size();
        }
        while self.blocks.len() > 0 && self.blocks[self.blocks.len() - 1].len() == 0
            invariant
                before.wf(),
                size == before.block_size(),
                1 <= size <= 4096,
                self.shift == before.shift,
                self.addressed == before.addressed,
                self.free == before.free,
                self.marks == before.marks,
                self.young == before.young,
                self.remembered == before.remembered,
                self.blocks@.len() <= before.blocks@.len(),
                forall|b: int|
                    0 <= b < self.blocks@.len() ==> #[trigger] self.blocks@[b] == before.blocks@[b],
                forall|b: int|
                    self.blocks@.len() <= b < before.blocks@.len()
                        ==> (#[trigger] before.blocks@[b])@.len() == 0,
            decreases self.blocks.len(),
        {
            self.blocks.pop();
        }
        proof {
            assert forall|i: int| #[trigger] self.slot_at(i) == before.slot_at(i) by {
                if 0 <= i {
                    lemma_split(i, size);
                }
            }
            assert(self@ =~= before@);
            let n = self.blocks@.len() as int;
            assert(n * size < MAX_SLOTS + 4096) by {
                if n > 0 {
                    assert((before.blocks@.len() - 1) * size < before.addressed);
                    lemma_mul_inequality(n - 1, before.blocks@.len() - 1, size);
                    lemma_mul_is_distributive_sub(size, n, 1);
                    lemma_mul_is_commutative(size, n);
                    lemma_mul_is_commutative(size, n - 1);
                } else {
                    assert(n * size == 0) by (nonlinear_arith)
                        requires
                            n == 0,
                    ;
                }
            }
            assert(0 <= n * size) by (nonlinear_arith)
                requires
                    n >= 0,
                    size >= 1,
            ;
            lemma_usize_shl_is_mul(self.blocks.len(), self.shift);
            assert(n == 0 ==> n * size == 0) by (nonlinear_arith);
        }
        let addressed: usize = self.blocks.len() << self.shift;
        assert(addressed == self.blocks@.len() * size);
        if addressed >= self.addressed {
            proof {
                Self::lemma_trimmed(&before, self, size);
                lemma_all_below(before.free@, before.addressed as int);
                if self.blocks@.len() > 0 {
                    self.lemma_last_block();
                }
            }
            return ;
        }
        let ghost cut = *self;
        self.addressed = addressed;
        let mut kept: Vec<u32> = Vec::new();
        let mut i: usize = 0;
        while i < self.free.len()
            invariant
                before.wf(),
                self.free == before.free,
                self.addressed == addressed,
                i <= self.free.len(),
                kept@.len() <= i,
                forall|k: int|
                    0 <= k < kept@.len() ==> (#[trigger] kept@[k]) < addressed
                        && self.free@.take(i as int).contains(kept@[k]),
                kept@.no_duplicates(),
                forall|k: int|
                    0 <= k < i && #[trigger] self.free@[k] < addressed ==> kept@.contains(
                        self.free@[k],
                    ),
                kept@.len() == self.free@.take(i as int).filter(|x: u32| x < addressed).len(),
                kept@ == slots_below(self.free@.take(i as int), addressed as int),
            decreases self.free.len() - i,
        {
            let index: u32 = self.free[i];
            let ghost prior = kept@;
            proof {
                assert(self.free@.take(i as int + 1) =~= self.free@.take(i as int).push(index));
                assert(self.free@.take(i as int + 1).drop_last() =~= self.free@.take(i as int));
                self.free@.take(i as int).lemma_filter_push(index, |x: u32| x < addressed);
            }
            if (index as usize) < addressed {
                proof {
                    if kept@.contains(index) {
                        let k = kept@.index_of(index);
                        let m = self.free@.take(i as int).index_of(kept@[k]);
                        assert(self.free@[m] == index);
                        assert(false);
                    }
                }
                kept.push(index);
                proof {
                    assert(kept@[prior.len() as int] == index);
                }
            }
            proof {
                assert forall|k: int| 0 <= k < kept@.len() implies (#[trigger] kept@[k])
                    < addressed && self.free@.take(i as int + 1).contains(kept@[k]) by {
                    if k < prior.len() {
                        assert(prior[k] == kept@[k]);
                        let m = self.free@.take(i as int).index_of(kept@[k]);
                        assert(self.free@.take(i as int + 1)[m] == kept@[k]);
                    } else {
                        assert(self.free@.take(i as int + 1)[i as int] == kept@[k]);
                    }
                }
                assert forall|k: int|
                    0 <= k < i + 1 && #[trigger] self.free@[k] < addressed implies kept@.contains(
                    self.free@[k],
                ) by {
                    if k < i {
                        assert(prior.contains(self.free@[k]));
                        let m = prior.index_of(self.free@[k]);
                        assert(kept@[m] == self.free@[k]);
                    }
                }
            }
            i = i + 1;
        }
        self.free = kept;
        self.marks.truncate(addressed);
        proof {
            assert(before.free@.take(before.free@.len() as int) =~= before.free@);
            Self::lemma_trimmed(&before, self, size);
            if self.blocks@.len() > 0 {
                self.lemma_last_block();
            }
            lemma_fundamental_div_mod_converse(
                addressed as int,
                size,
                self.blocks@.len() as int,
                0,
            );
        }
    }
}

impl<T: Trace> Table<T> {
    /// The least number of bytes that the objects in the first `upto` slots
    /// hold, slots and contents.
    pub closed spec fn weight(&self, upto: int) -> nat
        decreases upto,
    {
        if upto <= 0 {
            0
        } else {
            self.weight(upto - 1) + match self.slot_at(upto - 1) {
                Some(value) => vstd::layout::size_of::<Option<T>>() + value.least_contents(),
                None => 0,
            }
        }
    }

    /// The least number of bytes that all the objects hold.
    pub closed spec fn least_bytes(&self) -> nat {
        self.weight(self.addressed as int)
    }

    /// Only the slots below `upto` count towards their weight.
    proof fn lemma_weight(&self, other: &Table<T>, upto: int)
        requires
            forall|i: int| 0 <= i < upto ==> #[trigger] self.slot_at(i) == other.slot_at(i),
        ensures
            self.weight(upto) == other.weight(upto),
        decreases upto,
    {
        if upto > 0 {
            self.lemma_weight(other, upto - 1);
            assert(self.slot_at(upto - 1) == other.slot_at(upto - 1));
        }
    }

    /// What tables that hold alike weigh.
    proof fn lemma_weight_alike(&self, other: &Table<T>, upto: int)
        requires
            upto <= MAX_SLOTS,
            forall|i: u32| #[trigger] self@.contains_key(i) == other@.contains_key(i),
            forall|i: u32|
                self@.contains_key(i) ==> (#[trigger] self@[i]).least_contents()
                    == other@[i].least_contents(),
        ensures
            self.weight(upto) == other.weight(upto),
        decreases upto,
    {
        if upto > 0 {
            self.lemma_weight_alike(other, upto - 1);
            let last = (upto - 1) as u32;
            self.lemma_slot(last);
            other.lemma_slot(last);
            assert(self@.contains_key(last) == other@.contains_key(last));
            if self@.contains_key(last) {
                assert(self@[last].least_contents() == other@[last].least_contents());
            }
        }
    }

    /// Slots beyond those numbered weigh nothing.
    proof fn lemma_weight_beyond(&self, upto: int)
        requires
            self.wf(),
            self.addressed <= upto,
        ensures
            self.weight(upto) == self.least_bytes(),
        decreases upto,
    {
        if upto > self.addressed {
            self.lemma_weight_beyond(upto - 1);
            assert(self.slot_at(upto - 1) is None);
        }
    }

    /// Tables whose slots hold objects of the same size weigh the same.
    pub proof fn lemma_least_bytes(&self, other: &Table<T>)
        requires
            self.wf(),
            other.wf(),
            forall|i: u32| #[trigger] self@.contains_key(i) == other@.contains_key(i),
            forall|i: u32|
                self@.contains_key(i) ==> (#[trigger] self@[i]).least_contents()
                    == other@[i].least_contents(),
        ensures
            self.least_bytes() == other.least_bytes(),
    {
        let upto = if self.addressed < other.addressed {
            other.addressed as int
        } else {
            self.addressed as int
        };
        self.lemma_weight_alike(other, upto);
        self.lemma_weight_beyond(upto);
        other.lemma_weight_beyond(upto);
    }

    /// A table without an object weighs less by what that object weighs.
    proof fn lemma_weight_removed(&self, other: &Table<T>, index: u32, upto: int)
        requires
            upto <= MAX_SLOTS,
            other@.contains_key(index),
            self@ == other@.remove(index),
        ensures
            other.weight(upto) == self.weight(upto) + if index < upto {
                vstd::layout::size_of::<Option<T>>() + other@[index].least_contents()
            } else {
                0
            },
        decreases upto,
    {
        if upto > 0 {
            self.lemma_weight_removed(other, index, upto - 1);
            let last = (upto - 1) as u32;
            self.lemma_slot(last);
            other.lemma_slot(last);
        }
    }

    /// What one slot of this table costs.
    pub fn slot_size(&self) -> (size: usize)
        ensures
            size == vstd::layout::size_of::<Option<T>>(),
    {
        core::mem::size_of::<Option<T>>()
    }

    /// What one object costs, slot and contents; nothing where there is none.
    pub fn size_at(&self, index: u32) -> (bytes: usize)
        requires
            self.wf(),
        ensures
            self@.contains_key(index) ==> bytes >= crate::memory::capped(
                vstd::layout::size_of::<Option<T>>() + self@[index].least_contents(),
            ),
            self@.contains_key(index) && self@[index].exact() ==> bytes == crate::memory::capped(
                vstd::layout::size_of::<Option<T>>() + self@[index].least_contents(),
            ),
            !self@.contains_key(index) ==> bytes == 0,
    {
        match self.get(index) {
            Some(value) => self.slot_size().saturating_add(value.contents_size()),
            None => 0,
        }
    }

    /// Push what the object in a slot refers to onto the work list.
    pub fn trace(&self, index: u32, gray: &mut Vec<ObjectId>)
        requires
            self.wf(),
        ensures
            final(gray)@ == old(gray)@ + if self@.contains_key(index) {
                self@[index].referents()
            } else {
                Seq::empty()
            },
    {
        match self.get(index) {
            Some(value) => value.trace(gray),
            None => {
                proof {
                    assert(gray@ =~= gray@ + Seq::<ObjectId>::empty());
                }
            },
        }
    }

    /// Whether a sweep keeps the object in a slot.
    pub open spec fn kept(&self, index: u32) -> bool {
        self@.contains_key(index) && (self.marked(index) || self@[index].in_image())
    }

    /// Free every unmarked object and settle the others. What the survivors
    /// hold comes back.
    pub fn sweep(&mut self) -> (bytes: usize)
        requires
            old(self).wf(),
        ensures
            final(self).wf(),
            forall|i: u32| #[trigger] final(self)@.contains_key(i) == old(self).kept(i),
            forall|i: u32|
                final(self)@.contains_key(i) ==> (#[trigger] final(self)@[i]).same_as(
                    &old(self)@[i],
                ),
            bytes >= crate::memory::capped(final(self).least_bytes()),
            final(self).numbered() == old(self).numbered(),
            final(self).room() >= old(self).room(),
            final(self).block_size() == old(self).block_size(),
            final(self).young_list() == old(self).young_list(),
            final(self).remembered_list() == old(self).remembered_list(),
            forall|i: u32| #[trigger] final(self).marked(i) == old(self).marked(i),
            forall|i: u32| #[trigger] final(self).young_has(i) == old(self).young_has(i),
            forall|i: u32| #[trigger] final(self).remembered_has(i) == old(self).remembered_has(i),
    {
        let ghost before = *self;
        let slot: usize = self.slot_size();
        let total: usize = self.slots();
        let mut bytes: usize = 0;
        let mut at: usize = 0;
        proof {
            assert forall|i: u32| before@.contains_key(i) implies (#[trigger] before@[i]).same_as(
                &before@[i],
            ) by {
                before@[i].lemma_same_refl();
            }
        }
        while at < total
            invariant
                before.wf(),
                self.wf(),
                slot == vstd::layout::size_of::<Option<T>>(),
                total == before.addressed,
                self.addressed == before.addressed,
                at <= total,
                forall|i: u32| i < at ==> #[trigger] self@.contains_key(i) == before.kept(i),
                forall|i: u32|
                    i >= at ==> #[trigger] self@.contains_key(i) == before@.contains_key(i),
                forall|i: u32|
                    i >= at && self@.contains_key(i) ==> #[trigger] self@[i] == before@[i],
                forall|i: u32|
                    self@.contains_key(i) ==> before@.contains_key(i) && (
                    #[trigger] self@[i]).same_as(&before@[i]),
                bytes >= crate::memory::capped(self.weight(at as int)),
                self.room() >= before.room(),
                self.block_size() == before.block_size(),
                self.young_list() == before.young_list(),
                self.remembered_list() == before.remembered_list(),
                forall|i: u32| #[trigger] self.marked(i) == before.marked(i),
                forall|i: u32| #[trigger] self.young_has(i) == before.young_has(i),
                forall|i: u32| #[trigger] self.remembered_has(i) == before.remembered_has(i),
            decreases total - at,
        {
            let index: u32 = at as u32;
            let ghost prior = *self;
            let marked: bool = self.is_marked(index);
            let keep: Option<bool> = match self.get(index) {
                Some(value) => {
                    proof {
                        value.lemma_same(&before@[index]);
                    }
                    Some(marked || value.is_permanent())
                },
                None => None,
            };
            match keep {
                Some(true) => {
                    let contents: usize = match self.get_mut(index) {
                        Some(value) => {
                            let ghost held = *value;
                            value.settle();
                            proof {
                                value.lemma_same(&held);
                            }
                            value.contents_size()
                        },
                        None => 0,
                    };
                    bytes = bytes.saturating_add(slot.saturating_add(contents));
                    proof {
                        assert forall|i: int| 0 <= i < at implies #[trigger] self.slot_at(i)
                            == prior.slot_at(i) by {
                            prior.lemma_slot(i as u32);
                            self.lemma_slot(i as u32);
                            assert(self@.contains_key(i as u32) == prior@.contains_key(i as u32));
                        }
                        self.lemma_weight(&prior, at as int);
                        self.lemma_slot(index);
                    }
                },
                Some(false) => {
                    self.discard(index);
                    proof {
                        assert forall|i: int| 0 <= i < at implies #[trigger] self.slot_at(i)
                            == prior.slot_at(i) by {
                            prior.lemma_slot(i as u32);
                            self.lemma_slot(i as u32);
                        }
                        self.lemma_weight(&prior, at as int);
                        self.lemma_slot(index);
                    }
                },
                None => {
                    proof {
                        self.lemma_slot(index);
                    }
                },
            }
            proof {
                assert(self@.contains_key(index) == before.kept(index));
                assert forall|i: u32| i < at implies #[trigger] self@.contains_key(i)
                    == before.kept(i) by {
                    assert(prior@.contains_key(i) == before.kept(i));
                }
            }
            at = at + 1;
        }
        proof {
            assert forall|i: u32| #[trigger] self@.contains_key(i) == before.kept(i) by {
                if i >= total {
                    before.lemma_slot(i);
                    if before@.contains_key(i) {
                        assert(before.slot_at(i as int) is Some);
                    }
                }
            }
        }
        bytes
    }

    /// Whether a sweep of the young generation frees the object in a slot.
    pub open spec fn dies_young(&self, index: u32) -> bool {
        self.young_has(index) && !self.marked(index) && !self@[index].in_image()
    }

    /// Free every unmarked young object. How many were freed and what they
    /// held comes back: no less than their slots and contents take, and how
    /// much more is in reserve is the allocator's choice.
    pub fn sweep_young(&mut self) -> (r: (usize, usize))
        requires
            old(self).wf(),
            forall|i: u32| #[trigger] old(self).young_has(i) ==> old(self)@.contains_key(i),
        ensures
            final(self).wf(),
            forall|i: u32| #[trigger]
                final(self)@.contains_key(i) == (old(self)@.contains_key(i) && !old(self).dies_young(i)),
            forall|i: u32|
                final(self)@.contains_key(i) ==> #[trigger] final(self)@[i] == old(self)@[i],
            final(self).count() == old(self).count() - r.0,
            final(self).least_bytes() <= old(self).least_bytes(),
            r.1 >= crate::memory::capped(
                (old(self).least_bytes() - final(self).least_bytes()) as nat,
            ),
            final(self).numbered() == old(self).numbered(),
            final(self).room() >= old(self).room(),
            final(self).block_size() == old(self).block_size(),
            final(self).young_list() == old(self).young_list(),
            final(self).remembered_list() == old(self).remembered_list(),
            forall|i: u32| #[trigger] final(self).marked(i) == old(self).marked(i),
            forall|i: u32| #[trigger] final(self).young_has(i) == old(self).young_has(i),
            forall|i: u32| #[trigger] final(self).remembered_has(i) == old(self).remembered_has(i),
    {
        let ghost before = *self;
        let ghost young = self.young_list();
        let total: usize = self.young.len();
        let mut dead: usize = 0;
        let mut freed: usize = 0;
        let mut k: usize = 0;
        proof {
            self.lemma_generations();
        }
        while k < total
            invariant
                before.wf(),
                self.wf(),
                young == before.young_list(),
                self.young_list() == young,
                total == young.len(),
                k <= total,
                dead <= k,
                young.no_duplicates(),
                forall|i: u32| #[trigger] young.contains(i) <==> before.young_has(i),
                forall|i: u32| #[trigger] before.young_has(i) ==> before@.contains_key(i),
                forall|i: u32| #[trigger]
                    self@.contains_key(i) == (before@.contains_key(i) && !(before.dies_young(i)
                        && young.take(k as int).contains(i))),
                forall|i: u32| self@.contains_key(i) ==> #[trigger] self@[i] == before@[i],
                self.count() == before.count() - dead,
                self.least_bytes() <= before.least_bytes(),
                freed >= crate::memory::capped(
                    (before.least_bytes() - self.least_bytes()) as nat,
                ),
                self.numbered() == before.numbered(),
                self.room() >= before.room(),
                self.block_size() == before.block_size(),
                self.remembered_list() == before.remembered_list(),
                forall|i: u32| #[trigger] self.marked(i) == before.marked(i),
                forall|i: u32| #[trigger] self.young_has(i) == before.young_has(i),
                forall|i: u32| #[trigger] self.remembered_has(i) == before.remembered_has(i),
            decreases total - k,
        {
            let index: u32 = self.young.at(k);
            let ghost prior = *self;
            proof {
                assert(young[k as int] == index);
                assert(young.contains(index));
                assert(before.young_has(index));
                assert(!young.take(k as int).contains(index)) by {
                    if young.take(k as int).contains(index) {
                        let m = young.take(k as int).index_of(index);
                        assert(young[m] == index);
                    }
                }
                assert(self@.contains_key(index));
                assert(young.take(k as int + 1) =~= young.take(k as int).push(index));
            }
            let marked: bool = self.is_marked(index);
            let permanent: bool = match self.get(index) {
                Some(value) => value.is_permanent(),
                None => false,
            };
            if !(permanent || marked) {
                freed = freed.saturating_add(self.size_at(index));
                dead = dead + 1;
                self.discard(index);
                proof {
                    prior.lemma_slot(index);
                    self.lemma_weight_removed(&prior, index, self.addressed as int);
                }
            }
            proof {
                assert forall|i: u32| #[trigger]
                    self@.contains_key(i) == (before@.contains_key(i) && !(before.dies_young(i)
                        && young.take(k as int + 1).contains(i))) by {
                    assert(prior@.contains_key(i) == (before@.contains_key(i) && !(
                    before.dies_young(i) && young.take(k as int).contains(i))));
                    if young.take(k as int).contains(i) {
                        let m = young.take(k as int).index_of(i);
                        assert(young.take(k as int + 1)[m] == i);
                    }
                    assert(young.take(k as int + 1)[k as int] == index);
                    if young.take(k as int + 1).contains(i) && i != index {
                        let m = young.take(k as int + 1).index_of(i);
                        assert(young.take(k as int)[m] == i);
                    }
                }
            }
            k = k + 1;
        }
        proof {
            assert(young.take(total as int) =~= young);
            assert forall|i: u32| #[trigger]
                self@.contains_key(i) == (before@.contains_key(i) && !before.dies_young(i)) by {
                if before.dies_young(i) {
                    assert(young.contains(i));
                }
            }
        }
        (dead, freed)
    }

    /// The handles of every object in the table, in slot order, after those
    /// already listed.
    pub fn list_ids(&self, tag: u8, out: &mut Vec<ObjectId>)
        requires
            self.wf(),
            tag < 16,
        ensures
            final(out)@.len() == old(out)@.len() + self.count(),
            final(out)@.take(old(out)@.len() as int) == old(out)@,
            forall|k: int|
                old(out)@.len() <= k < final(out)@.len() ==> {
                    &&& (#[trigger] final(out)@[k]).spec_tag() == tag
                    &&& self@.contains_key(final(out)@[k].spec_index())
                },
            forall|k: int, m: int|
                old(out)@.len() <= k < m < final(out)@.len() ==> (
                #[trigger] final(out)@[k]).spec_index() < (#[trigger] final(out)@[m]).spec_index(),
            forall|i: u32| #[trigger]
                self@.contains_key(i) ==> final(out)@.contains(ObjectId::spec_tagged(tag, i)),
    {
        let ghost before = out@;
        let total: usize = self.slots();
        let mut at: usize = 0;
        let ghost mut found: Set<u32> = Set::empty();
        while at < total
            invariant
                self.wf(),
                tag < 16,
                total == self.addressed,
                at <= total,
                before.len() <= out@.len(),
                out@.take(before.len() as int) == before,
                found.finite(),
                found.len() == out@.len() - before.len(),
                forall|i: u32| #[trigger] found.contains(i) == (i < at && self@.contains_key(i)),
                forall|k: int|
                    before.len() <= k < out@.len() ==> {
                        &&& (#[trigger] out@[k]).spec_tag() == tag
                        &&& out@[k].spec_index() < at
                        &&& self@.contains_key(out@[k].spec_index())
                    },
                forall|k: int, m: int|
                    before.len() <= k < m < out@.len() ==> (#[trigger] out@[k]).spec_index() < (
                    #[trigger] out@[m]).spec_index(),
                forall|i: u32|
                    i < at && #[trigger] self@.contains_key(i) ==> out@.contains(
                        ObjectId::spec_tagged(tag, i),
                    ),
            decreases total - at,
        {
            let index: u32 = at as u32;
            if self.occupied(index) {
                let ghost prior = out@;
                out.push(ObjectId::tagged(tag, index));
                proof {
                    assert(!found.contains(index));
                    found = found.insert(index);
                    assert(out@.take(before.len() as int) =~= before);
                    assert forall|i: u32|
                        i < at + 1 && #[trigger] self@.contains_key(i) implies out@.contains(
                        ObjectId::spec_tagged(tag, i),
                    ) by {
                        if i < at {
                            let k = prior.index_of(ObjectId::spec_tagged(tag, i));
                            assert(out@[k] == ObjectId::spec_tagged(tag, i));
                        } else {
                            assert(out@[prior.len() as int] == ObjectId::spec_tagged(tag, i));
                        }
                    }
                }
            }
            at = at + 1;
        }
        proof {
            assert(found =~= self@.dom()) by {
                assert forall|i: u32| self@.dom().contains(i) implies found.contains(i) by {
                    self.lemma_slot(i);
                    assert(self.slot_at(i as int) is Some);
                }
            }
            self.lemma_count();
            assert forall|i: u32| #[trigger] self@.contains_key(i) implies out@.contains(
                ObjectId::spec_tagged(tag, i),
            ) by {
                self.lemma_slot(i);
                assert(self.slot_at(i as int) is Some);
            }
        }
    }

    /// Set the block size of a table that numbers nothing yet.
    pub fn set_shift(&mut self, shift: usize)
        requires
            old(self).wf(),
            old(self).numbered() == 0,
            shift <= 12,
        ensures
            final(self).wf(),
            final(self)@ == old(self)@,
            final(self).block_size() == pow2(shift as nat),
            final(self).numbered() == old(self).numbered(),
            final(self).count() == old(self).count(),
            final(self).vacant() == old(self).vacant(),
            final(self).room() == old(self).room(),
            final(self).young_list() == old(self).young_list(),
            final(self).remembered_list() == old(self).remembered_list(),
            forall|i: u32| #[trigger] final(self).marked(i) == old(self).marked(i),
            forall|i: u32| #[trigger] final(self).young_has(i) == old(self).young_has(i),
            forall|i: u32| #[trigger] final(self).remembered_has(i) == old(self).remembered_has(i),
    {
        let ghost before = *self;
        self.shift = shift;
        proof {
            before.lemma_block_size();
            self.lemma_block_size();
            assert(self.blocks@.len() == 0) by {
                let n = before.blocks@.len() as int;
                let size = before.block_size();
                if n > 0 {
                    assert((n - 1) * size >= 0) by (nonlinear_arith)
                        requires
                            n >= 1,
                            size >= 1,
                    ;
                }
            }
            assert forall|i: int| self.slot_at(i) is None by {}
            assert forall|i: int| before.slot_at(i) is None by {}
            assert(self@ =~= before@);
            if self.free@.len() > 0 {
                assert(before.free@[0] < before.addressed);
            }
        }
    }

    /// How many of the first `upto` blocks are held.
    pub closed spec fn held(&self, upto: int) -> nat
        decreases upto,
    {
        if upto <= 0 {
            0
        } else {
            self.held(upto - 1) + if self.blocks@[upto - 1]@.len() > 0 {
                1nat
            } else {
                0
            }
        }
    }

    /// How many blocks the numbered slots span.
    pub closed spec fn spanned(&self) -> nat {
        self.blocks@.len()
    }

    /// A table spans no more blocks than it numbers slots.
    pub proof fn lemma_span(&self)
        requires
            self.wf(),
        ensures
            self.spanned() <= MAX_SLOTS,
            self.held(self.spanned() as int) <= self.spanned(),
    {
        self.lemma_block_size();
        let n = self.blocks@.len() as int;
        let s = self.block_size();
        if n > 0 {
            assert(n - 1 <= (n - 1) * s) by (nonlinear_arith)
                requires
                    n >= 1,
                    s >= 1,
            ;
        }
        self.lemma_held(n);
    }

    /// No more blocks are held than there are.
    proof fn lemma_held(&self, upto: int)
        requires
            0 <= upto,
        ensures
            self.held(upto) <= upto,
        decreases upto,
    {
        if upto > 0 {
            self.lemma_held(upto - 1);
        }
    }

    /// The least that the slots take: the list of blocks, and the blocks held.
    pub closed spec fn least_slot_bytes(&self) -> nat {
        self.spanned() * vstd::layout::size_of::<Vec<Option<T>>>() + self.bytes_of_blocks(
            self.held(self.spanned() as int),
        )
    }

    /// The least that the bookkeeping takes: the free list, and the lists of
    /// the generations.
    pub open spec fn least_book_bytes(&self) -> nat {
        self.vacant() * vstd::layout::size_of::<u32>() + self.young_list().len()
            * vstd::layout::size_of::<u32>() + self.remembered_list().len()
            * vstd::layout::size_of::<u32>()
    }

    /// One block more takes what one block takes.
    proof fn lemma_block_more(&self, count: nat)
        ensures
            self.bytes_of_blocks(count + 1) == self.bytes_of_blocks(count)
                + self.block_size() as nat * vstd::layout::size_of::<Option<T>>(),
    {
        let each = self.block_size() as nat * vstd::layout::size_of::<Option<T>>();
        vstd::arithmetic::mul::lemma_mul_is_distributive_add_other_way(
            each as int,
            count as int,
            1,
        );
        vstd::arithmetic::mul::lemma_mul_basics(each as int);
    }

    /// What a table takes whose vectors have so much room: its slots, and the
    /// bookkeeping beside them.
    pub fn footprint_with(rooms: &TableRooms) -> (r: (usize, usize))
        ensures
            r.0 == crate::memory::capped(
                rooms.slot_bytes(
                    vstd::layout::size_of::<Vec<Option<T>>>(),
                    vstd::layout::size_of::<Option<T>>(),
                ),
            ),
            r.1 == crate::memory::capped(rooms.book_bytes()),
    {
        let slots: usize = sized(
            rooms.listed,
            core::mem::size_of::<Vec<Option<T>>>(),
        ).saturating_add(summed(&rooms.blocks, core::mem::size_of::<Option<T>>()));
        let half: usize = core::mem::size_of::<u32>();
        let word: usize = core::mem::size_of::<u64>();
        let books: usize = sized(rooms.free, half)
            .saturating_add(sized(rooms.marks, word))
            .saturating_add(sized(rooms.young, half))
            .saturating_add(sized(rooms.young_bits, word))
            .saturating_add(sized(rooms.remembered, half))
            .saturating_add(sized(rooms.remembered_bits, word));
        (slots, books)
    }

    /// Whether vectors have room for what the table holds.
    pub closed spec fn roomy(&self, rooms: TableRooms) -> bool {
        &&& rooms.listed >= self.blocks@.len()
        &&& crate::memory::rooms_fit(rooms.blocks@, self.blocks@)
        &&& rooms.free >= self.free@.len()
        &&& rooms.marks >= self.marks.word_count()
        &&& rooms.young >= self.young_list().len()
        &&& rooms.young_bits >= self.young.word_count()
        &&& rooms.remembered >= self.remembered_list().len()
        &&& rooms.remembered_bits >= self.remembered.word_count()
    }

    /// Whether two numbers of bytes are what the table takes with so much room,
    /// for its slots and for the bookkeeping.
    pub open spec fn takes(&self, r: (usize, usize), rooms: TableRooms) -> bool {
        &&& self.roomy(rooms)
        &&& r.0 == crate::memory::capped(
            rooms.slot_bytes(
                vstd::layout::size_of::<Vec<Option<T>>>(),
                vstd::layout::size_of::<Option<T>>(),
            ),
        )
        &&& r.1 == crate::memory::capped(rooms.book_bytes())
    }

    /// Blocks with more room take no fewer bytes.
    proof fn lemma_block_rooms(&self, rooms: Seq<usize>, upto: int)
        requires
            self.wf(),
            crate::memory::rooms_fit(rooms, self.blocks@),
            0 <= upto <= self.blocks@.len(),
        ensures
            crate::memory::total(rooms.take(upto)) * vstd::layout::size_of::<Option<T>>()
                >= self.bytes_of_blocks(self.held(upto)),
        decreases upto,
    {
        let size = vstd::layout::size_of::<Option<T>>() as int;
        if upto == 0 {
            assert(0 * size == 0);
            assert(self.bytes_of_blocks(0) == 0) by (nonlinear_arith);
        } else {
            self.lemma_block_rooms(rooms, upto - 1);
            self.lemma_block_more(self.held(upto - 1));
            assert(rooms.take(upto).drop_last() =~= rooms.take(upto - 1));
            vstd::arithmetic::mul::lemma_mul_is_distributive_add_other_way(
                size,
                crate::memory::total(rooms.take(upto - 1)) as int,
                rooms[upto - 1] as int,
            );
            vstd::arithmetic::mul::lemma_mul_inequality(
                self.blocks@[upto - 1]@.len() as int,
                rooms[upto - 1] as int,
                size,
            );
        }
    }

    /// What the table has taken from the allocator: its slots, and the
    /// bookkeeping beside them. How much room the vectors have is the
    /// allocator's choice, and no less than they need.
    pub fn footprint(&self) -> (r: (usize, usize))
        requires
            self.wf(),
        ensures
            exists|rooms: TableRooms| #[trigger] self.takes(r, rooms),
            r.0 >= crate::memory::capped(self.least_slot_bytes()),
            r.1 >= crate::memory::capped(self.least_book_bytes()),
    {
        let (young, young_bits) = self.young.rooms();
        let (remembered, remembered_bits) = self.remembered.rooms();
        let rooms = TableRooms {
            listed: reserved(&self.blocks),
            blocks: rooms_of(&self.blocks),
            free: reserved(&self.free),
            marks: self.marks.word_room(),
            young,
            young_bits,
            remembered,
            remembered_bits,
        };
        let r: (usize, usize) = Self::footprint_with(&rooms);
        proof {
            assert(self.takes(r, rooms));
            let n = self.blocks@.len() as int;
            let half = vstd::layout::size_of::<u32>() as int;
            self.lemma_block_rooms(rooms.blocks@, n);
            assert(rooms.blocks@.take(n) =~= rooms.blocks@);
            vstd::arithmetic::mul::lemma_mul_inequality(
                n,
                rooms.listed as int,
                vstd::layout::size_of::<Vec<Option<T>>>() as int,
            );
            vstd::arithmetic::mul::lemma_mul_inequality(
                self.free@.len() as int,
                rooms.free as int,
                half,
            );
            vstd::arithmetic::mul::lemma_mul_inequality(
                self.young_list().len() as int,
                rooms.young as int,
                half,
            );
            vstd::arithmetic::mul::lemma_mul_inequality(
                self.remembered_list().len() as int,
                rooms.remembered as int,
                half,
            );
        }
        r
    }

    /// What the objects in the first `upto` slots own beyond them, if their
    /// vectors have so much room.
    pub closed spec fn owned_with(&self, rooms: Seq<usize>, upto: int) -> nat
        decreases upto,
    {
        if upto <= 0 {
            0
        } else {
            self.owned_with(rooms, upto - 1) + match self.slot_at(upto - 1) {
                Some(value) => value.contents_given(rooms[upto - 1] as nat),
                None => 0,
            }
        }
    }

    /// Whether a number of bytes is what the objects own beyond their slots, if
    /// their vectors have so much room, slot by slot.
    pub open spec fn owns(&self, bytes: usize, rooms: Seq<usize>) -> bool {
        &&& rooms.len() == self.numbered()
        &&& forall|i: u32| #[trigger]
            self@.contains_key(i) ==> i < rooms.len() && rooms[i as int] >= self@[i].filled()
        &&& bytes == crate::memory::capped(self.owned_with(rooms, self.numbered() as int))
    }

    /// Room in slots further on makes no difference.
    proof fn lemma_owned_with(&self, rooms: Seq<usize>, more: Seq<usize>, upto: int)
        requires
            upto <= rooms.len(),
            upto <= more.len(),
            forall|i: int| 0 <= i < upto ==> #[trigger] rooms[i] == more[i],
        ensures
            self.owned_with(rooms, upto) == self.owned_with(more, upto),
        decreases upto,
    {
        if upto > 0 {
            self.lemma_owned_with(rooms, more, upto - 1);
            assert(rooms[upto - 1] == more[upto - 1]);
        }
    }

    /// What the objects own beyond their slots.
    pub fn contents(&self) -> (bytes: usize)
        requires
            self.wf(),
        ensures
            bytes >= crate::memory::capped(self.least_owned(self.numbered() as int)),
            (forall|i: u32| self@.contains_key(i) ==> (#[trigger] self@[i]).exact()) ==> bytes
                == crate::memory::capped(self.least_owned(self.numbered() as int)),
            exists|rooms: Seq<usize>| #[trigger] self.owns(bytes, rooms),
    {
        let total: usize = self.slots();
        let mut bytes: usize = 0;
        let mut index: usize = 0;
        let ghost mut rooms: Seq<usize> = Seq::empty();
        while index < total
            invariant
                self.wf(),
                index <= total,
                total == self.numbered(),
                total <= MAX_SLOTS,
                rooms.len() == index,
                forall|i: u32| #[trigger]
                    self@.contains_key(i) && i < index ==> rooms[i as int] >= self@[i].filled(),
                bytes == crate::memory::capped(self.owned_with(rooms, index as int)),
                bytes >= crate::memory::capped(self.least_owned(index as int)),
                (forall|i: u32| self@.contains_key(i) ==> (#[trigger] self@[i]).exact())
                    ==> bytes == crate::memory::capped(self.least_owned(index as int)),
            decreases total - index,
        {
            proof {
                self.lemma_slot(index as u32);
            }
            let ghost earlier = rooms;
            match self.get(index as u32) {
                Some(value) => {
                    let size: usize = value.contents_size();
                    proof {
                        let room = choose|room: usize|
                            room >= value.filled() && size == crate::memory::capped(
                                #[trigger] value.contents_given(room as nat),
                            );
                        rooms = rooms.push(room);
                    }
                    bytes = bytes.saturating_add(size);
                },
                None => {
                    proof {
                        rooms = rooms.push(0);
                    }
                },
            }
            proof {
                self.lemma_owned_with(earlier, rooms, index as int);
            }
            index = index + 1;
        }
        proof {
            self.lemma_numbered();
            assert(self.owns(bytes, rooms));
        }
        bytes
    }

    /// The least that the objects in the first `upto` slots own beyond them.
    pub closed spec fn least_owned(&self, upto: int) -> nat
        decreases upto,
    {
        if upto <= 0 {
            0
        } else {
            self.least_owned(upto - 1) + match self.slot_at(upto - 1) {
                Some(value) => value.least_contents(),
                None => 0,
            }
        }
    }

    /// How many bytes the slots of so many blocks take.
    pub closed spec fn bytes_of_blocks(&self, count: nat) -> nat {
        count * (self.block_size() as nat * vstd::layout::size_of::<Option<T>>())
    }

    /// How many bytes the slots of so many blocks take.
    pub fn block_bytes(&self, count: usize) -> (bytes: usize)
        requires
            self.wf(),
        ensures
            bytes == crate::memory::capped(self.bytes_of_blocks(count as nat)),
            count == 0 ==> bytes == 0,
    {
        let size: usize = self.block();
        let slot: usize = self.slot_size();
        proof {
            crate::memory::lemma_sized_twice(count as nat, size as nat * slot as nat);
        }
        sized(count, sized(size, slot))
    }

    /// How many blocks the numbered slots span, how many are held, and how
    /// many have been given back.
    pub fn blocks_held(&self) -> (r: (usize, usize, usize))
        requires
            self.wf(),
        ensures
            r.0 == (self.numbered() + self.block_size() - 1) / self.block_size(),
            r.0 == self.spanned(),
            r.1 == self.held(self.spanned() as int),
            r.1 + r.2 == r.0,
    {
        let size: usize = self.block();
        proof {
            self.lemma_block_size();
        }
        let spanned: usize = (self.addressed + (size - 1)) / size;
        let mut held: usize = 0;
        let mut gone: usize = 0;
        let mut b: usize = 0;
        while b < self.blocks.len()
            invariant
                b <= self.blocks.len(),
                held == self.held(b as int),
                held + gone == b,
            decreases self.blocks.len() - b,
        {
            if self.blocks[b].len() == 0 {
                gone = gone + 1;
            } else {
                held = held + 1;
            }
            b = b + 1;
        }
        proof {
            let n = self.blocks@.len() as int;
            let a = self.addressed as int;
            let s = self.block_size();
            if n == 0 {
                if a > 0 {
                    assert((a - 1) / s < n);
                    lemma_split(a - 1, s);
                }
                lemma_split(a + s - 1, s);
                assert((a + s - 1) / s == 0) by (nonlinear_arith)
                    requires
                        a == 0,
                        s >= 1,
                ;
            } else {
                assert((n - 1) * s < a);
                assert((a - 1) / s < n);
                lemma_split(a - 1, s);
                lemma_split(a + s - 1, s);
                assert((a + s - 1) / s == n) by (nonlinear_arith)
                    requires
                        (n - 1) * s < a,
                        (a - 1) / s < n,
                        a - 1 == s * ((a - 1) / s) + (a - 1) % s,
                        0 <= (a - 1) % s < s,
                        a + s - 1 == s * ((a + s - 1) / s) + (a + s - 1) % s,
                        0 <= (a + s - 1) % s < s,
                        s >= 1,
                ;
            }
        }
        (spanned, held, gone)
    }
}

/// How much room the vectors of a table have: the list of blocks and each block,
/// the free list, the marks, and a list and bits for either generation.
pub struct TableRooms {
    pub listed: usize,
    pub blocks: Vec<usize>,
    pub free: usize,
    pub marks: usize,
    pub young: usize,
    pub young_bits: usize,
    pub remembered: usize,
    pub remembered_bits: usize,
}

impl TableRooms {
    /// How many bytes the slots take, by what a block's entry and a slot take.
    pub open spec fn slot_bytes(self, entry: nat, slot: nat) -> nat {
        self.listed as nat * entry + crate::memory::total(self.blocks@) * slot
    }

    /// How many bytes the bookkeeping takes.
    pub open spec fn book_bytes(self) -> nat {
        self.free as nat * vstd::layout::size_of::<u32>() + self.marks as nat
            * vstd::layout::size_of::<u64>() + self.young as nat * vstd::layout::size_of::<u32>()
            + self.young_bits as nat * vstd::layout::size_of::<u64>() + self.remembered as nat
            * vstd::layout::size_of::<u32>() + self.remembered_bits as nat
            * vstd::layout::size_of::<u64>()
    }
}

} // verus!
