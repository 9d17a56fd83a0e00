//! Where instances keep their fields: end to end in chunks, rather than one
//! allocation each.
//!
//! A run of fields never straddles two chunks. A run is never moved while a
//! program runs; a full collection closes the holes that dead runs left.

use vstd::prelude::*;

use crate::memory::{reserved, rooms_of, sized, summed};
use crate::value::Value;

verus! {

/// How many values the *n*th chunk holds at least.
pub open spec fn spec_field_chunk_size(index: int) -> int {
    if index == 0 {
        32
    } else if index == 1 {
        128
    } else if index == 2 {
        256
    } else {
        512
    }
}

/// How many values the *n*th chunk holds at least: small at first, growing to
/// a ceiling.
pub fn field_chunk_size(index: usize) -> (size: usize)
    ensures
        size == spec_field_chunk_size(index as int),
{
    match index {
        0 => 32,
        1 => 128,
        2 => 256,
        _ => 512,
    }
}

/// How many bits of a place give the offset within a chunk.
pub const FIELD_OFFSET_BITS: usize = 16;

/// The longest run of fields, and the longest chunk.
pub const MAX_FIELDS: usize = 65535;

/// The most chunks there can be: a place is numbered in thirty-two bits.
pub const MAX_CHUNKS: usize = 65535;

/// The chunk a place names.
pub open spec fn chunk_of(at: int) -> int {
    at / 65536
}

/// The offset within its chunk that a place names.
pub open spec fn offset_of(at: int) -> int {
    at % 65536
}

/// The place of an offset within a chunk.
pub open spec fn place_of(chunk: int, offset: int) -> int {
    chunk * 65536 + offset
}

/// Whether two runs share no field.
pub open spec fn apart(at: int, count: int, other: int, other_count: int) -> bool {
    ||| count == 0
    ||| other_count == 0
    ||| chunk_of(at) != chunk_of(other)
    ||| offset_of(at) + count <= offset_of(other)
    ||| offset_of(other) + other_count <= offset_of(at)
}

/// A run of fields: where it begins, how long it is, and which instance it
/// belongs to.
pub type Run = (u32, u32, u32);

/// The order of runs: by place, then length, then instance.
pub open spec fn run_le(a: Run, b: Run) -> bool {
    a.0 < b.0 || (a.0 == b.0 && (a.1 < b.1 || (a.1 == b.1 && a.2 <= b.2)))
}

/// How long each chunk is.
pub open spec fn sizes_of(chunks: Seq<Vec<Value>>) -> Seq<nat> {
    chunks.map_values(|chunk: Vec<Value>| chunk@.len())
}

/// Where a run goes that is to go to a place or behind it: to the place, if the
/// chunk has room for the run from there on, and else to the beginning of the
/// next chunk that has.
pub open spec fn fitted(sizes: Seq<nat>, chunk: int, offset: int, count: int) -> (int, int)
    decreases sizes.len() - chunk,
{
    if 0 <= chunk < sizes.len() && offset + count > sizes[chunk] {
        fitted(sizes, chunk + 1, 0, count)
    } else {
        (chunk, offset)
    }
}

/// Where the first so many runs end, placed one behind the other from the
/// beginning of the first chunk.
pub open spec fn end_of(sizes: Seq<nat>, runs: Seq<Run>, k: int) -> (int, int)
    decreases k,
{
    if k <= 0 {
        (0, 0)
    } else {
        let earlier = end_of(sizes, runs, k - 1);
        let (chunk, offset) = fitted(sizes, earlier.0, earlier.1, runs[k - 1].1 as int);
        (chunk, offset + runs[k - 1].1)
    }
}

/// Where a run is, if the runs are placed one behind the other.
pub open spec fn packed_at(sizes: Seq<nat>, runs: Seq<Run>, k: int) -> (int, int) {
    let (chunk, offset) = end_of(sizes, runs, k);
    fitted(sizes, chunk, offset, runs[k].1 as int)
}

/// The least number of bytes that the fields in the first so many chunks take.
pub open spec fn least_chunk_bytes(chunks: Seq<Vec<Value>>, upto: int) -> nat
    decreases upto,
{
    if upto <= 0 {
        0
    } else {
        least_chunk_bytes(chunks, upto - 1) + chunks[upto - 1]@.len()
            * vstd::layout::size_of::<Value>()
    }
}

/// `<[T]>::sort_unstable` on runs: the same runs, in the order that tuples
/// have, which compares the parts from first to last.
#[verifier::external_body]
pub(crate) fn sort_runs(runs: &mut Vec<Run>)
    ensures
        final(runs)@.to_multiset() == old(runs)@.to_multiset(),
        forall|i: int, j: int|
            0 <= i < j < final(runs)@.len() ==> run_le(
                #[trigger] final(runs)@[i],
                #[trigger] final(runs)@[j],
            ),
{
    runs.sort_unstable();
}

/// Chunks of instance fields, and how far into the last one is used.
#[derive(Debug)]
pub struct FieldArena {
    pub chunks: Vec<Vec<Value>>,
    /// How much of the last chunk is used.
    pub used: usize,
    /// Chunks that compaction emptied, waiting to be filled again.
    pub spare: Vec<Vec<Value>>,
}

/// The bits of a place, as arithmetic.
proof fn lemma_place_bits(at: u32, chunk: u32, offset: u32)
    by (bit_vector)
    requires
        chunk < 65536,
        offset < 65536,
    ensures
        at >> 16 == at / 65536,
        at & 0xffff == at % 65536,
        (chunk << 16) | offset == chunk * 65536 + offset,
        chunk * 65536 + offset <= 0xffff_ffff,
{
}

impl FieldArena {
    /// Whether a run lies within the chunks, in the part that is used.
    pub open spec fn holds(&self, at: int, count: int) -> bool {
        &&& 0 <= at
        &&& 0 <= count
        &&& chunk_of(at) < self.chunks@.len()
        &&& offset_of(at) + count <= self.chunks@[chunk_of(at)]@.len()
        &&& chunk_of(at) == self.chunks@.len() - 1 ==> offset_of(at) + count <= self.used
    }

    /// The fields of a run.
    pub open spec fn run(&self, at: int, count: int) -> Seq<Value> {
        self.chunks@[chunk_of(at)]@.subrange(offset_of(at), offset_of(at) + count)
    }

    /// The arena's invariant.
    pub open spec fn wf(&self) -> bool {
        &&& self.chunks@.len() <= MAX_CHUNKS
        &&& forall|c: int|
            0 <= c < self.chunks@.len() ==> (#[trigger] self.chunks@[c])@.len() <= MAX_FIELDS
        &&& forall|c: int|
            0 <= c < self.spare@.len() ==> (#[trigger] self.spare@[c])@.len() <= MAX_FIELDS
        &&& if self.chunks@.len() > 0 {
            self.used <= self.chunks@.last()@.len()
        } else {
            self.used == 0
        }
    }

    /// No chunks yet.
    pub fn new() -> (arena: FieldArena)
        ensures
            arena.wf(),
            arena.chunks@.len() == 0,
    {
        FieldArena { chunks: Vec::new(), used: 0, spare: Vec::new() }
    }

    /// Split a place into the chunk it names and the offset within it.
    pub fn field_place(at: u32) -> (r: (usize, usize))
        ensures
            r.0 == chunk_of(at as int),
            r.1 == offset_of(at as int),
    {
        proof {
            lemma_place_bits(at, 0, 0);
        }
        ((at >> 16) as usize, (at & 0xffff) as usize)
    }

    /// The place of an offset within a chunk.
    pub fn make_place(chunk: usize, offset: usize) -> (at: u32)
        requires
            chunk < 65536,
            offset < 65536,
        ensures
            at == place_of(chunk as int, offset as int),
            chunk_of(at as int) == chunk,
            offset_of(at as int) == offset,
    {
        proof {
            lemma_place_bits(0, chunk as u32, offset as u32);
        }
        ((chunk as u32) << 16) | (offset as u32)
    }

    /// A chunk of nulls.
    fn blank(len: usize) -> (chunk: Vec<Value>)
        ensures
            chunk@.len() == len,
    {
        let mut chunk: Vec<Value> = Vec::new();
        while chunk.len() < len
            invariant
                chunk@.len() <= len,
            decreases len - chunk.len(),
        {
            chunk.push(Value::null());
        }
        chunk
    }

    /// Put a run of fields in a chunk and say where it went.
    ///
    /// A run that does not fit in what is left of the last chunk starts a new
    /// one: one that was kept, where it is long enough.
    pub fn place_fields(&mut self, fields: &[Value]) -> (at: u32)
        requires
            old(self).wf(),
            old(self).chunks@.len() < MAX_CHUNKS,
            fields@.len() <= MAX_FIELDS,
        ensures
            final(self).wf(),
            final(self).chunks@.len() <= old(self).chunks@.len() + 1,
            final(self).holds(at as int, fields@.len() as int),
            at < u32::MAX,
            final(self).run(at as int, fields@.len() as int) == fields@,
            forall|a: int, c: int| #[trigger]
                old(self).holds(a, c) ==> {
                    &&& final(self).holds(a, c)
                    &&& final(self).run(a, c) == old(self).run(a, c)
                    &&& apart(a, c, at as int, fields@.len() as int)
                },
    {
        let ghost before = *self;
        let room: usize = if self.chunks.len() > 0 {
            self.chunks[self.chunks.len() - 1].len() - self.used
        } else {
            0
        };
        if self.chunks.len() == 0 || room < fields.len() {
            let least: usize = field_chunk_size(self.chunks.len());
            let wanted: usize = if least < fields.len() {
                fields.len()
            } else {
                least
            };
            let chunk: Vec<Value> = match self.spare.pop() {
                Some(chunk) => {
                    proof {
                        assert(before.spare@[before.spare@.len() - 1] == chunk);
                    }
                    if chunk.len() >= wanted {
                        chunk
                    } else {
                        self.spare.push(chunk);
                        FieldArena::blank(wanted)
                    }
                },
                None => FieldArena::blank(wanted),
            };
            self.chunks.push(chunk);
            self.used = 0;
            proof {
                assert forall|c: int| 0 <= c < self.spare@.len() implies (
                #[trigger] self.spare@[c])@.len() <= MAX_FIELDS by {
                    assert(self.spare@[c] == before.spare@[c]);
                }
            }
        }
        let ghost ready = *self;
        let chunk: usize = self.chunks.len() - 1;
        let offset: usize = self.used;
        let mut i: usize = 0;
        while i < fields.len()
            invariant
                ready.wf(),
                self.wf(),
                ready.chunks@.len() > 0,
                chunk == ready.chunks@.len() - 1,
                offset == ready.used,
                offset + fields@.len() <= ready.chunks@[chunk as int]@.len(),
                i <= fields@.len(),
                self.used == ready.used,
                self.spare == ready.spare,
                self.chunks@.len() == ready.chunks@.len(),
                forall|c: int| 0 <= c < chunk ==> #[trigger] self.chunks@[c] == ready.chunks@[c],
                self.chunks@[chunk as int]@.len() == ready.chunks@[chunk as int]@.len(),
                forall|k: int|
                    0 <= k < offset ==> #[trigger] self.chunks@[chunk as int]@[k]
                        == ready.chunks@[chunk as int]@[k],
                forall|k: int|
                    offset <= k < offset + i ==> #[trigger] self.chunks@[chunk as int]@[k]
                        == fields@[k - offset],
            decreases fields@.len() - i,
        {
            self.chunks[chunk][offset + i] = fields[i];
            i = i + 1;
        }
        self.used = offset + fields.len();
        let at: u32 = FieldArena::make_place(chunk, offset);
        proof {
            let n = fields@.len() as int;
            assert(self.run(at as int, n) =~= fields@);
            assert forall|a: int, c: int| #[trigger] before.holds(a, c) implies {
                &&& self.holds(a, c)
                &&& self.run(a, c) == before.run(a, c)
                &&& apart(a, c, at as int, n)
            } by {
                assert(ready.chunks@[chunk_of(a)] == before.chunks@[chunk_of(a)]);
                assert(self.run(a, c) =~= before.run(a, c));
            }
        }
        at
    }

    /// Read one field of a run.
    pub fn read(&self, at: u32, count: usize, index: usize) -> (value: Value)
        requires
            self.wf(),
            self.holds(at as int, count as int),
            index < count,
        ensures
            value == self.run(at as int, count as int)[index as int],
    {
        let (chunk, offset) = FieldArena::field_place(at);
        self.chunks[chunk][offset + index]
    }

    /// Write one field of a run. Runs apart from it keep their fields.
    pub fn write(&mut self, at: u32, count: usize, index: usize, value: Value)
        requires
            old(self).wf(),
            old(self).holds(at as int, count as int),
            index < count,
        ensures
            final(self).wf(),
            final(self).chunks@.len() == old(self).chunks@.len(),
            final(self).run(at as int, count as int) == old(self).run(
                at as int,
                count as int,
            ).update(index as int, value),
            forall|a: int, c: int| #[trigger] final(self).holds(a, c) == old(self).holds(a, c),
            forall|a: int, c: int|
                old(self).holds(a, c) && apart(a, c, at as int, count as int)
                    ==> #[trigger] final(self).run(a, c) == old(self).run(a, c),
    {
        let ghost before = *self;
        let (chunk, offset) = FieldArena::field_place(at);
        self.chunks[chunk][offset + index] = value;
        proof {
            assert(self.run(at as int, count as int) =~= before.run(
                at as int,
                count as int,
            ).update(index as int, value));
            assert forall|a: int, c: int|
                before.holds(a, c) && apart(
                    a,
                    c,
                    at as int,
                    count as int,
                ) implies #[trigger] self.run(a, c) == before.run(a, c) by {
                assert(self.run(a, c) =~= before.run(a, c));
            }
        }
    }

    /// What an arena takes whose vectors have so much room.
    pub fn footprint_with(rooms: &FieldRooms) -> (bytes: usize)
        ensures
            bytes == crate::memory::capped(rooms.bytes()),
    {
        let list: usize = core::mem::size_of::<Vec<Value>>();
        let field: usize = core::mem::size_of::<Value>();
        sized(rooms.held, list)
            .saturating_add(summed(&rooms.chunks, field))
            .saturating_add(sized(rooms.waiting, list))
            .saturating_add(summed(&rooms.spares, field))
    }

    /// Whether vectors have room for what the arena holds.
    pub open spec fn roomy(&self, rooms: FieldRooms) -> bool {
        &&& rooms.held >= self.chunks@.len()
        &&& crate::memory::rooms_fit(rooms.chunks@, self.chunks@)
        &&& rooms.waiting >= self.spare@.len()
        &&& crate::memory::rooms_fit(rooms.spares@, self.spare@)
    }

    /// Whether a number of bytes is what the arena takes with so much room.
    pub open spec fn takes(&self, bytes: usize, rooms: FieldRooms) -> bool {
        self.roomy(rooms) && bytes == crate::memory::capped(rooms.bytes())
    }

    /// What the chunks have taken from the allocator, spare ones among them. How
    /// much room the vectors have is the allocator's choice, and no less than
    /// they need.
    pub fn footprint(&self) -> (bytes: usize)
        ensures
            exists|rooms: FieldRooms| #[trigger] self.takes(bytes, rooms),
            bytes >= crate::memory::capped(
                self.chunks@.len() * vstd::layout::size_of::<Vec<Value>>() + least_chunk_bytes(
                    self.chunks@,
                    self.chunks@.len() as int,
                ) + self.spare@.len() * vstd::layout::size_of::<Vec<Value>>() + least_chunk_bytes(
                    self.spare@,
                    self.spare@.len() as int,
                ),
            ),
    {
        let rooms = FieldRooms {
            held: reserved(&self.chunks),
            chunks: rooms_of(&self.chunks),
            waiting: reserved(&self.spare),
            spares: rooms_of(&self.spare),
        };
        let bytes: usize = FieldArena::footprint_with(&rooms);
        proof {
            let list = vstd::layout::size_of::<Vec<Value>>() as int;
            assert(self.takes(bytes, rooms));
            vstd::arithmetic::mul::lemma_mul_inequality(
                self.chunks@.len() as int,
                rooms.held as int,
                list,
            );
            vstd::arithmetic::mul::lemma_mul_inequality(
                self.spare@.len() as int,
                rooms.waiting as int,
                list,
            );
            lemma_chunk_rooms(rooms.chunks@, self.chunks@, self.chunks@.len() as int);
            lemma_chunk_rooms(rooms.spares@, self.spare@, self.spare@.len() as int);
            assert(rooms.chunks@.take(self.chunks@.len() as int) =~= rooms.chunks@);
            assert(rooms.spares@.take(self.spare@.len() as int) =~= rooms.spares@);
        }
        bytes
    }

    /// How many fields the first so many chunks have room for.
    pub open spec fn room_before(&self, chunks: int) -> nat
        decreases chunks,
    {
        if chunks <= 0 {
            0
        } else {
            self.room_before(chunks - 1) + self.chunks@[chunks - 1]@.len()
        }
    }

    /// How many fields lie in the used part of the chunks: every chunk but the
    /// last in full, and what is used of that one.
    pub fn used_fields(&self) -> (total: u64)
        requires
            self.wf(),
        ensures
            total == self.room_before(self.chunks@.len() - 1) + self.used,
    {
        let mut total: u64 = 0;
        let mut c: usize = 0;
        while c + 1 < self.chunks.len()
            invariant
                self.wf(),
                c <= self.chunks@.len(),
                c == 0 || c < self.chunks@.len(),
                total == self.room_before(c as int),
                total <= c * 65535,
            decreases self.chunks@.len() - c,
        {
            total = total + self.chunks[c].len() as u64;
            c = c + 1;
        }
        total + self.used as u64
    }

    /// Whether runs are in order, all held, and share no field.
    pub open spec fn runs_wf(&self, runs: Seq<Run>) -> bool {
        &&& forall|i: int|
            0 <= i < runs.len() ==> self.holds(
                (#[trigger] runs[i]).0 as int,
                runs[i].1 as int,
            )
        &&& forall|i: int, j: int|
            0 <= i < j < runs.len() ==> run_le(#[trigger] runs[i], #[trigger] runs[j]) && apart(
                runs[i].0 as int,
                runs[i].1 as int,
                runs[j].0 as int,
                runs[j].1 as int,
            )
    }

    /// Whether a place is at or before another.
    pub open spec fn at_most(chunk: int, offset: int, at: int) -> bool {
        chunk < chunk_of(at) || (chunk == chunk_of(at) && offset <= offset_of(at))
    }

    /// Whether an arena is an earlier one with its runs placed one behind the
    /// other, and the chunks behind them taken off, one of which may be kept.
    pub open spec fn packed(&self, before: &FieldArena, runs: Seq<Run>) -> bool {
        let sizes = sizes_of(before.chunks@);
        let end = end_of(sizes, runs, runs.len() as int);
        if before.chunks@.len() == 0 {
            &&& self.chunks@.len() == 0
            &&& self.used == before.used
            &&& self.spare@ == if before.spare@.len() > 1 {
                before.spare@.take(1)
            } else {
                before.spare@
            }
        } else {
            &&& self.used == end.1
            &&& self.chunks@.len() == end.0 + 1
            &&& sizes_of(self.chunks@) == sizes.take(end.0 + 1)
            &&& self.spare@.len() == if before.spare@.len() > 0 || end.0 + 1
                < before.chunks@.len() {
                1int
            } else {
                0
            }
        }
    }

    /// Move every run down over the holes before it, in place and in order.
    ///
    /// A run moves to a place at or below where it was, so copying them in
    /// order never overwrites one that has not been copied yet. One emptied
    /// chunk is kept for later and the rest are given back.
    pub fn compact(&mut self, runs: &Vec<Run>) -> (moved: Vec<u32>)
        requires
            old(self).wf(),
            old(self).runs_wf(runs@),
        ensures
            final(self).wf(),
            final(self).chunks@.len() <= old(self).chunks@.len(),
            final(self).spare@.len() <= 1,
            final(self).packed(old(self), runs@),
            moved@.len() == runs@.len(),
            forall|i: int|
                0 <= i < runs@.len() ==> (#[trigger] moved@[i]) == place_of(
                    packed_at(sizes_of(old(self).chunks@), runs@, i).0,
                    packed_at(sizes_of(old(self).chunks@), runs@, i).1,
                ),
            forall|i: int|
                0 <= i < runs@.len() ==> {
                    &&& (#[trigger] moved@[i]) < u32::MAX
                    &&& final(self).holds(moved@[i] as int, runs@[i].1 as int)
                    &&& final(self).run(moved@[i] as int, runs@[i].1 as int) == old(self).run(
                        runs@[i].0 as int,
                        runs@[i].1 as int,
                    )
                },
            forall|i: int, j: int|
                0 <= i < j < runs@.len() ==> apart(
                    (#[trigger] moved@[i]) as int,
                    runs@[i].1 as int,
                    (#[trigger] moved@[j]) as int,
                    runs@[j].1 as int,
                ),
    {
        let ghost before = *self;
        let ghost sizes = sizes_of(self.chunks@);
        let mut moved: Vec<u32> = Vec::new();
        let mut to_chunk: usize = 0;
        let mut to_offset: usize = 0;
        let mut k: usize = 0;
        proof {
            if runs@.len() > 0 {
                assert(before.holds(runs@[0].0 as int, runs@[0].1 as int));
            }
        }
        while k < runs.len()
            invariant
                before.wf(),
                before.runs_wf(runs@),
                k <= runs@.len(),
                moved@.len() == k,
                self.used == before.used,
                self.spare == before.spare,
                self.chunks@.len() == before.chunks@.len(),
                forall|c: int|
                    0 <= c < self.chunks@.len() ==> (#[trigger] self.chunks@[c])@.len()
                        == before.chunks@[c]@.len(),
                runs@.len() > 0 ==> to_chunk < self.chunks@.len(),
                to_chunk < self.chunks@.len() ==> to_offset <= self.chunks@[to_chunk as int]@.len(),
                k == 0 ==> to_chunk == 0 && to_offset == 0,
                sizes == sizes_of(before.chunks@),
                end_of(sizes, runs@, k as int) == (to_chunk as int, to_offset as int),
                forall|j: int|
                    0 <= j < k ==> (#[trigger] moved@[j]) == place_of(
                        packed_at(sizes, runs@, j).0,
                        packed_at(sizes, runs@, j).1,
                    ),
                forall|j: int|
                    0 <= j < k ==> {
                        &&& (#[trigger] moved@[j]) < u32::MAX
                        &&& chunk_of(moved@[j] as int) < to_chunk || (chunk_of(moved@[j] as int)
                            == to_chunk && offset_of(moved@[j] as int) + runs@[j].1 <= to_offset)
                        &&& offset_of(moved@[j] as int) + runs@[j].1 <= self.chunks@[chunk_of(
                            moved@[j] as int,
                        )]@.len()
                        &&& self.run(moved@[j] as int, runs@[j].1 as int) == before.run(
                            runs@[j].0 as int,
                            runs@[j].1 as int,
                        )
                    },
                forall|i: int, j: int|
                    0 <= i < j < k ==> apart(
                        (#[trigger] moved@[i]) as int,
                        runs@[i].1 as int,
                        (#[trigger] moved@[j]) as int,
                        runs@[j].1 as int,
                    ),
                forall|j: int|
                    k <= j < runs@.len() && (#[trigger] runs@[j]).1 > 0 ==> {
                        &&& Self::at_most(to_chunk as int, to_offset as int, runs@[j].0 as int)
                        &&& self.run(runs@[j].0 as int, runs@[j].1 as int) == before.run(
                            runs@[j].0 as int,
                            runs@[j].1 as int,
                        )
                    },
            decreases runs@.len() - k,
        {
            let (at, wide, _) = runs[k];
            let count: usize = wide as usize;
            let (from_chunk, from_offset) = FieldArena::field_place(at);
            proof {
                assert(before.holds(runs@[k as int].0 as int, runs@[k as int].1 as int));
            }
            let ghost cursor_chunk = to_chunk;
            let ghost cursor_offset = to_offset;
            while to_offset + count > self.chunks[to_chunk].len()
                invariant
                    before.wf(),
                    self.chunks@.len() == before.chunks@.len(),
                    forall|c: int|
                        0 <= c < self.chunks@.len() ==> (#[trigger] self.chunks@[c])@.len()
                            == before.chunks@[c]@.len(),
                    sizes == sizes_of(before.chunks@),
                    fitted(sizes, to_chunk as int, to_offset as int, count as int) == fitted(
                        sizes,
                        cursor_chunk as int,
                        cursor_offset as int,
                        count as int,
                    ),
                    before.holds(at as int, count as int),
                    from_chunk == chunk_of(at as int),
                    from_offset == offset_of(at as int),
                    to_chunk < self.chunks@.len(),
                    to_offset <= self.chunks@[to_chunk as int]@.len(),
                    count <= 65535,
                    count > 0 ==> Self::at_most(to_chunk as int, to_offset as int, at as int),
                    to_chunk > cursor_chunk || (to_chunk == cursor_chunk && to_offset
                        == cursor_offset),
                    count == 0 ==> to_chunk == cursor_chunk,
                decreases self.chunks@.len() - to_chunk,
            {
                to_chunk = to_chunk + 1;
                to_offset = 0;
            }
            let place: u32 = FieldArena::make_place(to_chunk, to_offset);
            let ghost prior = *self;
            if to_chunk != from_chunk || to_offset != from_offset {
                let mut step: usize = 0;
                let mut run: Vec<Value> = Vec::new();
                while step < count
                    invariant
                        step <= count <= 65535,
                        from_offset <= 65535,
                        run@.len() == step,
                        from_chunk < self.chunks@.len(),
                        from_offset + count <= self.chunks@[from_chunk as int]@.len(),
                        forall|i: int|
                            0 <= i < step ==> run@[i] == self.chunks@[from_chunk as int]@[
                            from_offset + i],
                    decreases count - step,
                {
                    run.push(self.chunks[from_chunk][from_offset + step]);
                    step = step + 1;
                }
                step = 0;
                while step < count
                    invariant
                        step <= count <= 65535,
                        to_offset <= 65535,
                        run@.len() == count,
                        to_chunk < prior.chunks@.len(),
                        to_offset + count <= prior.chunks@[to_chunk as int]@.len(),
                        self.used == prior.used,
                        self.spare == prior.spare,
                        self.chunks@.len() == prior.chunks@.len(),
                        forall|c: int|
                            0 <= c < self.chunks@.len() && c != to_chunk
                                ==> #[trigger] self.chunks@[c] == prior.chunks@[c],
                        self.chunks@[to_chunk as int]@.len() == prior.chunks@[to_chunk as int]@.len(),
                        forall|i: int|
                            0 <= i < self.chunks@[to_chunk as int]@.len()
                                ==> #[trigger] self.chunks@[to_chunk as int]@[i] == if to_offset
                                <= i < to_offset + step {
                                run@[i - to_offset]
                            } else {
                                prior.chunks@[to_chunk as int]@[i]
                            },
                    decreases count - step,
                {
                    self.chunks[to_chunk][to_offset + step] = run[step];
                    step = step + 1;
                }
                proof {
                    assert(self.run(place as int, count as int) =~= prior.run(
                        at as int,
                        count as int,
                    ));
                }
            }
            moved.push(place);
            proof {
                if count > 0 {
                    assert(prior.run(at as int, count as int) == before.run(
                        at as int,
                        count as int,
                    ));
                }
                assert(self.run(place as int, count as int) =~= before.run(at as int, count as int));
                assert forall|j: int| 0 <= j < k implies self.run(
                    (#[trigger] moved@[j]) as int,
                    runs@[j].1 as int,
                ) == before.run(runs@[j].0 as int, runs@[j].1 as int) by {
                    let a = moved@[j] as int;
                    let c = runs@[j].1 as int;
                    assert(prior.run(a, c) == before.run(runs@[j].0 as int, c));
                    assert(self.run(a, c) =~= prior.run(a, c));
                }
                assert forall|j: int|
                    k < j < runs@.len() && (#[trigger] runs@[j]).1 > 0 implies {
                    &&& Self::at_most(to_chunk as int, to_offset + count, runs@[j].0 as int)
                    &&& self.run(runs@[j].0 as int, runs@[j].1 as int) == before.run(
                        runs@[j].0 as int,
                        runs@[j].1 as int,
                    )
                } by {
                    let a = runs@[j].0 as int;
                    let c = runs@[j].1 as int;
                    assert(run_le(runs@[k as int], runs@[j]));
                    assert(before.holds(a, c));
                    assert(prior.run(a, c) == before.run(a, c));
                    if count > 0 {
                        assert(apart(at as int, count as int, a, c));
                        assert(chunk_of(at as int) <= chunk_of(a));
                        assert(chunk_of(at as int) == chunk_of(a) ==> offset_of(at as int)
                            + count <= offset_of(a));
                    }
                    assert(self.run(a, c) =~= prior.run(a, c));
                }
            }
            to_offset = to_offset + count;
            k = k + 1;
        }
        let ghost packed = *self;
        if self.chunks.len() > 0 {
            self.used = to_offset;
            let needed: usize = to_chunk + 1;
            while self.chunks.len() > needed
                invariant
                    packed.chunks@.len() == before.chunks@.len(),
                    before.wf(),
                    forall|c: int|
                        0 <= c < packed.chunks@.len() ==> (#[trigger] packed.chunks@[c])@.len()
                            <= MAX_FIELDS,
                    1 <= needed <= self.chunks@.len() <= packed.chunks@.len(),
                    self.used == to_offset,
                    forall|c: int|
                        0 <= c < self.chunks@.len() ==> #[trigger] self.chunks@[c]
                            == packed.chunks@[c],
                    self.spare@.len() == packed.spare@.len() + packed.chunks@.len()
                        - self.chunks@.len(),
                    forall|c: int|
                        0 <= c < self.spare@.len() ==> (#[trigger] self.spare@[c])@.len()
                            <= MAX_FIELDS,
                decreases self.chunks.len(),
            {
                match self.chunks.pop() {
                    Some(chunk) => {
                        self.spare.push(chunk);
                    },
                    None => {},
                }
            }
        }
        self.spare.truncate(1);
        proof {
            if before.chunks@.len() > 0 {
                assert(sizes_of(self.chunks@) =~= sizes.take(to_chunk + 1));
            } else {
                assert(self.spare@ =~= if before.spare@.len() > 1 {
                    before.spare@.take(1)
                } else {
                    before.spare@
                });
            }
            assert forall|i: int| 0 <= i < runs@.len() implies {
                &&& (#[trigger] moved@[i]) < u32::MAX
                &&& self.holds(moved@[i] as int, runs@[i].1 as int)
                &&& self.run(moved@[i] as int, runs@[i].1 as int) == before.run(
                    runs@[i].0 as int,
                    runs@[i].1 as int,
                )
            } by {
                let a = moved@[i] as int;
                let c = runs@[i].1 as int;
                assert(packed.run(a, c) == before.run(runs@[i].0 as int, c));
                assert(self.chunks@[chunk_of(a)] == packed.chunks@[chunk_of(a)]);
            }
        }
        moved
    }
}

/// How much room the vectors of an arena have: the list of chunks and each chunk,
/// and the list of spare chunks and each of those.
pub struct FieldRooms {
    pub held: usize,
    pub chunks: Vec<usize>,
    pub waiting: usize,
    pub spares: Vec<usize>,
}

impl FieldRooms {
    /// How many bytes that is.
    pub open spec fn bytes(self) -> nat {
        self.held as nat * vstd::layout::size_of::<Vec<Value>>() + crate::memory::total(
            self.chunks@,
        ) * vstd::layout::size_of::<Value>() + self.waiting as nat * vstd::layout::size_of::<
            Vec<Value>,
        >() + crate::memory::total(self.spares@) * vstd::layout::size_of::<Value>()
    }
}

/// Chunks with more room take no fewer bytes.
proof fn lemma_chunk_rooms(rooms: Seq<usize>, chunks: Seq<Vec<Value>>, upto: int)
    requires
        crate::memory::rooms_fit(rooms, chunks),
        0 <= upto <= chunks.len(),
    ensures
        crate::memory::total(rooms.take(upto)) * vstd::layout::size_of::<Value>()
            >= least_chunk_bytes(chunks, upto),
    decreases upto,
{
    let size = vstd::layout::size_of::<Value>() as int;
    if upto == 0 {
        assert(0 * size == 0);
    } else {
        lemma_chunk_rooms(rooms, chunks, upto - 1);
        assert(rooms.take(upto).drop_last() =~= rooms.take(upto - 1));
        vstd::arithmetic::mul::lemma_mul_is_distributive_add_other_way(
            size,
            crate::memory::total(rooms.take(upto - 1)) as int,
            rooms[upto - 1] as int,
        );
        vstd::arithmetic::mul::lemma_mul_inequality(
            chunks[upto - 1]@.len() as int,
            rooms[upto - 1] as int,
            size,
        );
    }
}

} // verus!
