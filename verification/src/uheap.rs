//! A fixed-size heap for a part that has no allocator.
//!
//! The table of block records grows from the front of a buffer, and blocks are
//! cut from its back. The heap is full when they would overlap. Everything is
//! counted in units, and a unit is a `usize`, so every block starts aligned
//! for one.

use vstd::arithmetic::power2::*;
use vstd::prelude::*;

verus! {

/// The largest number of units one block may span.
pub const SIZE: u16 = 32767;

/// What a record's size carries on top when the block is free.
pub const FREE: u16 = 32768;

/// The largest number of units a heap may span.
pub const MAX_UNITS: usize = 65535;

/// One unit of the buffer, which is also one record.
pub type Unit = usize;

/// Where a block sits and how big it is.
#[derive(Clone, Copy, PartialEq, Eq, Structural, Debug)]
pub struct Record {
    /// First unit of the block.
    pub index: u16,
    /// Units the block spans.
    pub size: u16,
    /// Whether nobody has it.
    pub free: bool,
}

/// A record as a unit holds it.
pub open spec fn packed(record: Record) -> int {
    record.index * 65536 + record.size + if record.free {
        32768int
    } else {
        0
    }
}

/// The record that a unit holds.
pub open spec fn unpacked(unit: Unit) -> Record {
    Record {
        index: ((unit / 65536) % 65536) as u16,
        size: (unit % 32768) as u16,
        free: (unit / 32768) % 2 == 1,
    }
}

/// A record is read back as it was written.
pub proof fn law_record_round_trip(record: Record)
    requires
        record.size <= SIZE,
    ensures
        0 <= packed(record) <= u32::MAX,
        unpacked(packed(record) as usize) == record,
{
}

/// Blocks that lie one below the other, from the end of the buffer down.
pub open spec fn stacked(records: Seq<Record>, units: int) -> bool {
    forall|i: int|
        0 <= i < records.len() ==> records[i].index + records[i].size == #[trigger] top_of(
            records,
            units,
            i,
        )
}

/// Where the block of a record ends.
pub open spec fn top_of(records: Seq<Record>, units: int, i: int) -> int {
    if i <= 0 {
        units
    } else {
        records[i - 1].index as int
    }
}

/// The lowest unit that any block occupies.
pub open spec fn lowest(records: Seq<Record>, units: int) -> int {
    top_of(records, units, records.len() as int)
}

/// A record and the one above it are not two holes that could be one.
pub open spec fn apart(records: Seq<Record>, i: int) -> bool {
    records[i].free && records[i - 1].free ==> records[i].size + records[i - 1].size > SIZE
}

/// Two holes that could be one do not sit side by side.
pub open spec fn holes_apart(records: Seq<Record>) -> bool {
    forall|i: int| 0 < i < records.len() ==> #[trigger] apart(records, i)
}

/// Every block is as large as a block may be.
pub open spec fn sizes_fit(records: Seq<Record>) -> bool {
    forall|i: int|
        0 <= i < records.len() ==> 1 <= (#[trigger] records[i]).size && records[i].size <= SIZE
}

/// What holds of the table: blocks lie one below the other without gaps, none
/// is empty, the table ends before the lowest, holes are merged, and the lowest
/// block is not a hole.
pub open spec fn table_wf(records: Seq<Record>, units: int) -> bool {
    &&& 0 <= units <= MAX_UNITS
    &&& stacked(records, units)
    &&& sizes_fit(records)
    &&& records.len() <= lowest(records, units)
    &&& holes_apart(records)
    &&& records.len() > 0 ==> !records.last().free
}

/// Whether a hole can be handed out.
pub open spec fn fits(record: Record, units: int, align: int) -> bool {
    record.free && record.size >= units && record.index as int % align == 0
}

/// Whether some hole can be handed out.
pub open spec fn any_fits(records: Seq<Record>, units: int, align: int) -> bool {
    exists|at: int| 0 <= at < records.len() && fits(#[trigger] records[at], units, align)
}

/// The snuggest hole that can be handed out, and the highest of those.
pub open spec fn snuggest(records: Seq<Record>, units: int, align: int, at: int) -> bool {
    &&& 0 <= at < records.len()
    &&& fits(records[at], units, align)
    &&& forall|i: int|
        0 <= i < records.len() && fits(#[trigger] records[i], units, align) ==> records[at].size
            < records[i].size || (records[at].size == records[i].size && at <= i)
}

/// Whether a request can be met at all.
pub open spec fn asked_well(units: int, align: int) -> bool {
    1 <= units <= SIZE && (align == 0 || exists|k: nat| align == #[trigger] pow2(k))
}

/// An alignment, with none read as one.
pub open spec fn aligned(align: int) -> int {
    if align == 0 {
        1
    } else {
        align
    }
}

/// Where a new block starts: as high as it can, on the alignment.
pub open spec fn cut_at(floor: int, units: int, align: int) -> int {
    (floor - units) / align * align
}

/// Whether a new block fits between the table and the lowest block.
pub open spec fn cut_fits(records: Seq<Record>, total: int, units: int, align: int) -> bool {
    let floor = lowest(records, total);
    &&& units <= floor
    &&& records.len() + 1 <= cut_at(floor, units, align)
    &&& floor - cut_at(floor, units, align) <= SIZE
}

/// Fold the block below a record into it.
pub open spec fn folded(records: Seq<Record>, upper: int) -> Seq<Record> {
    records.update(
        upper,
        Record {
            index: records[upper + 1].index,
            size: (records[upper].size + records[upper + 1].size) as u16,
            free: true,
        },
    ).remove(upper + 1)
}

/// Whether a record and the one below it are holes that could be one.
pub open spec fn foldable(records: Seq<Record>, upper: int) -> bool {
    &&& 0 <= upper
    &&& upper + 1 < records.len()
    &&& records[upper].free
    &&& records[upper + 1].free
    &&& records[upper].size + records[upper + 1].size <= SIZE
}

/// The records without the holes at the end.
pub open spec fn trimmed(records: Seq<Record>) -> Seq<Record>
    decreases records.len(),
{
    if records.len() > 0 && records.last().free {
        trimmed(records.drop_last())
    } else {
        records
    }
}

/// A record marked free.
pub open spec fn marked(records: Seq<Record>, at: int) -> Seq<Record> {
    records.update(at, Record { free: true, ..records[at] })
}

/// The records with a block marked free and merged with its neighbours.
pub open spec fn merged(records: Seq<Record>, at: int) -> Seq<Record> {
    let first = marked(records, at);
    let second = if foldable(first, at) {
        folded(first, at)
    } else {
        first
    };
    if foldable(second, at - 1) {
        folded(second, at - 1)
    } else {
        second
    }
}

/// Blocks lie within the buffer, each below the one before.
proof fn lemma_descending(records: Seq<Record>, units: int, i: int, j: int)
    requires
        stacked(records, units),
        sizes_fit(records),
        0 <= i < j < records.len(),
    ensures
        records[j].index + records[j].size <= records[i].index,
    decreases j - i,
{
    assert(records[j].index + records[j].size == top_of(records, units, j));
    if i < j - 1 {
        lemma_descending(records, units, i, j - 1);
        assert(1 <= records[j - 1].size);
    }
}

/// The end of a block is within the buffer.
proof fn lemma_lowest(records: Seq<Record>, units: int, i: int)
    requires
        stacked(records, units),
        0 <= i <= records.len(),
        0 <= units,
    ensures
        0 <= top_of(records, units, i) <= units,
    decreases i,
{
    if i > 0 {
        lemma_lowest(records, units, i - 1);
        assert(records[i - 1].index + records[i - 1].size == top_of(records, units, i - 1));
    }
}

/// No two blocks start at the same unit.
proof fn lemma_unique(records: Seq<Record>, units: int, at: int)
    requires
        table_wf(records, units),
        0 <= at < records.len(),
    ensures
        forall|i: int|
            0 <= i < records.len() && (#[trigger] records[i]).index == records[at].index ==> i == at,
{
    assert forall|i: int|
        0 <= i < records.len() && (#[trigger] records[i]).index
            == records[at].index implies i == at by {
        assert(1 <= records[i].size);
        assert(1 <= records[at].size);
        if i < at {
            lemma_descending(records, units, i, at);
        } else if at < i {
            lemma_descending(records, units, at, i);
        }
    }
}

/// Handing out a hole keeps the table in order.
proof fn lemma_taken(records: Seq<Record>, units: int, at: int)
    requires
        table_wf(records, units),
        0 <= at < records.len(),
        records[at].free,
    ensures
        table_wf(records.update(at, Record { free: false, ..records[at] }), units),
{
    let after = records.update(at, Record { free: false, ..records[at] });
    assert forall|i: int| 0 <= i < after.len() implies after[i].index + after[i].size
        == #[trigger] top_of(after, units, i) by {
        assert(records[i].index + records[i].size == top_of(records, units, i));
    }
    assert forall|i: int| 0 <= i < after.len() implies 1 <= (#[trigger] after[i]).size
        && after[i].size <= SIZE by {
        assert(1 <= records[i].size);
    }
    assert forall|i: int| 0 < i < after.len() implies #[trigger] apart(after, i) by {
        assert(apart(records, i));
    }
}

/// Where a new block starts.
proof fn lemma_cut(floor: int, units: int, align: int)
    requires
        1 <= units <= floor,
        1 <= align,
    ensures
        0 <= cut_at(floor, units, align) <= floor - units,
{
    vstd::arithmetic::div_mod::lemma_fundamental_div_mod(floor - units, align);
    vstd::arithmetic::div_mod::lemma_mod_bound(floor - units, align);
    vstd::arithmetic::div_mod::lemma_div_pos_is_pos(floor - units, align);
    vstd::arithmetic::mul::lemma_mul_is_commutative((floor - units) / align, align);
    vstd::arithmetic::mul::lemma_mul_nonnegative((floor - units) / align, align);
}

/// Cutting a block off below the lowest keeps the table in order.
proof fn lemma_cut_off(records: Seq<Record>, units: int, record: Record)
    requires
        table_wf(records, units),
        !record.free,
        1 <= record.size <= SIZE,
        record.index + record.size == lowest(records, units),
        records.len() + 1 <= record.index,
    ensures
        table_wf(records.push(record), units),
{
    let after = records.push(record);
    assert forall|i: int| 0 <= i < after.len() implies after[i].index + after[i].size
        == #[trigger] top_of(after, units, i) by {
        if i < records.len() {
            assert(records[i].index + records[i].size == top_of(records, units, i));
        }
    }
    assert forall|i: int| 0 <= i < after.len() implies 1 <= (#[trigger] after[i]).size
        && after[i].size <= SIZE by {
        if i < records.len() {
            assert(1 <= records[i].size);
        }
    }
    assert forall|i: int| 0 < i < after.len() implies #[trigger] apart(after, i) by {
        if i < records.len() {
            assert(apart(records, i));
        }
    }
}

/// Folding two holes into one keeps the blocks in order.
proof fn lemma_folded(records: Seq<Record>, units: int, upper: int)
    requires
        foldable(records, upper),
        stacked(records, units),
        sizes_fit(records),
    ensures
        folded(records, upper).len() == records.len() - 1,
        stacked(folded(records, upper), units),
        sizes_fit(folded(records, upper)),
        lowest(folded(records, upper), units) == lowest(records, units),
        folded(records, upper)[upper].free,
        forall|i: int|
            0 < i < upper ==> #[trigger] apart(folded(records, upper), i) == apart(records, i),
        0 < upper && apart(records, upper) ==> apart(folded(records, upper), upper),
        upper + 2 < records.len() && apart(records, upper + 2) ==> apart(
            folded(records, upper),
            upper + 1,
        ),
        forall|i: int|
            upper + 1 < i < records.len() - 1 ==> #[trigger] apart(folded(records, upper), i)
                == apart(records, i + 1),
{
    let after = folded(records, upper);
    assert forall|i: int| 0 <= i < after.len() implies #[trigger] after[i] == if i < upper {
        records[i]
    } else if i == upper {
        Record {
            index: records[upper + 1].index,
            size: (records[upper].size + records[upper + 1].size) as u16,
            free: true,
        }
    } else {
        records[i + 1]
    } by {}
    assert(records[upper].index + records[upper].size == top_of(records, units, upper));
    assert(records[upper + 1].index + records[upper + 1].size == top_of(
        records,
        units,
        upper + 1,
    ));
    assert forall|i: int| 0 <= i < after.len() implies after[i].index + after[i].size
        == #[trigger] top_of(after, units, i) by {
        if i < upper {
            assert(records[i].index + records[i].size == top_of(records, units, i));
        } else if i > upper {
            assert(records[i + 1].index + records[i + 1].size == top_of(records, units, i + 1));
        }
    }
    assert forall|i: int| 0 <= i < after.len() implies 1 <= (#[trigger] after[i]).size
        && after[i].size <= SIZE by {
        if i < upper {
            assert(1 <= records[i].size);
        } else if i > upper {
            assert(1 <= records[i + 1].size);
        } else {
            assert(1 <= records[upper].size);
        }
    }
}

/// Dropping the holes at the end keeps the table in order.
proof fn lemma_trimmed(records: Seq<Record>, units: int)
    requires
        0 <= units <= MAX_UNITS,
        stacked(records, units),
        sizes_fit(records),
        records.len() <= lowest(records, units),
        holes_apart(records),
    ensures
        table_wf(trimmed(records), units),
        trimmed(records).len() <= records.len(),
        lowest(trimmed(records), units) >= lowest(records, units),
    decreases records.len(),
{
    if records.len() > 0 && records.last().free {
        let less = records.drop_last();
        let n = less.len() as int;
        assert(records[n].index + records[n].size == top_of(records, units, n));
        assert(lowest(less, units) == top_of(records, units, n));
        assert forall|i: int| 0 <= i < less.len() implies less[i].index
            + less[i].size == #[trigger] top_of(less, units, i) by {
            assert(records[i].index + records[i].size == top_of(records, units, i));
        }
        assert forall|i: int| 0 <= i < less.len() implies 1 <= (#[trigger] less[i]).size
            && less[i].size <= SIZE by {
            assert(1 <= records[i].size);
        }
        assert forall|i: int| 0 < i < less.len() implies #[trigger] apart(less, i) by {
            assert(apart(records, i));
        }
        lemma_trimmed(less, units);
    }
}

/// Marking a block free keeps the blocks in order.
proof fn lemma_marked(records: Seq<Record>, units: int, at: int)
    requires
        table_wf(records, units),
        0 <= at < records.len(),
    ensures
        stacked(marked(records, at), units),
        sizes_fit(marked(records, at)),
        lowest(marked(records, at), units) == lowest(records, units),
{
    let first = marked(records, at);
    assert forall|i: int| 0 <= i < first.len() implies first[i].index + first[i].size
        == #[trigger] top_of(first, units, i) by {
        assert(records[i].index + records[i].size == top_of(records, units, i));
    }
    assert forall|i: int| 0 <= i < first.len() implies 1 <= (#[trigger] first[i]).size
        && first[i].size <= SIZE by {
        assert(1 <= records[i].size);
    }
}

/// Marking a block free and merging it keeps the blocks in order.
proof fn lemma_freed(records: Seq<Record>, units: int, at: int)
    requires
        0 <= units,
        table_wf(records, units),
        0 <= at < records.len(),
    ensures
        merged(records, at).len() <= records.len(),
        table_wf(trimmed(merged(records, at)), units),
        trimmed(merged(records, at)).len() <= records.len(),
        lowest(trimmed(merged(records, at)), units) >= lowest(records, units),
{
    let first = marked(records, at);
    lemma_marked(records, units, at);
    assert forall|i: int| 0 < i < first.len() && i != at && i != at + 1 implies #[trigger] apart(
        first,
        i,
    ) by {
        assert(apart(records, i));
    }
    let second = if foldable(first, at) {
        folded(first, at)
    } else {
        first
    };
    if foldable(first, at) {
        lemma_folded(first, units, at);
        assert forall|i: int| 0 < i < second.len() && i != at implies #[trigger] apart(
            second,
            i,
        ) by {
            if i < at {
                assert(apart(first, i));
            } else {
                assert(apart(first, i + 1));
            }
        }
    } else {
        assert forall|i: int| 0 < i < second.len() && i != at implies #[trigger] apart(
            second,
            i,
        ) by {
            if i == at + 1 {
                assert(!foldable(first, at));
            } else {
                assert(apart(first, i));
            }
        }
    }
    let third = merged(records, at);
    if foldable(second, at - 1) {
        lemma_folded(second, units, at - 1);
        assert forall|i: int| 0 < i < third.len() implies #[trigger] apart(third, i) by {
            if i <= at - 1 {
                assert(apart(second, i));
            } else {
                assert(apart(second, i + 1));
            }
        }
    } else {
        assert forall|i: int| 0 < i < third.len() implies #[trigger] apart(third, i) by {
            if i != at {
                assert(apart(second, i));
            }
        }
    }
    lemma_trimmed(third, units);
}

/// The blocks of a heap, and its tallies.
pub struct Books {
    /// The blocks, from the highest down.
    pub records: Seq<Record>,
    /// How many units there are.
    pub span: int,
    /// The most units ever spoken for.
    pub peak: int,
    /// How many requests were refused.
    pub refused: int,
}

impl Books {
    /// How many units are spoken for, the table among them.
    pub open spec fn used(self) -> int {
        self.span - lowest(self.records, self.span) + self.records.len()
    }

    /// The lowest unit that any block occupies.
    pub open spec fn floor(self) -> int {
        lowest(self.records, self.span)
    }

    /// What a refusal leaves behind.
    pub open spec fn declined(self) -> Books {
        Books {
            refused: if self.refused < u16::MAX {
                self.refused + 1
            } else {
                self.refused
            },
            ..self
        }
    }

    /// What cutting a new block off leaves behind.
    pub open spec fn cut(self, units: int, align: int) -> Books {
        let place = cut_at(self.floor(), units, align);
        let after = Books {
            records: self.records.push(
                Record { index: place as u16, size: (self.floor() - place) as u16, free: false },
            ),
            ..self
        };
        Books {
            peak: if after.used() > self.peak {
                after.used()
            } else {
                self.peak
            },
            ..after
        }
    }

    /// What handing out a hole leaves behind.
    pub open spec fn reused(self, at: int) -> Books {
        Books {
            records: self.records.update(at, Record { free: false, ..self.records[at] }),
            ..self
        }
    }

    /// Whether `after` is what a request leaves behind, and `r` what it hands
    /// out.
    pub open spec fn allocates(self, after: Books, units: int, align: int, r: Option<u16>) -> bool {
        let on = aligned(align);
        if asked_well(units, align) && any_fits(self.records, units, on) {
            exists|at: int| #[trigger]
                snuggest(self.records, units, on, at) && r == Some(self.records[at].index) && after
                    == self.reused(at)
        } else if asked_well(units, align) && cut_fits(self.records, self.span, units, on) {
            r == Some(cut_at(self.floor(), units, on) as u16) && after == self.cut(units, on)
        } else {
            r is None && after == self.declined()
        }
    }

    /// Whether `after` is what giving a block back leaves behind, and `r`
    /// whether there was one.
    pub open spec fn frees(self, after: Books, index: u16, r: bool) -> bool {
        if exists|at: int| #[trigger] self.taken(index, at) {
            r && exists|at: int| #[trigger]
                self.taken(index, at) && after == (Books {
                    records: trimmed(merged(self.records, at)),
                    ..self
                })
        } else {
            !r && after == self
        }
    }

    /// Whether a number is the size of the largest run that can be had: a hole,
    /// or the middle less the unit a new record would need.
    pub open spec fn largest(self, n: int) -> bool {
        let middle = self.floor() - self.records.len() - 1;
        &&& forall|i: int|
            0 <= i < self.records.len() && (#[trigger] self.records[i]).free
                ==> self.records[i].size <= n
        &&& middle <= n
        &&& 0 <= n
        &&& n == 0 || n == middle || exists|i: int|
            0 <= i < self.records.len() && (#[trigger] self.records[i]).free
                && self.records[i].size == n
    }

    /// Whether somebody has the block at a position, and it starts at a unit.
    pub open spec fn taken(self, index: u16, at: int) -> bool {
        0 <= at < self.records.len() && self.records[at].index == index && !self.records[at].free
    }
}

/// Whether a buffer is an earlier one from a unit on.
pub open spec fn same_above(after: Seq<Unit>, before: Seq<Unit>, from: int) -> bool {
    &&& after.len() == before.len()
    &&& forall|i: int| from <= i < before.len() && 0 <= i ==> #[trigger] after[i] == before[i]
}

/// Whether a call that left other records behind left every unit above the
/// tables as it was.
pub open spec fn blocks_kept(
    before: Books,
    old_units: Seq<Unit>,
    after: Books,
    new_units: Seq<Unit>,
) -> bool {
    same_above(
        new_units,
        old_units,
        if before.records.len() < after.records.len() {
            after.records.len() as int
        } else {
            before.records.len() as int
        },
    )
}

/// What a heap keeps beside its buffer: three numbers.
#[derive(Clone, Copy, Debug)]
struct Ledger {
    /// The most units ever spoken for, the table among them.
    peak: u16,
    /// How many requests were refused.
    refused: u16,
    /// How many records the table holds.
    count: u16,
}

impl Ledger {
    /// The blocks, from the highest down.
    spec fn records(self, memory: Seq<Unit>) -> Seq<Record> {
        Seq::new(self.count as nat, |i: int| unpacked(memory[i]))
    }

    /// The blocks and the tallies.
    spec fn books(self, memory: Seq<Unit>) -> Books {
        Books {
            records: self.records(memory),
            span: memory.len() as int,
            peak: self.peak as int,
            refused: self.refused as int,
        }
    }

    /// The invariant.
    spec fn wf(self, memory: Seq<Unit>) -> bool {
        &&& table_wf(self.records(memory), memory.len() as int)
        &&& self.count <= memory.len()
        &&& self.books(memory).used() <= self.peak
    }

    /// The record at a position.
    fn record(&self, memory: &[Unit], at: u16) -> (record: Record)
        requires
            at < memory@.len(),
        ensures
            record == unpacked(memory@[at as int]),
    {
        let unit: usize = memory[at as usize];
        Record {
            index: ((unit / 65536) % 65536) as u16,
            size: (unit % 32768) as u16,
            free: (unit / 32768) % 2 == 1,
        }
    }

    /// Write the record at a position.
    fn write(&self, memory: &mut [Unit], at: u16, record: Record)
        requires
            at < old(memory)@.len(),
            self.count <= old(memory)@.len(),
            record.size <= SIZE,
        ensures
            final(memory)@ == old(memory)@.update(at as int, final(memory)@[at as int]),
            unpacked(final(memory)@[at as int]) == record,
            at < self.count ==> self.records(final(memory)@) == self.records(old(memory)@).update(
                at as int,
                record,
            ),
            at >= self.count ==> self.records(final(memory)@) == self.records(old(memory)@),
    {
        let ghost before = memory@;
        let size: usize = record.size as usize + if record.free {
            FREE as usize
        } else {
            0
        };
        proof {
            law_record_round_trip(record);
        }
        memory[at as usize] = record.index as usize * 65536 + size;
        proof {
            if at < self.count {
                assert(self.records(memory@) =~= self.records(before).update(at as int, record));
            } else {
                assert(self.records(memory@) =~= self.records(before));
            }
        }
    }

    /// The lowest unit any block occupies, which is where the table must stop.
    fn floor(&self, memory: &[Unit]) -> (floor: u16)
        requires
            table_wf(self.records(memory@), memory@.len() as int),
            self.count <= memory@.len(),
        ensures
            floor == self.books(memory@).floor(),
    {
        if self.count == 0 {
            memory.len() as u16
        } else {
            self.record(memory, self.count - 1).index
        }
    }

    /// Refuse a request.
    fn decline(&mut self, memory: &[Unit]) -> (r: Option<u16>)
        requires
            old(self).wf(memory@),
        ensures
            final(self).wf(memory@),
            r is None,
            final(self).books(memory@) == old(self).books(memory@).declined(),
    {
        let ghost before = *self;
        self.refused = self.refused.saturating_add(1);
        proof {
            assert(self.records(memory@) =~= before.records(memory@));
        }
        None
    }

    /// The snuggest hole that can be handed out, the highest of those.
    fn best_hole(&self, memory: &[Unit], units: u16, on: u16) -> (best: Option<u16>)
        requires
            self.wf(memory@),
            on > 0,
        ensures
            match best {
                Some(at) => snuggest(self.records(memory@), units as int, on as int, at as int),
                None => !any_fits(self.records(memory@), units as int, on as int),
            },
    {
        let ghost records = self.records(memory@);
        let mut best: Option<u16> = None;
        let mut snug: u16 = 0;
        let mut at: u16 = 0;
        while at < self.count
            invariant
                self.wf(memory@),
                records == self.records(memory@),
                on > 0,
                at <= self.count,
                match best {
                    Some(b) => {
                        &&& b < at
                        &&& fits(records[b as int], units as int, on as int)
                        &&& snug == records[b as int].size
                        &&& forall|i: int|
                            0 <= i < at && fits(#[trigger] records[i], units as int, on as int)
                                ==> snug < records[i].size || (snug == records[i].size && b <= i)
                    },
                    None => forall|i: int|
                        0 <= i < at ==> !fits(#[trigger] records[i], units as int, on as int),
                },
            decreases self.count - at,
        {
            let record: Record = self.record(memory, at);
            proof {
                assert(record == records[at as int]);
            }
            if record.free && record.size >= units && record.index % on == 0 {
                if best.is_none() || record.size < snug {
                    best = Some(at);
                    snug = record.size;
                }
            }
            at = at + 1;
        }
        best
    }

    /// Take `units`, starting on a multiple of `align` units.
    fn alloc_aligned(&mut self, memory: &mut [Unit], units: u16, align: u16) -> (r: Option<u16>)
        requires
            old(self).wf(old(memory)@),
        ensures
            final(memory)@.len() == old(memory)@.len(),
            final(self).wf(final(memory)@),
            old(self).books(old(memory)@).allocates(
                final(self).books(final(memory)@),
                units as int,
                align as int,
                r,
            ),
            blocks_kept(
                old(self).books(old(memory)@),
                old(memory)@,
                final(self).books(final(memory)@),
                final(memory)@,
            ),
            r is None ==> final(memory)@ == old(memory)@,
    {
        let ghost before = self.books(memory@);
        let on: u16 = if align == 0 {
            1
        } else {
            align
        };
        proof {
            lemma2_to64();
        }
        if units == 0 || units > SIZE || !power_of_two(on) {
            return self.decline(memory);
        }
        proof {
            assert(asked_well(units as int, align as int));
        }
        let best: Option<u16> = self.best_hole(memory, units, on);
        if let Some(b) = best {
            let record: Record = self.record(memory, b);
            self.write(memory, b, Record { index: record.index, size: record.size, free: false });
            proof {
                assert(snuggest(before.records, units as int, on as int, b as int));
                lemma_taken(before.records, before.span, b as int);
                assert(self.books(memory@) == before.reused(b as int));
            }
            return Some(record.index);
        }
        let floor: u16 = self.floor(memory);
        if floor < units {
            return self.decline(memory);
        }
        proof {
            lemma_cut(floor as int, units as int, on as int);
        }
        let index: u16 = (floor - units) / on * on;
        if (index as usize) < self.count as usize + 1 || floor - index > SIZE {
            return self.decline(memory);
        }
        let record = Record { index, size: floor - index, free: false };
        proof {
            lemma_lowest(before.records, before.span, before.records.len() as int);
        }
        let slot: u16 = self.count;
        self.write(memory, slot, record);
        self.count = self.count + 1;
        proof {
            assert(self.records(memory@) =~= before.records.push(record));
            lemma_cut_off(before.records, before.span, record);
        }
        let used: usize = self.used(memory);
        if used as u16 > self.peak {
            self.peak = used as u16;
        }
        proof {
            assert(self.records(memory@) =~= before.records.push(record));
            assert(self.books(memory@) == before.cut(units as int, on as int));
        }
        Some(index)
    }

    /// The position of the block that starts at a unit.
    fn find(&self, memory: &[Unit], index: u16) -> (r: Option<u16>)
        requires
            self.wf(memory@),
        ensures
            match r {
                Some(at) => at < self.count && self.records(memory@)[at as int].index == index,
                None => forall|i: int|
                    0 <= i < self.count ==> (#[trigger] self.records(memory@)[i]).index != index,
            },
    {
        let ghost records = self.records(memory@);
        let mut at: u16 = 0;
        while at < self.count
            invariant
                self.wf(memory@),
                records == self.records(memory@),
                at <= self.count,
                forall|i: int| 0 <= i < at ==> (#[trigger] records[i]).index != index,
            decreases self.count - at,
        {
            if self.record(memory, at).index == index {
                return Some(at);
            }
            at = at + 1;
        }
        None
    }

    /// Fold the block below a record into it, and close the gap in the table.
    fn merge(&mut self, memory: &mut [Unit], upper: u16)
        requires
            old(self).count <= old(memory)@.len() <= MAX_UNITS,
            foldable(old(self).records(old(memory)@), upper as int),
            sizes_fit(old(self).records(old(memory)@)),
        ensures
            final(memory)@.len() == old(memory)@.len(),
            final(self).records(final(memory)@) == folded(
                old(self).records(old(memory)@),
                upper as int,
            ),
            final(self).count == old(self).count - 1,
            final(self).peak == old(self).peak,
            final(self).refused == old(self).refused,
            same_above(final(memory)@, old(memory)@, old(self).count as int),
    {
        let ghost before = self.records(memory@);
        let above: Record = self.record(memory, upper);
        let below: Record = self.record(memory, upper + 1);
        proof {
            assert(above == before[upper as int]);
            assert(below == before[upper + 1]);
        }
        self.write(
            memory,
            upper,
            Record { index: below.index, size: above.size + below.size, free: true },
        );
        let ghost grown = self.records(memory@);
        let ghost n = before.len() as int;
        let mut at: u16 = upper + 1;
        while at < self.count - 1
            invariant
                upper + 1 <= at < n,
                self.count == n,
                self.peak == old(self).peak,
                self.refused == old(self).refused,
                n == grown.len(),
                same_above(memory@, old(memory)@, old(self).count as int),
                self.count == old(self).count,
                self.count <= memory@.len() <= MAX_UNITS,
                forall|i: int| 0 <= i < n ==> 0 <= (#[trigger] grown[i]).size <= SIZE,
                forall|i: int| 0 <= i <= upper ==> #[trigger] self.records(memory@)[i] == grown[i],
                forall|i: int|
                    upper < i < at ==> #[trigger] self.records(memory@)[i] == grown[i + 1],
                forall|i: int| at <= i < n ==> #[trigger] self.records(memory@)[i] == grown[i],
            decreases n - at,
        {
            let next: Record = self.record(memory, at + 1);
            proof {
                assert(next == self.records(memory@)[at + 1]);
            }
            self.write(memory, at, next);
            at = at + 1;
        }
        let ghost shifted = self.records(memory@);
        self.count = self.count - 1;
        proof {
            assert forall|i: int| 0 <= i < n - 1 implies #[trigger] self.records(memory@)[i]
                == shifted[i] by {}
            assert(self.records(memory@) =~= folded(before, upper as int));
        }
    }

    /// Drop the holes at the end of the table: they are unallocated space.
    fn trim(&mut self, memory: &[Unit])
        requires
            old(self).count <= memory@.len() <= MAX_UNITS,
        ensures
            final(self).records(memory@) == trimmed(old(self).records(memory@)),
            final(self).peak == old(self).peak,
            final(self).refused == old(self).refused,
            final(self).count <= old(self).count,
    {
        let ghost before = *self;
        while self.count > 0 && self.record(memory, self.count - 1).free
            invariant
                self.count <= before.count,
                before.count <= memory@.len() <= MAX_UNITS,
                self.peak == before.peak,
                self.refused == before.refused,
                trimmed(self.records(memory@)) == trimmed(before.records(memory@)),
            decreases self.count,
        {
            let ghost earlier = self.records(memory@);
            self.count = self.count - 1;
            proof {
                assert(self.records(memory@) =~= earlier.drop_last());
            }
        }
    }

    /// Give a block back.
    fn free(&mut self, memory: &mut [Unit], index: u16) -> (r: bool)
        requires
            old(self).wf(old(memory)@),
        ensures
            final(memory)@.len() == old(memory)@.len(),
            final(self).wf(final(memory)@),
            old(self).books(old(memory)@).frees(final(self).books(final(memory)@), index, r),
            blocks_kept(
                old(self).books(old(memory)@),
                old(memory)@,
                final(self).books(final(memory)@),
                final(memory)@,
            ),
            !r ==> final(memory)@ == old(memory)@,
    {
        let ghost before = self.books(memory@);
        let at: u16 = match self.find(memory, index) {
            Some(at) => at,
            None => {
                return false;
            },
        };
        let record: Record = self.record(memory, at);
        proof {
            assert(record == before.records[at as int]);
        }
        if record.free {
            proof {
                lemma_unique(before.records, before.span, at as int);
            }
            return false;
        }
        self.write(memory, at, Record { index: record.index, size: record.size, free: true });
        let ghost first = self.records(memory@);
        proof {
            assert(first == marked(before.records, at as int));
            assert(sizes_fit(first));
        }
        if at + 1 < self.count {
            let below: Record = self.record(memory, at + 1);
            proof {
                assert(below == first[at + 1]);
            }
            if below.free && record.size as u32 + below.size as u32 <= SIZE as u32 {
                proof {
                    lemma_marked(before.records, before.span, at as int);
                    lemma_folded(first, before.span, at as int);
                }
                self.merge(memory, at);
            }
        }
        let ghost second = self.records(memory@);
        if at > 0 {
            let above: Record = self.record(memory, at - 1);
            let here: Record = self.record(memory, at);
            proof {
                assert(above == second[at - 1]);
                assert(here == second[at as int]);
            }
            if above.free && above.size as u32 + here.size as u32 <= SIZE as u32 {
                self.merge(memory, at - 1);
            }
        }
        proof {
            assert(self.records(memory@) == merged(before.records, at as int));
            assert(before.taken(index, at as int));
            lemma_freed(before.records, before.span, at as int);
        }
        self.trim(memory);
        true
    }

    /// The largest run of units an allocation could still take.
    fn largest_free(&self, memory: &[Unit]) -> (n: usize)
        requires
            self.wf(memory@),
        ensures
            self.books(memory@).largest(n as int),
            n <= MAX_UNITS,
    {
        let ghost records = self.records(memory@);
        let mut largest: usize = 0;
        let mut at: u16 = 0;
        while at < self.count
            invariant
                self.wf(memory@),
                records == self.records(memory@),
                at <= self.count,
                largest <= SIZE,
                forall|i: int|
                    0 <= i < at && (#[trigger] records[i]).free ==> records[i].size <= largest,
                largest == 0 || exists|i: int|
                    0 <= i < at && (#[trigger] records[i]).free && records[i].size == largest,
            decreases self.count - at,
        {
            let record: Record = self.record(memory, at);
            proof {
                assert(record == records[at as int]);
            }
            if record.free && record.size as usize > largest {
                largest = record.size as usize;
            }
            at = at + 1;
        }
        let middle: usize = (self.floor(memory) as usize).saturating_sub(self.count as usize + 1);
        if middle > largest {
            middle
        } else {
            largest
        }
    }

    /// How many units are spoken for, holes and the table among them.
    fn used(&self, memory: &[Unit]) -> (n: usize)
        requires
            table_wf(self.records(memory@), memory@.len() as int),
            self.count <= memory@.len(),
        ensures
            n == self.books(memory@).used(),
            n <= MAX_UNITS,
    {
        let floor: usize = self.floor(memory) as usize;
        proof {
            lemma_lowest(self.records(memory@), memory@.len() as int, self.count as int);
        }
        (memory.len() - floor) + self.count as usize
    }
}

/// Whether an alignment is a power of two.
fn power_of_two(align: u16) -> (r: bool)
    requires
        align > 0,
    ensures
        r == exists|k: nat| align == #[trigger] pow2(k),
{
    let mut power: u32 = 1;
    let ghost mut k: nat = 0;
    proof {
        lemma2_to64();
    }
    while power < align as u32
        invariant
            power == pow2(k),
            1 <= power <= 131072,
            forall|j: nat| j < k ==> #[trigger] pow2(j) < align,
        decreases 131072 - power,
    {
        proof {
            lemma_pow2_unfold(k + 1);
            k = k + 1;
        }
        power = power * 2;
    }
    proof {
        assert forall|j: nat| align == #[trigger] pow2(j) implies power == align by {
            if j > k {
                lemma_pow2_strictly_increases(k, j);
            }
        }
    }
    power == align as u32
}

/// A fixed-size heap over a buffer somebody else owns.
pub struct UHeap<'a> {
    /// The buffer, in units. Records live at the front, blocks at the back.
    memory: &'a mut [Unit],
    ledger: Ledger,
}

impl<'a> UHeap<'a> {
    /// What the units hold.
    pub closed spec fn contents(&self) -> Seq<Unit> {
        (*self.memory)@
    }

    /// The blocks and the tallies.
    pub closed spec fn books(&self) -> Books {
        self.ledger.books((*self.memory)@)
    }

    /// The heap's invariant.
    pub closed spec fn wf(&self) -> bool {
        self.ledger.wf((*self.memory)@)
    }

    /// The table of a heap is in order.
    pub proof fn lemma_table(&self)
        requires
            self.wf(),
        ensures
            table_wf(self.books().records, self.books().span),
            self.books().span == self.contents().len(),
    {
    }

    /// No fewer units were ever spoken for than are now.
    pub proof fn law_peak_is_highest(&self)
        requires
            self.wf(),
        ensures
            self.books().used() <= self.books().peak,
    {
    }

    /// A heap over a buffer, which is not cleared.
    pub fn new(memory: &'a mut [Unit]) -> (heap: UHeap<'a>)
        requires
            old(memory)@.len() <= MAX_UNITS,
        ensures
            heap.wf(),
            heap.contents() == old(memory)@,
            heap.books() == (Books {
                records: Seq::empty(),
                span: old(memory)@.len() as int,
                peak: 0,
                refused: 0,
            }),
    {
        let heap = UHeap { memory, ledger: Ledger { count: 0, peak: 0, refused: 0 } };
        proof {
            assert(heap.books().records =~= Seq::<Record>::empty());
        }
        heap
    }

    /// How many units the heap spans in total.
    pub fn units(&self) -> (n: usize)
        ensures
            n == self.books().span,
    {
        self.memory.len()
    }

    /// How many blocks exist, free ones among them.
    pub fn blocks(&self) -> (n: usize)
        ensures
            n == self.books().records.len(),
    {
        self.ledger.count as usize
    }

    /// Take `units` of the heap, or `None` if they do not fit.
    ///
    /// The block's first unit comes back, which is its handle.
    pub fn allocate(&mut self, units: u16) -> (r: Option<u16>)
        requires
            old(self).wf(),
        ensures
            final(self).wf(),
            old(self).books().allocates(final(self).books(), units as int, 1, r),
            blocks_kept(
                old(self).books(),
                old(self).contents(),
                final(self).books(),
                final(self).contents(),
            ),
            r is None ==> final(self).contents() == old(self).contents(),
    {
        self.alloc_aligned(units, 1)
    }

    /// Take `units`, starting on a multiple of `align` units.
    ///
    /// A hole is reused whole, the snuggest first. With none that fits, a block
    /// is cut off below the lowest; what the alignment leaves over belongs to
    /// that block.
    pub fn alloc_aligned(&mut self, units: u16, align: u16) -> (r: Option<u16>)
        requires
            old(self).wf(),
        ensures
            final(self).wf(),
            old(self).books().allocates(final(self).books(), units as int, align as int, r),
            blocks_kept(
                old(self).books(),
                old(self).contents(),
                final(self).books(),
                final(self).contents(),
            ),
            r is None ==> final(self).contents() == old(self).contents(),
    {
        self.ledger.alloc_aligned(self.memory, units, align)
    }

    /// Give a block back.
    ///
    /// The block is marked free, merged with either neighbour that is free too
    /// as long as one block can span both, and then every hole at the end of
    /// the table is dropped. Freeing what is no block, or is free already, is
    /// refused.
    pub fn free(&mut self, index: u16) -> (r: bool)
        requires
            old(self).wf(),
        ensures
            final(self).wf(),
            old(self).books().frees(final(self).books(), index, r),
            blocks_kept(
                old(self).books(),
                old(self).contents(),
                final(self).books(),
                final(self).contents(),
            ),
            !r ==> final(self).contents() == old(self).contents(),
    {
        self.ledger.free(self.memory, index)
    }

    /// The units of a block. A slice keeps its length, so the heap is in order
    /// again once the caller is done with it.
    pub fn block(&mut self, index: u16, units: u16) -> (r: &mut [Unit])
        requires
            old(self).wf(),
            index + units <= old(self).books().span,
            old(self).books().records.len() <= index,
        ensures
            r@ == old(self).contents().subrange(index as int, index + units),
            final(r)@.len() == units ==> {
                &&& final(self).wf()
                &&& final(self).books() == old(self).books()
                &&& final(self).contents() == old(self).contents().take(index as int) + final(r)@
                    + old(self).contents().skip(index + units)
            },
    {
        let ghost before = *self;
        let ghost after = *final(self);
        let (low, rest) = self.memory.split_at_mut(index as usize);
        let (mine, high) = rest.split_at_mut(units as usize);
        proof {
            assert(mine@ =~= before.contents().subrange(index as int, index + units));
            assert(low@ =~= before.contents().take(index as int));
            assert(high@ =~= before.contents().skip(index + units));
            assert(after.contents() =~= low@ + (*final(mine))@ + high@);
            lemma_written(&before, &after, index as int, units as int, (*final(mine))@);
        }
        mine
    }

    /// The most units ever spoken for.
    pub fn peak(&self) -> (n: usize)
        ensures
            n == self.books().peak,
    {
        self.ledger.peak as usize
    }

    /// How many requests this heap has refused.
    pub fn refused(&self) -> (n: usize)
        ensures
            n == self.books().refused,
            n <= u16::MAX,
    {
        self.ledger.refused as usize
    }

    /// The largest run of units an allocation could still take.
    pub fn largest_free(&self) -> (n: usize)
        requires
            self.wf(),
        ensures
            self.books().largest(n as int),
    {
        self.ledger.largest_free(self.memory)
    }

    /// How many units are spoken for, holes and the table among them.
    pub fn used(&self) -> (n: usize)
        requires
            self.wf(),
        ensures
            n == self.books().used(),
    {
        self.ledger.used(self.memory)
    }
}

/// Writing into a block leaves the table alone.
proof fn lemma_written(before: &UHeap, after: &UHeap, index: int, units: int, block: Seq<Unit>)
    requires
        before.wf(),
        after.ledger == before.ledger,
        before.books().records.len() <= index,
        0 <= units,
        index + units <= before.contents().len(),
        after.contents() == before.contents().take(index) + block + before.contents().skip(
            index + units,
        ),
    ensures
        block.len() == units ==> after.wf() && after.books() == before.books(),
{
    if block.len() == units {
        assert(after.books().records =~= before.books().records);
    }
}

/// `<[T; N]>::as_mut_slice`: the whole of an array, as a slice.
#[verifier::external_body]
fn whole<const UNITS: usize>(memory: &mut [Unit; UNITS]) -> (r: &mut [Unit])
    ensures
        r@ == old(memory)@,
        final(memory)@ == final(r)@,
{
    memory.as_mut_slice()
}

/// A heap over a buffer of its own.
pub struct Arena<const UNITS: usize> {
    pub memory: [Unit; UNITS],
    ledger: Ledger,
}

/// How many units a number of bytes takes.
pub open spec fn units_for(bytes: int) -> int {
    let unit = vstd::layout::size_of::<Unit>() as int;
    (bytes + unit - 1) / unit
}

impl<const UNITS: usize> Arena<UNITS> {
    /// What the units hold.
    pub closed spec fn contents(&self) -> Seq<Unit> {
        self.memory@
    }

    /// The blocks and the tallies.
    pub closed spec fn books(&self) -> Books {
        self.ledger.books(self.memory@)
    }

    /// The arena's invariant.
    pub closed spec fn wf(&self) -> bool {
        self.ledger.wf(self.memory@)
    }

    /// The table of an arena is in order, and no fewer units were ever spoken
    /// for than are now.
    pub proof fn lemma_table(&self)
        requires
            self.wf(),
        ensures
            table_wf(self.books().records, self.books().span),
            self.books().span == UNITS,
            self.books().used() <= self.books().peak,
    {
    }

    /// An empty arena.
    pub fn new() -> (arena: Arena<UNITS>)
        requires
            UNITS <= MAX_UNITS,
        ensures
            arena.wf(),
            arena.books() == (Books {
                records: Seq::empty(),
                span: UNITS as int,
                peak: 0,
                refused: 0,
            }),
    {
        let arena = Arena { memory: [0;UNITS], ledger: Ledger { count: 0, peak: 0, refused: 0 } };
        proof {
            assert(arena.books().records =~= Seq::<Record>::empty());
        }
        arena
    }

    /// The whole arena, in bytes.
    pub fn capacity(&self) -> (bytes: usize)
        requires
            UNITS <= MAX_UNITS,
        ensures
            bytes == UNITS * vstd::layout::size_of::<Unit>(),
    {
        let unit: usize = core::mem::size_of::<Unit>();
        proof {
            lemma_unit_size();
            lemma_bytes(UNITS, unit);
        }
        UNITS * unit
    }

    /// Take room for `bytes` bytes, starting on a multiple of `align` bytes.
    /// The offset of the block comes back, in units.
    pub fn take(&mut self, bytes: usize, align: usize) -> (r: Option<u16>)
        requires
            old(self).wf(),
            bytes <= usize::MAX - 8,
            align <= usize::MAX - 8,
        ensures
            final(self).wf(),
            if units_for(bytes as int) > u16::MAX || units_for(align as int) > u16::MAX {
                r is None && *final(self) == *old(self)
            } else {
                old(self).books().allocates(
                    final(self).books(),
                    units_for(bytes as int),
                    units_for(align as int),
                    r,
                )
            },
            blocks_kept(
                old(self).books(),
                old(self).contents(),
                final(self).books(),
                final(self).contents(),
            ),
            r is None ==> final(self).contents() == old(self).contents(),
    {
        proof {
            lemma_unit_size();
        }
        let unit: usize = core::mem::size_of::<Unit>();
        let units: usize = (bytes + (unit - 1)) / unit;
        let on: usize = (align + (unit - 1)) / unit;
        if units > u16::MAX as usize || on > u16::MAX as usize {
            return None;
        }
        self.ledger.alloc_aligned(whole(&mut self.memory), units as u16, on as u16)
    }

    /// Give back the block at an offset.
    pub fn give(&mut self, index: u16) -> (r: bool)
        requires
            old(self).wf(),
        ensures
            final(self).wf(),
            old(self).books().frees(final(self).books(), index, r),
            blocks_kept(
                old(self).books(),
                old(self).contents(),
                final(self).books(),
                final(self).contents(),
            ),
            !r ==> final(self).contents() == old(self).contents(),
    {
        self.ledger.free(whole(&mut self.memory), index)
    }

    /// How many bytes are spoken for, holes among them.
    pub fn used(&self) -> (bytes: usize)
        requires
            self.wf(),
        ensures
            bytes == self.books().used() * vstd::layout::size_of::<Unit>(),
    {
        let unit: usize = core::mem::size_of::<Unit>();
        let used: usize = self.ledger.used(vstd::array::array_as_slice(&self.memory));
        proof {
            lemma_unit_size();
            lemma_bytes(used, unit);
        }
        used * unit
    }

    /// How many blocks exist, free ones among them.
    pub fn blocks(&self) -> (n: usize)
        ensures
            n == self.books().records.len(),
    {
        self.ledger.count as usize
    }

    /// Everything a firmware wants to know: what is used, the peak, and the
    /// largest run that is free, in bytes; and the blocks, and the refusals.
    pub fn stats(&self) -> (r: (usize, usize, usize, usize, usize))
        requires
            self.wf(),
        ensures
            r.0 == self.books().used() * vstd::layout::size_of::<Unit>(),
            r.1 == self.books().peak * vstd::layout::size_of::<Unit>(),
            exists|largest: int| #[trigger]
                self.books().largest(largest) && r.2 == largest * vstd::layout::size_of::<Unit>(),
            r.3 == self.books().records.len(),
            r.4 == self.books().refused,
    {
        let unit: usize = core::mem::size_of::<Unit>();
        let memory: &[Unit] = vstd::array::array_as_slice(&self.memory);
        let peak: usize = self.ledger.peak as usize;
        let largest: usize = self.ledger.largest_free(memory);
        proof {
            lemma_unit_size();
            lemma_bytes(peak, unit);
            lemma_bytes(largest, unit);
            assert(self.books().largest(largest as int));
        }
        (self.used(), peak * unit, largest * unit, self.blocks(), self.ledger.refused as usize)
    }
}

/// A unit is four bytes or eight.
proof fn lemma_unit_size()
    ensures
        1 <= vstd::layout::size_of::<Unit>() <= 8,
{
    broadcast use vstd::layout::layout_of_primitives;
}

/// What a number of units takes in bytes.
proof fn lemma_bytes(units: usize, unit: usize)
    requires
        units <= MAX_UNITS,
        unit <= 8,
    ensures
        0 <= units * unit <= MAX_UNITS * 8,
{
    assert(0 <= units * unit <= MAX_UNITS * 8) by (nonlinear_arith)
        requires
            units <= MAX_UNITS,
            unit <= 8,
    ;
}

/// No two blocks share a unit, and none reaches into the table.
pub proof fn law_blocks_are_apart(records: Seq<Record>, units: int, i: int, j: int)
    requires
        table_wf(records, units),
        0 <= i < j < records.len(),
    ensures
        records[j].index + records[j].size <= records[i].index,
        records.len() <= records[j].index,
        records[i].index + records[i].size <= units,
{
    lemma_descending(records, units, i, j);
    lemma_lowest(records, units, i);
    lemma_lowest(records, units, records.len() as int);
    assert(records[i].index + records[i].size == top_of(records, units, i));
    if j < records.len() - 1 {
        lemma_descending(records, units, j, records.len() - 1);
    }
}

/// Whoever is handed a block has it alone: the table holds a block of at least
/// that size there, on the alignment, above the table and within the buffer,
/// and every block that was taken before is still there.
pub proof fn law_allocated_block_is_ones_own(
    before: Books,
    after: Books,
    units: int,
    align: int,
    index: u16,
)
    requires
        0 <= align,
        table_wf(before.records, before.span),
        before.allocates(after, units, align, Some(index)),
    ensures
        exists|at: int| {
            &&& 0 <= at < after.records.len()
            &&& (#[trigger] after.records[at]).index == index
            &&& after.records[at].size >= units
            &&& !after.records[at].free
            &&& index as int % aligned(align) == 0
            &&& at < before.records.len() ==> before.records[at].free
        },
        after.span == before.span,
        table_wf(after.records, after.span),
        after.records.len() <= index,
        index + units <= after.span,
        forall|i: int|
            0 <= i < before.records.len() && !(#[trigger] before.records[i]).free ==> after.records[i] == before.records[i],
{
    let on = aligned(align);
    if any_fits(before.records, units, on) {
        let at = choose|at: int| #[trigger]
            snuggest(before.records, units, on, at) && Some(index) == Some(before.records[at].index)
                && after == before.reused(at);
        assert(after.records[at].index == index);
        lemma_taken(before.records, before.span, at);
        lemma_within(after.records, after.span, at);
    } else {
        let total = before.span;
        let floor = lowest(before.records, total);
        lemma_lowest(before.records, total, before.records.len() as int);
        vstd::arithmetic::div_mod::lemma_mod_multiples_basic((floor - units) / on, on);
        lemma_cut(floor, units, on);
        let at = before.records.len() as int;
        assert(after.records[at].index == index);
        lemma_cut_off(before.records, total, after.records[at]);
        lemma_within(after.records, after.span, at);
    }
}

/// A block lies between the table and the end of the buffer.
proof fn lemma_within(records: Seq<Record>, units: int, at: int)
    requires
        table_wf(records, units),
        0 <= at < records.len(),
    ensures
        records.len() <= records[at].index,
        records[at].index + records[at].size <= units,
{
    lemma_lowest(records, units, at);
    assert(records[at].index + records[at].size == top_of(records, units, at));
    if at < records.len() - 1 {
        lemma_descending(records, units, at, records.len() - 1);
    }
}

/// What folding leaves of the blocks that somebody has.
proof fn lemma_folded_keeps(records: Seq<Record>, upper: int, record: Record)
    requires
        foldable(records, upper),
        !record.free,
        records.contains(record),
    ensures
        folded(records, upper).contains(record),
{
    let k = choose|k: int| 0 <= k < records.len() && records[k] == record;
    if k < upper {
        assert(folded(records, upper)[k] == record);
    } else {
        assert(folded(records, upper)[k - 1] == record);
    }
}

/// What trimming leaves of the blocks that somebody has.
proof fn lemma_trimmed_keeps(records: Seq<Record>, record: Record)
    requires
        !record.free,
        records.contains(record),
    ensures
        trimmed(records).contains(record),
    decreases records.len(),
{
    if records.len() > 0 && records.last().free {
        let k = choose|k: int| 0 <= k < records.len() && records[k] == record;
        assert(records.drop_last()[k] == record);
        lemma_trimmed_keeps(records.drop_last(), record);
    }
}

/// Giving a block back leaves every block that somebody else has where it was.
pub proof fn law_free_keeps_the_others(records: Seq<Record>, at: int, i: int)
    requires
        0 <= at < records.len(),
        0 <= i < records.len(),
        i != at,
        !records[i].free,
    ensures
        trimmed(merged(records, at)).contains(records[i]),
{
    let first = marked(records, at);
    assert(first[i] == records[i]);
    let second = if foldable(first, at) {
        folded(first, at)
    } else {
        first
    };
    if foldable(first, at) {
        lemma_folded_keeps(first, at, records[i]);
    }
    assert(second.contains(records[i]));
    if foldable(second, at - 1) {
        lemma_folded_keeps(second, at - 1, records[i]);
    }
    lemma_trimmed_keeps(merged(records, at), records[i]);
}

/// What somebody wrote into a block is still there after a request, whoever
/// made it and whatever came of it.
pub proof fn law_allocation_keeps_contents(
    before: Books,
    old_units: Seq<Unit>,
    after: Books,
    new_units: Seq<Unit>,
    units: int,
    align: int,
    r: Option<u16>,
    i: int,
)
    requires
        0 <= align,
        table_wf(before.records, before.span),
        before.span == old_units.len(),
        before.allocates(after, units, align, r),
        blocks_kept(before, old_units, after, new_units),
        0 <= i < before.records.len(),
        !before.records[i].free,
    ensures
        after.records[i] == before.records[i],
        block_of(new_units, before.records[i]) == block_of(old_units, before.records[i]),
{
    match r {
        Some(index) => {
            law_allocated_block_is_ones_own(before, after, units, align, index);
        },
        None => {},
    }
    lemma_within(before.records, before.span, i);
    lemma_within(after.records, after.span, i);
    assert(block_of(new_units, before.records[i]) =~= block_of(old_units, before.records[i]));
}

/// What somebody wrote into a block is still there after another block was
/// given back, and after a refusal to take one back.
pub proof fn law_free_keeps_contents(
    before: Books,
    old_units: Seq<Unit>,
    after: Books,
    new_units: Seq<Unit>,
    index: u16,
    r: bool,
    i: int,
)
    requires
        table_wf(before.records, before.span),
        before.span == old_units.len(),
        before.frees(after, index, r),
        blocks_kept(before, old_units, after, new_units),
        0 <= i < before.records.len(),
        !before.records[i].free,
        before.records[i].index != index,
    ensures
        after.records.contains(before.records[i]),
        block_of(new_units, before.records[i]) == block_of(old_units, before.records[i]),
{
    if exists|at: int| #[trigger] before.taken(index, at) {
        let at = choose|at: int| #[trigger]
            before.taken(index, at) && after == (Books {
                records: trimmed(merged(before.records, at)),
                ..before
            });
        law_free_keeps_the_others(before.records, at, i);
        lemma_freed(before.records, before.span, at);
    } else {
        assert(after.records[i] == before.records[i]);
    }
    lemma_within(before.records, before.span, i);
    assert(block_of(new_units, before.records[i]) =~= block_of(old_units, before.records[i]));
}

/// What a block holds.
pub open spec fn block_of(units: Seq<Unit>, record: Record) -> Seq<Unit> {
    units.subrange(record.index as int, record.index + record.size)
}

/// A heap in which nobody has a block has no blocks.
pub proof fn law_all_freed_is_empty(records: Seq<Record>, units: int)
    requires
        table_wf(records, units),
        forall|i: int| 0 <= i < records.len() ==> (#[trigger] records[i]).free,
    ensures
        records.len() == 0,
{
    if records.len() > 0 {
        assert(records[records.len() - 1].free);
    }
}

/// Giving back a block that was just cut off leaves the table as it was.
pub proof fn law_cut_then_free_restores(records: Seq<Record>, units: int, record: Record)
    requires
        table_wf(records, units),
        !record.free,
    ensures
        trimmed(merged(records.push(record), records.len() as int)) == records,
{
    let n = records.len() as int;
    let more = merged(records.push(record), n);
    assert(more == marked(records.push(record), n));
    assert(more.drop_last() =~= records);
    assert(more.last().free);
    assert(trimmed(more) == trimmed(records));
}

/// Giving back a hole that was just handed out leaves the table as it was.
pub proof fn law_reuse_then_free_restores(records: Seq<Record>, units: int, at: int)
    requires
        table_wf(records, units),
        0 <= at < records.len(),
        records[at].free,
    ensures
        trimmed(merged(records.update(at, Record { free: false, ..records[at] }), at)) == records,
{
    let taken = records.update(at, Record { free: false, ..records[at] });
    assert(marked(taken, at) =~= records);
    if at + 1 < records.len() {
        assert(apart(records, at + 1));
    }
    if at > 0 {
        assert(apart(records, at));
    }
}

/// Giving back a block at once leaves everything as it was before it was asked
/// for, but for the peak.
pub proof fn law_allocate_then_free_restores(
    before: Books,
    between: Books,
    after: Books,
    units: int,
    align: int,
    index: u16,
    r: bool,
)
    requires
        0 <= align,
        table_wf(before.records, before.span),
        before.allocates(between, units, align, Some(index)),
        between.frees(after, index, r),
    ensures
        r,
        after == (Books { peak: between.peak, ..before }),
        after.used() == before.used(),
{
    let on = aligned(align);
    let records = before.records;
    law_allocated_block_is_ones_own(before, between, units, align, index);
    let at = if any_fits(records, units, on) {
        choose|at: int| #[trigger]
            snuggest(records, units, on, at) && Some(index) == Some(records[at].index) && between
                == before.reused(at)
    } else {
        records.len() as int
    };
    assert(between.taken(index, at)) by {
        if !any_fits(records, units, on) {
            assert(between.records[at].index == index);
        }
    }
    lemma_unique(between.records, between.span, at);
    if any_fits(records, units, on) {
        law_reuse_then_free_restores(records, before.span, at);
    } else {
        assert(between.records == records.push(between.records[at]));
        law_cut_then_free_restores(records, before.span, between.records[at]);
    }
}

/// A request that asks for no alignment is met just when it asks for no more
/// than the largest run there is, and for no more than a block may span.
pub proof fn law_largest_is_what_can_be_had(
    before: Books,
    after: Books,
    n: int,
    units: int,
    r: Option<u16>,
)
    requires
        table_wf(before.records, before.span),
        before.largest(n),
        before.allocates(after, units, 1, r),
    ensures
        r is Some == (1 <= units <= n && units <= SIZE),
{
    lemma2_to64();
    assert(pow2(0) == 1);
    let floor = before.floor();
    lemma_lowest(before.records, before.span, before.records.len() as int);
    if 1 <= units <= SIZE {
        assert(asked_well(units, 1));
        assert(cut_at(floor, units, 1) == floor - units);
        if units <= n && n != floor - before.records.len() - 1 {
            let i = choose|i: int|
                0 <= i < before.records.len() && (#[trigger] before.records[i]).free
                    && before.records[i].size == n;
            assert(fits(before.records[i], units, 1));
        }
    }
}

} // verus!
