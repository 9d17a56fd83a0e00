//! One bit per slot, packed into words.

use vstd::prelude::*;

use crate::memory::reserved;

verus! {

/// Whether bit `at` of a word is set.
pub open spec fn word_bit(word: u64, at: int) -> bool {
    (word >> (at as u64)) & 1 == 1
}

/// How many words hold so many bits.
pub open spec fn words_for(bits: int) -> int {
    (bits + 63) / 64
}

/// A growable row of bits, all clear until set.
#[derive(Debug)]
pub struct Bitmap {
    words: Vec<u64>,
}

proof fn lemma_word_bit(word: u64, set: u64, at: u64)
    by (bit_vector)
    requires
        set < 64,
        at < 64,
    ensures
        (((word | (1u64 << set)) >> at) & 1 == 1) == (set == at || (word >> at) & 1 == 1),
        ((word & (1u64 << at)) != 0) == ((word >> at) & 1 == 1),
        (0u64 >> at) & 1 == 0,
{
}

impl Bitmap {
    /// Whether bit `at` is set. Bits past the end are clear.
    pub closed spec fn has(&self, at: int) -> bool {
        0 <= at < 64 * self.words@.len() && word_bit(self.words@[at / 64], at % 64)
    }

    /// How many bits the words so far can hold.
    pub closed spec fn room(&self) -> nat {
        64 * self.words@.len()
    }

    /// A row with no words yet.
    pub fn new() -> (r: Bitmap)
        ensures
            r.room() == 0,
            forall|at: int| !(#[trigger] r.has(at)),
    {
        Bitmap { words: Vec::new() }
    }

    /// Is there room for this bit?
    pub fn covers(&self, at: usize) -> (r: bool)
        ensures
            r == (at < self.room()),
    {
        at / 64 < self.words.len()
    }

    /// Is this bit set?
    pub fn get(&self, at: usize) -> (r: bool)
        ensures
            r == self.has(at as int),
    {
        let word: usize = at / 64;
        if word < self.words.len() {
            let bits: u64 = self.words[word];
            let shift: u64 = (at % 64) as u64;
            proof {
                lemma_word_bit(bits, 0, shift);
            }
            bits & (1u64 << shift) != 0
        } else {
            false
        }
    }

    /// Add one clear word.
    pub fn grow(&mut self)
        ensures
            final(self).room() == old(self).room() + 64,
            forall|at: int| #[trigger] final(self).has(at) == old(self).has(at),
    {
        let ghost before = *self;
        self.words.push(0);
        proof {
            assert forall|at: int| #[trigger] self.has(at) == before.has(at) by {
                if 0 <= at < 64 * self.words@.len() {
                    lemma_word_bit(0, 0, (at % 64) as u64);
                    if at < 64 * before.words@.len() {
                        assert(self.words@[at / 64] == before.words@[at / 64]);
                    } else {
                        assert(at / 64 == before.words@.len());
                    }
                }
            }
        }
    }

    /// Set a bit, if there is room for it.
    pub fn set(&mut self, index: usize)
        ensures
            final(self).room() == old(self).room(),
            forall|at: int| #[trigger]
                final(self).has(at) == (old(self).has(at) || (at == index && index
                    < old(self).room())),
    {
        let ghost before = *self;
        let word: usize = index / 64;
        if word < self.words.len() {
            let bits: u64 = self.words[word];
            let shift: u64 = (index % 64) as u64;
            self.words.set(word, bits | (1u64 << shift));
            proof {
                assert forall|at: int| #[trigger]
                    self.has(at) == (before.has(at) || at == index) by {
                    if 0 <= at < 64 * self.words@.len() {
                        lemma_word_bit(bits, shift, (at % 64) as u64);
                        if at / 64 == word {
                            assert(at == 64 * (at / 64) + at % 64);
                            assert(index == 64 * (index / 64) + index % 64);
                        }
                    }
                }
            }
        }
    }

    /// Set a bit, growing the row as needed.
    pub fn insert(&mut self, index: usize)
        ensures
            final(self).room() >= old(self).room(),
            forall|at: int| #[trigger] final(self).has(at) == (old(self).has(at) || at == index),
    {
        let ghost before = *self;
        while self.words.len() <= index / 64
            invariant
                self.room() >= before.room(),
                forall|at: int| #[trigger] self.has(at) == before.has(at),
            decreases index / 64 + 1 - self.words.len(),
        {
            self.grow();
        }
        self.set(index);
    }

    /// Clear every bit.
    pub fn clear(&mut self)
        ensures
            final(self).room() == old(self).room(),
            forall|at: int| !(#[trigger] final(self).has(at)),
    {
        let ghost before = *self;
        let mut i: usize = 0;
        while i < self.words.len()
            invariant
                i <= self.words.len(),
                self.words@.len() == before.words@.len(),
                forall|k: int| 0 <= k < i ==> self.words@[k] == 0,
            decreases self.words.len() - i,
        {
            self.words.set(i, 0);
            i = i + 1;
        }
        proof {
            assert forall|at: int| !(#[trigger] self.has(at)) by {
                if 0 <= at < 64 * self.words@.len() {
                    lemma_word_bit(0, 0, (at % 64) as u64);
                }
            }
        }
    }

    /// Keep only as many words as the first `slots` bits need.
    pub fn truncate(&mut self, slots: usize)
        ensures
            final(self).room() == if old(self).room() <= words_for(slots as int) * 64 {
                old(self).room() as int
            } else {
                words_for(slots as int) * 64
            },
            old(self).room() >= slots ==> final(self).room() >= slots,
            forall|at: int|
                at < final(self).room() ==> #[trigger] final(self).has(at) == old(self).has(at),
    {
        let words: usize = if slots % 64 == 0 {
            slots / 64
        } else {
            slots / 64 + 1
        };
        self.words.truncate(words);
    }
}

/// The indices of a set of slots, listed once each beside a row of bits that
/// answers membership.
#[derive(Debug)]
pub struct Members {
    list: Vec<u32>,
    bits: Bitmap,
}

impl Bitmap {
    /// How many words the row has.
    pub closed spec fn word_count(&self) -> nat {
        self.words@.len()
    }

    /// How many words the row has room for before it asks for more memory: no
    /// fewer than it has, and how many more is the allocator's choice.
    pub fn word_room(&self) -> (words: usize)
        ensures
            words >= self.word_count(),
    {
        reserved(&self.words)
    }
}

impl Members {
    /// How many words the row of bits has.
    pub closed spec fn word_count(&self) -> nat {
        self.bits.word_count()
    }

    /// How many members the list has room for, and how many words the bits: no
    /// fewer than there are, and how many more is the allocator's choice.
    pub fn rooms(&self) -> (r: (usize, usize))
        ensures
            r.0 >= self.listed().len(),
            r.1 >= self.word_count(),
    {
        (reserved(&self.list), self.bits.word_room())
    }

    /// Whether a slot is a member.
    pub closed spec fn has(&self, index: u32) -> bool {
        self.bits.has(index as int)
    }

    /// The members in the order they joined.
    pub closed spec fn listed(&self) -> Seq<u32> {
        self.list@
    }

    /// The list holds exactly the members, once each.
    pub closed spec fn wf(&self) -> bool {
        &&& self.list@.no_duplicates()
        &&& forall|index: u32| #[trigger] self.list@.contains(index) <==> self.bits.has(index as int)
    }

    /// The list and membership agree.
    pub proof fn lemma_listed(&self)
        requires
            self.wf(),
        ensures
            self.listed().no_duplicates(),
            forall|index: u32| #[trigger] self.listed().contains(index) <==> self.has(index),
    {
    }

    /// No members.
    pub fn new() -> (r: Members)
        ensures
            r.wf(),
            r.listed().len() == 0,
            forall|index: u32| !(#[trigger] r.has(index)),
    {
        Members { list: Vec::new(), bits: Bitmap::new() }
    }

    /// Is this slot a member?
    pub fn contains(&self, index: u32) -> (r: bool)
        ensures
            r == self.has(index),
    {
        self.bits.get(index as usize)
    }

    /// Add a slot, unless it is a member already.
    pub fn insert(&mut self, index: u32)
        requires
            old(self).wf(),
        ensures
            final(self).wf(),
            forall|at: u32| #[trigger] final(self).has(at) == (old(self).has(at) || at == index),
            final(self).listed() == if old(self).has(index) {
                old(self).listed()
            } else {
                old(self).listed().push(index)
            },
    {
        let ghost before = *self;
        if !self.bits.get(index as usize) {
            self.bits.insert(index as usize);
            self.list.push(index);
            proof {
                assert(!before.list@.contains(index));
                assert forall|at: u32| #[trigger] self.list@.contains(at) <==> self.bits.has(
                    at as int,
                ) by {
                    if self.list@.contains(at) {
                        let i = self.list@.index_of(at);
                        if i < before.list@.len() {
                            assert(before.list@[i] == at);
                            assert(before.list@.contains(at));
                        }
                    }
                    if self.bits.has(at as int) {
                        if at == index {
                            assert(self.list@[before.list@.len() as int] == at);
                        } else {
                            assert(before.list@.contains(at));
                            let i = before.list@.index_of(at);
                            assert(self.list@[i] == at);
                        }
                    }
                }
            }
        }
    }

    /// How many members there are.
    pub fn len(&self) -> (n: usize)
        ensures
            n == self.listed().len(),
    {
        self.list.len()
    }

    /// The member at a place in the list.
    pub fn at(&self, i: usize) -> (index: u32)
        requires
            i < self.listed().len(),
        ensures
            index == self.listed()[i as int],
    {
        self.list[i]
    }

    /// Forget every member.
    pub fn clear(&mut self)
        ensures
            final(self).wf(),
            final(self).listed().len() == 0,
            forall|index: u32| !(#[trigger] final(self).has(index)),
    {
        self.list.clear();
        self.bits.clear();
    }
}

} // verus!
