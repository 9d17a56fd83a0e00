//! Names for method signatures and variables, each with a number.
//!
//! A method call compiles to a number and not to a name: this is where a name
//! becomes that number.

use vstd::prelude::*;

use crate::memory::{reserved, sized};
use crate::text::same_text;

verus! {

/// `String::capacity`: how many bytes a string has room for. It is the
/// allocator's choice, and no less than the string takes.
#[verifier::external_body]
fn text_room(text: &String) -> (room: usize)
    ensures
        room >= vstd::utf8::encode_utf8(text@).len(),
{
    text.capacity()
}

/// A set of names, each with a stable number.
#[derive(Debug)]
pub struct SymbolTable {
    names: Vec<String>,
}

impl SymbolTable {
    /// The names, in the order of their numbers.
    pub closed spec fn view(&self) -> Seq<Seq<char>> {
        self.names@.map_values(|name: String| name@)
    }

    /// No name has two numbers.
    pub closed spec fn wf(&self) -> bool {
        self@.no_duplicates()
    }

    /// A table without names.
    pub fn new() -> (table: SymbolTable)
        ensures
            table.wf(),
            table@ == Seq::<Seq<char>>::empty(),
    {
        let table = SymbolTable { names: Vec::new() };
        proof {
            assert(table@ =~= Seq::<Seq<char>>::empty());
        }
        table
    }

    /// The number of a name, if it has one.
    pub fn find(&self, name: &str) -> (r: Option<usize>)
        ensures
            match r {
                Some(index) => {
                    &&& index < self@.len()
                    &&& self@[index as int] == name@
                    &&& forall|i: int| 0 <= i < index ==> #[trigger] self@[i] != name@
                },
                None => !self@.contains(name@),
            },
    {
        let mut i: usize = 0;
        while i < self.names.len()
            invariant
                i <= self.names@.len(),
                forall|k: int| 0 <= k < i ==> #[trigger] self@[k] != name@,
            decreases self.names@.len() - i,
        {
            if same_text(self.names[i].as_str(), name) {
                return Some(i);
            }
            i = i + 1;
        }
        None
    }

    /// The number of a name, which is added if it is new.
    pub fn ensure(&mut self, name: &str) -> (index: usize)
        requires
            old(self).wf(),
        ensures
            final(self).wf(),
            index < final(self)@.len(),
            final(self)@[index as int] == name@,
            old(self)@.contains(name@) ==> *final(self) == *old(self),
            !old(self)@.contains(name@) ==> final(self)@ == old(self)@.push(name@) && index
                == old(self)@.len(),
    {
        match self.find(name) {
            Some(index) => {
                proof {
                    assert(self@[index as int] == name@);
                }
                index
            },
            None => {
                let ghost before = self@;
                self.names.push(name.to_owned());
                proof {
                    assert(self@ =~= before.push(name@));
                }
                self.names.len() - 1
            },
        }
    }

    /// The name with a number.
    pub fn name(&self, index: usize) -> (r: Option<&str>)
        ensures
            match r {
                Some(name) => index < self@.len() && name@ == self@[index as int],
                None => index >= self@.len(),
            },
    {
        if index < self.names.len() {
            Some(self.names[index].as_str())
        } else {
            None
        }
    }

    /// How many names there are.
    pub fn len(&self) -> (n: usize)
        ensures
            n == self@.len(),
    {
        self.names.len()
    }

    /// Whether there are none.
    pub fn is_empty(&self) -> (r: bool)
        ensures
            r == (self@.len() == 0),
    {
        self.names.len() == 0
    }

    /// How many names the table has room for before it asks for more memory.
    pub fn capacity(&self) -> (room: usize)
        ensures
            room >= self@.len(),
    {
        reserved(&self.names)
    }

    /// What the first `upto` names take in bytes.
    pub open spec fn text_bytes(&self, upto: int) -> nat
        decreases upto,
    {
        if upto <= 0 {
            0
        } else {
            self.text_bytes(upto - 1) + vstd::utf8::encode_utf8(self@[upto - 1]).len()
        }
    }

    /// What the names take, whatever room each has, is no less than their text.
    proof fn lemma_rooms(&self, rooms: Seq<usize>, upto: int)
        requires
            0 <= upto <= rooms.len(),
            rooms.len() <= self@.len(),
            forall|i: int|
                0 <= i < rooms.len() ==> #[trigger] rooms[i] >= vstd::utf8::encode_utf8(
                    self@[i],
                ).len(),
        ensures
            crate::memory::total(rooms.take(upto)) >= self.text_bytes(upto),
        decreases upto,
    {
        if upto > 0 {
            self.lemma_rooms(rooms, upto - 1);
            assert(rooms.take(upto).drop_last() =~= rooms.take(upto - 1));
        }
    }

    /// Whether a number of bytes is what the table takes with some room for
    /// names and some room in each of them.
    pub open spec fn takes(&self, bytes: usize, room: usize, rooms: Seq<usize>) -> bool {
        &&& room >= self@.len()
        &&& rooms.len() == self@.len()
        &&& forall|i: int|
            0 <= i < rooms.len() ==> #[trigger] rooms[i] >= vstd::utf8::encode_utf8(self@[i]).len()
        &&& bytes == crate::memory::capped(
            room as nat * vstd::layout::size_of::<String>() + crate::memory::total(rooms),
        )
    }

    /// What the table has taken from the allocator: the vector, and every name
    /// in it. How much room those have is the allocator's choice, and no less
    /// than the names need.
    pub fn footprint(&self) -> (bytes: usize)
        ensures
            exists|room: usize, rooms: Seq<usize>| #[trigger] self.takes(bytes, room, rooms),
            bytes >= crate::memory::capped(
                self@.len() * vstd::layout::size_of::<String>() + self.text_bytes(
                    self@.len() as int,
                ),
            ),
    {
        let room: usize = reserved(&self.names);
        let mut rooms: Vec<usize> = Vec::new();
        let mut i: usize = 0;
        while i < self.names.len()
            invariant
                i <= self.names@.len(),
                rooms@.len() == i,
                forall|k: int|
                    0 <= k < i ==> #[trigger] rooms@[k] >= vstd::utf8::encode_utf8(self@[k]).len(),
            decreases self.names@.len() - i,
        {
            rooms.push(text_room(&self.names[i]));
            i = i + 1;
        }
        let bytes: usize = footprint_with(room, &rooms);
        proof {
            assert(self.takes(bytes, room, rooms@));
            self.lemma_rooms(rooms@, rooms@.len() as int);
            assert(rooms@.take(rooms@.len() as int) =~= rooms@);
            let size = vstd::layout::size_of::<String>();
            vstd::arithmetic::mul::lemma_mul_inequality(
                self@.len() as int,
                room as int,
                size as int,
            );
        }
        bytes
    }
}

/// What a table of names takes whose vector has room for `room` of them, and
/// whose names have room for as many bytes as is listed.
pub fn footprint_with(room: usize, rooms: &Vec<usize>) -> (bytes: usize)
    ensures
        bytes == crate::memory::capped(
            room as nat * vstd::layout::size_of::<String>() + crate::memory::total(rooms@),
        ),
{
    let mut bytes: usize = sized(room, core::mem::size_of::<String>());
    let mut i: usize = 0;
    while i < rooms.len()
        invariant
            i <= rooms@.len(),
            bytes == crate::memory::capped(
                room as nat * vstd::layout::size_of::<String>() + crate::memory::total(rooms@.take(i as int)),
            ),
        decreases rooms@.len() - i,
    {
        proof {
            assert(rooms@.take(i as int + 1).drop_last() =~= rooms@.take(i as int));
        }
        bytes = bytes.saturating_add(rooms[i]);
        i = i + 1;
    }
    proof {
        assert(rooms@.take(i as int) =~= rooms@);
    }
    bytes
}

impl Default for SymbolTable {
    fn default() -> (table: SymbolTable)
        ensures
            table.wf(),
            table@ == Seq::<Seq<char>>::empty(),
    {
        SymbolTable::new()
    }
}

/// The number of a name is the only place it is at.
pub proof fn lemma_index(table: &SymbolTable, name: Seq<char>, index: int)
    requires
        table.wf(),
        0 <= index < table@.len(),
        table@[index] == name,
    ensures
        table@.contains(name),
        table@.index_of(name) == index,
{
    let first = table@.index_of(name);
    assert(table@.contains(name));
    assert(table@[first] == name);
}

/// A name keeps its number: adding another leaves it where it was.
pub proof fn law_numbers_are_stable(before: Seq<Seq<char>>, name: Seq<char>, index: int)
    requires
        0 <= index < before.len(),
    ensures
        before.push(name)[index] == before[index],
{
}

/// Two names share a number only if they are the same name.
pub proof fn law_numbers_tell_names_apart(table: &SymbolTable, a: int, b: int)
    requires
        table.wf(),
        0 <= a < table@.len(),
        0 <= b < table@.len(),
    ensures
        (table@[a] == table@[b]) == (a == b),
{
}

} // verus!
