//! Handles to heap objects.
//!
//! A handle is four bytes: the low bits name the type of the object, the rest
//! its slot in that type's table.

use vstd::prelude::*;

verus! {

/// A handle to a heap object.
///
/// A handle does not keep its object alive. Looking up a handle whose object
/// has been collected answers `None`, and goes on doing so until the slot is
/// given to another object of the same type: slots are used again, so from then
/// on the handle names that one. Whoever holds on to a handle has to keep its
/// object reachable.
#[derive(Clone, Copy, PartialEq, Eq, Structural, PartialOrd, Ord, Debug, Hash)]
pub struct ObjectId(pub u32);

impl ObjectId {
    /// How many low bits of a handle name the type rather than the object.
    pub const TAG_BITS: u32 = 4;

    /// The type tag of a handle: its remainder modulo the number of tags.
    pub open spec fn spec_tag(self) -> u8 {
        (self.0 % 16) as u8
    }

    /// The slot a handle names.
    pub open spec fn spec_index(self) -> u32 {
        self.0 / 16
    }

    /// The handle of a given tag and slot.
    pub open spec fn spec_tagged(tag: u8, index: u32) -> ObjectId {
        ObjectId((index * 16 + tag) as u32)
    }

    /// Build a handle from its raw number.
    pub fn new(index: u32) -> (id: ObjectId)
        ensures
            id.0 == index,
    {
        ObjectId(index)
    }

    /// The raw number of a handle.
    pub fn raw(self) -> (raw: u32)
        ensures
            raw == self.0,
    {
        self.0
    }

    /// Build a handle naming both a type and a slot within that type's table.
    ///
    /// Only the low four bits of the tag and the low twenty-eight bits of the
    /// slot fit.
    pub fn tagged(tag: u8, index: u32) -> (id: ObjectId)
        ensures
            id.spec_tag() == tag % 16,
            id.spec_index() == index % 0x1000_0000,
            tag < 16 && index < 0x1000_0000 ==> id == ObjectId::spec_tagged(tag, index),
    {
        let raw: u32 = (index << 4) | (tag as u32 & 15);
        assert(raw % 16 == tag as u32 % 16 && raw / 16 == index % 0x1000_0000) by (bit_vector)
            requires
                raw == (index << 4u32) | (tag as u32 & 15u32),
        ;
        ObjectId(raw)
    }

    /// Which type's table this handle indexes.
    pub fn tag(self) -> (tag: u8)
        ensures
            tag == self.spec_tag(),
            tag < 16,
    {
        let raw: u32 = self.0;
        assert(raw & 15 == raw % 16) by (bit_vector);
        (raw & 15) as u8
    }

    /// Where in that table.
    pub fn index(self) -> (index: u32)
        ensures
            index == self.spec_index(),
            index < 0x1000_0000,
    {
        let raw: u32 = self.0;
        assert(raw >> 4u32 == raw / 16) by (bit_vector);
        raw >> 4
    }
}

/// No other handle has the type and slot of this one.
pub proof fn lemma_parts_determine(id: ObjectId)
    ensures
        forall|other: ObjectId|
            other.spec_tag() == id.spec_tag() && #[trigger] other.spec_index() == id.spec_index()
                ==> other == id,
{
    assert forall|other: ObjectId|
        other.spec_tag() == id.spec_tag() && #[trigger] other.spec_index()
            == id.spec_index() implies other == id by {
        assert(other.0 == 16 * other.spec_index() + other.spec_tag());
        assert(id.0 == 16 * id.spec_index() + id.spec_tag());
    }
}

/// A handle is exactly its tag and its slot: packing the two and taking them
/// apart again gives them back, and two handles that agree on both are equal.
pub proof fn law_handle_round_trip(tag: u8, index: u32, id: ObjectId)
    requires
        tag < 16,
        index < 0x1000_0000,
    ensures
        ObjectId::spec_tagged(tag, index).spec_tag() == tag,
        ObjectId::spec_tagged(tag, index).spec_index() == index,
        ObjectId::spec_tagged(id.spec_tag(), id.spec_index()) == id,
{
}

} // verus!
