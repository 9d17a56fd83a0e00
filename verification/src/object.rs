//! Heap objects, and what the collector needs to know of them.
//!
//! Everything that is not a number, a boolean or null lives in the heap and is
//! reached through an `ObjectId`.

use std::rc::Rc;

use vstd::prelude::*;
use vstd::string::*;
use vstd::utf8::*;

use crate::bytecode::Chunk;
use crate::corelib::primitive::Primitive;
use crate::handle::ObjectId;
use crate::memory::{reserved, shrink, sized};
use crate::value::Value;
use crate::vm::frame::Frame;

verus! {

/// Which kind of object a handle refers to.
#[derive(Clone, Copy, PartialEq, Eq, Structural, Debug)]
pub enum ObjectType {
    /// A class.
    Class,
    /// A function together with the variables it captured.
    Closure,
    /// A compiled function body.
    Fn,
    /// An instance of a class.
    Instance,
    /// A list.
    List,
    /// A map.
    MapObject,
    /// A range of numbers.
    Range,
    /// A string.
    String,
    /// One captured variable.
    Upvalue,
    /// A coroutine.
    Fiber,
}

impl ObjectType {
    /// The tag a handle carries for a type.
    pub open spec fn spec_tag(self) -> u8 {
        match self {
            ObjectType::Class => 0,
            ObjectType::Closure => 1,
            ObjectType::Fn => 2,
            ObjectType::Instance => 3,
            ObjectType::List => 4,
            ObjectType::MapObject => 5,
            ObjectType::Range => 6,
            ObjectType::String => 7,
            ObjectType::Upvalue => 8,
            ObjectType::Fiber => 9,
        }
    }

    /// The type a tag names, if it names one.
    pub open spec fn spec_from_tag(tag: u8) -> Option<ObjectType> {
        if tag == 0 {
            Some(ObjectType::Class)
        } else if tag == 1 {
            Some(ObjectType::Closure)
        } else if tag == 2 {
            Some(ObjectType::Fn)
        } else if tag == 3 {
            Some(ObjectType::Instance)
        } else if tag == 4 {
            Some(ObjectType::List)
        } else if tag == 5 {
            Some(ObjectType::MapObject)
        } else if tag == 6 {
            Some(ObjectType::Range)
        } else if tag == 7 {
            Some(ObjectType::String)
        } else if tag == 8 {
            Some(ObjectType::Upvalue)
        } else if tag == 9 {
            Some(ObjectType::Fiber)
        } else {
            None
        }
    }

    /// The tag a handle carries for this type.
    pub fn tag(self) -> (tag: u8)
        ensures
            tag == self.spec_tag(),
            tag < 10,
    {
        match self {
            ObjectType::Class => 0,
            ObjectType::Closure => 1,
            ObjectType::Fn => 2,
            ObjectType::Instance => 3,
            ObjectType::List => 4,
            ObjectType::MapObject => 5,
            ObjectType::Range => 6,
            ObjectType::String => 7,
            ObjectType::Upvalue => 8,
            ObjectType::Fiber => 9,
        }
    }

    /// The type a handle's tag names, or `None` if it names nothing.
    pub fn from_tag(tag: u8) -> (r: Option<ObjectType>)
        ensures
            r == ObjectType::spec_from_tag(tag),
    {
        let kind = match tag {
            0 => ObjectType::Class,
            1 => ObjectType::Closure,
            2 => ObjectType::Fn,
            3 => ObjectType::Instance,
            4 => ObjectType::List,
            5 => ObjectType::MapObject,
            6 => ObjectType::Range,
            7 => ObjectType::String,
            8 => ObjectType::Upvalue,
            9 => ObjectType::Fiber,
            _ => {
                return None;
            },
        };
        Some(kind)
    }
}

/// A type's tag names that type and no other, and fits what a handle reserves
/// for it.
pub proof fn law_tag_round_trip(kind: ObjectType, tag: u8)
    ensures
        ObjectType::spec_from_tag(kind.spec_tag()) == Some(kind),
        ObjectType::spec_from_tag(tag) is Some ==> ObjectType::spec_from_tag(tag)->0.spec_tag()
            == tag,
        kind.spec_tag() < 16,
{
}

/// What the collector needs from a type it stores.
pub trait Trace: Sized {
    /// Every object this one refers to, in the order `trace` reports them.
    spec fn referents(&self) -> Seq<ObjectId>;

    /// Whether two objects hold the same, whatever memory each has in reserve.
    spec fn same_as(&self, other: &Self) -> bool;

    /// Whether the object lives in the image rather than in the heap.
    spec fn in_image(&self) -> bool;

    /// The least number of bytes the object owns beyond its slot.
    spec fn least_contents(&self) -> nat;

    /// How many items the object's vector holds, if it has one that counts.
    spec fn filled(&self) -> nat;

    /// The number of bytes the object owns beyond its slot if its vector has
    /// room for `room` items.
    spec fn contents_given(&self, room: nat) -> nat;

    /// Whether the object has no memory in reserve, so that it owns no more
    /// than that.
    spec fn exact(&self) -> bool;

    /// Holding the same is reflexive.
    proof fn lemma_same_refl(&self)
        ensures
            self.same_as(self),
    ;

    /// What two objects that hold the same agree on.
    proof fn lemma_same(&self, other: &Self)
        requires
            self.same_as(other),
        ensures
            self.referents() == other.referents(),
            self.in_image() == other.in_image(),
            self.least_contents() == other.least_contents(),
    ;

    /// Push every object this one refers to onto the collector's work list.
    fn trace(&self, gray: &mut Vec<ObjectId>)
        ensures
            final(gray)@ == old(gray)@ + self.referents(),
    ;

    /// Roughly what this object owns beyond its slot.
    ///
    /// The vectors inside an object reserve memory on their own, so this is
    /// whatever those have reserved, and no less than what they hold.
    fn contents_size(&self) -> (bytes: usize)
        ensures
            bytes >= crate::memory::capped(self.least_contents()),
            self.exact() ==> bytes == crate::memory::capped(self.least_contents()),
            exists|room: usize|
                room >= self.filled() && bytes == crate::memory::capped(
                    #[trigger] self.contents_given(room as nat),
                ),
    ;

    /// Give back memory this object has in reserve, now that it has settled.
    fn settle(&mut self)
        ensures
            final(self).same_as(old(self)),
    ;

    /// Whether the object is live whatever the marks say.
    fn is_permanent(&self) -> (r: bool)
        ensures
            r == self.in_image(),
    ;
}

/// A boxed payload traces as the payload does.
impl<T: Trace> Trace for Box<T> {
    open spec fn referents(&self) -> Seq<ObjectId> {
        (**self).referents()
    }

    open spec fn same_as(&self, other: &Self) -> bool {
        (**self).same_as(&**other)
    }

    open spec fn in_image(&self) -> bool {
        (**self).in_image()
    }

    open spec fn least_contents(&self) -> nat {
        (**self).least_contents()
    }

    open spec fn filled(&self) -> nat {
        (**self).filled()
    }

    open spec fn contents_given(&self, room: nat) -> nat {
        (**self).contents_given(room)
    }

    open spec fn exact(&self) -> bool {
        (**self).exact()
    }

    proof fn lemma_same_refl(&self) {
        (**self).lemma_same_refl();
    }

    proof fn lemma_same(&self, other: &Self) {
        (**self).lemma_same(&**other);
    }

    fn trace(&self, gray: &mut Vec<ObjectId>) {
        (**self).trace(gray)
    }

    fn contents_size(&self) -> usize {
        let bytes: usize = (**self).contents_size();
        proof {
            let room = choose|room: usize|
                room >= (**self).filled() && bytes == crate::memory::capped(
                    #[trigger] (**self).contents_given(room as nat),
                );
            assert(self.contents_given(room as nat) == (**self).contents_given(room as nat));
        }
        bytes
    }

    fn settle(&mut self) {
        (**self).settle()
    }

    fn is_permanent(&self) -> bool {
        (**self).is_permanent()
    }
}

/// The handle a value holds, if it holds one.
pub open spec fn value_refs(value: Value) -> Seq<ObjectId> {
    match value.spec_as_object() {
        Some(id) => seq![id],
        None => Seq::empty(),
    }
}

/// The handles a run of values holds, in order.
pub open spec fn values_refs(values: Seq<Value>) -> Seq<ObjectId>
    decreases values.len(),
{
    if values.len() == 0 {
        Seq::empty()
    } else {
        values_refs(values.drop_last()) + value_refs(values.last())
    }
}

/// Push a value's handle, if it has one.
pub fn gray_value(value: Value, gray: &mut Vec<ObjectId>)
    ensures
        final(gray)@ == old(gray)@ + value_refs(value),
{
    let ghost before = gray@;
    match value.as_object() {
        Some(id) => {
            gray.push(id);
        },
        None => {},
    }
    proof {
        assert(gray@ =~= before + value_refs(value));
    }
}

/// Push the handles of a run of values.
pub fn gray_values(values: &Vec<Value>, gray: &mut Vec<ObjectId>)
    ensures
        final(gray)@ == old(gray)@ + values_refs(values@),
{
    let ghost before = gray@;
    let mut i: usize = 0;
    proof {
        assert(gray@ =~= before + values_refs(values@.take(0)));
    }
    while i < values.len()
        invariant
            i <= values@.len(),
            gray@ == before + values_refs(values@.take(i as int)),
        decreases values@.len() - i,
    {
        gray_value(values[i], gray);
        proof {
            let upto = values@.take(i as int + 1);
            assert(upto.drop_last() =~= values@.take(i as int));
            assert(upto.last() == values@[i as int]);
            assert(gray@ =~= before + values_refs(upto));
        }
        i = i + 1;
    }
    proof {
        assert(values@.take(i as int) =~= values@);
    }
}

/// The handle an optional reference names.
pub open spec fn option_refs(id: Option<ObjectId>) -> Seq<ObjectId> {
    match id {
        Some(id) => seq![id],
        None => Seq::empty(),
    }
}

/// Push a handle, if there is one.
fn gray_option(id: Option<ObjectId>, gray: &mut Vec<ObjectId>)
    ensures
        final(gray)@ == old(gray)@ + option_refs(id),
{
    let ghost before = gray@;
    match id {
        Some(id) => {
            gray.push(id);
        },
        None => {},
    }
    proof {
        assert(gray@ =~= before + option_refs(id));
    }
}

/// A string: bytes that are usually UTF-8.
#[derive(Debug)]
pub struct ObjString {
    /// The contents.
    pub bytes: Vec<u8>,
    /// The hash of the contents, kept because maps ask for it on every lookup.
    pub hashed: u32,
}

/// One step of the hash.
pub open spec fn hash_step(hash: u32, byte: u8) -> u32 {
    ((hash ^ (byte as u32)) * 16777619) as u32
}

/// FNV-1a over a run of bytes.
pub open spec fn hash_of(bytes: Seq<u8>) -> u32
    decreases bytes.len(),
{
    if bytes.len() == 0 {
        2166136261
    } else {
        hash_step(hash_of(bytes.drop_last()), bytes.last())
    }
}

/// FNV-1a over a run of bytes.
fn hash_bytes(bytes: &[u8]) -> (hash: u32)
    ensures
        hash == hash_of(bytes@),
{
    let mut hash: u32 = 2166136261;
    let mut i: usize = 0;
    while i < bytes.len()
        invariant
            i <= bytes@.len(),
            hash == hash_of(bytes@.take(i as int)),
        decreases bytes@.len() - i,
    {
        let mixed: u32 = hash ^ (bytes[i] as u32);
        hash = mixed.wrapping_mul(16777619);
        proof {
            let upto = bytes@.take(i as int + 1);
            assert(upto.drop_last() =~= bytes@.take(i as int));
            assert(upto.last() == bytes@[i as int]);
            lemma_wrapping_mul(mixed, 16777619);
        }
        i = i + 1;
    }
    proof {
        assert(bytes@.take(i as int) =~= bytes@);
    }
    hash
}

/// Wrapping multiplication is truncated multiplication.
proof fn lemma_wrapping_mul(a: u32, b: u32)
    ensures
        a.wrapping_mul(b) == (a * b) as u32,
{
    assert((a * b) % 0x1_0000_0000 == (a * b) as u32) by {
        let product = (a * b) as u64;
        assert(0 <= a * b <= 0xffff_ffff * 0xffff_ffff) by (nonlinear_arith)
            requires
                0 <= a <= 0xffff_ffff,
                0 <= b <= 0xffff_ffff,
        ;
        assert(product % 0x1_0000_0000 == product as u32) by (bit_vector);
    }
}

/// `core::str::from_utf8`: the bytes as text, where they are valid UTF-8.
#[verifier::external_body]
pub(crate) fn text_of(bytes: &[u8]) -> (r: Option<&str>)
    ensures
        match r {
            Some(text) => text@ == decode_utf8(bytes@) && valid_utf8(bytes@),
            None => !valid_utf8(bytes@),
        },
{
    core::str::from_utf8(bytes).ok()
}

/// A copy of a run of bytes.
pub fn copy_bytes(bytes: &[u8]) -> (copy: Vec<u8>)
    ensures
        copy@ == bytes@,
{
    let mut copy: Vec<u8> = Vec::new();
    let mut i: usize = 0;
    while i < bytes.len()
        invariant
            i <= bytes@.len(),
            copy@ == bytes@.take(i as int),
        decreases bytes@.len() - i,
    {
        copy.push(bytes[i]);
        proof {
            assert(bytes@.take(i as int + 1) =~= bytes@.take(i as int).push(bytes@[i as int]));
        }
        i = i + 1;
    }
    proof {
        assert(bytes@.take(i as int) =~= bytes@);
    }
    copy
}

impl ObjString {
    /// The kept hash is that of the contents.
    pub open spec fn wf(&self) -> bool {
        self.hashed == hash_of(self.bytes@)
    }

    /// A string of these bytes.
    pub fn new(bytes: Vec<u8>) -> (string: ObjString)
        ensures
            string.bytes == bytes,
            string.wf(),
    {
        let hashed: u32 = hash_bytes(bytes.as_slice());
        ObjString { bytes, hashed }
    }

    /// A string of this text.
    pub fn from_text(text: &str) -> (string: ObjString)
        ensures
            string.bytes@ == encode_utf8(text@),
            string.wf(),
    {
        ObjString::new(copy_bytes(text.as_bytes()))
    }

    /// The hash of the contents.
    pub fn hash(&self) -> (hash: u32)
        ensures
            hash == self.hashed,
    {
        self.hashed
    }

    /// The contents as text, when they happen to be valid UTF-8.
    pub fn as_str(&self) -> (r: Option<&str>)
        ensures
            match r {
                Some(text) => text@ == decode_utf8(self.bytes@) && valid_utf8(self.bytes@),
                None => !valid_utf8(self.bytes@),
            },
    {
        text_of(self.bytes.as_slice())
    }
}

impl Trace for ObjString {
    open spec fn referents(&self) -> Seq<ObjectId> {
        Seq::empty()
    }

    open spec fn same_as(&self, other: &Self) -> bool {
        *self == *other
    }

    open spec fn in_image(&self) -> bool {
        false
    }

    open spec fn least_contents(&self) -> nat {
        self.bytes@.len()
    }

    open spec fn filled(&self) -> nat {
        self.bytes@.len()
    }

    open spec fn contents_given(&self, room: nat) -> nat {
        room
    }

    open spec fn exact(&self) -> bool {
        false
    }

    proof fn lemma_same_refl(&self) {
    }

    proof fn lemma_same(&self, other: &Self) {
    }

    fn trace(&self, gray: &mut Vec<ObjectId>) {
        proof {
            assert(gray@ =~= gray@ + self.referents());
        }
    }

    fn contents_size(&self) -> usize {
        let room: usize = reserved(&self.bytes);
        assert(self.contents_given(room as nat) == room);
        room
    }

    fn settle(&mut self) {
    }

    fn is_permanent(&self) -> bool {
        false
    }
}

/// A list.
#[derive(Debug)]
pub struct ObjList {
    /// The elements.
    pub elements: Vec<Value>,
}

impl ObjList {
    /// A list of nothing.
    pub fn new() -> (list: ObjList)
        ensures
            list.elements@.len() == 0,
    {
        ObjList { elements: Vec::new() }
    }
}

impl Default for ObjList {
    fn default() -> (list: ObjList)
        ensures
            list.elements@.len() == 0,
    {
        ObjList::new()
    }
}

impl Trace for ObjList {
    open spec fn referents(&self) -> Seq<ObjectId> {
        values_refs(self.elements@)
    }

    open spec fn same_as(&self, other: &Self) -> bool {
        *self == *other
    }

    open spec fn in_image(&self) -> bool {
        false
    }

    open spec fn least_contents(&self) -> nat {
        self.elements@.len() * vstd::layout::size_of::<Value>()
    }

    open spec fn filled(&self) -> nat {
        self.elements@.len()
    }

    open spec fn contents_given(&self, room: nat) -> nat {
        room * vstd::layout::size_of::<Value>()
    }

    open spec fn exact(&self) -> bool {
        false
    }

    proof fn lemma_same_refl(&self) {
    }

    proof fn lemma_same(&self, other: &Self) {
    }

    fn trace(&self, gray: &mut Vec<ObjectId>) {
        gray_values(&self.elements, gray);
    }

    fn contents_size(&self) -> usize {
        let count: usize = reserved(&self.elements);
        let size: usize = core::mem::size_of::<Value>();
        proof {
            assert(self.contents_given(count as nat) >= 0);
            crate::memory::lemma_sized(self.elements@.len(), count as nat, size as nat);
        }
        sized(count, size)
    }

    fn settle(&mut self) {
    }

    fn is_permanent(&self) -> bool {
        false
    }
}

/// One key and its value in a map.
#[derive(Clone, Copy, Debug)]
pub struct MapEntry {
    /// The key; `undefined` where the slot is not live.
    pub key: Value,
    /// The value.
    pub value: Value,
}

/// A map.
///
/// A slot whose key is `undefined` holds no entry: one never used has the
/// value `false`, one whose entry was removed has the value `true`.
#[derive(Debug)]
pub struct ObjMap {
    /// The slots.
    pub entries: Vec<MapEntry>,
    /// How many slots hold an entry.
    pub count: usize,
}

/// Whether a slot holds an entry.
pub open spec fn slot_live(entries: Seq<MapEntry>, slot: int) -> bool {
    0 <= slot < entries.len() && entries[slot].key != Value::undefined()
}

/// The entries that hold something, in slot order.
pub open spec fn live_entries(entries: Seq<MapEntry>) -> Seq<MapEntry> {
    entries.filter(|entry: MapEntry| entry.key != Value::undefined())
}

impl ObjMap {
    /// The count is that of the slots that hold an entry.
    pub open spec fn wf(&self) -> bool {
        self.count == live_entries(self.entries@).len()
    }

    /// A map of nothing.
    pub fn new() -> (map: ObjMap)
        ensures
            map.entries@.len() == 0,
            map.count == 0,
            map.wf(),
    {
        let map = ObjMap { entries: Vec::new(), count: 0 };
        proof {
            reveal(Seq::filter);
        }
        map
    }

    /// Is this slot holding an entry?
    pub fn is_live(&self, slot: usize) -> (r: bool)
        ensures
            r == slot_live(self.entries@, slot as int),
    {
        slot < self.entries.len() && !self.entries[slot].key.is_undefined()
    }

    /// The next live slot at or after `from`, for iteration.
    pub fn next_live(&self, from: usize) -> (r: Option<usize>)
        ensures
            match r {
                Some(slot) => from <= slot && slot_live(self.entries@, slot as int) && forall|i: int|
                    from <= i < slot ==> !(#[trigger] slot_live(self.entries@, i)),
                None => forall|i: int| from <= i ==> !(#[trigger] slot_live(self.entries@, i)),
            },
    {
        let mut slot: usize = from;
        while slot < self.entries.len()
            invariant
                from <= slot,
                slot <= self.entries@.len() || slot == from,
                forall|i: int| from <= i < slot ==> !(#[trigger] slot_live(self.entries@, i)),
            decreases self.entries@.len() - slot,
        {
            if self.is_live(slot) {
                return Some(slot);
            }
            slot = slot + 1;
        }
        None
    }

    /// Every live entry, in slot order.
    pub fn live(&self) -> (entries: Vec<MapEntry>)
        ensures
            entries@ == live_entries(self.entries@),
    {
        let mut out: Vec<MapEntry> = Vec::new();
        let mut i: usize = 0;
        proof {
            reveal(Seq::filter);
        }
        while i < self.entries.len()
            invariant
                i <= self.entries@.len(),
                out@ == live_entries(self.entries@.take(i as int)),
            decreases self.entries@.len() - i,
        {
            let entry = self.entries[i];
            proof {
                assert(self.entries@.take(i as int + 1) =~= self.entries@.take(i as int).push(
                    entry,
                ));
                self.entries@.take(i as int).lemma_filter_push(
                    entry,
                    |entry: MapEntry| entry.key != Value::undefined(),
                );
            }
            if !entry.key.is_undefined() {
                out.push(entry);
            }
            i = i + 1;
        }
        proof {
            assert(self.entries@.take(i as int) =~= self.entries@);
        }
        out
    }
}

impl Default for ObjMap {
    fn default() -> (map: ObjMap)
        ensures
            map.entries@.len() == 0,
            map.count == 0,
            map.wf(),
    {
        ObjMap::new()
    }
}

/// The handles the slots of a map hold, keys before values.
pub open spec fn entries_refs(entries: Seq<MapEntry>) -> Seq<ObjectId>
    decreases entries.len(),
{
    if entries.len() == 0 {
        Seq::empty()
    } else {
        entries_refs(entries.drop_last()) + value_refs(entries.last().key) + value_refs(
            entries.last().value,
        )
    }
}

impl Trace for ObjMap {
    open spec fn referents(&self) -> Seq<ObjectId> {
        entries_refs(self.entries@)
    }

    open spec fn same_as(&self, other: &Self) -> bool {
        *self == *other
    }

    open spec fn in_image(&self) -> bool {
        false
    }

    open spec fn least_contents(&self) -> nat {
        self.entries@.len() * vstd::layout::size_of::<MapEntry>()
    }

    open spec fn filled(&self) -> nat {
        self.entries@.len()
    }

    open spec fn contents_given(&self, room: nat) -> nat {
        room * vstd::layout::size_of::<MapEntry>()
    }

    open spec fn exact(&self) -> bool {
        false
    }

    proof fn lemma_same_refl(&self) {
    }

    proof fn lemma_same(&self, other: &Self) {
    }

    fn trace(&self, gray: &mut Vec<ObjectId>) {
        let ghost before = gray@;
        let mut i: usize = 0;
        proof {
            assert(gray@ =~= before + entries_refs(self.entries@.take(0)));
        }
        while i < self.entries.len()
            invariant
                i <= self.entries@.len(),
                gray@ == before + entries_refs(self.entries@.take(i as int)),
            decreases self.entries@.len() - i,
        {
            gray_value(self.entries[i].key, gray);
            gray_value(self.entries[i].value, gray);
            proof {
                let upto = self.entries@.take(i as int + 1);
                assert(upto.drop_last() =~= self.entries@.take(i as int));
                assert(upto.last() == self.entries@[i as int]);
                assert(gray@ =~= before + entries_refs(upto));
            }
            i = i + 1;
        }
        proof {
            assert(self.entries@.take(i as int) =~= self.entries@);
        }
    }

    fn contents_size(&self) -> usize {
        let count: usize = reserved(&self.entries);
        let size: usize = core::mem::size_of::<MapEntry>();
        proof {
            assert(self.contents_given(count as nat) >= 0);
            crate::memory::lemma_sized(self.entries@.len(), count as nat, size as nat);
        }
        sized(count, size)
    }

    fn settle(&mut self) {
    }

    fn is_permanent(&self) -> bool {
        false
    }
}

/// A range, as `1..5` or `1...5`. Its ends are numbers, kept as their bits.
#[derive(Clone, Copy, Debug)]
pub struct ObjRange {
    /// Where the range starts.
    pub from: u64,
    /// Where it ends.
    pub to: u64,
    /// Whether the end is part of it.
    pub is_inclusive: bool,
}

impl Trace for ObjRange {
    open spec fn referents(&self) -> Seq<ObjectId> {
        Seq::empty()
    }

    open spec fn same_as(&self, other: &Self) -> bool {
        *self == *other
    }

    open spec fn in_image(&self) -> bool {
        false
    }

    open spec fn least_contents(&self) -> nat {
        0
    }

    open spec fn filled(&self) -> nat {
        0
    }

    open spec fn contents_given(&self, room: nat) -> nat {
        0
    }

    open spec fn exact(&self) -> bool {
        true
    }

    proof fn lemma_same_refl(&self) {
    }

    proof fn lemma_same(&self, other: &Self) {
    }

    fn trace(&self, gray: &mut Vec<ObjectId>) {
        proof {
            assert(gray@ =~= gray@ + self.referents());
        }
    }

    fn contents_size(&self) -> usize {
        assert(self.contents_given(0usize as nat) == self.least_contents());
        0
    }

    fn settle(&mut self) {
    }

    fn is_permanent(&self) -> bool {
        false
    }
}

/// A method table slot holding nothing.
pub const NO_METHOD: u32 = 0xffff_ffff;

/// Set in a packed entry when it names a primitive rather than a closure.
pub const PRIMITIVE_BIT: u32 = 0x8000_0000;

/// The packed form of a closure's handle.
pub open spec fn spec_closure_entry(closure: ObjectId) -> u32 {
    (closure.0 % 0x8000_0000) as u32
}

/// The packed form of a primitive's index.
pub open spec fn spec_primitive_entry(index: int) -> u32 {
    (0x8000_0000 + index % 0x8000_0000) as u32
}

/// The closure a packed entry names.
pub open spec fn spec_entry_closure(entry: u32) -> Option<ObjectId> {
    if entry < 0x8000_0000 {
        Some(ObjectId(entry))
    } else {
        None
    }
}

/// The primitive index a packed entry names.
pub open spec fn spec_entry_primitive(entry: u32) -> Option<int> {
    if 0x8000_0000 <= entry && entry != NO_METHOD {
        Some(entry - 0x8000_0000)
    } else {
        None
    }
}

/// The top bit of a packed entry, as arithmetic.
proof fn lemma_top_bit(entry: u32)
    by (bit_vector)
    ensures
        entry & !0x8000_0000u32 == entry % 0x8000_0000,
        (entry & 0x8000_0000u32 != 0) == (entry >= 0x8000_0000u32),
        0x8000_0000u32 | (entry & !0x8000_0000u32) == 0x8000_0000 + entry % 0x8000_0000,
{
}

/// Pack a method implemented in Wren.
pub fn closure_entry(closure: ObjectId) -> (entry: u32)
    ensures
        entry == spec_closure_entry(closure),
{
    proof {
        lemma_top_bit(closure.0);
    }
    closure.raw() & !PRIMITIVE_BIT
}

/// Pack a method of the library, by its index in the primitive table.
pub fn primitive_entry(index: usize) -> (entry: u32)
    ensures
        entry == spec_primitive_entry(index as u32 as int),
{
    #[verifier::truncate]
    let low: u32 = index as u32;
    proof {
        lemma_top_bit(low);
    }
    PRIMITIVE_BIT | (low & !PRIMITIVE_BIT)
}

/// The closure a packed entry names, or `None` if it is empty or a primitive.
pub fn entry_closure(entry: u32) -> (r: Option<ObjectId>)
    ensures
        r == spec_entry_closure(entry),
{
    proof {
        lemma_top_bit(entry);
    }
    if entry == NO_METHOD || entry & PRIMITIVE_BIT != 0 {
        return None;
    }
    Some(ObjectId::new(entry))
}

/// The primitive index a packed entry names, if it names one.
pub fn entry_primitive(entry: u32) -> (r: Option<usize>)
    ensures
        match r {
            Some(index) => spec_entry_primitive(entry) == Some(index as int),
            None => spec_entry_primitive(entry) is None,
        },
{
    proof {
        lemma_top_bit(entry);
    }
    if entry == NO_METHOD || entry & PRIMITIVE_BIT == 0 {
        return None;
    }
    Some((entry & !PRIMITIVE_BIT) as usize)
}

/// A packed closure comes back out as itself, and a packed primitive as its
/// index; neither is taken for the other, nor for an empty slot.
pub proof fn law_method_entry_round_trip(closure: ObjectId, index: int)
    requires
        closure.0 < 0x8000_0000,
        0 <= index < 0x7fff_ffff,
    ensures
        spec_entry_closure(spec_closure_entry(closure)) == Some(closure),
        spec_entry_primitive(spec_closure_entry(closure)) is None,
        spec_entry_primitive(spec_primitive_entry(index)) == Some(index),
        spec_entry_closure(spec_primitive_entry(index)) is None,
        spec_entry_closure(NO_METHOD) is None,
        spec_entry_primitive(NO_METHOD) is None,
{
}

/// What a method call actually runs.
#[derive(Clone, Copy, PartialEq, Eq, Structural, Debug)]
pub enum Method {
    /// Implemented in Wren: a handle to a closure.
    Closure(ObjectId),
    /// Implemented by the library.
    Primitive(Primitive),
}

/// A class's method table, which may live in the image rather than the heap.
#[derive(Debug)]
pub enum Methods {
    /// Computed when the image was built.
    Static(&'static [u32]),
    /// Built at start-up, and still being defined into.
    Owned(Vec<u32>),
}

impl Methods {
    /// The packed entries, by symbol.
    pub open spec fn entries(&self) -> Seq<u32> {
        match self {
            Methods::Static(entries) => entries@,
            Methods::Owned(entries) => entries@,
        }
    }

    /// How many entries the heap holds for the table: none for one in the image.
    pub open spec fn owned(&self) -> nat {
        match self {
            Methods::Static(entries) => 0,
            Methods::Owned(entries) => entries@.len(),
        }
    }

    /// The table of a class that is still being built.
    pub fn new() -> (methods: Methods)
        ensures
            methods is Owned,
            methods.entries().len() == 0,
    {
        Methods::Owned(Vec::new())
    }

    /// The table for writing, or `None` when it is in the image.
    pub fn as_mut(&mut self) -> (r: Option<&mut Vec<u32>>)
        ensures
            match r {
                Some(entries) => {
                    &&& *old(self) is Owned
                    &&& entries@ == old(self).entries()
                    &&& *final(self) is Owned
                    &&& final(self).entries() == final(entries)@
                },
                None => *old(self) is Static && *final(self) == *old(self),
            },
    {
        match self {
            Methods::Owned(entries) => Some(entries),
            Methods::Static(_) => None,
        }
    }

    /// The packed entries, by symbol.
    pub fn as_slice(&self) -> (entries: &[u32])
        ensures
            entries@ == self.entries(),
    {
        match self {
            Methods::Owned(entries) => entries.as_slice(),
            Methods::Static(entries) => *entries,
        }
    }

    /// What this table costs the heap: nothing at all when it is in the image.
    pub fn footprint(&self) -> (bytes: usize)
        ensures
            *self is Static ==> bytes == 0,
            *self is Owned ==> bytes >= crate::memory::capped(
                self.entries().len() * vstd::layout::size_of::<u32>(),
            ),
            *self is Owned ==> exists|room: usize| #[trigger]
                crate::memory::takes(bytes, room, self.owned(), vstd::layout::size_of::<u32>()),
    {
        match self {
            Methods::Owned(entries) => {
                let count: usize = reserved(entries);
                let size: usize = core::mem::size_of::<u32>();
                proof {
                    crate::memory::lemma_sized(entries@.len(), count as nat, size as nat);
                }
                let bytes: usize = sized(count, size);
                assert(crate::memory::takes(
                    bytes,
                    count,
                    self.owned(),
                    vstd::layout::size_of::<u32>(),
                ));
                bytes
            },
            Methods::Static(_) => 0,
        }
    }
}

impl Default for Methods {
    fn default() -> (methods: Methods)
        ensures
            methods is Owned,
            methods.entries().len() == 0,
    {
        Methods::new()
    }
}

/// A class.
#[derive(Debug)]
pub struct ObjClass {
    /// The class's name, as a handle to a string.
    pub name: ObjectId,
    /// `None` only for the root of the hierarchy.
    pub superclass: Option<ObjectId>,
    /// How many fields an instance has, inherited ones among them; negative
    /// for a class whose instances hold something else.
    pub num_fields: i32,
    /// The class holding this class's static methods; `None` for a metaclass.
    pub metaclass: Option<ObjectId>,
    /// Packed methods, by symbol.
    pub methods: Methods,
    /// The class's attributes, or null.
    pub attributes: Value,
    /// Values of the class's static fields.
    pub static_fields: Vec<Value>,
}

/// The entry a method table holds for a symbol; none past its end.
pub open spec fn entry_at(entries: Seq<u32>, symbol: int) -> u32 {
    if 0 <= symbol < entries.len() {
        entries[symbol]
    } else {
        NO_METHOD
    }
}

/// The table with an entry bound to a symbol, grown as needed.
pub open spec fn defined(entries: Seq<u32>, symbol: int, entry: u32) -> Seq<u32> {
    let room = if entries.len() <= symbol {
        entries + Seq::new((symbol + 1 - entries.len()) as nat, |i: int| NO_METHOD)
    } else {
        entries
    };
    room.update(symbol, entry)
}

/// Grow a method table to a length with empty entries.
pub fn grow_entries(entries: &mut Vec<u32>, len: usize)
    ensures
        final(entries)@ == if old(entries)@.len() < len {
            old(entries)@ + Seq::new((len - old(entries)@.len()) as nat, |i: int| NO_METHOD)
        } else {
            old(entries)@
        },
{
    let ghost before = entries@;
    while entries.len() < len
        invariant
            before.len() <= entries@.len(),
            entries@.len() <= before.len() || entries@.len() <= len,
            forall|i: int| 0 <= i < before.len() ==> entries@[i] == before[i],
            forall|i: int| before.len() <= i < entries@.len() ==> entries@[i] == NO_METHOD,
        decreases len - entries.len(),
    {
        entries.push(NO_METHOD);
    }
    proof {
        if before.len() < len {
            assert(entries@ =~= before + Seq::new((len - before.len()) as nat, |i: int| NO_METHOD));
        } else {
            assert(entries@ =~= before);
        }
    }
}

impl ObjClass {
    /// A class with no methods yet.
    pub fn new(name: ObjectId, superclass: Option<ObjectId>) -> (class: ObjClass)
        ensures
            class.name == name,
            class.superclass == superclass,
            class.num_fields == 0,
            class.metaclass is None,
            class.methods is Owned,
            class.methods.entries().len() == 0,
            class.attributes == Value::null(),
            class.static_fields@.len() == 0,
    {
        ObjClass {
            name,
            superclass,
            num_fields: 0,
            metaclass: None,
            methods: Methods::new(),
            attributes: Value::null(),
            static_fields: Vec::new(),
        }
    }

    /// Whether two classes agree on everything but their methods.
    pub open spec fn same_but_methods(&self, other: &ObjClass) -> bool {
        &&& self.name == other.name
        &&& self.superclass == other.superclass
        &&& self.num_fields == other.num_fields
        &&& self.metaclass == other.metaclass
        &&& self.attributes == other.attributes
        &&& self.static_fields == other.static_fields
    }

    /// Bind a packed entry to a symbol, growing the table as needed. A table
    /// in the image stays as it is.
    pub fn define(&mut self, symbol: usize, entry: u32)
        requires
            symbol < usize::MAX,
        ensures
            final(self).same_but_methods(old(self)),
            old(self).methods is Static ==> *final(self) == *old(self),
            old(self).methods is Owned ==> final(self).methods is Owned
                && final(self).methods.entries() == defined(
                old(self).methods.entries(),
                symbol as int,
                entry,
            ),
    {
        match self.methods.as_mut() {
            Some(entries) => {
                grow_entries(entries, symbol + 1);
                entries.set(symbol, entry);
            },
            None => {},
        }
    }

    /// The packed entry bound to a symbol; `NO_METHOD` when there is none.
    pub fn method_entry(&self, symbol: usize) -> (entry: u32)
        ensures
            entry == entry_at(self.methods.entries(), symbol as int),
    {
        let entries = self.methods.as_slice();
        if symbol < entries.len() {
            entries[symbol]
        } else {
            NO_METHOD
        }
    }
}

/// Defining a method is seen by looking it up, and leaves every other symbol
/// as it was.
pub proof fn law_define_then_lookup(entries: Seq<u32>, symbol: int, entry: u32, other: int)
    requires
        0 <= symbol,
    ensures
        entry_at(defined(entries, symbol, entry), symbol) == entry,
        other != symbol ==> entry_at(defined(entries, symbol, entry), other) == entry_at(
            entries,
            other,
        ),
{
}

/// The closures a method table refers to, in symbol order.
pub open spec fn methods_refs(entries: Seq<u32>) -> Seq<ObjectId>
    decreases entries.len(),
{
    if entries.len() == 0 {
        Seq::empty()
    } else {
        methods_refs(entries.drop_last()) + option_refs(spec_entry_closure(entries.last()))
    }
}

impl Trace for ObjClass {
    open spec fn referents(&self) -> Seq<ObjectId> {
        seq![self.name] + option_refs(self.superclass) + option_refs(self.metaclass) + value_refs(
            self.attributes,
        ) + values_refs(self.static_fields@) + methods_refs(self.methods.entries())
    }

    open spec fn same_as(&self, other: &Self) -> bool {
        &&& self.same_but_methods(other)
        &&& self.methods.entries() == other.methods.entries()
        &&& self.methods is Static == other.methods is Static
    }

    open spec fn in_image(&self) -> bool {
        false
    }

    open spec fn least_contents(&self) -> nat {
        vstd::layout::size_of::<ObjClass>() + match self.methods {
            Methods::Owned(entries) => entries@.len() * vstd::layout::size_of::<u32>(),
            Methods::Static(entries) => 0,
        }
    }

    open spec fn filled(&self) -> nat {
        self.methods.owned()
    }

    open spec fn contents_given(&self, room: nat) -> nat {
        vstd::layout::size_of::<ObjClass>() + match self.methods {
            Methods::Owned(entries) => room * vstd::layout::size_of::<u32>(),
            Methods::Static(entries) => 0,
        }
    }

    open spec fn exact(&self) -> bool {
        self.methods is Static
    }

    proof fn lemma_same_refl(&self) {
    }

    proof fn lemma_same(&self, other: &Self) {
    }

    fn trace(&self, gray: &mut Vec<ObjectId>) {
        let ghost before = gray@;
        gray.push(self.name);
        gray_option(self.superclass, gray);
        gray_option(self.metaclass, gray);
        gray_value(self.attributes, gray);
        gray_values(&self.static_fields, gray);
        let ghost sofar = gray@;
        let entries = self.methods.as_slice();
        let mut i: usize = 0;
        proof {
            assert(gray@ =~= sofar + methods_refs(entries@.take(0)));
        }
        while i < entries.len()
            invariant
                i <= entries@.len(),
                gray@ == sofar + methods_refs(entries@.take(i as int)),
            decreases entries@.len() - i,
        {
            gray_option(entry_closure(entries[i]), gray);
            proof {
                let upto = entries@.take(i as int + 1);
                assert(upto.drop_last() =~= entries@.take(i as int));
                assert(upto.last() == entries@[i as int]);
                assert(gray@ =~= sofar + methods_refs(upto));
            }
            i = i + 1;
        }
        proof {
            assert(entries@.take(i as int) =~= entries@);
            assert(gray@ =~= before + self.referents());
        }
    }

    fn contents_size(&self) -> usize {
        let methods: usize = self.methods.footprint();
        proof {
            if self.methods is Owned {
                let room = choose|room: usize| #[trigger]
                    crate::memory::takes(
                        methods,
                        room,
                        self.methods.owned(),
                        vstd::layout::size_of::<u32>(),
                    );
                assert(self.contents_given(room as nat) >= 0);
            } else {
                assert(self.contents_given(0usize as nat) >= 0);
            }
        }
        core::mem::size_of::<ObjClass>().saturating_add(methods)
    }

    fn settle(&mut self) {
        match self.methods.as_mut() {
            Some(entries) => {
                shrink(entries);
            },
            None => {},
        }
    }

    fn is_permanent(&self) -> bool {
        false
    }
}

/// A class as the heap holds it: built at start-up, or part of the image.
#[derive(Debug)]
pub enum ClassRef {
    /// Built at start-up.
    Owned(Box<ObjClass>),
    /// Part of the image: never copied, changed or freed.
    Static(&'static ObjClass),
}

impl ClassRef {
    /// The class itself.
    pub open spec fn class(&self) -> ObjClass {
        match self {
            ClassRef::Owned(class) => **class,
            ClassRef::Static(class) => **class,
        }
    }

    /// Whether the class is part of the image.
    pub fn is_static(&self) -> (r: bool)
        ensures
            r == (*self is Static),
    {
        match self {
            ClassRef::Owned(_) => false,
            ClassRef::Static(_) => true,
        }
    }

    /// The class, for reading.
    pub fn get(&self) -> (class: &ObjClass)
        ensures
            *class == self.class(),
    {
        match self {
            ClassRef::Owned(class) => &**class,
            ClassRef::Static(class) => *class,
        }
    }

    /// The class for writing, or `None` when it is part of the image.
    pub fn as_mut(&mut self) -> (r: Option<&mut ObjClass>)
        ensures
            match r {
                Some(class) => {
                    &&& *old(self) is Owned
                    &&& *class == old(self).class()
                    &&& *final(self) is Owned
                    &&& final(self).class() == *final(class)
                },
                None => *old(self) is Static && *final(self) == *old(self),
            },
    {
        match self {
            ClassRef::Owned(class) => Some(&mut **class),
            ClassRef::Static(_) => None,
        }
    }
}

impl Trace for ClassRef {
    open spec fn referents(&self) -> Seq<ObjectId> {
        self.class().referents()
    }

    open spec fn same_as(&self, other: &Self) -> bool {
        &&& self.class().same_as(&other.class())
        &&& *self is Static == *other is Static
    }

    open spec fn in_image(&self) -> bool {
        *self is Static
    }

    open spec fn least_contents(&self) -> nat {
        match self {
            ClassRef::Owned(class) => class.least_contents(),
            ClassRef::Static(class) => 0,
        }
    }

    open spec fn filled(&self) -> nat {
        match self {
            ClassRef::Owned(class) => class.filled(),
            ClassRef::Static(class) => 0,
        }
    }

    open spec fn contents_given(&self, room: nat) -> nat {
        match self {
            ClassRef::Owned(class) => class.contents_given(room),
            ClassRef::Static(class) => 0,
        }
    }

    open spec fn exact(&self) -> bool {
        match self {
            ClassRef::Owned(class) => class.exact(),
            ClassRef::Static(class) => true,
        }
    }

    proof fn lemma_same_refl(&self) {
        self.class().lemma_same_refl();
    }

    proof fn lemma_same(&self, other: &Self) {
        self.class().lemma_same(&other.class());
    }

    fn trace(&self, gray: &mut Vec<ObjectId>) {
        self.get().trace(gray)
    }

    fn contents_size(&self) -> usize {
        match self {
            ClassRef::Owned(class) => {
                let bytes: usize = class.contents_size();
                proof {
                    let room = choose|room: usize|
                        room >= class.filled() && bytes == crate::memory::capped(
                            #[trigger] class.contents_given(room as nat),
                        );
                    assert(self.contents_given(room as nat) == class.contents_given(room as nat));
                }
                bytes
            },
            ClassRef::Static(_) => {
                assert(self.contents_given(0usize as nat) == 0);
                0
            },
        }
    }

    fn settle(&mut self) {
        match self {
            ClassRef::Owned(class) => {
                class.settle();
            },
            ClassRef::Static(class) => {
                proof {
                    class.lemma_same_refl();
                }
            },
        }
    }

    fn is_permanent(&self) -> bool {
        self.is_static()
    }
}

/// An instance of a class.
///
/// Its fields are not here: they lie end to end with those of other instances
/// in chunks that the heap owns, and an instance records where.
#[derive(Clone, Copy, Debug)]
pub struct ObjInstance {
    /// What it is an instance of.
    pub class: ObjectId,
    /// Where its fields begin, stored one greater.
    pub place: u32,
    /// How many fields it has.
    pub fields: u16,
}

impl ObjInstance {
    /// Where the fields begin.
    pub open spec fn spec_at(&self) -> int {
        if self.place > 0 {
            self.place - 1
        } else {
            0
        }
    }

    /// An instance whose `count` fields start at `at`.
    pub fn new(class: ObjectId, at: usize, count: usize) -> (instance: ObjInstance)
        requires
            at < u32::MAX,
            count <= u16::MAX,
        ensures
            instance.class == class,
            instance.spec_at() == at,
            instance.fields == count,
    {
        ObjInstance { class, place: at as u32 + 1, fields: count as u16 }
    }

    /// Where the fields begin.
    pub fn at(&self) -> (at: usize)
        ensures
            at == self.spec_at(),
    {
        (self.place as usize).saturating_sub(1)
    }

    /// How many fields the instance has.
    pub fn count(&self) -> (count: usize)
        ensures
            count == self.fields,
    {
        self.fields as usize
    }

    /// Point the instance at a different run of fields.
    pub fn moved_to(&mut self, at: usize, count: usize)
        requires
            at < u32::MAX,
            count <= u16::MAX,
        ensures
            final(self).class == old(self).class,
            final(self).spec_at() == at,
            final(self).fields == count,
    {
        self.place = at as u32 + 1;
        self.fields = count as u16;
    }
}

/// Only the class: the heap follows the fields.
impl Trace for ObjInstance {
    open spec fn referents(&self) -> Seq<ObjectId> {
        seq![self.class]
    }

    open spec fn same_as(&self, other: &Self) -> bool {
        *self == *other
    }

    open spec fn in_image(&self) -> bool {
        false
    }

    open spec fn least_contents(&self) -> nat {
        self.fields as nat * vstd::layout::size_of::<Value>()
    }

    open spec fn filled(&self) -> nat {
        0
    }

    open spec fn contents_given(&self, room: nat) -> nat {
        self.fields as nat * vstd::layout::size_of::<Value>()
    }

    open spec fn exact(&self) -> bool {
        true
    }

    proof fn lemma_same_refl(&self) {
    }

    proof fn lemma_same(&self, other: &Self) {
    }

    fn trace(&self, gray: &mut Vec<ObjectId>) {
        gray.push(self.class);
        proof {
            assert(gray@ =~= old(gray)@ + self.referents());
        }
    }

    fn contents_size(&self) -> usize {
        assert(self.contents_given(0usize as nat) == self.least_contents());
        sized(self.count(), core::mem::size_of::<Value>())
    }

    fn settle(&mut self) {
    }

    fn is_permanent(&self) -> bool {
        false
    }
}

/// A compiled function body.
#[derive(Debug)]
pub struct ObjFn {
    /// The code.
    pub chunk: Rc<Chunk>,
    /// How many arguments it takes.
    pub arity: usize,
    /// How many variables it captures.
    pub num_upvalues: usize,
    /// For error messages.
    pub name: String,
    /// Added to every field index the body uses; filled in when the method is
    /// bound to its class.
    pub field_offset: usize,
    /// Where a `super` call in the body starts looking.
    pub super_class: Option<ObjectId>,
    /// The class the method was defined in, for its static fields.
    pub owner_class: Option<ObjectId>,
    /// Which module's variables the code refers to.
    pub module: usize,
}

impl Trace for ObjFn {
    open spec fn referents(&self) -> Seq<ObjectId> {
        values_refs(self.chunk.constants@)
    }

    open spec fn same_as(&self, other: &Self) -> bool {
        *self == *other
    }

    open spec fn in_image(&self) -> bool {
        false
    }

    open spec fn least_contents(&self) -> nat {
        vstd::layout::size_of::<ObjFn>()
    }

    open spec fn filled(&self) -> nat {
        0
    }

    open spec fn contents_given(&self, room: nat) -> nat {
        vstd::layout::size_of::<ObjFn>()
    }

    open spec fn exact(&self) -> bool {
        true
    }

    proof fn lemma_same_refl(&self) {
    }

    proof fn lemma_same(&self, other: &Self) {
    }

    fn trace(&self, gray: &mut Vec<ObjectId>) {
        gray_values(&self.chunk.constants, gray);
    }

    fn contents_size(&self) -> usize {
        assert(self.contents_given(0usize as nat) == self.least_contents());
        core::mem::size_of::<ObjFn>()
    }

    fn settle(&mut self) {
    }

    fn is_permanent(&self) -> bool {
        false
    }
}

/// A function together with the variables it captured.
#[derive(Debug)]
pub struct ObjClosure {
    /// The function.
    pub function: ObjectId,
    /// What it captured.
    pub upvalues: Vec<ObjectId>,
}

/// Push a run of handles.
fn gray_all(ids: &Vec<ObjectId>, gray: &mut Vec<ObjectId>)
    ensures
        final(gray)@ == old(gray)@ + ids@,
{
    let ghost before = gray@;
    let mut i: usize = 0;
    while i < ids.len()
        invariant
            i <= ids@.len(),
            gray@ == before + ids@.take(i as int),
        decreases ids@.len() - i,
    {
        gray.push(ids[i]);
        proof {
            assert(gray@ =~= before + ids@.take(i as int + 1));
        }
        i = i + 1;
    }
    proof {
        assert(ids@.take(i as int) =~= ids@);
    }
}

impl Trace for ObjClosure {
    open spec fn referents(&self) -> Seq<ObjectId> {
        seq![self.function] + self.upvalues@
    }

    open spec fn same_as(&self, other: &Self) -> bool {
        *self == *other
    }

    open spec fn in_image(&self) -> bool {
        false
    }

    open spec fn least_contents(&self) -> nat {
        self.upvalues@.len() * vstd::layout::size_of::<ObjectId>()
    }

    open spec fn filled(&self) -> nat {
        self.upvalues@.len()
    }

    open spec fn contents_given(&self, room: nat) -> nat {
        room * vstd::layout::size_of::<ObjectId>()
    }

    open spec fn exact(&self) -> bool {
        false
    }

    proof fn lemma_same_refl(&self) {
    }

    proof fn lemma_same(&self, other: &Self) {
    }

    fn trace(&self, gray: &mut Vec<ObjectId>) {
        gray.push(self.function);
        gray_all(&self.upvalues, gray);
        proof {
            assert(gray@ =~= old(gray)@ + self.referents());
        }
    }

    fn contents_size(&self) -> usize {
        let count: usize = reserved(&self.upvalues);
        let size: usize = core::mem::size_of::<ObjectId>();
        proof {
            assert(self.contents_given(count as nat) >= 0);
            crate::memory::lemma_sized(self.upvalues@.len(), count as nat, size as nat);
        }
        sized(count, size)
    }

    fn settle(&mut self) {
    }

    fn is_permanent(&self) -> bool {
        false
    }
}

/// One variable captured by a closure.
///
/// Open while the frame that owns the variable is still running, when reads go
/// to its stack slot; closed once that frame returns, when the value is here.
#[derive(Clone, Copy, Debug)]
pub struct ObjUpvalue {
    /// The stack slot, stored one greater.
    pub place: u32,
    /// The captured value once closed, and `undefined` while open.
    pub closed: Value,
}

impl ObjUpvalue {
    /// The stack slot this points at, while open.
    pub open spec fn spec_slot(&self) -> int {
        if self.place > 0 {
            self.place - 1
        } else {
            0
        }
    }

    /// Still pointing at a live stack slot.
    pub open spec fn spec_is_open(&self) -> bool {
        self.closed == Value::undefined()
    }

    /// Capture a stack slot. `closed` is `undefined` while it stays open.
    pub fn new(slot: usize, closed: Value) -> (upvalue: ObjUpvalue)
        requires
            slot < u32::MAX,
        ensures
            upvalue.place == slot + 1,
            upvalue.spec_slot() == slot,
            upvalue.closed == closed,
    {
        ObjUpvalue { place: slot as u32 + 1, closed }
    }

    /// The stack slot this points at, while open.
    pub fn slot(&self) -> (slot: usize)
        ensures
            slot == self.spec_slot(),
    {
        (self.place as usize).saturating_sub(1)
    }

    /// Still pointing at a live stack slot.
    pub fn is_open(&self) -> (r: bool)
        ensures
            r == self.spec_is_open(),
    {
        self.closed.is_undefined()
    }
}

impl Trace for ObjUpvalue {
    open spec fn referents(&self) -> Seq<ObjectId> {
        value_refs(self.closed)
    }

    open spec fn same_as(&self, other: &Self) -> bool {
        *self == *other
    }

    open spec fn in_image(&self) -> bool {
        false
    }

    open spec fn least_contents(&self) -> nat {
        0
    }

    open spec fn filled(&self) -> nat {
        0
    }

    open spec fn contents_given(&self, room: nat) -> nat {
        0
    }

    open spec fn exact(&self) -> bool {
        true
    }

    proof fn lemma_same_refl(&self) {
    }

    proof fn lemma_same(&self, other: &Self) {
    }

    fn trace(&self, gray: &mut Vec<ObjectId>) {
        gray_value(self.closed, gray);
    }

    fn contents_size(&self) -> usize {
        assert(self.contents_given(0usize as nat) == self.least_contents());
        0
    }

    fn settle(&mut self) {
    }

    fn is_permanent(&self) -> bool {
        false
    }
}

/// A coroutine: its own value stack, its own call frames, and who to go back
/// to.
///
/// The running fiber's stack and frames are on the virtual machine rather than
/// in here, and swapped back when control moves elsewhere.
#[derive(Debug)]
pub struct ObjFiber {
    /// The value stack, while the fiber is suspended.
    pub stack: Vec<Value>,
    /// The calls in progress, while the fiber is suspended.
    pub frames: Vec<Frame>,
    /// The function this fiber runs, until it has been started.
    pub entry: Option<ObjectId>,
    /// Who resumed this fiber.
    pub caller: Option<ObjectId>,
    /// Set when the fiber aborted.
    pub error: Value,
    /// Whether the fiber has run to completion.
    pub done: bool,
    /// Whether the resumer wants an error handed back.
    pub catching: bool,
}

impl ObjFiber {
    /// A fiber that has yet to be started.
    pub fn new(entry: ObjectId) -> (fiber: ObjFiber)
        ensures
            fiber.stack@.len() == 0,
            fiber.frames@.len() == 0,
            fiber.entry == Some(entry),
            fiber.caller is None,
            fiber.error == Value::null(),
            !fiber.done,
            !fiber.catching,
    {
        ObjFiber {
            stack: Vec::new(),
            frames: Vec::new(),
            entry: Some(entry),
            caller: None,
            error: Value::null(),
            done: false,
            catching: false,
        }
    }
}

/// The closures a run of frames holds.
pub open spec fn frames_refs(frames: Seq<Frame>) -> Seq<ObjectId> {
    frames.map_values(|frame: Frame| frame.closure)
}

impl Trace for ObjFiber {
    open spec fn referents(&self) -> Seq<ObjectId> {
        values_refs(self.stack@) + frames_refs(self.frames@) + option_refs(self.caller) + value_refs(
            self.error,
        ) + option_refs(self.entry)
    }

    open spec fn same_as(&self, other: &Self) -> bool {
        *self == *other
    }

    open spec fn in_image(&self) -> bool {
        false
    }

    open spec fn least_contents(&self) -> nat {
        vstd::layout::size_of::<ObjFiber>() + self.stack@.len() * vstd::layout::size_of::<Value>()
    }

    open spec fn filled(&self) -> nat {
        self.stack@.len()
    }

    open spec fn contents_given(&self, room: nat) -> nat {
        vstd::layout::size_of::<ObjFiber>() + room * vstd::layout::size_of::<Value>()
    }

    open spec fn exact(&self) -> bool {
        false
    }

    proof fn lemma_same_refl(&self) {
    }

    proof fn lemma_same(&self, other: &Self) {
    }

    fn trace(&self, gray: &mut Vec<ObjectId>) {
        let ghost before = gray@;
        gray_values(&self.stack, gray);
        let ghost sofar = gray@;
        let mut i: usize = 0;
        while i < self.frames.len()
            invariant
                i <= self.frames@.len(),
                gray@ == sofar + frames_refs(self.frames@.take(i as int)),
            decreases self.frames@.len() - i,
        {
            gray.push(self.frames[i].closure);
            proof {
                assert(gray@ =~= sofar + frames_refs(self.frames@.take(i as int + 1)));
            }
            i = i + 1;
        }
        gray_option(self.caller, gray);
        gray_value(self.error, gray);
        gray_option(self.entry, gray);
        proof {
            assert(self.frames@.take(i as int) =~= self.frames@);
            assert(gray@ =~= before + self.referents());
        }
    }

    fn contents_size(&self) -> usize {
        let count: usize = reserved(&self.stack);
        let size: usize = core::mem::size_of::<Value>();
        proof {
            assert(self.contents_given(count as nat) >= 0);
            crate::memory::lemma_sized(self.stack@.len(), count as nat, size as nat);
        }
        core::mem::size_of::<ObjFiber>().saturating_add(sized(count, size))
    }

    fn settle(&mut self) {
    }

    fn is_permanent(&self) -> bool {
        false
    }
}

/// A heap object, on its way into the heap.
#[derive(Debug)]
pub enum Object {
    /// A class.
    Class(Box<ObjClass>),
    /// A compiled function body.
    Fn(Box<ObjFn>),
    /// A function plus the variables it captured.
    Closure(ObjClosure),
    /// One captured variable.
    Upvalue(ObjUpvalue),
    /// A coroutine.
    Fiber(Box<ObjFiber>),
    /// An instance of a class.
    Instance(ObjInstance),
    /// A list.
    List(ObjList),
    /// A map.
    MapObject(ObjMap),
    /// A range.
    Range(ObjRange),
    /// A string.
    String(ObjString),
}

impl Object {
    /// Which kind of object this is.
    pub open spec fn kind(&self) -> ObjectType {
        match self {
            Object::Class(_) => ObjectType::Class,
            Object::Fn(_) => ObjectType::Fn,
            Object::Closure(_) => ObjectType::Closure,
            Object::Upvalue(_) => ObjectType::Upvalue,
            Object::Fiber(_) => ObjectType::Fiber,
            Object::Instance(_) => ObjectType::Instance,
            Object::List(_) => ObjectType::List,
            Object::MapObject(_) => ObjectType::MapObject,
            Object::Range(_) => ObjectType::Range,
            Object::String(_) => ObjectType::String,
        }
    }

    /// Every object this one refers to.
    pub open spec fn spec_referents(&self) -> Seq<ObjectId> {
        match self {
            Object::Class(class) => class.referents(),
            Object::Fn(function) => function.referents(),
            Object::Closure(closure) => closure.referents(),
            Object::Upvalue(upvalue) => upvalue.referents(),
            Object::Fiber(fiber) => fiber.referents(),
            Object::Instance(instance) => instance.referents(),
            Object::List(list) => list.referents(),
            Object::MapObject(map) => map.referents(),
            Object::Range(range) => range.referents(),
            Object::String(string) => string.referents(),
        }
    }

    /// Which kind of object this is.
    pub fn object_type(&self) -> (kind: ObjectType)
        ensures
            kind == self.kind(),
    {
        match self {
            Object::Class(_) => ObjectType::Class,
            Object::Fn(_) => ObjectType::Fn,
            Object::Closure(_) => ObjectType::Closure,
            Object::Upvalue(_) => ObjectType::Upvalue,
            Object::Fiber(_) => ObjectType::Fiber,
            Object::Instance(_) => ObjectType::Instance,
            Object::List(_) => ObjectType::List,
            Object::MapObject(_) => ObjectType::MapObject,
            Object::Range(_) => ObjectType::Range,
            Object::String(_) => ObjectType::String,
        }
    }

    /// Push every object this one refers to onto the collector's work list.
    pub fn trace(&self, gray: &mut Vec<ObjectId>)
        ensures
            final(gray)@ == old(gray)@ + self.spec_referents(),
    {
        match self {
            Object::Class(class) => class.trace(gray),
            Object::Fn(function) => function.trace(gray),
            Object::Closure(closure) => closure.trace(gray),
            Object::Upvalue(upvalue) => upvalue.trace(gray),
            Object::Fiber(fiber) => fiber.trace(gray),
            Object::Instance(instance) => instance.trace(gray),
            Object::List(list) => list.trace(gray),
            Object::MapObject(map) => map.trace(gray),
            Object::Range(range) => range.trace(gray),
            Object::String(string) => string.trace(gray),
        }
    }

    /// The least number of bytes an object of its contents takes.
    pub open spec fn least_size(&self) -> nat {
        vstd::layout::size_of::<Object>() + match self {
            Object::Class(class) => class.least_contents(),
            Object::Fn(function) => function.least_contents(),
            Object::Closure(closure) => vstd::layout::size_of::<ObjClosure>()
                + closure.least_contents(),
            Object::Upvalue(upvalue) => 0,
            Object::Fiber(fiber) => fiber.least_contents(),
            Object::Instance(instance) => instance.least_contents(),
            Object::List(list) => list.least_contents(),
            Object::MapObject(map) => map.least_contents(),
            Object::Range(range) => 0,
            Object::String(string) => string.least_contents(),
        }
    }

    /// How many items the vector of an object holds, if it has one that counts.
    pub open spec fn held(&self) -> nat {
        match self {
            Object::Class(class) => match class.methods {
                Methods::Owned(entries) => entries@.len(),
                Methods::Static(entries) => 0,
            },
            Object::Closure(closure) => closure.upvalues@.len(),
            Object::Fiber(fiber) => fiber.stack@.len(),
            Object::List(list) => list.elements@.len(),
            Object::MapObject(map) => map.entries@.len(),
            Object::String(string) => string.bytes@.len(),
            _ => 0,
        }
    }

    /// How many bytes an object takes whose vector has room for `room` items.
    pub open spec fn size_with(&self, room: nat) -> nat {
        vstd::layout::size_of::<Object>() + match self {
            Object::Class(class) => vstd::layout::size_of::<ObjClass>() + match class.methods {
                Methods::Owned(entries) => room * vstd::layout::size_of::<u32>(),
                Methods::Static(entries) => 0,
            },
            Object::Fn(function) => vstd::layout::size_of::<ObjFn>(),
            Object::Closure(closure) => vstd::layout::size_of::<ObjClosure>() + room
                * vstd::layout::size_of::<ObjectId>(),
            Object::Upvalue(upvalue) => 0,
            Object::Fiber(fiber) => vstd::layout::size_of::<ObjFiber>() + room
                * vstd::layout::size_of::<Value>(),
            Object::Instance(instance) => instance.fields as nat * vstd::layout::size_of::<
                Value,
            >(),
            Object::List(list) => room * vstd::layout::size_of::<Value>(),
            Object::MapObject(map) => room * vstd::layout::size_of::<MapEntry>(),
            Object::Range(range) => 0,
            Object::String(string) => room,
        }
    }

    /// More room takes no fewer bytes.
    proof fn lemma_size_grows(&self, room: nat)
        requires
            room >= self.held(),
        ensures
            self.size_with(self.held()) == self.least_size(),
            self.size_with(room) >= self.least_size(),
    {
        let held = self.held() as int;
        vstd::arithmetic::mul::lemma_mul_inequality(
            held,
            room as int,
            vstd::layout::size_of::<u32>() as int,
        );
        vstd::arithmetic::mul::lemma_mul_inequality(
            held,
            room as int,
            vstd::layout::size_of::<ObjectId>() as int,
        );
        vstd::arithmetic::mul::lemma_mul_inequality(
            held,
            room as int,
            vstd::layout::size_of::<Value>() as int,
        );
        vstd::arithmetic::mul::lemma_mul_inequality(
            held,
            room as int,
            vstd::layout::size_of::<MapEntry>() as int,
        );
    }

    /// What this object costs if its vector has room for `room` items.
    pub fn size_given(&self, room: usize) -> (bytes: usize)
        ensures
            bytes == crate::memory::capped(self.size_with(room as nat)),
    {
        let slot: usize = core::mem::size_of::<Object>();
        let inner: usize = match self {
            Object::Class(class) => core::mem::size_of::<ObjClass>().saturating_add(
                match &class.methods {
                    Methods::Owned(_) => sized(room, core::mem::size_of::<u32>()),
                    Methods::Static(_) => 0,
                },
            ),
            Object::Fn(_) => core::mem::size_of::<ObjFn>(),
            Object::Closure(_) => core::mem::size_of::<ObjClosure>().saturating_add(
                sized(room, core::mem::size_of::<ObjectId>()),
            ),
            Object::Upvalue(_) => 0,
            Object::Fiber(_) => core::mem::size_of::<ObjFiber>().saturating_add(
                sized(room, core::mem::size_of::<Value>()),
            ),
            Object::Instance(instance) => sized(instance.count(), core::mem::size_of::<Value>()),
            Object::List(_) => sized(room, core::mem::size_of::<Value>()),
            Object::MapObject(_) => sized(room, core::mem::size_of::<MapEntry>()),
            Object::Range(_) => 0,
            Object::String(_) => room,
        };
        slot.saturating_add(inner)
    }

    /// How many items this object's vector has room for: no fewer than it
    /// holds, and how many more is the allocator's choice.
    fn room(&self) -> (room: usize)
        ensures
            room >= self.held(),
    {
        match self {
            Object::Class(class) => match &class.methods {
                Methods::Owned(entries) => reserved(entries),
                Methods::Static(_) => 0,
            },
            Object::Closure(closure) => reserved(&closure.upvalues),
            Object::Fiber(fiber) => reserved(&fiber.stack),
            Object::List(list) => reserved(&list.elements),
            Object::MapObject(map) => reserved(&map.entries),
            Object::String(string) => reserved(&string.bytes),
            _ => 0,
        }
    }

    /// Roughly what this object costs, for the collector's growth heuristic:
    /// the slot plus whatever its vector has reserved.
    pub fn size_estimate(&self) -> (bytes: usize)
        ensures
            bytes >= crate::memory::capped(self.least_size()),
            (self is Range || self is Upvalue || self is Instance || self is Fn) ==> bytes
                == crate::memory::capped(self.least_size()),
            exists|room: usize|
                room >= self.held() && bytes == crate::memory::capped(
                    #[trigger] self.size_with(room as nat),
                ),
    {
        let room: usize = self.room();
        proof {
            self.lemma_size_grows(room as nat);
        }
        self.size_given(room)
    }
}

} // verus!
