//! The `Value` type: what a Wren variable holds.
//!
//! A value is eight bytes. If its bits are not a quiet NaN it is a double and
//! means itself; if they are, the low bits say what it really is. With the
//! sign bit clear the low three bits are a singleton tag; with it set the low
//! half is an object handle.

use vstd::prelude::*;

use crate::handle::ObjectId;

verus! {

/// The sign bit. Set on a tagged value it means the payload is a handle.
pub const SIGN_BIT: u64 = 0x8000_0000_0000_0000;

/// A quiet NaN with one more bit set, so that no NaN that arithmetic produces
/// is mistaken for a tagged value.
pub const QNAN: u64 = 0x7ffc_0000_0000_0000;

/// The low bits that distinguish the singletons, when the sign bit is clear.
pub const TAG_NULL: u64 = 1;

/// The tag of `false`.
pub const TAG_FALSE: u64 = 2;

/// The tag of `true`.
pub const TAG_TRUE: u64 = 3;

/// The tag of the internal `undefined`.
pub const TAG_UNDEFINED: u64 = 4;

/// The bits of the NaN that stands for those whose bits are a tagged value.
pub const PLAIN_NAN: u64 = 0x7ff8_0000_0000_0000;

/// A Wren value: a number, a boolean, null, or a handle to a heap object.
#[derive(Clone, Copy, PartialEq, Eq, Structural, Debug)]
pub struct Value(pub u64);

impl Value {
    /// Whether the bits mean themselves as a double: they are not a quiet NaN
    /// with the extra bit set.
    pub open spec fn spec_is_num(self) -> bool {
        self.0 & QNAN != QNAN
    }

    /// Whether the bits are tagged as a handle.
    pub open spec fn spec_is_object(self) -> bool {
        self.0 >= 0xfffc_0000_0000_0000
    }

    /// The handle in the low half of a tagged value.
    pub open spec fn spec_as_object(self) -> Option<ObjectId> {
        if self.spec_is_object() {
            Some(ObjectId((self.0 % 0x1_0000_0000) as u32))
        } else {
            None
        }
    }

    /// Only `false` and `null` are falsy.
    pub open spec fn spec_is_falsy(self) -> bool {
        self == Value::bool(false) || self == Value::null()
    }

    /// The `null` Wren programs can see.
    #[verifier::allow_in_spec]
    pub fn null() -> Value
        returns
            Value(0x7ffc_0000_0000_0001),
    {
        Value(QNAN + TAG_NULL)
    }

    /// The internal `undefined`, which is not a value a program can hold: it
    /// marks an unused map slot and an open upvalue.
    #[verifier::allow_in_spec]
    pub fn undefined() -> Value
        returns
            Value(0x7ffc_0000_0000_0004),
    {
        Value(QNAN + TAG_UNDEFINED)
    }

    /// A boolean, as the corresponding singleton.
    #[verifier::allow_in_spec]
    pub fn bool(value: bool) -> Value
        returns
            if value {
                Value(0x7ffc_0000_0000_0003)
            } else {
                Value(0x7ffc_0000_0000_0002)
            },
    {
        if value {
            Value(QNAN + TAG_TRUE)
        } else {
            Value(QNAN + TAG_FALSE)
        }
    }

    /// A number, given by the bits of its IEEE-754 double.
    ///
    /// No tagging happens: the bits of a double already mean themselves. Only a
    /// NaN whose bits would be a tagged value is replaced, by a NaN that is none.
    #[verifier::allow_in_spec]
    pub fn num(bits: u64) -> Value
        returns
            (if bits & QNAN != QNAN {
                Value(bits)
            } else {
                Value(PLAIN_NAN)
            }),
    {
        if bits & QNAN != QNAN {
            Value(bits)
        } else {
            Value(PLAIN_NAN)
        }
    }

    /// A handle to a heap object.
    #[verifier::allow_in_spec]
    pub fn object(id: ObjectId) -> Value
        returns
            Value((0xfffc_0000_0000_0000 + id.0) as u64),
    {
        let raw: u32 = id.0;
        let bits: u64 = SIGN_BIT | QNAN | raw as u64;
        assert(bits == 0xfffc_0000_0000_0000 + raw) by (bit_vector)
            requires
                bits == 0x8000_0000_0000_0000u64 | 0x7ffc_0000_0000_0000u64 | raw as u64,
        ;
        Value(bits)
    }

    /// Is this a number?
    pub fn is_num(self) -> (r: bool)
        ensures
            r == self.spec_is_num(),
    {
        (self.0 & QNAN) != QNAN
    }

    /// Is this a handle to a heap object?
    pub fn is_object(self) -> (r: bool)
        ensures
            r == self.spec_is_object(),
    {
        let bits: u64 = self.0;
        assert(((bits & (0x7ffc_0000_0000_0000u64 | 0x8000_0000_0000_0000u64)) == (
        0x7ffc_0000_0000_0000u64 | 0x8000_0000_0000_0000u64)) == (bits >= 0xfffc_0000_0000_0000u64))
            by (bit_vector);
        (bits & (QNAN | SIGN_BIT)) == (QNAN | SIGN_BIT)
    }

    /// Is this `null`?
    pub fn is_null(self) -> (r: bool)
        ensures
            r == (self == Value::null()),
    {
        self.0 == Value::null().0
    }

    /// Is this `true`?
    pub fn is_true(self) -> (r: bool)
        ensures
            r == (self == Value::bool(true)),
    {
        self.0 == Value::bool(true).0
    }

    /// Is this `false`?
    pub fn is_false(self) -> (r: bool)
        ensures
            r == (self == Value::bool(false)),
    {
        self.0 == Value::bool(false).0
    }

    /// Is this a boolean?
    pub fn is_bool(self) -> (r: bool)
        ensures
            r == (self == Value::bool(true) || self == Value::bool(false)),
    {
        self.is_true() || self.is_false()
    }

    /// Is this the internal `undefined`?
    pub fn is_undefined(self) -> (r: bool)
        ensures
            r == (self == Value::undefined()),
    {
        self.0 == Value::undefined().0
    }

    /// The bits of the number this holds, or `None` if it is not one.
    pub fn as_num(self) -> (r: Option<u64>)
        ensures
            r == if self.spec_is_num() {
                Some(self.0)
            } else {
                None
            },
    {
        if self.is_num() {
            Some(self.0)
        } else {
            None
        }
    }

    /// The object handle this holds, or `None` if it is not one.
    pub fn as_object(self) -> (r: Option<ObjectId>)
        ensures
            r == self.spec_as_object(),
    {
        let bits: u64 = self.0;
        assert(bits as u32 == bits % 0x1_0000_0000) by (bit_vector);
        if self.is_object() {
            #[verifier::truncate]
            let low: u32 = bits as u32;
            Some(ObjectId::new(low))
        } else {
            None
        }
    }

    /// Wren's notion of truthiness: only `false` and `null` are falsy.
    pub fn is_falsy(self) -> (r: bool)
        ensures
            r == self.spec_is_falsy(),
    {
        self.is_false() || self.is_null()
    }

    /// Bitwise identity, the fast path of Wren's `==`.
    pub fn is_same(self, other: Value) -> (r: bool)
        ensures
            r == (self == other),
    {
        self.0 == other.0
    }

    /// The raw bits.
    pub fn to_bits(self) -> (bits: u64)
        ensures
            bits == self.0,
    {
        self.0
    }

    /// Rebuild a value from raw bits.
    pub fn from_bits(bits: u64) -> (value: Value)
        ensures
            value == Value(bits),
    {
        Value(bits)
    }
}

/// A tagged handle comes back out as it went in, and is no number and none of
/// the singletons.
pub broadcast proof fn law_object_round_trip(id: ObjectId)
    ensures
        (#[trigger] Value::object(id)).spec_as_object() == Some(id),
        Value::object(id).spec_is_object(),
        !Value::object(id).spec_is_num(),
        !Value::object(id).spec_is_falsy(),
        Value::object(id) != Value::undefined(),
        Value::object(id) != Value::bool(true),
{
    let bits: u64 = (0xfffc_0000_0000_0000 + id.0) as u64;
    assert(bits >= 0xfffc_0000_0000_0000u64 ==> bits & 0x7ffc_0000_0000_0000u64
        == 0x7ffc_0000_0000_0000u64) by (bit_vector);
}

/// Bits that are a tagged value are those of a NaN, and the plain NaN's are not.
pub proof fn lemma_plain_nan(bits: u64)
    ensures
        PLAIN_NAN & QNAN != QNAN,
        crate::number::not_a_number(PLAIN_NAN),
        bits & QNAN == QNAN ==> crate::number::not_a_number(bits),
{
    assert(0x7ff8_0000_0000_0000u64 & 0x7ffc_0000_0000_0000u64 != 0x7ffc_0000_0000_0000u64)
        by (bit_vector);
    assert((bits & 0x7ffc_0000_0000_0000u64) == 0x7ffc_0000_0000_0000u64 ==> (bits
        / 0x10_0000_0000_0000u64) % 2048u64 == 2047u64 && bits % 0x10_0000_0000_0000u64 != 0)
        by (bit_vector);
}

/// Whatever bits a number is made of, it is a number, and it is the number of
/// those bits unless it is a NaN, which stays one.
pub proof fn law_number_stays_a_number(bits: u64)
    ensures
        Value::num(bits).spec_is_num(),
        !Value::num(bits).spec_is_object(),
        Value::num(bits) != Value::null(),
        Value::num(bits) != Value::undefined(),
        Value::num(bits) != Value::bool(true),
        Value::num(bits) != Value::bool(false),
        !crate::number::not_a_number(bits) ==> Value::num(bits) == Value(bits),
        crate::number::not_a_number(bits) ==> crate::number::not_a_number(Value::num(bits).0),
{
    lemma_plain_nan(bits);
    law_kinds_exclusive(Value::num(bits));
}

/// A number that is finite is a number as a value too.
pub proof fn law_finite_number_is_a_value(bits: u64)
    requires
        crate::number::finite(bits),
    ensures
        Value::num(bits).spec_is_num(),
        Value::num(bits) == Value(bits),
{
    assert((bits & 0x7ffc_0000_0000_0000u64) == 0x7ffc_0000_0000_0000u64 ==> (bits
        / 0x10_0000_0000_0000u64) % 2048u64 == 2047u64) by (bit_vector);
}

/// Every value is exactly one of: a number, a handle, or a tagged singleton
/// (null, a boolean, `undefined`, or an unused bit pattern).
pub proof fn law_kinds_exclusive(value: Value)
    ensures
        !(value.spec_is_num() && value.spec_is_object()),
        value == Value::null() || value == Value::undefined() || value == Value::bool(true)
            || value == Value::bool(false) ==> !value.spec_is_num() && !value.spec_is_object(),
{
    let bits: u64 = value.0;
    assert(bits >= 0xfffc_0000_0000_0000u64 ==> bits & 0x7ffc_0000_0000_0000u64
        == 0x7ffc_0000_0000_0000u64) by (bit_vector);
    assert(0x7ffc_0000_0000_0001u64 & 0x7ffc_0000_0000_0000u64 == 0x7ffc_0000_0000_0000u64)
        by (bit_vector);
    assert(0x7ffc_0000_0000_0002u64 & 0x7ffc_0000_0000_0000u64 == 0x7ffc_0000_0000_0000u64)
        by (bit_vector);
    assert(0x7ffc_0000_0000_0003u64 & 0x7ffc_0000_0000_0000u64 == 0x7ffc_0000_0000_0000u64)
        by (bit_vector);
    assert(0x7ffc_0000_0000_0004u64 & 0x7ffc_0000_0000_0000u64 == 0x7ffc_0000_0000_0000u64)
        by (bit_vector);
    assert(ObjectId((value.0 % 0x1_0000_0000) as u32).0 == value.0 % 0x1_0000_0000);
}

} // verus!
