//! Methods of strings.

use vstd::prelude::*;
use vstd::string::*;
use vstd::utf8::*;

use super::reply;
use super::arguments;
use super::arguments::{argument, receiver, resolve_index, without_fraction};
use super::equality::{range_of, strings_equal};
use super::lists::new_list;
use super::primitive::Primitive;
use super::reply::{deny, give, Complaint, Reply, ReplyModel};
use super::slices::slice_indices;
use super::strings::{
    append_bytes, begins_with, comes_before, cut, end_of_character, ends_with, find_from, repeat,
    split, string_bytes, string_text, text_of_code_point, trim,
};
use crate::number::{counted, is_nan, less, to_u32, to_usize, MINUS_ONE};
use crate::object::{copy_bytes, Object};
use crate::value::Value;
use crate::vm::shown::lossy;
use crate::vm::{RuntimeError, Vm};

verus! {

/// The bytes of what a string says as text.
pub open spec fn text_bytes(vm: &Vm, value: Value) -> Seq<u8> {
    encode_utf8(super::strings::spec_text(vm, value))
}

/// Whether a method asks something of a string.
pub open spec fn is_string_query(p: Primitive) -> bool {
    match p {
        Primitive::StringCount | Primitive::StringEqual | Primitive::StringUnequal
        | Primitive::StringContains | Primitive::StringStartsWith | Primitive::StringEndsWith
        | Primitive::StringIndexOf | Primitive::StringIsEmpty | Primitive::StringLess
        | Primitive::StringGreater | Primitive::StringAtMost | Primitive::StringAtLeast
        | Primitive::StringIterate => true,
        _ => false,
    }
}

/// What comparing two strings comes to.
pub open spec fn order_reply(p: Primitive, left: Seq<u8>, right: Option<Seq<u8>>) -> ReplyModel {
    match right {
        None => reply::denies("Right operand must be a string."@),
        Some(right) => reply::gives(
            Value::bool(
                match p {
                    Primitive::StringLess => super::strings::bytes_below(left, right),
                    Primitive::StringGreater => super::strings::bytes_below(right, left),
                    Primitive::StringAtMost => !super::strings::bytes_below(right, left),
                    _ => !super::strings::bytes_below(left, right),
                },
            ),
        ),
    }
}

/// Where iterating text goes on after an iterator.
pub open spec fn iterate_reply(text: Seq<u8>, current: Value) -> ReplyModel {
    if current == Value::null() {
        step_reply(text, 0)
    } else if !current.spec_is_num() {
        reply::denies("Iterator must be a number."@)
    } else {
        let index = crate::number::pressed(current.0, 0, usize::MAX as int);
        if index > text.len() || !is_char_boundary(text, index) {
            ReplyModel::Stuck
        } else if index == text.len() {
            reply::gives(Value::bool(false))
        } else {
            step_reply(text, super::strings::character_end(text, index))
        }
    }
}

/// A place in text as an iterator, or that there is none.
pub open spec fn step_reply(text: Seq<u8>, at: int) -> ReplyModel {
    if at >= text.len() {
        reply::gives(Value::bool(false))
    } else {
        reply::gives(Value::num(crate::number::tally(at as nat)))
    }
}

/// What asking comes to.
pub open spec fn query_reply(vm: &Vm, p: Primitive, at: usize) -> ReplyModel {
    let this = arguments::given(vm, at, 0);
    let that = arguments::given(vm, at, 1);
    match p {
        Primitive::StringCount => reply::gives(
            Value::num(crate::number::tally(super::strings::spec_bytes(vm, this).len())),
        ),
        Primitive::StringIsEmpty => reply::gives(
            Value::bool(super::strings::spec_bytes(vm, this).len() == 0),
        ),
        Primitive::StringEqual => reply::gives(
            Value::bool(super::equality::spec_strings_equal(vm, this, that)),
        ),
        Primitive::StringUnequal => reply::gives(
            Value::bool(!super::equality::spec_strings_equal(vm, this, that)),
        ),
        Primitive::StringContains => reply::gives(
            Value::bool(
                super::strings::first_at(text_bytes(vm, this), text_bytes(vm, that), 0) is Some,
            ),
        ),
        Primitive::StringStartsWith => reply::gives(
            Value::bool(super::strings::begins(text_bytes(vm, this), text_bytes(vm, that))),
        ),
        Primitive::StringEndsWith => reply::gives(
            Value::bool(super::strings::ends(text_bytes(vm, this), text_bytes(vm, that))),
        ),
        Primitive::StringIndexOf => reply::gives(
            Value::num(
                match super::strings::first_at(text_bytes(vm, this), text_bytes(vm, that), 0) {
                    Some(index) => crate::number::tally(index as nat),
                    None => MINUS_ONE,
                },
            ),
        ),
        Primitive::StringIterate => iterate_reply(text_bytes(vm, this), that),
        _ => order_reply(p, super::strings::spec_bytes(vm, this), vm.spec_string(that)),
    }
}

/// Go on iterating text.
fn iterate_text(text: &str, current: Value) -> (reply: Reply)
    ensures
        reply.model() == iterate_reply(encode_utf8(text@), current),
{
    let size: usize = text.as_bytes().len();
    let start: usize = if current.is_null() {
        0
    } else {
        match current.as_num() {
            None => {
                return deny("Iterator must be a number.");
            },
            Some(bits) => {
                let index: usize = to_usize(bits);
                if index > size || !text.is_char_boundary(index) {
                    return Reply::Stuck;
                }
                if index == size {
                    return give(Value::bool(false));
                }
                end_of_character(text, index)
            },
        }
    };
    if start >= size {
        give(Value::bool(false))
    } else {
        give(Value::num(counted(start)))
    }
}

/// Compare two strings.
fn compare_strings(vm: &Vm, p: Primitive, at: usize) -> (reply: Reply)
    requires
        vm.wf(),
        arguments::called_with(vm, at, 1),
    ensures
        reply.model() == order_reply(
            p,
            super::strings::spec_bytes(vm, arguments::given(vm, at, 0)),
            vm.spec_string(arguments::given(vm, at, 1)),
        ),
{
    let left: Vec<u8> = string_bytes(vm, receiver(vm, at));
    let other = argument(vm, at, 1);
    if !vm.is_string(other) {
        return deny("Right operand must be a string.");
    }
    let right: Vec<u8> = string_bytes(vm, other);
    let answer: bool = match p {
        Primitive::StringLess => comes_before(left.as_slice(), right.as_slice()),
        Primitive::StringGreater => comes_before(right.as_slice(), left.as_slice()),
        Primitive::StringAtMost => !comes_before(right.as_slice(), left.as_slice()),
        _ => !comes_before(left.as_slice(), right.as_slice()),
    };
    give(Value::bool(answer))
}

/// Ask something of a string.
pub fn reply_of_string_query(vm: &Vm, p: Primitive, at: usize) -> (reply: Reply)
    requires
        vm.wf(),
        is_string_query(p),
        arguments::called_with(vm, at, p.spec_arity()),
    ensures
        reply.model() == query_reply(vm, p, at),
{
    let this = receiver(vm, at);
    match p {
        Primitive::StringCount => give(Value::num(counted(string_bytes(vm, this).len()))),
        Primitive::StringIsEmpty => give(Value::bool(string_bytes(vm, this).len() == 0)),
        Primitive::StringEqual => give(Value::bool(strings_equal(vm, this, argument(vm, at, 1)))),
        Primitive::StringUnequal => give(
            Value::bool(!strings_equal(vm, this, argument(vm, at, 1))),
        ),
        Primitive::StringContains => {
            let text = string_text(vm, this);
            let needle = string_text(vm, argument(vm, at, 1));
            match find_from(text.as_str().as_bytes(), needle.as_str().as_bytes(), 0) {
                Some(_) => give(Value::bool(true)),
                None => give(Value::bool(false)),
            }
        },
        Primitive::StringStartsWith => {
            let text = string_text(vm, this);
            let needle = string_text(vm, argument(vm, at, 1));
            give(
                Value::bool(begins_with(text.as_str().as_bytes(), needle.as_str().as_bytes())),
            )
        },
        Primitive::StringEndsWith => {
            let text = string_text(vm, this);
            let needle = string_text(vm, argument(vm, at, 1));
            give(Value::bool(ends_with(text.as_str().as_bytes(), needle.as_str().as_bytes())))
        },
        Primitive::StringIndexOf => {
            let text = string_text(vm, this);
            let needle = string_text(vm, argument(vm, at, 1));
            match find_from(text.as_str().as_bytes(), needle.as_str().as_bytes(), 0) {
                Some(index) => give(Value::num(counted(index))),
                None => give(Value::num(MINUS_ONE)),
            }
        },
        Primitive::StringIterate => {
            let text = string_text(vm, this);
            iterate_text(text.as_str(), argument(vm, at, 1))
        },
        _ => compare_strings(vm, p, at),
    }
}

/// What a method that makes a string makes it of.
pub enum Making {
    /// It does not.
    Denied(RuntimeError),
    /// It was called with what it cannot be called with.
    Stuck,
    /// Of these bytes.
    Of(Vec<u8>),
}

/// What a making says.
pub enum MakingModel {
    Denied(Complaint),
    Stuck,
    Of(Seq<u8>),
}

impl Making {
    /// What the making says.
    pub open spec fn model(&self) -> MakingModel {
        match self {
            Making::Denied(error) => MakingModel::Denied(reply::complains(*error)),
            Making::Stuck => MakingModel::Stuck,
            Making::Of(bytes) => MakingModel::Of(bytes@),
        }
    }
}

/// Whether a method makes a string.
pub open spec fn is_string_maker(p: Primitive) -> bool {
    match p {
        Primitive::StringAdd | Primitive::StringAt | Primitive::StringTrim
        | Primitive::StringTrimStart | Primitive::StringTrimEnd | Primitive::StringRepeat
        | Primitive::StringIteratorValue | Primitive::StringFromCodePoint
        | Primitive::StringFromByte => true,
        _ => false,
    }
}

/// Bytes picked by their places.
pub open spec fn picked(bytes: Seq<u8>, places: Seq<int>) -> Seq<u8> {
    places.map_values(|place: int| bytes[place])
}

/// The first character of what bytes say as text.
pub open spec fn first_character(bytes: Seq<u8>) -> Seq<u8> {
    let text = crate::vm::shown::lossy_text(bytes);
    encode_utf8(
        if text.len() > 0 {
            text.take(1)
        } else {
            text
        },
    )
}

/// What a string gives under an index or a range.
pub open spec fn at_making(vm: &Vm, bytes: Seq<u8>, index: Value) -> MakingModel {
    match super::equality::spec_range(vm, index) {
        Some(range) => if bytes.len() > isize::MAX {
            MakingModel::Stuck
        } else {
            match super::slices::slice(range, bytes.len()) {
                Err(message) => MakingModel::Denied(reply::complaint(message)),
                Ok(places) => MakingModel::Of(
                    encode_utf8(crate::vm::shown::lossy_text(picked(bytes, places))),
                ),
            }
        },
        None => match super::arguments::spec_number(index) {
            Err(message) => MakingModel::Denied(reply::complaint(message)),
            Ok(bits) => match super::arguments::spec_index_in(bits, bytes.len()) {
                Err(message) => MakingModel::Denied(reply::complaint(message)),
                Ok(at) => MakingModel::Of(first_character(bytes.skip(at as int))),
            },
        },
    }
}

/// What text repeated as often as a number says makes.
pub open spec fn repeat_making(text: Seq<u8>, count: Value) -> MakingModel {
    match super::arguments::spec_number(count) {
        Err(message) => MakingModel::Denied(reply::complaint(message)),
        Ok(bits) => if crate::number::below(bits, 0) || !arguments::has_no_fraction(bits) {
            MakingModel::Denied(reply::complaint("Count must be a non-negative integer."@))
        } else {
            let times = crate::number::pressed(bits, 0, usize::MAX as int);
            if text.len() * times > isize::MAX {
                MakingModel::Stuck
            } else {
                MakingModel::Of(super::strings::repeated(text, times as nat))
            }
        },
    }
}

/// What an iterator of text gives.
pub open spec fn value_making(text: Seq<u8>, iterator: Value) -> MakingModel {
    match super::arguments::spec_number(iterator) {
        Err(message) => MakingModel::Denied(reply::complaint(message)),
        Ok(bits) => {
            let index = crate::number::pressed(bits, 0, usize::MAX as int);
            if index > text.len() || !is_char_boundary(text, index) {
                MakingModel::Stuck
            } else if index == text.len() {
                MakingModel::Of(Seq::empty())
            } else {
                MakingModel::Of(
                    text.subrange(index, super::strings::character_end(text, index)),
                )
            }
        },
    }
}

/// What a code point makes.
pub open spec fn point_making(point: Value) -> MakingModel {
    match super::arguments::spec_number(point) {
        Err(message) => MakingModel::Denied(reply::complaint(message)),
        Ok(bits) => {
            let n = crate::number::pressed(bits, 0, u32::MAX as int) as u32;
            if is_scalar(n) {
                MakingModel::Of(encode_utf8(seq![n as char]))
            } else {
                MakingModel::Denied(reply::complaint("Code point cannot be greater than 0x10ffff."@))
            }
        },
    }
}

/// The bits of two hundred and fifty-five.
pub const BYTE_MAX: u64 = 0x406f_e000_0000_0000;

/// What a byte makes.
pub open spec fn byte_making(byte: Value) -> MakingModel {
    match super::arguments::spec_number(byte) {
        Err(message) => MakingModel::Denied(reply::complaint(message)),
        Ok(bits) => if crate::number::not_a_number(bits) || crate::number::below(bits, 0)
            || crate::number::below(BYTE_MAX, bits) || !arguments::has_no_fraction(bits) {
            MakingModel::Denied(reply::complaint("Byte must be an integer between 0 and 255."@))
        } else {
            MakingModel::Of(
                seq![crate::number::pressed(bits, 0, u32::MAX as int) as u8],
            )
        },
    }
}

/// What a method that makes a string makes it of.
pub open spec fn spec_making(vm: &Vm, p: Primitive, at: usize) -> MakingModel {
    let this = arguments::given(vm, at, 0);
    let that = arguments::given(vm, at, 1);
    match p {
        Primitive::StringAdd => match vm.spec_string(that) {
            Some(bytes) => if valid_utf8(bytes) {
                MakingModel::Of(text_bytes(vm, this) + text_bytes(vm, that))
            } else {
                MakingModel::Denied(reply::complaint("Right operand must be a string."@))
            },
            None => MakingModel::Denied(reply::complaint("Right operand must be a string."@)),
        },
        Primitive::StringAt => at_making(vm, super::strings::spec_bytes(vm, this), that),
        Primitive::StringTrim => MakingModel::Of(
            encode_utf8(
                super::strings::trimmed(super::strings::spec_text(vm, this), true, true),
            ),
        ),
        Primitive::StringTrimStart => MakingModel::Of(
            encode_utf8(
                super::strings::trimmed(super::strings::spec_text(vm, this), true, false),
            ),
        ),
        Primitive::StringTrimEnd => MakingModel::Of(
            encode_utf8(
                super::strings::trimmed(super::strings::spec_text(vm, this), false, true),
            ),
        ),
        Primitive::StringRepeat => repeat_making(text_bytes(vm, this), that),
        Primitive::StringIteratorValue => value_making(text_bytes(vm, this), that),
        Primitive::StringFromCodePoint => point_making(that),
        _ => byte_making(that),
    }
}

/// The bytes under some places.
fn pick(bytes: &Vec<u8>, places: &Vec<usize>) -> (out: Vec<u8>)
    requires
        forall|k: int| 0 <= k < places@.len() ==> #[trigger] places@[k] < bytes@.len(),
    ensures
        out@ == picked(bytes@, super::slices::places(places@)),
{
    let mut out: Vec<u8> = Vec::new();
    let mut i: usize = 0;
    while i < places.len()
        invariant
            i <= places@.len(),
            forall|k: int| 0 <= k < places@.len() ==> #[trigger] places@[k] < bytes@.len(),
            out@.len() == i,
            forall|k: int| 0 <= k < i ==> #[trigger] out@[k] == bytes@[places@[k] as int],
        decreases places@.len() - i,
    {
        out.push(bytes[places[i]]);
        i = i + 1;
    }
    proof {
        assert(out@ =~= picked(bytes@, super::slices::places(places@)));
    }
    out
}

/// What a string gives under an index or a range.
fn make_at(vm: &Vm, bytes: Vec<u8>, index: Value) -> (making: Making)
    requires
        vm.wf(),
    ensures
        making.model() == at_making(vm, bytes@, index),
{
    let size: usize = bytes.len();
    match range_of(vm, index) {
        Some(range) => {
            if size > isize::MAX as usize {
                return Making::Stuck;
            }
            match slice_indices(&range, size) {
                Err(error) => Making::Denied(error),
                Ok(places) => {
                    let taken: Vec<u8> = pick(&bytes, &places);
                    let text = lossy(taken.as_slice());
                    Making::Of(copy_bytes(text.as_str().as_bytes()))
                },
            }
        },
        None => match index.as_num() {
            None => Making::Denied(RuntimeError::new("Right operand must be a number.")),
            Some(bits) => match resolve_index(bits, size) {
                Err(error) => Making::Denied(error),
                Ok(at) => {
                    let rest: Vec<u8> = cut(bytes.as_slice(), at, size);
                    proof {
                        assert(rest@ =~= bytes@.skip(at as int));
                    }
                    let text = lossy(rest.as_slice());
                    if text.as_str().unicode_len() == 0 {
                        return Making::Of(copy_bytes(text.as_str().as_bytes()));
                    }
                    let first = text.as_str().substring_char(0, 1);
                    proof {
                        assert(first@ =~= crate::vm::shown::lossy_text(rest@).take(1));
                    }
                    Making::Of(copy_bytes(first.as_bytes()))
                },
            },
        },
    }
}

/// What text repeated as often as a number says makes.
fn make_repeat(text: &[u8], count: Value) -> (making: Making)
    ensures
        making.model() == repeat_making(text@, count),
{
    match count.as_num() {
        None => Making::Denied(RuntimeError::new("Right operand must be a number.")),
        Some(bits) => {
            if less(bits, 0) || !without_fraction(bits) {
                return Making::Denied(
                    RuntimeError::new("Count must be a non-negative integer."),
                );
            }
            let times: usize = to_usize(bits);
            match text.len().checked_mul(times) {
                None => Making::Stuck,
                Some(total) => if total > isize::MAX as usize {
                    Making::Stuck
                } else {
                    Making::Of(repeat(text, times))
                },
            }
        },
    }
}

/// What an iterator of text gives.
fn make_value(text: &str, iterator: Value) -> (making: Making)
    ensures
        making.model() == value_making(encode_utf8(text@), iterator),
{
    match iterator.as_num() {
        None => Making::Denied(RuntimeError::new("Right operand must be a number.")),
        Some(bits) => {
            let size: usize = text.as_bytes().len();
            let index: usize = to_usize(bits);
            if index > size || !text.is_char_boundary(index) {
                return Making::Stuck;
            }
            if index == size {
                let nothing: Vec<u8> = Vec::new();
                return Making::Of(nothing);
            }
            let end: usize = end_of_character(text, index);
            Making::Of(cut(text.as_bytes(), index, end))
        },
    }
}

/// What a code point makes.
fn make_point(point: Value) -> (making: Making)
    ensures
        making.model() == point_making(point),
{
    match point.as_num() {
        None => Making::Denied(RuntimeError::new("Right operand must be a number.")),
        Some(bits) => match text_of_code_point(to_u32(bits)) {
            None => Making::Denied(
                RuntimeError::new("Code point cannot be greater than 0x10ffff."),
            ),
            Some(text) => {
                proof {
                    let n = crate::number::pressed(bits, 0, u32::MAX as int) as u32;
                    assert(text@ =~= seq![n as char]);
                }
                Making::Of(copy_bytes(text.as_str().as_bytes()))
            },
        },
    }
}

/// What a byte makes.
fn make_byte(byte: Value) -> (making: Making)
    ensures
        making.model() == byte_making(byte),
{
    match byte.as_num() {
        None => Making::Denied(RuntimeError::new("Right operand must be a number.")),
        Some(bits) => {
            if is_nan(bits) || less(bits, 0) || less(BYTE_MAX, bits) || !without_fraction(bits) {
                return Making::Denied(
                    RuntimeError::new("Byte must be an integer between 0 and 255."),
                );
            }
            let whole: u32 = to_u32(bits);
            #[verifier::truncate]
            let byte: u8 = whole as u8;
            let mut bytes: Vec<u8> = Vec::new();
            bytes.push(byte);
            proof {
                assert(bytes@ =~= seq![byte]);
            }
            Making::Of(bytes)
        },
    }
}

/// What a method that makes a string makes it of.
pub fn make_string(vm: &Vm, p: Primitive, at: usize) -> (making: Making)
    requires
        vm.wf(),
        is_string_maker(p),
        arguments::called_with(vm, at, p.spec_arity()),
    ensures
        making.model() == spec_making(vm, p, at),
{
    let this = receiver(vm, at);
    match p {
        Primitive::StringAdd => {
            let other = argument(vm, at, 1);
            match vm.string_at(other) {
                None => Making::Denied(RuntimeError::new("Right operand must be a string.")),
                Some(_) => {
                    let left = string_text(vm, this);
                    let right = string_text(vm, other);
                    let mut joined: Vec<u8> = copy_bytes(left.as_str().as_bytes());
                    append_bytes(&mut joined, right.as_str().as_bytes());
                    Making::Of(joined)
                },
            }
        },
        Primitive::StringAt => make_at(vm, string_bytes(vm, this), argument(vm, at, 1)),
        Primitive::StringTrim => {
            let text = string_text(vm, this);
            let short = trim(text.as_str(), true, true);
            Making::Of(copy_bytes(short.as_str().as_bytes()))
        },
        Primitive::StringTrimStart => {
            let text = string_text(vm, this);
            let short = trim(text.as_str(), true, false);
            Making::Of(copy_bytes(short.as_str().as_bytes()))
        },
        Primitive::StringTrimEnd => {
            let text = string_text(vm, this);
            let short = trim(text.as_str(), false, true);
            Making::Of(copy_bytes(short.as_str().as_bytes()))
        },
        Primitive::StringRepeat => {
            let text = string_text(vm, this);
            make_repeat(text.as_str().as_bytes(), argument(vm, at, 1))
        },
        Primitive::StringIteratorValue => {
            let text = string_text(vm, this);
            make_value(text.as_str(), argument(vm, at, 1))
        },
        Primitive::StringFromCodePoint => make_point(argument(vm, at, 1)),
        _ => make_byte(argument(vm, at, 1)),
    }
}

/// Whether a machine is an earlier one after a method that makes a string.
pub open spec fn made(before: &Vm, after: &Vm, p: Primitive, at: usize, reply: ReplyModel) -> bool {
    &&& *after == (Vm { heap: after.heap, ..*before })
    &&& match spec_making(before, p, at) {
        MakingModel::Denied(said) => reply == ReplyModel::Done(Err(said)) && *after == *before,
        MakingModel::Stuck => reply is Stuck && *after == *before,
        MakingModel::Of(bytes) => {
            &&& reply matches ReplyModel::Done(Ok(value))
            &&& after.made_string(before, value, bytes)
        },
    }
}

/// Carry out a method that makes a string.
pub fn reply_of_string_maker(vm: &mut Vm, p: Primitive, at: usize) -> (reply: Reply)
    requires
        old(vm).wf(),
        is_string_maker(p),
        arguments::called_with(old(vm), at, p.spec_arity()),
        old(vm).heap.has_room(1),
    ensures
        final(vm).wf(),
        made(old(vm), final(vm), p, at, reply.model()),
{
    match make_string(vm, p, at) {
        Making::Denied(error) => Reply::Done(Err(error)),
        Making::Stuck => Reply::Stuck,
        Making::Of(bytes) => {
            give(vm.new_string_bytes(bytes))
        },
    }
}

/// Whether a method makes a list of what a string holds.
pub open spec fn is_string_lister(p: Primitive) -> bool {
    p is StringSplit || p is StringBytes || p is StringCodePoints
}

/// The numbers that bytes are.
pub open spec fn byte_values(bytes: Seq<u8>) -> Seq<Value> {
    bytes.map_values(|byte: u8| Value::num(crate::number::tally(byte as nat)))
}

/// The numbers that characters are.
pub open spec fn point_values(text: Seq<char>) -> Seq<Value> {
    text.map_values(|c: char| Value::num(crate::number::tally(c as u32 as nat)))
}

/// The bytes of a string as numbers.
fn list_bytes(bytes: &Vec<u8>) -> (out: Vec<Value>)
    ensures
        out@ == byte_values(bytes@),
{
    let mut out: Vec<Value> = Vec::new();
    let mut i: usize = 0;
    while i < bytes.len()
        invariant
            i <= bytes@.len(),
            out@ == byte_values(bytes@).take(i as int),
        decreases bytes@.len() - i,
    {
        out.push(Value::num(counted(bytes[i] as usize)));
        proof {
            assert(out@ =~= byte_values(bytes@).take(i as int + 1));
        }
        i = i + 1;
    }
    proof {
        assert(byte_values(bytes@).take(i as int) =~= byte_values(bytes@));
    }
    out
}

/// The characters of text as numbers.
fn list_points(text: &str) -> (out: Vec<Value>)
    ensures
        out@ == point_values(text@),
{
    let count: usize = text.unicode_len();
    let mut out: Vec<Value> = Vec::new();
    let mut i: usize = 0;
    while i < count
        invariant
            count == text@.len(),
            i <= count,
            out@ == point_values(text@).take(i as int),
        decreases count - i,
    {
        let point: u32 = text.get_char(i) as u32;
        out.push(Value::num(counted(point as usize)));
        proof {
            assert(out@ =~= point_values(text@).take(i as int + 1));
        }
        i = i + 1;
    }
    proof {
        assert(point_values(text@).take(i as int) =~= point_values(text@));
    }
    out
}

/// Whether values are strings of these bytes, one for one.
pub open spec fn strings_of(vm: &Vm, values: Seq<Value>, parts: Seq<Seq<u8>>) -> bool {
    &&& values.len() == parts.len()
    &&& forall|i: int|
        0 <= i < values.len() ==> vm.spec_string(#[trigger] values[i]) == Some(parts[i])
}

/// Make strings of parts, so long as there is room: for each of them, and one
/// more object.
fn make_strings(vm: &mut Vm, parts: &Vec<Vec<u8>>) -> (r: Option<Vec<Value>>)
    requires
        old(vm).wf(),
    ensures
        final(vm).wf(),
        *final(vm) == (Vm { heap: final(vm).heap, ..*old(vm) }),
        final(vm).heap@.keeps(old(vm).heap@),
        r matches Some(values) ==> strings_of(
            final(vm),
            values@,
            super::strings::byte_views(parts@),
        ) && final(vm).heap.has_slots(1),
        old(vm).heap.has_room(parts@.len() as int + 1) ==> r is Some,
        r is None ==> !final(vm).heap.has_room(2),
{
    let ghost before = *vm;
    let mut values: Vec<Value> = Vec::new();
    let mut i: usize = 0;
    while i < parts.len()
        invariant
            before == *old(vm),
            vm.wf(),
            *vm == (Vm { heap: vm.heap, ..before }),
            vm.heap@.keeps(before.heap@),
            i <= parts@.len(),
            values@.len() == i,
            forall|k: int|
                0 <= k < i ==> vm.spec_string(#[trigger] values@[k]) == Some(parts@[k]@),
            before.heap.has_room(parts@.len() as int + 1) ==> vm.heap.has_room(parts@.len() + 1 - i),
        decreases parts@.len() - i,
    {
        proof {
            if vm.heap.has_room(parts@.len() + 1 - i) {
                vm.heap.lemma_room(parts@.len() + 1 - i, 2);
            }
        }
        if !vm.heap.fits_more(2) {
            return None;
        }
        let ghost mid = *vm;
        proof {
            mid.heap.lemma_slots(2, 1);
        }
        let value = vm.new_string_bytes(copy_bytes(parts[i].as_slice()));
        values.push(value);
        proof {
            let id = value.spec_as_object()->0;
            vm.heap.law_allocation_keeps(&mid.heap, id, Object::String(vm.heap@.string(id)->0));
            vm.heap@.lemma_kept_on(mid.heap@, before.heap@);
            assert forall|k: int| 0 <= k < i + 1 implies vm.spec_string(
                #[trigger] values@[k],
            ) == Some(parts@[k]@) by {
                if k < i {
                    assert(mid.spec_string(values@[k]) == Some(parts@[k]@));
                    let id = values@[k].spec_as_object()->0;
                    assert(vm.heap@.string(id) == mid.heap@.string(id));
                }
            }
        }
        i = i + 1;
    }
    if !vm.heap.fits_more(1) {
        proof {
            if vm.heap.has_room(2) {
                vm.heap.lemma_room(2, 1);
            }
        }
        return None;
    }
    Some(values)
}

/// Whether a machine is an earlier one after a method that lists what a string
/// holds.
pub open spec fn listed(before: &Vm, after: &Vm, p: Primitive, at: usize, reply: ReplyModel) -> bool {
    let this = arguments::given(before, at, 0);
    let that = arguments::given(before, at, 1);
    &&& *after == (Vm { heap: after.heap, ..*before })
    &&& match p {
        Primitive::StringBytes => {
            &&& reply matches ReplyModel::Done(Ok(value))
            &&& super::lists::made_list(
                before,
                after,
                value,
                byte_values(super::strings::spec_bytes(before, this)),
            )
        },
        Primitive::StringCodePoints => {
            &&& reply matches ReplyModel::Done(Ok(value))
            &&& super::lists::made_list(
                before,
                after,
                value,
                point_values(super::strings::spec_text(before, this)),
            )
        },
        _ => if text_bytes(before, that).len() == 0 {
            reply == reply::denies("Separator cannot be empty."@) && *after == *before
        } else {
            let pieces = super::strings::pieces_from(
                text_bytes(before, this),
                text_bytes(before, that),
                0,
            );
            &&& after.heap@.keeps(before.heap@)
            &&& match reply {
                ReplyModel::Done(Ok(value)) => super::lists::spec_elements(after, value) matches Some(
                    parts,
                ) && strings_of(after, parts, pieces),
                ReplyModel::Full => !before.heap.has_room(pieces.len() as int + 1)
                    && !after.heap.has_room(2),
                _ => false,
            }
        },
    }
}

/// Carry out a method that lists what a string holds.
pub fn reply_of_string_lister(vm: &mut Vm, p: Primitive, at: usize) -> (reply: Reply)
    requires
        old(vm).wf(),
        is_string_lister(p),
        arguments::called_with(old(vm), at, p.spec_arity()),
        old(vm).heap.has_room(1),
    ensures
        final(vm).wf(),
        listed(old(vm), final(vm), p, at, reply.model()),
{
    let this = receiver(vm, at);
    match p {
        Primitive::StringBytes => {
            let bytes: Vec<u8> = string_bytes(vm, this);
            give(new_list(vm, list_bytes(&bytes)))
        },
        Primitive::StringCodePoints => {
            let text = string_text(vm, this);
            give(new_list(vm, list_points(text.as_str())))
        },
        _ => {
            let text = string_text(vm, this);
            let separator = string_text(vm, argument(vm, at, 1));
            if separator.as_str().as_bytes().len() == 0 {
                return deny("Separator cannot be empty.");
            }
            let parts: Vec<Vec<u8>> = split(
                text.as_str().as_bytes(),
                separator.as_str().as_bytes(),
            );
            match make_strings(vm, &parts) {
                None => Reply::Full,
                Some(values) => {
                    let ghost mid = *vm;
                    let ghost all = values@;
                    let list = new_list(vm, values);
                    proof {
                        let id = list.spec_as_object()->0;
                        vm.heap.law_allocation_keeps(
                            &mid.heap,
                            id,
                            Object::List(vm.heap@.list(id)->0),
                        );
                        assert forall|i: int| 0 <= i < all.len() implies vm.spec_string(
                            #[trigger] all[i],
                        ) == mid.spec_string(all[i]) by {
                            let id = all[i].spec_as_object()->0;
                            assert(vm.heap@.string(id) == mid.heap@.string(id));
                        }
                    }
                    give(list)
                },
            }
        },
    }
}

} // verus!
