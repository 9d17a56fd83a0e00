//! Ranges.

use vstd::prelude::*;

use super::arguments;
use super::arguments::{argument, integer_argument, number_argument, number_of, receiver, NAN};
use super::equality;
use super::equality::range_of;
use super::primitive::Primitive;
use super::reply;
use super::reply::{deny, give, Reply, ReplyModel};
use crate::number::{is_nan, less, same};
use crate::object::{ObjRange, Object};
use crate::value::Value;
use crate::vm::Vm;

verus! {

/// Whether a method makes a range of two numbers.
pub open spec fn is_range_maker(p: Primitive) -> bool {
    p is NumRange || p is NumRangeExclusive
}

/// Whether a machine is an earlier one with a range added.
pub open spec fn made_range(before: &Vm, after: &Vm, value: Value, range: ObjRange) -> bool {
    &&& value.spec_as_object() matches Some(id)
    &&& value == Value::object(id)
    &&& after.heap.allocated(&before.heap, id, Object::Range(range))
    &&& *after == (Vm { heap: after.heap, ..*before })
}

/// Whether a machine is an earlier one after a method that makes a range.
pub open spec fn ranged(
    before: &Vm,
    after: &Vm,
    p: Primitive,
    at: usize,
    reply: ReplyModel,
) -> bool {
    match arguments::spec_number(arguments::given(before, at, 1)) {
        Err(message) => reply == reply::denies(message) && *after == *before,
        Ok(to) => {
            &&& reply matches ReplyModel::Done(Ok(value))
            &&& made_range(
                before,
                after,
                value,
                (ObjRange {
                    from: arguments::num_or_nan(arguments::given(before, at, 0)),
                    to,
                    is_inclusive: p is NumRange,
                }),
            )
        },
    }
}

/// Make a range.
pub fn reply_of_range_maker(vm: &mut Vm, p: Primitive, at: usize) -> (reply: Reply)
    requires
        old(vm).wf(),
        is_range_maker(p),
        arguments::called_with(old(vm), at, p.spec_arity()),
        old(vm).heap.has_room(1),
    ensures
        final(vm).wf(),
        ranged(old(vm), final(vm), p, at, reply.model()),
{
    broadcast use crate::value::law_object_round_trip;

    let from: u64 = number_of(receiver(vm, at));
    match number_argument(vm, at, 1) {
        Err(error) => Reply::Done(Err(error)),
        Ok(to) => {
            let is_inclusive: bool = matches!(p, Primitive::NumRange);
            let range = ObjRange { from, to, is_inclusive };
            give(Value::object(vm.heap.allocate(Object::Range(range))))
        },
    }
}

/// The lesser of two numbers; the other one where one is no number.
pub open spec fn lesser(a: u64, b: u64) -> u64 {
    if crate::number::not_a_number(a) || crate::number::below(b, a) {
        b
    } else {
        a
    }
}

/// The greater of two numbers; the other one where one is no number.
pub open spec fn greater(a: u64, b: u64) -> u64 {
    if crate::number::not_a_number(a) || crate::number::below(a, b) {
        b
    } else {
        a
    }
}

/// Whether a method asks something of a range.
pub open spec fn is_range_query(p: Primitive) -> bool {
    match p {
        Primitive::RangeFrom | Primitive::RangeTo | Primitive::RangeMin | Primitive::RangeMax
        | Primitive::RangeIterate => true,
        _ => false,
    }
}

/// What follows an iterator of a range.
pub open spec fn iterate_reply(range: ObjRange, current: Value) -> ReplyModel {
    if crate::number::equal(range.from, range.to) && !range.is_inclusive {
        reply::gives(Value::bool(false))
    } else if current == Value::null() {
        reply::gives(Value::num(range.from))
    } else {
        match arguments::spec_integer(current, "Iterator"@) {
            Err(message) => reply::denies(message),
            Ok(iterator) => ReplyModel::Advance {
                range,
                iterator,
                up: crate::number::below(range.from, range.to),
            },
        }
    }
}

/// What a range gives, once an iterator has gone to the next number.
pub open spec fn spec_advance(range: ObjRange, next: u64, up: bool) -> Value {
    if up && crate::number::below(range.to, next) {
        Value::bool(false)
    } else if !up && crate::number::below(next, range.to) {
        Value::bool(false)
    } else if !range.is_inclusive && crate::number::equal(next, range.to) {
        Value::bool(false)
    } else {
        Value::num(next)
    }
}

/// What a range gives, once an iterator has gone to the next number.
pub fn advance_range(range: &ObjRange, next: u64, up: bool) -> (value: Value)
    ensures
        value == spec_advance(*range, next, up),
{
    if up && less(range.to, next) {
        return Value::bool(false);
    }
    if !up && less(next, range.to) {
        return Value::bool(false);
    }
    if !range.is_inclusive && same(next, range.to) {
        return Value::bool(false);
    }
    Value::num(next)
}

/// No iterator of a range goes past its end.
pub proof fn law_iteration_stays_in_range(range: ObjRange, next: u64, up: bool)
    requires
        !crate::number::not_a_number(next),
        !crate::number::not_a_number(range.to),
        spec_advance(range, next, up) != Value::bool(false),
    ensures
        up ==> crate::number::worth(next) <= crate::number::worth(range.to),
        !up ==> crate::number::worth(next) >= crate::number::worth(range.to),
        !range.is_inclusive ==> crate::number::worth(next) != crate::number::worth(range.to),
{
}

/// What a question about a range comes to.
pub open spec fn range_reply(vm: &Vm, p: Primitive, at: usize) -> ReplyModel {
    match equality::spec_range(vm, arguments::given(vm, at, 0)) {
        None => if p is RangeIterate {
            reply::denies("Receiver must be a range."@)
        } else {
            reply::gives(Value::num(NAN))
        },
        Some(range) => match p {
            Primitive::RangeFrom => reply::gives(Value::num(range.from)),
            Primitive::RangeTo => reply::gives(Value::num(range.to)),
            Primitive::RangeMin => reply::gives(Value::num(lesser(range.from, range.to))),
            Primitive::RangeMax => reply::gives(Value::num(greater(range.from, range.to))),
            _ => iterate_reply(range, arguments::given(vm, at, 1)),
        },
    }
}

/// Answer a question about a range.
pub fn reply_of_range_query(vm: &Vm, p: Primitive, at: usize) -> (reply: Reply)
    requires
        vm.wf(),
        is_range_query(p),
        arguments::called_with(vm, at, p.spec_arity()),
    ensures
        reply.model() == range_reply(vm, p, at),
{
    match range_of(vm, receiver(vm, at)) {
        None => match p {
            Primitive::RangeIterate => deny("Receiver must be a range."),
            _ => give(Value::num(NAN)),
        },
        Some(range) => match p {
            Primitive::RangeFrom => give(Value::num(range.from)),
            Primitive::RangeTo => give(Value::num(range.to)),
            Primitive::RangeMin => if is_nan(range.from) || less(range.to, range.from) {
                give(Value::num(range.to))
            } else {
                give(Value::num(range.from))
            },
            Primitive::RangeMax => if is_nan(range.from) || less(range.from, range.to) {
                give(Value::num(range.to))
            } else {
                give(Value::num(range.from))
            },
            _ => {
                if same(range.from, range.to) && !range.is_inclusive {
                    return give(Value::bool(false));
                }
                if argument(vm, at, 1).is_null() {
                    return give(Value::num(range.from));
                }
                match integer_argument(vm, at, 1, "Iterator") {
                    Err(error) => Reply::Done(Err(error)),
                    Ok(iterator) => {
                        let up: bool = less(range.from, range.to);
                        Reply::Advance { range, iterator, up }
                    },
                }
            },
        },
    }
}

} // verus!
