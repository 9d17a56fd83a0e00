//! Methods of numbers.

use vstd::prelude::*;

use super::reply;
use super::arguments;
use super::arguments::{argument, number_argument, number_of, receiver, NAN};
use super::primitive::Primitive;
use super::reply::{give, Reply, ReplyModel, Sum};
use crate::number::{
    floored, from_u64, is_infinite, is_integer, is_nan, less, raised, same, to_i64, truncated, MINUS_ONE, ONE,
};
use crate::value::Value;
use crate::vm::Vm;

verus! {

/// The circle's circumference over its diameter.
pub const PI: u64 = 0x4009_21fb_5444_2d18;

/// The base of the natural logarithm.
pub const E: u64 = 0x4005_bf0a_8b14_5769;

/// What is larger than every number.
pub const INFINITY: u64 = 0x7ff0_0000_0000_0000;

/// The largest number.
pub const LARGEST: u64 = 0x7fef_ffff_ffff_ffff;

/// The smallest positive number that has all its digits.
pub const SMALLEST: u64 = 0x0010_0000_0000_0000;

/// The largest integer that every integer below it can be told apart from.
pub const MAX_SAFE_INTEGER: u64 = 0x433f_ffff_ffff_ffff;

/// The smallest such integer.
pub const MIN_SAFE_INTEGER: u64 = 0xc33f_ffff_ffff_ffff;

/// The low thirty-two bits of a number's integer part.
pub open spec fn low_bits(bits: u64) -> u32 {
    (crate::number::pressed(bits, i64::MIN as int, i64::MAX as int) as i64) as u32
}

/// The low thirty-two bits of a number's integer part.
fn to_low_bits(bits: u64) -> (low: u32)
    ensures
        low == low_bits(bits),
{
    let whole: i64 = to_i64(bits);
    #[verifier::truncate]
    let low: u32 = whole as u32;
    low
}

/// What an operation on bits gives.
pub open spec fn bitwise(p: Primitive, a: u32, b: u32) -> u32 {
    match p {
        Primitive::NumAnd => a & b,
        Primitive::NumOr => a | b,
        Primitive::NumXor => a ^ b,
        Primitive::NumShiftLeft => a << (b & 31),
        _ => a >> (b & 31),
    }
}

/// What an operation on bits gives.
fn combine_bits(p: Primitive, a: u32, b: u32) -> (r: u32)
    ensures
        r == bitwise(p, a, b),
{
    assert(b & 31 < 32) by (bit_vector);
    match p {
        Primitive::NumAnd => a & b,
        Primitive::NumOr => a | b,
        Primitive::NumXor => a ^ b,
        Primitive::NumShiftLeft => a << (b & 31),
        _ => a >> (b & 31),
    }
}

/// The number that thirty-two bits are.
fn small(n: u32) -> (bits: u64)
    ensures
        bits == crate::number::tally(n as nat),
{
    let bits: u64 = from_u64(n as u64);
    proof {
        assert(crate::number::magnitude(bits) == (n as nat) * crate::number::one());
        crate::number::lemma_same_magnitude(bits, crate::number::tally(n as nat));
    }
    bits
}

/// What a method of two numbers comes to.
pub open spec fn binary_reply(p: Primitive, a: u64, b: u64) -> ReplyModel {
    match p {
        Primitive::NumAdd => ReplyModel::Compute { sum: Sum::Add, left: a, right: b },
        Primitive::NumSubtract => ReplyModel::Compute { sum: Sum::Subtract, left: a, right: b },
        Primitive::NumMultiply => ReplyModel::Compute { sum: Sum::Multiply, left: a, right: b },
        Primitive::NumDivide => ReplyModel::Compute { sum: Sum::Divide, left: a, right: b },
        Primitive::NumRemainder => ReplyModel::Compute { sum: Sum::Remainder, left: a, right: b },
        Primitive::NumPow => ReplyModel::Compute { sum: Sum::Pow, left: a, right: b },
        Primitive::NumAtan2 => ReplyModel::Compute { sum: Sum::Atan2, left: a, right: b },
        Primitive::NumLess => reply::gives(Value::bool(crate::number::below(a, b))),
        Primitive::NumGreater => reply::gives(Value::bool(crate::number::below(b, a))),
        Primitive::NumAtMost => reply::gives(
            Value::bool(crate::number::below(a, b) || crate::number::equal(a, b)),
        ),
        Primitive::NumAtLeast => reply::gives(
            Value::bool(crate::number::below(b, a) || crate::number::equal(a, b)),
        ),
        Primitive::NumMin => reply::gives(
            Value::num(
                if crate::number::below(a, b) {
                    a
                } else {
                    b
                },
            ),
        ),
        Primitive::NumMax => reply::gives(
            Value::num(
                if crate::number::below(b, a) {
                    a
                } else {
                    b
                },
            ),
        ),
        _ => reply::gives(Value::num(crate::number::tally(bitwise(p, low_bits(a), low_bits(b)) as nat))),
    }
}

/// Carry out a method of two numbers.
fn reply_of_binary(p: Primitive, a: u64, b: u64) -> (reply: Reply)
    ensures
        reply.model() == binary_reply(p, a, b),
{
    match p {
        Primitive::NumAdd => Reply::Compute { sum: Sum::Add, left: a, right: b },
        Primitive::NumSubtract => Reply::Compute { sum: Sum::Subtract, left: a, right: b },
        Primitive::NumMultiply => Reply::Compute { sum: Sum::Multiply, left: a, right: b },
        Primitive::NumDivide => Reply::Compute { sum: Sum::Divide, left: a, right: b },
        Primitive::NumRemainder => Reply::Compute { sum: Sum::Remainder, left: a, right: b },
        Primitive::NumPow => Reply::Compute { sum: Sum::Pow, left: a, right: b },
        Primitive::NumAtan2 => Reply::Compute { sum: Sum::Atan2, left: a, right: b },
        Primitive::NumLess => give(Value::bool(less(a, b))),
        Primitive::NumGreater => give(Value::bool(less(b, a))),
        Primitive::NumAtMost => give(Value::bool(less(a, b) || same(a, b))),
        Primitive::NumAtLeast => give(Value::bool(less(b, a) || same(a, b))),
        Primitive::NumMin => give(
            Value::num(
                if less(a, b) {
                    a
                } else {
                    b
                },
            ),
        ),
        Primitive::NumMax => give(
            Value::num(
                if less(b, a) {
                    a
                } else {
                    b
                },
            ),
        ),
        _ => give(Value::num(small(combine_bits(p, to_low_bits(a), to_low_bits(b))))),
    }
}

/// Whether a method takes a number and gives what the two come to.
pub open spec fn is_binary(p: Primitive) -> bool {
    match p {
        Primitive::NumAdd | Primitive::NumSubtract | Primitive::NumMultiply
        | Primitive::NumDivide | Primitive::NumRemainder | Primitive::NumPow | Primitive::NumAtan2
        | Primitive::NumLess | Primitive::NumGreater | Primitive::NumAtMost
        | Primitive::NumAtLeast | Primitive::NumMin | Primitive::NumMax | Primitive::NumAnd
        | Primitive::NumOr | Primitive::NumXor | Primitive::NumShiftLeft
        | Primitive::NumShiftRight => true,
        _ => false,
    }
}

/// Whether a method takes a number and gives what the two come to.
fn takes_number(p: Primitive) -> (r: bool)
    ensures
        r == is_binary(p),
{
    match p {
        Primitive::NumAdd | Primitive::NumSubtract | Primitive::NumMultiply
        | Primitive::NumDivide | Primitive::NumRemainder | Primitive::NumPow | Primitive::NumAtan2
        | Primitive::NumLess | Primitive::NumGreater | Primitive::NumAtMost
        | Primitive::NumAtLeast | Primitive::NumMin | Primitive::NumMax | Primitive::NumAnd
        | Primitive::NumOr | Primitive::NumXor | Primitive::NumShiftLeft
        | Primitive::NumShiftRight => true,
        _ => false,
    }
}

/// Whether a method rounds a number.
pub open spec fn is_rounding(p: Primitive) -> bool {
    p is NumFloor || p is NumCeil || p is NumTruncate
}

/// Whether a method is one of these.
pub open spec fn is_number_method(p: Primitive) -> bool {
    ||| is_binary(p)
    ||| match p {
        Primitive::NumEqual | Primitive::NumUnequal | Primitive::NumNegate | Primitive::NumAbs
        | Primitive::NumSqrt | Primitive::NumClamp | Primitive::NumFraction | Primitive::NumSign
        | Primitive::NumIsInteger | Primitive::NumIsNan | Primitive::NumIsInfinity
        | Primitive::NumComplement | Primitive::NumRound | Primitive::NumLog
        | Primitive::NumLog2 | Primitive::NumExp | Primitive::NumCbrt | Primitive::NumSin
        | Primitive::NumCos | Primitive::NumTan | Primitive::NumAsin | Primitive::NumAcos
        | Primitive::NumAtan | Primitive::NumPi | Primitive::NumE | Primitive::NumInfinity
        | Primitive::NumNan | Primitive::NumLargest | Primitive::NumSmallest
        | Primitive::NumMaxSafeInteger | Primitive::NumMinSafeInteger => true,
        _ => false,
    }
}

/// A computation on one number.
pub open spec fn computes(sum: Sum, a: u64) -> ReplyModel {
    ReplyModel::Compute { sum, left: a, right: 0 }
}

/// A number brought between two others.
pub open spec fn clamped(value: u64, low: u64, high: u64) -> u64 {
    if crate::number::below(value, low) {
        low
    } else if crate::number::below(high, value) {
        high
    } else {
        value
    }
}

/// A number with its sign turned.
pub open spec fn turned(bits: u64) -> u64 {
    if bits >= crate::number::SIGN {
        (bits - crate::number::SIGN) as u64
    } else {
        (bits + crate::number::SIGN) as u64
    }
}

/// What such a method comes to.
pub open spec fn number_reply(vm: &Vm, p: Primitive, at: usize) -> ReplyModel {
    let this = arguments::given(vm, at, 0);
    let a = arguments::num_or_nan(this);
    if is_binary(p) {
        match super::arguments::spec_number(arguments::given(vm, at, 1)) {
            Err(message) => reply::denies(message),
            Ok(b) => binary_reply(p, a, b),
        }
    } else {
        match p {
            Primitive::NumEqual => reply::gives(
                Value::bool(
                    this.spec_is_num() && arguments::given(vm, at, 1).spec_is_num() && crate::number::equal(
                        this.0,
                        arguments::given(vm, at, 1).0,
                    ),
                ),
            ),
            Primitive::NumUnequal => reply::gives(
                Value::bool(
                    !(this.spec_is_num() && arguments::given(vm, at, 1).spec_is_num() && crate::number::equal(
                        this.0,
                        arguments::given(vm, at, 1).0,
                    )),
                ),
            ),
            Primitive::NumNegate => reply::gives(Value::num(turned(a))),
            Primitive::NumAbs => reply::gives(
                Value::num(
                    if a >= crate::number::SIGN {
                        turned(a)
                    } else {
                        a
                    },
                ),
            ),
            Primitive::NumClamp => match super::arguments::spec_number(arguments::given(vm, at, 1)) {
                Err(message) => reply::denies(message),
                Ok(low) => match super::arguments::spec_number(arguments::given(vm, at, 2)) {
                    Err(message) => reply::denies(message),
                    Ok(high) => reply::gives(Value::num(clamped(a, low, high))),
                },
            },
            Primitive::NumSign => reply::gives(
                Value::num(
                    if crate::number::below(0, a) {
                        ONE
                    } else if crate::number::below(a, 0) {
                        MINUS_ONE
                    } else {
                        0
                    },
                ),
            ),
            Primitive::NumIsInteger => reply::gives(Value::bool(crate::number::integral(a))),
            Primitive::NumIsNan => reply::gives(
                Value::bool(this.spec_is_num() && crate::number::not_a_number(this.0)),
            ),
            Primitive::NumIsInfinity => reply::gives(
                Value::bool(
                    this.spec_is_num() && !crate::number::finite(this.0)
                        && !crate::number::not_a_number(this.0),
                ),
            ),
            Primitive::NumComplement => reply::gives(
                Value::num(crate::number::tally((!low_bits(a)) as nat)),
            ),
            Primitive::NumSqrt => computes(Sum::Sqrt, a),
            Primitive::NumFraction => computes(Sum::Fraction, a),
            Primitive::NumRound => computes(Sum::Round, a),
            Primitive::NumLog => computes(Sum::Log, a),
            Primitive::NumLog2 => computes(Sum::Log2, a),
            Primitive::NumExp => computes(Sum::Exp, a),
            Primitive::NumCbrt => computes(Sum::Cbrt, a),
            Primitive::NumSin => computes(Sum::Sin, a),
            Primitive::NumCos => computes(Sum::Cos, a),
            Primitive::NumTan => computes(Sum::Tan, a),
            Primitive::NumAsin => computes(Sum::Asin, a),
            Primitive::NumAcos => computes(Sum::Acos, a),
            Primitive::NumAtan => computes(Sum::Atan, a),
            Primitive::NumPi => reply::gives(Value::num(PI)),
            Primitive::NumE => reply::gives(Value::num(E)),
            Primitive::NumInfinity => reply::gives(Value::num(INFINITY)),
            Primitive::NumNan => reply::gives(Value::num(NAN)),
            Primitive::NumLargest => reply::gives(Value::num(LARGEST)),
            Primitive::NumSmallest => reply::gives(Value::num(SMALLEST)),
            Primitive::NumMaxSafeInteger => reply::gives(Value::num(MAX_SAFE_INTEGER)),
            _ => reply::gives(Value::num(MIN_SAFE_INTEGER)),
        }
    }
}

/// Ask for a computation on one number.
fn compute(sum: Sum, a: u64) -> (reply: Reply)
    ensures
        reply.model() == computes(sum, a),
{
    Reply::Compute { sum, left: a, right: 0 }
}

/// Turn a number's sign.
fn turn(bits: u64) -> (r: u64)
    ensures
        r == turned(bits),
{
    if bits >= crate::number::SIGN {
        bits - crate::number::SIGN
    } else {
        bits + crate::number::SIGN
    }
}

/// Carry out such a method.
pub fn reply_of_number(vm: &Vm, p: Primitive, at: usize) -> (reply: Reply)
    requires
        vm.wf(),
        is_number_method(p),
        arguments::called_with(vm, at, p.spec_arity()),
    ensures
        reply.model() == number_reply(vm, p, at),
{
    let this = receiver(vm, at);
    let a: u64 = number_of(this);
    if takes_number(p) {
        return match number_argument(vm, at, 1) {
            Err(error) => Reply::Done(Err(error)),
            Ok(b) => reply_of_binary(p, a, b),
        };
    }
    match p {
        Primitive::NumEqual => match (this.as_num(), argument(vm, at, 1).as_num()) {
            (Some(a), Some(b)) => give(Value::bool(same(a, b))),
            _ => give(Value::bool(false)),
        },
        Primitive::NumUnequal => match (this.as_num(), argument(vm, at, 1).as_num()) {
            (Some(a), Some(b)) => give(Value::bool(!same(a, b))),
            _ => give(Value::bool(true)),
        },
        Primitive::NumNegate => give(Value::num(turn(a))),
        Primitive::NumAbs => give(
            Value::num(
                if a >= crate::number::SIGN {
                    turn(a)
                } else {
                    a
                },
            ),
        ),
        Primitive::NumClamp => match number_argument(vm, at, 1) {
            Err(error) => Reply::Done(Err(error)),
            Ok(low) => match number_argument(vm, at, 2) {
                Err(error) => Reply::Done(Err(error)),
                Ok(high) => {
                    let bits: u64 = if less(a, low) {
                        low
                    } else if less(high, a) {
                        high
                    } else {
                        a
                    };
                    give(Value::num(bits))
                },
            },
        },
        Primitive::NumSign => {
            let bits: u64 = if less(0, a) {
                ONE
            } else if less(a, 0) {
                MINUS_ONE
            } else {
                0
            };
            give(Value::num(bits))
        },
        Primitive::NumIsInteger => give(Value::bool(is_integer(a))),
        Primitive::NumIsNan => match this.as_num() {
            Some(bits) => give(Value::bool(is_nan(bits))),
            None => give(Value::bool(false)),
        },
        Primitive::NumIsInfinity => match this.as_num() {
            Some(bits) => give(Value::bool(is_infinite(bits))),
            None => give(Value::bool(false)),
        },
        Primitive::NumComplement => give(Value::num(small(!to_low_bits(a)))),
        Primitive::NumSqrt => compute(Sum::Sqrt, a),
        Primitive::NumFraction => compute(Sum::Fraction, a),
        Primitive::NumRound => compute(Sum::Round, a),
        Primitive::NumLog => compute(Sum::Log, a),
        Primitive::NumLog2 => compute(Sum::Log2, a),
        Primitive::NumExp => compute(Sum::Exp, a),
        Primitive::NumCbrt => compute(Sum::Cbrt, a),
        Primitive::NumSin => compute(Sum::Sin, a),
        Primitive::NumCos => compute(Sum::Cos, a),
        Primitive::NumTan => compute(Sum::Tan, a),
        Primitive::NumAsin => compute(Sum::Asin, a),
        Primitive::NumAcos => compute(Sum::Acos, a),
        Primitive::NumAtan => compute(Sum::Atan, a),
        Primitive::NumPi => give(Value::num(PI)),
        Primitive::NumE => give(Value::num(E)),
        Primitive::NumInfinity => give(Value::num(INFINITY)),
        Primitive::NumNan => give(Value::num(NAN)),
        Primitive::NumLargest => give(Value::num(LARGEST)),
        Primitive::NumSmallest => give(Value::num(SMALLEST)),
        Primitive::NumMaxSafeInteger => give(Value::num(MAX_SAFE_INTEGER)),
        _ => give(Value::num(MIN_SAFE_INTEGER)),
    }
}

/// Whether a number is another rounded: down, up or towards zero. What is not
/// finite stays as it is.
pub open spec fn rounds(p: Primitive, bits: u64, r: u64) -> bool {
    if !crate::number::finite(bits) || crate::number::integral(bits) {
        r == bits
    } else {
        &&& crate::number::finite(r)
        &&& crate::number::negative(r) == crate::number::negative(bits)
        &&& match p {
            Primitive::NumFloor => crate::number::integral(r) && crate::number::worth(r)
                <= crate::number::worth(bits) < crate::number::worth(r) + crate::number::one(),
            Primitive::NumCeil => crate::number::integral(r) && crate::number::worth(r)
                - crate::number::one() < crate::number::worth(bits) <= crate::number::worth(r),
            _ => crate::number::magnitude(r) == (crate::number::magnitude(bits)
                / crate::number::one()) * crate::number::one(),
        }
    }
}

/// Carry out a method that rounds.
pub fn reply_of_rounding(vm: &Vm, p: Primitive, at: usize) -> (reply: Reply)
    requires
        vm.wf(),
        is_rounding(p),
        arguments::called_with(vm, at, 0),
    ensures
        reply.model() matches ReplyModel::Done(Ok(value)) && rounds(
            p,
            arguments::num_or_nan(arguments::given(vm, at, 0)),
            value.0,
        ),
{
    let bits: u64 = number_of(receiver(vm, at));
    let rounded: u64 = match p {
        Primitive::NumFloor => floored(bits),
        Primitive::NumCeil => raised(bits),
        _ => truncated(bits),
    };
    proof {
        if crate::number::finite(rounded) {
            crate::value::law_finite_number_is_a_value(rounded);
        }
        crate::value::lemma_plain_nan(bits);
    }
    give(Value::num(rounded))
}

} // verus!
