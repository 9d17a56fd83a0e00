//! What holds of the methods of numbers.

use vstd::prelude::*;

use super::primitive::Primitive;
use super::reply::{ReplyModel, Sum};
use crate::value::Value;
use crate::vm::Vm;

verus! {

/// A method of a number that was called, with numbers or without.
pub struct Call {
    pub before: Vm,
    pub after: Vm,
    pub at: usize,
    pub reply: ReplyModel,
    /// The receiver.
    pub this: u64,
    /// The first argument.
    pub that: u64,
    /// The second.
    pub other: u64,
}

impl Call {
    /// Whether a method was called with so many arguments, all of them numbers,
    /// and none of them what is no number.
    pub open spec fn of(self, p: Primitive, count: int) -> bool {
        &&& super::perform::performed(&self.before, &self.after, p, self.at, self.reply)
        &&& self.at + count < self.before.stack@.len()
        &&& self.is_number(0, self.this)
        &&& count >= 1 ==> self.is_number(1, self.that)
        &&& count >= 2 ==> self.is_number(2, self.other)
    }

    /// Whether the receiver or an argument is a number.
    pub open spec fn is_number(self, index: int, bits: u64) -> bool {
        &&& self.before.stack@[self.at + index].spec_is_num()
        &&& self.before.stack@[self.at + index].0 == bits
        &&& !crate::number::not_a_number(bits)
    }

    /// Whether a truth value came of it.
    pub open spec fn says(self, truth: bool) -> bool {
        self.reply == ReplyModel::Done(Ok(Value::bool(truth)))
    }

    /// Whether it is left to be computed from the receiver alone.
    pub open spec fn is_computed(self, sum: Sum) -> bool {
        self.reply matches ReplyModel::Compute { sum: asked, left, .. } && asked == sum && left
            == self.this
    }

    /// Whether a number came of it.
    pub open spec fn comes_to(self, bits: u64) -> bool {
        self.reply == ReplyModel::Done(Ok(Value::num(bits)))
    }
}

/// What a number is worth.
pub open spec fn worth(bits: u64) -> int {
    crate::number::worth(bits)
}

/// The methods that compare two numbers go by what they are worth.
pub proof fn law_numbers_are_compared_by_their_worth(call: Call)
    ensures
        call.of(Primitive::NumLess, 1) ==> call.says(worth(call.this) < worth(call.that)),
        call.of(Primitive::NumGreater, 1) ==> call.says(worth(call.this) > worth(call.that)),
        call.of(Primitive::NumAtMost, 1) ==> call.says(worth(call.this) <= worth(call.that)),
        call.of(Primitive::NumAtLeast, 1) ==> call.says(worth(call.this) >= worth(call.that)),
        call.of(Primitive::NumEqual, 1) ==> call.says(worth(call.this) == worth(call.that)),
        call.of(Primitive::NumUnequal, 1) ==> call.says(worth(call.this) != worth(call.that)),
{
}

/// The smaller of two numbers is one of them, and neither is smaller; the
/// larger is one of them, and neither is larger.
pub proof fn law_smaller_and_larger(call: Call)
    ensures
        call.of(Primitive::NumMin, 1) ==> exists|r: u64| #[trigger]
            call.comes_to(r) && (r == call.this || r == call.that) && worth(r) <= worth(call.this)
                && worth(r) <= worth(call.that),
        call.of(Primitive::NumMax, 1) ==> exists|r: u64| #[trigger]
            call.comes_to(r) && (r == call.this || r == call.that) && worth(r) >= worth(call.this)
                && worth(r) >= worth(call.that),
{
    if call.of(Primitive::NumMin, 1) {
        assert(call.comes_to(call.this) || call.comes_to(call.that));
    }
    if call.of(Primitive::NumMax, 1) {
        assert(call.comes_to(call.this) || call.comes_to(call.that));
    }
}

/// Clamping between two numbers in order gives a number between them, and the
/// number itself where it is between them already.
pub proof fn law_clamping(call: Call)
    requires
        call.of(Primitive::NumClamp, 2),
        worth(call.that) <= worth(call.other),
    ensures
        exists|r: u64| #[trigger]
            call.comes_to(r) && worth(call.that) <= worth(r) <= worth(call.other) && (worth(
                call.that,
            ) <= worth(call.this) <= worth(call.other) ==> r == call.this) && (worth(call.this)
                < worth(call.that) ==> r == call.that) && (worth(call.other) < worth(call.this)
                ==> r == call.other),
{
    assert(call.comes_to(call.this) || call.comes_to(call.that) || call.comes_to(call.other));
}

/// Negating turns what a number is worth, the absolute value is worth as much
/// without the sign, and the sign is that of the worth.
pub proof fn law_signs(call: Call)
    ensures
        call.of(Primitive::NumNegate, 0) ==> exists|r: u64| #[trigger]
            call.comes_to(r) && worth(r) == -worth(call.this),
        call.of(Primitive::NumAbs, 0) ==> exists|r: u64| #[trigger]
            call.comes_to(r) && worth(r) == if worth(call.this) < 0 {
                -worth(call.this)
            } else {
                worth(call.this)
            },
        call.of(Primitive::NumSign, 0) ==> exists|r: u64| #[trigger]
            call.comes_to(r) && (worth(r) > 0) == (worth(call.this) > 0) && (worth(r) < 0) == (
            worth(call.this) < 0),
{
    let a = call.this;
    let turned = super::numbers::turned(a);
    assert(worth(turned) == -worth(a));
    if call.of(Primitive::NumNegate, 0) {
        assert(call.comes_to(turned));
    }
    if call.of(Primitive::NumAbs, 0) {
        assert(call.comes_to(turned) || call.comes_to(a));
    }
    if call.of(Primitive::NumSign, 0) {
        crate::number::lemma_unit();
        assert(crate::number::magnitude(0) == 0);
        if worth(a) > 0 {
            assert(call.comes_to(crate::number::ONE));
        } else if worth(a) < 0 {
            assert(call.comes_to(crate::number::MINUS_ONE));
        } else {
            assert(call.comes_to(0));
        }
    }
}

/// What the methods of arithmetic are to be computed from: the receiver on the
/// left, the argument on the right.
pub proof fn law_arithmetic_takes_the_receiver_first(call: Call)
    ensures
        call.of(Primitive::NumAdd, 1) ==> call.reply == (ReplyModel::Compute {
            sum: Sum::Add,
            left: call.this,
            right: call.that,
        }),
        call.of(Primitive::NumSubtract, 1) ==> call.reply == (ReplyModel::Compute {
            sum: Sum::Subtract,
            left: call.this,
            right: call.that,
        }),
        call.of(Primitive::NumMultiply, 1) ==> call.reply == (ReplyModel::Compute {
            sum: Sum::Multiply,
            left: call.this,
            right: call.that,
        }),
        call.of(Primitive::NumDivide, 1) ==> call.reply == (ReplyModel::Compute {
            sum: Sum::Divide,
            left: call.this,
            right: call.that,
        }),
        call.of(Primitive::NumRemainder, 1) ==> call.reply == (ReplyModel::Compute {
            sum: Sum::Remainder,
            left: call.this,
            right: call.that,
        }),
        call.of(Primitive::NumPow, 1) ==> call.reply == (ReplyModel::Compute {
            sum: Sum::Pow,
            left: call.this,
            right: call.that,
        }),
        call.of(Primitive::NumAtan2, 1) ==> call.reply == (ReplyModel::Compute {
            sum: Sum::Atan2,
            left: call.this,
            right: call.that,
        }),
{
}

/// Whether a number is a natural one that fits in 32 bits.
pub open spec fn is_word(bits: u64, n: u32) -> bool {
    crate::number::finite(bits) && worth(bits) == n * crate::number::one()
}

/// Such a number is all its bits.
proof fn lemma_word(bits: u64, n: u32)
    requires
        is_word(bits, n),
    ensures
        super::numbers::low_bits(bits) == n,
{
    crate::number::law_integers_survive(n as int, bits);
    assert((n as i64) as u32 == n);
}

/// The bits of two numbers taken together: what is in both and what is in
/// either come to the sum of the two, what is in one alone to the difference
/// between those; the complement is what is missing to all bits.
pub proof fn law_bits_of_two_numbers(and: Call, or: Call, xor: Call, not: Call, a: u32, b: u32)
    requires
        and.of(Primitive::NumAnd, 1) && is_word(and.this, a) && is_word(and.that, b),
        or.of(Primitive::NumOr, 1) && is_word(or.this, a) && is_word(or.that, b),
        xor.of(Primitive::NumXor, 1) && is_word(xor.this, a) && is_word(xor.that, b),
        not.of(Primitive::NumComplement, 0) && is_word(not.this, a),
    ensures
        exists|both: nat, either: nat, one: nat, missing: nat|
            {
                &&& #[trigger] and.comes_to(crate::number::tally(both))
                &&& #[trigger] or.comes_to(crate::number::tally(either))
                &&& #[trigger] xor.comes_to(crate::number::tally(one))
                &&& #[trigger] not.comes_to(crate::number::tally(missing))
                &&& both <= a && both <= b
                &&& both + either == a + b
                &&& one == either - both
                &&& missing == u32::MAX - a
            },
{
    lemma_word(and.this, a);
    lemma_word(and.that, b);
    lemma_word(or.this, a);
    lemma_word(or.that, b);
    lemma_word(xor.this, a);
    lemma_word(xor.that, b);
    lemma_word(not.this, a);
    assert((a & b) <= a && (a & b) <= b && (a & b) as u64 + (a | b) as u64 == a as u64 + b as u64
        && (a ^ b) as u64 + (a & b) as u64 == (a | b) as u64 && !a == 0xffff_ffffu32 - a)
        by (bit_vector);
    assert(and.comes_to(crate::number::tally((a & b) as nat)));
    assert(or.comes_to(crate::number::tally((a | b) as nat)));
    assert(xor.comes_to(crate::number::tally((a ^ b) as nat)));
    assert(not.comes_to(crate::number::tally((!a) as nat)));
}

/// Shifting right by one halves a number, shifting left by one doubles it,
/// without what no longer fits; shifting by none leaves it.
pub proof fn law_shifting(call: Call, a: u32, by: u32)
    requires
        is_word(call.this, a),
        is_word(call.that, by),
        by < 2,
    ensures
        call.of(Primitive::NumShiftRight, 1) ==> call.comes_to(
            crate::number::tally(
                if by == 0 {
                    a as nat
                } else {
                    a as nat / 2
                },
            ),
        ),
        call.of(Primitive::NumShiftLeft, 1) ==> call.comes_to(
            crate::number::tally(
                if by == 0 {
                    a as nat
                } else if a < 0x8000_0000 {
                    2 * a as nat
                } else {
                    (2 * a - 0x1_0000_0000) as nat
                },
            ),
        ),
{
    lemma_word(call.this, a);
    lemma_word(call.that, by);
    assert(by & 31 == by && a >> 0u32 == a && a << 0u32 == a && a >> 1u32 == a / 2 && (a
        < 0x8000_0000 ==> (a << 1u32) as u64 == 2 * a as u64) && (a >= 0x8000_0000 ==> (a
        << 1u32) as u64 + 0x1_0000_0000 == 2 * a as u64)) by (bit_vector)
        requires
            by < 2,
    ;
}

/// Rounding gives the next whole number: at most as much and less than one
/// away, at least as much and less than one away, or towards zero.
pub proof fn law_rounding(call: Call)
    requires
        crate::number::finite(call.this),
    ensures
        call.of(Primitive::NumFloor, 0) ==> exists|r: u64| #[trigger]
            call.comes_to(r) && crate::number::integral(r) && worth(r) <= worth(call.this) < worth(
                r,
            ) + crate::number::one(),
        call.of(Primitive::NumCeil, 0) ==> exists|r: u64| #[trigger]
            call.comes_to(r) && crate::number::integral(r) && worth(r) - crate::number::one()
                < worth(call.this) <= worth(r),
        call.of(Primitive::NumTruncate, 0) ==> exists|r: u64| #[trigger]
            call.comes_to(r) && if worth(call.this) >= 0 {
                0 <= worth(r) <= worth(call.this) < worth(r) + crate::number::one()
            } else {
                worth(r) - crate::number::one() < worth(call.this) <= worth(r) <= 0
            },
{
    crate::number::lemma_unit();
    let r = call.reply->Done_0->Ok_0.0;
    if call.of(Primitive::NumFloor, 0) || call.of(Primitive::NumCeil, 0) || call.of(
        Primitive::NumTruncate,
        0,
    ) {
        crate::value::law_finite_number_is_a_value(r);
        assert(call.comes_to(r));
        let m = crate::number::magnitude(call.this);
        let one = crate::number::one();
        assert(m == (m / one) * one + m % one && 0 <= m % one < one) by {
            vstd::arithmetic::div_mod::lemma_fundamental_div_mod(m as int, one as int);
            assert((m / one) * one == one * (m / one)) by (nonlinear_arith);
        }
    }
}

/// What is asked of a number: whether it is whole, whether it is one at all,
/// and whether it is without end.
pub proof fn law_questions_about_a_number(call: Call)
    ensures
        call.of(Primitive::NumIsInteger, 0) && crate::number::finite(call.this) ==> call.says(
            crate::number::integral(call.this),
        ),
        call.of(Primitive::NumIsNan, 0) ==> call.says(false),
        call.of(Primitive::NumIsInfinity, 0) ==> call.says(!crate::number::finite(call.this)),
{
}

/// The functions of one number are computed from the receiver, each by its own
/// name.
pub proof fn law_functions_take_the_receiver(call: Call)
    ensures
        call.of(Primitive::NumSqrt, 0) ==> call.is_computed(Sum::Sqrt),
        call.of(Primitive::NumFraction, 0) ==> call.is_computed(Sum::Fraction),
        call.of(Primitive::NumRound, 0) ==> call.is_computed(Sum::Round),
        call.of(Primitive::NumLog, 0) ==> call.is_computed(Sum::Log),
        call.of(Primitive::NumLog2, 0) ==> call.is_computed(Sum::Log2),
        call.of(Primitive::NumExp, 0) ==> call.is_computed(Sum::Exp),
        call.of(Primitive::NumCbrt, 0) ==> call.is_computed(Sum::Cbrt),
        call.of(Primitive::NumSin, 0) ==> call.is_computed(Sum::Sin),
        call.of(Primitive::NumCos, 0) ==> call.is_computed(Sum::Cos),
        call.of(Primitive::NumTan, 0) ==> call.is_computed(Sum::Tan),
        call.of(Primitive::NumAsin, 0) ==> call.is_computed(Sum::Asin),
        call.of(Primitive::NumAcos, 0) ==> call.is_computed(Sum::Acos),
        call.of(Primitive::NumAtan, 0) ==> call.is_computed(Sum::Atan),
{
}

} // verus!
