//! What running code computes with numbers.

use vstd::prelude::*;

use super::super::boot;
use super::super::{Vm, NUM_ADD, NUM_DIV, NUM_MOD, NUM_MUL, NUM_SUB};
use super::{Outcome, Run};
use crate::bytecode::Op;
use crate::value::Value;

verus! {

/// A call of a method of a number with a number, while a machine runs.
pub struct Sum {
    pub before: Vm,
    pub after: Vm,
    pub run: Run,
    pub next: Run,
    pub outcome: Outcome,
    pub left: u64,
    pub right: u64,
}

impl Sum {
    /// Whether a method with a signature was called with one argument, and both
    /// are numbers; and the machine is one that has started up, with the
    /// signature among the first.
    pub open spec fn calls(self, signature: Seq<char>) -> bool {
        let symbol = self.run.unit(self.run.ip + 1) as int;
        let depth = self.before.stack@.len();
        &&& self.after.did_call(&self.before, Op::Call, self.run, self.next, self.outcome)
        &&& boot::operators_known(&self.before)
        &&& self.run.within(self.run.ip + 1)
        &&& self.run.operand() == 1
        &&& symbol < 256
        &&& symbol < self.before.method_names@.len()
        &&& self.before.method_names@[symbol] == signature
        &&& depth >= 2
        &&& self.before.stack@[depth - 2].spec_is_num()
        &&& self.before.stack@[depth - 1].spec_is_num()
        &&& self.left == self.before.stack@[depth - 2].0
        &&& self.right == self.before.stack@[depth - 1].0
    }

    /// Whether what was called gave a truth value, in the place of the two.
    pub open spec fn gives(self, truth: bool) -> bool {
        let depth = self.before.stack@.len();
        &&& self.outcome is Next
        &&& self.after.stack@.len() == depth - 1
        &&& self.after.stack@[depth - 2] == Value::bool(truth)
        &&& forall|i: int|
            0 <= i < depth - 2 ==> #[trigger] self.after.stack@[i] == self.before.stack@[i]
        &&& self.next.ip == self.run.ip + 2
    }

    /// Whether what was called is to be computed from the two, in this order.
    pub open spec fn asks_for(self, operation: u8) -> bool {
        self.outcome == (Outcome::Arithmetic {
            operation,
            left: self.left,
            right: self.right,
        })
    }
}

/// Which arithmetic the signatures are.
proof fn lemma_operations()
    ensures
        boot::operation_of("<(_)"@) == super::super::NUM_LT,
        boot::operation_of(">(_)"@) == super::super::NUM_GT,
        boot::operation_of("<=(_)"@) == super::super::NUM_LE,
        boot::operation_of(">=(_)"@) == super::super::NUM_GE,
        boot::operation_of("+(_)"@) == NUM_ADD,
        boot::operation_of("-(_)"@) == NUM_SUB,
        boot::operation_of("*(_)"@) == NUM_MUL,
        boot::operation_of("/(_)"@) == NUM_DIV,
        boot::operation_of("%(_)"@) == NUM_MOD,
{
    reveal_strlit("<(_)");
    reveal_strlit(">(_)");
    reveal_strlit("<=(_)");
    reveal_strlit(">=(_)");
    reveal_strlit("+(_)");
    reveal_strlit("-(_)");
    reveal_strlit("*(_)");
    reveal_strlit("/(_)");
    reveal_strlit("%(_)");
    assert("<(_)"@[0] == '<' && ">(_)"@[0] == '>' && "<=(_)"@[0] == '<' && ">=(_)"@[0] == '>');
    assert("<(_)"@[1] == '(' && ">(_)"@[1] == '(' && "<=(_)"@[1] == '=' && ">=(_)"@[1] == '=');
    assert("+(_)"@[0] == '+' && "-(_)"@[0] == '-' && "*(_)"@[0] == '*');
    assert("/(_)"@[0] == '/' && "%(_)"@[0] == '%');
}

/// What a call of an operator on two numbers is.
proof fn lemma_operator(sum: Sum, signature: Seq<char>)
    requires
        sum.calls(signature),
        boot::operation_of(signature) != super::super::NUM_OP_NONE,
    ensures
        super::calling::arithmetic_of(sum.before, sum.run, Op::Call) == Some(
            (boot::operation_of(signature), sum.left, sum.right),
        ),
        boot::operation_of(signature) > NUM_MOD ==> sum.gives(
            super::calling::compares(boot::operation_of(signature), sum.left, sum.right),
        ),
{
    let symbol = sum.run.unit(sum.run.ip + 1) as int;
    assert(sum.before.num_ops@[symbol] == boot::operation_of(signature));
    assert(sum.run.chunk.code@.len() == sum.run.chunk.code.len());
}

/// Two numbers are compared by what they are worth: `<` is true exactly where
/// the left one is worth less, `>` where it is worth more, `<=` where it is
/// worth no more, and `>=` where it is worth no less.
pub proof fn law_comparisons_follow_the_order(sum: Sum)
    requires
        !crate::number::not_a_number(sum.left),
        !crate::number::not_a_number(sum.right),
    ensures
        sum.calls("<(_)"@) ==> sum.gives(
            crate::number::worth(sum.left) < crate::number::worth(sum.right),
        ),
        sum.calls(">(_)"@) ==> sum.gives(
            crate::number::worth(sum.left) > crate::number::worth(sum.right),
        ),
        sum.calls("<=(_)"@) ==> sum.gives(
            crate::number::worth(sum.left) <= crate::number::worth(sum.right),
        ),
        sum.calls(">=(_)"@) ==> sum.gives(
            crate::number::worth(sum.left) >= crate::number::worth(sum.right),
        ),
{
    lemma_operations();
    if sum.calls("<(_)"@) {
        lemma_operator(sum, "<(_)"@);
    }
    if sum.calls(">(_)"@) {
        lemma_operator(sum, ">(_)"@);
    }
    if sum.calls("<=(_)"@) {
        lemma_operator(sum, "<=(_)"@);
    }
    if sum.calls(">=(_)"@) {
        lemma_operator(sum, ">=(_)"@);
    }
}

/// Nothing is below, above or as large as what is no number.
pub proof fn law_what_is_no_number_compares_with_nothing(sum: Sum)
    requires
        crate::number::not_a_number(sum.left) || crate::number::not_a_number(sum.right),
        sum.calls("<(_)"@) || sum.calls(">(_)"@) || sum.calls("<=(_)"@) || sum.calls(">=(_)"@),
    ensures
        sum.gives(false),
{
    lemma_operations();
    if sum.calls("<(_)"@) {
        lemma_operator(sum, "<(_)"@);
    } else if sum.calls(">(_)"@) {
        lemma_operator(sum, ">(_)"@);
    } else if sum.calls("<=(_)"@) {
        lemma_operator(sum, "<=(_)"@);
    } else {
        lemma_operator(sum, ">=(_)"@);
    }
}

/// For two numbers, not being below is being at least as large, and not being
/// above is being at most as large, whichever of the two was asked.
pub proof fn law_comparisons_agree(first: Sum, second: Sum, truth: bool)
    requires
        first.left == second.left,
        first.right == second.right,
        !crate::number::not_a_number(first.left),
        !crate::number::not_a_number(first.right),
        (first.calls("<(_)"@) && second.calls(">=(_)"@)) || (first.calls(">(_)"@)
            && second.calls("<=(_)"@)),
        first.gives(truth),
    ensures
        second.gives(!truth),
{
    law_comparisons_follow_the_order(first);
    law_comparisons_follow_the_order(second);
    crate::value::law_kinds_exclusive(Value::bool(truth));
}

/// The arithmetic of two numbers is asked for by the operator that was called,
/// with the receiver on the left and the argument on the right.
pub proof fn law_arithmetic_is_asked_for_in_order(sum: Sum)
    ensures
        sum.calls("+(_)"@) ==> sum.asks_for(NUM_ADD),
        sum.calls("-(_)"@) ==> sum.asks_for(NUM_SUB),
        sum.calls("*(_)"@) ==> sum.asks_for(NUM_MUL),
        sum.calls("/(_)"@) ==> sum.asks_for(NUM_DIV),
        sum.calls("%(_)"@) ==> sum.asks_for(NUM_MOD),
{
    lemma_operations();
}

} // verus!
