//! What running the code of a construct does: which way it goes, and what it
//! asks for.

use vstd::prelude::*;

use super::frame;
use super::grammar;
use super::grammar::{Source, State};
use super::words;
use crate::bytecode::Op;
use crate::lexer::TokenKind;
use crate::value::Value;
use crate::vm::step::{Outcome, Run};
use crate::vm::Vm;

verus! {

/// Whether what was compiled so far is in the code that runs.
pub open spec fn runs(run: Run, t: State) -> bool {
    &&& t.fault is None
    &&& frame::orderly(t.code)
    &&& t.code.sealed().is_prefix_of(run.chunk.code@)
}

/// A first unit, by what it says.
pub open spec fn unit(op: Op, length: int, operand: u8) -> u16 {
    crate::bytecode::make_unit(op.spec_byte(), length, operand)
}

/// What a first unit says.
pub proof fn lemma_unit(op: Op, length: int, operand: u8)
    requires
        0 <= length < 4,
    ensures
        crate::bytecode::unit_opcode(unit(op, length, operand)) == op.spec_byte(),
        crate::bytecode::unit_operand(unit(op, length, operand)) == operand,
        Op::spec_from_byte(op.spec_byte()) == Some(op),
        op.spec_byte() < 64,
{
    crate::bytecode::law_opcode_round_trip(op);
    crate::bytecode::fusion::lemma_unit_parts(op.spec_byte(), length, operand);
}

/// An instruction without operands is one unit more.
pub proof fn lemma_emits_op(s: State, op: Op, line: u16)
    requires
        s.fault is None,
        frame::orderly(s.code),
    ensures
        grammar::emit_op(s, op, line).fault is None,
        frame::orderly(grammar::emit_op(s, op, line).code),
        grammar::emit_op(s, op, line).code.sealed() == s.code.sealed().push(unit(op, 0, 0)),
        grammar::emit_op(s, op, line).code.units.len() == s.code.units.len() + 1,
{
    reveal(grammar::emit_op);
    frame::lemma_op(s.code, op, line);
    frame::lemma_complete_is_sealed(s.code);
    lemma_unit(op, 0, 0);
    let t = grammar::emit_op(s, op, line);
    assert(t.code.sealed() =~= s.code.sealed().push(unit(op, 0, 0)));
}

/// An instruction with a byte operand is one unit more.
pub proof fn lemma_emits_byte(s: State, op: Op, byte: u8, line: u16)
    requires
        s.fault is None,
        frame::orderly(s.code),
    ensures
        grammar::emit_with_byte(s, op, byte, line).fault is None,
        frame::orderly(grammar::emit_with_byte(s, op, byte, line).code),
        grammar::emit_with_byte(s, op, byte, line).code.sealed() == s.code.sealed().push(
            unit(op, 0, byte),
        ),
        grammar::emit_with_byte(s, op, byte, line).code.units.len() == s.code.units.len() + 1,
{
    reveal(grammar::emit_with_byte);
    frame::lemma_op(s.code, op, line);
    frame::lemma_operands(s.code.op(op, line), byte, 0);
    frame::lemma_complete_is_sealed(s.code);
    lemma_unit(op, 0, 0);
    lemma_unit(op, 0, byte);
    let t = grammar::emit_with_byte(s, op, byte, line);
    assert(t.code.sealed() =~= s.code.sealed().push(unit(op, 0, byte)));
}

/// An instruction with an operand unit is two units more.
pub proof fn lemma_emits_short(s: State, op: Op, value: u16, line: u16)
    requires
        s.fault is None,
        frame::orderly(s.code),
    ensures
        grammar::emit_with_short(s, op, value, line).fault is None,
        frame::orderly(grammar::emit_with_short(s, op, value, line).code),
        grammar::emit_with_short(s, op, value, line).code.sealed() == s.code.sealed().push(
            unit(op, 1, 0),
        ).push(value),
        grammar::emit_with_short(s, op, value, line).code.units.len() == s.code.units.len() + 2,
{
    reveal(grammar::emit_with_short);
    frame::lemma_op(s.code, op, line);
    frame::lemma_operands(s.code.op(op, line), 0, value);
    frame::lemma_complete_is_sealed(s.code);
    lemma_unit(op, 0, 0);
    lemma_unit(op, 1, 0);
    let t = grammar::emit_with_short(s, op, value, line);
    assert(t.code.sealed() =~= s.code.sealed().push(unit(op, 1, 0)).push(value));
}

/// A jump is two units more.
pub proof fn lemma_emits_jump(s: State, op: Op, line: u16)
    requires
        s.fault is None,
        frame::orderly(s.code),
    ensures
        grammar::emit_jump(s, op, line).fault is None,
        frame::orderly(grammar::emit_jump(s, op, line).code),
        grammar::emit_jump(s, op, line).code.sealed() == s.code.sealed().push(
            unit(op, 1, 0),
        ).push(u16::MAX),
        grammar::emit_jump(s, op, line).code.units.len() == s.code.units.len() + 2,
{
    reveal(grammar::emit_jump);
    frame::lemma_op(s.code, op, line);
    frame::lemma_operands(s.code.op(op, line), 0, u16::MAX);
    frame::lemma_complete_is_sealed(s.code);
    lemma_unit(op, 0, 0);
    lemma_unit(op, 1, 0);
    let t = grammar::emit_jump(s, op, line);
    assert(t.code.sealed() =~= s.code.sealed().push(unit(op, 1, 0)).push(u16::MAX));
}

/// A call is two units more, and its symbol is that of its signature.
pub proof fn lemma_emits_call(s: State, signature: Seq<char>, arity: nat, line: u16)
    requires
        s.fault is None,
        frame::orderly(s.code),
        grammar::emit_call(s, signature, arity, line).fault is None,
    ensures
        ({
            let t = grammar::emit_call(s, signature, arity, line);
            let symbol = t.code.sealed()[s.code.units.len() as int + 1];
            &&& frame::orderly(t.code)
            &&& t.code.sealed() == s.code.sealed().push(unit(Op::Call, 1, arity as u8)).push(
                symbol,
            )
            &&& t.code.units.len() == s.code.units.len() + 2
            &&& symbol < t.methods.len()
            &&& t.methods[symbol as int] == signature
        }),
{
    reveal(grammar::emit_call);
    let t = grammar::emit_call(s, signature, arity, line);
    let symbol = t.methods.index_of(signature) as u16;
    frame::lemma_op(s.code, Op::Call, line);
    frame::lemma_operands(s.code.op(Op::Call, line), arity as u8, 0);
    frame::lemma_operands(s.code.op(Op::Call, line).byte(arity as u8), 0, symbol);
    frame::lemma_complete_is_sealed(s.code);
    lemma_unit(Op::Call, 0, 0);
    lemma_unit(Op::Call, 0, arity as u8);
    lemma_unit(Op::Call, 1, arity as u8);
    assert(t.code.sealed() =~= s.code.sealed().push(unit(Op::Call, 1, arity as u8)).push(symbol));
    assert(t.methods.contains(signature)) by {
        if !s.methods.contains(signature) {
            assert(t.methods[s.methods.len() as int] == signature);
        }
    }
}

/// A jump back is two units more, and leads to where it is to.
proof fn lemma_emits_loop(s: State, start: int, line: u16)
    requires
        s.fault is None,
        frame::orderly(s.code),
        0 <= start <= s.code.units.len(),
        grammar::emit_loop(s, start, line).fault is None,
    ensures
        ({
            let t = grammar::emit_loop(s, start, line);
            let distance = t.code.sealed()[s.code.units.len() as int + 1];
            &&& frame::orderly(t.code)
            &&& t.code.sealed() == s.code.sealed().push(unit(Op::Loop, 1, 0)).push(distance)
            &&& t.code.units.len() == s.code.units.len() + 2
            &&& distance == s.code.units.len() + 2 - start
        }),
{
    reveal(grammar::emit_loop);
    let t = grammar::emit_loop(s, start, line);
    let distance = (s.code.units.len() + 2 - start) as u16;
    frame::lemma_op(s.code, Op::Loop, line);
    frame::lemma_operands(s.code.op(Op::Loop, line), 0, distance);
    frame::lemma_complete_is_sealed(s.code);
    lemma_unit(Op::Loop, 0, 0);
    lemma_unit(Op::Loop, 1, 0);
    assert(t.code.sealed() =~= s.code.sealed().push(unit(Op::Loop, 1, 0)).push(distance));
}

/// What follows has the same units, as far as they go.
pub proof fn lemma_unit_stays(s: State, t: State, at: int)
    requires
        frame::follows(s, t),
        t.fault is None,
        frame::orderly(s.code),
        0 <= at < s.code.units.len(),
    ensures
        s.fault is None,
        frame::orderly(t.code),
        s.code.units.len() <= t.code.units.len(),
        t.code.sealed()[at] == s.code.sealed()[at],
{
    reveal(frame::follows);
    frame::lemma_complete_is_sealed(s.code);
    frame::lemma_complete_is_sealed(t.code);
}

/// Signatures keep their numbers.
pub proof fn lemma_signature_stays(s: State, t: State, symbol: int)
    requires
        frame::follows(s, t),
        t.fault is None,
        0 <= symbol < s.methods.len(),
    ensures
        symbol < t.methods.len(),
        t.methods[symbol] == s.methods[symbol],
{
    reveal(frame::follows);
}

/// A jump that was begun at the end of one state and ends at the end of
/// another leads there.
pub proof fn lemma_jump_leads(c: State, op: Op, line: u16, t: State)
    requires
        c.fault is None,
        frame::orderly(c.code),
        frame::follows(grammar::emit_jump(c, op, line), t),
        grammar::patch(t, grammar::jump_place(c)).fault is None,
    ensures
        ({
            let end = grammar::patch(t, grammar::jump_place(c));
            let at = c.code.units.len() as int;
            &&& frame::orderly(end.code)
            &&& end.methods == t.methods
            &&& end.code.units.len() == t.code.units.len()
            &&& at + 2 <= t.code.units.len()
            &&& end.code.sealed()[at] == unit(op, 1, 0)
            &&& at + 2 + end.code.sealed()[at + 1] == t.code.units.len()
            &&& forall|i: int|
                0 <= i < t.code.units.len() && i != at + 1 ==> #[trigger] end.code.sealed()[i]
                    == t.code.sealed()[i]
        }),
{
    let begun = grammar::emit_jump(c, op, line);
    let at = c.code.units.len() as int;
    lemma_emits_jump(c, op, line);
    frame::lemma_complete_is_sealed(c.code);
    frame::lemma_complete_is_sealed(begun.code);
    reveal(grammar::patch);
    lemma_unit_stays(begun, t, at);
    frame::lemma_complete_is_sealed(t.code);
}

/// Whether an instruction is next in a machine's code.
pub open spec fn is_at(run: Run, op: Op, operand: int) -> bool {
    &&& run.within(run.ip as int)
    &&& Op::spec_from_byte(crate::bytecode::unit_opcode(run.unit(run.ip as int))) == Some(op)
    &&& run.operand() == operand
}

/// An instruction that was emitted is what runs there.
pub proof fn lemma_is_at(run: Run, t: State, op: Op, length: int, operand: u8)
    requires
        runs(run, t),
        run.ip < t.code.units.len(),
        t.code.sealed()[run.ip as int] == unit(op, length, operand),
        0 <= length < 4,
    ensures
        is_at(run, op, operand as int),
        forall|i: int|
            0 <= i < t.code.units.len() ==> run.within(i) && #[trigger] run.unit(i)
                == t.code.sealed()[i],
        t.code.units.len() <= run.chunk.code@.len(),
{
    frame::lemma_complete_is_sealed(t.code);
    lemma_unit(op, length, operand);
}

/// What an instruction that only changes the stack does, and what a collection
/// behind it leaves.
pub proof fn lemma_steps(before: Vm, after: Vm, run: Run, next: Run, outcome: Outcome, op: Op, operand: int)
    requires
        after.stepped(&before, run, next, outcome),
        is_at(run, op, operand),
        crate::vm::step::stack::is_stack_op(op),
    ensures
        match before.stack_step(run, op) {
            crate::vm::step::stack::StackStep::Goes { stack, ip } => {
                &&& outcome is Next
                &&& after.stack@ == stack
                &&& next == run.moved(ip)
                &&& after.method_names == before.method_names
            },
            _ => true,
        },
{
    let mid = choose|mid: Vm| #[trigger]
        mid.instructed(&before, run, next, outcome) && if outcome is Next {
            after.collected_at(&mid, next.ip)
        } else {
            after == mid
        };
}

/// A machine at an instruction of code that was compiled, and after it.
pub struct Step {
    /// How far the code was compiled.
    pub code: State,
    pub run: Run,
    pub before: Vm,
    pub after: Vm,
    pub next: Run,
    pub outcome: Outcome,
}

impl Step {
    /// Whether the machine runs the code, and carried out the instruction at a
    /// place in it.
    pub open spec fn runs_at(self, place: int) -> bool {
        &&& runs(self.run, self.code)
        &&& self.run.ip == place
        &&& self.after.stepped(&self.before, self.run, self.next, self.outcome)
    }

    /// Whether it goes on at a place, with the stack like this.
    pub open spec fn goes_to(self, place: int, stack: Seq<Value>) -> bool {
        &&& self.outcome is Next
        &&& self.next.ip == place
        &&& self.next == (Run { ip: self.next.ip, ..self.run })
        &&& self.after.stack@ == stack
        &&& self.after.method_names == self.before.method_names
    }

    /// Whether it pushes a local variable and goes on behind.
    pub open spec fn loads(self, slot: int) -> bool {
        let stack = self.before.stack@;
        let place = self.run.base + slot;
        place < stack.len() ==> self.goes_to(self.run.ip + 1, stack.push(stack[place]))
    }
}

/// Whether what is next in a machine's code is a call of a method by its
/// signature, with so many arguments.
pub open spec fn calls(run: Run, vm: Vm, code: State, signature: Seq<char>, arity: int) -> bool {
    &&& is_at(run, Op::Call, arity)
    &&& run.within(run.ip + 1)
    &&& code.methods.is_prefix_of(vm.method_names@) ==> {
        let symbol = run.unit(run.ip + 1) as int;
        symbol < vm.method_names@.len() && vm.method_names@[symbol] == signature
    }
}

/// Code is as long as it can be counted.
pub proof fn lemma_counted(run: Run)
    ensures
        run.chunk.code@.len() <= usize::MAX,
{
    assert(run.chunk.code@.len() == run.chunk.code.len());
}

/// A local variable is loaded.
pub proof fn lemma_loads(step: Step, slot: u8)
    requires
        step.runs_at(step.run.ip as int),
        step.run.ip < step.code.code.units.len(),
        step.code.code.sealed()[step.run.ip as int] == unit(Op::LoadLocal, 0, slot),
    ensures
        step.loads(slot as int),
{
    lemma_is_at(step.run, step.code, Op::LoadLocal, 0, slot);
    lemma_counted(step.run);
    lemma_steps(
        step.before,
        step.after,
        step.run,
        step.next,
        step.outcome,
        Op::LoadLocal,
        slot as int,
    );
}

/// A call that was emitted is what runs there.
pub proof fn lemma_calls(run: Run, vm: Vm, t: State, code: State, signature: Seq<char>, arity: u8)
    requires
        runs(run, code),
        frame::follows(t, code),
        frame::orderly(t.code),
        run.ip + 1 < t.code.units.len(),
        t.code.sealed()[run.ip as int] == unit(Op::Call, 1, arity),
        t.code.sealed()[run.ip + 1] < t.methods.len(),
        t.methods[t.code.sealed()[run.ip + 1] as int] == signature,
    ensures
        calls(run, vm, code, signature, arity as int),
{
    lemma_unit_stays(t, code, run.ip as int);
    lemma_unit_stays(t, code, run.ip + 1);
    lemma_is_at(run, code, Op::Call, 1, arity);
    assert(run.unit(run.ip + 1) == code.code.sealed()[run.ip + 1]);
    lemma_signature_stays(t, code, t.code.sealed()[run.ip + 1] as int);
}

/// A jump that a condition decides leads where it is to, or goes on behind.
pub proof fn lemma_jump_if(step: Step, place: int, target: int)
    requires
        step.runs_at(place),
        0 <= place,
        place + 2 <= step.code.code.units.len(),
        0 <= target <= step.code.code.units.len(),
        step.code.code.sealed()[place] == unit(Op::JumpIf, 1, 0),
        place + 2 + step.code.code.sealed()[place + 1] == target,
        step.before.stack@.len() > 0,
    ensures
        step.goes_to(
            if step.before.stack@.last().spec_is_falsy() {
                target
            } else {
                place + 2
            },
            step.before.stack@.drop_last(),
        ),
{
    lemma_is_at(step.run, step.code, Op::JumpIf, 1, 0);
    lemma_counted(step.run);
    assert(step.run.unit(place + 1) == step.code.code.sealed()[place + 1]);
    lemma_steps(step.before, step.after, step.run, step.next, step.outcome, Op::JumpIf, 0);
    assert(crate::vm::fields::dropped(step.before.stack@, 1) =~= step.before.stack@.drop_last());
    assert(crate::vm::fields::from_top(step.before.stack@, 0) == step.before.stack@.last());
}

/// A jump back leads where it is to.
proof fn lemma_loop_back(step: Step, place: int, target: int)
    requires
        step.runs_at(place),
        0 <= target <= place,
        place + 2 <= step.code.code.units.len(),
        step.code.code.sealed()[place] == unit(Op::Loop, 1, 0),
        place + 2 - step.code.code.sealed()[place + 1] == target,
    ensures
        step.goes_to(target, step.before.stack@),
{
    lemma_is_at(step.run, step.code, Op::Loop, 1, 0);
    lemma_counted(step.run);
    assert(step.run.unit(place + 1) == step.code.code.sealed()[place + 1]);
    lemma_steps(step.before, step.after, step.run, step.next, step.outcome, Op::Loop, 0);
}

/// A jump ahead leads where it is to.
pub proof fn lemma_jump_ahead(step: Step, place: int, target: int)
    requires
        step.runs_at(place),
        0 <= place,
        place + 2 <= step.code.code.units.len(),
        0 <= target <= step.code.code.units.len(),
        step.code.code.sealed()[place] == unit(Op::Jump, 1, 0),
        place + 2 + step.code.code.sealed()[place + 1] == target,
    ensures
        step.goes_to(target, step.before.stack@),
{
    lemma_is_at(step.run, step.code, Op::Jump, 1, 0);
    lemma_counted(step.run);
    assert(step.run.unit(place + 1) == step.code.code.sealed()[place + 1]);
    lemma_steps(step.before, step.after, step.run, step.next, step.outcome, Op::Jump, 0);
}

/// Where the condition of a loop ends.
pub open spec fn while_tested(x: Source, s: State, limit: nat) -> State {
    grammar::condition(
        x,
        s,
        limit,
        "Expect '(' after 'while'."@,
        "Expect ')' after while condition."@,
    )
}

/// A loop tests its condition before each time round. Where the value that the
/// condition left is false or null, running goes on behind the loop, and
/// otherwise in its body; behind the body it goes on at the condition again.
pub proof fn law_while_tests_before_each_time(x: Source, s: State, limit: nat, step: Step)
    requires
        frame::orderly(s.code),
        grammar::while_statement(x, s, limit).fault is None,
        frame::follows(grammar::while_statement(x, s, limit), step.code),
        runs(step.run, step.code),
    ensures
        ({
            let start = s.code.units.len() as int;
            let test = while_tested(x, s, limit).code.units.len() as int;
            let end = grammar::while_statement(x, s, limit).code.units.len() as int;
            &&& start <= test
            &&& test + 2 <= end - 2
            &&& step.runs_at(test) && step.before.stack@.len() > 0 ==> step.goes_to(
                if step.before.stack@.last().spec_is_falsy() {
                    end
                } else {
                    test + 2
                },
                step.before.stack@.drop_last(),
            )
            &&& step.runs_at(end - 2) ==> step.goes_to(start, step.before.stack@)
        }),
{
    broadcast use frame::group_follows;

    let start = s.code.units.len() as int;
    let c = while_tested(x, s, limit);
    frame::lemma_condition(
        x,
        s,
        limit,
        "Expect '(' after 'while'."@,
        "Expect ')' after while condition."@,
    );
    let line = grammar::line_of(c);
    let begun = grammar::emit_jump(c, Op::JumpIf, line);
    let opened = grammar::skip_lines(x, begun);
    frame::law_statement_adds(x, opened, limit);
    let body = grammar::statement(x, opened, limit);
    let back = grammar::emit_loop(body, start, grammar::line_of(body));
    let end = grammar::while_statement(x, s, limit);
    assert(end == grammar::patch(back, grammar::jump_place(c)));
    assert(back.fault is None) by {
        reveal(grammar::patch);
    }
    lemma_unfailed(body, back);
    lemma_unfailed(begun, body);
    lemma_unfailed(c, begun);
    lemma_ordered(s, c);
    lemma_ordered(c, begun);
    lemma_ordered(begun, body);
    lemma_ordered(body, back);
    lemma_emits_loop(body, start, grammar::line_of(body));
    lemma_jump_leads(c, Op::JumpIf, line, back);
    lemma_emits_jump(c, Op::JumpIf, line);
    frame::lemma_complete_is_sealed(end.code);
    frame::lemma_complete_is_sealed(body.code);
    let test = c.code.units.len() as int;
    let last = body.code.units.len() as int;
    lemma_unit_stays(end, step.code, test);
    lemma_unit_stays(end, step.code, test + 1);
    lemma_unit_stays(end, step.code, last);
    lemma_unit_stays(end, step.code, last + 1);
    if step.runs_at(test) && step.before.stack@.len() > 0 {
        lemma_jump_if(step, test, last + 2);
    }
    if step.runs_at(last) {
        lemma_loop_back(step, last, start);
    }
}

/// What follows has failed if what it follows has.
pub proof fn lemma_unfailed(s: State, t: State)
    requires
        frame::follows(s, t),
        t.fault is None,
    ensures
        s.fault is None,
{
    reveal(frame::follows);
}

/// What follows is as orderly, and no shorter.
pub proof fn lemma_ordered(s: State, t: State)
    requires
        frame::follows(s, t),
        t.fault is None,
        frame::orderly(s.code),
    ensures
        s.fault is None,
        frame::orderly(t.code),
        s.code.units.len() <= t.code.units.len(),
{
    reveal(frame::follows);
}

/// Where the sequence of a loop over one has been read.
pub open spec fn for_sequence(x: Source, s: State, limit: nat) -> State {
    let head = grammar::skip_lines(
        x,
        grammar::consume(
            x,
            grammar::for_head(x, s),
            TokenKind::In,
            "Expect 'in' after loop variable."@,
        ),
    );
    grammar::expression(x, head, limit)
}

/// The name of the variable of a loop over a sequence.
pub open spec fn for_name(x: Source, s: State) -> Seq<char> {
    grammar::word(x, grammar::for_head(x, s).previous)
}

/// Where a loop over a sequence is once its variable is bound, and its body
/// begins.
pub open spec fn for_bound(x: Source, s: State, limit: nat) -> State {
    let e = for_sequence(x, s, limit);
    let slot = e.locals.len() as int;
    let set = grammar::for_setup(x, e);
    let line = grammar::line_of(set);
    grammar::for_bind(grammar::for_advance(set, slot, line), slot, for_name(x, s), line)
}

/// Where the body of a loop over a sequence ends.
pub open spec fn for_done(x: Source, s: State, limit: nat) -> State {
    grammar::end_scope(
        grammar::statement(x, grammar::skip_lines(x, for_bound(x, s, limit)), limit),
    )
}

/// What a loop over a sequence does at each place of its code. The sequence is
/// in the first local behind those there were, and how far iterating it has got
/// in the next, which is null at first. Each time round, `iterate(_)` is called
/// on the sequence with that; what it gives is kept there, and if it is false or
/// null running goes on behind the loop. Otherwise `iteratorValue(_)` is called
/// on the sequence with what is kept there, and what that gives is the loop's
/// variable. Behind the body, running goes on where `iterate(_)` is called.
pub open spec fn for_places(x: Source, s: State, limit: nat, step: Step) -> bool {
    let e = for_sequence(x, s, limit);
    let slot = e.locals.len() as int;
    let start = e.code.units.len() as int + 1;
    let last = for_done(x, s, limit).code.units.len() as int;
    let stack = step.before.stack@;
    &&& s.code.units.len() < start
    &&& start + 11 == for_bound(x, s, limit).code.units.len()
    &&& start + 11 <= last
    &&& last + 2 <= grammar::for_statement(x, s, limit).code.units.len()
    &&& step.runs_at(start - 1) ==> step.goes_to(start, stack.push(Value::null()))
    &&& step.runs_at(start) ==> step.loads(slot)
    &&& step.runs_at(start + 1) ==> step.loads(slot + 1)
    &&& step.run.ip == start + 2 ==> calls(
        step.run,
        step.before,
        step.code,
        "iterate(_)"@,
        1,
    )
    &&& step.runs_at(start + 4) && step.run.base + slot + 1 < stack.len() ==> step.goes_to(
        start + 5,
        stack.update(step.run.base + slot + 1, stack.last()),
    )
    &&& step.runs_at(start + 5) && stack.len() > 0 ==> step.goes_to(
        if stack.last().spec_is_falsy() {
            last + 2
        } else {
            start + 7
        },
        stack.drop_last(),
    )
    &&& step.runs_at(start + 7) ==> step.loads(slot)
    &&& step.runs_at(start + 8) ==> step.loads(slot + 1)
    &&& step.run.ip == start + 9 ==> calls(
        step.run,
        step.before,
        step.code,
        "iteratorValue(_)"@,
        1,
    )
    &&& step.runs_at(last) ==> step.goes_to(start, stack)
}

/// Nothing is emitted where a local is declared.
proof fn lemma_local_adds(s: State, name: Seq<char>)
    requires
        grammar::add_local(s, name).fault is None,
    ensures
        s.fault is None,
        s.locals.len() < u8::MAX,
        grammar::add_local(s, name).code == s.code,
        grammar::add_local(s, name).methods == s.methods,
        grammar::add_local(s, name).locals == s.locals.push(
            (grammar::LocalModel { name, depth: s.depth }),
        ),
{
    reveal(grammar::add_local);
}

/// Which locals there are does not depend on what was emitted.
proof fn lemma_locals_stay(s: State, op: Op, byte: u8, line: u16, signature: Seq<char>, arity: nat)
    ensures
        grammar::emit_op(s, op, line).locals == s.locals,
        grammar::emit_with_byte(s, op, byte, line).locals == s.locals,
        grammar::emit_call(s, signature, arity, line).locals == s.locals,
        grammar::emit_jump(s, op, line).locals == s.locals,
        grammar::begin_scope(s).locals == s.locals,
        grammar::begin_scope(s).code == s.code,
        grammar::begin_scope(s).methods == s.methods,
        grammar::begin_scope(s).fault == s.fault,
{
    reveal(grammar::emit_op);
    reveal(grammar::emit_with_byte);
    reveal(grammar::emit_call);
    reveal(grammar::emit_jump);
    reveal(grammar::begin_scope);
}

/// Asking for a token changes neither code nor locals.
proof fn lemma_consume_keeps(x: Source, s: State, kind: TokenKind, message: Seq<char>)
    ensures
        grammar::consume(x, s, kind, message).code == s.code,
        grammar::consume(x, s, kind, message).locals == s.locals,
        grammar::consume(x, s, kind, message).methods == s.methods,
        grammar::consume(x, s, kind, message).fault is None ==> s.fault is None,
{
    reveal(grammar::consume);
    reveal(grammar::advance);
}

/// The units of the code that asks for the next element, and binds it.
proof fn lemma_for_units(set: State, slot: int, name: Seq<char>, line: u16)
    requires
        frame::orderly(set.code),
        0 <= slot < 255,
        grammar::for_bind(
            grammar::for_advance(set, slot, line),
            slot,
            name,
            line,
        ).fault is None,
    ensures
        ({
            let asked = grammar::for_advance(set, slot, line);
            let bound = grammar::for_bind(asked, slot, name, line);
            let at = set.code.units.len() as int;
            let units = bound.code.sealed();
            &&& set.fault is None
            &&& asked.fault is None
            &&& frame::orderly(asked.code)
            &&& frame::orderly(bound.code)
            &&& asked.code.units.len() == at + 5
            &&& bound.code.units.len() == at + 11
            &&& units[at] == unit(Op::LoadLocal, 0, slot as u8)
            &&& units[at + 1] == unit(Op::LoadLocal, 0, (slot + 1) as u8)
            &&& units[at + 2] == unit(Op::Call, 1, 1)
            &&& units[at + 3] < bound.methods.len()
            &&& bound.methods[units[at + 3] as int] == "iterate(_)"@
            &&& units[at + 4] == unit(Op::StoreLocal, 0, (slot + 1) as u8)
            &&& units[at + 5] == unit(Op::JumpIf, 1, 0)
            &&& units[at + 7] == unit(Op::LoadLocal, 0, slot as u8)
            &&& units[at + 8] == unit(Op::LoadLocal, 0, (slot + 1) as u8)
            &&& units[at + 9] == unit(Op::Call, 1, 1)
            &&& units[at + 10] < bound.methods.len()
            &&& bound.methods[units[at + 10] as int] == "iteratorValue(_)"@
            &&& bound.locals == set.locals.push(bound.locals.last())
            &&& bound.locals.last().name == name
            &&& frame::follows(grammar::emit_jump(asked, Op::JumpIf, line), bound)
            &&& frame::follows(set, bound)
        }),
{
    let a1 = grammar::emit_with_byte(set, Op::LoadLocal, slot as u8, line);
    let a2 = grammar::emit_with_byte(a1, Op::LoadLocal, (slot + 1) as u8, line);
    let a3 = grammar::emit_call(a2, "iterate(_)"@, 1, line);
    let asked = grammar::emit_with_byte(a3, Op::StoreLocal, (slot + 1) as u8, line);
    let b1 = grammar::emit_jump(asked, Op::JumpIf, line);
    let b2 = grammar::begin_scope(b1);
    let b3 = grammar::emit_with_byte(b2, Op::LoadLocal, slot as u8, line);
    let b4 = grammar::emit_with_byte(b3, Op::LoadLocal, (slot + 1) as u8, line);
    let bound = grammar::for_bind(asked, slot, name, line);
    let b5 = grammar::emit_call(b4, "iteratorValue(_)"@, 1, line);
    frame::lemma_follows_emit_with_byte(set, Op::LoadLocal, slot as u8, line);
    frame::lemma_follows_emit_with_byte(a1, Op::LoadLocal, (slot + 1) as u8, line);
    frame::lemma_follows_emit_call(a2, "iterate(_)"@, 1, line);
    frame::lemma_follows_emit_with_byte(a3, Op::StoreLocal, (slot + 1) as u8, line);
    frame::lemma_follows_emit_jump(asked, Op::JumpIf, line);
    frame::lemma_follows_begin_scope(b1);
    frame::lemma_follows_emit_with_byte(b2, Op::LoadLocal, slot as u8, line);
    frame::lemma_follows_emit_with_byte(b3, Op::LoadLocal, (slot + 1) as u8, line);
    frame::lemma_follows_emit_call(b4, "iteratorValue(_)"@, 1, line);
    frame::lemma_follows_add_local(b5, name);
    frame::lemma_follows_on(b1, b2, b3);
    frame::lemma_follows_on(b1, b3, b4);
    frame::lemma_follows_on(b1, b4, b5);
    frame::lemma_follows_on(b1, b5, bound);
    frame::lemma_follows_on(asked, b1, b5);
    frame::lemma_follows_on(a3, asked, b5);
    frame::lemma_follows_on(a2, a3, b5);
    frame::lemma_follows_on(a1, a2, b5);
    frame::lemma_follows_on(set, a1, b5);
    frame::lemma_follows_on(set, b5, bound);
    lemma_local_adds(b5, name);
    lemma_unfailed(b4, b5);
    lemma_unfailed(b3, b4);
    lemma_unfailed(b2, b3);
    lemma_unfailed(b1, b2);
    lemma_unfailed(asked, b1);
    lemma_unfailed(a3, asked);
    lemma_unfailed(a2, a3);
    lemma_unfailed(a1, a2);
    lemma_unfailed(set, a1);
    lemma_emits_byte(set, Op::LoadLocal, slot as u8, line);
    lemma_emits_byte(a1, Op::LoadLocal, (slot + 1) as u8, line);
    lemma_emits_call(a2, "iterate(_)"@, 1, line);
    lemma_emits_byte(a3, Op::StoreLocal, (slot + 1) as u8, line);
    lemma_emits_jump(asked, Op::JumpIf, line);
    lemma_locals_stay(b1, Op::Null, 0, line, name, 0);
    lemma_emits_byte(b2, Op::LoadLocal, slot as u8, line);
    lemma_emits_byte(b3, Op::LoadLocal, (slot + 1) as u8, line);
    lemma_emits_call(b4, "iteratorValue(_)"@, 1, line);
    frame::lemma_complete_is_sealed(set.code);
    frame::lemma_complete_is_sealed(a2.code);
    frame::lemma_complete_is_sealed(a3.code);
    frame::lemma_complete_is_sealed(b4.code);
    frame::lemma_complete_is_sealed(asked.code);
    let at = set.code.units.len() as int;
    lemma_signature_stays(a3, b5, a3.code.sealed()[at + 3] as int);
    lemma_locals_stay(set, Op::LoadLocal, slot as u8, line, name, 0);
    lemma_locals_stay(a1, Op::LoadLocal, (slot + 1) as u8, line, name, 0);
    lemma_locals_stay(a2, Op::Null, 0, line, "iterate(_)"@, 1);
    lemma_locals_stay(a3, Op::StoreLocal, (slot + 1) as u8, line, name, 0);
    lemma_locals_stay(asked, Op::JumpIf, 0, line, name, 0);
    lemma_locals_stay(b2, Op::LoadLocal, slot as u8, line, name, 0);
    lemma_locals_stay(b3, Op::LoadLocal, (slot + 1) as u8, line, name, 0);
    lemma_locals_stay(b4, Op::Null, 0, line, "iteratorValue(_)"@, 1);
}

/// How the code of a loop over a sequence comes about.
proof fn lemma_for_chain(x: Source, s: State, limit: nat)
    requires
        grammar::for_statement(x, s, limit).fault is None,
    ensures
        ({
            let e = for_sequence(x, s, limit);
            let set = grammar::for_setup(x, e);
            let line = grammar::line_of(set);
            let asked = grammar::for_advance(set, e.locals.len() as int, line);
            let bound = for_bound(x, s, limit);
            let done = for_done(x, s, limit);
            let back = grammar::emit_loop(
                done,
                set.code.units.len() as int,
                grammar::line_of(done),
            );
            let patched = grammar::patch(back, grammar::jump_place(asked));
            &&& grammar::for_statement(x, s, limit) == grammar::end_scope(patched)
            &&& patched.fault is None
            &&& back.fault is None
            &&& done.fault is None
            &&& bound.fault is None
            &&& frame::follows(s, e)
            &&& frame::follows(bound, done)
            &&& frame::follows(done, back)
            &&& frame::follows(patched, grammar::for_statement(x, s, limit))
        }),
{
    let head0 = grammar::begin_scope(s);
    let head1 = grammar::consume(x, head0, TokenKind::LeftParen, "Expect '(' after 'for'."@);
    let head2 = grammar::for_head(x, s);
    let head3 = grammar::consume(x, head2, TokenKind::In, "Expect 'in' after loop variable."@);
    let head = grammar::skip_lines(x, head3);
    frame::lemma_follows_begin_scope(s);
    frame::lemma_follows_consume(x, head0, TokenKind::LeftParen, "Expect '(' after 'for'."@);
    frame::lemma_follows_consume(
        x,
        head1,
        TokenKind::Name,
        "Expect for loop variable name."@,
    );
    frame::lemma_follows_consume(x, head2, TokenKind::In, "Expect 'in' after loop variable."@);
    frame::lemma_follows_skip_lines(x, head3);
    frame::law_expression_adds(x, head, limit);
    let e = for_sequence(x, s, limit);
    frame::lemma_follows_on(s, head0, head1);
    frame::lemma_follows_on(s, head1, head2);
    frame::lemma_follows_on(s, head2, head3);
    frame::lemma_follows_on(s, head3, head);
    frame::lemma_follows_on(s, head, e);
    let set = grammar::for_setup(x, e);
    let line = grammar::line_of(set);
    let asked = grammar::for_advance(set, e.locals.len() as int, line);
    let bound = for_bound(x, s, limit);
    let opened = grammar::skip_lines(x, bound);
    let body = grammar::statement(x, opened, limit);
    let done = for_done(x, s, limit);
    let start = set.code.units.len() as int;
    let back = grammar::emit_loop(done, start, grammar::line_of(done));
    let patched = grammar::patch(back, grammar::jump_place(asked));
    frame::lemma_follows_skip_lines(x, bound);
    frame::law_statement_adds(x, opened, limit);
    frame::lemma_follows_end_scope(body);
    frame::lemma_follows_on(bound, opened, body);
    frame::lemma_follows_on(bound, body, done);
    frame::lemma_follows_emit_loop(done, start, grammar::line_of(done));
    frame::lemma_follows_end_scope(patched);
    let end = grammar::for_statement(x, s, limit);
    assert(head.fault is None);
    assert(opened.fault is None);
    assert(end == grammar::end_scope(patched));
    lemma_unfailed(patched, end);
    assert(back.fault is None) by {
        reveal(grammar::patch);
    }
    lemma_unfailed(done, back);
    lemma_unfailed(bound, done);
}

/// What a loop over a sequence does at each place of its code.
pub proof fn law_for_goes_by_iterating(x: Source, s: State, limit: nat, step: Step)
    requires
        frame::orderly(s.code),
        grammar::for_statement(x, s, limit).fault is None,
        frame::follows(grammar::for_statement(x, s, limit), step.code),
        runs(step.run, step.code),
    ensures
        for_places(x, s, limit, step),
        grammar::resolve_local(for_bound(x, s, limit).locals, for_name(x, s)) == Some(
            for_sequence(x, s, limit).locals.len() as int + 2,
        ),
{
    lemma_for_chain(x, s, limit);
    let name = for_name(x, s);
    let e = for_sequence(x, s, limit);
    let slot = e.locals.len() as int;
    let set = grammar::for_setup(x, e);
    let line = grammar::line_of(set);
    let asked = grammar::for_advance(set, slot, line);
    let bound = for_bound(x, s, limit);
    let done = for_done(x, s, limit);
    let start = set.code.units.len() as int;
    let back = grammar::emit_loop(done, start, grammar::line_of(done));
    let patched = grammar::patch(back, grammar::jump_place(asked));
    let end = grammar::for_statement(x, s, limit);
    lemma_for_set(x, s, e, bound, name);
    lemma_for_units(set, slot, name, line);
    lemma_ordered(bound, done);
    lemma_emits_loop(done, start, grammar::line_of(done));
    let begun = grammar::emit_jump(asked, Op::JumpIf, line);
    frame::lemma_follows_on(begun, bound, done);
    frame::lemma_follows_on(begun, done, back);
    frame::lemma_follows_on(bound, done, back);
    lemma_jump_leads(asked, Op::JumpIf, line, back);
    frame::lemma_follows_on(patched, end, step.code);
    lemma_ordered(patched, end);
    lemma_ordered(patched, step.code);
    frame::lemma_complete_is_sealed(set.code);
    frame::lemma_complete_is_sealed(done.code);
    frame::lemma_complete_is_sealed(bound.code);
    let last = done.code.units.len() as int;
    assert forall|i: int| 0 <= i < last + 2 implies #[trigger] step.code.code.sealed()[i]
        == patched.code.sealed()[i] by {
        lemma_unit_stays(patched, step.code, i);
    }
    assert forall|i: int| 0 <= i < start + 11 && i != start + 6 implies #[trigger] step.code.code.sealed()[i]
        == bound.code.sealed()[i] by {
        lemma_unit_stays(bound, back, i);
        assert(step.code.code.sealed()[i] == patched.code.sealed()[i]);
    }
    lemma_unit_stays(set, bound, start - 1);
    assert(step.code.code.sealed()[last] == patched.code.sealed()[last]);
    assert(step.code.code.sealed()[last + 1] == patched.code.sealed()[last + 1]);
    assert(step.code.code.sealed()[start + 6] == patched.code.sealed()[start + 6]);
    lemma_signature_stays(bound, back, bound.code.sealed()[start + 3] as int);
    lemma_signature_stays(bound, back, bound.code.sealed()[start + 10] as int);
    lemma_for_step(step, slot, start, last, patched);
    assert(bound.locals[slot + 2] == bound.locals.last());
    assert(bound.locals.len() == slot + 3);
}

/// What a loop over a sequence keeps, and how it begins.
proof fn lemma_for_set(x: Source, s: State, e: State, bound: State, name: Seq<char>)
    requires
        frame::orderly(s.code),
        frame::follows(s, e),
        bound == grammar::for_bind(
            grammar::for_advance(
                grammar::for_setup(x, e),
                e.locals.len() as int,
                grammar::line_of(grammar::for_setup(x, e)),
            ),
            e.locals.len() as int,
            name,
            grammar::line_of(grammar::for_setup(x, e)),
        ),
        bound.fault is None,
    ensures
        ({
            let set = grammar::for_setup(x, e);
            &&& e.fault is None
            &&& set.fault is None
            &&& frame::orderly(e.code)
            &&& frame::orderly(set.code)
            &&& s.code.units.len() <= e.code.units.len()
            &&& set.code.units.len() == e.code.units.len() + 1
            &&& set.code.sealed()[e.code.units.len() as int] == unit(Op::Null, 0, 0)
            &&& set.locals.len() == e.locals.len() + 2
            &&& e.locals.len() < 254
        }),
{
    let s1 = grammar::add_local(e, "seq "@);
    let line1 = grammar::line_of(s1);
    let s2 = grammar::emit_op(s1, Op::Null, line1);
    let s3 = grammar::add_local(s2, "iter "@);
    let set = grammar::for_setup(x, e);
    lemma_for_failed(set, e.locals.len() as int, name, grammar::line_of(set));
    lemma_consume_keeps(x, s3, TokenKind::RightParen, "Expect ')' after loop expression."@);
    lemma_local_adds(s2, "iter "@);
    frame::lemma_follows_emit_op(s1, Op::Null, line1);
    lemma_unfailed(s1, s2);
    lemma_local_adds(e, "seq "@);
    lemma_ordered(s, e);
    lemma_emits_op(s1, Op::Null, line1);
    lemma_locals_stay(s1, Op::Null, 0, line1, name, 0);
    frame::lemma_complete_is_sealed(e.code);
}

/// Where a loop over a sequence has failed, its variable is not bound.
proof fn lemma_for_failed(set: State, slot: int, name: Seq<char>, line: u16)
    requires
        grammar::for_bind(
            grammar::for_advance(set, slot, line),
            slot,
            name,
            line,
        ).fault is None,
    ensures
        set.fault is None,
{
    broadcast use grammar::group_failed;

}

/// What the code of a loop over a sequence does, where its units are like this.
proof fn lemma_for_step(step: Step, slot: int, start: int, last: int, patched: State)
    requires
        runs(step.run, step.code),
        0 <= slot < 254,
        0 < start,
        start + 11 <= last,
        last + 2 <= step.code.code.units.len(),
        frame::orderly(patched.code),
        frame::follows(patched, step.code),
        patched.code.units.len() == last + 2,
        forall|i: int|
            0 <= i < last + 2 ==> #[trigger] step.code.code.sealed()[i]
                == patched.code.sealed()[i],
        ({
            let units = step.code.code.sealed();
            &&& units[start - 1] == unit(Op::Null, 0, 0)
            &&& units[start] == unit(Op::LoadLocal, 0, slot as u8)
            &&& units[start + 1] == unit(Op::LoadLocal, 0, (slot + 1) as u8)
            &&& units[start + 2] == unit(Op::Call, 1, 1)
            &&& units[start + 3] < patched.methods.len()
            &&& patched.methods[units[start + 3] as int] == "iterate(_)"@
            &&& units[start + 4] == unit(Op::StoreLocal, 0, (slot + 1) as u8)
            &&& units[start + 5] == unit(Op::JumpIf, 1, 0)
            &&& start + 7 + units[start + 6] == last + 2
            &&& units[start + 7] == unit(Op::LoadLocal, 0, slot as u8)
            &&& units[start + 8] == unit(Op::LoadLocal, 0, (slot + 1) as u8)
            &&& units[start + 9] == unit(Op::Call, 1, 1)
            &&& units[start + 10] < patched.methods.len()
            &&& patched.methods[units[start + 10] as int] == "iteratorValue(_)"@
            &&& units[last] == unit(Op::Loop, 1, 0)
            &&& last + 2 - units[last + 1] == start
        }),
    ensures
        ({
            let stack = step.before.stack@;
            &&& step.runs_at(start - 1) ==> step.goes_to(start, stack.push(Value::null()))
            &&& step.runs_at(start) ==> step.loads(slot)
            &&& step.runs_at(start + 1) ==> step.loads(slot + 1)
            &&& step.run.ip == start + 2 ==> calls(
                step.run,
                step.before,
                step.code,
                "iterate(_)"@,
                1,
            )
            &&& step.runs_at(start + 4) && step.run.base + slot + 1 < stack.len()
                ==> step.goes_to(
                start + 5,
                stack.update(step.run.base + slot + 1, stack.last()),
            )
            &&& step.runs_at(start + 5) && stack.len() > 0 ==> step.goes_to(
                if stack.last().spec_is_falsy() {
                    last + 2
                } else {
                    start + 7
                },
                stack.drop_last(),
            )
            &&& step.runs_at(start + 7) ==> step.loads(slot)
            &&& step.runs_at(start + 8) ==> step.loads(slot + 1)
            &&& step.run.ip == start + 9 ==> calls(
                step.run,
                step.before,
                step.code,
                "iteratorValue(_)"@,
                1,
            )
            &&& step.runs_at(last) ==> step.goes_to(start, stack)
        }),
{
    let stack = step.before.stack@;
    lemma_counted(step.run);
    if step.runs_at(start - 1) {
        lemma_is_at(step.run, step.code, Op::Null, 0, 0);
        lemma_steps(step.before, step.after, step.run, step.next, step.outcome, Op::Null, 0);
    }
    if step.runs_at(start) || step.runs_at(start + 7) {
        lemma_loads(step, slot as u8);
    }
    if step.runs_at(start + 1) || step.runs_at(start + 8) {
        lemma_loads(step, (slot + 1) as u8);
    }
    if step.run.ip == start + 2 {
        lemma_calls(step.run, step.before, patched, step.code, "iterate(_)"@, 1);
    }
    if step.run.ip == start + 9 {
        lemma_calls(step.run, step.before, patched, step.code, "iteratorValue(_)"@, 1);
    }
    if step.runs_at(start + 4) {
        lemma_is_at(step.run, step.code, Op::StoreLocal, 0, (slot + 1) as u8);
        lemma_steps(
            step.before,
            step.after,
            step.run,
            step.next,
            step.outcome,
            Op::StoreLocal,
            slot + 1,
        );
    }
    if step.runs_at(start + 5) && stack.len() > 0 {
        lemma_jump_if(step, start + 5, last + 2);
    }
    if step.runs_at(last) {
        lemma_loop_back(step, last, start);
    }
}

/// Code that was compiled holds all its statements: a machine that runs it runs
/// what was compiled up to its last instruction.
pub proof fn law_compiled_code_runs(
    x: Source,
    methods: Seq<Seq<char>>,
    scope: crate::corelib::install::Scope,
    run: Run,
)
    requires
        grammar::compiled(x, methods, scope).fault is None,
        run.chunk.code@ == grammar::compiled(x, methods, scope).code.units,
    ensures
        runs(run, compiled_statements(x, methods, scope)),
{
    let first = grammar::opened(x, grammar::initial(methods, scope));
    let begun = grammar::skip_lines(x, first);
    let t = compiled_statements(x, methods, scope);
    frame::lemma_follows_skip_lines(x, first);
    frame::law_program_adds(x, begun, x.tokens.len());
    frame::lemma_follows_on(first, begun, t);
    let line = words::spec_clamp_line(grammar::current(x, t).line);
    frame::lemma_follows_emit_op(t, Op::End, line);
    lemma_unfailed(t, grammar::emit_op(t, Op::End, line));
    lemma_ordered(first, t);
    reveal(grammar::emit_op);
    frame::lemma_op(t.code, Op::End, line);
    frame::lemma_complete_is_sealed(t.code);
}

/// Where compiling is once every statement was read.
pub open spec fn compiled_statements(
    x: Source,
    methods: Seq<Seq<char>>,
    scope: crate::corelib::install::Scope,
) -> State {
    let begun = grammar::skip_lines(x, grammar::opened(x, grammar::initial(methods, scope)));
    grammar::program(x, begun, x.tokens.len())
}

/// One time round a loop over a sequence, from where it asks for the next
/// element to where it asks for that element.
pub struct Turn {
    /// The sequence is loaded.
    pub first: Step,
    /// How far iterating has got is loaded.
    pub second: Step,
    /// What `iterate(_)` gave is kept.
    pub third: Step,
    /// It decides whether to go on.
    pub fourth: Step,
    /// The sequence is loaded.
    pub fifth: Step,
    /// How far iterating has got is loaded.
    pub sixth: Step,
    /// What `iterate(_)` gave.
    pub iterator: Value,
}

impl Turn {
    /// Whether the machine goes through a loop like this, where `iterate(_)`
    /// gave something, and left what it gave in the place of its receiver and
    /// argument.
    pub open spec fn goes_round(self, code: State, start: int) -> bool {
        &&& self.first.runs_at(start)
        &&& self.second.runs_at(start + 1)
        &&& self.third.runs_at(start + 4)
        &&& self.fourth.runs_at(start + 5)
        &&& self.fifth.runs_at(start + 7)
        &&& self.sixth.runs_at(start + 8)
        &&& self.first.code == code && self.second.code == code && self.third.code == code
        &&& self.fourth.code == code && self.fifth.code == code && self.sixth.code == code
        &&& self.second.run == self.first.next && self.second.before == self.first.after
        &&& self.third.run == (Run { ip: (start + 4) as usize, ..self.first.run })
        &&& self.third.before.stack@ == self.first.before.stack@.push(self.iterator)
        &&& self.fourth.run == self.third.next && self.fourth.before == self.third.after
        &&& self.fifth.run == self.fourth.next && self.fifth.before == self.fourth.after
        &&& self.sixth.run == self.fifth.next && self.sixth.before == self.fifth.after
        &&& !self.iterator.spec_is_falsy()
    }
}

/// The variable of a loop over a sequence is what `iteratorValue(_)` gives when
/// it is called on the sequence with what `iterate(_)` gave last, which was
/// called on the sequence with what it had given the time before.
pub proof fn law_for_binds_what_iterating_gives(x: Source, s: State, limit: nat, turn: Turn)
    requires
        frame::orderly(s.code),
        grammar::for_statement(x, s, limit).fault is None,
        frame::follows(grammar::for_statement(x, s, limit), turn.first.code),
        turn.goes_round(
            turn.first.code,
            for_sequence(x, s, limit).code.units.len() as int + 1,
        ),
        turn.first.before.stack@.len() == turn.first.run.base + for_sequence(
            x,
            s,
            limit,
        ).locals.len() + 2,
    ensures
        ({
            let slot = for_sequence(x, s, limit).locals.len() as int;
            let stack = turn.first.before.stack@;
            let sequence = stack[turn.first.run.base + slot];
            let earlier = stack[turn.first.run.base + slot + 1];
            let rest = stack.take(turn.first.run.base + slot);
            let body = for_bound(x, s, limit);
            &&& turn.second.after.stack@ == stack.push(sequence).push(earlier)
            &&& calls(turn.second.next, turn.second.after, turn.first.code, "iterate(_)"@, 1)
            &&& turn.sixth.after.stack@ == rest.push(sequence).push(turn.iterator).push(
                sequence,
            ).push(turn.iterator)
            &&& calls(
                turn.sixth.next,
                turn.sixth.after,
                turn.first.code,
                "iteratorValue(_)"@,
                1,
            )
            &&& turn.sixth.next.ip + 2 == body.code.units.len()
            &&& grammar::resolve_local(body.locals, for_name(x, s)) == Some(slot + 2)
            &&& rest.push(sequence).push(turn.iterator).len() == turn.first.run.base + slot + 2
        }),
{
    let slot = for_sequence(x, s, limit).locals.len() as int;
    let base = turn.first.run.base as int;
    let stack = turn.first.before.stack@;
    law_for_goes_by_iterating(x, s, limit, turn.first);
    law_for_goes_by_iterating(x, s, limit, turn.second);
    law_for_goes_by_iterating(x, s, limit, turn.third);
    law_for_goes_by_iterating(x, s, limit, turn.fourth);
    law_for_goes_by_iterating(x, s, limit, turn.fifth);
    law_for_goes_by_iterating(x, s, limit, turn.sixth);
    let asking = Step { run: turn.second.next, before: turn.second.after, ..turn.second };
    law_for_goes_by_iterating(x, s, limit, asking);
    let binding = Step { run: turn.sixth.next, before: turn.sixth.after, ..turn.sixth };
    law_for_goes_by_iterating(x, s, limit, binding);
    let kept = stack.push(turn.iterator).update(base + slot + 1, turn.iterator);
    assert(turn.fourth.before.stack@ == kept);
    assert(kept.last() == turn.iterator);
    assert(kept.drop_last() =~= stack.take(base + slot).push(stack[base + slot]).push(
        turn.iterator,
    ));
}

} // verus!
