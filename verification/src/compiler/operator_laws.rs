//! What running the code of an expression or a choice does: which way it goes,
//! what it calls, and with which variables.

use vstd::prelude::*;

use super::flow_laws;
use super::flow_laws::Step;
use super::frame;
use super::grammar;
use super::grammar::{Source, State};
use super::words;
use super::words::Precedence;
use crate::bytecode::Op;
use crate::lexer::TokenKind;

verus! {

/// A jump is made to lead to the end of the code, and nothing else changes.
proof fn lemma_patches(t: State, at: int)
    requires
        t.fault is None,
        frame::orderly(t.code),
        0 <= at < t.code.units.len(),
        grammar::patch(t, at).fault is None,
    ensures
        ({
            let end = grammar::patch(t, at);
            &&& frame::orderly(end.code)
            &&& end.methods == t.methods
            &&& end.code.units.len() == t.code.units.len()
            &&& end.code.sealed() == t.code.sealed().update(at, end.code.sealed()[at])
            &&& at + 1 + end.code.sealed()[at] == t.code.units.len()
        }),
{
    reveal(grammar::patch);
    frame::lemma_complete_is_sealed(t.code);
    assert(grammar::patch(t, at).code.sealed() =~= t.code.sealed().update(
        at,
        grammar::patch(t, at).code.sealed()[at],
    ));
}

/// Where the condition of a choice ends.
pub open spec fn if_tested(x: Source, s: State, limit: nat) -> State {
    grammar::condition(
        x,
        s,
        limit,
        "Expect '(' after 'if'."@,
        "Expect ')' after if condition."@,
    )
}

/// Where what a condition decides ends.
pub open spec fn if_chosen(x: Source, s: State, limit: nat) -> State {
    let c = if_tested(x, s, limit);
    let t = grammar::skip_lines(x, grammar::emit_jump(c, Op::JumpIf, grammar::line_of(c)));
    grammar::statement(x, t, limit)
}

/// A choice runs one of its branches. Where the value that the condition left
/// is neither false nor null, running goes on in the first branch, and behind
/// it past the second; otherwise it goes on in the second, or behind the first
/// where there is no second.
pub proof fn law_if_runs_one_branch(x: Source, s: State, limit: nat, step: Step)
    requires
        frame::orderly(s.code),
        grammar::if_statement(x, s, limit).fault is None,
        frame::follows(grammar::if_statement(x, s, limit), step.code),
        flow_laws::runs(step.run, step.code),
    ensures
        ({
            let test = if_tested(x, s, limit).code.units.len() as int;
            let chosen = if_chosen(x, s, limit);
            let behind = chosen.code.units.len() as int;
            let end = grammar::if_statement(x, s, limit).code.units.len() as int;
            let has_else = grammar::accepts(x, chosen, TokenKind::Else);
            &&& test + 2 <= behind <= end
            &&& !has_else ==> behind == end
            &&& step.runs_at(test) && step.before.stack@.len() > 0 ==> step.goes_to(
                if !step.before.stack@.last().spec_is_falsy() {
                    test + 2
                } else if has_else {
                    behind + 2
                } else {
                    end
                },
                step.before.stack@.drop_last(),
            )
            &&& has_else && step.runs_at(behind) ==> step.goes_to(end, step.before.stack@)
        }),
{
    let c = if_tested(x, s, limit);
    frame::lemma_condition(
        x,
        s,
        limit,
        "Expect '(' after 'if'."@,
        "Expect ')' after if condition."@,
    );
    let line = grammar::line_of(c);
    let begun = grammar::emit_jump(c, Op::JumpIf, line);
    let opened = grammar::skip_lines(x, begun);
    frame::law_statement_adds(x, opened, limit);
    let chosen = if_chosen(x, s, limit);
    let end = grammar::if_statement(x, s, limit);
    let test = c.code.units.len() as int;
    let behind = chosen.code.units.len() as int;
    frame::lemma_follows_emit_jump(c, Op::JumpIf, line);
    frame::lemma_follows_skip_lines(x, begun);
    frame::lemma_follows_on(begun, opened, chosen);
    if opened.fault is Some {
        assert(end.fault is Some);
    } else if grammar::accepts(x, chosen, TokenKind::Else) {
        let u = grammar::advance(x, chosen);
        let over = grammar::emit_jump(u, Op::Jump, grammar::line_of(u));
        let led = grammar::patch(over, grammar::jump_place(c));
        let other = grammar::skip_lines(x, led);
        frame::lemma_follows_advance(x, chosen);
        frame::lemma_follows_emit_jump(u, Op::Jump, grammar::line_of(u));
        frame::lemma_follows_skip_lines(x, led);
        frame::law_statement_adds(x, other, limit);
        let last = grammar::statement(x, other, limit);
        assert(u.code == chosen.code && u.methods == chosen.methods) by {
            reveal(grammar::advance);
        }
        if other.fault is Some {
            assert(end.fault is Some);
        }
        assert(end == grammar::patch(last, grammar::jump_place(u)));
        assert(last.fault is None) by {
            reveal(grammar::patch);
        }
        frame::lemma_follows_on(led, other, last);
        flow_laws::lemma_unfailed(led, last);
        assert(over.fault is None) by {
            reveal(grammar::patch);
        }
        flow_laws::lemma_unfailed(u, over);
        flow_laws::lemma_unfailed(chosen, u);
        flow_laws::lemma_unfailed(begun, chosen);
        flow_laws::lemma_unfailed(c, begun);
        flow_laws::lemma_ordered(s, c);
        flow_laws::lemma_ordered(c, begun);
        flow_laws::lemma_ordered(begun, chosen);
        frame::lemma_follows_on(begun, chosen, u);
        frame::lemma_follows_on(begun, u, over);
        flow_laws::lemma_emits_jump(c, Op::JumpIf, line);
        flow_laws::lemma_emits_jump(u, Op::Jump, grammar::line_of(u));
        lemma_patches(over, test + 1);
        flow_laws::lemma_ordered(led, last);
        lemma_patches(last, behind + 1);
        frame::lemma_complete_is_sealed(c.code);
        frame::lemma_complete_is_sealed(u.code);
        frame::lemma_complete_is_sealed(over.code);
        frame::lemma_complete_is_sealed(led.code);
        frame::lemma_complete_is_sealed(last.code);
        frame::lemma_complete_is_sealed(end.code);
        flow_laws::lemma_unit_stays(begun, chosen, test);
        flow_laws::lemma_unit_stays(led, last, test);
        flow_laws::lemma_unit_stays(led, last, test + 1);
        flow_laws::lemma_unit_stays(led, last, behind);
        flow_laws::lemma_unit_stays(end, step.code, test);
        flow_laws::lemma_unit_stays(end, step.code, test + 1);
        flow_laws::lemma_unit_stays(end, step.code, behind);
        flow_laws::lemma_unit_stays(end, step.code, behind + 1);
        if step.runs_at(test) && step.before.stack@.len() > 0 {
            flow_laws::lemma_jump_if(step, test, behind + 2);
        }
        if step.runs_at(behind) {
            flow_laws::lemma_jump_ahead(step, behind, end.code.units.len() as int);
        }
    } else {
        assert(end == grammar::patch(chosen, grammar::jump_place(c)));
        assert(chosen.fault is None) by {
            reveal(grammar::patch);
        }
        flow_laws::lemma_unfailed(begun, chosen);
        flow_laws::lemma_unfailed(c, begun);
        flow_laws::lemma_ordered(s, c);
        flow_laws::lemma_ordered(c, begun);
        flow_laws::lemma_ordered(begun, chosen);
        flow_laws::lemma_emits_jump(c, Op::JumpIf, line);
        flow_laws::lemma_jump_leads(c, Op::JumpIf, line, chosen);
        frame::lemma_complete_is_sealed(end.code);
        flow_laws::lemma_unit_stays(end, step.code, test);
        flow_laws::lemma_unit_stays(end, step.code, test + 1);
        if step.runs_at(test) && step.before.stack@.len() > 0 {
            flow_laws::lemma_jump_if(step, test, behind);
        }
    }
}

/// A word between two operands decides whether the second is needed. Where what
/// the first left is false or null, a conjunction goes on behind the second
/// with it, and otherwise drops it and goes on with the second; a disjunction
/// does it the other way round.
pub proof fn law_logical_operators_choose(x: Source, s: State, limit: nat, step: Step)
    requires
        frame::orderly(s.code),
        s.previous.kind == TokenKind::AmpAmp || s.previous.kind == TokenKind::PipePipe,
        grammar::infix(x, s, limit).fault is None,
        frame::follows(grammar::infix(x, s, limit), step.code),
        step.runs_at(s.code.units.len() as int),
        step.before.stack@.len() > 0,
    ensures
        ({
            let stack = step.before.stack@;
            let end = grammar::infix(x, s, limit).code.units.len() as int;
            let decided = if s.previous.kind == TokenKind::AmpAmp {
                stack.last().spec_is_falsy()
            } else {
                !stack.last().spec_is_falsy()
            };
            if decided {
                step.goes_to(end, stack)
            } else {
                step.goes_to(s.code.units.len() as int + 2, stack.drop_last())
            }
        }),
{
    let op = if s.previous.kind == TokenKind::AmpAmp {
        Op::And
    } else {
        Op::Or
    };
    let precedence = if s.previous.kind == TokenKind::AmpAmp {
        Precedence::LogicalAnd
    } else {
        Precedence::LogicalOr
    };
    let line = words::spec_clamp_line(s.previous.line);
    let at = s.code.units.len() as int;
    let end = grammar::infix(x, s, limit);
    if s.fault is Some {
        assert(end == s);
    }
    let begun = grammar::emit_jump(s, op, line);
    let opened = grammar::skip_lines(x, begun);
    frame::lemma_follows_skip_lines(x, begun);
    frame::lemma_parse(x, opened, limit, precedence);
    if opened.fault is Some {
        assert(end == opened);
    }
    let second = grammar::parse(x, opened, limit, precedence);
    frame::lemma_follows_on(begun, opened, second);
    assert(end == grammar::patch(second, grammar::jump_place(s)));
    flow_laws::lemma_jump_leads(s, op, line, second);
    frame::lemma_complete_is_sealed(end.code);
    flow_laws::lemma_unit_stays(end, step.code, at);
    flow_laws::lemma_unit_stays(end, step.code, at + 1);
    flow_laws::lemma_is_at(step.run, step.code, op, 1, 0);
    flow_laws::lemma_counted(step.run);
    assert(step.run.unit(at + 1) == step.code.code.sealed()[at + 1]);
    flow_laws::lemma_steps(step.before, step.after, step.run, step.next, step.outcome, op, 0);
    assert(crate::vm::fields::dropped(step.before.stack@, 1) =~= step.before.stack@.drop_last());
    assert(crate::vm::fields::from_top(step.before.stack@, 0) == step.before.stack@.last());
}

/// What ends in a call calls by that signature.
pub proof fn lemma_ends_in_call(e: State, signature: Seq<char>, arity: nat, line: u16, step: Step)
    requires
        frame::orderly(e.code),
        arity < 256,
        grammar::emit_call(e, signature, arity, line).fault is None,
        frame::follows(grammar::emit_call(e, signature, arity, line), step.code),
        flow_laws::runs(step.run, step.code),
    ensures
        e.fault is None,
        grammar::emit_call(e, signature, arity, line).code.units.len() == e.code.units.len() + 2,
        step.run.ip == e.code.units.len() ==> flow_laws::calls(
            step.run,
            step.before,
            step.code,
            signature,
            arity as int,
        ),
{
    let end = grammar::emit_call(e, signature, arity, line);
    if e.fault is Some {
        reveal(grammar::emit_call);
    }
    flow_laws::lemma_emits_call(e, signature, arity, line);
    frame::lemma_complete_is_sealed(e.code);
    if step.run.ip == e.code.units.len() {
        flow_laws::lemma_calls(step.run, step.before, end, step.code, signature, arity as u8);
    }
}

/// The signature of the method that an operator between two operands calls.
pub open spec fn asked(kind: TokenKind) -> Option<Seq<char>> {
    match kind {
        TokenKind::Plus => Some("+(_)"@),
        TokenKind::Minus => Some("-(_)"@),
        TokenKind::Star => Some("*(_)"@),
        TokenKind::Slash => Some("/(_)"@),
        TokenKind::Percent => Some("%(_)"@),
        TokenKind::Lt => Some("<(_)"@),
        TokenKind::Gt => Some(">(_)"@),
        TokenKind::LtEq => Some("<=(_)"@),
        TokenKind::GtEq => Some(">=(_)"@),
        TokenKind::EqEq => Some("==(_)"@),
        TokenKind::BangEq => Some("!=(_)"@),
        TokenKind::DotDot => Some("..(_)"@),
        TokenKind::DotDotDot => Some("...(_)"@),
        _ => None,
    }
}

/// What an operator is called, with a place for its argument.
proof fn lemma_asked(kind: TokenKind)
    ensures
        match words::spec_operator_name(kind) {
            Some(name) => asked(kind) == Some(words::spec_signature(name, 1)),
            None => asked(kind) is None,
        },
{
    reveal_strlit("+");
    reveal_strlit("+(_)");
    reveal_strlit("-");
    reveal_strlit("-(_)");
    reveal_strlit("*");
    reveal_strlit("*(_)");
    reveal_strlit("/");
    reveal_strlit("/(_)");
    reveal_strlit("%");
    reveal_strlit("%(_)");
    reveal_strlit("<");
    reveal_strlit("<(_)");
    reveal_strlit(">");
    reveal_strlit(">(_)");
    reveal_strlit("<=");
    reveal_strlit("<=(_)");
    reveal_strlit(">=");
    reveal_strlit(">=(_)");
    reveal_strlit("==");
    reveal_strlit("==(_)");
    reveal_strlit("!=");
    reveal_strlit("!=(_)");
    reveal_strlit("..");
    reveal_strlit("..(_)");
    reveal_strlit("...");
    reveal_strlit("...(_)");
    match words::spec_operator_name(kind) {
        Some(name) => {
            assert(asked(kind)->0 =~= words::spec_signature(name, 1));
        },
        None => {},
    }
}

/// An operator between two operands calls the method of its name on the first,
/// with the second: the code of the second is behind that of the first, and
/// ends in the call. The second takes in only what binds tighter than the
/// operator, so that operators that bind alike go from left to right.
pub proof fn law_operators_call_their_method(x: Source, s: State, limit: nat, step: Step)
    requires
        frame::orderly(s.code),
        asked(s.previous.kind) is Some,
        grammar::infix(x, s, limit).fault is None,
        frame::follows(grammar::infix(x, s, limit), step.code),
        flow_laws::runs(step.run, step.code),
    ensures
        ({
            let end = grammar::infix(x, s, limit);
            let kind = s.previous.kind;
            &&& step.run.ip == end.code.units.len() - 2 ==> flow_laws::calls(
                step.run,
                step.before,
                step.code,
                asked(kind)->0,
                1,
            )
            &&& exists|second: Precedence|
                second.spec_rank() == words::spec_infix_precedence(kind).spec_rank() + 1
                    && frame::follows(s, #[trigger] grammar::parse(x, grammar::skip_lines(x, s), limit, second))
                    && grammar::parse(x, grammar::skip_lines(x, s), limit, second).code.units.len()
                    + 2 == end.code.units.len()
        }),
{
    let kind = s.previous.kind;
    let line = words::spec_clamp_line(s.previous.line);
    let next = words::spec_tighter(words::spec_infix_precedence(kind));
    let opened = grammar::skip_lines(x, s);
    let second = grammar::parse(x, opened, limit, next);
    lemma_asked(kind);
    frame::lemma_follows_skip_lines(x, s);
    frame::lemma_parse(x, opened, limit, next);
    frame::lemma_follows_on(s, opened, second);
    let end = grammar::infix(x, s, limit);
    if s.fault is Some || opened.fault is Some {
        assert(end.fault is Some);
    }
    if second.fault is Some {
        assert(end.fault is Some) by {
            reveal(grammar::emit_call);
        }
    }
    flow_laws::lemma_ordered(s, second);
    lemma_ends_in_call(second, asked(kind)->0, 1, line, step);
}

/// A sign or a negation before an operand calls the method of its name on it,
/// with nothing. It takes in only what binds as tightly.
pub proof fn law_signs_call_their_method(
    x: Source,
    s: State,
    limit: nat,
    can_assign: bool,
    step: Step,
)
    requires
        frame::orderly(s.code),
        s.previous.kind == TokenKind::Minus || s.previous.kind == TokenKind::Bang,
        grammar::prefix(x, s, limit, can_assign).fault is None,
        frame::follows(grammar::prefix(x, s, limit, can_assign), step.code),
        flow_laws::runs(step.run, step.code),
        step.run.ip == grammar::prefix(x, s, limit, can_assign).code.units.len() - 2,
    ensures
        flow_laws::calls(
            step.run,
            step.before,
            step.code,
            if s.previous.kind == TokenKind::Minus {
                "-"@
            } else {
                "!"@
            },
            0,
        ),
{
    let operand = grammar::parse(x, s, limit, Precedence::Unary);
    frame::lemma_parse(x, s, limit, Precedence::Unary);
    let signature = if s.previous.kind == TokenKind::Minus {
        "-"@
    } else {
        "!"@
    };
    let line = words::spec_clamp_line(s.previous.line);
    let end = grammar::prefix(x, s, limit, can_assign);
    if s.fault is Some {
        assert(end.fault is Some);
    }
    if operand.fault is Some {
        assert(end.fault is Some) by {
            reveal(grammar::emit_call);
        }
    }
    flow_laws::lemma_ordered(s, operand);
    lemma_ends_in_call(operand, signature, 0, line, step);
}

/// How tightly a token binds what is before it.
pub open spec fn tightness(kind: TokenKind) -> int {
    words::spec_infix_precedence(kind).spec_rank() as int
}

/// Operators bind as in arithmetic: a call or a subscript tightest, then what
/// multiplies, what adds, ranges, comparisons, equality, conjunction, and last
/// disjunction. Those of one sort bind alike, and no other token binds at all.
pub proof fn law_operators_bind_as_in_arithmetic()
    ensures
        tightness(TokenKind::Dot) == tightness(TokenKind::LeftBracket),
        tightness(TokenKind::Dot) > Precedence::Unary.spec_rank() > tightness(TokenKind::Star),
        tightness(TokenKind::Star) == tightness(TokenKind::Slash),
        tightness(TokenKind::Star) == tightness(TokenKind::Percent),
        tightness(TokenKind::Star) > tightness(TokenKind::Plus),
        tightness(TokenKind::Plus) == tightness(TokenKind::Minus),
        tightness(TokenKind::Plus) > tightness(TokenKind::DotDot),
        tightness(TokenKind::DotDot) == tightness(TokenKind::DotDotDot),
        tightness(TokenKind::DotDot) > tightness(TokenKind::Lt),
        tightness(TokenKind::Lt) == tightness(TokenKind::Gt),
        tightness(TokenKind::Lt) == tightness(TokenKind::LtEq),
        tightness(TokenKind::Lt) == tightness(TokenKind::GtEq),
        tightness(TokenKind::Lt) > tightness(TokenKind::EqEq),
        tightness(TokenKind::EqEq) == tightness(TokenKind::BangEq),
        tightness(TokenKind::EqEq) > tightness(TokenKind::AmpAmp),
        tightness(TokenKind::AmpAmp) > tightness(TokenKind::PipePipe),
        tightness(TokenKind::PipePipe) > Precedence::Assignment.spec_rank()
            > Precedence::Lowest.spec_rank() > tightness(TokenKind::Eq),
        forall|kind: TokenKind|
            asked(kind) is None && !(kind == TokenKind::Dot || kind == TokenKind::LeftBracket
                || kind == TokenKind::AmpAmp || kind == TokenKind::PipePipe)
                ==> #[trigger] tightness(kind) < Precedence::Lowest.spec_rank(),
{
}

} // verus!
