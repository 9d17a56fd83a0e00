//! What was emitted stays: compiling on adds to the code and changes nothing
//! that was complete, except for the distances of jumps that were begun.

use vstd::prelude::*;

use super::code::Code;
use super::grammar;
use super::grammar::{Source, State};
use super::words;
use super::words::Precedence;
use crate::bytecode::Op;
use crate::corelib::install;
use crate::lexer::TokenKind;

verus! {

/// Whether the instruction being emitted is in the code, and none is left with
/// its inline operand used.
pub open spec fn orderly(code: Code) -> bool {
    match code.open {
        Some(start) => 0 <= start < code.units.len(),
        None => !code.inline,
    }
}

/// The units of the instructions that are complete.
pub open spec fn complete(code: Code) -> Seq<u16> {
    match code.open {
        Some(start) => code.units.take(start),
        None => code.units,
    }
}

/// Whether one state is as far as another or further: what the other had
/// emitted is there, and the constants and signatures have their numbers.
#[verifier::opaque]
pub open spec fn follows(s: State, t: State) -> bool {
    t.fault is None ==> {
        &&& s.fault is None
        &&& orderly(s.code) ==> {
            &&& orderly(t.code)
            &&& s.code.units.len() <= t.code.units.len()
            &&& s.code.sealed().is_prefix_of(t.code.sealed())
            &&& s.code.constants.is_prefix_of(t.code.constants)
        }
        &&& s.methods.is_prefix_of(t.methods)
    }
}

/// Where nothing was emitted, everything is there.
pub broadcast proof fn lemma_follows_same(s: State, t: State)
    requires
        t.fault is None ==> s.fault is None,
        s.code == t.code,
        s.methods == t.methods,
    ensures
        #[trigger] follows(s, t),
{
    reveal(follows);
}

/// What is there through two steps is there.
pub broadcast proof fn lemma_follows_on(s: State, t: State, u: State)
    requires
        #[trigger] follows(s, t),
        #[trigger] follows(t, u),
    ensures
        follows(s, u),
{
    reveal(follows);
    if u.fault is None && orderly(s.code) {
        let a = s.code.sealed();
        let b = t.code.sealed();
        let c = u.code.sealed();
        assert(a =~= c.take(a.len() as int)) by {
            assert forall|i: int| 0 <= i < a.len() implies a[i] == c[i] by {
                assert(b[i] == a[i]);
                assert(c[i] == b[i]);
            }
        }
        let p = s.code.constants;
        let q = t.code.constants;
        let r = u.code.constants;
        assert forall|i: int| 0 <= i < p.len() implies p[i] == r[i] by {
            assert(q[i] == p[i]);
            assert(r[i] == q[i]);
        }
    }
    if u.fault is None {
        let p = s.methods;
        let q = t.methods;
        let r = u.methods;
        assert forall|i: int| 0 <= i < p.len() implies p[i] == r[i] by {
            assert(q[i] == p[i]);
            assert(r[i] == q[i]);
        }
    }
}

/// A state that has failed follows any.
pub broadcast proof fn lemma_follows_failed(s: State, t: State)
    requires
        t.fault is Some,
    ensures
        #[trigger] follows(s, t),
{
    reveal(follows);
}

/// Beginning an instruction completes the one before.
pub proof fn lemma_op(code: Code, op: Op, line: u16)
    requires
        orderly(code),
    ensures
        orderly(code.op(op, line)),
        complete(code.op(op, line)) == code.sealed(),
        code.op(op, line).open == Some(code.units.len() as int),
        code.op(op, line).units.len() == code.units.len() + 1,
        code.op(op, line).units.last() == op.spec_byte() as u16,
        !code.op(op, line).inline,
        code.op(op, line).constants == code.constants,
{
    assert(complete(code.op(op, line)) =~= code.sealed());
}

/// An operand belongs to the instruction being emitted.
pub proof fn lemma_operands(code: Code, byte: u8, value: u16)
    requires
        orderly(code),
        code.open is Some,
    ensures
        orderly(code.byte(byte)),
        complete(code.byte(byte)) == complete(code),
        code.byte(byte).open == code.open,
        code.byte(byte).units.len() >= code.units.len(),
        code.byte(byte).constants == code.constants,
        orderly(code.short(value)),
        complete(code.short(value)) == complete(code),
        code.short(value).open == code.open,
        code.short(value).units.len() == code.units.len() + 1,
        code.short(value).constants == code.constants,
{
    assert(complete(code.byte(byte)) =~= complete(code));
    assert(complete(code.short(value)) =~= complete(code));
}

/// What is complete stays as it is when the last instruction is completed.
pub proof fn lemma_complete_is_sealed(code: Code)
    requires
        orderly(code),
    ensures
        complete(code).is_prefix_of(code.sealed()),
        code.sealed().len() == code.units.len(),
{
    assert(complete(code) =~= code.sealed().take(complete(code).len() as int));
}

/// How a state follows another whose code is a part of the complete one.
proof fn lemma_follows_complete(s: State, t: State)
    requires
        s.fault is None,
        orderly(s.code) ==> orderly(t.code) && complete(t.code) == s.code.sealed()
            && s.code.units.len() <= t.code.units.len() && s.code.constants.is_prefix_of(
            t.code.constants,
        ),
        s.methods.is_prefix_of(t.methods),
    ensures
        follows(s, t),
{
    reveal(follows);
    if orderly(s.code) {
        lemma_complete_is_sealed(t.code);
    }
}

/// Reading a token emits nothing.
pub broadcast proof fn lemma_follows_advance(x: Source, s: State)
    ensures
        follows(s, #[trigger] grammar::advance(x, s)),
{
    reveal(grammar::advance);
    lemma_follows_same(s, grammar::advance(x, s));
}

/// Asking for a token emits nothing.
pub broadcast proof fn lemma_follows_consume(x: Source, s: State, kind: TokenKind, message: Seq<char>)
    ensures
        follows(s, #[trigger] grammar::consume(x, s, kind, message)),
{
    reveal(grammar::consume);
    lemma_follows_advance(x, s);
    lemma_follows_same(s, s);
    lemma_follows_failed(s, grammar::fail(s, grammar::current(x, s), message));
}

/// The end of a line emits nothing.
pub broadcast proof fn lemma_follows_skip_lines(x: Source, s: State)
    ensures
        follows(s, #[trigger] grammar::skip_lines(x, s)),
    decreases x.tokens.len() - s.at,
{
    reveal(grammar::skip_lines);
    lemma_follows_same(s, s);
    if s.fault is None && grammar::current(x, s).kind == TokenKind::Line && s.at + 1
        < x.tokens.len() {
        reveal(grammar::advance);
        let t = grammar::advance(x, s);
        lemma_follows_advance(x, s);
        lemma_follows_skip_lines(x, t);
        lemma_follows_on(s, t, grammar::skip_lines(x, t));
    }
}

/// The end of a statement emits nothing.
pub broadcast proof fn lemma_follows_consume_line(x: Source, s: State, message: Seq<char>)
    ensures
        follows(s, #[trigger] grammar::consume_line(x, s, message)),
{
    reveal(grammar::consume_line);
    lemma_follows_same(s, s);
    let t = grammar::consume(x, s, TokenKind::Line, message);
    lemma_follows_consume(x, s, TokenKind::Line, message);
    lemma_follows_skip_lines(x, t);
    lemma_follows_on(s, t, grammar::skip_lines(x, t));
}

/// An instruction is added.
pub broadcast proof fn lemma_follows_emit_op(s: State, op: Op, line: u16)
    ensures
        follows(s, #[trigger] grammar::emit_op(s, op, line)),
{
    reveal(grammar::emit_op);
    if s.fault is Some {
        lemma_follows_failed(s, s);
    } else {
        if orderly(s.code) {
            lemma_op(s.code, op, line);
        }
        lemma_follows_complete(s, grammar::emit_op(s, op, line));
    }
}

/// An instruction is added, with its operand.
pub broadcast proof fn lemma_follows_emit_with_byte(s: State, op: Op, byte: u8, line: u16)
    ensures
        follows(s, #[trigger] grammar::emit_with_byte(s, op, byte, line)),
{
    reveal(grammar::emit_with_byte);
    if s.fault is Some {
        lemma_follows_failed(s, s);
    } else {
        if orderly(s.code) {
            lemma_op(s.code, op, line);
            lemma_operands(s.code.op(op, line), byte, 0);
        }
        lemma_follows_complete(s, grammar::emit_with_byte(s, op, byte, line));
    }
}

/// An instruction is added, with its operand.
pub broadcast proof fn lemma_follows_emit_with_short(s: State, op: Op, value: u16, line: u16)
    ensures
        follows(s, #[trigger] grammar::emit_with_short(s, op, value, line)),
{
    reveal(grammar::emit_with_short);
    if s.fault is Some {
        lemma_follows_failed(s, s);
    } else {
        if orderly(s.code) {
            lemma_op(s.code, op, line);
            lemma_operands(s.code.op(op, line), 0, value);
        }
        lemma_follows_complete(s, grammar::emit_with_short(s, op, value, line));
    }
}

/// A constant and an instruction are added.
pub broadcast proof fn lemma_follows_emit_constant(s: State, value: crate::value::Value, line: u16)
    ensures
        follows(s, #[trigger] grammar::emit_constant(s, value, line)),
{
    reveal(grammar::emit_constant);
    let u = grammar::emit_constant(s, value, line);
    if s.fault is Some {
        lemma_follows_failed(s, s);
    } else {
        match s.code.place_of(value) {
            None => {
                lemma_follows_failed(s, u);
            },
            Some(place) => {
                reveal(grammar::emit_with_short);
                let code = s.code.constant(value);
                if orderly(s.code) {
                    assert(code.sealed() =~= s.code.sealed());
                    lemma_op(code, Op::Constant, line);
                    lemma_operands(code.op(Op::Constant, line), 0, place);
                }
                lemma_follows_complete(s, u);
            },
        }
    }
}

/// A call is added, and its signature, if it is new.
pub broadcast proof fn lemma_follows_emit_call(s: State, signature: Seq<char>, arity: nat, line: u16)
    ensures
        follows(s, #[trigger] grammar::emit_call(s, signature, arity, line)),
{
    reveal(grammar::emit_call);
    let u = grammar::emit_call(s, signature, arity, line);
    if s.fault is Some || u.fault is Some {
        lemma_follows_failed(s, u);
    } else {
        if orderly(s.code) {
            lemma_op(s.code, Op::Call, line);
            lemma_operands(s.code.op(Op::Call, line), arity as u8, 0);
            lemma_operands(
                s.code.op(Op::Call, line).byte(arity as u8),
                0,
                u.methods.index_of(signature) as u16,
            );
        }
        lemma_follows_complete(s, u);
    }
}

/// A jump is added.
pub broadcast proof fn lemma_follows_emit_jump(s: State, op: Op, line: u16)
    ensures
        follows(s, #[trigger] grammar::emit_jump(s, op, line)),
{
    reveal(grammar::emit_jump);
    if s.fault is Some {
        lemma_follows_failed(s, s);
    } else {
        if orderly(s.code) {
            lemma_op(s.code, op, line);
            lemma_operands(s.code.op(op, line), 0, u16::MAX);
        }
        lemma_follows_complete(s, grammar::emit_jump(s, op, line));
    }
}

/// A jump back is added.
pub broadcast proof fn lemma_follows_emit_loop(s: State, start: int, line: u16)
    ensures
        follows(s, #[trigger] grammar::emit_loop(s, start, line)),
{
    reveal(grammar::emit_loop);
    let u = grammar::emit_loop(s, start, line);
    if s.fault is Some || u.fault is Some {
        lemma_follows_failed(s, u);
    } else {
        if orderly(s.code) {
            lemma_op(s.code, Op::Loop, line);
            lemma_operands(
                s.code.op(Op::Loop, line),
                0,
                (s.code.units.len() + 2 - start) as u16,
            );
        }
        lemma_follows_complete(s, u);
    }
}

/// A distance is written where a jump was begun since.
pub proof fn lemma_follows_patch(s: State, t: State, at: int)
    requires
        follows(s, t),
        s.code.units.len() <= at < t.code.units.len() || t.fault is Some,
    ensures
        follows(s, grammar::patch(t, at)),
{
    reveal(grammar::patch);
    reveal(follows);
    let u = grammar::patch(t, at);
    if t.fault is None && u.fault is None && orderly(s.code) {
        lemma_complete_is_sealed(t.code);
        lemma_complete_is_sealed(s.code);
        let a = s.code.sealed();
        let b = t.code.sealed();
        let c = u.code.sealed();
        assert forall|i: int| 0 <= i < a.len() implies a[i] == c[i] by {
            assert(b[i] == a[i]);
        }
        assert(a =~= c.take(a.len() as int));
    }
}

/// A block emits nothing when it begins.
pub broadcast proof fn lemma_follows_begin_scope(s: State)
    ensures
        follows(s, #[trigger] grammar::begin_scope(s)),
{
    reveal(grammar::begin_scope);
    lemma_follows_same(s, grammar::begin_scope(s));
}

/// A local emits nothing when it is declared.
pub broadcast proof fn lemma_follows_add_local(s: State, name: Seq<char>)
    ensures
        follows(s, #[trigger] grammar::add_local(s, name)),
{
    reveal(grammar::add_local);
    if grammar::add_local(s, name).fault is Some {
        lemma_follows_failed(s, grammar::add_local(s, name));
    } else {
        lemma_follows_same(s, grammar::add_local(s, name));
    }
}

/// Dropping locals adds instructions.
proof fn lemma_follows_drop_locals(s: State, line: u16)
    requires
        s.fault is None,
    ensures
        follows(s, grammar::drop_locals(s, line)),
        grammar::drop_locals(s, line).fault is None,
    decreases s.locals.len(),
{
    if s.locals.len() == 0 || s.locals.last().depth < s.depth {
        lemma_follows_same(s, s);
    } else {
        let t = State {
            locals: s.locals.drop_last(),
            code: s.code.op(Op::Pop, line),
            height: s.height - 1,
            ..s
        };
        if orderly(s.code) {
            lemma_op(s.code, Op::Pop, line);
        }
        lemma_follows_complete(s, t);
        lemma_follows_drop_locals(t, line);
        lemma_follows_on(s, t, grammar::drop_locals(t, line));
    }
}

/// A block that ends drops its locals.
pub broadcast proof fn lemma_follows_end_scope(s: State)
    ensures
        follows(s, #[trigger] grammar::end_scope(s)),
{
    reveal(grammar::end_scope);
    if s.fault is Some {
        lemma_follows_failed(s, s);
    } else {
        let line = grammar::line_of(s);
        let t = grammar::drop_locals(s, line);
        lemma_follows_drop_locals(s, line);
        lemma_follows_same(t, grammar::end_scope(s));
        lemma_follows_on(s, t, grammar::end_scope(s));
    }
}

/// How one state follows another.
pub broadcast group group_follows {
    lemma_follows_same,
    lemma_follows_on,
    lemma_follows_failed,
    lemma_follows_advance,
    lemma_follows_consume,
    lemma_follows_skip_lines,
    lemma_follows_consume_line,
    lemma_follows_emit_op,
    lemma_follows_emit_with_byte,
    lemma_follows_emit_with_short,
    lemma_follows_emit_constant,
    lemma_follows_emit_call,
    lemma_follows_emit_jump,
    lemma_follows_emit_loop,
    lemma_follows_begin_scope,
    lemma_follows_add_local,
    lemma_follows_end_scope,
}

/// An expression adds to the code.
pub proof fn law_expression_adds(x: Source, s: State, limit: nat)
    ensures
        follows(s, grammar::expression(x, s, limit)),
    decreases limit, 2nat,
{
    lemma_parse(x, s, limit, Precedence::Lowest);
}

pub proof fn lemma_parse(x: Source, s: State, limit: nat, precedence: Precedence)
    ensures
        follows(s, grammar::parse(x, s, limit, precedence)),
    decreases limit, 1nat,
{
    broadcast use group_follows;

    if s.fault is None {
        let t = grammar::advance(x, s);
        if !(grammar::remaining(x, s) <= 0 || limit == 0) && t.fault is None {
            let can_assign = precedence.spec_rank() <= Precedence::Assignment.spec_rank();
            let u = grammar::prefix(x, t, (limit - 1) as nat, can_assign);
            lemma_prefix(x, t, (limit - 1) as nat, can_assign);
            lemma_climb(x, u, (limit - 1) as nat, precedence, can_assign);
        }
    }
}

proof fn lemma_climb(
    x: Source,
    s: State,
    limit: nat,
    precedence: Precedence,
    can_assign: bool,
)
    ensures
        follows(s, grammar::climb(x, s, limit, precedence, can_assign)),
    decreases limit, 0nat,
{
    broadcast use group_follows;

    if s.fault is None && limit > 0 && grammar::remaining(x, s) > 0 {
        let t = grammar::advance(x, s);
        let u = grammar::infix(x, t, (limit - 1) as nat);
        lemma_infix(x, t, (limit - 1) as nat);
        lemma_climb(x, u, (limit - 1) as nat, precedence, can_assign);
    }
}

pub proof fn lemma_prefix(x: Source, s: State, limit: nat, can_assign: bool)
    ensures
        follows(s, grammar::prefix(x, s, limit, can_assign)),
    decreases limit, 7nat,
{
    broadcast use group_follows;

    if s.fault is None {
        let token = s.previous;
        match token.kind {
            TokenKind::Interpolation => {
                lemma_interpolation(x, s, limit);
            },
            TokenKind::Name => {
                lemma_variable(x, s, limit, can_assign);
            },
            TokenKind::LeftParen => {
                law_expression_adds(x, grammar::skip_lines(x, s), limit);
            },
            TokenKind::LeftBracket => {
                lemma_list_literal(x, s, limit);
            },
            TokenKind::Minus | TokenKind::Bang => {
                lemma_parse(x, s, limit, Precedence::Unary);
            },
            _ => {},
        }
    }
}

pub proof fn lemma_infix(x: Source, s: State, limit: nat)
    ensures
        follows(s, grammar::infix(x, s, limit)),
    decreases limit, 7nat,
{
    broadcast use group_follows;

    if s.fault is None {
        let token = s.previous;
        let line = words::spec_clamp_line(token.line);
        match token.kind {
            TokenKind::AmpAmp => {
                let begun = grammar::emit_jump(s, Op::And, line);
                let t = grammar::skip_lines(x, begun);
                lemma_parse(x, t, limit, Precedence::LogicalAnd);
                lemma_jump_patched(
                    s,
                    Op::And,
                    line,
                    grammar::parse(x, t, limit, Precedence::LogicalAnd),
                );
            },
            TokenKind::PipePipe => {
                let begun = grammar::emit_jump(s, Op::Or, line);
                let t = grammar::skip_lines(x, begun);
                lemma_parse(x, t, limit, Precedence::LogicalOr);
                lemma_jump_patched(
                    s,
                    Op::Or,
                    line,
                    grammar::parse(x, t, limit, Precedence::LogicalOr),
                );
            },
            TokenKind::Dot => {
                lemma_method_call(x, s, limit);
            },
            TokenKind::LeftBracket => {
                lemma_subscript(x, s, limit);
            },
            _ => {
                let t = grammar::skip_lines(x, s);
                let next = words::spec_tighter(words::spec_infix_precedence(token.kind));
                lemma_parse(x, t, limit, next);
            },
        }
    }
}

/// A jump that was begun, and whose distance is written once more was emitted.
proof fn lemma_jump_patched(s: State, op: Op, line: u16, t: State)
    requires
        follows(grammar::emit_jump(s, op, line), t),
    ensures
        follows(s, grammar::patch(t, grammar::jump_place(s))),
{
    broadcast use group_follows;

    let begun = grammar::emit_jump(s, op, line);
    if t.fault is Some {
        assert(grammar::patch(t, grammar::jump_place(s)) == t) by {
            reveal(grammar::patch);
        }
    } else {
        reveal(follows);
        reveal(grammar::emit_jump);
        if orderly(s.code) {
            lemma_op(s.code, op, line);
            lemma_operands(s.code.op(op, line), 0, u16::MAX);
            lemma_follows_patch(s, t, grammar::jump_place(s));
        } else {
            reveal(grammar::patch);
        }
    }
}

proof fn lemma_invocation(x: Source, s: State, limit: nat, name: Seq<char>, line: u16)
    ensures
        follows(s, grammar::invocation(x, s, limit, name, line)),
    decreases limit, 5nat,
{
    broadcast use group_follows;

    let t = grammar::advance(x, s);
    lemma_argument_list(x, t, limit);
}

pub proof fn lemma_assignment(
    x: Source,
    s: State,
    limit: nat,
    signature: Seq<char>,
    arity: nat,
    line: u16,
)
    ensures
        follows(s, grammar::assignment(x, s, limit, signature, arity, line)),
    decreases limit, 5nat,
{
    broadcast use group_follows;

    let t = grammar::skip_lines(x, grammar::advance(x, s));
    law_expression_adds(x, t, limit);
}

proof fn lemma_method_call(x: Source, s: State, limit: nat)
    ensures
        follows(s, grammar::method_call(x, s, limit)),
    decreases limit, 6nat,
{
    broadcast use group_follows;

    let t = grammar::consume(x, s, TokenKind::Name, "Expect method name after '.'."@);
    let name = grammar::word(x, t.previous);
    let line = grammar::line_of(t);
    lemma_invocation(x, t, limit, name, line);
    lemma_assignment(x, t, limit, name + "=(_)"@, 1, line);
}

proof fn lemma_subscript(x: Source, s: State, limit: nat)
    ensures
        follows(s, grammar::subscript(x, s, limit)),
    decreases limit, 6nat,
{
    broadcast use group_follows;

    let line = grammar::line_of(s);
    let t = grammar::skip_lines(x, s);
    law_expression_adds(x, t, limit);
    let u = grammar::skip_lines(x, grammar::expression(x, t, limit));
    let u = grammar::consume(x, u, TokenKind::RightBracket, "Expect ']' after subscript."@);
    lemma_assignment(x, u, limit, "[_]=(_)"@, 2, line);
}

pub proof fn lemma_argument_list(x: Source, s: State, limit: nat)
    ensures
        follows(s, grammar::argument_list(x, s, limit).state),
    decreases limit, 4nat,
{
    broadcast use group_follows;

    lemma_arguments(x, grammar::skip_lines(x, s), limit, 0);
}

pub proof fn lemma_arguments(x: Source, s: State, limit: nat, count: nat)
    ensures
        follows(s, grammar::arguments(x, s, limit, count).state),
    decreases limit, 3nat,
{
    broadcast use group_follows;

    let t = grammar::skip_lines(x, s);
    law_expression_adds(x, t, limit);
    if limit > 0 {
        let u = grammar::skip_lines(x, grammar::expression(x, t, limit));
        lemma_arguments(x, grammar::advance(x, u), (limit - 1) as nat, count + 1);
    }
}

proof fn lemma_variable(x: Source, s: State, limit: nat, can_assign: bool)
    ensures
        follows(s, grammar::variable(x, s, limit, can_assign)),
    decreases limit, 5nat,
{
    broadcast use group_follows;

    let u = grammar::skip_lines(x, grammar::advance(x, s));
    law_expression_adds(x, u, limit);
}

proof fn lemma_list_literal(x: Source, s: State, limit: nat)
    ensures
        follows(s, grammar::list_literal(x, s, limit)),
    decreases limit, 5nat,
{
    broadcast use group_follows;

    let line = grammar::line_of(s);
    let t = grammar::emit_with_short(
        s,
        Op::LoadModuleVar,
        s.scope.names.index_of("List"@) as u16,
        line,
    );
    let t = grammar::skip_lines(x, grammar::emit_call(t, "new"@, 0, line));
    lemma_elements(x, t, limit, line);
}

pub proof fn lemma_elements(x: Source, s: State, limit: nat, line: u16)
    ensures
        follows(s, grammar::elements(x, s, limit, line)),
    decreases limit, 3nat,
{
    broadcast use group_follows;

    let t = grammar::skip_lines(x, s);
    law_expression_adds(x, t, limit);
    if limit > 0 {
        let u = grammar::emit_call(
            grammar::expression(x, t, limit),
            "addCore(_)"@,
            1,
            line,
        );
        lemma_elements(
            x,
            grammar::advance(x, grammar::skip_lines(x, u)),
            (limit - 1) as nat,
            line,
        );
    }
}

pub proof fn lemma_interpolation(x: Source, s: State, limit: nat)
    ensures
        follows(s, grammar::interpolation(x, s, limit)),
    decreases limit, 5nat,
{
    broadcast use group_follows;

    let line = grammar::line_of(s);
    let t = grammar::emit_constant(s, grammar::text_literal(x, s), line);
    lemma_pieces(x, t, limit, line);
}

pub proof fn lemma_pieces(x: Source, s: State, limit: nat, line: u16)
    ensures
        follows(s, grammar::pieces(x, s, limit, line)),
    decreases limit, 3nat,
{
    broadcast use group_follows;

    let t = grammar::skip_lines(x, s);
    law_expression_adds(x, t, limit);
    let e = if t.fault is Some {
        t
    } else {
        grammar::expression(x, t, limit)
    };
    let t = grammar::emit_call(
        grammar::emit_call(e, "toString"@, 0, line),
        "+(_)"@,
        1,
        line,
    );
    if limit > 0 {
        let u = grammar::advance(x, t);
        let u = grammar::emit_call(
            grammar::emit_constant(u, grammar::text_literal(x, u), line),
            "+(_)"@,
            1,
            line,
        );
        lemma_pieces(x, u, (limit - 1) as nat, line);
    }
}

proof fn lemma_declaration(x: Source, s: State, limit: nat)
    ensures
        follows(s, grammar::declaration(x, s, limit)),
    decreases limit, 10nat,
{
    broadcast use group_follows;

    lemma_declared(x, s, limit);
}

proof fn lemma_declared(x: Source, s: State, limit: nat)
    ensures
        follows(s, grammar::declared(x, s, limit)),
    decreases limit, 9nat,
{
    broadcast use group_follows;

    if limit > 0 {
        lemma_var_declaration(x, grammar::advance(x, s), (limit - 1) as nat);
    }
    law_statement_adds(x, s, limit);
}

proof fn lemma_var_declaration(x: Source, s: State, limit: nat)
    ensures
        follows(s, grammar::var_declaration(x, s, limit)),
    decreases limit, 6nat,
{
    broadcast use group_follows;

    let s1 = grammar::consume(x, s, TokenKind::Name, "Expect variable name."@);
    let name = grammar::word(x, s1.previous);
    let line = grammar::line_of(s1);
    let u = grammar::skip_lines(x, grammar::advance(x, s1));
    law_expression_adds(x, u, limit);
    let t = if grammar::accepts(x, s1, TokenKind::Eq) {
        if u.fault is Some {
            u
        } else {
            grammar::expression(x, u, limit)
        }
    } else {
        grammar::emit_op(s1, Op::Null, line)
    };
    assert(follows(s, t));
    let scope = install::put(t.scope, name, crate::value::Value::null());
    assert(follows(t, State { scope, ..t }));
}

/// A statement adds to the code.
pub proof fn law_statement_adds(x: Source, s: State, limit: nat)
    ensures
        follows(s, grammar::statement(x, s, limit)),
    decreases limit, 8nat,
{
    broadcast use group_follows;

    if s.fault is None {
        if limit > 0 {
            let t = grammar::advance(x, s);
            if grammar::accepts(x, s, TokenKind::LeftBrace) {
                lemma_block(
                    x,
                    grammar::skip_lines(x, grammar::begin_scope(t)),
                    (limit - 1) as nat,
                );
            } else if grammar::accepts(x, s, TokenKind::If) {
                lemma_if(x, t, (limit - 1) as nat);
            } else if grammar::accepts(x, s, TokenKind::While) {
                lemma_while(x, t, (limit - 1) as nat);
            } else if grammar::accepts(x, s, TokenKind::For) {
                lemma_for(x, t, (limit - 1) as nat);
            }
        }
        law_expression_adds(x, s, limit);
    }
}

proof fn lemma_block(x: Source, s: State, limit: nat)
    ensures
        follows(s, grammar::block(x, s, limit)),
    decreases limit, 11nat,
{
    broadcast use group_follows;

    if s.fault is None && limit > 0 {
        lemma_declaration(x, s, limit);
        let t = grammar::skip_lines(x, grammar::declaration(x, s, limit));
        lemma_block(x, t, (limit - 1) as nat);
    }
}

pub proof fn lemma_condition(x: Source, s: State, limit: nat, opening: Seq<char>, closing: Seq<char>)
    ensures
        follows(s, grammar::condition(x, s, limit, opening, closing)),
    decreases limit, 7nat,
{
    broadcast use group_follows;

    let t = grammar::skip_lines(x, grammar::consume(x, s, TokenKind::LeftParen, opening));
    law_expression_adds(x, t, limit);
}

proof fn lemma_if(x: Source, s: State, limit: nat)
    ensures
        follows(s, grammar::if_statement(x, s, limit)),
    decreases limit, 9nat,
{
    broadcast use group_follows;

    let opening = "Expect '(' after 'if'."@;
    let closing = "Expect ')' after if condition."@;
    lemma_condition(x, s, limit, opening, closing);
    let c = grammar::condition(x, s, limit, opening, closing);
    let line = grammar::line_of(c);
    let begun = grammar::emit_jump(c, Op::JumpIf, line);
    let t = grammar::skip_lines(x, begun);
    if t.fault is None {
        law_statement_adds(x, t, limit);
        let body = grammar::statement(x, t, limit);
        if grammar::accepts(x, body, TokenKind::Else) {
            let u = grammar::advance(x, body);
            let otherwise = grammar::emit_jump(u, Op::Jump, grammar::line_of(u));
            assert(follows(begun, otherwise));
            lemma_jump_patched(c, Op::JumpIf, line, otherwise);
            let patched = grammar::patch(otherwise, grammar::jump_place(c));
            let v = grammar::skip_lines(x, patched);
            if v.fault is None {
                law_statement_adds(x, v, limit);
                let last = grammar::statement(x, v, limit);
                assert(follows(c, last));
                lemma_jump_length(c, u, Op::Jump, grammar::line_of(u));
                lemma_jump_ends(c, u, Op::Jump, patched, last);
            }
        } else {
            lemma_jump_patched(c, Op::JumpIf, line, body);
        }
    }
}

/// How much code a jump is, once the distance of an earlier one was written.
proof fn lemma_jump_length(c: State, u: State, op: Op, line: u16)
    requires
        follows(c, u),
    ensures
        ({
            let patched = grammar::patch(
                grammar::emit_jump(u, op, line),
                grammar::jump_place(c),
            );
            &&& patched.fault is None ==> u.fault is None
            &&& patched.fault is None && orderly(c.code) ==> patched.code.units.len()
                == u.code.units.len() + 2
        }),
{
    reveal(follows);
    reveal(grammar::patch);
    reveal(grammar::emit_jump);
    if u.fault is None && orderly(c.code) {
        lemma_op(u.code, op, line);
        lemma_operands(u.code.op(op, line), 0, u16::MAX);
        lemma_complete_is_sealed(u.code.jump(op, line));
    }
}

/// A jump that was begun behind another, whose distance was written since.
proof fn lemma_jump_ends(c: State, u: State, op: Op, patched: State, last: State)
    requires
        follows(c, u),
        follows(c, patched),
        follows(patched, last),
        patched.fault is None ==> u.fault is None,
        patched.fault is None && orderly(c.code) ==> patched.code.units.len()
            == u.code.units.len() + 2,
    ensures
        follows(c, grammar::patch(last, grammar::jump_place(u))),
{
    broadcast use group_follows;

    if last.fault is Some {
        reveal(grammar::patch);
    } else {
        reveal(follows);
        if orderly(c.code) {
            lemma_follows_patch(c, last, grammar::jump_place(u));
        } else {
            reveal(grammar::patch);
        }
    }
}

proof fn lemma_while(x: Source, s: State, limit: nat)
    ensures
        follows(s, grammar::while_statement(x, s, limit)),
    decreases limit, 9nat,
{
    broadcast use group_follows;

    let start = s.code.units.len() as int;
    let opening = "Expect '(' after 'while'."@;
    let closing = "Expect ')' after while condition."@;
    lemma_condition(x, s, limit, opening, closing);
    let c = grammar::condition(x, s, limit, opening, closing);
    let line = grammar::line_of(c);
    let begun = grammar::emit_jump(c, Op::JumpIf, line);
    let t = grammar::skip_lines(x, begun);
    if t.fault is None {
        law_statement_adds(x, t, limit);
        let body = grammar::statement(x, t, limit);
        let back = grammar::emit_loop(body, start, grammar::line_of(body));
        assert(follows(begun, back));
        lemma_jump_patched(c, Op::JumpIf, line, back);
    }
}

proof fn lemma_for(x: Source, s: State, limit: nat)
    ensures
        follows(s, grammar::for_statement(x, s, limit)),
    decreases limit, 9nat,
{
    broadcast use group_follows;

    let head = grammar::for_head(x, s);
    let name = grammar::word(x, head.previous);
    let h = grammar::skip_lines(
        x,
        grammar::consume(x, head, TokenKind::In, "Expect 'in' after loop variable."@),
    );
    if h.fault is None {
        law_expression_adds(x, h, limit);
        let e = grammar::expression(x, h, limit);
        let sequence = e.locals.len() as int;
        let set = grammar::for_setup(x, e);
        let start = set.code.units.len() as int;
        let line = grammar::line_of(set);
        let asked = grammar::for_advance(set, sequence, line);
        assert(follows(s, asked));
        let bound = grammar::for_bind(asked, sequence, name, line);
        let begun = grammar::emit_jump(asked, Op::JumpIf, line);
        assert(follows(begun, bound));
        let b = grammar::skip_lines(x, bound);
        if b.fault is None {
            law_statement_adds(x, b, limit);
            let body = grammar::end_scope(grammar::statement(x, b, limit));
            let back = grammar::emit_loop(body, start, grammar::line_of(body));
            assert(follows(begun, back));
            lemma_jump_patched(asked, Op::JumpIf, line, back);
        }
    }
}

/// The rest of a program adds to the code.
pub proof fn law_program_adds(x: Source, s: State, limit: nat)
    ensures
        follows(s, grammar::program(x, s, limit)),
    decreases limit,
{
    broadcast use group_follows;

    if s.fault is None && limit > 0 {
        lemma_declaration(x, s, limit);
        let t = grammar::skip_lines(x, grammar::declaration(x, s, limit));
        law_program_adds(x, t, (limit - 1) as nat);
    }
}

} // verus!
