//! What each construct of the language compiles to.
//!
//! Every function here takes what has been compiled so far to what has been
//! compiled once a construct was read. Once compiling has failed, nothing
//! changes any more. A limit on the tokens that are left is what makes the
//! functions that refer to each other well founded.

use vstd::prelude::*;

use super::code::Code;
use super::words;
use super::words::Precedence;
use crate::bytecode::Op;
use crate::corelib::install;
use crate::corelib::install::Scope;
use crate::lexer::{Token, TokenKind};
use crate::value::Value;

verus! {

/// What is compiled.
pub struct Source {
    pub bytes: Seq<u8>,
    pub tokens: Seq<Token>,
    /// What each token that is a literal is worth, if it is worth anything.
    pub literals: Seq<Option<Value>>,
}

/// A local variable.
pub struct LocalModel {
    pub name: Seq<char>,
    pub depth: int,
}

/// A failure to compile.
pub struct Fault {
    pub message: Seq<char>,
    pub line: u16,
}

/// How far compiling has got.
#[verifier::ext_equal]
pub struct State {
    /// Which token is next.
    pub at: int,
    /// The token before it.
    pub previous: Token,
    pub code: Code,
    /// How many values the code leaves on the stack.
    pub height: int,
    pub locals: Seq<LocalModel>,
    /// How many blocks are open.
    pub depth: int,
    /// The method signatures.
    pub methods: Seq<Seq<char>>,
    /// The module's variables.
    pub scope: Scope,
    /// Why it has failed.
    pub fault: Option<Fault>,
}

/// The next token.
pub open spec fn current(x: Source, s: State) -> Token {
    x.tokens[s.at]
}

/// How many tokens follow the next one.
pub open spec fn remaining(x: Source, s: State) -> int {
    x.tokens.len() - 1 - s.at
}

/// Failed at a token.
pub open spec fn fail(s: State, token: Token, message: Seq<char>) -> State {
    State { fault: Some(Fault { message, line: words::spec_clamp_line(token.line) }), ..s }
}

/// Past the next token. The last one stays the next.
#[verifier::opaque]
pub open spec fn advance(x: Source, s: State) -> State {
    if s.fault is Some {
        s
    } else {
        let next = if s.at + 1 < x.tokens.len() {
            s.at + 1
        } else {
            s.at
        };
        let t = State { previous: current(x, s), at: next, ..s };
        if current(x, t).kind == TokenKind::Error {
            fail(t, current(x, t), "Invalid token."@)
        } else {
            t
        }
    }
}

/// Whether the next token is of a kind.
pub open spec fn accepts(x: Source, s: State, kind: TokenKind) -> bool {
    s.fault is None && current(x, s).kind == kind
}

/// Past a token that has to be of a kind.
#[verifier::opaque]
pub open spec fn consume(x: Source, s: State, kind: TokenKind, message: Seq<char>) -> State {
    if s.fault is Some {
        s
    } else if current(x, s).kind == kind {
        advance(x, s)
    } else {
        fail(s, current(x, s), message)
    }
}

/// Past the ends of lines.
#[verifier::opaque]
pub open spec fn skip_lines(x: Source, s: State) -> State
    decreases x.tokens.len() - s.at,
{
    if s.fault is None && current(x, s).kind == TokenKind::Line && s.at + 1 < x.tokens.len() {
        proof {
            reveal(advance);
        }
        skip_lines(x, advance(x, s))
    } else {
        s
    }
}

/// Past the end of a statement.
#[verifier::opaque]
pub open spec fn consume_line(x: Source, s: State, message: Seq<char>) -> State {
    if s.fault is Some {
        s
    } else if current(x, s).kind == TokenKind::Eof || current(x, s).kind
        == TokenKind::RightBrace {
        s
    } else {
        skip_lines(x, consume(x, s, TokenKind::Line, message))
    }
}

/// The line of what was read last.
pub open spec fn line_of(s: State) -> u16 {
    words::spec_clamp_line(s.previous.line)
}

/// The bytes of a token.
pub open spec fn slice(bytes: Seq<u8>, token: Token) -> Seq<u8> {
    if token.start <= token.end <= bytes.len() {
        bytes.subrange(token.start as int, token.end as int)
    } else {
        Seq::empty()
    }
}

/// The text of a token.
pub open spec fn word(x: Source, token: Token) -> Seq<char> {
    crate::vm::lookup::text_or(slice(x.bytes, token), Seq::empty())
}

/// What the literal that was read last is worth.
pub open spec fn literal(x: Source, s: State) -> Option<Value> {
    if 0 < s.at <= x.literals.len() {
        x.literals[s.at - 1]
    } else {
        None
    }
}

/// What the string that was read last is worth.
pub open spec fn text_literal(x: Source, s: State) -> Value {
    match literal(x, s) {
        Some(value) => value,
        None => Value::null(),
    }
}

/// How many values more an instruction leaves on the stack, where running goes
/// on behind it. A call leaves one for its receiver and arguments.
pub open spec fn effect(op: Op) -> int {
    match op {
        Op::Null | Op::True | Op::False | Op::Constant | Op::LoadLocal | Op::LoadModuleVar => 1,
        Op::Pop | Op::JumpIf | Op::And | Op::Or => -1,
        _ => 0,
    }
}

/// An instruction begun.
#[verifier::opaque]
pub open spec fn emit_op(s: State, op: Op, line: u16) -> State {
    if s.fault is Some {
        s
    } else {
        State { code: s.code.op(op, line), height: s.height + effect(op), ..s }
    }
}

/// An instruction with a byte operand.
#[verifier::opaque]
pub open spec fn emit_with_byte(s: State, op: Op, byte: u8, line: u16) -> State {
    if s.fault is Some {
        s
    } else {
        State {
            code: s.code.op(op, line).byte(byte),
            height: s.height + effect(op),
            ..s
        }
    }
}

/// An instruction with an operand unit.
#[verifier::opaque]
pub open spec fn emit_with_short(s: State, op: Op, value: u16, line: u16) -> State {
    if s.fault is Some {
        s
    } else {
        State {
            code: s.code.op(op, line).short(value),
            height: s.height + effect(op),
            ..s
        }
    }
}

/// A constant loaded.
#[verifier::opaque]
pub open spec fn emit_constant(s: State, value: Value, line: u16) -> State {
    if s.fault is Some {
        s
    } else {
        let t = State { code: s.code.constant(value), ..s };
        match s.code.place_of(value) {
            None => fail(t, s.previous, "Too many constants."@),
            Some(place) => emit_with_short(t, Op::Constant, place, line),
        }
    }
}

/// A method called.
#[verifier::opaque]
pub open spec fn emit_call(s: State, signature: Seq<char>, arity: nat, line: u16) -> State {
    if s.fault is Some {
        s
    } else {
        let t = State {
            methods: if s.methods.contains(signature) {
                s.methods
            } else {
                s.methods.push(signature)
            },
            ..s
        };
        let symbol = t.methods.index_of(signature);
        if symbol > u16::MAX {
            fail(t, s.previous, "Too many method names."@)
        } else {
            State {
                code: t.code.op(Op::Call, line).byte(arity as u8).short(symbol as u16),
                height: t.height - arity,
                ..t
            }
        }
    }
}

/// A jump begun.
#[verifier::opaque]
pub open spec fn emit_jump(s: State, op: Op, line: u16) -> State {
    if s.fault is Some {
        s
    } else {
        State { code: s.code.jump(op, line), height: s.height + effect(op), ..s }
    }
}

/// Where the distance of a jump that is begun now goes.
pub open spec fn jump_place(s: State) -> int {
    s.code.units.len() as int + 1
}

/// A jump made to lead here.
#[verifier::opaque]
pub open spec fn patch(s: State, at: int) -> State {
    if s.fault is Some {
        s
    } else {
        let t = State { code: s.code.patch(at), ..s };
        if s.code.within_jump(at) {
            t
        } else {
            fail(t, s.previous, "Too much code to jump over."@)
        }
    }
}

/// A jump back. Nothing can jump back from the end of memory.
#[verifier::opaque]
pub open spec fn emit_loop(s: State, start: int, line: u16) -> State {
    if s.fault is Some {
        s
    } else if s.code.units.len() + 2 > usize::MAX {
        fail(s, s.previous, "Loop body too large."@)
    } else {
        let t = State { code: s.code.back(start, line), ..s };
        if s.code.within_loop(start) {
            t
        } else {
            fail(t, s.previous, "Loop body too large."@)
        }
    }
}

/// A block begun.
#[verifier::opaque]
pub open spec fn begin_scope(s: State) -> State {
    if s.fault is Some {
        s
    } else {
        State { depth: s.depth + 1, ..s }
    }
}

/// The locals of the block that is ending dropped.
pub open spec fn drop_locals(s: State, line: u16) -> State
    decreases s.locals.len(),
{
    if s.locals.len() == 0 || s.locals.last().depth < s.depth {
        s
    } else {
        drop_locals(
            State {
                locals: s.locals.drop_last(),
                code: s.code.op(Op::Pop, line),
                height: s.height - 1,
                ..s
            },
            line,
        )
    }
}

/// A block ended.
#[verifier::opaque]
pub open spec fn end_scope(s: State) -> State {
    if s.fault is Some {
        s
    } else {
        let t = drop_locals(s, line_of(s));
        State { depth: t.depth - 1, ..t }
    }
}

/// The innermost local of a name.
pub open spec fn resolve_local(locals: Seq<LocalModel>, name: Seq<char>) -> Option<int>
    decreases locals.len(),
{
    if locals.len() == 0 {
        None
    } else if locals.last().name == name {
        Some(locals.len() - 1)
    } else {
        resolve_local(locals.drop_last(), name)
    }
}

/// A name refers to a local of that name, and to the innermost one.
pub proof fn law_innermost_local_is_meant(locals: Seq<LocalModel>, name: Seq<char>)
    ensures
        match resolve_local(locals, name) {
            Some(slot) => {
                &&& 0 <= slot < locals.len()
                &&& locals[slot].name == name
                &&& forall|i: int| slot < i < locals.len() ==> locals[i].name != name
            },
            None => forall|i: int| 0 <= i < locals.len() ==> locals[i].name != name,
        },
    decreases locals.len(),
{
    if locals.len() > 0 && locals.last().name != name {
        let earlier = locals.drop_last();
        law_innermost_local_is_meant(earlier, name);
        assert(forall|i: int| 0 <= i < earlier.len() ==> #[trigger] locals[i] == earlier[i]);
    }
}

/// What a loop keeps in locals of its own cannot be named: no name holds a
/// space.
pub proof fn law_hidden_locals_cannot_be_named(locals: Seq<LocalModel>, name: Seq<char>)
    requires
        !name.contains(' '),
    ensures
        resolve_local(locals, name) matches Some(slot) ==> locals[slot].name != "seq "@
            && locals[slot].name != "iter "@,
{
    reveal_strlit("seq ");
    reveal_strlit("iter ");
    assert("seq "@[3] == ' ');
    assert("iter "@[4] == ' ');
    law_innermost_local_is_meant(locals, name);
}

/// A local declared, whose value is on the stack.
#[verifier::opaque]
pub open spec fn add_local(s: State, name: Seq<char>) -> State {
    if s.fault is Some {
        s
    } else if s.locals.len() >= u8::MAX {
        fail(s, s.previous, "Too many local variables in scope."@)
    } else {
        State { locals: s.locals.push(LocalModel { name, depth: s.depth }), ..s }
    }
}

/// Once compiling has failed, no token is read any more.
pub broadcast proof fn lemma_failed_advance(x: Source, s: State)
    requires
        s.fault is Some,
    ensures
        #[trigger] advance(x, s) == s,
{
    reveal(advance);
}

/// Once compiling has failed, no token is asked for any more.
pub broadcast proof fn lemma_failed_consume(x: Source, s: State, kind: TokenKind, message: Seq<char>)
    requires
        s.fault is Some,
    ensures
        #[trigger] consume(x, s, kind, message) == s,
{
    reveal(consume);
}

/// Once compiling has failed, no line ends any more.
pub broadcast proof fn lemma_failed_skip_lines(x: Source, s: State)
    requires
        s.fault is Some,
    ensures
        #[trigger] skip_lines(x, s) == s,
{
    reveal(skip_lines);
}

/// Once compiling has failed, no statement ends any more.
pub broadcast proof fn lemma_failed_consume_line(x: Source, s: State, message: Seq<char>)
    requires
        s.fault is Some,
    ensures
        #[trigger] consume_line(x, s, message) == s,
{
    reveal(consume_line);
}

/// Once compiling has failed, no instruction is begun any more.
pub broadcast proof fn lemma_failed_emit_op(s: State, op: Op, line: u16)
    requires
        s.fault is Some,
    ensures
        #[trigger] emit_op(s, op, line) == s,
{
    reveal(emit_op);
}

/// Once compiling has failed, nothing with a byte operand is emitted any more.
pub broadcast proof fn lemma_failed_emit_with_byte(s: State, op: Op, byte: u8, line: u16)
    requires
        s.fault is Some,
    ensures
        #[trigger] emit_with_byte(s, op, byte, line) == s,
{
    reveal(emit_with_byte);
}

/// Once compiling has failed, nothing with an operand unit is emitted any more.
pub broadcast proof fn lemma_failed_emit_with_short(s: State, op: Op, value: u16, line: u16)
    requires
        s.fault is Some,
    ensures
        #[trigger] emit_with_short(s, op, value, line) == s,
{
    reveal(emit_with_short);
}

/// Once compiling has failed, no constant is loaded any more.
pub broadcast proof fn lemma_failed_emit_constant(s: State, value: Value, line: u16)
    requires
        s.fault is Some,
    ensures
        #[trigger] emit_constant(s, value, line) == s,
{
    reveal(emit_constant);
}

/// Once compiling has failed, nothing is called any more.
pub broadcast proof fn lemma_failed_emit_call(s: State, signature: Seq<char>, arity: nat, line: u16)
    requires
        s.fault is Some,
    ensures
        #[trigger] emit_call(s, signature, arity, line) == s,
{
    reveal(emit_call);
}

/// Once compiling has failed, no jump is begun any more.
pub broadcast proof fn lemma_failed_emit_jump(s: State, op: Op, line: u16)
    requires
        s.fault is Some,
    ensures
        #[trigger] emit_jump(s, op, line) == s,
{
    reveal(emit_jump);
}

/// Once compiling has failed, no jump ends any more.
pub broadcast proof fn lemma_failed_patch(s: State, at: int)
    requires
        s.fault is Some,
    ensures
        #[trigger] patch(s, at) == s,
{
    reveal(patch);
}

/// Once compiling has failed, nothing jumps back any more.
pub broadcast proof fn lemma_failed_emit_loop(s: State, start: int, line: u16)
    requires
        s.fault is Some,
    ensures
        #[trigger] emit_loop(s, start, line) == s,
{
    reveal(emit_loop);
}

/// Once compiling has failed, no block begins any more.
pub broadcast proof fn lemma_failed_begin_scope(s: State)
    requires
        s.fault is Some,
    ensures
        #[trigger] begin_scope(s) == s,
{
    reveal(begin_scope);
}

/// Once compiling has failed, no block ends any more.
pub broadcast proof fn lemma_failed_end_scope(s: State)
    requires
        s.fault is Some,
    ensures
        #[trigger] end_scope(s) == s,
{
    reveal(end_scope);
}

/// Once compiling has failed, no local is declared any more.
pub broadcast proof fn lemma_failed_add_local(s: State, name: Seq<char>)
    requires
        s.fault is Some,
    ensures
        #[trigger] add_local(s, name) == s,
{
    reveal(add_local);
}

/// Whether the method signatures and the module's variables of one state are
/// still there in another, under the same numbers.
#[verifier::opaque]
pub open spec fn grows(s: State, t: State) -> bool {
    s.methods.is_prefix_of(t.methods) && s.scope.names.is_prefix_of(t.scope.names)
}

/// Names that did not change are still there.
pub broadcast proof fn lemma_grows_same(s: State, t: State)
    requires
        s.methods == t.methods,
        s.scope.names == t.scope.names,
    ensures
        #[trigger] grows(s, t),
{
    reveal(grows);
}

/// What is there through two steps is there.
pub broadcast proof fn lemma_grows_on(s: State, t: State, u: State)
    requires
        #[trigger] grows(s, t),
        #[trigger] grows(t, u),
    ensures
        grows(s, u),
{
    reveal(grows);
}

/// How names stay.
pub broadcast group group_grows {
    lemma_grows_same,
    lemma_grows_on,
}

/// Once compiling has failed, nothing changes any more.
pub broadcast group group_failed {
    lemma_failed_advance,
    lemma_failed_consume,
    lemma_failed_skip_lines,
    lemma_failed_consume_line,
    lemma_failed_emit_op,
    lemma_failed_emit_with_byte,
    lemma_failed_emit_with_short,
    lemma_failed_emit_constant,
    lemma_failed_emit_call,
    lemma_failed_emit_jump,
    lemma_failed_patch,
    lemma_failed_emit_loop,
    lemma_failed_begin_scope,
    lemma_failed_end_scope,
    lemma_failed_add_local,
}

/// An expression.
pub open spec fn expression(x: Source, s: State, limit: nat) -> State
    decreases limit, 2nat,
{
    parse(x, s, limit, Precedence::Lowest)
}

/// An expression that binds at least so tightly.
pub open spec fn parse(x: Source, s: State, limit: nat, precedence: Precedence) -> State
    decreases limit, 1nat,
{
    if s.fault is Some {
        s
    } else {
        let t = advance(x, s);
        if remaining(x, s) <= 0 || limit == 0 {
            fail(t, t.previous, "Expected expression."@)
        } else {
            let can_assign = precedence.spec_rank() <= Precedence::Assignment.spec_rank();
            if t.fault is Some {
                t
            } else {
                let u = prefix(x, t, (limit - 1) as nat, can_assign);
                if u.fault is Some {
                    u
                } else {
                    climb(x, u, (limit - 1) as nat, precedence, can_assign)
                }
            }
        }
    }
}

/// What follows an operand, as far as it binds at least so tightly.
pub open spec fn climb(
    x: Source,
    s: State,
    limit: nat,
    precedence: Precedence,
    can_assign: bool,
) -> State
    decreases limit, 0nat,
{
    if s.fault is Some {
        s
    } else if limit > 0 && remaining(x, s) > 0 && precedence.spec_rank()
        <= words::spec_infix_precedence(current(x, s).kind).spec_rank() {
        let t = advance(x, s);
        if t.fault is Some {
            t
        } else {
            let u = infix(x, t, (limit - 1) as nat);
            if u.fault is Some {
                u
            } else {
                climb(x, u, (limit - 1) as nat, precedence, can_assign)
            }
        }
    } else if can_assign && current(x, s).kind == TokenKind::Eq {
        fail(s, current(x, s), "Invalid assignment target."@)
    } else {
        s
    }
}

/// What an expression starts with, which was just read.
pub open spec fn prefix(x: Source, s: State, limit: nat, can_assign: bool) -> State
    decreases limit, 7nat,
{
    if s.fault is Some {
        s
    } else {
        let token = s.previous;
        let line = words::spec_clamp_line(token.line);
        match token.kind {
            TokenKind::Number => match literal(x, s) {
                None => fail(s, token, "Invalid number literal."@),
                Some(value) => emit_constant(s, value, line),
            },
            TokenKind::String => emit_constant(s, text_literal(x, s), line),
            TokenKind::Interpolation => interpolation(x, s, limit),
            TokenKind::True => emit_op(s, Op::True, line),
            TokenKind::False => emit_op(s, Op::False, line),
            TokenKind::Null => emit_op(s, Op::Null, line),
            TokenKind::Name => variable(x, s, limit, can_assign),
            TokenKind::LeftParen => {
                let t = skip_lines(x, s);
                if t.fault is Some {
                    t
                } else {
                    consume(
                        x,
                        skip_lines(x, expression(x, t, limit)),
                        TokenKind::RightParen,
                        "Expect ')' after expression."@,
                    )
                }
            },
            TokenKind::LeftBracket => list_literal(x, s, limit),
            TokenKind::Minus => emit_call(
                parse(x, s, limit, Precedence::Unary),
                "-"@,
                0,
                line,
            ),
            TokenKind::Bang => emit_call(parse(x, s, limit, Precedence::Unary), "!"@, 0, line),
            _ => fail(s, token, "Expected expression."@),
        }
    }
}

/// What comes after an operand, whose first token was just read.
pub open spec fn infix(x: Source, s: State, limit: nat) -> State
    decreases limit, 7nat,
{
    if s.fault is Some {
        s
    } else {
        let token = s.previous;
        let line = words::spec_clamp_line(token.line);
        match token.kind {
            TokenKind::AmpAmp => {
                let t = skip_lines(x, emit_jump(s, Op::And, line));
                if t.fault is Some {
                    t
                } else {
                    patch(parse(x, t, limit, Precedence::LogicalAnd), jump_place(s))
                }
            },
            TokenKind::PipePipe => {
                let t = skip_lines(x, emit_jump(s, Op::Or, line));
                if t.fault is Some {
                    t
                } else {
                    patch(parse(x, t, limit, Precedence::LogicalOr), jump_place(s))
                }
            },
            TokenKind::Dot => method_call(x, s, limit),
            TokenKind::LeftBracket => subscript(x, s, limit),
            _ => match words::spec_operator_name(token.kind) {
                None => fail(s, token, "Expected operator."@),
                Some(name) => {
                    let t = skip_lines(x, s);
                    let next = words::spec_tighter(words::spec_infix_precedence(token.kind));
                    if t.fault is Some {
                        t
                    } else {
                        emit_call(
                            parse(x, t, limit, next),
                            words::spec_signature(name, 1),
                            1,
                            line,
                        )
                    }
                },
            },
        }
    }
}

/// A call of a method with arguments, whose parenthesis is next.
pub open spec fn invocation(x: Source, s: State, limit: nat, name: Seq<char>, line: u16) -> State
    decreases limit, 5nat,
{
    let t = advance(x, s);
    if t.fault is Some {
        t
    } else {
        let list = argument_list(x, t, limit);
        emit_call(list.state, words::spec_signature(name, list.count), list.count, line)
    }
}

/// A call of a method that stores a value, whose equals sign is next.
pub open spec fn assignment(
    x: Source,
    s: State,
    limit: nat,
    signature: Seq<char>,
    arity: nat,
    line: u16,
) -> State
    decreases limit, 5nat,
{
    let t = skip_lines(x, advance(x, s));
    if t.fault is Some {
        t
    } else {
        emit_call(expression(x, t, limit), signature, arity, line)
    }
}

/// A call of a method, after its dot.
pub open spec fn method_call(x: Source, s: State, limit: nat) -> State
    decreases limit, 6nat,
{
    let s = consume(x, s, TokenKind::Name, "Expect method name after '.'."@);
    let name = word(x, s.previous);
    let line = line_of(s);
    if accepts(x, s, TokenKind::LeftParen) {
        invocation(x, s, limit, name, line)
    } else if accepts(x, s, TokenKind::Eq) {
        assignment(x, s, limit, name + "=(_)"@, 1, line)
    } else {
        emit_call(s, name, 0, line)
    }
}

/// A subscript, after its bracket.
pub open spec fn subscript(x: Source, s: State, limit: nat) -> State
    decreases limit, 6nat,
{
    let line = line_of(s);
    let t = skip_lines(x, s);
    if t.fault is Some {
        t
    } else {
        let u = skip_lines(x, expression(x, t, limit));
        let u = consume(x, u, TokenKind::RightBracket, "Expect ']' after subscript."@);
        if accepts(x, u, TokenKind::Eq) {
            assignment(x, u, limit, "[_]=(_)"@, 2, line)
        } else {
            emit_call(u, "[_]"@, 1, line)
        }
    }
}

/// Arguments, and how many there are.
pub struct Counted {
    pub state: State,
    pub count: nat,
}

/// Arguments up to the closing parenthesis.
pub open spec fn argument_list(x: Source, s: State, limit: nat) -> Counted
    decreases limit, 4nat,
{
    let s = skip_lines(x, s);
    let list = if s.fault is Some || current(x, s).kind == TokenKind::RightParen {
        Counted { state: s, count: 0 }
    } else {
        arguments(x, s, limit, 0)
    };
    Counted {
        state: consume(
            x,
            skip_lines(x, list.state),
            TokenKind::RightParen,
            "Expect ')' after arguments."@,
        ),
        count: list.count,
    }
}

/// Arguments with commas between them, after so many.
pub open spec fn arguments(x: Source, s: State, limit: nat, count: nat) -> Counted
    decreases limit, 3nat,
{
    let s = skip_lines(x, s);
    let t = if s.fault is Some {
        s
    } else {
        expression(x, s, limit)
    };
    let more = count + 1;
    if t.fault is Some {
        Counted { state: t, count: more }
    } else if more > install::MAX_CALL {
        Counted {
            state: fail(t, current(x, t), "Cannot pass more than 16 arguments."@),
            count: more,
        }
    } else {
        let u = skip_lines(x, t);
        if accepts(x, u, TokenKind::Comma) && limit > 0 {
            let v = advance(x, u);
            if v.fault is Some {
                Counted { state: v, count: more }
            } else {
                arguments(x, v, (limit - 1) as nat, more)
            }
        } else {
            Counted { state: u, count: more }
        }
    }
}

/// A variable, whose name was just read, read or given a value.
pub open spec fn variable(x: Source, s: State, limit: nat, can_assign: bool) -> State
    decreases limit, 5nat,
{
    let name = word(x, s.previous);
    let line = line_of(s);
    if can_assign && accepts(x, s, TokenKind::Eq) {
        let u = skip_lines(x, advance(x, s));
        let t = if u.fault is Some {
            u
        } else {
            expression(x, u, limit)
        };
        if t.fault is Some {
            t
        } else {
            match resolve_local(t.locals, name) {
                Some(slot) => emit_with_byte(t, Op::StoreLocal, slot as u8, line),
                None => if t.scope.names.contains(name) {
                    emit_with_short(
                        t,
                        Op::StoreModuleVar,
                        t.scope.names.index_of(name) as u16,
                        line,
                    )
                } else {
                    fail(t, t.previous, "Variable is not defined."@)
                },
            }
        }
    } else if s.fault is Some {
        s
    } else {
        match resolve_local(s.locals, name) {
            Some(slot) => emit_with_byte(s, Op::LoadLocal, slot as u8, line),
            None => if s.scope.names.contains(name) {
                emit_with_short(s, Op::LoadModuleVar, s.scope.names.index_of(name) as u16, line)
            } else {
                fail(s, s.previous, "Variable is not defined."@)
            },
        }
    }
}

/// A list, after its bracket: made, and given each element.
pub open spec fn list_literal(x: Source, s: State, limit: nat) -> State
    decreases limit, 5nat,
{
    let line = line_of(s);
    if s.fault is Some {
        s
    } else if !s.scope.names.contains("List"@) {
        fail(s, s.previous, "List class is not defined."@)
    } else {
        let t = emit_with_short(
            s,
            Op::LoadModuleVar,
            s.scope.names.index_of("List"@) as u16,
            line,
        );
        let t = skip_lines(x, emit_call(t, "new"@, 0, line));
        let t = if t.fault is Some || current(x, t).kind == TokenKind::RightBracket {
            t
        } else {
            elements(x, t, limit, line)
        };
        consume(
            x,
            skip_lines(x, t),
            TokenKind::RightBracket,
            "Expect ']' after list elements."@,
        )
    }
}

/// Elements with commas between them, and perhaps one after the last.
pub open spec fn elements(x: Source, s: State, limit: nat, line: u16) -> State
    decreases limit, 3nat,
{
    let s = skip_lines(x, s);
    if s.fault is Some || current(x, s).kind == TokenKind::RightBracket {
        s
    } else {
        let t = emit_call(expression(x, s, limit), "addCore(_)"@, 1, line);
        let t = skip_lines(x, t);
        if accepts(x, t, TokenKind::Comma) && limit > 0 {
            let u = advance(x, t);
            if u.fault is Some {
                u
            } else {
                elements(x, u, (limit - 1) as nat, line)
            }
        } else {
            t
        }
    }
}

/// A string with expressions in it, whose first part was just read.
pub open spec fn interpolation(x: Source, s: State, limit: nat) -> State
    decreases limit, 5nat,
{
    let line = line_of(s);
    let t = emit_constant(s, text_literal(x, s), line);
    if t.fault is Some {
        t
    } else {
        pieces(x, t, limit, line)
    }
}

/// The rest of a string with expressions in it.
pub open spec fn pieces(x: Source, s: State, limit: nat, line: u16) -> State
    decreases limit, 3nat,
{
    let s = skip_lines(x, s);
    let t = if s.fault is Some {
        s
    } else {
        expression(x, s, limit)
    };
    let t = emit_call(emit_call(t, "toString"@, 0, line), "+(_)"@, 1, line);
    if accepts(x, t, TokenKind::Interpolation) && limit > 0 {
        let u = advance(x, t);
        let u = emit_call(emit_constant(u, text_literal(x, u), line), "+(_)"@, 1, line);
        if u.fault is Some {
            u
        } else {
            pieces(x, u, (limit - 1) as nat, line)
        }
    } else {
        let u = consume(x, t, TokenKind::String, "Expect end of string interpolation."@);
        emit_call(emit_constant(u, text_literal(x, u), line), "+(_)"@, 1, line)
    }
}

/// A declaration or a statement, and the end of its line.
pub open spec fn declaration(x: Source, s: State, limit: nat) -> State
    decreases limit, 10nat,
{
    consume_line(x, declared(x, s, limit), "Expect newline after statement."@)
}

/// A declaration or a statement.
pub open spec fn declared(x: Source, s: State, limit: nat) -> State
    decreases limit, 9nat,
{
    if accepts(x, s, TokenKind::Var) && limit > 0 {
        let u = advance(x, s);
        if u.fault is Some {
            u
        } else {
            var_declaration(x, u, (limit - 1) as nat)
        }
    } else {
        statement(x, s, limit)
    }
}

/// A variable declared, after `var`.
pub open spec fn var_declaration(x: Source, s: State, limit: nat) -> State
    decreases limit, 6nat,
{
    let s = consume(x, s, TokenKind::Name, "Expect variable name."@);
    let name = word(x, s.previous);
    let line = line_of(s);
    let t = if accepts(x, s, TokenKind::Eq) {
        let u = skip_lines(x, advance(x, s));
        if u.fault is Some {
            u
        } else {
            expression(x, u, limit)
        }
    } else {
        emit_op(s, Op::Null, line)
    };
    if t.fault is Some {
        t
    } else if t.depth == 0 {
        let scope = install::put(t.scope, name, Value::null());
        let u = State { scope, ..t };
        emit_op(
            emit_with_short(u, Op::StoreModuleVar, scope.names.index_of(name) as u16, line),
            Op::Pop,
            line,
        )
    } else {
        add_local(t, name)
    }
}

/// A statement.
pub open spec fn statement(x: Source, s: State, limit: nat) -> State
    decreases limit, 8nat,
{
    if s.fault is Some {
        s
    } else if accepts(x, s, TokenKind::LeftBrace) && limit > 0 {
        let t = skip_lines(x, begin_scope(advance(x, s)));
        if t.fault is Some {
            t
        } else {
            end_scope(block(x, t, (limit - 1) as nat))
        }
    } else if limit > 0 && (accepts(x, s, TokenKind::If) || accepts(x, s, TokenKind::While)
        || accepts(x, s, TokenKind::For)) {
        let t = advance(x, s);
        if t.fault is Some {
            t
        } else if current(x, s).kind == TokenKind::If {
            if_statement(x, t, (limit - 1) as nat)
        } else if current(x, s).kind == TokenKind::While {
            while_statement(x, t, (limit - 1) as nat)
        } else {
            for_statement(x, t, (limit - 1) as nat)
        }
    } else {
        let t = expression(x, s, limit);
        emit_op(t, Op::Pop, line_of(t))
    }
}

/// Declarations up to the closing brace.
pub open spec fn block(x: Source, s: State, limit: nat) -> State
    decreases limit, 11nat,
{
    if s.fault is Some {
        s
    } else if current(x, s).kind == TokenKind::RightBrace || current(x, s).kind
        == TokenKind::Eof || limit == 0 {
        consume(x, s, TokenKind::RightBrace, "Expect '}' after block."@)
    } else {
        let t = skip_lines(x, declaration(x, s, limit));
        if t.fault is Some {
            t
        } else {
            block(x, t, (limit - 1) as nat)
        }
    }
}

/// A condition in parentheses.
pub open spec fn condition(
    x: Source,
    s: State,
    limit: nat,
    opening: Seq<char>,
    closing: Seq<char>,
) -> State
    decreases limit, 7nat,
{
    let s = skip_lines(x, consume(x, s, TokenKind::LeftParen, opening));
    if s.fault is Some {
        s
    } else {
        consume(x, skip_lines(x, expression(x, s, limit)), TokenKind::RightParen, closing)
    }
}

/// A statement that a condition decides, after `if`.
pub open spec fn if_statement(x: Source, s: State, limit: nat) -> State
    decreases limit, 9nat,
{
    let s = condition(
        x,
        s,
        limit,
        "Expect '(' after 'if'."@,
        "Expect ')' after if condition."@,
    );
    let past = jump_place(s);
    let t = skip_lines(x, emit_jump(s, Op::JumpIf, line_of(s)));
    if t.fault is Some {
        t
    } else {
        let t = statement(x, t, limit);
        if accepts(x, t, TokenKind::Else) {
            let u = advance(x, t);
            let end = jump_place(u);
            let u = skip_lines(x, patch(emit_jump(u, Op::Jump, line_of(u)), past));
            if u.fault is Some {
                u
            } else {
                patch(statement(x, u, limit), end)
            }
        } else {
            patch(t, past)
        }
    }
}

/// A loop while a condition holds, after `while`.
pub open spec fn while_statement(x: Source, s: State, limit: nat) -> State
    decreases limit, 9nat,
{
    let start = s.code.units.len() as int;
    let s = condition(
        x,
        s,
        limit,
        "Expect '(' after 'while'."@,
        "Expect ')' after while condition."@,
    );
    let exit = jump_place(s);
    let t = skip_lines(x, emit_jump(s, Op::JumpIf, line_of(s)));
    if t.fault is Some {
        t
    } else {
        let t = statement(x, t, limit);
        patch(emit_loop(t, start, line_of(t)), exit)
    }
}

/// The head of a loop over a sequence, up to the sequence itself.
pub open spec fn for_head(x: Source, s: State) -> State {
    let s = consume(x, begin_scope(s), TokenKind::LeftParen, "Expect '(' after 'for'."@);
    consume(x, s, TokenKind::Name, "Expect for loop variable name."@)
}

/// What a loop over a sequence does before each time round. What it iterates
/// and how far it has got are locals that no program can name.
pub open spec fn for_setup(x: Source, s: State) -> State {
    let s = add_local(s, "seq "@);
    let s = emit_op(s, Op::Null, line_of(s));
    let s = add_local(s, "iter "@);
    consume(x, s, TokenKind::RightParen, "Expect ')' after loop expression."@)
}

/// How a loop over a sequence asks for the next element.
pub open spec fn for_advance(s: State, sequence: int, line: u16) -> State {
    let s = emit_with_byte(s, Op::LoadLocal, sequence as u8, line);
    let s = emit_with_byte(s, Op::LoadLocal, (sequence + 1) as u8, line);
    let s = emit_call(s, "iterate(_)"@, 1, line);
    emit_with_byte(s, Op::StoreLocal, (sequence + 1) as u8, line)
}

/// How a loop over a sequence gives its variable an element.
pub open spec fn for_bind(s: State, sequence: int, name: Seq<char>, line: u16) -> State {
    let s = begin_scope(emit_jump(s, Op::JumpIf, line));
    let s = emit_with_byte(s, Op::LoadLocal, sequence as u8, line);
    let s = emit_with_byte(s, Op::LoadLocal, (sequence + 1) as u8, line);
    let s = emit_call(s, "iteratorValue(_)"@, 1, line);
    add_local(s, name)
}

/// A loop over a sequence, after `for`.
pub open spec fn for_statement(x: Source, s: State, limit: nat) -> State
    decreases limit, 9nat,
{
    let s = for_head(x, s);
    let name = word(x, s.previous);
    let s = skip_lines(
        x,
        consume(x, s, TokenKind::In, "Expect 'in' after loop variable."@),
    );
    if s.fault is Some {
        s
    } else {
        let s = expression(x, s, limit);
        let sequence = s.locals.len() as int;
        let s = for_setup(x, s);
        let start = s.code.units.len() as int;
        let line = line_of(s);
        let s = for_advance(s, sequence, line);
        let exit = jump_place(s);
        let s = skip_lines(x, for_bind(s, sequence, name, line));
        if s.fault is Some {
            s
        } else {
            let s = end_scope(statement(x, s, limit));
            end_scope(patch(emit_loop(s, start, line_of(s)), exit))
        }
    }
}

/// Declarations up to the end of the source.
pub open spec fn program(x: Source, s: State, limit: nat) -> State
    decreases limit,
{
    if s.fault is Some || current(x, s).kind == TokenKind::Eof || limit == 0 {
        s
    } else {
        let t = skip_lines(x, declaration(x, s, limit));
        if t.fault is Some {
            t
        } else {
            program(x, t, (limit - 1) as nat)
        }
    }
}

/// What stands in for the token before the first.
pub open spec fn before_first() -> Token {
    Token { kind: TokenKind::Eof, start: 0, end: 0, line: 1 }
}

/// How far compiling has got before it starts.
pub open spec fn initial(methods: Seq<Seq<char>>, scope: Scope) -> State {
    State {
        at: 0,
        previous: before_first(),
        code: Code {
            units: Seq::empty(),
            constants: Seq::empty(),
            known: Map::empty(),
            lines: Seq::empty(),
            open: None,
            inline: false,
        },
        height: 0,
        locals: Seq::empty(),
        depth: 0,
        methods,
        scope,
        fault: None,
    }
}

/// The first token read.
pub open spec fn opened(x: Source, s: State) -> State {
    if current(x, s).kind == TokenKind::Error {
        fail(s, current(x, s), "Invalid token."@)
    } else {
        s
    }
}

/// A source compiled.
pub open spec fn compiled(x: Source, methods: Seq<Seq<char>>, scope: Scope) -> State {
    let s = skip_lines(x, opened(x, initial(methods, scope)));
    let s = program(x, s, x.tokens.len());
    emit_op(s, Op::End, words::spec_clamp_line(current(x, s).line))
}

} // verus!
