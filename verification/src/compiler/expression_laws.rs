//! What running the code of an operand does: which variable it reads or
//! stores, what it calls, and what it leaves behind.

use vstd::prelude::*;

use super::flow_laws;
use super::flow_laws::Step;
use super::frame;
use super::grammar;
use super::grammar::{Source, State};
use super::operator_laws;
use super::words;
use crate::bytecode::Op;
use crate::lexer::TokenKind;
use crate::value::Value;

verus! {

/// Whether a local is the innermost of a name.
pub open spec fn is_innermost(s: State, name: Seq<char>, slot: int) -> bool {
    &&& 0 <= slot < s.locals.len()
    &&& s.locals[slot].name == name
    &&& forall|i: int| slot < i < s.locals.len() ==> s.locals[i].name != name
}

/// The innermost local of a name is what the name refers to.
proof fn lemma_innermost(s: State, name: Seq<char>, slot: int)
    requires
        is_innermost(s, name, slot),
    ensures
        grammar::resolve_local(s.locals, name) == Some(slot),
{
    grammar::law_innermost_local_is_meant(s.locals, name);
}

/// A name that is read is the innermost local of that name: running pushes its
/// value.
pub proof fn law_local_variable_is_read(
    x: Source,
    s: State,
    limit: nat,
    can_assign: bool,
    slot: int,
    step: Step,
)
    requires
        frame::orderly(s.code),
        s.previous.kind == TokenKind::Name,
        !(can_assign && grammar::accepts(x, s, TokenKind::Eq)),
        is_innermost(s, grammar::word(x, s.previous), slot),
        slot < 256,
        grammar::prefix(x, s, limit, can_assign).fault is None,
        frame::follows(grammar::prefix(x, s, limit, can_assign), step.code),
        step.runs_at(s.code.units.len() as int),
    ensures
        step.loads(slot),
        grammar::prefix(x, s, limit, can_assign).code.units.len() == s.code.units.len() + 1,
{
    let name = grammar::word(x, s.previous);
    let line = grammar::line_of(s);
    let end = grammar::prefix(x, s, limit, can_assign);
    lemma_innermost(s, name, slot);
    if s.fault is Some {
        assert(end.fault is Some);
    }
    flow_laws::lemma_emits_byte(s, Op::LoadLocal, slot as u8, line);
    frame::lemma_complete_is_sealed(s.code);
    flow_laws::lemma_unit_stays(end, step.code, s.code.units.len() as int);
    flow_laws::lemma_loads(step, slot as u8);
}

/// A name that is no local is read from the module's variables: running pushes
/// the value of one of that name.
pub proof fn law_module_variable_is_read(
    x: Source,
    s: State,
    limit: nat,
    can_assign: bool,
    step: Step,
)
    requires
        frame::orderly(s.code),
        s.previous.kind == TokenKind::Name,
        !(can_assign && grammar::accepts(x, s, TokenKind::Eq)),
        forall|i: int|
            0 <= i < s.locals.len() ==> (#[trigger] s.locals[i]).name != grammar::word(
                x,
                s.previous,
            ),
        s.scope.names.len() <= u16::MAX,
        step.run.module < step.before.modules@.len(),
        s.scope.names.len() <= step.before.modules@[step.run.module as int].values@.len(),
        grammar::prefix(x, s, limit, can_assign).fault is None,
        frame::follows(grammar::prefix(x, s, limit, can_assign), step.code),
        step.runs_at(s.code.units.len() as int),
    ensures
        exists|i: int|
            0 <= i < s.scope.names.len() && #[trigger] s.scope.names[i] == grammar::word(
                x,
                s.previous,
            ) && step.goes_to(
                s.code.units.len() as int + 2,
                step.before.stack@.push(
                    step.before.modules@[step.run.module as int].values@[i],
                ),
            ),
{
    let name = grammar::word(x, s.previous);
    let line = grammar::line_of(s);
    let at = s.code.units.len() as int;
    let end = grammar::prefix(x, s, limit, can_assign);
    grammar::law_innermost_local_is_meant(s.locals, name);
    if s.fault is Some {
        assert(end.fault is Some);
    }
    let place = s.scope.names.index_of(name);
    if s.scope.names.contains(name) {
        assert(s.scope.names[place] == name && 0 <= place < s.scope.names.len());
    }
    flow_laws::lemma_emits_short(s, Op::LoadModuleVar, place as u16, line);
    frame::lemma_complete_is_sealed(s.code);
    flow_laws::lemma_unit_stays(end, step.code, at);
    flow_laws::lemma_unit_stays(end, step.code, at + 1);
    flow_laws::lemma_is_at(step.run, step.code, Op::LoadModuleVar, 1, 0);
    flow_laws::lemma_counted(step.run);
    assert(step.run.unit(at + 1) == step.code.code.sealed()[at + 1]);
    flow_laws::lemma_steps(
        step.before,
        step.after,
        step.run,
        step.next,
        step.outcome,
        Op::LoadModuleVar,
        0,
    );
}

/// Where the value that a name is given has been read.
pub open spec fn assigned(x: Source, s: State, limit: nat) -> State {
    grammar::expression(x, grammar::skip_lines(x, grammar::advance(x, s)), limit)
}

/// A local that is given a value holds it afterwards, and the value stays on
/// the stack; no other place of the stack changes.
pub proof fn law_local_variable_is_stored(x: Source, s: State, limit: nat, slot: int, step: Step)
    requires
        frame::orderly(s.code),
        s.previous.kind == TokenKind::Name,
        grammar::accepts(x, s, TokenKind::Eq),
        is_innermost(assigned(x, s, limit), grammar::word(x, s.previous), slot),
        slot < 256,
        grammar::prefix(x, s, limit, true).fault is None,
        frame::follows(grammar::prefix(x, s, limit, true), step.code),
        step.runs_at(assigned(x, s, limit).code.units.len() as int),
        step.run.base + slot < step.before.stack@.len(),
    ensures
        step.goes_to(
            assigned(x, s, limit).code.units.len() as int + 1,
            step.before.stack@.update(step.run.base + slot, step.before.stack@.last()),
        ),
        grammar::prefix(x, s, limit, true).code.units.len() == assigned(
            x,
            s,
            limit,
        ).code.units.len() + 1,
{
    broadcast use frame::group_follows;

    let name = grammar::word(x, s.previous);
    let line = grammar::line_of(s);
    let end = grammar::prefix(x, s, limit, true);
    let opened = grammar::skip_lines(x, grammar::advance(x, s));
    let value = assigned(x, s, limit);
    frame::law_expression_adds(x, opened, limit);
    lemma_innermost(value, name, slot);
    if s.fault is Some || opened.fault is Some || value.fault is Some {
        assert(end.fault is Some);
    }
    assert(frame::follows(s, value));
    flow_laws::lemma_ordered(s, value);
    flow_laws::lemma_emits_byte(value, Op::StoreLocal, slot as u8, line);
    frame::lemma_complete_is_sealed(value.code);
    let at = value.code.units.len() as int;
    flow_laws::lemma_unit_stays(end, step.code, at);
    flow_laws::lemma_is_at(step.run, step.code, Op::StoreLocal, 0, slot as u8);
    flow_laws::lemma_counted(step.run);
    flow_laws::lemma_steps(
        step.before,
        step.after,
        step.run,
        step.next,
        step.outcome,
        Op::StoreLocal,
        slot,
    );
}

/// The words for the truth values and for nothing push what they say.
pub proof fn law_plain_values_are_pushed(
    x: Source,
    s: State,
    limit: nat,
    can_assign: bool,
    step: Step,
)
    requires
        frame::orderly(s.code),
        s.previous.kind == TokenKind::True || s.previous.kind == TokenKind::False
            || s.previous.kind == TokenKind::Null,
        grammar::prefix(x, s, limit, can_assign).fault is None,
        frame::follows(grammar::prefix(x, s, limit, can_assign), step.code),
        step.runs_at(s.code.units.len() as int),
    ensures
        step.goes_to(
            s.code.units.len() as int + 1,
            step.before.stack@.push(
                if s.previous.kind == TokenKind::Null {
                    Value::null()
                } else {
                    Value::bool(s.previous.kind == TokenKind::True)
                },
            ),
        ),
{
    let line = words::spec_clamp_line(s.previous.line);
    let at = s.code.units.len() as int;
    let end = grammar::prefix(x, s, limit, can_assign);
    if s.fault is Some {
        assert(end.fault is Some);
    }
    let op = match s.previous.kind {
        TokenKind::True => Op::True,
        TokenKind::False => Op::False,
        _ => Op::Null,
    };
    flow_laws::lemma_emits_op(s, op, line);
    frame::lemma_complete_is_sealed(s.code);
    flow_laws::lemma_unit_stays(end, step.code, at);
    flow_laws::lemma_is_at(step.run, step.code, op, 0, 0);
    flow_laws::lemma_counted(step.run);
    flow_laws::lemma_steps(step.before, step.after, step.run, step.next, step.outcome, op, 0);
}

/// A subscript calls the method of that name with what stands in the brackets,
/// and one that is given a value the method that stores it, with both.
pub proof fn law_subscripts_call_their_method(x: Source, s: State, limit: nat, step: Step)
    requires
        frame::orderly(s.code),
        s.previous.kind == TokenKind::LeftBracket,
        grammar::infix(x, s, limit).fault is None,
        frame::follows(grammar::infix(x, s, limit), step.code),
        flow_laws::runs(step.run, step.code),
        step.run.ip == grammar::infix(x, s, limit).code.units.len() - 2,
    ensures
        flow_laws::calls(step.run, step.before, step.code, "[_]"@, 1) || flow_laws::calls(
            step.run,
            step.before,
            step.code,
            "[_]=(_)"@,
            2,
        ),
        ({
            let t = grammar::skip_lines(x, grammar::expression(x, grammar::skip_lines(x, s), limit));
            let closed = grammar::consume(
                x,
                t,
                TokenKind::RightBracket,
                "Expect ']' after subscript."@,
            );
            if grammar::accepts(x, closed, TokenKind::Eq) {
                flow_laws::calls(step.run, step.before, step.code, "[_]=(_)"@, 2)
            } else {
                flow_laws::calls(step.run, step.before, step.code, "[_]"@, 1)
            }
        }),
{
    broadcast use frame::group_follows;

    let line = grammar::line_of(s);
    let end = grammar::infix(x, s, limit);
    let opened = grammar::skip_lines(x, s);
    frame::law_expression_adds(x, opened, limit);
    let inner = grammar::expression(x, opened, limit);
    let t = grammar::skip_lines(x, inner);
    let closed = grammar::consume(
        x,
        t,
        TokenKind::RightBracket,
        "Expect ']' after subscript."@,
    );
    if s.fault is Some || opened.fault is Some {
        assert(end.fault is Some);
    }
    assert(frame::follows(s, closed));
    if grammar::accepts(x, closed, TokenKind::Eq) {
        lemma_assignment_calls(x, closed, limit, "[_]=(_)"@, 2, line, s, step);
    } else {
        if closed.fault is Some {
            assert(end.fault is Some) by {
                reveal(grammar::emit_call);
            }
        }
        flow_laws::lemma_ordered(s, closed);
        operator_laws::lemma_ends_in_call(closed, "[_]"@, 1, line, step);
    }
}

/// A call that stores a value ends in that call, behind the value.
proof fn lemma_assignment_calls(
    x: Source,
    t: State,
    limit: nat,
    signature: Seq<char>,
    arity: nat,
    line: u16,
    s: State,
    step: Step,
)
    requires
        frame::orderly(s.code),
        frame::follows(s, t),
        arity < 256,
        grammar::assignment(x, t, limit, signature, arity, line).fault is None,
        frame::follows(grammar::assignment(x, t, limit, signature, arity, line), step.code),
        flow_laws::runs(step.run, step.code),
        step.run.ip == grammar::assignment(x, t, limit, signature, arity, line).code.units.len()
            - 2,
    ensures
        flow_laws::calls(step.run, step.before, step.code, signature, arity as int),
{
    let end = grammar::assignment(x, t, limit, signature, arity, line);
    let advanced = grammar::advance(x, t);
    let opened = grammar::skip_lines(x, advanced);
    let value = grammar::expression(x, opened, limit);
    frame::lemma_follows_advance(x, t);
    frame::lemma_follows_skip_lines(x, advanced);
    frame::law_expression_adds(x, opened, limit);
    frame::lemma_follows_on(s, t, advanced);
    frame::lemma_follows_on(s, advanced, opened);
    frame::lemma_follows_on(s, opened, value);
    if opened.fault is Some {
        assert(end.fault is Some);
    }
    if value.fault is Some {
        assert(end.fault is Some) by {
            reveal(grammar::emit_call);
        }
    }
    flow_laws::lemma_ordered(s, value);
    operator_laws::lemma_ends_in_call(value, signature, arity, line, step);
}

/// A call after a dot calls the method that is named there: a name alone with
/// nothing, a name before an equals sign as a setter with the value, and a name
/// before parentheses with as many arguments as stand in them.
pub proof fn law_calls_name_their_method(x: Source, s: State, limit: nat, step: Step)
    requires
        frame::orderly(s.code),
        s.previous.kind == TokenKind::Dot,
        grammar::infix(x, s, limit).fault is None,
        frame::follows(grammar::infix(x, s, limit), step.code),
        flow_laws::runs(step.run, step.code),
        step.run.ip == grammar::infix(x, s, limit).code.units.len() - 2,
    ensures
        ({
            let named = grammar::consume(
                x,
                s,
                TokenKind::Name,
                "Expect method name after '.'."@,
            );
            let name = grammar::word(x, named.previous);
            let list = grammar::argument_list(x, grammar::advance(x, named), limit);
            if grammar::accepts(x, named, TokenKind::LeftParen) {
                list.count < 256 ==> flow_laws::calls(
                    step.run,
                    step.before,
                    step.code,
                    words::spec_signature(name, list.count),
                    list.count as int,
                )
            } else if grammar::accepts(x, named, TokenKind::Eq) {
                flow_laws::calls(step.run, step.before, step.code, name + "=(_)"@, 1)
            } else {
                flow_laws::calls(step.run, step.before, step.code, name, 0)
            }
        }),
{
    let end = grammar::infix(x, s, limit);
    let named = grammar::consume(x, s, TokenKind::Name, "Expect method name after '.'."@);
    frame::lemma_follows_consume(x, s, TokenKind::Name, "Expect method name after '.'."@);
    let name = grammar::word(x, named.previous);
    let line = grammar::line_of(named);
    if s.fault is Some {
        assert(end.fault is Some);
    }
    if grammar::accepts(x, named, TokenKind::LeftParen) {
        let opened = grammar::advance(x, named);
        let list = grammar::argument_list(x, opened, limit);
        if list.count < 256 {
            frame::lemma_follows_advance(x, named);
            frame::lemma_argument_list(x, opened, limit);
            frame::lemma_follows_on(s, named, opened);
            frame::lemma_follows_on(s, opened, list.state);
            if opened.fault is Some {
                assert(end.fault is Some);
            }
            if list.state.fault is Some {
                assert(end.fault is Some) by {
                    reveal(grammar::emit_call);
                }
            }
            flow_laws::lemma_ordered(s, list.state);
            operator_laws::lemma_ends_in_call(
                list.state,
                words::spec_signature(name, list.count),
                list.count,
                line,
                step,
            );
        }
    } else if grammar::accepts(x, named, TokenKind::Eq) {
        lemma_assignment_calls(x, named, limit, name + "=(_)"@, 1, line, s, step);
    } else {
        if named.fault is Some {
            assert(end.fault is Some) by {
                reveal(grammar::emit_call);
            }
        }
        flow_laws::lemma_ordered(s, named);
        operator_laws::lemma_ends_in_call(named, name, 0, line, step);
    }
}

/// An expression that stands as a statement leaves nothing behind: what it left
/// on the stack is dropped.
pub proof fn law_value_of_a_statement_is_dropped(x: Source, s: State, limit: nat, step: Step)
    requires
        frame::orderly(s.code),
        !grammar::accepts(x, s, TokenKind::LeftBrace),
        !grammar::accepts(x, s, TokenKind::If),
        !grammar::accepts(x, s, TokenKind::While),
        !grammar::accepts(x, s, TokenKind::For),
        grammar::statement(x, s, limit).fault is None,
        frame::follows(grammar::statement(x, s, limit), step.code),
        step.runs_at(grammar::expression(x, s, limit).code.units.len() as int),
        step.before.stack@.len() > 0,
    ensures
        step.goes_to(
            grammar::statement(x, s, limit).code.units.len() as int,
            step.before.stack@.drop_last(),
        ),
{
    let value = grammar::expression(x, s, limit);
    let end = grammar::statement(x, s, limit);
    frame::law_expression_adds(x, s, limit);
    if s.fault is Some {
        assert(end.fault is Some);
    }
    if value.fault is Some {
        assert(end.fault is Some) by {
            reveal(grammar::emit_op);
        }
    }
    flow_laws::lemma_ordered(s, value);
    lemma_pops(value, grammar::line_of(value), step);
}

/// What is dropped leaves the stack.
proof fn lemma_pops(e: State, line: u16, step: Step)
    requires
        e.fault is None,
        frame::orderly(e.code),
        frame::follows(grammar::emit_op(e, Op::Pop, line), step.code),
        step.runs_at(e.code.units.len() as int),
        step.before.stack@.len() > 0,
    ensures
        step.goes_to(e.code.units.len() as int + 1, step.before.stack@.drop_last()),
        grammar::emit_op(e, Op::Pop, line).code.units.len() == e.code.units.len() + 1,
{
    let end = grammar::emit_op(e, Op::Pop, line);
    let at = e.code.units.len() as int;
    flow_laws::lemma_emits_op(e, Op::Pop, line);
    frame::lemma_complete_is_sealed(e.code);
    flow_laws::lemma_unit_stays(end, step.code, at);
    flow_laws::lemma_is_at(step.run, step.code, Op::Pop, 0, 0);
    flow_laws::lemma_counted(step.run);
    flow_laws::lemma_steps(step.before, step.after, step.run, step.next, step.outcome, Op::Pop, 0);
    assert(crate::vm::fields::dropped(step.before.stack@, 1) =~= step.before.stack@.drop_last());
}

/// A variable declared in a block is a local from there on, the innermost of
/// its name, in the place where its value was pushed: behind all other locals.
/// Without a value it starts as null.
pub proof fn law_declared_local_is_meant(x: Source, s: State, limit: nat, step: Step)
    requires
        frame::orderly(s.code),
        grammar::var_declaration(x, s, limit).fault is None,
        grammar::var_declaration(x, s, limit).depth > 0,
        frame::follows(grammar::var_declaration(x, s, limit), step.code),
        flow_laws::runs(step.run, step.code),
    ensures
        ({
            let named = grammar::consume(x, s, TokenKind::Name, "Expect variable name."@);
            let end = grammar::var_declaration(x, s, limit);
            let at = named.code.units.len() as int;
            &&& is_innermost(end, grammar::word(x, named.previous), end.locals.len() - 1)
            &&& !grammar::accepts(x, named, TokenKind::Eq) ==> {
                &&& end.locals.len() == named.locals.len() + 1
                &&& end.code.units.len() == at + 1
                &&& step.runs_at(at) ==> step.goes_to(
                    at + 1,
                    step.before.stack@.push(Value::null()),
                )
            }
        }),
{
    let named = grammar::consume(x, s, TokenKind::Name, "Expect variable name."@);
    let name = grammar::word(x, named.previous);
    let line = grammar::line_of(named);
    let end = grammar::var_declaration(x, s, limit);
    let at = named.code.units.len() as int;
    frame::lemma_follows_consume(x, s, TokenKind::Name, "Expect variable name."@);
    let value = if grammar::accepts(x, named, TokenKind::Eq) {
        let u = grammar::skip_lines(x, grammar::advance(x, named));
        if u.fault is Some {
            u
        } else {
            grammar::expression(x, u, limit)
        }
    } else {
        grammar::emit_op(named, Op::Null, line)
    };
    reveal(grammar::emit_op);
    reveal(grammar::add_local);
    reveal(grammar::emit_with_short);
    if value.fault is None && value.depth > 0 {
        assert(end == grammar::add_local(value, name));
        assert(end.locals == value.locals.push(
            grammar::LocalModel { name, depth: value.depth },
        ));
    }
    assert(is_innermost(end, name, end.locals.len() - 1));
    if !grammar::accepts(x, named, TokenKind::Eq) {
        flow_laws::lemma_ordered(s, named);
        flow_laws::lemma_emits_op(named, Op::Null, line);
        frame::lemma_complete_is_sealed(named.code);
        if step.runs_at(at) {
            flow_laws::lemma_unit_stays(end, step.code, at);
            flow_laws::lemma_is_at(step.run, step.code, Op::Null, 0, 0);
            flow_laws::lemma_counted(step.run);
            flow_laws::lemma_steps(
                step.before,
                step.after,
                step.run,
                step.next,
                step.outcome,
                Op::Null,
                0,
            );
        }
    }
}

/// Each element of a list is added to it, as soon as it was worked out.
pub proof fn law_elements_are_added(x: Source, s: State, limit: nat, line: u16, step: Step)
    requires
        frame::orderly(s.code),
        grammar::current(x, grammar::skip_lines(x, s)).kind != TokenKind::RightBracket,
        grammar::elements(x, s, limit, line).fault is None,
        frame::follows(grammar::elements(x, s, limit, line), step.code),
        flow_laws::runs(step.run, step.code),
        step.run.ip == grammar::expression(
            x,
            grammar::skip_lines(x, s),
            limit,
        ).code.units.len(),
    ensures
        flow_laws::calls(step.run, step.before, step.code, "addCore(_)"@, 1),
{
    broadcast use frame::group_follows;

    let opened = grammar::skip_lines(x, s);
    let element = grammar::expression(x, opened, limit);
    frame::law_expression_adds(x, opened, limit);
    let added = grammar::emit_call(element, "addCore(_)"@, 1, line);
    let t = grammar::skip_lines(x, added);
    let end = grammar::elements(x, s, limit, line);
    if opened.fault is Some {
        assert(end.fault is Some);
    }
    if grammar::accepts(x, t, TokenKind::Comma) && limit > 0 {
        let u = grammar::advance(x, t);
        frame::lemma_elements(x, u, (limit - 1) as nat, line);
    }
    assert(frame::follows(added, end));
    assert(frame::follows(added, step.code));
    flow_laws::lemma_unfailed(added, end);
    flow_laws::lemma_unfailed(element, added);
    assert(frame::follows(s, element));
    flow_laws::lemma_ordered(s, element);
    operator_laws::lemma_ends_in_call(element, "addCore(_)"@, 1, line, step);
}

/// A list in brackets is a new one of the class of that name: running loads a
/// module's variable called `List` and calls `new` on it.
pub proof fn law_list_is_made(x: Source, s: State, limit: nat, step: Step)
    requires
        frame::orderly(s.code),
        s.scope.names.len() <= u16::MAX,
        grammar::list_literal(x, s, limit).fault is None,
        frame::follows(grammar::list_literal(x, s, limit), step.code),
        flow_laws::runs(step.run, step.code),
    ensures
        step.run.ip == s.code.units.len() ==> exists|i: int|
            0 <= i < s.scope.names.len() && #[trigger] s.scope.names[i] == "List"@
                && flow_laws::is_at(step.run, Op::LoadModuleVar, 0) && step.run.unit(
                step.run.ip + 1,
            ) == i,
        step.run.ip == s.code.units.len() + 2 ==> flow_laws::calls(
            step.run,
            step.before,
            step.code,
            "new"@,
            0,
        ),
{
    broadcast use frame::group_follows;

    let line = grammar::line_of(s);
    let end = grammar::list_literal(x, s, limit);
    let place = s.scope.names.index_of("List"@);
    if s.scope.names.contains("List"@) {
        assert(s.scope.names[place] == "List"@ && 0 <= place < s.scope.names.len());
    }
    if s.fault is Some {
        assert(end.fault is Some);
    }
    let loaded = grammar::emit_with_short(s, Op::LoadModuleVar, place as u16, line);
    let made = grammar::emit_call(loaded, "new"@, 0, line);
    let t = grammar::skip_lines(x, made);
    frame::lemma_elements(x, t, limit, line);
    assert(frame::follows(made, end));
    frame::lemma_follows_on(made, end, step.code);
    frame::lemma_follows_emit_call(loaded, "new"@, 0, line);
    flow_laws::lemma_unfailed(made, end);
    flow_laws::lemma_unfailed(loaded, made);
    flow_laws::lemma_emits_short(s, Op::LoadModuleVar, place as u16, line);
    operator_laws::lemma_ends_in_call(loaded, "new"@, 0, line, step);
    frame::lemma_complete_is_sealed(s.code);
    frame::lemma_follows_on(loaded, made, step.code);
    if step.run.ip == s.code.units.len() {
        let at = s.code.units.len() as int;
        flow_laws::lemma_unit_stays(loaded, step.code, at);
        flow_laws::lemma_unit_stays(loaded, step.code, at + 1);
        flow_laws::lemma_is_at(step.run, step.code, Op::LoadModuleVar, 1, 0);
        assert(step.run.unit(at + 1) == step.code.code.sealed()[at + 1]);
        assert(s.scope.names[place] == "List"@);
    }
}

/// A value in the midst of a string is made text and put behind what comes
/// before it.
pub proof fn law_interpolated_value_is_put_behind(
    x: Source,
    s: State,
    limit: nat,
    line: u16,
    step: Step,
)
    requires
        frame::orderly(s.code),
        grammar::pieces(x, s, limit, line).fault is None,
        frame::follows(grammar::pieces(x, s, limit, line), step.code),
        flow_laws::runs(step.run, step.code),
    ensures
        ({
            let value = grammar::expression(x, grammar::skip_lines(x, s), limit);
            let at = value.code.units.len() as int;
            &&& step.run.ip == at ==> flow_laws::calls(
                step.run,
                step.before,
                step.code,
                "toString"@,
                0,
            )
            &&& step.run.ip == at + 2 ==> flow_laws::calls(
                step.run,
                step.before,
                step.code,
                "+(_)"@,
                1,
            )
        }),
{
    broadcast use frame::group_follows;

    let end = grammar::pieces(x, s, limit, line);
    let opened = grammar::skip_lines(x, s);
    frame::law_expression_adds(x, opened, limit);
    let value = grammar::expression(x, opened, limit);
    let text = grammar::emit_call(value, "toString"@, 0, line);
    let joined = grammar::emit_call(text, "+(_)"@, 1, line);
    if opened.fault is Some {
        let t = grammar::emit_call(
            grammar::emit_call(opened, "toString"@, 0, line),
            "+(_)"@,
            1,
            line,
        );
        assert(t == opened) by {
            reveal(grammar::emit_call);
        }
        assert(end.fault is Some) by {
            reveal(grammar::emit_call);
            reveal(grammar::emit_constant);
            reveal(grammar::consume);
            reveal(grammar::advance);
        }
    }
    if grammar::accepts(x, joined, TokenKind::Interpolation) && limit > 0 {
        let u = grammar::advance(x, joined);
        let v = grammar::emit_constant(u, grammar::text_literal(x, u), line);
        let w = grammar::emit_call(v, "+(_)"@, 1, line);
        frame::lemma_pieces(x, w, (limit - 1) as nat, line);
        frame::lemma_follows_on(joined, u, v);
        frame::lemma_follows_on(joined, v, w);
        frame::lemma_follows_on(joined, w, end);
    } else {
        let u = grammar::consume(
            x,
            joined,
            TokenKind::String,
            "Expect end of string interpolation."@,
        );
        let v = grammar::emit_constant(u, grammar::text_literal(x, u), line);
        frame::lemma_follows_on(joined, u, v);
        frame::lemma_follows_on(joined, v, end);
    }
    frame::lemma_follows_on(joined, end, step.code);
    frame::lemma_follows_emit_call(text, "+(_)"@, 1, line);
    frame::lemma_follows_on(text, joined, step.code);
    flow_laws::lemma_unfailed(joined, end);
    flow_laws::lemma_unfailed(text, joined);
    flow_laws::lemma_unfailed(value, text);
    frame::lemma_follows_on(s, opened, value);
    flow_laws::lemma_ordered(s, value);
    operator_laws::lemma_ends_in_call(value, "toString"@, 0, line, step);
    flow_laws::lemma_ordered(value, text);
    operator_laws::lemma_ends_in_call(text, "+(_)"@, 1, line, step);
}

/// A block that ends drops its own locals and no others: the code has one
/// instruction for each, and each drops one value.
pub proof fn law_leaving_a_block_drops_its_locals(s: State, step: Step)
    requires
        frame::orderly(s.code),
        s.fault is None,
        frame::follows(grammar::end_scope(s), step.code),
        flow_laws::runs(step.run, step.code),
        step.before.stack@.len() > 0,
    ensures
        ({
            let end = grammar::end_scope(s);
            &&& end.locals.is_prefix_of(s.locals)
            &&& end.locals.len() > 0 ==> end.locals.last().depth < s.depth
            &&& forall|i: int|
                end.locals.len() <= i < s.locals.len() ==> (#[trigger] s.locals[i]).depth
                    >= s.depth
            &&& end.code.units.len() - s.code.units.len() == s.locals.len() - end.locals.len()
            &&& s.code.units.len() <= step.run.ip < end.code.units.len() && step.runs_at(
                step.run.ip as int,
            ) ==> step.goes_to(step.run.ip + 1, step.before.stack@.drop_last())
        }),
{
    reveal(grammar::end_scope);
    let line = grammar::line_of(s);
    let end = grammar::end_scope(s);
    let t = grammar::drop_locals(s, line);
    frame::lemma_follows_same(t, end);
    frame::lemma_follows_on(t, end, step.code);
    lemma_drops(s, line, step);
}

/// How the locals of a block are dropped.
proof fn lemma_drops(s: State, line: u16, step: Step)
    requires
        frame::orderly(s.code),
        s.fault is None,
        frame::follows(grammar::drop_locals(s, line), step.code),
        flow_laws::runs(step.run, step.code),
        step.before.stack@.len() > 0,
    ensures
        ({
            let end = grammar::drop_locals(s, line);
            &&& end.fault is None
            &&& end.depth == s.depth
            &&& end.locals.is_prefix_of(s.locals)
            &&& end.locals.len() > 0 ==> end.locals.last().depth < s.depth
            &&& forall|i: int|
                end.locals.len() <= i < s.locals.len() ==> (#[trigger] s.locals[i]).depth
                    >= s.depth
            &&& end.code.units.len() - s.code.units.len() == s.locals.len() - end.locals.len()
            &&& frame::follows(s, end)
            &&& s.code.units.len() <= step.run.ip < end.code.units.len() && step.runs_at(
                step.run.ip as int,
            ) ==> step.goes_to(step.run.ip + 1, step.before.stack@.drop_last())
        }),
    decreases s.locals.len(),
{
    if s.locals.len() == 0 || s.locals.last().depth < s.depth {
        frame::lemma_follows_same(s, s);
    } else {
        let t = State {
            locals: s.locals.drop_last(),
            code: s.code.op(Op::Pop, line),
            height: s.height - 1,
            ..s
        };
        let popped = grammar::emit_op(s, Op::Pop, line);
        let end = grammar::drop_locals(s, line);
        assert(popped.code == t.code && popped.fault is None && popped.methods == t.methods) by {
            reveal(grammar::emit_op);
        }
        flow_laws::lemma_emits_op(s, Op::Pop, line);
        lemma_drops(t, line, step);
        frame::lemma_follows_emit_op(s, Op::Pop, line);
        frame::lemma_follows_same(popped, t);
        frame::lemma_follows_on(popped, t, end);
        frame::lemma_follows_on(s, popped, end);
        frame::lemma_follows_on(popped, end, step.code);
        assert forall|i: int| end.locals.len() <= i < s.locals.len() implies (
        #[trigger] s.locals[i]).depth >= s.depth by {
            if i < t.locals.len() {
                assert(t.locals[i] == s.locals[i]);
            }
        }
        assert(end.locals.is_prefix_of(s.locals)) by {
            assert(t.locals =~= s.locals.take(t.locals.len() as int));
            assert(end.locals =~= s.locals.take(end.locals.len() as int));
        }
        if step.run.ip == s.code.units.len() && step.runs_at(step.run.ip as int) {
            lemma_pops(s, line, step);
        }
    }
}

/// Whether a module's variable holds a value, and every other variable what it
/// held.
pub open spec fn only_this_variable(step: Step, place: int, value: Value) -> bool {
    let before = step.before.modules@;
    let after = step.after.modules@;
    let module = step.run.module as int;
    &&& after.len() == before.len()
    &&& after[module].values@ == before[module].values@.update(place, value)
    &&& forall|i: int|
        0 <= i < before.len() && i != module ==> #[trigger] after[i] == before[i]
}

/// A name that is no local, and is given a value, is a module's variable: one
/// of that name holds the value afterwards, and the value stays on the stack.
pub proof fn law_module_variable_is_stored(x: Source, s: State, limit: nat, step: Step)
    requires
        frame::orderly(s.code),
        s.previous.kind == TokenKind::Name,
        grammar::accepts(x, s, TokenKind::Eq),
        ({
            let value = assigned(x, s, limit);
            &&& forall|i: int|
                0 <= i < value.locals.len() ==> (#[trigger] value.locals[i]).name
                    != grammar::word(x, s.previous)
            &&& value.scope.names.len() <= u16::MAX
            &&& value.scope.names.len() <= step.before.modules@[step.run.module as int].values@.len()
        }),
        step.run.module < step.before.modules@.len(),
        grammar::prefix(x, s, limit, true).fault is None,
        frame::follows(grammar::prefix(x, s, limit, true), step.code),
        step.runs_at(assigned(x, s, limit).code.units.len() as int),
        step.before.stack@.len() > 0,
    ensures
        step.goes_to(assigned(x, s, limit).code.units.len() as int + 2, step.before.stack@),
        exists|i: int|
            0 <= i < assigned(x, s, limit).scope.names.len() && #[trigger] assigned(
                x,
                s,
                limit,
            ).scope.names[i] == grammar::word(x, s.previous) && only_this_variable(
                step,
                i,
                step.before.stack@.last(),
            ),
{
    let name = grammar::word(x, s.previous);
    let line = grammar::line_of(s);
    let end = grammar::prefix(x, s, limit, true);
    let advanced = grammar::advance(x, s);
    let opened = grammar::skip_lines(x, advanced);
    let value = assigned(x, s, limit);
    frame::lemma_follows_advance(x, s);
    frame::lemma_follows_skip_lines(x, advanced);
    frame::law_expression_adds(x, opened, limit);
    frame::lemma_follows_on(s, advanced, opened);
    frame::lemma_follows_on(s, opened, value);
    grammar::law_innermost_local_is_meant(value.locals, name);
    if s.fault is Some || opened.fault is Some || value.fault is Some {
        assert(end.fault is Some);
    }
    let place = value.scope.names.index_of(name);
    if value.scope.names.contains(name) {
        assert(value.scope.names[place] == name && 0 <= place < value.scope.names.len());
    }
    flow_laws::lemma_ordered(s, value);
    flow_laws::lemma_emits_short(value, Op::StoreModuleVar, place as u16, line);
    frame::lemma_complete_is_sealed(value.code);
    let at = value.code.units.len() as int;
    flow_laws::lemma_unit_stays(end, step.code, at);
    flow_laws::lemma_unit_stays(end, step.code, at + 1);
    flow_laws::lemma_is_at(step.run, step.code, Op::StoreModuleVar, 1, 0);
    flow_laws::lemma_counted(step.run);
    assert(step.run.unit(at + 1) == step.code.code.sealed()[at + 1]);
    let mid = choose|mid: crate::vm::Vm| #[trigger]
        mid.instructed(&step.before, step.run, step.next, step.outcome) && if step.outcome is Next {
            step.after.collected_at(&mid, step.next.ip)
        } else {
            step.after == mid
        };
    assert(mid.did_store_module(&step.before, step.run, step.next, step.outcome));
    assert(only_this_variable(step, place, step.before.stack@.last()));
}

/// Where the value that a declared variable starts with is on the stack.
pub open spec fn valued(x: Source, s: State, limit: nat) -> State {
    let named = grammar::consume(x, s, TokenKind::Name, "Expect variable name."@);
    if grammar::accepts(x, named, TokenKind::Eq) {
        grammar::expression(x, grammar::skip_lines(x, grammar::advance(x, named)), limit)
    } else {
        grammar::emit_op(named, Op::Null, grammar::line_of(named))
    }
}

/// A variable declared outside of every block is the module's: running stores
/// the value in a variable of that name, and drops it from the stack.
pub proof fn law_declared_module_variable_is_stored(x: Source, s: State, limit: nat, step: Step)
    requires
        frame::orderly(s.code),
        grammar::var_declaration(x, s, limit).fault is None,
        valued(x, s, limit).fault is None,
        valued(x, s, limit).depth == 0,
        frame::follows(grammar::var_declaration(x, s, limit), step.code),
        flow_laws::runs(step.run, step.code),
        step.before.stack@.len() > 0,
        step.run.module < step.before.modules@.len(),
        grammar::var_declaration(x, s, limit).scope.names.len() <= u16::MAX,
        grammar::var_declaration(x, s, limit).scope.names.len()
            <= step.before.modules@[step.run.module as int].values@.len(),
    ensures
        ({
            let end = grammar::var_declaration(x, s, limit);
            let at = valued(x, s, limit).code.units.len() as int;
            let named = grammar::consume(x, s, TokenKind::Name, "Expect variable name."@);
            &&& end.code.units.len() == at + 3
            &&& step.runs_at(at) ==> step.goes_to(at + 2, step.before.stack@) && exists|i: int|
                0 <= i < end.scope.names.len() && #[trigger] end.scope.names[i] == grammar::word(
                    x,
                    named.previous,
                ) && only_this_variable(step, i, step.before.stack@.last())
            &&& step.runs_at(at + 2) ==> step.goes_to(at + 3, step.before.stack@.drop_last())
        }),
{
    let named = grammar::consume(x, s, TokenKind::Name, "Expect variable name."@);
    let name = grammar::word(x, named.previous);
    let line = grammar::line_of(named);
    let end = grammar::var_declaration(x, s, limit);
    let value = valued(x, s, limit);
    frame::lemma_follows_consume(x, s, TokenKind::Name, "Expect variable name."@);
    if grammar::accepts(x, named, TokenKind::Eq) {
        let advanced = grammar::advance(x, named);
        let opened = grammar::skip_lines(x, advanced);
        frame::lemma_follows_advance(x, named);
        frame::lemma_follows_skip_lines(x, advanced);
        frame::law_expression_adds(x, opened, limit);
        frame::lemma_follows_on(s, named, advanced);
        frame::lemma_follows_on(s, advanced, opened);
        frame::lemma_follows_on(s, opened, value);
        flow_laws::lemma_unfailed(opened, value);
    } else {
        frame::lemma_follows_emit_op(named, Op::Null, line);
        frame::lemma_follows_on(s, named, value);
    }
    flow_laws::lemma_ordered(s, value);
    let scope = crate::corelib::install::put(value.scope, name, Value::null());
    let place = scope.names.index_of(name);
    let put = State { scope, ..value };
    let stored = grammar::emit_with_short(put, Op::StoreModuleVar, place as u16, line);
    assert(scope.names.contains(name)) by {
        if !value.scope.names.contains(name) {
            assert(scope.names[value.scope.names.len() as int] == name);
        }
    }
    assert(scope.names[place] == name && 0 <= place < scope.names.len());
    assert(end == grammar::emit_op(stored, Op::Pop, line));
    flow_laws::lemma_emits_short(put, Op::StoreModuleVar, place as u16, line);
    flow_laws::lemma_emits_op(stored, Op::Pop, line);
    assert(end.scope == scope) by {
        reveal(grammar::emit_op);
        reveal(grammar::emit_with_short);
    }
    frame::lemma_complete_is_sealed(value.code);
    frame::lemma_complete_is_sealed(stored.code);
    let at = value.code.units.len() as int;
    if step.runs_at(at) {
        flow_laws::lemma_unit_stays(end, step.code, at);
        flow_laws::lemma_unit_stays(end, step.code, at + 1);
        flow_laws::lemma_is_at(step.run, step.code, Op::StoreModuleVar, 1, 0);
        flow_laws::lemma_counted(step.run);
        assert(step.run.unit(at + 1) == step.code.code.sealed()[at + 1]);
        let mid = choose|mid: crate::vm::Vm| #[trigger]
            mid.instructed(&step.before, step.run, step.next, step.outcome)
                && if step.outcome is Next {
                step.after.collected_at(&mid, step.next.ip)
            } else {
                step.after == mid
            };
        assert(mid.did_store_module(&step.before, step.run, step.next, step.outcome));
        assert(only_this_variable(step, place, step.before.stack@.last()));
        assert(end.scope.names[place] == name);
    }
    if step.runs_at(at + 2) {
        lemma_pops(stored, line, step);
    }
}

} // verus!
