//! Expressions.

use vstd::prelude::*;
use vstd::string::*;

use super::grammar;
use super::parser::Compiler;
use super::words::{clamp_line, infix_precedence, operator_name, signature, tighter, Precedence};
use super::CompileError;
use crate::bytecode::Op;
use crate::corelib::install::MAX_CALL;
use crate::lexer::TokenKind;

verus! {

broadcast use {super::grammar::group_failed, super::grammar::group_grows};

impl<'a> Compiler<'a> {
    /// Compile an expression.
    pub(crate) fn expression(&mut self, Ghost(limit): Ghost<nat>) -> (r: Result<(), CompileError>)
        requires
            old(self).wf(),
            grammar::remaining(old(self).input(), old(self).state()) <= limit,
        ensures
            final(self).went(
                old(self),
                r,
                grammar::expression(old(self).input(), old(self).state(), limit),
            ),
            r is Ok ==> final(self).at > old(self).at && final(self).depth == old(self).depth,
            r is Ok ==> final(self).rose(old(self), 1),
        decreases limit, 2nat,
    {
        self.parse_precedence(Ghost(limit), Precedence::Lowest)
    }

    /// Compile an expression that binds at least so tightly.
    pub(crate) fn parse_precedence(&mut self, Ghost(limit): Ghost<nat>, precedence: Precedence) -> (r: Result<
        (),
        CompileError,
    >)
        requires
            old(self).wf(),
            grammar::remaining(old(self).input(), old(self).state()) <= limit,
        ensures
            final(self).went(
                old(self),
                r,
                grammar::parse(old(self).input(), old(self).state(), limit, precedence),
            ),
            r is Ok ==> final(self).at > old(self).at && final(self).depth == old(self).depth,
            r is Ok ==> final(self).rose(old(self), 1),
        decreases limit, 1nat,
    {
        let ghost x = self.input();
        let ghost first = *self;
        let size: usize = self.tokens.len();
        let last: bool = self.at + 1 >= size;
        match self.advance() {
            Ok(_) => {},
            Err(error) => {
                proof {
                    reveal(grammar::advance);
                }
                return Err(error);
            },
        }
        if last {
            return Err(self.error_at(self.previous, "Expected expression."));
        }
        let ghost inner = (limit - 1) as nat;
        let can_assign: bool = precedence.rank() <= Precedence::Assignment.rank();
        match self.prefix(Ghost(inner), can_assign) {
            Ok(_) => {},
            Err(error) => {
                return Err(error);
            },
        }
        self.climb(Ghost(inner), precedence, can_assign)
    }

    /// Compile what follows an operand, as far as it binds at least so tightly.
    pub(crate) fn climb(&mut self, Ghost(limit): Ghost<nat>, precedence: Precedence, can_assign: bool) -> (r:
        Result<(), CompileError>)
        requires
            old(self).wf(),
            grammar::remaining(old(self).input(), old(self).state()) <= limit,
        ensures
            final(self).went(
                old(self),
                r,
                grammar::climb(
                    old(self).input(),
                    old(self).state(),
                    limit,
                    precedence,
                    can_assign,
                ),
            ),
            r is Ok ==> final(self).depth == old(self).depth,
            r is Ok ==> final(self).rose(old(self), 0),
        decreases limit, 0nat,
    {
        let ghost x = self.input();
        let size: usize = self.tokens.len();
        if self.at + 1 < size && precedence.rank() <= infix_precedence(self.kind()).rank() {
            let ghost inner = (limit - 1) as nat;
            match self.advance() {
                Ok(_) => {},
                Err(error) => {
                    return Err(error);
                },
            }
            match self.infix(Ghost(inner)) {
                Ok(_) => {},
                Err(error) => {
                    return Err(error);
                },
            }
            return self.climb(Ghost(inner), precedence, can_assign);
        }
        if can_assign && self.check(TokenKind::Eq) {
            let now = self.tokens[self.at];
            return Err(self.error_at(now, "Invalid assignment target."));
        }
        Ok(())
    }

    /// Compile what an expression starts with, which was just read.
    pub(crate) fn prefix(&mut self, Ghost(limit): Ghost<nat>, can_assign: bool) -> (r: Result<
        (),
        CompileError,
    >)
        requires
            old(self).wf(),
            grammar::remaining(old(self).input(), old(self).state()) <= limit,
        ensures
            final(self).went(
                old(self),
                r,
                grammar::prefix(old(self).input(), old(self).state(), limit, can_assign),
            ),
            r is Ok ==> final(self).depth == old(self).depth,
            r is Ok ==> final(self).rose(old(self), 1),
        decreases limit, 7nat,
    {
        let token = self.previous;
        let line: u16 = clamp_line(token.line);
        match token.kind {
            TokenKind::Number => match self.literal() {
                None => Err(self.error_at(token, "Invalid number literal.")),
                Some(value) => self.emit_constant(value, line),
            },
            TokenKind::String => {
                let value = self.text_literal();
                self.emit_constant(value, line)
            },
            TokenKind::Interpolation => self.interpolation(Ghost(limit)),
            TokenKind::True => {
                self.emit_op(Op::True, line);
                Ok(())
            },
            TokenKind::False => {
                self.emit_op(Op::False, line);
                Ok(())
            },
            TokenKind::Null => {
                self.emit_op(Op::Null, line);
                Ok(())
            },
            TokenKind::Name => self.variable(Ghost(limit), can_assign),
            TokenKind::LeftParen => {
                match self.skip_newlines() {
                    Ok(_) => {},
                    Err(error) => {
                        return Err(error);
                    },
                }
                match self.expression(Ghost(limit)) {
                    Ok(_) => {},
                    Err(error) => {
                        return Err(error);
                    },
                }
                match self.skip_newlines() {
                    Ok(_) => {},
                    Err(error) => {
                        return Err(error);
                    },
                }
                self.consume(TokenKind::RightParen, "Expect ')' after expression.")
            },
            TokenKind::LeftBracket => self.list_literal(Ghost(limit)),
            TokenKind::Minus => {
                match self.parse_precedence(Ghost(limit), Precedence::Unary) {
                    Ok(_) => {},
                    Err(error) => {
                        return Err(error);
                    },
                }
                self.emit_call("-", 0, line)
            },
            TokenKind::Bang => {
                match self.parse_precedence(Ghost(limit), Precedence::Unary) {
                    Ok(_) => {},
                    Err(error) => {
                        return Err(error);
                    },
                }
                self.emit_call("!", 0, line)
            },
            _ => Err(self.error_at(token, "Expected expression.")),
        }
    }

    /// Compile what comes after an operand, whose first token was just read.
    pub(crate) fn infix(&mut self, Ghost(limit): Ghost<nat>) -> (r: Result<(), CompileError>)
        requires
            old(self).wf(),
            grammar::remaining(old(self).input(), old(self).state()) <= limit,
        ensures
            final(self).went(
                old(self),
                r,
                grammar::infix(old(self).input(), old(self).state(), limit),
            ),
            r is Ok ==> final(self).depth == old(self).depth,
            r is Ok ==> final(self).rose(old(self), 0),
        decreases limit, 7nat,
    {
        let token = self.previous;
        let line: u16 = clamp_line(token.line);
        match token.kind {
            TokenKind::AmpAmp => self.short_circuit(
                Ghost(limit),
                Op::And,
                Precedence::LogicalAnd,
                line,
            ),
            TokenKind::PipePipe => self.short_circuit(
                Ghost(limit),
                Op::Or,
                Precedence::LogicalOr,
                line,
            ),
            TokenKind::Dot => self.method_call(Ghost(limit)),
            TokenKind::LeftBracket => self.subscript(Ghost(limit)),
            _ => match operator_name(token.kind) {
                None => Err(self.error_at(token, "Expected operator.")),
                Some(name) => {
                    match self.skip_newlines() {
                        Ok(_) => {},
                        Err(error) => {
                            return Err(error);
                        },
                    }
                    let next = tighter(infix_precedence(token.kind));
                    match self.parse_precedence(Ghost(limit), next) {
                        Ok(_) => {},
                        Err(error) => {
                            return Err(error);
                        },
                    }
                    let called = signature(name, 1);
                    self.emit_call(called.as_str(), 1, line)
                },
            },
        }
    }

    /// Compile an operand that the one before it may make unneeded.
    pub(crate) fn short_circuit(
        &mut self,
        Ghost(limit): Ghost<nat>,
        op: Op,
        precedence: Precedence,
        line: u16,
    ) -> (r: Result<(), CompileError>)
        requires
            op is And || op is Or,
            old(self).wf(),
            grammar::remaining(old(self).input(), old(self).state()) <= limit,
        ensures
            final(self).went(
                old(self),
                r,
                grammar::patch(
                    grammar::parse(
                        old(self).input(),
                        grammar::skip_lines(
                            old(self).input(),
                            grammar::emit_jump(old(self).state(), op, line),
                        ),
                        limit,
                        precedence,
                    ),
                    grammar::jump_place(old(self).state()),
                ),
            ),
            r is Ok ==> final(self).depth == old(self).depth,
            r is Ok ==> final(self).rose(old(self), 0),
        decreases limit, 6nat,
    {
        let jump: usize = self.emit_jump(op, line);
        match self.skip_newlines() {
            Ok(_) => {},
            Err(error) => {
                return Err(error);
            },
        }
        match self.parse_precedence(Ghost(limit), precedence) {
            Ok(_) => {},
            Err(error) => {
                return Err(error);
            },
        }
        self.patch(jump)
    }

    /// Compile a call of a method with arguments, whose parenthesis is next.
    pub(crate) fn invocation(&mut self, Ghost(limit): Ghost<nat>, name: &str, line: u16) -> (r:
        Result<(), CompileError>)
        requires
            old(self).wf(),
            grammar::remaining(old(self).input(), old(self).state()) <= limit,
        ensures
            final(self).went(
                old(self),
                r,
                grammar::invocation(old(self).input(), old(self).state(), limit, name@, line),
            ),
            r is Ok ==> final(self).depth == old(self).depth,
            r is Ok ==> final(self).rose(old(self), 0),
        decreases limit, 5nat,
    {
        match self.advance() {
            Ok(_) => {},
            Err(error) => {
                return Err(error);
            },
        }
        match self.argument_list(Ghost(limit)) {
            Ok(arity) => {
                let called = signature(name, arity);
                self.emit_call(called.as_str(), arity, line)
            },
            Err(error) => Err(error),
        }
    }

    /// Compile a call of a method that stores a value, whose equals sign is
    /// next.
    pub(crate) fn assignment(
        &mut self,
        Ghost(limit): Ghost<nat>,
        signature: &str,
        arity: usize,
        line: u16,
    ) -> (r: Result<(), CompileError>)
        requires
            old(self).wf(),
            grammar::remaining(old(self).input(), old(self).state()) <= limit,
            arity <= u8::MAX,
        ensures
            final(self).went(
                old(self),
                r,
                grammar::assignment(
                    old(self).input(),
                    old(self).state(),
                    limit,
                    signature@,
                    arity as nat,
                    line,
                ),
            ),
            r is Ok ==> final(self).depth == old(self).depth,
            r is Ok ==> final(self).rose(old(self), 1 - arity),
        decreases limit, 5nat,
    {
        match self.advance() {
            Ok(_) => {},
            Err(error) => {
                return Err(error);
            },
        }
        match self.skip_newlines() {
            Ok(_) => {},
            Err(error) => {
                return Err(error);
            },
        }
        match self.expression(Ghost(limit)) {
            Ok(_) => {},
            Err(error) => {
                return Err(error);
            },
        }
        self.emit_call(signature, arity, line)
    }

    /// Compile a call of a method, after its dot.
    pub(crate) fn method_call(&mut self, Ghost(limit): Ghost<nat>) -> (r: Result<(), CompileError>)
        requires
            old(self).wf(),
            grammar::remaining(old(self).input(), old(self).state()) <= limit,
        ensures
            final(self).went(
                old(self),
                r,
                grammar::method_call(old(self).input(), old(self).state(), limit),
            ),
            r is Ok ==> final(self).depth == old(self).depth,
            r is Ok ==> final(self).rose(old(self), 0),
        decreases limit, 6nat,
    {
        match self.consume(TokenKind::Name, "Expect method name after '.'.") {
            Ok(_) => {},
            Err(error) => {
                return Err(error);
            },
        }
        let name: String = self.word(self.previous);
        let line: u16 = self.line();
        if self.check(TokenKind::LeftParen) {
            return self.invocation(Ghost(limit), name.as_str(), line);
        }
        if self.check(TokenKind::Eq) {
            let mut setter: String = name;
            setter.append("=(_)");
            return self.assignment(Ghost(limit), setter.as_str(), 1, line);
        }
        self.emit_call(name.as_str(), 0, line)
    }

    /// Compile a subscript, after its bracket.
    pub(crate) fn subscript(&mut self, Ghost(limit): Ghost<nat>) -> (r: Result<(), CompileError>)
        requires
            old(self).wf(),
            grammar::remaining(old(self).input(), old(self).state()) <= limit,
        ensures
            final(self).went(
                old(self),
                r,
                grammar::subscript(old(self).input(), old(self).state(), limit),
            ),
            r is Ok ==> final(self).depth == old(self).depth,
            r is Ok ==> final(self).rose(old(self), 0),
        decreases limit, 6nat,
    {
        let line: u16 = self.line();
        match self.skip_newlines() {
            Ok(_) => {},
            Err(error) => {
                return Err(error);
            },
        }
        match self.expression(Ghost(limit)) {
            Ok(_) => {},
            Err(error) => {
                return Err(error);
            },
        }
        match self.skip_newlines() {
            Ok(_) => {},
            Err(error) => {
                return Err(error);
            },
        }
        match self.consume(TokenKind::RightBracket, "Expect ']' after subscript.") {
            Ok(_) => {},
            Err(error) => {
                return Err(error);
            },
        }
        if self.check(TokenKind::Eq) {
            return self.assignment(Ghost(limit), "[_]=(_)", 2, line);
        }
        self.emit_call("[_]", 1, line)
    }

    /// Compile arguments up to the closing parenthesis, and say how many there
    /// are.
    pub(crate) fn argument_list(&mut self, Ghost(limit): Ghost<nat>) -> (r: Result<usize, CompileError>)
        requires
            old(self).wf(),
            grammar::remaining(old(self).input(), old(self).state()) <= limit,
        ensures
            final(self).went(
                old(self),
                without_count(r),
                grammar::argument_list(old(self).input(), old(self).state(), limit).state,
            ),
            r is Ok ==> final(self).depth == old(self).depth,
            r matches Ok(arity) ==> final(self).rose(old(self), arity as int),
            r matches Ok(arity) ==> arity <= MAX_CALL && arity == grammar::argument_list(
                old(self).input(),
                old(self).state(),
                limit,
            ).count,
        decreases limit, 4nat,
    {
        match self.skip_newlines() {
            Ok(_) => {},
            Err(error) => {
                return Err(error);
            },
        }
        let mut arity: usize = 0;
        if !self.check(TokenKind::RightParen) {
            match self.arguments(Ghost(limit), 0) {
                Ok(count) => {
                    arity = count;
                },
                Err(error) => {
                    return Err(error);
                },
            }
        }
        match self.skip_newlines() {
            Ok(_) => {},
            Err(error) => {
                return Err(error);
            },
        }
        match self.consume(TokenKind::RightParen, "Expect ')' after arguments.") {
            Ok(_) => Ok(arity),
            Err(error) => Err(error),
        }
    }

    /// Compile arguments with commas between them, after so many.
    pub(crate) fn arguments(&mut self, Ghost(limit): Ghost<nat>, count: usize) -> (r: Result<
        usize,
        CompileError,
    >)
        requires
            old(self).wf(),
            grammar::remaining(old(self).input(), old(self).state()) <= limit,
            count <= MAX_CALL,
        ensures
            final(self).went(
                old(self),
                without_count(r),
                grammar::arguments(
                    old(self).input(),
                    old(self).state(),
                    limit,
                    count as nat,
                ).state,
            ),
            r is Ok ==> final(self).depth == old(self).depth,
            r matches Ok(arity) ==> final(self).rose(old(self), arity - count),
            r matches Ok(arity) ==> arity <= MAX_CALL && arity == grammar::arguments(
                old(self).input(),
                old(self).state(),
                limit,
                count as nat,
            ).count,
        decreases limit, 3nat,
    {
        match self.skip_newlines() {
            Ok(_) => {},
            Err(error) => {
                return Err(error);
            },
        }
        match self.expression(Ghost(limit)) {
            Ok(_) => {},
            Err(error) => {
                return Err(error);
            },
        }
        let more: usize = count + 1;
        if more > MAX_CALL {
            let now = self.tokens[self.at];
            return Err(self.error_at(now, "Cannot pass more than 16 arguments."));
        }
        match self.skip_newlines() {
            Ok(_) => {},
            Err(error) => {
                return Err(error);
            },
        }
        if self.check(TokenKind::Comma) {
            match self.advance() {
                Ok(_) => {},
                Err(error) => {
                    return Err(error);
                },
            }
            return self.arguments(Ghost((limit - 1) as nat), more);
        }
        Ok(more)
    }

    /// Compile a variable, whose name was just read, read or given a value.
    pub(crate) fn variable(&mut self, Ghost(limit): Ghost<nat>, can_assign: bool) -> (r: Result<
        (),
        CompileError,
    >)
        requires
            old(self).wf(),
            grammar::remaining(old(self).input(), old(self).state()) <= limit,
        ensures
            final(self).went(
                old(self),
                r,
                grammar::variable(old(self).input(), old(self).state(), limit, can_assign),
            ),
            r is Ok ==> final(self).depth == old(self).depth,
            r is Ok ==> final(self).rose(old(self), 1),
        decreases limit, 5nat,
    {
        let name: String = self.word(self.previous);
        let line: u16 = self.line();
        let storing: bool = can_assign && self.check(TokenKind::Eq);
        if storing {
            match self.advance() {
                Ok(_) => {},
                Err(error) => {
                    return Err(error);
                },
            }
            match self.skip_newlines() {
                Ok(_) => {},
                Err(error) => {
                    return Err(error);
                },
            }
            match self.expression(Ghost(limit)) {
                Ok(_) => {},
                Err(error) => {
                    return Err(error);
                },
            }
        }
        match self.resolve_local(name.as_str()) {
            Some(slot) => {
                let op = if storing {
                    Op::StoreLocal
                } else {
                    Op::LoadLocal
                };
                self.emit_with_byte(op, slot as u8, line);
                Ok(())
            },
            None => match self.module.names.find(name.as_str()) {
                None => Err(self.error_at(self.previous, "Variable is not defined.")),
                Some(index) => {
                    proof {
                        crate::symbol::lemma_index(&self.module.names, name@, index as int);
                    }
                    let op = if storing {
                        Op::StoreModuleVar
                    } else {
                        Op::LoadModuleVar
                    };
                    self.emit_with_short(op, index as u16, line);
                    Ok(())
                },
            },
        }
    }

    /// Compile a list, after its bracket.
    pub(crate) fn list_literal(&mut self, Ghost(limit): Ghost<nat>) -> (r: Result<(), CompileError>)
        requires
            old(self).wf(),
            grammar::remaining(old(self).input(), old(self).state()) <= limit,
        ensures
            final(self).went(
                old(self),
                r,
                grammar::list_literal(old(self).input(), old(self).state(), limit),
            ),
            r is Ok ==> final(self).depth == old(self).depth,
            r is Ok ==> final(self).rose(old(self), 1),
        decreases limit, 5nat,
    {
        let line: u16 = self.line();
        match self.module.names.find("List") {
            None => {
                return Err(self.error_at(self.previous, "List class is not defined."));
            },
            Some(index) => {
                proof {
                    crate::symbol::lemma_index(&self.module.names, "List"@, index as int);
                }
                self.emit_with_short(Op::LoadModuleVar, index as u16, line);
            },
        }
        match self.emit_call("new", 0, line) {
            Ok(_) => {},
            Err(error) => {
                return Err(error);
            },
        }
        match self.skip_newlines() {
            Ok(_) => {},
            Err(error) => {
                return Err(error);
            },
        }
        if !self.check(TokenKind::RightBracket) {
            match self.elements(Ghost(limit), line) {
                Ok(_) => {},
                Err(error) => {
                    return Err(error);
                },
            }
        }
        match self.skip_newlines() {
            Ok(_) => {},
            Err(error) => {
                return Err(error);
            },
        }
        self.consume(TokenKind::RightBracket, "Expect ']' after list elements.")
    }

    /// Compile elements with commas between them, and perhaps one after the
    /// last.
    pub(crate) fn elements(&mut self, Ghost(limit): Ghost<nat>, line: u16) -> (r: Result<(), CompileError>)
        requires
            old(self).wf(),
            grammar::remaining(old(self).input(), old(self).state()) <= limit,
        ensures
            final(self).went(
                old(self),
                r,
                grammar::elements(old(self).input(), old(self).state(), limit, line),
            ),
            r is Ok ==> final(self).depth == old(self).depth,
            r is Ok ==> final(self).rose(old(self), 0),
        decreases limit, 3nat,
    {
        match self.skip_newlines() {
            Ok(_) => {},
            Err(error) => {
                return Err(error);
            },
        }
        if self.check(TokenKind::RightBracket) {
            return Ok(());
        }
        match self.expression(Ghost(limit)) {
            Ok(_) => {},
            Err(error) => {
                return Err(error);
            },
        }
        match self.emit_call("addCore(_)", 1, line) {
            Ok(_) => {},
            Err(error) => {
                return Err(error);
            },
        }
        match self.skip_newlines() {
            Ok(_) => {},
            Err(error) => {
                return Err(error);
            },
        }
        if self.check(TokenKind::Comma) {
            match self.advance() {
                Ok(_) => {},
                Err(error) => {
                    return Err(error);
                },
            }
            return self.elements(Ghost((limit - 1) as nat), line);
        }
        Ok(())
    }

    /// Compile a string with expressions in it, whose first part was just read.
    pub(crate) fn interpolation(&mut self, Ghost(limit): Ghost<nat>) -> (r: Result<(), CompileError>)
        requires
            old(self).wf(),
            grammar::remaining(old(self).input(), old(self).state()) <= limit,
        ensures
            final(self).went(
                old(self),
                r,
                grammar::interpolation(old(self).input(), old(self).state(), limit),
            ),
            r is Ok ==> final(self).depth == old(self).depth,
            r is Ok ==> final(self).rose(old(self), 1),
        decreases limit, 5nat,
    {
        let line: u16 = self.line();
        let value = self.text_literal();
        match self.emit_constant(value, line) {
            Ok(_) => {},
            Err(error) => {
                return Err(error);
            },
        }
        self.pieces(Ghost(limit), line)
    }

    /// Append the string that was just read.
    pub(crate) fn emit_part(&mut self, line: u16) -> (r: Result<(), CompileError>)
        requires
            old(self).wf(),
        ensures
            final(self).went(
                old(self),
                r,
                grammar::emit_call(
                    grammar::emit_constant(
                        old(self).state(),
                        grammar::text_literal(old(self).input(), old(self).state()),
                        line,
                    ),
                    "+(_)"@,
                    1,
                    line,
                ),
            ),
            final(self).at == old(self).at,
            final(self).depth == old(self).depth,
            r is Ok ==> final(self).rose(old(self), 0),
    {
        let value = self.text_literal();
        match self.emit_constant(value, line) {
            Ok(_) => {},
            Err(error) => {
                return Err(error);
            },
        }
        self.emit_call("+(_)", 1, line)
    }

    /// Compile the rest of a string with expressions in it.
    pub(crate) fn pieces(&mut self, Ghost(limit): Ghost<nat>, line: u16) -> (r: Result<(), CompileError>)
        requires
            old(self).wf(),
            grammar::remaining(old(self).input(), old(self).state()) <= limit,
        ensures
            final(self).went(
                old(self),
                r,
                grammar::pieces(old(self).input(), old(self).state(), limit, line),
            ),
            r is Ok ==> final(self).depth == old(self).depth,
            r is Ok ==> final(self).rose(old(self), 0),
        decreases limit, 3nat,
    {
        match self.skip_newlines() {
            Ok(_) => {},
            Err(error) => {
                return Err(error);
            },
        }
        match self.expression(Ghost(limit)) {
            Ok(_) => {},
            Err(error) => {
                return Err(error);
            },
        }
        match self.emit_call("toString", 0, line) {
            Ok(_) => {},
            Err(error) => {
                return Err(error);
            },
        }
        match self.emit_call("+(_)", 1, line) {
            Ok(_) => {},
            Err(error) => {
                return Err(error);
            },
        }
        if self.check(TokenKind::Interpolation) {
            match self.advance() {
                Ok(_) => {},
                Err(error) => {
                    return Err(error);
                },
            }
            match self.emit_part(line) {
                Ok(_) => {},
                Err(error) => {
                    return Err(error);
                },
            }
            return self.pieces(Ghost((limit - 1) as nat), line);
        }
        match self.consume(TokenKind::String, "Expect end of string interpolation.") {
            Ok(_) => {},
            Err(error) => {
                return Err(error);
            },
        }
        self.emit_part(line)
    }
}

/// Whether counting succeeded.
pub open spec fn without_count(r: Result<usize, CompileError>) -> Result<(), CompileError> {
    match r {
        Ok(_) => Ok(()),
        Err(error) => Err(error),
    }
}

} // verus!
