//! Statements.

use vstd::prelude::*;
use vstd::string::*;

use super::grammar;
use super::parser::Compiler;
use super::CompileError;
use crate::bytecode::Op;
use crate::corelib::install;
use crate::lexer::TokenKind;
use crate::value::Value;

verus! {

broadcast use {super::grammar::group_failed, super::grammar::group_grows};

impl<'a> Compiler<'a> {
    /// Compile a declaration or a statement, and the end of its line.
    pub(crate) fn declaration(&mut self, Ghost(limit): Ghost<nat>) -> (r: Result<(), CompileError>)
        requires
            old(self).wf(),
            old(self).balanced(),
            grammar::remaining(old(self).input(), old(self).state()) <= limit,
        ensures
            final(self).went(
                old(self),
                r,
                grammar::declaration(old(self).input(), old(self).state(), limit),
            ),
            r is Ok ==> final(self).depth == old(self).depth,
            r is Ok ==> final(self).balanced(),
            r is Ok ==> final(self).at > old(self).at,
        decreases limit, 10nat,
    {
        match self.declared(Ghost(limit)) {
            Ok(_) => {},
            Err(error) => {
                return Err(error);
            },
        }
        self.consume_line("Expect newline after statement.")
    }

    /// Compile a declaration or a statement.
    pub(crate) fn declared(&mut self, Ghost(limit): Ghost<nat>) -> (r: Result<(), CompileError>)
        requires
            old(self).wf(),
            old(self).balanced(),
            grammar::remaining(old(self).input(), old(self).state()) <= limit,
        ensures
            final(self).went(
                old(self),
                r,
                grammar::declared(old(self).input(), old(self).state(), limit),
            ),
            r is Ok ==> final(self).depth == old(self).depth,
            r is Ok ==> final(self).balanced(),
            r is Ok ==> final(self).at > old(self).at,
        decreases limit, 9nat,
    {
        if self.check(TokenKind::Var) {
            match self.advance() {
                Ok(_) => {},
                Err(error) => {
                    return Err(error);
                },
            }
            match self.var_declaration(Ghost((limit - 1) as nat)) {
                Ok(_) => {},
                Err(error) => {
                    return Err(error);
                },
            }
        } else {
            match self.statement(Ghost(limit)) {
                Ok(_) => {},
                Err(error) => {
                    return Err(error);
                },
            }
        }
        Ok(())
    }

    /// Compile a variable declared, after `var`.
    pub(crate) fn var_declaration(&mut self, Ghost(limit): Ghost<nat>) -> (r: Result<(), CompileError>)
        requires
            old(self).wf(),
            old(self).balanced(),
            grammar::remaining(old(self).input(), old(self).state()) <= limit,
        ensures
            final(self).went(
                old(self),
                r,
                grammar::var_declaration(old(self).input(), old(self).state(), limit),
            ),
            r is Ok ==> final(self).depth == old(self).depth,
            r is Ok ==> final(self).balanced(),
        decreases limit, 6nat,
    {
        match self.consume(TokenKind::Name, "Expect variable name.") {
            Ok(_) => {},
            Err(error) => {
                return Err(error);
            },
        }
        let name: String = self.word(self.previous);
        let line: u16 = self.line();
        if self.check(TokenKind::Eq) {
            match self.advance() {
                Ok(_) => {},
                Err(error) => {
                    return Err(error);
                },
            }
            match self.skip_newlines() {
                Ok(_) => {},
                Err(error) => {
                    return Err(error);
                },
            }
            match self.expression(Ghost(limit)) {
                Ok(_) => {},
                Err(error) => {
                    return Err(error);
                },
            }
        } else {
            self.emit_op(Op::Null, line);
        }
        if self.depth > 0 {
            return self.add_local(name.as_str());
        }
        let ghost before = *self;
        let index: usize = self.module.define(name.as_str(), Value::null());
        proof {
            crate::symbol::lemma_index(&self.module.names, name@, index as int);
            assert(install::scope_of(&self.module) == install::put(
                install::scope_of(&before.module),
                name@,
                Value::null(),
            ));
            assert(grammar::grows(before.state(), self.state())) by {
                reveal(grammar::grows);
            }
        }
        self.emit_with_short(Op::StoreModuleVar, index as u16, line);
        self.emit_op(Op::Pop, line);
        Ok(())
    }

    /// Compile a statement.
    pub(crate) fn statement(&mut self, Ghost(limit): Ghost<nat>) -> (r: Result<(), CompileError>)
        requires
            old(self).wf(),
            old(self).balanced(),
            grammar::remaining(old(self).input(), old(self).state()) <= limit,
        ensures
            final(self).went(
                old(self),
                r,
                grammar::statement(old(self).input(), old(self).state(), limit),
            ),
            r is Ok ==> final(self).depth == old(self).depth,
            r is Ok ==> final(self).balanced(),
            r is Ok ==> final(self).at > old(self).at,
        decreases limit, 8nat,
    {
        let ghost inner = (limit - 1) as nat;
        if self.check(TokenKind::LeftBrace) {
            match self.advance() {
                Ok(_) => {},
                Err(error) => {
                    return Err(error);
                },
            }
            self.begin_scope();
            match self.skip_newlines() {
                Ok(_) => {},
                Err(error) => {
                    return Err(error);
                },
            }
            match self.block(Ghost(inner)) {
                Ok(_) => {},
                Err(error) => {
                    return Err(error);
                },
            }
            self.end_scope();
            return Ok(());
        }
        let kind = self.kind();
        if kind == TokenKind::If || kind == TokenKind::While || kind == TokenKind::For {
            match self.advance() {
                Ok(_) => {},
                Err(error) => {
                    return Err(error);
                },
            }
            if kind == TokenKind::If {
                return self.if_statement(Ghost(inner));
            }
            if kind == TokenKind::While {
                return self.while_statement(Ghost(inner));
            }
            return self.for_statement(Ghost(inner));
        }
        match self.expression(Ghost(limit)) {
            Ok(_) => {},
            Err(error) => {
                return Err(error);
            },
        }
        let line: u16 = self.line();
        self.emit_op(Op::Pop, line);
        Ok(())
    }

    /// Compile declarations up to the closing brace.
    pub(crate) fn block(&mut self, Ghost(limit): Ghost<nat>) -> (r: Result<(), CompileError>)
        requires
            old(self).wf(),
            old(self).balanced(),
            grammar::remaining(old(self).input(), old(self).state()) <= limit,
        ensures
            final(self).went(
                old(self),
                r,
                grammar::block(old(self).input(), old(self).state(), limit),
            ),
            r is Ok ==> final(self).depth == old(self).depth,
            r is Ok ==> final(self).balanced(),
        decreases limit, 11nat,
    {
        if self.check(TokenKind::RightBrace) || self.check(TokenKind::Eof) {
            return self.consume(TokenKind::RightBrace, "Expect '}' after block.");
        }
        match self.declaration(Ghost(limit)) {
            Ok(_) => {},
            Err(error) => {
                return Err(error);
            },
        }
        match self.skip_newlines() {
            Ok(_) => {},
            Err(error) => {
                return Err(error);
            },
        }
        self.block(Ghost((limit - 1) as nat))
    }

    /// Compile a condition in parentheses.
    pub(crate) fn condition(&mut self, Ghost(limit): Ghost<nat>, opening: &str, closing: &str) -> (r: Result<(), CompileError>)
        requires
            old(self).wf(),
            grammar::remaining(old(self).input(), old(self).state()) <= limit,
        ensures
            final(self).went(
                old(self),
                r,
                grammar::condition(old(self).input(), old(self).state(), limit, opening@, closing@),
            ),
            r is Ok ==> final(self).depth == old(self).depth,
            r is Ok ==> final(self).rose(old(self), 1),
        decreases limit, 7nat,
    {
        match self.consume(TokenKind::LeftParen, opening) {
            Ok(_) => {},
            Err(error) => {
                return Err(error);
            },
        }
        match self.skip_newlines() {
            Ok(_) => {},
            Err(error) => {
                return Err(error);
            },
        }
        match self.expression(Ghost(limit)) {
            Ok(_) => {},
            Err(error) => {
                return Err(error);
            },
        }
        match self.skip_newlines() {
            Ok(_) => {},
            Err(error) => {
                return Err(error);
            },
        }
        self.consume(TokenKind::RightParen, closing)
    }

    /// Compile a statement that a condition decides, after `if`.
    pub(crate) fn if_statement(&mut self, Ghost(limit): Ghost<nat>) -> (r: Result<(), CompileError>)
        requires
            old(self).wf(),
            old(self).balanced(),
            grammar::remaining(old(self).input(), old(self).state()) <= limit,
        ensures
            final(self).went(
                old(self),
                r,
                grammar::if_statement(old(self).input(), old(self).state(), limit),
            ),
            r is Ok ==> final(self).depth == old(self).depth,
            r is Ok ==> final(self).balanced(),
        decreases limit, 9nat,
    {
        match self.condition(
            Ghost(limit),
            "Expect '(' after 'if'.",
            "Expect ')' after if condition.",
        ) {
            Ok(_) => {},
            Err(error) => {
                return Err(error);
            },
        }
        let line: u16 = self.line();
        let past: usize = self.emit_jump(Op::JumpIf, line);
        match self.skip_newlines() {
            Ok(_) => {},
            Err(error) => {
                return Err(error);
            },
        }
        match self.statement(Ghost(limit)) {
            Ok(_) => {},
            Err(error) => {
                return Err(error);
            },
        }
        if self.check(TokenKind::Else) {
            match self.advance() {
                Ok(_) => {},
                Err(error) => {
                    return Err(error);
                },
            }
            let line: u16 = self.line();
            let end: usize = self.emit_jump(Op::Jump, line);
            match self.patch(past) {
                Ok(_) => {},
                Err(error) => {
                    return Err(error);
                },
            }
            match self.skip_newlines() {
                Ok(_) => {},
                Err(error) => {
                    return Err(error);
                },
            }
            match self.statement(Ghost(limit)) {
                Ok(_) => {},
                Err(error) => {
                    return Err(error);
                },
            }
            return self.patch(end);
        }
        self.patch(past)
    }

    /// Compile a loop while a condition holds, after `while`.
    pub(crate) fn while_statement(&mut self, Ghost(limit): Ghost<nat>) -> (r: Result<(), CompileError>)
        requires
            old(self).wf(),
            old(self).balanced(),
            grammar::remaining(old(self).input(), old(self).state()) <= limit,
        ensures
            final(self).went(
                old(self),
                r,
                grammar::while_statement(old(self).input(), old(self).state(), limit),
            ),
            r is Ok ==> final(self).depth == old(self).depth,
            r is Ok ==> final(self).balanced(),
        decreases limit, 9nat,
    {
        let start: usize = self.chunk.code.len();
        match self.condition(
            Ghost(limit),
            "Expect '(' after 'while'.",
            "Expect ')' after while condition.",
        ) {
            Ok(_) => {},
            Err(error) => {
                return Err(error);
            },
        }
        let line: u16 = self.line();
        let exit: usize = self.emit_jump(Op::JumpIf, line);
        match self.skip_newlines() {
            Ok(_) => {},
            Err(error) => {
                return Err(error);
            },
        }
        match self.statement(Ghost(limit)) {
            Ok(_) => {},
            Err(error) => {
                return Err(error);
            },
        }
        let line: u16 = self.line();
        match self.emit_loop(start, line) {
            Ok(_) => {},
            Err(error) => {
                return Err(error);
            },
        }
        self.patch(exit)
    }

    /// Compile the head of a loop over a sequence, up to the sequence itself.
    pub(crate) fn for_head(&mut self) -> (r: Result<(), CompileError>)
        requires
            old(self).wf(),
            old(self).depth < old(self).at,
        ensures
            final(self).went(old(self), r, grammar::for_head(old(self).input(), old(self).state())),
            r is Ok ==> final(self).depth == old(self).depth + 1,
            r is Ok ==> final(self).rose(old(self), 0),
            r is Ok ==> final(self).at == old(self).at + 2,
    {
        self.begin_scope();
        match self.consume(TokenKind::LeftParen, "Expect '(' after 'for'.") {
            Ok(_) => {},
            Err(error) => {
                return Err(error);
            },
        }
        self.consume(TokenKind::Name, "Expect for loop variable name.")
    }

    /// Compile what a loop over a sequence does before it starts.
    pub(crate) fn for_setup(&mut self) -> (r: Result<(), CompileError>)
        requires
            old(self).wf(),
            old(self).holds_one(),
        ensures
            final(self).went(
                old(self),
                r,
                grammar::for_setup(old(self).input(), old(self).state()),
            ),
            r is Ok ==> final(self).depth == old(self).depth,
            r is Ok ==> final(self).balanced(),
            r is Ok ==> final(self).locals@.len() == old(self).locals@.len() + 2,
    {
        match self.add_local("seq ") {
            Ok(_) => {},
            Err(error) => {
                return Err(error);
            },
        }
        let line: u16 = self.line();
        self.emit_op(Op::Null, line);
        match self.add_local("iter ") {
            Ok(_) => {},
            Err(error) => {
                return Err(error);
            },
        }
        let ghost between = *self;
        let r = self.consume(TokenKind::RightParen, "Expect ')' after loop expression.");
        proof {
            reveal(grammar::add_local);
            reveal(grammar::emit_op);
            reveal(grammar::consume);
            reveal(grammar::advance);
            assert(self.state().locals.len() == self.locals@.len());
            assert(between.state().locals.len() == between.locals@.len());
        }
        r
    }

    /// Compile how a loop over a sequence asks for the next element.
    pub(crate) fn for_advance(&mut self, sequence: usize, line: u16) -> (r: Result<(), CompileError>)
        requires
            old(self).wf(),
            sequence < u8::MAX,
        ensures
            final(self).went(
                old(self),
                r,
                grammar::for_advance(old(self).state(), sequence as int, line),
            ),
            r is Ok ==> final(self).depth == old(self).depth && final(self).at == old(self).at,
            r is Ok ==> final(self).rose(old(self), 1),
    {
        self.emit_with_byte(Op::LoadLocal, sequence as u8, line);
        self.emit_with_byte(Op::LoadLocal, (sequence + 1) as u8, line);
        match self.emit_call("iterate(_)", 1, line) {
            Ok(_) => {},
            Err(error) => {
                return Err(error);
            },
        }
        self.emit_with_byte(Op::StoreLocal, (sequence + 1) as u8, line);
        Ok(())
    }

    /// Compile how a loop over a sequence gives its variable an element, and
    /// say where the jump out of it is.
    pub(crate) fn for_bind(&mut self, sequence: usize, name: &str, line: u16, exit: &mut usize) -> (r: Result<
        (),
        CompileError,
    >)
        requires
            old(self).wf(),
            old(self).holds_one(),
            sequence < u8::MAX,
            old(self).depth < old(self).at,
        ensures
            final(self).went(
                old(self),
                r,
                grammar::for_bind(old(self).state(), sequence as int, name@, line),
            ),
            *final(exit) == grammar::jump_place(old(self).state()),
            *final(exit) < final(self).chunk.code@.len(),
            r is Ok ==> final(self).depth == old(self).depth + 1 && final(self).at == old(self).at,
            r is Ok ==> final(self).balanced(),
    {
        let jump: usize = self.emit_jump(Op::JumpIf, line);
        *exit = jump;
        self.begin_scope();
        self.emit_with_byte(Op::LoadLocal, sequence as u8, line);
        self.emit_with_byte(Op::LoadLocal, (sequence + 1) as u8, line);
        match self.emit_call("iteratorValue(_)", 1, line) {
            Ok(_) => {},
            Err(error) => {
                return Err(error);
            },
        }
        self.add_local(name)
    }

    /// Compile a loop over a sequence, after `for`.
    #[verifier::rlimit(100)]
    pub(crate) fn for_statement(&mut self, Ghost(limit): Ghost<nat>) -> (r: Result<(), CompileError>)
        requires
            old(self).wf(),
            old(self).balanced(),
            grammar::remaining(old(self).input(), old(self).state()) <= limit,
            old(self).depth < old(self).at,
        ensures
            final(self).went(
                old(self),
                r,
                grammar::for_statement(old(self).input(), old(self).state(), limit),
            ),
            r is Ok ==> final(self).depth == old(self).depth,
            r is Ok ==> final(self).balanced(),
        decreases limit, 9nat,
    {
        match self.for_head() {
            Ok(_) => {},
            Err(error) => {
                return Err(error);
            },
        }
        let name: String = self.word(self.previous);
        match self.consume(TokenKind::In, "Expect 'in' after loop variable.") {
            Ok(_) => {},
            Err(error) => {
                return Err(error);
            },
        }
        match self.skip_newlines() {
            Ok(_) => {},
            Err(error) => {
                return Err(error);
            },
        }
        match self.expression(Ghost(limit)) {
            Ok(_) => {},
            Err(error) => {
                return Err(error);
            },
        }
        let sequence: usize = self.locals.len();
        match self.for_setup() {
            Ok(_) => {},
            Err(error) => {
                return Err(error);
            },
        }
        let start: usize = self.chunk.code.len();
        let line: u16 = self.line();
        match self.for_advance(sequence, line) {
            Ok(_) => {},
            Err(error) => {
                return Err(error);
            },
        }
        let mut exit: usize = 0;
        match self.for_bind(sequence, name.as_str(), line, &mut exit) {
            Ok(_) => {},
            Err(error) => {
                return Err(error);
            },
        }
        match self.skip_newlines() {
            Ok(_) => {},
            Err(error) => {
                return Err(error);
            },
        }
        match self.statement(Ghost(limit)) {
            Ok(_) => {},
            Err(error) => {
                return Err(error);
            },
        }
        self.end_scope();
        let line: u16 = self.line();
        match self.emit_loop(start, line) {
            Ok(_) => {},
            Err(error) => {
                return Err(error);
            },
        }
        match self.patch(exit) {
            Ok(_) => {},
            Err(error) => {
                return Err(error);
            },
        }
        self.end_scope();
        Ok(())
    }

    /// Compile declarations up to the end of the source.
    pub(crate) fn program(&mut self, Ghost(limit): Ghost<nat>) -> (r: Result<(), CompileError>)
        requires
            old(self).wf(),
            old(self).balanced(),
            grammar::remaining(old(self).input(), old(self).state()) <= limit,
        ensures
            final(self).went(
                old(self),
                r,
                grammar::program(old(self).input(), old(self).state(), limit),
            ),
            r is Ok ==> final(self).depth == old(self).depth,
            r is Ok ==> final(self).balanced(),
        decreases limit, 12nat,
    {
        if self.check(TokenKind::Eof) {
            return Ok(());
        }
        match self.declaration(Ghost(limit)) {
            Ok(_) => {},
            Err(error) => {
                return Err(error);
            },
        }
        match self.skip_newlines() {
            Ok(_) => {},
            Err(error) => {
                return Err(error);
            },
        }
        self.program(Ghost((limit - 1) as nat))
    }
}

} // verus!
