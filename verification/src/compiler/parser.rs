//! The parser, which emits code as it reads.

use vstd::prelude::*;
use vstd::string::*;

use super::code;
use super::code::{
    put_byte, put_constant, put_distance, put_jump, put_loop, put_op, put_short,
};
use super::grammar;
use super::grammar::{Fault, LocalModel, Source, State};
use super::words;
use super::words::{clamp_line, signature};
use super::CompileError;
use crate::bytecode::{Chunk, Op};
use crate::corelib::install;
use crate::corelib::strings::cut;
use crate::lexer::{Token, TokenKind};
use crate::object::text_of;
use crate::symbol::SymbolTable;
use crate::value::Value;
use crate::vm::Module;

verus! {

broadcast use {super::grammar::group_failed, super::grammar::group_grows};

/// A local variable.
pub struct Local {
    pub name: String,
    pub depth: usize,
}

/// The locals of a compiler.
pub open spec fn locals_of(locals: Seq<Local>) -> Seq<LocalModel> {
    locals.map_values(|local: Local| LocalModel { name: local.name@, depth: local.depth as int })
}

/// Why compiling failed, if it did.
pub open spec fn fault_of(r: Result<(), CompileError>) -> Option<Fault> {
    match r {
        Ok(_) => None,
        Err(error) => Some(Fault { message: error.message@, line: error.line }),
    }
}

/// Most locals that there can be at once.
pub const MAX_LOCALS: usize = 255;

/// A compiler at work.
pub struct Compiler<'a> {
    pub source: &'a [u8],
    pub tokens: &'a Vec<Token>,
    pub literals: &'a Vec<Option<Value>>,
    pub at: usize,
    pub previous: Token,
    pub chunk: Chunk,
    /// How many values the code leaves on the stack.
    pub height: Ghost<int>,
    pub locals: Vec<Local>,
    pub depth: usize,
    pub methods: SymbolTable,
    pub module: Module,
}

impl<'a> Compiler<'a> {
    /// What is compiled.
    pub open spec fn input(&self) -> Source {
        Source { bytes: self.source@, tokens: self.tokens@, literals: self.literals@ }
    }

    /// How far compiling has got.
    pub open spec fn state(&self) -> State {
        State {
            at: self.at as int,
            previous: self.previous,
            code: code::emitted(&self.chunk),
            height: self.height@,
            locals: locals_of(self.locals@),
            depth: self.depth as int,
            methods: self.methods@,
            scope: install::scope_of(&self.module),
            fault: None,
        }
    }

    /// What holds even once compiling has failed.
    pub open spec fn sound(&self) -> bool {
        &&& self.chunk.wf()
        &&& self.methods.wf()
        &&& self.module.wf()
        &&& words::well_ended(self.tokens@)
        &&& self.at < self.tokens@.len()
        &&& self.locals@.len() <= MAX_LOCALS
        &&& self.depth <= self.at
    }

    /// What holds while compiling goes on.
    pub open spec fn wf(&self) -> bool {
        &&& self.sound()
        &&& self.tokens@[self.at as int].kind != TokenKind::Error
    }

    /// How far compiling has got, and whether it failed.
    pub open spec fn outcome(&self, r: Result<(), CompileError>) -> State {
        State { fault: fault_of(r), ..self.state() }
    }

    /// Whether a compiler went from one place to another.
    pub open spec fn went(
        &self,
        before: &Compiler<'a>,
        r: Result<(), CompileError>,
        expected: State,
    ) -> bool {
        &&& self.source == before.source
        &&& self.tokens == before.tokens
        &&& self.literals == before.literals
        &&& self.sound()
        &&& r is Ok ==> self.wf()
        &&& self.outcome(r) == expected
        &&& grammar::grows(before.state(), self.state())
        &&& self.at >= before.at
        &&& self.chunk.code@.len() >= before.chunk.code@.len()
    }

    /// Whether the code leaves so many values more on the stack than before,
    /// and as many locals are declared.
    pub open spec fn rose(&self, before: &Compiler<'a>, by: int) -> bool {
        self.height@ == before.height@ + by && self.locals@.len() == before.locals@.len()
    }

    /// Whether the code leaves on the stack what is in the locals, and nothing
    /// else.
    pub open spec fn balanced(&self) -> bool {
        self.height@ == self.locals@.len()
    }

    /// Whether the code leaves one value on the stack above the locals.
    pub open spec fn holds_one(&self) -> bool {
        self.height@ == self.locals@.len() + 1
    }

    /// The kind of the next token.
    pub(crate) fn kind(&self) -> (kind: TokenKind)
        requires
            self.sound(),
        ensures
            kind == grammar::current(self.input(), self.state()).kind,
    {
        self.tokens[self.at].kind
    }

    /// Whether the next token is of a kind.
    pub(crate) fn check(&self, kind: TokenKind) -> (r: bool)
        requires
            self.sound(),
        ensures
            r == (grammar::current(self.input(), self.state()).kind == kind),
            r == grammar::accepts(self.input(), self.state(), kind),
    {
        self.tokens[self.at].kind == kind
    }

    /// An error at a token.
    pub(crate) fn error_at(&self, token: Token, message: &str) -> (error: CompileError)
        ensures
            error.message@ == message@,
            error.line == words::spec_clamp_line(token.line),
    {
        CompileError { message: message.to_owned(), line: clamp_line(token.line) }
    }

    /// The line of what was read last.
    pub(crate) fn line(&self) -> (line: u16)
        ensures
            line == grammar::line_of(self.state()),
    {
        clamp_line(self.previous.line)
    }

    /// Go past the next token.
    pub(crate) fn advance(&mut self) -> (r: Result<(), CompileError>)
        requires
            old(self).wf(),
        ensures
            final(self).went(old(self), r, grammar::advance(old(self).input(), old(self).state())),
            final(self).depth == old(self).depth,
            final(self).rose(old(self), 0),
            r is Ok && old(self).at + 1 < old(self).tokens@.len() ==> final(self).at
                == old(self).at + 1,
    {
        proof {
            reveal(grammar::advance);
        }
        let ghost before = *self;
        let size: usize = self.tokens.len();
        self.previous = self.tokens[self.at];
        if self.at + 1 < size {
            self.at = self.at + 1;
        }
        let now = self.tokens[self.at];
        if now.kind == TokenKind::Error {
            return Err(self.error_at(now, "Invalid token."));
        }
        Ok(())
    }

    /// Go past a token that has to be of a kind.
    pub(crate) fn consume(&mut self, kind: TokenKind, message: &str) -> (r: Result<(), CompileError>)
        requires
            old(self).wf(),
        ensures
            final(self).went(
                old(self),
                r,
                grammar::consume(old(self).input(), old(self).state(), kind, message@),
            ),
            final(self).depth == old(self).depth,
            final(self).rose(old(self), 0),
            r is Ok && kind != TokenKind::Eof ==> final(self).at == old(self).at + 1,
    {
        proof {
            reveal(grammar::consume);
        }
        if self.check(kind) {
            return self.advance();
        }
        let now = self.tokens[self.at];
        Err(self.error_at(now, message))
    }

    /// Go past the ends of lines.
    pub(crate) fn skip_newlines(&mut self) -> (r: Result<(), CompileError>)
        requires
            old(self).wf(),
        ensures
            final(self).went(
                old(self),
                r,
                grammar::skip_lines(old(self).input(), old(self).state()),
            ),
            final(self).depth == old(self).depth,
            final(self).rose(old(self), 0),
    {
        proof {
            reveal(grammar::skip_lines);
        }
        let ghost before = *self;
        let ghost x = self.input();
        while self.tokens[self.at].kind == TokenKind::Line
            invariant
                before == *old(self),
                x == before.input(),
                self.wf(),
                self.source == before.source,
                self.tokens == before.tokens,
                self.literals == before.literals,
                self.rose(&before, 0),
                self.depth == before.depth,
                self.at >= before.at,
                self.chunk.code@.len() >= before.chunk.code@.len(),
                grammar::grows(before.state(), self.state()),
                grammar::skip_lines(x, before.state()) == grammar::skip_lines(x, self.state()),
            decreases self.tokens@.len() - self.at,
        {
            let ghost between = *self;
            proof {
                reveal(grammar::skip_lines);
                assert(self.at + 1 < self.tokens@.len());
            }
            match self.advance() {
                Ok(_) => {},
                Err(error) => {
                    proof {
                        reveal_with_fuel(grammar::skip_lines, 2);
                    }
                    return Err(error);
                },
            }
        }
        Ok(())
    }

    /// Go past the end of a statement.
    pub(crate) fn consume_line(&mut self, message: &str) -> (r: Result<(), CompileError>)
        requires
            old(self).wf(),
        ensures
            final(self).went(
                old(self),
                r,
                grammar::consume_line(old(self).input(), old(self).state(), message@),
            ),
            final(self).depth == old(self).depth,
            final(self).rose(old(self), 0),
    {
        proof {
            reveal(grammar::consume_line);
        }
        if self.check(TokenKind::Eof) || self.check(TokenKind::RightBrace) {
            return Ok(());
        }
        match self.consume(TokenKind::Line, message) {
            Ok(_) => {},
            Err(error) => {
                return Err(error);
            },
        }
        self.skip_newlines()
    }

    /// The text of a token.
    pub(crate) fn word(&self, token: Token) -> (text: String)
        ensures
            text@ == grammar::word(self.input(), token),
    {
        if token.start <= token.end && token.end <= self.source.len() {
            let bytes: Vec<u8> = cut(self.source, token.start, token.end);
            match text_of(bytes.as_slice()) {
                Some(text) => text.to_owned(),
                None => {
                    let empty = String::new();
                    proof {
                        assert(empty@ =~= Seq::<char>::empty());
                    }
                    empty
                },
            }
        } else {
            let nothing: Vec<u8> = Vec::new();
            proof {
                assert(nothing@ =~= Seq::<u8>::empty());
            }
            match text_of(nothing.as_slice()) {
                Some(text) => text.to_owned(),
                None => {
                    let empty = String::new();
                    proof {
                        assert(empty@ =~= Seq::<char>::empty());
                    }
                    empty
                },
            }
        }
    }

    /// What the literal that was read last is worth.
    pub(crate) fn literal(&self) -> (r: Option<Value>)
        ensures
            r == grammar::literal(self.input(), self.state()),
    {
        if self.at > 0 && self.at <= self.literals.len() {
            self.literals[self.at - 1]
        } else {
            None
        }
    }

    /// What the string that was read last is worth.
    pub(crate) fn text_literal(&self) -> (value: Value)
        ensures
            value == grammar::text_literal(self.input(), self.state()),
    {
        match self.literal() {
            Some(value) => value,
            None => Value::null(),
        }
    }

    /// Begin an instruction.
    pub(crate) fn emit_op(&mut self, op: Op, line: u16)
        requires
            old(self).wf(),
        ensures
            final(self).went(old(self), Ok(()), grammar::emit_op(old(self).state(), op, line)),
            final(self).at == old(self).at,
            final(self).depth == old(self).depth,
            final(self).rose(old(self), grammar::effect(op)),
    {
        proof {
            reveal(grammar::emit_op);
        }
        self.height = Ghost(self.height@ + grammar::effect(op));
        put_op(&mut self.chunk, op, line);
    }

    /// Emit an instruction with a byte operand.
    pub(crate) fn emit_with_byte(&mut self, op: Op, byte: u8, line: u16)
        requires
            old(self).wf(),
        ensures
            final(self).went(
                old(self),
                Ok(()),
                grammar::emit_with_byte(old(self).state(), op, byte, line),
            ),
            final(self).at == old(self).at,
            final(self).depth == old(self).depth,
            final(self).rose(old(self), grammar::effect(op)),
    {
        proof {
            reveal(grammar::emit_with_byte);
        }
        self.height = Ghost(self.height@ + grammar::effect(op));
        put_op(&mut self.chunk, op, line);
        put_byte(&mut self.chunk, byte, line);
    }

    /// Emit an instruction with an operand unit.
    pub(crate) fn emit_with_short(&mut self, op: Op, value: u16, line: u16)
        requires
            old(self).wf(),
        ensures
            final(self).went(
                old(self),
                Ok(()),
                grammar::emit_with_short(old(self).state(), op, value, line),
            ),
            final(self).at == old(self).at,
            final(self).depth == old(self).depth,
            final(self).rose(old(self), grammar::effect(op)),
    {
        proof {
            reveal(grammar::emit_with_short);
        }
        self.height = Ghost(self.height@ + grammar::effect(op));
        put_op(&mut self.chunk, op, line);
        put_short(&mut self.chunk, value, line);
    }

    /// Load a constant.
    pub(crate) fn emit_constant(&mut self, value: Value, line: u16) -> (r: Result<(), CompileError>)
        requires
            old(self).wf(),
        ensures
            final(self).went(
                old(self),
                r,
                grammar::emit_constant(old(self).state(), value, line),
            ),
            final(self).at == old(self).at,
            final(self).depth == old(self).depth,
            r is Ok ==> final(self).rose(old(self), 1),
    {
        proof {
            reveal(grammar::emit_constant);
            reveal(grammar::grows);
        }
        match put_constant(&mut self.chunk, value) {
            None => Err(self.error_at(self.previous, "Too many constants.")),
            Some(place) => {
                self.emit_with_short(Op::Constant, place, line);
                Ok(())
            },
        }
    }

    /// Call a method.
    pub(crate) fn emit_call(&mut self, signature: &str, arity: usize, line: u16) -> (r: Result<
        (),
        CompileError,
    >)
        requires
            old(self).wf(),
            arity <= u8::MAX,
        ensures
            final(self).went(
                old(self),
                r,
                grammar::emit_call(old(self).state(), signature@, arity as nat, line),
            ),
            final(self).at == old(self).at,
            final(self).depth == old(self).depth,
            r is Ok ==> final(self).rose(old(self), -arity),
    {
        proof {
            reveal(grammar::emit_call);
            reveal(grammar::grows);
        }
        let symbol: usize = self.methods.ensure(signature);
        proof {
            crate::symbol::lemma_index(&self.methods, signature@, symbol as int);
        }
        if symbol > u16::MAX as usize {
            return Err(self.error_at(self.previous, "Too many method names."));
        }
        self.height = Ghost(self.height@ - arity);
        put_op(&mut self.chunk, Op::Call, line);
        put_byte(&mut self.chunk, arity as u8, line);
        put_short(&mut self.chunk, symbol as u16, line);
        Ok(())
    }

    /// Begin a jump, and say where its distance goes.
    pub(crate) fn emit_jump(&mut self, op: Op, line: u16) -> (at: usize)
        requires
            old(self).wf(),
        ensures
            final(self).went(old(self), Ok(()), grammar::emit_jump(old(self).state(), op, line)),
            at == grammar::jump_place(old(self).state()),
            at < final(self).chunk.code@.len(),
            final(self).at == old(self).at,
            final(self).depth == old(self).depth,
            final(self).rose(old(self), grammar::effect(op)),
    {
        proof {
            reveal(grammar::emit_jump);
        }
        self.height = Ghost(self.height@ + grammar::effect(op));
        put_jump(&mut self.chunk, op, line)
    }

    /// Make a jump lead here.
    pub(crate) fn patch(&mut self, at: usize) -> (r: Result<(), CompileError>)
        requires
            old(self).wf(),
            at < old(self).chunk.code@.len(),
        ensures
            final(self).went(old(self), r, grammar::patch(old(self).state(), at as int)),
            final(self).at == old(self).at,
            final(self).depth == old(self).depth,
            final(self).rose(old(self), 0),
    {
        proof {
            reveal(grammar::patch);
        }
        if put_distance(&mut self.chunk, at) {
            return Ok(());
        }
        Err(self.error_at(self.previous, "Too much code to jump over."))
    }

    /// Jump back.
    pub(crate) fn emit_loop(&mut self, start: usize, line: u16) -> (r: Result<(), CompileError>)
        requires
            old(self).wf(),
            start <= old(self).chunk.code@.len(),
        ensures
            final(self).went(old(self), r, grammar::emit_loop(old(self).state(), start as int, line)),
            final(self).at == old(self).at,
            final(self).depth == old(self).depth,
            final(self).rose(old(self), 0),
    {
        proof {
            reveal(grammar::emit_loop);
        }
        if self.chunk.code.len() > usize::MAX - 2 {
            return Err(self.error_at(self.previous, "Loop body too large."));
        }
        if put_loop(&mut self.chunk, start, line) {
            return Ok(());
        }
        Err(self.error_at(self.previous, "Loop body too large."))
    }

    /// Begin a block.
    pub(crate) fn begin_scope(&mut self)
        requires
            old(self).wf(),
            old(self).depth < old(self).at,
        ensures
            final(self).went(old(self), Ok(()), grammar::begin_scope(old(self).state())),
            final(self).at == old(self).at,
            final(self).depth == old(self).depth + 1,
            final(self).rose(old(self), 0),
    {
        proof {
            reveal(grammar::begin_scope);
        }
        self.depth = self.depth + 1;
    }

    /// End a block.
    pub(crate) fn end_scope(&mut self)
        requires
            old(self).wf(),
            old(self).depth > 0,
        ensures
            final(self).went(old(self), Ok(()), grammar::end_scope(old(self).state())),
            final(self).at == old(self).at,
            final(self).depth == old(self).depth - 1,
            final(self).height@ - final(self).locals@.len() == old(self).height@ - old(self).locals@.len(),
    {
        proof {
            reveal(grammar::end_scope);
        }
        let ghost before = *self;
        let line: u16 = self.line();
        loop
            invariant
                self.wf(),
                self.source == before.source,
                self.tokens == before.tokens,
                self.literals == before.literals,
                self.depth == before.depth,
                self.at == before.at,
                self.chunk.code@.len() >= before.chunk.code@.len(),
                self.height@ - self.locals@.len() == before.height@ - before.locals@.len(),
                self.methods == before.methods,
                self.module == before.module,
                line == grammar::line_of(before.state()),
                grammar::drop_locals(before.state(), line) == grammar::drop_locals(
                    self.state(),
                    line,
                ),
            ensures
                self.locals@.len() == 0 || self.locals@.last().depth < self.depth,
            decreases self.locals@.len(),
        {
            let count: usize = self.locals.len();
            if count == 0 {
                break;
            }
            if self.locals[count - 1].depth < self.depth {
                break;
            }
            let ghost between = *self;
            self.height = Ghost(self.height@ - 1);
            put_op(&mut self.chunk, Op::Pop, line);
            let gone = self.locals.pop();
            proof {
                assert(locals_of(self.locals@) =~= locals_of(between.locals@).drop_last());
                assert(locals_of(between.locals@).last().depth == between.locals@.last().depth);
            }
        }
        proof {
            if self.locals@.len() > 0 {
                assert(locals_of(self.locals@).last().depth == self.locals@.last().depth);
            }
        }
        self.depth = self.depth - 1;
    }

    /// The innermost local of a name.
    pub(crate) fn resolve_local(&self, name: &str) -> (r: Option<usize>)
        requires
            self.sound(),
        ensures
            match r {
                Some(slot) => grammar::resolve_local(self.state().locals, name@) == Some(
                    slot as int,
                ) && slot < self.locals@.len(),
                None => grammar::resolve_local(self.state().locals, name@) is None,
            },
    {
        let ghost all = locals_of(self.locals@);
        let mut left: usize = self.locals.len();
        proof {
            assert(all.take(left as int) =~= all);
        }
        while left > 0
            invariant
                left <= self.locals@.len(),
                all == locals_of(self.locals@),
                grammar::resolve_local(all, name@) == grammar::resolve_local(
                    all.take(left as int),
                    name@,
                ),
            decreases left,
        {
            let ghost here = all.take(left as int);
            proof {
                assert(here.last() == all[left - 1]);
                assert(here.drop_last() =~= all.take(left - 1));
            }
            if crate::text::same_text(self.locals[left - 1].name.as_str(), name) {
                return Some(left - 1);
            }
            left = left - 1;
        }
        None
    }

    /// Declare a local whose value is on the stack.
    pub(crate) fn add_local(&mut self, name: &str) -> (r: Result<(), CompileError>)
        requires
            old(self).wf(),
            old(self).holds_one(),
        ensures
            final(self).went(old(self), r, grammar::add_local(old(self).state(), name@)),
            final(self).at == old(self).at,
            final(self).depth == old(self).depth,
            final(self).height@ == old(self).height@,
            r is Ok ==> final(self).locals@.len() == old(self).locals@.len() + 1,
    {
        proof {
            reveal(grammar::add_local);
        }
        let ghost before = *self;
        if self.locals.len() >= MAX_LOCALS {
            return Err(self.error_at(self.previous, "Too many local variables in scope."));
        }
        self.locals.push(Local { name: name.to_owned(), depth: self.depth });
        proof {
            assert(locals_of(self.locals@) =~= locals_of(before.locals@).push(
                LocalModel { name: name@, depth: before.depth as int },
            ));
        }
        Ok(())
    }
}

} // verus!
