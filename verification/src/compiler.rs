//! Source to bytecode, in one pass.
//!
//! Expressions, variables, `if` and `else`, `while`, `for` and `in`, blocks,
//! list literals and string interpolation.

pub mod code;
pub mod expression_laws;
pub mod expressions;
pub mod flow_laws;
pub mod frame;
pub mod grammar;
pub mod literals;
pub mod loop_laws;
pub mod operator_laws;
pub mod parser;
pub mod statements;
pub mod words;

use vstd::prelude::*;

use crate::bytecode::{Chunk, Op};
use crate::corelib::install;
use crate::corelib::lists;
use crate::corelib::lists::new_list;
use crate::lexer::{Token, TokenKind};
use crate::symbol::SymbolTable;
use crate::value::Value;
use crate::vm::{Module, Vm};
use self::grammar::{Fault, Source};
use self::parser::Compiler;
use self::words::clamp_line;

verus! {

broadcast use {self::grammar::group_failed, self::grammar::group_grows};

/// A failure to compile, with the line it was found on.
#[derive(Debug, Clone, PartialEq, Eq)]
pub struct CompileError {
    pub message: String,
    pub line: u16,
}

impl<'a> Compiler<'a> {
    /// A compiler that has read nothing yet.
    fn new(
        source: &'a [u8],
        tokens: &'a Vec<Token>,
        literals: &'a Vec<Option<Value>>,
        methods: SymbolTable,
        module: Module,
    ) -> (compiler: Compiler<'a>)
        requires
            words::well_ended(tokens@),
            methods.wf(),
            module.wf(),
        ensures
            compiler.sound(),
            compiler.balanced(),
            compiler.input() == (Source {
                bytes: source@,
                tokens: tokens@,
                literals: literals@,
            }),
            compiler.state() == grammar::initial(methods@, install::scope_of(&module)),
    {
        let compiler = Compiler {
            source,
            tokens,
            literals,
            at: 0,
            previous: Token { kind: TokenKind::Eof, start: 0, end: 0, line: 1 },
            chunk: Chunk::new(),
            height: Ghost(0),
            locals: Vec::new(),
            depth: 0,
            methods,
            module,
        };
        proof {
            assert(compiler.chunk.known() =~= Map::empty());
            assert(parser::locals_of(compiler.locals@) =~= Seq::empty());
        }
        compiler
    }

    /// Compile the whole source.
    fn whole(&mut self) -> (r: Result<(), CompileError>)
        requires
            old(self).sound(),
            old(self).balanced(),
            old(self).state() == grammar::initial(
                old(self).methods@,
                install::scope_of(&old(self).module),
            ),
        ensures
            final(self).sound(),
            grammar::grows(old(self).state(), final(self).state()),
            r is Ok ==> final(self).balanced(),
            final(self).outcome(r) == grammar::compiled(
                old(self).input(),
                old(self).methods@,
                install::scope_of(&old(self).module),
            ),
    {
        if self.check(TokenKind::Error) {
            return Err(self.error_at(self.tokens[self.at], "Invalid token."));
        }
        match self.skip_newlines() {
            Ok(_) => {},
            Err(error) => {
                return Err(error);
            },
        }
        match self.program(Ghost(self.tokens@.len())) {
            Ok(_) => {},
            Err(error) => {
                return Err(error);
            },
        }
        let line: u16 = clamp_line(self.tokens[self.at].line);
        self.emit_op(Op::End, line);
        Ok(())
    }
}

/// Compile source into a chunk of a module, given its tokens and what the
/// literals among them are worth. The signatures it calls are added to the
/// machine's and the variables it declares to the module's, also if it fails;
/// those that are there keep their numbers. Each local is declared when its value
/// is where the local says, and the code leaves nothing else on the stack.
pub fn compile(
    vm: &mut Vm,
    index: usize,
    source: &[u8],
    tokens: &Vec<Token>,
    literals: &Vec<Option<Value>>,
) -> (r: Result<Chunk, CompileError>)
    requires
        old(vm).wf(),
        index < old(vm).modules@.len(),
        words::well_ended(tokens@),
    ensures
        final(vm).wf(),
        *final(vm) == (Vm {
            method_names: final(vm).method_names,
            modules: final(vm).modules,
            ..*old(vm)
        }),
        final(vm).modules@ == old(vm).modules@.update(
            index as int,
            final(vm).modules@[index as int],
        ),
        old(vm).method_names@.is_prefix_of(final(vm).method_names@),
        old(vm).modules@[index as int].names@.is_prefix_of(
            final(vm).modules@[index as int].names@,
        ),
        final(vm).modules@[index as int].name == old(vm).modules@[index as int].name,
        ({
            let s = grammar::compiled(
                (Source { bytes: source@, tokens: tokens@, literals: literals@ }),
                old(vm).method_names@,
                install::scope_of(&old(vm).modules@[index as int]),
            );
            &&& final(vm).method_names@ == s.methods
            &&& install::scope_of(&final(vm).modules@[index as int]) == s.scope
            &&& match r {
                Ok(chunk) => {
                    &&& s.fault is None
                    &&& chunk.wf()
                    &&& code::emitted(&chunk) == s.code
                    &&& s.height == s.locals.len()
                },
                Err(error) => s.fault == Some(
                    (Fault { message: error.message@, line: error.line }),
                ),
            }
        }),
{
    let mut methods = SymbolTable::new();
    let mut module = Module { name: String::new(), names: SymbolTable::new(), values: Vec::new() };
    std::mem::swap(&mut methods, &mut vm.method_names);
    let home = &mut vm.modules[index];
    std::mem::swap(&mut module.names, &mut home.names);
    std::mem::swap(&mut module.values, &mut home.values);
    let mut compiler = Compiler::new(source, tokens, literals, methods, module);
    let r = compiler.whole();
    proof {
        reveal(grammar::grows);
    }
    std::mem::swap(&mut compiler.methods, &mut vm.method_names);
    let home = &mut vm.modules[index];
    std::mem::swap(&mut compiler.module.names, &mut home.names);
    std::mem::swap(&mut compiler.module.values, &mut home.values);
    match r {
        Ok(_) => Ok(compiler.chunk),
        Err(error) => Err(error),
    }
}

/// A list with no elements.
pub fn empty_list(vm: &mut Vm) -> (value: Value)
    requires
        old(vm).wf(),
        old(vm).heap.has_slots(1),
    ensures
        final(vm).wf(),
        lists::made_list(old(vm), final(vm), value, Seq::empty()),
{
    new_list(vm, Vec::new())
}

} // verus!
