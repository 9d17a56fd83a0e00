//! Running code, one instruction at a time.
//!
//! What an instruction does to the machine is done here. What it needs from
//! outside is asked for: arithmetic, a primitive, a module. Whoever asked is
//! answered through one of the functions here, and goes on.

pub mod call_laws;
pub mod calling;
pub mod drive;
pub mod number_laws;
pub mod object_laws;
pub mod objects;
pub mod returning;
pub mod stack;

use std::rc::Rc;

use vstd::prelude::*;

use super::{RuntimeError, Vm};
use crate::bytecode::Chunk;
use crate::corelib::primitive::Primitive;
use crate::value::Value;

verus! {

/// Where the machine is in its code.
pub struct Run {
    /// The code that runs.
    pub chunk: Rc<Chunk>,
    /// The next instruction.
    pub ip: usize,
    /// Where the running call's receiver is on the stack.
    pub base: usize,
    /// The module whose variables the code refers to.
    pub module: usize,
    /// How many calls there are below the one this run is for.
    pub floor: usize,
}

/// What came of an instruction.
pub enum Outcome {
    /// It is done, and the next may follow.
    Next,
    /// It is done, and running goes on in another place.
    Jumped,
    /// The call this run is for is done.
    Finished(Value),
    /// The program failed.
    Failed(RuntimeError),
    /// Two numbers are to be combined.
    Arithmetic { operation: u8, left: u64, right: u64 },
    /// A primitive is to be run, its receiver being at a place on the stack.
    Primitive { primitive: Primitive, at: usize, line: u16 },
    /// A module is to be imported.
    Import { name: String },
    /// A class is to be made whose name is no string, and is shown like this.
    ShowClass { name: Value },
    /// A module is to be imported whose name is how a value is shown.
    ShowModule { value: Value },
    /// A variable is to be imported, its module's name and its own being how
    /// two values are shown.
    ShowVariable { module: Value, variable: Value },
    /// A fiber is to fail with a value as the message.
    Raise { value: Value, line: u16 },
    /// There is no room for what the instruction may make.
    Exhausted,
    /// There is no such instruction, or it refers to what is not there. Code
    /// that was compiled has none of this.
    Malformed,
}

impl Run {
    /// The unit at a place in the code.
    pub open spec fn unit(&self, at: int) -> u16 {
        self.chunk.code@[at]
    }

    /// Whether a place is in the code.
    pub open spec fn within(&self, at: int) -> bool {
        0 <= at < self.chunk.code@.len()
    }

    /// The operand that is inside the instruction.
    pub open spec fn operand(&self) -> int {
        crate::bytecode::unit_operand(self.unit(self.ip as int)) as int
    }

    /// The constant that a unit names, if it names one.
    pub open spec fn spec_constant(&self, at: int) -> Option<Value> {
        if self.within(at) && self.unit(at) < self.chunk.constants@.len() {
            Some(self.chunk.constants@[self.unit(at) as int])
        } else {
            None
        }
    }

    /// The same at another instruction.
    pub open spec fn moved(self, ip: int) -> Run {
        Run { ip: ip as usize, ..self }
    }

    /// Whether a line is that of the instruction.
    pub open spec fn on_line(&self, line: u16) -> bool {
        crate::bytecode::lines_sorted(self.chunk.lines@) ==> line == crate::bytecode::line_of(
            self.chunk.lines@,
            self.ip as u32,
        )
    }

    /// The constant that a unit names, if it names one.
    pub fn constant(&self, at: usize) -> (r: Option<Value>)
        ensures
            r == self.spec_constant(at as int),
    {
        if at < self.chunk.code.len() {
            let index: usize = self.chunk.code[at] as usize;
            if index < self.chunk.constants.len() {
                return Some(self.chunk.constants[index]);
            }
        }
        None
    }
}

/// A local variable, if it is on the stack.
pub open spec fn local(stack: Seq<Value>, base: int, slot: int) -> Option<Value> {
    if 0 <= base && 0 <= slot && base + slot < stack.len() {
        Some(stack[base + slot])
    } else {
        None
    }
}

impl Vm {
    /// Whether a machine differs from an earlier one in its stack alone.
    pub open spec fn only_stack(&self, before: &Vm, stack: Seq<Value>) -> bool {
        &&& *self == (Vm { stack: self.stack, ..*before })
        &&& self.stack@ == stack
    }

    /// A local variable, if it is on the stack.
    fn local_at(&self, run: &Run, slot: usize) -> (r: Option<Value>)
        ensures
            r == local(self.stack@, run.base as int, slot as int),
    {
        let len: usize = self.stack.len();
        if run.base < len && slot < len - run.base {
            Some(self.stack[run.base + slot])
        } else {
            None
        }
    }
}

} // verus!
