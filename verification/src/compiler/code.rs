//! What is emitted.

use vstd::prelude::*;

use crate::bytecode::{Chunk, Op, MAX_JUMP};
use crate::value::Value;

verus! {

/// What has been emitted of a chunk.
#[verifier::ext_equal]
pub struct Code {
    pub units: Seq<u16>,
    pub constants: Seq<Value>,
    pub known: Map<u64, u16>,
    pub lines: Seq<(u32, u16)>,
    pub open: Option<int>,
    pub inline: bool,
}

/// What has been emitted of a chunk.
pub open spec fn emitted(chunk: &Chunk) -> Code {
    Code {
        units: chunk.code@,
        constants: chunk.constants@,
        known: chunk.known(),
        lines: chunk.lines@,
        open: chunk.open_at(),
        inline: chunk.inline_used(),
    }
}

impl Code {
    /// The units, once the instruction being emitted has its length written.
    pub open spec fn sealed(self) -> Seq<u16> {
        match self.open {
            Some(start) => {
                let unit = self.units[start];
                self.units.update(
                    start,
                    crate::bytecode::make_unit(
                        crate::bytecode::unit_opcode(unit),
                        crate::bytecode::length_field(self.units.len() - start),
                        crate::bytecode::unit_operand(unit),
                    ),
                )
            },
            None => self.units,
        }
    }

    /// Whether the next instruction starts with its inline operand used.
    pub open spec fn carried(self) -> bool {
        self.open is None && self.inline
    }

    /// With an instruction begun.
    pub open spec fn op(self, op: Op, line: u16) -> Code {
        Code {
            units: self.sealed().push(op.spec_byte() as u16),
            lines: if self.lines.len() > 0 && self.lines.last().1 == line {
                self.lines
            } else {
                self.lines.push((self.units.len() as u32, line))
            },
            open: Some(self.units.len() as int),
            inline: self.carried(),
            ..self
        }
    }

    /// With a byte operand added.
    pub open spec fn byte(self, byte: u8) -> Code {
        match self.open {
            Some(start) => if crate::bytecode::unit_operand(self.units[start]) == 0
                && !self.inline {
                Code {
                    inline: true,
                    units: self.units.update(
                        start,
                        crate::bytecode::make_unit(
                            crate::bytecode::unit_opcode(self.units[start]),
                            0,
                            byte,
                        ),
                    ),
                    ..self
                }
            } else {
                Code { units: self.units.push(byte as u16), ..self }
            },
            None => Code { units: self.units.push(byte as u16), ..self },
        }
    }

    /// With an operand unit added.
    pub open spec fn short(self, value: u16) -> Code {
        Code { units: self.units.push(value), ..self }
    }

    /// Where a constant is, or is put, if there is room for it.
    pub open spec fn place_of(self, value: Value) -> Option<u16> {
        if self.known.contains_key(value.0) {
            Some(self.known[value.0])
        } else if self.constants.len() > u16::MAX {
            None
        } else {
            Some(self.constants.len() as u16)
        }
    }

    /// With a constant there.
    pub open spec fn constant(self, value: Value) -> Code {
        if self.known.contains_key(value.0) || self.constants.len() > u16::MAX {
            self
        } else {
            Code {
                constants: self.constants.push(value),
                known: self.known.insert(value.0, self.constants.len() as u16),
                ..self
            }
        }
    }

    /// With a jump whose distance is yet to be known.
    pub open spec fn jump(self, op: Op, line: u16) -> Code {
        self.op(op, line).short(u16::MAX)
    }

    /// Whether a jump is short enough to be written.
    pub open spec fn within_jump(self, at: int) -> bool {
        self.units.len() - at - 1 <= MAX_JUMP
    }

    /// With a jump's distance written, if it is short enough.
    pub open spec fn patch(self, at: int) -> Code {
        Code {
            units: if self.within_jump(at) {
                self.sealed().update(at, (self.units.len() - at - 1) as u16)
            } else {
                self.sealed()
            },
            open: None,
            inline: self.carried(),
            ..self
        }
    }

    /// Whether a place is near enough to jump back to.
    pub open spec fn within_loop(self, start: int) -> bool {
        self.units.len() + 2 - start <= MAX_JUMP
    }

    /// With a jump back, if it is short enough.
    pub open spec fn back(self, start: int, line: u16) -> Code {
        if self.within_loop(start) {
            self.op(Op::Loop, line).short((self.units.len() + 2 - start) as u16)
        } else {
            self.op(Op::Loop, line)
        }
    }
}

/// Begin an instruction.
pub fn put_op(chunk: &mut Chunk, op: Op, line: u16)
    requires
        old(chunk).wf(),
    ensures
        final(chunk).wf(),
        emitted(final(chunk)) == emitted(old(chunk)).op(op, line),
        final(chunk).code@.len() == old(chunk).code@.len() + 1,
{
    let ghost before = *chunk;
    chunk.emit_op(op, line);
    proof {
        assert(emitted(chunk) =~= emitted(&before).op(op, line));
    }
}

/// Add a byte operand.
pub fn put_byte(chunk: &mut Chunk, byte: u8, line: u16)
    requires
        old(chunk).wf(),
    ensures
        final(chunk).wf(),
        emitted(final(chunk)) == emitted(old(chunk)).byte(byte),
        final(chunk).code@.len() >= old(chunk).code@.len(),
{
    let ghost before = *chunk;
    chunk.emit_byte(byte, line);
    proof {
        assert(emitted(chunk) =~= emitted(&before).byte(byte));
    }
}

/// Add an operand unit.
pub fn put_short(chunk: &mut Chunk, value: u16, line: u16)
    requires
        old(chunk).wf(),
    ensures
        final(chunk).wf(),
        emitted(final(chunk)) == emitted(old(chunk)).short(value),
        final(chunk).code@.len() == old(chunk).code@.len() + 1,
{
    let ghost before = *chunk;
    chunk.emit_short(value, line);
    proof {
        assert(emitted(chunk) =~= emitted(&before).short(value));
    }
}

/// Have a constant there, and say where.
pub fn put_constant(chunk: &mut Chunk, value: Value) -> (r: Option<u16>)
    requires
        old(chunk).wf(),
    ensures
        final(chunk).wf(),
        emitted(final(chunk)) == emitted(old(chunk)).constant(value),
        r == emitted(old(chunk)).place_of(value),
        final(chunk).code@.len() == old(chunk).code@.len(),
{
    let ghost before = *chunk;
    let r = chunk.add_constant(value);
    proof {
        assert(emitted(chunk) =~= emitted(&before).constant(value));
    }
    r
}

/// Begin a jump whose distance is yet to be known, and say where it goes.
pub fn put_jump(chunk: &mut Chunk, op: Op, line: u16) -> (at: usize)
    requires
        old(chunk).wf(),
    ensures
        final(chunk).wf(),
        emitted(final(chunk)) == emitted(old(chunk)).jump(op, line),
        at == old(chunk).code@.len() + 1,
        final(chunk).code@.len() == old(chunk).code@.len() + 2,
{
    let ghost before = *chunk;
    let at: usize = chunk.emit_jump(op, line);
    proof {
        assert(emitted(chunk) =~= emitted(&before).jump(op, line));
    }
    at
}

/// Write a jump's distance.
pub fn put_distance(chunk: &mut Chunk, at: usize) -> (r: bool)
    requires
        old(chunk).wf(),
        at < old(chunk).code@.len(),
    ensures
        final(chunk).wf(),
        emitted(final(chunk)) == emitted(old(chunk)).patch(at as int),
        r == emitted(old(chunk)).within_jump(at as int),
        final(chunk).code@.len() == old(chunk).code@.len(),
{
    let ghost before = *chunk;
    let r: bool = chunk.patch_jump(at);
    proof {
        assert(emitted(chunk) =~= emitted(&before).patch(at as int));
    }
    r
}

/// Jump back.
pub fn put_loop(chunk: &mut Chunk, start: usize, line: u16) -> (r: bool)
    requires
        old(chunk).wf(),
        old(chunk).code@.len() + 2 <= usize::MAX,
        start <= old(chunk).code@.len(),
    ensures
        final(chunk).wf(),
        emitted(final(chunk)) == emitted(old(chunk)).back(start as int, line),
        r == emitted(old(chunk)).within_loop(start as int),
        final(chunk).code@.len() >= old(chunk).code@.len(),
{
    let ghost before = *chunk;
    let r: bool = chunk.emit_loop(start, line);
    proof {
        assert(emitted(chunk) =~= emitted(&before).back(start as int, line));
    }
    r
}

} // verus!
