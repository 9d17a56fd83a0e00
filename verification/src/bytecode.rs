//! The instruction set, and the compiled form of a chunk of code.
//!
//! Code is a sequence of sixteen-bit units. The first unit of an instruction
//! holds the opcode in its low six bits, its length in the next two and an
//! inline operand in its high byte; further operands are whole units.

pub mod code;
pub mod fusion;
pub mod listing;

use std::collections::BTreeMap;

use vstd::prelude::*;

use crate::memory::{reserved, sized};
use crate::value::Value;

verus! {

/// One instruction.
#[derive(Clone, Copy, PartialEq, Eq, Structural, Debug)]
pub enum Op {
    /// Close every upvalue at or above the top of the stack, then pop.
    CloseUpvalue,
    /// Replace the class in slot zero with a new instance of it.
    Construct,
    /// End of the compiled chunk.
    End,
    /// Push `false`.
    False,
    /// Push `null`.
    Null,
    /// Discard the top of the stack.
    Pop,
    /// Return the top of the stack from the current call.
    Return,
    /// Attach attributes to a class. Pops the attributes, then the class.
    SetAttributes,
    /// Push `true`.
    True,
    /// Make a class from a name and a superclass. Operand: its field count.
    Class,
    /// Pop an instance and push one of its fields. Operand: the field.
    LoadField,
    /// Push a field of `this`. Operand: the field.
    LoadFieldThis,
    /// Push a local. Operand: its slot.
    LoadLocal,
    /// Push a static field of the method's class. Operand: the field.
    LoadStaticField,
    /// Push one of the closure's upvalues. Operand: which.
    LoadUpvalue,
    /// Pop a value and an instance and store into a field of it.
    StoreField,
    /// Store the top of the stack into a field of `this`, leaving it.
    StoreFieldThis,
    /// Store the top of the stack into a local, leaving it.
    StoreLocal,
    /// Store the top of the stack into a static field, leaving it.
    StoreStaticField,
    /// Store the top of the stack into an upvalue, leaving it.
    StoreUpvalue,
    /// If the top is falsy jump forward and leave it; otherwise pop it.
    And,
    /// Push a constant. Operand unit: its index.
    Constant,
    /// Load and run the module a constant names, leaving its result.
    ImportModule,
    /// Jump forward. Operand unit: the distance.
    Jump,
    /// Pop, and jump forward if it was falsy. Operand unit: the distance.
    JumpIf,
    /// `LoadFieldThis` then `Return`.
    LoadFieldThisReturn,
    /// `LoadLocal` then `Return`.
    LoadLocalReturn,
    /// Push a module variable. Operand unit: its index.
    LoadModuleVar,
    /// Jump backward. Operand unit: the distance.
    Loop,
    /// Bind a closure to a class as an instance method.
    MethodInstance,
    /// Bind a closure to a class's metaclass.
    MethodStatic,
    /// The mirror of `And`.
    Or,
    /// `StoreFieldThis` then `Pop`.
    StoreFieldThisPop,
    /// Store the top of the stack into a module variable, leaving it.
    StoreModuleVar,
    /// Invoke a method. Inline operand: arity; operand unit: symbol.
    Call,
    /// `LoadLocal` twice.
    LoadLocalPair,
    /// Invoke a method looked up from the superclass.
    Super,
    /// Push a variable out of an imported module.
    ImportVariable,
    /// `LoadLocal` then `Constant`.
    LoadLocalConstant,
    /// Make a closure. Inline operand: how many upvalues follow.
    Closure,
}

impl Op {
    /// The byte an opcode is written as.
    pub open spec fn spec_byte(self) -> u8 {
        match self {
            Op::CloseUpvalue => 0,
            Op::Construct => 1,
            Op::End => 2,
            Op::False => 3,
            Op::Null => 4,
            Op::Pop => 5,
            Op::Return => 6,
            Op::SetAttributes => 7,
            Op::True => 8,
            Op::Class => 9,
            Op::LoadField => 10,
            Op::LoadFieldThis => 11,
            Op::LoadLocal => 12,
            Op::LoadStaticField => 13,
            Op::LoadUpvalue => 14,
            Op::StoreField => 15,
            Op::StoreFieldThis => 16,
            Op::StoreLocal => 17,
            Op::StoreStaticField => 18,
            Op::StoreUpvalue => 19,
            Op::And => 20,
            Op::Constant => 21,
            Op::ImportModule => 22,
            Op::Jump => 23,
            Op::JumpIf => 24,
            Op::LoadFieldThisReturn => 25,
            Op::LoadLocalReturn => 26,
            Op::LoadModuleVar => 27,
            Op::Loop => 28,
            Op::MethodInstance => 29,
            Op::MethodStatic => 30,
            Op::Or => 31,
            Op::StoreFieldThisPop => 32,
            Op::StoreModuleVar => 33,
            Op::Call => 34,
            Op::LoadLocalPair => 35,
            Op::Super => 36,
            Op::ImportVariable => 37,
            Op::LoadLocalConstant => 38,
            Op::Closure => 39,
        }
    }

    /// The byte this opcode is written as.
    pub fn byte(self) -> (byte: u8)
        ensures
            byte == self.spec_byte(),
    {
        match self {
            Op::CloseUpvalue => code::CLOSE_UPVALUE,
            Op::Construct => code::CONSTRUCT,
            Op::End => code::END,
            Op::False => code::FALSE,
            Op::Null => code::NULL,
            Op::Pop => code::POP,
            Op::Return => code::RETURN,
            Op::SetAttributes => code::SET_ATTRIBUTES,
            Op::True => code::TRUE,
            Op::Class => code::CLASS,
            Op::LoadField => code::LOAD_FIELD,
            Op::LoadFieldThis => code::LOAD_FIELD_THIS,
            Op::LoadLocal => code::LOAD_LOCAL,
            Op::LoadStaticField => code::LOAD_STATIC_FIELD,
            Op::LoadUpvalue => code::LOAD_UPVALUE,
            Op::StoreField => code::STORE_FIELD,
            Op::StoreFieldThis => code::STORE_FIELD_THIS,
            Op::StoreLocal => code::STORE_LOCAL,
            Op::StoreStaticField => code::STORE_STATIC_FIELD,
            Op::StoreUpvalue => code::STORE_UPVALUE,
            Op::And => code::AND,
            Op::Constant => code::CONSTANT,
            Op::ImportModule => code::IMPORT_MODULE,
            Op::Jump => code::JUMP,
            Op::JumpIf => code::JUMP_IF,
            Op::LoadFieldThisReturn => code::LOAD_FIELD_THIS_RETURN,
            Op::LoadLocalReturn => code::LOAD_LOCAL_RETURN,
            Op::LoadModuleVar => code::LOAD_MODULE_VAR,
            Op::Loop => code::LOOP,
            Op::MethodInstance => code::METHOD_INSTANCE,
            Op::MethodStatic => code::METHOD_STATIC,
            Op::Or => code::OR,
            Op::StoreFieldThisPop => code::STORE_FIELD_THIS_POP,
            Op::StoreModuleVar => code::STORE_MODULE_VAR,
            Op::Call => code::CALL,
            Op::LoadLocalPair => code::LOAD_LOCAL_PAIR,
            Op::Super => code::SUPER,
            Op::ImportVariable => code::IMPORT_VARIABLE,
            Op::LoadLocalConstant => code::LOAD_LOCAL_CONSTANT,
            Op::Closure => code::CLOSURE,
        }
    }

    /// The opcode a byte is, if it is one.
    pub open spec fn spec_from_byte(byte: u8) -> Option<Op> {
        if exists|op: Op| op.spec_byte() == byte {
            Some(choose|op: Op| op.spec_byte() == byte)
        } else {
            None
        }
    }

    /// Decode a byte, or `None` if it is not an opcode.
    pub fn from_byte(byte: u8) -> (r: Option<Op>)
        ensures
            r == Op::spec_from_byte(byte),
            match r {
                Some(op) => op.spec_byte() == byte,
                None => byte > code::HIGHEST,
            },
    {
        let op = match byte {
            0 => Op::CloseUpvalue,
            1 => Op::Construct,
            2 => Op::End,
            3 => Op::False,
            4 => Op::Null,
            5 => Op::Pop,
            6 => Op::Return,
            7 => Op::SetAttributes,
            8 => Op::True,
            9 => Op::Class,
            10 => Op::LoadField,
            11 => Op::LoadFieldThis,
            12 => Op::LoadLocal,
            13 => Op::LoadStaticField,
            14 => Op::LoadUpvalue,
            15 => Op::StoreField,
            16 => Op::StoreFieldThis,
            17 => Op::StoreLocal,
            18 => Op::StoreStaticField,
            19 => Op::StoreUpvalue,
            20 => Op::And,
            21 => Op::Constant,
            22 => Op::ImportModule,
            23 => Op::Jump,
            24 => Op::JumpIf,
            25 => Op::LoadFieldThisReturn,
            26 => Op::LoadLocalReturn,
            27 => Op::LoadModuleVar,
            28 => Op::Loop,
            29 => Op::MethodInstance,
            30 => Op::MethodStatic,
            31 => Op::Or,
            32 => Op::StoreFieldThisPop,
            33 => Op::StoreModuleVar,
            34 => Op::Call,
            35 => Op::LoadLocalPair,
            36 => Op::Super,
            37 => Op::ImportVariable,
            38 => Op::LoadLocalConstant,
            39 => Op::Closure,
            _ => {
                return None;
            },
        };
        proof {
            law_opcode_round_trip(op);
        }
        Some(op)
    }
}

/// No two opcodes share a byte, and decoding a byte gives the opcode that is
/// written as it.
pub broadcast proof fn law_opcode_round_trip(op: Op)
    ensures
        #[trigger] Op::spec_from_byte(op.spec_byte()) == Some(op),
        op.spec_byte() <= code::HIGHEST,
{
    let found = choose|other: Op| other.spec_byte() == op.spec_byte();
    assert(op.spec_byte() == op.spec_byte());
    assert(found.spec_byte() == op.spec_byte());
}

/// The furthest a jump may reach, in units.
pub const MAX_JUMP: usize = 32767;

/// The bits of an instruction's first unit that hold the opcode.
pub const OPCODE_MASK: u16 = 0x3f;

/// Where the length field starts.
pub const LENGTH_SHIFT: u16 = 6;

/// Where the inline operand starts.
pub const OPERAND_SHIFT: u16 = 8;

/// The length field's escape value: the instruction is two units plus one per
/// unit its inline operand counts.
pub const VARIABLE_LENGTH: u16 = 3;

/// The opcode byte of an instruction's first unit.
pub open spec fn unit_opcode(unit: u16) -> u8 {
    (unit % 64) as u8
}

/// The length field of an instruction's first unit.
pub open spec fn unit_length(unit: u16) -> int {
    (unit / 64) as int % 4
}

/// The inline operand of an instruction's first unit.
pub open spec fn unit_operand(unit: u16) -> u8 {
    (unit / 256) as u8
}

/// A first unit put together from its three parts.
pub open spec fn make_unit(opcode: u8, length: int, operand: u8) -> u16 {
    (operand * 256 + length * 64 + opcode) as u16
}

/// What the length field holds for an instruction of so many units.
pub open spec fn length_field(units: int) -> int {
    if units <= 1 {
        0
    } else if units == 2 {
        1
    } else if units == 3 {
        2
    } else {
        3
    }
}

/// How many units a first unit says its instruction occupies.
pub open spec fn unit_span(unit: u16) -> int {
    if unit_length(unit) == 3 {
        2 + unit_operand(unit)
    } else {
        unit_length(unit) + 1
    }
}

/// How many units the instruction at `at` occupies, if it is all there.
pub open spec fn span_at(code: Seq<u16>, at: int) -> Option<int> {
    if 0 <= at < code.len() && at + unit_span(code[at]) <= code.len() {
        Some(unit_span(code[at]))
    } else {
        None
    }
}

/// The bit operations on a first unit, as arithmetic on its parts.
proof fn lemma_unit_bits(unit: u16, bits: u16, byte: u16, opcode: u16)
    by (bit_vector)
    requires
        bits < 4,
        byte < 256,
        opcode < 64,
    ensures
        unit & 0x3f == unit % 64,
        (unit >> 6) & 3 == (unit / 64) % 4,
        unit >> 8 == unit / 256,
        (unit / 64) % 4 == 0 ==> unit | (bits << 6) == (unit / 256) * 256 + bits * 64 + unit % 64,
        unit / 256 == 0 ==> unit | (byte << 8) == byte * 256 + unit % 256,
        (unit & !(0xffu16 << 8)) | (byte << 8) == byte * 256 + unit % 256,
        (unit & !(0x3fu16 | (3u16 << 6))) | opcode | (bits << 6) == (unit / 256) * 256 + bits * 64
            + opcode,
        bits << 6 == bits * 64,
        byte << 8 == byte * 256,
        bits * 64 + opcode < 256,
{
}

/// Where the instruction at `at` jumps to, if it is a jump with its distance. A
/// jump is measured from the end of its instruction.
pub open spec fn jump_target(code: Seq<u16>, at: int) -> Option<int> {
    let after = at + unit_span(code[at]);
    if at + 1 >= code.len() {
        None
    } else {
        match Op::spec_from_byte(unit_opcode(code[at])) {
            Some(Op::Jump) | Some(Op::JumpIf) | Some(Op::And) | Some(Op::Or) => Some(
                after + code[at + 1],
            ),
            Some(Op::Loop) => if code[at + 1] <= after {
                Some(after - code[at + 1])
            } else {
                None
            },
            _ => None,
        }
    }
}

/// Whether some jump in the code from `at` on lands on `target`.
pub open spec fn lands_from(code: Seq<u16>, at: int, target: int) -> bool
    decreases code.len() - at,
{
    match span_at(code, at) {
        Some(units) => jump_target(code, at) == Some(target) || lands_from(
            code,
            at + units,
            target,
        ),
        None => false,
    }
}

/// Whether every jump in the code from `at` on has its distance.
pub open spec fn jumps_whole(code: Seq<u16>, at: int) -> bool
    decreases code.len() - at,
{
    match span_at(code, at) {
        Some(units) => {
            &&& match Op::spec_from_byte(unit_opcode(code[at])) {
                Some(Op::Jump) | Some(Op::JumpIf) | Some(Op::And) | Some(Op::Or) | Some(
                    Op::Loop,
                ) => at + 1 < code.len(),
                _ => true,
            }
            &&& jumps_whole(code, at + units)
        },
        None => true,
    }
}

/// The instruction that does what two adjacent ones do, where there is one.
pub open spec fn fused_pair(first: u16, second: u16) -> Option<Op> {
    match (Op::spec_from_byte(unit_opcode(first)), Op::spec_from_byte(unit_opcode(second))) {
        (Some(Op::LoadLocal), Some(Op::Constant)) => Some(Op::LoadLocalConstant),
        (Some(Op::LoadLocal), Some(Op::LoadLocal)) => Some(Op::LoadLocalPair),
        (Some(Op::LoadLocal), Some(Op::Return)) => Some(Op::LoadLocalReturn),
        (Some(Op::StoreFieldThis), Some(Op::Pop)) => Some(Op::StoreFieldThisPop),
        (Some(Op::LoadFieldThis), Some(Op::Return)) => Some(Op::LoadFieldThisReturn),
        _ => None,
    }
}

/// The code with every pair from `at` on fused whose second half no jump lands
/// on. A fused instruction spans both of the ones it replaces; nothing moves.
pub open spec fn fuse_from(code: Seq<u16>, targets: Set<int>, at: int) -> Seq<u16>
    decreases code.len() - at,
{
    match span_at(code, at) {
        None => code,
        Some(units) => {
            let second = at + units;
            if second < code.len() && fused_pair(code[at], code[second]) is Some
                && !targets.contains(second) {
                let rest = match span_at(code, second) {
                    Some(n) => n,
                    None => 1,
                };
                let op = fused_pair(code[at], code[second])->0;
                fuse_from(
                    code.update(
                        at,
                        make_unit(
                            op.spec_byte(),
                            length_field(units + rest),
                            unit_operand(code[at]),
                        ),
                    ),
                    targets,
                    second + rest,
                )
            } else {
                fuse_from(code, targets, second)
            }
        },
    }
}

/// Every offset some jump lands on.
pub open spec fn landings(code: Seq<u16>) -> Set<int> {
    Set::new(|target: int| lands_from(code, 0, target))
}

/// Whether an index of constants by bit pattern is true of the constants.
pub open spec fn index_true(known: Map<u64, u16>, constants: Seq<Value>) -> bool {
    forall|bits: u64| #[trigger]
        known.contains_key(bits) ==> known[bits] < constants.len() && constants[known[bits] as int]
            == Value(bits)
}

/// Whether no two constants have the same bits.
pub open spec fn distinct(constants: Seq<Value>) -> bool {
    forall|i: int, j: int|
        0 <= i < j < constants.len() ==> (#[trigger] constants[i]).0 != (#[trigger] constants[j]).0
}

/// A compiled chunk of code: the instructions, and the constants they refer to.
#[derive(Debug)]
pub struct Chunk {
    /// The instructions, one unit at a time.
    pub code: Vec<u16>,
    /// What `Constant` and its kind refer to.
    pub constants: Vec<Value>,
    /// Bit pattern of each constant to its index.
    pub lookup: BTreeMap<u64, u16>,
    /// Where each source line's code starts, in order.
    pub lines: Vec<(u32, u16)>,
    /// Where the instruction now being emitted starts.
    pub building: Option<usize>,
    /// Whether that instruction has used its inline operand.
    pub inline_taken: bool,
}

impl Chunk {
    /// Where the instruction now being emitted starts, if one is.
    pub open spec fn open_at(&self) -> Option<int> {
        match self.building {
            Some(start) => Some(start as int),
            None => None,
        }
    }

    /// Whether the instruction being emitted has used its inline operand.
    pub open spec fn inline_used(&self) -> bool {
        self.inline_taken
    }

    /// The constants that a new one is compared with, by bit pattern.
    pub open spec fn known(&self) -> Map<u64, u16> {
        self.lookup@
    }

    /// The instruction being emitted lies within the code with its length
    /// still unwritten, and the constant index is true of the constants.
    pub open spec fn wf(&self) -> bool {
        &&& match self.open_at() {
            Some(start) => 0 <= start < self.code@.len() && unit_length(self.code@[start]) == 0,
            None => true,
        }
        &&& index_true(self.known(), self.constants@)
    }

    /// Whether every constant that an index can name can be found again, at the
    /// first place that it is at.
    pub open spec fn searchable(&self) -> bool {
        forall|i: int|
            0 <= i < self.constants@.len() && i <= u16::MAX ==> {
                &&& self.known().contains_key((#[trigger] self.constants@[i]).0)
                &&& self.known()[self.constants@[i].0] <= i
            }
    }

    /// Whether every constant can be found again, as it can until the chunk is
    /// finished, and no constant is there twice.
    pub open spec fn indexed(&self) -> bool {
        &&& forall|i: int|
            0 <= i < self.constants@.len() ==> self.known().contains_key(
                (#[trigger] self.constants@[i]).0,
            )
        &&& distinct(self.constants@)
    }

    /// The code once the instruction being emitted has its length written.
    pub open spec fn sealed(&self) -> Seq<u16> {
        match self.open_at() {
            Some(start) => {
                let unit = self.code@[start];
                self.code@.update(
                    start,
                    make_unit(
                        unit_opcode(unit),
                        length_field(self.code@.len() - start),
                        unit_operand(unit),
                    ),
                )
            },
            None => self.code@,
        }
    }

    /// Whether two chunks agree on their constants.
    pub open spec fn same_constants(&self, other: &Chunk) -> bool {
        self.constants@ == other.constants@ && self.known() == other.known()
    }

    /// A chunk with nothing in it.
    pub fn new() -> (chunk: Chunk)
        ensures
            chunk.wf(),
            chunk.indexed(),
            chunk.code@.len() == 0,
            chunk.constants@.len() == 0,
            chunk.lines@.len() == 0,
            chunk.open_at() is None,
            !chunk.inline_used(),
    {
        Chunk {
            code: Vec::new(),
            constants: Vec::new(),
            lookup: BTreeMap::new(),
            lines: Vec::new(),
            building: None,
            inline_taken: false,
        }
    }

    /// Finish the instruction being emitted by writing its length into it.
    fn close(&mut self)
        requires
            old(self).wf(),
        ensures
            final(self).wf(),
            final(self).code@ == old(self).sealed(),
            final(self).same_constants(old(self)),
            final(self).lines@ == old(self).lines@,
            final(self).open_at() is None,
            old(self).open_at() is Some ==> !final(self).inline_used(),
            old(self).open_at() is None ==> final(self).inline_used() == old(self).inline_used(),
    {
        let start: usize = match self.building {
            Some(start) => start,
            None => {
                return ;
            },
        };
        self.building = None;
        self.inline_taken = false;
        let units: usize = self.code.len() - start;
        let bits: u16 = if units <= 1 {
            0
        } else if units == 2 {
            1
        } else if units == 3 {
            2
        } else {
            VARIABLE_LENGTH
        };
        let unit: u16 = self.code[start];
        proof {
            lemma_unit_bits(unit, bits, 0, 0);
        }
        self.code.set(start, unit | (bits << 6));
    }

    /// Begin an instruction. Its length is written when the next one begins.
    pub fn emit_op(&mut self, op: Op, line: u16)
        requires
            old(self).wf(),
        ensures
            final(self).wf(),
            final(self).code@ == old(self).sealed().push(op.spec_byte() as u16),
            final(self).same_constants(old(self)),
            final(self).lines@ == if old(self).lines@.len() > 0 && old(self).lines@.last().1 == line {
                old(self).lines@
            } else {
                old(self).lines@.push((old(self).code@.len() as u32, line))
            },
            final(self).open_at() == Some(old(self).code@.len() as int),
            old(self).open_at() is Some ==> !final(self).inline_used(),
            old(self).open_at() is None ==> final(self).inline_used() == old(self).inline_used(),
    {
        self.close();
        let known: bool = match self.lines.last() {
            Some(entry) => entry.1 == line,
            None => false,
        };
        if !known {
            let at: u32 = self.code.len() as u32;
            self.lines.push((at, line));
        }
        self.building = Some(self.code.len());
        proof {
            law_opcode_round_trip(op);
        }
        self.code.push(op.byte() as u16);
    }

    /// Add a byte operand: into the opcode's own unit if that slot is still
    /// free, otherwise into a unit of its own.
    pub fn emit_byte(&mut self, byte: u8, line: u16)
        requires
            old(self).wf(),
        ensures
            final(self).wf(),
            final(self).same_constants(old(self)),
            final(self).lines@ == old(self).lines@,
            final(self).open_at() == old(self).open_at(),
            match old(self).open_at() {
                Some(start) => if unit_operand(old(self).code@[start]) == 0
                    && !old(self).inline_used() {
                    &&& final(self).inline_used()
                    &&& final(self).code@ == old(self).code@.update(
                        start,
                        make_unit(unit_opcode(old(self).code@[start]), 0, byte),
                    )
                } else {
                    &&& final(self).inline_used() == old(self).inline_used()
                    &&& final(self).code@ == old(self).code@.push(byte as u16)
                },
                None => {
                    &&& final(self).inline_used() == old(self).inline_used()
                    &&& final(self).code@ == old(self).code@.push(byte as u16)
                },
            },
    {
        match self.building {
            Some(start) => {
                let unit: u16 = self.code[start];
                proof {
                    lemma_unit_bits(unit, 0, byte as u16, 0);
                }
                if unit >> 8 == 0 && !self.inline_taken {
                    self.code.set(start, unit | ((byte as u16) << 8));
                    self.inline_taken = true;
                    return ;
                }
            },
            None => {},
        }
        self.code.push(byte as u16);
    }

    /// Add two byte operands sharing one unit.
    pub fn emit_byte_pair(&mut self, low: u8, high: u8, line: u16)
        requires
            old(self).wf(),
        ensures
            final(self).wf(),
            final(self).code@ == old(self).code@.push((high * 256 + low) as u16),
            final(self).same_constants(old(self)),
            final(self).lines@ == old(self).lines@,
            final(self).open_at() == old(self).open_at(),
            final(self).inline_used() == old(self).inline_used(),
    {
        proof {
            lemma_unit_bits(low as u16, 0, high as u16, 0);
        }
        self.code.push((low as u16) | ((high as u16) << 8));
    }

    /// Add an operand unit.
    pub fn emit_short(&mut self, value: u16, line: u16)
        requires
            old(self).wf(),
        ensures
            final(self).wf(),
            final(self).code@ == old(self).code@.push(value),
            final(self).same_constants(old(self)),
            final(self).lines@ == old(self).lines@,
            final(self).open_at() == old(self).open_at(),
            final(self).inline_used() == old(self).inline_used(),
    {
        self.code.push(value);
    }

    /// Add a constant and return its index, reusing an identical one.
    ///
    /// `None` when the table is full: an index is a unit, so it holds no more
    /// than 65,536 constants.
    pub fn add_constant(&mut self, value: Value) -> (r: Option<u16>)
        requires
            old(self).wf(),
        ensures
            final(self).wf(),
            old(self).indexed() ==> final(self).indexed(),
            old(self).searchable() ==> final(self).searchable(),
            final(self).code@ == old(self).code@,
            final(self).lines@ == old(self).lines@,
            final(self).open_at() == old(self).open_at(),
            final(self).inline_used() == old(self).inline_used(),
            match r {
                Some(index) => final(self).constants@[index as int] == value && index
                    < final(self).constants@.len(),
                None => old(self).constants@.len() > u16::MAX && !old(self).known().contains_key(
                    value.0,
                ),
            },
            final(self).constants@ == if old(self).known().contains_key(value.0) || old(self).constants@.len() > u16::MAX {
                old(self).constants@
            } else {
                old(self).constants@.push(value)
            },
            old(self).known().contains_key(value.0) ==> r == Some(old(self).known()[value.0]),
            !old(self).known().contains_key(value.0) && old(self).constants@.len() > u16::MAX
                ==> r is None,
            !old(self).known().contains_key(value.0) && old(self).constants@.len() <= u16::MAX
                ==> r == Some(old(self).constants@.len() as u16),
            final(self).known() == if old(self).known().contains_key(value.0) || old(self).constants@.len() > u16::MAX {
                old(self).known()
            } else {
                old(self).known().insert(value.0, old(self).constants@.len() as u16)
            },
    {
        broadcast use vstd::std_specs::btree::group_btree_axioms;

        let ghost before = *self;
        let bits: u64 = value.to_bits();
        match self.lookup.get(&bits) {
            Some(index) => {
                return Some(*index);
            },
            None => {},
        }
        if self.constants.len() > 65535 {
            return None;
        }
        let index: u16 = self.constants.len() as u16;
        self.constants.push(value);
        self.lookup.insert(bits, index);
        proof {
            assert forall|b: u64| #[trigger] self.known().contains_key(b) implies self.known()[b]
                < self.constants@.len() && self.constants@[self.known()[b] as int] == Value(b) by {
                if b != bits {
                    assert(before.known().contains_key(b));
                }
            }
            if before.searchable() {
                assert forall|i: int|
                    0 <= i < self.constants@.len() && i <= u16::MAX implies {
                    &&& self.known().contains_key((#[trigger] self.constants@[i]).0)
                    &&& self.known()[self.constants@[i].0] <= i
                } by {
                    if i < before.constants@.len() {
                        assert(before.constants@[i] == self.constants@[i]);
                    }
                }
            }
            if before.indexed() {
                assert forall|i: int|
                    0 <= i < self.constants@.len() implies self.known().contains_key(
                    (#[trigger] self.constants@[i]).0,
                ) by {
                    if i < before.constants@.len() {
                        assert(before.constants@[i] == self.constants@[i]);
                        assert(before.known().contains_key(before.constants@[i].0));
                    }
                }
                assert forall|i: int, j: int| 0 <= i < j < self.constants@.len() implies (
                #[trigger] self.constants@[i]).0 != (#[trigger] self.constants@[j]).0 by {
                    assert(before.constants@[i] == self.constants@[i]);
                    assert(before.known().contains_key(before.constants@[i].0));
                    if j < before.constants@.len() {
                        assert(before.constants@[j] == self.constants@[j]);
                    }
                }
            }
        }
        Some(index)
    }

    /// Emit a jump with a placeholder distance, returning where to patch it.
    pub fn emit_jump(&mut self, op: Op, line: u16) -> (at: usize)
        requires
            old(self).wf(),
        ensures
            final(self).wf(),
            final(self).code@ == old(self).sealed().push(op.spec_byte() as u16).push(u16::MAX),
            at == old(self).code@.len() + 1,
            final(self).same_constants(old(self)),
            final(self).lines@ == if old(self).lines@.len() > 0 && old(self).lines@.last().1 == line {
                old(self).lines@
            } else {
                old(self).lines@.push((old(self).code@.len() as u32, line))
            },
            final(self).open_at() == Some(old(self).code@.len() as int),
            old(self).open_at() is Some ==> !final(self).inline_used(),
            old(self).open_at() is None ==> final(self).inline_used() == old(self).inline_used(),
    {
        self.emit_op(op, line);
        self.emit_short(65535, line);
        self.code.len() - 1
    }

    /// Fill in a jump emitted earlier, now that its destination is known: the
    /// end of the code so far.
    ///
    /// `false` if the body was too long to jump over.
    #[must_use]
    pub fn patch_jump(&mut self, at: usize) -> (r: bool)
        requires
            old(self).wf(),
            at < old(self).code@.len(),
        ensures
            final(self).wf(),
            r == (old(self).code@.len() - at - 1 <= MAX_JUMP),
            final(self).code@ == if r {
                old(self).sealed().update(at as int, (old(self).code@.len() - at - 1) as u16)
            } else {
                old(self).sealed()
            },
            final(self).same_constants(old(self)),
            final(self).lines@ == old(self).lines@,
            final(self).open_at() is None,
            old(self).open_at() is Some ==> !final(self).inline_used(),
            old(self).open_at() is None ==> final(self).inline_used() == old(self).inline_used(),
    {
        self.close();
        let distance: usize = self.code.len() - at - 1;
        if distance > MAX_JUMP {
            return false;
        }
        self.code.set(at, distance as u16);
        true
    }

    /// Emit a backward jump to `start`.
    ///
    /// `false` if it is too far, in which case the instruction has no operand.
    #[must_use]
    pub fn emit_loop(&mut self, start: usize, line: u16) -> (r: bool)
        requires
            old(self).wf(),
            old(self).code@.len() + 2 <= usize::MAX,
            start <= old(self).code@.len() + 2,
        ensures
            final(self).wf(),
            r == (old(self).code@.len() + 2 - start <= MAX_JUMP),
            final(self).code@ == if r {
                old(self).sealed().push(Op::Loop.spec_byte() as u16).push(
                    (old(self).code@.len() + 2 - start) as u16,
                )
            } else {
                old(self).sealed().push(Op::Loop.spec_byte() as u16)
            },
            final(self).same_constants(old(self)),
            final(self).lines@ == if old(self).lines@.len() > 0 && old(self).lines@.last().1 == line {
                old(self).lines@
            } else {
                old(self).lines@.push((old(self).code@.len() as u32, line))
            },
            final(self).open_at() == Some(old(self).code@.len() as int),
            old(self).open_at() is Some ==> !final(self).inline_used(),
            old(self).open_at() is None ==> final(self).inline_used() == old(self).inline_used(),
    {
        self.emit_op(Op::Loop, line);
        let distance: usize = self.code.len() + 1 - start;
        if distance > MAX_JUMP {
            return false;
        }
        self.emit_short(distance as u16, line);
        true
    }

    /// The operand unit at `at`.
    pub fn read_short(&self, at: usize) -> (unit: u16)
        requires
            at < self.code@.len(),
        ensures
            unit == self.code@[at as int],
    {
        self.code[at]
    }

    /// Replace the byte operand carried inside the instruction at `at`.
    pub fn patch_inline_operand(&mut self, at: usize, value: u8)
        requires
            old(self).wf(),
            at < old(self).code@.len(),
        ensures
            final(self).wf(),
            final(self).code@ == old(self).code@.update(
                at as int,
                make_unit(
                    unit_opcode(old(self).code@[at as int]),
                    unit_length(old(self).code@[at as int]),
                    value,
                ),
            ),
            final(self).same_constants(old(self)),
            final(self).lines@ == old(self).lines@,
            final(self).open_at() == old(self).open_at(),
            final(self).inline_used() == old(self).inline_used(),
    {
        let unit: u16 = self.code[at];
        proof {
            lemma_unit_bits(unit, 0, value as u16, 0);
        }
        let keep: u16 = unit & !(0xffu16 << 8);
        self.code.set(at, keep | ((value as u16) << 8));
    }

    /// The byte operand carried inside an instruction's first unit.
    pub fn inline_operand(unit: u16) -> (byte: u8)
        ensures
            byte == unit_operand(unit),
    {
        proof {
            lemma_unit_bits(unit, 0, 0, 0);
        }
        (unit >> 8) as u8
    }

    /// The opcode byte an instruction's first unit names.
    pub fn opcode_of(unit: u16) -> (byte: u8)
        ensures
            byte == unit_opcode(unit),
            byte < 64,
    {
        proof {
            lemma_unit_bits(unit, 0, 0, 0);
        }
        (unit & OPCODE_MASK) as u8
    }

    /// How many units the instruction at `at` occupies, its first included.
    ///
    /// `None` when `at` is past the end or the instruction runs off it.
    pub fn instruction_units(code: &[u16], at: usize) -> (r: Option<usize>)
        ensures
            match r {
                Some(units) => span_at(code@, at as int) == Some(units as int),
                None => span_at(code@, at as int) is None,
            },
            r is Some ==> 1 <= r->0 <= 257 && at + r->0 <= code@.len(),
    {
        if at >= code.len() {
            return None;
        }
        let unit: u16 = code[at];
        proof {
            lemma_unit_bits(unit, 0, 0, 0);
        }
        let length: u16 = (unit >> 6) & 3;
        let units: usize = if length == VARIABLE_LENGTH {
            2 + Chunk::inline_operand(unit) as usize
        } else {
            length as usize + 1
        };
        if units > code.len() - at {
            None
        } else {
            Some(units)
        }
    }

    /// For every offset in the code and its end, whether a jump can land there.
    #[verifier::spinoff_prover]
    fn jump_targets(code: &[u16]) -> (targets: Vec<bool>)
        requires
            code@.len() < usize::MAX,
            jumps_whole(code@, 0),
        ensures
            targets@.len() == code@.len() + 1,
            forall|t: int|
                0 <= t < targets@.len() ==> #[trigger] targets@[t] == lands_from(code@, 0, t),
    {
        let mut targets: Vec<bool> = Vec::new();
        while targets.len() < code.len() + 1
            invariant
                code@.len() < usize::MAX,
                targets@.len() <= code@.len() + 1,
                forall|t: int| 0 <= t < targets@.len() ==> !(#[trigger] targets@[t]),
            decreases code@.len() + 1 - targets@.len(),
        {
            targets.push(false);
        }
        let mut at: usize = 0;
        while at < code.len()
            invariant_except_break
                at <= code@.len(),
                jumps_whole(code@, at as int),
            invariant
                targets@.len() == code@.len() + 1,
                forall|t: int|
                    0 <= t < targets@.len() ==> (#[trigger] targets@[t] || lands_from(
                        code@,
                        at as int,
                        t,
                    )) == lands_from(code@, 0, t),
            ensures
                forall|t: int| !(#[trigger] lands_from(code@, at as int, t)),
            decreases code@.len() - at,
        {
            let len: usize = match Chunk::instruction_units(code, at) {
                Some(len) => len,
                None => {
                    break;
                },
            };
            let ghost prior = targets@;
            let after: usize = at + len;
            let target: Option<usize> = match Op::from_byte(Chunk::opcode_of(code[at])) {
                Some(Op::Jump) | Some(Op::JumpIf) | Some(Op::And) | Some(Op::Or) => {
                    let distance: usize = code[at + 1] as usize;
                    if distance < targets.len() - after {
                        Some(after + distance)
                    } else {
                        None
                    }
                },
                Some(Op::Loop) => {
                    let distance: usize = code[at + 1] as usize;
                    if distance <= after {
                        Some(after - distance)
                    } else {
                        None
                    }
                },
                _ => None,
            };
            match target {
                Some(target) => {
                    targets.set(target, true);
                },
                None => {},
            }
            proof {
                let landing = jump_target(code@, at as int);
                assert forall|t: int| 0 <= t < targets@.len() implies (#[trigger] targets@[t])
                    == (prior[t] || landing == Some(t)) by {}
                assert forall|t: int| 0 <= t < targets@.len() implies (#[trigger] targets@[t]
                    || lands_from(code@, after as int, t)) == lands_from(code@, 0, t) by {
                    assert((prior[t] || lands_from(code@, at as int, t)) == lands_from(
                        code@,
                        0,
                        t,
                    ));
                    assert(lands_from(code@, at as int, t) == (landing == Some(t) || lands_from(
                        code@,
                        after as int,
                        t,
                    )));
                }
            }
            at = after;
        }
        targets
    }

    /// Replace adjacent pairs of instructions with the single opcode that does
    /// both, where there is one and no jump lands between the two.
    pub fn fuse(&mut self)
        requires
            old(self).code@.len() < usize::MAX,
            jumps_whole(old(self).code@, 0),
        ensures
            final(self).code@ == fuse_from(old(self).code@, landings(old(self).code@), 0),
            final(self).same_constants(old(self)),
            final(self).lines@ == old(self).lines@,
            final(self).open_at() == old(self).open_at(),
            final(self).inline_used() == old(self).inline_used(),
    {
        let ghost before = *self;
        let ghost lands = landings(self.code@);
        let targets: Vec<bool> = Chunk::jump_targets(self.code.as_slice());
        let mut at: usize = 0;
        while at < self.code.len()
            invariant_except_break
                at <= self.code@.len(),
            invariant
                lands == landings(before.code@),
                self.code@.len() == before.code@.len(),
                targets@.len() == before.code@.len() + 1,
                forall|t: int|
                    0 <= t < targets@.len() ==> #[trigger] targets@[t] == lands.contains(t),
                fuse_from(self.code@, lands, at as int) == fuse_from(before.code@, lands, 0),
                self.same_constants(&before),
                self.lines@ == before.lines@,
                self.open_at() == before.open_at(),
                self.inline_used() == before.inline_used(),
            ensures
                self.code@ == fuse_from(before.code@, lands, 0),
            decreases self.code@.len() - at,
        {
            let first: usize = match Chunk::instruction_units(self.code.as_slice(), at) {
                Some(first) => first,
                None => {
                    break;
                },
            };
            let second: usize = at + first;
            let ghost prior = self.code@;
            let fused: Option<Op> = if second < self.code.len() {
                match (
                    Op::from_byte(Chunk::opcode_of(self.code[at])),
                    Op::from_byte(Chunk::opcode_of(self.code[second])),
                ) {
                    (Some(Op::LoadLocal), Some(Op::Constant)) => Some(Op::LoadLocalConstant),
                    (Some(Op::LoadLocal), Some(Op::LoadLocal)) => Some(Op::LoadLocalPair),
                    (Some(Op::LoadLocal), Some(Op::Return)) => Some(Op::LoadLocalReturn),
                    (Some(Op::StoreFieldThis), Some(Op::Pop)) => Some(Op::StoreFieldThisPop),
                    (Some(Op::LoadFieldThis), Some(Op::Return)) => Some(Op::LoadFieldThisReturn),
                    _ => None,
                }
            } else {
                None
            };
            match fused {
                Some(op) => {
                    if !targets[second] {
                        let rest: usize = match Chunk::instruction_units(
                            self.code.as_slice(),
                            second,
                        ) {
                            Some(rest) => rest,
                            None => 1,
                        };
                        let units: usize = first + rest;
                        let bits: u16 = if units <= 1 {
                            0
                        } else if units == 2 {
                            1
                        } else if units == 3 {
                            2
                        } else {
                            VARIABLE_LENGTH
                        };
                        let unit: u16 = self.code[at];
                        let opcode: u16 = op.byte() as u16;
                        proof {
                            law_opcode_round_trip(op);
                            lemma_unit_bits(unit, bits, 0, opcode);
                        }
                        let keep: u16 = unit & !(OPCODE_MASK | (3u16 << 6));
                        self.code.set(at, keep | opcode | (bits << 6));
                        at = second + rest;
                    } else {
                        at = second;
                    }
                },
                None => {
                    at = second;
                },
            }
        }
    }

    /// Nothing more will be added to this chunk: fuse its instruction pairs
    /// and let go of the constant index.
    pub fn finish(&mut self)
        requires
            old(self).wf(),
            old(self).code@.len() < usize::MAX,
            jumps_whole(old(self).sealed(), 0),
        ensures
            final(self).wf(),
            final(self).code@ == fuse_from(old(self).sealed(), landings(old(self).sealed()), 0),
            final(self).constants@ == old(self).constants@,
            final(self).known() == Map::<u64, u16>::empty(),
            final(self).lines@ == old(self).lines@,
            final(self).open_at() is None,
    {
        self.close();
        self.fuse();
        self.lookup = BTreeMap::new();
    }

    /// The index of constants by bit pattern: the first place of each, as far as
    /// an index reaches.
    fn index_of(constants: &Vec<Value>) -> (lookup: BTreeMap<u64, u16>)
        ensures
            index_true(lookup@, constants@),
            forall|i: int|
                0 <= i < constants@.len() && i <= u16::MAX ==> {
                    &&& lookup@.contains_key((#[trigger] constants@[i]).0)
                    &&& lookup@[constants@[i].0] <= i
                },
    {
        broadcast use vstd::std_specs::btree::group_btree_axioms;

        let mut lookup: BTreeMap<u64, u16> = BTreeMap::new();
        let mut at: usize = 0;
        while at < constants.len() && at <= 65535
            invariant
                at <= constants@.len(),
                at <= 65536,
                index_true(lookup@, constants@),
                forall|bits: u64| #[trigger] lookup@.contains_key(bits) ==> lookup@[bits] < at,
                forall|i: int|
                    0 <= i < at ==> {
                        &&& lookup@.contains_key((#[trigger] constants@[i]).0)
                        &&& lookup@[constants@[i].0] <= i
                    },
            decreases constants@.len() - at,
        {
            let bits: u64 = constants[at].to_bits();
            if !lookup.contains_key(&bits) {
                lookup.insert(bits, at as u16);
            }
            at = at + 1;
        }
        lookup
    }

    /// Rebuild a chunk from parts that were stored, its pairs fused and the
    /// constants findable again.
    pub fn from_parts(code: Vec<u16>, constants: Vec<Value>, lines: Vec<(u32, u16)>) -> (chunk:
        Chunk)
        requires
            code@.len() < usize::MAX,
            jumps_whole(code@, 0),
        ensures
            chunk.wf(),
            chunk.code@ == fuse_from(code@, landings(code@), 0),
            chunk.constants@ == constants@,
            chunk.searchable(),
            distinct(constants@) && constants@.len() <= u16::MAX + 1 ==> chunk.indexed(),
            chunk.lines@ == lines@,
            chunk.open_at() is None,
            !chunk.inline_used(),
    {
        let lookup = Chunk::index_of(&constants);
        let mut chunk = Chunk {
            code,
            constants,
            lookup,
            lines,
            building: None,
            inline_taken: false,
        };
        chunk.fuse();
        chunk
    }

    /// What this chunk costs in memory: code, lines, constants and constant
    /// index, in bytes.
    pub fn footprint(&self) -> (r: (usize, usize, usize, usize))
        ensures
            r.0 >= crate::memory::capped(self.code@.len() * vstd::layout::size_of::<u16>()),
            r.1 >= crate::memory::capped(
                self.lines@.len() * vstd::layout::size_of::<(u32, u16)>(),
            ),
            r.2 >= crate::memory::capped(self.constants@.len() * vstd::layout::size_of::<Value>()),
            r.3 == crate::memory::capped((self.known().len() * 10) as nat),
            exists|room: usize| #[trigger]
                crate::memory::takes(
                    r.0,
                    room,
                    self.code@.len(),
                    vstd::layout::size_of::<u16>(),
                ),
            exists|room: usize| #[trigger]
                crate::memory::takes(
                    r.1,
                    room,
                    self.lines@.len(),
                    vstd::layout::size_of::<(u32, u16)>(),
                ),
            exists|room: usize| #[trigger]
                crate::memory::takes(
                    r.2,
                    room,
                    self.constants@.len(),
                    vstd::layout::size_of::<Value>(),
                ),
    {
        broadcast use vstd::std_specs::btree::group_btree_axioms;

        let code: usize = reserved(&self.code);
        let lines: usize = reserved(&self.lines);
        let constants: usize = reserved(&self.constants);
        let unit: usize = core::mem::size_of::<u16>();
        let pair: usize = core::mem::size_of::<(u32, u16)>();
        let value: usize = core::mem::size_of::<Value>();
        proof {
            vstd::arithmetic::mul::lemma_mul_inequality(
                self.code@.len() as int,
                code as int,
                unit as int,
            );
            vstd::arithmetic::mul::lemma_mul_inequality(
                self.lines@.len() as int,
                lines as int,
                pair as int,
            );
            vstd::arithmetic::mul::lemma_mul_inequality(
                self.constants@.len() as int,
                constants as int,
                value as int,
            );
        }
        let r: (usize, usize, usize, usize) = (
            sized(code, unit),
            sized(lines, pair),
            sized(constants, value),
            sized(self.lookup.len(), 10),
        );
        assert(crate::memory::takes(
            r.0,
            code,
            self.code@.len(),
            vstd::layout::size_of::<u16>(),
        ));
        assert(crate::memory::takes(
            r.1,
            lines,
            self.lines@.len(),
            vstd::layout::size_of::<(u32, u16)>(),
        ));
        assert(crate::memory::takes(
            r.2,
            constants,
            self.constants@.len(),
            vstd::layout::size_of::<Value>(),
        ));
        r
    }

    /// The source line for the instruction at `offset`: that of the last entry
    /// that starts at or before it, or zero if there is none.
    pub fn line_at(&self, offset: usize) -> (line: u16)
        ensures
            lines_sorted(self.lines@) ==> line == line_of(self.lines@, offset as u32),
    {
        let wanted: u32 = offset as u32;
        let mut low: usize = 0;
        let mut high: usize = self.lines.len();
        while low < high
            invariant
                low <= high <= self.lines@.len(),
                lines_sorted(self.lines@) ==> forall|i: int|
                    0 <= i < low ==> (#[trigger] self.lines@[i]).0 <= wanted,
                lines_sorted(self.lines@) ==> forall|i: int|
                    high <= i < self.lines@.len() ==> (#[trigger] self.lines@[i]).0 > wanted,
            decreases high - low,
        {
            let middle: usize = low + (high - low) / 2;
            if self.lines[middle].0 <= wanted {
                low = middle + 1;
            } else {
                high = middle;
            }
        }
        proof {
            if lines_sorted(self.lines@) {
                lemma_line_of(self.lines@, wanted, low as int);
            }
        }
        if low == 0 {
            0
        } else {
            self.lines[low - 1].1
        }
    }
}

/// Whether line entries are in order of where they start.
pub open spec fn lines_sorted(lines: Seq<(u32, u16)>) -> bool {
    forall|i: int, j: int|
        0 <= i < j < lines.len() ==> (#[trigger] lines[i]).0 <= (#[trigger] lines[j]).0
}

/// The line of the last entry that starts at or before an offset.
pub open spec fn line_of(lines: Seq<(u32, u16)>, offset: u32) -> u16
    decreases lines.len(),
{
    if lines.len() == 0 {
        0
    } else if lines.last().0 <= offset {
        lines.last().1
    } else {
        line_of(lines.drop_last(), offset)
    }
}

proof fn lemma_line_of(lines: Seq<(u32, u16)>, offset: u32, count: int)
    requires
        0 <= count <= lines.len(),
        forall|i: int| 0 <= i < count ==> (#[trigger] lines[i]).0 <= offset,
        forall|i: int| count <= i < lines.len() ==> (#[trigger] lines[i]).0 > offset,
    ensures
        line_of(lines, offset) == if count == 0 {
            0
        } else {
            lines[count - 1].1
        },
    decreases lines.len(),
{
    if lines.len() > count {
        lemma_line_of(lines.drop_last(), offset, count);
    }
}

impl Default for Chunk {
    fn default() -> (chunk: Chunk)
        ensures
            chunk.wf(),
            chunk.indexed(),
            chunk.code@.len() == 0,
            chunk.constants@.len() == 0,
            chunk.lines@.len() == 0,
            chunk.open_at() is None,
            !chunk.inline_used(),
    {
        Chunk::new()
    }
}

} // verus!
