//! A chunk laid out one instruction per line.

use vstd::prelude::*;
use vstd::string::*;

use super::{Chunk, Op};
use crate::text::{push_decimal, push_decimal4};

verus! {

impl Op {
    /// The name an opcode is listed under.
    pub open spec fn spec_name(self) -> Seq<char> {
        match self {
            Op::CloseUpvalue => "CloseUpvalue"@,
            Op::Construct => "Construct"@,
            Op::End => "End"@,
            Op::False => "False"@,
            Op::Null => "Null"@,
            Op::Pop => "Pop"@,
            Op::Return => "Return"@,
            Op::SetAttributes => "SetAttributes"@,
            Op::True => "True"@,
            Op::Class => "Class"@,
            Op::LoadField => "LoadField"@,
            Op::LoadFieldThis => "LoadFieldThis"@,
            Op::LoadLocal => "LoadLocal"@,
            Op::LoadStaticField => "LoadStaticField"@,
            Op::LoadUpvalue => "LoadUpvalue"@,
            Op::StoreField => "StoreField"@,
            Op::StoreFieldThis => "StoreFieldThis"@,
            Op::StoreLocal => "StoreLocal"@,
            Op::StoreStaticField => "StoreStaticField"@,
            Op::StoreUpvalue => "StoreUpvalue"@,
            Op::And => "And"@,
            Op::Constant => "Constant"@,
            Op::ImportModule => "ImportModule"@,
            Op::Jump => "Jump"@,
            Op::JumpIf => "JumpIf"@,
            Op::LoadFieldThisReturn => "LoadFieldThisReturn"@,
            Op::LoadLocalReturn => "LoadLocalReturn"@,
            Op::LoadModuleVar => "LoadModuleVar"@,
            Op::Loop => "Loop"@,
            Op::MethodInstance => "MethodInstance"@,
            Op::MethodStatic => "MethodStatic"@,
            Op::Or => "Or"@,
            Op::StoreFieldThisPop => "StoreFieldThisPop"@,
            Op::StoreModuleVar => "StoreModuleVar"@,
            Op::Call => "Call"@,
            Op::LoadLocalPair => "LoadLocalPair"@,
            Op::Super => "Super"@,
            Op::ImportVariable => "ImportVariable"@,
            Op::LoadLocalConstant => "LoadLocalConstant"@,
            Op::Closure => "Closure"@,
        }
    }

    /// The name this opcode is listed under.
    pub fn name(self) -> (name: &'static str)
        ensures
            name@ == self.spec_name(),
    {
        match self {
            Op::CloseUpvalue => "CloseUpvalue",
            Op::Construct => "Construct",
            Op::End => "End",
            Op::False => "False",
            Op::Null => "Null",
            Op::Pop => "Pop",
            Op::Return => "Return",
            Op::SetAttributes => "SetAttributes",
            Op::True => "True",
            Op::Class => "Class",
            Op::LoadField => "LoadField",
            Op::LoadFieldThis => "LoadFieldThis",
            Op::LoadLocal => "LoadLocal",
            Op::LoadStaticField => "LoadStaticField",
            Op::LoadUpvalue => "LoadUpvalue",
            Op::StoreField => "StoreField",
            Op::StoreFieldThis => "StoreFieldThis",
            Op::StoreLocal => "StoreLocal",
            Op::StoreStaticField => "StoreStaticField",
            Op::StoreUpvalue => "StoreUpvalue",
            Op::And => "And",
            Op::Constant => "Constant",
            Op::ImportModule => "ImportModule",
            Op::Jump => "Jump",
            Op::JumpIf => "JumpIf",
            Op::LoadFieldThisReturn => "LoadFieldThisReturn",
            Op::LoadLocalReturn => "LoadLocalReturn",
            Op::LoadModuleVar => "LoadModuleVar",
            Op::Loop => "Loop",
            Op::MethodInstance => "MethodInstance",
            Op::MethodStatic => "MethodStatic",
            Op::Or => "Or",
            Op::StoreFieldThisPop => "StoreFieldThisPop",
            Op::StoreModuleVar => "StoreModuleVar",
            Op::Call => "Call",
            Op::LoadLocalPair => "LoadLocalPair",
            Op::Super => "Super",
            Op::ImportVariable => "ImportVariable",
            Op::LoadLocalConstant => "LoadLocalConstant",
            Op::Closure => "Closure",
        }
    }
}

/// How many operand units past its first an instruction reads.
pub open spec fn operand_units(op: Op) -> int {
    match op {
        Op::Constant
        | Op::LoadModuleVar
        | Op::StoreModuleVar
        | Op::MethodInstance
        | Op::MethodStatic
        | Op::ImportModule
        | Op::Jump
        | Op::JumpIf
        | Op::And
        | Op::Or
        | Op::Loop
        | Op::Call
        | Op::Super
        | Op::Closure
        | Op::LoadLocalPair => 1,
        Op::ImportVariable | Op::LoadLocalConstant => 2,
        _ => 0,
    }
}

/// Whether every instruction in the code from `at` on has its operands, and no
/// backward jump leaves the code.
pub open spec fn listable(code: Seq<u16>, at: int) -> bool
    decreases code.len() - at,
{
    if at < 0 || at >= code.len() {
        true
    } else {
        match Op::spec_from_byte(super::unit_opcode(code[at])) {
            None => listable(code, at + 1),
            Some(op) => match super::span_at(code, at) {
                None => true,
                Some(units) => {
                    &&& at + operand_units(op) < code.len()
                    &&& op == Op::Loop ==> code[at + 1] <= at + units
                    &&& listable(code, at + units)
                },
            },
        }
    }
}

/// The operands of an instruction as they are listed.
pub open spec fn operand_text(code: Seq<u16>, at: int, op: Op) -> Seq<char> {
    let units = super::unit_span(code[at]);
    let inline = crate::text::decimal(super::unit_operand(code[at]) as nat);
    let next = crate::text::decimal(code[at + 1] as nat);
    match op {
        Op::Constant
        | Op::LoadModuleVar
        | Op::StoreModuleVar
        | Op::MethodInstance
        | Op::MethodStatic
        | Op::ImportModule => " "@ + next,
        Op::LoadLocal
        | Op::StoreLocal
        | Op::LoadUpvalue
        | Op::StoreUpvalue
        | Op::LoadFieldThis
        | Op::StoreFieldThis
        | Op::LoadField
        | Op::StoreField
        | Op::LoadStaticField
        | Op::StoreStaticField
        | Op::Class
        | Op::LoadLocalReturn
        | Op::StoreFieldThisPop
        | Op::LoadFieldThisReturn => " "@ + inline,
        Op::Jump | Op::JumpIf | Op::And | Op::Or => " -> "@ + crate::text::decimal4(
            (at + units + code[at + 1]) as nat,
        ),
        Op::Loop => " -> "@ + crate::text::decimal4((at + units - code[at + 1]) as nat),
        Op::ImportVariable => " "@ + next + " "@ + crate::text::decimal(code[at + 2] as nat),
        Op::Call | Op::Super => " arity "@ + inline + " symbol "@ + next,
        Op::Closure => " "@ + next + " upvalues "@ + inline,
        Op::LoadLocalConstant => " "@ + inline + " then constant "@ + crate::text::decimal(code[at + 2] as nat),
        Op::LoadLocalPair => " "@ + inline + " then "@ + crate::text::decimal(
            super::unit_operand(code[at + 1]) as nat,
        ),
        _ => Seq::empty(),
    }
}

/// The listing of the code from `at` on.
pub open spec fn listing_from(code: Seq<u16>, at: int) -> Seq<char>
    decreases code.len() - at,
{
    if at < 0 || at >= code.len() {
        Seq::empty()
    } else {
        match Op::spec_from_byte(super::unit_opcode(code[at])) {
            None => crate::text::decimal4(at as nat) + " ??? "@ + crate::text::decimal(code[at] as nat) + "\n"@
                + listing_from(code, at + 1),
            Some(op) => match super::span_at(code, at) {
                None => crate::text::decimal4(at as nat) + " ??? truncated\n"@,
                Some(units) => crate::text::decimal4(at as nat) + " "@ + op.spec_name() + operand_text(
                    code,
                    at,
                    op,
                ) + "\n"@ + listing_from(code, at + units),
            },
        }
    }
}

/// Append the operands of the instruction at `at`.
fn push_operands(out: &mut String, code: &Vec<u16>, at: usize, units: usize, op: Op)
    requires
        code@.len() <= usize::MAX - 0x10000,
        super::span_at(code@, at as int) == Some(units as int),
        at + operand_units(op) < code@.len(),
        op == Op::Loop ==> code@[at + 1] <= at + units,
    ensures
        final(out)@ == old(out)@ + operand_text(code@, at as int, op),
{
    let ghost before = out@;
    let inline: u64 = Chunk::inline_operand(code[at]) as u64;
    match op {
        Op::Constant
        | Op::LoadModuleVar
        | Op::StoreModuleVar
        | Op::MethodInstance
        | Op::MethodStatic
        | Op::ImportModule => {
            out.append(" ");
            push_decimal(out, code[at + 1] as u64);
        },
        Op::LoadLocal
        | Op::StoreLocal
        | Op::LoadUpvalue
        | Op::StoreUpvalue
        | Op::LoadFieldThis
        | Op::StoreFieldThis
        | Op::LoadField
        | Op::StoreField
        | Op::LoadStaticField
        | Op::StoreStaticField
        | Op::Class
        | Op::LoadLocalReturn
        | Op::StoreFieldThisPop
        | Op::LoadFieldThisReturn => {
            out.append(" ");
            push_decimal(out, inline);
        },
        Op::Jump | Op::JumpIf | Op::And | Op::Or => {
            out.append(" -> ");
            let target: usize = at + units + code[at + 1] as usize;
            push_decimal4(out, target as u64);
        },
        Op::Loop => {
            out.append(" -> ");
            let target: usize = at + units - code[at + 1] as usize;
            push_decimal4(out, target as u64);
        },
        Op::ImportVariable => {
            out.append(" ");
            push_decimal(out, code[at + 1] as u64);
            out.append(" ");
            push_decimal(out, code[at + 2] as u64);
        },
        Op::Call | Op::Super => {
            out.append(" arity ");
            push_decimal(out, inline);
            out.append(" symbol ");
            push_decimal(out, code[at + 1] as u64);
        },
        Op::Closure => {
            out.append(" ");
            push_decimal(out, code[at + 1] as u64);
            out.append(" upvalues ");
            push_decimal(out, inline);
        },
        Op::LoadLocalConstant => {
            out.append(" ");
            push_decimal(out, inline);
            out.append(" then constant ");
            push_decimal(out, code[at + 2] as u64);
        },
        Op::LoadLocalPair => {
            out.append(" ");
            push_decimal(out, inline);
            out.append(" then ");
            push_decimal(out, Chunk::inline_operand(code[at + 1]) as u64);
        },
        _ => {},
    }
    proof {
        assert(out@ =~= before + operand_text(code@, at as int, op));
    }
}

/// Disassemble a chunk, one instruction per line.
pub fn disassemble(chunk: &Chunk) -> (text: String)
    requires
        chunk.code@.len() <= usize::MAX - 0x10000,
        listable(chunk.code@, 0),
    ensures
        text@ == listing_from(chunk.code@, 0),
{
    let ghost code = chunk.code@;
    let mut out = String::new();
    let mut at: usize = 0;
    while at < chunk.code.len()
        invariant_except_break
            at <= code.len(),
            listable(code, at as int),
            out@ + listing_from(code, at as int) == listing_from(code, 0),
        invariant
            code == chunk.code@,
            chunk.code@.len() <= usize::MAX - 0x10000,
        ensures
            out@ == listing_from(code, 0),
        decreases code.len() - at,
    {
        let ghost before = out@;
        match Op::from_byte(Chunk::opcode_of(chunk.code[at])) {
            None => {
                push_decimal4(&mut out, at as u64);
                out.append(" ??? ");
                push_decimal(&mut out, chunk.code[at] as u64);
                out.append("\n");
                proof {
                    assert(out@ + listing_from(code, at as int + 1) =~= before + listing_from(
                        code,
                        at as int,
                    ));
                }
                at = at + 1;
            },
            Some(op) => match Chunk::instruction_units(chunk.code.as_slice(), at) {
                None => {
                    push_decimal4(&mut out, at as u64);
                    out.append(" ??? truncated\n");
                    proof {
                        assert(out@ =~= before + listing_from(code, at as int));
                    }
                    break;
                },
                Some(units) => {
                    push_decimal4(&mut out, at as u64);
                    out.append(" ");
                    out.append(op.name());
                    push_operands(&mut out, &chunk.code, at, units, op);
                    out.append("\n");
                    proof {
                        assert(out@ + listing_from(code, at + units) =~= before + listing_from(
                            code,
                            at as int,
                        ));
                    }
                    at = at + units;
                },
            },
        }
        proof {
            if at >= code.len() {
                assert(out@ + listing_from(code, at as int) =~= out@);
            }
        }
    }
    out
}

} // verus!
