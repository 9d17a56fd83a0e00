//! The opcodes as plain bytes, for matching the instruction stream directly.

use vstd::prelude::*;

verus! {

/// The byte of `Op::CloseUpvalue`.
pub const CLOSE_UPVALUE: u8 = 0;

/// The byte of `Op::Construct`.
pub const CONSTRUCT: u8 = 1;

/// The byte of `Op::End`.
pub const END: u8 = 2;

/// The byte of `Op::False`.
pub const FALSE: u8 = 3;

/// The byte of `Op::Null`.
pub const NULL: u8 = 4;

/// The byte of `Op::Pop`.
pub const POP: u8 = 5;

/// The byte of `Op::Return`.
pub const RETURN: u8 = 6;

/// The byte of `Op::SetAttributes`.
pub const SET_ATTRIBUTES: u8 = 7;

/// The byte of `Op::True`.
pub const TRUE: u8 = 8;

/// The byte of `Op::Class`.
pub const CLASS: u8 = 9;

/// The byte of `Op::LoadField`.
pub const LOAD_FIELD: u8 = 10;

/// The byte of `Op::LoadFieldThis`.
pub const LOAD_FIELD_THIS: u8 = 11;

/// The byte of `Op::LoadLocal`.
pub const LOAD_LOCAL: u8 = 12;

/// The byte of `Op::LoadStaticField`.
pub const LOAD_STATIC_FIELD: u8 = 13;

/// The byte of `Op::LoadUpvalue`.
pub const LOAD_UPVALUE: u8 = 14;

/// The byte of `Op::StoreField`.
pub const STORE_FIELD: u8 = 15;

/// The byte of `Op::StoreFieldThis`.
pub const STORE_FIELD_THIS: u8 = 16;

/// The byte of `Op::StoreLocal`.
pub const STORE_LOCAL: u8 = 17;

/// The byte of `Op::StoreStaticField`.
pub const STORE_STATIC_FIELD: u8 = 18;

/// The byte of `Op::StoreUpvalue`.
pub const STORE_UPVALUE: u8 = 19;

/// The byte of `Op::And`.
pub const AND: u8 = 20;

/// The byte of `Op::Constant`.
pub const CONSTANT: u8 = 21;

/// The byte of `Op::ImportModule`.
pub const IMPORT_MODULE: u8 = 22;

/// The byte of `Op::Jump`.
pub const JUMP: u8 = 23;

/// The byte of `Op::JumpIf`.
pub const JUMP_IF: u8 = 24;

/// The byte of `Op::LoadFieldThisReturn`.
pub const LOAD_FIELD_THIS_RETURN: u8 = 25;

/// The byte of `Op::LoadLocalReturn`.
pub const LOAD_LOCAL_RETURN: u8 = 26;

/// The byte of `Op::LoadModuleVar`.
pub const LOAD_MODULE_VAR: u8 = 27;

/// The byte of `Op::Loop`.
pub const LOOP: u8 = 28;

/// The byte of `Op::MethodInstance`.
pub const METHOD_INSTANCE: u8 = 29;

/// The byte of `Op::MethodStatic`.
pub const METHOD_STATIC: u8 = 30;

/// The byte of `Op::Or`.
pub const OR: u8 = 31;

/// The byte of `Op::StoreFieldThisPop`.
pub const STORE_FIELD_THIS_POP: u8 = 32;

/// The byte of `Op::StoreModuleVar`.
pub const STORE_MODULE_VAR: u8 = 33;

/// The byte of `Op::Call`.
pub const CALL: u8 = 34;

/// The byte of `Op::LoadLocalPair`.
pub const LOAD_LOCAL_PAIR: u8 = 35;

/// The byte of `Op::Super`.
pub const SUPER: u8 = 36;

/// The byte of `Op::ImportVariable`.
pub const IMPORT_VARIABLE: u8 = 37;

/// The byte of `Op::LoadLocalConstant`.
pub const LOAD_LOCAL_CONSTANT: u8 = 38;

/// The byte of `Op::Closure`.
pub const CLOSURE: u8 = 39;

/// The highest byte that is an opcode.
pub const HIGHEST: u8 = 39;

} // verus!
