//! The core of a Wren virtual machine.

pub mod bitmap;
pub mod bytecode;
pub mod compiler;
pub mod corelib;
pub mod fields;
pub mod frozen;
pub mod handle;
pub mod heap;
pub mod hex;
pub mod lexer;
pub mod lists;
pub mod math;
pub mod memory;
pub mod number;
pub mod object;
pub mod sha256;
pub mod symbol;
pub mod table;
pub mod text;
pub mod uheap;
pub mod value;
pub mod vm;

use vstd::prelude::*;

pub use handle::ObjectId;
pub use heap::Heap;
pub use lexer::{Lexer, Token, TokenKind};
pub use object::{ObjClass, ObjInstance, ObjList, ObjMap, ObjRange, ObjString, Object};
pub use value::Value;
pub use vm::{Vm, WrenError};

verus! {

/// The version of Wren this library targets.
pub const TARGET_WREN_VERSION: &'static str = "0.4.0";

} // verus!
