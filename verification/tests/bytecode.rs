//! The instruction set.

use wren::bytecode::Op;

#[test]
fn the_constants_are_the_discriminants() {
    for byte in 0..=u8::MAX {
        if let Some(op) = Op::from_byte(byte) {
            assert_eq!(op.byte(), byte, "{op:?} decodes from a byte it is not");
        }
    }
}
