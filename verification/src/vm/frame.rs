//! Calls in progress.

use std::rc::Rc;

use vstd::prelude::*;

use crate::bytecode::Chunk;
use crate::handle::ObjectId;

verus! {

/// One call in progress.
#[derive(Debug)]
pub struct Frame {
    /// The closure that is running.
    pub closure: ObjectId,
    /// Where to resume. Only written when this frame stops being the running
    /// one.
    pub ip: usize,
    /// The stack slot holding the receiver. Local slot *n* is `base + n`.
    pub base: usize,
    /// The code this frame runs, held only while the frame is not running.
    pub chunk: Option<Rc<Chunk>>,
    /// The module this frame's code resolves its variables against.
    pub module: usize,
    /// Where this method's own fields start in its receiver.
    pub field_offset: u16,
}

} // verus!
