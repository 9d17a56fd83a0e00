//! What a method of the core library comes to.

use vstd::prelude::*;

use super::tasks::{Task, TaskModel};
use crate::handle::ObjectId;
use crate::object::ObjRange;
use crate::value::Value;
use crate::vm::RuntimeError;

verus! {

/// Something to be computed with numbers.
#[derive(Clone, Copy, PartialEq, Eq, Structural, Debug)]
pub enum Sum {
    Add,
    Subtract,
    Multiply,
    Divide,
    Remainder,
    Sqrt,
    Fraction,
    Round,
    Pow,
    Log,
    Log2,
    Exp,
    Cbrt,
    Sin,
    Cos,
    Tan,
    Asin,
    Acos,
    Atan,
    Atan2,
}

/// What is made of a random fraction.
#[derive(Clone, Copy, PartialEq, Eq, Structural, Debug)]
pub enum Chance {
    /// A number from a start up to an end.
    Between { start: u64, end: u64 },
    /// The fraction of a number.
    UpTo { end: u64 },
    /// The fraction itself.
    Fraction,
    /// A whole number from zero up to an end.
    WholeUpTo { end: u64 },
    /// A whole number from a start up to an end.
    WholeBetween { start: u64, end: u64 },
}

/// What is drawn from a list.
#[derive(Clone, Copy, PartialEq, Eq, Structural, Debug)]
pub enum Drawing {
    /// One of its elements.
    One,
    /// A list of so many of them.
    Many(usize),
    /// The list itself, put in another order.
    Order,
}

/// What a method comes to.
pub enum Reply {
    /// Its value, or its error.
    Done(Result<Value, RuntimeError>),
    /// The number that a computation on its receiver and argument gives.
    Compute { sum: Sum, left: u64, right: u64 },
    /// A string of how a value is shown.
    Show(Value),
    /// A string of how two values are shown, with a colon between them.
    ShowPair(Value, Value),
    /// An error whose message is how a value is shown.
    Abort(Value),
    /// Whatever a closure returns, called with what is on the stack.
    Call { closure: ObjectId, at: usize },
    /// What a range gives after the next number up or down.
    Advance { range: ObjRange, iterator: u64, up: bool },
    /// A number made of a random fraction, given in units of two to the minus
    /// fifty-third.
    Chance { units: u64, of: Chance },
    /// What a random number generator draws from a list.
    Draw { list: Value, from: Value, drawing: Drawing },
    /// A random number generator that nobody gave a seed.
    Seed,
    /// Work that has to call methods and functions.
    Work(Task),
    /// Nothing: the method was called with what it cannot be called with.
    Stuck,
    /// Nothing: there is no room for what it makes.
    Full,
}

/// What a reply says.
pub enum ReplyModel {
    Done(Result<Value, Complaint>),
    Compute { sum: Sum, left: u64, right: u64 },
    Show(Value),
    ShowPair(Value, Value),
    Abort(Value),
    Call { closure: ObjectId, at: usize },
    Advance { range: ObjRange, iterator: u64, up: bool },
    Chance { units: u64, of: Chance },
    Draw { list: Value, from: Value, drawing: Drawing },
    Seed,
    Work(TaskModel),
    Stuck,
    Full,
}

/// What an error says, and on which line.
pub struct Complaint {
    pub message: Seq<char>,
    pub line: u16,
}

/// What an error says, and on which line.
pub open spec fn complains(error: RuntimeError) -> Complaint {
    Complaint { message: error.message@, line: error.line }
}

/// An error of a method: which line it is on is for its caller to say.
pub open spec fn complaint(message: Seq<char>) -> Complaint {
    Complaint { message, line: 0 }
}

/// What an outcome says.
pub open spec fn said_by(r: Result<Value, RuntimeError>) -> Result<Value, Complaint> {
    match r {
        Ok(value) => Ok(value),
        Err(error) => Err(complains(error)),
    }
}

impl Reply {
    /// What the reply says.
    pub open spec fn model(&self) -> ReplyModel {
        match self {
            Reply::Done(r) => ReplyModel::Done(said_by(*r)),
            Reply::Compute { sum, left, right } => ReplyModel::Compute {
                sum: *sum,
                left: *left,
                right: *right,
            },
            Reply::Show(value) => ReplyModel::Show(*value),
            Reply::ShowPair(first, second) => ReplyModel::ShowPair(*first, *second),
            Reply::Abort(value) => ReplyModel::Abort(*value),
            Reply::Call { closure, at } => ReplyModel::Call { closure: *closure, at: *at },
            Reply::Advance { range, iterator, up } => ReplyModel::Advance {
                range: *range,
                iterator: *iterator,
                up: *up,
            },
            Reply::Chance { units, of } => ReplyModel::Chance { units: *units, of: *of },
            Reply::Draw { list, from, drawing } => ReplyModel::Draw {
                list: *list,
                from: *from,
                drawing: *drawing,
            },
            Reply::Seed => ReplyModel::Seed,
            Reply::Work(task) => ReplyModel::Work(task.model()),
            Reply::Stuck => ReplyModel::Stuck,
            Reply::Full => ReplyModel::Full,
        }
    }
}

/// A reply that is a value.
pub open spec fn gives(value: Value) -> ReplyModel {
    ReplyModel::Done(Ok(value))
}

/// A reply that is an error.
pub open spec fn denies(message: Seq<char>) -> ReplyModel {
    ReplyModel::Done(Err(complaint(message)))
}

/// Reply with a value.
pub fn give(value: Value) -> (reply: Reply)
    ensures
        reply.model() == gives(value),
{
    Reply::Done(Ok(value))
}

/// Reply with an error.
pub fn deny(message: &str) -> (reply: Reply)
    ensures
        reply.model() == denies(message@),
{
    Reply::Done(Err(RuntimeError::new(message)))
}

} // verus!
