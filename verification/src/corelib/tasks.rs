//! Work that a method does by calling other methods.
//!
//! A task says what it wants called, is told what came back, and says what it
//! wants next, until it is done.

use vstd::prelude::*;
use vstd::string::*;
use vstd::utf8::*;

use super::list_methods;
use super::list_methods::find_value;
use super::lists::copy_values;
use super::strings::append_bytes;
use crate::number::counted;
use crate::object::copy_bytes;
use crate::value::Value;
use crate::vm::{RuntimeError, Vm};

verus! {

/// What a task is for.
#[derive(Clone, Copy, PartialEq, Eq, Structural, Debug)]
pub enum Goal {
    /// To count what a sequence gives.
    Count,
    /// To know whether a sequence gives anything.
    IsEmpty,
    /// To list what a sequence gives.
    ToList,
    /// To know whether a sequence gives a value.
    Contains(Value),
    /// To call a function with every element.
    Each(Value),
    /// To know whether a function is true of every element.
    All(Value),
    /// To know whether a function is true of some element.
    Any(Value),
    /// To list what a function makes of the elements.
    Apply(Value),
    /// To list the elements that a function is true of.
    Where(Value),
    /// To combine the elements by a function.
    Reduce(Value),
    /// To combine the elements by a function, beginning with a value.
    ReduceFrom(Value, Value),
    /// To put the elements together as text.
    Join,
    /// To put the elements together as a list is shown.
    ShowList,
    /// To put keys and values together as a map is shown.
    ShowMap,
    /// To print a value and end the line.
    Print,
    /// To print a value.
    Write,
    /// To give what a sequence's method gives.
    Pass,
    /// To give what a function makes of what a sequence's method gives.
    PassThrough(Value),
    /// To go to the next element that a function is true of.
    Seek(Value),
    /// To go to the element after so many.
    Skip(usize),
}

/// What a task is waiting for.
#[derive(Clone, Copy, PartialEq, Eq, Structural, Debug)]
pub enum Phase {
    /// For `iterate`.
    Iterating,
    /// For `iteratorValue`.
    Reading,
    /// For nothing: the elements are known, and none was visited.
    Gathered,
    /// For the function, or `toString`.
    Visiting,
}

/// Work that a method does by calling other methods.
pub struct Task {
    pub goal: Goal,
    pub phase: Phase,
    /// The sequence, where there is one.
    pub sequence: Value,
    /// How far iterating it has got.
    pub iterator: Value,
    /// The elements, as far as they are known.
    pub elements: Vec<Value>,
    /// How many of them were visited, or how many were counted.
    pub visited: usize,
    /// What was kept of them.
    pub kept: Vec<Value>,
    /// The text that was put together.
    pub text: Vec<u8>,
    /// What goes between two elements of it.
    pub separator: Vec<u8>,
}

/// What a task holds.
#[verifier::ext_equal]
pub struct TaskModel {
    pub goal: Goal,
    pub phase: Phase,
    pub sequence: Value,
    pub iterator: Value,
    pub elements: Seq<Value>,
    pub visited: int,
    pub kept: Seq<Value>,
    pub text: Seq<u8>,
    pub separator: Seq<u8>,
}

/// A method that a task calls.
#[derive(Clone, Copy, PartialEq, Eq, Structural, Debug)]
pub enum Message {
    Iterate,
    IteratorValue,
    ToString,
}

impl Message {
    /// The method's signature.
    pub open spec fn spec_signature(self) -> Seq<char> {
        match self {
            Message::Iterate => "iterate(_)"@,
            Message::IteratorValue => "iteratorValue(_)"@,
            Message::ToString => "toString"@,
        }
    }

    /// The method's signature.
    pub fn signature(self) -> (text: &'static str)
        ensures
            text@ == self.spec_signature(),
    {
        match self {
            Message::Iterate => "iterate(_)",
            Message::IteratorValue => "iteratorValue(_)",
            Message::ToString => "toString",
        }
    }
}

/// What a task wants called.
pub enum Ask {
    /// A method of a value, with these arguments.
    Invoke { receiver: Value, message: Message, arguments: Vec<Value> },
    /// A function, with these arguments.
    Call { function: Value, arguments: Vec<Value> },
}

/// What an ask says.
pub enum AskModel {
    Invoke { receiver: Value, message: Message, arguments: Seq<Value> },
    Call { function: Value, arguments: Seq<Value> },
}

impl Ask {
    /// What the ask says.
    pub open spec fn model(&self) -> AskModel {
        match self {
            Ask::Invoke { receiver, message, arguments } => AskModel::Invoke {
                receiver: *receiver,
                message: *message,
                arguments: arguments@,
            },
            Ask::Call { function, arguments } => AskModel::Call {
                function: *function,
                arguments: arguments@,
            },
        }
    }
}

/// What a task comes to.
pub enum End {
    /// This value, or this error.
    Answer(Result<Value, RuntimeError>),
    /// A list of these.
    NewList(Vec<Value>),
    /// A string of these bytes.
    NewText(Vec<u8>),
    /// These bytes printed, and this value.
    Printed { text: Vec<u8>, value: Value },
}

/// What an end says.
pub enum EndModel {
    Answer(Result<Value, super::reply::Complaint>),
    NewList(Seq<Value>),
    NewText(Seq<u8>),
    Printed { text: Seq<u8>, value: Value },
}

impl End {
    /// What the end says.
    pub open spec fn model(&self) -> EndModel {
        match self {
            End::Answer(r) => EndModel::Answer(super::reply::said_by(*r)),
            End::NewList(values) => EndModel::NewList(values@),
            End::NewText(text) => EndModel::NewText(text@),
            End::Printed { text, value } => EndModel::Printed { text: text@, value: *value },
        }
    }
}

/// What a task does next.
pub enum Turn {
    /// It wants something called, and to be told what came back.
    Wants(Ask),
    /// It is done.
    Ends(End),
}

/// Where a task is after a turn.
pub enum TurnModel {
    Goes(TaskModel),
    Ends(EndModel),
}

/// One more than a number, as far as it can be counted.
pub open spec fn one_more(n: int) -> int {
    if n < usize::MAX {
        n + 1
    } else {
        n
    }
}

impl TaskModel {
    /// Whether the task first lists what a sequence gives.
    pub open spec fn gathers(self) -> bool {
        match self.goal {
            Goal::ToList | Goal::Contains(_) | Goal::Each(_) | Goal::All(_) | Goal::Any(_)
            | Goal::Apply(_) | Goal::Where(_) | Goal::Reduce(_) | Goal::ReduceFrom(_, _)
            | Goal::Join | Goal::ShowList | Goal::ShowMap => true,
            _ => false,
        }
    }

    /// What the task wants called.
    pub open spec fn wants(self) -> AskModel {
        match self.phase {
            Phase::Iterating => AskModel::Invoke {
                receiver: self.sequence,
                message: Message::Iterate,
                arguments: seq![self.iterator],
            },
            Phase::Reading => AskModel::Invoke {
                receiver: self.sequence,
                message: Message::IteratorValue,
                arguments: seq![self.iterator],
            },
            _ => {
                let element = self.elements[self.visited];
                match self.goal {
                    Goal::Each(function) => call_of(function, element),
                    Goal::All(function) => call_of(function, element),
                    Goal::Any(function) => call_of(function, element),
                    Goal::Apply(function) => call_of(function, element),
                    Goal::Where(function) => call_of(function, element),
                    Goal::PassThrough(function) => call_of(function, element),
                    Goal::Seek(function) => call_of(function, element),
                    Goal::Reduce(function) => AskModel::Call {
                        function,
                        arguments: seq![self.kept[0], element],
                    },
                    Goal::ReduceFrom(_, function) => AskModel::Call {
                        function,
                        arguments: seq![self.kept[0], element],
                    },
                    _ => AskModel::Invoke {
                        receiver: element,
                        message: Message::ToString,
                        arguments: Seq::empty(),
                    },
                }
            },
        }
    }

    /// What the task comes to once every element was visited.
    pub open spec fn finish(self) -> EndModel {
        match self.goal {
            Goal::All(_) => EndModel::Answer(Ok(Value::bool(true))),
            Goal::Any(_) => EndModel::Answer(Ok(Value::bool(false))),
            Goal::Apply(_) => EndModel::NewList(self.kept),
            Goal::Where(_) => EndModel::NewList(self.kept),
            Goal::Reduce(_) => EndModel::Answer(Ok(self.kept[0])),
            Goal::ReduceFrom(_, _) => EndModel::Answer(Ok(self.kept[0])),
            Goal::Join => EndModel::NewText(self.text),
            Goal::ShowList => EndModel::NewText(self.text + encode_utf8("]"@)),
            Goal::ShowMap => EndModel::NewText(self.text + encode_utf8("}"@)),
            _ => EndModel::Answer(Ok(Value::null())),
        }
    }

    /// Where the task is, unless every element was visited.
    pub open spec fn settle(self) -> TurnModel {
        if self.visited >= self.elements.len() {
            TurnModel::Ends(self.finish())
        } else {
            TurnModel::Goes(self)
        }
    }

    /// Where the task is once the elements are known.
    pub open spec fn gathered(self, vm: &Vm) -> TurnModel {
        let visiting = TaskModel { phase: Phase::Visiting, visited: 0, ..self };
        match self.goal {
            Goal::ToList => TurnModel::Ends(EndModel::NewList(self.elements)),
            Goal::Contains(wanted) => TurnModel::Ends(
                EndModel::Answer(
                    Ok(
                        Value::bool(
                            list_methods::first_equal(vm, self.elements, wanted, 0) is Some,
                        ),
                    ),
                ),
            ),
            Goal::Reduce(_) => if self.elements.len() == 0 {
                TurnModel::Ends(EndModel::Answer(Err(super::reply::complaint("Can't reduce an empty sequence."@))))
            } else {
                (TaskModel { visited: 1, kept: seq![self.elements[0]], ..visiting }).settle()
            },
            Goal::ReduceFrom(first, _) => (TaskModel { kept: seq![first], ..visiting }).settle(),
            _ => visiting.settle(),
        }
    }

    /// Where a task starts.
    pub open spec fn begun(self, vm: &Vm) -> TurnModel {
        if self.phase is Gathered {
            self.gathered(vm)
        } else {
            TurnModel::Goes(self)
        }
    }

    /// Where the task is once `iterate` returned something.
    pub open spec fn iterated(self, vm: &Vm, answer: Value) -> TurnModel {
        let ended = answer.spec_is_falsy();
        match self.goal {
            Goal::Count => if ended {
                TurnModel::Ends(
                    EndModel::Answer(
                        Ok(Value::num(crate::number::tally(self.visited as nat))),
                    ),
                )
            } else {
                TurnModel::Goes(
                    TaskModel { iterator: answer, visited: one_more(self.visited), ..self },
                )
            },
            Goal::IsEmpty => TurnModel::Ends(EndModel::Answer(Ok(Value::bool(ended)))),
            Goal::Seek(_) => if ended {
                TurnModel::Ends(EndModel::Answer(Ok(Value::bool(false))))
            } else {
                TurnModel::Goes(TaskModel { iterator: answer, phase: Phase::Reading, ..self })
            },
            Goal::Skip(left) => if ended || left == 0 {
                TurnModel::Ends(EndModel::Answer(Ok(answer)))
            } else {
                TurnModel::Goes(
                    TaskModel { iterator: answer, goal: Goal::Skip((left - 1) as usize), ..self },
                )
            },
            _ => if !self.gathers() {
                TurnModel::Ends(EndModel::Answer(Ok(answer)))
            } else if ended {
                self.gathered(vm)
            } else {
                TurnModel::Goes(TaskModel { iterator: answer, phase: Phase::Reading, ..self })
            },
        }
    }

    /// Where the task is once `iteratorValue` returned something.
    pub open spec fn read(self, answer: Value) -> TurnModel {
        match self.goal {
            Goal::PassThrough(_) => TurnModel::Goes(
                TaskModel {
                    elements: seq![answer],
                    visited: 0,
                    phase: Phase::Visiting,
                    ..self
                },
            ),
            Goal::Seek(_) => TurnModel::Goes(
                TaskModel {
                    elements: seq![answer],
                    visited: 0,
                    phase: Phase::Visiting,
                    ..self
                },
            ),
            _ => if self.gathers() {
                TurnModel::Goes(
                    TaskModel {
                        elements: self.elements.push(answer),
                        phase: Phase::Iterating,
                        ..self
                    },
                )
            } else {
                TurnModel::Ends(EndModel::Answer(Ok(answer)))
            },
        }
    }

    /// What goes before the next element's text.
    pub open spec fn lead(self) -> Seq<u8> {
        if self.visited == 0 {
            Seq::empty()
        } else if self.goal is ShowMap && self.visited % 2 == 1 {
            encode_utf8(": "@)
        } else if self.goal is Join {
            self.separator
        } else {
            encode_utf8(", "@)
        }
    }

    /// Where the task is once an element was visited.
    pub open spec fn visit(self, vm: &Vm, answer: Value) -> TurnModel {
        let on = TaskModel { visited: self.visited + 1, ..self };
        let text = encode_utf8(spec_stringified(vm, answer));
        match self.goal {
            Goal::All(_) => if answer.spec_is_falsy() {
                TurnModel::Ends(EndModel::Answer(Ok(Value::bool(false))))
            } else {
                on.settle()
            },
            Goal::Any(_) => if !answer.spec_is_falsy() {
                TurnModel::Ends(EndModel::Answer(Ok(Value::bool(true))))
            } else {
                on.settle()
            },
            Goal::Apply(_) => (TaskModel { kept: self.kept.push(answer), ..on }).settle(),
            Goal::Where(_) => if answer.spec_is_falsy() {
                on.settle()
            } else {
                (TaskModel { kept: self.kept.push(self.elements[self.visited]), ..on }).settle()
            },
            Goal::Reduce(_) => (TaskModel { kept: seq![answer], ..on }).settle(),
            Goal::ReduceFrom(_, _) => (TaskModel { kept: seq![answer], ..on }).settle(),
            Goal::Join | Goal::ShowList | Goal::ShowMap => (TaskModel {
                text: self.text + self.lead() + text,
                ..on
            }).settle(),
            Goal::Print => TurnModel::Ends(
                EndModel::Printed {
                    text: text + encode_utf8("\n"@),
                    value: self.elements[self.visited],
                },
            ),
            Goal::Write => TurnModel::Ends(
                EndModel::Printed { text, value: self.elements[self.visited] },
            ),
            Goal::PassThrough(_) => TurnModel::Ends(EndModel::Answer(Ok(answer))),
            Goal::Seek(_) => if answer.spec_is_falsy() {
                TurnModel::Goes(TaskModel { phase: Phase::Iterating, ..self })
            } else {
                TurnModel::Ends(EndModel::Answer(Ok(self.iterator)))
            },
            _ => on.settle(),
        }
    }

    /// Where the task is once it was told what came back.
    pub open spec fn resumed(self, vm: &Vm, answer: Value) -> TurnModel {
        match self.phase {
            Phase::Iterating => self.iterated(vm, answer),
            Phase::Reading => self.read(answer),
            Phase::Gathered => self.gathered(vm),
            Phase::Visiting => self.visit(vm, answer),
        }
    }

    /// Whether the task can be waiting for what it waits for.
    pub open spec fn wf(self) -> bool {
        &&& self.phase is Visiting ==> 0 <= self.visited < self.elements.len()
        &&& self.phase is Visiting && (self.goal is Reduce || self.goal is ReduceFrom)
            ==> self.kept.len() > 0
    }
}

/// A call of a function with one argument.
pub open spec fn call_of(function: Value, element: Value) -> AskModel {
    AskModel::Call { function, arguments: seq![element] }
}

/// The text of what `toString` returned.
pub open spec fn spec_stringified(vm: &Vm, answer: Value) -> Seq<char> {
    match vm.spec_text(answer) {
        Some(text) => text,
        None => "[invalid toString]"@,
    }
}

/// Whether a turn takes a task to where it is.
pub open spec fn turned(after: TaskModel, turn: Turn, model: TurnModel) -> bool {
    match model {
        TurnModel::Goes(task) => {
            &&& after == task
            &&& task.wf()
            &&& turn matches Turn::Wants(ask)
            &&& ask.model() == task.wants()
        },
        TurnModel::Ends(end) => turn matches Turn::Ends(given) && given.model() == end,
    }
}

/// One value.
fn just(value: Value) -> (values: Vec<Value>)
    ensures
        values@ == seq![value],
{
    let mut values: Vec<Value> = Vec::new();
    values.push(value);
    proof {
        assert(values@ =~= seq![value]);
    }
    values
}

/// Two values.
fn both(first: Value, second: Value) -> (values: Vec<Value>)
    ensures
        values@ == seq![first, second],
{
    let mut values: Vec<Value> = Vec::new();
    values.push(first);
    values.push(second);
    proof {
        assert(values@ =~= seq![first, second]);
    }
    values
}

impl Task {
    /// What the task holds.
    pub open spec fn model(&self) -> TaskModel {
        TaskModel {
            goal: self.goal,
            phase: self.phase,
            sequence: self.sequence,
            iterator: self.iterator,
            elements: self.elements@,
            visited: self.visited as int,
            kept: self.kept@,
            text: self.text@,
            separator: self.separator@,
        }
    }

    /// What the task wants called.
    pub fn ask(&self) -> (ask: Ask)
        requires
            self.model().wf(),
            !(self.phase is Gathered),
        ensures
            ask.model() == self.model().wants(),
    {
        match self.phase {
            Phase::Iterating => Ask::Invoke {
                receiver: self.sequence,
                message: Message::Iterate,
                arguments: just(self.iterator),
            },
            Phase::Reading => Ask::Invoke {
                receiver: self.sequence,
                message: Message::IteratorValue,
                arguments: just(self.iterator),
            },
            _ => {
                let element = self.elements[self.visited];
                match self.goal {
                    Goal::Each(function) | Goal::All(function) | Goal::Any(function)
                    | Goal::Apply(function) | Goal::Where(function) | Goal::PassThrough(function)
                    | Goal::Seek(function) => Ask::Call { function, arguments: just(element) },
                    Goal::Reduce(function) | Goal::ReduceFrom(_, function) => Ask::Call {
                        function,
                        arguments: both(self.kept[0], element),
                    },
                    _ => {
                        let nothing: Vec<Value> = Vec::new();
                        proof {
                            assert(nothing@ =~= Seq::<Value>::empty());
                        }
                        Ask::Invoke {
                            receiver: element,
                            message: Message::ToString,
                            arguments: nothing,
                        }
                    },
                }
            },
        }
    }

    /// What the task comes to once every element was visited.
    fn end(&self) -> (end: End)
        requires
            self.goal is Reduce || self.goal is ReduceFrom ==> self.kept@.len() > 0,
        ensures
            end.model() == self.model().finish(),
    {
        match self.goal {
            Goal::All(_) => End::Answer(Ok(Value::bool(true))),
            Goal::Any(_) => End::Answer(Ok(Value::bool(false))),
            Goal::Apply(_) => End::NewList(copy_values(&self.kept)),
            Goal::Where(_) => End::NewList(copy_values(&self.kept)),
            Goal::Reduce(_) => End::Answer(Ok(self.kept[0])),
            Goal::ReduceFrom(_, _) => End::Answer(Ok(self.kept[0])),
            Goal::Join => End::NewText(copy_bytes(self.text.as_slice())),
            Goal::ShowList => {
                let mut text: Vec<u8> = copy_bytes(self.text.as_slice());
                append_bytes(&mut text, "]".as_bytes());
                End::NewText(text)
            },
            Goal::ShowMap => {
                let mut text: Vec<u8> = copy_bytes(self.text.as_slice());
                append_bytes(&mut text, "}".as_bytes());
                End::NewText(text)
            },
            _ => End::Answer(Ok(Value::null())),
        }
    }

    /// What the task does next, in the phase that it is in.
    fn settled(&self) -> (turn: Turn)
        requires
            self.phase is Visiting,
            self.goal is Reduce || self.goal is ReduceFrom ==> self.kept@.len() > 0,
        ensures
            turned(self.model(), turn, self.model().settle()),
    {
        if self.visited >= self.elements.len() {
            Turn::Ends(self.end())
        } else {
            Turn::Wants(self.ask())
        }
    }

    /// Go on once the elements are known.
    fn gather(&mut self, vm: &Vm) -> (turn: Turn)
        requires
            vm.wf(),
        ensures
            turned(final(self).model(), turn, old(self).model().gathered(vm)),
    {
        match self.goal {
            Goal::ToList => {
                return Turn::Ends(End::NewList(copy_values(&self.elements)));
            },
            Goal::Contains(wanted) => {
                let found = find_value(vm, &self.elements, wanted);
                return Turn::Ends(End::Answer(Ok(Value::bool(found.is_some()))));
            },
            _ => {},
        }
        self.phase = Phase::Visiting;
        self.visited = 0;
        match self.goal {
            Goal::Reduce(_) => {
                if self.elements.len() == 0 {
                    return Turn::Ends(
                        End::Answer(Err(RuntimeError::new("Can't reduce an empty sequence."))),
                    );
                }
                self.visited = 1;
                self.kept = just(self.elements[0]);
            },
            Goal::ReduceFrom(first, _) => {
                self.kept = just(first);
            },
            _ => {},
        }
        self.settled()
    }

    /// Start the task.
    pub fn begin(&mut self, vm: &Vm) -> (turn: Turn)
        requires
            vm.wf(),
            old(self).model().wf(),
        ensures
            turned(final(self).model(), turn, old(self).model().begun(vm)),
    {
        match self.phase {
            Phase::Gathered => self.gather(vm),
            _ => Turn::Wants(self.ask()),
        }
    }

    /// Go on once `iterate` returned something.
    fn on_iterate(&mut self, vm: &Vm, answer: Value) -> (turn: Turn)
        requires
            vm.wf(),
            old(self).phase is Iterating,
        ensures
            turned(final(self).model(), turn, old(self).model().iterated(vm, answer)),
    {
        let ended: bool = answer.is_falsy();
        match self.goal {
            Goal::Count => {
                if ended {
                    return Turn::Ends(End::Answer(Ok(Value::num(counted(self.visited)))));
                }
                self.iterator = answer;
                if self.visited < usize::MAX {
                    self.visited = self.visited + 1;
                }
                Turn::Wants(self.ask())
            },
            Goal::IsEmpty => Turn::Ends(End::Answer(Ok(Value::bool(ended)))),
            Goal::Seek(_) => {
                if ended {
                    return Turn::Ends(End::Answer(Ok(Value::bool(false))));
                }
                self.iterator = answer;
                self.phase = Phase::Reading;
                Turn::Wants(self.ask())
            },
            Goal::Skip(left) => {
                if ended || left == 0 {
                    return Turn::Ends(End::Answer(Ok(answer)));
                }
                self.iterator = answer;
                self.goal = Goal::Skip(left - 1);
                Turn::Wants(self.ask())
            },
            Goal::Pass | Goal::PassThrough(_) | Goal::Print | Goal::Write => Turn::Ends(
                End::Answer(Ok(answer)),
            ),
            _ => {
                if ended {
                    return self.gather(vm);
                }
                self.iterator = answer;
                self.phase = Phase::Reading;
                Turn::Wants(self.ask())
            },
        }
    }

    /// Go on once `iteratorValue` returned something.
    fn on_read(&mut self, answer: Value) -> (turn: Turn)
        requires
            old(self).phase is Reading,
        ensures
            turned(final(self).model(), turn, old(self).model().read(answer)),
    {
        match self.goal {
            Goal::PassThrough(_) | Goal::Seek(_) => {
                self.elements = just(answer);
                self.visited = 0;
                self.phase = Phase::Visiting;
                Turn::Wants(self.ask())
            },
            Goal::Pass | Goal::Print | Goal::Write | Goal::Count | Goal::IsEmpty
            | Goal::Skip(_) => Turn::Ends(End::Answer(Ok(answer))),
            _ => {
                self.elements.push(answer);
                self.phase = Phase::Iterating;
                Turn::Wants(self.ask())
            },
        }
    }

    /// Put an element's text after what there is.
    fn write_on(&mut self, vm: &Vm, answer: Value)
        requires
            vm.wf(),
        ensures
            final(self).model() == (TaskModel {
                text: old(self).model().text + old(self).model().lead() + encode_utf8(
                    spec_stringified(vm, answer),
                ),
                ..old(self).model()
            }),
    {
        let ghost before = self.model();
        let said = vm.stringified(answer);
        if self.visited == 0 {
            proof {
                assert(before.text + before.lead() =~= before.text);
            }
        } else {
            match self.goal {
                Goal::Join => append_bytes(&mut self.text, self.separator.as_slice()),
                Goal::ShowMap => if self.visited % 2 == 1 {
                    append_bytes(&mut self.text, ": ".as_bytes());
                } else {
                    append_bytes(&mut self.text, ", ".as_bytes());
                },
                _ => append_bytes(&mut self.text, ", ".as_bytes()),
            }
        }
        append_bytes(&mut self.text, said.as_str().as_bytes());
    }

    /// Go on once an element was visited.
    fn on_visit(&mut self, vm: &Vm, answer: Value) -> (turn: Turn)
        requires
            vm.wf(),
            old(self).phase is Visiting,
            old(self).model().wf(),
        ensures
            turned(final(self).model(), turn, old(self).model().visit(vm, answer)),
    {
        match self.goal {
            Goal::All(_) => {
                if answer.is_falsy() {
                    return Turn::Ends(End::Answer(Ok(Value::bool(false))));
                }
            },
            Goal::Any(_) => {
                if !answer.is_falsy() {
                    return Turn::Ends(End::Answer(Ok(Value::bool(true))));
                }
            },
            Goal::Apply(_) => {
                self.kept.push(answer);
            },
            Goal::Where(_) => {
                if !answer.is_falsy() {
                    let element = self.elements[self.visited];
                    self.kept.push(element);
                }
            },
            Goal::Reduce(_) | Goal::ReduceFrom(_, _) => {
                self.kept = just(answer);
            },
            Goal::Join | Goal::ShowList | Goal::ShowMap => {
                self.write_on(vm, answer);
            },
            Goal::Print => {
                let said = vm.stringified(answer);
                let mut text: Vec<u8> = copy_bytes(said.as_str().as_bytes());
                append_bytes(&mut text, "\n".as_bytes());
                return Turn::Ends(End::Printed { text, value: self.elements[self.visited] });
            },
            Goal::Write => {
                let said = vm.stringified(answer);
                let text: Vec<u8> = copy_bytes(said.as_str().as_bytes());
                return Turn::Ends(End::Printed { text, value: self.elements[self.visited] });
            },
            Goal::PassThrough(_) => {
                return Turn::Ends(End::Answer(Ok(answer)));
            },
            Goal::Seek(_) => {
                if answer.is_falsy() {
                    self.phase = Phase::Iterating;
                    return Turn::Wants(self.ask());
                }
                return Turn::Ends(End::Answer(Ok(self.iterator)));
            },
            _ => {},
        }
        let size: usize = self.elements.len();
        self.visited = self.visited + 1;
        self.settled()
    }

    /// Go on, told what came back.
    pub fn resume(&mut self, vm: &Vm, answer: Value) -> (turn: Turn)
        requires
            vm.wf(),
            old(self).model().wf(),
        ensures
            turned(final(self).model(), turn, old(self).model().resumed(vm, answer)),
    {
        match self.phase {
            Phase::Iterating => self.on_iterate(vm, answer),
            Phase::Reading => self.on_read(answer),
            Phase::Gathered => self.gather(vm),
            Phase::Visiting => self.on_visit(vm, answer),
        }
    }
}

} // verus!
