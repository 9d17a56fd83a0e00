//! What holds of whole tasks, whatever is called on the way.

use vstd::prelude::*;

use super::primitive::Primitive;
use super::reply::ReplyModel;
use super::tasks::{AskModel, EndModel, Goal, Phase, TaskModel, TurnModel};
use crate::value::Value;
use crate::vm::Vm;

verus! {

/// Where a task is once it was told a sequence of answers, each with the
/// machine as it was at the time.
pub open spec fn after(turn: TurnModel, heard: Seq<(Vm, Value)>) -> TurnModel
    decreases heard.len(),
{
    if heard.len() == 0 {
        turn
    } else {
        match after(turn, heard.drop_last()) {
            TurnModel::Goes(task) => task.resumed(&heard.last().0, heard.last().1),
            TurnModel::Ends(end) => TurnModel::Ends(end),
        }
    }
}

/// Every second answer: what `iteratorValue` returned.
pub open spec fn values_read(heard: Seq<(Vm, Value)>) -> Seq<Value> {
    Seq::new(heard.len() / 2, |i: int| heard[2 * i + 1].1)
}

/// What each answer was.
pub open spec fn answers(heard: Seq<(Vm, Value)>) -> Seq<Value> {
    Seq::new(heard.len(), |i: int| heard[i].1)
}

/// A task that lists a sequence first has, after so many elements, the values
/// that were read, in the order they were read in.
pub proof fn law_elements_come_in_order(task: TaskModel, heard: Seq<(Vm, Value)>)
    requires
        task.phase is Iterating,
        task.gathers(),
        heard.len() % 2 == 0,
        forall|i: int| 0 <= i < heard.len() / 2 ==> !(#[trigger] heard[2 * i]).1.spec_is_falsy(),
    ensures
        after(TurnModel::Goes(task), heard) == TurnModel::Goes(
            (TaskModel {
                elements: task.elements + values_read(heard),
                iterator: if heard.len() > 0 {
                    heard[heard.len() - 2].1
                } else {
                    task.iterator
                },
                ..task
            }),
        ),
    decreases heard.len(),
{
    if heard.len() == 0 {
        assert(task.elements + values_read(heard) =~= task.elements);
    } else {
        let earlier = heard.drop_last().drop_last();
        assert forall|i: int| 0 <= i < earlier.len() / 2 implies !(
        #[trigger] earlier[2 * i]).1.spec_is_falsy() by {
            assert(earlier[2 * i] == heard[2 * i]);
        }
        law_elements_come_in_order(task, earlier);
        let n = heard.len() / 2;
        assert(heard[2 * (n - 1)] == heard.drop_last().last());
        reveal_with_fuel(after, 3);
        assert(task.elements + values_read(heard) =~= (task.elements + values_read(earlier)).push(
            heard.last().1,
        ));
    }
}

/// Listing a sequence gives exactly what iterating it gave, in that order.
pub proof fn law_listing_gives_what_was_read(
    task: TaskModel,
    heard: Seq<(Vm, Value)>,
    vm: Vm,
    last: Value,
)
    requires
        task.phase is Iterating,
        task.goal is ToList,
        task.elements.len() == 0,
        heard.len() % 2 == 0,
        forall|i: int| 0 <= i < heard.len() / 2 ==> !(#[trigger] heard[2 * i]).1.spec_is_falsy(),
        last.spec_is_falsy(),
    ensures
        after(TurnModel::Goes(task), heard.push((vm, last))) == TurnModel::Ends(
            EndModel::NewList(values_read(heard)),
        ),
{
    law_elements_come_in_order(task, heard);
    assert(heard.push((vm, last)).drop_last() =~= heard);
    assert(task.elements + values_read(heard) =~= values_read(heard));
}

/// How far applying a function to each element has got.
proof fn lemma_applying(task: TaskModel, heard: Seq<(Vm, Value)>)
    requires
        task.phase is Visiting,
        task.goal is Apply,
        task.visited == 0,
        task.kept.len() == 0,
        heard.len() < task.elements.len(),
    ensures
        after(TurnModel::Goes(task), heard) == TurnModel::Goes(
            (TaskModel { visited: heard.len() as int, kept: answers(heard), ..task }),
        ),
    decreases heard.len(),
{
    if heard.len() == 0 {
        assert(answers(heard) =~= task.kept);
    } else {
        lemma_applying(task, heard.drop_last());
        assert(answers(heard) =~= answers(heard.drop_last()).push(heard.last().1));
    }
}

/// Applying a function to every element gives its results, one for each
/// element and in the elements' order.
pub proof fn law_applying_keeps_the_order(task: TaskModel, heard: Seq<(Vm, Value)>)
    requires
        task.phase is Visiting,
        task.goal is Apply,
        task.visited == 0,
        task.kept.len() == 0,
        0 < heard.len() == task.elements.len(),
    ensures
        after(TurnModel::Goes(task), heard) == TurnModel::Ends(EndModel::NewList(answers(heard))),
{
    lemma_applying(task, heard.drop_last());
    assert(answers(heard) =~= answers(heard.drop_last()).push(heard.last().1));
}

/// The elements that a function said yes to, among the first so many.
pub open spec fn approved(elements: Seq<Value>, heard: Seq<(Vm, Value)>) -> Seq<Value>
    decreases heard.len(),
{
    if heard.len() == 0 {
        Seq::empty()
    } else {
        let earlier = approved(elements, heard.drop_last());
        if heard.last().1.spec_is_falsy() {
            earlier
        } else {
            earlier.push(elements[heard.len() - 1])
        }
    }
}

/// How far keeping what a function says yes to has got.
proof fn lemma_selecting(task: TaskModel, heard: Seq<(Vm, Value)>)
    requires
        task.phase is Visiting,
        task.goal is Where,
        task.visited == 0,
        task.kept.len() == 0,
        heard.len() < task.elements.len(),
    ensures
        after(TurnModel::Goes(task), heard) == TurnModel::Goes(
            (TaskModel {
                visited: heard.len() as int,
                kept: approved(task.elements, heard),
                ..task
            }),
        ),
    decreases heard.len(),
{
    if heard.len() == 0 {
        assert(approved(task.elements, heard) =~= task.kept);
    } else {
        lemma_selecting(task, heard.drop_last());
    }
}

/// Selecting by a function keeps exactly the elements that it says yes to, in
/// the elements' order.
pub proof fn law_selecting_keeps_what_is_approved(task: TaskModel, heard: Seq<(Vm, Value)>)
    requires
        task.phase is Visiting,
        task.goal is Where,
        task.visited == 0,
        task.kept.len() == 0,
        0 < heard.len() == task.elements.len(),
    ensures
        after(TurnModel::Goes(task), heard) == TurnModel::Ends(
            EndModel::NewList(approved(task.elements, heard)),
        ),
{
    lemma_selecting(task, heard.drop_last());
}

/// How far counting has got.
proof fn lemma_counting(task: TaskModel, heard: Seq<(Vm, Value)>)
    requires
        task.phase is Iterating,
        task.goal is Count,
        task.visited == 0,
        heard.len() <= usize::MAX,
        forall|i: int| 0 <= i < heard.len() ==> !(#[trigger] heard[i]).1.spec_is_falsy(),
    ensures
        after(TurnModel::Goes(task), heard) == TurnModel::Goes(
            (TaskModel {
                visited: heard.len() as int,
                iterator: if heard.len() > 0 {
                    heard.last().1
                } else {
                    task.iterator
                },
                ..task
            }),
        ),
    decreases heard.len(),
{
    if heard.len() > 0 {
        assert forall|i: int| 0 <= i < heard.drop_last().len() implies !(
        #[trigger] heard.drop_last()[i]).1.spec_is_falsy() by {
            assert(heard.drop_last()[i] == heard[i]);
        }
        lemma_counting(task, heard.drop_last());
        assert(heard[heard.len() - 1] == heard.last());
    }
}

/// Counting a sequence gives the number of times that iterating it went on.
pub proof fn law_counting_counts_each_once(
    task: TaskModel,
    heard: Seq<(Vm, Value)>,
    vm: Vm,
    last: Value,
)
    requires
        task.phase is Iterating,
        task.goal is Count,
        task.visited == 0,
        heard.len() <= usize::MAX,
        forall|i: int| 0 <= i < heard.len() ==> !(#[trigger] heard[i]).1.spec_is_falsy(),
        last.spec_is_falsy(),
    ensures
        after(TurnModel::Goes(task), heard.push((vm, last))) == TurnModel::Ends(
            EndModel::Answer(Ok(Value::num(crate::number::tally(heard.len())))),
        ),
{
    lemma_counting(task, heard);
    assert(heard.push((vm, last)).drop_last() =~= heard);
}

/// Whether iterating a sequence gave exactly these elements, in this order: to
/// `iterate` it answered that there is one more, to `iteratorValue` the
/// element, and to `iterate` in the end that there is none.
pub open spec fn iterated(heard: Seq<(Vm, Value)>, elements: Seq<Value>) -> bool {
    &&& heard.len() == 2 * elements.len() + 1
    &&& forall|i: int| 0 <= i < elements.len() ==> !(#[trigger] heard[2 * i]).1.spec_is_falsy()
    &&& forall|i: int| 0 <= i < elements.len() ==> (#[trigger] heard[2 * i + 1]).1 == elements[i]
    &&& heard.last().1.spec_is_falsy()
}

/// A method of lists, or of sequences, that was called, and what it works on:
/// the elements that the list has, or that iterating the sequence gave.
pub struct Call {
    pub before: Vm,
    pub after: Vm,
    pub at: usize,
    /// Whether the receiver is a list; it is iterated otherwise.
    pub listed: bool,
    /// What iterating was answered.
    pub first: Seq<(Vm, Value)>,
    pub elements: Seq<Value>,
    /// What the method came to.
    pub task: TaskModel,
}

impl Call {
    /// Whether the call is one of a method, of lists or of sequences.
    pub open spec fn of(self, list: Primitive, sequence: Primitive) -> bool {
        &&& super::perform::performed(
            &self.before,
            &self.after,
            if self.listed {
                list
            } else {
                sequence
            },
            self.at,
            ReplyModel::Work(self.task),
        )
        &&& if self.listed {
            &&& self.first.len() == 0
            &&& super::lists::spec_elements(&self.before, self.argument(0)) == Some(self.elements)
        } else {
            iterated(self.first, self.elements)
        }
    }

    /// The receiver, or one of the arguments.
    pub open spec fn argument(self, index: int) -> Value {
        self.before.stack@[self.at + index]
    }

    /// Where the task is once the elements are known.
    pub open spec fn start(self) -> TurnModel {
        after(self.task.begun(&self.before), self.first)
    }

    /// Where the task is once so much was answered.
    pub open spec fn told(self, heard: Seq<(Vm, Value)>) -> TurnModel {
        after(self.start(), heard)
    }

    /// What the task wants called once so much was answered, if it goes on.
    pub open spec fn asks(self, heard: Seq<(Vm, Value)>) -> Option<AskModel> {
        match self.told(heard) {
            TurnModel::Goes(task) => Some(task.wants()),
            TurnModel::Ends(_) => None,
        }
    }

    /// Whether a function answered, each time it was called, what it is of what
    /// it was called with.
    pub open spec fn truthful(
        self,
        heard: Seq<(Vm, Value)>,
        function: Value,
        f: spec_fn(Seq<Value>) -> Value,
    ) -> bool {
        forall|k: int|
            0 <= k < heard.len() ==> is_answered(
                #[trigger] self.asks(heard.take(k)),
                function,
                f,
                heard[k].1,
            )
    }
}

/// Whether an answer is what a function is of what it was called with, if it
/// was called.
pub open spec fn is_answered(
    ask: Option<AskModel>,
    function: Value,
    f: spec_fn(Seq<Value>) -> Value,
    answer: Value,
) -> bool {
    match ask {
        Some(AskModel::Call { function: called, arguments }) => called == function ==> answer == f(
            arguments,
        ),
        _ => true,
    }
}

/// What a task holds once the elements are known.
proof fn lemma_elements_known(call: Call, list: Primitive, sequence: Primitive)
    requires
        call.of(list, sequence),
        call.task.elements == if call.listed {
            call.elements
        } else {
            Seq::empty()
        },
        call.listed ==> call.task.phase is Gathered,
        !call.listed ==> call.task.phase is Iterating,
        call.task.gathers(),
    ensures
        exists|task: TaskModel, vm: Vm| #[trigger] task.gathered(&vm) == call.start() && task
            == (TaskModel {
            elements: call.elements,
            phase: task.phase,
            iterator: task.iterator,
            ..call.task
        }),
{
    let task = call.task;
    if call.listed {
        assert(task.gathered(&call.before) == call.start());
        assert(task == (TaskModel {
            elements: call.elements,
            phase: task.phase,
            iterator: task.iterator,
            ..task
        }));
    } else {
        let heard = call.first.drop_last();
        assert forall|i: int| 0 <= i < heard.len() / 2 implies !(
        #[trigger] heard[2 * i]).1.spec_is_falsy() by {
            assert(heard[2 * i] == call.first[2 * i]);
        }
        law_elements_come_in_order(task, heard);
        assert(values_read(heard) =~= call.elements) by {
            assert forall|i: int| 0 <= i < call.elements.len() implies values_read(heard)[i]
                == call.elements[i] by {
                assert(heard[2 * i + 1] == call.first[2 * i + 1]);
            }
        }
        assert(task.elements + values_read(heard) =~= call.elements);
        let read = TaskModel {
            elements: call.elements,
            iterator: if heard.len() > 0 {
                heard[heard.len() - 2].1
            } else {
                task.iterator
            },
            ..task
        };
        assert(call.start() == read.gathered(&call.first.last().0));
    }
}

/// A function of a run of arguments as one of two.
pub open spec fn of_two(f: spec_fn(Seq<Value>) -> Value) -> spec_fn(Value, Value) -> Value {
    |a: Value, b: Value| f(seq![a, b])
}

/// A function of a run of arguments as one of one.
pub open spec fn of_one(f: spec_fn(Seq<Value>) -> Value) -> spec_fn(Value) -> Value {
    |a: Value| f(seq![a])
}

/// What holds of answers holds of the earlier ones.
proof fn lemma_truthful_earlier(
    call: Call,
    heard: Seq<(Vm, Value)>,
    function: Value,
    f: spec_fn(Seq<Value>) -> Value,
)
    requires
        heard.len() > 0,
        call.truthful(heard, function, f),
    ensures
        call.truthful(heard.drop_last(), function, f),
        is_answered(call.asks(heard.drop_last()), function, f, heard.last().1),
{
    let earlier = heard.drop_last();
    assert(heard.take(heard.len() - 1) =~= earlier);
    assert forall|k: int| 0 <= k < earlier.len() implies is_answered(
        #[trigger] call.asks(earlier.take(k)),
        function,
        f,
        earlier[k].1,
    ) by {
        assert(earlier.take(k) =~= heard.take(k));
    }
    let k = heard.len() - 1;
    assert(call.asks(heard.take(k)) == call.asks(earlier));
}

/// How far combining elements has got.
proof fn lemma_reducing(
    call: Call,
    task: TaskModel,
    heard: Seq<(Vm, Value)>,
    function: Value,
    f: spec_fn(Seq<Value>) -> Value,
)
    requires
        call.start() == task.settle(),
        task.phase is Visiting,
        task.goal == Goal::Reduce(function) || (task.goal matches Goal::ReduceFrom(_, g) && g
            == function),
        task.elements == call.elements,
        0 <= task.visited,
        task.visited + heard.len() <= call.elements.len(),
        task.kept.len() == 1,
        call.truthful(heard, function, f),
    ensures
        ({
            let total = call.elements.subrange(
                task.visited,
                task.visited + heard.len(),
            ).fold_left(task.kept[0], of_two(f));
            let told = TaskModel {
                visited: task.visited + heard.len(),
                kept: seq![total],
                ..task
            };
            call.told(heard) == told.settle()
        }),
    decreases heard.len(),
{
    let v = task.visited;
    let n = heard.len() as int;
    let part = call.elements.subrange(v, v + n);
    if n == 0 {
        assert(task.kept =~= seq![part.fold_left(task.kept[0], of_two(f))]);
        assert(task =~= TaskModel {
            visited: v,
            kept: seq![part.fold_left(task.kept[0], of_two(f))],
            ..task
        });
    } else {
        let earlier = heard.drop_last();
        lemma_truthful_earlier(call, heard, function, f);
        lemma_reducing(call, task, earlier, function, f);
        assert(part.drop_last() =~= call.elements.subrange(v, v + n - 1));
        let so_far = part.drop_last().fold_left(task.kept[0], of_two(f));
        assert(call.asks(earlier) == Some(
            AskModel::Call { function, arguments: seq![so_far, call.elements[v + n - 1]] },
        ));
        assert(part.last() == call.elements[v + n - 1]);
    }
}

/// Reducing is a fold from the left: the function is called with what it gave
/// last and the next element, beginning with the first two, and what it gives
/// last is the answer.
pub proof fn law_reducing_folds_from_the_left(
    call: Call,
    heard: Seq<(Vm, Value)>,
    f: spec_fn(Seq<Value>) -> Value,
)
    requires
        call.of(Primitive::ListReduce, Primitive::SequenceReduce),
        call.truthful(heard, call.argument(1), f),
        call.elements.len() == heard.len() + 1,
    ensures
        call.told(heard) == TurnModel::Ends(
            EndModel::Answer(
                Ok(call.elements.skip(1).fold_left(call.elements[0], |a: Value, b: Value| f(seq![a, b]))),
            ),
        ),
        forall|k: int|
            0 <= k < heard.len() ==> #[trigger] call.asks(heard.take(k)) == Some(
                AskModel::Call {
                    function: call.argument(1),
                    arguments: seq![
                        call.elements.subrange(1, k + 1).fold_left(
                            call.elements[0],
                            |a: Value, b: Value| f(seq![a, b]),
                        ),
                        call.elements[k + 1],
                    ],
                },
            ),
{
    lemma_elements_known(call, Primitive::ListReduce, Primitive::SequenceReduce);
    let (task, vm) = choose|task: TaskModel, vm: Vm| #[trigger]
        task.gathered(&vm) == call.start() && task == (TaskModel {
            elements: call.elements,
            phase: task.phase,
            iterator: task.iterator,
            ..call.task
        });
    let begun = TaskModel {
        phase: Phase::Visiting,
        visited: 1,
        kept: seq![call.elements[0]],
        ..task
    };
    let function = call.argument(1);
    assert(of_two(f) =~= |a: Value, b: Value| f(seq![a, b]));
    lemma_reducing(call, begun, heard, function, f);
    assert(call.elements.skip(1) =~= call.elements.subrange(1, 1 + heard.len() as int));
    assert forall|k: int| 0 <= k < heard.len() implies #[trigger] call.asks(heard.take(k))
        == Some(
        AskModel::Call {
            function: call.argument(1),
            arguments: seq![
                call.elements.subrange(1, k + 1).fold_left(
                    call.elements[0],
                    |a: Value, b: Value| f(seq![a, b]),
                ),
                call.elements[k + 1],
            ],
        },
    ) by {
        let part = heard.take(k);
        lemma_truthful_part(call, heard, k, function, f);
        lemma_reducing(call, begun, part, function, f);
    }
}

/// What holds of answers holds of the first so many.
proof fn lemma_truthful_part(
    call: Call,
    heard: Seq<(Vm, Value)>,
    n: int,
    function: Value,
    f: spec_fn(Seq<Value>) -> Value,
)
    requires
        0 <= n <= heard.len(),
        call.truthful(heard, function, f),
    ensures
        call.truthful(heard.take(n), function, f),
{
    let part = heard.take(n);
    assert forall|k: int| 0 <= k < part.len() implies is_answered(
        #[trigger] call.asks(part.take(k)),
        function,
        f,
        part[k].1,
    ) by {
        assert(part.take(k) =~= heard.take(k));
    }
}

/// Reducing from a value is the same fold, beginning with that value and the
/// first element.
pub proof fn law_reducing_from_a_value_folds_from_the_left(
    call: Call,
    heard: Seq<(Vm, Value)>,
    f: spec_fn(Seq<Value>) -> Value,
)
    requires
        call.of(Primitive::ListReduceFrom, Primitive::SequenceReduceFrom),
        call.truthful(heard, call.argument(2), f),
        call.elements.len() == heard.len(),
    ensures
        call.told(heard) == TurnModel::Ends(
            EndModel::Answer(
                Ok(call.elements.fold_left(call.argument(1), |a: Value, b: Value| f(seq![a, b]))),
            ),
        ),
        forall|k: int|
            0 <= k < heard.len() ==> #[trigger] call.asks(heard.take(k)) == Some(
                AskModel::Call {
                    function: call.argument(2),
                    arguments: seq![
                        call.elements.subrange(0, k).fold_left(
                            call.argument(1),
                            |a: Value, b: Value| f(seq![a, b]),
                        ),
                        call.elements[k],
                    ],
                },
            ),
{
    lemma_elements_known(call, Primitive::ListReduceFrom, Primitive::SequenceReduceFrom);
    let (task, vm) = choose|task: TaskModel, vm: Vm| #[trigger]
        task.gathered(&vm) == call.start() && task == (TaskModel {
            elements: call.elements,
            phase: task.phase,
            iterator: task.iterator,
            ..call.task
        });
    let begun = TaskModel {
        phase: Phase::Visiting,
        visited: 0,
        kept: seq![call.argument(1)],
        ..task
    };
    let function = call.argument(2);
    assert(of_two(f) =~= |a: Value, b: Value| f(seq![a, b]));
    lemma_reducing(call, begun, heard, function, f);
    assert(call.elements =~= call.elements.subrange(0, heard.len() as int));
    assert forall|k: int| 0 <= k < heard.len() implies #[trigger] call.asks(heard.take(k))
        == Some(
        AskModel::Call {
            function: call.argument(2),
            arguments: seq![
                call.elements.subrange(0, k).fold_left(
                    call.argument(1),
                    |a: Value, b: Value| f(seq![a, b]),
                ),
                call.elements[k],
            ],
        },
    ) by {
        lemma_truthful_part(call, heard, k, function, f);
        lemma_reducing(call, begun, heard.take(k), function, f);
    }
}

/// How far calling a function with one element after the other has got.
proof fn lemma_calling(
    call: Call,
    task: TaskModel,
    heard: Seq<(Vm, Value)>,
    function: Value,
    f: spec_fn(Seq<Value>) -> Value,
)
    requires
        call.start() == task.settle(),
        task.phase is Visiting,
        task.goal == Goal::Each(function) || task.goal == Goal::All(function) || task.goal
            == Goal::Any(function) || task.goal == Goal::Apply(function) || task.goal
            == Goal::Where(function),
        task.elements == call.elements,
        task.visited == 0,
        task.kept.len() == 0,
        heard.len() <= call.elements.len(),
        call.truthful(heard, function, f),
        forall|k: int|
            0 <= k < heard.len() ==> {
                &&& task.goal is All ==> !of_one(f)(#[trigger] call.elements[k]).spec_is_falsy()
                &&& task.goal is Any ==> of_one(f)(call.elements[k]).spec_is_falsy()
            },
    ensures
        ({
            let told = TaskModel {
                visited: heard.len() as int,
                kept: if task.goal is Apply {
                    call.elements.take(heard.len() as int).map_values(of_one(f))
                } else if task.goal is Where {
                    call.elements.take(heard.len() as int).filter(chosen(f))
                } else {
                    task.kept
                },
                ..task
            };
            call.told(heard) == told.settle()
        }),
        forall|k: int|
            0 <= k < heard.len() ==> #[trigger] call.asks(heard.take(k)) == Some(
                AskModel::Call { function, arguments: seq![call.elements[k]] },
            ),
    decreases heard.len(),
{
    let n = heard.len() as int;
    let part = call.elements.take(n);
    reveal(Seq::filter);
    if n == 0 {
        assert(part.map_values(of_one(f)) =~= task.kept);
        assert(part.filter(chosen(f)) =~= task.kept);
    } else {
        let earlier = heard.drop_last();
        lemma_truthful_earlier(call, heard, function, f);
        lemma_calling(call, task, earlier, function, f);
        let element = call.elements[n - 1];
        assert(part.drop_last() =~= call.elements.take(n - 1));
        assert(part.last() == element);
        assert(call.asks(earlier) == Some(
            AskModel::Call { function, arguments: seq![element] },
        ));
        assert(heard.last().1 == of_one(f)(element));
        assert(part.map_values(of_one(f)) =~= part.drop_last().map_values(of_one(f)).push(
            of_one(f)(element),
        ));
        assert forall|k: int| 0 <= k < heard.len() implies #[trigger] call.asks(heard.take(k))
            == Some(AskModel::Call { function, arguments: seq![call.elements[k]] }) by {
            if k < n - 1 {
                assert(heard.take(k) =~= earlier.take(k));
            } else {
                assert(heard.take(k) =~= earlier);
            }
        }
    }
}

/// The elements that a function is true of.
pub open spec fn chosen(f: spec_fn(Seq<Value>) -> Value) -> spec_fn(Value) -> bool {
    |element: Value| !f(seq![element]).spec_is_falsy()
}

/// The task of a call once the elements are known, and none was visited.
proof fn lemma_visiting(call: Call, list: Primitive, sequence: Primitive) -> (task: TaskModel)
    requires
        call.of(list, sequence),
        call.task.elements == if call.listed {
            call.elements
        } else {
            Seq::empty()
        },
        call.listed ==> call.task.phase is Gathered,
        !call.listed ==> call.task.phase is Iterating,
        call.task.gathers(),
        !(call.task.goal is ToList || call.task.goal is Contains || call.task.goal is Reduce
            || call.task.goal is ReduceFrom),
    ensures
        call.start() == task.settle(),
        task == (TaskModel {
            elements: call.elements,
            phase: Phase::Visiting,
            visited: 0,
            iterator: task.iterator,
            ..call.task
        }),
{
    lemma_elements_known(call, list, sequence);
    let (known, vm) = choose|task: TaskModel, vm: Vm| #[trigger]
        task.gathered(&vm) == call.start() && task == (TaskModel {
            elements: call.elements,
            phase: task.phase,
            iterator: task.iterator,
            ..call.task
        });
    TaskModel { phase: Phase::Visiting, visited: 0, ..known }
}

/// Whether a function is true of every element is asked of each in turn, as
/// long as it is; the answer is whether it was.
pub proof fn law_all_is_whether_it_is_true_of_each(
    call: Call,
    heard: Seq<(Vm, Value)>,
    f: spec_fn(Seq<Value>) -> Value,
)
    requires
        call.of(Primitive::ListAll, Primitive::SequenceAll),
        call.truthful(heard, call.argument(1), f),
        heard.len() <= call.elements.len(),
        forall|k: int|
            0 <= k < heard.len() - 1 ==> !f(
                seq![#[trigger] call.elements[k]],
            ).spec_is_falsy(),
    ensures
        heard.len() > 0 && f(seq![call.elements[heard.len() - 1]]).spec_is_falsy() ==> call.told(
            heard,
        ) == TurnModel::Ends(EndModel::Answer(Ok(Value::bool(false)))),
        heard.len() == call.elements.len() && (forall|k: int|
            0 <= k < call.elements.len() ==> !f(
                seq![#[trigger] call.elements[k]],
            ).spec_is_falsy()) ==> call.told(heard) == TurnModel::Ends(
            EndModel::Answer(Ok(Value::bool(true))),
        ),
        forall|k: int|
            0 <= k < heard.len() ==> #[trigger] call.asks(heard.take(k)) == Some(
                AskModel::Call {
                    function: call.argument(1),
                    arguments: seq![call.elements[k]],
                },
            ),
{
    let task = lemma_visiting(call, Primitive::ListAll, Primitive::SequenceAll);
    lemma_asking(call, task, heard, call.argument(1), f);
}

/// Whether a function is true of some element is asked of each in turn, until
/// it is; the answer is whether it was.
pub proof fn law_any_is_whether_it_is_true_of_one(
    call: Call,
    heard: Seq<(Vm, Value)>,
    f: spec_fn(Seq<Value>) -> Value,
)
    requires
        call.of(Primitive::ListAny, Primitive::SequenceAny),
        call.truthful(heard, call.argument(1), f),
        heard.len() <= call.elements.len(),
        forall|k: int|
            0 <= k < heard.len() - 1 ==> f(seq![#[trigger] call.elements[k]]).spec_is_falsy(),
    ensures
        heard.len() > 0 && !f(seq![call.elements[heard.len() - 1]]).spec_is_falsy() ==> call.told(
            heard,
        ) == TurnModel::Ends(EndModel::Answer(Ok(Value::bool(true)))),
        heard.len() == call.elements.len() && (forall|k: int|
            0 <= k < call.elements.len() ==> f(
                seq![#[trigger] call.elements[k]],
            ).spec_is_falsy()) ==> call.told(heard) == TurnModel::Ends(
            EndModel::Answer(Ok(Value::bool(false))),
        ),
        forall|k: int|
            0 <= k < heard.len() ==> #[trigger] call.asks(heard.take(k)) == Some(
                AskModel::Call {
                    function: call.argument(1),
                    arguments: seq![call.elements[k]],
                },
            ),
{
    let task = lemma_visiting(call, Primitive::ListAny, Primitive::SequenceAny);
    lemma_asking(call, task, heard, call.argument(1), f);
}

/// How a question that is asked of one element after the other is settled.
proof fn lemma_asking(
    call: Call,
    task: TaskModel,
    heard: Seq<(Vm, Value)>,
    function: Value,
    f: spec_fn(Seq<Value>) -> Value,
)
    requires
        call.start() == task.settle(),
        task.phase is Visiting,
        task.goal == Goal::All(function) || task.goal == Goal::Any(function),
        task.elements == call.elements,
        task.visited == 0,
        task.kept.len() == 0,
        heard.len() <= call.elements.len(),
        call.truthful(heard, function, f),
        forall|k: int|
            0 <= k < heard.len() - 1 ==> f(seq![#[trigger] call.elements[k]]).spec_is_falsy() == (
            task.goal is Any),
    ensures
        heard.len() > 0 && f(seq![call.elements[heard.len() - 1]]).spec_is_falsy() != (
        task.goal is Any) ==> call.told(heard) == TurnModel::Ends(
            EndModel::Answer(Ok(Value::bool(task.goal is Any))),
        ),
        heard.len() == call.elements.len() && (forall|k: int|
            0 <= k < call.elements.len() ==> f(
                seq![#[trigger] call.elements[k]],
            ).spec_is_falsy() == (task.goal is Any)) ==> call.told(heard) == TurnModel::Ends(
            EndModel::Answer(Ok(Value::bool(!(task.goal is Any)))),
        ),
        forall|k: int|
            0 <= k < heard.len() ==> #[trigger] call.asks(heard.take(k)) == Some(
                AskModel::Call { function, arguments: seq![call.elements[k]] },
            ),
{
    if heard.len() == 0 {
        assert(call.told(heard) == task.settle());
    } else {
        let earlier = heard.drop_last();
        lemma_truthful_earlier(call, heard, function, f);
        lemma_calling(call, task, earlier, function, f);
        let n = heard.len() as int;
        let element = call.elements[n - 1];
        assert(call.asks(earlier) == Some(AskModel::Call { function, arguments: seq![element] }));
        assert forall|k: int| 0 <= k < heard.len() implies #[trigger] call.asks(heard.take(k))
            == Some(AskModel::Call { function, arguments: seq![call.elements[k]] }) by {
            if k < n - 1 {
                assert(heard.take(k) =~= earlier.take(k));
            } else {
                assert(heard.take(k) =~= earlier);
            }
        }
    }
}

/// A function is called with each element once, in order, and nothing comes of
/// it.
pub proof fn law_each_calls_with_every_element(
    call: Call,
    heard: Seq<(Vm, Value)>,
    f: spec_fn(Seq<Value>) -> Value,
)
    requires
        call.of(Primitive::ListEach, Primitive::SequenceEach),
        call.truthful(heard, call.argument(1), f),
        heard.len() == call.elements.len(),
    ensures
        call.told(heard) == TurnModel::Ends(EndModel::Answer(Ok(Value::null()))),
        forall|k: int|
            0 <= k < heard.len() ==> #[trigger] call.asks(heard.take(k)) == Some(
                AskModel::Call {
                    function: call.argument(1),
                    arguments: seq![call.elements[k]],
                },
            ),
{
    let task = lemma_visiting(call, Primitive::ListEach, Primitive::SequenceEach);
    lemma_calling(call, task, heard, call.argument(1), f);
}

/// Mapping a list gives what the function is of each element, in order.
pub proof fn law_mapping_a_list(
    call: Call,
    heard: Seq<(Vm, Value)>,
    f: spec_fn(Seq<Value>) -> Value,
)
    requires
        call.listed,
        call.of(Primitive::ListMap, Primitive::ListMap),
        call.truthful(heard, call.argument(1), f),
        heard.len() == call.elements.len(),
    ensures
        call.told(heard) == TurnModel::Ends(
            EndModel::NewList(Seq::new(call.elements.len(), |k: int| f(seq![call.elements[k]]))),
        ),
{
    let task = lemma_visiting(call, Primitive::ListMap, Primitive::ListMap);
    lemma_calling(call, task, heard, call.argument(1), f);
    assert(call.elements.take(heard.len() as int) =~= call.elements);
    assert(call.elements.map_values(of_one(f)) =~= Seq::new(
        call.elements.len(),
        |k: int| f(seq![call.elements[k]]),
    ));
}

/// Selecting from a list gives exactly the elements that the function is true
/// of, in order.
pub proof fn law_selecting_from_a_list(
    call: Call,
    heard: Seq<(Vm, Value)>,
    f: spec_fn(Seq<Value>) -> Value,
)
    requires
        call.listed,
        call.of(Primitive::ListWhere, Primitive::ListWhere),
        call.truthful(heard, call.argument(1), f),
        heard.len() == call.elements.len(),
    ensures
        call.told(heard) == TurnModel::Ends(
            EndModel::NewList(
                call.elements.filter(|element: Value| !f(seq![element]).spec_is_falsy()),
            ),
        ),
{
    let task = lemma_visiting(call, Primitive::ListWhere, Primitive::ListWhere);
    lemma_calling(call, task, heard, call.argument(1), f);
    assert(call.elements.take(heard.len() as int) =~= call.elements);
    assert(chosen(f) =~= |element: Value| !f(seq![element]).spec_is_falsy());
}

} // verus!
