//! What holds of the methods of sequences: how they are iterated, put together
//! as text, and looked at through views.

use vstd::prelude::*;
use vstd::utf8::*;

use super::object_laws;
use super::primitive::Primitive;
use super::reply::ReplyModel;
use super::task_laws;
use super::task_laws::Call;
use super::tasks::{AskModel, EndModel, Goal, Phase, TaskModel, TurnModel};
use crate::value::Value;
use crate::vm::Vm;

verus! {

/// What a task wants called, where it goes on.
pub open spec fn asked(turn: TurnModel) -> Option<AskModel> {
    match turn {
        TurnModel::Goes(task) => Some(task.wants()),
        TurnModel::Ends(_) => None,
    }
}

/// Whether a task calls a method of a value by a signature, with these
/// arguments.
pub open spec fn invokes(
    turn: TurnModel,
    receiver: Value,
    signature: Seq<char>,
    arguments: Seq<Value>,
) -> bool {
    match asked(turn) {
        Some(AskModel::Invoke { receiver: asked, message, arguments: given }) => {
            &&& asked == receiver
            &&& message.spec_signature() == signature
            &&& given == arguments
        },
        _ => false,
    }
}

/// Whether a task calls a function with one argument.
pub open spec fn applies(turn: TurnModel, function: Value, argument: Value) -> bool {
    asked(turn) == Some((AskModel::Call { function, arguments: seq![argument] }))
}

/// Whether a task comes to a value.
pub open spec fn answers(turn: TurnModel, value: Value) -> bool {
    turn == TurnModel::Ends(EndModel::Answer(Ok(value)))
}

/// Whether a method works through all elements of a sequence.
pub open spec fn works_through(p: Primitive) -> bool {
    match p {
        Primitive::SequenceEach | Primitive::SequenceToList | Primitive::SequenceContains
        | Primitive::SequenceAll | Primitive::SequenceAny | Primitive::SequenceReduce
        | Primitive::SequenceReduceFrom | Primitive::SequenceJoin
        | Primitive::SequenceJoinWith => true,
        _ => false,
    }
}

/// A method that works through a sequence begins by calling `iterate` on it
/// with null, and goes on with what that gave each time: first it calls
/// `iteratorValue` with it, then `iterate` with it again.
pub proof fn law_sequences_are_iterated(call: Call, p: Primitive, heard: Seq<(Vm, Value)>, vm: Vm, iterator: Value)
    requires
        super::perform::performed(
            &call.before,
            &call.after,
            p,
            call.at,
            ReplyModel::Work(call.task),
        ),
        works_through(p),
        heard.len() % 2 == 0,
        forall|i: int| 0 <= i < heard.len() / 2 ==> !(#[trigger] heard[2 * i]).1.spec_is_falsy(),
    ensures
        invokes(
            task_laws::after(call.task.begun(&call.before), heard),
            call.argument(0),
            "iterate(_)"@,
            seq![
                if heard.len() == 0 {
                    Value::null()
                } else {
                    heard[heard.len() - 2].1
                },
            ],
        ),
        !iterator.spec_is_falsy() ==> invokes(
            task_laws::after(call.task.begun(&call.before), heard.push((vm, iterator))),
            call.argument(0),
            "iteratorValue(_)"@,
            seq![iterator],
        ),
{
    task_laws::law_elements_come_in_order(call.task, heard);
    assert(heard.push((vm, iterator)).drop_last() =~= heard);
}

/// A sequence contains a value where one of the elements equals it.
pub proof fn law_containing_is_having_an_equal_element(call: Call)
    requires
        call.of(Primitive::SequenceContains, Primitive::SequenceContains),
        !call.listed,
    ensures
        answers(
            call.start(),
            Value::bool(
                exists|i: int|
                    0 <= i < call.elements.len() && #[trigger] super::equality::spec_values_equal(
                        &call.first.last().0,
                        call.elements[i],
                        call.argument(1),
                    ),
            ),
        ),
{
    let task = call.task;
    let heard = call.first.drop_last();
    assert forall|i: int| 0 <= i < heard.len() / 2 implies !(
    #[trigger] heard[2 * i]).1.spec_is_falsy() by {
        assert(heard[2 * i] == call.first[2 * i]);
    }
    task_laws::law_elements_come_in_order(task, heard);
    assert(task_laws::values_read(heard) =~= call.elements) by {
        assert forall|i: int| 0 <= i < call.elements.len() implies task_laws::values_read(heard)[i]
            == call.elements[i] by {
            assert(heard[2 * i + 1] == call.first[2 * i + 1]);
        }
    }
    assert(task.elements + task_laws::values_read(heard) =~= call.elements);
    super::list_methods::law_first_equal(
        &call.first.last().0,
        call.elements,
        call.argument(1),
        0,
    );
}

/// The text that came back when a value was asked for it.
pub open spec fn told_text(answer: (Vm, Value)) -> Seq<u8> {
    encode_utf8(super::tasks::spec_stringified(&answer.0, answer.1))
}

/// The texts that came back.
pub open spec fn told_texts(heard: Seq<(Vm, Value)>) -> Seq<Seq<u8>> {
    heard.map_values(|answer: (Vm, Value)| told_text(answer))
}

/// One piece more comes behind a separator.
proof fn lemma_joined_on(pieces: Seq<Seq<u8>>, separator: Seq<u8>, piece: Seq<u8>)
    ensures
        super::string_laws::joined(pieces.push(piece), separator) == if pieces.len() == 0 {
            piece
        } else {
            super::string_laws::joined(pieces, separator) + separator + piece
        },
    decreases pieces.len(),
{
    let more = pieces.push(piece);
    if pieces.len() == 1 {
        assert(more.drop_first() =~= seq![piece]);
        assert(super::string_laws::joined(seq![piece], separator) == piece);
    } else if pieces.len() > 1 {
        let rest = pieces.drop_first();
        lemma_joined_on(rest, separator, piece);
        assert(more.drop_first() =~= rest.push(piece));
        assert(super::string_laws::joined(more, separator) =~= super::string_laws::joined(
            pieces,
            separator,
        ) + separator + piece);
    }
}

/// How far putting elements together as text has got.
proof fn lemma_joining(task: TaskModel, heard: Seq<(Vm, Value)>, between: Seq<u8>)
    requires
        task.phase is Visiting,
        task.goal is Join || task.goal is ShowList,
        task.visited == 0,
        between == if task.goal is Join {
            task.separator
        } else {
            encode_utf8(", "@)
        },
        heard.len() <= task.elements.len(),
        task.elements.len() > 0,
    ensures
        task_laws::after(TurnModel::Goes(task), heard) == (TaskModel {
            visited: heard.len() as int,
            text: task.text + super::string_laws::joined(told_texts(heard), between),
            ..task
        }).settle(),
    decreases heard.len(),
{
    if heard.len() == 0 {
        assert(task.text + super::string_laws::joined(told_texts(heard), between) =~= task.text);
    } else {
        let earlier = heard.drop_last();
        lemma_joining(task, earlier, between);
        assert(told_texts(heard) =~= told_texts(earlier).push(told_text(heard.last())));
        lemma_joined_on(told_texts(earlier), between, told_text(heard.last()));
        let text = task.text + super::string_laws::joined(told_texts(heard), between);
        let at = TaskModel {
            visited: earlier.len() as int,
            text: task.text + super::string_laws::joined(told_texts(earlier), between),
            ..task
        };
        assert(at.text + at.lead() + told_text(heard.last()) =~= text) by {
            if earlier.len() == 0 {
                assert(told_texts(earlier) =~= Seq::<Seq<u8>>::empty());
            }
        }
    }
}

/// Elements put together as text are what each gave when it was asked for its
/// text, with the separator between each two.
pub proof fn law_joining_puts_the_texts_together(call: Call, heard: Seq<(Vm, Value)>)
    requires
        call.of(Primitive::ListJoinWith, Primitive::ListJoinWith) || call.of(
            Primitive::ListJoin,
            Primitive::ListJoin,
        ) || call.of(Primitive::ListToString, Primitive::ListToString),
        call.listed,
        heard.len() <= call.elements.len(),
        call.elements.len() > 0,
    ensures
        heard.len() < call.elements.len() ==> invokes(
            call.told(heard),
            call.elements[heard.len() as int],
            "toString"@,
            Seq::empty(),
        ),
        heard.len() == call.elements.len() && call.of(
            Primitive::ListJoinWith,
            Primitive::ListJoinWith,
        ) ==> call.told(heard) == TurnModel::Ends(
            EndModel::NewText(
                super::string_laws::joined(
                    told_texts(heard),
                    super::string_methods::text_bytes(&call.before, call.argument(1)),
                ),
            ),
        ),
        heard.len() == call.elements.len() && call.of(Primitive::ListJoin, Primitive::ListJoin)
            ==> call.told(heard) == TurnModel::Ends(
            EndModel::NewText(super::string_laws::joined(told_texts(heard), Seq::empty())),
        ),
        heard.len() == call.elements.len() && call.of(
            Primitive::ListToString,
            Primitive::ListToString,
        ) ==> call.told(heard) == TurnModel::Ends(
            EndModel::NewText(
                encode_utf8("["@) + super::string_laws::joined(
                    told_texts(heard),
                    encode_utf8(", "@),
                ) + encode_utf8("]"@),
            ),
        ),
{
    let task = TaskModel { phase: Phase::Visiting, visited: 0, ..call.task };
    assert(task_laws::after(call.task.begun(&call.before), call.first) == call.task.begun(
        &call.before,
    ));
    assert(call.start() == TurnModel::Goes(task));
    let between = if task.goal is Join {
        task.separator
    } else {
        encode_utf8(", "@)
    };
    lemma_joining(task, heard, between);
    let joined = super::string_laws::joined(told_texts(heard), between);
    assert(Seq::<u8>::empty() + joined =~= joined);
}

/// Printing a value asks it for its text, and prints that, with the end of the
/// line or without; the value is what it comes to.
pub proof fn law_printing_prints_the_text(call: object_laws::Call, vm: Vm, answer: Value)
    requires
        call.of(Primitive::SystemPrint, 1) || call.of(Primitive::SystemWrite, 1),
    ensures
        call.reply is Work,
        ({
            let task = call.reply->Work_0;
            let text = told_text((vm, answer));
            &&& invokes(
                task.begun(&call.before),
                call.argument(1),
                "toString"@,
                Seq::empty(),
            )
            &&& task_laws::after(task.begun(&call.before), seq![(vm, answer)])
                == TurnModel::Ends(
                EndModel::Printed {
                    text: if call.of(Primitive::SystemPrint, 1) {
                        text + encode_utf8("\n"@)
                    } else {
                        text
                    },
                    value: call.argument(1),
                },
            )
        }),
{
    let task = call.reply->Work_0;
    let heard = seq![(vm, answer)];
    assert(heard.drop_last() =~= Seq::<(Vm, Value)>::empty());
    reveal_with_fuel(task_laws::after, 2);
}

/// A view of a sequence that was made, and a method of it that was called with
/// an iterator.
pub struct Looking {
    pub made: object_laws::Call,
    pub called: object_laws::Call,
}

impl Looking {
    /// Whether the view was made by a method, and then one of its own was
    /// called.
    pub open spec fn of(self, maker: Primitive, p: Primitive) -> bool {
        &&& self.made.of(maker, 1)
        &&& self.made.reply is Done && self.made.reply->Done_0 is Ok
        &&& self.called.of(p, 1)
        &&& self.called.before.heap@ == self.made.after.heap@
        &&& self.called.argument(0) == self.made.value()
    }

    /// The sequence that the view is of.
    pub open spec fn sequence(self) -> Value {
        self.made.argument(0)
    }

    /// What the view was made with.
    pub open spec fn with(self) -> Value {
        self.made.argument(1)
    }

    /// The iterator that its method was called with.
    pub open spec fn iterator(self) -> Value {
        self.called.argument(1)
    }

    /// Where the work of the method is once it was told so much.
    pub open spec fn told(self, heard: Seq<(Vm, Value)>) -> TurnModel {
        task_laws::after(self.called.reply->Work_0.begun(&self.called.before), heard)
    }
}

/// What one answer leads to.
proof fn lemma_told(view: Looking, heard: Seq<(Vm, Value)>, answer: (Vm, Value))
    ensures
        view.told(heard.push(answer)) == match view.told(heard) {
            TurnModel::Goes(task) => task.resumed(&answer.0, answer.1),
            TurnModel::Ends(end) => TurnModel::Ends(end),
        },
{
    assert(heard.push(answer).drop_last() =~= heard);
}

/// A view that maps goes where its sequence goes, and gives what its function
/// makes of each element.
pub proof fn law_mapped_view_gives_what_the_function_makes(
    view: Looking,
    first: (Vm, Value),
    second: (Vm, Value),
)
    ensures
        view.of(Primitive::SequenceMap, Primitive::MapSequenceIterate) ==> {
            &&& invokes(view.told(seq![]), view.sequence(), "iterate(_)"@, seq![view.iterator()])
            &&& answers(view.told(seq![first]), first.1)
        },
        view.of(Primitive::SequenceMap, Primitive::MapSequenceIteratorValue) ==> {
            &&& invokes(
                view.told(seq![]),
                view.sequence(),
                "iteratorValue(_)"@,
                seq![view.iterator()],
            )
            &&& applies(view.told(seq![first]), view.with(), first.1)
            &&& answers(view.told(seq![first, second]), second.1)
        },
{
    broadcast use crate::value::law_object_round_trip;

    lemma_told(view, seq![], first);
    lemma_told(view, seq![first], second);
    assert(seq![].push(first) =~= seq![first]);
    assert(seq![first].push(second) =~= seq![first, second]);
}

/// A view that filters goes on to the next element that its function is true
/// of: it goes where its sequence goes, asks the function of the element there,
/// and goes on from there where the answer is false or null.
pub proof fn law_filtered_view_goes_to_what_is_approved(
    view: Looking,
    first: (Vm, Value),
    second: (Vm, Value),
    third: (Vm, Value),
)
    ensures
        view.of(Primitive::SequenceWhere, Primitive::WhereSequenceIterate) ==> {
            &&& invokes(view.told(seq![]), view.sequence(), "iterate(_)"@, seq![view.iterator()])
            &&& first.1.spec_is_falsy() ==> answers(view.told(seq![first]), Value::bool(false))
            &&& !first.1.spec_is_falsy() ==> {
                &&& invokes(
                    view.told(seq![first]),
                    view.sequence(),
                    "iteratorValue(_)"@,
                    seq![first.1],
                )
                &&& applies(view.told(seq![first, second]), view.with(), second.1)
                &&& !third.1.spec_is_falsy() ==> answers(
                    view.told(seq![first, second, third]),
                    first.1,
                )
                &&& third.1.spec_is_falsy() ==> invokes(
                    view.told(seq![first, second, third]),
                    view.sequence(),
                    "iterate(_)"@,
                    seq![first.1],
                )
            }
        },
        view.of(Primitive::SequenceWhere, Primitive::WhereSequenceIteratorValue) ==> {
            &&& invokes(
                view.told(seq![]),
                view.sequence(),
                "iteratorValue(_)"@,
                seq![view.iterator()],
            )
            &&& answers(view.told(seq![first]), first.1)
        },
{
    broadcast use crate::value::law_object_round_trip;

    lemma_told(view, seq![], first);
    lemma_told(view, seq![first], second);
    lemma_told(view, seq![first, second], third);
    assert(seq![].push(first) =~= seq![first]);
    assert(seq![first].push(second) =~= seq![first, second]);
    assert(seq![first, second].push(third) =~= seq![first, second, third]);
}

/// A view that skips so many elements goes that many times further when it
/// begins, each time with what `iterate` gave, and comes to where it is then;
/// afterwards it goes where its sequence goes.
pub proof fn law_skipping_view_begins_behind(view: Looking, n: nat, heard: Seq<(Vm, Value)>)
    requires
        view.of(Primitive::SequenceSkip, Primitive::SkipSequenceIterate),
        view.with().spec_is_num(),
        crate::number::finite(view.with().0),
        crate::number::worth(view.with().0) == n * crate::number::one(),
        n <= usize::MAX,
        view.iterator() == Value::null(),
        heard.len() <= n + 1,
        forall|i: int| 0 <= i < heard.len() ==> !(#[trigger] heard[i]).1.spec_is_falsy(),
    ensures
        heard.len() <= n ==> invokes(
            view.told(heard),
            view.sequence(),
            "iterate(_)"@,
            seq![
                if heard.len() == 0 {
                    Value::null()
                } else {
                    heard.last().1
                },
            ],
        ),
        heard.len() == n + 1 ==> answers(view.told(heard), heard.last().1),
    decreases heard.len(),
{
    broadcast use crate::value::law_object_round_trip;

    crate::number::law_integers_survive(n as int, view.with().0);
    assert(crate::number::magnitude(0) == 0);
    lemma_skipping(view, n, heard);
}

/// How far a view that skips has got.
proof fn lemma_skipping(view: Looking, n: nat, heard: Seq<(Vm, Value)>)
    requires
        n <= usize::MAX,
        view.called.reply is Work,
        view.called.reply->Work_0.phase is Iterating,
        view.called.reply->Work_0.goal == Goal::Skip(n as usize),
        heard.len() <= n + 1,
        forall|i: int| 0 <= i < heard.len() ==> !(#[trigger] heard[i]).1.spec_is_falsy(),
    ensures
        heard.len() <= n ==> view.told(heard) == TurnModel::Goes(
            (TaskModel {
                goal: Goal::Skip((n - heard.len()) as usize),
                iterator: if heard.len() == 0 {
                    view.called.reply->Work_0.iterator
                } else {
                    heard.last().1
                },
                ..view.called.reply->Work_0
            }),
        ),
        heard.len() == n + 1 ==> answers(view.told(heard), heard.last().1),
    decreases heard.len(),
{
    if heard.len() > 0 {
        let earlier = heard.drop_last();
        assert forall|i: int| 0 <= i < earlier.len() implies !(
        #[trigger] earlier[i]).1.spec_is_falsy() by {
            assert(earlier[i] == heard[i]);
        }
        lemma_skipping(view, n, earlier);
        assert(!heard[heard.len() - 1].1.spec_is_falsy());
        lemma_told(view, earlier, heard.last());
        assert(earlier.push(heard.last()) =~= heard);
    }
}

/// A view that takes so many elements goes where its sequence goes for the
/// first, if it takes any, and gives what the sequence gives.
pub proof fn law_taking_view_begins_if_it_takes_any(view: Looking, n: nat, first: (Vm, Value))
    requires
        view.with().spec_is_num(),
        crate::number::finite(view.with().0),
        crate::number::worth(view.with().0) == n * crate::number::one(),
        n <= usize::MAX,
    ensures
        view.of(Primitive::SequenceTake, Primitive::TakeSequenceIterate) && view.iterator()
            == Value::null() ==> if n == 0 {
            view.called.says(false)
        } else {
            &&& invokes(view.told(seq![]), view.sequence(), "iterate(_)"@, seq![view.iterator()])
            &&& answers(view.told(seq![first]), first.1)
        },
        view.of(Primitive::SequenceTake, Primitive::TakeSequenceIteratorValue) ==> {
            &&& invokes(
                view.told(seq![]),
                view.sequence(),
                "iteratorValue(_)"@,
                seq![view.iterator()],
            )
            &&& answers(view.told(seq![first]), first.1)
        },
{
    broadcast use crate::value::law_object_round_trip;

    crate::number::lemma_unit();
    crate::number::lemma_tally(0);
    crate::number::lemma_tally(1);
    crate::number::law_integers_survive(n as int, view.with().0);
    lemma_told(view, seq![], first);
    assert(seq![].push(first) =~= seq![first]);
    let one = crate::number::tally(1);
    assert(crate::number::worth(one) == crate::number::one());
    assert(n == 0 ==> crate::number::worth(view.with().0) == 0) by (nonlinear_arith)
        requires
            crate::number::worth(view.with().0) == n * crate::number::one(),
    ;
    assert(n > 0 ==> crate::number::worth(view.with().0) >= crate::number::one()) by (nonlinear_arith)
        requires
            crate::number::worth(view.with().0) == n * crate::number::one(),
            crate::number::one() > 0,
    ;
}

/// A view that takes so many elements has given one more each time it is
/// iterated, and ends once that is more than so many.
pub proof fn law_taking_view_ends_after_so_many(
    call: object_laws::Call,
    limit: nat,
    taken: nat,
)
    requires
        call.of(Primitive::TakeSequenceIterate, 1),
        call.argument(1) != Value::null(),
        limit < crate::number::MAX_COUNT,
        taken + 1 < crate::number::MAX_COUNT,
        call.argument(0).spec_as_object() matches Some(id)
            && call.before.heap@.instance(id) matches Some(instance) && instance.fields.len() == 3
            && instance.fields[1] == super::list_laws::index(limit)
            && instance.fields[2] == super::list_laws::index(taken),
    ensures
        ({
            let id = call.argument(0).spec_as_object()->0;
            let source = call.before.heap@.instance(id)->0.fields[0];
            &&& call.after.heap@.instance(id) matches Some(instance)
            &&& instance.fields[0] == source
            &&& instance.fields[1] == super::list_laws::index(limit)
            &&& instance.fields[2] == super::list_laws::index(taken + 1)
            &&& taken + 1 > limit ==> call.says(false)
            &&& taken + 1 <= limit ==> call.reply is Work && invokes(
                call.reply->Work_0.begun(&call.before),
                source,
                "iterate(_)"@,
                seq![call.argument(1)],
            )
        }),
{
    super::list_laws::lemma_index(limit);
    super::list_laws::lemma_index(taken);
    super::list_laws::lemma_index(taken + 1);
    crate::number::lemma_unit();
    assert(taken + 1 > limit ==> (taken + 1) * crate::number::one() > limit * crate::number::one())
        by (nonlinear_arith)
        requires
            crate::number::one() > 0,
    ;
    assert(taken + 1 <= limit ==> (taken + 1) * crate::number::one() <= limit
        * crate::number::one()) by (nonlinear_arith)
        requires
            crate::number::one() > 0,
    ;
}

/// A sequence is asked to iterate when it is to be counted, or asked whether it
/// is empty: it is empty where it gives false or null at once, and it has one
/// element for each time that it gives something else.
pub proof fn law_counting_a_sequence(call: object_laws::Call, heard: Seq<(Vm, Value)>, last: (Vm, Value))
    requires
        forall|i: int| 0 <= i < heard.len() ==> !(#[trigger] heard[i]).1.spec_is_falsy(),
        heard.len() < usize::MAX,
    ensures
        call.of(Primitive::SequenceCount, 0) ==> {
            let turn = call.reply->Work_0.begun(&call.before);
            &&& invokes(
                task_laws::after(turn, heard),
                call.argument(0),
                "iterate(_)"@,
                seq![
                    if heard.len() == 0 {
                        Value::null()
                    } else {
                        heard.last().1
                    },
                ],
            )
            &&& last.1.spec_is_falsy() ==> answers(
                task_laws::after(turn, heard.push(last)),
                super::list_laws::index(heard.len()),
            )
        },
        call.of(Primitive::SequenceIsEmpty, 0) ==> {
            let turn = call.reply->Work_0.begun(&call.before);
            &&& invokes(turn, call.argument(0), "iterate(_)"@, seq![Value::null()])
            &&& answers(
                task_laws::after(turn, seq![last]),
                Value::bool(last.1.spec_is_falsy()),
            )
        },
{
    if call.of(Primitive::SequenceCount, 0) {
        let task = call.reply->Work_0;
        lemma_counted(task, heard);
        assert(heard.push(last).drop_last() =~= heard);
    }
    if call.of(Primitive::SequenceIsEmpty, 0) {
        assert(seq![last].drop_last() =~= Seq::<(Vm, Value)>::empty());
        reveal_with_fuel(task_laws::after, 2);
    }
}

/// How far counting has got.
proof fn lemma_counted(task: TaskModel, heard: Seq<(Vm, Value)>)
    requires
        task.phase is Iterating,
        task.goal is Count,
        task.visited == 0,
        heard.len() < usize::MAX,
        forall|i: int| 0 <= i < heard.len() ==> !(#[trigger] heard[i]).1.spec_is_falsy(),
    ensures
        task_laws::after(TurnModel::Goes(task), heard) == TurnModel::Goes(
            (TaskModel {
                iterator: if heard.len() == 0 {
                    task.iterator
                } else {
                    heard.last().1
                },
                visited: heard.len() as int,
                ..task
            }),
        ),
    decreases heard.len(),
{
    if heard.len() > 0 {
        let earlier = heard.drop_last();
        assert forall|i: int| 0 <= i < earlier.len() implies !(
        #[trigger] earlier[i]).1.spec_is_falsy() by {
            assert(earlier[i] == heard[i]);
        }
        lemma_counted(task, earlier);
        assert(!heard[heard.len() - 1].1.spec_is_falsy());
    }
}

/// The text of a value in a map, with the key before it.
pub open spec fn pair_text(heard: Seq<(Vm, Value)>, i: int) -> Seq<u8> {
    told_text(heard[2 * i]) + encode_utf8(": "@) + told_text(heard[2 * i + 1])
}

/// The texts of so many entries of a map.
pub open spec fn pair_texts(heard: Seq<(Vm, Value)>) -> Seq<Seq<u8>> {
    Seq::new(heard.len() / 2, |i: int| pair_text(heard, i))
}

/// How far putting the entries of a map together as text has got.
proof fn lemma_showing(task: TaskModel, heard: Seq<(Vm, Value)>)
    requires
        task.phase is Visiting,
        task.goal is ShowMap,
        task.visited == 0,
        heard.len() % 2 == 0,
        heard.len() <= task.elements.len(),
        task.elements.len() > 0,
    ensures
        task_laws::after(TurnModel::Goes(task), heard) == (TaskModel {
            visited: heard.len() as int,
            text: task.text + super::string_laws::joined(pair_texts(heard), encode_utf8(", "@)),
            ..task
        }).settle(),
    decreases heard.len(),
{
    let between = encode_utf8(", "@);
    if heard.len() == 0 {
        assert(task.text + super::string_laws::joined(pair_texts(heard), between) =~= task.text);
    } else {
        let middle = heard.drop_last();
        let earlier = middle.drop_last();
        lemma_showing(task, earlier);
        let n = earlier.len() / 2;
        let piece = pair_text(heard, n as int);
        assert(pair_texts(heard) =~= pair_texts(earlier).push(piece)) by {
            assert forall|i: int| 0 <= i < n implies pair_text(heard, i) == pair_text(
                earlier,
                i,
            ) by {
                assert(heard[2 * i] == earlier[2 * i]);
                assert(heard[2 * i + 1] == earlier[2 * i + 1]);
            }
        }
        lemma_joined_on(pair_texts(earlier), between, piece);
        let at = TaskModel {
            visited: earlier.len() as int,
            text: task.text + super::string_laws::joined(pair_texts(earlier), between),
            ..task
        };
        let key = middle.last();
        let value = heard.last();
        let half = TaskModel {
            visited: earlier.len() as int + 1,
            text: at.text + at.lead() + told_text(key),
            ..at
        };
        assert(task_laws::after(TurnModel::Goes(task), middle) == half.settle());
        assert(half.settle() == TurnModel::Goes(half));
        assert(half.lead() == encode_utf8(": "@));
        assert(heard[2 * n as int] == key && heard[2 * n as int + 1] == value);
        assert(half.text + half.lead() + told_text(value) =~= task.text
            + super::string_laws::joined(pair_texts(heard), between)) by {
            if earlier.len() == 0 {
                assert(pair_texts(earlier) =~= Seq::<Seq<u8>>::empty());
            }
        }
    }
}

/// A map is shown in braces, each key before its value, in the order of its
/// entries.
pub proof fn law_map_is_shown_key_before_value(
    call: object_laws::Call,
    entries: Seq<crate::object::MapEntry>,
    heard: Seq<(Vm, Value)>,
)
    requires
        call.of(Primitive::MapToString, 0),
        super::maps::spec_entries(&call.before, call.argument(0)) == Some(entries),
        entries.len() > 0,
        heard.len() % 2 == 0,
        heard.len() <= 2 * entries.len(),
    ensures
        ({
            let turn = task_laws::after(call.reply->Work_0.begun(&call.before), heard);
            &&& heard.len() < 2 * entries.len() ==> invokes(
                turn,
                entries[heard.len() as int / 2].key,
                "toString"@,
                Seq::empty(),
            )
            &&& heard.len() == 2 * entries.len() ==> turn == TurnModel::Ends(
                EndModel::NewText(
                    encode_utf8("{"@) + super::string_laws::joined(
                        pair_texts(heard),
                        encode_utf8(", "@),
                    ) + encode_utf8("}"@),
                ),
            )
        }),
{
    let task = TaskModel { phase: Phase::Visiting, visited: 0, ..call.reply->Work_0 };
    assert(call.reply->Work_0.begun(&call.before) == TurnModel::Goes(task));
    lemma_showing(task, heard);
}

} // verus!
