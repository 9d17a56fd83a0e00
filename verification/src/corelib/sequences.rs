//! Methods of sequences, and of whatever else works by calling other methods:
//! lazy views, lists and maps that are shown, and printing.

use vstd::prelude::*;
use vstd::string::*;
use vstd::utf8::*;

use super::arguments;
use super::arguments::{
    argument, counting_argument, expect_arity, function_argument, receiver,
};
use super::lists;
use super::lists::{list_elements, new_list};
use super::maps;
use super::maps::map_entries;
use super::objects;
use super::objects::instance_field;
use super::primitive::Primitive;
use super::reply;
use super::reply::{deny, give, Reply, ReplyModel};
use super::string_methods;
use super::strings::{append_bytes, string_text};
use super::tasks::{End, EndModel, Goal, Phase, Task, TaskModel};
use super::views;
use super::views::new_view;
use crate::handle::ObjectId;
use crate::heap::{HeapModel, InstanceModel};
use crate::number::{counted, less, to_usize};
use crate::object::{copy_bytes, MapEntry};
use crate::value::Value;
use crate::vm::Vm;

verus! {

/// A task that starts by calling a sequence's `iterate`.
pub open spec fn over(sequence: Value, goal: Goal) -> TaskModel {
    TaskModel {
        goal,
        phase: Phase::Iterating,
        sequence,
        iterator: Value::null(),
        elements: Seq::empty(),
        visited: 0,
        kept: Seq::empty(),
        text: Seq::empty(),
        separator: Seq::empty(),
    }
}

/// A task on elements that are known.
pub open spec fn on(elements: Seq<Value>, goal: Goal) -> TaskModel {
    TaskModel { phase: Phase::Gathered, elements, ..over(Value::null(), goal) }
}

/// A task that starts by calling a sequence's `iterate`.
fn task_over(sequence: Value, goal: Goal) -> (task: Task)
    ensures
        task.model() == over(sequence, goal),
{
    let task = Task {
        goal,
        phase: Phase::Iterating,
        sequence,
        iterator: Value::null(),
        elements: Vec::new(),
        visited: 0,
        kept: Vec::new(),
        text: Vec::new(),
        separator: Vec::new(),
    };
    proof {
        assert(task.model() =~= over(sequence, goal));
    }
    task
}

/// A task on elements that are known.
fn task_on(elements: Vec<Value>, goal: Goal) -> (task: Task)
    ensures
        task.model() == on(elements@, goal),
{
    let mut task = task_over(Value::null(), goal);
    task.phase = Phase::Gathered;
    task.elements = elements;
    task
}

/// A map's keys and values, in turn.
pub open spec fn interleaved(entries: Seq<MapEntry>) -> Seq<Value> {
    Seq::new(
        2 * entries.len(),
        |i: int|
            if i % 2 == 0 {
                entries[i / 2].key
            } else {
                entries[i / 2].value
            },
    )
}

/// A map's keys and values, in turn.
fn interleave(entries: &Vec<MapEntry>) -> (values: Vec<Value>)
    ensures
        values@ == interleaved(entries@),
{
    let mut values: Vec<Value> = Vec::new();
    let mut i: usize = 0;
    while i < entries.len()
        invariant
            i <= entries@.len(),
            values@.len() == 2 * i,
            forall|k: int|
                0 <= k < values@.len() ==> #[trigger] values@[k] == interleaved(entries@)[k],
        decreases entries@.len() - i,
    {
        let ghost before = values@;
        values.push(entries[i].key);
        values.push(entries[i].value);
        proof {
            assert forall|k: int| 0 <= k < values@.len() implies #[trigger] values@[k]
                == interleaved(entries@)[k] by {
                if k < before.len() {
                    assert(values@[k] == before[k]);
                }
            }
        }
        i = i + 1;
    }
    proof {
        assert(values@ =~= interleaved(entries@));
    }
    values
}

/// Whether a method works by calling other methods.
pub open spec fn is_work(p: Primitive) -> bool {
    match p {
        Primitive::SequenceCount | Primitive::SequenceIsEmpty | Primitive::SequenceEach
        | Primitive::SequenceToList | Primitive::SequenceContains | Primitive::SequenceAll
        | Primitive::SequenceAny | Primitive::SequenceReduce | Primitive::SequenceReduceFrom
        | Primitive::SequenceJoin | Primitive::SequenceJoinWith | Primitive::MapSequenceIterate
        | Primitive::MapSequenceIteratorValue | Primitive::WhereSequenceIterate
        | Primitive::WhereSequenceIteratorValue | Primitive::TakeSequenceIteratorValue
        | Primitive::SkipSequenceIterate | Primitive::SkipSequenceIteratorValue
        | Primitive::ListToString | Primitive::ListEach | Primitive::ListMap
        | Primitive::ListWhere | Primitive::ListAny | Primitive::ListAll | Primitive::ListReduce
        | Primitive::ListReduceFrom | Primitive::ListJoin | Primitive::ListJoinWith
        | Primitive::MapToString | Primitive::SystemPrint | Primitive::SystemWrite => true,
        _ => false,
    }
}

/// A task that combines elements, if a function can do that.
pub open spec fn reduction(vm: &Vm, task: TaskModel, function: Value) -> ReplyModel {
    match arguments::arity_refused(vm, function, 2) {
        Some(message) => reply::denies(message),
        None => ReplyModel::Work(task),
    }
}

/// A task that calls a function, if it is one.
pub open spec fn with_function(vm: &Vm, task: TaskModel, function: Value) -> ReplyModel {
    match arguments::spec_function(vm, function) {
        Err(message) => reply::denies(message),
        Ok(_) => ReplyModel::Work(task),
    }
}

/// A task that puts text together, if there is text to put between.
pub open spec fn joining(vm: &Vm, task: TaskModel, separator: Value) -> ReplyModel {
    match vm.spec_string(separator) {
        Some(bytes) => if valid_utf8(bytes) {
            ReplyModel::Work(
                TaskModel { separator: string_methods::text_bytes(vm, separator), ..task },
            )
        } else {
            reply::denies("Right operand must be a string."@)
        },
        None => reply::denies("Right operand must be a string."@),
    }
}

/// How many elements a view skips.
pub open spec fn skipped(vm: &Vm, view: Value) -> usize {
    let count = objects::spec_instance_field(vm, view, 1);
    if count.spec_is_num() {
        crate::number::pressed(count.0, 0, usize::MAX as int) as usize
    } else {
        0
    }
}

/// What a method of a lazy view comes to.
pub open spec fn view_reply(vm: &Vm, p: Primitive, at: usize) -> ReplyModel {
    let this = arguments::given(vm, at, 0);
    let iterator = arguments::given(vm, at, 1);
    let source = objects::spec_instance_field(vm, this, 0);
    let function = objects::spec_instance_field(vm, this, 1);
    let pass = TaskModel { iterator, ..over(source, Goal::Pass) };
    match p {
        Primitive::MapSequenceIterate => ReplyModel::Work(pass),
        Primitive::MapSequenceIteratorValue => ReplyModel::Work(
            TaskModel { goal: Goal::PassThrough(function), phase: Phase::Reading, ..pass },
        ),
        Primitive::WhereSequenceIterate => ReplyModel::Work(
            TaskModel { goal: Goal::Seek(function), ..pass },
        ),
        Primitive::SkipSequenceIterate => if iterator == Value::null() {
            ReplyModel::Work(TaskModel { goal: Goal::Skip(skipped(vm, this)), ..pass })
        } else {
            ReplyModel::Work(pass)
        },
        _ => ReplyModel::Work(TaskModel { phase: Phase::Reading, ..pass }),
    }
}

/// Whether a method is one of a lazy view.
pub open spec fn is_view_work(p: Primitive) -> bool {
    match p {
        Primitive::MapSequenceIterate | Primitive::MapSequenceIteratorValue
        | Primitive::WhereSequenceIterate | Primitive::WhereSequenceIteratorValue
        | Primitive::TakeSequenceIteratorValue | Primitive::SkipSequenceIterate
        | Primitive::SkipSequenceIteratorValue => true,
        _ => false,
    }
}

/// What a method that works by calling other methods comes to.
pub open spec fn work_reply(vm: &Vm, p: Primitive, at: usize) -> ReplyModel {
    let this = arguments::given(vm, at, 0);
    let that = arguments::given(vm, at, 1);
    let function = arguments::given(vm, at, 2);
    let elements = lists::elements_or_none(vm, this);
    match p {
        Primitive::SequenceCount => ReplyModel::Work(over(this, Goal::Count)),
        Primitive::SequenceIsEmpty => ReplyModel::Work(over(this, Goal::IsEmpty)),
        Primitive::SequenceEach => ReplyModel::Work(over(this, Goal::Each(that))),
        Primitive::SequenceToList => ReplyModel::Work(over(this, Goal::ToList)),
        Primitive::SequenceContains => ReplyModel::Work(over(this, Goal::Contains(that))),
        Primitive::SequenceAll => with_function(vm, over(this, Goal::All(that)), that),
        Primitive::SequenceAny => with_function(vm, over(this, Goal::Any(that)), that),
        Primitive::SequenceReduce => reduction(vm, over(this, Goal::Reduce(that)), that),
        Primitive::SequenceReduceFrom => reduction(
            vm,
            over(this, Goal::ReduceFrom(that, function)),
            function,
        ),
        Primitive::SequenceJoin => ReplyModel::Work(over(this, Goal::Join)),
        Primitive::SequenceJoinWith => joining(vm, over(this, Goal::Join), that),
        Primitive::ListToString => ReplyModel::Work(
            TaskModel { text: encode_utf8("["@), ..on(elements, Goal::ShowList) },
        ),
        Primitive::ListEach => ReplyModel::Work(on(elements, Goal::Each(that))),
        Primitive::ListMap => ReplyModel::Work(on(elements, Goal::Apply(that))),
        Primitive::ListWhere => ReplyModel::Work(on(elements, Goal::Where(that))),
        Primitive::ListAny => ReplyModel::Work(on(elements, Goal::Any(that))),
        Primitive::ListAll => ReplyModel::Work(on(elements, Goal::All(that))),
        Primitive::ListReduce => reduction(vm, on(elements, Goal::Reduce(that)), that),
        Primitive::ListReduceFrom => reduction(
            vm,
            on(elements, Goal::ReduceFrom(that, function)),
            function,
        ),
        Primitive::ListJoin => ReplyModel::Work(on(elements, Goal::Join)),
        Primitive::ListJoinWith => joining(vm, on(elements, Goal::Join), that),
        Primitive::MapToString => ReplyModel::Work(
            TaskModel {
                text: encode_utf8("{"@),
                ..on(interleaved(maps::entries_or_none(vm, this)), Goal::ShowMap)
            },
        ),
        Primitive::SystemPrint => ReplyModel::Work(on(seq![that], Goal::Print)),
        Primitive::SystemWrite => ReplyModel::Work(on(seq![that], Goal::Write)),
        _ => view_reply(vm, p, at),
    }
}

/// Start a task that combines elements, if a function can do that.
fn start_reduction(vm: &Vm, task: Task, function: Value) -> (reply: Reply)
    requires
        vm.wf(),
    ensures
        reply.model() == reduction(vm, task.model(), function),
{
    match expect_arity(vm, function, 2) {
        Err(error) => Reply::Done(Err(error)),
        Ok(_) => Reply::Work(task),
    }
}

/// Start a task that puts text together, if there is text to put between.
fn start_joining(vm: &Vm, task: Task, separator: Value) -> (reply: Reply)
    requires
        vm.wf(),
    ensures
        reply.model() == joining(vm, task.model(), separator),
{
    match vm.string_at(separator) {
        None => deny("Right operand must be a string."),
        Some(_) => {
            let text = string_text(vm, separator);
            let mut task = task;
            task.separator = copy_bytes(text.as_str().as_bytes());
            Reply::Work(task)
        },
    }
}

/// Carry out a method of a lazy view.
fn reply_of_view_work(vm: &Vm, p: Primitive, at: usize) -> (reply: Reply)
    requires
        vm.wf(),
        is_view_work(p),
        arguments::called_with(vm, at, 1),
    ensures
        reply.model() == view_reply(vm, p, at),
{
    let this = receiver(vm, at);
    let iterator = argument(vm, at, 1);
    let function = instance_field(vm, this, 1);
    let mut task = task_over(instance_field(vm, this, 0), Goal::Pass);
    task.iterator = iterator;
    match p {
        Primitive::MapSequenceIterate => {},
        Primitive::MapSequenceIteratorValue => {
            task.goal = Goal::PassThrough(function);
            task.phase = Phase::Reading;
        },
        Primitive::WhereSequenceIterate => {
            task.goal = Goal::Seek(function);
        },
        Primitive::SkipSequenceIterate => {
            if iterator.is_null() {
                let count: usize = match function.as_num() {
                    Some(bits) => to_usize(bits),
                    None => 0,
                };
                task.goal = Goal::Skip(count);
            }
        },
        _ => {
            task.phase = Phase::Reading;
        },
    }
    Reply::Work(task)
}

/// One value.
fn only(value: Value) -> (values: Vec<Value>)
    ensures
        values@ == seq![value],
{
    let mut values: Vec<Value> = Vec::new();
    values.push(value);
    proof {
        assert(values@ =~= seq![value]);
    }
    values
}

/// Start what works by calling other methods.
pub fn reply_of_work(vm: &Vm, p: Primitive, at: usize) -> (reply: Reply)
    requires
        vm.wf(),
        is_work(p),
        arguments::called_with(vm, at, p.spec_arity()),
    ensures
        reply.model() == work_reply(vm, p, at),
{
    let this = receiver(vm, at);
    match p {
        Primitive::SequenceCount => Reply::Work(task_over(this, Goal::Count)),
        Primitive::SequenceIsEmpty => Reply::Work(task_over(this, Goal::IsEmpty)),
        Primitive::SequenceEach => Reply::Work(task_over(this, Goal::Each(argument(vm, at, 1)))),
        Primitive::SequenceToList => Reply::Work(task_over(this, Goal::ToList)),
        Primitive::SequenceContains => Reply::Work(
            task_over(this, Goal::Contains(argument(vm, at, 1))),
        ),
        Primitive::SequenceAll => match function_argument(vm, at, 1) {
            Err(error) => Reply::Done(Err(error)),
            Ok(function) => Reply::Work(task_over(this, Goal::All(function))),
        },
        Primitive::SequenceAny => match function_argument(vm, at, 1) {
            Err(error) => Reply::Done(Err(error)),
            Ok(function) => Reply::Work(task_over(this, Goal::Any(function))),
        },
        Primitive::SequenceReduce => {
            let function = argument(vm, at, 1);
            start_reduction(vm, task_over(this, Goal::Reduce(function)), function)
        },
        Primitive::SequenceReduceFrom => {
            let first = argument(vm, at, 1);
            let function = argument(vm, at, 2);
            start_reduction(vm, task_over(this, Goal::ReduceFrom(first, function)), function)
        },
        Primitive::SequenceJoin => Reply::Work(task_over(this, Goal::Join)),
        Primitive::SequenceJoinWith => start_joining(
            vm,
            task_over(this, Goal::Join),
            argument(vm, at, 1),
        ),
        Primitive::ListToString => {
            let mut task = task_on(list_elements(vm, this), Goal::ShowList);
            task.text = copy_bytes("[".as_bytes());
            Reply::Work(task)
        },
        Primitive::ListEach => Reply::Work(
            task_on(list_elements(vm, this), Goal::Each(argument(vm, at, 1))),
        ),
        Primitive::ListMap => Reply::Work(
            task_on(list_elements(vm, this), Goal::Apply(argument(vm, at, 1))),
        ),
        Primitive::ListWhere => Reply::Work(
            task_on(list_elements(vm, this), Goal::Where(argument(vm, at, 1))),
        ),
        Primitive::ListAny => Reply::Work(
            task_on(list_elements(vm, this), Goal::Any(argument(vm, at, 1))),
        ),
        Primitive::ListAll => Reply::Work(
            task_on(list_elements(vm, this), Goal::All(argument(vm, at, 1))),
        ),
        Primitive::ListReduce => {
            let function = argument(vm, at, 1);
            start_reduction(
                vm,
                task_on(list_elements(vm, this), Goal::Reduce(function)),
                function,
            )
        },
        Primitive::ListReduceFrom => {
            let first = argument(vm, at, 1);
            let function = argument(vm, at, 2);
            start_reduction(
                vm,
                task_on(list_elements(vm, this), Goal::ReduceFrom(first, function)),
                function,
            )
        },
        Primitive::ListJoin => Reply::Work(task_on(list_elements(vm, this), Goal::Join)),
        Primitive::ListJoinWith => start_joining(
            vm,
            task_on(list_elements(vm, this), Goal::Join),
            argument(vm, at, 1),
        ),
        Primitive::MapToString => {
            let entries: Vec<MapEntry> = map_entries(vm, this);
            let mut task = task_on(interleave(&entries), Goal::ShowMap);
            task.text = copy_bytes("{".as_bytes());
            Reply::Work(task)
        },
        Primitive::SystemPrint => Reply::Work(task_on(only(argument(vm, at, 1)), Goal::Print)),
        Primitive::SystemWrite => Reply::Work(task_on(only(argument(vm, at, 1)), Goal::Write)),
        _ => reply_of_view_work(vm, p, at),
    }
}

/// Whether a machine is an earlier one after a task came to an end.
pub open spec fn concluded(before: &Vm, after: &Vm, end: EndModel, reply: ReplyModel) -> bool {
    match end {
        EndModel::Answer(r) => reply == ReplyModel::Done(r) && *after == *before,
        EndModel::NewList(values) => {
            &&& reply matches ReplyModel::Done(Ok(value))
            &&& lists::made_list(before, after, value, values)
        },
        EndModel::NewText(bytes) => {
            &&& reply matches ReplyModel::Done(Ok(value))
            &&& after.made_string(before, value, bytes)
            &&& *after == (Vm { heap: after.heap, ..*before })
        },
        EndModel::Printed { text, value } => {
            &&& reply == reply::gives(value)
            &&& after.output@ == before.output@ + text
            &&& *after == (Vm { output: after.output, ..*before })
        },
    }
}

/// Answer with what a task came to.
pub fn conclude(vm: &mut Vm, end: End) -> (reply: Reply)
    requires
        old(vm).wf(),
        old(vm).heap.has_room(1),
    ensures
        final(vm).wf(),
        concluded(old(vm), final(vm), end.model(), reply.model()),
{
    match end {
        End::Answer(r) => Reply::Done(r),
        End::NewList(values) => give(new_list(vm, values)),
        End::NewText(bytes) => give(vm.new_string_bytes(bytes)),
        End::Printed { text, value } => {
            append_bytes(&mut vm.output, text.as_slice());
            give(value)
        },
    }
}

/// Whether a method makes a lazy view.
pub open spec fn is_view_maker(p: Primitive) -> bool {
    match p {
        Primitive::SequenceMap | Primitive::SequenceWhere | Primitive::SequenceTake
        | Primitive::SequenceSkip => true,
        _ => false,
    }
}

/// The class and fields of the view that a method makes.
pub open spec fn spec_view(vm: &Vm, p: Primitive, at: usize) -> Result<
    (ObjectId, Seq<Value>),
    Seq<char>,
> {
    let this = arguments::given(vm, at, 0);
    let that = arguments::given(vm, at, 1);
    if p is SequenceMap || p is SequenceWhere {
        match arguments::spec_function(vm, that) {
            Err(message) => Err(message),
            Ok(function) => if p is SequenceMap {
                Ok((vm.map_sequence_class, seq![this, function]))
            } else {
                Ok((vm.where_sequence_class, seq![this, function]))
            },
        }
    } else {
        match arguments::spec_counting(that) {
            Err(message) => Err(message),
            Ok(count) => if p is SequenceTake {
                Ok(
                    (
                        vm.take_sequence_class,
                        seq![this, Value::num(count), Value::num(crate::number::tally(0))],
                    ),
                )
            } else {
                Ok((vm.skip_sequence_class, seq![this, Value::num(count)]))
            },
        }
    }
}

/// Whether a machine is an earlier one after a method that makes a lazy view.
pub open spec fn viewed(
    before: &Vm,
    after: &Vm,
    p: Primitive,
    at: usize,
    reply: ReplyModel,
) -> bool {
    match spec_view(before, p, at) {
        Err(message) => reply == reply::denies(message) && *after == *before,
        Ok(made) => {
            &&& reply matches ReplyModel::Done(Ok(value))
            &&& views::made_instance(before, after, value, made.0, made.1)
        },
    }
}

/// Make a lazy view.
pub fn reply_of_view_maker(vm: &mut Vm, p: Primitive, at: usize) -> (reply: Reply)
    requires
        old(vm).wf(),
        is_view_maker(p),
        arguments::called_with(old(vm), at, p.spec_arity()),
        old(vm).heap.has_room(1),
    ensures
        final(vm).wf(),
        viewed(old(vm), final(vm), p, at, reply.model()),
{
    let ghost before = *vm;
    let mut fields: Vec<Value> = Vec::new();
    fields.push(receiver(vm, at));
    match p {
        Primitive::SequenceMap | Primitive::SequenceWhere => match function_argument(vm, at, 1) {
            Err(error) => {
                return Reply::Done(Err(error));
            },
            Ok(function) => {
                fields.push(function);
            },
        },
        _ => match counting_argument(vm, at, 1) {
            Err(error) => {
                return Reply::Done(Err(error));
            },
            Ok(count) => {
                fields.push(Value::num(count));
            },
        },
    }
    let class = match p {
        Primitive::SequenceMap => vm.map_sequence_class,
        Primitive::SequenceWhere => vm.where_sequence_class,
        Primitive::SequenceTake => {
            fields.push(Value::num(counted(0)));
            vm.take_sequence_class
        },
        _ => vm.skip_sequence_class,
    };
    proof {
        let made = spec_view(&before, p, at)->Ok_0;
        assert(fields@ =~= made.1);
    }
    give(new_view(vm, class, fields))
}

/// How many elements a view has taken, one more than it says.
pub open spec fn taken_now(vm: &Vm, view: Value, iterator: Value) -> Option<nat> {
    let said = objects::spec_instance_field(vm, view, 2);
    if iterator == Value::null() || !said.spec_is_num() {
        Some(1)
    } else if crate::number::integral(said.0) && 0 <= crate::number::integer_part(said.0)
        < crate::number::MAX_COUNT {
        Some((crate::number::integer_part(said.0) + 1) as nat)
    } else {
        None
    }
}

/// Whether a machine is an earlier one with a field of an instance set.
/// Anything but an instance stays as it is.
pub open spec fn instance_set(
    before: &Vm,
    after: &Vm,
    value: Value,
    index: int,
    to: Value,
) -> bool {
    match value.spec_as_object() {
        None => *after == *before,
        Some(id) => match before.heap@.instance(id) {
            None => *after == *before,
            Some(instance) => {
                &&& *after == (Vm { heap: after.heap, ..*before })
                &&& after.heap@ == (HeapModel {
                    instances: before.heap@.instances.insert(
                        id.spec_index(),
                        (InstanceModel {
                            fields: crate::heap::instances::stored(instance.fields, index, to),
                            ..instance
                        }),
                    ),
                    ..before.heap@
                })
                &&& after.heap.barrier_told(&before.heap, id, to)
            },
        },
    }
}

/// Set a field of an instance.
pub fn set_instance_field(vm: &mut Vm, value: Value, index: usize, to: Value)
    requires
        old(vm).wf(),
        old(vm).heap.has_room(1),
        index < crate::fields::MAX_FIELDS,
    ensures
        final(vm).wf(),
        instance_set(old(vm), final(vm), value, index as int, to),
{
    match value.as_object() {
        None => {},
        Some(id) => {
            let was: bool = vm.heap.set_instance_field(id, index, to);
        },
    }
}

/// Whether a machine is an earlier one after a view that takes so many went to
/// its next element.
pub open spec fn took(before: &Vm, after: &Vm, at: usize, reply: ReplyModel) -> bool {
    let this = arguments::given(before, at, 0);
    let iterator = arguments::given(before, at, 1);
    let limit = objects::spec_instance_field(before, this, 1);
    match taken_now(before, this, iterator) {
        None => reply is Stuck && *after == *before,
        Some(taken) => {
            let bits = crate::number::tally(taken);
            &&& instance_set(before, after, this, 2, Value::num(bits))
            &&& reply == if crate::number::below(
                if limit.spec_is_num() {
                    limit.0
                } else {
                    0
                },
                bits,
            ) {
                reply::gives(Value::bool(false))
            } else {
                ReplyModel::Work(
                    TaskModel {
                        iterator,
                        ..over(objects::spec_instance_field(before, this, 0), Goal::Pass)
                    },
                )
            }
        },
    }
}

/// Go to the next element of a view that takes so many.
pub fn reply_of_take(vm: &mut Vm, at: usize) -> (reply: Reply)
    requires
        old(vm).wf(),
        arguments::called_with(old(vm), at, 1),
        old(vm).heap.has_room(1),
    ensures
        final(vm).wf(),
        took(old(vm), final(vm), at, reply.model()),
{
    let this = receiver(vm, at);
    let iterator = argument(vm, at, 1);
    let source = instance_field(vm, this, 0);
    let limit: u64 = match instance_field(vm, this, 1).as_num() {
        Some(bits) => bits,
        None => 0,
    };
    let mut taken: u64 = 1;
    if !iterator.is_null() {
        match instance_field(vm, this, 2).as_num() {
            None => {},
            Some(bits) => {
                if !crate::number::is_integer(bits) {
                    return Reply::Stuck;
                }
                match crate::number::whole_magnitude(bits) {
                    None => {
                        return Reply::Stuck;
                    },
                    Some(whole) => {
                        if whole >= crate::number::MAX_COUNT || (whole > 0 && bits
                            >= crate::number::SIGN) {
                            return Reply::Stuck;
                        }
                        taken = whole + 1;
                    },
                }
            },
        }
    }
    let bits: u64 = crate::number::counted_word(taken);
    set_instance_field(vm, this, 2, Value::num(bits));
    if less(limit, bits) {
        return give(Value::bool(false));
    }
    let mut task = task_over(source, Goal::Pass);
    task.iterator = iterator;
    Reply::Work(task)
}

/// Whether a machine is an earlier one after the line ended.
pub open spec fn line_ended(before: &Vm, after: &Vm, reply: ReplyModel) -> bool {
    &&& reply == reply::gives(Value::null())
    &&& after.output@ == before.output@.push(10u8)
    &&& *after == (Vm { output: after.output, ..*before })
}

/// End the line that was printed.
pub fn end_line(vm: &mut Vm) -> (reply: Reply)
    requires
        old(vm).wf(),
    ensures
        final(vm).wf(),
        line_ended(old(vm), final(vm), reply.model()),
{
    vm.output.push(10);
    give(Value::null())
}

} // verus!
