//! What holds of the methods that all values have.

use vstd::prelude::*;

use super::primitive::Primitive;
use super::reply::ReplyModel;
use crate::handle::ObjectId;
use crate::heap::HeapModel;
use crate::value::Value;
use crate::vm::Vm;

verus! {

/// A method that was called.
pub struct Call {
    pub before: Vm,
    pub after: Vm,
    pub at: usize,
    pub reply: ReplyModel,
}

impl Call {
    /// Whether a method was called with so many arguments.
    pub open spec fn of(self, p: Primitive, count: int) -> bool {
        &&& super::perform::performed(&self.before, &self.after, p, self.at, self.reply)
        &&& self.at + count < self.before.stack@.len()
        &&& !(self.reply is Full)
    }

    /// The receiver, or one of the arguments.
    pub open spec fn argument(self, index: int) -> Value {
        self.before.stack@[self.at + index]
    }

    /// Whether a value came of it.
    pub open spec fn gives(self, value: Value) -> bool {
        self.reply == ReplyModel::Done(Ok(value))
    }

    /// Whether a truth value came of it.
    pub open spec fn says(self, truth: bool) -> bool {
        self.gives(Value::bool(truth))
    }

    /// Whether another method was asked the same thing.
    pub open spec fn asks_as(self, other: Call) -> bool {
        self.before == other.before && self.at == other.at
    }

    /// The value that came of it.
    pub open spec fn value(self) -> Value {
        self.reply->Done_0->Ok_0
    }
}

/// What is not so: the opposite of a truth value, true of null, and false of
/// every other object.
pub proof fn law_not_is_the_opposite(call: Call, truth: bool)
    ensures
        call.of(Primitive::BoolNot, 0) && call.argument(0) == Value::bool(truth) ==> call.says(
            !truth,
        ),
        call.of(Primitive::NullNot, 0) ==> call.says(true),
        call.of(Primitive::ObjectNot, 0) ==> call.says(false),
{
    crate::value::law_kinds_exclusive(Value::bool(true));
    crate::value::law_kinds_exclusive(Value::bool(false));
}

/// Objects are equal where they are one object, truth values where they are the
/// same, null to null alone, and strings where they have the same bytes.
pub proof fn law_equality_of_values(call: Call)
    ensures
        call.of(Primitive::ObjectEqual, 1) ==> call.says(call.argument(0) == call.argument(1)),
        call.of(Primitive::BoolEqual, 1) ==> call.says(call.argument(0) == call.argument(1)),
        call.of(Primitive::NullEqual, 1) && call.argument(0) == Value::null() ==> call.says(
            call.argument(0) == call.argument(1),
        ),
        call.of(Primitive::StringEqual, 1) && call.before.spec_string(call.argument(0)) is Some
            && call.before.spec_string(call.argument(1)) is Some ==> call.says(
            call.before.spec_string(call.argument(0)) == call.before.spec_string(
                call.argument(1),
            ),
        ),
        call.of(Primitive::StringEqual, 1) && call.before.spec_string(call.argument(1)) is None
            ==> call.says(false),
{
}

/// Two values are unequal where they are not equal.
pub proof fn law_unequal_is_not_equal(equal: Call, unequal: Call, truth: bool)
    requires
        equal.asks_as(unequal),
        equal.says(truth),
        (equal.of(Primitive::ObjectEqual, 1) && unequal.of(Primitive::ObjectUnequal, 1)) || (
        equal.of(Primitive::BoolEqual, 1) && unequal.of(Primitive::BoolUnequal, 1)) || (equal.of(
            Primitive::NullEqual,
            1,
        ) && unequal.of(Primitive::NullUnequal, 1)) || (equal.of(Primitive::StringEqual, 1)
            && unequal.of(Primitive::StringUnequal, 1)),
    ensures
        unequal.says(!truth),
{
    assert(Value::bool(true) != Value::bool(false)) by {
        crate::value::law_kinds_exclusive(Value::bool(true));
        crate::value::law_kinds_exclusive(Value::bool(false));
    }
}

/// The class that is so many steps up from a class.
pub open spec fn ancestor(heap: HeapModel, class: ObjectId, steps: nat) -> Option<ObjectId>
    decreases steps,
{
    if steps == 0 {
        Some(class)
    } else {
        match ancestor(heap, class, (steps - 1) as nat) {
            Some(below) => heap.superclass(below),
            None => None,
        }
    }
}

/// One step up first is one step up last.
proof fn lemma_ancestor(heap: HeapModel, class: ObjectId, above: ObjectId, steps: nat)
    requires
        heap.superclass(class) == Some(above),
    ensures
        ancestor(heap, class, steps + 1) == ancestor(heap, above, steps),
    decreases steps,
{
    if steps > 0 {
        lemma_ancestor(heap, class, above, (steps - 1) as nat);
    } else {
        assert(ancestor(heap, class, 0) == Some(class));
    }
}

/// A class inherits from those that are up from it.
proof fn lemma_inherits(heap: HeapModel, class: ObjectId, wanted: ObjectId, limit: nat)
    ensures
        super::objects::inherits_from(heap, Some(class), wanted, limit) == exists|steps: nat|
            steps < limit && #[trigger] ancestor(heap, class, steps) == Some(wanted),
    decreases limit,
{
    if limit > 0 {
        assert(ancestor(heap, class, 0) == Some(class));
        match heap.superclass(class) {
            None => {
                assert(!super::objects::inherits_from(
                    heap,
                    None::<ObjectId>,
                    wanted,
                    (limit - 1) as nat,
                ));
                assert forall|steps: nat| steps > 0 implies #[trigger] ancestor(heap, class, steps)
                    is None by {
                    lemma_rootless(heap, class, steps);
                }
            },
            Some(above) => {
                lemma_inherits(heap, above, wanted, (limit - 1) as nat);
                if super::objects::inherits_from(heap, Some(above), wanted, (limit - 1) as nat) {
                    let steps = choose|steps: nat|
                        steps < limit - 1 && #[trigger] ancestor(heap, above, steps) == Some(
                            wanted,
                        );
                    lemma_ancestor(heap, class, above, steps);
                    assert(ancestor(heap, class, steps + 1) == Some(wanted));
                }
                assert forall|steps: nat|
                    0 < steps < limit && #[trigger] ancestor(heap, class, steps) == Some(
                        wanted,
                    ) implies super::objects::inherits_from(
                    heap,
                    Some(above),
                    wanted,
                    (limit - 1) as nat,
                ) by {
                    lemma_ancestor(heap, class, above, (steps - 1) as nat);
                    assert(ancestor(heap, above, (steps - 1) as nat) == Some(wanted));
                }
            },
        }
    }
}

/// Nothing is up from a class that inherits from none.
proof fn lemma_rootless(heap: HeapModel, class: ObjectId, steps: nat)
    requires
        heap.superclass(class) is None,
        steps > 0,
    ensures
        ancestor(heap, class, steps) is None,
    decreases steps,
{
    assert(ancestor(heap, class, 0) == Some(class));
    if steps > 1 {
        lemma_rootless(heap, class, (steps - 1) as nat);
    }
}

/// A value is of a class where the class is its own, or up from it.
pub proof fn law_value_is_of_its_classes(call: Call, own: ObjectId, wanted: ObjectId)
    requires
        call.of(Primitive::ObjectIs, 1),
        call.before.spec_class_of(call.argument(0)) == Some(own),
        call.argument(1).spec_as_object() == Some(wanted),
        call.before.heap@.class(wanted) is Some,
    ensures
        call.says(
            exists|steps: nat|
                steps < call.before.chain_limit() && #[trigger] ancestor(
                    call.before.heap@,
                    own,
                    steps,
                ) == Some(wanted),
        ),
{
    lemma_inherits(call.before.heap@, own, wanted, call.before.chain_limit());
}

/// The type of a value is its class.
pub proof fn law_type_is_the_class(call: Call, own: ObjectId)
    requires
        call.of(Primitive::ObjectClass, 0),
        call.before.spec_class_of(call.argument(0)) == Some(own),
    ensures
        call.gives(Value::object(own)),
{
}

/// A range goes from the number that made it to the other, with the last or
/// without, as it was made.
pub proof fn law_range_is_as_it_was_made(made: Call, asked: Call, to: u64)
    requires
        made.of(Primitive::NumRange, 1) || made.of(Primitive::NumRangeExclusive, 1),
        made.argument(0).spec_is_num(),
        made.argument(1).spec_is_num() && made.argument(1).0 == to,
        asked.before.heap@ == made.after.heap@,
        asked.argument(0) == made.value(),
    ensures
        asked.of(Primitive::RangeFrom, 0) ==> asked.gives(Value::num(made.argument(0).0)),
        asked.of(Primitive::RangeTo, 0) ==> asked.gives(Value::num(to)),
        super::equality::spec_range(&asked.before, asked.argument(0)) matches Some(range)
            && range.is_inclusive == made.of(Primitive::NumRange, 1),
{
    let id = made.value().spec_as_object()->0;
    let range = made.after.heap@.range(id);
    assert(made.of(Primitive::NumRange, 1) ==> range->0.is_inclusive);
}

/// The least and the greatest end of a range are its ends, in order.
pub proof fn law_ends_of_a_range_in_order(call: Call)
    requires
        super::equality::spec_range(&call.before, call.argument(0)) matches Some(range)
            && !crate::number::not_a_number(range.from) && !crate::number::not_a_number(range.to),
    ensures
        ({
            let range = super::equality::spec_range(&call.before, call.argument(0))->0;
            &&& call.of(Primitive::RangeMin, 0) ==> exists|r: u64| #[trigger]
                call.gives(Value::num(r)) && (r == range.from || r == range.to)
                    && crate::number::worth(r) <= crate::number::worth(range.from)
                    && crate::number::worth(r) <= crate::number::worth(range.to)
            &&& call.of(Primitive::RangeMax, 0) ==> exists|r: u64| #[trigger]
                call.gives(Value::num(r)) && (r == range.from || r == range.to)
                    && crate::number::worth(r) >= crate::number::worth(range.from)
                    && crate::number::worth(r) >= crate::number::worth(range.to)
        }),
{
    let range = super::equality::spec_range(&call.before, call.argument(0))->0;
    let least = super::ranges::lesser(range.from, range.to);
    let greatest = super::ranges::greater(range.from, range.to);
    assert(call.of(Primitive::RangeMin, 0) ==> call.gives(Value::num(least)));
    assert(call.of(Primitive::RangeMax, 0) ==> call.gives(Value::num(greatest)));
}

/// Iterating a range begins with its first number, unless there is none, and
/// goes on upwards where the first is less than the last, and else downwards.
pub proof fn law_range_begins_with_its_first(call: Call)
    requires
        call.of(Primitive::RangeIterate, 1),
        super::equality::spec_range(&call.before, call.argument(0)) matches Some(range)
            && !crate::number::not_a_number(range.from) && !crate::number::not_a_number(range.to),
    ensures
        ({
            let range = super::equality::spec_range(&call.before, call.argument(0))->0;
            let from = crate::number::worth(range.from);
            let to = crate::number::worth(range.to);
            if from == to && !range.is_inclusive {
                call.says(false)
            } else if call.argument(1) == Value::null() {
                call.gives(Value::num(range.from))
            } else {
                call.argument(1).spec_is_num() && crate::number::integral(call.argument(1).0)
                    ==> call.reply == (ReplyModel::Advance {
                    range,
                    iterator: call.argument(1).0,
                    up: from < to,
                })
            }
        }),
{
}

/// Iterating a range goes on with the next number exactly as long as that is
/// not past the last, nor the last itself where it is left out.
pub proof fn law_range_goes_on_to_its_last(range: crate::object::ObjRange, next: u64, up: bool)
    requires
        !crate::number::not_a_number(next),
        !crate::number::not_a_number(range.to),
    ensures
        ({
            let ahead = crate::number::worth(range.to) - crate::number::worth(next);
            let within = if ahead == 0 {
                range.is_inclusive
            } else {
                up == (ahead > 0)
            };
            super::ranges::spec_advance(range, next, up) == if within {
                Value::num(next)
            } else {
                Value::bool(false)
            }
        }),
{
}

/// What each value of the range yields is the number itself.
pub proof fn law_range_yields_its_numbers(call: Call)
    requires
        call.of(Primitive::RangeIteratorValue, 1),
    ensures
        call.gives(call.argument(1)),
{
}

/// What is asked of a fiber says whether it is done, and what its error is; the
/// one that runs is the running one.
pub proof fn law_questions_about_a_fiber(call: Call)
    ensures
        super::fiber_methods::spec_fiber(&call.before, call.argument(0)) matches Some(fiber) ==> {
            &&& call.of(Primitive::FiberIsDone, 0) ==> call.says(fiber.done)
            &&& call.of(Primitive::FiberError, 0) ==> call.gives(fiber.error)
        },
        call.of(Primitive::FiberCurrent, 0) ==> call.gives(
            match call.before.current_fiber {
                Some(id) => Value::object(id),
                None => Value::null(),
            },
        ),
{
}

/// Aborting with a value fails with it; aborting with null does nothing.
pub proof fn law_aborting_fails_with_the_value(call: Call)
    requires
        call.of(Primitive::FiberAbort, 1),
    ensures
        call.argument(1) == Value::null() ==> call.gives(Value::null()),
        call.argument(1) != Value::null() ==> call.reply == ReplyModel::Abort(call.argument(1)),
{
}

/// A function knows how many arguments it takes, a new one is the function it
/// is made of, and calling it calls its closure with what is on the stack.
pub proof fn law_functions(call: Call, closure: ObjectId)
    ensures
        call.of(Primitive::FnArity, 0) && call.argument(0).spec_as_object() == Some(closure)
            && call.before.spec_function_of(closure) is Some ==> call.gives(
            super::list_laws::index(call.before.spec_function_of(closure)->0.arity as nat),
        ),
        call.of(Primitive::FnNew, 1) && call.before.spec_closure_value(call.argument(1)) is Some
            ==> call.gives(call.argument(1)),
        call.of(Primitive::FnCall, 0) && call.argument(0).spec_as_object() == Some(closure)
            ==> call.reply == (ReplyModel::Call { closure, at: call.at }),
{
}

/// A list and a string are themselves when they are asked for a list and for a
/// string of themselves.
pub proof fn law_what_is_already_so_is_itself(call: Call)
    ensures
        call.of(Primitive::ListToList, 0) ==> call.gives(call.argument(0)),
        call.of(Primitive::StringToString, 0) ==> call.gives(call.argument(0)),
{
}

} // verus!
