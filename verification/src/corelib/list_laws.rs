//! What holds of the methods of lists.

use vstd::prelude::*;

use super::equality;
use super::lists;
use super::primitive::Primitive;
use super::reply::ReplyModel;
use crate::value::Value;
use crate::vm::Vm;

verus! {

/// A method of a list that was called.
pub struct Call {
    pub before: Vm,
    pub after: Vm,
    pub at: usize,
    pub reply: ReplyModel,
    /// What the list holds.
    pub elements: Seq<Value>,
}

impl Call {
    /// Whether a method was called with so many arguments.
    pub open spec fn of(self, p: Primitive, count: int) -> bool {
        &&& super::perform::performed(&self.before, &self.after, p, self.at, self.reply)
        &&& self.at + count < self.before.stack@.len()
        &&& !(self.reply is Full)
        &&& lists::spec_elements(&self.before, self.argument(0)) == Some(self.elements)
    }

    /// The receiver, or one of the arguments.
    pub open spec fn argument(self, index: int) -> Value {
        self.before.stack@[self.at + index]
    }

    /// Whether an argument is an integer.
    pub open spec fn is_integer(self, index: int, n: int) -> bool {
        &&& self.argument(index).spec_is_num()
        &&& crate::number::finite(self.argument(index).0)
        &&& crate::number::worth(self.argument(index).0) == n * crate::number::one()
    }

    /// The place that an index means: from the end, where it is negative.
    pub open spec fn place(self, n: int) -> int {
        if n < 0 {
            n + self.elements.len()
        } else {
            n
        }
    }

    /// Whether a value came of it.
    pub open spec fn gives(self, value: Value) -> bool {
        self.reply == ReplyModel::Done(Ok(value))
    }

    /// What the list holds now.
    pub open spec fn now(self) -> Seq<Value> {
        lists::spec_elements(&self.after, self.argument(0))->0
    }

    /// Whether it is still a list.
    pub open spec fn is_list(self) -> bool {
        lists::spec_elements(&self.after, self.argument(0)) is Some
    }
}

/// The number that an index is.
pub open spec fn index(n: nat) -> Value {
    Value::num(crate::number::tally(n))
}

/// An index is an integer, and says which.
pub proof fn lemma_index(n: nat)
    requires
        n < crate::number::MAX_COUNT,
    ensures
        index(n).spec_is_num(),
        !index(n).spec_is_falsy(),
        index(n) != Value::null(),
        crate::number::finite(index(n).0),
        crate::number::integral(index(n).0),
        crate::number::integer_part(index(n).0) == n,
        crate::number::worth(index(n).0) == n * crate::number::one(),
        !crate::number::below(index(n).0, 0),
        crate::number::pressed(index(n).0, 0, usize::MAX as int) == if n <= usize::MAX {
            n as int
        } else {
            usize::MAX as int
        },
{
    crate::number::lemma_tally(n);
    crate::value::law_finite_number_is_a_value(crate::number::tally(n));
    crate::value::law_kinds_exclusive(index(n));
    crate::value::law_kinds_exclusive(Value::null());
    crate::value::law_kinds_exclusive(Value::bool(false));
    assert(crate::number::magnitude(0) == 0);
}

/// A subscript gives the element at the index, counted from the end where the
/// index is negative.
pub proof fn law_subscript_gives_the_element(call: Call, n: int)
    requires
        call.of(Primitive::ListAt, 1) || call.of(Primitive::ListIteratorValue, 1),
        call.is_integer(1, n),
        super::equality::spec_range(&call.before, call.argument(1)) is None,
        -call.elements.len() <= n < call.elements.len(),
    ensures
        call.gives(call.elements[call.place(n)]),
{
    crate::number::law_integers_survive(n, call.argument(1).0);
}

/// An index that no element has is refused.
pub proof fn law_subscript_out_of_bounds_is_refused(call: Call, n: int)
    requires
        call.of(Primitive::ListAt, 1) || call.of(Primitive::ListIteratorValue, 1) || call.of(
            Primitive::ListSetAt,
            2,
        ) || call.of(Primitive::ListRemoveAt, 1),
        call.is_integer(1, n),
        super::equality::spec_range(&call.before, call.argument(1)) is None,
        n < -call.elements.len() || call.elements.len() <= n,
    ensures
        call.reply == super::reply::denies("Index out of bounds."@),
        call.is_list() && call.now() == call.elements,
{
    crate::number::law_integers_survive(n, call.argument(1).0);
}

/// Storing at an index changes that element and no other.
pub proof fn law_stored_element_is_there(call: Call, n: int)
    requires
        call.of(Primitive::ListSetAt, 2),
        call.is_integer(1, n),
        -call.elements.len() <= n < call.elements.len(),
    ensures
        call.gives(call.argument(2)),
        call.is_list(),
        call.now().len() == call.elements.len(),
        call.now()[call.place(n)] == call.argument(2),
        forall|i: int|
            0 <= i < call.elements.len() && i != call.place(n) ==> #[trigger] call.now()[i]
                == call.elements[i],
{
    crate::number::law_integers_survive(n, call.argument(1).0);
}

/// Inserting at an index puts the element there, and moves up those that were
/// there and behind. A negative index counts from behind the last element.
pub proof fn law_inserted_element_is_there(call: Call, n: int)
    requires
        call.of(Primitive::ListInsert, 2),
        call.is_integer(1, n),
        -call.elements.len() - 1 <= n <= call.elements.len(),
        call.elements.len() < u64::MAX,
    ensures
        ({
            let place = if n < 0 {
                n + call.elements.len() + 1
            } else {
                n
            };
            &&& call.gives(call.argument(2))
            &&& call.is_list()
            &&& call.now().len() == call.elements.len() + 1
            &&& call.now()[place] == call.argument(2)
            &&& forall|i: int| 0 <= i < place ==> #[trigger] call.now()[i] == call.elements[i]
            &&& forall|i: int|
                place <= i < call.elements.len() ==> #[trigger] call.elements[i] == call.now()[i
                    + 1]
        }),
{
    crate::number::law_integers_survive(n, call.argument(1).0);
}

/// Removing at an index gives the element that was there, and closes the gap.
pub proof fn law_removed_element_is_given(call: Call, n: int)
    requires
        call.of(Primitive::ListRemoveAt, 1),
        call.is_integer(1, n),
        -call.elements.len() <= n < call.elements.len(),
    ensures
        call.gives(call.elements[call.place(n)]),
        call.is_list(),
        call.now().len() == call.elements.len() - 1,
        forall|i: int|
            0 <= i < call.place(n) ==> #[trigger] call.now()[i] == call.elements[i],
        forall|i: int|
            call.place(n) <= i < call.now().len() ==> #[trigger] call.now()[i]
                == call.elements[i + 1],
{
    crate::number::law_integers_survive(n, call.argument(1).0);
}

/// Adding puts an element behind all others. A list literal's elements are
/// added by a method that gives the list itself.
pub proof fn law_added_element_comes_last(call: Call)
    ensures
        call.of(Primitive::ListAdd, 1) ==> call.gives(call.argument(1)) && call.is_list()
            && call.now() == call.elements.push(call.argument(1)),
        call.of(Primitive::ListAddCore, 1) ==> call.gives(call.argument(0)) && call.is_list()
            && call.now() == call.elements.push(call.argument(1)),
        call.of(Primitive::ListClear, 0) ==> call.gives(Value::null()) && call.is_list()
            && call.now().len() == 0,
{
}

/// What is asked of a list says how many elements it has, and where one is
/// first.
pub proof fn law_questions_about_a_list(call: Call)
    ensures
        call.of(Primitive::ListCount, 0) ==> call.gives(index(call.elements.len())),
        call.of(Primitive::ListIsEmpty, 0) ==> call.gives(Value::bool(call.elements.len() == 0)),
        call.of(Primitive::ListContains, 1) ==> call.gives(
            Value::bool(
                exists|i: int|
                    0 <= i < call.elements.len() && #[trigger] equality::spec_values_equal(
                        &call.before,
                        call.elements[i],
                        call.argument(1),
                    ),
            ),
        ),
        forall|i: int|
            call.of(Primitive::ListIndexOf, 1) && 0 <= i < call.elements.len()
                && #[trigger] equality::spec_values_equal(
                &call.before,
                call.elements[i],
                call.argument(1),
            ) && (forall|k: int|
                0 <= k < i ==> !equality::spec_values_equal(
                    &call.before,
                    #[trigger] call.elements[k],
                    call.argument(1),
                )) ==> call.gives(index(i as nat)),
{
    super::list_methods::law_first_equal(&call.before, call.elements, call.argument(1), 0);
}

/// Two lists put together are a new list of the elements of both, and the two
/// stay as they were.
pub proof fn law_lists_put_together(call: Call, more: Seq<Value>)
    requires
        call.of(Primitive::ListPlus, 1),
        lists::spec_elements(&call.before, call.argument(1)) == Some(more),
    ensures
        call.reply matches ReplyModel::Done(Ok(value)) && lists::spec_elements(
            &call.after,
            value,
        ) == Some(call.elements + more),
        call.is_list() && call.now() == call.elements,
{
    broadcast use crate::value::law_object_round_trip;

    let value = call.reply->Done_0->Ok_0;
    let id = value.spec_as_object()->0;
    let list = call.after.heap@.list(id)->0;
    call.after.heap.law_allocation_keeps(
        &call.before.heap,
        id,
        crate::object::Object::List(list),
    );
    let this = call.argument(0).spec_as_object()->0;
    assert(call.after.heap@.list(this) == call.before.heap@.list(this));
}

/// Whether a method of a list of these elements, called with an argument, gave
/// this.
pub open spec fn answers(p: Primitive, elements: Seq<Value>, argument: Value, answer: Value) -> bool {
    exists|call: Call| #[trigger]
        call.of(p, 1) && call.elements == elements && call.argument(1) == argument && call.gives(
            answer,
        )
}

/// What `iterate` is given the next time, after so many times.
pub open spec fn reached(iterators: Seq<Value>, k: int) -> Value {
    if k == 0 {
        Value::null()
    } else {
        iterators[k - 1]
    }
}

/// What iterating a list gives: the first index to begin with, after an index
/// the next, and after the last that there is none.
proof fn lemma_list_iterates(call: Call, n: int)
    requires
        call.of(Primitive::ListIterate, 1),
        call.elements.len() < crate::number::MAX_COUNT,
        call.elements.len() <= usize::MAX,
        -1 <= n < call.elements.len(),
        call.argument(1) == if n < 0 {
            Value::null()
        } else {
            index(n as nat)
        },
    ensures
        call.gives(
            if n + 1 < call.elements.len() {
                index((n + 1) as nat)
            } else {
                Value::bool(false)
            },
        ),
{
    if n >= 0 {
        lemma_index(n as nat);
    }
}

/// What a list gives for an index it was iterated to is the element there.
proof fn lemma_list_is_read(call: Call, n: int)
    requires
        call.of(Primitive::ListIteratorValue, 1),
        call.elements.len() < crate::number::MAX_COUNT,
        0 <= n < call.elements.len(),
        call.argument(1) == index(n as nat),
    ensures
        call.gives(call.elements[n]),
{
    lemma_index(n as nat);
}

/// Iterating a list goes through each element once, in order. Beginning with
/// null, and going on with what `iterate` gave each time as long as it is not
/// false, `iteratorValue` gives the first element, the second, and so on to the
/// last; and then `iterate` gives false.
pub proof fn law_iterating_a_list_gives_each_element_once(
    elements: Seq<Value>,
    iterators: Seq<Value>,
    read: Seq<Value>,
    last: Value,
)
    requires
        elements.len() < crate::number::MAX_COUNT,
        elements.len() <= usize::MAX,
        iterators.len() == read.len(),
        forall|k: int|
            0 <= k < iterators.len() ==> answers(
                Primitive::ListIterate,
                elements,
                #[trigger] reached(iterators, k),
                iterators[k],
            ) && !iterators[k].spec_is_falsy(),
        forall|k: int|
            0 <= k < read.len() ==> answers(
                Primitive::ListIteratorValue,
                elements,
                iterators[k],
                #[trigger] read[k],
            ),
        answers(
            Primitive::ListIterate,
            elements,
            reached(iterators, iterators.len() as int),
            last,
        ),
        last.spec_is_falsy(),
    ensures
        read == elements,
{
    lemma_iterators(elements, iterators);
    let n = iterators.len() as int;
    let call = choose|call: Call| #[trigger]
        call.of(Primitive::ListIterate, 1) && call.elements == elements && call.argument(1)
            == reached(iterators, n) && call.gives(last);
    lemma_list_iterates(call, n - 1);
    if n < elements.len() {
        lemma_index(n as nat);
    }
    assert forall|k: int| 0 <= k < read.len() implies read[k] == elements[k] by {
        assert(answers(Primitive::ListIteratorValue, elements, iterators[k], read[k]));
        let call = choose|call: Call| #[trigger]
            call.of(Primitive::ListIteratorValue, 1) && call.elements == elements
                && call.argument(1) == iterators[k] && call.gives(read[k]);
        assert(iterators[k] == index(k as nat));
        lemma_list_is_read(call, k);
    }
    assert(read =~= elements);
}

/// What iterating a list gives, one after the other, are the indices.
proof fn lemma_iterators(elements: Seq<Value>, iterators: Seq<Value>)
    requires
        elements.len() < crate::number::MAX_COUNT,
        elements.len() <= usize::MAX,
        forall|k: int|
            0 <= k < iterators.len() ==> answers(
                Primitive::ListIterate,
                elements,
                #[trigger] reached(iterators, k),
                iterators[k],
            ) && !iterators[k].spec_is_falsy(),
    ensures
        iterators.len() <= elements.len(),
        forall|k: int|
            0 <= k < iterators.len() ==> #[trigger] iterators[k] == index(k as nat),
    decreases iterators.len(),
{
    if iterators.len() > 0 {
        let earlier = iterators.drop_last();
        let n = earlier.len() as int;
        assert forall|k: int| 0 <= k < earlier.len() implies answers(
            Primitive::ListIterate,
            elements,
            #[trigger] reached(earlier, k),
            earlier[k],
        ) && !earlier[k].spec_is_falsy() by {
            assert(reached(earlier, k) == reached(iterators, k));
        }
        lemma_iterators(elements, earlier);
        let argument = reached(iterators, n);
        assert(answers(Primitive::ListIterate, elements, argument, iterators[n]));
        let call = choose|call: Call| #[trigger]
            call.of(Primitive::ListIterate, 1) && call.elements == elements && call.argument(1)
                == argument && call.gives(iterators[n]);
        if n > 0 {
            assert(iterators[n - 1] == earlier[n - 1]);
        }
        lemma_list_iterates(call, n - 1);
        assert forall|k: int| 0 <= k < iterators.len() implies #[trigger] iterators[k] == index(
            k as nat,
        ) by {
            if k < n {
                assert(iterators[k] == earlier[k]);
            }
        }
    }
}

/// A new list has no elements, and one that is filled has so many, all of them
/// the value it is filled with.
pub proof fn law_lists_are_made(call: super::object_laws::Call, n: nat)
    requires
        call.argument(1).spec_is_num(),
        crate::number::finite(call.argument(1).0),
        crate::number::worth(call.argument(1).0) == n * crate::number::one(),
        n * 8 <= isize::MAX,
    ensures
        call.of(Primitive::ListNew, 0) ==> lists::spec_elements(&call.after, call.value()) == Some(
            Seq::<Value>::empty(),
        ),
        call.of(Primitive::ListFilled, 2) ==> {
            &&& lists::spec_elements(&call.after, call.value()) matches Some(elements)
            &&& elements.len() == n
            &&& forall|i: int| 0 <= i < n ==> #[trigger] elements[i] == call.argument(2)
        },
{
    broadcast use crate::value::law_object_round_trip;

    crate::number::law_integers_survive(n as int, call.argument(1).0);
    assert(crate::number::magnitude(0) == 0);
}

/// A subscript with a range gives the elements from the first of the range to
/// its last, in order, backwards where the range goes down; the last is left
/// out where the range leaves it out.
pub proof fn law_range_subscript_gives_the_part(call: Call, range: crate::object::ObjRange, from: int, to: int)
    requires
        call.of(Primitive::ListAt, 1),
        equality::spec_range(&call.before, call.argument(1)) == Some(range),
        crate::number::finite(range.from) && crate::number::worth(range.from) == from
            * crate::number::one(),
        crate::number::finite(range.to) && crate::number::worth(range.to) == to
            * crate::number::one(),
        call.elements.len() <= isize::MAX,
        0 <= from < call.elements.len(),
        0 <= to,
        range.is_inclusive ==> to < call.elements.len(),
        !range.is_inclusive ==> to <= call.elements.len(),
    ensures
        ({
            let value = call.reply->Done_0->Ok_0;
            let count = if range.is_inclusive {
                if from <= to {
                    to - from + 1
                } else {
                    from - to + 1
                }
            } else if from <= to {
                to - from
            } else {
                from - to
            };
            &&& lists::spec_elements(&call.after, value) matches Some(part)
            &&& part.len() == count
            &&& forall|k: int|
                0 <= k < count ==> #[trigger] part[k] == call.elements[if from <= to {
                    from + k
                } else {
                    from - k
                }]
        }),
{
    broadcast use crate::value::law_object_round_trip;

    crate::number::law_integers_survive(from, range.from);
    crate::number::law_integers_survive(to, range.to);
}

} // verus!
