//! Methods of lists.

use vstd::prelude::*;

use super::arguments;
use super::arguments::{
    argument, integer_argument, number_argument, receiver, resolve_index, without_fraction,
};
use super::equality;
use super::equality::{range_of, values_equal};
use super::lists;
use super::lists::{list_elements, list_length, new_list};
use super::primitive::Primitive;
use super::reply;
use super::reply::{deny, give, Complaint, Reply, ReplyModel};
use super::slices::slice_indices;
use crate::heap::HeapModel;
use crate::number::{counted, less, to_usize, MINUS_ONE};
use crate::object::ObjList;
use crate::value::Value;
use crate::vm::{RuntimeError, Vm};

verus! {

/// Where the first value that equals another is, from a place on.
pub open spec fn first_equal(vm: &Vm, values: Seq<Value>, wanted: Value, from: int) -> Option<int>
    decreases values.len() - from,
{
    if from < 0 || from >= values.len() {
        None
    } else if equality::spec_values_equal(vm, values[from], wanted) {
        Some(from)
    } else {
        first_equal(vm, values, wanted, from + 1)
    }
}

/// Find the first value that equals another.
pub fn find_value(vm: &Vm, values: &Vec<Value>, wanted: Value) -> (r: Option<usize>)
    requires
        vm.wf(),
    ensures
        match r {
            Some(i) => first_equal(vm, values@, wanted, 0) == Some(i as int) && i < values@.len(),
            None => first_equal(vm, values@, wanted, 0) is None,
        },
{
    let mut i: usize = 0;
    while i < values.len()
        invariant
            vm.wf(),
            i <= values@.len(),
            first_equal(vm, values@, wanted, 0) == first_equal(vm, values@, wanted, i as int),
        decreases values@.len() - i,
    {
        if values_equal(vm, values[i], wanted) {
            return Some(i);
        }
        i = i + 1;
    }
    None
}

/// The first match is one, and nothing before it is.
pub proof fn law_first_equal(vm: &Vm, values: Seq<Value>, wanted: Value, from: int)
    requires
        0 <= from,
    ensures
        match first_equal(vm, values, wanted, from) {
            Some(i) => {
                &&& from <= i < values.len()
                &&& equality::spec_values_equal(vm, values[i], wanted)
                &&& forall|k: int|
                    from <= k < i ==> !equality::spec_values_equal(vm, #[trigger] values[k], wanted)
            },
            None => forall|k: int|
                from <= k < values.len() ==> !equality::spec_values_equal(
                    vm,
                    #[trigger] values[k],
                    wanted,
                ),
        },
    decreases values.len() - from,
{
    if from < values.len() && !equality::spec_values_equal(vm, values[from], wanted) {
        law_first_equal(vm, values, wanted, from + 1);
    }
}

/// Whether a method only asks something of a list.
pub open spec fn is_list_query(p: Primitive) -> bool {
    match p {
        Primitive::ListCount | Primitive::ListIterate | Primitive::ListIteratorValue
        | Primitive::ListContains | Primitive::ListIndexOf | Primitive::ListIsEmpty => true,
        _ => false,
    }
}

/// The element that an operand names.
pub open spec fn element_reply(elements: Seq<Value>, index: Value) -> ReplyModel {
    match arguments::spec_number(index) {
        Err(message) => reply::denies(message),
        Ok(bits) => match arguments::spec_index_in(bits, elements.len()) {
            Err(message) => reply::denies(message),
            Ok(place) => reply::gives(elements[place as int]),
        },
    }
}

/// What follows an iterator of so many elements.
pub open spec fn next_reply(length: nat, current: Value) -> ReplyModel {
    if length == 0 {
        reply::gives(Value::bool(false))
    } else if current == Value::null() {
        reply::gives(Value::num(crate::number::tally(0)))
    } else {
        match arguments::spec_integer(current, "Iterator"@) {
            Err(message) => reply::denies(message),
            Ok(bits) => {
                let index = crate::number::pressed(bits, 0, usize::MAX as int);
                if crate::number::below(bits, 0) || index >= length - 1 {
                    reply::gives(Value::bool(false))
                } else {
                    reply::gives(Value::num(crate::number::tally((index + 1) as nat)))
                }
            },
        }
    }
}

/// What a question about a list comes to.
pub open spec fn list_reply(vm: &Vm, p: Primitive, at: usize) -> ReplyModel {
    let this = arguments::given(vm, at, 0);
    let that = arguments::given(vm, at, 1);
    let elements = lists::elements_or_none(vm, this);
    match p {
        Primitive::ListCount => reply::gives(Value::num(crate::number::tally(elements.len()))),
        Primitive::ListIterate => next_reply(elements.len(), that),
        Primitive::ListIteratorValue => element_reply(elements, that),
        Primitive::ListContains => reply::gives(
            Value::bool(first_equal(vm, elements, that, 0) is Some),
        ),
        Primitive::ListIndexOf => reply::gives(
            Value::num(
                match first_equal(vm, elements, that, 0) {
                    Some(i) => crate::number::tally(i as nat),
                    None => MINUS_ONE,
                },
            ),
        ),
        _ => reply::gives(Value::bool(elements.len() == 0)),
    }
}

/// The element that an argument names.
fn element_at(vm: &Vm, list: Value, index: Value) -> (reply: Reply)
    requires
        vm.wf(),
    ensures
        reply.model() == element_reply(lists::elements_or_none(vm, list), index),
{
    match index.as_num() {
        None => deny("Right operand must be a number."),
        Some(bits) => match resolve_index(bits, list_length(vm, list)) {
            Err(error) => Reply::Done(Err(error)),
            Ok(place) => {
                let elements: Vec<Value> = list_elements(vm, list);
                give(elements[place])
            },
        },
    }
}

/// What follows an iterator of so many elements.
pub fn next_index(vm: &Vm, length: usize, at: usize) -> (reply: Reply)
    requires
        arguments::called_with(vm, at, 1),
    ensures
        reply.model() == next_reply(length as nat, arguments::given(vm, at, 1)),
{
    if length == 0 {
        return give(Value::bool(false));
    }
    if argument(vm, at, 1).is_null() {
        return give(Value::num(counted(0)));
    }
    match integer_argument(vm, at, 1, "Iterator") {
        Err(error) => Reply::Done(Err(error)),
        Ok(bits) => {
            let index: usize = to_usize(bits);
            if less(bits, 0) || index >= length - 1 {
                give(Value::bool(false))
            } else {
                give(Value::num(counted(index + 1)))
            }
        },
    }
}

/// Answer a question about a list.
pub fn reply_of_list_query(vm: &Vm, p: Primitive, at: usize) -> (reply: Reply)
    requires
        vm.wf(),
        is_list_query(p),
        arguments::called_with(vm, at, p.spec_arity()),
    ensures
        reply.model() == list_reply(vm, p, at),
{
    let this = receiver(vm, at);
    match p {
        Primitive::ListCount => give(Value::num(counted(list_length(vm, this)))),
        Primitive::ListIterate => next_index(vm, list_length(vm, this), at),
        Primitive::ListIteratorValue => element_at(vm, this, argument(vm, at, 1)),
        Primitive::ListContains => {
            let elements: Vec<Value> = list_elements(vm, this);
            match find_value(vm, &elements, argument(vm, at, 1)) {
                Some(_) => give(Value::bool(true)),
                None => give(Value::bool(false)),
            }
        },
        Primitive::ListIndexOf => {
            let elements: Vec<Value> = list_elements(vm, this);
            match find_value(vm, &elements, argument(vm, at, 1)) {
                Some(i) => give(Value::num(counted(i))),
                None => give(Value::num(MINUS_ONE)),
            }
        },
        _ => give(Value::bool(list_length(vm, this) == 0)),
    }
}

/// What a list is made of.
pub enum Listing {
    Denied(RuntimeError),
    Stuck,
    Of(Vec<Value>),
    /// There is no list to make: a method answers this.
    Instead(Reply),
}

/// What a listing says.
pub enum ListingModel {
    Denied(Complaint),
    Stuck,
    Of(Seq<Value>),
    Instead(ReplyModel),
}

impl Listing {
    /// What the listing says.
    pub open spec fn model(&self) -> ListingModel {
        match self {
            Listing::Denied(error) => ListingModel::Denied(reply::complains(*error)),
            Listing::Stuck => ListingModel::Stuck,
            Listing::Of(values) => ListingModel::Of(values@),
            Listing::Instead(reply) => ListingModel::Instead(reply.model()),
        }
    }
}

/// Whether a method makes a list.
pub open spec fn is_list_maker(p: Primitive) -> bool {
    match p {
        Primitive::ListNew | Primitive::ListAt | Primitive::ListPlus
        | Primitive::ListFilled => true,
        _ => false,
    }
}

/// The values at these places.
pub open spec fn taken(values: Seq<Value>, places: Seq<int>) -> Seq<Value> {
    places.map_values(|i: int| values[i])
}

/// What a list of one value, so many times, is made of. There is no list with
/// more values of eight bytes than memory can be addressed for.
pub open spec fn filled(count: Value, value: Value) -> ListingModel {
    match arguments::spec_number(count) {
        Err(message) => ListingModel::Denied(reply::complaint(message)),
        Ok(bits) => if crate::number::below(bits, 0) || !arguments::has_no_fraction(bits) {
            ListingModel::Denied(reply::complaint("Size must be a non-negative integer."@))
        } else {
            let n = crate::number::pressed(bits, 0, usize::MAX as int);
            if n * 8 > isize::MAX {
                ListingModel::Stuck
            } else {
                ListingModel::Of(Seq::new(n as nat, |i: int| value))
            }
        },
    }
}

/// What a subscript of a list comes to.
pub open spec fn subscript(vm: &Vm, elements: Seq<Value>, index: Value) -> ListingModel {
    match equality::spec_range(vm, index) {
        None => ListingModel::Instead(element_reply(elements, index)),
        Some(range) => if elements.len() > isize::MAX {
            ListingModel::Stuck
        } else {
            match super::slices::slice(range, elements.len()) {
                Err(message) => ListingModel::Denied(reply::complaint(message)),
                Ok(places) => ListingModel::Of(taken(elements, places)),
            }
        },
    }
}

/// What a method that makes a list makes it of.
pub open spec fn spec_listing(vm: &Vm, p: Primitive, at: usize) -> ListingModel {
    let this = arguments::given(vm, at, 0);
    let that = arguments::given(vm, at, 1);
    let elements = lists::elements_or_none(vm, this);
    match p {
        Primitive::ListNew => ListingModel::Of(Seq::empty()),
        Primitive::ListAt => subscript(vm, elements, that),
        Primitive::ListPlus => match lists::spec_elements(vm, that) {
            None => ListingModel::Denied(reply::complaint("Right operand must be a list."@)),
            Some(more) => ListingModel::Of(elements + more),
        },
        _ => filled(that, arguments::given(vm, at, 2)),
    }
}

/// One value, so many times.
fn fill(value: Value, count: usize) -> (values: Vec<Value>)
    ensures
        values@ == Seq::new(count as nat, |i: int| value),
{
    let mut values: Vec<Value> = Vec::new();
    while values.len() < count
        invariant
            values@.len() <= count,
            forall|i: int| 0 <= i < values@.len() ==> #[trigger] values@[i] == value,
        decreases count - values@.len(),
    {
        values.push(value);
    }
    proof {
        assert(values@ =~= Seq::new(count as nat, |i: int| value));
    }
    values
}

/// The values at these places.
fn take_at(values: &Vec<Value>, places: &Vec<usize>) -> (out: Vec<Value>)
    requires
        forall|k: int| 0 <= k < places@.len() ==> #[trigger] places@[k] < values@.len(),
    ensures
        out@ == taken(values@, super::slices::places(places@)),
{
    let mut out: Vec<Value> = Vec::new();
    let ghost all = taken(values@, super::slices::places(places@));
    let mut i: usize = 0;
    while i < places.len()
        invariant
            i <= places@.len(),
            forall|k: int| 0 <= k < places@.len() ==> #[trigger] places@[k] < values@.len(),
            all == taken(values@, super::slices::places(places@)),
            out@ == all.take(i as int),
        decreases places@.len() - i,
    {
        out.push(values[places[i]]);
        proof {
            assert(out@ =~= all.take(i as int + 1));
        }
        i = i + 1;
    }
    proof {
        assert(all.take(i as int) =~= all);
    }
    out
}

/// Put values at the end of others.
pub fn append_values(values: &mut Vec<Value>, more: &Vec<Value>)
    ensures
        final(values)@ == old(values)@ + more@,
{
    let ghost before = values@;
    let mut i: usize = 0;
    while i < more.len()
        invariant
            i <= more@.len(),
            values@ == before + more@.take(i as int),
        decreases more@.len() - i,
    {
        values.push(more[i]);
        proof {
            assert(values@ =~= before + more@.take(i as int + 1));
        }
        i = i + 1;
    }
    proof {
        assert(more@.take(i as int) =~= more@);
    }
}

/// What a subscript of a list comes to.
fn at_subscript(vm: &Vm, list: Value, index: Value) -> (listing: Listing)
    requires
        vm.wf(),
    ensures
        listing.model() == subscript(vm, lists::elements_or_none(vm, list), index),
{
    match range_of(vm, index) {
        None => Listing::Instead(element_at(vm, list, index)),
        Some(range) => {
            let elements: Vec<Value> = list_elements(vm, list);
            if elements.len() > isize::MAX as usize {
                return Listing::Stuck;
            }
            match slice_indices(&range, elements.len()) {
                Err(error) => Listing::Denied(error),
                Ok(places) => Listing::Of(take_at(&elements, &places)),
            }
        },
    }
}

/// What a method that makes a list makes it of.
pub fn make_listing(vm: &Vm, p: Primitive, at: usize) -> (listing: Listing)
    requires
        vm.wf(),
        is_list_maker(p),
        arguments::called_with(vm, at, p.spec_arity()),
    ensures
        listing.model() == spec_listing(vm, p, at),
{
    let this = receiver(vm, at);
    match p {
        Primitive::ListNew => Listing::Of(Vec::new()),
        Primitive::ListAt => at_subscript(vm, this, argument(vm, at, 1)),
        Primitive::ListPlus => {
            let mut joined: Vec<Value> = list_elements(vm, this);
            match argument(vm, at, 1).as_object() {
                None => Listing::Denied(RuntimeError::new("Right operand must be a list.")),
                Some(id) => match vm.heap.list(id) {
                    None => Listing::Denied(RuntimeError::new("Right operand must be a list.")),
                    Some(more) => {
                        append_values(&mut joined, &more.elements);
                        Listing::Of(joined)
                    },
                },
            }
        },
        _ => match number_argument(vm, at, 1) {
            Err(error) => Listing::Denied(error),
            Ok(bits) => {
                if less(bits, 0) || !without_fraction(bits) {
                    return Listing::Denied(
                        RuntimeError::new("Size must be a non-negative integer."),
                    );
                }
                let count: usize = to_usize(bits);
                if count > isize::MAX as usize / 8 {
                    Listing::Stuck
                } else {
                    Listing::Of(fill(argument(vm, at, 2), count))
                }
            },
        },
    }
}

/// Whether a machine is an earlier one after a listing was made a list.
pub open spec fn listed(before: &Vm, after: &Vm, listing: ListingModel, reply: ReplyModel) -> bool {
    match listing {
        ListingModel::Denied(said) => reply == ReplyModel::Done(Err(said)) && *after == *before,
        ListingModel::Stuck => reply is Stuck && *after == *before,
        ListingModel::Instead(other) => reply == other && *after == *before,
        ListingModel::Of(values) => {
            &&& reply matches ReplyModel::Done(Ok(value))
            &&& lists::made_list(before, after, value, values)
        },
    }
}

/// Make the list of a listing.
pub fn make_list(vm: &mut Vm, listing: Listing) -> (reply: Reply)
    requires
        old(vm).wf(),
        old(vm).heap.has_room(1),
    ensures
        final(vm).wf(),
        listed(old(vm), final(vm), listing.model(), reply.model()),
{
    match listing {
        Listing::Denied(error) => Reply::Done(Err(error)),
        Listing::Stuck => Reply::Stuck,
        Listing::Instead(reply) => reply,
        Listing::Of(values) => {
            give(new_list(vm, values))
        },
    }
}

/// What becomes of a list.
pub enum Change {
    Denied(Seq<char>),
    Stuck,
    /// The list is left as it is, and this is answered.
    Same(Value),
    /// The list is given these elements, one of which was stored, and this is
    /// answered.
    To { elements: Seq<Value>, stored: Value, value: Value },
}

/// Whether a method changes a list.
pub open spec fn is_list_change(p: Primitive) -> bool {
    match p {
        Primitive::ListAddCore | Primitive::ListAdd | Primitive::ListSetAt | Primitive::ListInsert
        | Primitive::ListRemoveAt | Primitive::ListClear => true,
        _ => false,
    }
}

/// Where an index says that an element goes in. An index that is further from
/// zero than a word can count names no place.
pub open spec fn insertion(bits: u64, length: nat) -> Option<nat> {
    if !crate::number::finite(bits) || crate::number::integer_part(bits) < -(u64::MAX as int) {
        None
    } else {
        let index = crate::number::integer_part(bits);
        let place = if index < 0 {
            index + length + 1
        } else {
            index
        };
        if 0 <= place <= length {
            Some(place as nat)
        } else {
            None
        }
    }
}

/// What a method makes of elements.
pub open spec fn changed(
    p: Primitive,
    this: Value,
    elements: Seq<Value>,
    first: Value,
    second: Value,
) -> Change {
    match p {
        Primitive::ListAddCore => Change::To {
            elements: elements.push(first),
            stored: first,
            value: this,
        },
        Primitive::ListAdd => Change::To {
            elements: elements.push(first),
            stored: first,
            value: first,
        },
        Primitive::ListSetAt => match arguments::spec_number(first) {
            Err(message) => Change::Denied(message),
            Ok(bits) => match arguments::spec_index_in(bits, elements.len()) {
                Err(message) => Change::Denied(message),
                Ok(place) => Change::To {
                    elements: elements.update(place as int, second),
                    stored: second,
                    value: second,
                },
            },
        },
        Primitive::ListInsert => match arguments::spec_integer(first, "Index"@) {
            Err(message) => Change::Denied(message),
            Ok(bits) => match insertion(bits, elements.len()) {
                None => Change::Denied("Index out of bounds."@),
                Some(place) => Change::To {
                    elements: elements.insert(place as int, second),
                    stored: second,
                    value: second,
                },
            },
        },
        Primitive::ListRemoveAt => match arguments::spec_number(first) {
            Err(message) => Change::Denied(message),
            Ok(bits) => match arguments::spec_index_in(bits, elements.len()) {
                Err(message) => Change::Denied(message),
                Ok(place) => Change::To {
                    elements: elements.remove(place as int),
                    stored: Value::null(),
                    value: elements[place as int],
                },
            },
        },
        _ => Change::To {
            elements: Seq::empty(),
            stored: Value::null(),
            value: Value::null(),
        },
    }
}

/// What a method makes of whatever it was called on. What is not a list has no
/// elements to change.
pub open spec fn list_change(vm: &Vm, p: Primitive, at: usize) -> Change {
    let this = arguments::given(vm, at, 0);
    let change = changed(
        p,
        this,
        lists::elements_or_none(vm, this),
        arguments::given(vm, at, 1),
        arguments::given(vm, at, 2),
    );
    if lists::spec_elements(vm, this) is Some || !(change is To) {
        change
    } else if p is ListClear {
        Change::Same(Value::null())
    } else if this.spec_as_object() is Some {
        Change::Denied("Receiver must be a list."@)
    } else {
        Change::Stuck
    }
}

/// Whether a machine is an earlier one with a list given other elements.
pub open spec fn list_set(
    before: &Vm,
    after: &Vm,
    list: Value,
    elements: Seq<Value>,
    stored: Value,
) -> bool {
    &&& *after == (Vm { heap: after.heap, ..*before })
    &&& list.spec_as_object() matches Some(id)
    &&& after.heap@.list(id) matches Some(now)
    &&& now.elements@ == elements
    &&& after.heap@ == (HeapModel {
        lists: before.heap@.lists.insert(id.spec_index(), now),
        ..before.heap@
    })
    &&& after.heap.stats() == before.heap.stats()
    &&& after.heap.same_room(&before.heap)
    &&& after.heap.barrier_told(&before.heap, id, stored)
}

/// Whether a machine is an earlier one after a list changed.
pub open spec fn list_changed(
    before: &Vm,
    after: &Vm,
    list: Value,
    change: Change,
    reply: ReplyModel,
) -> bool {
    match change {
        Change::Denied(message) => reply == reply::denies(message) && *after == *before,
        Change::Stuck => reply is Stuck && *after == *before,
        Change::Same(value) => reply == reply::gives(value) && *after == *before,
        Change::To { elements, stored, value } => {
            &&& reply == reply::gives(value)
            &&& list_set(before, after, list, elements, stored)
        },
    }
}

/// Give a list other elements.
pub fn set_elements(vm: &mut Vm, list: Value, elements: Vec<Value>, stored: Value)
    requires
        old(vm).wf(),
        lists::spec_elements(old(vm), list) is Some,
    ensures
        final(vm).wf(),
        list_set(old(vm), final(vm), list, elements@, stored),
{
    match list.as_object() {
        None => {},
        Some(id) => {
            match vm.heap.list_mut(id) {
                None => {},
                Some(now) => {
                    *now = ObjList { elements };
                },
            }
            vm.heap.wrote(id, stored);
        },
    }
}

/// Where an index says that an element goes in.
fn insertion_place(bits: u64, length: usize) -> (r: Option<usize>)
    ensures
        match insertion(bits, length as nat) {
            Some(place) => r == Some(place as usize) && place <= length,
            None => r is None,
        },
{
    if crate::number::is_infinite(bits) || crate::number::is_nan(bits) {
        return None;
    }
    let whole: u64 = match crate::number::whole_magnitude(bits) {
        None => {
            return None;
        },
        Some(whole) => whole,
    };
    if whole != 0 && bits >= crate::number::SIGN {
        if whole - 1 > length as u64 {
            None
        } else {
            Some(length - (whole - 1) as usize)
        }
    } else if whole > length as u64 {
        None
    } else {
        Some(whole as usize)
    }
}

/// Carry out a method that changes a list.
pub fn reply_of_list_change(vm: &mut Vm, p: Primitive, at: usize) -> (reply: Reply)
    requires
        old(vm).wf(),
        is_list_change(p),
        arguments::called_with(old(vm), at, p.spec_arity()),
    ensures
        final(vm).wf(),
        list_changed(
            old(vm),
            final(vm),
            arguments::given(old(vm), at, 0),
            list_change(old(vm), p, at),
            reply.model(),
        ),
{
    let this = receiver(vm, at);
    let mut elements: Vec<Value> = list_elements(vm, this);
    let length: usize = elements.len();
    let mut stored = Value::null();
    let mut value = Value::null();
    match p {
        Primitive::ListAddCore => {
            stored = argument(vm, at, 1);
            value = this;
            elements.push(stored);
        },
        Primitive::ListAdd => {
            stored = argument(vm, at, 1);
            value = stored;
            elements.push(stored);
        },
        Primitive::ListSetAt => {
            match number_argument(vm, at, 1) {
                Err(error) => {
                    return Reply::Done(Err(error));
                },
                Ok(bits) => match resolve_index(bits, length) {
                    Err(error) => {
                        return Reply::Done(Err(error));
                    },
                    Ok(place) => {
                        stored = argument(vm, at, 2);
                        value = stored;
                        elements.set(place, stored);
                    },
                },
            }
        },
        Primitive::ListInsert => {
            match integer_argument(vm, at, 1, "Index") {
                Err(error) => {
                    return Reply::Done(Err(error));
                },
                Ok(bits) => match insertion_place(bits, length) {
                    None => {
                        return deny("Index out of bounds.");
                    },
                    Some(place) => {
                        stored = argument(vm, at, 2);
                        value = stored;
                        elements.insert(place, stored);
                    },
                },
            }
        },
        Primitive::ListRemoveAt => {
            match number_argument(vm, at, 1) {
                Err(error) => {
                    return Reply::Done(Err(error));
                },
                Ok(bits) => match resolve_index(bits, length) {
                    Err(error) => {
                        return Reply::Done(Err(error));
                    },
                    Ok(place) => {
                        value = elements.remove(place);
                    },
                },
            }
        },
        _ => {
            elements = Vec::new();
        },
    }
    match this.as_object() {
        None => {
            if matches!(p, Primitive::ListClear) {
                return give(Value::null());
            }
            Reply::Stuck
        },
        Some(id) => match vm.heap.list(id) {
            None => {
                if matches!(p, Primitive::ListClear) {
                    return give(Value::null());
                }
                deny("Receiver must be a list.")
            },
            Some(_) => {
                set_elements(vm, this, elements, stored);
                give(value)
            },
        },
    }
}

/// What was added to a list is its last element.
pub proof fn law_added_element_is_last(before: &Vm, after: &Vm, list: Value, element: Value)
    requires
        lists::spec_elements(before, list) is Some,
        list_changed(
            before,
            after,
            list,
            changed(
                Primitive::ListAdd,
                list,
                lists::elements_or_none(before, list),
                element,
                Value::null(),
            ),
            reply::gives(element),
        ),
    ensures
        lists::spec_elements(after, list) == Some(
            lists::elements_or_none(before, list).push(element),
        ),
{
}

/// Changing one list leaves every other as it is.
pub proof fn law_other_lists_stay(
    before: &Vm,
    after: &Vm,
    list: Value,
    elements: Seq<Value>,
    stored: Value,
    other: Value,
)
    requires
        list_set(before, after, list, elements, stored),
        lists::spec_elements(before, list) is Some,
        lists::spec_elements(before, other) is Some,
        other.spec_as_object() != list.spec_as_object(),
    ensures
        lists::spec_elements(after, other) == lists::spec_elements(before, other),
{
    let a = list.spec_as_object()->0;
    let b = other.spec_as_object()->0;
    crate::handle::lemma_parts_determine(a);
    assert(b.spec_index() != a.spec_index());
}

} // verus!
