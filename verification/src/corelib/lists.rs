//! Lists.

use vstd::prelude::*;

use crate::object::{ObjList, Object};
use crate::value::Value;
use crate::vm::Vm;

verus! {

/// The elements of a list.
pub open spec fn spec_elements(vm: &Vm, value: Value) -> Option<Seq<Value>> {
    match value.spec_as_object() {
        Some(id) => match vm.heap@.list(id) {
            Some(list) => Some(list.elements@),
            None => None,
        },
        None => None,
    }
}

/// The elements of a list; none for anything else.
pub open spec fn elements_or_none(vm: &Vm, value: Value) -> Seq<Value> {
    match spec_elements(vm, value) {
        Some(elements) => elements,
        None => Seq::empty(),
    }
}

/// A copy of values.
pub fn copy_values(values: &Vec<Value>) -> (copy: Vec<Value>)
    ensures
        copy@ == values@,
{
    let mut copy: Vec<Value> = Vec::new();
    let mut i: usize = 0;
    while i < values.len()
        invariant
            i <= values@.len(),
            copy@ == values@.take(i as int),
        decreases values@.len() - i,
    {
        copy.push(values[i]);
        proof {
            assert(values@.take(i as int + 1) =~= values@.take(i as int).push(values@[i as int]));
        }
        i = i + 1;
    }
    proof {
        assert(values@.take(i as int) =~= values@);
    }
    copy
}

/// The elements of a list; none for anything else.
pub fn list_elements(vm: &Vm, list: Value) -> (elements: Vec<Value>)
    requires
        vm.wf(),
    ensures
        elements@ == elements_or_none(vm, list),
{
    match list.as_object() {
        Some(id) => match vm.heap.list(id) {
            Some(list) => copy_values(&list.elements),
            None => Vec::new(),
        },
        None => Vec::new(),
    }
}

/// How many elements a list has; none for anything else.
pub fn list_length(vm: &Vm, list: Value) -> (length: usize)
    requires
        vm.wf(),
    ensures
        length == elements_or_none(vm, list).len(),
{
    match list.as_object() {
        Some(id) => match vm.heap.list(id) {
            Some(list) => list.elements.len(),
            None => 0,
        },
        None => 0,
    }
}

/// Whether a machine is an earlier one with a list of these elements added.
pub open spec fn made_list(before: &Vm, after: &Vm, value: Value, elements: Seq<Value>) -> bool {
    &&& value.spec_as_object() matches Some(id)
    &&& value == Value::object(id)
    &&& after.heap@.list(id) matches Some(list)
    &&& list.elements@ == elements
    &&& after.heap.allocated(&before.heap, id, Object::List(list))
    &&& *after == (Vm { heap: after.heap, ..*before })
}

/// Make a list.
pub fn new_list(vm: &mut Vm, elements: Vec<Value>) -> (value: Value)
    requires
        old(vm).wf(),
        old(vm).heap.has_slots(1),
    ensures
        final(vm).wf(),
        made_list(old(vm), final(vm), value, elements@),
{
    broadcast use crate::value::law_object_round_trip;

    Value::object(vm.heap.allocate(Object::List(ObjList { elements })))
}

} // verus!
