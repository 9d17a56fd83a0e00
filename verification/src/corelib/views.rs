//! Instances of the library's own classes.

use vstd::prelude::*;

use crate::fields::MAX_FIELDS;
use crate::handle::ObjectId;
use crate::heap::{HeapModel, InstanceModel};
use crate::object::ObjectType;
use crate::value::Value;
use crate::vm::Vm;

verus! {

/// Whether a machine is an earlier one with an instance added.
pub open spec fn made_instance(
    before: &Vm,
    after: &Vm,
    value: Value,
    class: ObjectId,
    fields: Seq<Value>,
) -> bool {
    &&& value.spec_as_object() matches Some(id)
    &&& value == Value::object(id)
    &&& id.spec_tag() == ObjectType::Instance.spec_tag()
    &&& !before.heap@.has(id)
    &&& after.heap@ == (HeapModel {
        instances: before.heap@.instances.insert(
            id.spec_index(),
            (InstanceModel { class, fields }),
        ),
        ..before.heap@
    })
    &&& *after == (Vm { heap: after.heap, ..*before })
}

/// Make an instance of a class with these fields.
pub fn new_view(vm: &mut Vm, class: ObjectId, fields: Vec<Value>) -> (value: Value)
    requires
        old(vm).wf(),
        old(vm).heap.has_room(1),
        fields@.len() <= MAX_FIELDS,
    ensures
        final(vm).wf(),
        made_instance(old(vm), final(vm), value, class, fields@),
{
    broadcast use crate::value::law_object_round_trip;

    Value::object(vm.heap.new_instance(class, fields.as_slice()))
}

} // verus!
