//! When two values are equal.

use vstd::prelude::*;

use crate::number::same;
use crate::object::ObjRange;
use crate::text::same_bytes;
use crate::value::Value;
use crate::vm::Vm;

verus! {

/// The range that a value is.
pub open spec fn spec_range(vm: &Vm, value: Value) -> Option<ObjRange> {
    match value.spec_as_object() {
        Some(id) => vm.heap@.range(id),
        None => None,
    }
}

/// The range that a value is.
pub fn range_of(vm: &Vm, value: Value) -> (r: Option<ObjRange>)
    requires
        vm.wf(),
    ensures
        r == spec_range(vm, value),
{
    match value.as_object() {
        Some(id) => match vm.heap.range(id) {
            Some(range) => Some(*range),
            None => None,
        },
        None => None,
    }
}

/// Whether two values are strings of the same bytes.
pub open spec fn spec_strings_equal(vm: &Vm, left: Value, right: Value) -> bool {
    match (vm.spec_string(left), vm.spec_string(right)) {
        (Some(a), Some(b)) => a == b,
        _ => false,
    }
}

/// Whether two values are strings of the same bytes.
pub fn strings_equal(vm: &Vm, left: Value, right: Value) -> (r: bool)
    requires
        vm.wf(),
    ensures
        r == spec_strings_equal(vm, left, right),
{
    match (left.as_object(), right.as_object()) {
        (Some(left), Some(right)) => match (vm.heap.string(left), vm.heap.string(right)) {
            (Some(a), Some(b)) => same_bytes(a.bytes.as_slice(), b.bytes.as_slice()),
            _ => false,
        },
        _ => false,
    }
}

/// Whether two values are equal: numbers by what they count, so that a NaN is
/// equal to nothing; else the same object or word, or ranges or strings that say
/// the same.
pub open spec fn spec_values_equal(vm: &Vm, left: Value, right: Value) -> bool {
    if left.spec_is_num() && right.spec_is_num() {
        crate::number::equal(left.0, right.0)
    } else if left == right {
        true
    } else {
        match (spec_range(vm, left), spec_range(vm, right)) {
            (Some(a), Some(b)) => crate::number::equal(a.from, b.from) && crate::number::equal(
                a.to,
                b.to,
            ) && a.is_inclusive == b.is_inclusive,
            _ => spec_strings_equal(vm, left, right),
        }
    }
}

/// Whether two values are equal.
pub fn values_equal(vm: &Vm, left: Value, right: Value) -> (r: bool)
    requires
        vm.wf(),
    ensures
        r == spec_values_equal(vm, left, right),
{
    match (left.as_num(), right.as_num()) {
        (Some(a), Some(b)) => {
            return same(a, b);
        },
        _ => {},
    }
    if left.is_same(right) {
        return true;
    }
    match (range_of(vm, left), range_of(vm, right)) {
        (Some(a), Some(b)) => {
            return same(a.from, b.from) && same(a.to, b.to) && a.is_inclusive == b.is_inclusive;
        },
        _ => {},
    }
    strings_equal(vm, left, right)
}

/// Equality does not depend on which side is which.
pub proof fn law_equality_is_symmetric(vm: &Vm, left: Value, right: Value)
    ensures
        spec_values_equal(vm, left, right) == spec_values_equal(vm, right, left),
{
}

/// Whether a value is a number that is none.
pub open spec fn is_nan_value(value: Value) -> bool {
    value.spec_is_num() && crate::number::not_a_number(value.0)
}

/// Every value equals itself but a NaN, which equals nothing.
pub proof fn law_equality_is_reflexive(vm: &Vm, value: Value)
    ensures
        spec_values_equal(vm, value, value) == !is_nan_value(value),
{
}

} // verus!
