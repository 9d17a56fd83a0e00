//! What a method was called with.

use vstd::prelude::*;
use vstd::string::*;

use crate::number::{is_infinite, is_integer, less};
use crate::object::ObjectType;
use crate::value::Value;
use crate::vm::{RuntimeError, Vm};

verus! {

/// The bits of what is no number.
pub const NAN: u64 = 0x7ff8_0000_0000_0000;

/// The receiver of a call, or an argument of it.
pub open spec fn given(vm: &Vm, at: usize, index: int) -> Value {
    vm.stack@[at + index]
}

/// Whether a call's receiver and so many arguments are on the stack.
pub open spec fn called_with(vm: &Vm, at: usize, count: int) -> bool {
    at + count < vm.stack@.len()
}

/// The receiver of a call.
pub fn receiver(vm: &Vm, at: usize) -> (value: Value)
    requires
        called_with(vm, at, 0),
    ensures
        value == given(vm, at, 0),
{
    vm.stack[at]
}

/// An argument of a call, counted from one.
pub fn argument(vm: &Vm, at: usize, index: usize) -> (value: Value)
    requires
        called_with(vm, at, index as int),
    ensures
        value == given(vm, at, index as int),
{
    let size: usize = vm.stack.len();
    vm.stack[at + index]
}

/// A number's bits, or those of no number.
pub open spec fn num_or_nan(value: Value) -> u64 {
    if value.spec_is_num() {
        value.0
    } else {
        NAN
    }
}

/// A number's bits, or those of no number.
pub fn number_of(value: Value) -> (bits: u64)
    ensures
        bits == num_or_nan(value),
{
    match value.as_num() {
        Some(bits) => bits,
        None => NAN,
    }
}

/// What a value is as an operand.
pub open spec fn spec_number(value: Value) -> Result<u64, Seq<char>> {
    if value.spec_is_num() {
        Ok(value.0)
    } else {
        Err("Right operand must be a number."@)
    }
}

/// An argument that has to be a number.
pub fn number_argument(vm: &Vm, at: usize, index: usize) -> (r: Result<u64, RuntimeError>)
    requires
        called_with(vm, at, index as int),
    ensures
        crate::vm::agrees(r, spec_number(given(vm, at, index as int))),
{
    match argument(vm, at, index).as_num() {
        Some(bits) => Ok(bits),
        None => Err(RuntimeError::new("Right operand must be a number.")),
    }
}

/// Whether cutting off a number's fraction leaves it as it is.
pub open spec fn has_no_fraction(bits: u64) -> bool {
    crate::number::integral(bits) || (!crate::number::finite(bits)
        && !crate::number::not_a_number(bits))
}

/// Whether cutting off a number's fraction leaves it as it is.
pub fn without_fraction(bits: u64) -> (r: bool)
    ensures
        r == has_no_fraction(bits),
{
    is_integer(bits) || is_infinite(bits)
}

/// What a value is where an integer is wanted.
pub open spec fn spec_integer(value: Value, noun: Seq<char>) -> Result<u64, Seq<char>> {
    if !value.spec_is_num() {
        Err(noun + " must be a number."@)
    } else if !has_no_fraction(value.0) {
        Err(noun + " must be an integer."@)
    } else {
        Ok(value.0)
    }
}

/// The error that something must be something.
fn must_be(noun: &str, what: &str) -> (error: RuntimeError)
    ensures
        error.message@ == noun@ + what@,
        error.line == 0,
{
    let mut message: String = noun.to_owned();
    message.append(what);
    RuntimeError { message, line: 0 }
}

/// An argument that has to be an integer.
pub fn integer_argument(vm: &Vm, at: usize, index: usize, noun: &str) -> (r: Result<
    u64,
    RuntimeError,
>)
    requires
        called_with(vm, at, index as int),
    ensures
        crate::vm::agrees(r, spec_integer(given(vm, at, index as int), noun@)),
{
    match argument(vm, at, index).as_num() {
        None => Err(must_be(noun, " must be a number.")),
        Some(bits) => if without_fraction(bits) {
            Ok(bits)
        } else {
            Err(must_be(noun, " must be an integer."))
        },
    }
}

/// What a value is where a count is wanted.
pub open spec fn spec_counting(value: Value) -> Result<u64, Seq<char>> {
    match spec_integer(value, "Count"@) {
        Err(message) => Err(message),
        Ok(bits) => if crate::number::below(bits, 0) {
            Err("Count must be a non-negative integer."@)
        } else {
            Ok(bits)
        },
    }
}

/// An argument that has to be a count.
pub fn counting_argument(vm: &Vm, at: usize, index: usize) -> (r: Result<u64, RuntimeError>)
    requires
        called_with(vm, at, index as int),
    ensures
        crate::vm::agrees(r, spec_counting(given(vm, at, index as int))),
{
    match integer_argument(vm, at, index, "Count") {
        Err(error) => Err(error),
        Ok(bits) => if less(bits, 0) {
            Err(RuntimeError::new("Count must be a non-negative integer."))
        } else {
            Ok(bits)
        },
    }
}

/// What a value is where a function is wanted.
pub open spec fn spec_function(vm: &Vm, value: Value) -> Result<Value, Seq<char>> {
    if vm.spec_closure_value(value) is Some {
        Ok(value)
    } else {
        Err("Argument must be a function."@)
    }
}

/// An argument that has to be a function.
pub fn function_argument(vm: &Vm, at: usize, index: usize) -> (r: Result<Value, RuntimeError>)
    requires
        vm.wf(),
        called_with(vm, at, index as int),
    ensures
        crate::vm::agrees(r, spec_function(vm, given(vm, at, index as int))),
{
    let value = argument(vm, at, index);
    match value.as_object() {
        None => Err(RuntimeError::new("Argument must be a function.")),
        Some(id) => match vm.heap.closure(id) {
            Some(_) => Ok(value),
            None => Err(RuntimeError::new("Argument must be a function.")),
        },
    }
}

/// Why a function cannot be given so many arguments.
pub open spec fn arity_refused(vm: &Vm, function: Value, wanted: int) -> Option<Seq<char>> {
    match function.spec_as_object() {
        None => Some("Argument must be a function."@),
        Some(closure) => match vm.spec_function_of(closure) {
            None => Some("Argument must be a function."@),
            Some(code) => if code.arity > wanted {
                Some("Function expects more arguments."@)
            } else {
                None
            },
        },
    }
}

/// Check that a function can be given so many arguments.
pub fn expect_arity(vm: &Vm, function: Value, wanted: usize) -> (r: Result<(), RuntimeError>)
    requires
        vm.wf(),
    ensures
        match arity_refused(vm, function, wanted as int) {
            Some(message) => crate::vm::fails(r, message),
            None => r is Ok,
        },
{
    match function.as_object() {
        None => Err(RuntimeError::new("Argument must be a function.")),
        Some(closure) => match vm.arity_of(closure) {
            None => Err(RuntimeError::new("Argument must be a function.")),
            Some(arity) => if arity > wanted {
                Err(RuntimeError::new("Function expects more arguments."))
            } else {
                Ok(())
            },
        },
    }
}

/// Whether a value is one that is told apart by what it is rather than by
/// which object it is, and so can be a key.
pub open spec fn spec_is_value_type(vm: &Vm, value: Value) -> bool {
    ||| value.spec_is_num()
    ||| value == Value::bool(true)
    ||| value == Value::bool(false)
    ||| value == Value::null()
    ||| (value.spec_as_object() matches Some(id) && vm.heap@.has(id) && match ObjectType::spec_from_tag(
        id.spec_tag(),
    ) {
        Some(ObjectType::String) => true,
        Some(ObjectType::Range) => true,
        Some(ObjectType::Class) => true,
        _ => false,
    })
}

/// Whether a value can be a key.
pub fn is_value_type(vm: &Vm, value: Value) -> (r: bool)
    requires
        vm.wf(),
    ensures
        r == spec_is_value_type(vm, value),
{
    if value.is_num() || value.is_bool() || value.is_null() {
        return true;
    }
    match value.as_object() {
        None => false,
        Some(id) => match vm.heap.type_of(id) {
            Some(ObjectType::String) => true,
            Some(ObjectType::Range) => true,
            Some(ObjectType::Class) => true,
            _ => false,
        },
    }
}

/// What a value is where a key is wanted.
pub open spec fn spec_key(vm: &Vm, value: Value) -> Result<Value, Seq<char>> {
    if spec_is_value_type(vm, value) {
        Ok(value)
    } else {
        Err("Key must be a value type."@)
    }
}

/// An argument that has to be a key.
pub fn value_type_argument(vm: &Vm, at: usize, index: usize) -> (r: Result<Value, RuntimeError>)
    requires
        vm.wf(),
        called_with(vm, at, index as int),
    ensures
        crate::vm::agrees(r, spec_key(vm, given(vm, at, index as int))),
{
    let value = argument(vm, at, index);
    if is_value_type(vm, value) {
        Ok(value)
    } else {
        Err(RuntimeError::new("Key must be a value type."))
    }
}

/// Where an index points in so many elements, counted from the end if it is
/// negative.
pub open spec fn spec_index_in(bits: u64, length: nat) -> Result<nat, Seq<char>> {
    if !has_no_fraction(bits) {
        Err("Index must be an integer."@)
    } else if !crate::number::finite(bits) {
        Err("Index out of bounds."@)
    } else {
        let index = crate::number::integer_part(bits);
        let resolved = if index < 0 {
            index + length
        } else {
            index
        };
        if 0 <= resolved < length {
            Ok(resolved as nat)
        } else {
            Err("Index out of bounds."@)
        }
    }
}

/// Where an index points in so many elements, counted from the end if it is
/// negative.
pub fn resolve_index(bits: u64, length: usize) -> (r: Result<usize, RuntimeError>)
    ensures
        match spec_index_in(bits, length as nat) {
            Ok(index) => r matches Ok(given) && given == index,
            Err(message) => crate::vm::fails(r, message),
        },
        r matches Ok(index) ==> index < length,
{
    if !without_fraction(bits) {
        return Err(RuntimeError::new("Index must be an integer."));
    }
    if is_infinite(bits) {
        return Err(RuntimeError::new("Index out of bounds."));
    }
    match crate::number::whole_magnitude(bits) {
        None => Err(RuntimeError::new("Index out of bounds.")),
        Some(size) => {
            if bits >= crate::number::SIGN && size > 0 {
                if size <= length as u64 {
                    Ok(length - size as usize)
                } else {
                    Err(RuntimeError::new("Index out of bounds."))
                }
            } else if size < length as u64 {
                Ok(size as usize)
            } else {
                Err(RuntimeError::new("Index out of bounds."))
            }
        },
    }
}

/// The text of a signature with so many arguments, before the bracket closes.
pub open spec fn placeholders(count: nat) -> Seq<char>
    decreases count,
{
    if count == 0 {
        Seq::empty()
    } else if count == 1 {
        seq!['_']
    } else {
        placeholders((count - 1) as nat) + seq![',', '_']
    }
}

/// The signature of a method with so many arguments.
pub open spec fn signature_of(name: Seq<char>, arity: nat) -> Seq<char> {
    name + seq!['('] + placeholders(arity) + seq![')']
}

/// The signature of a method with so many arguments.
pub fn signature_for(name: &str, arity: usize) -> (signature: String)
    ensures
        signature@ == signature_of(name@, arity as nat),
{
    let mut out: String = name.to_owned();
    crate::text::push_char(&mut out, '(');
    let ghost start = out@;
    let mut index: usize = 0;
    while index < arity
        invariant
            index <= arity,
            out@ == start + placeholders(index as nat),
        decreases arity - index,
    {
        if index > 0 {
            crate::text::push_char(&mut out, ',');
        }
        crate::text::push_char(&mut out, '_');
        proof {
            assert(out@ =~= start + placeholders((index + 1) as nat));
        }
        index = index + 1;
    }
    crate::text::push_char(&mut out, ')');
    proof {
        assert(out@ =~= signature_of(name@, arity as nat));
    }
    out
}

} // verus!
