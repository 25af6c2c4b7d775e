//! Operations on values that need no runtime arena.
use vstd::prelude::*;

use crate::error::{MiraError, Result, RuntimeErrorKind};
use crate::value::MiraValue;

verus! {

/// What an array keeps of a value: callables, modules and host values
/// become `nil`.
pub open spec fn spec_into_element(value: MiraValue) -> MiraValue {
    match value {
        MiraValue::Function(_) | MiraValue::Module(_) | MiraValue::Extern(_) => MiraValue::Nil,
        _ => value,
    }
}

/// What an array keeps of a value: callables, modules and host values
/// become `nil`.
pub fn into_element(value: MiraValue) -> (r: MiraValue)
    ensures
        r == spec_into_element(value),
{
    match value {
        MiraValue::Function(_) | MiraValue::Module(_) | MiraValue::Extern(_) => MiraValue::Nil,
        _ => value,
    }
}

/// Fail on `nil`.
pub fn assert_non_nil(value: MiraValue) -> (r: Result<()>)
    ensures
        value is Nil ==> (r matches Err(e) && e.is_runtime_with(RuntimeErrorKind::ExpectedNonNil)),
        !(value is Nil) ==> r is Ok,
{
    if value.is_nil() {
        Err(MiraError::runtime(RuntimeErrorKind::ExpectedNonNil))
    } else {
        Ok(())
    }
}

/// Whether an operator on two values works on numbers: when either is a
/// number, or neither is a string.
pub fn overload_number(a: &MiraValue, b: &MiraValue) -> (r: bool)
    ensures
        r == (a is Number || b is Number || !(a is String || b is String)),
{
    if a.is_number() || b.is_number() {
        return true;
    }
    if a.is_string() || b.is_string() {
        return false;
    }
    true
}

/// The boolean a value holds; any other value is a type mismatch.
pub fn to_boolean(value: MiraValue) -> (r: Result<bool>)
    ensures
        value matches MiraValue::Boolean(b) ==> r matches Ok(v) && v == b,
        !(value is Boolean) ==> (r matches Err(e) && e.is_runtime_with(
            RuntimeErrorKind::TypeMismatch { expected: "boolean", actual: value.spec_value_type() },
        )),
{
    match value {
        MiraValue::Boolean(b) => Ok(b),
        _ => Err(MiraError::runtime(RuntimeErrorKind::TypeMismatch { expected: "boolean", actual: value.value_type() })),
    }
}

} // verus!
