//! Register-sized MiraScript values.
//!
//! A value is a small `Copy` datum: a scalar, or a handle into one of the
//! runtime's arenas. Numbers are carried as their IEEE-754 bit pattern.
use vstd::prelude::*;

verus! {

/// The category of a MiraScript value, as reported to scripts and in errors.
#[derive(Clone, Copy, Debug, PartialEq, Eq, Structural)]
pub enum MiraType {
    /// `nil`.
    Nil,
    /// `true` or `false`.
    Boolean,
    /// A double-precision number.
    Number,
    /// A string.
    String,
    /// A record.
    Record,
    /// An array.
    Array,
    /// A callable.
    Function,
    /// A module.
    Module,
    /// A host value.
    Extern,
}

/// A MiraScript value as held by a register.
///
/// `Uninitialized` is reserved for registers that have not been written; it
/// never denotes a script-visible value.
#[derive(Clone, Copy, Debug, PartialEq, Eq, Structural)]
pub enum MiraValue {
    /// The marker of an unwritten register.
    Uninitialized,
    /// `nil`.
    Nil,
    /// A boolean.
    Boolean(bool),
    /// A number, by its IEEE-754 binary64 bit pattern.
    Number(u64),
    /// A handle to a string in the runtime arena.
    String(u64),
    /// A handle to an array in the runtime arena.
    Array(u64),
    /// A handle to a record in the runtime arena.
    Record(u64),
    /// A handle to a function in the runtime arena.
    Function(u64),
    /// A handle to a module in the runtime arena.
    Module(u64),
    /// A handle to a host value in the runtime arena.
    Extern(u64),
}

impl MiraValue {
    /// The `nil` value.
    pub fn nil() -> (r: Self)
        ensures
            r == MiraValue::Nil,
    {
        MiraValue::Nil
    }

    /// The marker of an unwritten register.
    pub fn uninitialized() -> (r: Self)
        ensures
            r == MiraValue::Uninitialized,
    {
        MiraValue::Uninitialized
    }

    /// A boolean value.
    pub fn boolean(value: bool) -> (r: Self)
        ensures
            r == MiraValue::Boolean(value),
    {
        MiraValue::Boolean(value)
    }

    /// A number given by its IEEE-754 binary64 bit pattern.
    pub fn number_from_bits(bits: u64) -> (r: Self)
        ensures
            r == MiraValue::Number(bits),
    {
        MiraValue::Number(bits)
    }

    /// The bit pattern of a number value.
    pub fn as_number_bits(self) -> (r: Option<u64>)
        ensures
            r == (match self {
                MiraValue::Number(bits) => Some(bits),
                _ => None::<u64>,
            }),
    {
        match self {
            MiraValue::Number(bits) => Some(bits),
            _ => None,
        }
    }

    /// Whether this is the marker of an unwritten register.
    pub fn is_uninitialized(self) -> (r: bool)
        ensures
            r == (self is Uninitialized),
    {
        matches!(self, MiraValue::Uninitialized)
    }

    /// Whether this is `nil`.
    pub fn is_nil(self) -> (r: bool)
        ensures
            r == (self is Nil),
    {
        matches!(self, MiraValue::Nil)
    }

    /// Whether this is a number.
    pub fn is_number(self) -> (r: bool)
        ensures
            r == (self is Number),
    {
        matches!(self, MiraValue::Number(_))
    }

    /// Whether this is a string.
    pub fn is_string(self) -> (r: bool)
        ensures
            r == (self is String),
    {
        matches!(self, MiraValue::String(_))
    }

    /// Whether this is a function.
    pub fn is_function(self) -> (r: bool)
        ensures
            r == (self is Function),
    {
        matches!(self, MiraValue::Function(_))
    }

    /// The category of this value; the unwritten marker reports as `nil`.
    pub open spec fn spec_value_type(self) -> MiraType {
        match self {
            MiraValue::Uninitialized | MiraValue::Nil => MiraType::Nil,
            MiraValue::Boolean(_) => MiraType::Boolean,
            MiraValue::Number(_) => MiraType::Number,
            MiraValue::String(_) => MiraType::String,
            MiraValue::Array(_) => MiraType::Array,
            MiraValue::Record(_) => MiraType::Record,
            MiraValue::Function(_) => MiraType::Function,
            MiraValue::Module(_) => MiraType::Module,
            MiraValue::Extern(_) => MiraType::Extern,
        }
    }

    /// The category of this value; the unwritten marker reports as `nil`.
    pub fn value_type(self) -> (r: MiraType)
        ensures
            r == self.spec_value_type(),
    {
        match self {
            MiraValue::Uninitialized | MiraValue::Nil => MiraType::Nil,
            MiraValue::Boolean(_) => MiraType::Boolean,
            MiraValue::Number(_) => MiraType::Number,
            MiraValue::String(_) => MiraType::String,
            MiraValue::Array(_) => MiraType::Array,
            MiraValue::Record(_) => MiraType::Record,
            MiraValue::Function(_) => MiraType::Function,
            MiraValue::Module(_) => MiraType::Module,
            MiraValue::Extern(_) => MiraType::Extern,
        }
    }
}

} // verus!
