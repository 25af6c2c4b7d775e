//! Verified core of the MiraScript virtual machine.
use vstd::prelude::*;

pub mod call_stack;
pub mod constants;
pub mod decoder;
pub mod encoding;
pub mod error;
pub mod execution;
pub mod frame;
pub mod globals;
pub mod model;
pub mod number;
pub mod number_syntax;
pub mod opcode;
pub mod operations;
pub mod register;
pub mod runtime;
pub mod script;
pub mod tables;
pub mod validity;
pub mod value;

verus! {

} // verus!
