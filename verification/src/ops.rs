//! The host functions that a contract can call, and the values that pass
//! between a contract and the host.

pub mod debug;
pub mod self_hash;

use crate::call_context::CallContext;
use crate::error::VMError;
use vstd::prelude::*;

verus! {

/// The type of a value of the sandbox.
#[derive(Clone, Copy, Debug, PartialEq, Eq, Structural)]
pub enum ValueType {
    I32,
    I64,
    F32,
    F64,
}

/// A value of the sandbox. A floating-point value is held by its bits.
#[derive(Clone, Copy, Debug, PartialEq, Eq, Structural)]
pub enum Value {
    I32(i32),
    I64(i64),
    F32(u32),
    F64(u64),
}

impl Value {
    /// The type of the value.
    pub fn value_type(&self) -> (t: ValueType)
        ensures
            t == match *self {
                Value::I32(_) => ValueType::I32,
                Value::I64(_) => ValueType::I64,
                Value::F32(_) => ValueType::F32,
                Value::F64(_) => ValueType::F64,
            },
    {
        match self {
            Value::I32(_) => ValueType::I32,
            Value::I64(_) => ValueType::I64,
            Value::F32(_) => ValueType::F32,
            Value::F64(_) => ValueType::F64,
        }
    }
}

/// One host function.
///
/// A host function is called by the contract that is running. What it does
/// to the context, and which errors it gives, is for each function to say.
pub trait AbiCall {
    /// The types of the arguments.
    fn arguments() -> Vec<ValueType>;

    /// The type of the result, where there is one.
    fn result_type() -> Option<ValueType>;

    /// Serves a call with `args` by the contract that is running.
    fn call(context: &mut CallContext, args: &[Value]) -> (r: Result<Option<Value>, VMError>)
        requires
            old(context)@.frames.len() > 0,
    ;
}

} // verus!
