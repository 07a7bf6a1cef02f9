//! The error type shared by every operation of the virtual machine.

use vstd::prelude::*;

verus! {

#[verifier::external_type_specification]
#[verifier::external_body]
pub struct ExTrap(wasmi::Trap);

/// Why a call into the virtual machine failed.
///
/// Every error aborts the whole call tree: nothing is retried, and a failed
/// sub-call fails its caller.
#[derive(Debug)]
pub enum VMError {
    /// The module exports no linear memory under the name `memory`.
    MemoryNotFound,
    /// A host function was called with arguments that do not match its
    /// signature.
    InvalidArguments,
    /// A host function expected UTF-8 text in memory and found something else.
    InvalidUtf8,
    /// The bytes found where a state or a return value was expected are not
    /// a valid encoding of one.
    InvalidEncoding,
    /// The store holds no contract under the identifier that was called.
    UnknownContract,
    /// A region outside the linear memory was addressed.
    OutOfBounds,
    /// The sandbox trapped while it ran the contract. The trap is carried
    /// through unchanged.
    Trap(wasmi::Trap),
}

impl VMError {
    /// Whether this error carries a trap raised by the sandbox.
    pub fn is_trap(&self) -> (r: bool)
        ensures
            r == (self is Trap),
    {
        match self {
            VMError::Trap(_) => true,
            _ => false,
        }
    }

    /// A short name for the kind of error, for diagnostics.
    pub fn kind(&self) -> (name: &'static str)
        ensures
            name@ == Self::kind_name(*self),
    {
        match self {
            VMError::MemoryNotFound => "memory not found",
            VMError::InvalidArguments => "invalid arguments",
            VMError::InvalidUtf8 => "invalid utf-8",
            VMError::InvalidEncoding => "invalid encoding",
            VMError::UnknownContract => "unknown contract",
            VMError::OutOfBounds => "out of bounds",
            VMError::Trap(_) => "trap",
        }
    }

    /// The text that [`VMError::kind`] returns for each kind.
    pub open spec fn kind_name(e: VMError) -> Seq<char> {
        match e {
            VMError::MemoryNotFound => "memory not found"@,
            VMError::InvalidArguments => "invalid arguments"@,
            VMError::InvalidUtf8 => "invalid utf-8"@,
            VMError::InvalidEncoding => "invalid encoding"@,
            VMError::UnknownContract => "unknown contract"@,
            VMError::OutOfBounds => "out of bounds"@,
            VMError::Trap(_) => "trap"@,
        }
    }
}

} // verus!
