//! The payloads that a call carries: what is asked of a contract and what it
//! answers. Each is a string of bytes whose meaning only the contract knows.

use vstd::prelude::*;

verus! {

/// The payload of a read-only call.
#[derive(Clone, Debug, Default, PartialEq, Eq)]
pub struct Query {
    bytes: Vec<u8>,
}

impl View for Query {
    type V = Seq<u8>;

    closed spec fn view(&self) -> Seq<u8> {
        self.bytes@
    }
}

impl Query {
    /// A query made of a copy of `buffer`.
    pub fn from_slice(buffer: &[u8]) -> (v: Self)
        ensures
            v@ == buffer@,
    {
        Query { bytes: vstd::slice::slice_to_vec(buffer) }
    }

    /// A query made of `bytes`.
    pub fn from_vec(bytes: Vec<u8>) -> (v: Self)
        ensures
            v@ == bytes@,
    {
        Query { bytes }
    }

    /// The bytes of the query.
    pub fn as_bytes(&self) -> (bytes: &[u8])
        ensures
            bytes@ == self@,
    {
        self.bytes.as_slice()
    }
}

/// The payload of a call that may change the state of its contract.
#[derive(Clone, Debug, Default, PartialEq, Eq)]
pub struct Transaction {
    bytes: Vec<u8>,
}

impl View for Transaction {
    type V = Seq<u8>;

    closed spec fn view(&self) -> Seq<u8> {
        self.bytes@
    }
}

impl Transaction {
    /// A transaction made of a copy of `buffer`.
    pub fn from_slice(buffer: &[u8]) -> (v: Self)
        ensures
            v@ == buffer@,
    {
        Transaction { bytes: vstd::slice::slice_to_vec(buffer) }
    }

    /// A transaction made of `bytes`.
    pub fn from_vec(bytes: Vec<u8>) -> (v: Self)
        ensures
            v@ == bytes@,
    {
        Transaction { bytes }
    }

    /// The bytes of the transaction.
    pub fn as_bytes(&self) -> (bytes: &[u8])
        ensures
            bytes@ == self@,
    {
        self.bytes.as_slice()
    }
}

/// What a call gives back to its caller. The default is empty.
#[derive(Clone, Debug, Default, PartialEq, Eq)]
pub struct ReturnValue {
    bytes: Vec<u8>,
}

impl View for ReturnValue {
    type V = Seq<u8>;

    closed spec fn view(&self) -> Seq<u8> {
        self.bytes@
    }
}

impl ReturnValue {
    /// The empty return value.
    pub fn default_value() -> (v: Self)
        ensures
            v@ == Seq::<u8>::empty(),
    {
        ReturnValue { bytes: Vec::new() }
    }

    /// A return value made of a copy of `buffer`.
    pub fn from_slice(buffer: &[u8]) -> (v: Self)
        ensures
            v@ == buffer@,
    {
        ReturnValue { bytes: vstd::slice::slice_to_vec(buffer) }
    }

    /// A return value made of `bytes`.
    pub fn from_vec(bytes: Vec<u8>) -> (v: Self)
        ensures
            v@ == bytes@,
    {
        ReturnValue { bytes }
    }

    /// The bytes of the return value.
    pub fn as_bytes(&self) -> (bytes: &[u8])
        ensures
            bytes@ == self@,
    {
        self.bytes.as_slice()
    }
}

} // verus!
