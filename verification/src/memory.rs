//! The layout of a call in the linear memory of a contract.
//!
//! Before a call, the host writes the state of the contract and, right after
//! it, the bytes of the argument, from the first byte of the memory on, with
//! no length in front of either. After a query it finds the return value
//! there, and after a transaction the new state followed by the return value.
//! The state that is exchanged is the account of the contract: its balance,
//! its nonce and its storage, written as
//! [`enc_account`](crate::state::enc_account) says. The code of a contract
//! is not exchanged, so that no call can change it. A return value is
//! written as a byte string with its length.

use crate::abi::ReturnValue;
use crate::codec::{dec_bytes, enc_bytes, lemma_bytes_round_trip, read_bytes, write_raw};
use crate::error::VMError;
use crate::state::{
    dec_account, enc_account, encodable_account, lemma_account_round_trip, Account, AccountView,
    ContractState, ContractStateView,
};
use vstd::prelude::*;
use vstd::slice::slice_subrange;

verus! {

/// The position at which every call finds its input and leaves its output.
pub const CALL_OFFSET: usize = 0;

/// `memory` with `bytes` written over it from `at` on.
pub open spec fn overwritten(memory: Seq<u8>, at: int, bytes: Seq<u8>) -> Seq<u8> {
    memory.subrange(0, at) + bytes + memory.subrange(at + bytes.len(), memory.len() as int)
}

/// What a call finds at the start of its memory: the account of the
/// contract, then the bytes of the argument.
pub open spec fn call_input(state: ContractStateView, argument: Seq<u8>) -> Seq<u8> {
    enc_account(state.account()) + argument
}

/// What a query leaves at the start of its memory, read back: the return
/// value.
pub open spec fn query_output(memory: Seq<u8>) -> Option<Seq<u8>> {
    match dec_bytes(memory) {
        Some((value, _)) => Some(value),
        None => None,
    }
}

/// What a transaction leaves at the start of its memory, read back: the new
/// account and the return value.
pub open spec fn transaction_output(memory: Seq<u8>) -> Option<(AccountView, Seq<u8>)> {
    match dec_account(memory) {
        Some((account, n)) => match dec_bytes(memory.skip(n as int)) {
            Some((value, _)) => Some((account, value)),
            None => None,
        },
        None => None,
    }
}

/// What the host writes for a call can be read back without loss: the
/// account is decoded from the start of the memory and ends where the bytes
/// of the argument begin, the argument follows byte for byte, and the memory
/// behind it is as it was.
pub proof fn lemma_input_round_trip(
    memory: Seq<u8>,
    state: ContractStateView,
    argument: Seq<u8>,
)
    requires
        encodable_account(state.account()),
        call_input(state, argument).len() <= memory.len(),
    ensures
        ({
            let written = overwritten(memory, 0, call_input(state, argument));
            let n = enc_account(state.account()).len() as int;
            &&& written.len() == memory.len()
            &&& dec_account(written) == Some((state.account(), n as nat))
            &&& written.subrange(n, n + argument.len()) == argument
            &&& forall|i: int|
                n + argument.len() <= i < memory.len() ==> written[i] == memory[i]
        }),
{
    let input = call_input(state, argument);
    let written = overwritten(memory, 0, input);
    let n = enc_account(state.account()).len() as int;
    let behind = memory.subrange(input.len() as int, memory.len() as int);
    assert(written =~= enc_account(state.account()) + (argument + behind));
    lemma_account_round_trip(state.account(), argument + behind);
    assert(written.subrange(n, n + argument.len()) =~= argument);
}

/// What a query leaves for its caller is read back as it was written: a
/// return value encoded at the start of the memory is the return value
/// found there, whatever follows it.
pub proof fn lemma_query_output_round_trip(value: Seq<u8>, rest: Seq<u8>)
    requires
        value.len() <= u64::MAX,
    ensures
        query_output(enc_bytes(value) + rest) == Some(value),
{
    lemma_bytes_round_trip(value, rest);
}

/// What a transaction leaves for its caller is read back as it was written:
/// an account and a return value encoded one after the other at the start of
/// the memory are the account and the return value found there, whatever
/// follows them.
pub proof fn lemma_transaction_output_round_trip(
    account: AccountView,
    value: Seq<u8>,
    rest: Seq<u8>,
)
    requires
        encodable_account(account),
        value.len() <= u64::MAX,
    ensures
        transaction_output(enc_account(account) + enc_bytes(value) + rest) == Some(
            (account, value),
        ),
{
    let memory = enc_account(account) + enc_bytes(value) + rest;
    let tail = enc_bytes(value) + rest;
    assert(memory =~= enc_account(account) + tail);
    lemma_account_round_trip(account, tail);
    assert(memory.skip(enc_account(account).len() as int) =~= tail);
    lemma_bytes_round_trip(value, rest);
}

/// Copies `bytes` into `memory` from `at` on. Nothing is written where they
/// do not fit.
pub fn write_region(memory: &mut [u8], at: usize, bytes: &[u8]) -> (r: Result<(), VMError>)
    ensures
        final(memory)@.len() == old(memory)@.len(),
        match r {
            Ok(_) => at + bytes@.len() <= old(memory)@.len() && final(memory)@ == overwritten(
                old(memory)@,
                at as int,
                bytes@,
            ),
            Err(e) => e is OutOfBounds && at + bytes@.len() > old(memory)@.len() && final(memory)@
                == old(memory)@,
        },
{
    let total = memory.len();
    let len = bytes.len();
    if at > total || len > total - at {
        return Err(VMError::OutOfBounds);
    }
    let mut i: usize = 0;
    while i < len
        invariant
            i <= len,
            len == bytes@.len(),
            at + len <= total,
            total == old(memory)@.len(),
            memory@.len() == total,
            forall|j: int| 0 <= j < at ==> memory@[j] == old(memory)@[j],
            forall|j: int| at <= j < at + i ==> memory@[j] == bytes@[j - at],
            forall|j: int| at + i <= j < total ==> memory@[j] == old(memory)@[j],
        decreases len - i,
    {
        memory[at + i] = bytes[i];
        i = i + 1;
    }
    assert(memory@ =~= overwritten(old(memory)@, at as int, bytes@));
    Ok(())
}

/// A copy of all the bytes of `memory`.
pub fn copy_of(memory: &[u8]) -> (bytes: Vec<u8>)
    ensures
        bytes@ == memory@,
{
    vstd::slice::slice_to_vec(memory)
}

/// A copy of the `len` bytes of `memory` from `at` on.
pub fn read_region(memory: &[u8], at: usize, len: usize) -> (r: Result<Vec<u8>, VMError>)
    ensures
        match r {
            Ok(bytes) => at + len <= memory@.len() && bytes@ == memory@.subrange(
                at as int,
                at + len,
            ),
            Err(e) => e is OutOfBounds && at + len > memory@.len(),
        },
{
    let total = memory.len();
    if at > total || len > total - at {
        return Err(VMError::OutOfBounds);
    }
    Ok(vstd::slice::slice_to_vec(slice_subrange(memory, at, at + len)))
}

/// The input of a call: the encoded account of the contract, then the bytes
/// of the argument.
pub fn encode_input(state: &ContractState, argument: &[u8]) -> (input: Vec<u8>)
    ensures
        input@ == call_input(state@, argument@),
{
    let mut input = state.encode_account();
    write_raw(&mut input, argument);
    input
}

/// Reads the return value that a query left at the start of `memory`.
pub fn read_return(memory: &[u8]) -> (r: Result<ReturnValue, VMError>)
    ensures
        match query_output(memory@) {
            Some(value) => r matches Ok(v) && v@ == value,
            None => r matches Err(e) && e is InvalidEncoding,
        },
{
    assert(memory@.skip(0) =~= memory@);
    match read_bytes(memory, CALL_OFFSET) {
        Some((value, _)) => Ok(ReturnValue::from_vec(value)),
        None => Err(VMError::InvalidEncoding),
    }
}

/// Reads the new account and the return value that a transaction left at the
/// start of `memory`. Both must be there: an account that no return value
/// follows is an error.
pub fn read_output(memory: &[u8]) -> (r: Result<(Account, ReturnValue), VMError>)
    ensures
        match transaction_output(memory@) {
            Some((account, value)) => r matches Ok((a, v)) && a@ == account && v@ == value,
            None => r matches Err(e) && e is InvalidEncoding,
        },
{
    assert(memory@.skip(0) =~= memory@);
    let (account, at) = match Account::decode(memory, CALL_OFFSET) {
        Some(p) => p,
        None => { return Err(VMError::InvalidEncoding); },
    };
    match read_bytes(memory, at) {
        Some((value, _)) => Ok((account, ReturnValue::from_vec(value))),
        None => Err(VMError::InvalidEncoding),
    }
}

} // verus!
