//! The call context: one root call into a contract and every call that it
//! makes in turn.
//!
//! The context owns the call stack, and holds the store and the gas meter
//! from the start of the call tree until it hands them back at its end, so
//! that nothing else can reach them meanwhile. The embedding program runs
//! the sandbox and drives the context through a call: it enters the call
//! with [`CallContext::query`] or [`CallContext::transact`], runs the export
//! of the module, and leaves the call with [`CallContext::query_return`] or
//! [`CallContext::transact_return`], or with [`CallContext::unwind`] where
//! the export trapped. A host function that the contract calls meanwhile
//! reaches the context through [`CallContext::invoke_index`], and may enter
//! another call from there: the stack then grows by one frame for each call
//! that has not returned.

use crate::abi::{Query, ReturnValue, Transaction};
use crate::contract::ContractId;
use crate::error::VMError;
use crate::gas::GasMeter;
use crate::memory::{
    call_input, copy_of, encode_input, query_output, read_output, read_return,
    transaction_output, write_region, CALL_OFFSET,
};
use crate::ops::Value;
use crate::resolver::{served, Invoke, StandardABI};
use crate::state::{Account, AccountView, ContractState, ContractStateView, NetworkState};
use crate::table::{
    keys_of, lemma_put, lemma_put_keys, lemma_put_unique, lookup, put, unique,
};
use vstd::prelude::*;

verus! {

#[verifier::external_type_specification]
#[verifier::external_body]
pub struct ExMemoryRef(wasmi::MemoryRef);

/// The name of the export that serves queries.
pub const QUERY_EXPORT: &'static str = "q";

/// The name of the export that serves transactions.
pub const TRANSACT_EXPORT: &'static str = "t";

/// The name under which a module exports its linear memory.
pub const MEMORY_EXPORT: &'static str = "memory";

/// The payload of a call, kept in its frame for diagnostics.
#[derive(Clone, Debug, PartialEq, Eq)]
pub enum Argument {
    Query(Query),
    Transaction(Transaction),
}

impl Argument {
    /// The bytes of the payload.
    pub open spec fn payload(&self) -> Seq<u8> {
        match self {
            Argument::Query(q) => q@,
            Argument::Transaction(t) => t@,
        }
    }

    /// The bytes of the payload.
    pub fn as_bytes(&self) -> (bytes: &[u8])
        ensures
            bytes@ == self.payload(),
    {
        match self {
            Argument::Query(q) => q.as_bytes(),
            Argument::Transaction(t) => t.as_bytes(),
        }
    }
}

/// What a frame is, as a mathematical value: who is called, whether the call
/// may change state, with which payload, the return value that is pending,
/// and the handle to the linear memory of the callee.
pub struct FrameView {
    pub callee: Seq<u8>,
    pub transaction: bool,
    pub payload: Seq<u8>,
    pub ret: Seq<u8>,
    pub memory: wasmi::MemoryRef,
}

impl FrameView {
    /// The frame of a call that was just entered: nothing is pending.
    pub open spec fn entered(
        callee: Seq<u8>,
        transaction: bool,
        payload: Seq<u8>,
        memory: wasmi::MemoryRef,
    ) -> FrameView {
        FrameView { callee, transaction, payload, ret: Seq::empty(), memory }
    }
}

/// One call that has been entered and has not returned.
#[derive(Debug)]
pub struct StackFrame {
    callee: ContractId,
    argument: Argument,
    ret: ReturnValue,
    memory: wasmi::MemoryRef,
}

impl View for StackFrame {
    type V = FrameView;

    closed spec fn view(&self) -> FrameView {
        FrameView {
            callee: self.callee@,
            transaction: self.argument is Transaction,
            payload: self.argument.payload(),
            ret: self.ret@,
            memory: self.memory,
        }
    }
}

impl StackFrame {
    /// The frame of a call of `callee` with `argument`, whose linear memory
    /// is `memory`. No return value is pending.
    fn new(callee: ContractId, memory: wasmi::MemoryRef, argument: Argument) -> (frame: Self)
        ensures
            frame@ == FrameView::entered(
                callee@,
                argument is Transaction,
                argument.payload(),
                memory,
            ),
    {
        StackFrame { callee, memory, argument, ret: ReturnValue::default_value() }
    }

    /// The frame of a query of `callee`, whose linear memory is `memory`. No
    /// return value is pending.
    pub fn new_query(callee: ContractId, memory: wasmi::MemoryRef, query: Query) -> (frame: Self)
        ensures
            frame@ == FrameView::entered(callee@, false, query@, memory),
    {
        Self::new(callee, memory, Argument::Query(query))
    }

    /// The frame of a transaction on `callee`, whose linear memory is
    /// `memory`. No return value is pending.
    pub fn new_transaction(
        callee: ContractId,
        memory: wasmi::MemoryRef,
        transaction: Transaction,
    ) -> (frame: Self)
        ensures
            frame@ == FrameView::entered(callee@, true, transaction@, memory),
    {
        Self::new(callee, memory, Argument::Transaction(transaction))
    }

    /// The contract that this frame runs.
    pub fn callee(&self) -> (id: &ContractId)
        ensures
            id@ == self@.callee,
    {
        &self.callee
    }

    /// The payload of the call.
    pub fn argument(&self) -> (argument: &Argument)
        ensures
            argument.payload() == self@.payload,
            (argument is Transaction) == self@.transaction,
    {
        &self.argument
    }

    /// The return value that is pending in the frame.
    pub fn ret(&self) -> (ret: &ReturnValue)
        ensures
            ret@ == self@.ret,
    {
        &self.ret
    }

    /// The handle to the linear memory of the callee.
    pub fn memory_ref(&self) -> (memory: &wasmi::MemoryRef)
        ensures
            *memory == self@.memory,
    {
        &self.memory
    }

    /// A copy of the bytes of the linear memory, taken through wasmi's
    /// `MemoryInstance::with_direct_access`, which borrows the buffer and
    /// calls the closure once with it. The closure only copies. Nothing is
    /// said of what the memory holds: the sandbox changes it behind the
    /// handle.
    #[verifier::external_body]
    fn snapshot(&self) -> (bytes: Vec<u8>) {
        self.memory.with_direct_access(|m| copy_of(m))
    }

    /// Writes `bytes` into the linear memory from `at` on, through wasmi's
    /// `MemoryInstance::with_direct_access_mut`, which borrows the buffer
    /// for writing and calls the closure once with it. The closure is
    /// [`write_region`], which writes where the bytes fit and fails where
    /// they do not. The contract says as much, for the size that the memory
    /// has.
    #[verifier::external_body]
    fn write_at(&self, at: usize, bytes: &[u8]) -> (w: Result<(), VMError>)
        ensures
            exists|size: nat| #[trigger] wrote(size, (at + bytes@.len()) as nat, w),
    {
        self.memory.with_direct_access_mut(|m| write_region(m, at, bytes))
    }
}

/// How a call is served.
#[derive(Clone, Copy, Debug, PartialEq, Eq, Structural)]
pub enum Call {
    /// The target is a host module: its native handler answers, and no
    /// frame was pushed.
    Native,
    /// The target is a deployed contract: its frame was pushed, and the
    /// export is to be run in the sandbox.
    Sandbox,
}

/// What a call target is.
#[derive(Clone, Debug, PartialEq, Eq)]
pub enum Resolution {
    /// A host module, served natively.
    Native,
    /// A deployed contract with this bytecode, served in the sandbox.
    Sandbox(Vec<u8>),
}

/// What the sandbox is told when a host function fails.
#[derive(Debug)]
pub enum HostTrap {
    /// The error carried a trap of the sandbox: that trap is raised again.
    Trap(wasmi::Trap),
    /// Any other error: a new host trap is to carry it.
    Host(VMError),
}

/// The host trap that carries `host`.
pub fn host_trap(host: VMError) -> (trap: HostTrap)
    ensures
        trap == HostTrap::Host(host),
{
    HostTrap::Host(host)
}

/// The stack as a sequence of frame values, the root call first.
pub open spec fn frame_views(stack: Seq<StackFrame>) -> Seq<FrameView> {
    stack.map_values(|f: StackFrame| f@)
}

/// What a call context is, as a mathematical value: the contracts of the
/// store, the identifiers reserved for host modules, and the call stack with
/// the root call first.
pub struct ContextView {
    pub store: Seq<(Seq<u8>, ContractStateView)>,
    pub modules: Seq<Seq<u8>>,
    pub frames: Seq<FrameView>,
}

/// What was read from the memory of a transaction: the new account and the
/// return value, or nothing where they could not be decoded.
pub type Output = Option<(AccountView, Seq<u8>)>;

/// `w` is what writing `len` bytes at the start of a memory of `size` bytes
/// gives: success where they fit, and the error for a region outside the
/// memory where they do not.
pub open spec fn wrote(size: nat, len: nat, w: Result<(), VMError>) -> bool {
    if len <= size {
        w is Ok
    } else {
        w matches Err(e) && e is OutOfBounds
    }
}

/// `r` is what entering a call gives when its input is `len` bytes long and
/// the memory of the callee `size` bytes: the call is entered where the
/// input fits, and fails for a region outside the memory where it does not.
pub open spec fn admitted(size: nat, len: nat, r: Result<Call, VMError>) -> bool {
    if len <= size {
        r matches Ok(Call::Sandbox)
    } else {
        r matches Err(e) && e is OutOfBounds
    }
}

/// What the sandbox is told for the result of a host function: its value,
/// the trap that its error carried, or a host trap with any other error.
pub open spec fn raised(result: Result<Option<Value>, VMError>) -> Result<Option<Value>, HostTrap> {
    match result {
        Ok(value) => Ok(value),
        Err(VMError::Trap(trap)) => Err(HostTrap::Trap(trap)),
        Err(e) => Err(HostTrap::Host(e)),
    }
}

/// `r` is the result `expected`, a state and a return value being
/// taken by their values.
pub open spec fn answers(
    r: Result<(ContractState, ReturnValue), VMError>,
    expected: Result<(ContractStateView, Seq<u8>), VMError>,
) -> bool {
    match expected {
        Ok((state, value)) => r matches Ok((s, v)) && s@ == state && v@ == value,
        Err(kind) => r matches Err(e) && e == kind,
    }
}

impl ContextView {
    /// The context after a call was entered with `frame`.
    pub open spec fn pushed(self, frame: FrameView) -> ContextView {
        ContextView { frames: self.frames.push(frame), ..self }
    }

    /// The context after the call on top of the stack was left. The store is
    /// as it was.
    pub open spec fn popped(self) -> ContextView {
        ContextView {
            frames: if self.frames.len() > 0 {
                self.frames.drop_last()
            } else {
                self.frames
            },
            ..self
        }
    }

    /// The contract that is running.
    pub open spec fn running(self) -> Seq<u8> {
        self.frames.last().callee
    }

    /// The contract whose state a transaction hands back when it returns:
    /// its caller where it has one, else itself.
    pub open spec fn observed(self) -> Seq<u8> {
        if self.frames.len() > 1 {
            self.frames[self.frames.len() - 2].callee
        } else {
            self.running()
        }
    }

    /// The context after the transaction on top of the stack returned with
    /// `output`: the decoded account takes the place of the balance, the
    /// nonce and the storage of the callee, whose code stays what it is. An
    /// output that could not be decoded changes nothing in the store, nor
    /// does one for a callee that the store does not hold. The frame is
    /// popped either way.
    pub open spec fn committed(self, output: Output) -> ContextView {
        ContextView {
            store: match output {
                Some((account, _)) => match lookup(self.store, self.running()) {
                    Some(held) => put(self.store, self.running(), held.with_account(account)),
                    None => self.store,
                },
                None => self.store,
            },
            frames: self.frames.drop_last(),
            ..self
        }
    }

    /// What the transaction on top of the stack gives its caller when it
    /// returns with `output`: the return value with the state that the store
    /// then holds for the contract observed. It fails with an encoding error
    /// where nothing was decoded, and with an unknown contract where the
    /// store does not hold the callee, or the caller.
    pub open spec fn returned(self, output: Output) -> Result<
        (ContractStateView, Seq<u8>),
        VMError,
    > {
        match output {
            None => Err(VMError::InvalidEncoding),
            Some((_, value)) => match lookup(self.store, self.running()) {
                None => Err(VMError::UnknownContract),
                Some(_) => match lookup(self.committed(output).store, self.observed()) {
                    Some(seen) => Ok((seen, value)),
                    None => Err(VMError::UnknownContract),
                },
            },
        }
    }

    /// The state that the transaction on top of the stack hands back when it
    /// returns with `output`, where it succeeds.
    pub open spec fn handed_back(self, output: Output) -> Option<ContractStateView> {
        match self.returned(output) {
            Ok((state, _)) => Some(state),
            Err(_) => None,
        }
    }

    /// What a call of `target` with `payload` finds at the start of its
    /// memory, where `target` is deployed.
    pub open spec fn input(self, target: Seq<u8>, payload: Seq<u8>) -> Option<Seq<u8>> {
        match lookup(self.store, target) {
            Some(state) => Some(call_input(state, payload)),
            None => None,
        }
    }
}

/// The context after each of `queries` was entered and left in turn.
pub open spec fn after_queries(c: ContextView, queries: Seq<FrameView>) -> ContextView
    decreases queries.len(),
{
    if queries.len() == 0 {
        c
    } else {
        after_queries(c, queries.drop_last()).pushed(queries.last()).popped()
    }
}

/// Queries leave everything as it was: however many are entered and left,
/// the store holds the same contracts with the same states, byte for byte,
/// and the stack is back where it was, with every frame as it was.
pub proof fn lemma_queries_change_nothing(c: ContextView, queries: Seq<FrameView>)
    ensures
        after_queries(c, queries) == c,
    decreases queries.len(),
{
    if queries.len() > 0 {
        lemma_queries_change_nothing(c, queries.drop_last());
        lemma_stack_balance(c, queries.last(), None);
    }
}

/// A call leaves the stack as it found it: after a frame was pushed for it,
/// leaving the call pops that frame again, whether the call is left as a
/// query, unwound after a trap, or left as a transaction with whatever
/// output. The frames below are the same as before in every field: callee,
/// payload, pending return value and memory handle. A call that fails
/// before it is entered pushes nothing.
pub proof fn lemma_stack_balance(c: ContextView, frame: FrameView, output: Output)
    ensures
        c.pushed(frame).popped() == c,
        c.pushed(frame).committed(output).frames == c.frames,
        c.pushed(frame).committed(output).modules == c.modules,
{
    assert(c.pushed(frame).frames.drop_last() =~= c.frames);
}

/// A transaction whose output cannot be decoded commits nothing: the store
/// is as it was before the call, and the call fails.
pub proof fn lemma_failed_transaction_commits_nothing(c: ContextView, frame: FrameView)
    ensures
        c.pushed(frame).committed(None).store == c.store,
        c.pushed(frame).returned(None) is Err,
        c.pushed(frame).handed_back(None) is None,
{
}

/// A transaction changes nothing but the account of its target. Whatever
/// the output, the store holds the same identifiers in the same order
/// afterwards, so no contract was created or deleted; every contract has the
/// code it had; and every contract other than the target has the state it
/// had. Where no identifier occurred twice before, none does afterwards.
pub proof fn lemma_transaction_keeps_code(
    c: ContextView,
    frame: FrameView,
    output: Output,
    id: Seq<u8>,
)
    ensures
        ({
            let after = c.pushed(frame).committed(output);
            &&& keys_of(after.store) == keys_of(c.store)
            &&& after.store.len() == c.store.len()
            &&& match (lookup(c.store, id), lookup(after.store, id)) {
                (Some(before), Some(now)) => now.code == before.code,
                (None, None) => true,
                _ => false,
            }
            &&& id != frame.callee ==> lookup(after.store, id) == lookup(c.store, id)
            &&& unique(c.store) ==> unique(after.store)
        }),
{
    let entered = c.pushed(frame);
    let after = entered.committed(output);
    assert(entered.running() == frame.callee);
    match output {
        Some((account, _)) => {
            match lookup(c.store, frame.callee) {
                Some(held) => {
                    let state = held.with_account(account);
                    lemma_put(c.store, frame.callee, state, id);
                    lemma_put_keys(c.store, frame.callee, state);
                    if unique(c.store) {
                        lemma_put_unique(c.store, frame.callee, state);
                    }
                    assert(keys_of(after.store).len() == after.store.len());
                    assert(keys_of(c.store).len() == c.store.len());
                },
                None => {},
            }
        },
        None => {},
    }
}

/// A transaction on a deployed contract whose output can be decoded
/// succeeds, at the root and under every caller that the store holds, and is
/// visible at once. The store afterwards holds for the
/// target exactly the decoded balance, nonce and storage, beside the code
/// of the target; nothing of the old account is kept. A call of the target
/// that is entered next finds that account at the start of its memory.
/// Where the transaction was the root call, that state is also the one
/// handed back, with the return value.
pub proof fn lemma_transaction_visible(
    c: ContextView,
    frame: FrameView,
    account: AccountView,
    value: Seq<u8>,
    next: Seq<u8>,
)
    requires
        lookup(c.store, frame.callee) is Some,
    ensures
        ({
            let entered = c.pushed(frame);
            let after = entered.committed(Some((account, value)));
            let state = lookup(c.store, frame.callee).unwrap().with_account(account);
            &&& state.account() == account
            &&& lookup(after.store, frame.callee) == Some(state)
            &&& after.input(frame.callee, next) == Some(call_input(state, next))
            &&& (c.frames.len() == 0 || lookup(c.store, c.running()) is Some) ==> entered.returned(
                Some((account, value)),
            ) is Ok
            &&& c.frames.len() == 0 ==> entered.returned(Some((account, value))) == Ok::<
                (ContractStateView, Seq<u8>),
                VMError,
            >((state, value))
        }),
{
    let entered = c.pushed(frame);
    let state = lookup(c.store, frame.callee).unwrap().with_account(account);
    assert(entered.running() == frame.callee);
    lemma_put(c.store, frame.callee, state, frame.callee);
    lemma_put(c.store, frame.callee, state, entered.observed());
    if c.frames.len() > 0 {
        assert(entered.observed() == c.frames.last().callee);
    }
}

/// A contract that calls a transaction on itself gets back what that
/// transaction committed: whatever account the inner call leaves, the state
/// handed to the caller holds that account, and it is what the store holds
/// for the contract while the outer call goes on, with the stack as it was
/// before the inner call.
pub proof fn lemma_reentrant_self_call(
    c: ContextView,
    frame: FrameView,
    account: AccountView,
    value: Seq<u8>,
)
    requires
        c.frames.len() > 0,
        frame.callee == c.running(),
        lookup(c.store, c.running()) is Some,
    ensures
        ({
            let entered = c.pushed(frame);
            let after = entered.committed(Some((account, value)));
            let state = lookup(c.store, c.running()).unwrap().with_account(account);
            &&& state.account() == account
            &&& entered.returned(Some((account, value))) == Ok::<
                (ContractStateView, Seq<u8>),
                VMError,
            >((state, value))
            &&& lookup(after.store, c.running()) == Some(state)
            &&& after.frames == c.frames
        }),
{
    let contract = c.running();
    let entered = c.pushed(frame);
    let state = lookup(c.store, contract).unwrap().with_account(account);
    assert(entered.running() == contract);
    lemma_put(c.store, contract, state, contract);
    assert(entered.frames.drop_last() =~= c.frames);
    assert(entered.observed() == contract);
}

/// A self-call inside a root transaction carries through: where a contract
/// is called at the root, calls a transaction on itself that leaves the
/// account `inner`, and then leaves the account `outer` itself, the store
/// holds `outer` for it in the end and the root call hands that state back.
/// The inner call had handed the contract the state with `inner`, so that
/// `outer` is built on what the inner call committed, not on a copy from
/// before it.
pub proof fn lemma_self_call_within_root(
    c: ContextView,
    root: FrameView,
    nested: FrameView,
    inner: AccountView,
    outer: AccountView,
    inner_value: Seq<u8>,
    outer_value: Seq<u8>,
)
    requires
        c.frames.len() == 0,
        nested.callee == root.callee,
        lookup(c.store, root.callee) is Some,
    ensures
        ({
            let held = lookup(c.store, root.callee).unwrap();
            let first = c.pushed(root);
            let second = first.pushed(nested);
            let back = second.committed(Some((inner, inner_value)));
            let end = back.committed(Some((outer, outer_value)));
            &&& second.returned(Some((inner, inner_value))) == Ok::<
                (ContractStateView, Seq<u8>),
                VMError,
            >((held.with_account(inner), inner_value))
            &&& back.frames == first.frames
            &&& back.returned(Some((outer, outer_value))) == Ok::<
                (ContractStateView, Seq<u8>),
                VMError,
            >((held.with_account(outer), outer_value))
            &&& lookup(end.store, root.callee) == Some(held.with_account(outer))
            &&& end.frames == c.frames
        }),
{
    let held = lookup(c.store, root.callee).unwrap();
    let first = c.pushed(root);
    let second = first.pushed(nested);
    let back = second.committed(Some((inner, inner_value)));
    assert(first.frames.drop_last() =~= c.frames);
    assert(second.frames.drop_last() =~= first.frames);
    assert(first.running() == root.callee);
    assert(second.running() == root.callee);
    assert(second.observed() == root.callee);
    lemma_put(c.store, root.callee, held.with_account(inner), root.callee);
    assert(back.running() == root.callee);
    assert(back.observed() == root.callee);
    lemma_put(back.store, root.callee, held.with_account(outer), root.callee);
    assert(held.with_account(inner).with_account(outer) == held.with_account(outer));
}

/// A nested transaction hands its caller the caller's own state as the
/// store holds it after the commit, not the state of the contract that was
/// called.
pub proof fn lemma_nested_call_hands_back_caller(
    c: ContextView,
    frame: FrameView,
    account: AccountView,
    value: Seq<u8>,
)
    requires
        c.frames.len() > 0,
        frame.callee != c.running(),
        lookup(c.store, frame.callee) is Some,
    ensures
        c.pushed(frame).handed_back(Some((account, value))) == lookup(c.store, c.running()),
{
    let caller = c.running();
    let entered = c.pushed(frame);
    let state = lookup(c.store, frame.callee).unwrap().with_account(account);
    assert(entered.running() == frame.callee);
    lemma_put(c.store, frame.callee, state, caller);
    assert(entered.observed() == caller);
}

/// The call context of one call tree.
pub struct CallContext {
    state: NetworkState,
    stack: Vec<StackFrame>,
    gas_meter: GasMeter,
    log: Vec<String>,
}

impl View for CallContext {
    type V = ContextView;

    closed spec fn view(&self) -> ContextView {
        ContextView {
            store: self.state@,
            modules: self.state.modules(),
            frames: frame_views(self.stack@),
        }
    }
}

impl CallContext {
    /// The gas meter.
    pub closed spec fn gas(&self) -> GasMeter {
        self.gas_meter
    }

    /// The debug messages that were logged and not yet taken.
    pub closed spec fn log(&self) -> Seq<Seq<char>> {
        self.log@.map_values(|s: String| s@)
    }

    /// A context with an empty stack over `state` and `gas_meter`, which it
    /// holds until it is finished.
    pub fn new(state: NetworkState, gas_meter: GasMeter) -> (context: Self)
        ensures
            context@ == (ContextView {
                store: state@,
                modules: state.modules(),
                frames: Seq::empty(),
            }),
            context.gas() == gas_meter,
            context.log() == Seq::<Seq<char>>::empty(),
    {
        let context = CallContext { state, stack: Vec::new(), gas_meter, log: Vec::new() };
        assert(context@.frames =~= Seq::<FrameView>::empty());
        assert(context.log() =~= Seq::<Seq<char>>::empty());
        context
    }

    /// Ends the context and hands back the store and the gas meter as the
    /// call tree left them. Frames that are still on the stack are dropped.
    pub fn finish(self) -> (parts: (NetworkState, GasMeter))
        ensures
            parts.0@ == self@.store,
            parts.0.modules() == self@.modules,
            parts.1 == self.gas(),
    {
        (self.state, self.gas_meter)
    }

    /// The number of calls that have been entered and have not returned.
    pub fn depth(&self) -> (n: usize)
        ensures
            n == self@.frames.len(),
    {
        self.stack.len()
    }

    /// What `target` is: a host module, a deployed contract, or nothing. A
    /// host module comes first where an identifier is both.
    pub fn resolve(&self, target: &ContractId) -> (r: Result<Resolution, VMError>)
        ensures
            self@.modules.contains(target@) ==> r matches Ok(Resolution::Native),
            !self@.modules.contains(target@) ==> match lookup(self@.store, target@) {
                Some(state) => r matches Ok(Resolution::Sandbox(code)) && code@ == state.code,
                None => r matches Err(e) && e is UnknownContract,
            },
    {
        if self.state.is_module(target) {
            return Ok(Resolution::Native);
        }
        match self.state.get_contract_state(target) {
            Some(state) => Ok(
                Resolution::Sandbox(vstd::slice::slice_to_vec(state.contract().bytecode())),
            ),
            None => Err(VMError::UnknownContract),
        }
    }

    /// What a call of `target` with `payload` is to find at the start of its
    /// memory: the account of the contract as the store holds it, then the
    /// payload.
    pub fn input(&self, target: &ContractId, payload: &[u8]) -> (r: Result<Vec<u8>, VMError>)
        ensures
            match self@.input(target@, payload@) {
                Some(bytes) => r matches Ok(input) && input@ == bytes,
                None => r matches Err(e) && e is UnknownContract,
            },
    {
        match self.state.get_contract_state(target) {
            Some(state) => Ok(encode_input(state, payload)),
            None => Err(VMError::UnknownContract),
        }
    }

    /// Pushes `frame` where its input was written, and hands the error on
    /// where it was not.
    pub fn enter(&mut self, frame: StackFrame, written: Result<(), VMError>) -> (r: Result<
        Call,
        VMError,
    >)
        ensures
            final(self).gas() == old(self).gas(),
            final(self).log() == old(self).log(),
            match written {
                Ok(_) => r matches Ok(Call::Sandbox) && final(self)@ == old(self)@.pushed(frame@),
                Err(e) => r == Err::<Call, VMError>(e) && final(self)@ == old(self)@,
            },
    {
        match written {
            Ok(_) => {
                self.stack.push(frame);
                assert(self@.frames =~= old(self)@.frames.push(frame@));
                Ok(Call::Sandbox)
            },
            Err(e) => Err(e),
        }
    }

    /// Enters a call of `target` with `argument`: writes the account of the
    /// contract and the bytes of the argument at the start of `memory` and
    /// pushes the frame.
    fn call(&mut self, target: ContractId, argument: Argument, memory: Option<wasmi::MemoryRef>) -> (r:
        Result<Call, VMError>)
        ensures
            final(self).gas() == old(self).gas(),
            final(self).log() == old(self).log(),
            r is Ok ==> (r matches Ok(Call::Sandbox) && memory matches Some(m) && final(self)@
                == old(self)@.pushed(
                FrameView::entered(target@, argument is Transaction, argument.payload(), m),
            )),
            r is Err ==> final(self)@ == old(self)@,
            match old(self)@.input(target@, argument.payload()) {
                None => r matches Err(e) && e is UnknownContract,
                Some(input) => match memory {
                    None => r matches Err(e) && e is MemoryNotFound,
                    Some(_) => exists|size: nat| #[trigger] admitted(size, input.len(), r),
                },
            },
    {
        let input = match self.input(&target, argument.as_bytes()) {
            Err(e) => { return Err(e); },
            Ok(input) => input,
        };
        let memory = match memory {
            None => { return Err(VMError::MemoryNotFound); },
            Some(memory) => memory,
        };
        let frame = StackFrame::new(target, memory, argument);
        let written = frame.write_at(CALL_OFFSET, input.as_slice());
        let ghost size = choose|size: nat| #[trigger] wrote(size, input@.len(), written);
        let r = self.enter(frame, written);
        assert(admitted(size, input@.len(), r));
        r
    }

    /// Enters a query of `target`.
    ///
    /// A host module is not entered: the call is to be answered by its
    /// native handler. For a deployed contract, `memory` is the linear memory
    /// that the instantiated module exports, or nothing where it exports
    /// none. The account of the contract and the bytes of `query` are written
    /// at the start of that memory and a frame is pushed, with no return
    /// value pending; where they do not fit the memory, the call fails. The
    /// store is never changed.
    pub fn query(&mut self, target: ContractId, query: Query, memory: Option<wasmi::MemoryRef>) -> (r:
        Result<Call, VMError>)
        ensures
            final(self).gas() == old(self).gas(),
            final(self).log() == old(self).log(),
            r matches Ok(Call::Sandbox) ==> (memory matches Some(m) && final(self)@ == old(
                self,
            )@.pushed(FrameView::entered(target@, false, query@, m))),
            !(r matches Ok(Call::Sandbox)) ==> final(self)@ == old(self)@,
            old(self)@.modules.contains(target@) ==> r matches Ok(Call::Native),
            !old(self)@.modules.contains(target@) ==> match old(self)@.input(target@, query@) {
                None => r matches Err(e) && e is UnknownContract,
                Some(input) => match memory {
                    None => r matches Err(e) && e is MemoryNotFound,
                    Some(_) => exists|size: nat| #[trigger] admitted(size, input.len(), r),
                },
            },
    {
        if self.state.is_module(&target) {
            return Ok(Call::Native);
        }
        self.call(target, Argument::Query(query), memory)
    }

    /// Enters a transaction on `target`.
    ///
    /// `memory` is the linear memory that the instantiated module exports, or
    /// nothing where it exports none. The account of the contract and the
    /// bytes of `transaction` are written at the start of that memory and a
    /// frame is pushed, with no return value pending; where they do not fit
    /// the memory, the call fails. The store is not changed before the
    /// transaction returns.
    pub fn transact(
        &mut self,
        target: ContractId,
        transaction: Transaction,
        memory: Option<wasmi::MemoryRef>,
    ) -> (r: Result<Call, VMError>)
        ensures
            final(self).gas() == old(self).gas(),
            final(self).log() == old(self).log(),
            r is Ok ==> (r matches Ok(Call::Sandbox) && memory matches Some(m) && final(self)@
                == old(self)@.pushed(FrameView::entered(target@, true, transaction@, m))),
            r is Err ==> final(self)@ == old(self)@,
            match old(self)@.input(target@, transaction@) {
                None => r matches Err(e) && e is UnknownContract,
                Some(input) => match memory {
                    None => r matches Err(e) && e is MemoryNotFound,
                    Some(_) => exists|size: nat| #[trigger] admitted(size, input.len(), r),
                },
            },
    {
        self.call(target, Argument::Transaction(transaction), memory)
    }

    /// Leaves the call on top of the stack without reading anything: for a
    /// call whose export trapped. The store is not changed.
    pub fn unwind(&mut self)
        ensures
            final(self)@ == old(self)@.popped(),
            final(self).gas() == old(self).gas(),
            final(self).log() == old(self).log(),
    {
        self.stack.pop();
        assert(self@.frames =~= old(self)@.popped().frames);
    }

    /// Leaves the query on top of the stack: reads the return value that the
    /// export left at the start of the memory and pops the frame, whether or
    /// not a return value was there. The store is not changed.
    pub fn query_return(&mut self) -> (r: Result<ReturnValue, VMError>)
        requires
            old(self)@.frames.len() > 0,
        ensures
            final(self)@ == old(self)@.popped(),
            final(self).gas() == old(self).gas(),
            final(self).log() == old(self).log(),
            exists|memory: Seq<u8>|
                match #[trigger] query_output(memory) {
                    Some(value) => r matches Ok(v) && v@ == value,
                    None => r matches Err(e) && e is InvalidEncoding,
                },
    {
        let bytes = self.stack[self.stack.len() - 1].snapshot();
        let r = read_return(bytes.as_slice());
        assert(query_output(bytes@) is Some ==> r is Ok);
        self.unwind();
        r
    }

    /// Leaves the transaction on top of the stack: reads the new account and
    /// the return value that the export left at the start of the memory, and
    /// commits as [`CallContext::commit`] says.
    pub fn transact_return(&mut self) -> (r: Result<(ContractState, ReturnValue), VMError>)
        requires
            old(self)@.frames.len() > 0,
        ensures
            final(self).gas() == old(self).gas(),
            final(self).log() == old(self).log(),
            exists|memory: Seq<u8>|
                {
                    &&& final(self)@ == old(self)@.committed(#[trigger] transaction_output(memory))
                    &&& answers(r, old(self)@.returned(transaction_output(memory)))
                },
    {
        let bytes = self.stack[self.stack.len() - 1].snapshot();
        let output = read_output(bytes.as_slice());
        let ghost memory = bytes@;
        assert(Self::output_view(output) == transaction_output(memory));
        let r = self.commit(output);
        assert(answers(r, old(self)@.returned(transaction_output(memory))));
        r
    }

    /// What was decoded from the memory of a transaction, as a mathematical
    /// value.
    pub open spec fn output_view(output: Result<(Account, ReturnValue), VMError>) -> Output {
        match output {
            Ok((account, value)) => Some((account@, value@)),
            Err(_) => None,
        }
    }

    /// Ends the transaction on top of the stack with what was read from its
    /// memory.
    ///
    /// Where an account and a return value were read, the account is stored
    /// for the callee in place of its balance, nonce and storage, beside the
    /// code that the callee has; the frame is popped, and the call hands
    /// back the return value with the state that the store now holds for the
    /// caller, or for the callee itself where it was the root call. Where
    /// nothing is stored, the frame is popped all the same, the store stays
    /// as it was and the error is handed on.
    pub fn commit(&mut self, output: Result<(Account, ReturnValue), VMError>) -> (r: Result<
        (ContractState, ReturnValue),
        VMError,
    >)
        requires
            old(self)@.frames.len() > 0,
        ensures
            final(self)@ == old(self)@.committed(Self::output_view(output)),
            final(self).gas() == old(self).gas(),
            final(self).log() == old(self).log(),
            match output {
                Err(e) => r == Err::<(ContractState, ReturnValue), VMError>(e),
                Ok(_) => answers(r, old(self)@.returned(Self::output_view(output))),
            },
            keys_of(final(self)@.store) == keys_of(old(self)@.store),
            unique(old(self)@.store) ==> unique(final(self)@.store),
    {
        proof {
            match (Self::output_view(output), lookup(self@.store, self@.running())) {
                (Some((account, _)), Some(held)) => {
                    lemma_put_keys(self@.store, self@.running(), held.with_account(account));
                    if unique(self@.store) {
                        lemma_put_unique(
                            self@.store,
                            self@.running(),
                            held.with_account(account),
                        );
                    }
                },
                _ => {},
            }
        }
        let depth = self.stack.len();
        let target = self.stack[depth - 1].callee;
        assert(target@ == self@.running());
        match output {
            Err(e) => {
                self.unwind();
                Err(e)
            },
            Ok((account, value)) => {
                let code = match self.state.get_contract_state(&target) {
                    None => {
                        self.unwind();
                        return Err(VMError::UnknownContract);
                    },
                    Some(held) => held.contract().duplicate(),
                };
                let state = ContractState::with_account(code, account);
                assert(state@ == lookup(self@.store, target@).unwrap().with_account(account@));
                self.state.set_contract_state(target, state);
                let owner = if depth > 1 {
                    self.stack[depth - 2].callee
                } else {
                    target
                };
                assert(owner@ == old(self)@.observed());
                self.unwind();
                match self.state.get_contract_state(&owner) {
                    Some(state) => Ok((state.duplicate(), value)),
                    None => Err(VMError::UnknownContract),
                }
            },
        }
    }

    /// The gas meter, to be charged.
    pub fn gas_meter_mut(&mut self) -> (meter: &mut GasMeter)
        ensures
            *meter == old(self).gas(),
            final(self).gas() == *final(meter),
            final(self)@ == old(self)@,
            final(self).log() == old(self).log(),
    {
        &mut self.gas_meter
    }

    /// The frame of the call that is running.
    pub fn top(&self) -> (frame: &StackFrame)
        requires
            self@.frames.len() > 0,
        ensures
            frame@ == self@.frames.last(),
    {
        &self.stack[self.stack.len() - 1]
    }

    /// The contract that is running.
    pub fn callee(&self) -> (id: &ContractId)
        requires
            self@.frames.len() > 0,
        ensures
            id@ == self@.frames.last().callee,
    {
        self.top().callee()
    }

    /// Runs `closure` on the bytes of the linear memory of the contract that
    /// is running. The closure works on a copy of the memory, taken before
    /// it runs.
    pub fn memory<R, C: FnOnce(&[u8]) -> R>(&self, closure: C) -> (r: R)
        requires
            self@.frames.len() > 0,
            forall|m: &[u8]| closure.requires((m,)),
        ensures
            exists|m: &[u8]| closure.ensures((m,), r),
    {
        let bytes = self.top().snapshot();
        closure(bytes.as_slice())
    }

    /// Runs `closure` on the bytes of the linear memory of the contract that
    /// is running, which it may change. The closure works on a copy of the
    /// memory, taken before it runs and written back when it is done.
    pub fn memory_mut<R, C: FnOnce(&mut [u8]) -> R>(&mut self, closure: C) -> (r: R)
        requires
            old(self)@.frames.len() > 0,
            forall|m: &mut [u8]| closure.requires((m,)),
        ensures
            exists|m: &mut [u8]| closure.ensures((m,), r),
            final(self)@ == old(self)@,
            final(self).gas() == old(self).gas(),
            final(self).log() == old(self).log(),
    {
        let mut bytes = self.top().snapshot();
        let r = closure(bytes.as_mut_slice());
        let restored = self.top().write_at(CALL_OFFSET, bytes.as_slice());
        r
    }

    /// The store.
    pub fn state(&self) -> (state: &NetworkState)
        ensures
            state@ == self@.store,
            state.modules() == self@.modules,
    {
        &self.state
    }

    /// The store, to be changed in place.
    pub fn state_mut(&mut self) -> (state: &mut NetworkState)
        ensures
            state@ == old(self)@.store,
            state.modules() == old(self)@.modules,
            final(self)@ == (ContextView {
                store: final(state)@,
                modules: final(state).modules(),
                frames: old(self)@.frames,
            }),
            final(self).gas() == old(self).gas(),
            final(self).log() == old(self).log(),
    {
        &mut self.state
    }

    /// Adds a line to the debug log.
    pub fn log_line(&mut self, line: String)
        ensures
            final(self).log() == old(self).log().push(line@),
            final(self)@ == old(self)@,
            final(self).gas() == old(self).gas(),
    {
        self.log.push(line);
        assert(self.log() =~= old(self).log().push(line@));
    }

    /// Takes the lines of the debug log, oldest first, and leaves it empty.
    pub fn take_log(&mut self) -> (lines: Vec<String>)
        ensures
            lines@.map_values(|s: String| s@) == old(self).log(),
            final(self).log() == Seq::<Seq<char>>::empty(),
            final(self)@ == old(self)@,
            final(self).gas() == old(self).gas(),
    {
        let mut lines: Vec<String> = Vec::new();
        lines.append(&mut self.log);
        assert(lines@ =~= old(self).log@);
        assert(self.log() =~= Seq::<Seq<char>>::empty());
        lines
    }

    /// What the sandbox is told for the result of a host function, as
    /// [`raised`] says.
    pub fn host_result(result: Result<Option<Value>, VMError>) -> (r: Result<
        Option<Value>,
        HostTrap,
    >)
        ensures
            r == raised(result),
    {
        match result {
            Ok(value) => Ok(value),
            Err(e) => match e {
                VMError::Trap(trap) => Err(HostTrap::Trap(trap)),
                other => Err(host_trap(other)),
            },
        }
    }

    /// Serves the host function numbered `index`, called by the contract
    /// that is running with `args`. Neither the store nor the stack is
    /// changed.
    pub fn invoke_index(&mut self, index: usize, args: &[Value]) -> (r: Result<
        Option<Value>,
        HostTrap,
    >)
        requires
            old(self)@.frames.len() > 0,
        ensures
            final(self)@ == old(self)@,
            final(self).gas() == old(self).gas(),
            exists|memory: Seq<u8>, result: Result<Option<Value>, VMError>|
                r == raised(result) && #[trigger] served(
                    index,
                    memory,
                    args@,
                    old(self).log(),
                    final(self).log(),
                    result,
                ),
    {
        let result = StandardABI::invoke(self, index, args);
        let ghost memory = choose|memory: Seq<u8>| #[trigger]
            served(index, memory, args@, old(self).log(), self.log(), result);
        let ghost kept = result;
        let r = Self::host_result(result);
        assert(r == raised(kept) && served(index, memory, args@, old(self).log(), self.log(), kept));
        r
    }
}

} // verus!
