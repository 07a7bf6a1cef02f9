//! Contract state and the persistent store that keeps it.

use crate::codec::{
    dec_bytes, dec_u128, dec_u64, enc_bytes, enc_u128, enc_u64, lemma_bytes_round_trip,
    lemma_u128_round_trip, lemma_u64_round_trip, read_bytes, read_u128, read_u64, rest,
    write_bytes,
    write_raw, write_u128, write_u64,
};
use crate::contract::{Contract, ContractId, MeteredContract, H256};
use crate::storage::{
    dec_storage, enc_storage, encodable_entries, lemma_storage_round_trip, Storage,
};
use crate::table::{
    distinct, first_at, keys_of, lemma_absent, lemma_found, lemma_put, lemma_put_unique,
    lemma_search, lookup, put, unique,
};
use vstd::prelude::*;

verus! {

/// What a contract state is, as a mathematical value.
pub struct ContractStateView {
    pub balance: u128,
    pub nonce: u64,
    pub code: Seq<u8>,
    pub storage: Seq<(Seq<u8>, Seq<u8>)>,
}

/// The encoding of a contract state: balance, nonce, code and storage, in
/// that order.
#[verifier::opaque]
pub open spec fn enc_state(s: ContractStateView) -> Seq<u8> {
    enc_u128(s.balance) + enc_u64(s.nonce) + enc_bytes(s.code) + enc_storage(s.storage)
}

/// Decodes a contract state from the start of `bytes`: the state and the
/// number of bytes it took.
#[verifier::opaque]
pub open spec fn dec_state(bytes: Seq<u8>) -> Option<(ContractStateView, nat)> {
    match dec_u128(bytes) {
        None => None,
        Some((balance, a)) => match dec_u64(bytes.skip(a as int)) {
            None => None,
            Some((nonce, b)) => match dec_bytes(bytes.skip((a + b) as int)) {
                None => None,
                Some((code, c)) => match dec_storage(bytes.skip((a + b + c) as int)) {
                    None => None,
                    Some((storage, d)) => Some(
                        (ContractStateView { balance, nonce, code, storage }, a + b + c + d),
                    ),
                },
            },
        },
    }
}

/// What a transaction can change of a contract, as a mathematical value: its
/// balance, its nonce and its storage. The code is not among them.
pub struct AccountView {
    pub balance: u128,
    pub nonce: u64,
    pub storage: Seq<(Seq<u8>, Seq<u8>)>,
}

impl ContractStateView {
    /// The part of the state that a transaction can change.
    pub open spec fn account(self) -> AccountView {
        AccountView { balance: self.balance, nonce: self.nonce, storage: self.storage }
    }

    /// The state with `account` in place of its balance, nonce and storage,
    /// and with the code that it has.
    pub open spec fn with_account(self, account: AccountView) -> ContractStateView {
        ContractStateView {
            balance: account.balance,
            nonce: account.nonce,
            code: self.code,
            storage: account.storage,
        }
    }
}

/// The encoding of an account: balance, nonce and storage, in that order.
/// This is what a contract finds in its memory as its state, and what a
/// transaction leaves there as its new state.
#[verifier::opaque]
pub open spec fn enc_account(a: AccountView) -> Seq<u8> {
    enc_u128(a.balance) + enc_u64(a.nonce) + enc_storage(a.storage)
}

/// Decodes an account from the start of `bytes`: the account and the number
/// of bytes it took.
#[verifier::opaque]
pub open spec fn dec_account(bytes: Seq<u8>) -> Option<(AccountView, nat)> {
    match dec_u128(bytes) {
        None => None,
        Some((balance, a)) => match dec_u64(bytes.skip(a as int)) {
            None => None,
            Some((nonce, b)) => match dec_storage(bytes.skip((a + b) as int)) {
                None => None,
                Some((storage, c)) => Some((AccountView { balance, nonce, storage }, a + b + c)),
            },
        },
    }
}

/// An account that can be encoded and decoded again: its storage and each
/// value in it are no longer than a 64-bit length can say, each key is 32
/// bytes wide, and no key occurs twice.
pub open spec fn encodable_account(a: AccountView) -> bool {
    &&& encodable_entries(a.storage)
    &&& unique(a.storage)
}

/// Decoding the encoding of an account gives the account back and stops
/// right after it, whatever follows.
pub proof fn lemma_account_round_trip(a: AccountView, rest: Seq<u8>)
    requires
        encodable_account(a),
    ensures
        dec_account(enc_account(a) + rest) == Some((a, enc_account(a).len())),
{
    reveal(enc_account);
    reveal(dec_account);
    let e1 = enc_u128(a.balance);
    let e2 = enc_u64(a.nonce);
    let e3 = enc_storage(a.storage);
    let bytes = enc_account(a) + rest;
    let t1 = e2 + (e3 + rest);
    let t2 = e3 + rest;
    assert(bytes =~= e1 + t1);
    lemma_u128_round_trip(a.balance, t1);
    assert(bytes.skip(e1.len() as int) =~= t1);
    lemma_u64_round_trip(a.nonce, t2);
    assert(bytes.skip((e1.len() + e2.len()) as int) =~= t2);
    lemma_storage_round_trip(a.storage, rest);
    assert(enc_account(a).len() == e1.len() + e2.len() + e3.len());
}

/// A state that can be encoded and decoded again: its code, its storage and
/// each value in it are no longer than a 64-bit length can say, each key is
/// 32 bytes wide, and no key occurs twice.
pub open spec fn encodable(s: ContractStateView) -> bool {
    &&& s.code.len() <= u64::MAX
    &&& encodable_entries(s.storage)
    &&& unique(s.storage)
}

/// Decoding the encoding of a state gives the state back and stops right
/// after it, whatever follows.
pub proof fn lemma_state_round_trip(s: ContractStateView, rest: Seq<u8>)
    requires
        encodable(s),
    ensures
        dec_state(enc_state(s) + rest) == Some((s, enc_state(s).len())),
{
    reveal(enc_state);
    reveal(dec_state);
    let e1 = enc_u128(s.balance);
    let e2 = enc_u64(s.nonce);
    let e3 = enc_bytes(s.code);
    let e4 = enc_storage(s.storage);
    let bytes = enc_state(s) + rest;
    let t1 = e2 + (e3 + (e4 + rest));
    let t2 = e3 + (e4 + rest);
    let t3 = e4 + rest;
    assert(bytes =~= e1 + t1);
    lemma_u128_round_trip(s.balance, t1);
    assert(bytes.skip(e1.len() as int) =~= t1);
    lemma_u64_round_trip(s.nonce, t2);
    assert(bytes.skip((e1.len() + e2.len()) as int) =~= t2);
    lemma_bytes_round_trip(s.code, t3);
    assert(bytes.skip((e1.len() + e2.len() + e3.len()) as int) =~= t3);
    lemma_storage_round_trip(s.storage, rest);
    assert(enc_state(s).len() == e1.len() + e2.len() + e3.len() + e4.len());
}

/// The store after `code` is deployed: a fresh state with that code stands
/// under the hash of the code.
pub open spec fn deployed(store: Seq<(Seq<u8>, ContractStateView)>, code: Seq<u8>) -> Seq<
    (Seq<u8>, ContractStateView),
> {
    put(
        store,
        crate::contract::blake2b_256(code),
        ContractStateView { balance: 0, nonce: 0, code, storage: Seq::empty() },
    )
}

/// Deploying the same code a second time changes nothing: the identifier is
/// the same, since it is the hash of the code, and the store holds the same
/// entries as after the first time. Where no identifier occurred twice
/// before, none does afterwards: exactly one entry stands under the
/// identifier of the code.
pub proof fn lemma_deploy_idempotent(store: Seq<(Seq<u8>, ContractStateView)>, code: Seq<u8>)
    ensures
        deployed(deployed(store, code), code) == deployed(store, code),
        unique(store) ==> unique(deployed(store, code)),
        lookup(deployed(store, code), crate::contract::blake2b_256(code)) == Some(
            ContractStateView { balance: 0, nonce: 0, code, storage: Seq::empty() },
        ),
{
    let id = crate::contract::blake2b_256(code);
    let fresh = ContractStateView { balance: 0, nonce: 0, code, storage: Seq::empty() };
    let once = deployed(store, code);
    if unique(store) {
        lemma_put_unique(store, id, fresh);
    }
    lemma_put(store, id, fresh, id);
    lemma_search(once, id);
    let i = keys_of(once).index_of_first(id).unwrap();
    lemma_search(store, id);
    match keys_of(store).index_of_first(id) {
        Some(k) => {
            assert(first_at(once, id, k));
            lemma_found(once, id, k);
        },
        None => {
            assert(first_at(once, id, store.len() as int));
            lemma_found(once, id, store.len() as int);
        },
    }
    assert(once[i] == (id, fresh));
    assert(once.update(i, (id, fresh)) =~= once);
}

/// Everything the store keeps for one contract: its balance, its nonce, the
/// code it runs and its storage.
#[derive(Clone, Debug, PartialEq, Eq)]
pub struct ContractState {
    balance: u128,
    nonce: u64,
    code: MeteredContract,
    storage: Storage,
}

impl View for ContractState {
    type V = ContractStateView;

    closed spec fn view(&self) -> ContractStateView {
        ContractStateView {
            balance: self.balance,
            nonce: self.nonce,
            code: self.code@,
            storage: self.storage@,
        }
    }
}

impl Default for ContractState {
    /// A state with no balance, no code and no storage.
    fn default() -> (s: Self)
        ensures
            s@ == (ContractStateView {
                balance: 0,
                nonce: 0,
                code: Seq::empty(),
                storage: Seq::empty(),
            }),
    {
        ContractState {
            balance: 0,
            nonce: 0,
            code: MeteredContract::from_bytes(Vec::new()),
            storage: Storage::new(),
        }
    }
}

impl ContractState {
    /// The state with no balance, no code and no storage.
    pub open spec fn empty_view() -> ContractStateView {
        ContractStateView { balance: 0, nonce: 0, code: Seq::empty(), storage: Seq::empty() }
    }

    /// The state of a contract that was just deployed with `code`: no
    /// balance, nonce zero, empty storage.
    pub fn fresh(code: MeteredContract) -> (s: Self)
        ensures
            s@ == (ContractStateView {
                balance: 0,
                nonce: 0,
                code: code@,
                storage: Seq::empty(),
            }),
    {
        ContractState { balance: 0, nonce: 0, code, storage: Storage::new() }
    }

    /// The state made of the given parts.
    pub fn from_parts(balance: u128, nonce: u64, code: MeteredContract, storage: Storage) -> (s:
        Self)
        ensures
            s@ == (ContractStateView { balance, nonce, code: code@, storage: storage@ }),
    {
        ContractState { balance, nonce, code, storage }
    }

    /// A state whose storage holds no key twice can be encoded and decoded
    /// again.
    pub proof fn lemma_encodable(&self)
        requires
            unique(self@.storage),
        ensures
            encodable(self@),
    {
        assert forall|i: int| 0 <= i < self@.storage.len() implies (#[trigger] self@.storage[i]).0.len()
            == 32 && self@.storage[i].1.len() <= u64::MAX by {
            self.storage.lemma_entry_widths(i);
        }
        if self@.storage.len() > 0 {
            self.storage.lemma_entry_widths(0);
        }
        assert(self.code@.len() <= usize::MAX) by {
            self.code.lemma_length();
        }
    }

    /// The balance of the contract.
    pub fn balance(&self) -> (b: u128)
        ensures
            b == self@.balance,
    {
        self.balance
    }

    /// The balance of the contract, to be changed in place.
    pub fn balance_mut(&mut self) -> (b: &mut u128)
        ensures
            *b == old(self)@.balance,
            final(self)@ == (ContractStateView { balance: *final(b), ..old(self)@ }),
    {
        &mut self.balance
    }

    /// The nonce of the contract.
    pub fn nonce(&self) -> (n: u64)
        ensures
            n == self@.nonce,
    {
        self.nonce
    }

    /// The storage of the contract.
    pub fn storage(&self) -> (s: &Storage)
        ensures
            s@ == self@.storage,
    {
        &self.storage
    }

    /// The storage of the contract, to be changed in place.
    pub fn storage_mut(&mut self) -> (s: &mut Storage)
        ensures
            s@ == old(self)@.storage,
            final(self)@ == (ContractStateView { storage: final(s)@, ..old(self)@ }),
    {
        &mut self.storage
    }

    /// The code of the contract.
    pub fn contract(&self) -> (c: &MeteredContract)
        ensures
            c@ == self@.code,
    {
        &self.code
    }

    /// A copy of this state.
    pub fn duplicate(&self) -> (s: Self)
        ensures
            s@ == self@,
    {
        ContractState {
            balance: self.balance,
            nonce: self.nonce,
            code: self.code.duplicate(),
            storage: self.storage.duplicate(),
        }
    }

    /// The encoding of this state.
    pub fn encode(&self) -> (bytes: Vec<u8>)
        ensures
            bytes@ == enc_state(self@),
    {
        reveal(enc_state);
        let mut out: Vec<u8> = Vec::new();
        write_u128(&mut out, self.balance);
        write_u64(&mut out, self.nonce);
        write_bytes(&mut out, self.code.bytecode());
        self.storage.encode(&mut out);
        assert(out@ =~= enc_state(self@));
        out
    }

    /// Reads a state at `at`. Gives the state and the position after it, or
    /// nothing where the bytes there are no encoding of a state.
    pub fn decode(bytes: &[u8], at: usize) -> (r: Option<(ContractState, usize)>)
        ensures
            match dec_state(rest(bytes@, at as int)) {
                Some((state, n)) => r matches Some((s, end)) && s@ == state && end == at + n
                    && end <= bytes@.len(),
                None => r is None,
            },
            r matches Some((s, _)) ==> encodable(s@),
    {
        if at > bytes.len() {
            reveal(dec_state);
            return None;
        }
        reveal(dec_state);
        let ghost s0 = bytes@.skip(at as int);
        let (balance, p1) = match read_u128(bytes, at) {
            None => { return None; },
            Some(p) => p,
        };
        assert(s0.skip(p1 - at) =~= bytes@.skip(p1 as int));
        let (nonce, p2) = match read_u64(bytes, p1) {
            None => { return None; },
            Some(p) => p,
        };
        assert(s0.skip(p2 - at) =~= bytes@.skip(p2 as int));
        let (code, p3) = match read_bytes(bytes, p2) {
            None => { return None; },
            Some(p) => p,
        };
        assert(s0.skip(p3 - at) =~= bytes@.skip(p3 as int));
        let (storage, p4) = match Storage::decode(bytes, p3) {
            None => { return None; },
            Some(p) => p,
        };
        let state = ContractState {
            balance,
            nonce,
            code: MeteredContract::from_bytes(code),
            storage,
        };
        proof {
            state.lemma_encodable();
        }
        Some((state, p4))
    }
}

/// What a transaction can change of a contract: its balance, its nonce and
/// its storage. A contract finds its account in its memory when it is called,
/// and a transaction leaves the new one there.
#[derive(Clone, Debug, PartialEq, Eq)]
pub struct Account {
    balance: u128,
    nonce: u64,
    storage: Storage,
}

impl View for Account {
    type V = AccountView;

    closed spec fn view(&self) -> AccountView {
        AccountView { balance: self.balance, nonce: self.nonce, storage: self.storage@ }
    }
}

impl Account {
    /// The account made of the given parts.
    pub fn new(balance: u128, nonce: u64, storage: Storage) -> (a: Self)
        ensures
            a@ == (AccountView { balance, nonce, storage: storage@ }),
    {
        Account { balance, nonce, storage }
    }

    /// The balance.
    pub fn balance(&self) -> (b: u128)
        ensures
            b == self@.balance,
    {
        self.balance
    }

    /// The nonce.
    pub fn nonce(&self) -> (n: u64)
        ensures
            n == self@.nonce,
    {
        self.nonce
    }

    /// The storage.
    pub fn storage(&self) -> (s: &Storage)
        ensures
            s@ == self@.storage,
    {
        &self.storage
    }

    /// The encoding of this account.
    pub fn encode(&self) -> (bytes: Vec<u8>)
        ensures
            bytes@ == enc_account(self@),
    {
        reveal(enc_account);
        let mut out: Vec<u8> = Vec::new();
        write_u128(&mut out, self.balance);
        write_u64(&mut out, self.nonce);
        self.storage.encode(&mut out);
        assert(out@ =~= enc_account(self@));
        out
    }

    /// Reads an account at `at`. Gives the account and the position after
    /// it, or nothing where the bytes there are no encoding of an account.
    pub fn decode(bytes: &[u8], at: usize) -> (r: Option<(Account, usize)>)
        ensures
            match dec_account(rest(bytes@, at as int)) {
                Some((account, n)) => r matches Some((a, end)) && a@ == account && end == at + n
                    && end <= bytes@.len(),
                None => r is None,
            },
            r matches Some((a, _)) ==> unique(a@.storage),
    {
        reveal(dec_account);
        if at > bytes.len() {
            return None;
        }
        let ghost s0 = bytes@.skip(at as int);
        let (balance, p1) = match read_u128(bytes, at) {
            None => { return None; },
            Some(p) => p,
        };
        assert(s0.skip(p1 - at) =~= bytes@.skip(p1 as int));
        let (nonce, p2) = match read_u64(bytes, p1) {
            None => { return None; },
            Some(p) => p,
        };
        assert(s0.skip(p2 - at) =~= bytes@.skip(p2 as int));
        let (storage, p3) = match Storage::decode(bytes, p2) {
            None => { return None; },
            Some(p) => p,
        };
        Some((Account { balance, nonce, storage }, p3))
    }
}

impl ContractState {
    /// The state of a contract with `code` and `account`.
    pub fn with_account(code: MeteredContract, account: Account) -> (s: Self)
        ensures
            s@.code == code@,
            s@.account() == account@,
    {
        ContractState {
            balance: account.balance,
            nonce: account.nonce,
            code,
            storage: account.storage,
        }
    }

    /// The encoding of the account of this state: what the contract finds
    /// in its memory as its state.
    pub fn encode_account(&self) -> (bytes: Vec<u8>)
        ensures
            bytes@ == enc_account(self@.account()),
    {
        reveal(enc_account);
        let mut out: Vec<u8> = Vec::new();
        write_u128(&mut out, self.balance);
        write_u64(&mut out, self.nonce);
        self.storage.encode(&mut out);
        assert(out@ =~= enc_account(self@.account()));
        out
    }
}

/// The encoding of the contracts of a store: for each contract its 32-byte
/// identifier, then its state.
pub open spec fn enc_contracts(contracts: Seq<(Seq<u8>, ContractStateView)>) -> Seq<u8>
    decreases contracts.len(),
{
    if contracts.len() == 0 {
        Seq::empty()
    } else {
        enc_contracts(contracts.drop_last()) + contracts.last().0 + enc_state(contracts.last().1)
    }
}

/// Decodes `count` contracts from the start of `bytes`.
pub open spec fn dec_contracts(bytes: Seq<u8>, count: nat) -> Option<
    (Seq<(Seq<u8>, ContractStateView)>, nat),
>
    decreases count,
{
    if count == 0 {
        Some((Seq::empty(), 0))
    } else if bytes.len() < 32 {
        None
    } else {
        match dec_state(bytes.skip(32)) {
            None => None,
            Some((state, n)) => match dec_contracts(bytes.skip(32 + n as int), (count - 1) as nat) {
                None => None,
                Some((rest, m)) => Some(
                    (seq![(bytes.subrange(0, 32), state)] + rest, 32 + n + m),
                ),
            },
        }
    }
}

/// The encoding of a store: the number of its contracts, then the contracts.
pub open spec fn enc_store(contracts: Seq<(Seq<u8>, ContractStateView)>) -> Seq<u8> {
    enc_u64(contracts.len() as u64) + enc_contracts(contracts)
}

/// Decodes a store from the start of `bytes`. Bytes that hold an identifier
/// twice are no encoding of a store.
pub open spec fn dec_store(bytes: Seq<u8>) -> Option<(Seq<(Seq<u8>, ContractStateView)>, nat)> {
    match dec_u64(bytes) {
        None => None,
        Some((count, n)) => match dec_contracts(bytes.skip(n as int), count as nat) {
            None => None,
            Some((contracts, m)) => if unique(contracts) {
                Some((contracts, n + m))
            } else {
                None
            },
        },
    }
}

/// Contracts that can be encoded: no more of them than a 64-bit count can
/// say, each under an identifier of 32 bytes and with a state that can be
/// encoded.
pub open spec fn encodable_contracts(contracts: Seq<(Seq<u8>, ContractStateView)>) -> bool {
    &&& contracts.len() <= u64::MAX
    &&& forall|i: int|
        0 <= i < contracts.len() ==> (#[trigger] contracts[i]).0.len() == 32 && encodable(
            contracts[i].1,
        )
}

/// The encoding of a list of contracts starts with the encoding of its first
/// contract.
pub proof fn lemma_enc_contracts_front(
    first: (Seq<u8>, ContractStateView),
    tail: Seq<(Seq<u8>, ContractStateView)>,
)
    ensures
        enc_contracts(seq![first] + tail) == first.0 + enc_state(first.1) + enc_contracts(tail),
    decreases tail.len(),
{
    let all = seq![first] + tail;
    if tail.len() == 0 {
        assert(all.drop_last() =~= Seq::<(Seq<u8>, ContractStateView)>::empty());
        assert(enc_contracts(all.drop_last()) =~= Seq::<u8>::empty());
        assert(enc_contracts(all) =~= first.0 + enc_state(first.1) + enc_contracts(tail));
    } else {
        assert(all.drop_last() =~= seq![first] + tail.drop_last());
        assert(all.last() == tail.last());
        lemma_enc_contracts_front(first, tail.drop_last());
        assert(enc_contracts(all) =~= first.0 + enc_state(first.1) + enc_contracts(tail));
    }
}

/// Decoding the encoding of a list of contracts gives the list back,
/// whatever follows it.
pub proof fn lemma_contracts_round_trip(
    contracts: Seq<(Seq<u8>, ContractStateView)>,
    rest: Seq<u8>,
)
    requires
        encodable_contracts(contracts),
    ensures
        dec_contracts(enc_contracts(contracts) + rest, contracts.len()) == Some(
            (contracts, enc_contracts(contracts).len()),
        ),
    decreases contracts.len(),
{
    if contracts.len() == 0 {
        assert(enc_contracts(contracts) =~= Seq::<u8>::empty());
    } else {
        let first = contracts[0];
        let tail = contracts.skip(1);
        assert(contracts =~= seq![first] + tail);
        lemma_enc_contracts_front(first, tail);
        let after_first = enc_contracts(tail) + rest;
        let bytes = enc_contracts(contracts) + rest;
        assert(bytes =~= first.0 + (enc_state(first.1) + after_first));
        assert(bytes.subrange(0, 32) =~= first.0);
        assert(bytes.skip(32) =~= enc_state(first.1) + after_first);
        lemma_state_round_trip(first.1, after_first);
        let n = enc_state(first.1).len();
        assert(bytes.skip(32 + n as int) =~= after_first);
        assert forall|i: int| 0 <= i < tail.len() implies (#[trigger] tail[i]).0.len() == 32
            && encodable(tail[i].1) by {
            assert(tail[i] == contracts[i + 1]);
        }
        lemma_contracts_round_trip(tail, rest);
        assert(first == (bytes.subrange(0, 32), first.1));
    }
}

/// Restoring what was persisted gives the same contracts with the same
/// states, in the same order, where no identifier occurs twice.
pub proof fn lemma_store_round_trip(contracts: Seq<(Seq<u8>, ContractStateView)>, rest: Seq<u8>)
    requires
        encodable_contracts(contracts),
        unique(contracts),
    ensures
        dec_store(enc_store(contracts) + rest) == Some((contracts, enc_store(contracts).len())),
{
    let count = contracts.len() as u64;
    let body = enc_contracts(contracts) + rest;
    lemma_u64_round_trip(count, body);
    lemma_contracts_round_trip(contracts, rest);
    let bytes = enc_store(contracts) + rest;
    assert(bytes =~= enc_u64(count) + body);
    assert(bytes.skip(enc_u64(count).len() as int) =~= body);
}

/// One contract of the store.
#[derive(Clone, Debug, PartialEq, Eq)]
struct Record {
    id: ContractId,
    state: ContractState,
}

/// The persistent root: every deployed contract with its state, and the
/// identifiers that are reserved for host modules.
///
/// A contract is never removed. The contracts keep the order in which they
/// were first stored, and no identifier has more than one entry: a store is
/// made empty or restored from bytes that hold no identifier twice, and
/// every change keeps the identifiers apart.
#[derive(Clone, Debug, PartialEq, Eq)]
pub struct NetworkState {
    contracts: Vec<Record>,
    modules: Vec<ContractId>,
}

impl View for NetworkState {
    type V = Seq<(Seq<u8>, ContractStateView)>;

    closed spec fn view(&self) -> Seq<(Seq<u8>, ContractStateView)> {
        self.contracts@.map_values(|r: Record| (r.id@, r.state@))
    }
}

impl Default for NetworkState {
    /// A store without contracts and without host modules.
    fn default() -> (s: Self)
        ensures
            s@ == Seq::<(Seq<u8>, ContractStateView)>::empty(),
            s.modules() == Seq::<Seq<u8>>::empty(),
    {
        let s = NetworkState { contracts: Vec::new(), modules: Vec::new() };
        assert(s@ =~= Seq::<(Seq<u8>, ContractStateView)>::empty());
        assert(s.modules() =~= Seq::<Seq<u8>>::empty());
        s
    }
}

impl NetworkState {
    /// The identifiers reserved for host modules, in the order in which they
    /// were registered.
    pub closed spec fn modules(&self) -> Seq<Seq<u8>> {
        self.modules@.map_values(|id: ContractId| id@)
    }

    /// The state that the store holds for `id`.
    pub open spec fn state_of(&self, id: Seq<u8>) -> Option<ContractStateView> {
        lookup(self@, id)
    }

    /// The number of contracts in the store.
    pub fn len(&self) -> (n: usize)
        ensures
            n == self@.len(),
    {
        self.contracts.len()
    }

    /// The place of the contract `id`.
    fn position(&self, id: &ContractId) -> (r: Option<usize>)
        ensures
            match r {
                Some(i) => first_at(self@, id@, i as int) && i < self.contracts@.len(),
                None => forall|j: int| 0 <= j < self@.len() ==> self@[j].0 != id@,
            },
    {
        let mut i: usize = 0;
        while i < self.contracts.len()
            invariant
                i <= self.contracts@.len(),
                forall|j: int| 0 <= j < i ==> self@[j].0 != id@,
            decreases self.contracts@.len() - i,
        {
            if self.contracts[i].id.same(id) {
                return Some(i);
            }
            i = i + 1;
        }
        None
    }

    /// Reserves `id` for a host module: calls to it bypass the sandbox.
    pub fn register_module(&mut self, id: ContractId)
        ensures
            final(self).modules() == old(self).modules().push(id@),
            final(self)@ == old(self)@,
    {
        self.modules.push(id);
        assert(self.modules() =~= old(self).modules().push(id@));
    }

    /// Whether `id` is reserved for a host module.
    pub fn is_module(&self, id: &ContractId) -> (r: bool)
        ensures
            r == self.modules().contains(id@),
    {
        let mut i: usize = 0;
        while i < self.modules.len()
            invariant
                i <= self.modules@.len(),
                forall|j: int| 0 <= j < i ==> self.modules()[j] != id@,
            decreases self.modules@.len() - i,
        {
            if self.modules[i].same(id) {
                assert(self.modules()[i as int] == id@);
                return true;
            }
            i = i + 1;
        }
        false
    }

    /// Deploys `contract`: stores a fresh state with its code under the hash
    /// of that code, in place of a state that was there, and gives the hash.
    pub fn deploy(&mut self, contract: Contract) -> (id: ContractId)
        ensures
            id@ == crate::contract::blake2b_256(contract@),
            final(self)@ == deployed(old(self)@, contract@),
            final(self).modules() == old(self).modules(),
            unique(old(self)@) ==> unique(final(self)@),
    {
        let metered = contract.build();
        let id = metered.id();
        let state = ContractState::fresh(metered);
        self.set_contract_state(id, state);
        id
    }

    /// Stores `state` under `id`, in place of a state that was there.
    pub fn set_contract_state(&mut self, id: ContractId, state: ContractState)
        ensures
            final(self)@ == put(old(self)@, id@, state@),
            final(self).modules() == old(self).modules(),
            unique(old(self)@) ==> unique(final(self)@),
    {
        proof {
            if unique(self@) {
                lemma_put_unique(self@, id@, state@);
            }
        }
        match self.position(&id) {
            Some(i) => {
                proof {
                    lemma_found(self@, id@, i as int);
                }
                self.contracts[i] = Record { id, state };
                assert(self@ =~= put(old(self)@, id@, state@));
            },
            None => {
                proof {
                    lemma_absent(self@, id@);
                }
                self.contracts.push(Record { id, state });
                assert(self@ =~= put(old(self)@, id@, state@));
            },
        }
    }

    /// The state of the contract `id`, or nothing where the store has no such
    /// contract.
    pub fn get_contract_state(&self, id: &ContractId) -> (state: Option<&ContractState>)
        ensures
            match self.state_of(id@) {
                Some(v) => state matches Some(s) && s@ == v,
                None => state is None,
            },
    {
        match self.position(id) {
            Some(i) => {
                proof {
                    lemma_found(self@, id@, i as int);
                }
                Some(&self.contracts[i].state)
            },
            None => {
                proof {
                    lemma_absent(self@, id@);
                }
                None
            },
        }
    }

    /// The state of the contract `id`, to be changed in place, or nothing
    /// where the store has no such contract.
    pub fn get_contract_state_mut(&mut self, id: &ContractId) -> (state: Option<&mut ContractState>)
        ensures
            match old(self).state_of(id@) {
                Some(v) => state matches Some(s) && s@ == v && final(self)@ == put(
                    old(self)@,
                    id@,
                    final(s)@,
                ) && (unique(old(self)@) ==> unique(put(old(self)@, id@, final(s)@))),
                None => state is None && final(self)@ == old(self)@,
            },
            final(self).modules() == old(self).modules(),
    {
        proof {
            if unique(self@) {
                assert forall|v: ContractStateView| unique(#[trigger] put(self@, id@, v)) by {
                    lemma_put_unique(self@, id@, v);
                }
            }
        }
        match self.position(id) {
            Some(i) => {
                proof {
                    lemma_found(self@, id@, i as int);
                }
                Some(&mut self.contracts[i].state)
            },
            None => {
                proof {
                    lemma_absent(self@, id@);
                }
                None
            },
        }
    }

    /// A store in which no storage holds a key twice can be persisted and
    /// restored.
    pub proof fn lemma_encodable(&self)
        requires
            forall|i: int| 0 <= i < self@.len() ==> unique((#[trigger] self@[i]).1.storage),
        ensures
            encodable_contracts(self@),
    {
        assert(self.contracts@.len() == self.contracts.len());
        assert forall|i: int| 0 <= i < self@.len() implies (#[trigger] self@[i]).0.len() == 32
            && encodable(self@[i].1) by {
            self.contracts@[i].id.lemma_width();
            assert(self@[i].1 == self.contracts@[i].state@);
            self.contracts@[i].state.lemma_encodable();
        }
    }

    /// The bytes that stand for the contracts of the store. The host modules
    /// are not among them: they are registered anew by the host.
    pub fn persist(&self) -> (bytes: Vec<u8>)
        ensures
            bytes@ == enc_store(self@),
    {
        let mut out: Vec<u8> = Vec::new();
        write_u64(&mut out, self.contracts.len() as u64);
        let ghost base = out@;
        let mut i: usize = 0;
        while i < self.contracts.len()
            invariant
                i <= self.contracts@.len(),
                out@ == base + enc_contracts(self@.take(i as int)),
            decreases self.contracts@.len() - i,
        {
            let record = &self.contracts[i];
            write_raw(&mut out, record.id.as_bytes());
            let mut state = record.state.encode();
            out.append(&mut state);
            proof {
                let next = self@.take(i + 1);
                assert(next.drop_last() =~= self@.take(i as int));
                assert(next.last() == self@[i as int]);
                assert(out@ =~= base + enc_contracts(next));
            }
            i = i + 1;
        }
        assert(self@.take(i as int) =~= self@);
        assert(out@ =~= enc_store(self@));
        out
    }

    /// The store that `bytes` stand for, without host modules, or nothing
    /// where they are no encoding of a store: where a part cannot be decoded
    /// or an identifier occurs twice. Bytes behind the encoding are not
    /// looked at.
    pub fn restore(bytes: &[u8]) -> (r: Option<NetworkState>)
        ensures
            match dec_store(bytes@) {
                Some((contracts, _)) => r matches Some(s) && s@ == contracts && s.modules()
                    == Seq::<Seq<u8>>::empty(),
                None => r is None,
            },
            r matches Some(s) ==> unique(s@),
    {
        assert(bytes@.skip(0) =~= bytes@);
        let (count, start) = match read_u64(bytes, 0) {
            None => { return None; },
            Some(p) => p,
        };
        let ghost body = bytes@.skip(start as int);
        let total = bytes.len();
        assert(bytes@.len() == total);
        let mut contracts: Vec<Record> = Vec::new();
        let mut ids: Vec<ContractId> = Vec::new();
        let mut cur: usize = start;
        let mut i: u64 = 0;
        let ghost mut acc: Seq<(Seq<u8>, ContractStateView)> = Seq::empty();
        while i < count
            invariant
                i <= count,
                start <= cur <= bytes@.len() <= usize::MAX,
                body == bytes@.skip(start as int),
                dec_u64(bytes@) == Some((count, start as nat)),
                acc == contracts@.map_values(|r: Record| (r.id@, r.state@)),
                ids@.len() == acc.len(),
                forall|k: int| 0 <= k < acc.len() ==> ids@[k]@ == acc[k].0,
                dec_contracts(body, count as nat) == match dec_contracts(
                    bytes@.skip(cur as int),
                    (count - i) as nat,
                ) {
                    Some((rest, m)) => Some((acc + rest, (cur - start + m) as nat)),
                    None => None,
                },
            decreases count - i,
        {
            let ghost here = bytes@.skip(cur as int);
            let id = match H256::from_slice(bytes, cur) {
                None => {
                    assert(here.len() < 32);
                    return None;
                },
                Some(k) => k,
            };
            assert(id@ =~= here.subrange(0, 32));
            assert(here.skip(32) =~= bytes@.skip(cur + 32));
            let (state, next) = match ContractState::decode(bytes, cur + 32) {
                None => {
                    assert(dec_state(here.skip(32)) is None);
                    return None;
                },
                Some(p) => p,
            };
            proof {
                let n = next - cur - 32;
                assert(dec_state(here.skip(32)) == Some((state@, n as nat)));
                assert(here.skip(32 + n) =~= bytes@.skip(next as int));
                let e = (id@, state@);
                match dec_contracts(bytes@.skip(next as int), (count - i - 1) as nat) {
                    Some((rest, m)) => {
                        assert(acc + (seq![e] + rest) =~= acc.push(e) + rest);
                    },
                    None => {},
                }
                acc = acc.push(e);
            }
            contracts.push(Record { id, state });
            ids.push(id);
            assert(acc =~= contracts@.map_values(|r: Record| (r.id@, r.state@)));
            cur = next;
            i = i + 1;
        }
        let s = NetworkState { contracts, modules: Vec::new() };
        assert(s@ == acc);
        assert(acc + Seq::<(Seq<u8>, ContractStateView)>::empty() =~= acc);
        assert(s.modules() =~= Seq::<Seq<u8>>::empty());
        let apart = distinct(&ids);
        proof {
            if apart {
                assert forall|i: int, j: int| 0 <= i < j < acc.len() implies acc[i].0
                    != acc[j].0 by {
                    assert(ids@[i]@ != ids@[j]@);
                }
            } else {
                let (i, j) = choose|i: int, j: int|
                    0 <= i < j < ids@.len() && ids@[i]@ == ids@[j]@;
                assert(acc[i].0 == acc[j].0);
            }
        }
        if !apart {
            return None;
        }
        Some(s)
    }

    /// The state of the contract `id`, to be changed in place. Where the
    /// store has no such contract, an empty state is stored under `id`
    /// first.
    pub fn get_contract_state_mut_or_default(&mut self, id: &ContractId) -> (state:
        &mut ContractState)
        ensures
            state@ == lookup(Self::with_default(old(self)@, id@), id@).unwrap(),
            final(self)@ == put(Self::with_default(old(self)@, id@), id@, final(state)@),
            unique(old(self)@) ==> unique(
                put(Self::with_default(old(self)@, id@), id@, final(state)@),
            ),
            final(self).modules() == old(self).modules(),
    {
        proof {
            if unique(self@) {
                let base = Self::with_default(self@, id@);
                lemma_put_unique(self@, id@, ContractState::empty_view());
                assert forall|v: ContractStateView| unique(#[trigger] put(base, id@, v)) by {
                    lemma_put_unique(base, id@, v);
                }
            }
        }
        let i = match self.position(id) {
            Some(i) => {
                proof {
                    lemma_found(self@, id@, i as int);
                }
                i
            },
            None => {
                proof {
                    lemma_absent(self@, id@);
                }
                let at = self.contracts.len();
                self.contracts.push(Record { id: *id, state: ContractState::default() });
                proof {
                    assert(self@ =~= Self::with_default(old(self)@, id@));
                    assert(first_at(self@, id@, at as int));
                    lemma_found(self@, id@, at as int);
                }
                at
            },
        };
        assert(self@ == Self::with_default(old(self)@, id@));
        &mut self.contracts[i].state
    }

    /// The store with an empty state under `id` where it held none.
    pub open spec fn with_default(entries: Seq<(Seq<u8>, ContractStateView)>, id: Seq<u8>) -> Seq<
        (Seq<u8>, ContractStateView),
    > {
        match lookup(entries, id) {
            Some(_) => entries,
            None => put(entries, id, ContractState::empty_view()),
        }
    }
}

} // verus!
