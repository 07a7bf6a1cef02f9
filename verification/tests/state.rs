use rusk_vm::{
    Account, Contract, ContractId, ContractState, MeteredContract, NetworkState, Storage, H256,
};

fn key(first: u8) -> H256 {
    let mut raw = [0u8; 32];
    raw[0] = first;
    raw[31] = 0xee;
    H256::from_raw(raw)
}

fn sample_state() -> ContractState {
    let mut storage = Storage::new();
    storage.insert(key(1), vec![10, 11]);
    storage.insert(key(2), vec![]);
    ContractState::from_parts(
        (1u128 << 64) + 5,
        300,
        MeteredContract::from_bytes(vec![0, 97, 115, 109]),
        storage,
    )
}

#[test]
fn identifier_is_the_blake2b_digest_of_the_code() {
    let mut net = NetworkState::default();
    let id = net.deploy(Contract::new(vec![]));
    let expected: [u8; 32] = [
        0x0e, 0x57, 0x51, 0xc0, 0x26, 0xe5, 0x43, 0xb2, 0xe8, 0xab, 0x2e, 0xb0, 0x60, 0x99, 0xda,
        0xa1, 0xd1, 0xe5, 0xdf, 0x47, 0x77, 0x8f, 0x77, 0x87, 0xfa, 0xab, 0x45, 0xcd, 0xf1, 0x2f,
        0xe3, 0xa8,
    ];
    assert_eq!(id.as_bytes(), &expected[..]);
    let id = net.deploy(Contract::new(vec![0, 1, 2, 3]));
    let expected: [u8; 32] = [
        225, 234, 229, 168, 173, 174, 101, 46, 201, 175, 150, 119, 52, 106, 157, 96, 236, 237, 97,
        227, 160, 166, 155, 250, 207, 81, 141, 179, 31, 134, 227, 107,
    ];
    assert_eq!(id, ContractId::from_raw(expected));
    assert_eq!(MeteredContract::from_bytes(vec![0, 1, 2, 3]).id(), id);
}

#[test]
fn deployed_contract_starts_empty() {
    let mut net = NetworkState::default();
    let id = net.deploy(Contract::new(vec![1, 2, 3]));
    let state = net.get_contract_state(&id).unwrap();
    assert_eq!(state.balance(), 0);
    assert_eq!(state.nonce(), 0);
    assert_eq!(state.contract().bytecode(), &[1, 2, 3]);
    assert_eq!(state.storage().len(), 0);
    assert_eq!(net.len(), 1);
}

#[test]
fn deploying_twice_gives_the_same_identifier_and_one_entry() {
    let mut net = NetworkState::default();
    let first = net.deploy(Contract::new(vec![1, 2, 3]));
    let once = net.clone();
    let second = net.deploy(Contract::new(vec![1, 2, 3]));
    assert_eq!(first, second);
    assert_eq!(net.len(), 1);
    assert_eq!(net, once);
    let other = net.deploy(Contract::new(vec![1, 2, 4]));
    assert_ne!(first, other);
    assert_eq!(net.len(), 2);
}

#[test]
fn deploying_again_resets_the_state() {
    let mut net = NetworkState::default();
    let id = net.deploy(Contract::new(vec![1, 2, 3]));
    *net.get_contract_state_mut(&id).unwrap().balance_mut() = 7;
    assert_eq!(net.get_contract_state(&id).unwrap().balance(), 7);
    net.deploy(Contract::new(vec![1, 2, 3]));
    assert_eq!(net.get_contract_state(&id).unwrap().balance(), 0);
}

#[test]
fn unknown_contract_is_absent() {
    let mut net = NetworkState::default();
    net.deploy(Contract::new(vec![1]));
    let unknown = ContractId::from_raw([9u8; 32]);
    assert!(net.get_contract_state(&unknown).is_none());
    assert!(net.get_contract_state_mut(&unknown).is_none());
    assert_eq!(net.len(), 1);
}

#[test]
fn state_is_changed_in_place() {
    let mut net = NetworkState::default();
    let a = net.deploy(Contract::new(vec![1]));
    let b = net.deploy(Contract::new(vec![2]));
    {
        let state = net.get_contract_state_mut(&a).unwrap();
        *state.balance_mut() = 42;
        state.storage_mut().insert(key(1), vec![1, 2, 3]);
    }
    assert_eq!(net.get_contract_state(&a).unwrap().balance(), 42);
    assert_eq!(net.get_contract_state(&a).unwrap().storage().get(&key(1)), Some(&vec![1, 2, 3]));
    assert_eq!(net.get_contract_state(&b).unwrap().balance(), 0);
    assert_eq!(net.get_contract_state(&b).unwrap().storage().get(&key(1)), None);
}

#[test]
fn lookup_or_default_inserts_an_empty_state() {
    let mut net = NetworkState::default();
    let id = ContractId::from_raw([3u8; 32]);
    {
        let state = net.get_contract_state_mut_or_default(&id);
        assert_eq!(*state, ContractState::default());
        *state.balance_mut() = 5;
    }
    assert_eq!(net.len(), 1);
    assert_eq!(net.get_contract_state(&id).unwrap().balance(), 5);
    {
        let state = net.get_contract_state_mut_or_default(&id);
        assert_eq!(state.balance(), 5);
    }
    assert_eq!(net.len(), 1);
}

#[test]
fn stored_state_takes_the_place_of_the_old_one() {
    let mut net = NetworkState::default();
    let id = net.deploy(Contract::new(vec![1]));
    net.set_contract_state(id, sample_state());
    assert_eq!(net.len(), 1);
    assert_eq!(net.get_contract_state(&id), Some(&sample_state()));
}

#[test]
fn host_modules_are_registered() {
    let mut net = NetworkState::default();
    let module = ContractId::reserved(7);
    assert!(!net.is_module(&module));
    net.register_module(module);
    assert!(net.is_module(&module));
    assert!(!net.is_module(&ContractId::reserved(8)));
    assert_eq!(net.len(), 0);
}

#[test]
fn reserved_identifier_is_its_number_and_zeros() {
    let mut expected = [0u8; 32];
    expected[0] = 7;
    assert_eq!(ContractId::reserved(7), ContractId::from_raw(expected));
}

#[test]
fn identifier_is_read_from_a_slice() {
    let mut bytes = vec![0xaa];
    bytes.extend_from_slice(&[5u8; 32]);
    assert_eq!(H256::from_slice(&bytes, 1), Some(H256::from_raw([5u8; 32])));
    assert_eq!(H256::from_slice(&bytes, 2), None);
    assert_eq!(H256::from_slice(&bytes, 40), None);
    assert!(H256::from_raw([5u8; 32]).same(&H256::from_raw([5u8; 32])));
    assert!(!H256::from_raw([5u8; 32]).same(&key(5)));
}

#[test]
fn storage_keeps_the_last_value_written() {
    let mut storage = Storage::new();
    assert_eq!(storage.get(&key(1)), None);
    storage.insert(key(1), vec![1]);
    storage.insert(key(2), vec![2]);
    storage.insert(key(1), vec![3]);
    assert_eq!(storage.len(), 2);
    assert_eq!(storage.get(&key(1)), Some(&vec![3]));
    assert_eq!(storage.get(&key(2)), Some(&vec![2]));
    assert_eq!(storage.duplicate(), storage);
}

#[test]
fn fresh_state_encodes_to_its_fields_in_order() {
    let state = ContractState::fresh(MeteredContract::from_bytes(vec![1, 2, 3]));
    assert_eq!(state.encode(), vec![0, 0, 0, 3, 1, 2, 3, 0]);
}

#[test]
fn state_encodes_balance_nonce_code_storage() {
    let mut expected = vec![1, 5, 0xac, 0x02, 4, 0, 97, 115, 109, 2];
    expected.extend_from_slice(key(1).as_bytes());
    expected.extend_from_slice(&[2, 10, 11]);
    expected.extend_from_slice(key(2).as_bytes());
    expected.extend_from_slice(&[0]);
    assert_eq!(sample_state().encode(), expected);
}

#[test]
fn state_is_decoded_from_its_encoding() {
    let state = sample_state();
    let mut bytes = vec![0xff, 0xff];
    bytes.extend_from_slice(&state.encode());
    let end = bytes.len();
    bytes.extend_from_slice(&[1, 2, 3]);
    assert_eq!(ContractState::decode(&bytes, 2), Some((state.duplicate(), end)));
    assert_eq!(state.duplicate(), state);
}

#[test]
fn truncated_state_is_refused() {
    let bytes = sample_state().encode();
    for cut in 0..bytes.len() {
        assert_eq!(ContractState::decode(&bytes[..cut], 0), None);
    }
}

#[test]
fn storage_is_decoded_from_its_encoding() {
    let state = sample_state();
    let mut bytes = Vec::new();
    state.storage().encode(&mut bytes);
    assert_eq!(Storage::decode(&bytes, 0), Some((state.storage().duplicate(), bytes.len())));
    assert_eq!(Storage::decode(&[1], 0), None);
    assert_eq!(Storage::decode(&[], 0), None);
}

#[test]
fn store_is_restored_from_what_was_persisted() {
    let mut net = NetworkState::default();
    let a = net.deploy(Contract::new(vec![1, 2, 3]));
    net.deploy(Contract::new(vec![4]));
    net.set_contract_state(a, sample_state());
    let bytes = net.persist();
    assert_eq!(NetworkState::restore(&bytes), Some(net.clone()));
    assert_eq!(NetworkState::restore(&bytes[..bytes.len() - 1]), None);
    assert_eq!(NetworkState::default().persist(), vec![0]);
    assert_eq!(NetworkState::restore(&[0]), Some(NetworkState::default()));
    assert_eq!(NetworkState::restore(&[]), None);
}

#[test]
fn restored_store_has_no_host_modules() {
    let mut net = NetworkState::default();
    net.register_module(ContractId::reserved(1));
    let restored = NetworkState::restore(&net.persist()).unwrap();
    assert!(!restored.is_module(&ContractId::reserved(1)));
}

#[test]
fn contract_is_built_as_submitted() {
    let contract = Contract::new(vec![9, 8, 7]);
    assert_eq!(contract.bytecode(), &[9, 8, 7]);
    let metered = contract.build();
    assert_eq!(metered.bytecode(), &[9, 8, 7]);
    assert_eq!(metered.duplicate(), metered);
}

#[test]
fn storage_with_a_key_twice_is_refused() {
    let mut bytes = vec![2];
    bytes.extend_from_slice(key(1).as_bytes());
    bytes.extend_from_slice(&[1, 0xaa]);
    bytes.extend_from_slice(key(1).as_bytes());
    bytes.extend_from_slice(&[1, 0xbb]);
    assert_eq!(Storage::decode(&bytes, 0), None);

    let mut bytes = vec![2];
    bytes.extend_from_slice(key(1).as_bytes());
    bytes.extend_from_slice(&[1, 0xaa]);
    bytes.extend_from_slice(key(2).as_bytes());
    bytes.extend_from_slice(&[1, 0xbb]);
    let (storage, end) = Storage::decode(&bytes, 0).unwrap();
    assert_eq!(end, bytes.len());
    assert_eq!(storage.len(), 2);
    assert_eq!(storage.get(&key(2)), Some(&vec![0xbb]));

    let mut state = vec![0, 0, 0, 0];
    state.push(2);
    state.extend_from_slice(key(1).as_bytes());
    state.push(0);
    state.extend_from_slice(key(1).as_bytes());
    state.push(0);
    assert_eq!(ContractState::decode(&state, 0), None);
}

#[test]
fn store_with_an_identifier_twice_is_refused() {
    let mut net = NetworkState::default();
    let id = net.deploy(Contract::new(vec![1, 2, 3]));
    let one = net.persist();
    assert_eq!(one[0], 1);
    let mut twice = vec![2];
    twice.extend_from_slice(&one[1..]);
    twice.extend_from_slice(&one[1..]);
    assert_eq!(NetworkState::restore(&twice), None);

    let other = net.deploy(Contract::new(vec![4]));
    assert_ne!(id, other);
    let restored = NetworkState::restore(&net.persist()).unwrap();
    assert_eq!(restored.len(), 2);
    assert_eq!(restored, net);
}

#[test]
fn every_change_keeps_one_entry_for_an_identifier() {
    let mut net = NetworkState::default();
    let id = net.deploy(Contract::new(vec![1, 2, 3]));
    net.deploy(Contract::new(vec![1, 2, 3]));
    net.set_contract_state(id, sample_state());
    *net.get_contract_state_mut_or_default(&id).balance_mut() = 1;
    *net.get_contract_state_mut(&id).unwrap().balance_mut() = 2;
    assert_eq!(net.len(), 1);
    let bytes = net.persist();
    assert_eq!(bytes[0], 1);
    assert_eq!(NetworkState::restore(&bytes), Some(net));
}

#[test]
fn decoding_behind_the_end_gives_nothing() {
    let bytes = sample_state().encode();
    assert_eq!(ContractState::decode(&bytes, bytes.len() + 1), None);
    assert_eq!(ContractState::decode(&bytes, bytes.len()), None);
    assert_eq!(Storage::decode(&[0], 2), None);
    assert_eq!(Storage::decode(&[0], 1), None);
    assert_eq!(Storage::decode(&[0], 0).unwrap().1, 1);
}

#[test]
fn account_encodes_balance_nonce_storage() {
    let state = sample_state();
    let mut expected = vec![1, 5, 0xac, 0x02, 2];
    expected.extend_from_slice(key(1).as_bytes());
    expected.extend_from_slice(&[2, 10, 11]);
    expected.extend_from_slice(key(2).as_bytes());
    expected.extend_from_slice(&[0]);
    assert_eq!(state.encode_account(), expected);
    let account = Account::new(state.balance(), state.nonce(), state.storage().duplicate());
    assert_eq!(account.encode(), expected);
    assert_eq!(account.balance(), (1u128 << 64) + 5);
    assert_eq!(account.nonce(), 300);
    assert_eq!(account.storage(), state.storage());
    assert_eq!(Account::new(0, 0, Storage::new()).encode(), vec![0, 0, 0, 0]);
}

#[test]
fn account_is_decoded_from_its_encoding() {
    let state = sample_state();
    let mut bytes = vec![0xff];
    bytes.extend_from_slice(&state.encode_account());
    let end = bytes.len();
    bytes.extend_from_slice(&[7, 7]);
    let (account, stop) = Account::decode(&bytes, 1).unwrap();
    assert_eq!(stop, end);
    assert_eq!(account.encode(), state.encode_account());
    for cut in 1..end {
        assert_eq!(Account::decode(&bytes[..cut], 1), None);
    }
    assert_eq!(Account::decode(&bytes, bytes.len() + 1), None);
}

#[test]
fn state_is_its_code_beside_its_account() {
    let state = sample_state();
    let account = Account::new(5, 6, state.storage().duplicate());
    let changed = ContractState::with_account(state.contract().duplicate(), account);
    assert_eq!(changed.contract(), state.contract());
    assert_eq!(changed.balance(), 5);
    assert_eq!(changed.nonce(), 6);
    assert_eq!(changed.storage(), state.storage());
}
