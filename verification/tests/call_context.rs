use rusk_vm::call_context::{MEMORY_EXPORT, QUERY_EXPORT, TRANSACT_EXPORT};
use rusk_vm::codec::write_bytes;
use rusk_vm::memory::{encode_input, read_output, read_region, read_return, write_region};
use rusk_vm::{
    host_trap, Account, Call, CallContext, Contract, ContractId, ContractState, GasMeter, HostTrap,
    MeteredContract, NetworkState, Query, Resolution, ReturnValue, Storage, Transaction, VMError,
    Value, H256,
};
use wasmi::memory_units::Pages;
use wasmi::{MemoryInstance, MemoryRef};

fn memory() -> MemoryRef {
    MemoryInstance::alloc(Pages(1), None).unwrap()
}

fn state_with_balance(code: &[u8], balance: u128) -> ContractState {
    ContractState::from_parts(balance, 0, MeteredContract::from_bytes(code.to_vec()), Storage::new())
}

fn account(balance: u128) -> Account {
    Account::new(balance, 0, Storage::new())
}

fn output(state: &ContractState, value: &[u8]) -> Vec<u8> {
    let mut bytes = state.encode_account();
    write_bytes(&mut bytes, value);
    bytes
}

fn deployed(code: &[u8]) -> (NetworkState, ContractId) {
    let mut net = NetworkState::default();
    let id = net.deploy(Contract::new(code.to_vec()));
    (net, id)
}

#[test]
fn exports_have_their_names() {
    assert_eq!(QUERY_EXPORT, "q");
    assert_eq!(TRANSACT_EXPORT, "t");
    assert_eq!(MEMORY_EXPORT, "memory");
}

#[test]
fn transaction_adds_to_the_balance() {
    let code = [0u8, 97, 115, 109];
    let (net, id) = deployed(&code);
    assert_eq!(net.get_contract_state(&id).unwrap().balance(), 0);
    let mut context = CallContext::new(net, GasMeter::with_limit(1_000));
    let mem = memory();
    let entered = context.transact(id, Transaction::from_slice(b"+100 balance"), Some(mem.clone()));
    assert!(matches!(entered, Ok(Call::Sandbox)));
    assert_eq!(context.depth(), 1);

    let mut expected = state_with_balance(&code, 0).encode_account();
    expected.extend_from_slice(b"+100 balance");
    assert_eq!(mem.get(0, expected.len()).unwrap(), expected);

    mem.set(0, &output(&state_with_balance(&code, 100), b"ok")).unwrap();
    let (state, value) = context.transact_return().unwrap();
    assert_eq!(state.balance(), 100);
    assert_eq!(state, state_with_balance(&code, 100));
    assert_eq!(value, ReturnValue::from_slice(b"ok"));
    assert_eq!(context.depth(), 0);

    let (net, _) = context.finish();
    assert_eq!(net.get_contract_state(&id).unwrap().balance(), 100);
}

#[test]
fn query_after_failed_transaction_sees_the_old_balance() {
    let code = [1u8, 2, 3];
    let (mut net, id) = deployed(&code);
    net.set_contract_state(id, state_with_balance(&code, 7));
    let before = net.clone();
    let mut context = CallContext::new(net, GasMeter::with_limit(1_000));
    let mem = memory();
    context.transact(id, Transaction::from_slice(b"+100 balance"), Some(mem.clone())).unwrap();
    mem.set(0, &[0x80; 64]).unwrap();
    let failed = context.transact_return();
    assert!(matches!(failed, Err(VMError::InvalidEncoding)));
    assert_eq!(context.depth(), 0);
    assert_eq!(context.state(), &before);

    let mem = memory();
    context.query(id, Query::from_slice(b"balance"), Some(mem.clone())).unwrap();
    let mut expected = state_with_balance(&code, 7).encode_account();
    expected.extend_from_slice(b"balance");
    assert_eq!(mem.get(0, expected.len()).unwrap(), expected);
    context.unwind();
    let (net, _) = context.finish();
    assert_eq!(net, before);
}

#[test]
fn state_without_return_value_commits_nothing() {
    let code = [1u8, 2, 3];
    let (net, id) = deployed(&code);
    let before = net.clone();
    let mut context = CallContext::new(net, GasMeter::with_limit(1_000));
    let mem = MemoryInstance::alloc(Pages(1), None).unwrap();
    context.transact(id, Transaction::from_slice(b"t"), Some(mem.clone())).unwrap();
    let mut bytes = vec![0xffu8; 65536];
    let state = state_with_balance(&code, 100).encode_account();
    bytes[..state.len()].copy_from_slice(&state);
    mem.set(0, &bytes).unwrap();
    assert!(matches!(context.transact_return(), Err(VMError::InvalidEncoding)));
    assert_eq!(context.state(), &before);
    assert_eq!(context.depth(), 0);
}

#[test]
fn transactions_on_two_contracts_keep_their_storage_apart() {
    let mut net = NetworkState::default();
    let a = net.deploy(Contract::new(vec![1]));
    let b = net.deploy(Contract::new(vec![2]));
    let mut context = CallContext::new(net, GasMeter::with_limit(1_000));

    let mut storage = Storage::new();
    storage.insert(H256::from_raw([1u8; 32]), vec![0xaa]);
    let new_a = ContractState::from_parts(0, 1, MeteredContract::from_bytes(vec![1]), storage);
    let mem = memory();
    context.transact(a, Transaction::from_slice(b"set"), Some(mem.clone())).unwrap();
    mem.set(0, &output(&new_a, b"")).unwrap();
    let (state, _) = context.transact_return().unwrap();
    assert_eq!(state, new_a);

    let mem = memory();
    context.transact(b, Transaction::from_slice(b"get"), Some(mem.clone())).unwrap();
    let mut expected = state_with_balance(&[2], 0).encode_account();
    expected.extend_from_slice(b"get");
    assert_eq!(mem.get(0, expected.len()).unwrap(), expected);
    mem.set(0, &output(&state_with_balance(&[2], 0), b"none")).unwrap();
    let (state, value) = context.transact_return().unwrap();
    assert_eq!(state.storage().len(), 0);
    assert_eq!(state.storage().get(&H256::from_raw([1u8; 32])), None);
    assert_eq!(value.as_bytes(), b"none");

    let (net, _) = context.finish();
    assert_eq!(net.get_contract_state(&a), Some(&new_a));
    assert_eq!(net.get_contract_state(&b).unwrap().storage().len(), 0);
}

#[test]
fn query_returns_the_value_and_leaves_the_store() {
    let code = [1u8, 2, 3];
    let (net, id) = deployed(&code);
    let before = net.clone();
    let mut context = CallContext::new(net, GasMeter::with_limit(1_000));
    for round in 0u8..3 {
        let mem = memory();
        let entered = context.query(id, Query::from_slice(&[round]), Some(mem.clone()));
        assert!(matches!(entered, Ok(Call::Sandbox)));
        assert_eq!(context.depth(), 1);
        assert_eq!(context.callee(), &id);
        mem.set(0, &[2, 0xca, round, 0xff]).unwrap();
        let value = context.query_return().unwrap();
        assert_eq!(value.as_bytes(), &[0xca, round]);
        assert_eq!(context.depth(), 0);
        assert_eq!(context.state(), &before);
    }
    let (net, gas) = context.finish();
    assert_eq!(net, before);
    assert_eq!(gas.spent(), 0);
}

#[test]
fn query_with_undecodable_return_pops_its_frame() {
    let (net, id) = deployed(&[1]);
    let mut context = CallContext::new(net, GasMeter::with_limit(1_000));
    let mem = memory();
    context.query(id, Query::from_slice(b"q"), Some(mem.clone())).unwrap();
    mem.set(0, &[0x80; 32]).unwrap();
    assert!(matches!(context.query_return(), Err(VMError::InvalidEncoding)));
    assert_eq!(context.depth(), 0);
}

#[test]
fn query_of_a_host_module_pushes_nothing() {
    let mut net = NetworkState::default();
    let module = ContractId::reserved(1);
    net.register_module(module);
    let mut context = CallContext::new(net, GasMeter::with_limit(1_000));
    assert!(matches!(context.resolve(&module), Ok(Resolution::Native)));
    assert!(matches!(context.query(module, Query::from_slice(b"q"), None), Ok(Call::Native)));
    assert_eq!(context.depth(), 0);
}

#[test]
fn call_target_is_resolved() {
    let (net, id) = deployed(&[1, 2, 3]);
    let context = CallContext::new(net, GasMeter::with_limit(1_000));
    assert_eq!(context.resolve(&id).unwrap(), Resolution::Sandbox(vec![1, 2, 3]));
    let unknown = ContractId::from_raw([9u8; 32]);
    assert!(matches!(context.resolve(&unknown), Err(VMError::UnknownContract)));
}

#[test]
fn call_of_an_unknown_contract_fails() {
    let (net, _) = deployed(&[1]);
    let mut context = CallContext::new(net, GasMeter::with_limit(1_000));
    let unknown = ContractId::from_raw([9u8; 32]);
    let r = context.query(unknown, Query::from_slice(b"q"), Some(memory()));
    assert!(matches!(r, Err(VMError::UnknownContract)));
    let r = context.transact(unknown, Transaction::from_slice(b"t"), Some(memory()));
    assert!(matches!(r, Err(VMError::UnknownContract)));
    assert!(matches!(context.input(&unknown, b"q"), Err(VMError::UnknownContract)));
    assert_eq!(context.depth(), 0);
}

#[test]
fn module_without_memory_fails() {
    let (net, id) = deployed(&[1]);
    let mut context = CallContext::new(net, GasMeter::with_limit(1_000));
    let r = context.query(id, Query::from_slice(b"q"), None);
    assert!(matches!(r, Err(VMError::MemoryNotFound)));
    let r = context.transact(id, Transaction::from_slice(b"t"), None);
    assert!(matches!(r, Err(VMError::MemoryNotFound)));
    assert_eq!(context.depth(), 0);
}

#[test]
fn input_that_does_not_fit_the_memory_fails() {
    let (net, id) = deployed(&[1]);
    let before = net.clone();
    let mut context = CallContext::new(net, GasMeter::with_limit(1_000));
    let empty = MemoryInstance::alloc(Pages(0), None).unwrap();
    let r = context.query(id, Query::from_slice(b"q"), Some(empty.clone()));
    assert!(matches!(r, Err(VMError::OutOfBounds)));
    let r = context.transact(id, Transaction::from_slice(b"t"), Some(empty));
    assert!(matches!(r, Err(VMError::OutOfBounds)));
    assert_eq!(context.depth(), 0);
    assert_eq!(context.state(), &before);
}

#[test]
fn input_is_state_then_payload() {
    let code = [1u8, 2, 3];
    let (net, id) = deployed(&code);
    let context = CallContext::new(net, GasMeter::with_limit(1_000));
    assert_eq!(context.input(&id, b"pay").unwrap(), vec![0, 0, 0, 0, b'p', b'a', b'y']);
    assert_eq!(
        encode_input(&state_with_balance(&code, 300), b"pay"),
        vec![0, 0xac, 0x02, 0, 0, b'p', b'a', b'y']
    );
}

#[test]
fn written_input_is_read_back() {
    let state = state_with_balance(&[1, 2, 3], 9);
    let input = encode_input(&state, b"argument");
    let mut mem = vec![0x55u8; 64];
    write_region(&mut mem, 0, &input).unwrap();
    let (decoded, end) = Account::decode(&mem, 0).unwrap();
    assert_eq!(decoded, account(9));
    assert_eq!(&mem[end..end + 8], b"argument");
    assert!(mem[end + 8..].iter().all(|b| *b == 0x55));
}

#[test]
fn unwinding_pops_one_frame() {
    let (net, id) = deployed(&[1]);
    let before = net.clone();
    let mut context = CallContext::new(net, GasMeter::with_limit(1_000));
    context.unwind();
    assert_eq!(context.depth(), 0);
    context.transact(id, Transaction::from_slice(b"a"), Some(memory())).unwrap();
    context.query(id, Query::from_slice(b"b"), Some(memory())).unwrap();
    assert_eq!(context.depth(), 2);
    assert_eq!(context.top().argument().as_bytes(), b"b");
    assert_eq!(context.top().ret(), &ReturnValue::default());
    context.unwind();
    assert_eq!(context.depth(), 1);
    assert_eq!(context.top().argument().as_bytes(), b"a");
    assert_eq!(context.top().callee(), &id);
    context.unwind();
    assert_eq!(context.depth(), 0);
    assert_eq!(context.state(), &before);
}

#[test]
fn contract_that_calls_itself_gets_the_inner_state() {
    let code = [7u8];
    let (net, id) = deployed(&code);
    let mut context = CallContext::new(net, GasMeter::with_limit(1_000));
    let outer = memory();
    context.transact(id, Transaction::from_slice(b"t1"), Some(outer.clone())).unwrap();

    let inner = memory();
    context.transact(id, Transaction::from_slice(b"t2"), Some(inner.clone())).unwrap();
    assert_eq!(context.depth(), 2);
    inner.set(0, &output(&state_with_balance(&code, 5), b"inner")).unwrap();
    let (handed, value) = context.transact_return().unwrap();
    assert_eq!(handed.balance(), 5);
    assert_eq!(value.as_bytes(), b"inner");
    assert_eq!(context.depth(), 1);
    assert_eq!(context.state().get_contract_state(&id).unwrap().balance(), 5);

    outer.set(0, &output(&state_with_balance(&code, handed.balance() + 1), b"outer")).unwrap();
    let (last, value) = context.transact_return().unwrap();
    assert_eq!(last.balance(), 6);
    assert_eq!(value.as_bytes(), b"outer");
    assert_eq!(context.depth(), 0);
    let (net, _) = context.finish();
    assert_eq!(net.get_contract_state(&id).unwrap().balance(), 6);
}

#[test]
fn nested_transaction_hands_back_the_state_of_the_caller() {
    let mut net = NetworkState::default();
    let a = net.deploy(Contract::new(vec![1]));
    let b = net.deploy(Contract::new(vec![2]));
    net.set_contract_state(a, state_with_balance(&[1], 11));
    let mut context = CallContext::new(net, GasMeter::with_limit(1_000));
    context.transact(a, Transaction::from_slice(b"outer"), Some(memory())).unwrap();
    let inner = memory();
    context.transact(b, Transaction::from_slice(b"inner"), Some(inner.clone())).unwrap();
    inner.set(0, &output(&state_with_balance(&[2], 22), b"r")).unwrap();
    let (handed, _) = context.transact_return().unwrap();
    assert_eq!(handed, state_with_balance(&[1], 11));
    assert_eq!(context.state().get_contract_state(&b).unwrap().balance(), 22);
    assert_eq!(context.callee(), &a);
}

#[test]
fn commit_takes_what_was_decoded() {
    let (net, id) = deployed(&[1]);
    let before = net.clone();
    let mut context = CallContext::new(net, GasMeter::with_limit(1_000));
    context.transact(id, Transaction::from_slice(b"t"), Some(memory())).unwrap();
    let r = context.commit(Err(VMError::InvalidEncoding));
    assert!(matches!(r, Err(VMError::InvalidEncoding)));
    assert_eq!(context.depth(), 0);
    assert_eq!(context.state(), &before);

    context.transact(id, Transaction::from_slice(b"t"), Some(memory())).unwrap();
    let r = context.commit(Ok((account(3), ReturnValue::from_slice(b"v"))));
    let (state, value) = r.unwrap();
    assert_eq!(state.balance(), 3);
    assert_eq!(value.as_bytes(), b"v");
    assert_eq!(context.state().get_contract_state(&id).unwrap().balance(), 3);
}

#[test]
fn output_is_state_then_return_value() {
    let state = state_with_balance(&[1, 2], 100);
    let mut mem = output(&state, b"done");
    mem.extend_from_slice(&[0u8; 16]);
    let (decoded, value) = read_output(&mem).unwrap();
    assert_eq!(decoded, account(100));
    assert_eq!(value.as_bytes(), b"done");
    assert!(matches!(read_output(&mem[..3]), Err(VMError::InvalidEncoding)));
    assert!(matches!(read_output(&state.encode_account()), Err(VMError::InvalidEncoding)));
    assert_eq!(read_return(&[3, 1, 2, 3, 9]).unwrap().as_bytes(), &[1, 2, 3]);
    assert!(matches!(read_return(&[3, 1, 2]), Err(VMError::InvalidEncoding)));
    assert!(matches!(read_return(&[]), Err(VMError::InvalidEncoding)));
}

#[test]
fn regions_are_checked_against_the_memory() {
    let mut mem = vec![0u8; 8];
    assert!(write_region(&mut mem, 6, &[1, 2]).is_ok());
    assert_eq!(mem, vec![0, 0, 0, 0, 0, 0, 1, 2]);
    assert!(matches!(write_region(&mut mem, 7, &[1, 2]), Err(VMError::OutOfBounds)));
    assert!(matches!(write_region(&mut mem, 9, &[]), Err(VMError::OutOfBounds)));
    assert!(write_region(&mut mem, 8, &[]).is_ok());
    assert_eq!(mem, vec![0, 0, 0, 0, 0, 0, 1, 2]);
    assert_eq!(read_region(&mem, 6, 2).unwrap(), vec![1, 2]);
    assert!(matches!(read_region(&mem, 6, 3), Err(VMError::OutOfBounds)));
    assert!(matches!(read_region(&mem, usize::MAX, 2), Err(VMError::OutOfBounds)));
}

#[test]
fn memory_of_the_running_contract_is_reached() {
    let (net, id) = deployed(&[1]);
    let mut context = CallContext::new(net, GasMeter::with_limit(1_000));
    let mem = memory();
    context.query(id, Query::from_slice(b"q"), Some(mem.clone())).unwrap();
    let size = context.memory(|m| m.len());
    assert_eq!(size, 65536);
    context.memory_mut(|m| m[100] = 0x42);
    assert_eq!(mem.get(100, 1).unwrap(), vec![0x42]);
    assert_eq!(context.memory(|m| m[100]), 0x42);
    assert_eq!(context.top().memory_ref().get(100, 1).unwrap(), vec![0x42]);
}

#[test]
fn gas_meter_is_charged_through_the_context() {
    let (net, _) = deployed(&[1]);
    let mut context = CallContext::new(net, GasMeter::with_limit(10));
    assert!(context.gas_meter_mut().charge(4));
    assert_eq!(context.gas_meter_mut().left(), 6);
    assert!(!context.gas_meter_mut().charge(7));
    let (_, gas) = context.finish();
    assert_eq!(gas.spent(), 10);
    assert_eq!(gas.left(), 0);
}

#[test]
fn store_is_changed_through_the_context() {
    let (net, id) = deployed(&[1]);
    let mut context = CallContext::new(net, GasMeter::with_limit(10));
    *context.state_mut().get_contract_state_mut(&id).unwrap().balance_mut() = 8;
    assert_eq!(context.state().get_contract_state(&id).unwrap().balance(), 8);
}

#[test]
fn host_error_becomes_a_host_trap() {
    let r = CallContext::host_result(Err(VMError::InvalidUtf8));
    assert!(matches!(r, Err(HostTrap::Host(VMError::InvalidUtf8))));
    assert!(matches!(host_trap(VMError::OutOfBounds), HostTrap::Host(VMError::OutOfBounds)));
}

#[test]
fn trap_is_raised_again() {
    let trap = wasmi::Trap::new(wasmi::TrapKind::Unreachable);
    let error = VMError::Trap(trap);
    assert!(error.is_trap());
    assert_eq!(error.kind(), "trap");
    match CallContext::host_result(Err(error)) {
        Err(HostTrap::Trap(trap)) => assert!(matches!(trap.kind(), wasmi::TrapKind::Unreachable)),
        _ => panic!("the trap was not raised again"),
    }
}

#[test]
fn host_value_is_handed_on() {
    let r = CallContext::host_result(Ok(Some(Value::I32(5))));
    assert!(matches!(r, Ok(Some(Value::I32(5)))));
    let r = CallContext::host_result(Ok(None));
    assert!(matches!(r, Ok(None)));
}

#[test]
fn errors_have_names() {
    assert_eq!(VMError::MemoryNotFound.kind(), "memory not found");
    assert_eq!(VMError::InvalidArguments.kind(), "invalid arguments");
    assert_eq!(VMError::InvalidUtf8.kind(), "invalid utf-8");
    assert_eq!(VMError::InvalidEncoding.kind(), "invalid encoding");
    assert_eq!(VMError::UnknownContract.kind(), "unknown contract");
    assert_eq!(VMError::OutOfBounds.kind(), "out of bounds");
    assert!(!VMError::OutOfBounds.is_trap());
}

#[test]
fn gas_meter_counts_against_its_limit() {
    let mut gas = GasMeter::with_limit(100);
    assert_eq!(gas.left(), 100);
    assert!(gas.charge(30));
    assert_eq!(gas.spent(), 30);
    assert_eq!(gas.left(), 70);
    assert!(gas.charge(70));
    assert_eq!(gas.left(), 0);
    assert!(!gas.charge(1));
    assert_eq!(gas.spent(), 100);
    assert!(gas.charge(0));
}

#[test]
fn transaction_cannot_replace_the_code() {
    let code = [1u8, 2, 3];
    let (mut net, id) = deployed(&code);
    net.set_contract_state(id, state_with_balance(&code, 7));
    let mut context = CallContext::new(net, GasMeter::with_limit(1_000));
    let mem = memory();
    context.transact(id, Transaction::from_slice(b"swap"), Some(mem.clone())).unwrap();
    mem.set(0, &output(&state_with_balance(&[9, 9, 9], 8), b"done")).unwrap();
    let (state, _) = context.transact_return().unwrap();
    assert_eq!(state, state_with_balance(&code, 8));
    assert_eq!(state.contract().bytecode(), &code);

    context.transact(id, Transaction::from_slice(b"keep"), Some(memory())).unwrap();
    let mut storage = Storage::new();
    storage.insert(H256::from_raw([4u8; 32]), vec![1]);
    let r = context.commit(Ok((Account::new(9, 5, storage), ReturnValue::from_slice(b"v"))));
    let (state, _) = r.unwrap();
    assert_eq!(state.contract().bytecode(), &code);
    assert_eq!(state.balance(), 9);
    assert_eq!(state.nonce(), 5);
    assert_eq!(state.storage().len(), 1);
    assert_eq!(context.state().get_contract_state(&id), Some(&state));
    assert_eq!(context.state().len(), 1);
}

#[test]
fn frames_below_are_kept_as_they_were() {
    let (net, id) = deployed(&[1]);
    let mut context = CallContext::new(net, GasMeter::with_limit(1_000));
    let outer = memory();
    outer.set(500, &[0xab]).unwrap();
    context.transact(id, Transaction::from_slice(b"outer"), Some(outer.clone())).unwrap();
    let inner = memory();
    context.query(id, Query::from_slice(b"inner"), Some(inner.clone())).unwrap();
    assert_eq!(context.top().ret().as_bytes(), b"");
    inner.set(0, &[1, 7]).unwrap();
    context.query_return().unwrap();
    assert_eq!(context.depth(), 1);
    assert_eq!(context.top().callee(), &id);
    assert_eq!(context.top().argument().as_bytes(), b"outer");
    assert_eq!(context.top().ret().as_bytes(), b"");
    assert_eq!(context.top().memory_ref().get(500, 1).unwrap(), vec![0xab]);
    context.top().memory_ref().set(501, &[0xcd]).unwrap();
    assert_eq!(outer.get(501, 1).unwrap(), vec![0xcd]);
}
