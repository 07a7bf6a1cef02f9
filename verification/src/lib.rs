//! Execution core of a smart-contract virtual machine.
//!
//! The crate keeps the persistent contract store, the call stack of a running
//! call tree and the byte layout by which the host and a sandboxed contract
//! exchange state, arguments and results through linear memory. Instantiating
//! a module and running its exports is left to the embedding program, which
//! drives a [`call_context::CallContext`] through the phases of each call.

pub mod abi;
pub mod call_context;
pub mod codec;
pub mod contract;
pub mod error;
pub mod gas;
pub mod memory;
pub mod ops;
pub mod resolver;
pub mod state;
pub mod storage;
pub mod table;

pub use abi::{Query, ReturnValue, Transaction};
pub use call_context::{host_trap, Argument, Call, CallContext, HostTrap, Resolution, StackFrame};
pub use contract::{Contract, ContractId, MeteredContract, H256};
pub use error::VMError;
pub use gas::GasMeter;
pub use ops::self_hash::SelfHash;
pub use ops::{AbiCall, Value, ValueType};
pub use resolver::{Invoke, Resolver, StandardABI};
pub use state::{Account, ContractState, NetworkState};
pub use storage::Storage;
