//! The table of host functions: which function a numeric index stands for.

use crate::call_context::CallContext;
use crate::codec::same_bytes;
use crate::error::VMError;
use crate::ops::debug::logged;
use crate::ops::self_hash::{placed, SelfHash};
use crate::ops::{AbiCall, Value, ValueType};
use vstd::prelude::*;
use vstd::string::StringSliceAdditionalSpecFns;

verus! {

/// The index of the debug log function.
pub const DEBUG_INDEX: usize = 0;

/// The index of [`SelfHash`].
pub const SELF_HASH_INDEX: usize = 1;

/// The name under which a module imports the debug log function.
pub const DEBUG_NAME: &'static str = "debug";

/// The name under which a module imports [`SelfHash`].
pub const SELF_HASH_NAME: &'static str = "self_hash";

/// The index of the host function that is imported under the name with the
/// bytes `name`.
pub open spec fn named(name: Seq<u8>) -> Option<usize> {
    if name == DEBUG_NAME.spec_bytes() {
        Some(DEBUG_INDEX)
    } else if name == SELF_HASH_NAME.spec_bytes() {
        Some(SELF_HASH_INDEX)
    } else {
        None
    }
}

/// The types of the arguments of the host function numbered `index`, where
/// the standard table holds one. None of them returns a value.
pub open spec fn parameters(index: usize) -> Option<Seq<ValueType>> {
    if index == DEBUG_INDEX {
        Some(seq![ValueType::I32, ValueType::I32])
    } else if index == SELF_HASH_INDEX {
        Some(seq![ValueType::I32])
    } else {
        None
    }
}

/// Whether `a` and `b` are the same types in the same order.
fn same_types(a: &[ValueType], b: &[ValueType]) -> (r: bool)
    ensures
        r == (a@ == b@),
{
    if a.len() != b.len() {
        return false;
    }
    let mut i: usize = 0;
    while i < a.len()
        invariant
            i <= a@.len(),
            a@.len() == b@.len(),
            forall|j: int| 0 <= j < i ==> a@[j] == b@[j],
        decreases a@.len() - i,
    {
        if a[i] != b[i] {
            return false;
        }
        i = i + 1;
    }
    assert(a@ =~= b@);
    true
}

/// `r` and the log `after` are what the standard table gives for a call of
/// the function numbered `index` with `args`, when the memory of the caller
/// holds `memory` and the log was `before`. An index that the table does not
/// hold is refused as an invalid argument.
pub open spec fn served(
    index: usize,
    memory: Seq<u8>,
    args: Seq<Value>,
    before: Seq<Seq<char>>,
    after: Seq<Seq<char>>,
    r: Result<Option<Value>, VMError>,
) -> bool {
    if index == DEBUG_INDEX {
        logged(memory, args, before, after, r)
    } else if index == SELF_HASH_INDEX {
        after == before && placed(memory.len(), args, r)
    } else {
        after == before && (r matches Err(e) && e is InvalidArguments)
    }
}

/// A table of host functions that can serve a call by its index.
pub trait Invoke: Sized {
    /// Serves the host function numbered `index`, called with `args` by the
    /// contract that is running.
    fn invoke(context: &mut CallContext, index: usize, args: &[Value]) -> (r: Result<
        Option<Value>,
        VMError,
    >)
        requires
            old(context)@.frames.len() > 0,
    ;
}

/// A table of host functions that a module's imports can be resolved
/// against.
pub trait Resolver: Invoke + Clone + Default {

}

/// The standard table: it holds the debug log function and [`SelfHash`].
#[derive(Clone, Copy, Debug, Default)]
pub struct StandardABI;

impl StandardABI {
    /// The types of the arguments and of the result of the host function
    /// numbered `index`, or nothing where the table has no such function.
    pub fn signature(index: usize) -> (r: Option<(Vec<ValueType>, Option<ValueType>)>)
        ensures
            match parameters(index) {
                Some(types) => r matches Some((args, ret)) && args@ == types && ret is None,
                None => r is None,
            },
    {
        if index == DEBUG_INDEX {
            Some((crate::ops::debug::Debug::arguments(), crate::ops::debug::Debug::result_type()))
        } else if index == SELF_HASH_INDEX {
            Some((SelfHash::arguments(), SelfHash::result_type()))
        } else {
            None
        }
    }

    /// The index of the host function that a module imports under
    /// `field_name`, or nothing where the table has none of that name.
    pub fn index_of(field_name: &str) -> (r: Option<usize>)
        ensures
            r == named(field_name.spec_bytes()),
    {
        let name = field_name.as_bytes();
        if same_bytes(name, DEBUG_NAME.as_bytes()) {
            Some(DEBUG_INDEX)
        } else if same_bytes(name, SELF_HASH_NAME.as_bytes()) {
            Some(SELF_HASH_INDEX)
        } else {
            None
        }
    }

    /// Whether an import with the arguments `params` and the result `ret`
    /// is the host function numbered `index`: the table holds one under
    /// that index, it takes just these arguments and returns what is asked.
    pub fn accepts(index: usize, params: &[ValueType], ret: Option<ValueType>) -> (r: bool)
        ensures
            r == (parameters(index) == Some(params@) && ret is None),
    {
        match Self::signature(index) {
            Some((args, result)) => same_types(args.as_slice(), params) && ret.is_none(),
            None => false,
        }
    }
}

impl Invoke for StandardABI {
    /// Serves the call as [`served`] says. Neither function of the standard
    /// table changes the store or the stack.
    fn invoke(context: &mut CallContext, index: usize, args: &[Value]) -> (r: Result<
        Option<Value>,
        VMError,
    >)
        ensures
            final(context)@ == old(context)@,
            final(context).gas() == old(context).gas(),
            exists|memory: Seq<u8>| #[trigger]
                served(index, memory, args@, old(context).log(), final(context).log(), r),
    {
        if index == DEBUG_INDEX {
            let r = crate::ops::debug::Debug::call(context, args);
            let ghost memory = choose|memory: Seq<u8>| #[trigger]
                logged(memory, args@, old(context).log(), context.log(), r);
            assert(served(index, memory, args@, old(context).log(), context.log(), r));
            r
        } else if index == SELF_HASH_INDEX {
            let r = SelfHash::call(context, args);
            let ghost size = choose|size: nat| #[trigger] placed(size, args@, r);
            let ghost memory = Seq::new(size, |i: int| 0u8);
            assert(served(index, memory, args@, old(context).log(), context.log(), r));
            r
        } else {
            assert(served(
                index,
                Seq::empty(),
                args@,
                old(context).log(),
                context.log(),
                Err(VMError::InvalidArguments),
            ));
            Err(VMError::InvalidArguments)
        }
    }
}

impl Resolver for StandardABI {

}

} // verus!
