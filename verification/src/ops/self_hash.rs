//! The host function by which a contract learns its own identity.

use crate::call_context::CallContext;
use crate::contract::ContractId;
use crate::error::VMError;
use crate::memory::{overwritten, write_region};
use crate::ops::{AbiCall, Value, ValueType};
use vstd::prelude::*;

verus! {

/// Writes the identifier of the contract that is running into its memory.
///
/// The argument is the offset at which the 32 bytes are to be written, an
/// `i32`. Nothing is returned.
pub struct SelfHash;

/// Writes the 32 bytes of `id` into `memory` from `ofs` on.
pub fn write_id(memory: &mut [u8], ofs: i32, id: &ContractId) -> (r: Result<(), VMError>)
    ensures
        final(memory)@.len() == old(memory)@.len(),
        match r {
            Ok(_) => 0 <= ofs && ofs + 32 <= old(memory)@.len() && final(memory)@ == overwritten(
                old(memory)@,
                ofs as int,
                id@,
            ),
            Err(e) => e is OutOfBounds && (ofs < 0 || ofs + 32 > old(memory)@.len()) && final(memory)@ == old(memory)@,
        },
{
    proof {
        id.lemma_width();
    }
    if ofs < 0 {
        return Err(VMError::OutOfBounds);
    }
    write_region(memory, ofs as usize, id.as_bytes())
}

/// The offset that a call of [`SelfHash`] was given, where it was given just
/// that.
pub open spec fn offset_arg(args: Seq<Value>) -> Option<i32> {
    if args.len() == 1 {
        match args[0] {
            Value::I32(ofs) => Some(ofs),
            _ => None,
        }
    } else {
        None
    }
}

/// `w` is what writing 32 bytes at `ofs` gives in a memory of `size` bytes:
/// success where they fit, and the error for a region outside the memory
/// where they do not.
pub open spec fn fits(size: nat, ofs: i32, w: Result<(), VMError>) -> bool {
    if 0 <= ofs && ofs + 32 <= size {
        w is Ok
    } else {
        w matches Err(e) && e is OutOfBounds
    }
}

/// `r` is what a call with `args` gives when the memory of the caller is
/// `size` bytes long.
pub open spec fn placed(size: nat, args: Seq<Value>, r: Result<Option<Value>, VMError>) -> bool {
    match offset_arg(args) {
        None => r matches Err(e) && e is InvalidArguments,
        Some(ofs) => if 0 <= ofs && ofs + 32 <= size {
            r matches Ok(None)
        } else {
            r matches Err(e) && e is OutOfBounds
        },
    }
}

impl AbiCall for SelfHash {
    fn arguments() -> (types: Vec<ValueType>)
        ensures
            types@ == seq![ValueType::I32],
    {
        let mut types: Vec<ValueType> = Vec::new();
        types.push(ValueType::I32);
        assert(types@ =~= seq![ValueType::I32]);
        types
    }

    fn result_type() -> (t: Option<ValueType>)
        ensures
            t is None,
    {
        None
    }

    /// Writes the identifier of the contract that is running at the offset
    /// given. Arguments other than one `i32` are refused, and so is an offset
    /// at which the identifier does not fit the memory. The context is not
    /// changed.
    fn call(context: &mut CallContext, args: &[Value]) -> (r: Result<Option<Value>, VMError>)
        ensures
            final(context)@ == old(context)@,
            final(context).gas() == old(context).gas(),
            final(context).log() == old(context).log(),
            exists|size: nat| #[trigger] placed(size, args@, r),
    {
        if args.len() != 1 {
            assert(placed(0, args@, Err(VMError::InvalidArguments)));
            return Err(VMError::InvalidArguments);
        }
        let ofs = match args[0] {
            Value::I32(ofs) => ofs,
            _ => {
                assert(placed(0, args@, Err(VMError::InvalidArguments)));
                return Err(VMError::InvalidArguments);
            },
        };
        let ghost callee = context@.running();
        let id: ContractId = *context.callee();
        let written = context.memory_mut(
            (|m: &mut [u8]| -> (w: Result<(), VMError>)
                ensures
                    fits(old(m)@.len(), ofs, w),
                    w is Ok ==> final(m)@ == overwritten(old(m)@, ofs as int, callee),
                    w is Err ==> final(m)@ == old(m)@,
                { write_id(m, ofs, &id) }),
        );
        let ghost size = choose|size: nat| #[trigger] fits(size, ofs, written);
        match written {
            Ok(_) => {
                assert(placed(size, args@, Ok(None)));
                Ok(None)
            },
            Err(e) => {
                assert(placed(size, args@, Err(e)));
                Err(e)
            },
        }
    }
}

} // verus!
