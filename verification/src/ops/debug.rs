//! The host function by which a contract logs a line of text.

use crate::call_context::CallContext;
use crate::error::VMError;
use crate::memory::read_region;
use crate::ops::{AbiCall, Value, ValueType};
use vstd::prelude::*;
use vstd::utf8::{encode_utf8, valid_utf8};

verus! {

/// Logs the text that the contract points to in its memory.
///
/// The arguments are the offset and the length of the text, both `i32`.
/// Nothing is returned.
pub struct Debug;

/// Makes a string of `bytes` with std's `String::from_utf8`, which gives the
/// string that has exactly these bytes, and fails where they are no UTF-8.
#[verifier::external_body]
fn text_of(bytes: Vec<u8>) -> (r: Option<String>)
    ensures
        r is Some <==> valid_utf8(bytes@),
        r matches Some(s) ==> encode_utf8(s@) == bytes@,
{
    match String::from_utf8(bytes) {
        Ok(s) => Some(s),
        Err(_) => None,
    }
}

/// The `len` bytes of `memory` from `ofs` on, where the region lies within
/// the memory.
pub open spec fn region(memory: Seq<u8>, ofs: int, len: int) -> Option<Seq<u8>> {
    if 0 <= ofs && 0 <= len && ofs + len <= memory.len() {
        Some(memory.subrange(ofs, ofs + len))
    } else {
        None
    }
}

/// `r` is what reading the text of `len` bytes at `ofs` in `memory` gives:
/// the text with just these bytes, or the reason why there is none.
pub open spec fn read(memory: Seq<u8>, ofs: i32, len: i32, r: Result<String, VMError>) -> bool {
    match region(memory, ofs as int, len as int) {
        None => r matches Err(e) && e is OutOfBounds,
        Some(bytes) => if valid_utf8(bytes) {
            r matches Ok(text) && encode_utf8(text@) == bytes
        } else {
            r matches Err(e) && e is InvalidUtf8
        },
    }
}

/// Reads the text of `len` bytes that starts at `ofs` in `memory`.
pub fn read_text(memory: &[u8], ofs: i32, len: i32) -> (r: Result<String, VMError>)
    ensures
        read(memory@, ofs, len, r),
{
    if ofs < 0 || len < 0 {
        return Err(VMError::OutOfBounds);
    }
    match read_region(memory, ofs as usize, len as usize) {
        Err(e) => Err(e),
        Ok(bytes) => match text_of(bytes) {
            Some(text) => Ok(text),
            None => Err(VMError::InvalidUtf8),
        },
    }
}

/// The offset and the length that a call of [`Debug`] was given, where it
/// was given just these two.
pub open spec fn text_args(args: Seq<Value>) -> Option<(i32, i32)> {
    if args.len() == 2 {
        match (args[0], args[1]) {
            (Value::I32(ofs), Value::I32(len)) => Some((ofs, len)),
            _ => None,
        }
    } else {
        None
    }
}

/// `r` and the log `after` are what a call with `args` gives when the memory
/// of the caller holds `memory` and the log was `before`.
pub open spec fn logged(
    memory: Seq<u8>,
    args: Seq<Value>,
    before: Seq<Seq<char>>,
    after: Seq<Seq<char>>,
    r: Result<Option<Value>, VMError>,
) -> bool {
    match text_args(args) {
        None => r matches Err(e) && e is InvalidArguments && after == before,
        Some((ofs, len)) => match region(memory, ofs as int, len as int) {
            None => r matches Err(e) && e is OutOfBounds && after == before,
            Some(bytes) => if valid_utf8(bytes) {
                r matches Ok(None) && after.len() == before.len() + 1 && after.drop_last()
                    == before && encode_utf8(after.last()) == bytes
            } else {
                r matches Err(e) && e is InvalidUtf8 && after == before
            },
        },
    }
}

impl AbiCall for Debug {
    fn arguments() -> (types: Vec<ValueType>)
        ensures
            types@ == seq![ValueType::I32, ValueType::I32],
    {
        let mut types: Vec<ValueType> = Vec::new();
        types.push(ValueType::I32);
        types.push(ValueType::I32);
        assert(types@ =~= seq![ValueType::I32, ValueType::I32]);
        types
    }

    fn result_type() -> (t: Option<ValueType>)
        ensures
            t is None,
    {
        None
    }

    /// Appends the text to the debug log of the context, and changes nothing
    /// else of it. Arguments other than two `i32` are refused, and so is a
    /// region outside the memory or one that holds no UTF-8.
    fn call(context: &mut CallContext, args: &[Value]) -> (r: Result<Option<Value>, VMError>)
        ensures
            final(context)@ == old(context)@,
            final(context).gas() == old(context).gas(),
            exists|memory: Seq<u8>| #[trigger]
                logged(memory, args@, old(context).log(), final(context).log(), r),
    {
        if args.len() != 2 {
            assert(logged(Seq::empty(), args@, old(context).log(), context.log(), Err(VMError::InvalidArguments)));
            return Err(VMError::InvalidArguments);
        }
        let (ofs, len) = match (args[0], args[1]) {
            (Value::I32(ofs), Value::I32(len)) => (ofs, len),
            _ => {
                assert(logged(Seq::empty(), args@, old(context).log(), context.log(), Err(VMError::InvalidArguments)));
                return Err(VMError::InvalidArguments);
            },
        };
        assert(text_args(args@) == Some((ofs, len)));
        let text = context.memory(
            (|m: &[u8]| -> (t: Result<String, VMError>)
                ensures
                    read(m@, ofs, len, t),
                { read_text(m, ofs, len) }),
        );
        let ghost memory = choose|memory: Seq<u8>| #[trigger] read(memory, ofs, len, text);
        match text {
            Ok(line) => {
                let ghost shown = line@;
                context.log_line(line);
                proof {
                    assert(context.log().drop_last() =~= old(context).log());
                    assert(logged(memory, args@, old(context).log(), context.log(), Ok(None)));
                }
                Ok(None)
            },
            Err(e) => {
                assert(logged(memory, args@, old(context).log(), context.log(), Err(e)));
                Err(e)
            },
        }
    }
}

} // verus!
