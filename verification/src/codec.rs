//! The byte encoding of the values that cross the boundary between the host
//! and a contract.
//!
//! Integers are written as variable-length integers: groups of seven bits,
//! least significant group first, with the high bit of a byte saying that
//! another group follows. A 64-bit value takes at most ten bytes. A byte
//! string is written as its length followed by its bytes. This is the
//! encoding of the `dusk-varint` crate, bit for bit, also where an input has
//! more bits than 64: of a tenth byte only the lowest bit counts.

use vstd::prelude::*;
use vstd::slice::slice_subrange;

verus! {

/// Two to the power 64.
pub open spec fn two_64() -> nat {
    0x1_0000_0000_0000_0000
}

/// The variable-length encoding of `v`.
pub open spec fn varint(v: nat) -> Seq<u8>
    decreases v,
{
    if v < 128 {
        seq![v as u8]
    } else {
        seq![(128 + v % 128) as u8] + varint(v / 128)
    }
}

/// One more than the greatest value that the groups from the `i`-th on can
/// hold in a 64-bit integer: two to the power `64 - 7 * i`.
pub open spec fn cap(i: nat) -> nat
    decreases 9 - i,
{
    if i >= 9 {
        2
    } else {
        128 * cap(i + 1)
    }
}

/// Reads a variable-length integer whose first byte is the `i`-th group.
/// Gives the value of the groups read, counted from this group, and the
/// number of bytes read; `None` where `bytes` ends before a byte without the
/// high bit, or where the tenth byte still has it. Of the tenth byte only the
/// lowest bit counts: the others lie beyond 64 bits.
pub open spec fn groups(bytes: Seq<u8>, i: nat) -> Option<(nat, nat)>
    decreases bytes.len(),
{
    if i >= 10 || bytes.len() == 0 {
        None
    } else if bytes[0] < 128 {
        Some(
            (
                if i < 9 {
                    bytes[0] as nat
                } else {
                    (bytes[0] % 2) as nat
                },
                1,
            ),
        )
    } else {
        match groups(bytes.skip(1), i + 1) {
            Some((v, n)) => Some(((bytes[0] - 128 + 128 * v) as nat, n + 1)),
            None => None,
        }
    }
}

/// The bytes of `bytes` from `at` on. There are none where `at` lies behind
/// the end.
pub open spec fn rest(bytes: Seq<u8>, at: int) -> Seq<u8> {
    if 0 <= at <= bytes.len() {
        bytes.skip(at)
    } else {
        Seq::empty()
    }
}

/// Decodes a 64-bit integer from the start of `bytes`: the value and the
/// number of bytes it took.
pub open spec fn dec_u64(bytes: Seq<u8>) -> Option<(u64, nat)> {
    match groups(bytes, 0) {
        Some((v, n)) => Some((v as u64, n)),
        None => None,
    }
}

/// The encoding of a 64-bit integer.
pub open spec fn enc_u64(v: u64) -> Seq<u8> {
    varint(v as nat)
}

/// The encoding of a 128-bit integer: its high half, then its low half.
pub open spec fn enc_u128(v: u128) -> Seq<u8> {
    varint(v as nat / two_64()) + varint(v as nat % two_64())
}

/// Decodes a 128-bit integer from the start of `bytes`.
pub open spec fn dec_u128(bytes: Seq<u8>) -> Option<(u128, nat)> {
    match dec_u64(bytes) {
        Some((high, n)) => match dec_u64(bytes.skip(n as int)) {
            Some((low, m)) => Some(((high as nat * two_64() + low as nat) as u128, n + m)),
            None => None,
        },
        None => None,
    }
}

/// The encoding of a byte string: its length, then its bytes.
pub open spec fn enc_bytes(b: Seq<u8>) -> Seq<u8> {
    varint(b.len()) + b
}

/// Decodes a byte string from the start of `bytes`. There is none where the
/// length cannot be read or promises more bytes than follow it.
pub open spec fn dec_bytes(bytes: Seq<u8>) -> Option<(Seq<u8>, nat)> {
    match dec_u64(bytes) {
        Some((len, n)) => if n + len <= bytes.len() {
            Some((bytes.subrange(n as int, n + len), n + len as nat))
        } else {
            None
        },
        None => None,
    }
}

/// What a successful read of an integer says of its parts: it took between
/// one and ten bytes, all of them there, and its value fits the bits left
/// from the `i`-th group on.
pub proof fn lemma_groups_bounds(bytes: Seq<u8>, i: nat)
    requires
        i <= 9,
        groups(bytes, i) is Some,
    ensures
        1 <= groups(bytes, i).unwrap().1 <= 10 - i,
        groups(bytes, i).unwrap().1 <= bytes.len(),
        groups(bytes, i).unwrap().0 < cap(i),
    decreases bytes.len(),
{
    if bytes[0] < 128 {
        lemma_cap_at_least_128(i);
    } else {
        lemma_groups_bounds(bytes.skip(1), i + 1);
    }
}

/// Below the tenth group there is room for a whole group.
proof fn lemma_cap_at_least_128(i: nat)
    ensures
        i < 9 ==> cap(i) >= 256,
        cap(i) >= 2,
    decreases 9 - i,
{
    if i < 9 {
        lemma_cap_at_least_128(i + 1);
    }
}

/// All 64 bits are available from the first group on.
pub proof fn lemma_cap_zero()
    ensures
        cap(0) == two_64(),
{
    reveal_with_fuel(cap, 11);
}

/// A decoded 64-bit integer took between one and ten bytes of the input.
pub proof fn lemma_dec_u64_bounds(bytes: Seq<u8>)
    requires
        dec_u64(bytes) is Some,
    ensures
        1 <= dec_u64(bytes).unwrap().1 <= 10,
        dec_u64(bytes).unwrap().1 <= bytes.len(),
        groups(bytes, 0).unwrap().0 == dec_u64(bytes).unwrap().0,
{
    lemma_groups_bounds(bytes, 0);
    lemma_cap_zero();
}

/// An encoded integer is between one and ten bytes long when the value fits
/// the bits left from the `i`-th group on.
pub proof fn lemma_varint_len(v: nat, i: nat)
    requires
        i <= 9,
        v < cap(i),
    ensures
        1 <= varint(v).len() <= 10 - i,
    decreases v,
{
    if v >= 128 {
        lemma_cap_at_least_128(i);
        lemma_varint_len(v / 128, i + 1);
    }
}

/// Reading back an encoded integer gives the integer and stops right after
/// it, whatever follows.
pub proof fn lemma_groups_of_varint(v: nat, rest: Seq<u8>, i: nat)
    requires
        i <= 9,
        v < cap(i),
    ensures
        groups(varint(v) + rest, i) == Some((v, varint(v).len())),
    decreases v,
{
    let s = varint(v) + rest;
    if v < 128 {
        assert(s[0] == v as u8);
    } else {
        lemma_cap_at_least_128(i);
        assert(s[0] == (128 + v % 128) as u8);
        assert(s.skip(1) =~= varint(v / 128) + rest);
        lemma_groups_of_varint(v / 128, rest, i + 1);
    }
}

/// Decoding the encoding of a 64-bit integer gives it back.
pub proof fn lemma_u64_round_trip(v: u64, rest: Seq<u8>)
    ensures
        dec_u64(enc_u64(v) + rest) == Some((v, enc_u64(v).len())),
        1 <= enc_u64(v).len() <= 10,
{
    lemma_cap_zero();
    lemma_groups_of_varint(v as nat, rest, 0);
    lemma_varint_len(v as nat, 0);
}

/// Decoding the encoding of a 128-bit integer gives it back.
pub proof fn lemma_u128_round_trip(v: u128, rest: Seq<u8>)
    ensures
        dec_u128(enc_u128(v) + rest) == Some((v, enc_u128(v).len())),
{
    let high = (v as nat / two_64()) as u64;
    let low = (v as nat % two_64()) as u64;
    let tail = enc_u64(low) + rest;
    lemma_u64_round_trip(high, tail);
    lemma_u64_round_trip(low, rest);
    assert(enc_u128(v) + rest =~= enc_u64(high) + tail);
    assert((enc_u64(high) + tail).skip(enc_u64(high).len() as int) =~= tail);
}

/// Decoding the encoding of a byte string gives it back.
pub proof fn lemma_bytes_round_trip(b: Seq<u8>, rest: Seq<u8>)
    requires
        b.len() <= u64::MAX,
    ensures
        dec_bytes(enc_bytes(b) + rest) == Some((b, enc_bytes(b).len())),
{
    let len = b.len() as u64;
    let s = enc_bytes(b) + rest;
    lemma_u64_round_trip(len, b + rest);
    assert(s =~= enc_u64(len) + (b + rest));
    let n = enc_u64(len).len();
    assert(s.subrange(n as int, n + len) =~= b);
}

/// The weight of the `i`-th group: 128 to the power `i`, for the ten groups
/// that a 64-bit integer can have.
pub open spec fn weight(i: nat) -> nat {
    if i == 0 {
        1
    } else if i == 1 {
        0x80
    } else if i == 2 {
        0x4000
    } else if i == 3 {
        0x20_0000
    } else if i == 4 {
        0x1000_0000
    } else if i == 5 {
        0x8_0000_0000
    } else if i == 6 {
        0x400_0000_0000
    } else if i == 7 {
        0x2_0000_0000_0000
    } else if i == 8 {
        0x100_0000_0000_0000
    } else {
        0x8000_0000_0000_0000
    }
}

/// Decodes an integer from the start of `bytes`: walks the bytes, adds up
/// the low seven bits of each at the weight of its place, and stops at the
/// first byte without the high bit. Gives the value and the number of bytes
/// walked, or nothing where no such byte came within ten bytes.
fn decode_var(bytes: &[u8]) -> (r: Option<(u64, usize)>)
    ensures
        r == match groups(bytes@, 0) {
            Some((v, n)) => Some((v as u64, n as usize)),
            None => None,
        },
{
    let total = bytes.len();
    let mut sum: u64 = 0;
    let mut scale: u64 = 1;
    let mut i: usize = 0;
    assert(bytes@.skip(0) =~= bytes@);
    while i < total
        invariant
            i <= 9,
            i <= total,
            total == bytes@.len(),
            scale == weight(i as nat),
            sum < scale,
            groups(bytes@, 0) == match groups(bytes@.skip(i as int), i as nat) {
                Some((v, n)) => Some(((sum + scale * v) as nat, n + i as nat)),
                None => None,
            },
        decreases total - i,
    {
        let b = bytes[i];
        let ghost here = bytes@.skip(i as int);
        assert(here[0] == b);
        if b < 128 {
            let last: u64 = if i < 9 {
                b as u64
            } else {
                (b % 2) as u64
            };
            assert(scale * last <= scale * 127 && (i == 9 ==> scale * last <= scale)) by (nonlinear_arith)
                requires
                    last <= 127,
                    i == 9 ==> last <= 1,
            ;
            return Some((sum + scale * last, i + 1));
        }
        if i == 9 {
            assert(groups(here.skip(1), 10) is None);
            return None;
        }
        let low: u64 = (b - 128) as u64;
        assert(scale * low <= scale * 127) by (nonlinear_arith)
            requires
                low <= 127,
        ;
        proof {
            assert(here.skip(1) =~= bytes@.skip(i + 1));
            match groups(bytes@.skip(i + 1), (i + 1) as nat) {
                Some((v, n)) => {
                    assert(scale * (low + 128 * v) == scale * low + (scale * 128) * v)
                        by (nonlinear_arith);
                },
                None => {},
            }
        }
        sum = sum + scale * low;
        scale = scale * 128;
        i = i + 1;
    }
    None
}

/// Encodes an integer: writes its groups of seven bits from the lowest up,
/// each but the last with the high bit set.
fn encode_var(v: u64) -> (r: Vec<u8>)
    ensures
        r@ == varint(v as nat),
{
    let mut out: Vec<u8> = Vec::new();
    let mut left: u64 = v;
    while left >= 128
        invariant
            varint(v as nat) == out@ + varint(left as nat),
        decreases left,
    {
        let group: u8 = (128 + left % 128) as u8;
        proof {
            let rest = varint((left / 128) as nat);
            assert(varint(left as nat) == seq![group] + rest);
            assert(out@.push(group) + rest =~= out@ + (seq![group] + rest));
        }
        out.push(group);
        left = left / 128;
    }
    proof {
        assert(out@.push(left as u8) =~= out@ + varint(left as nat));
    }
    out.push(left as u8);
    out
}

/// Reads a 64-bit integer at `at`. Gives the value and the position after
/// it, or nothing where no integer stands there.
pub fn read_u64(bytes: &[u8], at: usize) -> (r: Option<(u64, usize)>)
    ensures
        match dec_u64(rest(bytes@, at as int)) {
            Some((v, n)) => r matches Some((x, end)) && x == v && end == at + n && end
                <= bytes@.len(),
            None => r is None,
        },
{
    if at > bytes.len() {
        return None;
    }
    let tail = slice_subrange(bytes, at, bytes.len());
    assert(tail@ =~= bytes@.skip(at as int));
    let r = decode_var(tail);
    proof {
        if dec_u64(tail@) is Some {
            lemma_dec_u64_bounds(tail@);
        }
    }
    match r {
        Some((v, n)) => Some((v, at + n)),
        None => None,
    }
}

/// Reads a 128-bit integer at `at`.
pub fn read_u128(bytes: &[u8], at: usize) -> (r: Option<(u128, usize)>)
    ensures
        match dec_u128(rest(bytes@, at as int)) {
            Some((v, n)) => r matches Some((x, end)) && x == v && end == at + n && end
                <= bytes@.len(),
            None => r is None,
        },
{
    if at > bytes.len() {
        return None;
    }
    let ghost s = bytes@.skip(at as int);
    match read_u64(bytes, at) {
        None => None,
        Some((high, mid)) => {
            proof {
                let n = dec_u64(s).unwrap().1;
                assert(mid == at + n);
                assert(s.skip(n as int) =~= bytes@.skip(mid as int));
            }
            match read_u64(bytes, mid) {
                None => None,
                Some((low, end)) => {
                    let v: u128 = (high as u128) * 0x1_0000_0000_0000_0000u128 + (low as u128);
                    Some((v, end))
                },
            }
        },
    }
}

/// Reads a byte string at `at`.
pub fn read_bytes(bytes: &[u8], at: usize) -> (r: Option<(Vec<u8>, usize)>)
    ensures
        match dec_bytes(rest(bytes@, at as int)) {
            Some((b, n)) => r matches Some((v, end)) && v@ == b && end == at + n && end
                <= bytes@.len(),
            None => r is None,
        },
{
    if at > bytes.len() {
        return None;
    }
    let ghost s = bytes@.skip(at as int);
    match read_u64(bytes, at) {
        None => None,
        Some((len, start)) => {
            let left = bytes.len() - start;
            if len > left as u64 {
                return None;
            }
            let end = start + len as usize;
            let body = slice_subrange(bytes, start, end);
            assert(body@ =~= s.subrange(start - at, start - at + len));
            Some((vstd::slice::slice_to_vec(body), end))
        },
    }
}

/// Appends the encoding of a 64-bit integer to `out`.
pub fn write_u64(out: &mut Vec<u8>, v: u64)
    ensures
        final(out)@ == old(out)@ + enc_u64(v),
{
    let mut encoded = encode_var(v);
    out.append(&mut encoded);
}

/// Appends the encoding of a 128-bit integer to `out`.
pub fn write_u128(out: &mut Vec<u8>, v: u128)
    ensures
        final(out)@ == old(out)@ + enc_u128(v),
{
    let high: u64 = (v / 0x1_0000_0000_0000_0000u128) as u64;
    let low: u64 = (v % 0x1_0000_0000_0000_0000u128) as u64;
    write_u64(out, high);
    write_u64(out, low);
    assert(out@ =~= old(out)@ + enc_u128(v));
}

/// Appends a copy of `bytes` to `out`.
pub fn write_raw(out: &mut Vec<u8>, bytes: &[u8])
    ensures
        final(out)@ == old(out)@ + bytes@,
{
    let mut copy = vstd::slice::slice_to_vec(bytes);
    out.append(&mut copy);
}

/// Appends the encoding of a byte string to `out`.
pub fn write_bytes(out: &mut Vec<u8>, bytes: &[u8])
    ensures
        final(out)@ == old(out)@ + enc_bytes(bytes@),
{
    write_u64(out, bytes.len() as u64);
    write_raw(out, bytes);
    assert(out@ =~= old(out)@ + enc_bytes(bytes@));
}

/// Whether `a` and `b` hold the same bytes.
pub fn same_bytes(a: &[u8], b: &[u8]) -> (r: bool)
    ensures
        r == (a@ == b@),
{
    if a.len() != b.len() {
        return false;
    }
    let mut i: usize = 0;
    while i < a.len()
        invariant
            i <= a@.len(),
            a@.len() == b@.len(),
            forall|j: int| 0 <= j < i ==> a@[j] == b@[j],
        decreases a@.len() - i,
    {
        if a[i] != b[i] {
            return false;
        }
        i = i + 1;
    }
    assert(a@ =~= b@);
    true
}

} // verus!
