//! The key-value storage of a contract and its encoding.

use crate::codec::{
    dec_bytes, dec_u64, enc_bytes, enc_u64, lemma_bytes_round_trip, lemma_u64_round_trip,
    read_bytes, read_u64, rest, write_bytes, write_raw, write_u64,
};
use crate::contract::H256;
use crate::table::{
    distinct, first_at, lemma_absent, lemma_found, lemma_put_unique, lookup, put, unique,
};
use vstd::prelude::*;

verus! {

/// One entry of a contract's storage.
#[derive(Clone, Debug, PartialEq, Eq)]
struct StorageEntry {
    key: H256,
    value: Vec<u8>,
}

/// The key-value storage of one contract. No other contract sees its keys.
///
/// The entries keep the order in which their keys were first written, and no
/// key has more than one entry: a storage is made empty, decoded from bytes
/// that hold no key twice, or changed by [`Storage::insert`], which keeps the
/// keys apart.
#[derive(Clone, Debug, PartialEq, Eq)]
pub struct Storage {
    entries: Vec<StorageEntry>,
}

impl View for Storage {
    type V = Seq<(Seq<u8>, Seq<u8>)>;

    closed spec fn view(&self) -> Seq<(Seq<u8>, Seq<u8>)> {
        self.entries@.map_values(|e: StorageEntry| (e.key@, e.value@))
    }
}

impl Storage {
    /// A storage without entries.
    pub fn new() -> (s: Self)
        ensures
            s@ == Seq::<(Seq<u8>, Seq<u8>)>::empty(),
    {
        let s = Storage { entries: Vec::new() };
        assert(s@ =~= Seq::<(Seq<u8>, Seq<u8>)>::empty());
        s
    }

    /// Every key is 32 bytes wide, and every value is as long as a vector
    /// can be at most.
    pub proof fn lemma_entry_widths(&self, i: int)
        requires
            0 <= i < self@.len(),
        ensures
            self@[i].0.len() == 32,
            self@[i].1.len() <= usize::MAX,
            self@.len() <= usize::MAX,
    {
        self.entries@[i].key.lemma_width();
        assert(self.entries@.len() == self.entries.len());
        assert(self.entries@[i].value@.len() == self.entries@[i].value.len());
    }

    /// The number of entries.
    pub fn len(&self) -> (n: usize)
        ensures
            n == self@.len(),
    {
        self.entries.len()
    }

    /// The place of the first entry under `key`.
    fn position(&self, key: &H256) -> (r: Option<usize>)
        ensures
            match r {
                Some(i) => first_at(self@, key@, i as int),
                None => forall|j: int| 0 <= j < self@.len() ==> self@[j].0 != key@,
            },
    {
        let mut i: usize = 0;
        while i < self.entries.len()
            invariant
                i <= self.entries@.len(),
                forall|j: int| 0 <= j < i ==> self@[j].0 != key@,
            decreases self.entries@.len() - i,
        {
            if self.entries[i].key.same(key) {
                return Some(i);
            }
            i = i + 1;
        }
        None
    }

    /// The value stored under `key`.
    pub fn get(&self, key: &H256) -> (value: Option<&Vec<u8>>)
        ensures
            match lookup(self@, key@) {
                Some(v) => value matches Some(found) && found@ == v,
                None => value is None,
            },
    {
        match self.position(key) {
            Some(i) => {
                proof {
                    lemma_found(self@, key@, i as int);
                }
                Some(&self.entries[i].value)
            },
            None => {
                proof {
                    lemma_absent(self@, key@);
                }
                None
            },
        }
    }

    /// Stores `value` under `key`, in place of what was there.
    pub fn insert(&mut self, key: H256, value: Vec<u8>)
        ensures
            final(self)@ == put(old(self)@, key@, value@),
            unique(old(self)@) ==> unique(final(self)@),
    {
        proof {
            if unique(self@) {
                lemma_put_unique(self@, key@, value@);
            }
        }
        match self.position(&key) {
            Some(i) => {
                proof {
                    lemma_found(self@, key@, i as int);
                }
                self.entries[i] = StorageEntry { key, value };
                assert(self@ =~= put(old(self)@, key@, value@));
            },
            None => {
                proof {
                    lemma_absent(self@, key@);
                }
                self.entries.push(StorageEntry { key, value });
                assert(self@ =~= put(old(self)@, key@, value@));
            },
        }
    }

    /// A copy of this storage.
    pub fn duplicate(&self) -> (s: Self)
        ensures
            s@ == self@,
    {
        let mut entries: Vec<StorageEntry> = Vec::new();
        let mut i: usize = 0;
        while i < self.entries.len()
            invariant
                i <= self.entries@.len(),
                entries@.len() == i,
                forall|j: int|
                    0 <= j < i ==> entries@[j].key@ == self.entries@[j].key@ && entries@[j].value@
                        == self.entries@[j].value@,
            decreases self.entries@.len() - i,
        {
            let e = &self.entries[i];
            entries.push(StorageEntry { key: e.key, value: e.value.clone() });
            i = i + 1;
        }
        let s = Storage { entries };
        assert(s@ =~= self@);
        s
    }
}

/// The encoding of a list of storage entries: for each entry its 32-byte key,
/// then its value as a byte string.
pub open spec fn enc_entries(entries: Seq<(Seq<u8>, Seq<u8>)>) -> Seq<u8>
    decreases entries.len(),
{
    if entries.len() == 0 {
        Seq::empty()
    } else {
        enc_entries(entries.drop_last()) + entries.last().0 + enc_bytes(entries.last().1)
    }
}

/// Decodes `count` storage entries from the start of `bytes`.
pub open spec fn dec_entries(bytes: Seq<u8>, count: nat) -> Option<(Seq<(Seq<u8>, Seq<u8>)>, nat)>
    decreases count,
{
    if count == 0 {
        Some((Seq::empty(), 0))
    } else if bytes.len() < 32 {
        None
    } else {
        match dec_bytes(bytes.skip(32)) {
            None => None,
            Some((value, n)) => match dec_entries(bytes.skip(32 + n as int), (count - 1) as nat) {
                None => None,
                Some((rest, m)) => Some(
                    (seq![(bytes.subrange(0, 32), value)] + rest, 32 + n + m),
                ),
            },
        }
    }
}

/// The encoding of a storage: the number of its entries, then the entries.
pub open spec fn enc_storage(entries: Seq<(Seq<u8>, Seq<u8>)>) -> Seq<u8> {
    enc_u64(entries.len() as u64) + enc_entries(entries)
}

/// Decodes a storage from the start of `bytes`. Bytes that hold a key twice
/// are no encoding of a storage.
pub open spec fn dec_storage(bytes: Seq<u8>) -> Option<(Seq<(Seq<u8>, Seq<u8>)>, nat)> {
    match dec_u64(bytes) {
        None => None,
        Some((count, n)) => match dec_entries(bytes.skip(n as int), count as nat) {
            None => None,
            Some((entries, m)) => if unique(entries) {
                Some((entries, n + m))
            } else {
                None
            },
        },
    }
}

/// Storage entries that can be encoded.
pub open spec fn encodable_entries(entries: Seq<(Seq<u8>, Seq<u8>)>) -> bool {
    &&& entries.len() <= u64::MAX
    &&& forall|i: int|
        0 <= i < entries.len() ==> (#[trigger] entries[i]).0.len() == 32 && entries[i].1.len()
            <= u64::MAX
}

/// The encoding of a list of entries starts with the encoding of its first
/// entry.
pub proof fn lemma_enc_entries_front(first: (Seq<u8>, Seq<u8>), tail: Seq<(Seq<u8>, Seq<u8>)>)
    ensures
        enc_entries(seq![first] + tail) == first.0 + enc_bytes(first.1) + enc_entries(tail),
    decreases tail.len(),
{
    let all = seq![first] + tail;
    if tail.len() == 0 {
        assert(all.drop_last() =~= Seq::<(Seq<u8>, Seq<u8>)>::empty());
        assert(enc_entries(all.drop_last()) =~= Seq::<u8>::empty());
        assert(enc_entries(all) =~= first.0 + enc_bytes(first.1) + enc_entries(tail));
    } else {
        assert(all.drop_last() =~= seq![first] + tail.drop_last());
        assert(all.last() == tail.last());
        lemma_enc_entries_front(first, tail.drop_last());
        assert(enc_entries(all) =~= first.0 + enc_bytes(first.1) + enc_entries(tail));
    }
}

/// Decoding the encoding of a list of entries gives the list back, whatever
/// follows it.
pub proof fn lemma_entries_round_trip(entries: Seq<(Seq<u8>, Seq<u8>)>, rest: Seq<u8>)
    requires
        encodable_entries(entries),
    ensures
        dec_entries(enc_entries(entries) + rest, entries.len()) == Some(
            (entries, enc_entries(entries).len()),
        ),
    decreases entries.len(),
{
    if entries.len() == 0 {
        assert(enc_entries(entries) =~= Seq::<u8>::empty());
    } else {
        let first = entries[0];
        let tail = entries.skip(1);
        assert(entries =~= seq![first] + tail);
        lemma_enc_entries_front(first, tail);
        let after_first = enc_entries(tail) + rest;
        let bytes = enc_entries(entries) + rest;
        assert(bytes =~= first.0 + (enc_bytes(first.1) + after_first));
        assert(bytes.subrange(0, 32) =~= first.0);
        assert(bytes.skip(32) =~= enc_bytes(first.1) + after_first);
        lemma_bytes_round_trip(first.1, after_first);
        let n = enc_bytes(first.1).len();
        assert(bytes.skip(32 + n as int) =~= after_first);
        assert forall|i: int| 0 <= i < tail.len() implies (#[trigger] tail[i]).0.len() == 32
            && tail[i].1.len() <= u64::MAX by {
            assert(tail[i] == entries[i + 1]);
        }
        lemma_entries_round_trip(tail, rest);
        assert(first == (bytes.subrange(0, 32), first.1));
    }
}

/// Decoding the encoding of a storage gives it back, whatever follows it.
pub proof fn lemma_storage_round_trip(entries: Seq<(Seq<u8>, Seq<u8>)>, rest: Seq<u8>)
    requires
        encodable_entries(entries),
        unique(entries),
    ensures
        dec_storage(enc_storage(entries) + rest) == Some((entries, enc_storage(entries).len())),
{
    let count = entries.len() as u64;
    let body = enc_entries(entries) + rest;
    lemma_u64_round_trip(count, body);
    lemma_entries_round_trip(entries, rest);
    let bytes = enc_storage(entries) + rest;
    assert(bytes =~= enc_u64(count) + body);
    assert(bytes.skip(enc_u64(count).len() as int) =~= body);
}

impl Storage {
    /// Appends the encoding of this storage to `out`.
    pub fn encode(&self, out: &mut Vec<u8>)
        ensures
            final(out)@ == old(out)@ + enc_storage(self@),
    {
        write_u64(out, self.entries.len() as u64);
        let ghost base = out@;
        let mut i: usize = 0;
        while i < self.entries.len()
            invariant
                i <= self.entries@.len(),
                out@ == base + enc_entries(self@.take(i as int)),
            decreases self.entries@.len() - i,
        {
            let e = &self.entries[i];
            write_raw(out, e.key.as_bytes());
            write_bytes(out, e.value.as_slice());
            proof {
                let next = self@.take(i + 1);
                assert(next.drop_last() =~= self@.take(i as int));
                assert(next.last() == self@[i as int]);
                assert(out@ =~= base + enc_entries(next));
            }
            i = i + 1;
        }
        assert(self@.take(i as int) =~= self@);
        assert(out@ =~= old(out)@ + enc_storage(self@));
    }

    /// Reads a storage at `at`. Gives the storage and the position after it,
    /// or nothing where the bytes there are no encoding of a storage.
    pub fn decode(bytes: &[u8], at: usize) -> (r: Option<(Storage, usize)>)
        ensures
            match dec_storage(rest(bytes@, at as int)) {
                Some((entries, n)) => r matches Some((s, end)) && s@ == entries && end == at + n
                    && end <= bytes@.len(),
                None => r is None,
            },
            r matches Some((s, _)) ==> unique(s@),
    {
        if at > bytes.len() {
            return None;
        }
        let ghost s0 = bytes@.skip(at as int);
        let (count, start) = match read_u64(bytes, at) {
            None => { return None; },
            Some(p) => p,
        };
        let ghost body = s0.skip(start - at);
        assert(body =~= bytes@.skip(start as int));
        let total = bytes.len();
        assert(bytes@.len() == total);
        let mut entries: Vec<StorageEntry> = Vec::new();
        let mut keys: Vec<H256> = Vec::new();
        let mut cur: usize = start;
        let mut i: u64 = 0;
        let ghost mut acc: Seq<(Seq<u8>, Seq<u8>)> = Seq::empty();
        while i < count
            invariant
                i <= count,
                at <= start <= cur <= bytes@.len() <= usize::MAX,
                s0 == bytes@.skip(at as int),
                body == bytes@.skip(start as int),
                body == s0.skip(start - at),
                dec_u64(s0) == Some((count, (start - at) as nat)),
                acc == entries@.map_values(|e: StorageEntry| (e.key@, e.value@)),
                keys@.len() == acc.len(),
                forall|k: int| 0 <= k < acc.len() ==> keys@[k]@ == acc[k].0,
                dec_entries(body, count as nat) == match dec_entries(
                    bytes@.skip(cur as int),
                    (count - i) as nat,
                ) {
                    Some((rest, m)) => Some((acc + rest, (cur - start + m) as nat)),
                    None => None,
                },
            decreases count - i,
        {
            let ghost here = bytes@.skip(cur as int);
            let key = match H256::from_slice(bytes, cur) {
                None => {
                    assert(here.len() < 32);
                    return None;
                },
                Some(k) => k,
            };
            assert(key@ =~= here.subrange(0, 32));
            assert(here.skip(32) =~= bytes@.skip(cur + 32));
            let (value, next) = match read_bytes(bytes, cur + 32) {
                None => {
                    assert(dec_bytes(here.skip(32)) is None);
                    return None;
                },
                Some(p) => p,
            };
            proof {
                let n = next - cur - 32;
                assert(dec_bytes(here.skip(32)) == Some((value@, n as nat)));
                assert(here.skip(32 + n) =~= bytes@.skip(next as int));
                let e = (key@, value@);
                match dec_entries(bytes@.skip(next as int), (count - i - 1) as nat) {
                    Some((rest, m)) => {
                        assert(acc + (seq![e] + rest) =~= acc.push(e) + rest);
                    },
                    None => {},
                }
                acc = acc.push(e);
            }
            entries.push(StorageEntry { key, value });
            keys.push(key);
            assert(acc =~= entries@.map_values(|e: StorageEntry| (e.key@, e.value@)));
            cur = next;
            i = i + 1;
        }
        let s = Storage { entries };
        assert(s@ == acc);
        assert(acc + Seq::<(Seq<u8>, Seq<u8>)>::empty() =~= acc);
        let apart = distinct(&keys);
        proof {
            if apart {
                assert forall|i: int, j: int| 0 <= i < j < acc.len() implies acc[i].0
                    != acc[j].0 by {
                    assert(keys@[i]@ != keys@[j]@);
                }
            } else {
                let (i, j) = choose|i: int, j: int|
                    0 <= i < j < keys@.len() && keys@[i]@ == keys@[j]@;
                assert(acc[i].0 == acc[j].0);
            }
        }
        if !apart {
            return None;
        }
        Some((s, cur))
    }
}

} // verus!
