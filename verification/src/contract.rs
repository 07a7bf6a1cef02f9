//! Contract identity and contract code.

use vstd::prelude::*;

verus! {

/// A 256-bit value: the content hash that names a contract, or a key of a
/// contract's storage.
#[derive(Clone, Copy, Debug, PartialEq, Eq, Hash)]
pub struct H256 {
    bytes: [u8; 32],
}

/// The identity of a contract: the hash of the code it was deployed with.
pub type ContractId = H256;

impl View for H256 {
    type V = Seq<u8>;

    closed spec fn view(&self) -> Seq<u8> {
        self.bytes@
    }
}

impl H256 {
    /// Every value is exactly 32 bytes wide.
    pub proof fn lemma_width(&self)
        ensures
            self@.len() == 32,
    {
    }

    /// Two values with the same bytes are the same value.
    pub proof fn lemma_ext_equal(a: H256, b: H256)
        requires
            a@ == b@,
        ensures
            a == b,
    {
        assert(a.bytes == b.bytes);
    }

    /// The value made of the given bytes.
    pub fn from_raw(bytes: [u8; 32]) -> (id: Self)
        ensures
            id@ == bytes@,
    {
        H256 { bytes }
    }

    /// The value made of the 32 bytes of `bytes` that start at `at`, where
    /// there are that many.
    pub fn from_slice(bytes: &[u8], at: usize) -> (id: Option<Self>)
        ensures
            match id {
                Some(id) => at + 32 <= bytes@.len() && id@ == bytes@.subrange(
                    at as int,
                    at + 32,
                ),
                None => at + 32 > bytes@.len(),
            },
    {
        if bytes.len() < 32 || at > bytes.len() - 32 {
            return None;
        }
        let mut raw = [0u8; 32];
        let mut i: usize = 0;
        while i < 32
            invariant
                i <= 32,
                at + 32 <= bytes@.len() <= usize::MAX,
                forall|j: int| 0 <= j < i ==> raw@[j] == bytes@[at + j],
            decreases 32 - i,
        {
            raw[i] = bytes[at + i];
            i = i + 1;
        }
        assert(raw@ =~= bytes@.subrange(at as int, at + 32));
        Some(H256 { bytes: raw })
    }

    /// The identifier set aside for the host module numbered `id`: that byte
    /// followed by 31 zero bytes.
    pub fn reserved(id: u8) -> (r: Self)
        ensures
            r@ == Seq::new(32, |i: int| if i == 0 { id } else { 0u8 }),
    {
        let mut raw = [0u8; 32];
        raw[0] = id;
        assert(raw@ =~= Seq::new(32, |i: int| if i == 0 { id } else { 0u8 }));
        H256 { bytes: raw }
    }

    /// The 32 bytes of the value.
    pub fn as_bytes(&self) -> (bytes: &[u8])
        ensures
            bytes@ == self@,
    {
        self.bytes.as_slice()
    }

    /// Whether `self` and `other` hold the same bytes.
    pub fn same(&self, other: &H256) -> (r: bool)
        ensures
            r == (self@ == other@),
    {
        let mut i: usize = 0;
        while i < 32
            invariant
                i <= 32,
                forall|j: int| 0 <= j < i ==> self.bytes@[j] == other.bytes@[j],
            decreases 32 - i,
        {
            if self.bytes[i] != other.bytes[i] {
                return false;
            }
            i = i + 1;
        }
        assert(self.bytes@ =~= other.bytes@);
        true
    }
}

/// The BLAKE2b digest of `input`, 32 bytes long, with no key, salt or
/// personalisation.
pub uninterp spec fn blake2b_256(input: Seq<u8>) -> Seq<u8>;

/// Hashes `code` with `blake2b_simd`: `Params::new().hash_length(32)`, one
/// `update` with the whole input, then `finalize`. The contract names the
/// digest and claims only that it is a function of the input bytes.
#[verifier::external_body]
fn digest(code: &[u8]) -> (id: H256)
    ensures
        id@ == blake2b_256(code@),
{
    let mut raw = [0u8; 32];
    let hash = blake2b_simd::Params::new().hash_length(32).to_state().update(code).finalize();
    raw.copy_from_slice(hash.as_bytes());
    H256 { bytes: raw }
}

/// The same code always has the same identifier: two identifiers that are
/// both the hash of `code` are one and the same.
pub proof fn lemma_same_code_same_id(a: ContractId, b: ContractId, code: Seq<u8>)
    requires
        a@ == blake2b_256(code),
        b@ == blake2b_256(code),
    ensures
        a == b,
{
    H256::lemma_ext_equal(a, b);
}

/// The code of a contract as it is submitted for deployment.
#[derive(Clone, Debug, PartialEq, Eq)]
pub struct Contract {
    code: Vec<u8>,
}

impl View for Contract {
    type V = Seq<u8>;

    closed spec fn view(&self) -> Seq<u8> {
        self.code@
    }
}

impl Contract {
    /// A contract with the given bytecode.
    pub fn new(code: Vec<u8>) -> (c: Self)
        ensures
            c@ == code@,
    {
        Contract { code }
    }

    /// The submitted bytecode.
    pub fn bytecode(&self) -> (code: &[u8])
        ensures
            code@ == self@,
    {
        self.code.as_slice()
    }

    /// Turns the submitted code into the form that is stored and run. The
    /// bytecode is recorded as it is.
    pub fn build(self) -> (m: MeteredContract)
        ensures
            m@ == self@,
    {
        MeteredContract { code: self.code }
    }
}

/// The code of a deployed contract, as the store keeps it.
#[derive(Clone, Debug, PartialEq, Eq)]
pub struct MeteredContract {
    code: Vec<u8>,
}

impl View for MeteredContract {
    type V = Seq<u8>;

    closed spec fn view(&self) -> Seq<u8> {
        self.code@
    }
}

impl MeteredContract {
    /// The code is as long as a vector can be at most.
    pub proof fn lemma_length(&self)
        ensures
            self@.len() <= usize::MAX,
    {
        assert(self.code@.len() == self.code.len());
    }

    /// Code that consists of the given bytes.
    pub fn from_bytes(code: Vec<u8>) -> (m: Self)
        ensures
            m@ == code@,
    {
        MeteredContract { code }
    }

    /// The bytecode that is run.
    pub fn bytecode(&self) -> (code: &[u8])
        ensures
            code@ == self@,
    {
        self.code.as_slice()
    }

    /// The identifier under which this code is deployed: the hash of its
    /// bytecode.
    pub fn id(&self) -> (id: ContractId)
        ensures
            id@ == blake2b_256(self@),
    {
        digest(self.code.as_slice())
    }

    /// A copy of this code.
    pub fn duplicate(&self) -> (m: Self)
        ensures
            m@ == self@,
    {
        MeteredContract { code: self.code.clone() }
    }
}

} // verus!
