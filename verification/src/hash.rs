//! 256-bit digests and the hash function that produces them.

use vstd::prelude::*;

verus! {

/// A 256-bit digest. Its view is its 32 bytes.
#[derive(Clone, Copy, Debug, Eq, Hash)]
pub struct H256(pub [u8; 32]);

impl View for H256 {
    type V = Seq<u8>;

    open spec fn view(&self) -> Seq<u8> {
        self.0@
    }
}

impl PartialEq for H256 {
    fn eq(&self, other: &Self) -> (equal: bool) {
        let mut i: usize = 0;
        while i < 32
            invariant
                i <= 32,
                forall|k: int| 0 <= k < i ==> self.0@[k] == other.0@[k],
            decreases 32 - i,
        {
            if self.0[i] != other.0[i] {
                return false;
            }
            i += 1;
        }
        assert(self.0@ =~= other.0@);
        true
    }
}

impl vstd::std_specs::cmp::PartialEqSpecImpl for H256 {
    open spec fn obeys_eq_spec() -> bool {
        true
    }

    open spec fn eq_spec(&self, other: &Self) -> bool {
        self.0@ == other.0@
    }
}

impl H256 {
    /// The digest whose bytes are all zero.
    pub fn zero() -> (z: H256)
        ensures
            z@ == Seq::new(32, |i: int| 0u8),
    {
        let z = H256([0u8; 32]);
        assert(z@ =~= Seq::new(32, |i: int| 0u8));
        z
    }

    /// The bytes of the digest.
    pub fn to_vec(&self) -> (bytes: Vec<u8>)
        ensures
            bytes@ == self@,
    {
        let mut bytes: Vec<u8> = Vec::new();
        bytes.extend_from_slice(self.0.as_slice());
        bytes
    }

    /// The digest with the given bytes, if there are 32 of them.
    pub fn from_slice(bytes: &[u8]) -> (r: Option<H256>)
        ensures
            bytes@.len() == 32 ==> (r matches Some(h) && h@ == bytes@),
            bytes@.len() != 32 ==> r is None,
    {
        if bytes.len() != 32 {
            return None;
        }
        let mut a: [u8; 32] = [0u8; 32];
        let mut i: usize = 0;
        while i < 32
            invariant
                i <= 32,
                bytes@.len() == 32,
                forall|k: int| 0 <= k < i ==> a@[k] == bytes@[k],
            decreases 32 - i,
        {
            a[i] = bytes[i];
            i += 1;
        }
        assert(a@ =~= bytes@);
        Some(H256(a))
    }
}

/// A copy of a list of digests.
pub fn copy_digests(list: &[H256]) -> (copy: Vec<H256>)
    ensures
        copy@ == list@,
{
    let mut copy: Vec<H256> = Vec::new();
    let mut i: usize = 0;
    while i < list.len()
        invariant
            i <= list@.len(),
            copy@ == list@.take(i as int),
        decreases list@.len() - i,
    {
        copy.push(list[i]);
        assert(copy@ =~= list@.take(i + 1));
        i += 1;
    }
    assert(list@.take(list@.len() as int) =~= list@);
    copy
}

/// Appends a list of digests to another.
pub fn extend_digests(target: &mut Vec<H256>, list: &[H256])
    ensures
        final(target)@ == old(target)@ + list@,
{
    let ghost start = target@;
    let mut i: usize = 0;
    assert(start + list@.take(0) =~= start);
    while i < list.len()
        invariant
            i <= list@.len(),
            target@ == start + list@.take(i as int),
        decreases list@.len() - i,
    {
        target.push(list[i]);
        assert(target@ =~= start + list@.take(i + 1));
        i += 1;
    }
    assert(list@.take(list@.len() as int) =~= list@);
}

/// The SHA3-256 digest of a byte string, as a sequence of 32 bytes.
pub uninterp spec fn sha3_256(data: Seq<u8>) -> Seq<u8>;

/// Computes SHA3-256 with `fastcrypto::hash::Sha3_256` (its `digest`
/// function). The contract claims that the returned 32 bytes are the digest
/// of exactly the bytes passed in, a deterministic function of them.
#[verifier::external_body]
pub(crate) fn sha3_256_of(data: &[u8]) -> (digest: H256)
    ensures
        digest@ == sha3_256(data@),
{
    H256(<fastcrypto::hash::Sha3_256 as fastcrypto::hash::HashFunction<32>>::digest(data).digest)
}

/// The digest of an inner node of a Merkle tree over its two children.
pub open spec fn node_hash(left: Seq<u8>, right: Seq<u8>) -> Seq<u8> {
    sha3_256(left + right)
}

/// Hashes two digests into the digest of their parent node.
pub fn hash_pair(left: &H256, right: &H256) -> (parent: H256)
    ensures
        parent@ == node_hash(left@, right@),
{
    let mut data = left.to_vec();
    data.extend_from_slice(right.0.as_slice());
    assert(data@ =~= left@ + right@);
    sha3_256_of(data.as_slice())
}

} // verus!
