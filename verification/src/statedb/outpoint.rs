//! Transaction outputs of the base layer and their order.

use std::cmp::Ordering;
use vstd::prelude::*;

verus! {

/// A reference to a transaction output: the transaction's id and the index
/// of the output.
#[derive(Clone, Copy, Debug, Default, Eq, Hash)]
pub struct OutPoint {
    pub txid: [u8; 32],
    pub vout: u32,
}

/// Whether `a` comes before `b` in byte order, given that they agree
/// before index `i`: the first byte in which they differ is smaller in `a`.
pub open spec fn bytes_lt_from(a: Seq<u8>, b: Seq<u8>, i: int) -> bool
    decreases a.len() - i,
{
    if i < 0 || i >= a.len() || i >= b.len() {
        false
    } else if a[i] != b[i] {
        a[i] < b[i]
    } else {
        bytes_lt_from(a, b, i + 1)
    }
}

/// The order of outputs: by transaction id in byte order, then by index.
pub open spec fn outpoint_lt(a: OutPoint, b: OutPoint) -> bool {
    bytes_lt_from(a.txid@, b.txid@, 0) || (a.txid@ == b.txid@ && a.vout < b.vout)
}

/// From index `i` on, no byte string comes before itself.
pub proof fn lemma_bytes_lt_irreflexive(a: Seq<u8>, i: int)
    ensures
        !bytes_lt_from(a, a, i),
    decreases a.len() - i,
{
    if 0 <= i < a.len() {
        lemma_bytes_lt_irreflexive(a, i + 1);
    }
}

/// Two byte strings of one length that agree before `i` are equal, or one
/// comes before the other, and never both.
pub proof fn lemma_bytes_lt_total(a: Seq<u8>, b: Seq<u8>, i: int)
    requires
        a.len() == b.len(),
        0 <= i <= a.len(),
        forall|k: int| 0 <= k < i ==> a[k] == b[k],
    ensures
        bytes_lt_from(a, b, i) || bytes_lt_from(b, a, i) || a == b,
        !(bytes_lt_from(a, b, i) && bytes_lt_from(b, a, i)),
        a == b ==> !bytes_lt_from(a, b, i),
    decreases a.len() - i,
{
    if i < a.len() {
        if a[i] == b[i] {
            lemma_bytes_lt_total(a, b, i + 1);
        }
    } else {
        assert(a =~= b);
    }
}

/// Byte order is transitive.
pub proof fn lemma_bytes_lt_transitive(a: Seq<u8>, b: Seq<u8>, c: Seq<u8>, i: int)
    requires
        0 <= i,
        bytes_lt_from(a, b, i),
        bytes_lt_from(b, c, i),
    ensures
        bytes_lt_from(a, c, i),
    decreases a.len() - i,
{
    if a[i] == b[i] && b[i] == c[i] {
        lemma_bytes_lt_transitive(a, b, c, i + 1);
    }
}

/// The order of outputs is a strict total order: exactly one of `a < b`,
/// `a == b`, `b < a` holds.
pub proof fn lemma_outpoint_lt_total(a: OutPoint, b: OutPoint)
    ensures
        outpoint_lt(a, b) || outpoint_lt(b, a) || a == b,
        !(outpoint_lt(a, b) && outpoint_lt(b, a)),
        !outpoint_lt(a, a),
{
    lemma_bytes_lt_total(a.txid@, b.txid@, 0);
    lemma_bytes_lt_irreflexive(a.txid@, 0);
    if a.txid@ == b.txid@ && a.vout == b.vout {
        assert(a.txid =~= b.txid);
    }
}

/// The order of outputs is transitive.
pub proof fn lemma_outpoint_lt_transitive(a: OutPoint, b: OutPoint, c: OutPoint)
    requires
        outpoint_lt(a, b),
        outpoint_lt(b, c),
    ensures
        outpoint_lt(a, c),
{
    if bytes_lt_from(a.txid@, b.txid@, 0) && bytes_lt_from(b.txid@, c.txid@, 0) {
        lemma_bytes_lt_transitive(a.txid@, b.txid@, c.txid@, 0);
    }
}

impl OutPoint {
    /// The output that nothing is bound to: index 0 of the transaction
    /// whose id is all zero.
    pub fn unbound() -> (o: OutPoint)
        ensures
            o.vout == 0,
            o.txid@ == Seq::new(32, |i: int| 0u8),
    {
        let o = OutPoint { txid: [0u8; 32], vout: 0 };
        assert(o.txid@ =~= Seq::new(32, |i: int| 0u8));
        o
    }

    /// How `self` stands to `other` in the order of outputs: negative
    /// where it comes before, positive where it comes after, zero where the
    /// two are the same output.
    pub fn rank(&self, other: &OutPoint) -> (r: i8)
        ensures
            (r < 0) == outpoint_lt(*self, *other),
            (r > 0) == outpoint_lt(*other, *self),
            (r == 0) == (*self == *other),
    {
        proof {
            lemma_outpoint_lt_total(*self, *other);
        }
        let mut i: usize = 0;
        while i < 32
            invariant
                i <= 32,
                forall|k: int| 0 <= k < i ==> self.txid@[k] == other.txid@[k],
                bytes_lt_from(self.txid@, other.txid@, 0) == bytes_lt_from(
                    self.txid@,
                    other.txid@,
                    i as int,
                ),
                bytes_lt_from(other.txid@, self.txid@, 0) == bytes_lt_from(
                    other.txid@,
                    self.txid@,
                    i as int,
                ),
            decreases 32 - i,
        {
            if self.txid[i] < other.txid[i] {
                return -1;
            }
            if self.txid[i] > other.txid[i] {
                return 1;
            }
            i += 1;
        }
        assert(self.txid@ =~= other.txid@);
        if self.vout < other.vout {
            -1
        } else if self.vout > other.vout {
            1
        } else {
            assert(self.txid =~= other.txid);
            0
        }
    }

    /// The same answer as `rank`, as an `Ordering`.
    pub fn compare_outpoints(&self, other: &OutPoint) -> (o: Ordering)
        ensures
            (o is Less) == outpoint_lt(*self, *other),
            (o is Greater) == outpoint_lt(*other, *self),
            (o is Equal) == (*self == *other),
    {
        let r = self.rank(other);
        if r < 0 {
            Ordering::Less
        } else if r > 0 {
            Ordering::Greater
        } else {
            Ordering::Equal
        }
    }
}

impl PartialEq for OutPoint {
    fn eq(&self, other: &Self) -> (equal: bool) {
        self.rank(other) == 0
    }
}

impl vstd::std_specs::cmp::PartialEqSpecImpl for OutPoint {
    open spec fn obeys_eq_spec() -> bool {
        true
    }

    open spec fn eq_spec(&self, other: &Self) -> bool {
        *self == *other
    }
}

} // verus!
