//! The inscriptions bound to each transaction output, sorted by output for
//! binary search, behind a filter that answers most misses without a search.

use crate::hash::{copy_digests, extend_digests, H256};
use crate::statedb::outpoint::{
    lemma_outpoint_lt_total, lemma_outpoint_lt_transitive, outpoint_lt, OutPoint,
};
use std::collections::HashSet;
use vstd::bytes::{spec_u32_to_le_bytes, u32_to_le_bytes};
use vstd::prelude::*;

verus! {

broadcast use vstd::std_specs::hash::group_hash_axioms;

/// The identifier of an object.
pub type ObjectID = H256;

/// The protocol under which an inscription seals an output.
pub const UTXO_SEAL_INSCRIPTION_PROTOCOL: &'static str =
    "0000000000000000000000000000000000000000000000000000000000000004::ord::Inscription";

/// An output and the inscriptions bound to it.
#[derive(Clone, Default, PartialEq, Debug)]
pub struct OutpointInscriptions {
    pub outpoint: OutPoint,
    pub inscriptions: Vec<ObjectID>,
}

/// Mathematical value of an `OutpointInscriptions`.
pub struct OutpointInscriptionsView {
    pub outpoint: OutPoint,
    pub inscriptions: Seq<ObjectID>,
}

impl View for OutpointInscriptions {
    type V = OutpointInscriptionsView;

    open spec fn view(&self) -> OutpointInscriptionsView {
        OutpointInscriptionsView { outpoint: self.outpoint, inscriptions: self.inscriptions@ }
    }
}

/// The values of a list of items.
pub open spec fn item_views(items: Seq<OutpointInscriptions>) -> Seq<OutpointInscriptionsView> {
    items.map_values(|item: OutpointInscriptions| item@)
}

/// The items with output `o`, in the order in which they stand.
pub open spec fn with_outpoint(items: Seq<OutpointInscriptionsView>, o: OutPoint) -> Seq<
    OutpointInscriptionsView,
>
    decreases items.len(),
{
    if items.len() == 0 {
        Seq::empty()
    } else if items.last().outpoint == o {
        with_outpoint(items.drop_last(), o).push(items.last())
    } else {
        with_outpoint(items.drop_last(), o)
    }
}

/// The inscriptions of all items, one item after the other.
pub open spec fn all_inscriptions(items: Seq<OutpointInscriptionsView>) -> Seq<ObjectID>
    decreases items.len(),
{
    if items.len() == 0 {
        Seq::empty()
    } else {
        all_inscriptions(items.drop_last()) + items.last().inscriptions
    }
}

/// The inscriptions bound to output `o` by any item, in the order of the
/// items.
pub open spec fn inscriptions_of(items: Seq<OutpointInscriptionsView>, o: OutPoint) -> Seq<
    ObjectID,
> {
    all_inscriptions(with_outpoint(items, o))
}

/// Whether some item has output `o`.
pub open spec fn has_outpoint(items: Seq<OutpointInscriptionsView>, o: OutPoint) -> bool {
    exists|i: int| 0 <= i < items.len() && #[trigger] items[i].outpoint == o
}

/// No item stands before one with a smaller output.
pub open spec fn sorted(items: Seq<OutpointInscriptionsView>) -> bool {
    forall|i: int, j: int|
        0 <= i < j < items.len() ==> !outpoint_lt(
            #[trigger] items[j].outpoint,
            #[trigger] items[i].outpoint,
        )
}

/// The outputs increase strictly: the items are sorted and no output has
/// two items.
pub open spec fn sorted_and_merged(items: Seq<OutpointInscriptionsView>) -> bool {
    forall|i: int, j: int|
        0 <= i < j < items.len() ==> outpoint_lt(
            #[trigger] items[i].outpoint,
            #[trigger] items[j].outpoint,
        )
}

/// The items with every run of neighbours that share an output merged
/// into one item, which holds their inscriptions in the order of the run.
pub open spec fn merged(items: Seq<OutpointInscriptionsView>) -> Seq<OutpointInscriptionsView>
    decreases items.len(),
{
    if items.len() == 0 {
        Seq::empty()
    } else {
        let before = merged(items.drop_last());
        let item = items.last();
        if before.len() > 0 && before.last().outpoint == item.outpoint {
            before.drop_last().push(
                OutpointInscriptionsView {
                    outpoint: item.outpoint,
                    inscriptions: before.last().inscriptions + item.inscriptions,
                },
            )
        } else {
            before.push(item)
        }
    }
}

/// An inscription and the output that holds it.
#[derive(Clone, Copy, Debug, PartialEq)]
pub struct InscriptionRecord {
    pub inscription: ObjectID,
    pub satpoint_outpoint: OutPoint,
}

/// Whether an output is the one that nothing is bound to.
pub open spec fn is_unbound(o: OutPoint) -> bool {
    o.vout == 0 && o.txid@ == Seq::new(32, |i: int| 0u8)
}

/// The items of the records whose inscription is bound to an output, one
/// item for each, in the order of the records.
pub open spec fn bound_items(records: Seq<InscriptionRecord>) -> Seq<OutpointInscriptionsView>
    decreases records.len(),
{
    if records.len() == 0 {
        Seq::empty()
    } else if is_unbound(records.last().satpoint_outpoint) {
        bound_items(records.drop_last())
    } else {
        bound_items(records.drop_last()).push(
            OutpointInscriptionsView {
                outpoint: records.last().satpoint_outpoint,
                inscriptions: seq![records.last().inscription],
            },
        )
    }
}

/// There is an item for every record or fewer, and an inscription for every
/// item.
pub proof fn lemma_bound_items(records: Seq<InscriptionRecord>)
    ensures
        bound_items(records).len() <= records.len(),
        all_inscriptions(bound_items(records)).len() == bound_items(records).len(),
    decreases records.len(),
{
    if records.len() > 0 {
        lemma_bound_items(records.drop_last());
        if !is_unbound(records.last().satpoint_outpoint) {
            let items = bound_items(records);
            assert(items.drop_last() =~= bound_items(records.drop_last()));
        }
    }
}

/// An entry of a multimap: a key and its values.
#[derive(Clone, Debug, PartialEq)]
pub struct Element {
    pub key: String,
    pub value: Vec<ObjectID>,
}

/// A map from keys to lists of values, kept as a list of entries.
#[derive(Clone, Debug, PartialEq)]
pub struct SimpleMultiMap {
    pub data: Vec<Element>,
}

/// The seals of an output: its inscriptions under the inscription protocol,
/// or nothing for an output without inscriptions.
pub fn derive_utxo_seal(inscriptions: Option<Vec<ObjectID>>) -> (seals: SimpleMultiMap)
    ensures
        match inscriptions {
            Some(obj_ids) => {
                &&& seals.data@.len() == 1
                &&& seals.data@[0].key@ == UTXO_SEAL_INSCRIPTION_PROTOCOL@
                &&& seals.data@[0].value == obj_ids
            },
            None => seals.data@.len() == 0,
        },
{
    let mut data: Vec<Element> = Vec::new();
    if let Some(obj_ids) = inscriptions {
        data.push(Element { key: UTXO_SEAL_INSCRIPTION_PROTOCOL.to_owned(), value: obj_ids });
    }
    SimpleMultiMap { data }
}

/// The bytes of an output that are hashed into its filter key: the
/// transaction id, then the index in little-endian bytes.
pub open spec fn outpoint_bytes(o: OutPoint) -> Seq<u8> {
    o.txid@ + spec_u32_to_le_bytes(o.vout)
}

/// The XXH3 64-bit hash of a byte string.
pub uninterp spec fn xxh3_64(data: Seq<u8>) -> u64;

/// The filter key of an output.
pub open spec fn hash_key(o: OutPoint) -> u64 {
    xxh3_64(outpoint_bytes(o))
}

/// Hashes with `xxhash_rust::xxh3::xxh3_64`. The contract claims that the
/// result is a function of the bytes alone (the default seed and secret).
#[verifier::external_body]
fn xxh3_64_of(data: &[u8]) -> (hash: u64)
    ensures
        hash == xxh3_64(data@),
{
    xxhash_rust::xxh3::xxh3_64(data)
}

/// The binary fuse filter of `xorf`.
#[verifier::external_type_specification]
#[verifier::external_body]
pub struct ExBinaryFuse8(xorf::BinaryFuse8);

/// Whether a filter is as its construction left it: its fingerprints, the
/// one part of it that is open to everyone, are those that `xorf` computed.
pub uninterp spec fn filter_intact(filter: xorf::BinaryFuse8) -> bool;

/// The keys for which a filter answers `true`.
pub uninterp spec fn filter_passes(filter: xorf::BinaryFuse8) -> Set<u64>;

/// Whether `xorf` finds a filter for these keys, in this order.
pub uninterp spec fn filter_builds(keys: Seq<u64>) -> bool;

/// The most keys from which the library itself builds a filter. The
/// construction counts the keys of a slot in eight bits, four to a key:
/// with at most 63 keys no count passes 255.
pub const MAX_BUILT_KEYS: usize = 63;

/// Builds a filter with `xorf::BinaryFuse8::try_from`. The keys must be
/// distinct, which the construction asserts, and at most `MAX_BUILT_KEYS`,
/// so that none of its counters overflows. The contract claims that whether
/// a filter comes back depends on the keys alone (the seeds that are tried
/// are fixed), that the filter is as the construction left it, and that it
/// has no false negatives: it answers `true` for every key it was built
/// from.
#[verifier::external_body]
fn build_filter(keys: &Vec<u64>) -> (r: Option<xorf::BinaryFuse8>)
    requires
        keys@.no_duplicates(),
        keys@.len() <= MAX_BUILT_KEYS,
    ensures
        r is Some == filter_builds(keys@),
        r matches Some(filter) ==> filter_intact(filter) && forall|k: u64|
            keys@.contains(k) ==> #[trigger] filter_passes(filter).contains(k),
{
    xorf::BinaryFuse8::try_from(keys).ok()
}

/// Asks the filter with `xorf::Filter::contains`. The filter must be
/// intact: the lookup reads the fingerprints at three places that it
/// computes from the key and the sizes that the construction chose. The
/// contract claims that the answer depends on the filter and the key alone.
/// Nothing is claimed of which keys get the answer `true`.
#[verifier::external_body]
fn filter_contains(filter: &xorf::BinaryFuse8, key: u64) -> (found: bool)
    requires
        filter_intact(*filter),
    ensures
        found == filter_passes(*filter).contains(key),
{
    xorf::Filter::contains(filter, &key)
}

/// Whether a filter answers `true` for the key of the output of every item.
pub open spec fn passes_all(filter: xorf::BinaryFuse8, items: Seq<OutpointInscriptionsView>) -> bool {
    forall|i: int|
        0 <= i < items.len() ==> filter_passes(filter).contains(
            hash_key(#[trigger] items[i].outpoint),
        )
}

/// The first `n` items have no more distinct keys than all of them.
pub proof fn lemma_distinct_keys_grow(items: Seq<OutpointInscriptionsView>, n: int)
    requires
        0 <= n <= items.len(),
    ensures
        distinct_keys(items.take(n)).len() <= distinct_keys(items).len(),
    decreases items.len() - n,
{
    if n < items.len() {
        lemma_distinct_keys_grow(items, n + 1);
        assert(items.take(n + 1).drop_last() =~= items.take(n));
    } else {
        assert(items.take(n) =~= items);
    }
}

/// Whether the library itself builds a filter for the items: their distinct
/// keys are few enough, and `xorf` finds a filter for them.
pub open spec fn builds_filter(items: Seq<OutpointInscriptionsView>) -> bool {
    distinct_keys(items).len() <= MAX_BUILT_KEYS && filter_builds(distinct_keys(items))
}

/// The filter keys of the outputs of the items, each key once, in the order
/// in which the items first show them.
pub open spec fn distinct_keys(items: Seq<OutpointInscriptionsView>) -> Seq<u64>
    decreases items.len(),
{
    if items.len() == 0 {
        Seq::empty()
    } else {
        let before = distinct_keys(items.drop_last());
        let key = hash_key(items.last().outpoint);
        if before.contains(key) {
            before
        } else {
            before.push(key)
        }
    }
}

/// The distinct keys hold no key twice; they hold the key of every item's
/// output, and no other key.
pub proof fn lemma_distinct_keys(items: Seq<OutpointInscriptionsView>)
    ensures
        distinct_keys(items).no_duplicates(),
        distinct_keys(items).len() <= items.len(),
        forall|i: int|
            0 <= i < items.len() ==> distinct_keys(items).contains(
                hash_key(#[trigger] items[i].outpoint),
            ),
        forall|k: u64| #[trigger]
            distinct_keys(items).contains(k) ==> exists|i: int|
                0 <= i < items.len() && hash_key(#[trigger] items[i].outpoint) == k,
    decreases items.len(),
{
    if items.len() > 0 {
        let front = items.drop_last();
        let before = distinct_keys(front);
        let key = hash_key(items.last().outpoint);
        let keys = distinct_keys(items);
        lemma_distinct_keys(front);
        assert forall|i: int| 0 <= i < items.len() implies keys.contains(
            hash_key(#[trigger] items[i].outpoint),
        ) by {
            if i < front.len() {
                assert(front[i] == items[i]);
                let j = choose|j: int| 0 <= j < before.len() && before[j] == hash_key(front[i].outpoint);
                assert(keys[j] == hash_key(items[i].outpoint));
            } else if before.contains(key) {
            } else {
                assert(keys[keys.len() - 1] == key);
            }
        }
        assert forall|k: u64| #[trigger] keys.contains(k) implies exists|i: int|
            0 <= i < items.len() && hash_key(#[trigger] items[i].outpoint) == k by {
            if before.contains(k) {
                let i = choose|i: int| 0 <= i < front.len() && hash_key(#[trigger] front[i].outpoint) == k;
                assert(hash_key(items[i].outpoint) == k);
            } else {
                let j = choose|j: int| 0 <= j < keys.len() && keys[j] == k;
                assert(j == keys.len() - 1);
                assert(hash_key(items[items.len() - 1].outpoint) == k);
            }
        }
    }
}

/// Sorts with `sort_by` of `Vec`, comparing outputs with
/// `OutPoint::compare_outpoints`. The contract claims what the standard
/// library documents of its stable sort: the result holds the same
/// elements, it is sorted, and the elements that compare equal, here those
/// with one output, keep their order.
#[verifier::external_body]
fn sort_by_outpoint(items: &mut Vec<OutpointInscriptions>)
    ensures
        final(items)@.len() == old(items)@.len(),
        item_views(final(items)@).to_multiset() == item_views(old(items)@).to_multiset(),
        sorted(item_views(final(items)@)),
        forall|o: OutPoint| #[trigger]
            with_outpoint(item_views(final(items)@), o) == with_outpoint(
                item_views(old(items)@),
                o,
            ),
{
    items.sort_by(|a, b| a.outpoint.compare_outpoints(&b.outpoint));
}

/// Some item has output `o` exactly when the items with output `o` are not
/// none.
pub proof fn lemma_has_outpoint(items: Seq<OutpointInscriptionsView>, o: OutPoint)
    ensures
        has_outpoint(items, o) == (with_outpoint(items, o).len() > 0),
        forall|k: int|
            0 <= k < with_outpoint(items, o).len() ==> (#[trigger] with_outpoint(
                items,
                o,
            )[k]).outpoint == o,
    decreases items.len(),
{
    if items.len() > 0 {
        let before = items.drop_last();
        lemma_has_outpoint(before, o);
        if items.last().outpoint == o {
            assert(items[items.len() - 1].outpoint == o);
        } else if has_outpoint(items, o) {
            let i = choose|i: int| 0 <= i < items.len() && #[trigger] items[i].outpoint == o;
            assert(before[i].outpoint == o);
        } else if has_outpoint(before, o) {
            let i = choose|i: int| 0 <= i < before.len() && #[trigger] before[i].outpoint == o;
            assert(items[i].outpoint == o);
        }
    }
}

/// In strictly increasing items an output has at most one item: the
/// inscriptions bound to the output of an item are those of the item.
pub proof fn lemma_single_item(items: Seq<OutpointInscriptionsView>, i: int)
    requires
        sorted_and_merged(items),
        0 <= i < items.len(),
    ensures
        with_outpoint(items, items[i].outpoint) == seq![items[i]],
        inscriptions_of(items, items[i].outpoint) == items[i].inscriptions,
    decreases items.len(),
{
    let o = items[i].outpoint;
    let before = items.drop_last();
    assert(sorted_and_merged(before)) by {
        assert forall|a: int, b: int| 0 <= a < b < before.len() implies outpoint_lt(
            #[trigger] before[a].outpoint,
            #[trigger] before[b].outpoint,
        ) by {
            assert(outpoint_lt(items[a].outpoint, items[b].outpoint));
        }
    }
    if i == items.len() - 1 {
        lemma_has_outpoint(before, o);
        if has_outpoint(before, o) {
            let k = choose|k: int| 0 <= k < before.len() && #[trigger] before[k].outpoint == o;
            assert(outpoint_lt(items[k].outpoint, items[i].outpoint));
            lemma_outpoint_lt_total(items[k].outpoint, items[i].outpoint);
        }
        assert(with_outpoint(before, o) =~= Seq::empty());
        assert(with_outpoint(items, o) =~= seq![items[i]]);
    } else {
        lemma_single_item(before, i);
        assert(outpoint_lt(items[i].outpoint, items[items.len() - 1].outpoint));
        lemma_outpoint_lt_total(items[i].outpoint, items.last().outpoint);
        assert(before[i] == items[i]);
    }
    let single = seq![items[i]];
    assert(single.drop_last() =~= Seq::empty());
    assert(all_inscriptions(single.drop_last()) =~= Seq::empty());
    assert(all_inscriptions(single) =~= items[i].inscriptions);
}

/// Merging sorted items gives items with strictly increasing outputs that
/// bind to every output the inscriptions that the sorted items bind to it,
/// in their order, and that hold all their inscriptions.
pub proof fn lemma_merged(items: Seq<OutpointInscriptionsView>)
    requires
        sorted(items),
    ensures
        sorted_and_merged(merged(items)),
        merged(items).len() <= items.len(),
        items.len() > 0 ==> merged(items).len() > 0 && merged(items).last().outpoint
            == items.last().outpoint,
        all_inscriptions(merged(items)) == all_inscriptions(items),
        forall|o: OutPoint| #[trigger]
            inscriptions_of(merged(items), o) == inscriptions_of(items, o),
        forall|o: OutPoint| #[trigger] has_outpoint(merged(items), o) == has_outpoint(items, o),
    decreases items.len(),
{
    if items.len() == 0 {
        assert forall|o: OutPoint| #[trigger]
            has_outpoint(merged(items), o) == has_outpoint(items, o) by {}
    } else {
        let shorter = items.drop_last();
        let item = items.last();
        let before = merged(shorter);
        let result = merged(items);
        assert(sorted(shorter)) by {
            assert forall|a: int, b: int| 0 <= a < b < shorter.len() implies !outpoint_lt(
                #[trigger] shorter[b].outpoint,
                #[trigger] shorter[a].outpoint,
            ) by {
                assert(!outpoint_lt(items[b].outpoint, items[a].outpoint));
            }
        }
        lemma_merged(shorter);
        let joins = before.len() > 0 && before.last().outpoint == item.outpoint;
        // Every output of `before` is at most the last one, which is at most
        // that of `item`.
        assert forall|a: int| 0 <= a < before.len() - 1 implies outpoint_lt(
            #[trigger] before[a].outpoint,
            item.outpoint,
        ) by {
            let last = before.len() - 1;
            assert(outpoint_lt(before[a].outpoint, before[last].outpoint));
            assert(before[last].outpoint == shorter.last().outpoint);
            assert(shorter.last() == items[items.len() - 2]);
            assert(!outpoint_lt(items[items.len() - 1].outpoint, items[items.len() - 2].outpoint));
            lemma_outpoint_lt_total(before[last].outpoint, item.outpoint);
            if before[last].outpoint != item.outpoint {
                lemma_outpoint_lt_transitive(
                    before[a].outpoint,
                    before[last].outpoint,
                    item.outpoint,
                );
            }
        }
        if before.len() > 0 && !joins {
            let last = before.len() - 1;
            assert(before[last].outpoint == shorter.last().outpoint);
            assert(shorter.last() == items[items.len() - 2]);
            assert(!outpoint_lt(items[items.len() - 1].outpoint, items[items.len() - 2].outpoint));
            lemma_outpoint_lt_total(before[last].outpoint, item.outpoint);
        }
        assert(sorted_and_merged(result)) by {
            assert forall|a: int, b: int| 0 <= a < b < result.len() implies outpoint_lt(
                #[trigger] result[a].outpoint,
                #[trigger] result[b].outpoint,
            ) by {
                if b < result.len() - 1 {
                    assert(outpoint_lt(before[a].outpoint, before[b].outpoint));
                } else if joins {
                    assert(result[a] == before[a]);
                } else {
                    assert(result[a] == before[a]);
                }
            }
        }
        let merged_item = result.last();
        assert(result.drop_last() =~= if joins {
            before.drop_last()
        } else {
            before
        });
        if joins {
            assert(before =~= before.drop_last().push(before.last()));
            assert(all_inscriptions(before) == all_inscriptions(before.drop_last())
                + before.last().inscriptions);
            assert(all_inscriptions(result) =~= all_inscriptions(items));
        }
        assert forall|o: OutPoint| #[trigger]
            inscriptions_of(result, o) == inscriptions_of(items, o) by {
            assert(inscriptions_of(before, o) == inscriptions_of(shorter, o));
            let kept = with_outpoint(shorter, o);
            if joins {
                let front = with_outpoint(before.drop_last(), o);
                if item.outpoint == o {
                    assert(with_outpoint(before, o) == front.push(before.last()));
                    assert(front.push(before.last()).drop_last() =~= front);
                    assert(with_outpoint(result, o) == front.push(merged_item));
                    assert(front.push(merged_item).drop_last() =~= front);
                    assert(with_outpoint(items, o) == kept.push(item));
                    assert(kept.push(item).drop_last() =~= kept);
                    assert(inscriptions_of(result, o) =~= inscriptions_of(items, o));
                } else {
                    assert(with_outpoint(before, o) == front);
                    assert(with_outpoint(result, o) == front);
                }
            } else {
                if item.outpoint == o {
                    let all = with_outpoint(before, o);
                    assert(with_outpoint(result, o) == all.push(item));
                    assert(all.push(item).drop_last() =~= all);
                    assert(with_outpoint(items, o) == kept.push(item));
                    assert(kept.push(item).drop_last() =~= kept);
                }
            }
        }
        assert forall|o: OutPoint| #[trigger]
            has_outpoint(result, o) == has_outpoint(items, o) by {
            assert(has_outpoint(before, o) == has_outpoint(shorter, o));
            if has_outpoint(result, o) {
                let k = choose|k: int| 0 <= k < result.len() && #[trigger] result[k].outpoint == o;
                if k == result.len() - 1 {
                    assert(items[items.len() - 1].outpoint == o);
                } else {
                    assert(before[k].outpoint == o);
                    let j = choose|j: int|
                        0 <= j < shorter.len() && #[trigger] shorter[j].outpoint == o;
                    assert(items[j].outpoint == o);
                }
            }
            if has_outpoint(items, o) {
                let k = choose|k: int| 0 <= k < items.len() && #[trigger] items[k].outpoint == o;
                if k == items.len() - 1 {
                    assert(result[result.len() - 1].outpoint == o);
                } else {
                    assert(shorter[k].outpoint == o);
                    let j = choose|j: int|
                        0 <= j < before.len() && #[trigger] before[j].outpoint == o;
                    if j == before.len() - 1 && joins {
                        assert(result[result.len() - 1].outpoint == o);
                    } else {
                        assert(result[j].outpoint == o);
                    }
                }
            }
        }
    }
}

/// Taking an item out takes its inscriptions out of the count.
pub proof fn lemma_count_without(items: Seq<OutpointInscriptionsView>, i: int)
    requires
        0 <= i < items.len(),
    ensures
        all_inscriptions(items).len() == all_inscriptions(items.remove(i)).len()
            + items[i].inscriptions.len(),
    decreases items.len(),
{
    let last = items.len() - 1;
    if i == last {
        assert(items.remove(i) =~= items.drop_last());
    } else {
        lemma_count_without(items.drop_last(), i);
        assert(items.remove(i).drop_last() =~= items.drop_last().remove(i));
        assert(items.remove(i).last() == items.last());
    }
}

/// Lists that hold the same items, in whatever order, hold as many
/// inscriptions.
pub proof fn lemma_count_of_permutation(
    a: Seq<OutpointInscriptionsView>,
    b: Seq<OutpointInscriptionsView>,
)
    requires
        a.to_multiset() == b.to_multiset(),
    ensures
        all_inscriptions(a).len() == all_inscriptions(b).len(),
    decreases a.len(),
{
    broadcast use vstd::seq_lib::group_to_multiset_ensures;

    assert(a.len() == b.len()) by {
        vstd::seq_lib::to_multiset_len(a);
        vstd::seq_lib::to_multiset_len(b);
    }
    if a.len() == 0 {
        assert(a =~= b);
    } else {
        let item = a.last();
        let shorter = a.drop_last();
        assert(shorter.push(item) =~= a);
        vstd::seq_lib::to_multiset_build(shorter, item);
        assert(a.to_multiset() =~= shorter.to_multiset().insert(item));
        assert(b.to_multiset().count(item) > 0);
        vstd::seq_lib::to_multiset_contains(b, item);
        assert(b.contains(item));
        let j = choose|j: int| 0 <= j < b.len() && b[j] == item;
        vstd::seq_lib::to_multiset_remove(b, j);
        assert(b.remove(j).to_multiset() =~= shorter.to_multiset());
        lemma_count_of_permutation(shorter, b.remove(j));
        lemma_count_without(b, j);
    }
}

/// The filter key of an output.
pub fn xxh3_outpoint(outpoint: &OutPoint) -> (key: u64)
    ensures
        key == hash_key(*outpoint),
{
    let mut bytes: Vec<u8> = Vec::with_capacity(36);
    bytes.extend_from_slice(outpoint.txid.as_slice());
    let vout = u32_to_le_bytes(outpoint.vout);
    bytes.extend_from_slice(vout.as_slice());
    assert(bytes@ =~= outpoint_bytes(*outpoint));
    xxh3_64_of(bytes.as_slice())
}

impl OutpointInscriptions {
    /// The filter key of the item's output.
    pub fn hash_key(&self) -> (key: u64)
        ensures
            key == hash_key(self.outpoint),
    {
        xxh3_outpoint(&self.outpoint)
    }
}

/// The inscriptions bound to each output. Its view is the list of its
/// items.
pub struct OutpointInscriptionsMap {
    items: Vec<OutpointInscriptions>,
    key_filter: Option<xorf::BinaryFuse8>,
}

impl View for OutpointInscriptionsMap {
    type V = Seq<OutpointInscriptionsView>;

    closed spec fn view(&self) -> Seq<OutpointInscriptionsView> {
        item_views(self.items@)
    }
}

impl OutpointInscriptionsMap {
    /// The invariant of the type: a filter, where there is one, is intact
    /// and answers `true` for the key of every item's output.
    pub closed spec fn wf(&self) -> bool {
        self.key_filter matches Some(filter) ==> filter_intact(filter) && passes_all(filter, self@)
    }

    /// Builds the map of the inscriptions that are bound to an output, and
    /// counts: the outputs of the map, its inscriptions, and the records
    /// whose inscription is bound to none. Every bound inscription is in the
    /// map.
    pub fn index(records: Vec<InscriptionRecord>) -> (r: (Self, usize, usize, usize))
        ensures
            r.0.wf(),
            r.0.filter() is Some == builds_filter(r.0@),
            sorted_and_merged(r.0@),
            forall|o: OutPoint| #[trigger]
                inscriptions_of(r.0@, o) == inscriptions_of(bound_items(records@), o),
            forall|o: OutPoint| #[trigger]
                has_outpoint(r.0@, o) == has_outpoint(bound_items(records@), o),
            r.1 == r.0@.len(),
            r.2 == all_inscriptions(r.0@).len(),
            r.2 == bound_items(records@).len(),
            r.3 == records@.len() - bound_items(records@).len(),
    {
        // collect all outpoint:inscription pairs except unbounded
        let unbound = OutPoint::unbound();
        let mut unbound_count: usize = 0;
        let mut items: Vec<OutpointInscriptions> = Vec::new();
        let mut i: usize = 0;
        assert(records@.take(0) =~= Seq::empty());
        assert(item_views(items@) =~= bound_items(records@.take(0)));
        while i < records.len()
            invariant
                i <= records@.len(),
                unbound.vout == 0,
                unbound.txid@ == Seq::new(32, |k: int| 0u8),
                item_views(items@) == bound_items(records@.take(i as int)),
                unbound_count + items@.len() == i,
            decreases records@.len() - i,
        {
            let ghost before = item_views(items@);
            assert(records@.take(i + 1).drop_last() =~= records@.take(i as int));
            assert(records@.take(i + 1).last() == records@[i as int]);
            let record = records[i];
            if record.satpoint_outpoint == unbound {
                unbound_count += 1;  // skip unbounded outpoint
            } else {
                assert(!is_unbound(record.satpoint_outpoint)) by {
                    if is_unbound(record.satpoint_outpoint) {
                        assert(record.satpoint_outpoint.txid =~= unbound.txid);
                    }
                }
                let mut inscriptions: Vec<ObjectID> = Vec::new();
                inscriptions.push(record.inscription);
                items.push(
                    OutpointInscriptions { outpoint: record.satpoint_outpoint, inscriptions },
                );
                assert(inscriptions@ =~= seq![record.inscription]);
                assert(item_views(items@) =~= before.push(
                    OutpointInscriptionsView {
                        outpoint: record.satpoint_outpoint,
                        inscriptions: seq![record.inscription],
                    },
                ));
            }
            i += 1;
        }
        assert(records@.take(records@.len() as int) =~= records@);
        proof {
            lemma_bound_items(records@);
        }
        let map = Self::new_with_unsorted(items);
        let (mapped_outpoint_count, mapped_inscription_count) = map.stats();
        (map, mapped_outpoint_count, mapped_inscription_count, unbound_count)
    }

    /// The filter of the map, if it has one.
    pub closed spec fn filter(&self) -> Option<xorf::BinaryFuse8> {
        self.key_filter
    }

    /// Whether the map has a filter.
    pub fn has_filter(&self) -> (r: bool)
        ensures
            r == (self.filter() is Some),
    {
        self.key_filter.is_some()
    }

    /// Whether the map lets an output pass on to a search: the filter
    /// answers `true` for the key of the output; a map without a filter lets
    /// every output pass.
    pub open spec fn lets_pass(&self, outpoint: OutPoint) -> bool {
        match self.filter() {
            Some(filter) => filter_passes(filter).contains(hash_key(outpoint)),
            None => true,
        }
    }

    /// The map of items in any order.
    pub fn new_with_unsorted(items: Vec<OutpointInscriptions>) -> (map: Self)
        ensures
            map.wf(),
            map.filter() is Some == builds_filter(map@),
            sorted_and_merged(map@),
            all_inscriptions(map@).len() == all_inscriptions(item_views(items@)).len(),
            forall|o: OutPoint| #[trigger]
                inscriptions_of(map@, o) == inscriptions_of(item_views(items@), o),
            forall|o: OutPoint| #[trigger]
                has_outpoint(map@, o) == has_outpoint(item_views(items@), o),
    {
        Self::new(items, false)
    }

    /// The map of the given items. Items that are not `sorted` are sorted
    /// by output and merged; items that are said to be are taken as they
    /// stand. The map gets the filter that `add_outpoint_filter` builds.
    pub fn new(items: Vec<OutpointInscriptions>, sorted: bool) -> (map: Self)
        ensures
            map.wf(),
            map.filter() is Some == builds_filter(map@),
            sorted ==> map@ == item_views(items@),
            !sorted ==> sorted_and_merged(map@),
            all_inscriptions(map@).len() == all_inscriptions(item_views(items@)).len(),
            forall|o: OutPoint| #[trigger]
                inscriptions_of(map@, o) == inscriptions_of(item_views(items@), o),
            forall|o: OutPoint| #[trigger]
                has_outpoint(map@, o) == has_outpoint(item_views(items@), o),
    {
        let mut map = OutpointInscriptionsMap { items, key_filter: None };
        if !sorted {
            map.sort_and_merge();
        }
        map.add_outpoint_filter();
        map
    }

    /// Sorts the items by output and merges those that share one, and
    /// returns how many are left. Every output keeps the inscriptions bound
    /// to it, in the order in which the items stood.
    pub fn sort_and_merge(&mut self) -> (new_len: usize)
        requires
            old(self).wf(),
        ensures
            final(self).wf(),
            final(self).filter() == old(self).filter(),
            sorted_and_merged(final(self)@),
            new_len == final(self)@.len(),
            new_len <= old(self)@.len(),
            all_inscriptions(final(self)@).len() == all_inscriptions(old(self)@).len(),
            forall|o: OutPoint| #[trigger]
                inscriptions_of(final(self)@, o) == inscriptions_of(old(self)@, o),
            forall|o: OutPoint| #[trigger]
                has_outpoint(final(self)@, o) == has_outpoint(old(self)@, o),
    {
        let ghost unsorted = self@;
        let ghost unsorted_items = self.items@;
        if self.items.len() == 0 {
            return 0;
        }
        sort_by_outpoint(&mut self.items);
        let ghost in_order = self@;
        assert forall|o: OutPoint| #[trigger]
            has_outpoint(in_order, o) == has_outpoint(unsorted, o) by {
            lemma_has_outpoint(in_order, o);
            lemma_has_outpoint(unsorted, o);
        }
        let mut result: Vec<OutpointInscriptions> = Vec::new();
        let mut i: usize = 0;
        assert(in_order.take(0) =~= Seq::empty());
        assert(item_views(result@) =~= merged(in_order.take(0)));
        while i < self.items.len()
            invariant
                i <= self.items@.len(),
                in_order == item_views(self.items@),
                item_views(result@) == merged(in_order.take(i as int)),
            decreases self.items@.len() - i,
        {
            let ghost before = item_views(result@);
            let ghost prefix = in_order.take(i + 1);
            assert(prefix.drop_last() =~= in_order.take(i as int));
            assert(prefix.last() == self.items@[i as int]@);
            let n = result.len();
            let joins = n > 0 && result[n - 1].outpoint == self.items[i].outpoint;
            if joins {
                let mut last = result.pop().unwrap();
                assert(item_views(result@) =~= before.drop_last());
                extend_digests(&mut last.inscriptions, self.items[i].inscriptions.as_slice());
                result.push(last);
                assert(item_views(result@) =~= merged(prefix));
            } else {
                result.push(
                    OutpointInscriptions {
                        outpoint: self.items[i].outpoint,
                        inscriptions: copy_digests(self.items[i].inscriptions.as_slice()),
                    },
                );
                assert(item_views(result@) =~= merged(prefix));
            }
            i += 1;
        }
        assert(in_order.take(self.items@.len() as int) =~= in_order);
        proof {
            lemma_merged(in_order);
            lemma_count_of_permutation(in_order, unsorted);
            assert forall|k: int| 0 <= k < result@.len() implies has_outpoint(
                unsorted,
                #[trigger] result@[k].outpoint,
            ) by {
                assert(item_views(result@)[k].outpoint == result@[k].outpoint);
                assert(has_outpoint(merged(in_order), result@[k].outpoint));
            }
            if self.key_filter is Some {
                let filter = self.key_filter->0;
                assert forall|k: int| 0 <= k < result@.len() implies filter_passes(
                    filter,
                ).contains(hash_key(#[trigger] item_views(result@)[k].outpoint)) by {
                    let o = result@[k].outpoint;
                    assert(has_outpoint(unsorted, o));
                    let j = choose|j: int| 0 <= j < unsorted.len() && #[trigger] unsorted[j].outpoint
                        == o;
                }
            }
        }
        self.items = result;
        self.items.len()
    }

    /// The filter keys of the outputs of the map, each key once, if there
    /// are at most `limit` of them.
    fn outpoint_keys_within(&self, limit: usize) -> (r: Option<Vec<u64>>)
        ensures
            match r {
                Some(keys) => keys@ == distinct_keys(self@) && keys@.len() <= limit,
                None => distinct_keys(self@).len() > limit,
            },
    {
        let ghost items = self@;
        let mut seen: HashSet<u64> = HashSet::new();
        let mut keys: Vec<u64> = Vec::new();
        let mut i: usize = 0;
        assert(items.take(0) =~= Seq::empty());
        while i < self.items.len()
            invariant
                i <= self.items@.len(),
                items == item_views(self.items@),
                keys@ == distinct_keys(items.take(i as int)),
                seen@ == keys@.to_set(),
                keys@.len() <= limit,
            decreases self.items@.len() - i,
        {
            assert(items.take(i + 1).drop_last() =~= items.take(i as int));
            assert(items.take(i + 1).last() == self.items@[i as int]@);
            let key = self.items[i].hash_key();
            let ghost before = keys@;
            assert(before.contains(key) == seen@.contains(key));
            if !seen.contains(&key) {
                if keys.len() >= limit {
                    proof {
                        lemma_distinct_keys_grow(items, i + 1);
                    }
                    return None;
                }
                seen.insert(key);
                keys.push(key);
                assert(keys@.to_set() =~= before.to_set().insert(key)) by {
                    assert forall|x: u64| keys@.to_set().contains(x) == before.to_set().insert(
                        key,
                    ).contains(x) by {
                        if before.to_set().contains(x) {
                            let j = choose|j: int| 0 <= j < before.len() && before[j] == x;
                            assert(keys@[j] == x);
                        }
                        if x == key {
                            assert(keys@[keys@.len() - 1] == x);
                        }
                    }
                }
            }
            i += 1;
        }
        assert(items.take(self.items@.len() as int) =~= items);
        Some(keys)
    }

    /// The filter keys of the outputs of the map, each key once: the keys
    /// from which a filter for the map is to be built.
    pub fn outpoint_keys(&self) -> (keys: Vec<u64>)
        ensures
            keys@ == distinct_keys(self@),
    {
        proof {
            lemma_distinct_keys(self@);
        }
        match self.outpoint_keys_within(self.items.len()) {
            Some(keys) => keys,
            None => Vec::new(),
        }
    }

    /// Builds the filter of the map from the keys of its outputs, where
    /// these are at most `MAX_BUILT_KEYS` and `xorf` finds a filter for them.
    /// Otherwise the map keeps what it had: a larger map gets its filter
    /// from `set_outpoint_filter`.
    pub fn add_outpoint_filter(&mut self) -> (added: bool)
        requires
            old(self).wf(),
        ensures
            final(self).wf(),
            final(self)@ == old(self)@,
            added == builds_filter(old(self)@),
            added ==> final(self).filter() is Some,
            !added ==> final(self).filter() == old(self).filter(),
    {
        let keys = match self.outpoint_keys_within(MAX_BUILT_KEYS) {
            Some(keys) => keys,
            None => { return false; },
        };
        proof {
            lemma_distinct_keys(self@);
        }
        match build_filter(&keys) {
            Some(filter) => {
                let added = self.set_outpoint_filter(filter);
                assert(added);
                added
            },
            None => false,
        }
    }

    /// Gives the map a filter that was built elsewhere, with
    /// `xorf::BinaryFuse8::try_from` from `outpoint_keys`, if the filter
    /// answers `true` for the key of every output of the map; the map keeps
    /// what it had where it does not. The filter must be intact.
    pub fn set_outpoint_filter(&mut self, filter: xorf::BinaryFuse8) -> (added: bool)
        requires
            old(self).wf(),
            filter_intact(filter),
        ensures
            final(self).wf(),
            final(self)@ == old(self)@,
            added == passes_all(filter, old(self)@),
            final(self).filter() == if added {
                Some(filter)
            } else {
                old(self).filter()
            },
    {
        let ghost items = self@;
        let mut i: usize = 0;
        while i < self.items.len()
            invariant
                i <= self.items@.len(),
                *self == *old(self),
                self.wf(),
                filter_intact(filter),
                items == item_views(self.items@),
                forall|k: int|
                    0 <= k < i ==> filter_passes(filter).contains(
                        hash_key(#[trigger] items[k].outpoint),
                    ),
            decreases self.items@.len() - i,
        {
            let key = self.items[i].hash_key();
            assert(items[i as int].outpoint == self.items@[i as int].outpoint);
            if !filter_contains(&filter, key) {
                return false;
            }
            i += 1;
        }
        self.key_filter = Some(filter);
        true
    }

    /// Whether the filter lets the output pass: what the filter answers for
    /// the key of the output, and `true` where the map has no filter. It lets
    /// every output of an item pass, and may let others pass.
    pub fn contains(&self, outpoint: &OutPoint) -> (found: bool)
        requires
            self.wf(),
        ensures
            found == self.lets_pass(*outpoint),
            has_outpoint(self@, *outpoint) ==> found,
    {
        match &self.key_filter {
            Some(filter) => filter_contains(filter, xxh3_outpoint(outpoint)),
            None => true,
        }
    }

    /// The inscriptions bound to an output. What is found is what some item
    /// binds to the output; in a sorted and merged map it is found exactly
    /// when an item has the output, and is all that is bound to it.
    pub fn search(&self, outpoint: &OutPoint) -> (r: Option<Vec<ObjectID>>)
        requires
            self.wf(),
        ensures
            r matches Some(found) ==> exists|i: int|
                0 <= i < self@.len() && (#[trigger] self@[i]).outpoint == *outpoint && found@
                    == self@[i].inscriptions,
            sorted_and_merged(self@) ==> match r {
                Some(found) => has_outpoint(self@, *outpoint) && found@ == inscriptions_of(
                    self@,
                    *outpoint,
                ),
                None => !has_outpoint(self@, *outpoint),
            },
    {
        if !self.contains(outpoint) {
            return None;
        }
        let ghost items = self@;
        let ghost o = *outpoint;
        let mut low: usize = 0;
        let mut high: usize = self.items.len();
        while low < high
            invariant
                low <= high <= self.items@.len(),
                items == item_views(self.items@),
                o == *outpoint,
                sorted_and_merged(items) ==> forall|k: int|
                    0 <= k < low ==> outpoint_lt(#[trigger] items[k].outpoint, o),
                sorted_and_merged(items) ==> forall|k: int|
                    high <= k < items.len() ==> outpoint_lt(o, #[trigger] items[k].outpoint),
            decreases high - low,
        {
            let middle = low + (high - low) / 2;
            let r = self.items[middle].outpoint.rank(outpoint);
            assert(items[middle as int].outpoint == self.items@[middle as int].outpoint);
            if r == 0 {
                proof {
                    if sorted_and_merged(items) {
                        lemma_single_item(items, middle as int);
                    }
                }
                let found = copy_digests(self.items[middle].inscriptions.as_slice());
                assert(self@[middle as int].outpoint == o && found@
                    == self@[middle as int].inscriptions);
                return Some(found);
            } else if r < 0 {
                proof {
                    if sorted_and_merged(items) {
                        assert forall|k: int| 0 <= k < middle + 1 implies outpoint_lt(
                            #[trigger] items[k].outpoint,
                            o,
                        ) by {
                            if k < middle {
                                assert(outpoint_lt(items[k].outpoint, items[middle as int].outpoint));
                                lemma_outpoint_lt_transitive(
                                    items[k].outpoint,
                                    items[middle as int].outpoint,
                                    o,
                                );
                            }
                        }
                    }
                }
                low = middle + 1;
            } else {
                proof {
                    if sorted_and_merged(items) {
                        assert forall|k: int| middle <= k < items.len() implies outpoint_lt(
                            o,
                            #[trigger] items[k].outpoint,
                        ) by {
                            if k > middle {
                                assert(outpoint_lt(items[middle as int].outpoint, items[k].outpoint));
                                lemma_outpoint_lt_transitive(
                                    o,
                                    items[middle as int].outpoint,
                                    items[k].outpoint,
                                );
                            }
                        }
                    }
                }
                high = middle;
            }
        }
        proof {
            if sorted_and_merged(items) && has_outpoint(items, o) {
                let k = choose|k: int| 0 <= k < items.len() && #[trigger] items[k].outpoint == o;
                lemma_outpoint_lt_total(items[k].outpoint, o);
            }
        }
        None
    }

    /// Whether the outputs of the items increase strictly.
    pub fn is_sorted_and_merged(&self) -> (r: bool)
        ensures
            r == sorted_and_merged(self@),
    {
        let ghost items = self@;
        if self.items.len() == 0 {
            return true;
        }
        let mut i: usize = 1;
        while i < self.items.len()
            invariant
                1 <= i <= self.items@.len(),
                items == item_views(self.items@),
                forall|k: int|
                    0 <= k < i - 1 ==> outpoint_lt(
                        #[trigger] items[k].outpoint,
                        items[k + 1].outpoint,
                    ),
            decreases self.items@.len() - i,
        {
            let r = self.items[i - 1].outpoint.rank(&self.items[i].outpoint);
            assert(items[i - 1].outpoint == self.items@[i - 1].outpoint);
            assert(items[i as int].outpoint == self.items@[i as int].outpoint);
            if r >= 0 {
                return false;
            }
            i += 1;
        }
        proof {
            lemma_neighbours_increase(items);
        }
        true
    }

    /// The number of items and the number of their inscriptions.
    pub fn stats(&self) -> (counts: (usize, usize))
        requires
            all_inscriptions(self@).len() <= usize::MAX,
        ensures
            counts.0 == self@.len(),
            counts.1 == all_inscriptions(self@).len(),
    {
        let ghost items = self@;
        let mut total: usize = 0;
        let mut i: usize = 0;
        assert(items.take(0) =~= Seq::empty());
        while i < self.items.len()
            invariant
                i <= self.items@.len(),
                items == item_views(self.items@),
                all_inscriptions(items).len() <= usize::MAX,
                total == all_inscriptions(items.take(i as int)).len(),
            decreases self.items@.len() - i,
        {
            proof {
                assert(items.take(i + 1).drop_last() =~= items.take(i as int));
                assert(items.take(i + 1).last() == items[i as int]);
                lemma_all_inscriptions_grow(items, i + 1);
            }
            total = total + self.items[i].inscriptions.len();
            i += 1;
        }
        assert(items.take(self.items@.len() as int) =~= items);
        (self.items.len(), total)
    }

    /// The items.
    pub fn items(&self) -> (items: &Vec<OutpointInscriptions>)
        ensures
            item_views(items@) == self@,
    {
        &self.items
    }
}

/// Items whose neighbours increase strictly increase strictly throughout.
pub proof fn lemma_neighbours_increase(items: Seq<OutpointInscriptionsView>)
    requires
        forall|k: int|
            0 <= k < items.len() - 1 ==> outpoint_lt(
                #[trigger] items[k].outpoint,
                items[k + 1].outpoint,
            ),
    ensures
        sorted_and_merged(items),
    decreases items.len(),
{
    if items.len() > 1 {
        let before = items.drop_last();
        assert forall|k: int| 0 <= k < before.len() - 1 implies outpoint_lt(
            #[trigger] before[k].outpoint,
            before[k + 1].outpoint,
        ) by {
            assert(outpoint_lt(items[k].outpoint, items[k + 1].outpoint));
        }
        lemma_neighbours_increase(before);
        assert forall|a: int, b: int| 0 <= a < b < items.len() implies outpoint_lt(
            #[trigger] items[a].outpoint,
            #[trigger] items[b].outpoint,
        ) by {
            let last = items.len() - 1;
            if b < last {
                assert(outpoint_lt(before[a].outpoint, before[b].outpoint));
            } else if a < last - 1 {
                assert(outpoint_lt(before[a].outpoint, before[last - 1].outpoint));
                assert(outpoint_lt(items[last - 1].outpoint, items[last - 1 + 1].outpoint));
                lemma_outpoint_lt_transitive(
                    items[a].outpoint,
                    items[last - 1].outpoint,
                    items[last].outpoint,
                );
            } else {
                assert(outpoint_lt(items[a].outpoint, items[a + 1].outpoint));
            }
        }
    }
}

/// The first `n` items hold no more inscriptions than all of them.
pub proof fn lemma_all_inscriptions_grow(items: Seq<OutpointInscriptionsView>, n: int)
    requires
        0 <= n <= items.len(),
    ensures
        all_inscriptions(items.take(n)).len() <= all_inscriptions(items).len(),
    decreases items.len() - n,
{
    if n < items.len() {
        lemma_all_inscriptions_grow(items, n + 1);
        assert(items.take(n + 1).drop_last() =~= items.take(n));
    } else {
        assert(items.take(n) =~= items);
    }
}

} // verus!
