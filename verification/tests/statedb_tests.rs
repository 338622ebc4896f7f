use rand::Rng;
use rooch_sequencer::hash::H256;
use rooch_sequencer::statedb::outpoint::OutPoint;
use rooch_sequencer::statedb::outpoint_inscriptions::{
    xxh3_outpoint, ObjectID, OutpointInscriptions, OutpointInscriptionsMap,
};
use std::cmp::Ordering;
use std::collections::HashSet;

/// A stream of random bytes: a counter scrambled from a random seed. The
/// seed comes from the system's generator; the stream is cheap enough for a
/// million outputs in an unoptimised build.
struct Stream(u64);

impl Stream {
    fn new() -> Stream {
        Stream(rand::thread_rng().gen())
    }

    fn next(&mut self) -> u64 {
        self.0 = self.0.wrapping_add(0x9e37_79b9_7f4a_7c15);
        let mut z = self.0;
        z = (z ^ (z >> 30)).wrapping_mul(0xbf58_476d_1ce4_e5b9);
        z = (z ^ (z >> 27)).wrapping_mul(0x94d0_49bb_1331_11eb);
        z ^ (z >> 31)
    }

    fn bytes(&mut self) -> [u8; 32] {
        let mut out = [0u8; 32];
        for chunk in out.chunks_exact_mut(8) {
            chunk.copy_from_slice(&self.next().to_le_bytes());
        }
        out
    }

    fn outpoint(&mut self) -> OutPoint {
        OutPoint { txid: self.bytes(), vout: self.next() as u32 }
    }
}

fn filter_of(map: &OutpointInscriptionsMap) -> xorf::BinaryFuse8 {
    xorf::BinaryFuse8::try_from(&map.outpoint_keys()).unwrap()
}

fn random_outpoint() -> OutPoint {
    Stream::new().outpoint()
}

// all outpoints are unique
fn random_outpoints(n: usize) -> Vec<OutPoint> {
    let mut stream = Stream::new();
    let mut outpoints = HashSet::with_capacity(n);
    while outpoints.len() < n {
        outpoints.insert(stream.outpoint());
    }
    outpoints.into_iter().collect()
}

// all inscriptions are unique
fn random_inscriptions(n: usize) -> Vec<ObjectID> {
    let mut stream = Stream::new();
    let mut inscriptions = HashSet::new();
    while inscriptions.len() < n {
        inscriptions.insert(H256(stream.bytes()));
    }
    inscriptions.into_iter().collect()
}

fn random_items_default(n: usize) -> Vec<OutpointInscriptions> {
    random_items(n, 2)
}

fn random_items(n: usize, inscriptions_per_outpoint: usize) -> Vec<OutpointInscriptions> {
    let mut items = Vec::new();
    let outpoints = random_outpoints(n);
    if inscriptions_per_outpoint == 0 {
        for outpoint in outpoints {
            items.push(OutpointInscriptions { outpoint, inscriptions: vec![] });
        }
        return items;
    }

    let inscriptions = random_inscriptions(n * inscriptions_per_outpoint);
    for (i, outpoint) in outpoints.iter().enumerate() {
        let start = i * inscriptions_per_outpoint;
        let end = start + inscriptions_per_outpoint;
        items.push(OutpointInscriptions {
            outpoint: *outpoint,
            inscriptions: inscriptions[start..end].to_vec(),
        });
    }
    items
}

fn bitcoin_outpoint(o: &OutPoint) -> bitcoin::OutPoint {
    bitcoin::OutPoint {
        txid: <bitcoin::Txid as bitcoin::hashes::Hash>::from_byte_array(o.txid),
        vout: o.vout,
    }
}

#[test]
fn outpoint_inscriptions_map_stats() {
    let items = random_items_default(10);
    let map = OutpointInscriptionsMap::new_with_unsorted(items);
    let (outpoint_count, inscription_count) = map.stats();
    assert_eq!(outpoint_count, 10);
    assert_eq!(inscription_count, 20);
}

#[test]
fn outpoint_inscriptions_map_is_sorted_and_merged() {
    let mut items = random_items_default(10);
    items[0] = items[9].clone(); // make it unmerged
    let mut map = OutpointInscriptionsMap::new(items, true);
    assert!(!map.is_sorted_and_merged());

    map.sort_and_merge();
    assert!(map.is_sorted_and_merged());
    assert_eq!((9, 20), map.stats());
    // check items is sorted manually
    let items = map.items();
    for i in 0..8 {
        assert!(items[i].outpoint.rank(&items[i + 1].outpoint) < 0);
    }
}

#[test]
fn contains_false_positive() {
    let sample_size = 1024 * 1024;
    let items = random_items(sample_size, 0);
    // won't search later, so it's ok to not sort and merge
    let mut map = OutpointInscriptionsMap::new(items.clone(), true);
    // a map of this size gets its filter from outside
    assert!(map.set_outpoint_filter(filter_of(&map)));
    // ensure no false negative
    for item in items.iter() {
        assert!(map.contains(&item.outpoint));
    }
    // false positive rate
    let mut stream = Stream::new();
    let false_positives: usize =
        (0..sample_size).map(|_| stream.outpoint()).filter(|n| map.contains(n)).count();
    let fp_rate: f64 = false_positives as f64 / sample_size as f64;
    assert!(fp_rate < 0.1, "False positive rate is {}", fp_rate); // < 10% is acceptable
}

#[test]
fn outpoint_inscriptions_map_search_not_found() {
    let map = OutpointInscriptionsMap::new_with_unsorted(Vec::new());
    let utxo = random_outpoint();
    assert!(map.search(&utxo).is_none());
}

#[test]
fn outpoint_inscriptions_map_search_found() {
    let items = random_items_default(10);

    let map = OutpointInscriptionsMap::new_with_unsorted(items.clone());
    for item in items.iter() {
        let inscriptions = map.search(&item.outpoint).unwrap();
        assert_eq!(inscriptions, item.inscriptions);
    }
}

#[test]
fn outpoint_inscriptions_map_search_found_merged() {
    let items = random_items_default(10);
    let mut unmerged_items = Vec::new();
    for item in items.iter() {
        let outpoint_inscriptions = OutpointInscriptions {
            outpoint: item.outpoint,
            inscriptions: vec![item.inscriptions[0].clone()],
        };
        unmerged_items.push(outpoint_inscriptions);
        let outpoint_inscriptions = OutpointInscriptions {
            outpoint: item.outpoint,
            inscriptions: vec![item.inscriptions[1].clone()],
        };
        unmerged_items.push(outpoint_inscriptions);
    }

    let map = OutpointInscriptionsMap::new_with_unsorted(unmerged_items);
    for item in items.iter() {
        let inscriptions = map.search(&item.outpoint).unwrap();
        assert_eq!(inscriptions, item.inscriptions);
    }
}

#[test]
fn merge_keeps_the_order_of_inscriptions() {
    let a = OutPoint { txid: [1u8; 32], vout: 0 };
    let b = OutPoint { txid: [0u8; 32], vout: 7 };
    let id = |n: u8| H256([n; 32]);
    let items = vec![
        OutpointInscriptions { outpoint: a, inscriptions: vec![id(1)] },
        OutpointInscriptions { outpoint: b, inscriptions: vec![id(2), id(3)] },
        OutpointInscriptions { outpoint: a, inscriptions: vec![] },
        OutpointInscriptions { outpoint: a, inscriptions: vec![id(4), id(5)] },
        OutpointInscriptions { outpoint: b, inscriptions: vec![id(6)] },
    ];
    let map = OutpointInscriptionsMap::new_with_unsorted(items);
    assert_eq!(
        map.items(),
        &vec![
            OutpointInscriptions { outpoint: b, inscriptions: vec![id(2), id(3), id(6)] },
            OutpointInscriptions { outpoint: a, inscriptions: vec![id(1), id(4), id(5)] },
        ]
    );
    assert_eq!(map.stats(), (2, 6));
    assert_eq!(map.search(&a), Some(vec![id(1), id(4), id(5)]));
    assert_eq!(map.search(&b), Some(vec![id(2), id(3), id(6)]));
    assert_eq!(map.search(&OutPoint { txid: [1u8; 32], vout: 1 }), None);
    assert_eq!(map.search(&OutPoint::unbound()), None);
    assert!(map.contains(&a));
    assert!(map.is_sorted_and_merged());
}

#[test]
fn sort_and_merge_of_nothing() {
    let mut map = OutpointInscriptionsMap::new(Vec::new(), true);
    assert!(map.is_sorted_and_merged());
    assert_eq!(map.sort_and_merge(), 0);
    assert_eq!(map.stats(), (0, 0));
    assert_eq!(map.search(&OutPoint::default()), None);
}

#[test]
fn outpoint_order_agrees_with_bitcoin() {
    let mut outpoints = random_outpoints(200);
    // Neighbours that differ late, or in the index alone.
    let base = outpoints[0];
    let mut late = base;
    late.txid[31] = late.txid[31].wrapping_add(1);
    outpoints.push(late);
    outpoints.push(OutPoint { txid: base.txid, vout: base.vout.wrapping_add(1) });
    outpoints.push(base);
    for a in &outpoints {
        for b in &outpoints {
            let expected = bitcoin_outpoint(a).cmp(&bitcoin_outpoint(b));
            assert_eq!(a.compare_outpoints(b), expected);
            let rank = a.rank(b);
            assert_eq!(rank.cmp(&0), expected);
            assert_eq!(a == b, expected == Ordering::Equal);
        }
    }
}

#[test]
fn unbound_outpoint_is_all_zero() {
    let unbound = OutPoint::unbound();
    assert_eq!(unbound, OutPoint { txid: [0u8; 32], vout: 0 });
    let reference = bitcoin::OutPoint {
        txid: <bitcoin::Txid as bitcoin::hashes::Hash>::all_zeros(),
        vout: 0,
    };
    assert_eq!(bitcoin_outpoint(&unbound), reference);
}

#[test]
fn hash_key_is_xxh3_of_txid_and_index() {
    let outpoint = OutPoint { txid: [0xabu8; 32], vout: 0x01020304 };
    let mut bytes = vec![0xabu8; 32];
    bytes.extend_from_slice(&[4, 3, 2, 1]);
    let expected = xxhash_rust::xxh3::xxh3_64(&bytes);
    assert_eq!(xxh3_outpoint(&outpoint), expected);
    assert_ne!(expected, 0x01020304);
    let item = OutpointInscriptions { outpoint, inscriptions: vec![] };
    assert_eq!(item.hash_key(), expected);
    let other = OutPoint { txid: [0xabu8; 32], vout: 0x01020305 };
    assert_ne!(xxh3_outpoint(&other), expected);
}

#[test]
fn a_map_without_filter_lets_everything_pass() {
    let items = random_items_default(100);
    let map = OutpointInscriptionsMap::new_with_unsorted(items.clone());
    assert!(!map.has_filter());
    for item in items.iter() {
        assert!(map.contains(&item.outpoint));
    }
    let mut stream = Stream::new();
    for _ in 0..100 {
        let outpoint = stream.outpoint();
        assert!(map.contains(&outpoint));
        assert_eq!(map.search(&outpoint), None);
    }
}

#[test]
fn small_maps_build_their_own_filter() {
    let mut stream = Stream::new();
    for n in [0, 1, 2, 10, 63] {
        let items = random_items_default(n);
        let mut map = OutpointInscriptionsMap::new_with_unsorted(items.clone());
        assert!(map.has_filter());
        for item in items.iter() {
            assert!(map.contains(&item.outpoint));
            assert_eq!(map.search(&item.outpoint), Some(item.inscriptions.clone()));
        }
        let rejected = (0..1000).filter(|_| !map.contains(&stream.outpoint())).count();
        assert!(rejected > 900);
        // Building once more gives a filter again.
        assert!(map.add_outpoint_filter());
        assert!(map.has_filter());
    }
    for n in [64, 65, 200] {
        let mut map = OutpointInscriptionsMap::new_with_unsorted(random_items_default(n));
        assert!(!map.has_filter());
        assert!(!map.add_outpoint_filter());
        assert!(!map.has_filter());
    }
    // Items that share outputs count once.
    let mut items = random_items_default(63);
    items.extend(items.clone());
    let map = OutpointInscriptionsMap::new(items, true);
    assert_eq!(map.stats().0, 126);
    assert!(map.has_filter());
}

#[test]
fn outpoint_keys_holds_each_key_once() {
    let a = OutPoint { txid: [1u8; 32], vout: 0 };
    let b = OutPoint { txid: [0u8; 32], vout: 7 };
    let c = OutPoint { txid: [9u8; 32], vout: 1 };
    let item = |outpoint: OutPoint| OutpointInscriptions { outpoint, inscriptions: vec![] };
    // Taken as they stand: neither sorted nor merged.
    let map = OutpointInscriptionsMap::new(vec![item(a), item(b), item(a), item(c), item(b)], true);
    assert_eq!(
        map.outpoint_keys(),
        vec![xxh3_outpoint(&a), xxh3_outpoint(&b), xxh3_outpoint(&c)]
    );
    assert!(OutpointInscriptionsMap::new(Vec::new(), true).outpoint_keys().is_empty());
}

#[test]
fn a_filter_is_added_only_if_every_output_passes() {
    let items = random_items_default(100);
    let mut map = OutpointInscriptionsMap::new_with_unsorted(items.clone());
    assert!(!map.has_filter());

    // A filter of other keys misses outputs of the map, and is refused.
    let mut stream = Stream::new();
    let strangers: Vec<u64> = (0..100).map(|_| stream.next()).collect();
    let refused = xorf::BinaryFuse8::try_from(&strangers).unwrap();
    let misses = items
        .iter()
        .any(|item| !xorf::Filter::contains(&refused, &xxh3_outpoint(&item.outpoint)));
    assert!(misses);
    assert!(!map.set_outpoint_filter(refused));
    assert!(!map.has_filter());
    for _ in 0..100 {
        assert!(map.contains(&stream.outpoint()));
    }

    // The filter of the map's own keys is taken, and answers from then on.
    let filter = filter_of(&map);
    let answers = filter.clone();
    assert!(map.set_outpoint_filter(filter));
    assert!(map.has_filter());
    for item in items.iter() {
        assert!(map.contains(&item.outpoint));
        assert_eq!(map.search(&item.outpoint), Some(item.inscriptions.clone()));
    }
    for _ in 0..1000 {
        let outpoint = stream.outpoint();
        assert_eq!(
            map.contains(&outpoint),
            xorf::Filter::contains(&answers, &xxh3_outpoint(&outpoint))
        );
        assert_eq!(map.search(&outpoint), None);
    }

    // A filter that is refused leaves the one that is there.
    let refused = xorf::BinaryFuse8::try_from(&strangers).unwrap();
    assert!(!map.set_outpoint_filter(refused));
    assert!(map.has_filter());
    let rejected = (0..1000).filter(|_| !map.contains(&stream.outpoint())).count();
    assert!(rejected > 900);
}

#[test]
fn sort_and_merge_keeps_the_filter() {
    let mut items = random_items_default(10);
    items[0] = items[9].clone();
    let mut map = OutpointInscriptionsMap::new(items.clone(), true);
    assert!(map.has_filter());
    assert_eq!(map.sort_and_merge(), 9);
    assert!(map.has_filter());
    for item in items.iter() {
        assert!(map.contains(&item.outpoint));
        assert!(map.search(&item.outpoint).is_some());
    }
    let mut stream = Stream::new();
    let rejected = (0..1000).filter(|_| !map.contains(&stream.outpoint())).count();
    assert!(rejected > 900);
}
