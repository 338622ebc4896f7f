use fastcrypto::traits::{KeyPair, ToFromBytes, VerifyingKey};
use rooch_sequencer::accumulator::{
    AccumulatorError, AccumulatorInfo, MerkleAccumulator, MAX_ACCUMULATOR_LEAVES,
};
use rooch_sequencer::codec::{EncodeError, MAX_SEQUENCE_LENGTH};
use rooch_sequencer::crypto::{verify_order_signature, RoochKeyPair};
use rooch_sequencer::hash::H256;
use rooch_sequencer::ledger_transaction::{
    L1Block, LedgerTransaction, LedgerTxData, RoochTransaction,
};
use rooch_sequencer::sequencer::{
    SequenceError, SequenceWrites, SequencerActor, SequencerInfo, StartupError,
};
use rooch_sequencer::service_status::{AdmissionError, ServiceStatus};

const SECRET: [u8; 32] = [7u8; 32];

fn sha3(data: &[u8]) -> [u8; 32] {
    <fastcrypto::hash::Sha3_256 as fastcrypto::hash::HashFunction<32>>::digest(data).digest
}

fn genesis() -> SequencerInfo {
    SequencerInfo::new(0, AccumulatorInfo::empty())
}

fn actor(status: ServiceStatus) -> SequencerActor {
    SequencerActor::new(RoochKeyPair::from_secret(SECRET), Some(genesis()), status).unwrap()
}

fn l2(sender: H256, n: u64) -> LedgerTxData {
    LedgerTxData::L2Tx(RoochTransaction {
        sender,
        sequence_number: n,
        l1_originated: false,
        payload: vec![n as u8; 10],
    })
}

fn l1_tx(n: u64) -> LedgerTxData {
    LedgerTxData::L2Tx(RoochTransaction {
        sender: H256([5u8; 32]),
        sequence_number: n,
        l1_originated: true,
        payload: vec![1, 2, 3],
    })
}

fn block(height: u64) -> LedgerTxData {
    LedgerTxData::L1Block(L1Block { chain_id: 0, block_height: height, block_hash: vec![9; 32] })
}

/// A store that keeps what it is asked to write.
#[derive(Default)]
struct MemoryStore {
    leaves: Vec<H256>,
    sequencer_info: Option<SequencerInfo>,
    transactions: Vec<LedgerTransaction>,
    fail_next_write: bool,
}

impl MemoryStore {
    fn write(&mut self, writes: &SequenceWrites) -> Result<(), String> {
        if self.fail_next_write {
            self.fail_next_write = false;
            return Err("disk full".to_string());
        }
        self.leaves.extend(writes.accumulator_leaves.iter().copied());
        self.sequencer_info = Some(writes.sequencer_info.duplicate());
        self.transactions.push(writes.transaction.clone());
        Ok(())
    }
}

/// What a host does with a submission: sequence, write, then commit or roll back.
fn submit(
    actor: &mut SequencerActor,
    store: &mut MemoryStore,
    data: LedgerTxData,
    now: u64,
) -> Result<LedgerTransaction, String> {
    let writes = actor.sequence(data, now).map_err(|e| format!("{:?}", e))?;
    match store.write(&writes) {
        Ok(()) => {
            actor.commit();
            Ok(writes.transaction)
        }
        Err(e) => {
            actor.rollback();
            Err(e)
        }
    }
}

#[test]
fn three_l2_transactions_get_orders_one_two_three() {
    let mut actor = actor(ServiceStatus::Active);
    let mut store = MemoryStore::default();
    assert_eq!(actor.last_order(), 0);
    let mut orders = vec![];
    for n in 0..3 {
        let tx = submit(&mut actor, &mut store, l2(H256([1u8; 32]), n), 1000 + n).unwrap();
        orders.push(tx.sequence_info.tx_order);
        assert_eq!(tx.sequence_info.tx_timestamp, 1000 + n);
    }
    assert_eq!(orders, vec![1, 2, 3]);
    assert_eq!(store.transactions.len(), 3);
    assert_eq!(actor.last_order(), 3);
    assert_eq!(store.sequencer_info.as_ref().unwrap().last_order, 3);
    assert_eq!(store.leaves.len(), 3);
}

#[test]
fn orders_are_gapless_from_any_start() {
    let start = 41;
    let mut actor = SequencerActor::new(
        RoochKeyPair::from_secret(SECRET),
        Some(SequencerInfo::new(start, AccumulatorInfo::empty())),
        ServiceStatus::DateImportMode,
    )
    .unwrap();
    let mut store = MemoryStore::default();
    let mut accepted = 0;
    for n in 0..20u64 {
        // Every third submission is not admitted and gets no order.
        let data = match n % 3 {
            0 => block(n),
            1 => l2(H256([1u8; 32]), n),
            _ => l1_tx(n),
        };
        match submit(&mut actor, &mut store, data, n) {
            Ok(tx) => {
                accepted += 1;
                assert_eq!(tx.sequence_info.tx_order, start + accepted);
                assert_ne!(n % 3, 1);
            }
            Err(_) => assert_eq!(n % 3, 1),
        }
        assert_eq!(actor.last_order(), start + accepted);
    }
    assert_eq!(accepted, 13);
    assert_eq!(store.transactions.len(), 13);
}

#[test]
fn sequenced_transaction_is_exact() {
    let mut actor = actor(ServiceStatus::Active);
    let data = block(77);
    let hash = data.tx_hash().unwrap();
    let writes = actor.sequence(data.clone(), 123_456).unwrap();
    let tx = &writes.transaction;
    assert_eq!(tx.data, data);
    assert_eq!(tx.sequence_info.tx_order, 1);
    assert_eq!(tx.sequence_info.tx_timestamp, 123_456);
    // One leaf: the root of the accumulator is the leaf.
    assert_eq!(tx.sequence_info.tx_accumulator_root, hash);
    assert_eq!(writes.accumulator_leaves, vec![hash]);
    assert_eq!(writes.sequencer_info.last_order, 1);
    assert_eq!(
        writes.sequencer_info.last_accumulator_info,
        AccumulatorInfo { accumulator_root: hash, frozen_subtree_roots: vec![hash], num_leaves: 1 }
    );
    assert!(tx.is_encodable());
    assert_eq!(LedgerTransaction::decode(&tx.encode()).unwrap(), *tx);
}

#[test]
fn order_signature_binds_hash_and_order() {
    let mut actor = actor(ServiceStatus::Active);
    let mut store = MemoryStore::default();
    let pair = RoochKeyPair::from_secret(SECRET);
    let public_key = pair.public();
    for n in 0..3 {
        let tx = submit(&mut actor, &mut store, l2(H256([1u8; 32]), n), n).unwrap();
        let hash = tx.tx_hash().unwrap();
        let order = tx.sequence_info.tx_order;
        let signature = &tx.sequence_info.tx_order_signature;
        assert_eq!(signature.len(), 64);
        assert!(verify_order_signature(&public_key, &hash, order, signature));
        // Another order, another hash, another key: none verifies.
        assert!(!verify_order_signature(&public_key, &hash, order + 1, signature));
        assert!(!verify_order_signature(&public_key, &H256([0u8; 32]), order, signature));
        let other = RoochKeyPair::from_secret([8u8; 32]).public();
        assert!(!verify_order_signature(&other, &hash, order, signature));

        // The same check with the signature library itself.
        let mut witness = hash.0.to_vec();
        witness.extend_from_slice(&order.to_le_bytes());
        let digest = sha3(&witness);
        let key = fastcrypto::ed25519::Ed25519PublicKey::from_bytes(&public_key).unwrap();
        let sig = fastcrypto::ed25519::Ed25519Signature::from_bytes(signature).unwrap();
        assert!(key.verify(&digest, &sig).is_ok());
    }
}

#[test]
fn key_pair_matches_the_signature_library() {
    let pair = RoochKeyPair::from_secret(SECRET);
    let reference = fastcrypto::ed25519::Ed25519KeyPair::from_bytes(&SECRET).unwrap();
    assert_eq!(pair.public(), reference.public().as_ref().to_vec());
    assert_ne!(pair.public(), SECRET.to_vec());
    assert_eq!(pair.rooch_address(), H256(sha3(reference.public().as_ref())));
    let hash = H256([4u8; 32]);
    assert_eq!(pair.sign_order(&hash, 9), pair.sign_order(&hash, 9));
    assert_ne!(pair.sign_order(&hash, 9), pair.sign_order(&hash, 10));
    assert!(!verify_order_signature(&pair.public(), &hash, 9, &[0u8; 63]));
    assert!(!verify_order_signature(&[1u8; 5], &hash, 9, &pair.sign_order(&hash, 9)));
}

#[test]
fn read_only_mode_rejects_everything() {
    let mut actor = actor(ServiceStatus::ReadOnlyMode);
    let own = actor.sequencer_address();
    for data in [block(1), l1_tx(1), l2(own, 1), l2(H256([1u8; 32]), 1)] {
        assert_eq!(
            actor.sequence(data, 5),
            Err(SequenceError::Admission(AdmissionError::ReadOnlyMode))
        );
        assert_eq!(actor.last_order(), 0);
        assert!(!actor.has_staged());
    }
    assert_eq!(actor.last_sequencer_info(), genesis());
}

#[test]
fn date_import_mode_admits_only_the_base_layer() {
    let mut actor = actor(ServiceStatus::DateImportMode);
    let mut store = MemoryStore::default();
    assert_eq!(
        actor.sequence(l2(H256([1u8; 32]), 1), 5),
        Err(SequenceError::Admission(AdmissionError::DateImportMode))
    );
    assert_eq!(actor.last_order(), 0);
    assert_eq!(submit(&mut actor, &mut store, block(3), 5).unwrap().sequence_info.tx_order, 1);
    assert_eq!(submit(&mut actor, &mut store, l1_tx(3), 5).unwrap().sequence_info.tx_order, 2);
}

#[test]
fn maintenance_mode_admits_only_the_sequencer() {
    let mut actor = actor(ServiceStatus::Maintenance);
    let mut store = MemoryStore::default();
    let own = actor.sequencer_address();
    assert_eq!(own, RoochKeyPair::from_secret(SECRET).rooch_address());
    for data in [block(1), l1_tx(1), l2(H256([1u8; 32]), 1)] {
        assert_eq!(
            actor.sequence(data, 5),
            Err(SequenceError::Admission(AdmissionError::Maintenance))
        );
        assert_eq!(actor.last_order(), 0);
    }
    let tx = submit(&mut actor, &mut store, l2(own, 1), 5).unwrap();
    assert_eq!(tx.sequence_info.tx_order, 1);
    assert_eq!(actor.last_order(), 1);
}

#[test]
fn status_changes_hold_from_the_next_submission() {
    let mut actor = actor(ServiceStatus::default());
    let mut store = MemoryStore::default();
    assert_eq!(actor.service_status(), ServiceStatus::Active);
    submit(&mut actor, &mut store, l2(H256([1u8; 32]), 0), 1).unwrap();
    actor.set_status(ServiceStatus::ReadOnlyMode);
    assert_eq!(actor.service_status(), ServiceStatus::ReadOnlyMode);
    assert!(submit(&mut actor, &mut store, l2(H256([1u8; 32]), 1), 2).is_err());
    actor.set_status(ServiceStatus::Active);
    let tx = submit(&mut actor, &mut store, l2(H256([1u8; 32]), 2), 3).unwrap();
    assert_eq!(tx.sequence_info.tx_order, 2);
}

#[test]
fn admission_messages() {
    assert_eq!(AdmissionError::ReadOnlyMode.message(), "The service is in read-only mode");
    assert_eq!(
        AdmissionError::DateImportMode.message(),
        "The service is in date import mode, only allow l1 block and l1 tx"
    );
    assert_eq!(AdmissionError::Maintenance.message(), "The service is in maintenance mode");
}

#[test]
fn last_order_advances_only_on_commit() {
    let mut actor = actor(ServiceStatus::Active);
    let writes = actor.sequence(block(1), 1).unwrap();
    assert_eq!(writes.transaction.sequence_info.tx_order, 1);
    assert_eq!(actor.last_order(), 0);
    assert!(actor.has_staged());
    // Nothing else is sequenced while the writes are under way.
    assert_eq!(actor.sequence(block(2), 2), Err(SequenceError::PersistencePending));
    actor.commit();
    assert!(!actor.has_staged());
    assert_eq!(actor.last_order(), 1);
    assert_eq!(actor.last_sequencer_info(), writes.sequencer_info);
    // A commit without staged writes changes nothing.
    actor.commit();
    assert_eq!(actor.last_order(), 1);
}

#[test]
fn failed_writes_skip_no_order() {
    let mut actor = actor(ServiceStatus::Active);
    let mut store = MemoryStore::default();
    let first = submit(&mut actor, &mut store, block(1), 1).unwrap();
    let before = actor.last_sequencer_info();

    store.fail_next_write = true;
    assert!(submit(&mut actor, &mut store, block(2), 2).is_err());
    assert_eq!(actor.last_order(), 1);
    assert_eq!(actor.last_sequencer_info(), before);
    assert!(!actor.has_staged());
    assert_eq!(store.transactions.len(), 1);

    // The retry gets the order that the failed attempt had, and the same
    // accumulator root as if the failure had not been.
    let retry = submit(&mut actor, &mut store, block(2), 3).unwrap();
    assert_eq!(retry.sequence_info.tx_order, 2);
    let mut reference = SequencerActor::new(
        RoochKeyPair::from_secret(SECRET),
        Some(genesis()),
        ServiceStatus::Active,
    )
    .unwrap();
    let mut other = MemoryStore::default();
    assert_eq!(submit(&mut reference, &mut other, block(1), 1).unwrap(), first);
    let expected = submit(&mut reference, &mut other, block(2), 3).unwrap();
    assert_eq!(retry, expected);
    // A rollback without staged writes changes nothing.
    actor.rollback();
    assert_eq!(actor.last_order(), 2);
}

#[test]
fn restart_resumes_order_and_accumulator() {
    let mut actor = actor(ServiceStatus::Active);
    let mut store = MemoryStore::default();
    for n in 0..5 {
        submit(&mut actor, &mut store, l2(H256([1u8; 32]), n), n).unwrap();
    }
    let checkpoint = store.sequencer_info.as_ref().unwrap().duplicate();
    assert_eq!(checkpoint, actor.last_sequencer_info());

    let mut restarted = SequencerActor::new(
        RoochKeyPair::from_secret(SECRET),
        Some(checkpoint),
        ServiceStatus::Active,
    )
    .unwrap();
    assert_eq!(restarted.last_order(), actor.last_order());
    assert_eq!(restarted.last_order(), 5);
    assert_eq!(
        restarted.last_sequencer_info().last_accumulator_info.accumulator_root,
        actor.last_sequencer_info().last_accumulator_info.accumulator_root
    );
    assert_eq!(restarted.last_sequencer_info(), actor.last_sequencer_info());
    // Both go on alike.
    let a = actor.sequence(block(9), 9).unwrap();
    let b = restarted.sequence(block(9), 9).unwrap();
    assert_eq!(a, b);
    assert_eq!(a.transaction.sequence_info.tx_order, 6);
}

#[test]
fn startup_needs_a_checkpoint() {
    let missing =
        SequencerActor::new(RoochKeyPair::from_secret(SECRET), None, ServiceStatus::Active);
    assert!(matches!(missing, Err(StartupError::MissingSequencerInfo)));
}

#[test]
fn startup_takes_every_checkpoint() {
    // The root on record is not the root of the frozen subtrees.
    let mut wrong_root = AccumulatorInfo::empty();
    wrong_root.accumulator_root = H256([1u8; 32]);
    // One leaf and no frozen subtree.
    let no_root = AccumulatorInfo {
        accumulator_root: H256([0u8; 32]),
        frozen_subtree_roots: vec![],
        num_leaves: 1,
    };
    // More leaves than an accumulator holds.
    let too_many = AccumulatorInfo {
        accumulator_root: H256([2u8; 32]),
        frozen_subtree_roots: vec![H256([2u8; 32])],
        num_leaves: u64::MAX,
    };
    for info in [AccumulatorInfo::empty(), wrong_root.duplicate(), no_root.duplicate(), too_many] {
        for status in [
            ServiceStatus::Active,
            ServiceStatus::Maintenance,
            ServiceStatus::ReadOnlyMode,
            ServiceStatus::DateImportMode,
        ] {
            let checkpoint = SequencerInfo::new(3, info.duplicate());
            let actor = SequencerActor::new(
                RoochKeyPair::from_secret(SECRET),
                Some(checkpoint.duplicate()),
                status,
            )
            .unwrap();
            assert_eq!(actor.last_order(), 3);
            assert_eq!(actor.last_sequencer_info(), checkpoint);
            assert_eq!(actor.service_status(), status);
            assert!(!actor.has_staged());
            assert_eq!(
                actor.sequencer_address(),
                RoochKeyPair::from_secret(SECRET).rooch_address()
            );
        }
    }

    // Frozen subtrees that cannot carry an append: the submission is
    // refused, and no order is given out.
    let checkpoint = SequencerInfo::new(3, no_root);
    let mut actor = SequencerActor::new(
        RoochKeyPair::from_secret(SECRET),
        Some(checkpoint.duplicate()),
        ServiceStatus::Active,
    )
    .unwrap();
    for _ in 0..2 {
        assert_eq!(
            actor.sequence(block(1), 1),
            Err(SequenceError::Accumulator(AccumulatorError::FrozenSubtreeCountMismatch))
        );
        assert_eq!(actor.last_order(), 3);
        assert_eq!(actor.last_sequencer_info(), checkpoint);
        assert!(!actor.has_staged());
    }

    // A wrong root on record does not stand in the way: the next
    // checkpoint has the root of the frozen subtrees.
    let mut store = MemoryStore::default();
    let mut actor = SequencerActor::new(
        RoochKeyPair::from_secret(SECRET),
        Some(SequencerInfo::new(3, wrong_root)),
        ServiceStatus::Active,
    )
    .unwrap();
    let tx = submit(&mut actor, &mut store, block(1), 1).unwrap();
    assert_eq!(tx.sequence_info.tx_order, 4);
    assert_eq!(actor.last_order(), 4);
    let mut fresh = MerkleAccumulator::new();
    let root = fresh.append(&[tx.data.tx_hash().unwrap()]).unwrap();
    assert_eq!(tx.sequence_info.tx_accumulator_root, root);
    assert_eq!(actor.last_sequencer_info(), SequencerInfo::new(4, fresh.get_info()));
}

#[test]
fn maintenance_mode_with_exhausted_orders_admits_nobody() {
    let mut last = SequencerActor::new(
        RoochKeyPair::from_secret(SECRET),
        Some(SequencerInfo::new(u64::MAX, AccumulatorInfo::empty())),
        ServiceStatus::Maintenance,
    )
    .unwrap();
    let own = last.sequencer_address();
    // The sequencer's own sender passes admission, and finds no order left.
    assert_eq!(last.sequence(l2(own, 1), 1), Err(SequenceError::OrderExhausted));
    assert_eq!(
        last.sequence(l2(H256([1u8; 32]), 1), 1),
        Err(SequenceError::Admission(AdmissionError::Maintenance))
    );
    assert_eq!(
        last.sequence(block(1), 1),
        Err(SequenceError::Admission(AdmissionError::Maintenance))
    );
    assert_eq!(last.last_order(), u64::MAX);
    assert!(!last.has_staged());
}

#[test]
fn exhausted_orders_and_full_accumulator() {
    let mut last = SequencerActor::new(
        RoochKeyPair::from_secret(SECRET),
        Some(SequencerInfo::new(u64::MAX, AccumulatorInfo::empty())),
        ServiceStatus::Active,
    )
    .unwrap();
    assert_eq!(last.sequence(block(1), 1), Err(SequenceError::OrderExhausted));
    assert_eq!(last.last_order(), u64::MAX);

    let full = AccumulatorInfo {
        accumulator_root: H256([2u8; 32]),
        frozen_subtree_roots: vec![H256([2u8; 32])],
        num_leaves: MAX_ACCUMULATOR_LEAVES,
    };
    let mut actor = SequencerActor::new(
        RoochKeyPair::from_secret(SECRET),
        Some(SequencerInfo::new(10, full.duplicate())),
        ServiceStatus::Active,
    )
    .unwrap();
    assert_eq!(
        actor.sequence(block(1), 1),
        Err(SequenceError::Accumulator(AccumulatorError::TooManyLeaves))
    );
    assert_eq!(actor.last_sequencer_info(), SequencerInfo::new(10, full));
    assert!(!actor.has_staged());
}

#[test]
fn data_without_encoding_is_not_sequenced() {
    let mut actor = actor(ServiceStatus::Active);
    let data = LedgerTxData::L1Block(L1Block {
        chain_id: 0,
        block_height: 0,
        block_hash: vec![0u8; MAX_SEQUENCE_LENGTH + 1],
    });
    assert!(matches!(
        actor.sequence(data, 1),
        Err(SequenceError::Encoding(EncodeError::ExceededMaxLen))
    ));
    assert_eq!(actor.last_order(), 0);
    assert!(!actor.has_staged());
}
