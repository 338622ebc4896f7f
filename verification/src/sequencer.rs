//! The sequencer: the single writer that admits submissions, gives each the
//! next order, attests to it and drives the transaction accumulator.
//!
//! The sequencer performs no input or output. `sequence` decides everything
//! about a submission and returns what has to be written to durable storage;
//! the host writes it and reports back with `commit` or `rollback`. Until
//! then the checkpoint that `last_order` reads is the last durable one.

use crate::accumulator::{
    digests, lemma_append_all_single, lemma_append_all_wf, lemma_append_wf, lemma_info_restores,
    AccumulatorError, AccumulatorInfo, AccumulatorInfoView, AccumulatorView, MerkleAccumulator,
};
use crate::codec::EncodeError;
use crate::crypto::{
    address_of, ed25519_public_key, order_signature, order_signature_verifies, RoochKeyPair,
};
use crate::hash::H256;
use crate::ledger_transaction::{
    LedgerTransaction, LedgerTransactionView, LedgerTxData, LedgerTxDataView,
    TransactionSequenceInfo, TransactionSequenceInfoView,
};
use crate::service_status::{admission, check_admission, AdmissionError, ServiceStatus};
use vstd::prelude::*;

verus! {

/// The durable checkpoint of sequencing progress.
#[derive(Clone, Debug, Eq, PartialEq)]
pub struct SequencerInfo {
    pub last_order: u64,
    pub last_accumulator_info: AccumulatorInfo,
}

/// Mathematical value of a `SequencerInfo`.
pub struct SequencerInfoView {
    pub last_order: u64,
    pub last_accumulator_info: AccumulatorInfoView,
}

impl View for SequencerInfo {
    type V = SequencerInfoView;

    open spec fn view(&self) -> SequencerInfoView {
        SequencerInfoView {
            last_order: self.last_order,
            last_accumulator_info: self.last_accumulator_info@,
        }
    }
}

impl SequencerInfo {
    /// The checkpoint with the given parts.
    pub fn new(last_order: u64, last_accumulator_info: AccumulatorInfo) -> (info: SequencerInfo)
        ensures
            info == (SequencerInfo { last_order, last_accumulator_info }),
    {
        SequencerInfo { last_order, last_accumulator_info }
    }

    /// A copy of the checkpoint.
    pub fn duplicate(&self) -> (copy: SequencerInfo)
        ensures
            copy@ == self@,
    {
        SequencerInfo {
            last_order: self.last_order,
            last_accumulator_info: self.last_accumulator_info.duplicate(),
        }
    }
}

/// What a successful `sequence` asks the host to write to durable storage,
/// in this order: the accumulator leaves, then the checkpoint, then the
/// transaction.
#[derive(Clone, Debug, Eq, PartialEq)]
pub struct SequenceWrites {
    pub accumulator_leaves: Vec<H256>,
    pub sequencer_info: SequencerInfo,
    pub transaction: LedgerTransaction,
}

/// Mathematical value of a `SequenceWrites`.
pub struct SequenceWritesView {
    pub accumulator_leaves: Seq<Seq<u8>>,
    pub sequencer_info: SequencerInfoView,
    pub transaction: LedgerTransactionView,
}

impl View for SequenceWrites {
    type V = SequenceWritesView;

    open spec fn view(&self) -> SequenceWritesView {
        SequenceWritesView {
            accumulator_leaves: digests(self.accumulator_leaves@),
            sequencer_info: self.sequencer_info@,
            transaction: self.transaction@,
        }
    }
}

/// Why the sequencer could not start.
#[derive(Clone, Copy, Debug, PartialEq, Eq, Structural)]
pub enum StartupError {
    /// The store holds no checkpoint.
    MissingSequencerInfo,
}

/// Why a submission was not sequenced.
#[derive(Clone, Copy, Debug, PartialEq, Eq, Structural)]
pub enum SequenceError {
    /// The service status does not admit the submission.
    Admission(AdmissionError),
    /// The writes of the previous submission are neither committed nor
    /// rolled back.
    PersistencePending,
    /// Every order has been given out.
    OrderExhausted,
    /// The submission has no encoding, hence no hash.
    Encoding(EncodeError),
    /// The accumulator cannot take the transaction hash: it is full, or the
    /// frozen subtrees of the checkpoint are not those of its number of
    /// leaves.
    Accumulator(AccumulatorError),
}

/// Mathematical value of the sequencer.
pub struct SequencerView {
    /// The last durable checkpoint.
    pub checkpoint: SequencerInfoView,
    /// The checkpoint that is being written, if one is.
    pub staged: Option<SequencerInfoView>,
    /// The secret key.
    pub secret: Seq<u8>,
    /// The service status.
    pub status: ServiceStatus,
}

impl SequencerView {
    /// What is staged follows the durable checkpoint: its order is the
    /// next one, and its accumulator checkpoint is valid. The durable
    /// checkpoint is whatever the store held.
    pub open spec fn wf(self) -> bool {
        self.staged matches Some(s) ==> s.last_order == self.checkpoint.last_order + 1
            && s.last_accumulator_info.valid()
    }

    /// The order of the last transaction of the durable checkpoint.
    pub open spec fn last_order(self) -> u64 {
        self.checkpoint.last_order
    }

    /// The accumulator of the durable checkpoint.
    pub open spec fn accumulator(self) -> AccumulatorView {
        self.checkpoint.last_accumulator_info.state()
    }

    /// The public key under which order signatures verify.
    pub open spec fn public_key(self) -> Seq<u8> {
        ed25519_public_key(self.secret)
    }

    /// The sequencer's own address.
    pub open spec fn address(self) -> Seq<u8> {
        address_of(self.secret)
    }

    /// What `sequence` decides for a submission at time `tx_timestamp`:
    /// the first obstacle in the order admission, pending writes, exhausted
    /// orders, missing encoding, an accumulator that cannot take a leaf; or,
    /// without obstacle, the writes. The transaction gets the order after the last one, the
    /// signature over its hash and that order, the root of the accumulator
    /// with its hash appended, and the timestamp.
    pub open spec fn sequence(self, data: LedgerTxDataView, tx_timestamp: u64) -> Result<
        SequenceWritesView,
        SequenceError,
    > {
        match admission(self.status, data, self.address()) {
            Err(e) => Err(SequenceError::Admission(e)),
            Ok(_) => if self.staged is Some {
                Err(SequenceError::PersistencePending)
            } else if self.last_order() == u64::MAX {
                Err(SequenceError::OrderExhausted)
            } else if !data.encodable() {
                Err(SequenceError::Encoding(EncodeError::ExceededMaxLen))
            } else if self.accumulator().room_for(1) is Err {
                Err(SequenceError::Accumulator(self.accumulator().room_for(1)->Err_0))
            } else {
                let tx_order = (self.last_order() + 1) as u64;
                let tx_hash = data.tx_hash();
                let accumulator = self.accumulator().append(tx_hash);
                Ok(
                    SequenceWritesView {
                        accumulator_leaves: seq![tx_hash],
                        sequencer_info: SequencerInfoView {
                            last_order: tx_order,
                            last_accumulator_info: accumulator.info(),
                        },
                        transaction: LedgerTransactionView {
                            data,
                            sequence_info: TransactionSequenceInfoView {
                                tx_order,
                                tx_order_signature: order_signature(self.secret, tx_hash, tx_order),
                                tx_accumulator_root: accumulator.root(),
                                tx_timestamp,
                            },
                        },
                    },
                )
            },
        }
    }

    /// The sequencer once the writes of `sequence` are under way.
    pub open spec fn stage(self, writes: SequenceWritesView) -> SequencerView {
        SequencerView { staged: Some(writes.sequencer_info), ..self }
    }

    /// The sequencer once the staged checkpoint is durable.
    pub open spec fn commit(self) -> SequencerView {
        match self.staged {
            Some(s) => SequencerView { checkpoint: s, staged: None, ..self },
            None => self,
        }
    }

    /// The sequencer once the staged checkpoint is given up.
    pub open spec fn rollback(self) -> SequencerView {
        SequencerView { staged: None, ..self }
    }

    /// The sequencer after a submission whose writes, if it is accepted,
    /// succeed.
    pub open spec fn submit(self, data: LedgerTxDataView, tx_timestamp: u64) -> SequencerView {
        match self.sequence(data, tx_timestamp) {
            Ok(writes) => self.stage(writes).commit(),
            Err(_) => self,
        }
    }

    /// The sequencer after a run of submissions, each with its timestamp.
    pub open spec fn submit_all(self, submissions: Seq<(LedgerTxDataView, u64)>) -> SequencerView
        decreases submissions.len(),
    {
        if submissions.len() == 0 {
            self
        } else {
            let (data, tx_timestamp) = submissions.last();
            self.submit_all(submissions.drop_last()).submit(data, tx_timestamp)
        }
    }

    /// The orders given to the accepted submissions of a run, in the order
    /// of submission.
    pub open spec fn orders_of(self, submissions: Seq<(LedgerTxDataView, u64)>) -> Seq<u64>
        decreases submissions.len(),
    {
        if submissions.len() == 0 {
            Seq::empty()
        } else {
            let (data, tx_timestamp) = submissions.last();
            let before = submissions.drop_last();
            match self.submit_all(before).sequence(data, tx_timestamp) {
                Ok(writes) => self.orders_of(before).push(
                    writes.transaction.sequence_info.tx_order,
                ),
                Err(_) => self.orders_of(before),
            }
        }
    }
}

/// What `SequencerActor::new` decides: there must be a checkpoint, and
/// every checkpoint will do.
pub open spec fn startup(
    secret: Seq<u8>,
    info: Option<SequencerInfoView>,
    status: ServiceStatus,
) -> Result<SequencerView, StartupError> {
    match info {
        None => Err(StartupError::MissingSequencerInfo),
        Some(checkpoint) => Ok(SequencerView { checkpoint, staged: None, secret, status }),
    }
}

/// An accepted submission leaves a sequencer with nothing staged, whose
/// last order is the order of the transaction, one more than before, and
/// whose checkpoint is valid: that of the accumulator with the hash of the
/// submission appended. A rejected submission changes nothing.
pub proof fn lemma_submit(s: SequencerView, data: LedgerTxDataView, tx_timestamp: u64)
    requires
        s.staged is None,
    ensures
        s.submit(data, tx_timestamp).wf(),
        s.submit(data, tx_timestamp).staged is None,
        s.submit(data, tx_timestamp).secret == s.secret,
        s.submit(data, tx_timestamp).status == s.status,
        match s.sequence(data, tx_timestamp) {
            Ok(writes) => {
                &&& writes.transaction.data == data
                &&& writes.transaction.sequence_info.tx_order == s.last_order() + 1
                &&& s.stage(writes).wf()
                &&& s.submit(data, tx_timestamp).checkpoint == writes.sequencer_info
                &&& s.submit(data, tx_timestamp).last_order() == s.last_order() + 1
                &&& s.submit(data, tx_timestamp).accumulator() == s.accumulator().append(
                    data.tx_hash(),
                )
                &&& s.submit(data, tx_timestamp).accumulator().wf()
            },
            Err(_) => s.submit(data, tx_timestamp) == s,
        },
{
    if s.sequence(data, tx_timestamp) is Ok {
        lemma_append_wf(s.accumulator(), data.tx_hash());
    }
}

/// What stands in the way of a submission, one obstacle after the other:
/// the service status, writes that are pending, no order left, no
/// encoding, an accumulator that cannot take a leaf. A submission that
/// meets none of them is sequenced with the order after the last one and
/// with its data as given, and once its writes are durable that order is
/// the last one.
pub proof fn lemma_admitted_is_sequenced(s: SequencerView, data: LedgerTxDataView, tx_timestamp: u64)
    requires
        admission(s.status, data, s.address()) is Ok,
        s.staged is None,
        s.last_order() < u64::MAX,
        data.encodable(),
        s.accumulator().room_for(1) is Ok,
    ensures
        s.sequence(data, tx_timestamp) matches Ok(writes) && writes.transaction.data == data
            && writes.transaction.sequence_info.tx_order == s.last_order() + 1
            && writes.transaction.sequence_info.tx_timestamp == tx_timestamp
            && writes.sequencer_info.last_order == s.last_order() + 1,
        s.submit(data, tx_timestamp).last_order() == s.last_order() + 1,
{
}

/// The hashes of the submissions of a run, in the order of submission.
pub open spec fn hashes_of(submissions: Seq<(LedgerTxDataView, u64)>) -> Seq<Seq<u8>> {
    submissions.map_values(|submission: (LedgerTxDataView, u64)| submission.0.tx_hash())
}

/// An active sequencer with nothing staged, orders left and an accumulator
/// that can take them accepts every submission of a run of encodable
/// submissions: the i-th gets the order `last_order + 1 + i`, the last
/// order ends at `last_order` plus their number, and the checkpoint ends as
/// that of the accumulator with their hashes appended in the order of
/// submission.
pub proof fn lemma_active_run(s: SequencerView, submissions: Seq<(LedgerTxDataView, u64)>)
    requires
        s.status == ServiceStatus::Active,
        s.staged is None,
        s.last_order() + submissions.len() <= u64::MAX,
        s.accumulator().room_for(submissions.len()) is Ok,
        forall|i: int| 0 <= i < submissions.len() ==> (#[trigger] submissions[i]).0.encodable(),
    ensures
        s.orders_of(submissions).len() == submissions.len(),
        forall|i: int|
            0 <= i < submissions.len() ==> #[trigger] s.orders_of(submissions)[i] == s.last_order()
                + 1 + i,
        s.submit_all(submissions).staged is None,
        s.submit_all(submissions).status == s.status,
        s.submit_all(submissions).last_order() == s.last_order() + submissions.len(),
        s.submit_all(submissions).accumulator() == s.accumulator().append_all(
            hashes_of(submissions),
        ),
        submissions.len() > 0 ==> s.submit_all(submissions).checkpoint.last_accumulator_info
            == s.accumulator().append_all(hashes_of(submissions)).info(),
    decreases submissions.len(),
{
    if submissions.len() > 0 {
        let (data, tx_timestamp) = submissions.last();
        let before = submissions.drop_last();
        assert forall|i: int| 0 <= i < before.len() implies (#[trigger] before[i]).0.encodable() by {
            assert(before[i] == submissions[i]);
        }
        lemma_active_run(s, before);
        lemma_gapless_orders(s, submissions);
        let t = s.submit_all(before);
        lemma_append_all_wf(s.accumulator(), hashes_of(before));
        lemma_admitted_is_sequenced(t, data, tx_timestamp);
        lemma_submit(t, data, tx_timestamp);
        assert(hashes_of(submissions).drop_last() =~= hashes_of(before));
        assert(hashes_of(submissions).last() == data.tx_hash());
        lemma_info_restores(s.submit_all(submissions).accumulator());
    } else {
        assert(hashes_of(submissions) =~= Seq::<Seq<u8>>::empty());
    }
}

/// Monotonic gapless order: over any run of submissions, the accepted ones
/// get the orders `last_order + 1`, `last_order + 2`, ... in the order of
/// submission, a rejected one gets none, and the last order ends as many
/// higher as submissions were accepted.
pub proof fn lemma_gapless_orders(s: SequencerView, submissions: Seq<(LedgerTxDataView, u64)>)
    requires
        s.staged is None,
    ensures
        s.submit_all(submissions).wf(),
        s.submit_all(submissions).staged is None,
        s.submit_all(submissions).secret == s.secret,
        s.submit_all(submissions).status == s.status,
        s.orders_of(submissions).len() <= submissions.len(),
        s.submit_all(submissions).last_order() == s.last_order() + s.orders_of(submissions).len(),
        forall|i: int|
            0 <= i < s.orders_of(submissions).len() ==> #[trigger] s.orders_of(submissions)[i]
                == s.last_order() + 1 + i,
    decreases submissions.len(),
{
    if submissions.len() > 0 {
        let (data, tx_timestamp) = submissions.last();
        let before = submissions.drop_last();
        lemma_gapless_orders(s, before);
        lemma_submit(s.submit_all(before), data, tx_timestamp);
    }
}

/// Admission gating: in read-only mode every submission is rejected; in
/// maintenance mode a submission is sequenced only if its sender is the
/// sequencer's own address; in date import mode only if it is a block
/// reference or relays the base layer. A rejected submission changes
/// nothing.
pub proof fn lemma_admission_gating(s: SequencerView, data: LedgerTxDataView, tx_timestamp: u64)
    ensures
        s.status == ServiceStatus::ReadOnlyMode ==> s.sequence(data, tx_timestamp) == Err::<
            SequenceWritesView,
            SequenceError,
        >(SequenceError::Admission(AdmissionError::ReadOnlyMode)),
        s.status == ServiceStatus::Maintenance && s.sequence(data, tx_timestamp) is Ok
            ==> data.sender() == Some(s.address()),
        s.status == ServiceStatus::Maintenance && data.sender() != Some(s.address())
            ==> s.sequence(data, tx_timestamp) == Err::<SequenceWritesView, SequenceError>(
            SequenceError::Admission(AdmissionError::Maintenance),
        ),
        s.status == ServiceStatus::DateImportMode && s.sequence(data, tx_timestamp) is Ok ==> (data
            is L1Block || data.is_l1_tx()),
        s.sequence(data, tx_timestamp) is Err ==> s.submit(data, tx_timestamp) == s,
{
}

/// Maintenance mode, exactly: a sequencer that has nothing staged, orders
/// left and an accumulator that can take a leaf sequences an encodable
/// submission if and only if the sender of the submission is the
/// sequencer's own address.
/// A block reference has no sender, and is rejected.
pub proof fn lemma_maintenance_admits_own_sender(
    s: SequencerView,
    data: LedgerTxDataView,
    tx_timestamp: u64,
)
    requires
        s.status == ServiceStatus::Maintenance,
        s.staged is None,
        s.last_order() < u64::MAX,
        s.accumulator().room_for(1) is Ok,
        data.encodable(),
    ensures
        s.sequence(data, tx_timestamp) is Ok <==> data.sender() == Some(s.address()),
        data is L1Block ==> s.sequence(data, tx_timestamp) is Err,
        s.sequence(data, tx_timestamp) is Err ==> s.submit(data, tx_timestamp).last_order()
            == s.last_order(),
{
}

/// Idempotent restart: starting from the durable checkpoint of a sequencer
/// that has nothing staged gives that sequencer back, with the same last
/// order and the same accumulator root.
pub proof fn lemma_restart(s: SequencerView)
    requires
        s.staged is None,
    ensures
        startup(s.secret, Some(s.checkpoint), s.status) == Ok::<SequencerView, StartupError>(s),
        startup(s.secret, Some(s.checkpoint), s.status)->Ok_0.last_order() == s.last_order(),
        startup(s.secret, Some(s.checkpoint), s.status)->Ok_0.accumulator().root()
            == s.accumulator().root(),
{
}

/// Starting succeeds exactly when the store holds a checkpoint, whatever
/// the checkpoint holds; the sequencer then has the last order of the
/// checkpoint, nothing staged, and the key and status given.
pub proof fn lemma_startup(secret: Seq<u8>, info: Option<SequencerInfoView>, status: ServiceStatus)
    ensures
        startup(secret, info, status) is Ok == (info is Some),
        info matches Some(checkpoint) ==> (startup(secret, info, status) matches Ok(s) && s.wf()
            && s.checkpoint == checkpoint && s.last_order() == checkpoint.last_order && s.staged
            is None && s.secret == secret && s.status == status),
{
}

/// The sequencer. Its view holds the durable checkpoint, the staged one,
/// the key and the service status.
pub struct SequencerActor {
    last_sequencer_info: SequencerInfo,
    tx_accumulator: MerkleAccumulator,
    sequencer_key: RoochKeyPair,
    service_status: ServiceStatus,
    staged: Option<SequencerInfo>,
}

impl View for SequencerActor {
    type V = SequencerView;

    closed spec fn view(&self) -> SequencerView {
        SequencerView {
            checkpoint: self.last_sequencer_info@,
            staged: match self.staged {
                Some(s) => Some(s@),
                None => None,
            },
            secret: self.sequencer_key@,
            status: self.service_status,
        }
    }
}

impl SequencerActor {
    /// The invariant of the type: what is staged follows the durable
    /// checkpoint, the live accumulator is that of the staged checkpoint, or
    /// of the durable one where nothing is staged, and it has nothing to
    /// flush.
    pub closed spec fn wf(&self) -> bool {
        &&& self@.wf()
        &&& self.tx_accumulator.pending() == Seq::<Seq<u8>>::empty()
        &&& self.tx_accumulator@ == match self.staged {
            Some(s) => s@.last_accumulator_info.state(),
            None => self.last_sequencer_info@.last_accumulator_info.state(),
        }
    }

    /// The view of a well-formed sequencer is well-formed.
    pub proof fn lemma_view_wf(&self)
        requires
            self.wf(),
        ensures
            self@.wf(),
    {
    }

    /// Starts the sequencer from the checkpoint that the store holds. It
    /// fails exactly when the store holds none. Every checkpoint is taken as
    /// it stands: the sequencer has its last order and its accumulator
    /// checkpoint, and nothing staged. Where the accumulator checkpoint is
    /// not one of an accumulator, `sequence` reports it and gives out no
    /// order.
    pub fn new(
        sequencer_key: RoochKeyPair,
        last_sequencer_info: Option<SequencerInfo>,
        service_status: ServiceStatus,
    ) -> (r: Result<Self, StartupError>)
        ensures
            match startup(
                sequencer_key@,
                match last_sequencer_info {
                    Some(info) => Some(info@),
                    None => None,
                },
                service_status,
            ) {
                Ok(s) => r matches Ok(actor) && actor.wf() && actor@.wf() && actor@ == s,
                Err(e) => r matches Err(x) && x == e,
            },
            match last_sequencer_info {
                Some(info) => r matches Ok(actor) && actor@.checkpoint == info@
                    && actor@.last_order() == info.last_order && actor@.staged is None
                    && actor@.secret == sequencer_key@ && actor@.status == service_status,
                None => r matches Err(e) && e == StartupError::MissingSequencerInfo,
            },
    {
        let last_sequencer_info = match last_sequencer_info {
            Some(info) => info,
            None => { return Err(StartupError::MissingSequencerInfo); },
        };
        let tx_accumulator = MerkleAccumulator::new_with_info(
            last_sequencer_info.last_accumulator_info.duplicate(),
        );
        Ok(
            SequencerActor {
                last_sequencer_info,
                tx_accumulator,
                sequencer_key,
                service_status,
                staged: None,
            },
        )
    }

    /// The order of the last transaction whose writes are durable.
    pub fn last_order(&self) -> (order: u64)
        ensures
            order == self@.last_order(),
    {
        self.last_sequencer_info.last_order
    }

    /// The durable checkpoint.
    pub fn last_sequencer_info(&self) -> (info: SequencerInfo)
        ensures
            info@ == self@.checkpoint,
    {
        self.last_sequencer_info.duplicate()
    }

    /// The service status.
    pub fn service_status(&self) -> (status: ServiceStatus)
        ensures
            status == self@.status,
    {
        self.service_status
    }

    /// The sequencer's own address.
    pub fn sequencer_address(&self) -> (address: H256)
        ensures
            address@ == self@.address(),
    {
        self.sequencer_key.rooch_address()
    }

    /// Whether writes are neither committed nor rolled back.
    pub fn has_staged(&self) -> (staged: bool)
        ensures
            staged == (self@.staged is Some),
    {
        self.staged.is_some()
    }

    /// Sets the service status, which holds from the next submission on.
    pub fn set_status(&mut self, status: ServiceStatus)
        requires
            old(self).wf(),
        ensures
            final(self).wf(),
            final(self)@.wf(),
            final(self)@ == (SequencerView { status, ..old(self)@ }),
    {
        self.service_status = status;
    }

    /// Sequences a submission at time `tx_timestamp` (milliseconds since
    /// the epoch). On success the checkpoint of the writes is staged, and the
    /// signature in the transaction, of 64 bytes, verifies under the
    /// sequencer's public key for the transaction hash and the order. On
    /// failure nothing changes, and no order is given out.
    pub fn sequence(&mut self, tx_data: LedgerTxData, tx_timestamp: u64) -> (r: Result<
        SequenceWrites,
        SequenceError,
    >)
        requires
            old(self).wf(),
        ensures
            final(self).wf(),
            final(self)@.wf(),
            match old(self)@.sequence(tx_data@, tx_timestamp) {
                Ok(writes) => {
                    &&& r matches Ok(w)
                    &&& w@ == writes
                    &&& final(self)@ == old(self)@.stage(writes)
                    &&& w.transaction.sequence_info.tx_order_signature@.len() == 64
                    &&& w.transaction@.wf()
                    &&& w.transaction@.encodable()
                    &&& order_signature_verifies(
                        old(self)@.public_key(),
                        tx_data@.tx_hash(),
                        writes.transaction.sequence_info.tx_order,
                        writes.transaction.sequence_info.tx_order_signature,
                    )
                },
                Err(e) => r matches Err(x) && x == e && final(self)@ == old(self)@,
            },
    {
        let address = self.sequencer_key.rooch_address();
        match check_admission(self.service_status, &tx_data, &address) {
            Ok(_) => {},
            Err(e) => { return Err(SequenceError::Admission(e)); },
        }
        if self.staged.is_some() {
            return Err(SequenceError::PersistencePending);
        }
        if self.last_sequencer_info.last_order == u64::MAX {
            return Err(SequenceError::OrderExhausted);
        }
        let tx_order = self.last_sequencer_info.last_order + 1;
        let hash = match tx_data.tx_hash() {
            Ok(hash) => hash,
            Err(e) => { return Err(SequenceError::Encoding(e)); },
        };
        let tx_order_signature = self.sequencer_key.sign_order(&hash, tx_order);

        let ghost before = self.tx_accumulator@;
        let mut leaves: Vec<H256> = Vec::new();
        leaves.push(hash);
        assert(digests(leaves@) =~= seq![hash@]);
        proof {
            lemma_append_all_single(before, hash@);
        }
        let tx_accumulator_root = match self.tx_accumulator.append(leaves.as_slice()) {
            Ok(root) => root,
            Err(e) => { return Err(SequenceError::Accumulator(e)); },
        };
        let accumulator_leaves = self.tx_accumulator.flush();
        let tx_accumulator_info = self.tx_accumulator.get_info();

        let transaction = LedgerTransaction::new(
            tx_data,
            TransactionSequenceInfo::new(
                tx_order,
                tx_order_signature,
                tx_accumulator_root,
                tx_timestamp,
            ),
        );
        let sequencer_info = SequencerInfo::new(tx_order, tx_accumulator_info.duplicate());
        self.staged = Some(SequencerInfo::new(tx_order, tx_accumulator_info));
        Ok(SequenceWrites { accumulator_leaves, sequencer_info, transaction })
    }

    /// Records that the writes of the last successful `sequence` are
    /// durable: the staged checkpoint becomes the durable one. Without a
    /// staged checkpoint nothing changes.
    pub fn commit(&mut self)
        requires
            old(self).wf(),
        ensures
            final(self).wf(),
            final(self)@.wf(),
            final(self)@ == old(self)@.commit(),
    {
        match self.staged.take() {
            Some(info) => {
                self.last_sequencer_info = info;
            },
            None => {},
        }
    }

    /// Records that the writes of the last successful `sequence` failed:
    /// the staged checkpoint is dropped and the live accumulator is rebuilt
    /// from the durable checkpoint. Without a staged checkpoint nothing
    /// changes.
    pub fn rollback(&mut self)
        requires
            old(self).wf(),
        ensures
            final(self).wf(),
            final(self)@.wf(),
            final(self)@ == old(self)@.rollback(),
    {
        if self.staged.is_some() {
            self.staged = None;
            self.tx_accumulator = MerkleAccumulator::new_with_info(
                self.last_sequencer_info.last_accumulator_info.duplicate(),
            );
        }
    }
}

} // verus!
