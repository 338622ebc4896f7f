//! The ledger transaction model: what is sequenced, the record that
//! sequencing produces, and their canonical encoding and hash.

use crate::codec::{
    encode_bool, encode_bytes, encode_u64, encoded_bytes_len, lemma_bool_canonical,
    lemma_bytes_canonical,
    lemma_parse_bool, lemma_parse_bytes, lemma_parse_u64, lemma_parse_variant_index,
    lemma_u64_canonical, lemma_variant_index_canonical, parse_bool, parse_bytes, parse_u64, parse_variant_index, read_bool,
    read_bytes, read_u64, read_variant_index, remains, uleb128, uleb128_len, write_bool,
    write_bytes, write_u64, write_uleb128, DecodeError, EncodeError, Parsed, MAX_SEQUENCE_LENGTH,
};
use crate::hash::{sha3_256, sha3_256_of, H256};
use vstd::prelude::*;

verus! {

/// A reference to a block of the base layer.
#[derive(Clone, Debug, Default, Hash, Eq, PartialEq)]
pub struct L1Block {
    pub chain_id: u64,
    pub block_height: u64,
    pub block_hash: Vec<u8>,
}

/// A base-layer block reference together with the block's body.
#[derive(Clone, Debug, Default, Eq, PartialEq)]
pub struct L1BlockWithBody {
    pub block: L1Block,
    pub block_body: Vec<u8>,
}

/// A verified layer-2 transaction, as far as sequencing reads it.
#[derive(Clone, Debug, Hash, Eq, PartialEq)]
pub struct RoochTransaction {
    /// Address of the account that sent the transaction.
    pub sender: H256,
    /// Position of the transaction among those of its sender.
    pub sequence_number: u64,
    /// Whether the transaction relays an event of the base layer.
    pub l1_originated: bool,
    /// The signed body of the transaction.
    pub payload: Vec<u8>,
}

/// What can be sequenced.
#[derive(Clone, Debug, Hash, Eq, PartialEq)]
pub enum LedgerTxData {
    L1Block(L1Block),
    L2Tx(RoochTransaction),
}

/// What sequencing adds to a transaction.
#[derive(Clone, Debug, Eq, PartialEq)]
pub struct TransactionSequenceInfo {
    /// Position of the transaction in the ledger.
    pub tx_order: u64,
    /// Signature of the sequencer over the transaction hash and its order.
    pub tx_order_signature: Vec<u8>,
    /// Root of the transaction accumulator once it holds this transaction.
    pub tx_accumulator_root: H256,
    /// Milliseconds since the epoch at which the transaction was sequenced.
    pub tx_timestamp: u64,
}

/// The transaction which is recorded in the ledger.
#[derive(Clone, Debug, Eq, PartialEq)]
pub struct LedgerTransaction {
    pub data: LedgerTxData,
    pub sequence_info: TransactionSequenceInfo,
}

/// Mathematical value of an `L1Block`.
pub struct L1BlockView {
    pub chain_id: u64,
    pub block_height: u64,
    pub block_hash: Seq<u8>,
}

/// Mathematical value of a `RoochTransaction`.
pub struct RoochTransactionView {
    pub sender: Seq<u8>,
    pub sequence_number: u64,
    pub l1_originated: bool,
    pub payload: Seq<u8>,
}

/// Mathematical value of a `LedgerTxData`.
pub enum LedgerTxDataView {
    L1Block(L1BlockView),
    L2Tx(RoochTransactionView),
}

/// Mathematical value of a `TransactionSequenceInfo`.
pub struct TransactionSequenceInfoView {
    pub tx_order: u64,
    pub tx_order_signature: Seq<u8>,
    pub tx_accumulator_root: Seq<u8>,
    pub tx_timestamp: u64,
}

/// Mathematical value of a `LedgerTransaction`.
pub struct LedgerTransactionView {
    pub data: LedgerTxDataView,
    pub sequence_info: TransactionSequenceInfoView,
}

impl View for L1Block {
    type V = L1BlockView;

    open spec fn view(&self) -> L1BlockView {
        L1BlockView {
            chain_id: self.chain_id,
            block_height: self.block_height,
            block_hash: self.block_hash@,
        }
    }
}

impl View for RoochTransaction {
    type V = RoochTransactionView;

    open spec fn view(&self) -> RoochTransactionView {
        RoochTransactionView {
            sender: self.sender@,
            sequence_number: self.sequence_number,
            l1_originated: self.l1_originated,
            payload: self.payload@,
        }
    }
}

impl View for LedgerTxData {
    type V = LedgerTxDataView;

    open spec fn view(&self) -> LedgerTxDataView {
        match self {
            LedgerTxData::L1Block(block) => LedgerTxDataView::L1Block(block@),
            LedgerTxData::L2Tx(tx) => LedgerTxDataView::L2Tx(tx@),
        }
    }
}

impl View for TransactionSequenceInfo {
    type V = TransactionSequenceInfoView;

    open spec fn view(&self) -> TransactionSequenceInfoView {
        TransactionSequenceInfoView {
            tx_order: self.tx_order,
            tx_order_signature: self.tx_order_signature@,
            tx_accumulator_root: self.tx_accumulator_root@,
            tx_timestamp: self.tx_timestamp,
        }
    }
}

impl View for LedgerTransaction {
    type V = LedgerTransactionView;

    open spec fn view(&self) -> LedgerTransactionView {
        LedgerTransactionView { data: self.data@, sequence_info: self.sequence_info@ }
    }
}

/// The encoding of a digest: a byte string of length 32.
pub open spec fn encode_digest(d: Seq<u8>) -> Seq<u8> {
    encode_bytes(d)
}

/// Reads a digest.
pub open spec fn parse_digest(s: Seq<u8>) -> Parsed<Seq<u8>> {
    match parse_bytes(s) {
        Ok((d, rest)) => if d.len() == 32 {
            Ok((d, rest))
        } else {
            Err(DecodeError::InvalidDigestLength)
        },
        Err(e) => Err(e),
    }
}

impl L1BlockView {
    /// Whether the block has an encoding.
    pub open spec fn encodable(self) -> bool {
        self.block_hash.len() <= MAX_SEQUENCE_LENGTH
    }

    /// The canonical encoding: chain, height, block hash.
    pub open spec fn encoding(self) -> Seq<u8> {
        encode_u64(self.chain_id) + encode_u64(self.block_height) + encode_bytes(self.block_hash)
    }

    /// Reads a block from the front of `s`.
    pub open spec fn parse(s: Seq<u8>) -> Parsed<L1BlockView> {
        match parse_u64(s) {
            Ok((chain_id, s1)) => match parse_u64(s1) {
                Ok((block_height, s2)) => match parse_bytes(s2) {
                    Ok((block_hash, s3)) => Ok(
                        (L1BlockView { chain_id, block_height, block_hash }, s3),
                    ),
                    Err(e) => Err(e),
                },
                Err(e) => Err(e),
            },
            Err(e) => Err(e),
        }
    }

    /// The hash of the block: the digest of its encoding.
    pub open spec fn tx_hash(self) -> Seq<u8> {
        sha3_256(self.encoding())
    }
}

impl RoochTransactionView {
    /// Whether the sender is a 32-byte address.
    pub open spec fn wf(self) -> bool {
        self.sender.len() == 32
    }

    /// Whether the transaction has an encoding.
    pub open spec fn encodable(self) -> bool {
        self.payload.len() <= MAX_SEQUENCE_LENGTH
    }

    /// The canonical encoding: sender, sequence number, origin flag, payload.
    pub open spec fn encoding(self) -> Seq<u8> {
        encode_digest(self.sender) + encode_u64(self.sequence_number) + encode_bool(
            self.l1_originated,
        ) + encode_bytes(self.payload)
    }

    /// Reads a transaction from the front of `s`.
    pub open spec fn parse(s: Seq<u8>) -> Parsed<RoochTransactionView> {
        match parse_digest(s) {
            Ok((sender, s1)) => match parse_u64(s1) {
                Ok((sequence_number, s2)) => match parse_bool(s2) {
                    Ok((l1_originated, s3)) => match parse_bytes(s3) {
                        Ok((payload, s4)) => Ok(
                            (
                                RoochTransactionView {
                                    sender,
                                    sequence_number,
                                    l1_originated,
                                    payload,
                                },
                                s4,
                            ),
                        ),
                        Err(e) => Err(e),
                    },
                    Err(e) => Err(e),
                },
                Err(e) => Err(e),
            },
            Err(e) => Err(e),
        }
    }

    /// The hash of the transaction: the digest of its encoding.
    pub open spec fn tx_hash(self) -> Seq<u8> {
        sha3_256(self.encoding())
    }
}

impl LedgerTxDataView {
    /// Whether every digest in the value has 32 bytes.
    pub open spec fn wf(self) -> bool {
        match self {
            LedgerTxDataView::L1Block(_) => true,
            LedgerTxDataView::L2Tx(tx) => tx.wf(),
        }
    }

    /// Whether the value has an encoding.
    pub open spec fn encodable(self) -> bool {
        match self {
            LedgerTxDataView::L1Block(block) => block.encodable(),
            LedgerTxDataView::L2Tx(tx) => tx.encodable(),
        }
    }

    /// The canonical encoding: the index of the variant, then its content.
    pub open spec fn encoding(self) -> Seq<u8> {
        match self {
            LedgerTxDataView::L1Block(block) => uleb128(0) + block.encoding(),
            LedgerTxDataView::L2Tx(tx) => uleb128(1) + tx.encoding(),
        }
    }

    /// Reads a value from the front of `s`.
    pub open spec fn parse(s: Seq<u8>) -> Parsed<LedgerTxDataView> {
        match parse_variant_index(s) {
            Ok((index, s1)) => if index == 0 {
                match L1BlockView::parse(s1) {
                    Ok((block, s2)) => Ok((LedgerTxDataView::L1Block(block), s2)),
                    Err(e) => Err(e),
                }
            } else if index == 1 {
                match RoochTransactionView::parse(s1) {
                    Ok((tx, s2)) => Ok((LedgerTxDataView::L2Tx(tx), s2)),
                    Err(e) => Err(e),
                }
            } else {
                Err(DecodeError::UnknownVariant)
            },
            Err(e) => Err(e),
        }
    }

    /// The hash of the value is the hash of its content.
    pub open spec fn tx_hash(self) -> Seq<u8> {
        match self {
            LedgerTxDataView::L1Block(block) => block.tx_hash(),
            LedgerTxDataView::L2Tx(tx) => tx.tx_hash(),
        }
    }

    /// The sender, which only a layer-2 transaction has.
    pub open spec fn sender(self) -> Option<Seq<u8>> {
        match self {
            LedgerTxDataView::L1Block(_) => None,
            LedgerTxDataView::L2Tx(tx) => Some(tx.sender),
        }
    }

    /// Whether the value is a layer-2 transaction that relays an event of
    /// the base layer.
    pub open spec fn is_l1_tx(self) -> bool {
        self matches LedgerTxDataView::L2Tx(tx) && tx.l1_originated
    }
}

impl TransactionSequenceInfoView {
    /// Whether the accumulator root has 32 bytes.
    pub open spec fn wf(self) -> bool {
        self.tx_accumulator_root.len() == 32
    }

    /// Whether the value has an encoding.
    pub open spec fn encodable(self) -> bool {
        self.tx_order_signature.len() <= MAX_SEQUENCE_LENGTH
    }

    /// The canonical encoding: order, signature, accumulator root, time.
    pub open spec fn encoding(self) -> Seq<u8> {
        encode_u64(self.tx_order) + encode_bytes(self.tx_order_signature) + encode_digest(
            self.tx_accumulator_root,
        ) + encode_u64(self.tx_timestamp)
    }

    /// Reads a value from the front of `s`.
    pub open spec fn parse(s: Seq<u8>) -> Parsed<TransactionSequenceInfoView> {
        match parse_u64(s) {
            Ok((tx_order, s1)) => match parse_bytes(s1) {
                Ok((tx_order_signature, s2)) => match parse_digest(s2) {
                    Ok((tx_accumulator_root, s3)) => match parse_u64(s3) {
                        Ok((tx_timestamp, s4)) => Ok(
                            (
                                TransactionSequenceInfoView {
                                    tx_order,
                                    tx_order_signature,
                                    tx_accumulator_root,
                                    tx_timestamp,
                                },
                                s4,
                            ),
                        ),
                        Err(e) => Err(e),
                    },
                    Err(e) => Err(e),
                },
                Err(e) => Err(e),
            },
            Err(e) => Err(e),
        }
    }
}

impl LedgerTransactionView {
    /// Whether every digest in the transaction has 32 bytes.
    pub open spec fn wf(self) -> bool {
        self.data.wf() && self.sequence_info.wf()
    }

    /// Whether the transaction has an encoding.
    pub open spec fn encodable(self) -> bool {
        self.data.encodable() && self.sequence_info.encodable()
    }

    /// The canonical encoding: the data, then the sequence info.
    pub open spec fn encoding(self) -> Seq<u8> {
        self.data.encoding() + self.sequence_info.encoding()
    }

    /// Reads a transaction from the front of `s`.
    pub open spec fn parse(s: Seq<u8>) -> Parsed<LedgerTransactionView> {
        match LedgerTxDataView::parse(s) {
            Ok((data, s1)) => match TransactionSequenceInfoView::parse(s1) {
                Ok((sequence_info, s2)) => Ok((LedgerTransactionView { data, sequence_info }, s2)),
                Err(e) => Err(e),
            },
            Err(e) => Err(e),
        }
    }

    /// The transaction that `s` encodes: `s` holds one transaction and
    /// nothing after it.
    pub open spec fn decode(s: Seq<u8>) -> Result<LedgerTransactionView, DecodeError> {
        match Self::parse(s) {
            Ok((tx, rest)) => if rest.len() == 0 {
                Ok(tx)
            } else {
                Err(DecodeError::RemainingInput)
            },
            Err(e) => Err(e),
        }
    }

    /// The hash of the transaction is the hash of its data alone.
    pub open spec fn tx_hash(self) -> Seq<u8> {
        self.data.tx_hash()
    }
}

/// An encoded digest parses back to itself.
pub proof fn lemma_parse_digest(d: Seq<u8>, rest: Seq<u8>)
    requires
        d.len() == 32,
    ensures
        parse_digest(encode_digest(d) + rest) == Ok::<(Seq<u8>, Seq<u8>), DecodeError>((d, rest)),
{
    lemma_parse_bytes(d, rest);
}

/// An encoded block parses back to itself.
pub proof fn lemma_parse_l1_block(block: L1BlockView, rest: Seq<u8>)
    requires
        block.encodable(),
    ensures
        L1BlockView::parse(block.encoding() + rest) == Ok::<(L1BlockView, Seq<u8>), DecodeError>(
            (block, rest),
        ),
{
    let c = encode_bytes(block.block_hash) + rest;
    let b = encode_u64(block.block_height) + c;
    assert(block.encoding() + rest =~= encode_u64(block.chain_id) + b);
    lemma_parse_u64(block.chain_id, b);
    lemma_parse_u64(block.block_height, c);
    lemma_parse_bytes(block.block_hash, rest);
}

/// An encoded layer-2 transaction parses back to itself.
pub proof fn lemma_parse_rooch_transaction(tx: RoochTransactionView, rest: Seq<u8>)
    requires
        tx.wf(),
        tx.encodable(),
    ensures
        RoochTransactionView::parse(tx.encoding() + rest) == Ok::<
            (RoochTransactionView, Seq<u8>),
            DecodeError,
        >((tx, rest)),
{
    let d = encode_bytes(tx.payload) + rest;
    let c = encode_bool(tx.l1_originated) + d;
    let b = encode_u64(tx.sequence_number) + c;
    assert(tx.encoding() + rest =~= encode_digest(tx.sender) + b);
    lemma_parse_digest(tx.sender, b);
    lemma_parse_u64(tx.sequence_number, c);
    lemma_parse_bool(tx.l1_originated, d);
    lemma_parse_bytes(tx.payload, rest);
}

/// Encoded transaction data parses back to itself.
pub proof fn lemma_parse_ledger_tx_data(data: LedgerTxDataView, rest: Seq<u8>)
    requires
        data.wf(),
        data.encodable(),
    ensures
        LedgerTxDataView::parse(data.encoding() + rest) == Ok::<
            (LedgerTxDataView, Seq<u8>),
            DecodeError,
        >((data, rest)),
{
    match data {
        LedgerTxDataView::L1Block(block) => {
            let b = block.encoding() + rest;
            assert(data.encoding() + rest =~= uleb128(0) + b);
            lemma_parse_variant_index(0, b);
            lemma_parse_l1_block(block, rest);
        },
        LedgerTxDataView::L2Tx(tx) => {
            let b = tx.encoding() + rest;
            assert(data.encoding() + rest =~= uleb128(1) + b);
            lemma_parse_variant_index(1, b);
            lemma_parse_rooch_transaction(tx, rest);
        },
    }
}

/// An encoded sequence info parses back to itself.
pub proof fn lemma_parse_sequence_info(info: TransactionSequenceInfoView, rest: Seq<u8>)
    requires
        info.wf(),
        info.encodable(),
    ensures
        TransactionSequenceInfoView::parse(info.encoding() + rest) == Ok::<
            (TransactionSequenceInfoView, Seq<u8>),
            DecodeError,
        >((info, rest)),
{
    let d = encode_u64(info.tx_timestamp) + rest;
    let c = encode_digest(info.tx_accumulator_root) + d;
    let b = encode_bytes(info.tx_order_signature) + c;
    assert(info.encoding() + rest =~= encode_u64(info.tx_order) + b);
    lemma_parse_u64(info.tx_order, b);
    lemma_parse_bytes(info.tx_order_signature, c);
    lemma_parse_digest(info.tx_accumulator_root, d);
    lemma_parse_u64(info.tx_timestamp, rest);
}

/// Round trip: decoding the encoding of a ledger transaction gives the
/// transaction back.
pub proof fn lemma_decode_encode(tx: LedgerTransactionView)
    requires
        tx.wf(),
        tx.encodable(),
    ensures
        LedgerTransactionView::decode(tx.encoding()) == Ok::<LedgerTransactionView, DecodeError>(
            tx,
        ),
{
    let empty = Seq::<u8>::empty();
    let b = tx.sequence_info.encoding() + empty;
    assert(tx.encoding() =~= tx.data.encoding() + b);
    assert(b =~= tx.sequence_info.encoding());
    lemma_parse_ledger_tx_data(tx.data, b);
    lemma_parse_sequence_info(tx.sequence_info, empty);
}

/// A digest that parses was written as it is encoded, and has 32 bytes.
pub proof fn lemma_digest_canonical(s: Seq<u8>)
    ensures
        parse_digest(s) matches Ok((d, rest)) ==> s == encode_digest(d) + rest && d.len() == 32,
{
    lemma_bytes_canonical(s);
}

/// A block that parses was written as it is encoded.
pub proof fn lemma_l1_block_canonical(s: Seq<u8>)
    ensures
        L1BlockView::parse(s) matches Ok((block, rest)) ==> s == block.encoding() + rest
            && block.encodable(),
{
    if let Ok((block, rest)) = L1BlockView::parse(s) {
        lemma_u64_canonical(s);
        let s1 = parse_u64(s)->Ok_0.1;
        lemma_u64_canonical(s1);
        let s2 = parse_u64(s1)->Ok_0.1;
        lemma_bytes_canonical(s2);
        assert(s =~= block.encoding() + rest);
    }
}

/// A layer-2 transaction that parses was written as it is encoded.
pub proof fn lemma_rooch_transaction_canonical(s: Seq<u8>)
    ensures
        RoochTransactionView::parse(s) matches Ok((tx, rest)) ==> s == tx.encoding() + rest
            && tx.encodable() && tx.wf(),
{
    if let Ok((tx, rest)) = RoochTransactionView::parse(s) {
        lemma_digest_canonical(s);
        let s1 = parse_digest(s)->Ok_0.1;
        lemma_u64_canonical(s1);
        let s2 = parse_u64(s1)->Ok_0.1;
        lemma_bool_canonical(s2);
        let s3 = parse_bool(s2)->Ok_0.1;
        lemma_bytes_canonical(s3);
        assert(s =~= tx.encoding() + rest);
    }
}

/// Transaction data that parses was written as it is encoded.
pub proof fn lemma_ledger_tx_data_canonical(s: Seq<u8>)
    ensures
        LedgerTxDataView::parse(s) matches Ok((data, rest)) ==> s == data.encoding() + rest
            && data.encodable() && data.wf(),
{
    if let Ok((data, rest)) = LedgerTxDataView::parse(s) {
        lemma_variant_index_canonical(s);
        let s1 = parse_variant_index(s)->Ok_0.1;
        lemma_l1_block_canonical(s1);
        lemma_rooch_transaction_canonical(s1);
        assert(s =~= data.encoding() + rest);
    }
}

/// A sequence info that parses was written as it is encoded.
pub proof fn lemma_sequence_info_canonical(s: Seq<u8>)
    ensures
        TransactionSequenceInfoView::parse(s) matches Ok((info, rest)) ==> s == info.encoding()
            + rest && info.encodable() && info.wf(),
{
    if let Ok((info, rest)) = TransactionSequenceInfoView::parse(s) {
        lemma_u64_canonical(s);
        let s1 = parse_u64(s)->Ok_0.1;
        lemma_bytes_canonical(s1);
        let s2 = parse_bytes(s1)->Ok_0.1;
        lemma_digest_canonical(s2);
        let s3 = parse_digest(s2)->Ok_0.1;
        lemma_u64_canonical(s3);
        assert(s =~= info.encoding() + rest);
    }
}

/// Only encodings decode: bytes that decode to a ledger transaction are its
/// encoding, so no transaction has two encodings.
pub proof fn lemma_encode_decode(s: Seq<u8>)
    ensures
        LedgerTransactionView::decode(s) matches Ok(tx) ==> s == tx.encoding() && tx.encodable()
            && tx.wf(),
{
    if let Ok(tx) = LedgerTransactionView::decode(s) {
        lemma_ledger_tx_data_canonical(s);
        let s1 = LedgerTxDataView::parse(s)->Ok_0.1;
        lemma_sequence_info_canonical(s1);
        assert(s =~= tx.encoding());
    }
}

/// Appends the encoding of a digest.
fn write_digest(out: &mut Vec<u8>, d: &H256)
    ensures
        final(out)@ == old(out)@ + encode_digest(d@),
{
    write_bytes(out, d.0.as_slice());
}

/// Reads a digest at `pos`.
fn read_digest(bytes: &[u8], pos: usize) -> (r: Result<(H256, usize), DecodeError>)
    requires
        pos <= bytes@.len(),
    ensures
        match parse_digest(bytes@.skip(pos as int)) {
            Ok((d, rest)) => r matches Ok((v, next)) && v@ == d && remains(bytes@, next, rest),
            Err(e) => r == Err::<(H256, usize), DecodeError>(e),
        },
{
    match read_bytes(bytes, pos) {
        Ok((d, next)) => match H256::from_slice(d.as_slice()) {
            Some(h) => Ok((h, next)),
            None => Err(DecodeError::InvalidDigestLength),
        },
        Err(e) => Err(e),
    }
}

impl L1Block {
    fn write(&self, out: &mut Vec<u8>)
        requires
            self@.encodable(),
        ensures
            final(out)@ == old(out)@ + self@.encoding(),
    {
        let ghost start = out@;
        write_u64(out, self.chain_id);
        write_u64(out, self.block_height);
        write_bytes(out, self.block_hash.as_slice());
        assert(out@ =~= start + self@.encoding());
    }

    fn read(bytes: &[u8], pos: usize) -> (r: Result<(L1Block, usize), DecodeError>)
        requires
            pos <= bytes@.len(),
        ensures
            match L1BlockView::parse(bytes@.skip(pos as int)) {
                Ok((b, rest)) => r matches Ok((v, next)) && v@ == b && remains(bytes@, next, rest),
                Err(e) => r matches Err(x) && x == e,
            },
    {
        let (chain_id, at1) = match read_u64(bytes, pos) {
            Ok(v) => v,
            Err(e) => { return Err(e); },
        };
        let (block_height, at2) = match read_u64(bytes, at1) {
            Ok(v) => v,
            Err(e) => { return Err(e); },
        };
        let (block_hash, at3) = match read_bytes(bytes, at2) {
            Ok(v) => v,
            Err(e) => { return Err(e); },
        };
        Ok((L1Block { chain_id, block_height, block_hash }, at3))
    }

    /// The canonical encoding of the block. It fails exactly when the block
    /// hash is too long to be encoded.
    pub fn encode(&self) -> (r: Result<Vec<u8>, EncodeError>)
        ensures
            self@.encodable() ==> (r matches Ok(bytes) && bytes@ == self@.encoding()),
            !self@.encodable() ==> r == Err::<Vec<u8>, EncodeError>(EncodeError::ExceededMaxLen),
    {
        if self.block_hash.len() > MAX_SEQUENCE_LENGTH {
            return Err(EncodeError::ExceededMaxLen);
        }
        let mut out: Vec<u8> = Vec::new();
        self.write(&mut out);
        assert(out@ =~= self@.encoding());
        Ok(out)
    }

    /// The hash of the block: the SHA3-256 digest of its encoding. It fails
    /// exactly when the block has no encoding.
    pub fn tx_hash(&self) -> (r: Result<H256, EncodeError>)
        ensures
            self@.encodable() ==> (r matches Ok(hash) && hash@ == self@.tx_hash()),
            !self@.encodable() ==> r == Err::<H256, EncodeError>(EncodeError::ExceededMaxLen),
    {
        match self.encode() {
            Ok(bytes) => Ok(sha3_256_of(bytes.as_slice())),
            Err(e) => Err(e),
        }
    }

    /// The number of bytes in the encoding of the block: eight for each of
    /// the two numbers, and the block hash with its length before it.
    pub fn tx_size(&self) -> (size: u64)
        requires
            self@.encodable(),
        ensures
            size == self@.encoding().len(),
            size == 16 + encoded_bytes_len(self@.block_hash.len()),
    {
        proof {
            vstd::bytes::lemma_auto_spec_u64_to_from_le_bytes();
        }
        let digits = uleb128_len(self.block_hash.len() as u32);
        (16 + digits + self.block_hash.len()) as u64
    }
}

impl RoochTransaction {
    fn write(&self, out: &mut Vec<u8>)
        requires
            self@.encodable(),
        ensures
            final(out)@ == old(out)@ + self@.encoding(),
    {
        let ghost start = out@;
        write_digest(out, &self.sender);
        write_u64(out, self.sequence_number);
        write_bool(out, self.l1_originated);
        write_bytes(out, self.payload.as_slice());
        assert(out@ =~= start + self@.encoding());
    }

    fn read(bytes: &[u8], pos: usize) -> (r: Result<(RoochTransaction, usize), DecodeError>)
        requires
            pos <= bytes@.len(),
        ensures
            match RoochTransactionView::parse(bytes@.skip(pos as int)) {
                Ok((t, rest)) => r matches Ok((v, next)) && v@ == t && remains(bytes@, next, rest),
                Err(e) => r matches Err(x) && x == e,
            },
    {
        let (sender, at1) = match read_digest(bytes, pos) {
            Ok(v) => v,
            Err(e) => { return Err(e); },
        };
        let (sequence_number, at2) = match read_u64(bytes, at1) {
            Ok(v) => v,
            Err(e) => { return Err(e); },
        };
        let (l1_originated, at3) = match read_bool(bytes, at2) {
            Ok(v) => v,
            Err(e) => { return Err(e); },
        };
        let (payload, at4) = match read_bytes(bytes, at3) {
            Ok(v) => v,
            Err(e) => { return Err(e); },
        };
        Ok((RoochTransaction { sender, sequence_number, l1_originated, payload }, at4))
    }

    /// The canonical encoding of the transaction. It fails exactly when the
    /// payload is too long to be encoded.
    pub fn encode(&self) -> (r: Result<Vec<u8>, EncodeError>)
        ensures
            self@.encodable() ==> (r matches Ok(bytes) && bytes@ == self@.encoding()),
            !self@.encodable() ==> r == Err::<Vec<u8>, EncodeError>(EncodeError::ExceededMaxLen),
    {
        if self.payload.len() > MAX_SEQUENCE_LENGTH {
            return Err(EncodeError::ExceededMaxLen);
        }
        let mut out: Vec<u8> = Vec::new();
        self.write(&mut out);
        assert(out@ =~= self@.encoding());
        Ok(out)
    }

    /// The hash of the transaction: the SHA3-256 digest of its encoding. It
    /// fails exactly when the transaction has no encoding.
    pub fn tx_hash(&self) -> (r: Result<H256, EncodeError>)
        ensures
            self@.encodable() ==> (r matches Ok(hash) && hash@ == self@.tx_hash()),
            !self@.encodable() ==> r == Err::<H256, EncodeError>(EncodeError::ExceededMaxLen),
    {
        match self.encode() {
            Ok(bytes) => Ok(sha3_256_of(bytes.as_slice())),
            Err(e) => Err(e),
        }
    }
}

impl LedgerTxData {
    fn is_encodable(&self) -> (r: bool)
        ensures
            r == self@.encodable(),
    {
        match self {
            LedgerTxData::L1Block(block) => block.block_hash.len() <= MAX_SEQUENCE_LENGTH,
            LedgerTxData::L2Tx(tx) => tx.payload.len() <= MAX_SEQUENCE_LENGTH,
        }
    }

    fn write(&self, out: &mut Vec<u8>)
        requires
            self@.encodable(),
        ensures
            final(out)@ == old(out)@ + self@.encoding(),
    {
        let ghost start = out@;
        match self {
            LedgerTxData::L1Block(block) => {
                write_uleb128(out, 0);
                block.write(out);
            },
            LedgerTxData::L2Tx(tx) => {
                write_uleb128(out, 1);
                tx.write(out);
            },
        }
        assert(out@ =~= start + self@.encoding());
    }

    fn read(bytes: &[u8], pos: usize) -> (r: Result<(LedgerTxData, usize), DecodeError>)
        requires
            pos <= bytes@.len(),
        ensures
            match LedgerTxDataView::parse(bytes@.skip(pos as int)) {
                Ok((d, rest)) => r matches Ok((v, next)) && v@ == d && remains(bytes@, next, rest),
                Err(e) => r matches Err(x) && x == e,
            },
    {
        let (index, at1) = match read_variant_index(bytes, pos) {
            Ok(v) => v,
            Err(e) => { return Err(e); },
        };
        if index == 0 {
            match L1Block::read(bytes, at1) {
                Ok((block, at2)) => Ok((LedgerTxData::L1Block(block), at2)),
                Err(e) => Err(e),
            }
        } else if index == 1 {
            match RoochTransaction::read(bytes, at1) {
                Ok((tx, at2)) => Ok((LedgerTxData::L2Tx(tx), at2)),
                Err(e) => Err(e),
            }
        } else {
            Err(DecodeError::UnknownVariant)
        }
    }

    /// The hash of the data, which is the hash of the block or transaction
    /// in it. It fails exactly when the data has no encoding.
    pub fn tx_hash(&self) -> (r: Result<H256, EncodeError>)
        ensures
            self@.encodable() ==> (r matches Ok(hash) && hash@ == self@.tx_hash()),
            !self@.encodable() ==> r == Err::<H256, EncodeError>(EncodeError::ExceededMaxLen),
    {
        match self {
            LedgerTxData::L1Block(block) => block.tx_hash(),
            LedgerTxData::L2Tx(tx) => tx.tx_hash(),
        }
    }

    /// The sender of the transaction; a block reference has none.
    pub fn sender(&self) -> (r: Option<H256>)
        ensures
            match self@.sender() {
                Some(s) => r matches Some(a) && a@ == s,
                None => r is None,
            },
    {
        match self {
            LedgerTxData::L1Block(_) => None,
            LedgerTxData::L2Tx(tx) => Some(tx.sender),
        }
    }

    /// Whether the data is a reference to a block of the base layer.
    pub fn is_l1_block(&self) -> (r: bool)
        ensures
            r == (self@ is L1Block),
    {
        match self {
            LedgerTxData::L1Block(_) => true,
            LedgerTxData::L2Tx(_) => false,
        }
    }

    /// Whether the data is a layer-2 transaction that relays an event of the
    /// base layer.
    pub fn is_l1_tx(&self) -> (r: bool)
        ensures
            r == self@.is_l1_tx(),
    {
        match self {
            LedgerTxData::L1Block(_) => false,
            LedgerTxData::L2Tx(tx) => tx.l1_originated,
        }
    }
}

impl TransactionSequenceInfo {
    /// A sequence info with the given parts.
    pub fn new(
        tx_order: u64,
        tx_order_signature: Vec<u8>,
        tx_accumulator_root: H256,
        tx_timestamp: u64,
    ) -> (info: TransactionSequenceInfo)
        ensures
            info == (TransactionSequenceInfo {
                tx_order,
                tx_order_signature,
                tx_accumulator_root,
                tx_timestamp,
            }),
    {
        TransactionSequenceInfo { tx_order, tx_order_signature, tx_accumulator_root, tx_timestamp }
    }

    fn write(&self, out: &mut Vec<u8>)
        requires
            self@.encodable(),
        ensures
            final(out)@ == old(out)@ + self@.encoding(),
    {
        let ghost start = out@;
        write_u64(out, self.tx_order);
        write_bytes(out, self.tx_order_signature.as_slice());
        write_digest(out, &self.tx_accumulator_root);
        write_u64(out, self.tx_timestamp);
        assert(out@ =~= start + self@.encoding());
    }

    fn read(bytes: &[u8], pos: usize) -> (r: Result<(TransactionSequenceInfo, usize), DecodeError>)
        requires
            pos <= bytes@.len(),
        ensures
            match TransactionSequenceInfoView::parse(bytes@.skip(pos as int)) {
                Ok((i, rest)) => r matches Ok((v, next)) && v@ == i && remains(bytes@, next, rest),
                Err(e) => r matches Err(x) && x == e,
            },
    {
        let (tx_order, at1) = match read_u64(bytes, pos) {
            Ok(v) => v,
            Err(e) => { return Err(e); },
        };
        let (tx_order_signature, at2) = match read_bytes(bytes, at1) {
            Ok(v) => v,
            Err(e) => { return Err(e); },
        };
        let (tx_accumulator_root, at3) = match read_digest(bytes, at2) {
            Ok(v) => v,
            Err(e) => { return Err(e); },
        };
        let (tx_timestamp, at4) = match read_u64(bytes, at3) {
            Ok(v) => v,
            Err(e) => { return Err(e); },
        };
        Ok(
            (
                TransactionSequenceInfo {
                    tx_order,
                    tx_order_signature,
                    tx_accumulator_root,
                    tx_timestamp,
                },
                at4,
            ),
        )
    }
}

impl LedgerTransaction {
    /// The ledger transaction with the given data and sequence info.
    pub fn new(data: LedgerTxData, sequence_info: TransactionSequenceInfo) -> (tx: Self)
        ensures
            tx == (LedgerTransaction { data, sequence_info }),
    {
        Self { data, sequence_info }
    }

    /// The ledger transaction that records a block of the base layer.
    pub fn new_l1_block(
        chain_id: u64,
        block_height: u64,
        block_hash: Vec<u8>,
        sequence_info: TransactionSequenceInfo,
    ) -> (tx: Self)
        ensures
            tx == (LedgerTransaction {
                data: LedgerTxData::L1Block(L1Block { chain_id, block_height, block_hash }),
                sequence_info,
            }),
    {
        Self {
            data: LedgerTxData::L1Block(L1Block { chain_id, block_height, block_hash }),
            sequence_info,
        }
    }

    /// The ledger transaction that records a layer-2 transaction.
    pub fn new_l2_tx(tx: RoochTransaction, sequence_info: TransactionSequenceInfo) -> (ledger_tx:
        Self)
        ensures
            ledger_tx == (LedgerTransaction { data: LedgerTxData::L2Tx(tx), sequence_info }),
    {
        Self { data: LedgerTxData::L2Tx(tx), sequence_info }
    }

    /// The hash of the transaction: that of its data, whatever the sequence
    /// info holds. It fails exactly when the data has no encoding.
    pub fn tx_hash(&self) -> (r: Result<H256, EncodeError>)
        ensures
            self@.data.encodable() ==> (r matches Ok(hash) && hash@ == self@.tx_hash()),
            !self@.data.encodable() ==> r == Err::<H256, EncodeError>(EncodeError::ExceededMaxLen),
    {
        self.data.tx_hash()
    }

    /// Whether the transaction has an encoding: no byte string in it is
    /// longer than `MAX_SEQUENCE_LENGTH`.
    pub fn is_encodable(&self) -> (r: bool)
        ensures
            r == self@.encodable(),
    {
        self.data.is_encodable() && self.sequence_info.tx_order_signature.len()
            <= MAX_SEQUENCE_LENGTH
    }

    /// The canonical encoding of the transaction.
    pub fn encode(&self) -> (bytes: Vec<u8>)
        requires
            self@.encodable(),
        ensures
            bytes@ == self@.encoding(),
            LedgerTransactionView::decode(bytes@) == Ok::<LedgerTransactionView, DecodeError>(
                self@,
            ),
    {
        let mut out: Vec<u8> = Vec::new();
        self.data.write(&mut out);
        self.sequence_info.write(&mut out);
        assert(out@ =~= self@.encoding());
        proof {
            lemma_decode_encode(self@);
        }
        out
    }

    /// The transaction that `bytes` encode, or the reason why they encode
    /// none. Bytes that decode are the encoding of what they decode to.
    pub fn decode(bytes: &[u8]) -> (r: Result<Self, DecodeError>)
        ensures
            match LedgerTransactionView::decode(bytes@) {
                Ok(tx) => r matches Ok(v) && v@ == tx,
                Err(e) => r matches Err(x) && x == e,
            },
            r matches Ok(v) ==> v@.encodable() && v@.encoding() == bytes@,
    {
        proof {
            lemma_encode_decode(bytes@);
        }
        assert(bytes@.skip(0) =~= bytes@);
        let (data, at1) = match LedgerTxData::read(bytes, 0) {
            Ok(v) => v,
            Err(e) => { return Err(e); },
        };
        let (sequence_info, at2) = match TransactionSequenceInfo::read(bytes, at1) {
            Ok(v) => v,
            Err(e) => { return Err(e); },
        };
        if at2 < bytes.len() {
            return Err(DecodeError::RemainingInput);
        }
        Ok(LedgerTransaction { data, sequence_info })
    }
}

} // verus!
