use crate::block::BlockView;
use crate::transaction::TransactionView;
use crate::tx::{TXInputView, TXOutputView};
use vstd::prelude::*;

verus! {

/// An input as the encoder takes it: transaction id, output index,
/// signature, public key.
pub type InputRecord = (String, i32, Vec<u8>, Vec<u8>);

/// An output as the encoder takes it: value, public-key hash.
pub type OutputRecord = (i32, Vec<u8>);

/// A transaction as the encoder takes it: id, inputs, outputs.
pub type TransactionRecord = (String, Vec<InputRecord>, Vec<OutputRecord>);

/// A block as the encoder takes it: timestamp, transactions, hash of the
/// block before, own hash, height, nonce.
pub type BlockRecord = (u128, Vec<TransactionRecord>, String, String, usize, i32);

/// The input that a record holds.
pub open spec fn input_of_record(r: InputRecord) -> TXInputView {
    TXInputView { txid: r.0@, vout: r.1, signature: r.2@, pub_key: r.3@ }
}

/// The output that a record holds.
pub open spec fn output_of_record(r: OutputRecord) -> TXOutputView {
    TXOutputView { value: r.0, pub_key_hash: r.1@ }
}

/// The inputs that a list of records holds.
pub open spec fn inputs_of_records(s: Seq<InputRecord>) -> Seq<TXInputView> {
    Seq::new(s.len(), |i: int| input_of_record(s[i]))
}

/// The outputs that a list of records holds.
pub open spec fn outputs_of_records(s: Seq<OutputRecord>) -> Seq<TXOutputView> {
    Seq::new(s.len(), |i: int| output_of_record(s[i]))
}

/// The transaction that a record holds.
pub open spec fn transaction_of_record(r: TransactionRecord) -> TransactionView {
    TransactionView {
        id: r.0@,
        vin: inputs_of_records(r.1@),
        vout: outputs_of_records(r.2@),
    }
}

/// The transactions that a list of records holds.
pub open spec fn transactions_of_records(s: Seq<TransactionRecord>) -> Seq<TransactionView> {
    Seq::new(s.len(), |i: int| transaction_of_record(s[i]))
}

/// The block that a record holds.
pub open spec fn block_of_record(r: BlockRecord) -> BlockView {
    BlockView {
        timestamp: r.0,
        transactions: transactions_of_records(r.1@),
        prev_block_hash: r.2@,
        hash: r.3@,
        height: r.4,
        nonce: r.5,
    }
}

/// The canonical bytes of a transaction, where the encoder gives any.
pub uninterp spec fn transaction_bytes(tx: TransactionView) -> Option<Seq<u8>>;

/// The canonical bytes of what a block's hash is taken of: hash of the
/// block before, transactions, timestamp, difficulty, nonce, in this order.
pub uninterp spec fn seal_payload_bytes(
    prev_block_hash: Seq<char>,
    transactions: Seq<TransactionView>,
    timestamp: u128,
    difficulty: usize,
    nonce: i32,
) -> Option<Seq<u8>>;

/// The canonical bytes of a block as it is stored.
pub uninterp spec fn block_bytes(block: BlockView) -> Option<Seq<u8>>;

/// The block that stored bytes hold, where they hold one.
pub uninterp spec fn block_of_bytes(bytes: Seq<u8>) -> Option<BlockView>;

/// Calls `bincode::serialize` on a transaction. Trusted: whether bytes come
/// back, and which, depends on what the record holds alone.
#[verifier::external_body]
pub(crate) fn serialize_transaction(record: &TransactionRecord) -> (bytes: Option<Vec<u8>>)
    ensures
        match bytes {
            Some(b) => transaction_bytes(transaction_of_record(*record)) == Some(b@),
            None => transaction_bytes(transaction_of_record(*record)) is None,
        },
{
    bincode::serialize(record).ok()
}

/// Calls `bincode::serialize` on the five values that a block's hash is
/// taken of. Trusted: whether bytes come back, and which, depends on the
/// five values alone.
#[verifier::external_body]
pub(crate) fn serialize_seal_payload(
    prev_block_hash: &String,
    transactions: &Vec<TransactionRecord>,
    timestamp: u128,
    difficulty: usize,
    nonce: i32,
) -> (bytes: Option<Vec<u8>>)
    ensures
        match bytes {
            Some(b) => seal_payload_bytes(
                prev_block_hash@,
                transactions_of_records(transactions@),
                timestamp,
                difficulty,
                nonce,
            ) == Some(b@),
            None => seal_payload_bytes(
                prev_block_hash@,
                transactions_of_records(transactions@),
                timestamp,
                difficulty,
                nonce,
            ) is None,
        },
{
    bincode::serialize(&(prev_block_hash, transactions, timestamp, difficulty, nonce)).ok()
}

/// Calls `bincode::serialize` on a block. Trusted: whether bytes come back,
/// and which, depends on what the record holds alone, and the bytes that
/// come back are read by `bincode::deserialize` as the same block.
#[verifier::external_body]
pub(crate) fn serialize_block(record: &BlockRecord) -> (bytes: Option<Vec<u8>>)
    ensures
        match bytes {
            Some(b) => block_bytes(block_of_record(*record)) == Some(b@) && block_of_bytes(b@)
                == Some(block_of_record(*record)),
            None => block_bytes(block_of_record(*record)) is None,
        },
{
    bincode::serialize(record).ok()
}

/// Calls `bincode::deserialize` for a block. Trusted: whether a block comes
/// back, and which, depends on the bytes alone.
#[verifier::external_body]
pub(crate) fn deserialize_block(bytes: &[u8]) -> (record: Option<BlockRecord>)
    ensures
        match record {
            Some(r) => block_of_bytes(bytes@) == Some(block_of_record(r)),
            None => block_of_bytes(bytes@) is None,
        },
{
    bincode::deserialize::<BlockRecord>(bytes).ok()
}

} // verus!
