use crate::encoding::{
    block_bytes, block_of_bytes, block_of_record, deserialize_block, seal_payload_bytes,
    serialize_block, serialize_seal_payload, transactions_of_records, BlockRecord,
};
use crate::errors::ChainError;
use crate::hashing::{
    has_leading_zeros, meets_target, sha256_hex, sha256_hex_of, DIGEST_HEX_LEN,
};
use crate::transaction::{
    transactions_from_records, transactions_to_records, transactions_view, Transaction,
    TransactionView,
};
use std::time::SystemTime;
use vstd::prelude::*;

verus! {

/// How many leading zero characters the hash of a sealed block has.
pub const TARGET_HEXT: usize = 4;

/// A set of transactions, linked to the block before it and sealed by a
/// nonce that gives its hash the leading zeros of the target.
#[derive(Debug)]
pub struct Block {
    timestamp: u128,
    transactions: Vec<Transaction>,
    prev_block_hash: String,
    hash: String,
    height: usize,
    nonce: i32,
}

/// What a `Block` holds.
pub struct BlockView {
    pub timestamp: u128,
    pub transactions: Seq<TransactionView>,
    pub prev_block_hash: Seq<char>,
    pub hash: Seq<char>,
    pub height: usize,
    pub nonce: i32,
}

impl View for Block {
    type V = BlockView;

    closed spec fn view(&self) -> BlockView {
        BlockView {
            timestamp: self.timestamp,
            transactions: transactions_view(self.transactions@),
            prev_block_hash: self.prev_block_hash@,
            hash: self.hash@,
            height: self.height,
            nonce: self.nonce,
        }
    }
}

impl BlockView {
    /// The canonical bytes that the block's hash is taken of, were its
    /// nonce `nonce`.
    pub open spec fn payload_at(self, nonce: i32) -> Option<Seq<u8>> {
        seal_payload_bytes(
            self.prev_block_hash,
            self.transactions,
            self.timestamp,
            TARGET_HEXT,
            nonce,
        )
    }

    /// The hash that the block has, were its nonce `nonce`.
    pub open spec fn digest_at(self, nonce: i32) -> Option<Seq<char>> {
        match self.payload_at(nonce) {
            Some(bytes) => Some(sha256_hex_of(bytes)),
            None => None,
        }
    }

    /// Whether `nonce` gives the block a hash that meets the target.
    pub open spec fn nonce_seals(self, nonce: i32) -> Option<bool> {
        match self.digest_at(nonce) {
            Some(digest) => Some(meets_target(digest, TARGET_HEXT as nat)),
            None => None,
        }
    }

    /// Whether the block's own nonce gives it a hash that meets the target.
    pub open spec fn proof_of_work(self) -> Option<bool> {
        self.nonce_seals(self.nonce)
    }

    /// A sealed block holds the hash that its content and nonce give, a
    /// text of 64 characters, and this hash meets the target.
    pub open spec fn is_sealed(self) -> bool {
        &&& self.digest_at(self.nonce) == Some(self.hash)
        &&& self.hash.len() == DIGEST_HEX_LEN
        &&& meets_target(self.hash, TARGET_HEXT as nat)
    }

    /// Whether a search that starts at `from` and counts upwards comes as
    /// far as `nonce`: every nonce before it gives a hash that misses the
    /// target.
    pub open spec fn search_reaches(self, from: i32, nonce: i32) -> bool {
        &&& from <= nonce
        &&& forall|m: i32| from <= m < nonce ==> #[trigger] self.nonce_seals(m) == Some(false)
    }

    /// Whether `sealed` is what sealing makes of the block: the same
    /// content under the first nonce, counted from the block's own, that
    /// meets the target, with the hash that this nonce gives.
    pub open spec fn sealed_as(self, sealed: BlockView) -> bool {
        &&& sealed == BlockView { nonce: sealed.nonce, hash: sealed.hash, ..self }
        &&& sealed.is_sealed()
        &&& self.search_reaches(self.nonce, sealed.nonce)
    }

    /// Whether sealing the block fails with `e`: the search comes to a
    /// nonce for which the content has no canonical bytes, or it misses the
    /// target up to the last nonce there is.
    pub open spec fn sealing_fails(self, e: ChainError) -> bool {
        ||| e == ChainError::SerializationError && exists|n: i32|
            self.search_reaches(self.nonce, n) && #[trigger] self.payload_at(n) is None
        ||| e == ChainError::NonceExhausted && forall|n: i32|
            self.nonce <= n ==> #[trigger] self.nonce_seals(n) == Some(false)
    }

    /// Whether `bytes` is the stored form of the block: what the block
    /// encodes to, and what decodes to the block.
    pub open spec fn stored_as(self, bytes: Seq<u8>) -> bool {
        block_bytes(self) == Some(bytes) && block_of_bytes(bytes) == Some(self)
    }
}

/// The block that `Block::seal` starts from.
pub open spec fn draft_block(
    transactions: Seq<TransactionView>,
    prev_block_hash: Seq<char>,
    height: usize,
    timestamp: u128,
) -> BlockView {
    BlockView { timestamp, transactions, prev_block_hash, hash: Seq::empty(), height, nonce: 0 }
}

/// Reads the system clock with `std::time::SystemTime::now` and gives the
/// milliseconds since the Unix epoch. Nothing is claimed of the reading.
#[verifier::external_body]
pub(crate) fn unix_millis() -> (now: Option<u128>) {
    SystemTime::now().duration_since(SystemTime::UNIX_EPOCH).ok().map(|d| d.as_millis())
}

impl Clone for Block {
    fn clone(&self) -> (copy: Self)
        ensures
            copy@ == self@,
    {
        Block::from_record(&self.to_record())
    }
}

impl Block {
    /// The transactions of the block.
    pub fn get_transaction(&self) -> (transactions: &Vec<Transaction>)
        ensures
            transactions_view(transactions@) == self@.transactions,
    {
        &self.transactions
    }

    /// The hash of the block before; empty for a genesis block.
    pub fn get_prev_hash(&self) -> (hash: String)
        ensures
            hash@ == self@.prev_block_hash,
    {
        self.prev_block_hash.clone()
    }

    /// The hash of the block; empty before the block is sealed.
    pub fn get_hash(&self) -> (hash: String)
        ensures
            hash@ == self@.hash,
    {
        self.hash.clone()
    }

    /// The place of the block in its chain, counted from the genesis
    /// block, which has the height 0.
    pub fn get_height(&self) -> (height: usize)
        ensures
            height == self@.height,
    {
        self.height
    }

    /// When the block was made, in milliseconds since the Unix epoch.
    pub fn get_timestamp(&self) -> (timestamp: u128)
        ensures
            timestamp == self@.timestamp,
    {
        self.timestamp
    }

    /// The nonce under which the hash of the block is taken.
    pub fn get_nonce(&self) -> (nonce: i32)
        ensures
            nonce == self@.nonce,
    {
        self.nonce
    }

    /// The block as the encoder takes it.
    pub fn to_record(&self) -> (record: BlockRecord)
        ensures
            block_of_record(record) == self@,
    {
        (
            self.timestamp,
            transactions_to_records(&self.transactions),
            self.prev_block_hash.clone(),
            self.hash.clone(),
            self.height,
            self.nonce,
        )
    }

    /// The block that a record holds.
    pub fn from_record(record: &BlockRecord) -> (block: Block)
        ensures
            block@ == block_of_record(*record),
    {
        Block {
            timestamp: record.0,
            transactions: transactions_from_records(&record.1),
            prev_block_hash: record.2.clone(),
            hash: record.3.clone(),
            height: record.4,
            nonce: record.5,
        }
    }

    /// The bytes under which the block is stored.
    pub fn serialize(&self) -> (bytes: Result<Vec<u8>, ChainError>)
        ensures
            match bytes {
                Ok(b) => self@.stored_as(b@),
                Err(e) => e == ChainError::SerializationError && block_bytes(self@) is None,
            },
    {
        let record = self.to_record();
        match serialize_block(&record) {
            Some(bytes) => Ok(bytes),
            None => Err(ChainError::SerializationError),
        }
    }

    /// The block that stored bytes hold.
    pub fn deserialize(bytes: &[u8]) -> (block: Result<Block, ChainError>)
        ensures
            match block_of_bytes(bytes@) {
                Some(v) => block is Ok && block->Ok_0@ == v,
                None => block == Err::<Block, ChainError>(ChainError::SerializationError),
            },
    {
        match deserialize_block(bytes) {
            Some(record) => Ok(Block::from_record(&record)),
            None => Err(ChainError::SerializationError),
        }
    }

    /// The canonical bytes that the block's hash is taken of.
    pub fn prepare_hash_data(&self) -> (data: Result<Vec<u8>, ChainError>)
        ensures
            match self@.payload_at(self@.nonce) {
                Some(bytes) => data is Ok && data->Ok_0@ == bytes,
                None => data == Err::<Vec<u8>, ChainError>(ChainError::SerializationError),
            },
    {
        let records = transactions_to_records(&self.transactions);
        match serialize_seal_payload(
            &self.prev_block_hash,
            &records,
            self.timestamp,
            TARGET_HEXT,
            self.nonce,
        ) {
            Some(bytes) => Ok(bytes),
            None => Err(ChainError::SerializationError),
        }
    }

    /// Whether the hash that content and nonce give meets the target.
    pub fn validate(&self) -> (valid: Result<bool, ChainError>)
        ensures
            match self@.proof_of_work() {
                Some(met) => valid == Ok::<bool, ChainError>(met),
                None => valid == Err::<bool, ChainError>(ChainError::SerializationError),
            },
    {
        let data = match self.prepare_hash_data() {
            Ok(data) => data,
            Err(e) => { return Err(e); },
        };
        let digest = sha256_hex(data.as_slice());
        Ok(has_leading_zeros(digest.as_str(), TARGET_HEXT))
    }

    /// Whether the block holds the hash that its content and nonce give,
    /// and this hash meets the target.
    pub fn is_sealed(&self) -> (sealed: bool)
        ensures
            sealed == self@.is_sealed(),
    {
        let data = match self.prepare_hash_data() {
            Ok(data) => data,
            Err(_) => { return false; },
        };
        let digest = sha256_hex(data.as_slice());
        digest == self.hash && has_leading_zeros(digest.as_str(), TARGET_HEXT)
    }

    /// Seals the block: counts the nonce upwards from where it stands to
    /// the first that gives a hash meeting the target, and sets nonce and
    /// hash. A block that cannot be sealed is left as it was.
    pub fn run_proof_of_work(&mut self) -> (done: Result<(), ChainError>)
        ensures
            match done {
                Ok(_) => old(self)@.sealed_as(final(self)@),
                Err(e) => old(self)@.sealing_fails(e) && *final(self) == *old(self),
            },
    {
        let records = transactions_to_records(&self.transactions);
        let mut nonce: i32 = self.nonce;
        loop
            invariant
                *self == *old(self),
                transactions_of_records(records@) == self@.transactions,
                self@.search_reaches(self@.nonce, nonce),
            decreases i32::MAX - nonce,
        {
            let bytes = match serialize_seal_payload(
                &self.prev_block_hash,
                &records,
                self.timestamp,
                TARGET_HEXT,
                nonce,
            ) {
                Some(bytes) => bytes,
                None => {
                    assert(self@.payload_at(nonce) is None);
                    return Err(ChainError::SerializationError);
                },
            };
            let digest = sha256_hex(bytes.as_slice());
            assert(self@.digest_at(nonce) == Some(digest@));
            if has_leading_zeros(digest.as_str(), TARGET_HEXT) {
                self.nonce = nonce;
                self.hash = digest;
                return Ok(());
            }
            assert(self@.nonce_seals(nonce) == Some(false));
            if nonce == i32::MAX {
                return Err(ChainError::NonceExhausted);
            }
            nonce += 1;
        }
    }

    /// The sealed block of `transactions` that follows the block with the
    /// hash `prev_block_hash`, at `height`, made at `timestamp`.
    pub fn seal(
        transactions: Vec<Transaction>,
        prev_block_hash: String,
        height: usize,
        timestamp: u128,
    ) -> (sealed: Result<Block, ChainError>)
        ensures
            match sealed {
                Ok(block) => draft_block(
                    transactions_view(transactions@),
                    prev_block_hash@,
                    height,
                    timestamp,
                ).sealed_as(block@),
                Err(e) => draft_block(
                    transactions_view(transactions@),
                    prev_block_hash@,
                    height,
                    timestamp,
                ).sealing_fails(e),
            },
    {
        let mut block = Block {
            timestamp,
            transactions,
            prev_block_hash,
            hash: String::new(),
            height,
            nonce: 0,
        };
        match block.run_proof_of_work() {
            Ok(()) => Ok(block),
            Err(e) => Err(e),
        }
    }

    /// The sealed block of `data` that follows the block with the hash
    /// `prev_block_hash`, at `height`, made now.
    pub fn new_block(data: Vec<Transaction>, prev_block_hash: String, height: usize) -> (made:
        Result<Block, ChainError>)
        ensures
            match made {
                Ok(block) => exists|timestamp: u128|
                    (#[trigger] draft_block(
                        transactions_view(data@),
                        prev_block_hash@,
                        height,
                        timestamp,
                    )).sealed_as(block@),
                Err(e) => e == ChainError::ClockUnavailable || exists|timestamp: u128|
                    (#[trigger] draft_block(
                        transactions_view(data@),
                        prev_block_hash@,
                        height,
                        timestamp,
                    )).sealing_fails(e),
            },
    {
        let timestamp = match unix_millis() {
            Some(t) => t,
            None => { return Err(ChainError::ClockUnavailable); },
        };
        Block::seal(data, prev_block_hash, height, timestamp)
    }

    /// The first block of a chain, made now: it holds `coinbase` alone and
    /// follows no block.
    pub fn new_genesis_block(coinbase: Transaction) -> (made: Result<Block, ChainError>)
        ensures
            match made {
                Ok(block) => exists|timestamp: u128|
                    (#[trigger] draft_block(
                        seq![coinbase@],
                        Seq::empty(),
                        0,
                        timestamp,
                    )).sealed_as(block@),
                Err(e) => e == ChainError::ClockUnavailable || exists|timestamp: u128|
                    (#[trigger] draft_block(
                        seq![coinbase@],
                        Seq::empty(),
                        0,
                        timestamp,
                    )).sealing_fails(e),
            },
    {
        let mut data: Vec<Transaction> = Vec::new();
        data.push(coinbase);
        assert(transactions_view(data@) =~= seq![coinbase@]);
        Block::new_block(data, String::new(), 0)
    }
}

/// Sealing has one outcome: a block is sealed in one way at most, and a
/// block that can be sealed does not fail to be.
pub proof fn lemma_sealing_is_determined(
    draft: BlockView,
    first: BlockView,
    second: BlockView,
    e: ChainError,
)
    requires
        draft.sealed_as(first),
    ensures
        draft.sealed_as(second) ==> first == second,
        !draft.sealing_fails(e),
{
    assert(draft.nonce_seals(first.nonce) == Some(true));
    if draft.sealed_as(second) {
        assert(draft.nonce_seals(second.nonce) == Some(true));
        assert(first.nonce == second.nonce);
    }
    if draft.sealing_fails(e) {
        if e == ChainError::SerializationError {
            let n = choose|n: i32|
                draft.search_reaches(draft.nonce, n) && #[trigger] draft.payload_at(n) is None;
            if first.nonce < n {
                assert(draft.nonce_seals(first.nonce) == Some(false));
            } else if n < first.nonce {
                assert(draft.nonce_seals(n) == Some(false));
            }
        } else {
            assert(draft.nonce_seals(first.nonce) == Some(false));
        }
    }
}

/// A sealed block passes validation.
pub proof fn lemma_sealed_block_validates(block: BlockView)
    requires
        block.is_sealed(),
    ensures
        block.proof_of_work() == Some(true),
{
}

/// The block that is read back from the stored bytes of a sealed block is
/// the same block, and passes validation.
pub proof fn lemma_sealed_block_validates_after_round_trip(block: BlockView, bytes: Seq<u8>)
    requires
        block.is_sealed(),
        block.stored_as(bytes),
    ensures
        block_of_bytes(bytes) == Some(block),
        block_of_bytes(bytes)->Some_0.proof_of_work() == Some(true),
{
}

} // verus!
