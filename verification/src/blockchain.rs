use crate::block::{draft_block, unix_millis, Block, BlockView};
use crate::encoding::{block_bytes, block_of_bytes};
use crate::errors::ChainError;
use crate::hashing::{bytes_equal, copy_bytes};
use crate::store::Store;
use crate::transaction::{
    fails_first_at, find_by_id, new_coinbase_outcome, position_by_id, transactions_view,
    Transaction, TransactionView,
};
use crate::utxoset::{unspent_outputs, UTXOSet};
use vstd::prelude::*;
use vstd::utf8::{
    decode_utf8, decode_utf8_encode_utf8, encode_utf8, encode_utf8_decode_utf8, valid_utf8,
};

verus! {

/// What the input of the first coinbase transaction of a chain carries.
pub const GENESIS_COINBASE_DATA: &'static str =
    "The Times 03/Jan/2009 Chancellor on brink of second bailout for banks";

/// The key under which the store keeps the hash of the newest block.
pub const TIP_KEY: &'static str = "LAST";

/// The key under which the store keeps the hash of the newest block.
pub open spec fn tip_key() -> Seq<char> {
    TIP_KEY@
}

/// Reads bytes as text with `String::from_utf8`. Trusted: text comes back
/// for valid UTF-8 and for nothing else, and it is the text that the bytes
/// encode.
#[verifier::external_body]
pub(crate) fn string_from_utf8(bytes: Vec<u8>) -> (text: Option<String>)
    ensures
        match text {
            Some(t) => valid_utf8(bytes@) && t@ == decode_utf8(bytes@),
            None => !valid_utf8(bytes@),
        },
{
    String::from_utf8(bytes).ok()
}

/// What a list of blocks holds.
pub open spec fn blocks_view(s: Seq<Block>) -> Seq<BlockView> {
    Seq::new(s.len(), |i: int| s[i]@)
}

/// The blocks that are met on the way back from the block stored under
/// `hash`, newest first. The way follows each block's link to the block
/// before it. It ends behind a block that has no link (a genesis block), and
/// before a key that is the tip key, has no entry, or has an entry that holds
/// no block; and it takes `fuel` blocks at most.
pub open spec fn walk(db: Map<Seq<char>, Seq<u8>>, hash: Seq<char>, fuel: nat) -> Seq<BlockView>
    decreases fuel,
{
    if fuel == 0 || hash.len() == 0 || hash == tip_key() || !db.contains_key(hash) {
        Seq::empty()
    } else {
        match block_of_bytes(db[hash]) {
            None => Seq::empty(),
            Some(block) => seq![block] + walk(db, block.prev_block_hash, (fuel - 1) as nat),
        }
    }
}

/// Whether a chain, newest block first, goes back to a genesis block.
pub open spec fn ends_at_genesis(chain: Seq<BlockView>) -> bool {
    chain.len() > 0 && chain.last().prev_block_hash.len() == 0
}

/// Whether a chain, newest block first, is in order: it goes back to a
/// genesis block of height 0, `tip` is the hash of its newest block, each
/// block names the hash of the block before it and stands one higher, and
/// every block is sealed.
pub open spec fn linked(chain: Seq<BlockView>, tip: Seq<char>) -> bool {
    &&& ends_at_genesis(chain)
    &&& chain[0].hash == tip
    &&& chain.last().height == 0
    &&& forall|i: int|
        0 <= i < chain.len() - 1 ==> (#[trigger] chain[i]).prev_block_hash == chain[i + 1].hash
            && chain[i].height == chain[i + 1].height + 1
    &&& forall|i: int| 0 <= i < chain.len() ==> (#[trigger] chain[i]).is_sealed()
}

/// The first transaction with the id `id` that is met on a chain, newest
/// block first.
pub open spec fn find_in_chain(chain: Seq<BlockView>, id: Seq<char>) -> Option<TransactionView>
    decreases chain.len(),
{
    if chain.len() == 0 {
        None
    } else {
        match find_by_id(chain[0].transactions, id) {
            Some(tx) => Some(tx),
            None => find_in_chain(chain.drop_first(), id),
        }
    }
}

/// A walk that goes back to a genesis block does not meet a key that the
/// store lacks, so it is the same in a store that differs under such a key
/// and under the tip key alone.
pub proof fn lemma_walk_frame(
    db0: Map<Seq<char>, Seq<u8>>,
    db1: Map<Seq<char>, Seq<u8>>,
    fresh: Seq<char>,
    hash: Seq<char>,
    fuel: nat,
)
    requires
        !db0.contains_key(fresh),
        forall|k: Seq<char>|
            k != fresh && k != tip_key() ==> (db0.contains_key(k) <==> #[trigger] db1.contains_key(
                k,
            )) && db0[k] == db1[k],
        hash.len() == 0 || ends_at_genesis(walk(db0, hash, fuel)),
    ensures
        walk(db1, hash, fuel) == walk(db0, hash, fuel),
    decreases fuel,
{
    if hash.len() > 0 {
        assert(walk(db0, hash, fuel).len() > 0);
        assert(db1.contains_key(hash));
        let block = block_of_bytes(db0[hash])->Some_0;
        let rest = walk(db0, block.prev_block_hash, (fuel - 1) as nat);
        assert(walk(db0, hash, fuel) == seq![block] + rest);
        if rest.len() > 0 {
            assert((seq![block] + rest).last() == rest.last());
        }
        lemma_walk_frame(db0, db1, fresh, block.prev_block_hash, (fuel - 1) as nat);
    }
}

/// The ledger: a chain of blocks in a key-value store, each stored under
/// its hash, and the hash of the newest under the tip key.
#[derive(Debug)]
pub struct Blockchain {
    current_hash: String,
    db: Store,
}

/// A cursor that goes back over the chain from the block that was newest
/// when the cursor was made.
pub struct BlockchainIterator<'a> {
    current_hash: String,
    bc: &'a Blockchain,
    remaining: usize,
    at_genesis: bool,
}

/// What the store of a chain that holds the block `genesis` alone holds.
pub open spec fn genesis_entries(genesis: BlockView) -> Map<Seq<char>, Seq<u8>> {
    Map::<Seq<char>, Seq<u8>>::empty().insert(genesis.hash, block_bytes(genesis)->Some_0).insert(
        tip_key(),
        encode_utf8(genesis.hash),
    )
}

/// Whether making a chain for `address` at `timestamp` comes to `result`:
/// to a sealed genesis block that holds the first coinbase transaction and
/// has stored bytes, or to the error of the first step that fails.
pub open spec fn genesis_outcome(
    address: Seq<char>,
    timestamp: u128,
    result: Result<BlockView, ChainError>,
) -> bool {
    match new_coinbase_outcome(address, GENESIS_COINBASE_DATA@) {
        Err(e) => result == Err::<BlockView, ChainError>(e),
        Ok(coinbase) => {
            let draft = draft_block(seq![coinbase], Seq::empty(), 0, timestamp);
            match result {
                Ok(block) => draft.sealed_as(block) && block_bytes(block) is Some,
                Err(e) => draft.sealing_fails(e) || (e == ChainError::SerializationError
                    && exists|block: BlockView| #[trigger]
                        draft.sealed_as(block) && block_bytes(block) is None),
            }
        },
    }
}

/// Whether appending `transactions` at `timestamp` to the chain in `db`
/// comes to `result`: to a sealed block one higher than the newest, linked
/// to it, with stored bytes and a hash that the store has no entry for, or
/// to the error of the first step that fails.
pub open spec fn append_outcome(
    db: Map<Seq<char>, Seq<u8>>,
    transactions: Seq<TransactionView>,
    timestamp: u128,
    result: Result<BlockView, ChainError>,
) -> bool {
    if !db.contains_key(tip_key()) {
        result == Err::<BlockView, ChainError>(ChainError::UninitializedChain)
    } else if !valid_utf8(db[tip_key()]) {
        result == Err::<BlockView, ChainError>(ChainError::SerializationError)
    } else {
        let last_hash = decode_utf8(db[tip_key()]);
        if !db.contains_key(last_hash) {
            result == Err::<BlockView, ChainError>(ChainError::CorruptChain)
        } else {
            match block_of_bytes(db[last_hash]) {
                None => result == Err::<BlockView, ChainError>(ChainError::SerializationError),
                Some(tip) => if tip.height == usize::MAX {
                    result == Err::<BlockView, ChainError>(ChainError::CorruptChain)
                } else {
                    let draft = draft_block(
                        transactions,
                        last_hash,
                        (tip.height + 1) as usize,
                        timestamp,
                    );
                    match result {
                        Ok(block) => draft.sealed_as(block) && !db.contains_key(block.hash)
                            && block_bytes(block) is Some,
                        Err(e) => draft.sealing_fails(e) || exists|block: BlockView| #[trigger]
                            draft.sealed_as(block) && if db.contains_key(block.hash) {
                                e == ChainError::CorruptChain
                            } else {
                                e == ChainError::SerializationError && block_bytes(block) is None
                            },
                    }
                },
            }
        }
    }
}

/// What looking up the transactions that the inputs of `tx` name comes to
/// on a chain, input by input.
pub open spec fn prev_lookups(chain: Seq<BlockView>, tx: TransactionView) -> Seq<
    Result<TransactionView, ChainError>,
> {
    Seq::new(
        tx.vin.len(),
        |i: int|
            match find_in_chain(chain, tx.vin[i].txid) {
                Some(found) => Ok(found),
                None => Err(ChainError::TransactionNotFound),
            },
    )
}

/// Whether signing `before` with `key`, against the transactions that its
/// inputs name on `chain`, makes `after` of it, with the answer `done`.
/// Where a named transaction is not on the chain, nothing is signed.
pub open spec fn signed_on_chain(
    chain: Seq<BlockView>,
    before: TransactionView,
    after: TransactionView,
    key: Seq<u8>,
    done: Result<(), ChainError>,
) -> bool {
    let lookups = prev_lookups(chain, before);
    if forall|i: int| 0 <= i < lookups.len() ==> (#[trigger] lookups[i]) is Ok {
        before.signed_as(after, key, Seq::new(lookups.len(), |i: int| lookups[i]->Ok_0), done)
    } else {
        &&& after == before
        &&& done is Err
        &&& exists|i: int| fails_first_at(lookups, i, done->Err_0)
    }
}

/// The transactions that the inputs of `tx` name, where all are on the
/// chain.
pub open spec fn named_by_inputs(chain: Seq<BlockView>, tx: TransactionView) -> Option<
    Seq<TransactionView>,
> {
    let lookups = prev_lookups(chain, tx);
    if forall|i: int| 0 <= i < lookups.len() ==> (#[trigger] lookups[i]) is Ok {
        Some(Seq::new(lookups.len(), |i: int| lookups[i]->Ok_0))
    } else {
        None
    }
}

/// What verifying `tx` against a chain comes to. A coinbase transaction is
/// valid. Any other is verified against the transactions that its inputs
/// name, and cannot be where one of them is not on the chain.
pub open spec fn verification_on_chain(chain: Seq<BlockView>, tx: TransactionView) -> Result<
    bool,
    ChainError,
> {
    if tx.is_coinbase() {
        Ok(true)
    } else {
        match named_by_inputs(chain, tx) {
            Some(prevs) => tx.verification(prevs),
            None => Err(ChainError::TransactionNotFound),
        }
    }
}

/// What stands against taking the transactions `txs` from the place `t` on
/// into a block: the error of the first that cannot be verified, or
/// `InvalidSignature` for the first that is not valid.
pub open spec fn objection_from(chain: Seq<BlockView>, txs: Seq<TransactionView>, t: int) -> Option<
    ChainError,
>
    decreases txs.len() - t,
{
    if t < 0 || t >= txs.len() {
        None
    } else {
        match verification_on_chain(chain, txs[t]) {
            Ok(true) => objection_from(chain, txs, t + 1),
            Ok(false) => Some(ChainError::InvalidSignature),
            Err(e) => Some(e),
        }
    }
}

/// The view of what a function that makes a block answers.
pub open spec fn block_outcome(made: Result<Block, ChainError>) -> Result<BlockView, ChainError> {
    match made {
        Ok(block) => Ok(block@),
        Err(e) => Err(e),
    }
}

impl<'a> BlockchainIterator<'a> {
    /// The blocks that the cursor has still to give, newest first.
    pub closed spec fn rest(&self) -> Seq<BlockView> {
        walk(self.bc.entries(), self.current_hash@, self.remaining as nat)
    }

    /// Whether the last block that the cursor gave is a genesis block.
    pub closed spec fn complete(&self) -> bool {
        self.at_genesis
    }

    /// The next block on the way back, or nothing where the way ends.
    pub fn next(&mut self) -> (item: Option<Block>)
        ensures
            match item {
                Some(block) => old(self).rest() == seq![block@] + final(self).rest()
                    && final(self).complete() == (block@.prev_block_hash.len() == 0),
                None => old(self).rest().len() == 0 && final(self).rest().len() == 0
                    && final(self).complete() == old(self).complete(),
            },
    {
        if self.remaining == 0 || self.current_hash.as_str().is_empty() {
            return None;
        }
        let last_key = String::from_str(TIP_KEY);
        if self.current_hash == last_key {
            return None;
        }
        match self.bc.db.get(&self.current_hash) {
            None => None,
            Some(bytes) => match Block::deserialize(bytes.as_slice()) {
                Err(_) => None,
                Ok(block) => {
                    self.current_hash = block.get_prev_hash();
                    self.remaining = self.remaining - 1;
                    self.at_genesis = self.current_hash.as_str().is_empty();
                    Some(block)
                },
            },
        }
    }

    /// Whether the way back has come to a genesis block: `CorruptChain`
    /// where the cursor has given no block yet or the last that it gave is
    /// none.
    pub fn status(&self) -> (reached: Result<(), ChainError>)
        ensures
            match reached {
                Ok(_) => self.complete(),
                Err(e) => e == ChainError::CorruptChain && !self.complete(),
            },
    {
        if self.at_genesis {
            Ok(())
        } else {
            Err(ChainError::CorruptChain)
        }
    }
}

impl Blockchain {
    /// The hash of the newest block.
    pub closed spec fn tip(&self) -> Seq<char> {
        self.current_hash@
    }

    /// What the store holds.
    pub closed spec fn entries(&self) -> Map<Seq<char>, Seq<u8>> {
        self.db@
    }

    /// How many blocks a walk over the chain takes at most: as many as the
    /// store keeps entries.
    pub closed spec fn fuel(&self) -> nat {
        self.db.count()
    }

    /// The blocks of the chain, newest first, as far as the store gives
    /// them.
    pub open spec fn chain(&self) -> Seq<BlockView> {
        walk(self.entries(), self.tip(), self.fuel())
    }

    /// Whether the ledger is in order: the store keeps the hash of the
    /// newest block under the tip key, and the chain is linked.
    pub open spec fn well_formed(&self) -> bool {
        &&& self.entries().contains_key(tip_key())
        &&& self.entries()[tip_key()] == encode_utf8(self.tip())
        &&& linked(self.chain(), self.tip())
    }

    /// Whether `after` is what appending `transactions` at `timestamp`
    /// makes of the ledger `self`, with the answer `result`.
    pub open spec fn appended_at(
        &self,
        after: &Blockchain,
        transactions: Seq<TransactionView>,
        timestamp: u128,
        result: Result<BlockView, ChainError>,
    ) -> bool {
        &&& append_outcome(self.entries(), transactions, timestamp, result)
        &&& match result {
            Ok(block) => {
                &&& after.tip() == block.hash
                &&& after.entries() == self.entries().insert(
                    block.hash,
                    block_bytes(block)->Some_0,
                ).insert(tip_key(), encode_utf8(block.hash))
                &&& after.fuel() == self.fuel() + 1
                &&& self.well_formed() ==> after.well_formed() && after.chain() == seq![block]
                    + self.chain()
            },
            Err(_) => *after == *self,
        }
    }

    /// The ledger that a store holds.
    pub fn new(db: Store) -> (opened: Result<Blockchain, ChainError>)
        ensures
            match opened {
                Ok(bc) => {
                    &&& db@.contains_key(tip_key())
                    &&& valid_utf8(db@[tip_key()])
                    &&& bc.tip() == decode_utf8(db@[tip_key()])
                    &&& bc.entries() == db@
                    &&& bc.entries()[tip_key()] == encode_utf8(bc.tip())
                    &&& bc.fuel() == db.count()
                },
                Err(e) => if db@.contains_key(tip_key()) {
                    e == ChainError::SerializationError && !valid_utf8(db@[tip_key()])
                } else {
                    e == ChainError::UninitializedChain
                },
            },
    {
        let last_key = String::from_str(TIP_KEY);
        let last = match db.get(&last_key) {
            Some(bytes) => bytes,
            None => { return Err(ChainError::UninitializedChain); },
        };
        match string_from_utf8(last) {
            Some(hash) => {
                proof {
                    decode_utf8_encode_utf8(db@[tip_key()]);
                }
                Ok(Blockchain { current_hash: hash, db })
            },
            None => Err(ChainError::SerializationError),
        }
    }

    /// A new ledger whose genesis block, made at `timestamp`, pays the
    /// reward to the owner that `address` names.
    pub fn create_blockchain_at(address: String, timestamp: u128) -> (made: Result<
        Blockchain,
        ChainError,
    >)
        ensures
            match made {
                Ok(bc) => {
                    &&& bc.fuel() == 2
                    &&& bc.chain().len() == 1
                    &&& genesis_outcome(
                        address@,
                        timestamp,
                        Ok::<BlockView, ChainError>(bc.chain()[0]),
                    )
                    &&& bc.tip() == bc.chain()[0].hash
                    &&& bc.entries() == genesis_entries(bc.chain()[0])
                    &&& bc.well_formed()
                },
                Err(e) => genesis_outcome(address@, timestamp, Err::<BlockView, ChainError>(e)),
            },
    {
        let note = String::from_str(GENESIS_COINBASE_DATA);
        let cbtx = match Transaction::new_coinbase(address, note) {
            Ok(tx) => tx,
            Err(e) => { return Err(e); },
        };
        let mut data: Vec<Transaction> = Vec::new();
        data.push(cbtx);
        assert(transactions_view(data@) =~= seq![cbtx@]);
        let genesis = match Block::seal(data, String::new(), 0, timestamp) {
            Ok(block) => block,
            Err(e) => { return Err(e); },
        };
        let hash = genesis.get_hash();
        let bytes = match genesis.serialize() {
            Ok(bytes) => bytes,
            Err(e) => { return Err(e); },
        };
        let mut db = Store::new();
        db.insert(hash.clone(), bytes);
        db.insert(String::from_str(TIP_KEY), copy_bytes(hash.as_str().as_bytes()));
        let bc = Blockchain { current_hash: hash, db };
        proof {
            reveal_strlit("LAST");
            let g = genesis@;
            assert(g.hash != tip_key());
            assert(bc.entries().contains_key(g.hash));
            assert(bc.entries()[g.hash] == bytes@);
            assert(walk(bc.entries(), g.prev_block_hash, 1) =~= Seq::<BlockView>::empty());
            assert(bc.chain() =~= seq![g]);
        }
        Ok(bc)
    }

    /// Seals `transactions` into a block made at `timestamp`, one higher
    /// than the newest and linked to it, stores it and makes it the newest.
    /// A ledger to which the block cannot be added is left as it was.
    pub fn add_block_at(&mut self, transactions: Vec<Transaction>, timestamp: u128) -> (made:
        Result<Block, ChainError>)
        ensures
            old(self).appended_at(
                final(self),
                transactions_view(transactions@),
                timestamp,
                block_outcome(made),
            ),
    {
        let last_key = String::from_str(TIP_KEY);
        let last = match self.db.get(&last_key) {
            Some(bytes) => bytes,
            None => { return Err(ChainError::UninitializedChain); },
        };
        let last_hash = match string_from_utf8(last) {
            Some(hash) => hash,
            None => { return Err(ChainError::SerializationError); },
        };
        let tip_bytes = match self.db.get(&last_hash) {
            Some(bytes) => bytes,
            None => { return Err(ChainError::CorruptChain); },
        };
        let tip_block = match Block::deserialize(tip_bytes.as_slice()) {
            Ok(block) => block,
            Err(e) => { return Err(e); },
        };
        if tip_block.get_height() == usize::MAX {
            return Err(ChainError::CorruptChain);
        }
        let block = match Block::seal(
            transactions,
            last_hash,
            tip_block.get_height() + 1,
            timestamp,
        ) {
            Ok(block) => block,
            Err(e) => { return Err(e); },
        };
        let hash = block.get_hash();
        if self.db.contains_key(&hash) {
            return Err(ChainError::CorruptChain);
        }
        let bytes = match block.serialize() {
            Ok(bytes) => bytes,
            Err(e) => { return Err(e); },
        };
        self.db.insert(hash.clone(), bytes);
        self.db.insert(last_key, copy_bytes(hash.as_str().as_bytes()));
        self.current_hash = hash;
        proof {
            let db0 = old(self).entries();
            let db1 = self.entries();
            let b = block@;
            if old(self).well_formed() {
                encode_utf8_decode_utf8(old(self).tip());
                assert(last_hash@ == old(self).tip());
                assert(b.hash != tip_key());
                assert(b.hash.len() > 0);
                assert(db1[b.hash] == bytes@);
                let fuel0 = old(self).fuel();
                assert(self.fuel() == fuel0 + 1);
                lemma_walk_frame(db0, db1, b.hash, old(self).tip(), fuel0);
                let rest = walk(db1, b.prev_block_hash, fuel0);
                assert(rest == old(self).chain());
                assert(self.chain() == seq![b] + rest);
                let chain = self.chain();
                assert(tip_block@ == rest[0]);
                assert forall|i: int| 0 <= i < chain.len() - 1 implies (
                #[trigger] chain[i]).prev_block_hash == chain[i + 1].hash && chain[i].height
                    == chain[i + 1].height + 1 by {
                    if i > 0 {
                        assert(chain[i] == rest[i - 1]);
                        assert(chain[i + 1] == rest[i]);
                    }
                }
                assert forall|i: int| 0 <= i < chain.len() implies (
                #[trigger] chain[i]).is_sealed() by {
                    if i > 0 {
                        assert(chain[i] == rest[i - 1]);
                    }
                }
                assert(chain.last() == rest.last());
            }
        }
        Ok(block)
    }

    /// The hash of the newest block.
    pub fn tip_hash(&self) -> (hash: String)
        ensures
            hash@ == self.tip(),
    {
        self.current_hash.clone()
    }

    /// The store of the ledger.
    pub fn db(&self) -> (db: &Store)
        ensures
            db@ == self.entries(),
            db.count() == self.fuel(),
    {
        &self.db
    }

    /// Whether the ledger is one that `create_blockchain_at` makes for
    /// `address` at `timestamp`.
    pub open spec fn created_at(&self, address: Seq<char>, timestamp: u128) -> bool {
        &&& self.fuel() == 2
        &&& self.chain().len() == 1
        &&& genesis_outcome(address, timestamp, Ok::<BlockView, ChainError>(self.chain()[0]))
        &&& self.tip() == self.chain()[0].hash
        &&& self.entries() == genesis_entries(self.chain()[0])
        &&& self.well_formed()
    }

    /// A new ledger whose genesis block, made now, pays the reward to the
    /// owner that `address` names.
    pub fn create_blockchain(address: String) -> (made: Result<Blockchain, ChainError>)
        ensures
            match made {
                Ok(bc) => exists|timestamp: u128| bc.created_at(address@, timestamp),
                Err(e) => e == ChainError::ClockUnavailable || exists|timestamp: u128|
                    genesis_outcome(address@, timestamp, Err::<BlockView, ChainError>(e)),
            },
    {
        let timestamp = match unix_millis() {
            Some(t) => t,
            None => { return Err(ChainError::ClockUnavailable); },
        };
        match Blockchain::create_blockchain_at(address, timestamp) {
            Ok(bc) => {
                assert(bc.created_at(address@, timestamp));
                Ok(bc)
            },
            Err(e) => {
                assert(genesis_outcome(address@, timestamp, Err::<BlockView, ChainError>(e)));
                Err(e)
            },
        }
    }

    /// Seals `transactions` into a block made now, one higher than the
    /// newest and linked to it, stores it and makes it the newest. A ledger
    /// to which the block cannot be added is left as it was.
    pub fn add_block(&mut self, transactions: Vec<Transaction>) -> (made: Result<Block, ChainError>)
        ensures
            (made matches Err(ChainError::ClockUnavailable) && *final(self) == *old(self))
                || exists|timestamp: u128|
                old(self).appended_at(
                    final(self),
                    transactions_view(transactions@),
                    timestamp,
                    block_outcome(made),
                ),
    {
        let timestamp = match unix_millis() {
            Some(t) => t,
            None => { return Err(ChainError::ClockUnavailable); },
        };
        let made = self.add_block_at(transactions, timestamp);
        assert(old(self).appended_at(
            &*self,
            transactions_view(transactions@),
            timestamp,
            block_outcome(made),
        ));
        made
    }

    /// A cursor at the newest block.
    pub fn iter(&self) -> (cursor: BlockchainIterator<'_>)
        ensures
            cursor.rest() == self.chain(),
            !cursor.complete(),
    {
        BlockchainIterator {
            current_hash: self.current_hash.clone(),
            bc: self,
            remaining: self.db.len(),
            at_genesis: false,
        }
    }

    /// The blocks of the chain, newest first, where the chain goes back to
    /// a genesis block.
    pub fn blocks(&self) -> (found: Result<Vec<Block>, ChainError>)
        ensures
            match found {
                Ok(blocks) => blocks_view(blocks@) == self.chain() && ends_at_genesis(self.chain()),
                Err(e) => e == ChainError::CorruptChain && !ends_at_genesis(self.chain()),
            },
    {
        let mut cursor = self.iter();
        let mut blocks: Vec<Block> = Vec::new();
        loop
            invariant
                blocks_view(blocks@) + cursor.rest() == self.chain(),
                cursor.complete() == ends_at_genesis(blocks_view(blocks@)),
            ensures
                blocks_view(blocks@) == self.chain(),
                cursor.complete() == ends_at_genesis(blocks_view(blocks@)),
            decreases cursor.rest().len(),
        {
            let ghost before = blocks_view(blocks@);
            match cursor.next() {
                None => {
                    assert(before + cursor.rest() =~= before);
                    break ;
                },
                Some(block) => {
                    blocks.push(block);
                    assert(blocks_view(blocks@) =~= before + seq![block@]);
                    assert(blocks_view(blocks@) + cursor.rest() =~= before + (seq![block@]
                        + cursor.rest()));
                },
            }
        }
        match cursor.status() {
            Ok(()) => Ok(blocks),
            Err(e) => Err(e),
        }
    }

    /// The first transaction with the id `id` that is met on the way back
    /// over the chain.
    pub fn find_transaction(&self, id: &str) -> (found: Result<Transaction, ChainError>)
        ensures
            match find_in_chain(self.chain(), id@) {
                Some(tx) => found is Ok && found->Ok_0@ == tx,
                None => found == Err::<Transaction, ChainError>(ChainError::TransactionNotFound),
            },
    {
        let wanted = String::from_str(id);
        let mut cursor = self.iter();
        loop
            invariant
                wanted@ == id@,
                find_in_chain(self.chain(), id@) == find_in_chain(cursor.rest(), id@),
            decreases cursor.rest().len(),
        {
            let ghost before = cursor.rest();
            match cursor.next() {
                None => {
                    return Err(ChainError::TransactionNotFound);
                },
                Some(block) => {
                    assert(before.drop_first() =~= cursor.rest());
                    assert(before[0] == block@);
                    let txs = block.get_transaction();
                    match position_by_id(txs, &wanted) {
                        Some(k) => {
                            return Ok(txs[k].clone());
                        },
                        None => {},
                    }
                },
            }
        }
    }

    /// The transactions that the inputs of `tx` name, input by input.
    pub fn get_prev_txs(&self, tx: &Transaction) -> (found: Result<Vec<Transaction>, ChainError>)
        ensures
            match found {
                Ok(prevs) => {
                    &&& prevs@.len() == tx@.vin.len()
                    &&& forall|i: int|
                        0 <= i < prevs@.len() ==> (#[trigger] prev_lookups(self.chain(), tx@)[i])
                            == Ok::<TransactionView, ChainError>(prevs@[i]@)
                },
                Err(e) => exists|i: int| fails_first_at(prev_lookups(self.chain(), tx@), i, e),
            },
    {
        let ghost lookups = prev_lookups(self.chain(), tx@);
        let mut prevs: Vec<Transaction> = Vec::new();
        let mut i: usize = 0;
        while i < tx.vin.len()
            invariant
                i <= tx.vin.len(),
                lookups == prev_lookups(self.chain(), tx@),
                prevs@.len() == i,
                forall|j: int|
                    0 <= j < i ==> (#[trigger] lookups[j]) == Ok::<TransactionView, ChainError>(
                        prevs@[j]@,
                    ),
            decreases tx.vin.len() - i,
        {
            match self.find_transaction(tx.vin[i].txid.as_str()) {
                Ok(prev) => {
                    prevs.push(prev);
                },
                Err(e) => {
                    assert(fails_first_at(lookups, i as int, e));
                    return Err(e);
                },
            }
            i += 1;
        }
        Ok(prevs)
    }

    /// Signs `tx` with `private_key`, against the transactions that its
    /// inputs name on the chain.
    pub fn sign_transaction(&self, tx: &mut Transaction, private_key: &[u8]) -> (done: Result<
        (),
        ChainError,
    >)
        ensures
            signed_on_chain(self.chain(), old(tx)@, final(tx)@, private_key@, done),
    {
        let ghost lookups = prev_lookups(self.chain(), tx@);
        let prev_txs = match self.get_prev_txs(tx) {
            Ok(prevs) => prevs,
            Err(e) => {
                proof {
                    let i = choose|i: int| fails_first_at(lookups, i, e);
                    let done = Err::<(), ChainError>(e);
                    assert(lookups[i] is Err);
                    assert(fails_first_at(lookups, i, done->Err_0));
                    assert(signed_on_chain(self.chain(), old(tx)@, tx@, private_key@, done));
                }
                return Err(e);
            },
        };
        proof {
            assert(transactions_view(prev_txs@) =~= Seq::new(
                lookups.len(),
                |i: int| lookups[i]->Ok_0,
            ));
        }
        tx.sign(private_key, &prev_txs)
    }

    /// The index of the unspent outputs of the chain, made by going over
    /// the whole chain.
    pub fn find_utxo(&self) -> (found: Result<UTXOSet, ChainError>)
        ensures
            match found {
                Ok(index) => ends_at_genesis(self.chain()) && index@ == unspent_outputs(
                    self.chain().reverse(),
                ) && index.is_sorted(),
                Err(e) => e == ChainError::CorruptChain && !ends_at_genesis(self.chain()),
            },
    {
        let mut index = UTXOSet::new();
        match index.reindex(self) {
            Ok(()) => Ok(index),
            Err(e) => Err(e),
        }
    }

    /// Whether `tx` is valid against the chain.
    pub fn verify_transaction(&self, tx: &Transaction) -> (valid: Result<bool, ChainError>)
        ensures
            valid == verification_on_chain(self.chain(), tx@),
    {
        if tx.is_coinbase() {
            return Ok(true);
        }
        let ghost lookups = prev_lookups(self.chain(), tx@);
        match self.get_prev_txs(tx) {
            Ok(prevs) => {
                proof {
                    assert(transactions_view(prevs@) =~= Seq::new(
                        lookups.len(),
                        |i: int| lookups[i]->Ok_0,
                    ));
                }
                tx.verify(&prevs)
            },
            Err(e) => {
                proof {
                    let i = choose|i: int| fails_first_at(lookups, i, e);
                    assert(fails_first_at(lookups, i, e));
                    assert(lookups[i] is Err);
                    assert(named_by_inputs(self.chain(), tx@) is None);
                }
                Err(e)
            },
        }
    }

    /// Whether all of `transactions` are valid against the chain: if not,
    /// the error of the first that cannot be verified, or
    /// `InvalidSignature` for the first that is not valid.
    pub fn check_transactions(&self, transactions: &Vec<Transaction>) -> (checked: Result<
        (),
        ChainError,
    >)
        ensures
            match objection_from(self.chain(), transactions_view(transactions@), 0) {
                Some(e) => checked == Err::<(), ChainError>(e),
                None => checked is Ok,
            },
    {
        let ghost txs = transactions_view(transactions@);
        let mut t: usize = 0;
        while t < transactions.len()
            invariant
                t <= transactions.len(),
                txs == transactions_view(transactions@),
                objection_from(self.chain(), txs, 0) == objection_from(self.chain(), txs, t as int),
            decreases transactions.len() - t,
        {
            match self.verify_transaction(&transactions[t]) {
                Ok(true) => {},
                Ok(false) => {
                    return Err(ChainError::InvalidSignature);
                },
                Err(e) => {
                    return Err(e);
                },
            }
            t += 1;
        }
        Ok(())
    }

    /// Verifies `transactions` against the chain and, where all are valid,
    /// appends them as `add_block_at` does. A ledger to which the block
    /// cannot be added is left as it was.
    pub fn mine_block_at(&mut self, transactions: Vec<Transaction>, timestamp: u128) -> (made:
        Result<Block, ChainError>)
        ensures
            match objection_from(old(self).chain(), transactions_view(transactions@), 0) {
                Some(e) => made matches Err(err) && err == e && *final(self) == *old(self),
                None => old(self).appended_at(
                    final(self),
                    transactions_view(transactions@),
                    timestamp,
                    block_outcome(made),
                ),
            },
    {
        match self.check_transactions(&transactions) {
            Ok(()) => self.add_block_at(transactions, timestamp),
            Err(e) => Err(e),
        }
    }

    /// Verifies `transactions` against the chain and, where all are valid,
    /// appends them in a block made now.
    pub fn mine_block(&mut self, transactions: Vec<Transaction>) -> (made: Result<
        Block,
        ChainError,
    >)
        ensures
            match objection_from(old(self).chain(), transactions_view(transactions@), 0) {
                Some(e) => made matches Err(err) && err == e && *final(self) == *old(self),
                None => (made matches Err(ChainError::ClockUnavailable) && *final(self) == *old(
                    self,
                )) || exists|timestamp: u128|
                    old(self).appended_at(
                        final(self),
                        transactions_view(transactions@),
                        timestamp,
                        block_outcome(made),
                    ),
            },
    {
        match self.check_transactions(&transactions) {
            Ok(()) => self.add_block(transactions),
            Err(e) => Err(e),
        }
    }

    /// Whether the ledger is in order.
    pub fn check(&self) -> (checked: Result<(), ChainError>)
        ensures
            match checked {
                Ok(_) => self.well_formed(),
                Err(e) => e == ChainError::CorruptChain && !self.well_formed(),
            },
    {
        let blocks = match self.blocks() {
            Ok(blocks) => blocks,
            Err(_) => { return Err(ChainError::CorruptChain); },
        };
        let last_key = String::from_str(TIP_KEY);
        match self.db.get(&last_key) {
            None => { return Err(ChainError::CorruptChain); },
            Some(bytes) => {
                if !bytes_equal(bytes.as_slice(), self.current_hash.as_str().as_bytes()) {
                    return Err(ChainError::CorruptChain);
                }
            },
        }
        let n = blocks.len();
        if !(blocks[0].get_hash() == self.current_hash) || blocks[n - 1].get_height() != 0 {
            return Err(ChainError::CorruptChain);
        }
        let ghost chain = self.chain();
        let mut i: usize = 0;
        while i < n
            invariant
                i <= n,
                n == blocks.len(),
                chain == self.chain(),
                blocks_view(blocks@) == chain,
                forall|j: int| 0 <= j < i ==> (#[trigger] chain[j]).is_sealed(),
                forall|j: int|
                    0 <= j < i && j < n - 1 ==> (#[trigger] chain[j]).prev_block_hash == chain[j
                        + 1].hash && chain[j].height == chain[j + 1].height + 1,
            decreases n - i,
        {
            assert(blocks@[i as int]@ == chain[i as int]);
            if !blocks[i].is_sealed() {
                return Err(ChainError::CorruptChain);
            }
            if i + 1 < n {
                assert(blocks@[i + 1]@ == chain[i + 1]);
                if !(blocks[i].get_prev_hash() == blocks[i + 1].get_hash()) {
                    return Err(ChainError::CorruptChain);
                }
                let below = blocks[i + 1].get_height();
                if below == usize::MAX || blocks[i].get_height() != below + 1 {
                    return Err(ChainError::CorruptChain);
                }
            }
            i += 1;
        }
        Ok(())
    }
}

/// In a linked chain the heights count up from the genesis block, which
/// has no link and the height 0: each block stands one higher than the
/// block before it.
pub proof fn lemma_linked_heights(chain: Seq<BlockView>, tip: Seq<char>, i: int)
    requires
        linked(chain, tip),
        0 <= i < chain.len(),
    ensures
        chain[i].height == chain.len() - 1 - i,
        chain.last().prev_block_hash.len() == 0,
        i < chain.len() - 1 ==> chain[i].height == chain[i + 1].height + 1,
    decreases chain.len() - i,
{
    if i < chain.len() - 1 {
        lemma_linked_heights(chain, tip, i + 1);
    }
}

/// A ledger that is in order and has one block and to which blocks were
/// appended, one after the other, is in order, and its chain has these
/// blocks more, the newest first, and goes back to the same genesis block.
pub proof fn lemma_appends_lengthen_chain(
    ledgers: Seq<Blockchain>,
    blocks: Seq<BlockView>,
    transactions: Seq<Seq<TransactionView>>,
    timestamps: Seq<u128>,
)
    requires
        ledgers.len() == blocks.len() + 1,
        transactions.len() == blocks.len(),
        timestamps.len() == blocks.len(),
        ledgers[0].well_formed(),
        ledgers[0].chain().len() == 1,
        forall|i: int|
            0 <= i < blocks.len() ==> (#[trigger] ledgers[i]).appended_at(
                &ledgers[i + 1],
                transactions[i],
                timestamps[i],
                Ok::<BlockView, ChainError>(blocks[i]),
            ),
    ensures
        ledgers.last().well_formed(),
        ledgers.last().chain().len() == blocks.len() + 1,
        ledgers.last().chain() == blocks.reverse() + ledgers[0].chain(),
        ledgers.last().chain().last() == ledgers[0].chain()[0],
    decreases blocks.len(),
{
    let n = blocks.len() as int;
    if n == 0 {
        assert(blocks.reverse() + ledgers[0].chain() =~= ledgers[0].chain());
    } else {
        lemma_appends_lengthen_chain(
            ledgers.drop_last(),
            blocks.drop_last(),
            transactions.drop_last(),
            timestamps.drop_last(),
        );
        let before = ledgers[n - 1];
        assert(ledgers.drop_last().last() == before);
        assert(before.appended_at(
            &ledgers[n],
            transactions[n - 1],
            timestamps[n - 1],
            Ok::<BlockView, ChainError>(blocks[n - 1]),
        ));
        assert(blocks.reverse() + ledgers[0].chain() =~= seq![blocks[n - 1]] + (
        blocks.drop_last().reverse() + ledgers[0].chain()));
    }
}

} // verus!
