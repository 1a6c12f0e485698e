use blockchain_rust::block::{Block, TARGET_HEXT};
use blockchain_rust::blockchain::Blockchain;
use blockchain_rust::errors::ChainError;
use blockchain_rust::hashing::{bytes_equal, copy_bytes, has_leading_zeros, hash_pub_key};
use blockchain_rust::store::Store;
use blockchain_rust::transaction::Transaction;
use crypto::digest::Digest;

const ADDRESS: &str = "1NM2HFXin4cEQRBLjkNZAS98qLX9JKzjKn";
const T0: u128 = 1_700_000_000_000;

type InputTuple = (String, i32, Vec<u8>, Vec<u8>);
type OutputTuple = (i32, Vec<u8>);
type TransactionTuple = (String, Vec<InputTuple>, Vec<OutputTuple>);

fn sha256_hex(data: &[u8]) -> String {
    let mut hasher = crypto::sha2::Sha256::new();
    hasher.input(data);
    hasher.result_str()
}

fn tuple_of(tx: &Transaction) -> TransactionTuple {
    (
        tx.id.clone(),
        tx.vin
            .iter()
            .map(|i| (i.txid.clone(), i.vout, i.signature.clone(), i.pub_key.clone()))
            .collect(),
        tx.vout.iter().map(|o| (o.value, o.pub_key_hash.clone())).collect(),
    )
}

fn coinbase(note: &str) -> Transaction {
    Transaction::new_coinbase(String::from(ADDRESS), String::from(note)).unwrap()
}

#[test]
fn sealed_block_validates() {
    let block = Block::seal(vec![coinbase("a")], String::new(), 0, T0).unwrap();
    assert_eq!(block.validate(), Ok(true));
    assert!(block.is_sealed());
    let hash = block.get_hash();
    assert_eq!(hash.len(), 64);
    assert!(hash.starts_with("0000"));
    assert_eq!(block.get_height(), 0);
    assert_eq!(block.get_timestamp(), T0);
    assert_eq!(block.get_prev_hash(), "");
    assert!(block.get_nonce() >= 0);
}

#[test]
fn sealed_block_validates_after_round_trip() {
    let block = Block::seal(vec![coinbase("a")], String::from("abc"), 7, T0).unwrap();
    let bytes = block.serialize().unwrap();
    let read = Block::deserialize(&bytes).unwrap();
    assert_eq!(read.validate(), Ok(true));
    assert!(read.is_sealed());
    assert_eq!(read.get_hash(), block.get_hash());
    assert_eq!(read.get_prev_hash(), "abc");
    assert_eq!(read.get_height(), 7);
    assert_eq!(read.get_nonce(), block.get_nonce());
    assert_eq!(read.get_timestamp(), T0);
    assert_eq!(read.get_transaction().len(), 1);
    assert_eq!(tuple_of(&read.get_transaction()[0]), tuple_of(&block.get_transaction()[0]));
    assert_eq!(read.serialize().unwrap(), bytes);
}

#[test]
fn block_hash_is_the_digest_of_the_canonical_payload() {
    let txs = vec![coinbase("a"), coinbase("b")];
    let tuples: Vec<TransactionTuple> = txs.iter().map(tuple_of).collect();
    let block = Block::seal(txs, String::from("prev"), 3, T0).unwrap();
    let payload =
        bincode::serialize(&(String::from("prev"), tuples, T0, TARGET_HEXT, block.get_nonce()))
            .unwrap();
    assert_eq!(block.prepare_hash_data().unwrap(), payload);
    assert_eq!(block.get_hash(), sha256_hex(&payload));
}

#[test]
fn sealing_takes_the_first_nonce_that_meets_the_target() {
    let txs = vec![coinbase("a")];
    let tuples: Vec<TransactionTuple> = txs.iter().map(tuple_of).collect();
    let block = Block::seal(txs, String::new(), 0, T0).unwrap();
    let mut nonce: i32 = 0;
    loop {
        let payload =
            bincode::serialize(&(String::new(), tuples.clone(), T0, 4usize, nonce)).unwrap();
        if sha256_hex(&payload).starts_with("0000") {
            break;
        }
        nonce += 1;
    }
    assert_eq!(block.get_nonce(), nonce);
}

#[test]
fn stored_block_has_the_layout_of_its_fields() {
    let txs = vec![coinbase("a")];
    let tuples: Vec<TransactionTuple> = txs.iter().map(tuple_of).collect();
    let block = Block::seal(txs, String::new(), 0, T0).unwrap();
    let expected = bincode::serialize(&(
        T0,
        tuples,
        String::new(),
        block.get_hash(),
        0usize,
        block.get_nonce(),
    ))
    .unwrap();
    assert_eq!(block.serialize().unwrap(), expected);
}

#[test]
fn malformed_bytes_hold_no_block() {
    assert!(matches!(Block::deserialize(&[1, 2, 3]), Err(ChainError::SerializationError)));
    assert!(matches!(Block::deserialize(&[]), Err(ChainError::SerializationError)));
}

#[test]
fn block_with_a_changed_nonce_does_not_validate() {
    let block = Block::seal(vec![coinbase("a")], String::new(), 0, T0).unwrap();
    let mut record = block.to_record();
    record.5 = record.5 + 1;
    let changed = Block::from_record(&record);
    assert!(!changed.is_sealed());
}

#[test]
fn search_from_the_last_nonce_is_exhausted() {
    let block = Block::seal(vec![coinbase("a")], String::new(), 0, T0).unwrap();
    let mut record = block.to_record();
    record.5 = i32::MAX;
    let mut last = Block::from_record(&record);
    assert_eq!(last.validate(), Ok(false));
    assert_eq!(last.run_proof_of_work(), Err(ChainError::NonceExhausted));
    assert_eq!(last.get_nonce(), i32::MAX);
    assert_eq!(last.get_hash(), block.get_hash());
}

#[test]
fn block_made_now_is_sealed() {
    let block = Block::new_block(vec![coinbase("a")], String::from("p"), 1).unwrap();
    assert!(block.is_sealed());
    assert!(block.get_timestamp() > T0);
    assert_eq!(block.get_height(), 1);
    let genesis = Block::new_genesis_block(coinbase("g")).unwrap();
    assert!(genesis.is_sealed());
    assert_eq!(genesis.get_prev_hash(), "");
    assert_eq!(genesis.get_height(), 0);
    assert_eq!(genesis.get_transaction().len(), 1);
}

#[test]
fn genesis_has_no_link_and_the_next_block_stands_one_higher() {
    let mut bc = Blockchain::create_blockchain_at(String::from(ADDRESS), T0).unwrap();
    let second = bc.add_block_at(vec![coinbase("x")], T0 + 1).unwrap();
    let blocks = bc.blocks().unwrap();
    let genesis = &blocks[1];
    assert_eq!(genesis.get_prev_hash(), "");
    assert_eq!(genesis.get_height(), 0);
    assert_eq!(second.get_height(), 1);
    assert_eq!(second.get_prev_hash(), genesis.get_hash());
    assert_eq!(blocks[0].get_hash(), second.get_hash());
    assert_eq!(bc.tip_hash(), second.get_hash());
    assert_eq!(bc.check(), Ok(()));
}

#[test]
fn walk_over_two_appends_gives_three_blocks() {
    let mut bc = Blockchain::create_blockchain_at(String::from(ADDRESS), T0).unwrap();
    let genesis_hash = bc.tip_hash();
    bc.add_block_at(vec![coinbase("x")], T0 + 1).unwrap();
    bc.add_block_at(vec![coinbase("y")], T0 + 2).unwrap();
    let mut cursor = bc.iter();
    let mut heights = Vec::new();
    let mut last_hash = String::new();
    while let Some(block) = cursor.next() {
        heights.push(block.get_height());
        last_hash = block.get_hash();
    }
    assert_eq!(heights, vec![2, 1, 0]);
    assert_eq!(last_hash, genesis_hash);
    assert!(cursor.next().is_none());
    assert_eq!(bc.blocks().unwrap().len(), 3);
    assert_eq!(bc.db().len(), 4);
}

#[test]
fn ledger_opens_from_its_store() {
    let mut bc = Blockchain::create_blockchain_at(String::from(ADDRESS), T0).unwrap();
    bc.add_block_at(vec![coinbase("x")], T0 + 1).unwrap();
    let tip = bc.tip_hash();
    let blocks = bc.blocks().unwrap();
    let mut db = Store::new();
    for block in &blocks {
        db.insert(block.get_hash(), bc.db().get(&block.get_hash()).unwrap());
    }
    db.insert(String::from("LAST"), bc.db().get(&String::from("LAST")).unwrap());
    let opened = Blockchain::new(db).unwrap();
    assert_eq!(opened.tip_hash(), tip);
    assert_eq!(opened.blocks().unwrap().len(), 2);
    assert_eq!(opened.check(), Ok(()));
}

#[test]
fn store_without_tip_is_no_ledger() {
    assert!(matches!(Blockchain::new(Store::new()), Err(ChainError::UninitializedChain)));
    let mut db = Store::new();
    db.insert(String::from("LAST"), vec![0xff, 0xfe]);
    assert!(matches!(Blockchain::new(db), Err(ChainError::SerializationError)));
}

#[test]
fn append_needs_the_newest_block() {
    let mut db = Store::new();
    db.insert(String::from("LAST"), b"missing".to_vec());
    let mut bc = Blockchain::new(db).unwrap();
    assert!(matches!(bc.add_block_at(vec![coinbase("x")], T0), Err(ChainError::CorruptChain)));
    assert_eq!(bc.db().len(), 1);
    assert_eq!(bc.tip_hash(), "missing");
    assert_eq!(bc.check(), Err(ChainError::CorruptChain));
    assert!(bc.iter().next().is_none());
}

#[test]
fn block_under_a_wrong_key_breaks_the_order() {
    let bc = Blockchain::create_blockchain_at(String::from(ADDRESS), T0).unwrap();
    let bytes = bc.db().get(&bc.tip_hash()).unwrap();
    let mut db = Store::new();
    db.insert(String::from("elsewhere"), bytes);
    db.insert(String::from("LAST"), b"elsewhere".to_vec());
    let moved = Blockchain::new(db).unwrap();
    assert_eq!(moved.blocks().unwrap().len(), 1);
    assert_eq!(moved.check(), Err(ChainError::CorruptChain));
}

#[test]
fn store_keeps_the_last_value_of_a_key() {
    let mut db = Store::new();
    assert_eq!(db.len(), 0);
    assert_eq!(db.get(&String::from("k")), None);
    db.insert(String::from("k"), vec![1]);
    db.insert(String::from("l"), vec![2]);
    db.insert(String::from("k"), vec![3]);
    assert_eq!(db.len(), 2);
    assert_eq!(db.get(&String::from("k")), Some(vec![3]));
    assert_eq!(db.get(&String::from("l")), Some(vec![2]));
    assert!(db.contains_key(&String::from("l")));
    assert!(!db.contains_key(&String::from("m")));
}

#[test]
fn target_is_met_by_leading_zeros_only() {
    assert!(has_leading_zeros("0000ab", 4));
    assert!(has_leading_zeros("0000", 4));
    assert!(!has_leading_zeros("000a00", 4));
    assert!(!has_leading_zeros("000", 4));
    assert!(has_leading_zeros("", 0));
    assert!(has_leading_zeros("abc", 0));
}

#[test]
fn public_key_hash_is_ripemd160_of_sha256() {
    let key = vec![7u8; 32];
    let mut inner = [0u8; 32];
    let mut sha = crypto::sha2::Sha256::new();
    sha.input(&key);
    sha.result(&mut inner);
    let mut expected = [0u8; 20];
    let mut ripemd = crypto::ripemd160::Ripemd160::new();
    ripemd.input(&inner);
    ripemd.result(&mut expected);
    let mut hashed = key.clone();
    hash_pub_key(&mut hashed);
    assert_eq!(hashed, expected.to_vec());
    assert_eq!(hashed.len(), 20);
    assert_ne!(hashed, key);
}

#[test]
fn bytes_are_compared_and_copied_whole() {
    assert!(bytes_equal(&[1, 2, 3], &[1, 2, 3]));
    assert!(!bytes_equal(&[1, 2, 3], &[1, 2]));
    assert!(!bytes_equal(&[1, 2, 3], &[1, 2, 4]));
    assert!(bytes_equal(&[], &[]));
    assert_eq!(copy_bytes(&[9, 8]), vec![9, 8]);
}
