use bitcoincash_addr::{Address, HashType, Network, Scheme};
use blockchain_rust::block::Block;
use blockchain_rust::blockchain::Blockchain;
use blockchain_rust::errors::ChainError;
use blockchain_rust::hashing::hash_pub_key;
use blockchain_rust::store::Store;
use blockchain_rust::transaction::{Transaction, SUBSIDY};
use blockchain_rust::utxoset::UTXOSet;

struct Wallet {
    secret_key: Vec<u8>,
    public_key: Vec<u8>,
    pub_key_hash: Vec<u8>,
    address: String,
}

fn wallet(seed_byte: u8) -> Wallet {
    let seed = [seed_byte; 32];
    let (secret, public) = crypto::ed25519::keypair(&seed);
    let mut pub_key_hash = public.to_vec();
    hash_pub_key(&mut pub_key_hash);
    let address = Address::new(pub_key_hash.clone(), Scheme::Base58, HashType::Key, Network::Main)
        .encode()
        .unwrap();
    Wallet { secret_key: secret.to_vec(), public_key: public.to_vec(), pub_key_hash, address }
}

const T0: u128 = 1_700_000_000_000;

fn chain_for(owner: &Wallet) -> Blockchain {
    Blockchain::create_blockchain_at(owner.address.clone(), T0).unwrap()
}

fn send(
    bc: &mut Blockchain,
    utxo: &mut UTXOSet,
    from: &Wallet,
    to: &Wallet,
    amount: i32,
    timestamp: u128,
) -> Result<Block, ChainError> {
    let mut tx = Transaction::new_utxo(&from.public_key, &to.address, amount, utxo)?;
    bc.sign_transaction(&mut tx, &from.secret_key)?;
    let cbtx = Transaction::new_coinbase(from.address.clone(), String::from("Reward!"))?;
    let block = bc.add_block_at(vec![cbtx, tx], timestamp)?;
    utxo.update(&block);
    Ok(block)
}

#[test]
fn genesis_reward_is_the_balance_of_its_owner() {
    let a = wallet(1);
    let bc = chain_for(&a);
    let utxo = bc.find_utxo().unwrap();
    assert_eq!(utxo.balance(&a.pub_key_hash), SUBSIDY as i128);
    assert_eq!(utxo.balance(&a.pub_key_hash), 10);
    assert_eq!(utxo.len(), 1);
}

#[test]
fn transfer_moves_the_amount_and_pays_the_reward() {
    let a = wallet(1);
    let b = wallet(2);
    let mut bc = chain_for(&a);
    let mut utxo = bc.find_utxo().unwrap();
    let block = send(&mut bc, &mut utxo, &a, &b, 4, T0 + 1).unwrap();
    assert_eq!(block.get_height(), 1);
    assert_eq!(utxo.balance(&b.pub_key_hash), 4);
    assert_eq!(utxo.balance(&a.pub_key_hash), 10 - 4 + 10);
    let rebuilt = bc.find_utxo().unwrap();
    assert_eq!(rebuilt.balance(&b.pub_key_hash), 4);
    assert_eq!(rebuilt.balance(&a.pub_key_hash), 16);
    assert_eq!(rebuilt.len(), utxo.len());
}

#[test]
fn transfer_beyond_the_balance_is_refused_and_changes_nothing() {
    let a = wallet(1);
    let b = wallet(2);
    let mut bc = chain_for(&a);
    let mut utxo = bc.find_utxo().unwrap();
    let tip = bc.tip_hash();
    let entries = bc.db().len();
    let refused = send(&mut bc, &mut utxo, &a, &b, 11, T0 + 1);
    assert!(matches!(refused, Err(ChainError::InsufficientFunds)));
    assert_eq!(bc.tip_hash(), tip);
    assert_eq!(bc.db().len(), entries);
    assert_eq!(bc.blocks().unwrap().len(), 1);
    assert_eq!(utxo.balance(&a.pub_key_hash), 10);
    assert_eq!(utxo.balance(&b.pub_key_hash), 0);
    assert_eq!(utxo.len(), 1);
}

#[test]
fn corrupt_block_ends_the_walk_and_is_reported() {
    let a = wallet(1);
    let b = wallet(2);
    let mut bc = chain_for(&a);
    let mut utxo = bc.find_utxo().unwrap();
    send(&mut bc, &mut utxo, &a, &b, 4, T0 + 1).unwrap();
    let blocks = bc.blocks().unwrap();
    assert_eq!(blocks.len(), 2);
    let tip_hash = blocks[0].get_hash();
    let genesis_hash = blocks[1].get_hash();

    let mut db = Store::new();
    db.insert(tip_hash.clone(), bc.db().get(&tip_hash).unwrap());
    db.insert(genesis_hash, vec![0xff, 0x01, 0x02]);
    db.insert(String::from("LAST"), tip_hash.clone().into_bytes());
    let broken = Blockchain::new(db).unwrap();

    let mut cursor = broken.iter();
    assert_eq!(cursor.status(), Err(ChainError::CorruptChain));
    let first = cursor.next().unwrap();
    assert_eq!(first.get_hash(), tip_hash);
    assert!(cursor.next().is_none());
    assert_eq!(cursor.status(), Err(ChainError::CorruptChain));
    assert!(matches!(broken.blocks(), Err(ChainError::CorruptChain)));

    let mut whole = bc.iter();
    assert_eq!(whole.status(), Err(ChainError::CorruptChain));
    assert!(whole.next().is_some());
    assert_eq!(whole.status(), Err(ChainError::CorruptChain));
    assert!(whole.next().is_some());
    assert_eq!(whole.status(), Ok(()));
    assert!(whole.next().is_none());
    assert_eq!(whole.status(), Ok(()));
    assert!(matches!(broken.find_utxo(), Err(ChainError::CorruptChain)));
}

/// The store of a chain that has a genesis block and one block more.
fn stored_chain() -> Store {
    let a = wallet(1);
    let mut bc = chain_for(&a);
    let cbtx = Transaction::new_coinbase(a.address.clone(), String::from("data")).unwrap();
    bc.add_block_at(vec![cbtx], T0 + 1).unwrap();
    let mut db = Store::new();
    for block in bc.blocks().unwrap() {
        db.insert(block.get_hash(), bc.db().get(&block.get_hash()).unwrap());
    }
    db.insert(String::from("LAST"), bc.tip_hash().into_bytes());
    db
}

#[test]
fn block_test_add_block() -> Result<(), ChainError> {
    let b = Blockchain::new(stored_chain())?;
    println!("{:?}", b);
    Ok(())
}

#[test]
fn blockchain_test_add_block() {
    let b = Blockchain::new(stored_chain()).unwrap();
    let mut items = b.iter();
    while let Some(item) = items.next() {
        println!("item {:?}", item)
    }
}
