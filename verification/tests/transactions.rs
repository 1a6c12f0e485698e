use bitcoincash_addr::{Address, HashType, Network, Scheme};
use blockchain_rust::address::{has_decodable_shape, pub_key_hash_of_address};
use blockchain_rust::blockchain::Blockchain;
use blockchain_rust::errors::ChainError;
use blockchain_rust::hashing::hash_pub_key;
use blockchain_rust::signing::check_signature;
use blockchain_rust::transaction::{Transaction, SUBSIDY};
use blockchain_rust::tx::{TXInput, TXOutput};
use blockchain_rust::utxoset::UTXOSet;
use crypto::digest::Digest;

const LEGACY: &str = "1NM2HFXin4cEQRBLjkNZAS98qLX9JKzjKn";
const LEGACY_BODY: [u8; 20] = [
    0xea, 0x24, 0x07, 0x82, 0x9a, 0x50, 0x55, 0x46, 0x6b, 0x27, 0x78, 0x4c, 0xde, 0x8c, 0xf4, 0x63,
    0x16, 0x79, 0x46, 0xbf,
];
const CASH: &str = "bitcoincash:qr6m7j9njldwwzlg9v7v53unlr4jkmx6eylep8ekg2";
const CASH_BODY: [u8; 20] = [
    0xf5, 0xbf, 0x48, 0xb3, 0x97, 0xda, 0xe7, 0x0b, 0xe8, 0x2b, 0x3c, 0xca, 0x47, 0x93, 0xf8, 0xeb,
    0x2b, 0x6c, 0xda, 0xc9,
];
const T0: u128 = 1_700_000_000_000;

type InputTuple = (String, i32, Vec<u8>, Vec<u8>);
type OutputTuple = (i32, Vec<u8>);
type TransactionTuple = (String, Vec<InputTuple>, Vec<OutputTuple>);

struct Wallet {
    secret_key: Vec<u8>,
    public_key: Vec<u8>,
    pub_key_hash: Vec<u8>,
    address: String,
}

fn wallet(seed_byte: u8) -> Wallet {
    let seed = [seed_byte; 32];
    let (secret, public) = crypto::ed25519::keypair(&seed);
    let mut pub_key_hash = public.to_vec();
    hash_pub_key(&mut pub_key_hash);
    let address = Address::new(pub_key_hash.clone(), Scheme::Base58, HashType::Key, Network::Main)
        .encode()
        .unwrap();
    Wallet { secret_key: secret.to_vec(), public_key: public.to_vec(), pub_key_hash, address }
}

fn sha256_hex(data: &[u8]) -> String {
    let mut hasher = crypto::sha2::Sha256::new();
    hasher.input(data);
    hasher.result_str()
}

fn values(outputs: &[TXOutput]) -> Vec<i32> {
    outputs.iter().map(|o| o.value).collect()
}

fn listing(utxo: &UTXOSet) -> Vec<(String, i32, i32, Vec<u8>)> {
    (0..utxo.len())
        .map(|i| {
            let entry = utxo.get(i);
            (
                entry.txid.clone(),
                entry.index,
                entry.output.value,
                entry.output.pub_key_hash.clone(),
            )
        })
        .collect()
}

/// A chain whose genesis pays `a`, with a second block in which `a` pays 4
/// to `b`, and the index brought up to date block by block.
fn chain_with_transfer(a: &Wallet, b: &Wallet) -> (Blockchain, UTXOSet, Transaction) {
    let mut bc = Blockchain::create_blockchain_at(a.address.clone(), T0).unwrap();
    let mut utxo = bc.find_utxo().unwrap();
    let mut tx = Transaction::new_utxo(&a.public_key, &b.address, 4, &utxo).unwrap();
    bc.sign_transaction(&mut tx, &a.secret_key).unwrap();
    let cbtx = Transaction::new_coinbase(a.address.clone(), String::from("Reward!")).unwrap();
    let sent = tx.clone();
    let block = bc.mine_block_at(vec![cbtx, tx], T0 + 1).unwrap();
    utxo.update(&block);
    (bc, utxo, sent)
}

#[test]
fn address_names_its_public_key_hash() {
    assert_eq!(pub_key_hash_of_address(LEGACY), Ok(LEGACY_BODY.to_vec()));
    assert_eq!(pub_key_hash_of_address(CASH), Ok(CASH_BODY.to_vec()));
}

#[test]
fn text_that_is_no_address_is_refused() {
    for text in [
        "",
        "not an address",
        "bitcoincash:",
        "bitcoincash:qqq",
        "bitcoincash:qqqqqqqqq",
        "a:b:c",
        ":",
        "1NM2HFXin4cEQRBLjkNZAS98qLX9JKzjKm",
        "bitcoincash:qr6m7j9njldwwzlg9v7v53unlr4jkmx6eylep8ekg3",
    ] {
        assert_eq!(pub_key_hash_of_address(text), Err(ChainError::InvalidAddress), "{}", text);
    }
}

#[test]
fn short_payload_is_not_handed_to_the_decoder() {
    assert!(!has_decodable_shape("bitcoincash:qqq"));
    assert!(!has_decodable_shape("x:123456789"));
    assert!(has_decodable_shape("x:1234567890"));
    assert!(has_decodable_shape("no colon"));
    assert!(has_decodable_shape("a:b:c"));
    assert!(has_decodable_shape(""));
    assert!(!has_decodable_shape(":"));
}

#[test]
fn output_is_locked_to_the_owner_of_the_address() {
    let out = TXOutput::new(5, String::from(LEGACY)).unwrap();
    assert_eq!(out.value, 5);
    assert_eq!(out.pub_key_hash, LEGACY_BODY.to_vec());
    assert!(out.can_be_unlock_with(&LEGACY_BODY));
    assert!(!out.can_be_unlock_with(&CASH_BODY));
    assert!(!out.can_be_unlock_with(&LEGACY_BODY[..19]));
    let zero = TXOutput::new(0, String::from(CASH)).unwrap();
    assert_eq!(zero.pub_key_hash, CASH_BODY.to_vec());
}

#[test]
fn output_of_a_negative_amount_or_for_no_address_is_refused() {
    assert!(matches!(TXOutput::new(-1, String::from(LEGACY)), Err(ChainError::InvalidAmount)));
    assert!(matches!(TXOutput::new(1, String::from("nobody")), Err(ChainError::InvalidAddress)));
    assert!(matches!(TXOutput::new(-1, String::from("nobody")), Err(ChainError::InvalidAmount)));
}

#[test]
fn lock_keeps_the_output_where_the_address_is_refused() {
    let mut out = TXOutput::locked(3, vec![1, 2, 3]);
    assert_eq!(out.lock("nobody"), Err(ChainError::InvalidAddress));
    assert_eq!(out.pub_key_hash, vec![1, 2, 3]);
    assert_eq!(out.lock(CASH), Ok(()));
    assert_eq!(out.pub_key_hash, CASH_BODY.to_vec());
    assert_eq!(out.value, 3);
}

#[test]
fn input_unlocks_what_is_locked_to_the_hash_of_its_key() {
    let a = wallet(1);
    let b = wallet(2);
    let input = TXInput {
        txid: String::from("t"),
        vout: 0,
        signature: Vec::new(),
        pub_key: a.public_key.clone(),
    };
    assert!(input.can_unlock_output_with(&a.pub_key_hash));
    assert!(!input.can_unlock_output_with(&b.pub_key_hash));
    assert!(!input.can_unlock_output_with(&a.public_key));
}

#[test]
fn coinbase_pays_the_subsidy_and_spends_nothing() {
    let tx = Transaction::new_coinbase(String::from(LEGACY), String::from("note")).unwrap();
    assert!(tx.is_coinbase());
    assert_eq!(tx.vin.len(), 1);
    assert_eq!(tx.vin[0].txid, "");
    assert_eq!(tx.vin[0].vout, -1);
    assert_eq!(tx.vin[0].signature, Vec::<u8>::new());
    assert_eq!(tx.vin[0].pub_key, b"note".to_vec());
    assert_eq!(tx.vout.len(), 1);
    assert_eq!(tx.vout[0].value, SUBSIDY);
    assert_eq!(tx.vout[0].value, 10);
    assert_eq!(tx.vout[0].pub_key_hash, LEGACY_BODY.to_vec());
    assert!(matches!(
        Transaction::new_coinbase(String::from("nobody"), String::from("note")),
        Err(ChainError::InvalidAddress)
    ));
}

#[test]
fn id_is_the_digest_of_the_transaction_without_id_and_signatures() {
    let mut tx = Transaction::new_coinbase(String::from(LEGACY), String::from("note")).unwrap();
    let record: TransactionTuple = (
        String::new(),
        vec![(String::new(), -1, Vec::new(), b"note".to_vec())],
        vec![(10, LEGACY_BODY.to_vec())],
    );
    let expected = sha256_hex(&bincode::serialize(&record).unwrap());
    assert_eq!(tx.id, expected);
    assert_eq!(tx.hash(), Ok(expected.clone()));
    tx.vin[0].signature = vec![1, 2, 3];
    tx.id = String::from("something else");
    assert_eq!(tx.hash(), Ok(expected.clone()));
    tx.vin[0].pub_key = b"other".to_vec();
    assert_ne!(tx.hash(), Ok(expected));
}

#[test]
fn coinbase_verifies_whatever_its_input_carries() {
    let mut tx = Transaction::new_coinbase(String::from(LEGACY), String::from("note")).unwrap();
    assert_eq!(tx.verify(&Vec::new()), Ok(true));
    tx.vin[0].signature = vec![0xde, 0xad, 0xbe, 0xef];
    assert_eq!(tx.verify(&Vec::new()), Ok(true));
    tx.vin[0].signature = vec![0u8; 64];
    tx.vin[0].pub_key = vec![0u8; 32];
    assert_eq!(tx.verify(&Vec::new()), Ok(true));
    let bc = Blockchain::create_blockchain_at(String::from(LEGACY), T0).unwrap();
    assert_eq!(bc.verify_transaction(&tx), Ok(true));
}

#[test]
fn signing_leaves_a_coinbase_as_it_is() {
    let a = wallet(1);
    let mut tx = Transaction::new_coinbase(String::from(LEGACY), String::from("note")).unwrap();
    assert_eq!(tx.sign(&a.secret_key, &Vec::new()), Ok(()));
    assert_eq!(tx.vin[0].signature, Vec::<u8>::new());
    assert_eq!(tx.sign(&[1, 2, 3], &Vec::new()), Ok(()));
}

#[test]
fn transfer_conserves_value() {
    let a = wallet(1);
    let b = wallet(2);
    let bc = Blockchain::create_blockchain_at(a.address.clone(), T0).unwrap();
    let utxo = bc.find_utxo().unwrap();
    let genesis_tx = bc.blocks().unwrap()[0].get_transaction()[0].clone();

    let tx = Transaction::new_utxo(&a.public_key, &b.address, 4, &utxo).unwrap();
    assert!(!tx.is_coinbase());
    assert_eq!(tx.vin.len(), 1);
    assert_eq!(tx.vin[0].txid, genesis_tx.id);
    assert_eq!(tx.vin[0].vout, 0);
    assert_eq!(tx.vin[0].signature, Vec::<u8>::new());
    assert_eq!(tx.vin[0].pub_key, a.public_key);
    assert_eq!(values(&tx.vout), vec![4, 6]);
    assert_eq!(tx.vout[0].pub_key_hash, b.pub_key_hash);
    assert_eq!(tx.vout[1].pub_key_hash, a.pub_key_hash);
    let spent: i32 = tx.vin.iter().map(|i| genesis_tx.vout[i.vout as usize].value).sum();
    let made: i32 = tx.vout.iter().map(|o| o.value).sum();
    assert_eq!(spent, made);
    assert_eq!(tx.hash(), Ok(tx.id.clone()));

    let all = Transaction::new_utxo(&a.public_key, &b.address, 10, &utxo).unwrap();
    assert_eq!(values(&all.vout), vec![10]);
    assert_eq!(all.vin.len(), 1);

    let nothing = Transaction::new_utxo(&a.public_key, &b.address, 0, &utxo).unwrap();
    assert_eq!(values(&nothing.vout), vec![0]);
    assert_eq!(nothing.vin.len(), 0);
}

#[test]
fn transfer_is_refused_for_want_of_funds_amount_or_address() {
    let a = wallet(1);
    let b = wallet(2);
    let bc = Blockchain::create_blockchain_at(a.address.clone(), T0).unwrap();
    let utxo = bc.find_utxo().unwrap();
    assert!(matches!(
        Transaction::new_utxo(&a.public_key, &b.address, 11, &utxo),
        Err(ChainError::InsufficientFunds)
    ));
    assert!(matches!(
        Transaction::new_utxo(&b.public_key, &a.address, 1, &utxo),
        Err(ChainError::InsufficientFunds)
    ));
    assert!(matches!(
        Transaction::new_utxo(&a.public_key, &b.address, -1, &utxo),
        Err(ChainError::InvalidAmount)
    ));
    assert!(matches!(
        Transaction::new_utxo(&a.public_key, "nobody", 1, &utxo),
        Err(ChainError::InvalidAddress)
    ));
    assert!(matches!(
        Transaction::new_utxo(&a.public_key, "nobody", 11, &utxo),
        Err(ChainError::InvalidAddress)
    ));
}

#[test]
fn signed_transfer_verifies_and_a_changed_one_does_not() {
    let a = wallet(1);
    let b = wallet(2);
    let bc = Blockchain::create_blockchain_at(a.address.clone(), T0).unwrap();
    let utxo = bc.find_utxo().unwrap();
    let mut tx = Transaction::new_utxo(&a.public_key, &b.address, 4, &utxo).unwrap();
    assert_eq!(bc.verify_transaction(&tx), Ok(false));
    let id = tx.id.clone();
    bc.sign_transaction(&mut tx, &a.secret_key).unwrap();
    assert_eq!(tx.id, id);
    assert_eq!(tx.vin[0].signature.len(), 64);
    assert_eq!(bc.verify_transaction(&tx), Ok(true));
    let prevs = bc.get_prev_txs(&tx).unwrap();
    assert_eq!(prevs.len(), 1);
    assert_eq!(prevs[0].id, tx.vin[0].txid);
    assert_eq!(tx.verify(&prevs), Ok(true));

    let message = tx.signing_message(&prevs, 0).unwrap();
    let trimmed: TransactionTuple = (
        String::new(),
        vec![(tx.vin[0].txid.clone(), 0, Vec::new(), a.pub_key_hash.clone())],
        vec![(4, b.pub_key_hash.clone()), (6, a.pub_key_hash.clone())],
    );
    assert_eq!(message, sha256_hex(&bincode::serialize(&trimmed).unwrap()).into_bytes());
    assert_eq!(
        tx.vin[0].signature,
        crypto::ed25519::signature(&message, &a.secret_key).to_vec()
    );
    assert!(check_signature(&message, &a.public_key, &tx.vin[0].signature));
    assert!(!check_signature(&message, &b.public_key, &tx.vin[0].signature));
    assert!(!check_signature(&message, &a.public_key[..31], &tx.vin[0].signature));
    assert!(!check_signature(&message, &a.public_key, &tx.vin[0].signature[..63]));

    let mut forged = tx.clone();
    forged.vout[0].value = 5;
    assert_eq!(bc.verify_transaction(&forged), Ok(false));
    let mut stolen = tx.clone();
    stolen.vin[0].pub_key = b.public_key.clone();
    assert_eq!(bc.verify_transaction(&stolen), Ok(false));
    let mut flipped = tx.clone();
    flipped.vin[0].signature[0] ^= 1;
    assert_eq!(bc.verify_transaction(&flipped), Ok(false));
}

#[test]
fn signing_fails_without_key_or_previous_transaction() {
    let a = wallet(1);
    let b = wallet(2);
    let bc = Blockchain::create_blockchain_at(a.address.clone(), T0).unwrap();
    let utxo = bc.find_utxo().unwrap();
    let mut tx = Transaction::new_utxo(&a.public_key, &b.address, 4, &utxo).unwrap();
    assert_eq!(bc.sign_transaction(&mut tx, &a.secret_key[..32]), Err(ChainError::InvalidKey));
    assert_eq!(tx.vin[0].signature, Vec::<u8>::new());
    assert_eq!(tx.sign(&a.secret_key, &Vec::new()), Err(ChainError::TransactionNotFound));
    assert_eq!(tx.verify(&Vec::new()), Err(ChainError::TransactionNotFound));
    assert_eq!(tx.vin[0].signature, Vec::<u8>::new());

    let mut astray = tx.clone();
    astray.vin[0].txid = String::from("nowhere");
    assert_eq!(bc.sign_transaction(&mut astray, &a.secret_key), Err(ChainError::TransactionNotFound));
    assert_eq!(bc.verify_transaction(&astray), Err(ChainError::TransactionNotFound));
    assert!(matches!(bc.get_prev_txs(&astray), Err(ChainError::TransactionNotFound)));
    let mut beyond = tx.clone();
    beyond.vin[0].vout = 1;
    assert_eq!(bc.sign_transaction(&mut beyond, &a.secret_key), Err(ChainError::TransactionNotFound));
    beyond.vin[0].vout = -2;
    assert_eq!(bc.verify_transaction(&beyond), Err(ChainError::TransactionNotFound));
}

#[test]
fn block_with_an_unsigned_transfer_is_refused() {
    let a = wallet(1);
    let b = wallet(2);
    let mut bc = Blockchain::create_blockchain_at(a.address.clone(), T0).unwrap();
    let utxo = bc.find_utxo().unwrap();
    let tx = Transaction::new_utxo(&a.public_key, &b.address, 4, &utxo).unwrap();
    let cbtx = Transaction::new_coinbase(a.address.clone(), String::from("Reward!")).unwrap();
    let tip = bc.tip_hash();
    assert!(matches!(
        bc.check_transactions(&vec![cbtx.clone(), tx.clone()]),
        Err(ChainError::InvalidSignature)
    ));
    assert!(matches!(
        bc.mine_block_at(vec![cbtx.clone(), tx.clone()], T0 + 1),
        Err(ChainError::InvalidSignature)
    ));
    assert!(matches!(bc.mine_block(vec![cbtx, tx]), Err(ChainError::InvalidSignature)));
    assert_eq!(bc.tip_hash(), tip);
    assert_eq!(bc.db().len(), 2);
    assert_eq!(bc.blocks().unwrap().len(), 1);
}

#[test]
fn index_brought_up_to_date_is_the_index_made_anew() {
    let a = wallet(1);
    let b = wallet(2);
    let (mut bc, mut utxo, _) = chain_with_transfer(&a, &b);
    assert_eq!(listing(&utxo), listing(&bc.find_utxo().unwrap()));

    let mut back = Transaction::new_utxo(&b.public_key, &a.address, 3, &utxo).unwrap();
    bc.sign_transaction(&mut back, &b.secret_key).unwrap();
    let cbtx = Transaction::new_coinbase(b.address.clone(), String::from("Reward!")).unwrap();
    let block = bc.mine_block_at(vec![cbtx, back], T0 + 2).unwrap();
    utxo.update(&block);
    let rebuilt = bc.find_utxo().unwrap();
    assert_eq!(listing(&utxo), listing(&rebuilt));
    assert_eq!(utxo.balance(&a.pub_key_hash), 6 + 10 + 3);
    assert_eq!(utxo.balance(&b.pub_key_hash), 1 + 10);
    assert_eq!(rebuilt.balance(&a.pub_key_hash), 19);
    assert_eq!(rebuilt.balance(&b.pub_key_hash), 11);

    let mut again = UTXOSet::new();
    again.reindex(&bc).unwrap();
    assert_eq!(listing(&again), listing(&rebuilt));
}

/// The outputs of `owner` in a listing, as (id, place, value), in order.
fn owned(utxo: &UTXOSet, owner: &[u8]) -> Vec<(String, i32, i32)> {
    let mut found: Vec<(String, i32, i32)> = listing(utxo)
        .into_iter()
        .filter(|entry| entry.3 == owner)
        .map(|entry| (entry.0, entry.1, entry.2))
        .collect();
    found.sort();
    found
}

/// What is taken of `outputs`, in their order, to pay `amount`.
fn taken(outputs: &[(String, i32, i32)], amount: i32) -> (i128, Vec<(String, i32, i32)>) {
    let mut total: i128 = 0;
    let mut picked = Vec::new();
    for output in outputs {
        if total >= amount as i128 {
            break;
        }
        total += output.2 as i128;
        picked.push(output.clone());
    }
    (total, picked)
}

#[test]
fn spent_output_leaves_the_index() {
    let a = wallet(1);
    let b = wallet(2);
    let (bc, utxo, sent) = chain_with_transfer(&a, &b);
    let blocks = bc.blocks().unwrap();
    let genesis_tx = blocks[1].get_transaction()[0].clone();
    let reward_tx = blocks[0].get_transaction()[0].clone();
    assert!(!utxo.contains(&genesis_tx.id, 0));
    assert!(utxo.contains(&reward_tx.id, 0));
    assert!(utxo.contains(&sent.id, 0));
    assert!(utxo.contains(&sent.id, 1));
    assert!(!utxo.contains(&sent.id, 2));
    assert_eq!(utxo.len(), 3);
    assert_eq!(utxo.count_transactions(), 2);
    assert_eq!(values(&utxo.find_utxo(&b.pub_key_hash)), vec![4]);
    let mut expected = vec![(reward_tx.id.clone(), 0, 10), (sent.id.clone(), 1, 6)];
    expected.sort();
    assert_eq!(owned(&utxo, &a.pub_key_hash), expected);
    let in_order: Vec<i32> = expected.iter().map(|entry| entry.2).collect();
    assert_eq!(values(&utxo.find_utxo(&a.pub_key_hash)), in_order);
    assert_eq!(values(&utxo.find_utxo(&[1, 2, 3])), Vec::<i32>::new());
}

#[test]
fn listing_goes_by_transaction_id_and_place() {
    let a = wallet(1);
    let b = wallet(2);
    let (_, utxo, _) = chain_with_transfer(&a, &b);
    let names: Vec<(String, i32)> =
        listing(&utxo).into_iter().map(|entry| (entry.0, entry.1)).collect();
    let mut sorted = names.clone();
    sorted.sort();
    sorted.dedup();
    assert_eq!(names, sorted);

    let mut index = UTXOSet::new();
    index.put(String::from("b"), 1, TXOutput::locked(1, vec![1]));
    index.put(String::from("ab"), 0, TXOutput::locked(2, vec![1]));
    index.put(String::from("b"), 0, TXOutput::locked(3, vec![1]));
    index.put(String::from("a"), 7, TXOutput::locked(4, vec![1]));
    index.put(String::from("c"), 0, TXOutput::locked(5, vec![1]));
    index.put(String::from("ab"), 0, TXOutput::locked(6, vec![1]));
    let names: Vec<(String, i32, i32)> =
        listing(&index).into_iter().map(|entry| (entry.0, entry.1, entry.2)).collect();
    assert_eq!(
        names,
        vec![
            (String::from("a"), 7, 4),
            (String::from("ab"), 0, 6),
            (String::from("b"), 0, 3),
            (String::from("b"), 1, 1),
            (String::from("c"), 0, 5),
        ]
    );
    let (total, picked) = index.find_spendable_outputs(&[1], 11);
    assert_eq!(total, 13);
    assert_eq!(picked.len(), 3);
    assert_eq!(picked[2].txid, "b");
    assert_eq!(picked[2].index, 0);
}

#[test]
fn outputs_are_taken_in_order_until_the_amount_is_covered() {
    let a = wallet(1);
    let b = wallet(2);
    let (_, utxo, _) = chain_with_transfer(&a, &b);
    let outputs = owned(&utxo, &a.pub_key_hash);
    assert_eq!(outputs.len(), 2);

    for amount in [0, 1, 6, 7, 10, 11, 16, 17] {
        let (total, picked) = utxo.find_spendable_outputs(&a.pub_key_hash, amount);
        let (expected_total, expected) = taken(&outputs, amount);
        assert_eq!(total, expected_total, "{}", amount);
        let names: Vec<(String, i32, i32)> = picked
            .iter()
            .map(|entry| (entry.txid.clone(), entry.index, entry.output.value))
            .collect();
        assert_eq!(names, expected, "{}", amount);
    }
    let (total, picked) = utxo.find_spendable_outputs(&a.pub_key_hash, 16);
    assert_eq!(total, 16);
    assert_eq!(picked.len(), 2);
    let (total, picked) = utxo.find_spendable_outputs(&a.pub_key_hash, 17);
    assert_eq!(total, 16);
    assert_eq!(picked.len(), 2);
    let (total, picked) = utxo.find_spendable_outputs(&a.pub_key_hash, 0);
    assert_eq!(total, 0);
    assert_eq!(picked.len(), 0);
    let (total, picked) = utxo.find_spendable_outputs(&[9, 9], 1);
    assert_eq!(total, 0);
    assert_eq!(picked.len(), 0);

    let tx = Transaction::new_utxo(&a.public_key, &b.address, 12, &utxo).unwrap();
    assert_eq!(tx.vin.len(), 2);
    assert_eq!(values(&tx.vout), vec![12, 4]);
    assert_eq!(tx.vin[0].txid, outputs[0].0);
    assert_eq!(tx.vin[1].txid, outputs[1].0);
}

#[test]
fn index_holds_what_is_put_until_it_is_removed() {
    let mut utxo = UTXOSet::new();
    assert_eq!(utxo.len(), 0);
    utxo.put(String::from("t"), 0, TXOutput::locked(5, vec![1]));
    utxo.put(String::from("t"), 1, TXOutput::locked(6, vec![1]));
    utxo.put(String::from("u"), 0, TXOutput::locked(7, vec![2]));
    utxo.put(String::from("t"), 0, TXOutput::locked(8, vec![1]));
    assert_eq!(utxo.len(), 3);
    assert_eq!(utxo.balance(&[1]), 14);
    assert_eq!(utxo.balance(&[2]), 7);
    assert_eq!(utxo.count_transactions(), 2);
    utxo.remove(&String::from("t"), 0);
    utxo.remove(&String::from("t"), 5);
    utxo.remove(&String::from("v"), 0);
    assert_eq!(utxo.len(), 2);
    assert!(!utxo.contains(&String::from("t"), 0));
    assert!(utxo.contains(&String::from("t"), 1));
    assert_eq!(utxo.balance(&[1]), 6);
    assert_eq!(utxo.get(0).output.value, 6);
}

#[test]
fn transaction_is_found_by_its_id() {
    let a = wallet(1);
    let b = wallet(2);
    let (bc, _, sent) = chain_with_transfer(&a, &b);
    let found = bc.find_transaction(&sent.id).unwrap();
    assert_eq!(found.id, sent.id);
    assert_eq!(values(&found.vout), vec![4, 6]);
    assert_eq!(found.vin[0].signature, sent.vin[0].signature);
    assert!(matches!(bc.find_transaction("nowhere"), Err(ChainError::TransactionNotFound)));
    assert!(matches!(bc.find_transaction(""), Err(ChainError::TransactionNotFound)));
}

#[test]
fn output_of_another_owner_cannot_be_spent() {
    let a = wallet(1);
    let b = wallet(2);
    let mut bc = Blockchain::create_blockchain_at(a.address.clone(), T0).unwrap();
    let genesis_tx = bc.blocks().unwrap()[0].get_transaction()[0].clone();
    let mut theft = Transaction {
        id: String::new(),
        vin: vec![TXInput {
            txid: genesis_tx.id.clone(),
            vout: 0,
            signature: Vec::new(),
            pub_key: b.public_key.clone(),
        }],
        vout: vec![TXOutput::locked(10, b.pub_key_hash.clone())],
    };
    theft.id = theft.hash().unwrap();
    bc.sign_transaction(&mut theft, &b.secret_key).unwrap();
    let prevs = bc.get_prev_txs(&theft).unwrap();
    let message = theft.signing_message(&prevs, 0).unwrap();
    assert!(check_signature(&message, &b.public_key, &theft.vin[0].signature));
    assert_eq!(bc.verify_transaction(&theft), Ok(false));
    assert!(matches!(bc.mine_block_at(vec![theft], T0 + 1), Err(ChainError::InvalidSignature)));
    assert_eq!(bc.blocks().unwrap().len(), 1);
}
