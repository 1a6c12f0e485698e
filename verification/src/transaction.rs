use crate::address::{address_outcome, pub_key_hash_of_address};
use crate::encoding::{
    input_of_record, inputs_of_records, output_of_record, outputs_of_records, serialize_transaction,
    transaction_bytes, transaction_of_record, transactions_of_records, InputRecord, OutputRecord,
    TransactionRecord,
};
use crate::errors::ChainError;
use crate::hashing::{copy_bytes, hash_pub_key, pub_key_hash_of, sha256_hex, sha256_hex_of};
use crate::signing::{
    check_signature, ed25519_sign, ed25519_signature_of, signature_holds, SECRET_KEY_LEN,
};
use crate::tx::{TXInput, TXInputView, TXOutput, TXOutputView};
use crate::assoc::pairs_map;
use crate::utxoset::{
    is_selection, lemma_listing_is_the_map, lemma_owned_are_listed, outpoint_pairs, owned_by,
    sorted_outpoints, total_value, unspent_view, OutPoint, UTXOSet, UnspentOutputView,
};
use vstd::prelude::*;
use vstd::utf8::encode_utf8;

verus! {

/// What a coinbase transaction pays to the address that it names.
pub const SUBSIDY: i32 = 10;

/// A transfer of value: the outputs that it spends and those that it makes.
#[derive(Debug)]
pub struct Transaction {
    pub id: String,
    pub vin: Vec<TXInput>,
    pub vout: Vec<TXOutput>,
}

/// What a `Transaction` holds.
pub struct TransactionView {
    pub id: Seq<char>,
    pub vin: Seq<TXInputView>,
    pub vout: Seq<TXOutputView>,
}

/// What a list of inputs holds.
pub open spec fn inputs_view(s: Seq<TXInput>) -> Seq<TXInputView> {
    Seq::new(s.len(), |i: int| s[i]@)
}

/// What a list of outputs holds.
pub open spec fn outputs_view(s: Seq<TXOutput>) -> Seq<TXOutputView> {
    Seq::new(s.len(), |i: int| s[i]@)
}

/// What a list of transactions holds.
pub open spec fn transactions_view(s: Seq<Transaction>) -> Seq<TransactionView> {
    Seq::new(s.len(), |i: int| s[i]@)
}

impl View for Transaction {
    type V = TransactionView;

    open spec fn view(&self) -> TransactionView {
        TransactionView {
            id: self.id@,
            vin: inputs_view(self.vin@),
            vout: outputs_view(self.vout@),
        }
    }
}

/// An input without its signature.
pub open spec fn unsigned(input: TXInputView) -> TXInputView {
    TXInputView { signature: Seq::empty(), ..input }
}

impl TransactionView {
    /// A coinbase transaction spends nothing: its one input names no
    /// transaction and no output.
    pub open spec fn is_coinbase(self) -> bool {
        self.vin.len() == 1 && self.vin[0].txid.len() == 0 && self.vin[0].vout == -1
    }

    /// The transaction as its id is taken of it: without an id and without
    /// signatures.
    pub open spec fn identity_form(self) -> TransactionView {
        TransactionView {
            id: Seq::empty(),
            vin: Seq::new(self.vin.len(), |i: int| unsigned(self.vin[i])),
            vout: self.vout,
        }
    }

    /// The id that belongs to the transaction: the SHA-256 digest, in
    /// hexadecimal, of the canonical bytes of its identity form.
    pub open spec fn id_of(self) -> Option<Seq<char>> {
        match transaction_bytes(self.identity_form()) {
            Some(bytes) => Some(sha256_hex_of(bytes)),
            None => None,
        }
    }
}

/// The first of `txs` that has the id `id`.
pub open spec fn find_by_id(txs: Seq<TransactionView>, id: Seq<char>) -> Option<TransactionView>
    decreases txs.len(),
{
    if txs.len() == 0 {
        None
    } else if txs[0].id == id {
        Some(txs[0])
    } else {
        find_by_id(txs.drop_first(), id)
    }
}

/// The output that `input` spends, looked up in `prevs`. An input that
/// names no transaction, or an output that the transaction does not have,
/// spends nothing.
pub open spec fn referenced_output(prevs: Seq<TransactionView>, input: TXInputView) -> Option<
    TXOutputView,
> {
    if input.txid.len() == 0 {
        None
    } else {
        match find_by_id(prevs, input.txid) {
            Some(tx) => if 0 <= input.vout < tx.vout.len() {
                Some(tx.vout[input.vout as int])
            } else {
                None
            },
            None => None,
        }
    }
}

/// Inputs without signatures and public keys, but for the input `chosen`,
/// which gets `owner` for its public key.
pub open spec fn trimmed_inputs(vin: Seq<TXInputView>, chosen: int, owner: Seq<u8>) -> Seq<
    TXInputView,
> {
    Seq::new(
        vin.len(),
        |j: int|
            TXInputView {
                txid: vin[j].txid,
                vout: vin[j].vout,
                signature: Seq::empty(),
                pub_key: if j == chosen {
                    owner
                } else {
                    Seq::empty()
                },
            },
    )
}

/// Whether `outcomes` fails first at `i`, and with `e`.
pub open spec fn fails_first_at<T>(
    outcomes: Seq<Result<T, ChainError>>,
    i: int,
    e: ChainError,
) -> bool {
    &&& 0 <= i < outcomes.len()
    &&& outcomes[i] == Err::<T, ChainError>(e)
    &&& forall|j: int| 0 <= j < i ==> (#[trigger] outcomes[j]) is Ok
}

impl TransactionView {
    /// The transaction as the input `chosen` signs it: no id, no
    /// signatures, and no public key but `owner`, the hash that the spent
    /// output is locked to, in the place of the chosen input's.
    pub open spec fn signing_form(self, chosen: int, owner: Seq<u8>) -> TransactionView {
        TransactionView {
            id: Seq::empty(),
            vin: trimmed_inputs(self.vin, chosen, owner),
            vout: self.vout,
        }
    }

    /// The message that the input `i` signs: the bytes of the hexadecimal
    /// SHA-256 digest of the canonical bytes of its signing form.
    pub open spec fn signing_message(self, prevs: Seq<TransactionView>, i: int) -> Result<
        Seq<u8>,
        ChainError,
    > {
        match referenced_output(prevs, self.vin[i]) {
            None => Err(ChainError::TransactionNotFound),
            Some(out) => match transaction_bytes(self.signing_form(i, out.pub_key_hash)) {
                None => Err(ChainError::SerializationError),
                Some(bytes) => Ok(encode_utf8(sha256_hex_of(bytes))),
            },
        }
    }

    /// The signature that belongs to the input `i` under `key`.
    pub open spec fn signature_for(
        self,
        prevs: Seq<TransactionView>,
        key: Seq<u8>,
        i: int,
    ) -> Result<Seq<u8>, ChainError> {
        match self.signing_message(prevs, i) {
            Ok(message) => Ok(ed25519_signature_of(message, key)),
            Err(e) => Err(e),
        }
    }

    /// The signatures that belong to the inputs under `key`, in order.
    pub open spec fn signatures(self, prevs: Seq<TransactionView>, key: Seq<u8>) -> Seq<
        Result<Seq<u8>, ChainError>,
    > {
        Seq::new(self.vin.len(), |i: int| self.signature_for(prevs, key, i))
    }

    /// Whether the input `i` may spend the output that it names: its public
    /// key is the key of the owner that the output is locked to, and this
    /// key accepts its signature as one of its message.
    pub open spec fn input_verifies(self, prevs: Seq<TransactionView>, i: int) -> Result<
        bool,
        ChainError,
    > {
        match self.signing_message(prevs, i) {
            Ok(message) => Ok(
                self.vin[i].unlocks(referenced_output(prevs, self.vin[i])->Some_0.pub_key_hash)
                    && signature_holds(message, self.vin[i].pub_key, self.vin[i].signature),
            ),
            Err(e) => Err(e),
        }
    }

    /// What checking the inputs from the input `i` on comes to: the answer
    /// of the first input that is not valid, or "valid" where all are.
    pub open spec fn checks_from(self, prevs: Seq<TransactionView>, i: int) -> Result<
        bool,
        ChainError,
    >
        decreases self.vin.len() - i,
    {
        if i < 0 || i >= self.vin.len() {
            Ok(true)
        } else {
            match self.input_verifies(prevs, i) {
                Ok(true) => self.checks_from(prevs, i + 1),
                other => other,
            }
        }
    }

    /// What verifying the transaction comes to. A coinbase transaction is
    /// valid whatever its input carries; any other is as valid as its
    /// inputs are.
    pub open spec fn verification(self, prevs: Seq<TransactionView>) -> Result<bool, ChainError> {
        if self.is_coinbase() {
            Ok(true)
        } else {
            self.checks_from(prevs, 0)
        }
    }

    /// Whether signing with `key` makes `after` of the transaction, with
    /// the answer `done`. A coinbase transaction stays as it is. Any other
    /// gets on each input the signature that belongs to it, unless the key
    /// has not the length of a secret key or the message of an input cannot
    /// be made: then the transaction stays as it is, and the answer is the
    /// error of the first input that fails.
    pub open spec fn signed_as(
        self,
        after: TransactionView,
        key: Seq<u8>,
        prevs: Seq<TransactionView>,
        done: Result<(), ChainError>,
    ) -> bool {
        if self.is_coinbase() {
            done is Ok && after == self
        } else if key.len() != SECRET_KEY_LEN {
            done == Err::<(), ChainError>(ChainError::InvalidKey) && after == self
        } else {
            match done {
                Ok(_) => exists|signatures: Seq<Seq<u8>>|
                    {
                        &&& signatures.len() == self.vin.len()
                        &&& forall|i: int|
                            0 <= i < signatures.len() ==> self.signature_for(prevs, key, i) == Ok::<
                                Seq<u8>,
                                ChainError,
                            >(#[trigger] signatures[i])
                        &&& after == self.with_signatures(signatures)
                    },
                Err(e) => after == self && exists|i: int|
                    fails_first_at(self.signatures(prevs, key), i, e),
            }
        }
    }

    /// The transaction with `signature` and `pub_key` on its first input.
    pub open spec fn with_input(self, signature: Seq<u8>, pub_key: Seq<u8>) -> TransactionView {
        TransactionView {
            id: self.id,
            vin: self.vin.update(0, TXInputView { signature, pub_key, ..self.vin[0] }),
            vout: self.vout,
        }
    }

    /// The transaction with the signatures `signatures` on its inputs.
    pub open spec fn with_signatures(self, signatures: Seq<Seq<u8>>) -> TransactionView {
        TransactionView {
            id: self.id,
            vin: Seq::new(
                self.vin.len(),
                |i: int| TXInputView { signature: signatures[i], ..self.vin[i] },
            ),
            vout: self.vout,
        }
    }
}

/// Where in `txs` the first transaction with the id `id` stands.
pub fn position_by_id(txs: &Vec<Transaction>, id: &String) -> (found: Option<usize>)
    ensures
        match found {
            Some(k) => k < txs@.len() && find_by_id(transactions_view(txs@), id@) == Some(
                txs@[k as int]@,
            ),
            None => find_by_id(transactions_view(txs@), id@) is None,
        },
{
    let ghost view = transactions_view(txs@);
    let mut i: usize = 0;
    assert(view.skip(0) =~= view);
    while i < txs.len()
        invariant
            i <= txs.len(),
            view == transactions_view(txs@),
            find_by_id(view, id@) == find_by_id(view.skip(i as int), id@),
        decreases txs.len() - i,
    {
        assert(view.skip(i as int).drop_first() =~= view.skip(i + 1));
        assert(view.skip(i as int)[0] == txs@[i as int]@);
        if txs[i].id == *id {
            return Some(i);
        }
        i += 1;
    }
    None
}

/// The output that `input` spends, looked up in `prev_txs`.
pub fn find_referenced_output<'a>(prev_txs: &'a Vec<Transaction>, input: &TXInput) -> (found:
    Option<&'a TXOutput>)
    ensures
        match found {
            Some(out) => referenced_output(transactions_view(prev_txs@), input@) == Some(out@),
            None => referenced_output(transactions_view(prev_txs@), input@) is None,
        },
{
    if input.txid.as_str().is_empty() {
        return None;
    }
    match position_by_id(prev_txs, &input.txid) {
        None => None,
        Some(k) => {
            let tx = &prev_txs[k];
            if input.vout < 0 {
                return None;
            }
            let index = input.vout as usize;
            if index < tx.vout.len() {
                Some(&tx.vout[index])
            } else {
                None
            }
        },
    }
}

/// The records of `inputs` in the form that the input `chosen` signs.
pub fn trimmed_records(inputs: &Vec<TXInput>, chosen: usize, owner: &Vec<u8>) -> (records: Vec<
    InputRecord,
>)
    ensures
        inputs_of_records(records@) == trimmed_inputs(
            inputs_view(inputs@),
            chosen as int,
            owner@,
        ),
{
    let mut records: Vec<InputRecord> = Vec::new();
    let mut i: usize = 0;
    while i < inputs.len()
        invariant
            i <= inputs.len(),
            records@.len() == i,
            forall|j: int|
                0 <= j < i ==> input_of_record(#[trigger] records@[j]) == trimmed_inputs(
                    inputs_view(inputs@),
                    chosen as int,
                    owner@,
                )[j],
        decreases inputs.len() - i,
    {
        let input = &inputs[i];
        let pub_key = if i == chosen {
            copy_bytes(owner.as_slice())
        } else {
            Vec::new()
        };
        records.push((input.txid.clone(), input.vout, Vec::new(), pub_key));
        i += 1;
    }
    assert(inputs_of_records(records@) =~= trimmed_inputs(
        inputs_view(inputs@),
        chosen as int,
        owner@,
    ));
    records
}

/// The sum of the values of a list of outputs.
pub open spec fn outputs_value(vout: Seq<TXOutputView>) -> int
    decreases vout.len(),
{
    if vout.len() == 0 {
        0
    } else {
        outputs_value(vout.drop_last()) + vout.last().value
    }
}

/// What `Transaction::new_utxo` builds of the outputs `picked` before the
/// id is set: an input for each of them, with the sender's public key and
/// no signature; an output of `amount` for the receiver; and, where the
/// picked outputs hold more, an output of the rest for the sender.
pub open spec fn transfer_body(
    from_pub_key: Seq<u8>,
    to_hash: Seq<u8>,
    amount: i32,
    picked: Seq<UnspentOutputView>,
) -> TransactionView {
    let total = total_value(picked);
    let paid = TXOutputView { value: amount, pub_key_hash: to_hash };
    TransactionView {
        id: Seq::empty(),
        vin: Seq::new(
            picked.len(),
            |i: int|
                TXInputView {
                    txid: picked[i].txid,
                    vout: picked[i].index,
                    signature: Seq::empty(),
                    pub_key: from_pub_key,
                },
        ),
        vout: if total > amount {
            seq![
                paid,
                TXOutputView {
                    value: (total - amount) as i32,
                    pub_key_hash: pub_key_hash_of(from_pub_key),
                },
            ]
        } else {
            seq![paid]
        },
    }
}

/// Whether a transfer that spends the outputs `picked` comes to `result`:
/// to no transaction where they hold less than `amount`, else to the
/// transaction built of them, with its id.
pub open spec fn transfer_of(
    from_pub_key: Seq<u8>,
    to_hash: Seq<u8>,
    amount: i32,
    picked: Seq<UnspentOutputView>,
    result: Result<TransactionView, ChainError>,
) -> bool {
    if total_value(picked) < amount {
        result == Err::<TransactionView, ChainError>(ChainError::InsufficientFunds)
    } else {
        let body = transfer_body(from_pub_key, to_hash, amount, picked);
        match body.id_of() {
            None => result == Err::<TransactionView, ChainError>(ChainError::SerializationError),
            Some(id) => result == Ok::<TransactionView, ChainError>(
                TransactionView { id, ..body },
            ),
        }
    }
}

/// Whether a transfer of `amount` from the owner of `from_pub_key` to the
/// address `to`, paid out of the outputs of `listing`, comes to `result`.
pub open spec fn transfer_outcome(
    from_pub_key: Seq<u8>,
    to: Seq<char>,
    amount: i32,
    listing: Seq<UnspentOutputView>,
    result: Result<TransactionView, ChainError>,
) -> bool {
    if amount < 0 {
        result == Err::<TransactionView, ChainError>(ChainError::InvalidAmount)
    } else {
        match address_outcome(to) {
            Err(e) => result == Err::<TransactionView, ChainError>(e),
            Ok(to_hash) => exists|picked: Seq<UnspentOutputView>|
                {
                    &&& #[trigger] is_selection(
                        owned_by(listing, pub_key_hash_of(from_pub_key)),
                        amount as int,
                        picked,
                    )
                    &&& transfer_of(from_pub_key, to_hash, amount, picked, result)
                },
        }
    }
}

/// A transfer makes outputs of exactly the value that it spends: the
/// outputs that it is built of hold what its own outputs hold together,
/// and what goes back to the sender is an amount that an output can hold.
pub proof fn lemma_transfer_conserves_value(
    from_pub_key: Seq<u8>,
    to_hash: Seq<u8>,
    amount: i32,
    owned: Seq<UnspentOutputView>,
    picked: Seq<UnspentOutputView>,
)
    requires
        amount >= 0,
        is_selection(owned, amount as int, picked),
        total_value(picked) >= amount,
    ensures
        0 <= total_value(picked) - amount <= i32::MAX,
        outputs_value(transfer_body(from_pub_key, to_hash, amount, picked).vout) == total_value(
            picked,
        ),
{
    let total = total_value(picked);
    if picked.len() > 0 {
        let m = picked.len() - 1;
        assert(owned.take(m) =~= picked.drop_last());
        assert(total_value(owned.take(m)) < amount);
    }
    let vout = transfer_body(from_pub_key, to_hash, amount, picked).vout;
    let empty = Seq::<TXOutputView>::empty();
    assert(outputs_value(empty) == 0);
    if total > amount {
        let one = vout.drop_last();
        assert(one.len() == 1 && one.last().value == amount);
        assert(one.drop_last() =~= empty);
        assert(outputs_value(one) == outputs_value(one.drop_last()) + one.last().value);
        assert(outputs_value(vout) == outputs_value(one) + vout.last().value);
    } else {
        assert(vout.len() == 1 && vout.last().value == amount);
        assert(vout.drop_last() =~= empty);
        assert(outputs_value(vout) == outputs_value(vout.drop_last()) + vout.last().value);
    }
}

/// The sum of the values of the outputs that a list of inputs names in an
/// index.
pub open spec fn inputs_value(index: Map<OutPoint, TXOutputView>, vin: Seq<TXInputView>) -> int
    decreases vin.len(),
{
    if vin.len() == 0 {
        0
    } else {
        inputs_value(index, vin.drop_last()) + index[(
            vin.last().txid,
            vin.last().vout as int,
        )].value
    }
}

/// A transfer that is paid out of an index in order spends unspent outputs
/// of the sender, and makes outputs of exactly the value that it spends:
/// each of its inputs names an output that the index holds for the sender,
/// and the outputs that its inputs name hold together what its own outputs
/// hold together.
pub proof fn lemma_transfer_spends_what_it_makes(
    from_pub_key: Seq<u8>,
    to_hash: Seq<u8>,
    amount: i32,
    listing: Seq<UnspentOutputView>,
    picked: Seq<UnspentOutputView>,
)
    requires
        amount >= 0,
        sorted_outpoints(listing),
        is_selection(owned_by(listing, pub_key_hash_of(from_pub_key)), amount as int, picked),
        total_value(picked) >= amount,
    ensures
        forall|i: int|
            0 <= i < picked.len() ==> {
                let input = #[trigger] transfer_body(from_pub_key, to_hash, amount, picked).vin[i];
                let index = pairs_map(outpoint_pairs(listing));
                &&& index.contains_key((input.txid, input.vout as int))
                &&& index[(input.txid, input.vout as int)].locked_to(pub_key_hash_of(from_pub_key))
                &&& input.unlocks(pub_key_hash_of(from_pub_key))
            },
        inputs_value(
            pairs_map(outpoint_pairs(listing)),
            transfer_body(from_pub_key, to_hash, amount, picked).vin,
        ) == outputs_value(transfer_body(from_pub_key, to_hash, amount, picked).vout),
{
    let owner = pub_key_hash_of(from_pub_key);
    let owned = owned_by(listing, owner);
    let index = pairs_map(outpoint_pairs(listing));
    let body = transfer_body(from_pub_key, to_hash, amount, picked);
    lemma_transfer_conserves_value(from_pub_key, to_hash, amount, owned, picked);
    lemma_listing_is_the_map(listing);
    assert forall|i: int| 0 <= i < picked.len() implies index.contains_key(
        (#[trigger] picked[i]).outpoint(),
    ) && index[picked[i].outpoint()] == picked[i].output && picked[i].output.locked_to(owner) by {
        assert(picked[i] == owned[i]);
        lemma_owned_are_listed(listing, owner, i);
    }
    lemma_inputs_value(index, from_pub_key, to_hash, amount, picked, picked.len() as int);
    assert(body.vin.take(picked.len() as int) =~= body.vin);
    assert(picked.take(picked.len() as int) =~= picked);
}

/// The first `n` inputs of a transfer name outputs that hold together what
/// the first `n` of the outputs that it is built of hold.
proof fn lemma_inputs_value(
    index: Map<OutPoint, TXOutputView>,
    from_pub_key: Seq<u8>,
    to_hash: Seq<u8>,
    amount: i32,
    picked: Seq<UnspentOutputView>,
    n: int,
)
    requires
        0 <= n <= picked.len(),
        forall|i: int|
            0 <= i < picked.len() ==> index.contains_key((#[trigger] picked[i]).outpoint())
                && index[picked[i].outpoint()] == picked[i].output,
    ensures
        inputs_value(index, transfer_body(from_pub_key, to_hash, amount, picked).vin.take(n))
            == total_value(picked.take(n)),
    decreases n,
{
    let vin = transfer_body(from_pub_key, to_hash, amount, picked).vin;
    if n > 0 {
        lemma_inputs_value(index, from_pub_key, to_hash, amount, picked, n - 1);
        assert(vin.take(n).drop_last() =~= vin.take(n - 1));
        assert(picked.take(n).drop_last() =~= picked.take(n - 1));
        assert(vin.take(n).last() == vin[n - 1]);
        assert(picked.take(n).last() == picked[n - 1]);
        assert(index[picked[n - 1].outpoint()] == picked[n - 1].output);
    }
}

/// A coinbase transaction is valid whatever signature and public key its
/// input carries, and whatever transactions it is verified against.
pub proof fn lemma_coinbase_verifies(tx: TransactionView, prevs: Seq<TransactionView>)
    requires
        tx.is_coinbase(),
    ensures
        tx.verification(prevs) == Ok::<bool, ChainError>(true),
        forall|signature: Seq<u8>, pub_key: Seq<u8>|
            (#[trigger] tx.with_input(signature, pub_key)).verification(prevs) == Ok::<
                bool,
                ChainError,
            >(true),
{
}

/// The records of a list of inputs, signatures left out on demand.
pub fn inputs_to_records(inputs: &Vec<TXInput>, with_signatures: bool) -> (records: Vec<
    InputRecord,
>)
    ensures
        inputs_of_records(records@) == Seq::new(
            inputs@.len(),
            |i: int|
                if with_signatures {
                    inputs@[i]@
                } else {
                    unsigned(inputs@[i]@)
                },
        ),
{
    let mut records: Vec<InputRecord> = Vec::new();
    let mut i: usize = 0;
    while i < inputs.len()
        invariant
            i <= inputs.len(),
            records@.len() == i,
            forall|j: int|
                0 <= j < i ==> input_of_record(#[trigger] records@[j]) == if with_signatures {
                    inputs@[j]@
                } else {
                    unsigned(inputs@[j]@)
                },
        decreases inputs.len() - i,
    {
        let input = &inputs[i];
        let signature = if with_signatures {
            copy_bytes(input.signature.as_slice())
        } else {
            Vec::new()
        };
        records.push(
            (input.txid.clone(), input.vout, signature, copy_bytes(input.pub_key.as_slice())),
        );
        i += 1;
    }
    assert(inputs_of_records(records@) =~= Seq::new(
        inputs@.len(),
        |i: int|
            if with_signatures {
                inputs@[i]@
            } else {
                unsigned(inputs@[i]@)
            },
    ));
    records
}

/// The records of a list of outputs.
pub fn outputs_to_records(outputs: &Vec<TXOutput>) -> (records: Vec<OutputRecord>)
    ensures
        outputs_of_records(records@) == outputs_view(outputs@),
{
    let mut records: Vec<OutputRecord> = Vec::new();
    let mut i: usize = 0;
    while i < outputs.len()
        invariant
            i <= outputs.len(),
            records@.len() == i,
            forall|j: int| 0 <= j < i ==> output_of_record(#[trigger] records@[j]) == outputs@[j]@,
        decreases outputs.len() - i,
    {
        let output = &outputs[i];
        records.push((output.value, copy_bytes(output.pub_key_hash.as_slice())));
        i += 1;
    }
    assert(outputs_of_records(records@) =~= outputs_view(outputs@));
    records
}

/// The inputs that a list of records holds.
pub fn inputs_from_records(records: &Vec<InputRecord>) -> (inputs: Vec<TXInput>)
    ensures
        inputs_view(inputs@) == inputs_of_records(records@),
{
    let mut inputs: Vec<TXInput> = Vec::new();
    let mut i: usize = 0;
    while i < records.len()
        invariant
            i <= records.len(),
            inputs@.len() == i,
            forall|j: int| 0 <= j < i ==> (#[trigger] inputs@[j])@ == input_of_record(records@[j]),
        decreases records.len() - i,
    {
        let r = &records[i];
        inputs.push(
            TXInput {
                txid: r.0.clone(),
                vout: r.1,
                signature: copy_bytes(r.2.as_slice()),
                pub_key: copy_bytes(r.3.as_slice()),
            },
        );
        i += 1;
    }
    assert(inputs_view(inputs@) =~= inputs_of_records(records@));
    inputs
}

/// The outputs that a list of records holds.
pub fn outputs_from_records(records: &Vec<OutputRecord>) -> (outputs: Vec<TXOutput>)
    ensures
        outputs_view(outputs@) == outputs_of_records(records@),
{
    let mut outputs: Vec<TXOutput> = Vec::new();
    let mut i: usize = 0;
    while i < records.len()
        invariant
            i <= records.len(),
            outputs@.len() == i,
            forall|j: int|
                0 <= j < i ==> (#[trigger] outputs@[j])@ == output_of_record(records@[j]),
        decreases records.len() - i,
    {
        let r = &records[i];
        outputs.push(TXOutput { value: r.0, pub_key_hash: copy_bytes(r.1.as_slice()) });
        i += 1;
    }
    assert(outputs_view(outputs@) =~= outputs_of_records(records@));
    outputs
}

/// What `Transaction::new_coinbase` builds before the id is set.
pub open spec fn coinbase_body(owner: Seq<u8>, note: Seq<char>) -> TransactionView {
    TransactionView {
        id: Seq::empty(),
        vin: seq![
            TXInputView {
                txid: Seq::empty(),
                vout: -1i32,
                signature: Seq::empty(),
                pub_key: encode_utf8(note),
            },
        ],
        vout: seq![TXOutputView { value: SUBSIDY, pub_key_hash: owner }],
    }
}

/// What `Transaction::new_coinbase` answers for an address and a note.
pub open spec fn new_coinbase_outcome(to: Seq<char>, note: Seq<char>) -> Result<
    TransactionView,
    ChainError,
> {
    match address_outcome(to) {
        Err(e) => Err(e),
        Ok(owner) => match coinbase_body(owner, note).id_of() {
            None => Err(ChainError::SerializationError),
            Some(id) => Ok(TransactionView { id, ..coinbase_body(owner, note) }),
        },
    }
}

impl Clone for Transaction {
    fn clone(&self) -> (copy: Self)
        ensures
            copy@ == self@,
    {
        let vin = inputs_from_records(&inputs_to_records(&self.vin, true));
        let vout = outputs_from_records(&outputs_to_records(&self.vout));
        let copy = Transaction { id: self.id.clone(), vin, vout };
        assert(copy@.vin =~= self@.vin);
        copy
    }
}

impl Transaction {
    /// Whether the transaction mints its outputs instead of spending
    /// earlier ones.
    pub fn is_coinbase(&self) -> (yes: bool)
        ensures
            yes == self@.is_coinbase(),
    {
        self.vin.len() == 1 && self.vin[0].txid.as_str().is_empty() && self.vin[0].vout == -1
    }

    /// The transaction as the encoder takes it.
    pub fn to_record(&self) -> (record: TransactionRecord)
        ensures
            transaction_of_record(record) == self@,
    {
        let vin = inputs_to_records(&self.vin, true);
        let vout = outputs_to_records(&self.vout);
        let record = (self.id.clone(), vin, vout);
        assert(transaction_of_record(record).vin =~= self@.vin);
        record
    }

    /// The transaction that a record holds.
    pub fn from_record(record: &TransactionRecord) -> (tx: Transaction)
        ensures
            tx@ == transaction_of_record(*record),
    {
        Transaction {
            id: record.0.clone(),
            vin: inputs_from_records(&record.1),
            vout: outputs_from_records(&record.2),
        }
    }

    /// The id that belongs to the transaction, whatever its `id` field
    /// holds and whether or not its inputs are signed.
    pub fn hash(&self) -> (id: Result<String, ChainError>)
        ensures
            match self@.id_of() {
                Some(digest) => id is Ok && id->Ok_0@ == digest,
                None => id == Err::<String, ChainError>(ChainError::SerializationError),
            },
    {
        let vin = inputs_to_records(&self.vin, false);
        let vout = outputs_to_records(&self.vout);
        let record: TransactionRecord = (String::new(), vin, vout);
        assert(transaction_of_record(record).vin =~= self@.identity_form().vin);
        match serialize_transaction(&record) {
            Some(bytes) => Ok(sha256_hex(bytes.as_slice())),
            None => Err(ChainError::SerializationError),
        }
    }

    /// The message that the input `i` signs.
    pub fn signing_message(&self, prev_txs: &Vec<Transaction>, i: usize) -> (message: Result<
        Vec<u8>,
        ChainError,
    >)
        requires
            i < self.vin@.len(),
        ensures
            match message {
                Ok(m) => self@.signing_message(transactions_view(prev_txs@), i as int) == Ok::<
                    Seq<u8>,
                    ChainError,
                >(m@),
                Err(e) => self@.signing_message(transactions_view(prev_txs@), i as int) == Err::<
                    Seq<u8>,
                    ChainError,
                >(e),
            },
    {
        let out = match find_referenced_output(prev_txs, &self.vin[i]) {
            Some(out) => out,
            None => { return Err(ChainError::TransactionNotFound); },
        };
        let vin = trimmed_records(&self.vin, i, &out.pub_key_hash);
        let vout = outputs_to_records(&self.vout);
        let record: TransactionRecord = (String::new(), vin, vout);
        assert(transaction_of_record(record) == self@.signing_form(i as int, out@.pub_key_hash));
        match serialize_transaction(&record) {
            Some(bytes) => {
                let digest = sha256_hex(bytes.as_slice());
                Ok(copy_bytes(digest.as_str().as_bytes()))
            },
            None => Err(ChainError::SerializationError),
        }
    }

    /// Signs every input with `private_key`, each over its own message. A
    /// coinbase transaction is left as it is; so is any transaction on
    /// which signing fails.
    pub fn sign(&mut self, private_key: &[u8], prev_txs: &Vec<Transaction>) -> (done: Result<
        (),
        ChainError,
    >)
        ensures
            old(self)@.signed_as(
                final(self)@,
                private_key@,
                transactions_view(prev_txs@),
                done,
            ),
            done is Err ==> *final(self) == *old(self),
    {
        if self.is_coinbase() {
            return Ok(());
        }
        if private_key.len() != SECRET_KEY_LEN {
            return Err(ChainError::InvalidKey);
        }
        let ghost prevs = transactions_view(prev_txs@);
        let ghost outcomes = self@.signatures(prevs, private_key@);
        let mut vin: Vec<TXInput> = Vec::new();
        let ghost mut signatures: Seq<Seq<u8>> = Seq::empty();
        let mut i: usize = 0;
        while i < self.vin.len()
            invariant
                i <= self.vin.len(),
                *self == *old(self),
                !self@.is_coinbase(),
                private_key@.len() == SECRET_KEY_LEN,
                prevs == transactions_view(prev_txs@),
                outcomes == self@.signatures(prevs, private_key@),
                vin@.len() == i,
                signatures.len() == i,
                forall|j: int|
                    #![trigger outcomes[j]]
                    #![trigger signatures[j]]
                    0 <= j < i ==> outcomes[j] == Ok::<Seq<u8>, ChainError>(signatures[j]),
                forall|j: int|
                    0 <= j < i ==> (#[trigger] vin@[j])@ == (TXInputView {
                        signature: signatures[j],
                        ..self@.vin[j]
                    }),
            decreases self.vin.len() - i,
        {
            let message = match self.signing_message(prev_txs, i) {
                Ok(m) => m,
                Err(e) => {
                    assert(fails_first_at(outcomes, i as int, e));
                    return Err(e);
                },
            };
            let signature = ed25519_sign(message.as_slice(), private_key);
            let input = &self.vin[i];
            proof {
                signatures = signatures.push(signature@);
            }
            vin.push(
                TXInput {
                    txid: input.txid.clone(),
                    vout: input.vout,
                    signature,
                    pub_key: copy_bytes(input.pub_key.as_slice()),
                },
            );
            i += 1;
        }
        self.vin = vin;
        assert(self@.vin =~= old(self)@.with_signatures(signatures).vin);
        assert(self@ == old(self)@.with_signatures(signatures));
        Ok(())
    }

    /// Whether every input may spend the output that it names: it carries
    /// the public key of the output's owner and a signature of its own
    /// message that this key accepts. A coinbase transaction is valid
    /// whatever its input carries.
    pub fn verify(&self, prev_txs: &Vec<Transaction>) -> (valid: Result<bool, ChainError>)
        ensures
            valid == self@.verification(transactions_view(prev_txs@)),
    {
        if self.is_coinbase() {
            return Ok(true);
        }
        let ghost prevs = transactions_view(prev_txs@);
        let mut i: usize = 0;
        while i < self.vin.len()
            invariant
                i <= self.vin.len(),
                !self@.is_coinbase(),
                prevs == transactions_view(prev_txs@),
                self@.verification(prevs) == self@.checks_from(prevs, i as int),
            decreases self.vin.len() - i,
        {
            let message = match self.signing_message(prev_txs, i) {
                Ok(m) => m,
                Err(e) => {
                    return Err(e);
                },
            };
            let input = &self.vin[i];
            let owned = match find_referenced_output(prev_txs, input) {
                Some(out) => input.can_unlock_output_with(out.pub_key_hash.as_slice()),
                None => false,
            };
            if !owned || !check_signature(
                message.as_slice(),
                input.pub_key.as_slice(),
                input.signature.as_slice(),
            ) {
                return Ok(false);
            }
            i += 1;
        }
        Ok(true)
    }

    /// The transaction that pays `amount` from the owner of `from_pub_key`
    /// to the owner that the address `to` names, out of the sender's
    /// unspent outputs in `utxo`. Its inputs are not signed yet.
    pub fn new_utxo(from_pub_key: &[u8], to: &str, amount: i32, utxo: &UTXOSet) -> (made: Result<
        Transaction,
        ChainError,
    >)
        ensures
            match made {
                Ok(tx) => transfer_outcome(
                    from_pub_key@,
                    to@,
                    amount,
                    utxo.listing(),
                    Ok::<TransactionView, ChainError>(tx@),
                ),
                Err(e) => transfer_outcome(
                    from_pub_key@,
                    to@,
                    amount,
                    utxo.listing(),
                    Err::<TransactionView, ChainError>(e),
                ),
            },
    {
        if amount < 0 {
            return Err(ChainError::InvalidAmount);
        }
        let to_hash = match pub_key_hash_of_address(to) {
            Ok(hash) => hash,
            Err(e) => { return Err(e); },
        };
        let mut owner = copy_bytes(from_pub_key);
        hash_pub_key(&mut owner);
        let (total, picked) = utxo.find_spendable_outputs(owner.as_slice(), amount);
        let ghost chosen = unspent_view(picked@);
        if total < amount as i128 {
            assert(transfer_of(
                from_pub_key@,
                to_hash@,
                amount,
                chosen,
                Err::<TransactionView, ChainError>(ChainError::InsufficientFunds),
            ));
            return Err(ChainError::InsufficientFunds);
        }
        proof {
            lemma_transfer_conserves_value(
                from_pub_key@,
                to_hash@,
                amount,
                owned_by(utxo.listing(), owner@),
                chosen,
            );
        }
        let mut vin: Vec<TXInput> = Vec::new();
        let mut i: usize = 0;
        while i < picked.len()
            invariant
                i <= picked.len(),
                chosen == unspent_view(picked@),
                vin@.len() == i,
                forall|j: int|
                    0 <= j < i ==> (#[trigger] vin@[j])@ == (TXInputView {
                        txid: chosen[j].txid,
                        vout: chosen[j].index,
                        signature: Seq::empty(),
                        pub_key: from_pub_key@,
                    }),
            decreases picked.len() - i,
        {
            vin.push(
                TXInput {
                    txid: picked[i].txid.clone(),
                    vout: picked[i].index,
                    signature: Vec::new(),
                    pub_key: copy_bytes(from_pub_key),
                },
            );
            i += 1;
        }
        let mut vout: Vec<TXOutput> = Vec::new();
        vout.push(TXOutput::locked(amount, to_hash));
        if total > amount as i128 {
            vout.push(TXOutput::locked((total - amount as i128) as i32, owner));
        }
        let mut tx = Transaction { id: String::new(), vin, vout };
        proof {
            let body = transfer_body(from_pub_key@, to_hash@, amount, chosen);
            assert(tx@.vin =~= body.vin);
            assert(tx@.vout =~= body.vout);
            assert(tx@ == body);
        }
        match tx.hash() {
            Ok(id) => {
                tx.id = id;
                assert(transfer_of(
                    from_pub_key@,
                    to_hash@,
                    amount,
                    chosen,
                    Ok::<TransactionView, ChainError>(tx@),
                ));
                Ok(tx)
            },
            Err(e) => {
                assert(transfer_of(
                    from_pub_key@,
                    to_hash@,
                    amount,
                    chosen,
                    Err::<TransactionView, ChainError>(e),
                ));
                Err(e)
            },
        }
    }

    /// The transaction that pays the block reward to the owner that `to`
    /// names. Its one input spends nothing and carries `data`.
    pub fn new_coinbase(to: String, data: String) -> (made: Result<Transaction, ChainError>)
        ensures
            match made {
                Ok(tx) => new_coinbase_outcome(to@, data@) == Ok::<TransactionView, ChainError>(
                    tx@,
                ),
                Err(e) => new_coinbase_outcome(to@, data@) == Err::<TransactionView, ChainError>(e),
            },
    {
        let output = match TXOutput::new(SUBSIDY, to) {
            Ok(o) => o,
            Err(e) => { return Err(e); },
        };
        let input = TXInput {
            txid: String::new(),
            vout: -1,
            signature: Vec::new(),
            pub_key: copy_bytes(data.as_str().as_bytes()),
        };
        let mut vin: Vec<TXInput> = Vec::new();
        vin.push(input);
        let mut vout: Vec<TXOutput> = Vec::new();
        vout.push(output);
        let mut tx = Transaction { id: String::new(), vin, vout };
        assert(tx@.vin =~= coinbase_body(output@.pub_key_hash, data@).vin);
        assert(tx@.vout =~= coinbase_body(output@.pub_key_hash, data@).vout);
        let id = match tx.hash() {
            Ok(id) => id,
            Err(e) => { return Err(e); },
        };
        tx.id = id;
        Ok(tx)
    }
}

/// The records of a list of transactions.
pub fn transactions_to_records(txs: &Vec<Transaction>) -> (records: Vec<TransactionRecord>)
    ensures
        transactions_of_records(records@) == transactions_view(txs@),
{
    let mut records: Vec<TransactionRecord> = Vec::new();
    let mut i: usize = 0;
    while i < txs.len()
        invariant
            i <= txs.len(),
            records@.len() == i,
            forall|j: int|
                0 <= j < i ==> transaction_of_record(#[trigger] records@[j]) == txs@[j]@,
        decreases txs.len() - i,
    {
        records.push(txs[i].to_record());
        i += 1;
    }
    assert(transactions_of_records(records@) =~= transactions_view(txs@));
    records
}

/// The transactions that a list of records holds.
pub fn transactions_from_records(records: &Vec<TransactionRecord>) -> (txs: Vec<Transaction>)
    ensures
        transactions_view(txs@) == transactions_of_records(records@),
{
    let mut txs: Vec<Transaction> = Vec::new();
    let mut i: usize = 0;
    while i < records.len()
        invariant
            i <= records.len(),
            txs@.len() == i,
            forall|j: int|
                0 <= j < i ==> (#[trigger] txs@[j])@ == transaction_of_record(records@[j]),
        decreases records.len() - i,
    {
        txs.push(Transaction::from_record(&records[i]));
        i += 1;
    }
    assert(transactions_view(txs@) =~= transactions_of_records(records@));
    txs
}

} // verus!
