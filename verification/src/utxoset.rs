use crate::assoc::{
    last_for_key, lemma_absent_key, lemma_insert_pair, lemma_last_pair_counts, lemma_remove_pair,
    lemma_replace_last_pair, lemma_same_but_at_chain, pairs_map, same_but_at,
};
use crate::order::{lemma_text_before_is_an_order, rank_text, text_before, Rank};
use crate::block::{Block, BlockView};
use crate::blockchain::{blocks_view, ends_at_genesis, Blockchain};
use crate::errors::ChainError;
use crate::transaction::{transactions_view, TransactionView};
use crate::transaction::outputs_view;
use crate::tx::{TXOutput, TXOutputView};
use vstd::prelude::*;

verus! {

/// What names an output: the id of its transaction and its place among the
/// transaction's outputs.
pub type OutPoint = (Seq<char>, int);

/// An unspent output with the transaction and the place that it has there.
#[derive(Debug)]
pub struct UnspentOutput {
    pub txid: String,
    pub index: i32,
    pub output: TXOutput,
}

/// What an `UnspentOutput` holds.
pub struct UnspentOutputView {
    pub txid: Seq<char>,
    pub index: i32,
    pub output: TXOutputView,
}

impl View for UnspentOutput {
    type V = UnspentOutputView;

    open spec fn view(&self) -> UnspentOutputView {
        UnspentOutputView { txid: self.txid@, index: self.index, output: self.output@ }
    }
}

impl UnspentOutputView {
    /// What names the output.
    pub open spec fn outpoint(self) -> OutPoint {
        (self.txid, self.index as int)
    }
}

/// What a list of unspent outputs holds.
pub open spec fn unspent_view(s: Seq<UnspentOutput>) -> Seq<UnspentOutputView> {
    Seq::new(s.len(), |i: int| s[i]@)
}

/// The outputs of a list, each beside what names it.
pub open spec fn outpoint_pairs(listing: Seq<UnspentOutputView>) -> Seq<(OutPoint, TXOutputView)> {
    Seq::new(listing.len(), |i: int| (listing[i].outpoint(), listing[i].output))
}

/// The first `n` outputs of a transaction, each under what names it. An
/// output whose place is beyond what an input can name is left out.
pub open spec fn outputs_upto(tx: TransactionView, n: int) -> Map<OutPoint, TXOutputView> {
    Map::new(
        |op: OutPoint| op.0 == tx.id && 0 <= op.1 < n && op.1 < tx.vout.len() && op.1 <= i32::MAX,
        |op: OutPoint| tx.vout[op.1],
    )
}

/// The outputs of a transaction, each under what names it.
pub open spec fn outputs_of(tx: TransactionView) -> Map<OutPoint, TXOutputView> {
    outputs_upto(tx, tx.vout.len() as int)
}

/// The outputs that a list of transactions makes. Where two transactions
/// have one id, the later one counts.
pub open spec fn created_by(txs: Seq<TransactionView>) -> Map<OutPoint, TXOutputView>
    decreases txs.len(),
{
    if txs.len() == 0 {
        Map::empty()
    } else {
        created_by(txs.drop_last()).union_prefer_right(outputs_of(txs.last()))
    }
}

/// What the first `n` inputs of a transaction name.
pub open spec fn inputs_upto(tx: TransactionView, n: int) -> Set<OutPoint> {
    Set::new(
        |op: OutPoint|
            exists|i: int|
                0 <= i < n && i < tx.vin.len() && (#[trigger] tx.vin[i]).txid == op.0
                    && tx.vin[i].vout as int == op.1,
    )
}

/// The outputs that a transaction spends: what its inputs name, unless it
/// is a coinbase transaction, which spends nothing.
pub open spec fn spent_by_tx(tx: TransactionView) -> Set<OutPoint> {
    if tx.is_coinbase() {
        Set::empty()
    } else {
        inputs_upto(tx, tx.vin.len() as int)
    }
}

/// The outputs that a list of transactions spends.
pub open spec fn spent_by(txs: Seq<TransactionView>) -> Set<OutPoint> {
    Set::new(
        |op: OutPoint|
            exists|t: int| 0 <= t < txs.len() && spent_by_tx(#[trigger] txs[t]).contains(op),
    )
}

/// What a block makes of the index: the outputs of its transactions come
/// in, and what its transactions spend goes out.
pub open spec fn apply_block(index: Map<OutPoint, TXOutputView>, block: BlockView) -> Map<
    OutPoint,
    TXOutputView,
> {
    index.union_prefer_right(created_by(block.transactions)).remove_keys(
        spent_by(block.transactions),
    )
}

/// The index that comes of applying the blocks of a history, oldest first,
/// one after the other to an index without outputs.
pub open spec fn replay(history: Seq<BlockView>) -> Map<OutPoint, TXOutputView>
    decreases history.len(),
{
    if history.len() == 0 {
        Map::empty()
    } else {
        apply_block(replay(history.drop_last()), history.last())
    }
}

/// Whether the block `k` of a history, oldest first, makes the output
/// named `op`, and neither this block nor a later one spends it.
pub open spec fn survives_from(history: Seq<BlockView>, k: int, op: OutPoint) -> bool {
    &&& 0 <= k < history.len()
    &&& created_by(history[k].transactions).contains_key(op)
    &&& forall|j: int|
        k <= j < history.len() ==> !spent_by((#[trigger] history[j]).transactions).contains(op)
}

/// The place of the last block of a history that makes the output named
/// `op`; -1 where no block makes it.
pub open spec fn last_creator(history: Seq<BlockView>, op: OutPoint) -> int
    decreases history.len(),
{
    if history.len() == 0 {
        -1
    } else if created_by(history.last().transactions).contains_key(op) {
        history.len() - 1
    } else {
        last_creator(history.drop_last(), op)
    }
}

/// The unspent outputs of a history, oldest block first: an output is
/// unspent if a block makes it and neither this block nor a later one
/// spends it, and it holds what the last block that makes it put there.
pub open spec fn unspent_outputs(history: Seq<BlockView>) -> Map<OutPoint, TXOutputView> {
    Map::new(
        |op: OutPoint| exists|k: int| survives_from(history, k, op),
        |op: OutPoint| created_by(history[last_creator(history, op)].transactions)[op],
    )
}

/// The last block that makes an output is a block of the history, makes
/// the output, and no later block makes it.
pub proof fn lemma_last_creator(history: Seq<BlockView>, op: OutPoint)
    ensures
        -1 <= last_creator(history, op) < history.len(),
        last_creator(history, op) >= 0 ==> created_by(
            history[last_creator(history, op)].transactions,
        ).contains_key(op),
        forall|k: int|
            last_creator(history, op) < k < history.len() ==> !created_by(
                (#[trigger] history[k]).transactions,
            ).contains_key(op),
    decreases history.len(),
{
    if history.len() > 0 && !created_by(history.last().transactions).contains_key(op) {
        let front = history.drop_last();
        lemma_last_creator(front, op);
        assert forall|k: int| last_creator(history, op) < k < history.len() implies !created_by(
            (#[trigger] history[k]).transactions,
        ).contains_key(op) by {
            if k < front.len() {
                assert(front[k] == history[k]);
            }
        }
    }
}

/// The unspent outputs of a history with one block more are what the
/// block makes of the unspent outputs of the history.
pub proof fn lemma_unspent_outputs_step(history: Seq<BlockView>, block: BlockView)
    ensures
        unspent_outputs(history.push(block)) == apply_block(unspent_outputs(history), block),
{
    let longer = history.push(block);
    let n = history.len() as int;
    let before = unspent_outputs(history);
    let after = unspent_outputs(longer);
    let applied = apply_block(before, block);
    let made = created_by(block.transactions);
    let gone = spent_by(block.transactions);
    assert(longer.drop_last() =~= history);
    assert(longer[n] == block);
    assert forall|op: OutPoint| after.contains_key(op) <==> applied.contains_key(op) by {
        if after.contains_key(op) {
            let k = choose|k: int| survives_from(longer, k, op);
            assert(!spent_by(longer[n].transactions).contains(op));
            if k < n {
                assert(longer[k] == history[k]);
                assert forall|j: int| k <= j < history.len() implies !spent_by(
                    (#[trigger] history[j]).transactions,
                ).contains(op) by {
                    assert(longer[j] == history[j]);
                }
                assert(survives_from(history, k, op));
            }
        }
        if applied.contains_key(op) {
            if made.contains_key(op) {
                assert(survives_from(longer, n, op));
            } else {
                let k = choose|k: int| survives_from(history, k, op);
                assert(longer[k] == history[k]);
                assert forall|j: int| k <= j < longer.len() implies !spent_by(
                    (#[trigger] longer[j]).transactions,
                ).contains(op) by {
                    if j < n {
                        assert(longer[j] == history[j]);
                    }
                }
                assert(survives_from(longer, k, op));
            }
        }
    }
    assert forall|op: OutPoint| after.contains_key(op) implies after[op] == applied[op] by {
        if !made.contains_key(op) {
            let k = choose|k: int| survives_from(history, k, op);
            lemma_last_creator(history, op);
            let last = last_creator(history, op);
            assert(last >= k);
            assert(longer[last] == history[last]);
        }
    }
    assert(after =~= applied);
}

/// The unspent outputs of a history are the index that comes of applying
/// its blocks, oldest first, one after the other to an index without
/// outputs.
pub proof fn lemma_unspent_outputs_are_replayed(history: Seq<BlockView>)
    ensures
        unspent_outputs(history) == replay(history),
    decreases history.len(),
{
    if history.len() == 0 {
        assert(unspent_outputs(history) =~= Map::<OutPoint, TXOutputView>::empty());
    } else {
        lemma_unspent_outputs_are_replayed(history.drop_last());
        lemma_unspent_outputs_step(history.drop_last(), history.last());
        assert(history.drop_last().push(history.last()) =~= history);
    }
}

/// The outputs of a listing that are locked to `owner`, in the order of the
/// listing.
pub open spec fn owned_by(listing: Seq<UnspentOutputView>, owner: Seq<u8>) -> Seq<
    UnspentOutputView,
>
    decreases listing.len(),
{
    if listing.len() == 0 {
        Seq::empty()
    } else if listing.last().output.locked_to(owner) {
        owned_by(listing.drop_last(), owner).push(listing.last())
    } else {
        owned_by(listing.drop_last(), owner)
    }
}

/// The sum of the values of the outputs of a listing.
pub open spec fn total_value(listing: Seq<UnspentOutputView>) -> int
    decreases listing.len(),
{
    if listing.len() == 0 {
        0
    } else {
        total_value(listing.drop_last()) + listing.last().output.value
    }
}

/// Whether `picked` is what is taken of `owned` to pay `amount`: the
/// outputs from the first on, up to the first with which the sum of the
/// values comes to `amount`, or all of them where the sum never does.
pub open spec fn is_selection(
    owned: Seq<UnspentOutputView>,
    amount: int,
    picked: Seq<UnspentOutputView>,
) -> bool {
    &&& picked.len() <= owned.len()
    &&& picked == owned.take(picked.len() as int)
    &&& forall|m: int| 0 <= m < picked.len() ==> total_value(#[trigger] owned.take(m)) < amount
    &&& (total_value(picked) >= amount || picked.len() == owned.len())
}

/// Whether the output at the place `i` of a listing is the first of its
/// transaction there.
pub open spec fn first_of_its_transaction(listing: Seq<UnspentOutputView>, i: int) -> bool {
    forall|j: int| 0 <= j < i ==> (#[trigger] listing[j]).txid != listing[i].txid
}

/// How many transactions have an output among the first `n` of a listing.
pub open spec fn transactions_upto(listing: Seq<UnspentOutputView>, n: int) -> nat
    decreases n,
{
    if n <= 0 {
        0
    } else {
        transactions_upto(listing, n - 1) + if first_of_its_transaction(listing, n - 1) {
            1nat
        } else {
            0nat
        }
    }
}

/// Each of the owner's outputs of a listing is an output of the listing,
/// and locked to the owner.
pub proof fn lemma_owned_are_listed(listing: Seq<UnspentOutputView>, owner: Seq<u8>, i: int)
    requires
        0 <= i < owned_by(listing, owner).len(),
    ensures
        owned_by(listing, owner)[i].output.locked_to(owner),
        exists|j: int|
            0 <= j < listing.len() && #[trigger] listing[j] == owned_by(listing, owner)[i],
    decreases listing.len(),
{
    let front = listing.drop_last();
    if listing.last().output.locked_to(owner) && i == owned_by(front, owner).len() {
        assert(listing[listing.len() - 1] == owned_by(listing, owner)[i]);
    } else {
        lemma_owned_are_listed(front, owner, i);
        let j = choose|j: int|
            0 <= j < front.len() && #[trigger] front[j] == owned_by(front, owner)[i];
        assert(listing[j] == owned_by(listing, owner)[i]);
    }
}

/// What is taken of a list of outputs to pay an amount is given by the list
/// and the amount.
pub proof fn lemma_selection_is_determined(
    owned: Seq<UnspentOutputView>,
    amount: int,
    first: Seq<UnspentOutputView>,
    second: Seq<UnspentOutputView>,
)
    requires
        is_selection(owned, amount, first),
        is_selection(owned, amount, second),
    ensures
        first == second,
{
    if first.len() < second.len() {
        assert(total_value(owned.take(first.len() as int)) < amount);
    } else if second.len() < first.len() {
        assert(total_value(owned.take(second.len() as int)) < amount);
    }
}

/// The owner's outputs among the first outputs of a listing are the first
/// of the owner's outputs in the listing.
pub proof fn lemma_owned_by_prefix(listing: Seq<UnspentOutputView>, owner: Seq<u8>, i: int)
    requires
        0 <= i <= listing.len(),
    ensures
        owned_by(listing.take(i), owner).len() <= owned_by(listing, owner).len(),
        owned_by(listing.take(i), owner) == owned_by(listing, owner).take(
            owned_by(listing.take(i), owner).len() as int,
        ),
    decreases listing.len(),
{
    if i == listing.len() {
        assert(listing.take(i) =~= listing);
        assert(owned_by(listing, owner).take(owned_by(listing, owner).len() as int) =~= owned_by(
            listing,
            owner,
        ));
    } else {
        let front = listing.drop_last();
        assert(listing.take(i) =~= front.take(i));
        lemma_owned_by_prefix(front, owner, i);
        let part = owned_by(front.take(i), owner);
        assert(owned_by(listing, owner).take(part.len() as int) =~= owned_by(front, owner).take(
            part.len() as int,
        ));
    }
}

/// The sum of the values of a listing lies within what its length and the
/// range of a value allow.
pub proof fn lemma_total_value_bounds(listing: Seq<UnspentOutputView>)
    ensures
        -0x8000_0000 * listing.len() <= total_value(listing) <= 0x7fff_ffff * listing.len(),
    decreases listing.len(),
{
    if listing.len() > 0 {
        lemma_total_value_bounds(listing.drop_last());
    }
}

/// Whether what names the output `a` comes before what names the output
/// `b`: by the id of the transaction, then by the place among its outputs.
pub open spec fn outpoint_before(a: OutPoint, b: OutPoint) -> bool {
    text_before(a.0, b.0) || (a.0 == b.0 && a.1 < b.1)
}

/// Whether a listing is in order: each output comes before those behind
/// it. No output stands twice in such a listing.
pub open spec fn sorted_outpoints(listing: Seq<UnspentOutputView>) -> bool {
    forall|i: int, j: int|
        0 <= i < j < listing.len() ==> outpoint_before(
            (#[trigger] listing[i]).outpoint(),
            (#[trigger] listing[j]).outpoint(),
        )
}

/// The order of what names outputs is a strict order in which any two
/// different names are ordered.
pub proof fn lemma_outpoint_before_is_an_order(a: OutPoint, b: OutPoint, c: OutPoint)
    ensures
        !outpoint_before(a, a),
        outpoint_before(a, b) && outpoint_before(b, c) ==> outpoint_before(a, c),
        outpoint_before(a, b) ==> !outpoint_before(b, a),
        a != b ==> outpoint_before(a, b) || outpoint_before(b, a),
{
    lemma_text_before_is_an_order(a.0, b.0, c.0);
    lemma_text_before_is_an_order(a.0, b.0, a.0);
    lemma_text_before_is_an_order(b.0, c.0, b.0);
    lemma_text_before_is_an_order(b.0, a.0, b.0);
}

/// A listing in order lists what its map holds, each output once: every
/// output of the listing is in the map under what names it, and the map has
/// no other.
pub proof fn lemma_listing_is_the_map(listing: Seq<UnspentOutputView>)
    requires
        sorted_outpoints(listing),
    ensures
        forall|i: int|
            0 <= i < listing.len() ==> pairs_map(outpoint_pairs(listing)).contains_key(
                (#[trigger] listing[i]).outpoint(),
            ) && pairs_map(outpoint_pairs(listing))[listing[i].outpoint()] == listing[i].output,
        forall|op: OutPoint| #[trigger]
            pairs_map(outpoint_pairs(listing)).contains_key(op) ==> exists|i: int|
                0 <= i < listing.len() && (#[trigger] listing[i]).outpoint() == op,
{
    let pairs = outpoint_pairs(listing);
    assert forall|i: int| 0 <= i < listing.len() implies pairs_map(pairs).contains_key(
        (#[trigger] listing[i]).outpoint(),
    ) && pairs_map(pairs)[listing[i].outpoint()] == listing[i].output by {
        assert forall|j: int| i < j < pairs.len() implies (#[trigger] pairs[j]).0 != pairs[i].0 by {
            assert(outpoint_before(listing[i].outpoint(), listing[j].outpoint()));
            lemma_outpoint_before_is_an_order(
                listing[i].outpoint(),
                listing[j].outpoint(),
                listing[i].outpoint(),
            );
        }
        lemma_last_pair_counts(pairs, i);
    }
    assert forall|op: OutPoint| #[trigger] pairs_map(pairs).contains_key(op) implies exists|i: int|
        0 <= i < listing.len() && (#[trigger] listing[i]).outpoint() == op by {
        if !exists|i: int| 0 <= i < listing.len() && (#[trigger] listing[i]).outpoint() == op {
            assert forall|i: int| 0 <= i < pairs.len() implies (#[trigger] pairs[i]).0 != op by {
                assert(listing[i].outpoint() != op);
            }
            lemma_absent_key(pairs, op);
        }
    }
}

/// Two listings in order that have one map are one listing: the order of
/// an index is given by what it holds.
pub proof fn lemma_sorted_listing_is_canonical(
    first: Seq<UnspentOutputView>,
    second: Seq<UnspentOutputView>,
)
    requires
        sorted_outpoints(first),
        sorted_outpoints(second),
        pairs_map(outpoint_pairs(first)) == pairs_map(outpoint_pairs(second)),
    ensures
        first == second,
    decreases first.len(),
{
    let map = pairs_map(outpoint_pairs(first));
    lemma_listing_is_the_map(first);
    lemma_listing_is_the_map(second);
    if first.len() == 0 {
        if second.len() > 0 {
            assert(map.contains_key(second[0].outpoint()));
            let i = choose|i: int|
                0 <= i < first.len() && (#[trigger] first[i]).outpoint() == second[0].outpoint();
        }
        assert(first =~= second);
    } else if second.len() == 0 {
        assert(map.contains_key(first[0].outpoint()));
        let i = choose|i: int|
            0 <= i < second.len() && (#[trigger] second[i]).outpoint() == first[0].outpoint();
    } else {
        let a = first.last();
        let b = second.last();
        assert(map.contains_key(a.outpoint()) && map.contains_key(b.outpoint()));
        let i = choose|i: int|
            0 <= i < first.len() && (#[trigger] first[i]).outpoint() == b.outpoint();
        let j = choose|j: int|
            0 <= j < second.len() && (#[trigger] second[j]).outpoint() == a.outpoint();
        lemma_outpoint_before_is_an_order(a.outpoint(), b.outpoint(), a.outpoint());
        lemma_outpoint_before_is_an_order(b.outpoint(), a.outpoint(), b.outpoint());
        if i < first.len() - 1 {
            assert(outpoint_before(first[i].outpoint(), a.outpoint()));
        }
        if j < second.len() - 1 {
            assert(outpoint_before(second[j].outpoint(), b.outpoint()));
        }
        assert(a.outpoint() == b.outpoint());
        assert(a.output == b.output);
        assert(a == b);
        let front = first.drop_last();
        let other = second.drop_last();
        lemma_front_of_sorted_listing(first);
        lemma_front_of_sorted_listing(second);
        lemma_sorted_listing_is_canonical(front, other);
        assert(first =~= front.push(a));
        assert(second =~= other.push(b));
    }
}

/// A listing in order without its last output is in order, and its map is
/// the map of the listing without what names this output.
pub proof fn lemma_front_of_sorted_listing(listing: Seq<UnspentOutputView>)
    requires
        sorted_outpoints(listing),
        listing.len() > 0,
    ensures
        sorted_outpoints(listing.drop_last()),
        pairs_map(outpoint_pairs(listing.drop_last())) == pairs_map(
            outpoint_pairs(listing),
        ).remove(listing.last().outpoint()),
{
    let front = listing.drop_last();
    let last = listing.last();
    assert forall|i: int, j: int| 0 <= i < j < front.len() implies outpoint_before(
        (#[trigger] front[i]).outpoint(),
        (#[trigger] front[j]).outpoint(),
    ) by {
        assert(outpoint_before(listing[i].outpoint(), listing[j].outpoint()));
    }
    let pairs = outpoint_pairs(listing);
    assert(pairs.drop_last() =~= outpoint_pairs(front));
    assert forall|i: int| 0 <= i < front.len() implies (#[trigger] outpoint_pairs(front)[i]).0
        != last.outpoint() by {
        assert(outpoint_before(listing[i].outpoint(), last.outpoint()));
        lemma_outpoint_before_is_an_order(listing[i].outpoint(), last.outpoint(), last.outpoint());
    }
    lemma_absent_key(outpoint_pairs(front), last.outpoint());
    assert(pairs_map(outpoint_pairs(front)) =~= pairs_map(pairs).remove(last.outpoint()));
}

/// The index of the unspent outputs: for each output that no input has
/// spent, what names it and what it holds.
#[derive(Debug)]
pub struct UTXOSet {
    utxos: Vec<UnspentOutput>,
}

impl View for UTXOSet {
    type V = Map<OutPoint, TXOutputView>;

    open spec fn view(&self) -> Map<OutPoint, TXOutputView> {
        pairs_map(outpoint_pairs(self.listing()))
    }
}

/// How what names the output of `entry` stands to what names the output
/// `index` of the transaction `txid`.
pub fn rank_outpoint(entry: &UnspentOutput, txid: &String, index: i32) -> (rank: Rank)
    ensures
        rank == Rank::Before <==> outpoint_before(entry@.outpoint(), (txid@, index as int)),
        rank == Rank::Same <==> entry@.outpoint() == (txid@, index as int),
        rank == Rank::After <==> outpoint_before((txid@, index as int), entry@.outpoint()),
{
    proof {
        lemma_text_before_is_an_order(entry@.txid, txid@, entry@.txid);
        lemma_text_before_is_an_order(txid@, entry@.txid, txid@);
    }
    match rank_text(entry.txid.as_str(), txid.as_str()) {
        Rank::Before => Rank::Before,
        Rank::After => Rank::After,
        Rank::Same => if entry.index < index {
            Rank::Before
        } else if entry.index > index {
            Rank::After
        } else {
            Rank::Same
        },
    }
}

impl UTXOSet {
    /// The unspent outputs in the order in which the index goes through
    /// them.
    pub closed spec fn listing(&self) -> Seq<UnspentOutputView> {
        unspent_view(self.utxos@)
    }

    /// Whether the index lists its outputs in order. An index is made so,
    /// and stays so.
    pub open spec fn is_sorted(&self) -> bool {
        sorted_outpoints(self.listing())
    }

    /// An index without outputs.
    pub fn new() -> (index: UTXOSet)
        ensures
            index@ == Map::<OutPoint, TXOutputView>::empty(),
            index.listing() == Seq::<UnspentOutputView>::empty(),
            index.is_sorted(),
    {
        let index = UTXOSet { utxos: Vec::new() };
        assert(index.listing() =~= Seq::<UnspentOutputView>::empty());
        assert(outpoint_pairs(index.listing()) =~= Seq::<(OutPoint, TXOutputView)>::empty());
        index
    }

    /// Where the last entry for an output stands.
    fn position(&self, txid: &String, index: i32) -> (found: Option<usize>)
        ensures
            match found {
                Some(i) => last_for_key(outpoint_pairs(self.listing()), i as int)
                    && self.listing()[i as int].outpoint() == (txid@, index as int),
                None => !self@.contains_key((txid@, index as int)) && forall|j: int|
                    0 <= j < self.listing().len() ==> (#[trigger] self.listing()[j]).outpoint() != (
                        txid@,
                        index as int,
                    ),
            },
    {
        let ghost pairs = outpoint_pairs(self.listing());
        let mut i: usize = self.utxos.len();
        while i > 0
            invariant
                i <= self.utxos.len(),
                pairs == outpoint_pairs(self.listing()),
                forall|j: int|
                    i <= j < pairs.len() ==> (#[trigger] pairs[j]).0 != (txid@, index as int),
            decreases i,
        {
            i -= 1;
            if self.utxos[i].index == index && self.utxos[i].txid == *txid {
                return Some(i);
            }
        }
        proof {
            lemma_absent_key(pairs, (txid@, index as int));
            assert forall|j: int| 0 <= j < self.listing().len() implies (
            #[trigger] self.listing()[j]).outpoint() != (txid@, index as int) by {
                assert(pairs[j].0 != (txid@, index as int));
            }
        }
        None
    }

    /// Whether the index holds the output `index` of the transaction
    /// `txid`.
    pub fn contains(&self, txid: &String, index: i32) -> (held: bool)
        ensures
            held == self@.contains_key((txid@, index as int)),
    {
        match self.position(txid, index) {
            Some(i) => {
                proof {
                    lemma_last_pair_counts(outpoint_pairs(self.listing()), i as int);
                }
                true
            },
            None => false,
        }
    }

    /// Sets what the index holds for the output `index` of the transaction
    /// `txid`.
    pub fn put(&mut self, txid: String, index: i32, output: TXOutput)
        ensures
            final(self)@ == old(self)@.insert((txid@, index as int), output@),
            old(self).is_sorted() ==> final(self).is_sorted(),
    {
        let ghost before = outpoint_pairs(self.listing());
        let ghost listed = self.listing();
        let ghost key = (txid@, index as int);
        match self.position(&txid, index) {
            Some(i) => {
                proof {
                    lemma_replace_last_pair(before, i as int, output@);
                }
                self.utxos.set(i, UnspentOutput { txid, index, output });
                assert(outpoint_pairs(self.listing()) =~= before.update(
                    i as int,
                    (before[i as int].0, output@),
                ));
                assert forall|a: int, b: int|
                    sorted_outpoints(listed) && 0 <= a < b < self.listing().len()
                    implies outpoint_before(
                    (#[trigger] self.listing()[a]).outpoint(),
                    (#[trigger] self.listing()[b]).outpoint(),
                ) by {
                    assert(outpoint_before(listed[a].outpoint(), listed[b].outpoint()));
                }
            },
            None => {
                let mut p: usize = 0;
                loop
                    invariant
                        p <= self.utxos.len(),
                        *self == *old(self),
                        listed == self.listing(),
                        key == (txid@, index as int),
                        forall|j: int|
                            0 <= j < p ==> outpoint_before((#[trigger] listed[j]).outpoint(), key),
                    ensures
                        p <= self.utxos.len(),
                        *self == *old(self),
                        p < listed.len() ==> !outpoint_before(listed[p as int].outpoint(), key),
                    decreases self.utxos.len() - p,
                {
                    if p >= self.utxos.len() {
                        break ;
                    }
                    match rank_outpoint(&self.utxos[p], &txid, index) {
                        Rank::Before => {
                            p += 1;
                        },
                        _ => {
                            break ;
                        },
                    }
                }
                proof {
                    lemma_insert_pair(before, p as int, (key, output@));
                }
                self.utxos.insert(p, UnspentOutput { txid, index, output });
                assert(outpoint_pairs(self.listing()) =~= before.insert(p as int, (key, output@)));
                assert forall|a: int, b: int|
                    sorted_outpoints(listed) && 0 <= a < b < self.listing().len()
                    implies outpoint_before(
                    (#[trigger] self.listing()[a]).outpoint(),
                    (#[trigger] self.listing()[b]).outpoint(),
                ) by {
                    let a0 = if a < p { a } else { a - 1 };
                    let b0 = if b < p { b } else { b - 1 };
                    if a != p && b != p {
                        assert(outpoint_before(listed[a0].outpoint(), listed[b0].outpoint()));
                    } else if b == p {
                        assert(outpoint_before(listed[a].outpoint(), key));
                    } else {
                        let at = listed[p as int].outpoint();
                        assert(at != key);
                        lemma_outpoint_before_is_an_order(at, key, at);
                        assert(outpoint_before(key, at));
                        if b0 > p {
                            assert(outpoint_before(at, listed[b0].outpoint()));
                            lemma_outpoint_before_is_an_order(key, at, listed[b0].outpoint());
                        }
                    }
                }
            },
        }
    }

    /// Takes the output `index` of the transaction `txid` out of the index.
    pub fn remove(&mut self, txid: &String, index: i32)
        ensures
            final(self)@ == old(self)@.remove((txid@, index as int)),
            old(self).is_sorted() ==> final(self).is_sorted(),
    {
        let ghost listed = self.listing();
        let ghost key = (txid@, index as int);
        let ghost initial = self@;
        let mut i: usize = self.utxos.len();
        while i > 0
            invariant
                i <= self.utxos.len(),
                key == (txid@, index as int),
                forall|j: int|
                    i <= j < self.listing().len() ==> (#[trigger] outpoint_pairs(
                        self.listing(),
                    )[j]).0 != key,
                same_but_at(self@, initial, key),
                sorted_outpoints(listed) ==> sorted_outpoints(self.listing()),
            decreases i,
        {
            i -= 1;
            if self.utxos[i].index == index && self.utxos[i].txid == *txid {
                let ghost pairs = outpoint_pairs(self.listing());
                let ghost held = self@;
                let ghost current = self.listing();
                self.utxos.remove(i);
                proof {
                    assert(self.listing() =~= current.remove(i as int));
                    assert forall|a: int, b: int|
                        sorted_outpoints(current) && 0 <= a < b < self.listing().len()
                        implies outpoint_before(
                        (#[trigger] self.listing()[a]).outpoint(),
                        (#[trigger] self.listing()[b]).outpoint(),
                    ) by {
                        let a0 = if a < i { a } else { a + 1 };
                        let b0 = if b < i { b } else { b + 1 };
                        assert(outpoint_before(current[a0].outpoint(), current[b0].outpoint()));
                    }
                    let rest = outpoint_pairs(self.listing());
                    assert(pairs[i as int].0 == key);
                    assert(rest =~= pairs.remove(i as int));
                    assert forall|j: int| i <= j < rest.len() implies (#[trigger] rest[j]).0
                        != key by {
                        assert(rest[j] == pairs[j + 1]);
                    }
                    lemma_remove_pair(pairs, i as int);
                    lemma_same_but_at_chain(self@, held, initial, key);
                }
            }
        }
        proof {
            lemma_absent_key(outpoint_pairs(self.listing()), key);
            assert(self@ =~= old(self)@.remove(key));
        }
    }

    /// Brings the index up to date with a block that was added to the
    /// chain: the outputs of its transactions come in, and what its
    /// transactions spend goes out.
    pub fn update(&mut self, block: &Block)
        ensures
            final(self)@ == apply_block(old(self)@, block@),
            old(self).is_sorted() ==> final(self).is_sorted(),
    {
        let ghost kept = self.is_sorted();
        let txs = block.get_transaction();
        let ghost view = transactions_view(txs@);
        let ghost initial = self@;
        let mut t: usize = 0;
        assert(initial.union_prefer_right(created_by(view.take(0))) =~= initial);
        while t < txs.len()
            invariant
                t <= txs.len(),
                view == transactions_view(txs@),
                self@ == initial.union_prefer_right(created_by(view.take(t as int))),
                kept ==> self.is_sorted(),
            decreases txs.len() - t,
        {
            let tx = &txs[t];
            let ghost base = self@;
            let mut i: usize = 0;
            assert(base.union_prefer_right(outputs_upto(tx@, 0)) =~= base);
            while i < tx.vout.len() && i <= 0x7fff_ffff
                invariant
                    i <= tx.vout.len(),
                    i <= 0x8000_0000,
                    self@ == base.union_prefer_right(outputs_upto(tx@, i as int)),
                    kept ==> self.is_sorted(),
                decreases tx.vout.len() - i,
            {
                self.put(tx.id.clone(), i as i32, tx.vout[i].clone());
                assert(self@ =~= base.union_prefer_right(outputs_upto(tx@, i + 1)));
                i += 1;
            }
            proof {
                assert(outputs_upto(tx@, i as int) =~= outputs_of(tx@));
                assert(view.take(t + 1).drop_last() =~= view.take(t as int));
                assert(view.take(t + 1).last() == tx@);
                assert(self@ =~= initial.union_prefer_right(created_by(view.take(t + 1))));
            }
            t += 1;
        }
        assert(view.take(txs.len() as int) =~= view);
        let ghost mid = self@;
        t = 0;
        assert(spent_by(view.take(0)) =~= Set::<OutPoint>::empty());
        assert(mid.remove_keys(Set::<OutPoint>::empty()) =~= mid);
        while t < txs.len()
            invariant
                t <= txs.len(),
                view == transactions_view(txs@),
                self@ == mid.remove_keys(spent_by(view.take(t as int))),
                kept ==> self.is_sorted(),
            decreases txs.len() - t,
        {
            let tx = &txs[t];
            let ghost done = spent_by(view.take(t as int));
            if !tx.is_coinbase() {
                let mut i: usize = 0;
                assert(done.union(inputs_upto(tx@, 0)) =~= done);
                while i < tx.vin.len()
                    invariant
                        i <= tx.vin.len(),
                        self@ == mid.remove_keys(done.union(inputs_upto(tx@, i as int))),
                        kept ==> self.is_sorted(),
                    decreases tx.vin.len() - i,
                {
                    self.remove(&tx.vin[i].txid, tx.vin[i].vout);
                    proof {
                        let op = (tx@.vin[i as int].txid, tx@.vin[i as int].vout as int);
                        assert(inputs_upto(tx@, i + 1) =~= inputs_upto(tx@, i as int).insert(op));
                        assert(self@ =~= mid.remove_keys(done.union(inputs_upto(tx@, i + 1))));
                    }
                    i += 1;
                }
            }
            proof {
                let longer = view.take(t + 1);
                assert(longer[t as int] == tx@);
                assert forall|op: OutPoint| spent_by(longer).contains(op) <==> done.union(
                    spent_by_tx(tx@),
                ).contains(op) by {
                    if spent_by(longer).contains(op) {
                        let u = choose|u: int|
                            0 <= u < longer.len() && spent_by_tx(#[trigger] longer[u]).contains(op);
                        if u < t {
                            assert(view.take(t as int)[u] == longer[u]);
                        }
                    }
                    if done.contains(op) {
                        let u = choose|u: int|
                            0 <= u < t && spent_by_tx(#[trigger] view.take(t as int)[u]).contains(
                                op,
                            );
                        assert(longer[u] == view.take(t as int)[u]);
                    }
                }
                assert(spent_by(longer) =~= done.union(spent_by_tx(tx@)));
            }
            t += 1;
        }
    }

    /// Makes the index anew from the chain of a ledger. Where the chain
    /// does not go back to a genesis block, the index is left as it was.
    pub fn reindex(&mut self, bc: &Blockchain) -> (done: Result<(), ChainError>)
        ensures
            match done {
                Ok(_) => ends_at_genesis(bc.chain()) && final(self)@ == unspent_outputs(
                    bc.chain().reverse(),
                ) && final(self).is_sorted(),
                Err(e) => e == ChainError::CorruptChain && !ends_at_genesis(bc.chain())
                    && *final(self) == *old(self),
            },
    {
        let blocks = match bc.blocks() {
            Ok(blocks) => blocks,
            Err(e) => { return Err(e); },
        };
        let mut fresh = UTXOSet::new();
        let n = blocks.len();
        let ghost history = blocks_view(blocks@).reverse();
        let mut k: usize = 0;
        assert(history.take(0) =~= Seq::<BlockView>::empty());
        while k < n
            invariant
                k <= n,
                n == blocks.len(),
                history == blocks_view(blocks@).reverse(),
                fresh@ == replay(history.take(k as int)),
                fresh.is_sorted(),
            decreases n - k,
        {
            fresh.update(&blocks[n - 1 - k]);
            proof {
                assert(history.take(k + 1).drop_last() =~= history.take(k as int));
                assert(history.take(k + 1).last() == blocks@[n - 1 - k]@);
            }
            k += 1;
        }
        proof {
            assert(history.take(n as int) =~= history);
            lemma_unspent_outputs_are_replayed(history);
        }
        *self = fresh;
        Ok(())
    }

    /// How many outputs the index lists.
    pub fn len(&self) -> (n: usize)
        ensures
            n == self.listing().len(),
    {
        self.utxos.len()
    }

    /// The output at the place `i` of the listing.
    pub fn get(&self, i: usize) -> (entry: &UnspentOutput)
        requires
            i < self.listing().len(),
        ensures
            entry@ == self.listing()[i as int],
    {
        &self.utxos[i]
    }

    /// How many transactions have an unspent output.
    pub fn count_transactions(&self) -> (n: usize)
        ensures
            n == transactions_upto(self.listing(), self.listing().len() as int),
    {
        let ghost listing = self.listing();
        let mut n: usize = 0;
        let mut i: usize = 0;
        while i < self.utxos.len()
            invariant
                i <= self.utxos.len(),
                listing == self.listing(),
                n <= i,
                n == transactions_upto(listing, i as int),
            decreases self.utxos.len() - i,
        {
            let mut first = true;
            let mut j: usize = 0;
            while j < i && first
                invariant
                    j <= i < self.utxos.len(),
                    listing == self.listing(),
                    first ==> forall|k: int|
                        0 <= k < j ==> (#[trigger] listing[k]).txid != listing[i as int].txid,
                    !first ==> !first_of_its_transaction(listing, i as int),
                decreases i - j + if first { 1int } else { 0int },
            {
                if self.utxos[j].txid == self.utxos[i].txid {
                    first = false;
                    assert(listing[j as int].txid == listing[i as int].txid);
                } else {
                    j += 1;
                }
            }
            if first {
                n += 1;
            }
            i += 1;
        }
        n
    }

    /// The outputs that are taken to pay `amount` for the owner named by
    /// `pub_key_hash`, and the sum of their values: the owner's outputs in
    /// the order of the listing, up to the first with which the sum comes
    /// to `amount`.
    pub fn find_spendable_outputs(&self, pub_key_hash: &[u8], amount: i32) -> (found: (
        i128,
        Vec<UnspentOutput>,
    ))
        ensures
            is_selection(
                owned_by(self.listing(), pub_key_hash@),
                amount as int,
                unspent_view(found.1@),
            ),
            found.0 == total_value(unspent_view(found.1@)),
    {
        let ghost listing = self.listing();
        let ghost owned = owned_by(listing, pub_key_hash@);
        let mut picked: Vec<UnspentOutput> = Vec::new();
        let mut accumulated: i128 = 0;
        let mut i: usize = 0;
        assert(listing.take(0) =~= Seq::<UnspentOutputView>::empty());
        assert(unspent_view(picked@) =~= Seq::<UnspentOutputView>::empty());
        while i < self.utxos.len() && accumulated < amount as i128
            invariant
                i <= self.utxos.len(),
                listing == self.listing(),
                owned == owned_by(listing, pub_key_hash@),
                unspent_view(picked@) == owned_by(listing.take(i as int), pub_key_hash@),
                picked@.len() <= i,
                accumulated == total_value(unspent_view(picked@)),
                forall|m: int|
                    0 <= m < picked@.len() ==> total_value(#[trigger] owned.take(m)) < amount,
            decreases self.utxos.len() - i,
        {
            let entry = &self.utxos[i];
            let ghost before = unspent_view(picked@);
            proof {
                assert(listing.take(i + 1).drop_last() =~= listing.take(i as int));
                assert(listing.take(i + 1).last() == entry@);
                lemma_owned_by_prefix(listing, pub_key_hash@, i as int);
                lemma_owned_by_prefix(listing, pub_key_hash@, i + 1);
                lemma_total_value_bounds(before);
            }
            if entry.output.can_be_unlock_with(pub_key_hash) {
                picked.push(
                    UnspentOutput {
                        txid: entry.txid.clone(),
                        index: entry.index,
                        output: entry.output.clone(),
                    },
                );
                proof {
                    let after = unspent_view(picked@);
                    assert(after =~= before.push(entry@));
                    assert(after.drop_last() =~= before);
                    assert(owned.take(before.len() as int) == before);
                }
                accumulated = accumulated + entry.output.value as i128;
            }
            i += 1;
        }
        proof {
            lemma_owned_by_prefix(listing, pub_key_hash@, i as int);
            if i == self.utxos.len() {
                assert(listing.take(i as int) =~= listing);
            }
        }
        (accumulated, picked)
    }

    /// The outputs that belong to the owner named by `pub_key_hash`, in the
    /// order of the listing.
    pub fn find_utxo(&self, pub_key_hash: &[u8]) -> (outputs: Vec<TXOutput>)
        ensures
            outputs_view(outputs@) == Seq::new(
                owned_by(self.listing(), pub_key_hash@).len(),
                |i: int| owned_by(self.listing(), pub_key_hash@)[i].output,
            ),
    {
        let ghost listing = self.listing();
        let mut outputs: Vec<TXOutput> = Vec::new();
        let mut i: usize = 0;
        assert(listing.take(0) =~= Seq::<UnspentOutputView>::empty());
        while i < self.utxos.len()
            invariant
                i <= self.utxos.len(),
                listing == self.listing(),
                outputs@.len() == owned_by(listing.take(i as int), pub_key_hash@).len(),
                forall|j: int|
                    0 <= j < outputs@.len() ==> (#[trigger] outputs@[j])@ == owned_by(
                        listing.take(i as int),
                        pub_key_hash@,
                    )[j].output,
            decreases self.utxos.len() - i,
        {
            let entry = &self.utxos[i];
            proof {
                assert(listing.take(i + 1).drop_last() =~= listing.take(i as int));
                assert(listing.take(i + 1).last() == entry@);
            }
            if entry.output.can_be_unlock_with(pub_key_hash) {
                outputs.push(entry.output.clone());
            }
            i += 1;
        }
        proof {
            assert(listing.take(i as int) =~= listing);
            assert(outputs_view(outputs@) =~= Seq::new(
                owned_by(listing, pub_key_hash@).len(),
                |i: int| owned_by(listing, pub_key_hash@)[i].output,
            ));
        }
        outputs
    }

    /// The sum of the values of the outputs that belong to the owner named
    /// by `pub_key_hash`.
    pub fn balance(&self, pub_key_hash: &[u8]) -> (sum: i128)
        ensures
            sum == total_value(owned_by(self.listing(), pub_key_hash@)),
    {
        let ghost listing = self.listing();
        let mut sum: i128 = 0;
        let mut i: usize = 0;
        assert(listing.take(0) =~= Seq::<UnspentOutputView>::empty());
        while i < self.utxos.len()
            invariant
                i <= self.utxos.len(),
                listing == self.listing(),
                sum == total_value(owned_by(listing.take(i as int), pub_key_hash@)),
                owned_by(listing.take(i as int), pub_key_hash@).len() <= i,
            decreases self.utxos.len() - i,
        {
            let entry = &self.utxos[i];
            proof {
                assert(listing.take(i + 1).drop_last() =~= listing.take(i as int));
                assert(listing.take(i + 1).last() == entry@);
                lemma_total_value_bounds(owned_by(listing.take(i as int), pub_key_hash@));
                let owned = owned_by(listing.take(i + 1), pub_key_hash@);
                if entry@.output.locked_to(pub_key_hash@) {
                    assert(owned.drop_last() =~= owned_by(listing.take(i as int), pub_key_hash@));
                }
            }
            if entry.output.can_be_unlock_with(pub_key_hash) {
                sum = sum + entry.output.value as i128;
            }
            i += 1;
        }
        proof {
            assert(listing.take(i as int) =~= listing);
        }
        sum
    }
}

} // verus!
