//! What a wallet holds, said of the transactions that it was given alone.

use crate::bdk::{genesis_of, Anchor};
use crate::filling::lemma_block_at;
use crate::plan::{
    anchor_in, block_of, confirmations, empty_chain, fill_empty, fillable, ids_found,
    lemma_blocks_by_height, lemma_ids_complete, lemma_ids_found, loose_ids, outputs_found,
    raws_found, txs_found, Parent, WalletPlan,
};
use crate::scan::Utxo;
use crate::tx::{
    holdable, is_null, names_null, opens_block, tx_decode, DecodeError, Transaction,
    TransactionView,
};
use crate::types::{BlockId, OutPoint, Txid};
use crate::wallet::{
    fit, inject_mempool_txs, injectable, is_among, none_coinbase, null_ids,
    sightings_of, spends_none_of, views_of, TickWallet, WalletError,
};
use bdk_wallet::bitcoin::Network;
use std::sync::Arc;
use vstd::prelude::*;

verus! {

// ---------------------------------------------------------------------------------------
// Transactions.
// ---------------------------------------------------------------------------------------

/// Whether an input points at no output: its id is all zeros, and its index the last of all.
pub open spec fn points_nowhere(outpoint: OutPoint) -> bool {
    outpoint.vout == 0xffff_ffff && forall|i: int| 0 <= i < 32 ==> outpoint.txid.bytes@[i] == 0
}

/// Whether a transaction is such as a node has in its mempool: it spends different outputs, each of
/// which there can be, and its outputs can be counted in thirty-two bits.
pub open spec fn ordinary(tx: TransactionView) -> bool {
    &&& forall|i: int, j: int|
        0 <= i < j < tx.inputs.len() ==> tx.inputs[i] != tx.inputs[j]
    &&& forall|i: int| 0 <= i < tx.inputs.len() ==> !points_nowhere(#[trigger] tx.inputs[i])
    &&& tx.outputs.len() <= 0xffff_ffff
}

/// Whether a transaction is the reward of a block: its one input points nowhere.
pub open spec fn reward(tx: TransactionView) -> bool {
    tx.inputs.len() == 1 && points_nowhere(tx.inputs[0])
}

/// A transaction is read from every encoding of one, and from nothing else. It is the one that the
/// encoding is of, and keeps the encoding.
pub proof fn encodings_are_read_as_they_are(
    raw: Vec<u8>,
    decoded: Result<Transaction, DecodeError>,
)
    requires
        call_ensures(Transaction::decode, (&raw,), decoded),
    ensures
        decoded is Ok <==> tx_decode(raw@) is Some,
        decoded matches Ok(tx) ==> tx@ == tx_decode(raw@)->0 && tx.bytes() == raw@,
{
}

/// A transaction is told for the reward of a block by its one input, which points nowhere.
pub proof fn rewards_are_told_by_their_input(tx: Transaction, told: bool)
    requires
        call_ensures(Transaction::is_coinbase, (&tx,), told),
    ensures
        told <==> tx@.inputs.len() == 1 && points_nowhere(tx@.inputs[0]),
{
}

/// A transaction is told for one that names the null output beside others exactly if it has other
/// than one input and one of them points nowhere.
pub proof fn null_inputs_are_told(tx: Transaction, told: bool)
    requires
        call_ensures(Transaction::has_null_input, (&tx,), told),
    ensures
        told <==> tx@.inputs.len() != 1 && exists|i: int|
            0 <= i < tx@.inputs.len() && points_nowhere(#[trigger] tx@.inputs[i]),
{
    if exists|i: int| 0 <= i < tx@.inputs.len() && points_nowhere(#[trigger] tx@.inputs[i]) {
        let i = choose|i: int|
            0 <= i < tx@.inputs.len() && points_nowhere(#[trigger] tx@.inputs[i]);
        assert(is_null(tx@.inputs[i]));
    }
    if told {
        let i = choose|i: int|
            0 <= i < tx@.inputs.len() && is_null(#[trigger] tx@.inputs[i]);
        assert(points_nowhere(tx@.inputs[i]));
    }
}

/// A wallet holds every transaction that spends different outputs and has no more outputs than
/// thirty-two bits count.
pub proof fn transactions_are_held_unless_they_repeat_or_overflow(
    tx: Transaction,
    repeated: bool,
    fits: bool,
)
    requires
        call_ensures(Transaction::repeats_input, (&tx,), repeated),
        call_ensures(Transaction::is_holdable, (&tx,), fits),
    ensures
        repeated <==> exists|i: int, j: int|
            #![trigger tx@.inputs[i], tx@.inputs[j]]
            0 <= i < j < tx@.inputs.len() && tx@.inputs[i] == tx@.inputs[j],
        fits <==> !repeated && tx@.outputs.len() <= 0xffff_ffff,
{
    if !tx@.inputs.no_duplicates() {
        let (i, j) = choose|i: int, j: int|
            0 <= i < tx@.inputs.len() && 0 <= j < tx@.inputs.len() && i != j && tx@.inputs[i]
                == tx@.inputs[j];
        if j < i {
            assert(tx@.inputs[j] == tx@.inputs[i]);
        }
    }
}

// ---------------------------------------------------------------------------------------
// The mempool.
// ---------------------------------------------------------------------------------------

/// A wallet refuses the mempool only if a transaction of it spends an output twice, has more
/// outputs than thirty-two bits count, points nowhere, or spends the reward of a block that the
/// wallet has without the block. It then stays as it is.
pub proof fn mempool_is_refused_for_cause(
    wallet: &mut TickWallet,
    txs: Vec<Arc<Transaction>>,
    now: u64,
    error: WalletError,
)
    requires
        old(wallet).wf(),
        call_ensures(inject_mempool_txs, (wallet, &txs, now), Err(error)),
    ensures
        error is Unfit,
        *final(wallet) == *old(wallet),
        exists|k: int| #![trigger txs@[k]]
            {
                &&& 0 <= k < txs@.len()
                &&& !ordinary(txs@[k]@) || exists|i: int|
                    0 <= i < txs@[k]@.inputs.len() && old(wallet).loose().contains(
                        (#[trigger] txs@[k]@.inputs[i]).txid,
                    )
            },
{
    let before = *old(wallet);
    if forall|k: int| #![trigger txs@[k]]
        0 <= k < txs@.len() ==> ordinary(txs@[k]@) && forall|i: int|
            0 <= i < txs@[k]@.inputs.len() ==> !before.loose().contains(
                (#[trigger] txs@[k]@.inputs[i]).txid,
            ) {
        lemma_ordinary_fit(before, txs@);
    }
}

/// Whether one of some transactions spends an output twice, has more outputs than thirty-two bits
/// count, or spends the reward of a block that stands without the block.
pub open spec fn one_is_refused(txs: Seq<TransactionView>, loose: Set<Txid>) -> bool {
    ||| exists|k: int, i: int, j: int|
        #![trigger txs[k].inputs[i], txs[k].inputs[j]]
        0 <= k < txs.len() && 0 <= i < j < txs[k].inputs.len() && txs[k].inputs[i]
            == txs[k].inputs[j]
    ||| exists|k: int| 0 <= k < txs.len() && (#[trigger] txs[k]).outputs.len() > 0xffff_ffff
    ||| exists|k: int, i: int|
        0 <= k < txs.len() && 0 <= i < txs[k].inputs.len() && loose.contains(
            (#[trigger] txs[k].inputs[i]).txid,
        )
}

/// Whether a transaction has an input that points nowhere beside others.
pub open spec fn points_nowhere_beside(tx: TransactionView) -> bool {
    tx.inputs.len() != 1 && exists|i: int|
        0 <= i < tx.inputs.len() && points_nowhere(#[trigger] tx.inputs[i])
}

/// Whether an id is one of some, or that of a transaction that points nowhere beside others.
pub open spec fn in_question(txs: Seq<TransactionView>, known: Set<Txid>, txid: Txid) -> bool {
    known.contains(txid) || exists|k: int|
        0 <= k < txs.len() && (#[trigger] txs[k]).txid == txid && points_nowhere_beside(txs[k])
}

/// Whether two different transactions point nowhere beside others.
pub open spec fn two_are_refused(txs: Seq<TransactionView>, known: Set<Txid>) -> bool {
    exists|a: Txid, b: Txid|
        a != b && #[trigger] in_question(txs, known, a) && #[trigger] in_question(txs, known, b)
}

/// A transaction names the null output beside others exactly if an input points nowhere.
proof fn lemma_beside(tx: TransactionView)
    ensures
        names_null(tx) == points_nowhere_beside(tx),
{
    if names_null(tx) {
        let i = choose|i: int| 0 <= i < tx.inputs.len() && is_null(#[trigger] tx.inputs[i]);
        assert(points_nowhere(tx.inputs[i]));
    }
    if points_nowhere_beside(tx) {
        let i = choose|i: int| 0 <= i < tx.inputs.len() && points_nowhere(#[trigger] tx.inputs[i]);
        assert(is_null(tx.inputs[i]));
    }
}

/// Transactions can be taken in exactly if neither one of them nor two together are refused.
proof fn lemma_fit_exactly(txs: Seq<TransactionView>, known: Set<Txid>, loose: Set<Txid>)
    ensures
        fit(txs, known.union(null_ids(txs)), loose) <==> !one_is_refused(txs, loose)
            && !two_are_refused(txs, known),
{
    let all = known.union(null_ids(txs));
    assert forall|txid: Txid| all.contains(txid) == #[trigger] in_question(txs, known, txid) by {
        if exists|k: int|
            0 <= k < txs.len() && (#[trigger] txs[k]).txid == txid && points_nowhere_beside(
                txs[k],
            ) {
            let k = choose|k: int|
                0 <= k < txs.len() && (#[trigger] txs[k]).txid == txid && points_nowhere_beside(
                    txs[k],
                );
            lemma_beside(txs[k]);
        }
        if null_ids(txs).contains(txid) {
            let k = choose|k: int|
                0 <= k < txs.len() && (#[trigger] txs[k]).txid == txid && names_null(txs[k]);
            lemma_beside(txs[k]);
        }
    }
    if two_are_refused(txs, known) {
        let (a, b) = choose|a: Txid, b: Txid|
            a != b && #[trigger] in_question(txs, known, a) && #[trigger] in_question(
                txs,
                known,
                b,
            );
        assert(all.contains(a) && all.contains(b));
    }
    if !two_are_refused(txs, known) {
        assert forall|a: Txid, b: Txid|
            #![trigger all.contains(a), all.contains(b)]
            all.contains(a) && all.contains(b) implies a == b by {
            assert(in_question(txs, known, a) && in_question(txs, known, b));
        }
    }
    if fit(txs, all, loose) {
        assert forall|k: int| 0 <= k < txs.len() implies {
            &&& (#[trigger] txs[k]).outputs.len() <= 0xffff_ffff
            &&& txs[k].inputs.no_duplicates()
            &&& spends_none_of(txs[k], loose)
        } by {
            assert(holdable(txs[k]));
        }
    }
    if !one_is_refused(txs, loose) {
        assert forall|k: int| 0 <= k < txs.len() implies holdable(#[trigger] txs[k])
            && spends_none_of(txs[k], loose) by {
            lemma_no_repeat(txs[k].inputs);
        }
    }
}

/// A wallet refuses the mempool exactly if one of its transactions spends an output twice, has more
/// outputs than thirty-two bits count, is the reward of a block or spends one that the wallet has
/// without the block, or if two different transactions, of the mempool or of the wallet, have an
/// input that points nowhere beside others.
pub proof fn mempool_is_refused_exactly_for_cause(
    wallet: &mut TickWallet,
    txs: Vec<Arc<Transaction>>,
    now: u64,
    taken: Result<(), WalletError>,
    views: Seq<TransactionView>,
)
    requires
        old(wallet).wf(),
        call_ensures(inject_mempool_txs, (wallet, &txs, now), taken),
        views.len() == txs@.len(),
        forall|k: int| 0 <= k < txs@.len() ==> #[trigger] views[k] == txs@[k]@,
    ensures
        taken is Err <==> one_is_refused(views, old(wallet).loose()) || two_are_refused(
            views,
            old(wallet).null_spenders(),
        ) || exists|k: int| 0 <= k < views.len() && reward(#[trigger] views[k]),
{
    let before = *old(wallet);
    assert(views =~= views_of(txs@));
    lemma_fit_exactly(views, before.null_spenders(), before.loose());
    assert(none_coinbase(txs@) <==> forall|k: int|
        0 <= k < views.len() ==> !reward(#[trigger] views[k])) by {
        if none_coinbase(txs@) {
            assert forall|k: int| 0 <= k < views.len() implies !reward(#[trigger] views[k]) by {
                assert(!txs@[k].coinbase());
            }
        }
        if forall|k: int| 0 <= k < views.len() ==> !reward(#[trigger] views[k]) {
            assert forall|k: int| 0 <= k < txs@.len() implies !(#[trigger] txs@[k]).coinbase() by {
                assert(!reward(views[k]));
            }
        }
    }
    if txs@.len() == 0 {
        lemma_nothing_refused(before, views);
    }
}

/// An empty mempool is refused by no wallet.
proof fn lemma_nothing_refused(wallet: TickWallet, views: Seq<TransactionView>)
    requires
        wallet.wf(),
        views.len() == 0,
    ensures
        !one_is_refused(views, wallet.loose()),
        !two_are_refused(views, wallet.null_spenders()),
{
}

/// Ordinary transactions that spend no reward without its block can be taken in.
pub proof fn lemma_ordinary_fit(wallet: TickWallet, txs: Seq<Arc<Transaction>>)
    requires
        wallet.wf(),
        forall|k: int| #![trigger txs[k]]
            0 <= k < txs.len() ==> ordinary(txs[k]@) && forall|i: int|
                0 <= i < txs[k]@.inputs.len() ==> !wallet.loose().contains(
                    (#[trigger] txs[k]@.inputs[i]).txid,
                ),
    ensures
        injectable(wallet, txs),
{
    let views = views_of(txs);
    assert forall|k: int| 0 <= k < txs.len() implies !(#[trigger] txs[k]).coinbase() by {
        if txs[k].coinbase() {
            assert(points_nowhere(txs[k]@.inputs[0]));
        }
    }
    assert forall|k: int| 0 <= k < views.len() implies holdable(#[trigger] views[k])
        && !names_null(views[k]) && spends_none_of(views[k], wallet.loose()) by {
        assert(ordinary(txs[k]@));
        lemma_no_repeat(views[k].inputs);
        if names_null(views[k]) {
            let i = choose|i: int|
                0 <= i < views[k].inputs.len() && is_null(#[trigger] views[k].inputs[i]);
            assert(points_nowhere(txs[k]@.inputs[i]));
        }
        assert forall|i: int| 0 <= i < views[k].inputs.len() implies !wallet.loose().contains(
            (#[trigger] views[k].inputs[i]).txid,
        ) by {
            assert(views[k].inputs[i] == txs[k]@.inputs[i]);
        }
    }
    assert(wallet.null_spenders().union(null_ids(views)) =~= wallet.null_spenders());
}

/// A list in which no two entries are the same has none twice.
proof fn lemma_no_repeat(inputs: Seq<OutPoint>)
    requires
        forall|i: int, j: int| 0 <= i < j < inputs.len() ==> inputs[i] != inputs[j],
    ensures
        inputs.no_duplicates(),
{
    assert forall|i: int, j: int|
        0 <= i < inputs.len() && 0 <= j < inputs.len() && i != j implies inputs[i]
        != inputs[j] by {
        if j < i {
            assert(inputs[j] != inputs[i]);
        }
    }
}

/// A mempool of ordinary transactions is taken in by every wallet that has no reward of a block
/// without the block. Each of its transactions is held and seen from then on, no earlier than now,
/// and nothing is confirmed by it. An empty one changes nothing.
pub proof fn ordinary_mempool_is_taken_in(
    wallet: &mut TickWallet,
    txs: Vec<Arc<Transaction>>,
    now: u64,
    taken: Result<(), WalletError>,
)
    requires
        old(wallet).wf(),
        call_ensures(inject_mempool_txs, (wallet, &txs, now), taken),
        forall|k: int| 0 <= k < txs@.len() ==> ordinary((#[trigger] txs@[k])@),
        old(wallet).loose() == Set::<Txid>::empty(),
    ensures
        taken is Ok,
        txs@.len() == 0 ==> *final(wallet) == *old(wallet),
        final(wallet).chain() == old(wallet).chain(),
        final(wallet).anchors() == old(wallet).anchors(),
        final(wallet).descriptors() == old(wallet).descriptors(),
        final(wallet).network() == old(wallet).network(),
        forall|k: int|
            0 <= k < txs@.len() ==> final(wallet).txs().contains_key((#[trigger] txs@[k])@.txid)
                && final(wallet).last_seen().contains_key(txs@[k]@.txid) && now
                <= final(wallet).last_seen()[txs@[k]@.txid],
        forall|txid: Txid| #[trigger]
            old(wallet).txs().contains_key(txid) ==> final(wallet).txs().contains_key(txid)
                && final(wallet).txs()[txid] == old(wallet).txs()[txid],
        forall|txid: Txid| #[trigger]
            final(wallet).txs().contains_key(txid) ==> old(wallet).txs().contains_key(txid)
                || exists|k: int|
                0 <= k < txs@.len() && (#[trigger] txs@[k])@.txid == txid && txs@[k]@
                    == final(wallet).txs()[txid],
        forall|txid: Txid| #[trigger]
            final(wallet).last_seen().contains_key(txid) ==> (old(wallet).last_seen().contains_key(
                txid,
            ) && old(wallet).last_seen()[txid] == final(wallet).last_seen()[txid]) || (
            final(wallet).last_seen()[txid] == now && exists|k: int|
                0 <= k < txs@.len() && (#[trigger] txs@[k])@.txid == txid),
{
    let before = *old(wallet);
    let after = *final(wallet);
    lemma_ordinary_fit(before, txs@);
    if txs@.len() != 0 {
        let views = views_of(txs@);
        assert forall|k: int| 0 <= k < txs@.len() implies after.txs().contains_key(
            (#[trigger] txs@[k])@.txid,
        ) && after.last_seen().contains_key(txs@[k]@.txid) && now
            <= after.last_seen()[txs@[k]@.txid] by {
            assert(views[k].txid == txs@[k]@.txid);
            assert(is_among(txs@, txs@[k]@.txid));
            assert(sightings_of(txs@, now).contains((txs@[k]@.txid, now)));
        }
        assert forall|txid: Txid| #[trigger] after.txs().contains_key(txid) implies
            before.txs().contains_key(txid) || exists|k: int|
            0 <= k < txs@.len() && (#[trigger] txs@[k])@.txid == txid && txs@[k]@
                == after.txs()[txid] by {
            if !before.txs().contains_key(txid) {
                let k = choose|k: int|
                    0 <= k < views.len() && (#[trigger] views[k]).txid == txid && after.txs()[txid]
                        == views[k];
                assert(txs@[k]@ == views[k]);
            }
        }
    }
}

/// A wallet takes in no mempool with a transaction that spends an output twice, has more outputs
/// than thirty-two bits count, or is the reward of a block.
pub proof fn what_is_taken_in_can_be_held(
    wallet: &mut TickWallet,
    txs: Vec<Arc<Transaction>>,
    now: u64,
    k: int,
)
    requires
        call_ensures(inject_mempool_txs, (wallet, &txs, now), Ok(())),
        0 <= k < txs@.len(),
    ensures
        forall|i: int, j: int|
            0 <= i < j < txs@[k]@.inputs.len() ==> txs@[k]@.inputs[i] != txs@[k]@.inputs[j],
        txs@[k]@.outputs.len() <= 0xffff_ffff,
        !reward(txs@[k]@),
{
    assert(views_of(txs@)[k] == txs@[k]@);
    assert(!txs@[k].coinbase());
    assert(holdable(views_of(txs@)[k]));
}

// ---------------------------------------------------------------------------------------
// What the scan found.
// ---------------------------------------------------------------------------------------

/// Whether a transaction is such as a block can hold: it spends different outputs, its outputs can
/// be counted in thirty-two bits, and no input points nowhere unless it is the only one.
pub open spec fn confirmable(tx: TransactionView) -> bool {
    &&& forall|i: int, j: int|
        0 <= i < j < tx.inputs.len() ==> tx.inputs[i] != tx.inputs[j]
    &&& tx.inputs.len() != 1 ==> forall|i: int|
        0 <= i < tx.inputs.len() ==> !points_nowhere(#[trigger] tx.inputs[i])
    &&& tx.outputs.len() <= 0xffff_ffff
}

/// A plan that nothing is missing of has a transaction under an id exactly if that was found.
proof fn lemma_ids(plan: WalletPlan, txid: Txid)
    requires
        plan.wf(),
    ensures
        ids_found(plan.snapshot.utxos@, plan.parents@).contains(txid)
            <==> plan.parents@.contains_key(txid),
{
    let utxos = plan.snapshot.utxos@;
    if ids_found(utxos, plan.parents@).contains(txid) {
        lemma_ids_found(utxos, plan.parents@, txid);
    }
    if plan.parents@.contains_key(txid) {
        let i = choose|i: int|
            0 <= i < plan.next && (#[trigger] utxos[i]).txid == txid && plan.parents@[txid].block
                == block_of(utxos[i], plan@.chain());
        lemma_ids_complete(utxos, plan.parents@, i);
    }
}

/// A filled wallet has the blocks that were asked for as its chain, and nothing else. It takes
/// each transaction that was found for confirmed, in the block in which it was sought and in no
/// other. It has seen nothing in the mempool.
pub proof fn filled_wallet_confirms_what_was_found(plan: WalletPlan, wallet: TickWallet)
    requires
        plan.wf(),
        plan.blocks@.len() == plan.heights@.len(),
        plan.next == plan.snapshot.utxos@.len(),
        call_ensures(WalletPlan::finish, (plan,), Ok(wallet)),
    ensures
        forall|k: int|
            0 <= k < plan.blocks@.len() ==> wallet.chain().contains_key(
                (#[trigger] plan.blocks@[k]).height,
            ) && wallet.chain()[plan.blocks@[k].height] == plan.blocks@[k].hash,
        forall|height: u32| #[trigger]
            wallet.chain().contains_key(height) ==> exists|k: int|
                0 <= k < plan.blocks@.len() && (#[trigger] plan.blocks@[k]).height == height,
        forall|anchor: Anchor, txid: Txid| #[trigger]
            wallet.anchors().contains((anchor, txid)) <==> plan.parents@.contains_key(txid)
                && anchor.block == plan.parents@[txid].block && anchor.time == 0,
        forall|anchor: Anchor, txid: Txid| #[trigger]
            wallet.anchors().contains((anchor, txid)) ==> plan.blocks@.contains(anchor.block)
                && exists|i: int|
                0 <= i < plan.snapshot.utxos@.len() && (
                #[trigger] plan.snapshot.utxos@[i]).txid == txid && anchor.block.height
                    == plan.snapshot.utxos@[i].height % 0x1_0000_0000,
        wallet.last_seen() == Map::<Txid, u64>::empty(),
        wallet.descriptors() == plan.wallet.descriptors(),
        wallet.network() == plan.wallet.network(),
        wallet.scripts() == plan.wallet.scripts(),
{
    let utxos = plan.snapshot.utxos@;
    let ids = ids_found(utxos, plan.parents@);
    plan.lemma_blocks();
    lemma_blocks_by_height(plan.blocks@);
    assert forall|anchor: Anchor, txid: Txid| #[trigger]
        wallet.anchors().contains((anchor, txid)) <==> plan.parents@.contains_key(txid)
            && anchor.block == plan.parents@[txid].block && anchor.time == 0 by {
        lemma_ids(plan, txid);
        assert(confirmations(ids, plan.parents@).contains((anchor, txid)) <==> ids.contains(txid)
            && anchor == anchor_in(plan.parents@[txid].block));
    }
    assert forall|anchor: Anchor, txid: Txid| #[trigger]
        wallet.anchors().contains((anchor, txid)) implies plan.blocks@.contains(anchor.block)
        && exists|i: int|
        0 <= i < utxos.len() && (#[trigger] utxos[i]).txid == txid && anchor.block.height
            == utxos[i].height % 0x1_0000_0000 by {
        let i = choose|i: int|
            0 <= i < plan.next && (#[trigger] utxos[i]).txid == txid && plan.parents@[txid].block
                == block_of(utxos[i], plan@.chain());
        lemma_block_at(plan, i);
        let k = choose|k: int|
            0 <= k < plan.blocks@.len() && (#[trigger] plan.blocks@[k]) == block_of(
                utxos[i],
                plan@.chain(),
            ) && plan.blocks@[k].height == utxos[i].height % 0x1_0000_0000;
        assert(plan.blocks@[k] == anchor.block);
    }
}

/// A filled wallet holds the transactions that were found and no others, each under its own id. An
/// output that the scan found stands without its transaction exactly if another was found in place
/// of that. A reward of a block is without the block exactly if it was found in place of another
/// transaction. What BDK is told is all of this and no more, up to the thousandth address.
pub proof fn filled_wallet_holds_what_was_found(plan: WalletPlan, wallet: TickWallet)
    requires
        plan.wf(),
        plan.blocks@.len() == plan.heights@.len(),
        plan.next == plan.snapshot.utxos@.len(),
        call_ensures(WalletPlan::finish, (plan,), Ok(wallet)),
    ensures
        forall|p: Txid| #[trigger]
            plan.parents@.contains_key(p) ==> wallet.txs().contains_key(plan.parents@[p].tx@.txid),
        forall|txid: Txid| #[trigger]
            wallet.txs().contains_key(txid) ==> exists|p: Txid| #[trigger]
                plan.parents@.contains_key(p) && plan.parents@[p].tx@.txid == txid
                    && plan.parents@[p].tx@ == wallet.txs()[txid],
        forall|outpoint: OutPoint| #[trigger]
            wallet.floating().contains_key(outpoint) <==> !wallet.txs().contains_key(outpoint.txid)
                && plan.parents@.contains_key(outpoint.txid) && exists|i: int|
                0 <= i < plan.snapshot.utxos@.len() && (#[trigger] plan.snapshot.utxos@[i]).txid
                    == outpoint.txid && plan.snapshot.utxos@[i].vout == outpoint.vout,
        forall|txid: Txid| #[trigger]
            wallet.loose().contains(txid) <==> !plan.parents@.contains_key(txid) && exists|p: Txid|
             #[trigger]
                plan.parents@.contains_key(p) && plan.parents@[p].tx@.txid == txid && reward(
                    plan.parents@[p].tx@,
                ),
        wallet.updates().len() == plan.wallet.updates().len() + 1,
        ({
            let update = wallet.updates().last();
            &&& update.last_active == 999
            &&& update.seen_ats == Set::<(Txid, u64)>::empty()
            &&& update.anchors == wallet.anchors()
            &&& update.blocks == Some(wallet.chain())
            &&& update.raws.len() == plan.parents@.dom().len()
            &&& forall|p: Txid| #[trigger]
                plan.parents@.contains_key(p) ==> update.raws.contains(plan.parents@[p].tx.bytes())
            &&& forall|i: int, j: int|
                #![trigger plan.snapshot.utxos@[i], plan.snapshot.utxos@[j]]
                0 <= i < j < plan.snapshot.utxos@.len() && is_first(plan, i) && is_first(plan, j)
                    ==> exists|a: int, b: int|
                    #![trigger update.raws[a], update.raws[b]]
                    0 <= a < b < update.raws.len() && update.raws[a]
                        == plan.parents@[plan.snapshot.utxos@[i].txid].tx.bytes() && update.raws[b]
                        == plan.parents@[plan.snapshot.utxos@[j].txid].tx.bytes()
            &&& forall|i: int|
                #![trigger plan.snapshot.utxos@[i]]
                0 <= i < plan.snapshot.utxos@.len() && plan.parents@.contains_key(
                    plan.snapshot.utxos@[i].txid,
                ) && (forall|j: int|
                    i < j < plan.snapshot.utxos@.len() ==> (#[trigger] plan.snapshot.utxos@[j]).txid
                        != plan.snapshot.utxos@[i].txid || plan.snapshot.utxos@[j].vout
                        != plan.snapshot.utxos@[i].vout) ==> {
                    let outpoint = OutPoint {
                        txid: plan.snapshot.utxos@[i].txid,
                        vout: plan.snapshot.utxos@[i].vout,
                    };
                    &&& update.txouts.contains_key(outpoint)
                    &&& update.txouts[outpoint].value == plan.snapshot.utxos@[i].amount
                    &&& update.txouts[outpoint].script_pubkey
                        == plan.snapshot.utxos@[i].script_pubkey@
                }
        }),
{
    let utxos = plan.snapshot.utxos@;
    let parents = plan.parents@;
    let ids = ids_found(utxos, parents);
    let txs = txs_found(ids, parents);
    assert forall|p: Txid| #[trigger] parents.contains_key(p) implies wallet.txs().contains_key(
        parents[p].tx@.txid,
    ) && wallet.updates().last().raws.contains(parents[p].tx.bytes()) by {
        lemma_ids(plan, p);
        let k = choose|k: int| 0 <= k < ids.len() && ids[k] == p;
        assert(txs[k] == parents[p].tx@);
        assert(raws_found(ids, parents)[k] == parents[p].tx.bytes());
    }
    assert forall|txid: Txid| #[trigger] wallet.txs().contains_key(txid) implies exists|p: Txid|
     #[trigger]
        parents.contains_key(p) && parents[p].tx@.txid == txid && parents[p].tx@
            == wallet.txs()[txid] by {
        let k = choose|k: int|
            0 <= k < txs.len() && (#[trigger] txs[k]).txid == txid && wallet.txs()[txid] == txs[k];
        lemma_ids_found(utxos, parents, ids[k]);
        assert(parents.contains_key(ids[k]));
    }
    assert forall|outpoint: OutPoint| #[trigger]
        wallet.floating().contains_key(outpoint) <==> !wallet.txs().contains_key(outpoint.txid)
            && parents.contains_key(outpoint.txid) && exists|i: int|
            0 <= i < utxos.len() && (#[trigger] utxos[i]).txid == outpoint.txid && utxos[i].vout
                == outpoint.vout by {
        lemma_outputs(utxos, parents, outpoint);
    }
    assert forall|txid: Txid| #[trigger]
        wallet.loose().contains(txid) <==> !parents.contains_key(txid) && exists|p: Txid| #[trigger]
            parents.contains_key(p) && parents[p].tx@.txid == txid && reward(parents[p].tx@) by {
        lemma_loose(plan, txid);
    }
    assert(ids.to_set() =~= parents.dom()) by {
        assert forall|txid: Txid| ids.to_set().contains(txid) == parents.dom().contains(txid) by {
            lemma_ids(plan, txid);
        }
    }
    lemma_ids_once(utxos, parents);
    ids.unique_seq_to_set();
    assert forall|i: int, j: int|
        #![trigger utxos[i], utxos[j]]
        0 <= i < j < utxos.len() && is_first(plan, i) && is_first(plan, j) implies exists|
        a: int,
        b: int,
    |
        #![trigger wallet.updates().last().raws[a], wallet.updates().last().raws[b]]
        0 <= a < b < wallet.updates().last().raws.len() && wallet.updates().last().raws[a]
            == parents[utxos[i].txid].tx.bytes() && wallet.updates().last().raws[b]
            == parents[utxos[j].txid].tx.bytes() by {
        lemma_ids_in_order(utxos, parents, i, j);
        let (a, b) = choose|a: int, b: int|
            #![trigger ids[a], ids[b]]
            0 <= a < b < ids.len() && ids[a] == utxos[i].txid && ids[b] == utxos[j].txid;
        assert(raws_found(ids, parents)[a] == parents[utxos[i].txid].tx.bytes());
        assert(raws_found(ids, parents)[b] == parents[utxos[j].txid].tx.bytes());
    }
    assert forall|i: int|
        #![trigger utxos[i]]
        0 <= i < utxos.len() && parents.contains_key(utxos[i].txid) && (forall|j: int|
            i < j < utxos.len() ==> (#[trigger] utxos[j]).txid != utxos[i].txid || utxos[j].vout
                != utxos[i].vout) implies {
        let outpoint = OutPoint { txid: utxos[i].txid, vout: utxos[i].vout };
        let txouts = wallet.updates().last().txouts;
        &&& txouts.contains_key(outpoint)
        &&& txouts[outpoint].value == utxos[i].amount
        &&& txouts[outpoint].script_pubkey == utxos[i].script_pubkey@
    } by {
        lemma_output_at(utxos, parents, i);
    }
}

/// Whether an output is the first of its transaction, and the transaction was found.
pub open spec fn is_first(plan: WalletPlan, i: int) -> bool {
    &&& 0 <= i < plan.snapshot.utxos@.len()
    &&& plan.parents@.contains_key(plan.snapshot.utxos@[i].txid)
    &&& forall|h: int|
        0 <= h < i ==> (#[trigger] plan.snapshot.utxos@[h]).txid != plan.snapshot.utxos@[i].txid
}

/// The ids that were found for the first outputs come first.
proof fn lemma_ids_prefix(utxos: Seq<Utxo>, parents: Map<Txid, Parent>, n: int)
    requires
        0 <= n <= utxos.len(),
    ensures
        ({
            let first = ids_found(utxos.take(n), parents);
            let ids = ids_found(utxos, parents);
            first.len() <= ids.len() && forall|k: int|
                0 <= k < first.len() ==> #[trigger] ids[k] == first[k]
        }),
    decreases utxos.len() - n,
{
    if n < utxos.len() {
        lemma_ids_prefix(utxos, parents, n + 1);
        assert(utxos.take(n + 1).drop_last() =~= utxos.take(n));
        let first = ids_found(utxos.take(n), parents);
        let more = ids_found(utxos.take(n + 1), parents);
        assert forall|k: int| 0 <= k < first.len() implies #[trigger] ids_found(
            utxos,
            parents,
        )[k] == first[k] by {
            assert(more[k] == first[k]);
        }
    } else {
        assert(utxos.take(n) =~= utxos);
    }
}

/// An id that no output has was found for none.
proof fn lemma_ids_of_outputs(utxos: Seq<Utxo>, parents: Map<Txid, Parent>, txid: Txid)
    requires
        forall|h: int| 0 <= h < utxos.len() ==> (#[trigger] utxos[h]).txid != txid,
    ensures
        !ids_found(utxos, parents).contains(txid),
    decreases utxos.len(),
{
    if utxos.len() != 0 {
        let rest = utxos.drop_last();
        assert forall|h: int| 0 <= h < rest.len() implies (#[trigger] rest[h]).txid != txid by {
            assert(rest[h] == utxos[h]);
        }
        lemma_ids_of_outputs(rest, parents, txid);
        let before = ids_found(rest, parents);
        let ids = ids_found(utxos, parents);
        assert(utxos[utxos.len() - 1].txid != txid);
        if ids.contains(txid) {
            let k = choose|k: int| 0 <= k < ids.len() && ids[k] == txid;
            if k < before.len() {
                assert(before[k] == txid);
            }
        }
    }
}

/// Ids stand in the order of their first outputs.
proof fn lemma_ids_in_order(utxos: Seq<Utxo>, parents: Map<Txid, Parent>, i: int, j: int)
    requires
        0 <= i < j < utxos.len(),
        parents.contains_key(utxos[i].txid),
        parents.contains_key(utxos[j].txid),
        forall|h: int| 0 <= h < j ==> (#[trigger] utxos[h]).txid != utxos[j].txid,
    ensures
        exists|a: int, b: int|
            #![trigger ids_found(utxos, parents)[a], ids_found(utxos, parents)[b]]
            0 <= a < b < ids_found(utxos, parents).len() && ids_found(utxos, parents)[a]
                == utxos[i].txid && ids_found(utxos, parents)[b] == utxos[j].txid,
{
    let ids = ids_found(utxos, parents);
    let first = ids_found(utxos.take(j), parents);
    lemma_ids_prefix(utxos, parents, j);
    assert(utxos.take(j)[i] == utxos[i]);
    lemma_ids_complete(utxos.take(j), parents, i);
    let a = choose|a: int| 0 <= a < first.len() && first[a] == utxos[i].txid;
    assert(ids[a] == utxos[i].txid);
    assert forall|h: int| 0 <= h < utxos.take(j).len() implies (
    #[trigger] utxos.take(j)[h]).txid != utxos[j].txid by {
        assert(utxos.take(j)[h] == utxos[h]);
    }
    lemma_ids_of_outputs(utxos.take(j), parents, utxos[j].txid);
    lemma_ids_complete(utxos, parents, j);
    let b = choose|b: int| 0 <= b < ids.len() && ids[b] == utxos[j].txid;
    if b < first.len() {
        assert(first[b] == utxos[j].txid);
        assert(first.contains(utxos[j].txid));
    }
    assert(a < b);
}

/// An output was found exactly if it is one of the scan and its transaction was found.
proof fn lemma_outputs(utxos: Seq<Utxo>, parents: Map<Txid, Parent>, outpoint: OutPoint)
    ensures
        outputs_found(utxos, parents).contains_key(outpoint) <==> parents.contains_key(
            outpoint.txid,
        ) && exists|i: int|
            0 <= i < utxos.len() && (#[trigger] utxos[i]).txid == outpoint.txid && utxos[i].vout
                == outpoint.vout,
    decreases utxos.len(),
{
    if utxos.len() != 0 {
        let rest = utxos.drop_last();
        lemma_outputs(rest, parents, outpoint);
        let last = utxos[utxos.len() - 1];
        if exists|i: int|
            0 <= i < rest.len() && (#[trigger] rest[i]).txid == outpoint.txid && rest[i].vout
                == outpoint.vout {
            let i = choose|i: int|
                0 <= i < rest.len() && (#[trigger] rest[i]).txid == outpoint.txid && rest[i].vout
                    == outpoint.vout;
            assert(utxos[i] == rest[i]);
        }
        if exists|i: int|
            0 <= i < utxos.len() && (#[trigger] utxos[i]).txid == outpoint.txid && utxos[i].vout
                == outpoint.vout {
            let i = choose|i: int|
                0 <= i < utxos.len() && (#[trigger] utxos[i]).txid == outpoint.txid && utxos[i].vout
                    == outpoint.vout;
            if i < rest.len() {
                assert(rest[i] == utxos[i]);
            }
        }
        assert(outpoint == OutPoint { txid: outpoint.txid, vout: outpoint.vout });
    }
}

/// An output that was found has the value and the script of its last mention.
proof fn lemma_output_at(utxos: Seq<Utxo>, parents: Map<Txid, Parent>, i: int)
    requires
        0 <= i < utxos.len(),
        parents.contains_key(utxos[i].txid),
        forall|j: int|
            i < j < utxos.len() ==> (#[trigger] utxos[j]).txid != utxos[i].txid || utxos[j].vout
                != utxos[i].vout,
    ensures
        ({
            let outpoint = OutPoint { txid: utxos[i].txid, vout: utxos[i].vout };
            let txouts = outputs_found(utxos, parents);
            &&& txouts.contains_key(outpoint)
            &&& txouts[outpoint].value == utxos[i].amount
            &&& txouts[outpoint].script_pubkey == utxos[i].script_pubkey@
        }),
    decreases utxos.len(),
{
    if i < utxos.len() - 1 {
        let rest = utxos.drop_last();
        assert(rest[i] == utxos[i]);
        assert forall|j: int| i < j < rest.len() implies (#[trigger] rest[j]).txid != rest[i].txid
            || rest[j].vout != rest[i].vout by {
            assert(rest[j] == utxos[j]);
        }
        lemma_output_at(rest, parents, i);
        assert(utxos[utxos.len() - 1].txid != utxos[i].txid || utxos[utxos.len() - 1].vout
            != utxos[i].vout);
    }
}

/// No id was found twice.
proof fn lemma_ids_once(utxos: Seq<Utxo>, parents: Map<Txid, Parent>)
    ensures
        ids_found(utxos, parents).no_duplicates(),
    decreases utxos.len(),
{
    if utxos.len() != 0 {
        lemma_ids_once(utxos.drop_last(), parents);
    }
}

/// Why there is no wallet once nothing is missing: no transaction was found at all, a block stands
/// at half a billion or above, a transaction was found that no block can hold or in place of
/// another, or the first block is not that of the network. In every other case there is one.
pub proof fn wallet_is_refused_for_cause(plan: WalletPlan, made: Result<TickWallet, WalletError>)
    requires
        plan.wf(),
        plan.blocks@.len() == plan.heights@.len(),
        plan.next == plan.snapshot.utxos@.len(),
        call_ensures(WalletPlan::finish, (plan,), made),
    ensures
        made matches Err(WalletError::NoParents) <==> plan.parents@ == Map::<Txid, Parent>::empty(),
        made matches Err(WalletError::Height) <==> plan.parents@ != Map::<Txid, Parent>::empty()
            && exists|k: int|
            0 <= k < plan.blocks@.len() && (#[trigger] plan.blocks@[k]).height >= 500_000_000,
        made matches Err(WalletError::Unfit) ==> exists|p: Txid| #[trigger]
            plan.parents@.contains_key(p) && (!confirmable(plan.parents@[p].tx@)
                || plan.parents@[p].tx@.txid != p),
        made matches Err(WalletError::CannotConnect(_)) ==> plan.blocks@[0].hash
            != plan.wallet.chain()[0u32],
        made is Ok ==> plan.blocks@[0].hash == plan.wallet.chain()[0u32],
        made matches Err(error) ==> error is NoParents || error is Height || error is Unfit
            || error is CannotConnect,
{
    let utxos = plan.snapshot.utxos@;
    let parents = plan.parents@;
    plan.lemma_blocks();
    lemma_blocks_by_height(plan.blocks@);
    lemma_starts(plan);
    if made matches Err(WalletError::Height) {
        let height = choose|height: u32| plan@.chain().contains_key(height) && !(height
            < 500_000_000);
        assert(plan@.chain().contains_key(height));
        let k = choose|k: int| 0 <= k < plan.blocks@.len() && (#[trigger] plan.blocks@[k]).height
            == height;
        assert(plan.blocks@[k].height >= 500_000_000);
    }
    if forall|p: Txid| #[trigger]
        parents.contains_key(p) ==> confirmable(parents[p].tx@) && parents[p].tx@.txid == p {
        lemma_confirmable_fit(utxos, parents);
    }
}

/// With transactions to fill it with, and with its blocks below half a billion, a wallet is refused
/// for them exactly if one of them is refused, or two are together.
pub proof fn found_transactions_are_refused_exactly_for_cause(
    plan: WalletPlan,
    made: Result<TickWallet, WalletError>,
    views: Seq<TransactionView>,
    loose: Set<Txid>,
)
    requires
        plan.wf(),
        plan.blocks@.len() == plan.heights@.len(),
        plan.next == plan.snapshot.utxos@.len(),
        call_ensures(WalletPlan::finish, (plan,), made),
        plan.parents@ != Map::<Txid, Parent>::empty(),
        forall|k: int| 0 <= k < plan.blocks@.len() ==> (#[trigger] plan.blocks@[k]).height
            < 500_000_000,
        forall|p: Txid| #[trigger]
            plan.parents@.contains_key(p) ==> views.contains(plan.parents@[p].tx@),
        forall|k: int|
            0 <= k < views.len() ==> exists|p: Txid| #[trigger]
                plan.parents@.contains_key(p) && plan.parents@[p].tx@ == (#[trigger] views[k]),
        forall|txid: Txid| #[trigger]
            loose.contains(txid) <==> !plan.parents@.contains_key(txid) && exists|p: Txid|
             #[trigger]
                plan.parents@.contains_key(p) && plan.parents@[p].tx@.txid == txid && reward(
                    plan.parents@[p].tx@,
                ),
    ensures
        made matches Err(WalletError::Unfit) <==> one_is_refused(views, loose) || two_are_refused(
            views,
            Set::empty(),
        ),
{
    let utxos = plan.snapshot.utxos@;
    let parents = plan.parents@;
    let ids = ids_found(utxos, parents);
    let txs = txs_found(ids, parents);
    plan.lemma_blocks();
    lemma_blocks_by_height(plan.blocks@);
    lemma_fit_exactly(txs, Set::empty(), loose_ids(ids, txs));
    assert(Set::<Txid>::empty().union(null_ids(txs)) =~= null_ids(txs));
    assert(loose_ids(ids, txs) =~= loose) by {
        assert forall|txid: Txid| loose_ids(ids, txs).contains(txid) == loose.contains(txid) by {
            lemma_loose(plan, txid);
        }
    }
    assert forall|k: int| 0 <= k < txs.len() implies views.contains(#[trigger] txs[k]) by {
        lemma_ids_found(utxos, parents, ids[k]);
        assert(parents.contains_key(ids[k]));
    }
    assert forall|k: int| 0 <= k < views.len() implies txs.contains(#[trigger] views[k]) by {
        let p = choose|p: Txid| #[trigger]
            parents.contains_key(p) && parents[p].tx@ == views[k];
        lemma_ids(plan, p);
        let n = choose|n: int| 0 <= n < ids.len() && ids[n] == p;
        assert(txs[n] == views[k]);
    }
    lemma_refused_alike(txs, views, loose);
    lemma_refused_alike(views, txs, loose);
}

/// Which transactions a list holds says whether they are refused, not their order or number.
proof fn lemma_refused_alike(
    some: Seq<TransactionView>,
    others: Seq<TransactionView>,
    loose: Set<Txid>,
)
    requires
        forall|k: int| 0 <= k < some.len() ==> others.contains(#[trigger] some[k]),
    ensures
        one_is_refused(some, loose) ==> one_is_refused(others, loose),
        two_are_refused(some, Set::empty()) ==> two_are_refused(others, Set::empty()),
{
    if exists|k: int, i: int, j: int|
        #![trigger some[k].inputs[i], some[k].inputs[j]]
        0 <= k < some.len() && 0 <= i < j < some[k].inputs.len() && some[k].inputs[i]
            == some[k].inputs[j] {
        let (k, i, j) = choose|k: int, i: int, j: int|
            #![trigger some[k].inputs[i], some[k].inputs[j]]
            0 <= k < some.len() && 0 <= i < j < some[k].inputs.len() && some[k].inputs[i]
                == some[k].inputs[j];
        let n = choose|n: int| 0 <= n < others.len() && others[n] == some[k];
        assert(others[n].inputs[i] == others[n].inputs[j]);
    }
    if exists|k: int| 0 <= k < some.len() && (#[trigger] some[k]).outputs.len() > 0xffff_ffff {
        let k = choose|k: int|
            0 <= k < some.len() && (#[trigger] some[k]).outputs.len() > 0xffff_ffff;
        let n = choose|n: int| 0 <= n < others.len() && others[n] == some[k];
        assert(others[n].outputs.len() > 0xffff_ffff);
    }
    if exists|k: int, i: int|
        0 <= k < some.len() && 0 <= i < some[k].inputs.len() && loose.contains(
            (#[trigger] some[k].inputs[i]).txid,
        ) {
        let (k, i) = choose|k: int, i: int|
            0 <= k < some.len() && 0 <= i < some[k].inputs.len() && loose.contains(
                (#[trigger] some[k].inputs[i]).txid,
            );
        let n = choose|n: int| 0 <= n < others.len() && others[n] == some[k];
        assert(loose.contains(others[n].inputs[i].txid));
    }
    assert forall|txid: Txid| #[trigger] in_question(some, Set::empty(), txid) implies in_question(
        others,
        Set::empty(),
        txid,
    ) by {
        let k = choose|k: int|
            0 <= k < some.len() && (#[trigger] some[k]).txid == txid && points_nowhere_beside(
                some[k],
            );
        let n = choose|n: int| 0 <= n < others.len() && others[n] == some[k];
        assert(others[n].txid == txid);
    }
    if two_are_refused(some, Set::empty()) {
        let (a, b) = choose|a: Txid, b: Txid|
            a != b && #[trigger] in_question(some, Set::empty(), a) && #[trigger] in_question(
                some,
                Set::empty(),
                b,
            );
        assert(in_question(others, Set::empty(), a) && in_question(others, Set::empty(), b));
    }
}

/// A reward stands without its block exactly if it was found in place of another transaction.
proof fn lemma_loose(plan: WalletPlan, txid: Txid)
    requires
        plan.wf(),
    ensures
        ({
            let parents = plan.parents@;
            let ids = ids_found(plan.snapshot.utxos@, parents);
            loose_ids(ids, txs_found(ids, parents)).contains(txid) <==> !parents.contains_key(txid)
                && exists|p: Txid| #[trigger]
                parents.contains_key(p) && parents[p].tx@.txid == txid && reward(parents[p].tx@)
        }),
{
    let utxos = plan.snapshot.utxos@;
    let parents = plan.parents@;
    let ids = ids_found(utxos, parents);
    let txs = txs_found(ids, parents);
    lemma_ids(plan, txid);
    if loose_ids(ids, txs).contains(txid) {
        let k = choose|k: int|
            0 <= k < txs.len() && (#[trigger] txs[k]).txid == txid && opens_block(txs[k]);
        lemma_ids_found(utxos, parents, ids[k]);
        assert(parents.contains_key(ids[k]) && reward(parents[ids[k]].tx@));
    }
    if exists|p: Txid| #[trigger]
        parents.contains_key(p) && parents[p].tx@.txid == txid && reward(parents[p].tx@) {
        let p = choose|p: Txid| #[trigger]
            parents.contains_key(p) && parents[p].tx@.txid == txid && reward(parents[p].tx@);
        lemma_ids(plan, p);
        let k = choose|k: int| 0 <= k < ids.len() && ids[k] == p;
        assert(txs[k] == parents[p].tx@);
    }
}

/// The first block of a plan stands at height zero.
proof fn lemma_starts(plan: WalletPlan)
    requires
        plan.wf(),
        plan.blocks@.len() == plan.heights@.len(),
    ensures
        plan.blocks@.len() > 0,
        plan.blocks@[0].height == 0,
        plan@.chain().contains_key(0u32),
        plan@.chain()[0u32] == plan.blocks@[0].hash,
{
    plan.lemma_blocks();
    lemma_blocks_by_height(plan.blocks@);
    assert(plan.heights@.contains(0u32));
    let k = choose|k: int| 0 <= k < plan.heights@.len() && plan.heights@[k] == 0;
    if k != 0 {
        assert(plan.heights@[0] < plan.heights@[k]);
    }
    assert(plan.blocks@[0].height == plan.heights@[0]);
}

/// Transactions that a block can hold and that were found under their own ids can be taken in.
pub proof fn lemma_confirmable_fit(utxos: Seq<Utxo>, parents: Map<Txid, Parent>)
    requires
        forall|p: Txid| #[trigger]
            parents.contains_key(p) ==> confirmable(parents[p].tx@) && parents[p].tx@.txid == p,
    ensures
        fillable(utxos, parents),
        loose_ids(ids_found(utxos, parents), txs_found(ids_found(utxos, parents), parents))
            == Set::<Txid>::empty(),
{
    let ids = ids_found(utxos, parents);
    let txs = txs_found(ids, parents);
    assert forall|k: int| 0 <= k < txs.len() implies holdable(#[trigger] txs[k]) && !names_null(
        txs[k],
    ) && ids.contains(txs[k].txid) by {
        lemma_ids_found(utxos, parents, ids[k]);
        assert(confirmable(parents[ids[k]].tx@));
        lemma_no_repeat(txs[k].inputs);
        if names_null(txs[k]) {
            let i = choose|i: int|
                0 <= i < txs[k].inputs.len() && is_null(#[trigger] txs[k].inputs[i]);
            assert(points_nowhere(parents[ids[k]].tx@.inputs[i]));
        }
        assert(ids[k] == txs[k].txid);
    }
    assert forall|txid: Txid| !loose_ids(ids, txs).contains(txid) by {
        if loose_ids(ids, txs).contains(txid) {
            let k = choose|k: int|
                0 <= k < txs.len() && (#[trigger] txs[k]).txid == txid && opens_block(txs[k]);
            assert(ids.contains(txs[k].txid));
        }
    }
    assert(loose_ids(ids, txs) =~= Set::<Txid>::empty());
    assert forall|txid: Txid| !null_ids(txs).contains(txid) by {
        if null_ids(txs).contains(txid) {
            let k = choose|k: int|
                0 <= k < txs.len() && (#[trigger] txs[k]).txid == txid && names_null(txs[k]);
            assert(!names_null(txs[k]));
        }
    }
}

/// Transactions that were found each under its own id leave a wallet without the reward of a block
/// that lacks the block.
pub proof fn rewards_have_their_blocks(plan: WalletPlan, wallet: TickWallet)
    requires
        plan.wf(),
        call_ensures(WalletPlan::finish, (plan,), Ok(wallet)),
        forall|p: Txid| #[trigger]
            plan.parents@.contains_key(p) ==> plan.parents@[p].tx@.txid == p,
    ensures
        wallet.loose() == Set::<Txid>::empty(),
{
    lemma_found_rightly(plan.snapshot.utxos@, plan.parents@);
}

/// Among transactions that were found under their own ids, none is a reward out of place.
pub proof fn lemma_found_rightly(utxos: Seq<Utxo>, parents: Map<Txid, Parent>)
    requires
        forall|p: Txid| #[trigger] parents.contains_key(p) ==> parents[p].tx@.txid == p,
    ensures
        loose_ids(ids_found(utxos, parents), txs_found(ids_found(utxos, parents), parents))
            == Set::<Txid>::empty(),
{
    let ids = ids_found(utxos, parents);
    let txs = txs_found(ids, parents);
    assert forall|txid: Txid| !loose_ids(ids, txs).contains(txid) by {
        if loose_ids(ids, txs).contains(txid) {
            let k = choose|k: int|
                0 <= k < txs.len() && (#[trigger] txs[k]).txid == txid && opens_block(txs[k]);
            lemma_ids_found(utxos, parents, ids[k]);
            assert(ids[k] == txid);
        }
    }
    assert(loose_ids(ids, txs) =~= Set::<Txid>::empty());
}

/// A wallet for which a scan found nothing has the first block of its network and the tip of the
/// scan for its chain, and no transaction at all. There is none exactly if the tip stands at half a
/// billion or above.
pub proof fn empty_wallet_reaches_the_tip(
    wallet: &mut TickWallet,
    network: Network,
    tip: BlockId,
    made: Result<(), WalletError>,
)
    requires
        call_ensures(fill_empty, (wallet, network, tip), made),
        old(wallet).txs() == Map::<Txid, TransactionView>::empty(),
    ensures
        made is Ok <==> tip.height < 500_000_000,
        made is Ok ==> {
            let chain = final(wallet).chain();
            &&& forall|height: u32| #[trigger]
                chain.contains_key(height) <==> height == 0 || height == tip.height
            &&& chain[0u32] == genesis_of(network)
            &&& tip.height > 0 ==> chain[tip.height] == tip.hash
            &&& final(wallet).txs() == Map::<Txid, TransactionView>::empty()
            &&& final(wallet).anchors() == Set::<(Anchor, Txid)>::empty()
            &&& final(wallet).last_seen() == Map::<Txid, u64>::empty()
            &&& final(wallet).loose() == Set::<Txid>::empty()
        },
        made matches Err(error) ==> error is Height && *final(wallet) == *old(wallet),
{
    let utxos = Seq::<Utxo>::empty();
    let parents = Map::<Txid, Parent>::empty();
    lemma_found_rightly(utxos, parents);
    if made is Ok {
        let blocks = empty_chain(network, tip);
        let chain = final(wallet).chain();
        lemma_blocks_by_height(blocks);
        assert(blocks[0].height == 0);
        assert(blocks[blocks.len() - 1].height == tip.height);
        assert(txs_found(ids_found(utxos, parents), parents) =~= Seq::empty());
        assert(final(wallet).txs() =~= Map::<Txid, TransactionView>::empty());
        assert(final(wallet).anchors() =~= Set::<(Anchor, Txid)>::empty());
    }
}

} // verus!
