//! Where a tick takes from what it pays, said of what it found alone.

use crate::batch::{attempted, built_txs, Attempt};
use crate::bdk::{blocks_by_height, genesis_of, lists, Anchor, Keychain};
use crate::caches::CachesView;
use crate::config::btc_network_of;
use crate::filling::{lemma_block_at, lemma_goes_on, lemma_parents_sought};
use crate::generator::{
    are_heights, batch_begun, broadcast_begun, plan_advanced, shared, stage_wf, stepped, took_in,
    wallet_started, TxGenerator,
};
use crate::laws::reading_of;
use crate::mempool::{inputs_of, MempoolSnapshot};
use crate::paying::{reports_tell_of_their_wallet, tells_of, worth};
use crate::plan::{
    anchor_in, block_of, blocks_from, confirmations, empty_chain, filled, finished, ids_found,
    known_hash, lemma_blocks_by_height, lemma_ids_complete, needed, plan_begun, txs_found, Parent,
    PlanView, WalletPlan,
};
use crate::promises::named;
use crate::reading::{ids_listed, lemma_reads_on, replies_to};
use crate::scan::{low_half, ConfirmedSnapshot, Utxo};
use crate::tick::{Action, Broadcast, Event, SkipReason, Stage};
use crate::tx::{Transaction, TransactionView};
use crate::types::{BlockHash, BlockId, ConfirmedKey, OutPoint, TxOutView, Txid};
use crate::wallet::{is_among, sightings_of, views_of, TickWallet, WalletError};
use std::sync::Arc;
use vstd::prelude::*;

verus! {

/// Whether a broadcast begins from a wallet and the mempool at a time: the wallet with the mempool
/// taken in, seen at that time and not confirmed, is the one that is reported of, whose outputs are
/// blocked if the mempool spends them, and that every transaction spends from.
pub open spec fn begins_from(
    generator: TxGenerator,
    before: TickWallet,
    ready: TickWallet,
    txs: Seq<Arc<Transaction>>,
    now: u64,
    first: Broadcast,
) -> bool {
    &&& first.report.before_inject == before.unspent().len()
    &&& first.report.after_inject == ready.unspent().len()
    &&& first.report.injected == txs.len()
    &&& first.report.balance == worth(ready.unspent())
    &&& forall|outpoint: OutPoint| #[trigger]
        first.blocked@.contains(outpoint) <==> (exists|n: int|
            0 <= n < ready.unspent().len() && (#[trigger] ready.unspent()[n]).outpoint == outpoint)
            && exists|m: int|
            0 <= m < txs.len() && (#[trigger] txs[m])@.inputs.contains(outpoint)
    &&& forall|i: int|
        0 <= i < first.attempts@.len() ==> (
        #[trigger] first.attempts@[i] matches Attempt::Built(tx, summary) ==> tells_of(
            summary,
            *tx,
            ready.unspent(),
            generator.receiver().script_pubkey@,
            generator.change().script_pubkey@,
        ) && forall|a: int|
            0 <= a < tx@.inputs.len() ==> exists|n: int|
                0 <= n < ready.unspent().len() && (#[trigger] ready.unspent()[n]).outpoint
                    == #[trigger] tx@.inputs[a])
    &&& ready.descriptors() == before.descriptors()
    &&& ready.network() == before.network()
    &&& ready.chain() == before.chain()
    &&& ready.anchors() == before.anchors()
    &&& forall|txid: Txid| #[trigger]
        before.txs().contains_key(txid) ==> ready.txs().contains_key(txid) && ready.txs()[txid]
            == before.txs()[txid]
    &&& forall|k: int|
        0 <= k < txs.len() ==> ready.txs().contains_key((#[trigger] txs[k])@.txid)
            && ready.last_seen().contains_key(txs[k]@.txid) && now
            <= ready.last_seen()[txs[k]@.txid]
    &&& forall|txid: Txid| #[trigger]
        ready.last_seen().contains_key(txid) ==> ready.last_seen()[txid] == now || (
        before.last_seen().contains_key(txid) && before.last_seen()[txid]
            == ready.last_seen()[txid])
    &&& txs.len() == 0 ==> ready == before
    &&& txs.len() > 0 ==> {
        let update = ready.updates().last();
        &&& ready.updates().drop_last() == before.updates()
        &&& ready.updates().len() == before.updates().len() + 1
        &&& update.last_active == 999
        &&& update.raws.len() == txs.len()
        &&& forall|k: int| 0 <= k < txs.len() ==> #[trigger] update.raws[k] == txs[k].bytes()
        &&& update.txouts == Map::<OutPoint, TxOutView>::empty()
        &&& update.anchors == Set::<(Anchor, Txid)>::empty()
        &&& update.blocks is None
        &&& forall|txid: Txid, at: u64| #[trigger]
            update.seen_ats.contains((txid, at)) <==> at == now && exists|k: int|
                0 <= k < txs.len() && (#[trigger] txs[k])@.txid == txid
    }
}

/// A broadcast begins from the wallet that took the mempool in.
proof fn lemma_begins_from(
    generator: TxGenerator,
    before: TickWallet,
    ready: TickWallet,
    txs: Seq<Arc<Transaction>>,
    now: u64,
    first: Broadcast,
)
    requires
        took_in(before, txs, now, ready),
        broadcast_begun(generator, before, ready, txs, first),
    ensures
        begins_from(generator, before, ready, txs, now, first),
{
    reports_tell_of_their_wallet(generator, before, ready, txs, first);
    lemma_spends_listed(generator, before, ready, txs, first);
    if txs.len() > 0 {
        lemma_taken_in(before, ready, txs, now);
    }
}

/// What is built spends what the wallet lists.
proof fn lemma_spends_listed(
    generator: TxGenerator,
    before: TickWallet,
    ready: TickWallet,
    txs: Seq<Arc<Transaction>>,
    first: Broadcast,
)
    requires
        broadcast_begun(generator, before, ready, txs, first),
    ensures
        forall|i: int|
            0 <= i < first.attempts@.len() ==> (
            #[trigger] first.attempts@[i] matches Attempt::Built(tx, summary) ==> forall|a: int|
                0 <= a < tx@.inputs.len() ==> exists|n: int|
                    0 <= n < ready.unspent().len() && (#[trigger] ready.unspent()[n]).outpoint
                        == #[trigger] tx@.inputs[a]),
{
    assert forall|i: int| 0 <= i < first.attempts@.len() implies (
    #[trigger] first.attempts@[i] matches Attempt::Built(tx, summary) ==> forall|a: int|
        0 <= a < tx@.inputs.len() ==> exists|n: int|
            0 <= n < ready.unspent().len() && (#[trigger] ready.unspent()[n]).outpoint
                == #[trigger] tx@.inputs[a]) by {
        let unspendable = first.blocked@ + inputs_of(built_txs(first.attempts@.take(i)));
        assert(attempted(first.attempts@[i], ready, unspendable, generator.payment()));
        if let Attempt::Built(tx, summary) = first.attempts@[i] {
            assert forall|a: int| 0 <= a < tx@.inputs.len() implies exists|n: int|
                0 <= n < ready.unspent().len() && (#[trigger] ready.unspent()[n]).outpoint
                    == #[trigger] tx@.inputs[a] by {
                assert(lists(ready.unspent(), tx@.inputs[a]));
            }
        }
    }
}

/// What a wallet has taken in it holds, as seen at the time.
proof fn lemma_taken_in(
    before: TickWallet,
    ready: TickWallet,
    txs: Seq<Arc<Transaction>>,
    now: u64,
)
    requires
        took_in(before, txs, now, ready),
        txs.len() > 0,
    ensures
        forall|k: int|
            0 <= k < txs.len() ==> ready.txs().contains_key((#[trigger] txs[k])@.txid)
                && ready.last_seen().contains_key(txs[k]@.txid) && now
                <= ready.last_seen()[txs[k]@.txid],
        ({
            let update = ready.updates().last();
            &&& ready.updates().drop_last() == before.updates()
            &&& ready.updates().len() == before.updates().len() + 1
            &&& update.last_active == 999
            &&& update.raws.len() == txs.len()
            &&& forall|k: int| 0 <= k < txs.len() ==> #[trigger] update.raws[k] == txs[k].bytes()
            &&& update.txouts == Map::<OutPoint, TxOutView>::empty()
            &&& update.anchors == Set::<(Anchor, Txid)>::empty()
            &&& update.blocks is None
            &&& forall|txid: Txid, at: u64| #[trigger]
                update.seen_ats.contains((txid, at)) <==> at == now && exists|k: int|
                    0 <= k < txs.len() && (#[trigger] txs[k])@.txid == txid
        }),
{
    let views = views_of(txs);
    assert forall|k: int| 0 <= k < txs.len() implies ready.txs().contains_key(
        (#[trigger] txs[k])@.txid,
    ) && ready.last_seen().contains_key(txs[k]@.txid) && now
        <= ready.last_seen()[txs[k]@.txid] by {
        assert(views[k].txid == txs[k]@.txid);
        assert(is_among(txs, txs[k]@.txid));
        assert(sightings_of(txs, now).contains((txs[k]@.txid, now)));
    }
    assert(ready.updates().drop_last() =~= before.updates());
    let update = ready.updates().last();
    assert forall|txid: Txid, at: u64| #[trigger]
        update.seen_ats.contains((txid, at)) <==> at == now && exists|k: int|
            0 <= k < txs.len() && (#[trigger] txs[k])@.txid == txid by {
        assert(update.seen_ats.contains((txid, at)) <==> at == now && is_among(txs, txid));
    }
}

/// Whether a wallet has what was found for some outputs: each transaction, confirmed in its block.
pub open spec fn has_found(wallet: TickWallet, parents: Map<Txid, Parent>) -> bool {
    forall|txid: Txid| #[trigger]
        parents.contains_key(txid) ==> wallet.txs().contains_key(parents[txid].tx@.txid)
            && wallet.anchors().contains((Anchor { block: parents[txid].block, time: 0 }, txid))
}

/// Whether a wallet has some blocks in its chain.
pub open spec fn has_blocks(wallet: TickWallet, blocks: Seq<BlockId>) -> bool {
    forall|k: int|
        0 <= k < blocks.len() ==> wallet.chain().contains_key((#[trigger] blocks[k]).height)
            && wallet.chain()[blocks[k].height] == blocks[k].hash
}

/// A tick that has filled its wallet pays from that: from every transaction that it had found or
/// was just given, each confirmed in the block in which it was sought, with the blocks that it had
/// and the mempool that it had read.
pub proof fn tick_pays_from_what_it_found(
    generator: &mut TxGenerator,
    mempool: MempoolSnapshot,
    plan: WalletPlan,
    event: Event,
    now: u64,
    next: (Stage, Action),
    first: Broadcast,
)
    requires
        stage_wf(*old(generator), Stage::FillingWallet(mempool, plan)),
        replies_to(Stage::FillingWallet(mempool, plan), event),
        call_ensures(
            TxGenerator::run_tick,
            (generator, Stage::FillingWallet(mempool, plan), event, now),
            next,
        ),
        next.0 == Stage::Broadcasting(first),
    ensures
        exists|before: TickWallet, ready: TickWallet| {
            &&& #[trigger] begins_from(
                *old(generator),
                before,
                ready,
                mempool.txs@,
                now,
                first,
            )
            &&& before.descriptors() == plan.wallet.descriptors()
            &&& before.network() == plan.wallet.network()
            &&& before.last_seen() == Map::<Txid, u64>::empty()
            &&& has_blocks(before, plan.blocks@)
            &&& has_found(before, plan.parents@)
            &&& event matches Event::TxFetched(Some(tx)) ==> before.txs().contains_key(tx@.txid)
                && exists|k: int|
                0 <= k < plan.blocks@.len() && (#[trigger] plan.blocks@[k]).height
                    == plan.snapshot.utxos@[plan.next as int].height % 0x1_0000_0000
                    && before.anchors().contains(
                    (
                        Anchor { block: plan.blocks@[k], time: 0 },
                        plan.snapshot.utxos@[plan.next as int].txid,
                    ),
                )
        },
{
    let caches = old(generator).remembered()@;
    let after = final(generator).remembered()@;
    match event {
        Event::BlockHashFetched(Some(hash)) => {
            plan.lemma_blocks();
            lemma_pays_from(
                *old(generator),
                plan@.remembering_block(caches, hash),
                plan@.accepting_block(hash),
                mempool.txs@,
                now,
                after,
                next.0,
            );
            let reached = plan@.accepting_block(hash);
            let (before, ready) = choose|before: TickWallet, ready: TickWallet| {
                &&& #[trigger] begins_from(
                    *old(generator),
                    before,
                    ready,
                    mempool.txs@,
                    now,
                    first,
                )
                &&& before.descriptors() == plan.wallet.descriptors()
                &&& before.network() == plan.wallet.network()
                &&& before.last_seen() == Map::<Txid, u64>::empty()
                &&& has_blocks(before, reached.blocks)
                &&& has_found(before, reached.parents)
            };
            assert(has_blocks(before, plan.blocks@)) by {
                assert forall|k: int| 0 <= k < plan.blocks@.len() implies
                    before.chain().contains_key((#[trigger] plan.blocks@[k]).height)
                    && before.chain()[plan.blocks@[k].height] == plan.blocks@[k].hash by {
                    assert(reached.blocks[k] == plan.blocks@[k]);
                }
            }
        },
        Event::TxFetched(reply) => {
            let reached = plan@.accepting_parent(shared(reply));
            lemma_block_at(plan, plan.next as int);
            lemma_pays_from(
                *old(generator),
                plan@.remembering_parent(caches, shared(reply)),
                reached,
                mempool.txs@,
                now,
                after,
                next.0,
            );
            let (before, ready) = choose|before: TickWallet, ready: TickWallet| {
                &&& #[trigger] begins_from(
                    *old(generator),
                    before,
                    ready,
                    mempool.txs@,
                    now,
                    first,
                )
                &&& before.descriptors() == plan.wallet.descriptors()
                &&& before.network() == plan.wallet.network()
                &&& before.last_seen() == Map::<Txid, u64>::empty()
                &&& has_blocks(before, reached.blocks)
                &&& has_found(before, reached.parents)
            };
            assert(has_found(before, plan.parents@)) by {
                assert forall|txid: Txid| #[trigger] plan.parents@.contains_key(txid) implies
                    before.txs().contains_key(plan.parents@[txid].tx@.txid)
                    && before.anchors().contains(
                    (Anchor { block: plan.parents@[txid].block, time: 0 }, txid),
                ) by {
                    assert(reached.parents.contains_key(txid));
                }
            }
            if let Some(tx) = reply {
                assert(reached.parents.contains_key(plan.snapshot.utxos@[plan.next as int].txid));
            }
        },
        _ => {},
    }
}

/// A tick pays from what its plan comes to.
proof fn lemma_pays_from(
    generator: TxGenerator,
    caches: CachesView,
    plan: PlanView,
    txs: Seq<Arc<Transaction>>,
    now: u64,
    caches_after: CachesView,
    stage: Stage,
)
    requires
        plan_advanced(generator, caches, plan, txs, now, caches_after, stage),
        stage is Broadcasting,
        plan.blocks.len() <= plan.heights.len(),
        0 <= plan.next <= plan.utxos.len(),
        forall|i: int, j: int|
            0 <= i < j < plan.heights.len() ==> plan.heights[i] < plan.heights[j],
        forall|k: int|
            0 <= k < plan.blocks.len() ==> (#[trigger] plan.blocks[k]).height == plan.heights[k],
        forall|txid: Txid| #[trigger]
            plan.parents.contains_key(txid) ==> exists|i: int|
                0 <= i < plan.next && (#[trigger] plan.utxos[i]).txid == txid,
    ensures
        exists|before: TickWallet, ready: TickWallet| {
            &&& #[trigger] begins_from(
                generator,
                before,
                ready,
                txs,
                now,
                stage->Broadcasting_0,
            )
            &&& before.descriptors() == plan.wallet.descriptors()
            &&& before.network() == plan.wallet.network()
            &&& before.last_seen() == Map::<Txid, u64>::empty()
            &&& has_blocks(before, plan.blocks)
            &&& has_found(before, plan.parents)
            &&& has_blocks(before, plan.reusing(caches).blocks)
            &&& has_found(before, plan.reusing(caches).parents)
        },
{
    let reached = plan.reusing(caches);
    lemma_goes_on(plan, caches);
    let made = choose|made: Result<TickWallet, WalletError>| #[trigger]
        finished(reached, made) && match made {
            Ok(wallet) => batch_begun(generator, wallet, txs, now, stage),
            Err(error) => stage matches Stage::Skipped(SkipReason::Wallet(e)) && e == error,
        };
    let before = made->Ok_0;
    let ready = choose|ready: TickWallet| #[trigger]
        took_in(before, txs, now, ready) && (stage matches Stage::Broadcasting(broadcast)
            && broadcast_begun(generator, before, ready, txs, broadcast));
    lemma_begins_from(generator, before, ready, txs, now, stage->Broadcasting_0);
    let ids = ids_found(reached.utxos, reached.parents);
    let views = txs_found(ids, reached.parents);
    assert forall|k: int| 0 <= k < reached.blocks.len() implies (
    #[trigger] reached.blocks[k]).height == reached.heights[k] by {
        if k < plan.blocks.len() {
            assert(reached.blocks.take(plan.blocks.len() as int)[k] == plan.blocks[k]);
        }
    }
    lemma_blocks_by_height(reached.blocks);
    assert(has_blocks(before, plan.blocks)) by {
        assert forall|k: int| 0 <= k < plan.blocks.len() implies before.chain().contains_key(
            (#[trigger] plan.blocks[k]).height,
        ) && before.chain()[plan.blocks[k].height] == plan.blocks[k].hash by {
            assert(reached.blocks.take(plan.blocks.len() as int)[k] == plan.blocks[k]);
            assert(reached.blocks[k] == plan.blocks[k]);
        }
    }
    assert forall|txid: Txid| #[trigger] reached.parents.contains_key(txid) implies
        before.txs().contains_key(reached.parents[txid].tx@.txid) && before.anchors().contains(
        (Anchor { block: reached.parents[txid].block, time: 0 }, txid),
    ) by {
        lemma_found_for(plan, caches, txid);
        let i = choose|i: int| 0 <= i < reached.next && (#[trigger] reached.utxos[i]).txid == txid;
        lemma_ids_complete(reached.utxos, reached.parents, i);
        let k = choose|k: int| 0 <= k < ids.len() && ids[k] == txid;
        assert(views[k] == reached.parents[txid].tx@);
        assert(confirmations(ids, reached.parents).contains(
            (anchor_in(reached.parents[txid].block), txid),
        ));
    }
    assert(has_found(before, plan.parents)) by {
        assert forall|txid: Txid| #[trigger] plan.parents.contains_key(txid) implies
            before.txs().contains_key(plan.parents[txid].tx@.txid) && before.anchors().contains(
            (Anchor { block: plan.parents[txid].block, time: 0 }, txid),
        ) by {
            assert(plan.parents.dom().contains(txid));
            assert(reached.parents.contains_key(txid));
        }
    }
}

/// A transaction that was found is that of an output that was looked at.
proof fn lemma_found_for(plan: PlanView, caches: CachesView, txid: Txid)
    requires
        0 <= plan.next <= plan.utxos.len(),
        plan.blocks.len() <= plan.heights.len(),
        forall|txid: Txid| #[trigger]
            plan.parents.contains_key(txid) ==> exists|i: int|
                0 <= i < plan.next && (#[trigger] plan.utxos[i]).txid == txid,
        plan.reusing(caches).parents.contains_key(txid),
    ensures
        exists|i: int|
            0 <= i < plan.reusing(caches).next && (
            #[trigger] plan.reusing(caches).utxos[i]).txid == txid,
{
    let reached = plan.reusing(caches);
    lemma_goes_on(plan, caches);
    if plan.parents.contains_key(txid) {
        let i = choose|i: int| 0 <= i < plan.next && (#[trigger] plan.utxos[i]).txid == txid;
        assert(reached.utxos[i].txid == txid);
    } else {
        lemma_parents_sought(
            plan.utxos,
            blocks_by_height(reached.blocks),
            caches.confirmed_txs,
            plan.next,
            plan.parents,
            txid,
        );
    }
}


/// Whether a wallet holds for each output of a scan the transaction that is remembered under the
/// output's id and the block at its height, confirmed in that block. Where the scan gives two
/// heights for one transaction, the first counts.
pub open spec fn holds_remembered(
    wallet: TickWallet,
    utxos: Seq<Utxo>,
    confirmed: Map<ConfirmedKey, Arc<Transaction>>,
) -> bool {
    forall|i: int|
        0 <= i < utxos.len() ==> exists|j: int, block: BlockId|
            #![trigger utxos[j],
                wallet.anchors().contains((Anchor { block, time: 0 }, utxos[j].txid))]
            {
                let key = ConfirmedKey { txid: utxos[j].txid, block: block.hash };
                &&& 0 <= j < utxos.len()
                &&& utxos[j].txid == (#[trigger] utxos[i]).txid
                &&& block.height == utxos[j].height % 0x1_0000_0000
                &&& wallet.chain().contains_key(block.height)
                &&& wallet.chain()[block.height] == block.hash
                &&& wallet.anchors().contains((Anchor { block, time: 0 }, utxos[j].txid))
                &&& confirmed.contains_key(key)
                &&& wallet.txs().contains_key(confirmed[key]@.txid)
            }
}

/// Whether a wallet is what a tick makes of a scan without asking the node for anything: one of
/// the generator's two descriptors and its network, whose chain reaches from the first block to
/// the tip, with what is remembered for the outputs of the scan, and with nothing else.
pub open spec fn made_of_scan(
    generator: TxGenerator,
    wallet: TickWallet,
    snapshot: ConfirmedSnapshot,
    confirmed: Map<ConfirmedKey, Arc<Transaction>>,
) -> bool {
    &&& wallet.descriptors() == map![
        Keychain::External => generator.external(),
        Keychain::Internal => generator.internal(),
    ]
    &&& wallet.network() == named(generator.settings().network)
    &&& wallet.last_seen() == Map::<Txid, u64>::empty()
    &&& wallet.chain().contains_key(0u32)
    &&& wallet.chain()[0u32] == genesis_of(wallet.network())
    &&& wallet.chain().contains_key(snapshot.tip.height)
    &&& snapshot.tip.height > 0 ==> wallet.chain()[snapshot.tip.height] == snapshot.tip.hash
    &&& forall|height: u32| #[trigger]
        wallet.chain().contains_key(height) ==> height == 0 || height == snapshot.tip.height
            || exists|i: int|
            0 <= i < snapshot.utxos@.len() && (#[trigger] snapshot.utxos@[i]).height
                % 0x1_0000_0000 == height
    &&& snapshot.utxos@.len() == 0 ==> wallet.txs() == Map::<Txid, TransactionView>::empty()
    &&& holds_remembered(wallet, snapshot.utxos@, confirmed)
}

/// A tick that has nothing to ask for pays from what is remembered for the outputs of the scan,
/// with the mempool that it has read.
pub proof fn tick_pays_from_what_is_remembered(
    generator: &mut TxGenerator,
    stage: Stage,
    event: Event,
    now: u64,
    next: (Stage, Action),
    snapshot: ConfirmedSnapshot,
    txs: Seq<Arc<Transaction>>,
    first: Broadcast,
)
    requires
        old(generator).wf(),
        stage_wf(*old(generator), stage),
        replies_to(stage, event),
        call_ensures(TxGenerator::run_tick, (generator, stage, event, now), next),
        next.0 == Stage::Broadcasting(first),
        match stage {
            Stage::ListingMempool(s) => s == snapshot,
            Stage::FetchingMempool(s, _) => s == snapshot,
            Stage::CheckingTip(_, _, s) => s == snapshot,
            _ => false,
        },
        match stage {
            Stage::CheckingTip(mempool, _, _) => txs == mempool.txs@,
            _ => txs == Seq::new(
                ids_listed(stage, event).len(),
                |i: int| final(generator).remembered()@.mempool_txs[ids_listed(stage, event)[i]],
            ),
        },
    ensures
        exists|before: TickWallet, ready: TickWallet|
            #[trigger] begins_from(*old(generator), before, ready, txs, now, first) && made_of_scan(
                *old(generator),
                before,
                snapshot,
                final(generator).remembered()@.confirmed_txs,
            ),
{
    let caches = old(generator).remembered()@;
    let after = final(generator).remembered()@;
    let network = btc_network_of(old(generator).settings().network);
    match (stage, event) {
        (Stage::CheckingTip(mempool, wallet, s), Event::BlockHashFetched(reply)) => {
            lemma_start_pays_from(
                *old(generator),
                caches.checking(snapshot.tip, reply),
                wallet,
                snapshot,
                mempool.txs@,
                now,
                after,
                next.0,
            );
        },
        _ => {
            let ids = ids_listed(stage, event);
            let (reading, cache) = reading_of(*old(generator), stage, event);
            let read = reading.reusing(cache);
            lemma_mempool_read(*old(generator), stage, event);
            assert(after.mempool_txs == cache);
            assert(read.txs =~= Seq::new(ids.len(), |i: int| after.mempool_txs[ids[i]]));
            let known = CachesView { mempool_txs: cache, ..caches };
            let wallet = choose|wallet: TickWallet| #[trigger]
                wallet.fresh(old(generator).external(), old(generator).internal(), network)
                    && wallet_started(
                    *old(generator),
                    known.noting(snapshot.tip),
                    wallet,
                    snapshot,
                    read.txs,
                    now,
                    after,
                    next.0,
                );
            lemma_start_pays_from(
                *old(generator),
                known.noting(snapshot.tip),
                wallet,
                snapshot,
                read.txs,
                now,
                after,
                next.0,
            );
        },
    }
}

/// A reading that nothing is left of covers the whole list.
proof fn lemma_mempool_read(generator: TxGenerator, stage: Stage, event: Event)
    requires
        generator.wf(),
        stage_wf(generator, stage),
        replies_to(stage, event),
        stage is ListingMempool || stage is FetchingMempool,
        ({
            let (reading, cache) = reading_of(generator, stage, event);
            reading.reusing(cache).awaited() is None && reading.reusing(cache).complete
        }),
    ensures
        ({
            let (reading, cache) = reading_of(generator, stage, event);
            let ids = ids_listed(stage, event);
            reading.reusing(cache).txs == Seq::new(ids.len(), |i: int| cache[ids[i]])
        }),
{
    let (reading, cache) = reading_of(generator, stage, event);
    let ids = ids_listed(stage, event);
    let read = reading.reusing(cache);
    lemma_reads_on(reading, cache);
    assert forall|i: int| 0 <= i < ids.len() implies read.txs[i] == cache[ids[i]] by {
        if i < reading.next {
            if let Stage::FetchingMempool(_, fetch) = stage {
                if i < fetch.next {
                    assert(fetch@.txs[i] == generator.remembered()@.mempool_txs[fetch@.txids[i]]);
                }
            }
        }
    }
    assert(read.txs =~= Seq::new(ids.len(), |i: int| cache[ids[i]]));
}

/// A tick that begins with a fresh wallet and asks for nothing pays from what is remembered.
proof fn lemma_start_pays_from(
    generator: TxGenerator,
    caches: CachesView,
    wallet: TickWallet,
    snapshot: ConfirmedSnapshot,
    txs: Seq<Arc<Transaction>>,
    now: u64,
    caches_after: CachesView,
    stage: Stage,
)
    requires
        wallet_started(generator, caches, wallet, snapshot, txs, now, caches_after, stage),
        wallet.fresh(
            generator.external(),
            generator.internal(),
            btc_network_of(generator.settings().network),
        ),
        stage is Broadcasting,
    ensures
        exists|before: TickWallet, ready: TickWallet|
            #[trigger] begins_from(generator, before, ready, txs, now, stage->Broadcasting_0)
                && made_of_scan(generator, before, snapshot, caches_after.confirmed_txs),
{
    let network = btc_network_of(generator.settings().network);
    if snapshot.utxos@.len() == 0 {
        let none = Map::<Txid, Parent>::empty();
        let blocks = empty_chain(network, snapshot.tip);
        let before = choose|before: TickWallet| #[trigger]
            filled(wallet, blocks, snapshot.utxos@, none, before) && batch_begun(
                generator,
                before,
                txs,
                now,
                stage,
            );
        let ready = choose|ready: TickWallet| #[trigger]
            took_in(before, txs, now, ready) && (stage matches Stage::Broadcasting(broadcast)
                && broadcast_begun(generator, before, ready, txs, broadcast));
        lemma_begins_from(generator, before, ready, txs, now, stage->Broadcasting_0);
        lemma_blocks_by_height(blocks);
        assert(blocks[0].height == 0);
        assert(blocks[blocks.len() - 1].height == snapshot.tip.height);
        assert(txs_found(ids_found(snapshot.utxos@, none), none) =~= Seq::empty());
        assert(before.txs() =~= Map::<Txid, TransactionView>::empty());
        assert(made_of_scan(generator, before, snapshot, caches_after.confirmed_txs));
    } else {
        let heights = choose|heights: Seq<u32>| #[trigger]
            are_heights(snapshot, heights) && plan_advanced(
                generator,
                caches,
                plan_begun(wallet, snapshot.tip, snapshot.utxos@, heights),
                txs,
                now,
                caches_after,
                stage,
            );
        lemma_plan_pays_from(
            generator,
            caches,
            wallet,
            snapshot,
            heights,
            txs,
            now,
            caches_after,
            stage,
        );
    }
}

/// A plan that is done without asking makes a wallet of what is remembered.
proof fn lemma_plan_pays_from(
    generator: TxGenerator,
    caches: CachesView,
    wallet: TickWallet,
    snapshot: ConfirmedSnapshot,
    heights: Seq<u32>,
    txs: Seq<Arc<Transaction>>,
    now: u64,
    caches_after: CachesView,
    stage: Stage,
)
    requires
        are_heights(snapshot, heights),
        plan_advanced(
            generator,
            caches,
            plan_begun(wallet, snapshot.tip, snapshot.utxos@, heights),
            txs,
            now,
            caches_after,
            stage,
        ),
        wallet.fresh(
            generator.external(),
            generator.internal(),
            btc_network_of(generator.settings().network),
        ),
        snapshot.utxos@.len() > 0,
        stage is Broadcasting,
    ensures
        exists|before: TickWallet, ready: TickWallet|
            #[trigger] begins_from(generator, before, ready, txs, now, stage->Broadcasting_0)
                && made_of_scan(generator, before, snapshot, caches_after.confirmed_txs),
{
    let utxos = snapshot.utxos@;
    let plan = plan_begun(wallet, snapshot.tip, utxos, heights);
    let reached = plan.reusing(caches);
    lemma_goes_on(plan, caches);
    let made = choose|made: Result<TickWallet, WalletError>| #[trigger]
        finished(reached, made) && match made {
            Ok(wallet) => batch_begun(generator, wallet, txs, now, stage),
            Err(error) => stage matches Stage::Skipped(SkipReason::Wallet(e)) && e == error,
        };
    let before = made->Ok_0;
    let ready = choose|ready: TickWallet| #[trigger]
        took_in(before, txs, now, ready) && (stage matches Stage::Broadcasting(broadcast)
            && broadcast_begun(generator, before, ready, txs, broadcast));
    lemma_begins_from(generator, before, ready, txs, now, stage->Broadcasting_0);
    assert(made_of_scan(generator, before, snapshot, caches_after.confirmed_txs)) by {
        lemma_chain_spans(caches, plan, snapshot, before.chain());
        lemma_holds_remembered(caches, plan, snapshot, before);
    }
}

/// The chain of a plan that is done without asking reaches from the first block to the tip.
proof fn lemma_chain_spans(
    caches: CachesView,
    plan: PlanView,
    snapshot: ConfirmedSnapshot,
    chain: Map<u32, BlockHash>,
)
    requires
        are_heights(snapshot, plan.heights),
        plan.blocks == Seq::<BlockId>::empty(),
        plan.tip == snapshot.tip,
        0 <= plan.next <= plan.utxos.len(),
        plan.reusing(caches).blocks.len() == plan.heights.len(),
        chain == blocks_by_height(plan.reusing(caches).blocks),
    ensures
        forall|height: u32| #[trigger]
            chain.contains_key(height) <==> plan.heights.contains(height),
        chain.contains_key(0u32),
        chain.contains_key(snapshot.tip.height),
        chain[snapshot.tip.height] == snapshot.tip.hash,
        forall|height: u32| #[trigger]
            chain.contains_key(height) ==> height == 0 || height == snapshot.tip.height || exists|
                i: int,
            |
                0 <= i < snapshot.utxos@.len() && (#[trigger] snapshot.utxos@[i]).height
                    % 0x1_0000_0000 == height,
{
    let heights = plan.heights;
    let blocks = plan.reusing(caches).blocks;
    lemma_goes_on(plan, caches);
    assert forall|i: int, j: int| 0 <= i < j < blocks.len() implies blocks[i].height
        < blocks[j].height by {
        assert(heights[i] < heights[j]);
    }
    lemma_blocks_by_height(blocks);
    assert forall|height: u32| #[trigger] chain.contains_key(height) <==> heights.contains(
        height,
    ) by {
        if heights.contains(height) {
            let k = choose|k: int| 0 <= k < heights.len() && heights[k] == height;
            assert(blocks[k].height == height);
        }
        if chain.contains_key(height) {
            let k = choose|k: int| 0 <= k < blocks.len() && (#[trigger] blocks[k]).height == height;
            assert(heights[k] == height);
        }
    }
    assert(heights.contains(0u32));
    assert(heights.contains(snapshot.tip.height));
    lemma_tip_kept(snapshot.tip, caches.block_hashes, heights, plan.blocks);
    let k = choose|k: int| 0 <= k < heights.len() && heights[k] == snapshot.tip.height;
    assert(blocks[k].height == snapshot.tip.height);
    assert forall|height: u32| #[trigger] chain.contains_key(height) implies height == 0 || height
        == snapshot.tip.height || exists|i: int|
        0 <= i < snapshot.utxos@.len() && (#[trigger] snapshot.utxos@[i]).height % 0x1_0000_0000
            == height by {
        assert(needed(snapshot, height));
    }
}

/// A wallet of a plan that is done without asking holds what is remembered.
proof fn lemma_holds_remembered(
    caches: CachesView,
    plan: PlanView,
    snapshot: ConfirmedSnapshot,
    before: TickWallet,
)
    requires
        are_heights(snapshot, plan.heights),
        plan.blocks == Seq::<BlockId>::empty(),
        plan.tip == snapshot.tip,
        plan.utxos == snapshot.utxos@,
        plan.next == 0,
        plan.parents == Map::<Txid, Parent>::empty(),
        plan.reusing(caches).missing() is None,
        filled(
            plan.wallet,
            plan.reusing(caches).blocks,
            plan.utxos,
            plan.reusing(caches).parents,
            before,
        ),
    ensures
        holds_remembered(before, snapshot.utxos@, caches.confirmed_txs),
{
    let utxos = snapshot.utxos@;
    let reached = plan.reusing(caches);
    let chain = blocks_by_height(reached.blocks);
    lemma_goes_on(plan, caches);
    lemma_chain_spans(caches, plan, snapshot, chain);
    let ids = ids_found(utxos, reached.parents);
    let views = txs_found(ids, reached.parents);
    assert forall|i: int| 0 <= i < utxos.len() implies exists|j: int, block: BlockId|
        #![trigger utxos[j], before.anchors().contains((Anchor { block, time: 0 }, utxos[j].txid))]
        {
            let key = ConfirmedKey { txid: utxos[j].txid, block: block.hash };
            &&& 0 <= j < utxos.len()
            &&& utxos[j].txid == (#[trigger] utxos[i]).txid
            &&& block.height == utxos[j].height % 0x1_0000_0000
            &&& before.chain().contains_key(block.height)
            &&& before.chain()[block.height] == block.hash
            &&& before.anchors().contains((Anchor { block, time: 0 }, utxos[j].txid))
            &&& caches.confirmed_txs.contains_key(key)
            &&& before.txs().contains_key(caches.confirmed_txs[key]@.txid)
        } by {
        let txid = utxos[i].txid;
        assert(reached.parents.contains_key(reached.utxos[i].txid));
        lemma_parents_sought(utxos, chain, caches.confirmed_txs, 0, plan.parents, txid);
        let j = choose|j: int|
            0 <= j < reached.next && (#[trigger] utxos[j]).txid == txid
                && reached.parents[txid].block == block_of(utxos[j], chain);
        let block = reached.parents[txid].block;
        assert(needed(snapshot, low_half(utxos[j].height)));
        assert(plan.heights.contains(low_half(utxos[j].height)));
        assert(chain.contains_key(block.height));
        lemma_ids_complete(utxos, reached.parents, i);
        let k = choose|k: int| 0 <= k < ids.len() && ids[k] == txid;
        assert(views[k] == reached.parents[txid].tx@);
        assert(confirmations(ids, reached.parents).contains((anchor_in(block), txid)));
        assert(before.anchors().contains((Anchor { block, time: 0 }, utxos[j].txid)));
    }
}

/// A block that is added at the height of the tip is the tip.
proof fn lemma_tip_kept(
    tip: BlockId,
    cache: Map<u32, BlockHash>,
    heights: Seq<u32>,
    blocks: Seq<BlockId>,
)
    requires
        blocks.len() <= heights.len(),
        forall|k: int|
            0 <= k < blocks.len() ==> ((#[trigger] blocks[k]).height == tip.height
                ==> blocks[k].hash == tip.hash),
    ensures
        ({
            let more = blocks_from(tip, cache, heights, blocks);
            forall|k: int|
                0 <= k < more.len() ==> ((#[trigger] more[k]).height == tip.height ==> more[k].hash
                    == tip.hash)
        }),
    decreases heights.len() - blocks.len(),
{
    if blocks.len() < heights.len() {
        let height = heights[blocks.len() as int];
        if let Some(hash) = known_hash(tip, cache, height) {
            let longer = blocks.push(BlockId { height, hash });
            assert(blocks_from(tip, cache, heights, blocks) == blocks_from(
                tip,
                cache,
                heights,
                longer,
            ));
            lemma_tip_kept(tip, cache, heights, longer);
        }
    }
}

// ---------------------------------------------------------------------------------------
// What stops a tick.
// ---------------------------------------------------------------------------------------

/// A tick stops for want of a block only if the node did not name one that was asked for. It stops
/// for want of transactions only if the node could give none for any of the outputs, of which there
/// is one at least. It stops for a height only if the tip or an output of the scan stands at half a
/// billion or above.
pub proof fn wallet_stops_a_tick_only_for_cause(
    generator: &mut TxGenerator,
    stage: Stage,
    event: Event,
    now: u64,
    next: (Stage, Action),
    snapshot: ConfirmedSnapshot,
    error: WalletError,
)
    requires
        stage_wf(*old(generator), stage),
        replies_to(stage, event),
        call_ensures(TxGenerator::run_tick, (generator, stage, event, now), next),
        next.0 == Stage::Skipped(SkipReason::Wallet(error)),
        match stage {
            Stage::ListingMempool(s) => s == snapshot,
            Stage::FetchingMempool(s, _) => s == snapshot,
            Stage::CheckingTip(_, _, s) => s == snapshot,
            Stage::FillingWallet(_, plan) => plan.snapshot == snapshot,
            _ => true,
        },
    ensures
        stage is ListingMempool || stage is FetchingMempool || stage is CheckingTip
            || stage is FillingWallet,
        error is BlockHash <==> stage is FillingWallet && event matches Event::BlockHashFetched(
            None,
        ),
        error is NoParents ==> stage is FillingWallet,
        error is NoParents && snapshot.utxos@.len() > 0 ==> {
            &&& stage matches Stage::FillingWallet(_, plan)
            &&& event matches Event::TxFetched(None)
            &&& plan.parents@ == Map::<Txid, Parent>::empty()
            &&& plan.next + 1 == snapshot.utxos@.len()
        },
        error is Height ==> snapshot.tip.height >= 500_000_000 || exists|i: int|
            0 <= i < snapshot.utxos@.len() && (#[trigger] snapshot.utxos@[i]).height
                % 0x1_0000_0000 >= 500_000_000,
        error is Database || error is Create ==> stage is ListingMempool
            || stage is FetchingMempool,
{
    let caches = old(generator).remembered()@;
    let after = final(generator).remembered()@;
    let network = btc_network_of(old(generator).settings().network);
    match (stage, event) {
        (Stage::CheckingTip(mempool, wallet, s), Event::BlockHashFetched(reply)) => {
            lemma_start_stops(
                *old(generator),
                caches.checking(snapshot.tip, reply),
                wallet,
                snapshot,
                mempool.txs@,
                now,
                after,
                next.0,
            );
        },
        (Stage::FillingWallet(mempool, plan), Event::BlockHashFetched(Some(hash))) => {
            lemma_plan_stops(
                *old(generator),
                plan@.remembering_block(caches, hash),
                plan@.accepting_block(hash),
                snapshot,
                mempool.txs@,
                now,
                after,
                next.0,
            );
        },
        (Stage::FillingWallet(mempool, plan), Event::TxFetched(reply)) => {
            lemma_plan_stops(
                *old(generator),
                plan@.remembering_parent(caches, shared(reply)),
                plan@.accepting_parent(shared(reply)),
                snapshot,
                mempool.txs@,
                now,
                after,
                next.0,
            );
            if reply is Some {
                assert(plan@.accepting_parent(shared(reply)).parents.contains_key(
                    snapshot.utxos@[plan.next as int].txid,
                ));
            }
        },
        (Stage::ListingMempool(_), _) => {
            lemma_wallet_stops(*old(generator), stage, event, now, after, next.0, snapshot);
        },
        (Stage::FetchingMempool(_, _), _) => {
            lemma_wallet_stops(*old(generator), stage, event, now, after, next.0, snapshot);
        },
        _ => {},
    }
}

/// Whether the reason for which there is no wallet fits a scan that nothing is asked for.
spec fn fits(snapshot: ConfirmedSnapshot, error: WalletError) -> bool {
    &&& !(error is BlockHash)
    &&& error is Height ==> snapshot.tip.height >= 500_000_000 || exists|i: int|
        0 <= i < snapshot.utxos@.len() && (#[trigger] snapshot.utxos@[i]).height % 0x1_0000_0000
            >= 500_000_000
}

/// Why a tick stops that has read the mempool.
proof fn lemma_wallet_stops(
    generator: TxGenerator,
    stage: Stage,
    event: Event,
    now: u64,
    caches_after: CachesView,
    stage_after: Stage,
    snapshot: ConfirmedSnapshot,
)
    requires
        stepped(generator, stage, event, now, caches_after, stage_after),
        stage_after matches Stage::Skipped(SkipReason::Wallet(_)),
        match stage {
            Stage::ListingMempool(s) => s == snapshot,
            Stage::FetchingMempool(s, _) => s == snapshot,
            _ => false,
        },
    ensures
        fits(snapshot, stage_after->Skipped_0->Wallet_0),
        !(stage_after->Skipped_0->Wallet_0 is NoParents),
{
    let network = btc_network_of(generator.settings().network);
    let (reading, cache) = reading_of(generator, stage, event);
    let read = reading.reusing(cache);
    let known = CachesView { mempool_txs: cache, ..generator.remembered()@ };
    let error = stage_after->Skipped_0->Wallet_0;
    if !(error is Database) && !(error is Create) {
        let wallet = choose|wallet: TickWallet| #[trigger]
            wallet.fresh(generator.external(), generator.internal(), network) && wallet_started(
                generator,
                known.noting(snapshot.tip),
                wallet,
                snapshot,
                read.txs,
                now,
                caches_after,
                stage_after,
            );
        lemma_start_stops(
            generator,
            known.noting(snapshot.tip),
            wallet,
            snapshot,
            read.txs,
            now,
            caches_after,
            stage_after,
        );
    }
}

/// Why a tick stops that begins with a fresh wallet.
proof fn lemma_start_stops(
    generator: TxGenerator,
    caches: CachesView,
    wallet: TickWallet,
    snapshot: ConfirmedSnapshot,
    txs: Seq<Arc<Transaction>>,
    now: u64,
    caches_after: CachesView,
    stage: Stage,
)
    requires
        wallet_started(generator, caches, wallet, snapshot, txs, now, caches_after, stage),
        stage matches Stage::Skipped(SkipReason::Wallet(_)),
    ensures
        fits(snapshot, stage->Skipped_0->Wallet_0),
        !(stage->Skipped_0->Wallet_0 is NoParents),
        !(stage->Skipped_0->Wallet_0 is Database),
        !(stage->Skipped_0->Wallet_0 is Create),
{
    if snapshot.utxos@.len() > 0 {
        let heights = choose|heights: Seq<u32>| #[trigger]
            are_heights(snapshot, heights) && plan_advanced(
                generator,
                caches,
                plan_begun(wallet, snapshot.tip, snapshot.utxos@, heights),
                txs,
                now,
                caches_after,
                stage,
            );
        lemma_plan_stops(
            generator,
            caches,
            plan_begun(wallet, snapshot.tip, snapshot.utxos@, heights),
            snapshot,
            txs,
            now,
            caches_after,
            stage,
        );
    }
}

/// Why a tick stops that fills a wallet.
proof fn lemma_plan_stops(
    generator: TxGenerator,
    caches: CachesView,
    plan: PlanView,
    snapshot: ConfirmedSnapshot,
    txs: Seq<Arc<Transaction>>,
    now: u64,
    caches_after: CachesView,
    stage: Stage,
)
    requires
        plan_advanced(generator, caches, plan, txs, now, caches_after, stage),
        stage matches Stage::Skipped(SkipReason::Wallet(_)),
        are_heights(snapshot, plan.heights),
        plan.utxos == snapshot.utxos@,
        plan.blocks.len() <= plan.heights.len(),
        0 <= plan.next <= plan.utxos.len(),
        forall|k: int|
            0 <= k < plan.blocks.len() ==> (#[trigger] plan.blocks[k]).height == plan.heights[k],
    ensures
        fits(snapshot, stage->Skipped_0->Wallet_0),
        stage->Skipped_0->Wallet_0 is NoParents ==> plan.next == plan.utxos.len() && plan.parents
            == Map::<Txid, Parent>::empty(),
        !(stage->Skipped_0->Wallet_0 is Database),
        !(stage->Skipped_0->Wallet_0 is Create),
{
    let reached = plan.reusing(caches);
    let error = stage->Skipped_0->Wallet_0;
    lemma_goes_on(plan, caches);
    assert(exists|made: Result<TickWallet, WalletError>| #[trigger] finished(reached, made) && made
        is Err && made->Err_0 == error);
    assert forall|k: int| 0 <= k < reached.blocks.len() implies (
    #[trigger] reached.blocks[k]).height == reached.heights[k] by {
        if k < plan.blocks.len() {
            assert(reached.blocks.take(plan.blocks.len() as int)[k] == plan.blocks[k]);
        }
    }
    if error is Height {
        lemma_blocks_by_height(reached.blocks);
        let height = choose|height: u32| reached.chain().contains_key(height) && !(height
            < 500_000_000);
        assert(reached.chain().contains_key(height));
        let k = choose|k: int|
            0 <= k < reached.blocks.len() && (#[trigger] reached.blocks[k]).height == height;
        assert(plan.heights.contains(plan.heights[k]));
        assert(needed(snapshot, height));
    }
    if error is NoParents {
        if plan.next < plan.utxos.len() {
            assert(reached.parents.contains_key(reached.utxos[plan.next].txid));
        }
        assert forall|txid: Txid| !plan.parents.contains_key(txid) by {
            if plan.parents.contains_key(txid) {
                assert(plan.parents.dom().contains(txid));
                assert(reached.parents.dom().contains(txid));
            }
        }
        assert(plan.parents =~= Map::<Txid, Parent>::empty());
    }
}

/// A tick can go on with an event exactly if it is the kind of reply that was asked for.
pub proof fn ticks_go_on_with_what_was_asked_for(
    generator: TxGenerator,
    stage: Stage,
    event: Event,
    fits: bool,
)
    requires
        stage_wf(generator, stage),
        call_ensures(TxGenerator::can_answer, (&generator, &stage, &event), fits),
    ensures
        fits <==> replies_to(stage, event),
{
}

} // verus!
