//! What becomes of the scan and of the mempool, said of the replies alone.

use crate::bdk::HEIGHT_LIMIT;
use crate::caches::CachesView;
use crate::config::btc_network_of;
use crate::course::lemma_built_of;
use crate::filling::lemma_goes_on;
use crate::generator::{
    are_heights, batch_begun, mempool_read, plan_advanced, shared, stage_wf, stepped,
    wallet_started, TxGenerator,
};
use crate::holding::{
    confirmable, lemma_confirmable_fit, lemma_found_rightly, lemma_ordinary_fit, ordinary,
};
use crate::laws::{
    disjoint, listed_ids, mempool_of, no_tick_builds_a_double_spend, reading_of,
    wallet_needs_the_whole_mempool,
};
use crate::mempool::{fetch_begun, FetchView, MempoolFetch, MempoolSnapshot};
use crate::plan::{empty_chain, filled, finished, plan_begun, Parent, PlanView};
use crate::scan::{ConfirmedSnapshot, ScanResult};
use crate::tick::{Action, Broadcast, Event, SkipReason, Stage};
use crate::tx::Transaction;
use crate::types::{BlockHash, ConfirmedKey, Txid};
use crate::wallet::{TickWallet, WalletError};
use std::sync::Arc;
use vstd::prelude::*;

verus! {

// ---------------------------------------------------------------------------------------
// The scan.
// ---------------------------------------------------------------------------------------

/// A tick goes on to the mempool with the outputs that the scan found, as the node gave them, and
/// with the tip of the scan. It is given up exactly if the scan could not be had or failed.
pub proof fn tick_goes_on_with_what_was_scanned(
    generator: &mut TxGenerator,
    reply: Option<ScanResult>,
    now: u64,
    next: (Stage, Action),
)
    requires
        call_ensures(
            TxGenerator::run_tick,
            (generator, Stage::Scanning, Event::Scanned(reply), now),
            next,
        ),
    ensures
        final(generator).remembered()@ == old(generator).remembered()@,
        reply is None || reply->0.success == Some(false) ==> (next.0 matches Stage::Skipped(
            SkipReason::Scan,
        )),
        reply is Some && reply->0.success != Some(false) ==> {
            &&& next.0 matches Stage::ListingMempool(snapshot)
            &&& next.1 is ListMempool
            &&& snapshot.utxos@ == reply->0.unspents@
            &&& reply->0.height is None ==> snapshot.tip.height == 0
            &&& reply->0.height matches Some(height) ==> snapshot.tip.height == height
                % 0x1_0000_0000
            &&& reply->0.best_block_hash is Some ==> snapshot.tip.hash
                == reply->0.best_block_hash->0
            &&& reply->0.best_block_hash is None ==> forall|i: int|
                0 <= i < 32 ==> snapshot.tip.hash.bytes@[i] == 0
        },
{
}

/// A tick is given up for the scan only where it scans.
pub proof fn scan_stops_a_tick_only_at_its_start(
    generator: &mut TxGenerator,
    stage: Stage,
    event: Event,
    now: u64,
    next: (Stage, Action),
)
    requires
        stage_wf(*old(generator), stage),
        replies_to(stage, event),
        call_ensures(TxGenerator::run_tick, (generator, stage, event, now), next),
    ensures
        next.0 matches Stage::Skipped(SkipReason::Scan) ==> stage is Scanning,
        next.0 matches Stage::Skipped(SkipReason::Injection(_)) ==> !(stage is Scanning)
            && !(stage is Broadcasting),
        !(next.0 is Scanning),
        next.0 is ListingMempool ==> stage is Scanning,
        stage is Broadcasting ==> next.0 is Broadcasting,
{
}

/// A tick that is given up asks for nothing any more and comes to nothing.
pub proof fn skipped_tick_comes_to_nothing(
    generator: &mut TxGenerator,
    stage: Stage,
    event: Event,
    now: u64,
    next: (Stage, Action),
)
    requires
        call_ensures(TxGenerator::run_tick, (generator, stage, event, now), next),
        next.0 is Skipped,
    ensures
        next.1 matches Action::Finish(outcome) && outcome.built == 0 && outcome.broadcast == 0
            && outcome.skipped,
{
}

/// What is set up stays as it is through every step.
pub proof fn setup_never_changes(
    generator: &mut TxGenerator,
    stage: Stage,
    event: Event,
    now: u64,
    next: (Stage, Action),
)
    requires
        call_ensures(TxGenerator::run_tick, (generator, stage, event, now), next),
    ensures
        final(generator).settings() == old(generator).settings(),
        final(generator).external() == old(generator).external(),
        final(generator).internal() == old(generator).internal(),
        final(generator).sender() == old(generator).sender(),
        final(generator).receiver() == old(generator).receiver(),
        final(generator).change() == old(generator).change(),
{
}

// ---------------------------------------------------------------------------------------
// The mempool.
// ---------------------------------------------------------------------------------------

/// A reading goes on out of a cache to the first id that is not cached.
pub proof fn lemma_reads_on(fetch: FetchView, cache: Map<Txid, Arc<Transaction>>)
    requires
        0 <= fetch.next <= fetch.txids.len(),
    ensures
        ({
            let read = fetch.reusing(cache);
            &&& read.txids == fetch.txids
            &&& read.complete == fetch.complete
            &&& fetch.next <= read.next <= fetch.txids.len()
            &&& forall|i: int|
                fetch.next <= i < read.next ==> cache.contains_key(#[trigger] fetch.txids[i])
            &&& read.next < fetch.txids.len() ==> !cache.contains_key(fetch.txids[read.next])
            &&& read.txs == fetch.txs + Seq::new(
                (read.next - fetch.next) as nat,
                |i: int| cache[fetch.txids[fetch.next + i]],
            )
            &&& read.fetched == fetch.fetched
            &&& read.reused == fetch.reused + (read.next - fetch.next)
        }),
    decreases fetch.txids.len() - fetch.next,
{
    let read = fetch.reusing(cache);
    let more = Seq::new(
        (read.next - fetch.next) as nat,
        |i: int| cache[fetch.txids[fetch.next + i]],
    );
    if fetch.next < fetch.txids.len() && cache.contains_key(fetch.txids[fetch.next]) {
        let step = FetchView {
            next: fetch.next + 1,
            txs: fetch.txs.push(cache[fetch.txids[fetch.next]]),
            reused: fetch.reused + 1,
            ..fetch
        };
        lemma_reads_on(step, cache);
        assert(read.txs =~= fetch.txs + more);
    } else {
        assert(read.txs =~= fetch.txs + more);
    }
}

/// Without a list of the mempool the tick is given up, and nothing is forgotten.
pub proof fn mempool_has_to_be_listed(
    generator: &mut TxGenerator,
    snapshot: ConfirmedSnapshot,
    now: u64,
    next: (Stage, Action),
)
    requires
        call_ensures(
            TxGenerator::run_tick,
            (generator, Stage::ListingMempool(snapshot), Event::MempoolListed(None), now),
            next,
        ),
    ensures
        next.0 matches Stage::Skipped(SkipReason::Mempool),
        final(generator).remembered()@ == old(generator).remembered()@,
{
}

/// Once the mempool is listed, what has left it is forgotten, and nothing else of it. The first
/// transaction that is not remembered is asked for.
pub proof fn first_unknown_transaction_is_asked_for(
    generator: &mut TxGenerator,
    snapshot: ConfirmedSnapshot,
    txids: Vec<Txid>,
    now: u64,
    next: (Stage, Action),
    same: ConfirmedSnapshot,
    fetch: MempoolFetch,
)
    requires
        call_ensures(
            TxGenerator::run_tick,
            (generator, Stage::ListingMempool(snapshot), Event::MempoolListed(Some(txids)), now),
            next,
        ),
        next.0 == Stage::FetchingMempool(same, fetch),
    ensures
        same == snapshot,
        fetch.txids@ == txids@,
        fetch.next < txids@.len(),
        next.1 == Action::FetchTx(txids@[fetch.next as int], None),
        ({
            let before = old(generator).remembered()@;
            let after = final(generator).remembered()@;
            &&& after.scan_tip == before.scan_tip
            &&& after.block_hashes == before.block_hashes
            &&& after.confirmed_txs == before.confirmed_txs
            &&& forall|txid: Txid| #[trigger]
                after.mempool_txs.contains_key(txid) <==> before.mempool_txs.contains_key(txid)
                    && txids@.contains(txid)
            &&& forall|txid: Txid| #[trigger]
                after.mempool_txs.contains_key(txid) ==> after.mempool_txs[txid]
                    == before.mempool_txs[txid]
            &&& forall|i: int|
                0 <= i < fetch.next ==> after.mempool_txs.contains_key(#[trigger] txids@[i])
                    && fetch.snapshot.txs@[i] == after.mempool_txs[txids@[i]]
            &&& !after.mempool_txs.contains_key(txids@[fetch.next as int])
        }),
        fetch.snapshot.complete,
        fetch.snapshot.txs@.len() == fetch.next,
        fetch.fetched == 0,
        fetch.reused == fetch.next,
{
    lemma_reads_on(fetch_begun(txids@), final(generator).remembered()@.mempool_txs);
}

/// With each reply the transaction is remembered under the id for which it was asked, and the next
/// that is not remembered is asked for. One that the node could not give leaves a gap in what is
/// known of the mempool, which nothing fills.
pub proof fn next_unknown_transaction_is_asked_for(
    generator: &mut TxGenerator,
    snapshot: ConfirmedSnapshot,
    fetch: MempoolFetch,
    reply: Option<Transaction>,
    now: u64,
    next: (Stage, Action),
    same: ConfirmedSnapshot,
    later: MempoolFetch,
)
    requires
        stage_wf(*old(generator), Stage::FetchingMempool(snapshot, fetch)),
        call_ensures(
            TxGenerator::run_tick,
            (generator, Stage::FetchingMempool(snapshot, fetch), Event::TxFetched(reply), now),
            next,
        ),
        next.0 == Stage::FetchingMempool(same, later),
    ensures
        same == snapshot,
        later.txids@ == fetch.txids@,
        fetch.next < later.next < fetch.txids@.len(),
        next.1 == Action::FetchTx(fetch.txids@[later.next as int], None),
        later.snapshot.complete <==> fetch.snapshot.complete && reply is Some,
        ({
            let before = old(generator).remembered()@;
            let after = final(generator).remembered()@;
            let asked = fetch.txids@[fetch.next as int];
            &&& after.scan_tip == before.scan_tip
            &&& after.block_hashes == before.block_hashes
            &&& after.confirmed_txs == before.confirmed_txs
            &&& reply is None ==> after.mempool_txs == before.mempool_txs
            &&& reply matches Some(tx) ==> after.mempool_txs == before.mempool_txs.insert(
                asked,
                Arc::new(tx),
            )
            &&& forall|i: int|
                fetch.next < i < later.next ==> after.mempool_txs.contains_key(
                    #[trigger] fetch.txids@[i],
                )
            &&& !after.mempool_txs.contains_key(fetch.txids@[later.next as int])
            &&& later.snapshot.complete ==> later.snapshot.txs@.len() == later.next && forall|
                i: int,
            |
                0 <= i < later.next ==> after.mempool_txs.contains_key(#[trigger] fetch.txids@[i])
                    && later.snapshot.txs@[i] == after.mempool_txs[fetch.txids@[i]]
        }),
        later.fetched == fetch.fetched + if reply is Some {
            1int
        } else {
            0
        },
        later.reused == fetch.reused + (later.next - fetch.next - 1),
{
    let cache = final(generator).remembered()@.mempool_txs;
    let reading = fetch@.accepting(shared(reply));
    lemma_reads_on(reading, cache);
    assert forall|i: int| fetch.next < i < later.next implies cache.contains_key(
        #[trigger] fetch.txids@[i],
    ) by {
        assert(reading.txids[i] == fetch.txids@[i]);
    }
}

/// Whether an event is of the kind that a stage waits for.
pub open spec fn replies_to(stage: Stage, event: Event) -> bool {
    match stage {
        Stage::Scanning => event is Scanned,
        Stage::ListingMempool(_) => event is MempoolListed,
        Stage::FetchingMempool(_, _) => event is TxFetched,
        Stage::CheckingTip(_, _, _) => event is BlockHashFetched,
        Stage::FillingWallet(_, plan) => if plan.blocks@.len() < plan.heights@.len() {
            event is BlockHashFetched
        } else {
            event is TxFetched
        },
        Stage::Broadcasting(broadcast) => event is Broadcast && broadcast.next
            < broadcast.txs@.len(),
        Stage::Skipped(_) => false,
    }
}

/// The ids of the mempool, by the list that the node has given.
pub open spec fn ids_listed(stage: Stage, event: Event) -> Seq<Txid> {
    match stage {
        Stage::FetchingMempool(_, fetch) => fetch.txids@,
        _ => match event {
            Event::MempoolListed(Some(txids)) => txids@,
            _ => Seq::empty(),
        },
    }
}

/// A tick goes on from the mempool to a wallet only with every transaction that the node listed: it
/// remembers them all and no others, and hands them to the wallet in the order of the list. With a
/// gap it is given up.
pub proof fn wallet_is_handed_the_whole_mempool(
    generator: &mut TxGenerator,
    stage: Stage,
    event: Event,
    now: u64,
    next: (Stage, Action),
)
    requires
        old(generator).wf(),
        stage_wf(*old(generator), stage),
        stage is ListingMempool || stage is FetchingMempool,
        replies_to(stage, event),
        call_ensures(TxGenerator::run_tick, (generator, stage, event, now), next),
        !(next.0 is FetchingMempool),
        !(next.0 matches Stage::Skipped(SkipReason::Mempool)),
    ensures
        ({
            let ids = ids_listed(stage, event);
            let known = final(generator).remembered()@.mempool_txs;
            &&& forall|txid: Txid| #[trigger] known.contains_key(txid) <==> ids.contains(txid)
            &&& next.0 matches Stage::CheckingTip(mempool, _, _) ==> mempool.txs@.len() == ids.len()
                && forall|i: int|
                0 <= i < ids.len() ==> #[trigger] mempool.txs@[i] == known[ids[i]]
            &&& next.0 matches Stage::FillingWallet(mempool, _) ==> mempool.txs@.len() == ids.len()
                && forall|i: int|
                0 <= i < ids.len() ==> #[trigger] mempool.txs@[i] == known[ids[i]]
            &&& next.0 matches Stage::Broadcasting(broadcast) ==> broadcast.report.injected
                == ids.len()
        }),
        stage matches Stage::FetchingMempool(_, fetch) ==> fetch.snapshot.complete
            && event->TxFetched_0 is Some,
        stage is ListingMempool ==> event->MempoolListed_0 is Some,
{
    let caches = final(generator).remembered()@;
    let ids = ids_listed(stage, event);
    wallet_needs_the_whole_mempool(*old(generator), stage, event, now, caches, next.0);
    assert(ids == listed_ids(stage, event));
    assert forall|txid: Txid| #[trigger] caches.mempool_txs.contains_key(txid) <==> ids.contains(
        txid,
    ) by {
        assert(caches.mempool_txs.dom().contains(txid) == ids.to_set().contains(txid));
    }
    if let Stage::FetchingMempool(_, fetch) = stage {
        let reading = fetch@.accepting(shared(event->TxFetched_0));
        let reply = shared(event->TxFetched_0);
        lemma_reads_on(
            reading,
            fetch@.remembering(old(generator).remembered()@.mempool_txs, reply),
        );
    } else {
        lemma_reads_on(
            fetch_begun(ids),
            old(generator).remembered()@.mempool_txs.restrict(ids.to_set()),
        );
    }
}

/// A tick is given up for the mempool only if the list or a transaction of it could not be had.
pub proof fn mempool_stops_a_tick_only_for_a_gap(
    generator: &mut TxGenerator,
    stage: Stage,
    event: Event,
    now: u64,
    next: (Stage, Action),
)
    requires
        stage_wf(*old(generator), stage),
        replies_to(stage, event),
        call_ensures(TxGenerator::run_tick, (generator, stage, event, now), next),
        next.0 matches Stage::Skipped(SkipReason::Mempool),
    ensures
        stage is ListingMempool || stage is FetchingMempool,
        stage is ListingMempool ==> event->MempoolListed_0 is None,
        stage matches Stage::FetchingMempool(_, fetch) ==> !fetch.snapshot.complete
            || event->TxFetched_0 is None,
{
    match (stage, event) {
        (Stage::FetchingMempool(_, fetch), Event::TxFetched(reply)) => lemma_reads_on(
            fetch@.accepting(shared(reply)),
            fetch@.remembering(old(generator).remembered()@.mempool_txs, shared(reply)),
        ),
        (Stage::ListingMempool(_), Event::MempoolListed(Some(txids))) => lemma_reads_on(
            fetch_begun(txids@),
            old(generator).remembered()@.mempool_txs.restrict(txids@.to_set()),
        ),
        _ => {},
    }
}

// ---------------------------------------------------------------------------------------
// The tip.
// ---------------------------------------------------------------------------------------

/// What becomes of confirmed blocks and transactions that are remembered when a scan brings a tip.
/// If the tip is higher than the last and something is remembered, the node is asked for the block
/// at the height of the last. If it is lower, or another block at the same height, nothing of them
/// is remembered any more. Else they stay. The tip is remembered in place of the last.
pub proof fn confirmed_data_goes_with_its_tip(
    generator: &mut TxGenerator,
    stage: Stage,
    event: Event,
    now: u64,
    next: (Stage, Action),
    snapshot: ConfirmedSnapshot,
)
    requires
        call_ensures(TxGenerator::run_tick, (generator, stage, event, now), next),
        match stage {
            Stage::ListingMempool(s) => s == snapshot,
            Stage::FetchingMempool(s, _) => s == snapshot,
            _ => false,
        },
        !(next.0 is FetchingMempool),
        !(next.0 matches Stage::Skipped(SkipReason::Mempool)),
        !(next.0 matches Stage::Skipped(SkipReason::Wallet(WalletError::Database(_)))),
        !(next.0 matches Stage::Skipped(SkipReason::Wallet(WalletError::Create(_)))),
    ensures
        ({
            let before = old(generator).remembered()@;
            let after = final(generator).remembered()@;
            let tip = snapshot.tip;
            let higher = before.scan_tip is Some && before.scan_tip->0.height < tip.height;
            let lost = before.scan_tip is Some && (tip.height < before.scan_tip->0.height || (
            tip.height == before.scan_tip->0.height && tip.hash != before.scan_tip->0.hash));
            let held = before.block_hashes != Map::<u32, BlockHash>::empty() || before.confirmed_txs
                != Map::<ConfirmedKey, Arc<Transaction>>::empty();
            &&& higher && held ==> {
                &&& next.0 matches Stage::CheckingTip(_, _, same)
                &&& same == snapshot
                &&& next.1 == Action::FetchBlockHash(before.scan_tip->0.height)
                &&& after.scan_tip == before.scan_tip
                &&& after.block_hashes == before.block_hashes
                &&& after.confirmed_txs == before.confirmed_txs
            }
            &&& !(higher && held) ==> {
                &&& !(next.0 is CheckingTip)
                &&& after.scan_tip == Some(tip)
                &&& lost ==> after.block_hashes == Map::<u32, BlockHash>::empty()
                    && after.confirmed_txs == Map::<ConfirmedKey, Arc<Transaction>>::empty()
                &&& !lost ==> after.block_hashes == before.block_hashes && after.confirmed_txs
                    == before.confirmed_txs
            }
        }),
{
}

/// Confirmed blocks and transactions that are remembered stay exactly if the node still has the
/// last tip at its height. The tip of the scan is remembered in place of the last.
pub proof fn confirmed_data_stays_only_with_the_last_tip(
    generator: &mut TxGenerator,
    mempool: MempoolSnapshot,
    wallet: TickWallet,
    snapshot: ConfirmedSnapshot,
    reply: Option<BlockHash>,
    now: u64,
    next: (Stage, Action),
)
    requires
        stage_wf(*old(generator), Stage::CheckingTip(mempool, wallet, snapshot)),
        call_ensures(
            TxGenerator::run_tick,
            (
                generator,
                Stage::CheckingTip(mempool, wallet, snapshot),
                Event::BlockHashFetched(reply),
                now,
            ),
            next,
        ),
    ensures
        ({
            let before = old(generator).remembered()@;
            let after = final(generator).remembered()@;
            &&& !(next.0 is CheckingTip)
            &&& before.scan_tip is Some
            &&& before.scan_tip->0.height < snapshot.tip.height
            &&& after.scan_tip == Some(snapshot.tip)
            &&& after.mempool_txs == before.mempool_txs
            &&& reply == Some(before.scan_tip->0.hash) ==> after.block_hashes == before.block_hashes
                && after.confirmed_txs == before.confirmed_txs
            &&& reply != Some(before.scan_tip->0.hash) ==> after.block_hashes == Map::<
                u32,
                BlockHash,
            >::empty() && after.confirmed_txs == Map::<ConfirmedKey, Arc<Transaction>>::empty()
        }),
{
}

/// Whether confirmed data is remembered says whether any block or transaction is.
pub proof fn confirmed_data_is_blocks_and_transactions(generator: TxGenerator, held: bool)
    requires
        call_ensures(TxGenerator::holds_confirmed, (&generator,), held),
    ensures
        held <==> generator.remembered()@.block_hashes != Map::<u32, BlockHash>::empty()
            || generator.remembered()@.confirmed_txs != Map::<
            ConfirmedKey,
            Arc<Transaction>,
        >::empty(),
{
}

// ---------------------------------------------------------------------------------------
// What stops a tick.
// ---------------------------------------------------------------------------------------

/// Whether transactions are each remembered under their own id, and such as a block can hold.
pub open spec fn remembered_rightly(confirmed: Map<ConfirmedKey, Arc<Transaction>>) -> bool {
    forall|key: ConfirmedKey| #[trigger]
        confirmed.contains_key(key) ==> confirmed[key]@.txid == key.txid && confirmable(
            confirmed[key]@,
        )
}

/// Whether transactions were each found under their own id, and are such as a block can hold.
pub open spec fn found_in_order(parents: Map<Txid, Parent>) -> bool {
    forall|txid: Txid| #[trigger]
        parents.contains_key(txid) ==> parents[txid].tx@.txid == txid && confirmable(
            parents[txid].tx@,
        )
}

/// As long as the node gives for each output a transaction of its id that a block can hold, and its
/// mempool has nothing but ordinary transactions, no transaction stops a tick: the wallet takes all
/// of them in. What is remembered stays such.
pub proof fn ordinary_transactions_never_stop_a_tick(
    generator: &mut TxGenerator,
    stage: Stage,
    event: Event,
    now: u64,
    next: (Stage, Action),
)
    requires
        old(generator).wf(),
        stage_wf(*old(generator), stage),
        replies_to(stage, event),
        call_ensures(TxGenerator::run_tick, (generator, stage, event, now), next),
        remembered_rightly(old(generator).remembered()@.confirmed_txs),
        stage matches Stage::FillingWallet(_, plan) ==> {
            &&& found_in_order(plan.parents@)
            &&& event matches Event::TxFetched(Some(tx)) ==> tx@.txid
                == plan.snapshot.utxos@[plan.next as int].txid && confirmable(tx@)
        },
        match stage {
            Stage::CheckingTip(mempool, _, _) => forall|k: int|
                0 <= k < mempool.txs@.len() ==> ordinary((#[trigger] mempool.txs@[k])@),
            Stage::FillingWallet(mempool, _) => forall|k: int|
                0 <= k < mempool.txs@.len() ==> ordinary((#[trigger] mempool.txs@[k])@),
            _ => forall|txid: Txid| #[trigger]
                final(generator).remembered()@.mempool_txs.contains_key(txid) ==> ordinary(
                    final(generator).remembered()@.mempool_txs[txid]@,
                ),
        },
    ensures
        !(next.0 matches Stage::Skipped(SkipReason::Injection(_))),
        !(next.0 matches Stage::Skipped(SkipReason::Wallet(WalletError::Unfit))),
        remembered_rightly(final(generator).remembered()@.confirmed_txs),
        next.0 matches Stage::FillingWallet(_, plan) ==> found_in_order(plan.parents@),
{
    let caches = old(generator).remembered()@;
    let after = final(generator).remembered()@;
    match (stage, event) {
        (Stage::CheckingTip(mempool, wallet, snapshot), Event::BlockHashFetched(reply)) => {
            lemma_start_goes_through(
                *old(generator),
                caches.checking(snapshot.tip, reply),
                wallet,
                snapshot,
                mempool.txs@,
                now,
                after,
                next.0,
            );
        },
        (Stage::FillingWallet(mempool, plan), Event::BlockHashFetched(Some(hash))) => {
            lemma_plan_goes_through(
                *old(generator),
                plan@.remembering_block(caches, hash),
                plan@.accepting_block(hash),
                mempool.txs@,
                now,
                after,
                next.0,
            );
        },
        (Stage::FillingWallet(mempool, plan), Event::TxFetched(reply)) => {
            lemma_plan_goes_through(
                *old(generator),
                plan@.remembering_parent(caches, shared(reply)),
                plan@.accepting_parent(shared(reply)),
                mempool.txs@,
                now,
                after,
                next.0,
            );
        },
        (Stage::ListingMempool(snapshot), Event::MempoolListed(Some(txids))) => {
            let cache = caches.mempool_txs.restrict(txids@.to_set());
            lemma_reads_on(fetch_begun(txids@), cache);
            lemma_mempool_goes_through(
                *old(generator),
                CachesView { mempool_txs: cache, ..caches },
                snapshot,
                fetch_begun(txids@),
                now,
                after,
                next.0,
            );
        },
        (Stage::FetchingMempool(snapshot, fetch), Event::TxFetched(reply)) => {
            let cache = fetch@.remembering(caches.mempool_txs, shared(reply));
            lemma_mempool_goes_through(
                *old(generator),
                CachesView { mempool_txs: cache, ..caches },
                snapshot,
                fetch@.accepting(shared(reply)),
                now,
                after,
                next.0,
            );
        },
        _ => {},
    }
}

/// With ordinary transactions in the mempool, its reading does not stop a tick but for a gap.
proof fn lemma_mempool_goes_through(
    generator: TxGenerator,
    caches: CachesView,
    snapshot: ConfirmedSnapshot,
    fetch: FetchView,
    now: u64,
    caches_after: CachesView,
    stage: Stage,
)
    requires
        mempool_read(generator, caches, snapshot, fetch, now, caches_after, stage),
        0 <= fetch.next <= fetch.txids.len(),
        fetch.complete ==> fetch.covers(caches.mempool_txs),
        remembered_rightly(caches.confirmed_txs),
        forall|txid: Txid| #[trigger]
            caches_after.mempool_txs.contains_key(txid) ==> ordinary(
                caches_after.mempool_txs[txid]@,
            ),
    ensures
        goes_through(caches_after, stage),
{
    let read = fetch.reusing(caches.mempool_txs);
    lemma_reads_on(fetch, caches.mempool_txs);
    if read.awaited() is None && read.complete {
        let txs = read.txs;
        assert(caches_after.mempool_txs == caches.mempool_txs);
        assert forall|k: int| 0 <= k < txs.len() implies ordinary((#[trigger] txs[k])@) by {
            assert(caches_after.mempool_txs.contains_key(fetch.txids[k]));
            if k < fetch.next {
                assert(fetch.txs[k] == caches.mempool_txs[fetch.txids[k]]);
            }
        }
        let network = btc_network_of(generator.settings().network);
        if !caches.in_doubt(snapshot.tip) && exists|wallet: TickWallet| #[trigger]
            wallet.fresh(generator.external(), generator.internal(), network) && wallet_started(
                generator,
                caches.noting(snapshot.tip),
                wallet,
                snapshot,
                txs,
                now,
                caches_after,
                stage,
            ) {
            let wallet = choose|wallet: TickWallet| #[trigger]
                wallet.fresh(generator.external(), generator.internal(), network) && wallet_started(
                    generator,
                    caches.noting(snapshot.tip),
                    wallet,
                    snapshot,
                    txs,
                    now,
                    caches_after,
                    stage,
                );
            lemma_start_goes_through(
                generator,
                caches.noting(snapshot.tip),
                wallet,
                snapshot,
                txs,
                now,
                caches_after,
                stage,
            );
        }
    }
}

/// Whether no transaction stops a tick, and what is remembered and found is in order.
pub open spec fn goes_through(caches: CachesView, stage: Stage) -> bool {
    &&& !(stage matches Stage::Skipped(SkipReason::Injection(_)))
    &&& !(stage matches Stage::Skipped(SkipReason::Wallet(WalletError::Unfit)))
    &&& remembered_rightly(caches.confirmed_txs)
    &&& stage matches Stage::FillingWallet(_, plan) ==> found_in_order(plan.parents@)
}

/// With ordinary transactions, no transaction stops a tick that begins with a fresh wallet.
proof fn lemma_start_goes_through(
    generator: TxGenerator,
    caches: CachesView,
    wallet: TickWallet,
    snapshot: ConfirmedSnapshot,
    txs: Seq<Arc<Transaction>>,
    now: u64,
    caches_after: CachesView,
    stage: Stage,
)
    requires
        wallet_started(generator, caches, wallet, snapshot, txs, now, caches_after, stage),
        remembered_rightly(caches.confirmed_txs),
        forall|k: int| 0 <= k < txs.len() ==> ordinary((#[trigger] txs[k])@),
    ensures
        goes_through(caches_after, stage),
{
    if snapshot.utxos@.len() == 0 {
        if snapshot.tip.height < HEIGHT_LIMIT {
            let network = btc_network_of(generator.settings().network);
            let none = Map::<Txid, Parent>::empty();
            let ready = choose|ready: TickWallet| #[trigger]
                filled(
                    wallet,
                    empty_chain(network, snapshot.tip),
                    snapshot.utxos@,
                    none,
                    ready,
                ) && batch_begun(generator, ready, txs, now, stage);
            lemma_found_rightly(snapshot.utxos@, none);
            lemma_ordinary_fit(ready, txs);
        }
    } else {
        let heights = choose|heights: Seq<u32>| #[trigger]
            are_heights(snapshot, heights) && plan_advanced(
                generator,
                caches,
                plan_begun(wallet, snapshot.tip, snapshot.utxos@, heights),
                txs,
                now,
                caches_after,
                stage,
            );
        lemma_plan_goes_through(
            generator,
            caches,
            plan_begun(wallet, snapshot.tip, snapshot.utxos@, heights),
            txs,
            now,
            caches_after,
            stage,
        );
    }
}

/// With ordinary transactions, no transaction stops a tick that fills a wallet.
proof fn lemma_plan_goes_through(
    generator: TxGenerator,
    caches: CachesView,
    plan: PlanView,
    txs: Seq<Arc<Transaction>>,
    now: u64,
    caches_after: CachesView,
    stage: Stage,
)
    requires
        plan_advanced(generator, caches, plan, txs, now, caches_after, stage),
        plan.blocks.len() <= plan.heights.len(),
        0 <= plan.next <= plan.utxos.len(),
        remembered_rightly(caches.confirmed_txs),
        found_in_order(plan.parents),
        forall|k: int| 0 <= k < txs.len() ==> ordinary((#[trigger] txs[k])@),
    ensures
        goes_through(caches_after, stage),
{
    let reached = plan.reusing(caches);
    lemma_goes_on(plan, caches);
    assert forall|txid: Txid| #[trigger] reached.parents.contains_key(txid) implies
        reached.parents[txid].tx@.txid == txid && confirmable(reached.parents[txid].tx@) by {
        if plan.parents.contains_key(txid) && reached.parents[txid] == plan.parents[txid] {
        } else {
            let key = ConfirmedKey { txid, block: reached.parents[txid].block.hash };
            assert(caches.confirmed_txs.contains_key(key));
        }
    }
    if reached.missing() is None {
        let made = choose|made: Result<TickWallet, WalletError>| #[trigger]
            finished(reached, made) && match made {
                Ok(wallet) => batch_begun(generator, wallet, txs, now, stage),
                Err(error) => stage matches Stage::Skipped(SkipReason::Wallet(e)) && e == error,
            };
        lemma_confirmable_fit(reached.utxos, reached.parents);
        if let Ok(wallet) = made {
            lemma_ordinary_fit(wallet, txs);
        }
    }
}

// ---------------------------------------------------------------------------------------
// Double spends.
// ---------------------------------------------------------------------------------------

/// Whatever the node replies, no transaction that a tick comes to broadcast spends an output that
/// another of them spends, or that a transaction of the mempool spends.
pub proof fn broadcast_spends_nothing_twice(
    generator: &mut TxGenerator,
    stage: Stage,
    event: Event,
    now: u64,
    next: (Stage, Action),
    first: Broadcast,
)
    requires
        old(generator).wf(),
        stage_wf(*old(generator), stage),
        replies_to(stage, event),
        call_ensures(TxGenerator::run_tick, (generator, stage, event, now), next),
        !(stage is Broadcasting),
        next.0 == Stage::Broadcasting(first),
    ensures
        forall|j: int, k: int, a: int, b: int|
            #![trigger first.txs@[j]@.inputs[a], first.txs@[k]@.inputs[b]]
            0 <= j < first.txs@.len() && 0 <= k < first.txs@.len() && 0 <= a
                < first.txs@[j]@.inputs.len() && 0 <= b < first.txs@[k]@.inputs.len() && (j != k
                || a != b) ==> first.txs@[j]@.inputs[a] != first.txs@[k]@.inputs[b],
        match stage {
            Stage::CheckingTip(mempool, _, _) => spends_nothing_of(first.txs@, mempool.txs@),
            Stage::FillingWallet(mempool, _) => spends_nothing_of(first.txs@, mempool.txs@),
            _ => spends_nothing_of(
                first.txs@,
                Seq::new(
                    ids_listed(stage, event).len(),
                    |i: int|
                        final(generator).remembered()@.mempool_txs[ids_listed(stage, event)[i]],
                ),
            ),
        },
{
    let caches = final(generator).remembered()@;
    no_tick_builds_a_double_spend(*old(generator), stage, event, now, caches, first);
    lemma_inputs_once(*old(generator), stage, event, now, caches, first);
    let mempool = mempool_of(*old(generator), stage, event);
    assert forall|j: int, k: int, a: int, b: int|
        #![trigger first.txs@[j]@.inputs[a], first.txs@[k]@.inputs[b]]
        0 <= j < first.txs@.len() && 0 <= k < first.txs@.len() && 0 <= a
            < first.txs@[j]@.inputs.len() && 0 <= b < first.txs@[k]@.inputs.len() && (j != k || a
            != b) implies first.txs@[j]@.inputs[a] != first.txs@[k]@.inputs[b] by {
        let one = first.txs@[j]@;
        let other = first.txs@[k]@;
        assert(one.inputs.contains(one.inputs[a]));
        assert(other.inputs.contains(other.inputs[b]));
        if j < k {
            assert(disjoint(first.txs@[j]@, first.txs@[k]@));
        } else if k < j {
            assert(disjoint(first.txs@[k]@, first.txs@[j]@));
        } else {
            assert(first.txs@[j]@.inputs.no_duplicates());
        }
    }
    assert(spends_nothing_of(first.txs@, mempool)) by {
        assert forall|k: int, m: int, a: int, b: int|
            #![trigger first.txs@[k]@.inputs[a], mempool[m]@.inputs[b]]
            0 <= k < first.txs@.len() && 0 <= m < mempool.len() && 0 <= a
                < first.txs@[k]@.inputs.len() && 0 <= b < mempool[m]@.inputs.len() implies
            first.txs@[k]@.inputs[a] != mempool[m]@.inputs[b] by {
            assert(disjoint(first.txs@[k]@, mempool[m]@));
            assert(first.txs@[k]@.inputs.contains(first.txs@[k]@.inputs[a]));
            assert(mempool[m]@.inputs.contains(mempool[m]@.inputs[b]));
        }
    }
    if stage is ListingMempool || stage is FetchingMempool {
        let ids = ids_listed(stage, event);
        let (reading, cache) = reading_of(*old(generator), stage, event);
        lemma_reads_on(reading, cache);
        assert(mempool =~= Seq::new(ids.len(), |i: int| caches.mempool_txs[ids[i]])) by {
            assert forall|i: int| 0 <= i < ids.len() implies mempool[i]
                == caches.mempool_txs[ids[i]] by {
                if i < reading.next {
                    if let Stage::FetchingMempool(_, fetch) = stage {
                        if i < fetch.next {
                            assert(fetch@.txs[i] == old(generator).remembered()@.mempool_txs[
                                fetch@.txids[i]]);
                        }
                    }
                }
            }
        }
    }
}

/// Whether some transactions spend nothing that others spend.
pub open spec fn spends_nothing_of(
    txs: Seq<Arc<Transaction>>,
    others: Seq<Arc<Transaction>>,
) -> bool {
    forall|k: int, m: int, a: int, b: int|
        #![trigger txs[k]@.inputs[a], others[m]@.inputs[b]]
        0 <= k < txs.len() && 0 <= m < others.len() && 0 <= a < txs[k]@.inputs.len() && 0 <= b
            < others[m]@.inputs.len() ==> txs[k]@.inputs[a] != others[m]@.inputs[b]
}

/// No transaction that a tick comes to broadcast spends an output twice.
proof fn lemma_inputs_once(
    generator: TxGenerator,
    stage: Stage,
    event: Event,
    now: u64,
    caches_after: CachesView,
    first: Broadcast,
)
    requires
        stepped(generator, stage, event, now, caches_after, Stage::Broadcasting(first)),
        !(stage is Broadcasting),
    ensures
        forall|k: int|
            0 <= k < first.txs@.len() ==> (#[trigger] first.txs@[k])@.inputs.no_duplicates(),
{
    assert forall|k: int| 0 <= k < first.txs@.len() implies (
    #[trigger] first.txs@[k])@.inputs.no_duplicates() by {
        lemma_built_of(first.attempts@, k);
    }
}

} // verus!
