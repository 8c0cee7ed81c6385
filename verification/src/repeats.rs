//! What holds of doing a thing twice: of a second reading of the same mempool, and of a second
//! wallet for the same scan.

use crate::bdk::{distinct, output_at, total_value};
use crate::caches::CachesView;
use crate::config::btc_network_of;
use crate::generator::{answers, shared, stage_wf, stepped, took_in, wallet_started, TxGenerator};
use crate::mempool::{fetch_begun, FetchView, MempoolFetch};
use crate::plan::{
    blocks_from, finished, found_rightly, ids_found, known_hash, lemma_ids_found, parent_key,
    parents_from, plan_begun, txs_found, Missing, PlanView,
};
use crate::scan::{ConfirmedSnapshot, Utxo};
use crate::tick::{Event, SkipReason, Stage};
use crate::tx::{Transaction, TransactionView};
use crate::types::{BlockHash, BlockId, ConfirmedKey, Txid};
use crate::wallet::{lemma_listed_once, TickWallet, WalletError};
use std::sync::Arc;
use vstd::prelude::*;

verus! {

// ---------------------------------------------------------------------------------------
// The mempool.
// ---------------------------------------------------------------------------------------

/// What comes of a reading of the mempool.
pub struct Reading {
    /// Where it ends.
    pub fetch: FetchView,
    /// What is cached then.
    pub cache: Map<Txid, Arc<Transaction>>,
    /// What the node was asked for.
    pub asked: Seq<Txid>,
}

/// A reading of the mempool to its end, with a node that answers each request as told.
pub open spec fn read_out(
    fetch: FetchView,
    cache: Map<Txid, Arc<Transaction>>,
    node: spec_fn(Txid) -> Option<Arc<Transaction>>,
) -> Reading
    decreases fetch.txids.len() - fetch.next,
{
    if 0 <= fetch.next < fetch.txids.len() {
        let txid = fetch.txids[fetch.next];
        if cache.contains_key(txid) {
            read_out(
                FetchView {
                    next: fetch.next + 1,
                    txs: fetch.txs.push(cache[txid]),
                    reused: fetch.reused + 1,
                    ..fetch
                },
                cache,
                node,
            )
        } else {
            let rest = read_out(
                fetch.accepting(node(txid)),
                fetch.remembering(cache, node(txid)),
                node,
            );
            Reading { asked: seq![txid] + rest.asked, ..rest }
        }
    } else {
        Reading { fetch, cache, asked: Seq::empty() }
    }
}

/// To go on out of the cache leads to the same end.
proof fn lemma_reusing_reads_on(
    fetch: FetchView,
    cache: Map<Txid, Arc<Transaction>>,
    node: spec_fn(Txid) -> Option<Arc<Transaction>>,
)
    ensures
        read_out(fetch.reusing(cache), cache, node) == read_out(fetch, cache, node),
        fetch.reusing(cache).awaited() is Some && 0 <= fetch.next ==> !cache.contains_key(
            fetch.reusing(cache).awaited()->0,
        ) && 0 <= fetch.reusing(cache).next,
    decreases fetch.txids.len() - fetch.next,
{
    if 0 <= fetch.next < fetch.txids.len() && cache.contains_key(fetch.txids[fetch.next]) {
        let step = FetchView {
            next: fetch.next + 1,
            txs: fetch.txs.push(cache[fetch.txids[fetch.next]]),
            reused: fetch.reused + 1,
            ..fetch
        };
        lemma_reusing_reads_on(step, cache, node);
    }
}

/// A step of a tick takes a reading one request further towards the end that it has with the
/// replies of the node.
pub proof fn tick_reads_the_mempool_to_its_end(
    generator: TxGenerator,
    snapshot: ConfirmedSnapshot,
    fetch: MempoolFetch,
    reply: Option<Transaction>,
    now: u64,
    caches_after: CachesView,
    stage_after: Stage,
    node: spec_fn(Txid) -> Option<Arc<Transaction>>,
)
    requires
        stage_wf(generator, Stage::FetchingMempool(snapshot, fetch)),
        stepped(
            generator,
            Stage::FetchingMempool(snapshot, fetch),
            Event::TxFetched(reply),
            now,
            caches_after,
            stage_after,
        ),
        node(fetch@.awaited()->0) == shared(reply),
    ensures
        ({
            let whole = read_out(fetch@, generator.remembered()@.mempool_txs, node);
            match stage_after {
                Stage::FetchingMempool(_, later) => {
                    let rest = read_out(later@, caches_after.mempool_txs, node);
                    &&& whole.asked == seq![fetch@.awaited()->0] + rest.asked
                    &&& whole.fetch == rest.fetch
                    &&& whole.cache == rest.cache
                },
                _ => {
                    &&& whole.asked == seq![fetch@.awaited()->0]
                    &&& whole.cache == caches_after.mempool_txs
                    &&& whole.fetch.complete <==> !(stage_after matches Stage::Skipped(
                        SkipReason::Mempool,
                    ))
                },
            }
        }),
{
    let cache = generator.remembered()@.mempool_txs;
    let reading = fetch@.accepting(shared(reply));
    let remembered = fetch@.remembering(cache, shared(reply));
    lemma_reusing_reads_on(reading, remembered, node);
    assert(seq![fetch@.awaited()->0] + Seq::<Txid>::empty() =~= seq![fetch@.awaited()->0]);
}

/// A tick begins the reading that leads to that end, with what is cached of the ids that the node
/// lists.
pub proof fn tick_begins_the_reading_of_the_mempool(
    generator: TxGenerator,
    snapshot: ConfirmedSnapshot,
    txids: Vec<Txid>,
    now: u64,
    caches_after: CachesView,
    stage_after: Stage,
    node: spec_fn(Txid) -> Option<Arc<Transaction>>,
)
    requires
        stepped(
            generator,
            Stage::ListingMempool(snapshot),
            Event::MempoolListed(Some(txids)),
            now,
            caches_after,
            stage_after,
        ),
    ensures
        ({
            let kept = generator.remembered()@.mempool_txs.restrict(txids@.to_set());
            let whole = read_out(fetch_begun(txids@), kept, node);
            match stage_after {
                Stage::FetchingMempool(_, later) => whole == read_out(
                    later@,
                    caches_after.mempool_txs,
                    node,
                ),
                _ => whole.asked.len() == 0 && whole.cache == caches_after.mempool_txs,
            }
        }),
{
    let kept = generator.remembered()@.mempool_txs.restrict(txids@.to_set());
    lemma_reusing_reads_on(fetch_begun(txids@), kept, node);
}

/// The transaction of an id: the cached one, or else the one that the node gives.
pub open spec fn found(
    txid: Txid,
    cache: Map<Txid, Arc<Transaction>>,
    node: spec_fn(Txid) -> Option<Arc<Transaction>>,
) -> Option<Arc<Transaction>> {
    if cache.contains_key(txid) {
        Some(cache[txid])
    } else {
        node(txid)
    }
}

/// The transactions of the ids from one on, as far as they are found.
pub open spec fn found_from(
    txids: Seq<Txid>,
    next: int,
    cache: Map<Txid, Arc<Transaction>>,
    node: spec_fn(Txid) -> Option<Arc<Transaction>>,
) -> Seq<Arc<Transaction>>
    decreases txids.len() - next,
{
    if 0 <= next < txids.len() {
        let rest = found_from(txids, next + 1, cache, node);
        match found(txids[next], cache, node) {
            Some(tx) => seq![tx] + rest,
            None => rest,
        }
    } else {
        Seq::empty()
    }
}

/// Whether an id stands in a list from a place on.
pub open spec fn stands_from(txids: Seq<Txid>, next: int, txid: Txid) -> bool {
    exists|i: int| next <= i < txids.len() && 0 <= i && #[trigger] txids[i] == txid
}

/// Where the same is found, the same comes of it.
proof fn lemma_found_alike(
    txids: Seq<Txid>,
    next: int,
    cache: Map<Txid, Arc<Transaction>>,
    node: spec_fn(Txid) -> Option<Arc<Transaction>>,
    other_cache: Map<Txid, Arc<Transaction>>,
    other_node: spec_fn(Txid) -> Option<Arc<Transaction>>,
)
    requires
        0 <= next,
        forall|i: int|
            next <= i < txids.len() ==> found(#[trigger] txids[i], cache, node) == found(
                txids[i],
                other_cache,
                other_node,
            ),
    ensures
        found_from(txids, next, cache, node) == found_from(txids, next, other_cache, other_node),
    decreases txids.len() - next,
{
    if next < txids.len() {
        lemma_found_alike(txids, next + 1, cache, node, other_cache, other_node);
    }
}

/// If everything is found, there is one transaction for each id.
proof fn lemma_found_len(
    txids: Seq<Txid>,
    next: int,
    cache: Map<Txid, Arc<Transaction>>,
    node: spec_fn(Txid) -> Option<Arc<Transaction>>,
)
    requires
        0 <= next <= txids.len(),
        forall|i: int|
            next <= i < txids.len() ==> found(#[trigger] txids[i], cache, node) is Some,
    ensures
        found_from(txids, next, cache, node).len() == txids.len() - next,
    decreases txids.len() - next,
{
    if next < txids.len() {
        lemma_found_len(txids, next + 1, cache, node);
        assert(found(txids[next], cache, node) is Some);
    }
}

/// What comes of a reading of ids that are all different.
proof fn lemma_read_out(
    fetch: FetchView,
    cache: Map<Txid, Arc<Transaction>>,
    node: spec_fn(Txid) -> Option<Arc<Transaction>>,
)
    requires
        0 <= fetch.next <= fetch.txids.len(),
        fetch.txids.no_duplicates(),
    ensures
        ({
            let read = read_out(fetch, cache, node);
            &&& read.fetch.complete <==> fetch.complete && forall|i: int|
                fetch.next <= i < fetch.txids.len() ==> found(
                    #[trigger] fetch.txids[i],
                    cache,
                    node,
                ) is Some
            &&& read.fetch.txs == fetch.txs + found_from(fetch.txids, fetch.next, cache, node)
            &&& forall|txid: Txid| #[trigger]
                read.asked.contains(txid) <==> stands_from(fetch.txids, fetch.next, txid)
                    && !cache.contains_key(txid)
            &&& forall|txid: Txid| #[trigger]
                read.cache.contains_key(txid) <==> cache.contains_key(txid) || (stands_from(
                    fetch.txids,
                    fetch.next,
                    txid,
                ) && node(txid) is Some)
            &&& forall|txid: Txid| #[trigger]
                read.cache.contains_key(txid) ==> Some(read.cache[txid]) == found(
                    txid,
                    cache,
                    node,
                )
        }),
    decreases fetch.txids.len() - fetch.next,
{
    let txids = fetch.txids;
    let read = read_out(fetch, cache, node);
    if fetch.next < txids.len() {
        let txid = txids[fetch.next];
        let known = cache.contains_key(txid);
        let step = if known {
            FetchView {
                next: fetch.next + 1,
                txs: fetch.txs.push(cache[txid]),
                reused: fetch.reused + 1,
                ..fetch
            }
        } else {
            fetch.accepting(node(txid))
        };
        let remembered = if known {
            cache
        } else {
            fetch.remembering(cache, node(txid))
        };
        let rest = read_out(step, remembered, node);
        lemma_read_out(step, remembered, node);
        assert forall|i: int| step.next <= i < txids.len() implies found(
            #[trigger] txids[i],
            remembered,
            node,
        ) == found(txids[i], cache, node) by {
            assert(txids[i] != txid);
        }
        lemma_found_alike(txids, step.next, remembered, node, cache, node);
        assert(read.fetch.txs =~= fetch.txs + found_from(txids, fetch.next, cache, node));
        assert forall|id: Txid| #[trigger]
            stands_from(txids, fetch.next, id) <==> id == txid || stands_from(
            txids,
            step.next,
            id,
        ) by {
            if stands_from(txids, step.next, id) {
                let i = choose|i: int| step.next <= i < txids.len() && 0 <= i && #[trigger] txids[i]
                    == id;
                assert(txids[i] == id);
            }
            if id == txid {
                assert(txids[fetch.next] == id);
            }
        }
        assert(!stands_from(txids, step.next, txid)) by {
            if stands_from(txids, step.next, txid) {
                let i = choose|i: int| step.next <= i < txids.len() && 0 <= i && #[trigger] txids[i]
                    == txid;
                assert(txids[i] != txids[fetch.next]);
            }
        }
        assert forall|id: Txid| #[trigger]
            read.asked.contains(id) <==> stands_from(txids, fetch.next, id) && !cache.contains_key(
            id,
        ) by {
            if !known {
                if rest.asked.contains(id) {
                    let k = choose|k: int| 0 <= k < rest.asked.len() && rest.asked[k] == id;
                    assert(read.asked[k + 1] == id);
                }
                if id == txid {
                    assert(read.asked[0] == id);
                }
                if read.asked.contains(id) && id != txid {
                    let k = choose|k: int| 0 <= k < read.asked.len() && read.asked[k] == id;
                    assert(rest.asked[k - 1] == id);
                }
            }
        }
        assert forall|id: Txid| #[trigger] read.cache.contains_key(id) implies Some(read.cache[id])
            == found(id, cache, node) by {
            assert(rest.cache.contains_key(id));
        }
        if read.fetch.complete {
            assert(found(txid, cache, node) is Some);
        }
    } else {
        assert(read.fetch.txs =~= fetch.txs + found_from(txids, fetch.next, cache, node));
    }
}

/// A second reading of the same mempool asks the node only for what could not be had at the first.
/// If everything could, it asks for nothing and finds the same. If all that is left can now be
/// had, nothing is missing any more.
pub proof fn second_reading_asks_only_for_what_failed(
    txids: Seq<Txid>,
    cache: Map<Txid, Arc<Transaction>>,
    node: spec_fn(Txid) -> Option<Arc<Transaction>>,
    later_node: spec_fn(Txid) -> Option<Arc<Transaction>>,
)
    requires
        txids.no_duplicates(),
    ensures
        ({
            let first = read_out(
                fetch_begun(txids),
                cache.restrict(txids.to_set()),
                node,
            );
            let second = read_out(
                fetch_begun(txids),
                first.cache.restrict(txids.to_set()),
                later_node,
            );
            &&& forall|txid: Txid| #[trigger]
                second.asked.contains(txid) <==> first.asked.contains(txid) && node(txid) is None
            &&& (forall|txid: Txid| #[trigger]
                first.asked.contains(txid) ==> node(txid) is Some) ==> {
                &&& second.asked.len() == 0
                &&& second.fetch.complete && first.fetch.complete
                &&& second.fetch.txs == first.fetch.txs
                &&& second.cache == first.cache
            }
            &&& (forall|txid: Txid| #[trigger]
                first.asked.contains(txid) && node(txid) is None ==> later_node(txid) is Some) ==> {
                &&& second.fetch.complete
                &&& second.fetch.txs.len() == txids.len()
                &&& second.cache.dom() == txids.to_set()
            }
        }),
{
    let begun = fetch_begun(txids);
    let kept = cache.restrict(txids.to_set());
    let first = read_out(begun, kept, node);
    let again = first.cache.restrict(txids.to_set());
    let second = read_out(begun, again, later_node);
    lemma_read_out(begun, kept, node);
    lemma_read_out(begun, again, later_node);
    assert forall|txid: Txid| #[trigger]
        txids.to_set().contains(txid) <==> stands_from(txids, 0, txid) by {
        if txids.contains(txid) {
            let i = choose|i: int| 0 <= i < txids.len() && txids[i] == txid;
            assert(txids[i] == txid);
        }
    }
    assert forall|txid: Txid| #[trigger] first.cache.contains_key(txid) implies
        txids.to_set().contains(txid) by {}
    assert(again =~= first.cache);
    assert forall|txid: Txid| #[trigger]
        second.asked.contains(txid) <==> first.asked.contains(txid) && node(txid) is None by {
        assert(stands_from(txids, 0, txid) && !again.contains_key(txid) <==> second.asked.contains(
            txid,
        ));
        assert(kept.contains_key(txid) ==> first.cache.contains_key(txid));
    }
    if forall|txid: Txid| #[trigger] first.asked.contains(txid) ==> node(txid) is Some {
        if second.asked.len() != 0 {
            assert(second.asked.contains(second.asked[0]));
        }
        assert forall|i: int| 0 <= i < txids.len() implies found(
            #[trigger] txids[i],
            kept,
            node,
        ) is Some && found(txids[i], kept, node) == found(txids[i], again, later_node) by {
            assert(stands_from(txids, 0, txids[i]));
            assert(kept.contains_key(txids[i]) || first.asked.contains(txids[i]));
            assert(first.cache.contains_key(txids[i]));
        }
        lemma_found_alike(txids, 0, kept, node, again, later_node);
        assert(second.cache =~= first.cache) by {
            assert forall|txid: Txid| second.cache.contains_key(txid) <==> #[trigger]
                first.cache.contains_key(txid) by {
                if stands_from(txids, 0, txid) {
                    assert(kept.contains_key(txid) || first.asked.contains(txid));
                }
            }
        }
    }
    if forall|txid: Txid| #[trigger]
        first.asked.contains(txid) && node(txid) is None ==> later_node(txid) is Some {
        assert forall|i: int| 0 <= i < txids.len() implies found(
            #[trigger] txids[i],
            again,
            later_node,
        ) is Some by {
            assert(stands_from(txids, 0, txids[i]));
            if !again.contains_key(txids[i]) {
                assert(second.asked.contains(txids[i]));
                assert(first.asked.contains(txids[i]));
            }
        }
        lemma_found_len(txids, 0, again, later_node);
        assert(second.cache.dom() =~= txids.to_set()) by {
            assert forall|txid: Txid|
                second.cache.dom().contains(txid) <==> #[trigger] txids.to_set().contains(txid) by {
                if txids.to_set().contains(txid) {
                    let i = choose|i: int| 0 <= i < txids.len() && txids[i] == txid;
                    assert(found(txids[i], again, later_node) is Some);
                }
                assert(second.cache.contains_key(txid) ==> stands_from(txids, 0, txid));
            }
        }
    }
}

// ---------------------------------------------------------------------------------------
// The wallet.
// ---------------------------------------------------------------------------------------

/// What comes of the fetching of what a wallet needs.
pub struct Filling {
    /// Where it ends.
    pub plan: PlanView,
    /// What is remembered then.
    pub caches: CachesView,
    /// What the node was asked for.
    pub asked: Seq<Missing>,
    /// Whether everything that was asked for could be had.
    pub had: bool,
}

/// The filling after an output was passed, with its transaction if it was not found before.
spec fn passing(plan: PlanView, caches: CachesView) -> PlanView {
    let utxo = plan.utxos[plan.next];
    if plan.parents.contains_key(utxo.txid) {
        plan.accepting_parent(None)
    } else {
        plan.accepting_parent(Some(caches.confirmed_txs[parent_key(utxo, plan.chain())]))
    }
}

/// The fetching of what a wallet needs to its end, with a node that answers each request as told.
/// Without the hash of a block it ends early.
pub open spec fn fill_out(
    plan: PlanView,
    caches: CachesView,
    hashes: spec_fn(u32) -> Option<BlockHash>,
    txs: spec_fn(ConfirmedKey) -> Option<Arc<Transaction>>,
) -> Filling
    decreases plan.heights.len() - plan.blocks.len(), plan.utxos.len() - plan.next,
{
    if plan.blocks.len() < plan.heights.len() {
        let height = plan.heights[plan.blocks.len() as int];
        match known_hash(plan.tip, caches.block_hashes, height) {
            Some(hash) => fill_out(plan.accepting_block(hash), caches, hashes, txs),
            None => match hashes(height) {
                Some(hash) => {
                    let rest = fill_out(
                        plan.accepting_block(hash),
                        plan.remembering_block(caches, hash),
                        hashes,
                        txs,
                    );
                    Filling { asked: seq![Missing::Block(height)] + rest.asked, ..rest }
                },
                None => Filling { plan, caches, asked: seq![Missing::Block(height)], had: false },
            },
        }
    } else if 0 <= plan.next < plan.utxos.len() {
        let utxo = plan.utxos[plan.next];
        let key = parent_key(utxo, plan.chain());
        if plan.parents.contains_key(utxo.txid) {
            fill_out(plan.accepting_parent(None), caches, hashes, txs)
        } else if caches.confirmed_txs.contains_key(key) {
            fill_out(plan.accepting_parent(Some(caches.confirmed_txs[key])), caches, hashes, txs)
        } else {
            let rest = fill_out(
                plan.accepting_parent(txs(key)),
                plan.remembering_parent(caches, txs(key)),
                hashes,
                txs,
            );
            Filling {
                asked: seq![Missing::Parent(key.txid, key.block)] + rest.asked,
                had: rest.had && txs(key) is Some,
                ..rest
            }
        }
    } else {
        Filling { plan, caches, asked: Seq::empty(), had: true }
    }
}

/// Whether what is remembered of confirmed blocks and transactions is still remembered.
spec fn keeps(before: CachesView, after: CachesView) -> bool {
    &&& after.scan_tip == before.scan_tip
    &&& after.mempool_txs == before.mempool_txs
    &&& forall|height: u32| #[trigger]
        before.block_hashes.contains_key(height) ==> after.block_hashes.contains_key(height)
            && after.block_hashes[height] == before.block_hashes[height]
    &&& forall|key: ConfirmedKey| #[trigger]
        before.confirmed_txs.contains_key(key) ==> after.confirmed_txs.contains_key(key)
            && after.confirmed_txs[key] == before.confirmed_txs[key]
}

/// The fetching forgets nothing.
proof fn lemma_fill_out_keeps(
    plan: PlanView,
    caches: CachesView,
    hashes: spec_fn(u32) -> Option<BlockHash>,
    txs: spec_fn(ConfirmedKey) -> Option<Arc<Transaction>>,
)
    ensures
        keeps(caches, fill_out(plan, caches, hashes, txs).caches),
    decreases plan.heights.len() - plan.blocks.len(), plan.utxos.len() - plan.next,
{
    if plan.blocks.len() < plan.heights.len() {
        let height = plan.heights[plan.blocks.len() as int];
        match known_hash(plan.tip, caches.block_hashes, height) {
            Some(hash) => lemma_fill_out_keeps(plan.accepting_block(hash), caches, hashes, txs),
            None => if let Some(hash) = hashes(height) {
                let remembered = plan.remembering_block(caches, hash);
                lemma_fill_out_keeps(plan.accepting_block(hash), remembered, hashes, txs);
                assert(keeps(caches, remembered));
            },
        }
    } else if 0 <= plan.next < plan.utxos.len() {
        let utxo = plan.utxos[plan.next];
        let key = parent_key(utxo, plan.chain());
        if plan.parents.contains_key(utxo.txid) || caches.confirmed_txs.contains_key(key) {
            lemma_fill_out_keeps(passing(plan, caches), caches, hashes, txs);
        } else {
            let remembered = plan.remembering_parent(caches, txs(key));
            lemma_fill_out_keeps(plan.accepting_parent(txs(key)), remembered, hashes, txs);
            assert(keeps(caches, remembered));
        }
    }
}

/// With what is remembered at the end of a fetching, the same is found without asking, for
/// whatever wallet it is.
proof fn lemma_fill_out_again(
    plan: PlanView,
    caches: CachesView,
    hashes: spec_fn(u32) -> Option<BlockHash>,
    txs: spec_fn(ConfirmedKey) -> Option<Arc<Transaction>>,
    wallet: TickWallet,
    later_hashes: spec_fn(u32) -> Option<BlockHash>,
    later_txs: spec_fn(ConfirmedKey) -> Option<Arc<Transaction>>,
)
    requires
        fill_out(plan, caches, hashes, txs).had,
    ensures
        ({
            let first = fill_out(plan, caches, hashes, txs);
            fill_out(PlanView { wallet, ..plan }, first.caches, later_hashes, later_txs) == (
            Filling {
                plan: PlanView { wallet, ..first.plan },
                caches: first.caches,
                asked: Seq::empty(),
                had: true,
            })
        }),
    decreases plan.heights.len() - plan.blocks.len(), plan.utxos.len() - plan.next,
{
    let first = fill_out(plan, caches, hashes, txs);
    let other = PlanView { wallet, ..plan };
    lemma_fill_out_keeps(plan, caches, hashes, txs);
    if plan.blocks.len() < plan.heights.len() {
        let height = plan.heights[plan.blocks.len() as int];
        match known_hash(plan.tip, caches.block_hashes, height) {
            Some(hash) => {
                let step = plan.accepting_block(hash);
                lemma_fill_out_again(step, caches, hashes, txs, wallet, later_hashes, later_txs);
                assert(other.accepting_block(hash) == PlanView { wallet, ..step });
                assert(known_hash(plan.tip, first.caches.block_hashes, height) == Some(hash));
            },
            None => {
                let hash = hashes(height)->0;
                let step = plan.accepting_block(hash);
                let remembered = plan.remembering_block(caches, hash);
                lemma_fill_out_again(
                    step,
                    remembered,
                    hashes,
                    txs,
                    wallet,
                    later_hashes,
                    later_txs,
                );
                lemma_fill_out_keeps(step, remembered, hashes, txs);
                assert(remembered.block_hashes.contains_key(height));
                assert(other.accepting_block(hash) == PlanView { wallet, ..step });
                assert(known_hash(plan.tip, first.caches.block_hashes, height) == Some(hash));
            },
        }
    } else if 0 <= plan.next < plan.utxos.len() {
        let utxo = plan.utxos[plan.next];
        let key = parent_key(utxo, plan.chain());
        assert(other.chain() == plan.chain());
        if plan.parents.contains_key(utxo.txid) || caches.confirmed_txs.contains_key(key) {
            let step = passing(plan, caches);
            lemma_fill_out_again(step, caches, hashes, txs, wallet, later_hashes, later_txs);
            assert(passing(other, first.caches) == PlanView { wallet, ..step });
        } else {
            let step = plan.accepting_parent(txs(key));
            let remembered = plan.remembering_parent(caches, txs(key));
            lemma_fill_out_again(step, remembered, hashes, txs, wallet, later_hashes, later_txs);
            lemma_fill_out_keeps(step, remembered, hashes, txs);
            assert(remembered.confirmed_txs.contains_key(key));
            assert(other.accepting_parent(Some(first.caches.confirmed_txs[key])) == PlanView {
                wallet,
                ..step
            });
        }
    }
}

/// To add the blocks that are known leads to the same end.
proof fn lemma_blocks_fill_on(
    plan: PlanView,
    caches: CachesView,
    hashes: spec_fn(u32) -> Option<BlockHash>,
    txs: spec_fn(ConfirmedKey) -> Option<Arc<Transaction>>,
)
    ensures
        ({
            let blocks = blocks_from(plan.tip, caches.block_hashes, plan.heights, plan.blocks);
            &&& fill_out(PlanView { blocks, ..plan }, caches, hashes, txs) == fill_out(
                plan,
                caches,
                hashes,
                txs,
            )
            &&& blocks.len() < plan.heights.len() ==> known_hash(
                plan.tip,
                caches.block_hashes,
                plan.heights[blocks.len() as int],
            ) is None
        }),
    decreases plan.heights.len() - plan.blocks.len(),
{
    if plan.blocks.len() < plan.heights.len() {
        let height = plan.heights[plan.blocks.len() as int];
        if let Some(hash) = known_hash(plan.tip, caches.block_hashes, height) {
            lemma_blocks_fill_on(plan.accepting_block(hash), caches, hashes, txs);
        }
    }
}

/// To add the transactions that are remembered leads to the same end.
proof fn lemma_parents_fill_on(
    plan: PlanView,
    caches: CachesView,
    hashes: spec_fn(u32) -> Option<BlockHash>,
    txs: spec_fn(ConfirmedKey) -> Option<Arc<Transaction>>,
)
    requires
        plan.blocks.len() >= plan.heights.len(),
        0 <= plan.next,
    ensures
        ({
            let (next, parents) = parents_from(
                plan.utxos,
                plan.chain(),
                caches.confirmed_txs,
                plan.next,
                plan.parents,
            );
            &&& 0 <= next
            &&& fill_out(PlanView { next, parents, ..plan }, caches, hashes, txs) == fill_out(
                plan,
                caches,
                hashes,
                txs,
            )
            &&& next < plan.utxos.len() ==> !parents.contains_key(plan.utxos[next].txid)
                && !caches.confirmed_txs.contains_key(parent_key(plan.utxos[next], plan.chain()))
        }),
    decreases plan.utxos.len() - plan.next,
{
    if plan.next < plan.utxos.len() {
        let utxo = plan.utxos[plan.next];
        let key = parent_key(utxo, plan.chain());
        if plan.parents.contains_key(utxo.txid) || caches.confirmed_txs.contains_key(key) {
            lemma_parents_fill_on(passing(plan, caches), caches, hashes, txs);
        }
    }
}

/// To go on with what is remembered leads to the same end. If it does so without asking, nothing is
/// missing then.
proof fn lemma_reusing_fills_on(
    plan: PlanView,
    caches: CachesView,
    hashes: spec_fn(u32) -> Option<BlockHash>,
    txs: spec_fn(ConfirmedKey) -> Option<Arc<Transaction>>,
)
    requires
        0 <= plan.next,
    ensures
        fill_out(plan.reusing(caches), caches, hashes, txs) == fill_out(plan, caches, hashes, txs),
        0 <= plan.reusing(caches).next,
        match plan.reusing(caches).missing() {
            Some(missing) => fill_out(plan, caches, hashes, txs).asked.len() != 0,
            None => fill_out(plan, caches, hashes, txs) == (Filling {
                plan: plan.reusing(caches),
                caches,
                asked: Seq::empty(),
                had: true,
            }),
        },
{
    let blocks = blocks_from(plan.tip, caches.block_hashes, plan.heights, plan.blocks);
    let built = PlanView { blocks, ..plan };
    lemma_blocks_fill_on(plan, caches, hashes, txs);
    if blocks.len() >= plan.heights.len() {
        lemma_parents_fill_on(built, caches, hashes, txs);
        let (next, parents) = parents_from(
            plan.utxos,
            built.chain(),
            caches.confirmed_txs,
            plan.next,
            plan.parents,
        );
        assert(plan.reusing(caches) == PlanView { next, parents, ..built });
    }
}

/// A step of a tick takes the filling of a wallet one request further towards the end that it has
/// with the replies of the node.
pub proof fn tick_fetches_what_a_wallet_needs_to_its_end(
    generator: TxGenerator,
    stage: Stage,
    event: Event,
    now: u64,
    caches_after: CachesView,
    later: Stage,
    hashes: spec_fn(u32) -> Option<BlockHash>,
    txs: spec_fn(ConfirmedKey) -> Option<Arc<Transaction>>,
)
    requires
        stage_wf(generator, stage),
        answers(stage, event),
        stage is FillingWallet,
        later is FillingWallet,
        stepped(generator, stage, event, now, caches_after, later),
        match (stage->FillingWallet_1@.missing(), event) {
            (Some(Missing::Block(height)), Event::BlockHashFetched(reply)) => hashes(height)
                == reply,
            (Some(Missing::Parent(txid, block)), Event::TxFetched(reply)) => txs(
                ConfirmedKey { txid, block },
            ) == shared(reply),
            _ => false,
        },
    ensures
        ({
            let plan = stage->FillingWallet_1@;
            let whole = fill_out(plan, generator.remembered()@, hashes, txs);
            let rest = fill_out(later->FillingWallet_1@, caches_after, hashes, txs);
            &&& whole.asked == seq![plan.missing()->0] + rest.asked
            &&& whole.plan == rest.plan
            &&& whole.caches == rest.caches
        }),
{
    let plan = stage->FillingWallet_1@;
    let caches = generator.remembered()@;
    match event {
        Event::BlockHashFetched(Some(hash)) => lemma_reusing_fills_on(
            plan.accepting_block(hash),
            plan.remembering_block(caches, hash),
            hashes,
            txs,
        ),
        Event::TxFetched(reply) => lemma_reusing_fills_on(
            plan.accepting_parent(shared(reply)),
            plan.remembering_parent(caches, shared(reply)),
            hashes,
            txs,
        ),
        _ => {},
    }
}

/// A tick begins the filling that leads to that end, with what is remembered after the scan.
pub proof fn tick_begins_to_fetch_what_a_wallet_needs(
    generator: TxGenerator,
    caches: CachesView,
    wallet: TickWallet,
    snapshot: ConfirmedSnapshot,
    mempool_txs: Seq<Arc<Transaction>>,
    now: u64,
    caches_after: CachesView,
    stage: Stage,
    hashes: spec_fn(u32) -> Option<BlockHash>,
    txs: spec_fn(ConfirmedKey) -> Option<Arc<Transaction>>,
)
    requires
        wallet_started(
            generator,
            caches,
            wallet,
            snapshot,
            mempool_txs,
            now,
            caches_after,
            stage,
        ),
        stage is FillingWallet,
    ensures
        ({
            let plan = stage->FillingWallet_1@;
            let begun = plan_begun(wallet, snapshot.tip, snapshot.utxos@, plan.heights);
            &&& caches_after == caches
            &&& fill_out(plan, caches, hashes, txs) == fill_out(begun, caches, hashes, txs)
        }),
{
    let plan = stage->FillingWallet_1@;
    let begun = plan_begun(wallet, snapshot.tip, snapshot.utxos@, plan.heights);
    assert(plan == begun.reusing(caches));
    lemma_reusing_fills_on(begun, caches, hashes, txs);
}

/// A second wallet for the same scan asks the node for nothing, if everything that the first one
/// asked for could be had: what is remembered is beyond doubt and stays as it is, and the wallet is
/// filled with the same blocks and transactions.
pub proof fn second_wallet_asks_for_nothing(
    caches: CachesView,
    tip: BlockId,
    utxos: Seq<Utxo>,
    heights: Seq<u32>,
    hashes: spec_fn(u32) -> Option<BlockHash>,
    txs: spec_fn(ConfirmedKey) -> Option<Arc<Transaction>>,
    wallet: TickWallet,
    later_wallet: TickWallet,
)
    requires
        caches.scan_tip == Some(tip),
        fill_out(plan_begun(wallet, tip, utxos, heights), caches, hashes, txs).had,
    ensures
        ({
            let first = fill_out(plan_begun(wallet, tip, utxos, heights), caches, hashes, txs);
            let again = first.caches.noting(tip);
            let second = plan_begun(later_wallet, tip, utxos, heights).reusing(again);
            &&& !first.caches.in_doubt(tip)
            &&& again == first.caches
            &&& second.missing() is None
            &&& second == (PlanView { wallet: later_wallet, ..first.plan })
        }),
{
    let begun = plan_begun(wallet, tip, utxos, heights);
    let first = fill_out(begun, caches, hashes, txs);
    let later = plan_begun(later_wallet, tip, utxos, heights);
    lemma_fill_out_keeps(begun, caches, hashes, txs);
    assert(first.caches.scan_tip == Some(tip));
    assert(first.caches.noting(tip) =~= first.caches);
    lemma_fill_out_again(begun, caches, hashes, txs, later_wallet, hashes, txs);
    assert(later == PlanView { wallet: later_wallet, ..begun });
    lemma_reusing_fills_on(later, first.caches, hashes, txs);
}

/// In a wallet with nothing but its own, each output is listed once, and pays the script that it is
/// listed under.
pub proof fn listed_outputs_pay_the_wallet(wallet: TickWallet)
    requires
        wallet.own_only(),
        wallet.lists_rightly(),
    ensures
        distinct(wallet.unspent()),
        forall|n: int|
            0 <= n < wallet.unspent().len() ==> output_at(
                wallet.txs(),
                (#[trigger] wallet.unspent()[n]).outpoint,
            ).script_pubkey == wallet.scripts()[(
                wallet.unspent()[n].keychain,
                wallet.unspent()[n].derivation_index,
            )],
{
    lemma_listed_once(wallet);
}

/// The transactions of a wallet that was filled with transactions of the ids under which they were
/// sought are those.
proof fn lemma_txs_of(plan: PlanView, wallet: TickWallet, txid: Txid)
    requires
        plan.wallet.txs() == Map::<Txid, TransactionView>::empty(),
        found_rightly(plan.parents),
        finished(plan, Ok(wallet)),
    ensures
        wallet.txs().contains_key(txid) <==> ids_found(plan.utxos, plan.parents).contains(txid),
        wallet.txs().contains_key(txid) ==> wallet.txs()[txid] == plan.parents[txid].tx@,
{
    let ids = ids_found(plan.utxos, plan.parents);
    let found = txs_found(ids, plan.parents);
    if wallet.txs().contains_key(txid) {
        let k = choose|k: int|
            0 <= k < found.len() && (#[trigger] found[k]).txid == txid && wallet.txs()[txid]
                == found[k];
        assert(ids.contains(ids[k]));
        lemma_ids_found(plan.utxos, plan.parents, ids[k]);
        assert(ids[k] == txid);
    }
    if ids.contains(txid) {
        lemma_ids_found(plan.utxos, plan.parents, txid);
        let k = choose|k: int| 0 <= k < ids.len() && ids[k] == txid;
        assert(found[k].txid == txid);
    }
}

/// Two wallets of a generator that are filled with the same blocks and transactions are alike:
/// there is one if there is the other, they were told the same, and they have the same chain and
/// confirmations, the same unspent outputs in the same order, and the same balance. They hold the
/// same transactions as well if each has the id under which it was sought.
pub proof fn wallets_of_one_scan_are_alike(
    generator: TxGenerator,
    plan: PlanView,
    later_plan: PlanView,
    wallet: TickWallet,
    later: Result<TickWallet, WalletError>,
)
    requires
        plan.wallet.fresh(
            generator.external(),
            generator.internal(),
            btc_network_of(generator.settings().network),
        ),
        later_plan.wallet.fresh(
            generator.external(),
            generator.internal(),
            btc_network_of(generator.settings().network),
        ),
        later_plan == (PlanView { wallet: later_plan.wallet, ..plan }),
        finished(plan, Ok(wallet)),
        finished(later_plan, later),
    ensures
        later is Ok,
        later->Ok_0.descriptors() == wallet.descriptors(),
        later->Ok_0.network() == wallet.network(),
        later->Ok_0.updates() == wallet.updates(),
        later->Ok_0.chain() == wallet.chain(),
        later->Ok_0.anchors() == wallet.anchors(),
        later->Ok_0.unspent() == wallet.unspent(),
        total_value(later->Ok_0.unspent()) == total_value(wallet.unspent()),
        found_rightly(plan.parents) ==> later->Ok_0.txs() == wallet.txs(),
{
    let other = later->Ok_0;
    assert(other.updates() =~= wallet.updates());
    if found_rightly(plan.parents) {
        assert forall|txid: Txid| #[trigger]
            wallet.txs().contains_key(txid) <==> other.txs().contains_key(txid) by {
            lemma_txs_of(plan, wallet, txid);
            lemma_txs_of(later_plan, other, txid);
        }
        assert forall|txid: Txid| #[trigger]
            wallet.txs().contains_key(txid) implies wallet.txs()[txid] == other.txs()[txid] by {
            lemma_txs_of(plan, wallet, txid);
            lemma_txs_of(later_plan, other, txid);
        }
        assert(wallet.txs() =~= other.txs());
    }
}

/// Two wallets that were told the same stay alike with the same mempool at the same time.
pub proof fn wallets_stay_alike_with_one_mempool(
    one: TickWallet,
    other: TickWallet,
    mempool: Seq<Arc<Transaction>>,
    now: u64,
    one_ready: TickWallet,
    other_ready: TickWallet,
)
    requires
        one.descriptors() == other.descriptors(),
        one.network() == other.network(),
        one.updates() == other.updates(),
        took_in(one, mempool, now, one_ready),
        took_in(other, mempool, now, other_ready),
    ensures
        one_ready.unspent() == other_ready.unspent(),
        total_value(one_ready.unspent()) == total_value(other_ready.unspent()),
{
}

} // verus!
