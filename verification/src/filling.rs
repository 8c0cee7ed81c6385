//! What a wallet is filled with, said of what the scan found and of the replies alone.

use crate::bdk::{blocks_by_height, genesis_of, Keychain, UpdateView};
use crate::caches::CachesView;
use crate::config::btc_network_of;
use crate::generator::{
    are_heights, mempool_read, plan_advanced, shared, stage_wf, stepped, wallet_started,
    TxGenerator,
};
use crate::mempool::{fetch_begun, FetchView, MempoolSnapshot};
use crate::plan::{
    block_of, blocks_from, known_hash, lemma_blocks_by_height, needed_heights, parent_key,
    parents_from, plan_begun, Parent, PlanView, WalletPlan,
};
use crate::promises::named;
use crate::scan::{low_half, ConfirmedSnapshot, Utxo};
use crate::tick::{Action, Event, SkipReason, Stage};
use crate::tx::{Transaction, TransactionView};
use crate::types::{BlockHash, BlockId, ConfirmedKey, Txid};
use crate::wallet::{TickWallet, WalletError};
use std::sync::Arc;
use vstd::prelude::*;

verus! {

// ---------------------------------------------------------------------------------------
// Blocks.
// ---------------------------------------------------------------------------------------

/// A wallet needs the first block, the tip of the scan and the block of each output that the scan
/// found, and no other. They are listed from the first to the last, each once.
pub proof fn wallet_needs_the_blocks_of_its_outputs(
    snapshot: ConfirmedSnapshot,
    heights: Vec<u32>,
)
    requires
        call_ensures(needed_heights, (&snapshot,), heights),
    ensures
        forall|i: int, j: int| 0 <= i < j < heights@.len() ==> heights@[i] < heights@[j],
        heights@.contains(0u32),
        heights@.contains(snapshot.tip.height),
        forall|i: int|
            0 <= i < snapshot.utxos@.len() ==> heights@.contains(
                ((#[trigger] snapshot.utxos@[i]).height % 0x1_0000_0000) as u32,
            ),
        forall|height: u32| #[trigger]
            heights@.contains(height) ==> height == 0 || height == snapshot.tip.height || exists|
                i: int,
            |
                0 <= i < snapshot.utxos@.len() && (#[trigger] snapshot.utxos@[i]).height
                    % 0x1_0000_0000 == height,
{
    assert forall|i: int| 0 <= i < snapshot.utxos@.len() implies heights@.contains(
        ((#[trigger] snapshot.utxos@[i]).height % 0x1_0000_0000) as u32,
    ) by {
        assert(heights@.contains(low_half(snapshot.utxos@[i].height)));
    }
}

/// Whether heights are those of the first block, the tip and the outputs of a scan, ascending.
pub open spec fn spans(heights: Seq<u32>, snapshot: ConfirmedSnapshot) -> bool {
    &&& forall|i: int, j: int| 0 <= i < j < heights.len() ==> heights[i] < heights[j]
    &&& heights.contains(0u32)
    &&& heights.contains(snapshot.tip.height)
    &&& forall|i: int|
        0 <= i < snapshot.utxos@.len() ==> heights.contains(
            ((#[trigger] snapshot.utxos@[i]).height % 0x1_0000_0000) as u32,
        )
    &&& forall|height: u32| #[trigger]
        heights.contains(height) ==> height == 0 || height == snapshot.tip.height || exists|i: int|
            0 <= i < snapshot.utxos@.len() && (#[trigger] snapshot.utxos@[i]).height
                % 0x1_0000_0000 == height
}

/// What a tick asks the node for while it fills a wallet, and what it has by then. First it asks
/// for the blocks, from the first height to the last, and then, with all of them, for the
/// transactions of the outputs, each in the block at the height at which the scan found the
/// output. It asks for nothing that it has or remembers. The transactions that it has are each of
/// one of the outputs that it has looked at, and confirmed by the block at that output's height.
pub proof fn outputs_are_sought_in_the_blocks_at_their_heights(
    generator: &mut TxGenerator,
    stage: Stage,
    event: Event,
    now: u64,
    next: (Stage, Action),
    mempool: MempoolSnapshot,
    plan: WalletPlan,
)
    requires
        call_ensures(TxGenerator::run_tick, (generator, stage, event, now), next),
        next.0 == Stage::FillingWallet(mempool, plan),
    ensures
        ({
            let utxos = plan.snapshot.utxos@;
            let tip = plan.snapshot.tip;
            let blocks = plan.blocks@;
            let heights = plan.heights@;
            let remembered = final(generator).remembered()@;
            &&& spans(heights, plan.snapshot)
            &&& blocks.len() <= heights.len()
            &&& forall|k: int|
                0 <= k < blocks.len() ==> (#[trigger] blocks[k]).height == heights[k] && (
                blocks[k].height == tip.height ==> blocks[k].hash == tip.hash)
            &&& blocks.len() < heights.len() ==> {
                &&& next.1 == Action::FetchBlockHash(heights[blocks.len() as int])
                &&& heights[blocks.len() as int] != tip.height
                &&& !remembered.block_hashes.contains_key(heights[blocks.len() as int])
                &&& plan.next == 0
                &&& plan.parents@ == Map::<Txid, Parent>::empty()
            }
            &&& blocks.len() == heights.len() ==> {
                &&& plan.next < utxos.len()
                &&& next.1 matches Action::FetchTx(txid, Some(hash))
                &&& txid == utxos[plan.next as int].txid
                &&& !plan.parents@.contains_key(txid)
                &&& !remembered.confirmed_txs.contains_key(ConfirmedKey { txid, block: hash })
                &&& exists|k: int|
                    0 <= k < blocks.len() && (#[trigger] blocks[k]).hash == hash && blocks[k].height
                        == utxos[plan.next as int].height % 0x1_0000_0000
            }
            &&& forall|txid: Txid| #[trigger]
                plan.parents@.contains_key(txid) ==> blocks.contains(plan.parents@[txid].block)
                    && exists|i: int|
                    0 <= i < plan.next && (#[trigger] utxos[i]).txid == txid
                        && plan.parents@[txid].block.height == utxos[i].height % 0x1_0000_0000
        }),
{
    plan.lemma_blocks();
    lemma_spans(plan);
    if plan.blocks@.len() == plan.heights@.len() {
        lemma_block_at(plan, plan.next as int);
    }
    let utxos = plan.snapshot.utxos@;
    assert forall|txid: Txid| #[trigger] plan.parents@.contains_key(txid) implies
        plan.blocks@.contains(plan.parents@[txid].block) && exists|i: int|
        0 <= i < plan.next && (#[trigger] utxos[i]).txid == txid
            && plan.parents@[txid].block.height == utxos[i].height % 0x1_0000_0000 by {
        let i = choose|i: int|
            0 <= i < plan.next && (#[trigger] utxos[i]).txid == txid && plan.parents@[txid].block
                == block_of(utxos[i], plan@.chain());
        lemma_block_at(plan, i);
        let k = choose|k: int|
            0 <= k < plan.blocks@.len() && (#[trigger] plan.blocks@[k]) == block_of(
                utxos[i],
                plan@.chain(),
            );
        assert(plan.blocks@[k] == plan.parents@[txid].block);
    }
}

/// The heights of a plan are those of the first block, the tip and the outputs.
proof fn lemma_spans(plan: WalletPlan)
    requires
        plan.wf(),
    ensures
        spans(plan.heights@, plan.snapshot),
{
    let utxos = plan.snapshot.utxos@;
    assert forall|i: int| 0 <= i < utxos.len() implies plan.heights@.contains(
        ((#[trigger] utxos[i]).height % 0x1_0000_0000) as u32,
    ) by {
        assert(plan.heights@.contains(low_half(utxos[i].height)));
    }
}

/// The block of an output is the one at the output's height.
pub proof fn lemma_block_at(plan: WalletPlan, i: int)
    requires
        plan.wf(),
        plan.blocks@.len() == plan.heights@.len(),
        0 <= i < plan.snapshot.utxos@.len(),
    ensures
        exists|k: int|
            0 <= k < plan.blocks@.len() && (#[trigger] plan.blocks@[k]) == block_of(
                plan.snapshot.utxos@[i],
                plan@.chain(),
            ) && plan.blocks@[k].height == plan.snapshot.utxos@[i].height % 0x1_0000_0000,
{
    plan.lemma_blocks();
    lemma_blocks_by_height(plan.blocks@);
    let height = low_half(plan.snapshot.utxos@[i].height);
    assert(plan.heights@.contains(height));
    let k = choose|k: int| 0 <= k < plan.heights@.len() && plan.heights@[k] == height;
    assert(plan.blocks@[k].height == height);
}

/// What is remembered while a wallet is filled: the hash of a block under the height for which it
/// was asked, and a transaction under the id of the output for which it was asked and the block at
/// that output's height. Where the node gives none, nothing changes.
pub proof fn replies_are_remembered_under_what_was_asked(
    generator: &mut TxGenerator,
    mempool: MempoolSnapshot,
    plan: WalletPlan,
    event: Event,
    now: u64,
    next: (Stage, Action),
)
    requires
        stage_wf(*old(generator), Stage::FillingWallet(mempool, plan)),
        call_ensures(
            TxGenerator::run_tick,
            (generator, Stage::FillingWallet(mempool, plan), event, now),
            next,
        ),
        plan.blocks@.len() < plan.heights@.len() ==> event is BlockHashFetched,
        plan.blocks@.len() == plan.heights@.len() ==> event is TxFetched,
    ensures
        ({
            let before = old(generator).remembered()@;
            let after = final(generator).remembered()@;
            &&& after.scan_tip == before.scan_tip
            &&& after.mempool_txs == before.mempool_txs
            &&& event matches Event::BlockHashFetched(Some(hash)) ==> after.block_hashes
                == before.block_hashes.insert(plan.heights@[plan.blocks@.len() as int], hash)
                && after.confirmed_txs == before.confirmed_txs
            &&& event matches Event::BlockHashFetched(None) ==> after == before && (
            next.0 matches Stage::Skipped(SkipReason::Wallet(WalletError::BlockHash)))
            &&& event matches Event::TxFetched(Some(tx)) ==> {
                let utxo = plan.snapshot.utxos@[plan.next as int];
                &&& after.block_hashes == before.block_hashes
                &&& exists|k: int|
                    0 <= k < plan.blocks@.len() && (#[trigger] plan.blocks@[k]).height
                        == utxo.height % 0x1_0000_0000 && after.confirmed_txs
                        == before.confirmed_txs.insert(
                        ConfirmedKey { txid: utxo.txid, block: plan.blocks@[k].hash },
                        Arc::new(tx),
                    )
            }
            &&& event matches Event::TxFetched(None) ==> after == before
        }),
{
    if plan.blocks@.len() == plan.heights@.len() {
        lemma_block_at(plan, plan.next as int);
    }
}

// ---------------------------------------------------------------------------------------
// Progress.
// ---------------------------------------------------------------------------------------

/// The blocks that are added without asking stand at the next heights, and each is the tip of the
/// scan or remembered.
proof fn lemma_blocks_added(
    tip: BlockId,
    cache: Map<u32, BlockHash>,
    heights: Seq<u32>,
    blocks: Seq<BlockId>,
)
    requires
        blocks.len() <= heights.len(),
    ensures
        ({
            let more = blocks_from(tip, cache, heights, blocks);
            &&& blocks.len() <= more.len() <= heights.len()
            &&& more.take(blocks.len() as int) == blocks
            &&& forall|k: int|
                blocks.len() <= k < more.len() ==> (#[trigger] more[k]).height == heights[k] && (
                more[k] == tip || cache.contains_key(more[k].height) && cache[more[k].height]
                    == more[k].hash)
        }),
    decreases heights.len() - blocks.len(),
{
    let more = blocks_from(tip, cache, heights, blocks);
    if blocks.len() < heights.len() {
        let height = heights[blocks.len() as int];
        match known_hash(tip, cache, height) {
            Some(hash) => {
                let longer = blocks.push(BlockId { height, hash });
                lemma_blocks_added(tip, cache, heights, longer);
                assert(more.take(blocks.len() as int) =~= longer.take(blocks.len() as int));
                assert(longer.take(blocks.len() as int) =~= blocks);
                assert forall|k: int| blocks.len() <= k < more.len() implies (
                #[trigger] more[k]).height == heights[k] && (more[k] == tip || cache.contains_key(
                    more[k].height,
                ) && cache[more[k].height] == more[k].hash) by {
                    if k == blocks.len() {
                        assert(more.take(longer.len() as int)[k] == longer[k]);
                    }
                }
            },
            None => {
                assert(more.take(blocks.len() as int) =~= blocks);
            },
        }
    } else {
        assert(more.take(blocks.len() as int) =~= blocks);
    }
}

/// The transactions that are added without asking are remembered for the outputs that are passed,
/// and no output is passed without its transaction.
proof fn lemma_parents_added(
    utxos: Seq<Utxo>,
    chain: Map<u32, BlockHash>,
    cache: Map<ConfirmedKey, Arc<Transaction>>,
    next: int,
    parents: Map<Txid, Parent>,
)
    requires
        0 <= next <= utxos.len(),
    ensures
        ({
            let (reached, more) = parents_from(utxos, chain, cache, next, parents);
            &&& next <= reached <= utxos.len()
            &&& parents.submap_of(more)
            &&& forall|i: int| next <= i < reached ==> more.contains_key((#[trigger] utxos[i]).txid)
            &&& forall|txid: Txid| #[trigger]
                more.contains_key(txid) ==> parents.contains_key(txid) && more[txid]
                    == parents[txid] || {
                    let key = ConfirmedKey { txid, block: more[txid].block.hash };
                    cache.contains_key(key) && cache[key] == more[txid].tx
                }
        }),
    decreases utxos.len() - next,
{
    if next < utxos.len() {
        let txid = utxos[next].txid;
        let key = parent_key(utxos[next], chain);
        if parents.contains_key(txid) {
            lemma_parents_added(utxos, chain, cache, next + 1, parents);
        } else if cache.contains_key(key) {
            let longer = parents.insert(
                txid,
                Parent { tx: cache[key], block: block_of(utxos[next], chain) },
            );
            lemma_parents_added(utxos, chain, cache, next + 1, longer);
            let (reached, more) = parents_from(utxos, chain, cache, next, parents);
            assert forall|t: Txid| #[trigger] parents.dom().contains(t) implies more.dom().contains(
                t,
            ) && parents[t] == more[t] by {
                assert(longer.dom().contains(t));
            }
            assert(more.contains_key(txid)) by {
                assert(longer.contains_key(txid));
            }
        }
    }
}

/// A transaction that is added without asking is that of an output that is passed.
pub proof fn lemma_parents_sought(
    utxos: Seq<Utxo>,
    chain: Map<u32, BlockHash>,
    cache: Map<ConfirmedKey, Arc<Transaction>>,
    next: int,
    parents: Map<Txid, Parent>,
    txid: Txid,
)
    requires
        0 <= next <= utxos.len(),
        !parents.contains_key(txid),
        parents_from(utxos, chain, cache, next, parents).1.contains_key(txid),
    ensures
        exists|i: int|
            next <= i < parents_from(utxos, chain, cache, next, parents).0 && (
            #[trigger] utxos[i]).txid == txid && parents_from(
                utxos,
                chain,
                cache,
                next,
                parents,
            ).1[txid].block == block_of(utxos[i], chain),
    decreases utxos.len() - next,
{
    lemma_parents_added(utxos, chain, cache, next, parents);
    if next < utxos.len() {
        let key = parent_key(utxos[next], chain);
        if parents.contains_key(utxos[next].txid) {
            lemma_parents_sought(utxos, chain, cache, next + 1, parents, txid);
        } else if cache.contains_key(key) {
            let longer = parents.insert(
                utxos[next].txid,
                Parent { tx: cache[key], block: block_of(utxos[next], chain) },
            );
            lemma_parents_added(utxos, chain, cache, next + 1, longer);
            if txid == utxos[next].txid {
                assert(longer.dom().contains(txid));
            } else {
                lemma_parents_sought(utxos, chain, cache, next + 1, longer, txid);
            }
        }
    }
}

/// How a plan goes on out of what is remembered.
pub proof fn lemma_goes_on(plan: PlanView, caches: CachesView)
    requires
        plan.blocks.len() <= plan.heights.len(),
        0 <= plan.next <= plan.utxos.len(),
    ensures
        goes_on(plan, caches, plan.reusing(caches)),
{
    lemma_blocks_added(plan.tip, caches.block_hashes, plan.heights, plan.blocks);
    let blocks = blocks_from(plan.tip, caches.block_hashes, plan.heights, plan.blocks);
    lemma_parents_added(
        plan.utxos,
        blocks_by_height(blocks),
        caches.confirmed_txs,
        plan.next,
        plan.parents,
    );
}

/// Whether a plan went on out of what is remembered: nothing of it is given up, each further block
/// is the tip of the scan or remembered for its height, each further transaction is remembered for
/// its id and block, and no output was passed without its transaction.
pub open spec fn goes_on(plan: PlanView, remembered: CachesView, later: PlanView) -> bool {
    &&& later.wallet == plan.wallet
    &&& later.tip == plan.tip
    &&& later.utxos == plan.utxos
    &&& later.heights == plan.heights
    &&& plan.blocks.len() <= later.blocks.len() <= later.heights.len()
    &&& later.blocks.take(plan.blocks.len() as int) == plan.blocks
    &&& forall|k: int|
        plan.blocks.len() <= k < later.blocks.len() ==> (#[trigger] later.blocks[k]).height
            == later.heights[k] && (later.blocks[k] == later.tip
            || remembered.block_hashes.contains_key(later.blocks[k].height)
            && remembered.block_hashes[later.blocks[k].height] == later.blocks[k].hash)
    &&& plan.next <= later.next <= later.utxos.len()
    &&& plan.parents.submap_of(later.parents)
    &&& forall|i: int|
        plan.next <= i < later.next ==> later.parents.contains_key(
            (#[trigger] later.utxos[i]).txid,
        )
    &&& forall|txid: Txid| #[trigger]
        later.parents.contains_key(txid) ==> plan.parents.contains_key(txid) && later.parents[txid]
            == plan.parents[txid] || {
            let key = ConfirmedKey { txid, block: later.parents[txid].block.hash };
            remembered.confirmed_txs.contains_key(key) && remembered.confirmed_txs[key]
                == later.parents[txid].tx
        }
}

/// A tick that goes on filling a wallet keeps what it has, with the same scan, wallet and mempool.
/// What it adds is remembered, as the reply is. An output is passed over only if its transaction is
/// had, but for the one whose transaction the node could not give.
pub proof fn filling_keeps_what_it_has(
    generator: &mut TxGenerator,
    mempool: MempoolSnapshot,
    plan: WalletPlan,
    event: Event,
    now: u64,
    next: (Stage, Action),
    later_mempool: MempoolSnapshot,
    later: WalletPlan,
)
    requires
        stage_wf(*old(generator), Stage::FillingWallet(mempool, plan)),
        call_ensures(
            TxGenerator::run_tick,
            (generator, Stage::FillingWallet(mempool, plan), event, now),
            next,
        ),
        next.0 == Stage::FillingWallet(later_mempool, later),
        plan.blocks@.len() < plan.heights@.len() ==> event is BlockHashFetched,
        plan.blocks@.len() == plan.heights@.len() ==> event is TxFetched,
    ensures
        later_mempool.txs@ == mempool.txs@,
        event matches Event::BlockHashFetched(Some(hash)) ==> goes_on(
            (PlanView {
                blocks: plan.blocks@.push(
                    BlockId { height: plan.heights@[plan.blocks@.len() as int], hash },
                ),
                ..plan@
            }),
            final(generator).remembered()@,
            later@,
        ),
        event matches Event::TxFetched(Some(tx)) ==> exists|k: int| {
            &&& 0 <= k < plan.blocks@.len()
            &&& (#[trigger] plan.blocks@[k]).height == plan.snapshot.utxos@[plan.next as int].height
                % 0x1_0000_0000
            &&& goes_on(
                (PlanView {
                    next: plan.next + 1,
                    parents: plan.parents@.insert(
                        plan.snapshot.utxos@[plan.next as int].txid,
                        Parent { tx: Arc::new(tx), block: plan.blocks@[k] },
                    ),
                    ..plan@
                }),
                final(generator).remembered()@,
                later@,
            )
        },
        event matches Event::TxFetched(None) ==> goes_on(
            (PlanView { next: plan.next + 1, ..plan@ }),
            final(generator).remembered()@,
            later@,
        ),
{
    let caches = final(generator).remembered()@;
    match event {
        Event::BlockHashFetched(Some(hash)) => {
            lemma_goes_on(plan@.accepting_block(hash), caches);
        },
        Event::TxFetched(Some(tx)) => {
            lemma_block_at(plan, plan.next as int);
            lemma_goes_on(plan@.accepting_parent(Some(Arc::new(tx))), caches);
        },
        Event::TxFetched(None) => {
            lemma_goes_on(plan@.accepting_parent(None), caches);
        },
        _ => {},
    }
}

/// A tick begins to fill a wallet with nothing but what is remembered, for the scan that it goes on
/// with and with a wallet of its own two descriptors and its network, which knows nothing but the
/// first block.
pub proof fn filling_begins_with_what_is_remembered(
    generator: &mut TxGenerator,
    stage: Stage,
    event: Event,
    now: u64,
    next: (Stage, Action),
    snapshot: ConfirmedSnapshot,
    mempool: MempoolSnapshot,
    plan: WalletPlan,
)
    requires
        call_ensures(TxGenerator::run_tick, (generator, stage, event, now), next),
        stage_wf(*old(generator), stage),
        next.0 == Stage::FillingWallet(mempool, plan),
        match stage {
            Stage::ListingMempool(s) => s == snapshot,
            Stage::FetchingMempool(s, _) => s == snapshot,
            Stage::CheckingTip(_, _, s) => s == snapshot,
            _ => false,
        },
    ensures
        plan.snapshot.tip == snapshot.tip,
        plan.snapshot.utxos@ == snapshot.utxos@,
        snapshot.utxos@.len() > 0,
        stage matches Stage::CheckingTip(checked, _, _) ==> mempool.txs@ == checked.txs@,
        goes_on(
            (PlanView {
                wallet: plan.wallet,
                tip: snapshot.tip,
                utxos: snapshot.utxos@,
                heights: plan.heights@,
                blocks: Seq::empty(),
                next: 0,
                parents: Map::empty(),
            }),
            final(generator).remembered()@,
            plan@,
        ),
        plan.wallet.descriptors() == map![
            Keychain::External => old(generator).external(),
            Keychain::Internal => old(generator).internal(),
        ],
        plan.wallet.network() == named(old(generator).settings().network),
        plan.wallet.chain() == map![0u32 => genesis_of(plan.wallet.network())],
        plan.wallet.txs() == Map::<Txid, TransactionView>::empty(),
        plan.wallet.updates() == Seq::<UpdateView>::empty(),
{
    let caches = final(generator).remembered()@;
    let wallet = plan.wallet;
    let begun = PlanView {
        wallet,
        tip: snapshot.tip,
        utxos: snapshot.utxos@,
        heights: plan.heights@,
        blocks: Seq::empty(),
        next: 0,
        parents: Map::empty(),
    };
    lemma_plan_from(*old(generator), stage, event, now, caches, next.0, snapshot);
    lemma_goes_on(begun, caches);
}

/// A plan that a tick begins is the one of its scan, as far as that goes out of what is remembered.
proof fn lemma_plan_from(
    generator: TxGenerator,
    stage: Stage,
    event: Event,
    now: u64,
    caches_after: CachesView,
    stage_after: Stage,
    snapshot: ConfirmedSnapshot,
)
    requires
        stepped(generator, stage, event, now, caches_after, stage_after),
        stage_wf(generator, stage),
        stage_after is FillingWallet,
        match stage {
            Stage::ListingMempool(s) => s == snapshot,
            Stage::FetchingMempool(s, _) => s == snapshot,
            Stage::CheckingTip(_, _, s) => s == snapshot,
            _ => false,
        },
    ensures
        ({
            let plan = stage_after->FillingWallet_1@;
            &&& snapshot.utxos@.len() > 0
            &&& plan == plan_begun(
                plan.wallet,
                snapshot.tip,
                snapshot.utxos@,
                plan.heights,
            ).reusing(caches_after)
            &&& plan.wallet.fresh(
                generator.external(),
                generator.internal(),
                btc_network_of(generator.settings().network),
            )
            &&& stage matches Stage::CheckingTip(checked, _, _)
                ==> stage_after->FillingWallet_0.txs@ == checked.txs@
        }),
{
    match (stage, event) {
        (Stage::CheckingTip(mempool, wallet, s), Event::BlockHashFetched(reply)) => {
            lemma_plan_started(
                generator,
                generator.remembered()@.checking(snapshot.tip, reply),
                wallet,
                snapshot,
                mempool.txs@,
                now,
                caches_after,
                stage_after,
            );
        },
        (Stage::ListingMempool(s), Event::MempoolListed(Some(txids))) => {
            let caches = CachesView {
                mempool_txs: generator.remembered()@.mempool_txs.restrict(txids@.to_set()),
                ..generator.remembered()@
            };
            lemma_plan_read(
                generator,
                caches,
                snapshot,
                fetch_begun(txids@),
                now,
                caches_after,
                stage_after,
            );
        },
        (Stage::FetchingMempool(s, fetch), Event::TxFetched(reply)) => {
            let caches = CachesView {
                mempool_txs: fetch@.remembering(
                    generator.remembered()@.mempool_txs,
                    shared(reply),
                ),
                ..generator.remembered()@
            };
            lemma_plan_read(
                generator,
                caches,
                snapshot,
                fetch@.accepting(shared(reply)),
                now,
                caches_after,
                stage_after,
            );
        },
        _ => {},
    }
}

/// The same for a step that ends the reading of the mempool.
proof fn lemma_plan_read(
    generator: TxGenerator,
    caches: CachesView,
    snapshot: ConfirmedSnapshot,
    fetch: FetchView,
    now: u64,
    caches_after: CachesView,
    stage_after: Stage,
)
    requires
        mempool_read(generator, caches, snapshot, fetch, now, caches_after, stage_after),
        stage_after is FillingWallet,
    ensures
        ({
            let plan = stage_after->FillingWallet_1@;
            &&& snapshot.utxos@.len() > 0
            &&& plan == plan_begun(
                plan.wallet,
                snapshot.tip,
                snapshot.utxos@,
                plan.heights,
            ).reusing(caches_after)
            &&& plan.wallet.fresh(
                generator.external(),
                generator.internal(),
                btc_network_of(generator.settings().network),
            )
        }),
{
    let txs = fetch.reusing(caches.mempool_txs).txs;
    let network = btc_network_of(generator.settings().network);
    let wallet = choose|wallet: TickWallet| #[trigger]
        wallet.fresh(generator.external(), generator.internal(), network) && wallet_started(
            generator,
            caches.noting(snapshot.tip),
            wallet,
            snapshot,
            txs,
            now,
            caches_after,
            stage_after,
        );
    lemma_plan_started(
        generator,
        caches.noting(snapshot.tip),
        wallet,
        snapshot,
        txs,
        now,
        caches_after,
        stage_after,
    );
}

/// The same for a step that begins with a fresh wallet.
proof fn lemma_plan_started(
    generator: TxGenerator,
    caches: CachesView,
    wallet: TickWallet,
    snapshot: ConfirmedSnapshot,
    txs: Seq<Arc<Transaction>>,
    now: u64,
    caches_after: CachesView,
    stage_after: Stage,
)
    requires
        wallet_started(
            generator,
            caches,
            wallet,
            snapshot,
            txs,
            now,
            caches_after,
            stage_after,
        ),
        stage_after is FillingWallet,
    ensures
        ({
            let plan = stage_after->FillingWallet_1@;
            &&& snapshot.utxos@.len() > 0
            &&& plan == plan_begun(
                wallet,
                snapshot.tip,
                snapshot.utxos@,
                plan.heights,
            ).reusing(caches_after)
            &&& plan.wallet == wallet
            &&& stage_after->FillingWallet_0.txs@ == txs
        }),
{
    let heights = choose|heights: Seq<u32>| #[trigger]
        are_heights(snapshot, heights) && plan_advanced(
            generator,
            caches,
            plan_begun(wallet, snapshot.tip, snapshot.utxos@, heights),
            txs,
            now,
            caches_after,
            stage_after,
        );
    lemma_goes_on(plan_begun(wallet, snapshot.tip, snapshot.utxos@, heights), caches);
}

} // verus!
