//! How a wallet is filled with the confirmed outputs that a scan found.
//!
//! BDK wants more than the outputs: the transactions that they belong to, the blocks that
//! confirm those, and a chain that reaches from the first block to the tip of the scan. Blocks
//! and transactions that were had before are not asked for again.

use crate::bdk::{
    ascending, blocks_by_height, genesis_hash, genesis_of, heights_in_range, holds_more,
    insert_anchor, insert_txout, is_anchored, new_update, revealed_to, update_anchors, update_raws,
    update_seen_ats, update_txouts, update_txs, whole_forgotten, Anchor, UpdateView, HEIGHT_LIMIT,
    LAST_ACTIVE_INDEX,
};
use crate::caches::{Caches, CachesView};
use crate::scan::{low_half, low_half_of, ConfirmedSnapshot, Utxo};
use crate::table::Table;
use crate::tx::{holdable, opens_block, Transaction, TransactionView};
use crate::types::{contains, BlockHash, BlockId, ConfirmedKey, OutPoint, TxOutView, Txid};
use crate::wallet::{
    add_tx, are_fit, connects, fit, null_ids, null_spenders_of, outputs_belong, raws_of,
    rewards_known, told, txs_holdable, views_of, TickWallet, WalletError,
};
use bdk_wallet::bitcoin::Network;
use bdk_wallet::chain::{ConfirmationBlockTime, TxUpdate};
use std::collections::BTreeMap;
use std::sync::Arc;
use vstd::prelude::*;

verus! {

// ---------------------------------------------------------------------------------------
// Heights and blocks.
// ---------------------------------------------------------------------------------------

/// Whether a wallet needs the block at a height: the first, the tip, or one that holds an
/// output.
pub open spec fn needed(snapshot: ConfirmedSnapshot, height: u32) -> bool {
    ||| height == 0
    ||| height == snapshot.tip.height
    ||| holds_output(snapshot.utxos@, height)
}

/// Whether an output of a list stands at a height.
pub open spec fn holds_output(utxos: Seq<Utxo>, height: u32) -> bool {
    exists|i: int| 0 <= i < utxos.len() && low_half((#[trigger] utxos[i]).height) == height
}

/// Whether the heights of a list ascend.
pub open spec fn climbing(heights: Seq<u32>) -> bool {
    forall|i: int, j: int| 0 <= i < j < heights.len() ==> heights[i] < heights[j]
}

/// Puts a height in its place among ascending ones, unless it is there.
fn insert_height(heights: &mut Vec<u32>, height: u32)
    requires
        climbing(old(heights)@),
    ensures
        climbing(final(heights)@),
        forall|h: u32| #[trigger]
            final(heights)@.contains(h) <==> old(heights)@.contains(h) || h == height,
{
    let mut at: usize = 0;
    while at < heights.len() && heights[at] < height
        invariant
            at <= heights@.len(),
            forall|i: int| 0 <= i < at ==> heights@[i] < height,
        decreases heights@.len() - at,
    {
        at += 1;
    }
    if at < heights.len() && heights[at] == height {
        assert(heights@.contains(height));
        return;
    }
    let ghost before = heights@;
    heights.insert(at, height);
    proof {
        let after = heights@;
        assert(after == before.insert(at as int, height));
        assert forall|h: u32| #[trigger]
            after.contains(h) <==> before.contains(h) || h == height by {
            if before.contains(h) {
                let i = choose|i: int| 0 <= i < before.len() && before[i] == h;
                if i < at {
                    assert(after[i] == h);
                } else {
                    assert(after[i + 1] == h);
                }
            }
            if h == height {
                assert(after[at as int] == h);
            }
            if after.contains(h) && h != height {
                let i = choose|i: int| 0 <= i < after.len() && after[i] == h;
                if i < at {
                    assert(before[i] == h);
                } else {
                    assert(before[i - 1] == h);
                }
            }
        }
    }
}

/// Lists the heights of the blocks that a wallet needs, in ascending order.
pub fn needed_heights(snapshot: &ConfirmedSnapshot) -> (heights: Vec<u32>)
    ensures
        climbing(heights@),
        forall|height: u32| #[trigger] heights@.contains(height) <==> needed(*snapshot, height),
{
    let mut heights: Vec<u32> = Vec::new();
    insert_height(&mut heights, 0);
    insert_height(&mut heights, snapshot.tip.height);
    let mut i: usize = 0;
    while i < snapshot.utxos.len()
        invariant
            i <= snapshot.utxos@.len(),
            climbing(heights@),
            forall|height: u32| #[trigger]
                heights@.contains(height) <==> height == 0 || height == snapshot.tip.height
                    || holds_output(snapshot.utxos@.take(i as int), height),
        decreases snapshot.utxos@.len() - i,
    {
        let found: u32 = low_half_of(snapshot.utxos[i].height);
        insert_height(&mut heights, found);
        proof {
            let before = snapshot.utxos@.take(i as int);
            let after = snapshot.utxos@.take(i + 1);
            assert forall|height: u32|
                holds_output(after, height) <==> holds_output(before, height) || height
                    == found by {
                if holds_output(before, height) {
                    let k = choose|k: int|
                        0 <= k < before.len() && low_half((#[trigger] before[k]).height) == height;
                    assert(low_half(after[k].height) == height);
                }
                if height == found {
                    assert(low_half(after[i as int].height) == height);
                }
                if holds_output(after, height) && height != found {
                    let k = choose|k: int|
                        0 <= k < after.len() && low_half((#[trigger] after[k]).height) == height;
                    assert(low_half(before[k].height) == height);
                }
            }
        }
        i += 1;
    }
    assert(snapshot.utxos@.take(i as int) =~= snapshot.utxos@);
    heights
}

/// A chain of ascending blocks holds each of them at its height, and nothing else.
pub proof fn lemma_blocks_by_height(blocks: Seq<BlockId>)
    requires
        ascending(blocks),
    ensures
        forall|i: int|
            0 <= i < blocks.len() ==> blocks_by_height(blocks).contains_key(
                (#[trigger] blocks[i]).height,
            ) && blocks_by_height(blocks)[blocks[i].height] == blocks[i].hash,
        forall|height: u32| #[trigger]
            blocks_by_height(blocks).contains_key(height) ==> exists|i: int|
                0 <= i < blocks.len() && (#[trigger] blocks[i]).height == height,
    decreases blocks.len(),
{
    if blocks.len() != 0 {
        let rest = blocks.drop_last();
        lemma_blocks_by_height(rest);
        assert forall|i: int| 0 <= i < blocks.len() implies blocks_by_height(blocks).contains_key(
            (#[trigger] blocks[i]).height,
        ) && blocks_by_height(blocks)[blocks[i].height] == blocks[i].hash by {
            if i < blocks.len() - 1 {
                assert(rest[i] == blocks[i]);
            }
        }
        assert forall|height: u32| #[trigger]
            blocks_by_height(blocks).contains_key(height) implies exists|i: int|
            0 <= i < blocks.len() && (#[trigger] blocks[i]).height == height by {
            if height == blocks.last().height {
                assert(blocks[blocks.len() - 1].height == height);
            } else {
                assert(blocks_by_height(rest).contains_key(height));
                let i = choose|i: int| 0 <= i < rest.len() && (#[trigger] rest[i]).height == height;
                assert(blocks[i].height == height);
            }
        }
    }
}

/// What is known of the block at a height before the node is asked: the tip, and what is
/// remembered.
pub open spec fn known_hash(
    tip: BlockId,
    cache: Map<u32, BlockHash>,
    height: u32,
) -> Option<BlockHash> {
    if height == tip.height {
        Some(tip.hash)
    } else if cache.contains_key(height) {
        Some(cache[height])
    } else {
        None
    }
}

// ---------------------------------------------------------------------------------------
// Parents.
// ---------------------------------------------------------------------------------------

/// The transaction that an output belongs to, and the block that confirms it.
pub struct Parent {
    pub tx: Arc<Transaction>,
    pub block: BlockId,
}

/// The block that holds an output.
pub open spec fn block_of(utxo: Utxo, chain: Map<u32, BlockHash>) -> BlockId {
    BlockId { height: low_half(utxo.height), hash: chain[low_half(utxo.height)] }
}

/// Under what the transaction of an output is remembered.
pub open spec fn parent_key(utxo: Utxo, chain: Map<u32, BlockHash>) -> ConfirmedKey {
    ConfirmedKey { txid: utxo.txid, block: block_of(utxo, chain).hash }
}

/// How far the search for parents gets from one output on, with what it has, out of what is
/// remembered alone: to the first output whose transaction is neither found nor remembered.
pub open spec fn parents_from(
    utxos: Seq<Utxo>,
    chain: Map<u32, BlockHash>,
    cache: Map<ConfirmedKey, Arc<Transaction>>,
    next: int,
    parents: Map<Txid, Parent>,
) -> (int, Map<Txid, Parent>)
    decreases utxos.len() - next,
{
    if 0 <= next < utxos.len() && parents.contains_key(utxos[next].txid) {
        parents_from(utxos, chain, cache, next + 1, parents)
    } else if 0 <= next < utxos.len() && cache.contains_key(parent_key(utxos[next], chain)) {
        parents_from(
            utxos,
            chain,
            cache,
            next + 1,
            parents.insert(
                utxos[next].txid,
                Parent {
                    tx: cache[parent_key(utxos[next], chain)],
                    block: block_of(utxos[next], chain),
                },
            ),
        )
    } else {
        (next, parents)
    }
}

/// Whether each parent is that of an output among the first few, confirmed by the block that
/// holds the output.
pub open spec fn belongs(
    utxos: Seq<Utxo>,
    chain: Map<u32, BlockHash>,
    next: int,
    parents: Map<Txid, Parent>,
) -> bool {
    forall|txid: Txid| #[trigger]
        parents.contains_key(txid) ==> exists|i: int|
            0 <= i < next && (#[trigger] utxos[i]).txid == txid && parents[txid].block == block_of(
                utxos[i],
                chain,
            )
}

// ---------------------------------------------------------------------------------------
// What goes into the wallet.
// ---------------------------------------------------------------------------------------

/// The outputs of a list whose transactions were found.
pub open spec fn outputs_found(utxos: Seq<Utxo>, parents: Map<Txid, Parent>) -> Map<
    OutPoint,
    TxOutView,
>
    decreases utxos.len(),
{
    if utxos.len() == 0 {
        Map::empty()
    } else {
        let utxo = utxos.last();
        let rest = outputs_found(utxos.drop_last(), parents);
        if parents.contains_key(utxo.txid) {
            rest.insert(
                OutPoint { txid: utxo.txid, vout: utxo.vout },
                TxOutView { value: utxo.amount, script_pubkey: utxo.script_pubkey@ },
            )
        } else {
            rest
        }
    }
}

/// The ids under which the transactions of a list of outputs were found, each once and in the
/// order in which they first come up.
pub open spec fn ids_found(utxos: Seq<Utxo>, parents: Map<Txid, Parent>) -> Seq<Txid>
    decreases utxos.len(),
{
    if utxos.len() == 0 {
        Seq::empty()
    } else {
        let utxo = utxos.last();
        let rest = ids_found(utxos.drop_last(), parents);
        if parents.contains_key(utxo.txid) && !rest.contains(utxo.txid) {
            rest.push(utxo.txid)
        } else {
            rest
        }
    }
}

/// The ids that were found are ids of outputs, under which a transaction was found.
pub proof fn lemma_ids_found(utxos: Seq<Utxo>, parents: Map<Txid, Parent>, txid: Txid)
    requires
        ids_found(utxos, parents).contains(txid),
    ensures
        parents.contains_key(txid),
    decreases utxos.len(),
{
    if utxos.len() != 0 {
        let rest = ids_found(utxos.drop_last(), parents);
        if rest.contains(txid) {
            lemma_ids_found(utxos.drop_last(), parents, txid);
        } else {
            let k = choose|k: int|
                0 <= k < ids_found(utxos, parents).len() && ids_found(utxos, parents)[k] == txid;
            if k < rest.len() {
                assert(rest[k] == txid);
            }
        }
    }
}

/// The id of an output whose transaction was found is among the ids that were found.
pub proof fn lemma_ids_complete(utxos: Seq<Utxo>, parents: Map<Txid, Parent>, n: int)
    requires
        0 <= n < utxos.len(),
        parents.contains_key(utxos[n].txid),
    ensures
        ids_found(utxos, parents).contains(utxos[n].txid),
    decreases utxos.len(),
{
    let rest = ids_found(utxos.drop_last(), parents);
    let all = ids_found(utxos, parents);
    if n < utxos.len() - 1 {
        lemma_ids_complete(utxos.drop_last(), parents, n);
        let k = choose|k: int| 0 <= k < rest.len() && rest[k] == utxos[n].txid;
        assert(all[k] == utxos[n].txid);
    } else if !rest.contains(utxos[n].txid) {
        assert(all[rest.len() as int] == utxos[n].txid);
    }
}

/// The transactions that were found under a list of ids.
pub open spec fn txs_found(ids: Seq<Txid>, parents: Map<Txid, Parent>) -> Seq<TransactionView> {
    Seq::new(ids.len(), |i: int| parents[ids[i]].tx@)
}

/// The encodings of the transactions that were found under a list of ids.
pub open spec fn raws_found(ids: Seq<Txid>, parents: Map<Txid, Parent>) -> Seq<Seq<u8>> {
    Seq::new(ids.len(), |i: int| parents[ids[i]].tx.bytes())
}

/// The ids of those transactions of a list that open a block and have none of some ids.
pub open spec fn loose_ids(ids: Seq<Txid>, txs: Seq<TransactionView>) -> Set<Txid> {
    Set::new(
        |txid: Txid|
            !ids.contains(txid) && exists|i: int|
                0 <= i < txs.len() && (#[trigger] txs[i]).txid == txid && opens_block(txs[i]),
    )
}

/// Whether a wallet can take in the transactions that were found for the outputs of a scan. Those
/// that open a block and were not sought under their own id stand without one.
pub open spec fn fillable(utxos: Seq<Utxo>, parents: Map<Txid, Parent>) -> bool {
    let ids = ids_found(utxos, parents);
    let txs = txs_found(ids, parents);
    fit(txs, null_ids(txs), loose_ids(ids, txs))
}

/// Whether the block of each transaction is one of a chain.
pub open spec fn anchored_in(parents: Map<Txid, Parent>, chain: Map<u32, BlockHash>) -> bool {
    forall|txid: Txid| #[trigger]
        parents.contains_key(txid) ==> chain.contains_key(parents[txid].block.height)
            && chain[parents[txid].block.height] == parents[txid].block.hash
}

/// What a wallet is told when it is filled.
pub open spec fn filling(
    blocks: Seq<BlockId>,
    utxos: Seq<Utxo>,
    parents: Map<Txid, Parent>,
) -> UpdateView {
    UpdateView {
        last_active: LAST_ACTIVE_INDEX,
        raws: raws_found(ids_found(utxos, parents), parents),
        txouts: outputs_found(utxos, parents),
        anchors: confirmations(ids_found(utxos, parents), parents),
        seen_ats: Set::empty(),
        blocks: Some(blocks_by_height(blocks)),
    }
}

/// The time that is given for a confirmation. A scan tells of heights only.
pub const CONFIRMATION_TIME: u64 = 0;

/// The confirmation by a block.
pub open spec fn anchor_in(block: BlockId) -> Anchor {
    Anchor { block, time: CONFIRMATION_TIME }
}

/// The confirmations of the transactions that were found under a list of ids.
pub open spec fn confirmations(ids: Seq<Txid>, parents: Map<Txid, Parent>) -> Set<(Anchor, Txid)> {
    Set::new(
        |confirmation: (Anchor, Txid)|
            ids.contains(confirmation.1) && confirmation.0 == anchor_in(
                parents[confirmation.1].block,
            ),
    )
}

/// Whether each transaction has the id under which it was sought.
pub open spec fn found_rightly(parents: Map<Txid, Parent>) -> bool {
    forall|txid: Txid| #[trigger]
        parents.contains_key(txid) ==> parents[txid].tx@.txid == txid
}

/// Whether a wallet came from another by being filled: with blocks, and with the transactions
/// that were found for the outputs of a scan. An output stays without its transaction if another
/// transaction was found in its place. If none was, the wallet has nothing but its own.
pub open spec fn filled(
    before: TickWallet,
    blocks: Seq<BlockId>,
    utxos: Seq<Utxo>,
    parents: Map<Txid, Parent>,
    after: TickWallet,
) -> bool {
    let ids = ids_found(utxos, parents);
    &&& after.wf()
    &&& after.descriptors() == before.descriptors()
    &&& after.network() == before.network()
    &&& after.updates() == before.updates().push(filling(blocks, utxos, parents))
    &&& after.scripts() == before.scripts()
    &&& after.chain() == blocks_by_height(blocks)
    &&& holds_more(before.txs(), txs_found(ids, parents), after.txs())
    &&& after.floating() == whole_forgotten(outputs_found(utxos, parents), after.txs().dom())
    &&& found_rightly(parents) ==> after.own_only()
    &&& after.null_spenders() == null_ids(txs_found(ids, parents))
    &&& after.loose() == loose_ids(ids, txs_found(ids, parents))
    &&& after.anchors() == confirmations(ids, parents)
    &&& after.last_seen() == Map::<Txid, u64>::empty()
    &&& revealed_to(after.revealed(), LAST_ACTIVE_INDEX)
}

/// Whether a wallet knows nothing but one block, at height zero.
pub open spec fn blank(wallet: TickWallet) -> bool {
    &&& wallet.wf()
    &&& wallet.own_only()
    &&& wallet.null_spenders() == Set::<Txid>::empty()
    &&& wallet.chain().dom() == set![0u32]
    &&& wallet.txs() == Map::<Txid, TransactionView>::empty()
    &&& wallet.anchors() == Set::<(Anchor, Txid)>::empty()
    &&& wallet.last_seen() == Map::<Txid, u64>::empty()
}

/// Lists the ids under which the transactions of some outputs were found.
fn found_ids(utxos: &Vec<Utxo>, parents: &Table<Txid, Parent>) -> (ids: Vec<Txid>)
    requires
        parents.wf(),
    ensures
        ids@ == ids_found(utxos@, parents@),
{
    let mut ids: Vec<Txid> = Vec::new();
    let mut i: usize = 0;
    while i < utxos.len()
        invariant
            i <= utxos@.len(),
            parents.wf(),
            ids@ == ids_found(utxos@.take(i as int), parents@),
        decreases utxos@.len() - i,
    {
        let txid: Txid = utxos[i].txid;
        assert(utxos@.take(i + 1).drop_last() =~= utxos@.take(i as int));
        if parents.contains_key(&txid) && !contains(&ids, &txid) {
            ids.push(txid);
        }
        i += 1;
    }
    assert(utxos@.take(i as int) =~= utxos@);
    ids
}

/// Lists the transactions that were found under some ids.
fn found_txs(ids: &Vec<Txid>, parents: &Table<Txid, Parent>) -> (txs: Vec<Arc<Transaction>>)
    requires
        parents.wf(),
        forall|i: int| 0 <= i < ids@.len() ==> parents@.contains_key(#[trigger] ids@[i]),
    ensures
        views_of(txs@) == txs_found(ids@, parents@),
        raws_of(txs@) == raws_found(ids@, parents@),
{
    let mut txs: Vec<Arc<Transaction>> = Vec::new();
    let mut i: usize = 0;
    while i < ids.len()
        invariant
            i <= ids@.len(),
            parents.wf(),
            forall|k: int| 0 <= k < ids@.len() ==> parents@.contains_key(#[trigger] ids@[k]),
            txs@.len() == i,
            forall|k: int| 0 <= k < i ==> (#[trigger] txs@[k]) == parents@[ids@[k]].tx,
        decreases ids@.len() - i,
    {
        match parents.get(&ids[i]) {
            Some(parent) => txs.push(parent.tx.clone()),
            None => vstd::pervasive::unreached(),
        }
        i += 1;
    }
    assert(views_of(txs@) =~= txs_found(ids@, parents@));
    assert(raws_of(txs@) =~= raws_found(ids@, parents@));
    txs
}

/// Lists the ids of those transactions that open a block and have none of some ids.
fn found_loose(ids: &Vec<Txid>, txs: &Vec<Arc<Transaction>>) -> (loose: Vec<Txid>)
    ensures
        loose@.to_set() == loose_ids(ids@, views_of(txs@)),
{
    let ghost views = views_of(txs@);
    let mut loose: Vec<Txid> = Vec::new();
    let mut i: usize = 0;
    assert(loose@.to_set() =~= loose_ids(ids@, views.take(0)));
    while i < txs.len()
        invariant
            i <= txs@.len(),
            views == views_of(txs@),
            loose@.to_set() == loose_ids(ids@, views.take(i as int)),
        decreases txs@.len() - i,
    {
        let tx: &Transaction = &*txs[i];
        let txid: Txid = tx.txid();
        let ghost before = loose@;
        if tx.is_coinbase() && !contains(ids, &txid) {
            loose.push(txid);
            assert(loose@.to_set() =~= before.to_set().insert(txid)) by {
                lemma_push_to_set(before, txid);
            }
        }
        proof {
            let shorter = views.take(i as int);
            let longer = views.take(i + 1);
            assert(longer =~= shorter.push(tx@));
            assert forall|id: Txid| #[trigger]
                loose_ids(ids@, longer).contains(id) == (loose_ids(ids@, shorter).contains(id) || (
                !ids@.contains(id) && id == tx@.txid && opens_block(tx@))) by {
                if loose_ids(ids@, shorter).contains(id) {
                    let k = choose|k: int|
                        0 <= k < shorter.len() && (#[trigger] shorter[k]).txid == id
                            && opens_block(shorter[k]);
                    assert(longer[k] == shorter[k]);
                }
                if id == tx@.txid && opens_block(tx@) {
                    assert(longer[i as int] == tx@);
                }
                if loose_ids(ids@, longer).contains(id) {
                    let k = choose|k: int|
                        0 <= k < longer.len() && (#[trigger] longer[k]).txid == id && opens_block(
                            longer[k],
                        );
                    if k < i {
                        assert(shorter[k] == longer[k]);
                    }
                }
            }
            assert(loose@.to_set() =~= loose_ids(ids@, longer));
        }
        i += 1;
    }
    assert(views.take(i as int) =~= views);
    loose
}

/// A longer list has one id more.
proof fn lemma_push_to_set(ids: Seq<Txid>, id: Txid)
    ensures
        ids.push(id).to_set() == ids.to_set().insert(id),
{
    assert forall|txid: Txid| ids.push(id).to_set().contains(txid) == ids.to_set().insert(
        id,
    ).contains(txid) by {
        if ids.contains(txid) {
            let k = choose|k: int| 0 <= k < ids.len() && ids[k] == txid;
            assert(ids.push(id)[k] == txid);
        }
        if txid == id {
            assert(ids.push(id)[ids.len() as int] == txid);
        }
        if ids.push(id).contains(txid) && txid != id {
            let k = choose|k: int| 0 <= k < ids.push(id).len() && ids.push(id)[k] == txid;
            assert(ids[k] == txid);
        }
    }
    assert(ids.push(id).to_set() =~= ids.to_set().insert(id));
}

/// Makes the update that tells a wallet of the outputs of a scan: the transactions that were
/// found, each once and with its confirmation, and the outputs themselves.
fn confirmed_update(
    utxos: &Vec<Utxo>,
    ids: &Vec<Txid>,
    txs: &Vec<Arc<Transaction>>,
    parents: &Table<Txid, Parent>,
) -> (update: TxUpdate<ConfirmationBlockTime>)
    requires
        parents.wf(),
        forall|i: int| 0 <= i < ids@.len() ==> parents@.contains_key(#[trigger] ids@[i]),
        views_of(txs@) == txs_found(ids@, parents@),
        raws_of(txs@) == raws_found(ids@, parents@),
        txs_holdable(views_of(txs@)),
    ensures
        update_txs(update) == txs_found(ids@, parents@),
        update_raws(update) == raws_found(ids@, parents@),
        update_txouts(update) == outputs_found(utxos@, parents@),
        update_anchors(update) == confirmations(ids@, parents@),
        update_seen_ats(update) == Set::<(Txid, u64)>::empty(),
{
    let mut update = new_update();
    let ghost views = views_of(txs@);
    let ghost raws = raws_of(txs@);
    let mut i: usize = 0;
    assert(views.len() == ids@.len());
    assert(update_txs(update) =~= views.take(0));
    assert(update_raws(update) =~= raws.take(0));
    assert(update_anchors(update) =~= confirmations(ids@.take(0), parents@));
    while i < ids.len()
        invariant
            i <= ids@.len(),
            ids@.len() == txs@.len(),
            parents.wf(),
            forall|k: int| 0 <= k < ids@.len() ==> parents@.contains_key(#[trigger] ids@[k]),
            views == views_of(txs@),
            raws == raws_of(txs@),
            txs_holdable(views),
            update_txs(update) == views.take(i as int),
            update_raws(update) == raws.take(i as int),
            update_txouts(update) == Map::<OutPoint, TxOutView>::empty(),
            update_anchors(update) == confirmations(ids@.take(i as int), parents@),
            update_seen_ats(update) == Set::<(Txid, u64)>::empty(),
        decreases ids@.len() - i,
    {
        let txid: Txid = ids[i];
        let tx: &Transaction = &*txs[i];
        proof {
            assert(holdable(views[i as int]));
            assert forall|k: int| 0 <= k < update_txs(update).len() implies holdable(
                #[trigger] update_txs(update)[k],
            ) by {
                assert(holdable(views[k]));
            }
        }
        add_tx(&mut update, tx);
        match parents.get(&txid) {
            Some(parent) => {
                let anchor = Anchor { block: parent.block, time: CONFIRMATION_TIME };
                insert_anchor(&mut update, anchor, txid);
            },
            None => vstd::pervasive::unreached(),
        }
        proof {
            assert(views.take(i + 1) =~= views.take(i as int).push(tx@));
            assert(raws.take(i + 1) =~= raws.take(i as int).push(tx.bytes()));
            assert(ids@.take(i + 1) =~= ids@.take(i as int).push(txid));
            lemma_confirmations_push(ids@.take(i as int), txid, parents@);
        }
        i += 1;
    }
    proof {
        assert(views.take(i as int) =~= views);
        assert(raws.take(i as int) =~= raws);
        assert(ids@.take(i as int) =~= ids@);
    }
    let mut n: usize = 0;
    while n < utxos.len()
        invariant
            n <= utxos@.len(),
            parents.wf(),
            update_txs(update) == txs_found(ids@, parents@),
            update_raws(update) == raws_found(ids@, parents@),
            update_txouts(update) == outputs_found(utxos@.take(n as int), parents@),
            update_anchors(update) == confirmations(ids@, parents@),
            update_seen_ats(update) == Set::<(Txid, u64)>::empty(),
        decreases utxos@.len() - n,
    {
        let utxo: &Utxo = &utxos[n];
        assert(utxos@.take(n + 1).drop_last() =~= utxos@.take(n as int));
        if parents.contains_key(&utxo.txid) {
            let outpoint = OutPoint { txid: utxo.txid, vout: utxo.vout };
            insert_txout(&mut update, outpoint, utxo.amount, &utxo.script_pubkey);
        }
        n += 1;
    }
    assert(utxos@.take(n as int) =~= utxos@);
    update
}

/// A transaction that opens a block and was sought under its own id is confirmed.
proof fn lemma_rewards_known(
    utxos: Seq<Utxo>,
    parents: Map<Txid, Parent>,
    chain: Map<u32, BlockHash>,
)
    requires
        anchored_in(parents, chain),
    ensures
        ({
            let ids = ids_found(utxos, parents);
            let txs = txs_found(ids, parents);
            rewards_known(txs, confirmations(ids, parents), chain, loose_ids(ids, txs))
        }),
{
    let ids = ids_found(utxos, parents);
    let txs = txs_found(ids, parents);
    assert forall|i: int| 0 <= i < txs.len() && opens_block(#[trigger] txs[i]) implies is_anchored(
        confirmations(ids, parents),
        chain,
        txs[i].txid,
    ) || loose_ids(ids, txs).contains(txs[i].txid) by {
        let txid = txs[i].txid;
        if ids.contains(txid) {
            lemma_ids_found(utxos, parents, txid);
            let anchor = anchor_in(parents[txid].block);
            assert(confirmations(ids, parents).contains((anchor, txid)));
        }
    }
}

/// If every transaction has the id under which it was sought, an update has the transactions of all
/// its outputs.
proof fn lemma_outputs_belong(
    update: TxUpdate<ConfirmationBlockTime>,
    utxos: Seq<Utxo>,
    parents: Map<Txid, Parent>,
)
    requires
        found_rightly(parents),
        update_txs(update) == txs_found(ids_found(utxos, parents), parents),
        update_txouts(update) == outputs_found(utxos, parents),
    ensures
        outputs_belong(update),
{
    let ids = ids_found(utxos, parents);
    assert forall|outpoint: OutPoint| #[trigger]
        update_txouts(update).contains_key(outpoint) implies exists|k: int|
        0 <= k < update_txs(update).len() && (#[trigger] update_txs(update)[k]).txid
            == outpoint.txid by {
        lemma_outputs_found(utxos, parents, outpoint);
        let n = choose|n: int|
            0 <= n < utxos.len() && (#[trigger] utxos[n]).txid == outpoint.txid;
        lemma_ids_complete(utxos, parents, n);
        let k = choose|k: int| 0 <= k < ids.len() && ids[k] == outpoint.txid;
        assert(update_txs(update)[k].txid == outpoint.txid);
    }
}

/// An output that was found is of a transaction that was found.
proof fn lemma_outputs_found(utxos: Seq<Utxo>, parents: Map<Txid, Parent>, outpoint: OutPoint)
    requires
        outputs_found(utxos, parents).contains_key(outpoint),
    ensures
        parents.contains_key(outpoint.txid),
        exists|n: int| 0 <= n < utxos.len() && (#[trigger] utxos[n]).txid == outpoint.txid,
    decreases utxos.len(),
{
    let rest = utxos.drop_last();
    if outputs_found(rest, parents).contains_key(outpoint) {
        lemma_outputs_found(rest, parents, outpoint);
        let n = choose|n: int|
            0 <= n < rest.len() && (#[trigger] rest[n]).txid == outpoint.txid;
        assert(utxos[n].txid == outpoint.txid);
    } else {
        assert(utxos[utxos.len() - 1].txid == outpoint.txid);
    }
}

/// Whether the heights of ascending blocks are such as BDK takes.
fn are_in_range(blocks: &Vec<BlockId>) -> (within: bool)
    requires
        blocks@.len() != 0,
        ascending(blocks@),
    ensures
        within == heights_in_range(blocks_by_height(blocks@)),
{
    proof {
        lemma_blocks_by_height(blocks@);
    }
    let last: u32 = blocks[blocks.len() - 1].height;
    proof {
        let chain = blocks_by_height(blocks@);
        assert(chain.contains_key(last)) by {
            assert(blocks@[blocks@.len() - 1].height == last);
        }
        assert forall|height: u32| #[trigger] chain.contains_key(height) implies height <= last by {
            let i = choose|i: int| 0 <= i < blocks@.len() && (#[trigger] blocks@[i]).height
                == height;
            if i < blocks@.len() - 1 {
                assert(blocks@[i].height < blocks@[blocks@.len() - 1].height);
            }
        }
    }
    last < HEIGHT_LIMIT
}

/// Fills a wallet with blocks, and with the transactions that were found for the outputs of a
/// scan. It is refused exactly where a block stands at a height that BDK does not take, where the
/// wallet cannot take in the transactions, or where the blocks do not start with the one that the
/// wallet knows.
pub fn fill(
    wallet: &mut TickWallet,
    blocks: &Vec<BlockId>,
    utxos: &Vec<Utxo>,
    parents: &Table<Txid, Parent>,
) -> (applied: Result<(), WalletError>)
    requires
        blank(*old(wallet)),
        parents.wf(),
        blocks@.len() != 0,
        ascending(blocks@),
        anchored_in(parents@, blocks_by_height(blocks@)),
    ensures
        match applied {
            Ok(()) => heights_in_range(blocks_by_height(blocks@)) && fillable(utxos@, parents@)
                && connects(old(wallet).chain(), blocks@) && filled(
                *old(wallet),
                blocks@,
                utxos@,
                parents@,
                *final(wallet),
            ),
            Err(error) => *final(wallet) == *old(wallet) && unfilled(
                error,
                old(wallet).chain(),
                blocks@,
                utxos@,
                parents@,
            ),
        },
{
    if !are_in_range(blocks) {
        return Err(WalletError::Height);
    }
    let ids: Vec<Txid> = found_ids(utxos, parents);
    proof {
        assert forall|i: int| 0 <= i < ids@.len() implies parents@.contains_key(
            #[trigger] ids@[i],
        ) by {
            lemma_ids_found(utxos@, parents@, ids@[i]);
        }
    }
    let txs: Vec<Arc<Transaction>> = found_txs(&ids, parents);
    let null_spenders: Vec<Txid> = null_spenders_of(&txs);
    let loose: Vec<Txid> = found_loose(&ids, &txs);
    if !are_fit(&txs, &null_spenders, &loose) {
        return Err(WalletError::Unfit);
    }
    let update = confirmed_update(utxos, &ids, &txs, parents);
    proof {
        lemma_rewards_known(utxos@, parents@, blocks_by_height(blocks@));
        assert(told(update, Some(blocks_by_height(blocks@))) =~= filling(
            blocks@,
            utxos@,
            parents@,
        ));
    }
    let applied = wallet.fill(blocks, update, null_spenders, loose);
    proof {
        if applied is Ok {
            assert(old(wallet).floating().union_prefer_right(outputs_found(utxos@, parents@))
                =~= outputs_found(utxos@, parents@));
            if found_rightly(parents@) {
                lemma_outputs_belong(update, utxos@, parents@);
            }
            assert(wallet.anchors() =~= confirmations(ids@, parents@));
            assert(wallet.last_seen() =~= Map::<Txid, u64>::empty());
        }
    }
    applied
}

/// Whether an error can come of filling a wallet.
pub open spec fn unfilled(
    error: WalletError,
    known: Map<u32, BlockHash>,
    blocks: Seq<BlockId>,
    utxos: Seq<Utxo>,
    parents: Map<Txid, Parent>,
) -> bool {
    let within = heights_in_range(blocks_by_height(blocks));
    match error {
        WalletError::Height => !within,
        WalletError::Unfit => within && !fillable(utxos, parents),
        WalletError::CannotConnect(_) => within && fillable(utxos, parents) && !connects(
            known,
            blocks,
        ),
        _ => false,
    }
}

/// One more id adds one more confirmation.
proof fn lemma_confirmations_push(ids: Seq<Txid>, id: Txid, parents: Map<Txid, Parent>)
    ensures
        confirmations(ids.push(id), parents) == confirmations(ids, parents).insert(
            (anchor_in(parents[id].block), id),
        ),
{
    assert forall|confirmation: (Anchor, Txid)|
        confirmations(ids.push(id), parents).contains(confirmation) == confirmations(
            ids,
            parents,
        ).insert((anchor_in(parents[id].block), id)).contains(confirmation) by {
        let sought = confirmation.1;
        if ids.contains(sought) {
            let k = choose|k: int| 0 <= k < ids.len() && ids[k] == sought;
            assert(ids.push(id)[k] == sought);
        }
        if sought == id {
            assert(ids.push(id)[ids.len() as int] == sought);
        }
        if ids.push(id).contains(sought) && sought != id {
            let k = choose|k: int| 0 <= k < ids.push(id).len() && ids.push(id)[k] == sought;
            assert(ids[k] == sought);
        }
    }
    assert(confirmations(ids.push(id), parents) =~= confirmations(ids, parents).insert(
        (anchor_in(parents[id].block), id),
    ));
}

/// The chain of a wallet without outputs: the first block of the network and the tip of the
/// scan, unless the tip is at height zero too.
pub open spec fn empty_chain(network: Network, tip: BlockId) -> Seq<BlockId> {
    let genesis = BlockId { height: 0, hash: genesis_of(network) };
    if tip.height == 0 {
        seq![genesis]
    } else {
        seq![genesis, tip]
    }
}

/// Fills a wallet for which a scan found no outputs. This fails exactly where the tip stands at a
/// height that BDK does not take.
pub fn fill_empty(wallet: &mut TickWallet, network: Network, tip: BlockId) -> (applied: Result<
    (),
    WalletError,
>)
    requires
        blank(*old(wallet)),
        old(wallet).chain() == map![0u32 => genesis_of(network)],
    ensures
        match applied {
            Ok(()) => tip.height < HEIGHT_LIMIT && filled(
                *old(wallet),
                empty_chain(network, tip),
                Seq::empty(),
                Map::empty(),
                *final(wallet),
            ),
            Err(error) => error is Height && tip.height >= HEIGHT_LIMIT && *final(wallet) == *old(
                wallet,
            ),
        },
{
    let mut blocks: Vec<BlockId> = Vec::new();
    blocks.push(BlockId { height: 0, hash: genesis_hash(network) });
    if tip.height != 0 {
        blocks.push(tip);
    }
    let utxos: Vec<Utxo> = Vec::new();
    let parents: Table<Txid, Parent> = Table::new();
    proof {
        let chain = blocks_by_height(blocks@);
        assert(blocks@ =~= empty_chain(network, tip));
        lemma_blocks_by_height(blocks@);
        assert(blocks@[0].height == 0);
        assert(chain.contains_key(tip.height)) by {
            assert(blocks@[blocks@.len() - 1].height == tip.height);
        }
        assert(heights_in_range(chain) == (tip.height < HEIGHT_LIMIT));
        assert(utxos@ =~= Seq::empty());
        assert(parents@ =~= Map::empty());
        let txs = txs_found(ids_found(utxos@, parents@), parents@);
        assert(txs =~= Seq::empty());
        assert(fillable(utxos@, parents@));
    }
    fill(wallet, &blocks, &utxos, &parents)
}

// ---------------------------------------------------------------------------------------
// The plan.
// ---------------------------------------------------------------------------------------

/// A wallet that is being filled.
pub struct WalletPlan {
    /// The wallet, which knows nothing yet.
    pub wallet: TickWallet,
    /// What the scan found.
    pub snapshot: ConfirmedSnapshot,
    /// The heights of the blocks that the wallet needs, in ascending order.
    pub heights: Vec<u32>,
    /// The blocks at the first of those heights.
    pub blocks: Vec<BlockId>,
    /// How many outputs have been looked at in search of their transactions.
    pub next: usize,
    /// The transactions that were found, by the id under which they were sought.
    pub parents: Table<Txid, Parent>,
}

/// What the node has to be asked for.
#[derive(Debug, Clone, Copy, PartialEq, Eq)]
pub enum Missing {
    /// The hash of the block at a height.
    Block(u32),
    /// A transaction that is confirmed by a block.
    Parent(Txid, BlockHash),
}

/// The blocks at the first of some heights, as far as they are known without asking: up to the
/// first that is not.
pub open spec fn blocks_from(
    tip: BlockId,
    cache: Map<u32, BlockHash>,
    heights: Seq<u32>,
    blocks: Seq<BlockId>,
) -> Seq<BlockId>
    decreases heights.len() - blocks.len(),
{
    if blocks.len() < heights.len() {
        let height = heights[blocks.len() as int];
        match known_hash(tip, cache, height) {
            Some(hash) => blocks_from(tip, cache, heights, blocks.push(BlockId { height, hash })),
            None => blocks,
        }
    } else {
        blocks
    }
}

/// Where the filling of a wallet stands.
#[verifier::ext_equal]
pub struct PlanView {
    pub wallet: TickWallet,
    pub tip: BlockId,
    pub utxos: Seq<Utxo>,
    pub heights: Seq<u32>,
    pub blocks: Seq<BlockId>,
    pub next: int,
    pub parents: Map<Txid, Parent>,
}

impl View for WalletPlan {
    type V = PlanView;

    open spec fn view(&self) -> PlanView {
        PlanView {
            wallet: self.wallet,
            tip: self.snapshot.tip,
            utxos: self.snapshot.utxos@,
            heights: self.heights@,
            blocks: self.blocks@,
            next: self.next as int,
            parents: self.parents@,
        }
    }
}

/// A wallet that nothing was done to yet.
pub open spec fn plan_begun(
    wallet: TickWallet,
    tip: BlockId,
    utxos: Seq<Utxo>,
    heights: Seq<u32>,
) -> PlanView {
    PlanView {
        wallet,
        tip,
        utxos,
        heights,
        blocks: Seq::empty(),
        next: 0,
        parents: Map::empty(),
    }
}

impl PlanView {
    /// The blocks that are known, by height.
    pub open spec fn chain(self) -> Map<u32, BlockHash> {
        blocks_by_height(self.blocks)
    }

    /// What the node has to be asked for next, if anything: the blocks in ascending order, then
    /// the transactions in the order of the outputs.
    pub open spec fn missing(self) -> Option<Missing> {
        if self.blocks.len() < self.heights.len() {
            Some(Missing::Block(self.heights[self.blocks.len() as int]))
        } else if self.next < self.utxos.len() {
            let utxo = self.utxos[self.next];
            Some(Missing::Parent(utxo.txid, block_of(utxo, self.chain()).hash))
        } else {
            None
        }
    }

    /// What is missing is not remembered.
    pub open spec fn lacks(self, caches: CachesView) -> bool {
        match self.missing() {
            Some(Missing::Block(height)) => known_hash(
                self.tip,
                caches.block_hashes,
                height,
            ) is None,
            Some(Missing::Parent(txid, block)) => !self.parents.contains_key(txid)
                && !caches.confirmed_txs.contains_key(ConfirmedKey { txid, block }),
            None => true,
        }
    }

    /// How far the filling gets out of what is remembered alone: with the blocks, and, once they
    /// are all known, with the transactions.
    pub open spec fn reusing(self, caches: CachesView) -> PlanView {
        let blocks = blocks_from(self.tip, caches.block_hashes, self.heights, self.blocks);
        if blocks.len() < self.heights.len() {
            PlanView { blocks, ..self }
        } else {
            let (next, parents) = parents_from(
                self.utxos,
                blocks_by_height(blocks),
                caches.confirmed_txs,
                self.next,
                self.parents,
            );
            PlanView { blocks, next, parents, ..self }
        }
    }

    /// The filling after the node gave the hash of the block that was asked for.
    pub open spec fn accepting_block(self, hash: BlockHash) -> PlanView {
        let height = self.heights[self.blocks.len() as int];
        PlanView { blocks: self.blocks.push(BlockId { height, hash }), ..self }
    }

    /// What is remembered after the node gave the hash of the block that was asked for.
    pub open spec fn remembering_block(self, caches: CachesView, hash: BlockHash) -> CachesView {
        let height = self.heights[self.blocks.len() as int];
        CachesView { block_hashes: caches.block_hashes.insert(height, hash), ..caches }
    }

    /// The filling after the node's reply to a request for a transaction. An output whose
    /// transaction cannot be had is passed over.
    pub open spec fn accepting_parent(self, reply: Option<Arc<Transaction>>) -> PlanView {
        let utxo = self.utxos[self.next];
        match reply {
            Some(tx) => PlanView {
                next: self.next + 1,
                parents: self.parents.insert(
                    utxo.txid,
                    Parent { tx, block: block_of(utxo, self.chain()) },
                ),
                ..self
            },
            None => PlanView { next: self.next + 1, ..self },
        }
    }

    /// What is remembered after the node's reply to a request for a transaction.
    pub open spec fn remembering_parent(
        self,
        caches: CachesView,
        reply: Option<Arc<Transaction>>,
    ) -> CachesView {
        match reply {
            Some(tx) => CachesView {
                confirmed_txs: caches.confirmed_txs.insert(
                    parent_key(self.utxos[self.next], self.chain()),
                    tx,
                ),
                ..caches
            },
            None => caches,
        }
    }
}

/// The hash of the block at a height of an ascending chain.
fn hash_at(blocks: &Vec<BlockId>, height: u32) -> (hash: BlockHash)
    requires
        ascending(blocks@),
        blocks_by_height(blocks@).contains_key(height),
    ensures
        hash == blocks_by_height(blocks@)[height],
{
    proof {
        lemma_blocks_by_height(blocks@);
    }
    let mut i: usize = 0;
    while i < blocks.len()
        invariant
            i <= blocks@.len(),
            forall|k: int| 0 <= k < i ==> (#[trigger] blocks@[k]).height != height,
            forall|k: int|
                0 <= k < blocks@.len() ==> blocks_by_height(blocks@)[(
                #[trigger] blocks@[k]).height] == blocks@[k].hash,
        decreases blocks@.len() - i,
    {
        if blocks[i].height == height {
            return blocks[i].hash;
        }
        i += 1;
    }
    vstd::pervasive::unreached()
}

impl WalletPlan {
    /// The heights are those that the wallet needs, the blocks stand at the first of them, the
    /// tip is the scan's, and no transaction is sought before all blocks are known.
    pub open spec fn wf(&self) -> bool {
        &&& blank(self.wallet)
        &&& self.parents.wf()
        &&& climbing(self.heights@)
        &&& forall|height: u32| #[trigger]
            self.heights@.contains(height) <==> needed(self.snapshot, height)
        &&& self.blocks@.len() <= self.heights@.len()
        &&& forall|i: int|
            0 <= i < self.blocks@.len() ==> (#[trigger] self.blocks@[i]).height == self.heights@[i]
        &&& forall|i: int|
            0 <= i < self.blocks@.len() && (#[trigger] self.blocks@[i]).height
                == self.snapshot.tip.height ==> self.blocks@[i].hash == self.snapshot.tip.hash
        &&& self.next <= self.snapshot.utxos@.len()
        &&& self.blocks@.len() < self.heights@.len() ==> self.next == 0 && self.parents@ == Map::<
            Txid,
            Parent,
        >::empty()
        &&& belongs(self.snapshot.utxos@, self@.chain(), self.next as int, self.parents@)
    }

    /// Once every block is known, they make up a chain of what the wallet needs.
    pub proof fn lemma_blocks(&self)
        requires
            self.wf(),
        ensures
            ascending(self.blocks@),
            self.blocks@.len() == self.heights@.len() ==> self.blocks@.len() != 0,
            self.blocks@.len() == self.heights@.len() ==> forall|height: u32| #[trigger]
                self@.chain().contains_key(height) <==> needed(self.snapshot, height),
    {
        assert forall|i: int, j: int| 0 <= i < j < self.blocks@.len() implies self.blocks@[i].height
            < self.blocks@[j].height by {
            assert(self.heights@[i] < self.heights@[j]);
        }
        lemma_blocks_by_height(self.blocks@);
        if self.blocks@.len() == self.heights@.len() {
            assert(needed(self.snapshot, 0));
            assert(self.heights@.contains(0u32));
            assert forall|height: u32| #[trigger]
                self@.chain().contains_key(height) <==> needed(self.snapshot, height) by {
                if self@.chain().contains_key(height) {
                    let i = choose|i: int|
                        0 <= i < self.blocks@.len() && (#[trigger] self.blocks@[i]).height
                            == height;
                    assert(self.heights@[i] == height);
                    assert(self.heights@.contains(height));
                }
                if needed(self.snapshot, height) {
                    assert(self.heights@.contains(height));
                    let i = choose|i: int|
                        0 <= i < self.heights@.len() && self.heights@[i] == height;
                    assert(self.blocks@[i].height == height);
                }
            }
        }
    }

    /// Begins to fill a wallet with what a scan found.
    pub fn begin(wallet: TickWallet, snapshot: ConfirmedSnapshot) -> (plan: WalletPlan)
        requires
            blank(wallet),
        ensures
            plan.wf(),
            plan@ == plan_begun(wallet, snapshot.tip, snapshot.utxos@, plan.heights@),
    {
        let heights: Vec<u32> = needed_heights(&snapshot);
        let plan = WalletPlan {
            wallet,
            snapshot,
            heights,
            blocks: Vec::new(),
            next: 0,
            parents: Table::new(),
        };
        assert(plan@ =~= plan_begun(wallet, snapshot.tip, snapshot.utxos@, plan.heights@));
        plan
    }

    /// Adds the blocks that are known without asking, up to the first that is not.
    fn reuse_blocks(&mut self, cache: &BTreeMap<u32, BlockHash>)
        requires
            old(self).wf(),
        ensures
            final(self).wf(),
            final(self)@ == (PlanView {
                blocks: blocks_from(
                    old(self)@.tip,
                    cache@,
                    old(self)@.heights,
                    old(self)@.blocks,
                ),
                ..old(self)@
            }),
            final(self)@.missing() matches Some(Missing::Block(height)) ==> known_hash(
                final(self)@.tip,
                cache@,
                height,
            ) is None,
    {
        let ghost before = self@;
        let tip: BlockId = self.snapshot.tip;
        while self.blocks.len() < self.heights.len()
            invariant
                self.wf(),
                tip == self.snapshot.tip,
                self@ == (PlanView { blocks: self.blocks@, ..before }),
                blocks_from(tip, cache@, self.heights@, self.blocks@) == blocks_from(
                    tip,
                    cache@,
                    before.heights,
                    before.blocks,
                ),
            ensures
                self.blocks@ == blocks_from(tip, cache@, before.heights, before.blocks),
                self.blocks@.len() < self.heights@.len() ==> known_hash(
                    tip,
                    cache@,
                    self.heights@[self.blocks@.len() as int],
                ) is None,
            decreases self.heights@.len() - self.blocks@.len(),
        {
            let height: u32 = self.heights[self.blocks.len()];
            let known: Option<BlockHash> = if height == tip.height {
                Some(tip.hash)
            } else {
                match cache.get(&height) {
                    Some(hash) => Some(*hash),
                    None => None,
                }
            };
            match known {
                Some(hash) => self.add_block(hash),
                None => break,
            }
        }
    }

    /// Adds the block at the next height.
    fn add_block(&mut self, hash: BlockHash)
        requires
            old(self).wf(),
            old(self).blocks@.len() < old(self).heights@.len(),
            old(self).heights@[old(self).blocks@.len() as int] == old(self).snapshot.tip.height
                ==> hash == old(self).snapshot.tip.hash,
        ensures
            final(self).wf(),
            final(self)@ == old(self)@.accepting_block(hash),
    {
        let ghost before = self@;
        let height: u32 = self.heights[self.blocks.len()];
        self.blocks.push(BlockId { height, hash });
        assert(self@ =~= before.accepting_block(hash));
    }

    /// Adds the transactions that are remembered, up to the first that is not.
    fn reuse_parents(&mut self, cache: &Table<ConfirmedKey, Arc<Transaction>>)
        requires
            old(self).wf(),
            cache.wf(),
            old(self).blocks@.len() == old(self).heights@.len(),
        ensures
            final(self).wf(),
            final(self)@ == (PlanView {
                next: final(self)@.next,
                parents: final(self)@.parents,
                ..old(self)@
            }),
            (final(self)@.next, final(self)@.parents) == parents_from(
                old(self)@.utxos,
                old(self)@.chain(),
                cache@,
                old(self)@.next,
                old(self)@.parents,
            ),
            parent_unknown(final(self)@, cache@),
    {
        let ghost before = self@;
        while self.next < self.snapshot.utxos.len()
            invariant
                self.wf(),
                cache.wf(),
                self@ == (PlanView { next: self@.next, parents: self@.parents, ..before }),
                self.blocks@.len() == self.heights@.len(),
                parents_from(
                    self@.utxos,
                    self@.chain(),
                    cache@,
                    self@.next,
                    self@.parents,
                ) == parents_from(
                    before.utxos,
                    before.chain(),
                    cache@,
                    before.next,
                    before.parents,
                ),
            ensures
                parents_from(
                    before.utxos,
                    before.chain(),
                    cache@,
                    before.next,
                    before.parents,
                ) == (self@.next, self@.parents),
                parent_unknown(self@, cache@),
            decreases self.snapshot.utxos@.len() - self.next,
        {
            let txid: Txid = self.snapshot.utxos[self.next].txid;
            if self.parents.contains_key(&txid) {
                self.skip_utxo();
            } else {
                let block: BlockId = self.next_block();
                match cache.get(&ConfirmedKey { txid, block: block.hash }) {
                    Some(tx) => self.add_parent(tx.clone()),
                    None => break,
                }
            }
        }
    }

    /// The block that holds the next output.
    fn next_block(&self) -> (block: BlockId)
        requires
            self.wf(),
            self.blocks@.len() == self.heights@.len(),
            self.next < self.snapshot.utxos@.len(),
        ensures
            block == block_of(self.snapshot.utxos@[self.next as int], self@.chain()),
    {
        let height: u32 = low_half_of(self.snapshot.utxos[self.next].height);
        proof {
            self.lemma_blocks();
            assert(holds_output(self.snapshot.utxos@, height));
            assert(needed(self.snapshot, height));
        }
        BlockId { height, hash: hash_at(&self.blocks, height) }
    }

    /// Passes over the next output.
    fn skip_utxo(&mut self)
        requires
            old(self).wf(),
            old(self).blocks@.len() == old(self).heights@.len(),
            old(self).next < old(self).snapshot.utxos@.len(),
        ensures
            final(self).wf(),
            final(self)@ == old(self)@.accepting_parent(None),
    {
        assert(self.next < self.snapshot.utxos.len());
        let ghost before = self@;
        self.next += 1;
        proof {
            lemma_belongs_longer(before.utxos, before.chain(), before.next, before.parents);
            assert(self@ =~= before.accepting_parent(None));
        }
    }

    /// Adds the transaction of the next output.
    fn add_parent(&mut self, tx: Arc<Transaction>)
        requires
            old(self).wf(),
            old(self).blocks@.len() == old(self).heights@.len(),
            old(self).next < old(self).snapshot.utxos@.len(),
        ensures
            final(self).wf(),
            final(self)@ == old(self)@.accepting_parent(Some(tx)),
    {
        assert(self.next < self.snapshot.utxos.len());
        let ghost before = self@;
        let txid: Txid = self.snapshot.utxos[self.next].txid;
        let block: BlockId = self.next_block();
        self.parents.insert(txid, Parent { tx, block });
        self.next += 1;
        proof {
            lemma_belongs_longer(before.utxos, before.chain(), before.next, before.parents);
            assert(before.utxos[before.next].txid == txid);
            assert(self@ =~= before.accepting_parent(Some(tx)));
        }
    }

    /// Goes on with what is remembered, as far as that goes.
    pub fn reuse(&mut self, caches: &Caches)
        requires
            old(self).wf(),
            caches.wf(),
        ensures
            final(self).wf(),
            final(self)@ == old(self)@.reusing(caches@),
            final(self)@.lacks(caches@),
    {
        self.reuse_blocks(&caches.block_hashes);
        if self.blocks.len() == self.heights.len() {
            self.reuse_parents(&caches.confirmed_txs);
        }
    }

    /// What the node has to be asked for next, if anything.
    pub fn pending(&self) -> (missing: Option<Missing>)
        requires
            self.wf(),
        ensures
            missing == self@.missing(),
    {
        if self.blocks.len() < self.heights.len() {
            Some(Missing::Block(self.heights[self.blocks.len()]))
        } else if self.next < self.snapshot.utxos.len() {
            let block: BlockId = self.next_block();
            Some(Missing::Parent(self.snapshot.utxos[self.next].txid, block.hash))
        } else {
            None
        }
    }

    /// Takes the hash of the block that was asked for, and remembers it.
    pub fn accept_block(&mut self, caches: &mut Caches, hash: BlockHash)
        requires
            old(self).wf(),
            old(caches).wf(),
            old(self)@.lacks(old(caches)@),
            old(self)@.missing() is Some,
            old(self)@.missing()->0 is Block,
        ensures
            final(self).wf(),
            final(caches).wf(),
            final(self)@ == old(self)@.accepting_block(hash),
            final(caches)@ == old(self)@.remembering_block(old(caches)@, hash),
    {
        let ghost remembered = caches@;
        let height: u32 = self.heights[self.blocks.len()];
        caches.block_hashes.insert(height, hash);
        assert(caches@ =~= self@.remembering_block(remembered, hash));
        self.add_block(hash);
    }

    /// Takes the reply to a request for the transaction that was asked for, and remembers it. An
    /// output whose transaction cannot be had is passed over.
    pub fn accept_parent(&mut self, caches: &mut Caches, reply: Option<Arc<Transaction>>)
        requires
            old(self).wf(),
            old(caches).wf(),
            old(self)@.missing() is Some,
            old(self)@.missing()->0 is Parent,
        ensures
            final(self).wf(),
            final(caches).wf(),
            final(self)@ == old(self)@.accepting_parent(reply),
            final(caches)@ == old(self)@.remembering_parent(old(caches)@, reply),
    {
        let ghost remembered = caches@;
        match reply {
            Some(tx) => {
                let txid: Txid = self.snapshot.utxos[self.next].txid;
                let block: BlockId = self.next_block();
                caches.confirmed_txs.insert(ConfirmedKey { txid, block: block.hash }, tx.clone());
                assert(caches@ =~= self@.remembering_parent(remembered, reply));
                self.add_parent(tx);
            },
            None => self.skip_utxo(),
        }
    }

    /// The block of each transaction that was found is one of those that are known.
    proof fn lemma_anchored(&self)
        requires
            self.wf(),
            self.blocks@.len() == self.heights@.len(),
        ensures
            anchored_in(self.parents@, self@.chain()),
    {
        self.lemma_blocks();
        assert forall|txid: Txid| #[trigger] self.parents@.contains_key(txid) implies {
            let block = self.parents@[txid].block;
            self@.chain().contains_key(block.height) && self@.chain()[block.height] == block.hash
        } by {
            let utxos = self.snapshot.utxos@;
            let i = choose|i: int|
                0 <= i < self.next && (#[trigger] utxos[i]).txid == txid
                    && self.parents@[txid].block == block_of(utxos[i], self@.chain());
            assert(holds_output(utxos, low_half(utxos[i].height)));
            assert(needed(self.snapshot, low_half(utxos[i].height)));
        }
    }

    /// Fills the wallet once nothing is missing any more. It fails if no transaction was found
    /// at all, if a block stands at a height that BDK does not take, if the wallet cannot take in
    /// the transactions, or if the blocks do not start with the first block of the network.
    pub fn finish(self) -> (wallet: Result<TickWallet, WalletError>)
        requires
            self.wf(),
            self@.missing() is None,
        ensures
            finished(self@, wallet),
    {
        proof {
            self.lemma_blocks();
            self.lemma_anchored();
        }
        if self.parents.is_empty() {
            return Err(WalletError::NoParents);
        }
        let mut wallet: TickWallet = self.wallet;
        match fill(&mut wallet, &self.blocks, &self.snapshot.utxos, &self.parents) {
            Ok(()) => Ok(wallet),
            Err(error) => Err(error),
        }
    }
}

/// Whether a transaction that is missing was neither found nor remembered.
pub open spec fn parent_unknown(
    plan: PlanView,
    cache: Map<ConfirmedKey, Arc<Transaction>>,
) -> bool {
    plan.missing() matches Some(Missing::Parent(txid, block)) ==> !plan.parents.contains_key(txid)
        && !cache.contains_key(ConfirmedKey { txid, block })
}

/// What belongs to the first few outputs belongs to one more of them.
proof fn lemma_belongs_longer(
    utxos: Seq<Utxo>,
    chain: Map<u32, BlockHash>,
    next: int,
    parents: Map<Txid, Parent>,
)
    requires
        belongs(utxos, chain, next, parents),
    ensures
        belongs(utxos, chain, next + 1, parents),
{
    assert forall|txid: Txid| #[trigger] parents.contains_key(txid) implies exists|i: int|
        0 <= i < next + 1 && (#[trigger] utxos[i]).txid == txid && parents[txid].block == block_of(
            utxos[i],
            chain,
        ) by {
        let i = choose|i: int|
            0 <= i < next && (#[trigger] utxos[i]).txid == txid && parents[txid].block == block_of(
                utxos[i],
                chain,
            );
        assert(utxos[i].txid == txid);
    }
}

/// Whether a wallet, or the lack of one, comes of a plan that nothing is missing of: none if no
/// transaction was found or the wallet cannot be filled, and else the wallet, filled.
pub open spec fn finished(plan: PlanView, wallet: Result<TickWallet, WalletError>) -> bool {
    let found = plan.parents != Map::<Txid, Parent>::empty();
    match wallet {
        Ok(wallet) => {
            &&& found
            &&& heights_in_range(plan.chain())
            &&& fillable(plan.utxos, plan.parents)
            &&& connects(plan.wallet.chain(), plan.blocks)
            &&& filled(plan.wallet, plan.blocks, plan.utxos, plan.parents, wallet)
        },
        Err(WalletError::NoParents) => !found,
        Err(error) => found && unfilled(
            error,
            plan.wallet.chain(),
            plan.blocks,
            plan.utxos,
            plan.parents,
        ),
    }
}

} // verus!
