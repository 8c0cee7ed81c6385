//! The wallet of one tick.

use crate::bdk::{
    affordable, all_placed, all_recorded, apply_update, ascending, bare_size, base_fee,
    blocks_by_height, checkpoint, conflict_free, count_size, create_psbt, create_wallet,
    derives_scripts, distinct, dust_limit, entry, extract_tx, genesis_of, has_keychains, has_keys,
    has_output, heights_in_range, holds_more, insert_seen_at, is_absurd, is_anchored, is_last,
    is_mature, is_op_return, is_signature_weight, is_watched, latest_sightings, list_unspent,
    listed_once, lists, lists_owned, lists_unspent, new_update, null_named_once, output_at,
    output_size, outputs_size,
    owned_by_script, paid_value, pays, pays_fee, psbt_inputs, psbt_outputs, psbt_spends, push_tx,
    recognized_by, recorded_value, revealed_to, rewards_placed, selectable, sign_psbt, signable,
    signed_weight, spendable, spent_value, told_by, total_value, tx_signed, tx_weight,
    unspent_after, update_anchors, update_raws, update_seen_ats, update_txouts, update_txs,
    wallet_anchors, wallet_chain, wallet_descriptors, wallet_floating, wallet_last_seen,
    virtual_size, wallet_network, wallet_revealed, wallet_scripts, wallet_txs, wallet_updates,
    wallet_watched,
    watches_more, whole_forgotten, within_reach, Anchor, Keychain, TxRequest, UpdateView,
    WalletUtxo, BARE_INPUT_SIZE, FEE_RATE_LIMIT, HEADER_SIZE, INPUT_SIZE, LAST_ACTIVE_INDEX,
    LEAST_WITNESS_WEIGHT, MOST_WITNESS_WEIGHT, P2WPKH_OUTPUT_SIZE, SCRIPT_LIMIT, VALUE_LIMIT,
    WEIGHT_LIMIT,
};
use crate::derivation::is_keychain;
use crate::tx::{
    copy_bytes, holdable, names_null, opens_block, Transaction, TransactionView,
};
use crate::types::{
    contains, copy_outpoints, Address, BlockHash, BlockId, Key, OutPoint, TxOutView, Txid,
};
use bdk_wallet::bitcoin::psbt::ExtractTxError;
use bdk_wallet::bitcoin::Network;
use bdk_wallet::chain::local_chain::CannotConnectError;
use bdk_wallet::chain::{ConfirmationBlockTime, TxUpdate};
use bdk_wallet::error::CreateTxError;
use bdk_wallet::rusqlite::Connection;
use bdk_wallet::signer::SignerError;
use bdk_wallet::{CreateWithPersistError, PersistedWallet};
use std::sync::Arc;
use vstd::prelude::*;

verus! {

/// Why there is no wallet.
#[derive(Debug)]
pub enum WalletError {
    /// No in-memory store could be opened.
    Database(bdk_wallet::rusqlite::Error),
    /// BDK refused to create the wallet.
    Create(CreateWithPersistError<bdk_wallet::rusqlite::Error>),
    /// The node gave no hash for a height.
    BlockHash,
    /// None of the scanned outputs has a transaction that could be fetched.
    NoParents,
    /// A block stands at a height that BDK takes for a time.
    Height,
    /// Among the transactions are some that BDK cannot hold, alone or together.
    Unfit,
    /// The chain does not start where the network does.
    CannotConnect(CannotConnectError),
}

/// A fresh in-memory wallet, filled and spent from within one tick.
pub struct TickWallet {
    inner: PersistedWallet<Connection>,
    /// The ids of the transactions that name the null output beside others.
    null_spenders: Vec<Txid>,
    /// The ids of the transactions that open a block and stand without one.
    loose: Vec<Txid>,
}

impl TickWallet {
    /// The descriptors that the wallet was made with.
    pub closed spec fn descriptors(&self) -> Map<Keychain, Seq<char>> {
        wallet_descriptors(self.inner)
    }

    /// The network that the wallet was made for.
    pub closed spec fn network(&self) -> Network {
        wallet_network(self.inner)
    }

    /// The updates that the wallet has taken, in order.
    pub closed spec fn updates(&self) -> Seq<UpdateView> {
        wallet_updates(self.inner)
    }

    /// The blocks of the wallet's chain, by height.
    pub closed spec fn chain(&self) -> Map<u32, BlockHash> {
        wallet_chain(self.inner)
    }

    /// The transactions that the wallet holds in full, by id.
    pub closed spec fn txs(&self) -> Map<Txid, TransactionView> {
        wallet_txs(self.inner)
    }

    /// The scripts of the wallet's keychains, by keychain and derivation index.
    pub closed spec fn scripts(&self) -> Map<(Keychain, u32), Seq<u8>> {
        wallet_scripts(self.inner)
    }

    /// The outputs that the wallet takes for its own, each with the keychain and the derivation
    /// index of the script that it was recognized by.
    pub closed spec fn watched(&self) -> Set<(OutPoint, Keychain, u32)> {
        wallet_watched(self.inner)
    }

    /// The outputs that the wallet holds without their transaction.
    pub closed spec fn floating(&self) -> Map<OutPoint, TxOutView> {
        wallet_floating(self.inner)
    }

    /// The confirmations that the wallet knows of.
    pub closed spec fn anchors(&self) -> Set<(Anchor, Txid)> {
        wallet_anchors(self.inner)
    }

    /// When the wallet last heard of a transaction being in the mempool.
    pub closed spec fn last_seen(&self) -> Map<Txid, u64> {
        wallet_last_seen(self.inner)
    }

    /// The highest derivation index that the wallet has revealed, by keychain.
    pub closed spec fn revealed(&self) -> Map<Keychain, u32> {
        wallet_revealed(self.inner)
    }

    /// The outputs that the wallet can spend.
    pub open spec fn unspent(&self) -> Seq<WalletUtxo> {
        unspent_after(self.descriptors(), self.network(), self.updates())
    }

    /// The ids of the transactions that name the null output beside others.
    pub closed spec fn null_spenders(&self) -> Set<Txid> {
        self.null_spenders@.to_set()
    }

    /// The ids of the transactions that open a block and stand without one.
    pub closed spec fn loose(&self) -> Set<Txid> {
        self.loose@.to_set()
    }

    /// The wallet has two keychains, and its blocks stand at heights that BDK takes. It holds
    /// nothing but transactions that it can hold, alone and together. All outputs that pay its
    /// scripts up to the last active index are taken for its own.
    pub open spec fn wf(&self) -> bool {
        &&& has_keychains(self.descriptors())
        &&& heights_in_range(self.chain())
        &&& all_holdable(self.txs())
        &&& recognizes(self.txs(), self.watched(), self.scripts())
        &&& forall|txid: Txid| #[trigger]
            self.txs().contains_key(txid) && names_null(self.txs()[txid])
                ==> self.null_spenders().contains(txid)
        &&& at_most_one(self.null_spenders())
        &&& forall|txid: Txid| #[trigger]
            self.txs().contains_key(txid) && opens_block(self.txs()[txid]) ==> is_anchored(
                self.anchors(),
                self.chain(),
                txid,
            ) || self.loose().contains(txid)
        &&& forall|txid: Txid| #[trigger]
            self.txs().contains_key(txid) ==> spends_none_of(self.txs()[txid], self.loose())
    }

    /// The wallet holds no output without its transaction, and takes for its own nothing but
    /// outputs that pay its scripts, each by one of them.
    pub open spec fn own_only(&self) -> bool {
        &&& self.floating() == Map::<OutPoint, TxOutView>::empty()
        &&& owned_by_script(self.txs(), self.watched(), self.scripts())
        &&& watched_once(self.watched())
    }

    /// What the wallet lists as unspent are outputs of its own. Where its transactions are all
    /// confirmed or seen and none contradict each other, they are all of its own outputs that no
    /// transaction of it spends.
    pub open spec fn lists_rightly(&self) -> bool {
        &&& listed_once(self.unspent())
        &&& lists_owned(self.txs(), self.watched(), self.unspent())
        &&& self.settled() ==> lists_unspent(self.txs(), self.watched(), self.unspent())
    }

    /// The transactions of the wallet are all confirmed or seen, and none contradict each other.
    pub open spec fn settled(&self) -> bool {
        &&& all_placed(self.txs(), self.anchors(), self.chain(), self.last_seen())
        &&& conflict_free(self.txs())
    }

    /// The wallet was made with two descriptors and knows nothing but the first block of a
    /// network.
    pub open spec fn fresh(
        &self,
        external: Seq<char>,
        internal: Seq<char>,
        network: Network,
    ) -> bool {
        &&& self.descriptors()
            == map![Keychain::External => external, Keychain::Internal => internal]
        &&& self.network() == network
        &&& self.updates() == Seq::<UpdateView>::empty()
        &&& self.chain() == map![0u32 => genesis_of(network)]
        &&& self.txs() == Map::<Txid, TransactionView>::empty()
        &&& self.floating() == Map::<OutPoint, TxOutView>::empty()
        &&& self.watched() == Set::<(OutPoint, Keychain, u32)>::empty()
        &&& self.null_spenders() == Set::<Txid>::empty()
        &&& self.loose() == Set::<Txid>::empty()
        &&& derives_scripts(external, Keychain::External, self.scripts())
        &&& derives_scripts(internal, Keychain::Internal, self.scripts())
        &&& self.anchors() == Set::<(Anchor, Txid)>::empty()
        &&& self.last_seen() == Map::<Txid, u64>::empty()
    }

    /// Creates an in-memory wallet.
    pub fn create(external: &String, internal: &String, network: Network) -> (created: Result<
        TickWallet,
        WalletError,
    >)
        requires
            is_keychain(external@),
            is_keychain(internal@),
        ensures
            match created {
                Ok(wallet) => wallet.wf() && wallet.fresh(external@, internal@, network),
                Err(error) => error is Database || error is Create,
            },
    {
        let mut store = match Connection::open_in_memory() {
            Ok(store) => store,
            Err(error) => return Err(WalletError::Database(error)),
        };
        match create_wallet(external, internal, network, &mut store) {
            Ok(inner) => {
                let wallet = TickWallet { inner, null_spenders: Vec::new(), loose: Vec::new() };
                assert(wallet.null_spenders() =~= Set::<Txid>::empty());
                assert(wallet.loose() =~= Set::<Txid>::empty());
                Ok(wallet)
            },
            Err(error) => Err(WalletError::Create(error)),
        }
    }

    /// Applies an update without blocks to the wallet.
    fn apply(&mut self, update: TxUpdate<ConfirmationBlockTime>, null_spenders: &Vec<Txid>)
        requires
            old(self).wf(),
            update_txouts(update) == Map::<OutPoint, TxOutView>::empty(),
            null_spenders@.to_set() == null_ids(update_txs(update)),
            fit(
                update_txs(update),
                old(self).null_spenders().union(null_ids(update_txs(update))),
                old(self).loose(),
            ),
            no_rewards(update_txs(update)),
        ensures
            final(self).wf(),
            final(self).chain() == old(self).chain(),
            final(self).null_spenders() == old(self).null_spenders().union(
                null_ids(update_txs(update)),
            ),
            final(self).loose() == old(self).loose(),
            updated(*old(self), update, None, *final(self)),
    {
        let ghost before = *self;
        match apply_update(&mut self.inner, LAST_ACTIVE_INDEX, update, None) {
            Ok(()) => {},
            Err(_) => vstd::pervasive::unreached(),
        }
        let ghost applied = *self;
        append_txids(&mut self.null_spenders, null_spenders);
        proof {
            lemma_sum_to_set(before.null_spenders@, null_spenders@);
            assert(self.inner == applied.inner);
            lemma_recognized(before, update, *self);
            lemma_fit(before, update_txs(update), *self);
            assert(told_by(LAST_ACTIVE_INDEX, update, None) == told(update, None));
            assert forall|txid: Txid| #[trigger]
                self.txs().contains_key(txid) && opens_block(self.txs()[txid]) implies is_anchored(
                self.anchors(),
                self.chain(),
                txid,
            ) || self.loose().contains(txid) by {
                if before.txs().contains_key(txid) {
                    if is_anchored(before.anchors(), before.chain(), txid) {
                        let anchor = choose|anchor: Anchor| #[trigger]
                            before.anchors().contains((anchor, txid))
                                && before.chain().contains_key(anchor.block.height)
                                && before.chain()[anchor.block.height] == anchor.block.hash;
                        assert(self.anchors().contains((anchor, txid)));
                    }
                }
            }
        }
    }

    /// Applies the first update to the wallet: a chain of blocks, and what is known of
    /// transactions. It is refused exactly where the chain does not start with the block that
    /// the wallet knows.
    pub(crate) fn fill(
        &mut self,
        blocks: &Vec<BlockId>,
        update: TxUpdate<ConfirmationBlockTime>,
        null_spenders: Vec<Txid>,
        loose: Vec<Txid>,
    ) -> (applied: Result<(), WalletError>)
        requires
            old(self).wf(),
            old(self).txs() == Map::<Txid, TransactionView>::empty(),
            old(self).floating() == Map::<OutPoint, TxOutView>::empty(),
            old(self).chain().dom() == set![0u32],
            blocks@.len() != 0,
            ascending(blocks@),
            heights_in_range(blocks_by_height(blocks@)),
            null_spenders@.to_set() == null_ids(update_txs(update)),
            fit(update_txs(update), null_spenders@.to_set(), loose@.to_set()),
            rewards_known(
                update_txs(update),
                update_anchors(update),
                blocks_by_height(blocks@),
                loose@.to_set(),
            ),
        ensures
            match applied {
                Ok(()) => {
                    &&& final(self).wf()
                    &&& final(self).chain() == blocks_by_height(blocks@)
                    &&& final(self).null_spenders() == null_spenders@.to_set()
                    &&& final(self).loose() == loose@.to_set()
                    &&& updated(
                        *old(self),
                        update,
                        Some(blocks_by_height(blocks@)),
                        *final(self),
                    )
                    &&& connects(old(self).chain(), blocks@)
                },
                Err(error) => error is CannotConnect && *final(self) == *old(self) && !connects(
                    old(self).chain(),
                    blocks@,
                ),
            },
    {
        let chain = match checkpoint(blocks) {
            Ok(chain) => chain,
            Err(_) => vstd::pervasive::unreached(),
        };
        let ghost before = *self;
        match apply_update(&mut self.inner, LAST_ACTIVE_INDEX, update, Some(chain)) {
            Ok(()) => {},
            Err(error) => return Err(WalletError::CannotConnect(error)),
        }
        let ghost applied = *self;
        self.null_spenders = null_spenders;
        self.loose = loose;
        proof {
            assert(self.inner == applied.inner);
            lemma_recognized(before, update, *self);
            lemma_fit(before, update_txs(update), *self);
            assert(told_by(LAST_ACTIVE_INDEX, update, Some(chain)) == told(
                update,
                Some(blocks_by_height(blocks@)),
            ));
            let added = update_txs(update);
            assert forall|txid: Txid| #[trigger]
                self.txs().contains_key(txid) && opens_block(self.txs()[txid]) implies is_anchored(
                self.anchors(),
                self.chain(),
                txid,
            ) || self.loose().contains(txid) by {
                let i = choose|i: int|
                    0 <= i < added.len() && (#[trigger] added[i]).txid == txid && self.txs()[txid]
                        == added[i];
                assert(opens_block(added[i]));
                if is_anchored(update_anchors(update), self.chain(), txid) {
                    let anchor = choose|anchor: Anchor| #[trigger]
                        update_anchors(update).contains((anchor, txid))
                            && self.chain().contains_key(anchor.block.height)
                            && self.chain()[anchor.block.height] == anchor.block.hash;
                    assert(self.anchors().contains((anchor, txid)));
                }
            }
        }
        Ok(())
    }

    /// What the wallet holds is such as BDK can work with.
    proof fn lemma_workable(&self)
        requires
            self.wf(),
        ensures
            null_named_once(wallet_txs(self.inner)),
            rewards_placed(
                wallet_txs(self.inner),
                wallet_anchors(self.inner),
                wallet_chain(self.inner),
            ),
    {
        assert forall|a: Txid, b: Txid|
            #![trigger self.txs().contains_key(a), self.txs().contains_key(b)]
            self.txs().contains_key(a) && self.txs().contains_key(b) && names_null(self.txs()[a])
                && names_null(self.txs()[b]) implies a == b by {
            assert(self.null_spenders().contains(a));
            assert(self.null_spenders().contains(b));
        }
        assert forall|reward: Txid, spender: Txid, i: int|
            #![trigger self.txs().contains_key(reward), self.txs()[spender].inputs[i]]
            self.txs().contains_key(reward) && opens_block(self.txs()[reward]) && !is_anchored(
                self.anchors(),
                self.chain(),
                reward,
            ) && self.txs().contains_key(spender) && 0 <= i < self.txs()[spender].inputs.len()
                implies self.txs()[spender].inputs[i].txid != reward by {
            assert(self.loose().contains(reward));
            assert(spends_none_of(self.txs()[spender], self.loose()));
        }
    }

    /// The outputs that the wallet can spend.
    pub fn list_unspent(&self) -> (utxos: Vec<WalletUtxo>)
        requires
            self.wf(),
        ensures
            utxos@ == self.unspent(),
            self.lists_rightly(),
    {
        proof {
            self.lemma_workable();
        }
        list_unspent(&self.inner)
    }
}

/// What a tick's wallet is told by an update.
pub open spec fn told(
    update: TxUpdate<ConfirmationBlockTime>,
    blocks: Option<Map<u32, BlockHash>>,
) -> UpdateView {
    UpdateView {
        last_active: LAST_ACTIVE_INDEX,
        raws: update_raws(update),
        txouts: update_txouts(update),
        anchors: update_anchors(update),
        seen_ats: update_seen_ats(update),
        blocks,
    }
}

/// Whether a set of ids has one member at most.
pub open spec fn at_most_one(ids: Set<Txid>) -> bool {
    forall|a: Txid, b: Txid|
        #![trigger ids.contains(a), ids.contains(b)]
        ids.contains(a) && ids.contains(b) ==> a == b
}

/// Whether a transaction spends no output of some transactions.
pub open spec fn spends_none_of(tx: TransactionView, ids: Set<Txid>) -> bool {
    forall|i: int| 0 <= i < tx.inputs.len() ==> !ids.contains((#[trigger] tx.inputs[i]).txid)
}

/// Whether no transaction of a list opens a block.
pub open spec fn no_rewards(txs: Seq<TransactionView>) -> bool {
    forall|i: int| 0 <= i < txs.len() ==> !opens_block(#[trigger] txs[i])
}

/// Whether a wallet can take in some transactions: it can hold each of them, at most one
/// transaction names the null output beside others then, and none spends from one that opens a
/// block and stands without one.
pub open spec fn fit(
    txs: Seq<TransactionView>,
    null_spenders: Set<Txid>,
    loose: Set<Txid>,
) -> bool {
    &&& txs_holdable(txs)
    &&& at_most_one(null_spenders)
    &&& forall|i: int| 0 <= i < txs.len() ==> spends_none_of(#[trigger] txs[i], loose)
}

/// Whether each transaction of a list that opens a block is confirmed by a block of a chain, or
/// known to stand without one.
pub open spec fn rewards_known(
    txs: Seq<TransactionView>,
    anchors: Set<(Anchor, Txid)>,
    chain: Map<u32, BlockHash>,
    loose: Set<Txid>,
) -> bool {
    forall|i: int|
        0 <= i < txs.len() && opens_block(#[trigger] txs[i]) ==> is_anchored(
            anchors,
            chain,
            txs[i].txid,
        ) || loose.contains(txs[i].txid)
}

/// The ids of those transactions of a list that name the null output beside others.
pub open spec fn null_ids(txs: Seq<TransactionView>) -> Set<Txid> {
    Set::new(
        |txid: Txid|
            exists|i: int|
                0 <= i < txs.len() && (#[trigger] txs[i]).txid == txid && names_null(txs[i]),
    )
}

/// An update with fit transactions leaves a wallet with fit ones.
proof fn lemma_fit(before: TickWallet, added: Seq<TransactionView>, after: TickWallet)
    requires
        before.wf(),
        holds_more(before.txs(), added, after.txs()),
        fit(added, after.null_spenders(), after.loose()),
        before.null_spenders().subset_of(after.null_spenders()) || before.txs() == Map::<
            Txid,
            TransactionView,
        >::empty(),
        null_ids(added).subset_of(after.null_spenders()),
        before.loose() == after.loose() || before.txs() == Map::<Txid, TransactionView>::empty(),
    ensures
        forall|txid: Txid| #[trigger]
            after.txs().contains_key(txid) && names_null(after.txs()[txid])
                ==> after.null_spenders().contains(txid),
        forall|txid: Txid| #[trigger]
            after.txs().contains_key(txid) ==> spends_none_of(after.txs()[txid], after.loose()),
{
    assert forall|txid: Txid| #[trigger] after.txs().contains_key(txid) implies (names_null(
        after.txs()[txid],
    ) ==> after.null_spenders().contains(txid)) && spends_none_of(
        after.txs()[txid],
        after.loose(),
    ) by {
        if before.txs().contains_key(txid) {
            assert(spends_none_of(before.txs()[txid], before.loose()));
            if names_null(after.txs()[txid]) {
                assert(before.null_spenders().contains(txid));
            }
        } else {
            let i = choose|i: int|
                0 <= i < added.len() && (#[trigger] added[i]).txid == txid && after.txs()[txid]
                    == added[i];
            assert(spends_none_of(added[i], after.loose()));
            if names_null(added[i]) {
                assert(null_ids(added).contains(txid));
            }
        }
    }
}

/// Lists the ids of those transactions that name the null output beside others.
pub fn null_spenders_of(txs: &Vec<Arc<Transaction>>) -> (ids: Vec<Txid>)
    ensures
        ids@.to_set() == null_ids(views_of(txs@)),
{
    let mut ids: Vec<Txid> = Vec::new();
    let mut i: usize = 0;
    assert(ids@.to_set() =~= null_ids(views_of(txs@.take(0))));
    while i < txs.len()
        invariant
            i <= txs@.len(),
            ids@.to_set() == null_ids(views_of(txs@.take(i as int))),
        decreases txs@.len() - i,
    {
        let tx: &Transaction = &*txs[i];
        let ghost before = ids@;
        if tx.has_null_input() {
            ids.push(tx.txid());
        }
        proof {
            let shorter = views_of(txs@.take(i as int));
            let longer = views_of(txs@.take(i + 1));
            assert(longer =~= shorter.push(tx@));
            assert forall|id: Txid| ids@.to_set().contains(id) == null_ids(longer).contains(id) by {
                if null_ids(shorter).contains(id) {
                    let k = choose|k: int|
                        0 <= k < shorter.len() && (#[trigger] shorter[k]).txid == id && names_null(
                            shorter[k],
                        );
                    assert(longer[k] == shorter[k]);
                    assert(before.to_set().contains(id));
                    let n = choose|n: int| 0 <= n < before.len() && before[n] == id;
                    assert(ids@[n] == id);
                }
                if names_null(tx@) && id == tx@.txid {
                    assert(ids@[before.len() as int] == id);
                    assert(longer[shorter.len() as int] == tx@);
                }
                if ids@.contains(id) && !before.contains(id) {
                    let n = choose|n: int| 0 <= n < ids@.len() && ids@[n] == id;
                    assert(n == before.len()) by {
                        if n < before.len() {
                            assert(before[n] == id);
                        }
                    }
                    assert(longer[shorter.len() as int] == tx@);
                }
                if ids@.contains(id) && before.contains(id) {
                    assert(before.to_set().contains(id));
                }
                if null_ids(longer).contains(id) {
                    let k = choose|k: int|
                        0 <= k < longer.len() && (#[trigger] longer[k]).txid == id && names_null(
                            longer[k],
                        );
                    if k < shorter.len() {
                        assert(shorter[k] == longer[k]);
                        assert(null_ids(shorter).contains(id));
                    }
                }
            }
            assert(ids@.to_set() =~= null_ids(longer));
        }
        i += 1;
    }
    assert(txs@.take(i as int) =~= txs@);
    ids
}

/// Whether a wallet can take in some transactions.
pub fn are_fit(
    txs: &Vec<Arc<Transaction>>,
    null_spenders: &Vec<Txid>,
    loose: &Vec<Txid>,
) -> (fits: bool)
    ensures
        fits == fit(views_of(txs@), null_spenders@.to_set(), loose@.to_set()),
{
    let ghost views = views_of(txs@);
    if !is_at_most_one(null_spenders) {
        return false;
    }
    let mut i: usize = 0;
    while i < txs.len()
        invariant
            i <= txs@.len(),
            views == views_of(txs@),
            forall|k: int| 0 <= k < i ==> holdable(#[trigger] views[k]),
            forall|k: int| 0 <= k < i ==> spends_none_of(#[trigger] views[k], loose@.to_set()),
        decreases txs@.len() - i,
    {
        let tx: &Transaction = &*txs[i];
        assert(views[i as int] == tx@);
        if !tx.is_holdable() || !is_spending_none_of(tx, loose) {
            return false;
        }
        i += 1;
    }
    true
}

/// Whether a transaction spends no output of some transactions.
fn is_spending_none_of(tx: &Transaction, ids: &Vec<Txid>) -> (none: bool)
    ensures
        none == spends_none_of(tx@, ids@.to_set()),
{
    let inputs: &Vec<OutPoint> = tx.inputs();
    let mut i: usize = 0;
    while i < inputs.len()
        invariant
            i <= inputs@.len(),
            inputs@ == tx@.inputs,
            forall|k: int|
                0 <= k < i ==> !ids@.to_set().contains((#[trigger] tx@.inputs[k]).txid),
        decreases inputs@.len() - i,
    {
        if contains(ids, &inputs[i].txid) {
            assert(ids@.to_set().contains(tx@.inputs[i as int].txid));
            return false;
        }
        i += 1;
    }
    true
}

/// What two lists hold together, one of them holds.
proof fn lemma_sum_to_set(a: Seq<Txid>, b: Seq<Txid>)
    ensures
        (a + b).to_set() == a.to_set().union(b.to_set()),
{
    assert forall|txid: Txid| (a + b).to_set().contains(txid) == a.to_set().union(
        b.to_set(),
    ).contains(txid) by {
        if a.contains(txid) {
            let k = choose|k: int| 0 <= k < a.len() && a[k] == txid;
            assert((a + b)[k] == txid);
        }
        if b.contains(txid) {
            let k = choose|k: int| 0 <= k < b.len() && b[k] == txid;
            assert((a + b)[a.len() + k] == txid);
        }
        if (a + b).contains(txid) {
            let k = choose|k: int| 0 <= k < (a + b).len() && (a + b)[k] == txid;
            if k < a.len() {
                assert(a[k] == txid);
            } else {
                assert(b[k - a.len()] == txid);
            }
        }
    }
    assert((a + b).to_set() =~= a.to_set().union(b.to_set()));
}

/// Adds a list of ids to the end of another.
fn append_txids(list: &mut Vec<Txid>, more: &Vec<Txid>)
    ensures
        final(list)@ == old(list)@ + more@,
{
    let ghost before = list@;
    let mut i: usize = 0;
    while i < more.len()
        invariant
            i <= more@.len(),
            list@ == before + more@.take(i as int),
        decreases more@.len() - i,
    {
        list.push(more[i]);
        i += 1;
        assert(more@.take(i as int) =~= more@.take(i - 1).push(more@[i - 1]));
    }
    assert(more@.take(i as int) =~= more@);
}

/// Whether a list holds one id at most, however often.
fn is_at_most_one(ids: &Vec<Txid>) -> (alone: bool)
    ensures
        alone == at_most_one(ids@.to_set()),
{
    let mut i: usize = 1;
    while i < ids.len()
        invariant
            1 <= i,
            forall|k: int| 0 <= k < i && k < ids@.len() ==> #[trigger] ids@[k] == ids@[0],
        decreases ids@.len() - i,
    {
        if !ids[i].same(&ids[0]) {
            proof {
                assert(ids@.to_set().contains(ids@[i as int]));
                assert(ids@.to_set().contains(ids@[0]));
            }
            return false;
        }
        i += 1;
    }
    proof {
        assert forall|a: Txid, b: Txid|
            #![trigger ids@.to_set().contains(a), ids@.to_set().contains(b)]
            ids@.to_set().contains(a) && ids@.to_set().contains(b) implies a == b by {
            let j = choose|j: int| 0 <= j < ids@.len() && ids@[j] == a;
            let k = choose|k: int| 0 <= k < ids@.len() && ids@[k] == b;
            assert(ids@[j] == ids@[0]);
            assert(ids@[k] == ids@[0]);
        }
    }
    true
}

/// Whether each output that is taken for the wallet's own is so by one script.
pub open spec fn watched_once(watched: Set<(OutPoint, Keychain, u32)>) -> bool {
    forall|outpoint: OutPoint, a: (Keychain, u32), b: (Keychain, u32)|
        #![trigger watched.contains((outpoint, a.0, a.1)), watched.contains((outpoint, b.0, b.1))]
        watched.contains((outpoint, a.0, a.1)) && watched.contains((outpoint, b.0, b.1)) ==> a == b
}

/// Whether every transaction of a map is such as a wallet can hold.
pub open spec fn all_holdable(txs: Map<Txid, TransactionView>) -> bool {
    forall|txid: Txid| #[trigger] txs.contains_key(txid) ==> holdable(txs[txid])
}

/// Whether every transaction of a list is such as a wallet can hold.
pub open spec fn txs_holdable(txs: Seq<TransactionView>) -> bool {
    forall|i: int| 0 <= i < txs.len() ==> holdable(#[trigger] txs[i])
}

/// Whether each output that pays a script up to the last active index is recognized.
pub open spec fn recognizes(
    txs: Map<Txid, TransactionView>,
    watched: Set<(OutPoint, Keychain, u32)>,
    scripts: Map<(Keychain, u32), Seq<u8>>,
) -> bool {
    forall|outpoint: OutPoint, chain: Keychain, i: u32|
        #![trigger has_output(txs, outpoint), scripts[(chain, i)]]
        has_output(txs, outpoint) && i <= LAST_ACTIVE_INDEX && output_at(
            txs,
            outpoint,
        ).script_pubkey == scripts[(chain, i)] ==> is_watched(watched, outpoint)
}

/// Whether each single output of an update belongs to a transaction of it.
pub open spec fn outputs_belong(update: TxUpdate<ConfirmationBlockTime>) -> bool {
    forall|outpoint: OutPoint| #[trigger]
        update_txouts(update).contains_key(outpoint) ==> exists|i: int|
            0 <= i < update_txs(update).len() && (#[trigger] update_txs(update)[i]).txid
                == outpoint.txid
}

/// What an update does to what a wallet holds.
spec fn applied_to(
    before: TickWallet,
    update: TxUpdate<ConfirmationBlockTime>,
    after: TickWallet,
) -> bool {
    &&& after.scripts() == before.scripts()
    &&& holds_more(before.txs(), update_txs(update), after.txs())
    &&& watches_more(before.inner, LAST_ACTIVE_INDEX, after.inner)
    &&& after.floating() == floating_after(before, update, after)
}

/// The outputs that a wallet holds without their transaction after an update.
pub open spec fn floating_after(
    before: TickWallet,
    update: TxUpdate<ConfirmationBlockTime>,
    after: TickWallet,
) -> Map<OutPoint, TxOutView> {
    whole_forgotten(
        before.floating().union_prefer_right(update_txouts(update)),
        after.txs().dom(),
    )
}

/// An update keeps what a wallet takes for its own in step with its scripts.
proof fn lemma_recognized(
    before: TickWallet,
    update: TxUpdate<ConfirmationBlockTime>,
    after: TickWallet,
)
    requires
        before.wf(),
        txs_holdable(update_txs(update)),
        applied_to(before, update, after),
    ensures
        all_holdable(after.txs()),
        recognizes(after.txs(), after.watched(), after.scripts()),
        before.own_only() && outputs_belong(update) ==> after.own_only(),
{
    assert forall|outpoint: OutPoint, chain: Keychain, i: u32|
        #![trigger has_output(after.txs(), outpoint), after.scripts()[(chain, i)]]
        has_output(after.txs(), outpoint) && i <= LAST_ACTIVE_INDEX && output_at(
            after.txs(),
            outpoint,
        ).script_pubkey == after.scripts()[(chain, i)] implies is_watched(
        after.watched(),
        outpoint,
    ) by {
        if before.txs().contains_key(outpoint.txid) {
            assert(has_output(before.txs(), outpoint));
            assert(before.scripts()[(chain, i)] == after.scripts()[(chain, i)]);
            let (c, n) = choose|c: Keychain, n: u32| before.watched().contains((outpoint, c, n));
            assert(after.watched().contains((outpoint, c, n)));
        }
    }
    if before.own_only() && outputs_belong(update) {
        lemma_own_only(before, update, after);
    }
}

/// An update with the transactions of all its outputs leaves a wallet with nothing but its own.
proof fn lemma_own_only(
    before: TickWallet,
    update: TxUpdate<ConfirmationBlockTime>,
    after: TickWallet,
)
    requires
        before.own_only(),
        outputs_belong(update),
        applied_to(before, update, after),
    ensures
        after.own_only(),
{
    assert forall|outpoint: OutPoint| #[trigger] after.floating().contains_key(outpoint) implies
        false by {
        assert(update_txouts(update).contains_key(outpoint));
    }
    assert(after.floating() =~= Map::<OutPoint, TxOutView>::empty());
    assert forall|outpoint: OutPoint, chain: Keychain, i: u32| #[trigger]
        after.watched().contains((outpoint, chain, i)) implies has_output(after.txs(), outpoint)
        && output_at(after.txs(), outpoint).script_pubkey == after.scripts()[(chain, i)] by {
        if before.watched().contains((outpoint, chain, i)) {
            assert(before.txs().contains_key(outpoint.txid));
            assert(after.txs().contains_key(outpoint.txid));
        }
    }
    assert forall|outpoint: OutPoint, a: (Keychain, u32), b: (Keychain, u32)|
        #![trigger after.watched().contains((outpoint, a.0, a.1)),
            after.watched().contains((outpoint, b.0, b.1))]
        after.watched().contains((outpoint, a.0, a.1)) && after.watched().contains(
            (outpoint, b.0, b.1),
        ) implies a == b by {
        if is_watched(before.watched(), outpoint) {
            let (c, n) = choose|c: Keychain, n: u32| before.watched().contains((outpoint, c, n));
            let k = (c, n);
            assert(before.watched().contains((outpoint, k.0, k.1)));
            assert(before.watched().contains((outpoint, a.0, a.1)));
            assert(before.watched().contains((outpoint, b.0, b.1)));
        }
    }
}

/// Whether what a wallet holds came from what another holds by an update. If the update has the
/// transactions of all its outputs, a wallet with nothing but its own stays one.
pub open spec fn updated(
    before: TickWallet,
    update: TxUpdate<ConfirmationBlockTime>,
    blocks: Option<Map<u32, BlockHash>>,
    after: TickWallet,
) -> bool {
    &&& after.descriptors() == before.descriptors()
    &&& after.network() == before.network()
    &&& after.updates() == before.updates().push(told(update, blocks))
    &&& after.scripts() == before.scripts()
    &&& holds_more(before.txs(), update_txs(update), after.txs())
    &&& after.floating() == floating_after(before, update, after)
    &&& before.own_only() && outputs_belong(update) ==> after.own_only()
    &&& after.anchors() == before.anchors().union(update_anchors(update))
    &&& latest_sightings(before.last_seen(), update_seen_ats(update), after.last_seen())
    &&& revealed_to(after.revealed(), LAST_ACTIVE_INDEX)
}

/// Whether a chain of blocks starts with the one block that a wallet knows.
pub open spec fn connects(known: Map<u32, BlockHash>, blocks: Seq<BlockId>) -> bool {
    blocks_by_height(blocks).contains_key(0u32) && blocks_by_height(blocks)[0u32] == known[0u32]
}

/// Adds a transaction to an update.
pub(crate) fn add_tx(update: &mut TxUpdate<ConfirmationBlockTime>, tx: &Transaction)
    requires
        txs_holdable(update_txs(*old(update))),
        holdable(tx@),
    ensures
        txs_holdable(update_txs(*final(update))),
        update_txs(*final(update)) == update_txs(*old(update)).push(tx@),
        update_raws(*final(update)) == update_raws(*old(update)).push(tx.bytes()),
        update_txouts(*final(update)) == update_txouts(*old(update)),
        update_anchors(*final(update)) == update_anchors(*old(update)),
        update_seen_ats(*final(update)) == update_seen_ats(*old(update)),
{
    proof {
        use_type_invariant(tx);
    }
    push_tx(update, tx.raw());
}

/// What a list of transactions says.
pub open spec fn views_of(txs: Seq<Arc<Transaction>>) -> Seq<TransactionView> {
    Seq::new(txs.len(), |i: int| txs[i]@)
}

/// The encodings of a list of transactions.
pub open spec fn raws_of(txs: Seq<Arc<Transaction>>) -> Seq<Seq<u8>> {
    Seq::new(txs.len(), |i: int| txs[i].bytes())
}

/// The sightings of a list of transactions at one time.
pub open spec fn sightings_of(txs: Seq<Arc<Transaction>>, now: u64) -> Set<(Txid, u64)> {
    Set::new(
        |sighting: (Txid, u64)| sighting.1 == now && is_among(txs, sighting.0),
    )
}

/// Whether a transaction of a list has an id.
pub open spec fn is_among(txs: Seq<Arc<Transaction>>, txid: Txid) -> bool {
    exists|i: int| 0 <= i < txs.len() && (#[trigger] txs[i])@.txid == txid
}

/// Whether no transaction of a list opens a block.
pub open spec fn none_coinbase(txs: Seq<Arc<Transaction>>) -> bool {
    forall|i: int| 0 <= i < txs.len() ==> !(#[trigger] txs[i]).coinbase()
}

/// What a wallet is told of unconfirmed transactions at a time.
pub open spec fn sighting_update(txs: Seq<Arc<Transaction>>, now: u64) -> UpdateView {
    UpdateView {
        last_active: LAST_ACTIVE_INDEX,
        raws: raws_of(txs),
        txouts: Map::empty(),
        anchors: Set::empty(),
        seen_ats: sightings_of(txs, now),
        blocks: None,
    }
}

/// Whether a wallet can take in unconfirmed transactions: none opens a block, and they are fit.
pub open spec fn injectable(wallet: TickWallet, txs: Seq<Arc<Transaction>>) -> bool {
    &&& none_coinbase(txs)
    &&& fit(
        views_of(txs),
        wallet.null_spenders().union(null_ids(views_of(txs))),
        wallet.loose(),
    )
}

/// Whether a wallet came from another by taking in unconfirmed transactions at a time.
pub open spec fn injected(
    before: TickWallet,
    txs: Seq<Arc<Transaction>>,
    now: u64,
    after: TickWallet,
) -> bool {
    &&& after.descriptors() == before.descriptors()
    &&& after.network() == before.network()
    &&& after.updates() == before.updates().push(sighting_update(txs, now))
    &&& after.scripts() == before.scripts()
    &&& after.chain() == before.chain()
    &&& holds_more(before.txs(), views_of(txs), after.txs())
    &&& after.floating() == whole_forgotten(before.floating(), after.txs().dom())
    &&& before.own_only() ==> after.own_only()
    &&& after.null_spenders() == before.null_spenders().union(null_ids(views_of(txs)))
    &&& after.loose() == before.loose()
    &&& after.anchors() == before.anchors()
    &&& latest_sightings(before.last_seen(), sightings_of(txs, now), after.last_seen())
    &&& revealed_to(after.revealed(), LAST_ACTIVE_INDEX)
}

/// Whether any transaction of a list opens a block.
fn has_coinbase(txs: &Vec<Arc<Transaction>>) -> (found: bool)
    ensures
        found == !none_coinbase(txs@),
{
    let mut i: usize = 0;
    while i < txs.len()
        invariant
            i <= txs@.len(),
            forall|k: int| 0 <= k < i ==> !(#[trigger] txs@[k]).coinbase(),
        decreases txs@.len() - i,
    {
        if (&*txs[i]).is_coinbase() {
            assert(txs@[i as int].coinbase());
            return true;
        }
        i += 1;
    }
    false
}

/// Injects mempool transactions into the wallet as seen now, without a block, so that their
/// change can be spent before it is confirmed. Without any, the wallet stays as it is. They are
/// refused exactly where the wallet cannot take them in.
pub fn inject_mempool_txs(
    wallet: &mut TickWallet,
    mempool_txs: &Vec<Arc<Transaction>>,
    now: u64,
) -> (injection: Result<(), WalletError>)
    requires
        old(wallet).wf(),
    ensures
        final(wallet).wf(),
        match injection {
            Ok(()) => {
                &&& mempool_txs@.len() == 0 ==> *final(wallet) == *old(wallet)
                &&& mempool_txs@.len() != 0 ==> injectable(*old(wallet), mempool_txs@) && injected(
                    *old(wallet),
                    mempool_txs@,
                    now,
                    *final(wallet),
                )
            },
            Err(error) => error is Unfit && mempool_txs@.len() != 0 && !injectable(
                *old(wallet),
                mempool_txs@,
            ) && *final(wallet) == *old(wallet),
        },
{
    if mempool_txs.len() == 0 {
        return Ok(());
    }
    let ghost before = *wallet;
    let added: Vec<Txid> = null_spenders_of(mempool_txs);
    let mut null_spenders: Vec<Txid> = Vec::new();
    append_txids(&mut null_spenders, &wallet.null_spenders);
    append_txids(&mut null_spenders, &added);
    proof {
        assert(Seq::<Txid>::empty() + wallet.null_spenders@ =~= wallet.null_spenders@);
        lemma_sum_to_set(wallet.null_spenders@, added@);
    }
    if has_coinbase(mempool_txs) || !are_fit(mempool_txs, &null_spenders, &wallet.loose) {
        return Err(WalletError::Unfit);
    }
    let mut update = new_update();
    let mut i: usize = 0;
    assert(update_txs(update) =~= views_of(mempool_txs@.take(0)));
    assert(update_raws(update) =~= raws_of(mempool_txs@.take(0)));
    assert(update_seen_ats(update) =~= sightings_of(mempool_txs@.take(0), now));
    while i < mempool_txs.len()
        invariant
            i <= mempool_txs@.len(),
            none_coinbase(mempool_txs@),
            txs_holdable(views_of(mempool_txs@)),
            txs_holdable(update_txs(update)),
            update_txs(update) == views_of(mempool_txs@.take(i as int)),
            update_raws(update) == raws_of(mempool_txs@.take(i as int)),
            update_txouts(update) == Map::<OutPoint, TxOutView>::empty(),
            update_anchors(update) == Set::<(Anchor, Txid)>::empty(),
            update_seen_ats(update) == sightings_of(mempool_txs@.take(i as int), now),
        decreases mempool_txs@.len() - i,
    {
        let tx: &Transaction = &*mempool_txs[i];
        assert(!mempool_txs@[i as int].coinbase());
        assert(holdable(views_of(mempool_txs@)[i as int]));
        add_tx(&mut update, tx);
        insert_seen_at(&mut update, tx, now);
        proof {
            let before = mempool_txs@.take(i as int);
            let after = mempool_txs@.take(i + 1);
            assert(views_of(after) =~= views_of(before).push(tx@));
            assert(raws_of(after) =~= raws_of(before).push(tx.bytes()));
            assert forall|sighting: (Txid, u64)|
                sightings_of(after, now).contains(sighting) == sightings_of(before, now).insert(
                    (tx@.txid, now),
                ).contains(sighting) by {
                let txid = sighting.0;
                if is_among(before, txid) {
                    let j = choose|j: int|
                        0 <= j < before.len() && (#[trigger] before[j])@.txid == txid;
                    assert(after[j]@.txid == txid);
                }
                if txid == tx@.txid {
                    assert(after[i as int]@.txid == txid);
                }
                if is_among(after, txid) && txid != tx@.txid {
                    let j = choose|j: int|
                        0 <= j < after.len() && (#[trigger] after[j])@.txid == txid;
                    assert(before[j]@.txid == txid);
                }
            }
            assert(sightings_of(after, now) =~= sightings_of(before, now).insert((tx@.txid, now)));
        }
        i += 1;
    }
    assert(mempool_txs@.take(i as int) =~= mempool_txs@);
    proof {
        assert forall|k: int| 0 <= k < update_txs(update).len() implies !opens_block(
            #[trigger] update_txs(update)[k],
        ) by {
            assert(!mempool_txs@[k].coinbase());
        }
    }
    wallet.apply(update, &added);
    proof {
        assert(wallet.anchors() =~= before.anchors());
        assert(before.floating().union_prefer_right(update_txouts(update)) =~= before.floating());
        assert(told(update, None) =~= sighting_update(mempool_txs@, now));
    }
    Ok(())
}

// ---------------------------------------------------------------------------------------
// Building a transaction.
// ---------------------------------------------------------------------------------------

/// Why no transaction was built.
#[derive(Debug)]
pub enum BuildError {
    /// The fee rate cannot be expressed.
    InvalidFeeRate,
    /// The amount, the fee rate or what the wallet has is beyond what coin selection can add up.
    OutOfRange,
    /// The wallet could not fund the transaction.
    Create(CreateTxError),
    /// A signer failed.
    Sign(SignerError),
    /// Not every input could be signed.
    NotSigned,
    /// The wallet lists an output twice, and the transaction spends it twice.
    SpentTwice,
    /// The signed transaction was not given out.
    Extract(ExtractTxError),
}

/// What becomes of a transaction after an attempt to sign it: it goes on only if every input
/// was signed.
pub fn signed(finalized: Result<bool, SignerError>) -> (outcome: Result<(), BuildError>)
    ensures
        match finalized {
            Ok(true) => outcome is Ok,
            Ok(false) => outcome matches Err(BuildError::NotSigned),
            Err(error) => outcome matches Err(BuildError::Sign(inner)) && inner == error,
        },
{
    match finalized {
        Ok(true) => Ok(()),
        Ok(false) => Err(BuildError::NotSigned),
        Err(error) => Err(BuildError::Sign(error)),
    }
}

/// Whether coin selection can be asked to pay an amount at a fee rate out of a list of outputs,
/// some of which may not be spent.
pub open spec fn payable(
    unspent: Seq<WalletUtxo>,
    unspendable: Seq<OutPoint>,
    receiver: Seq<u8>,
    amount_sat: u64,
    fee_rate_sat_per_vb: u64,
) -> bool {
    &&& within_reach(receiver, amount_sat, fee_rate_sat_per_vb)
    &&& selectable(unspent, unspendable)
}

/// The most that a payment out of some inputs leaves as its fee: what is counted for them, for the
/// receiver and for the change, and dust.
pub open spec fn most_fee(
    inputs: nat,
    receiver: Seq<u8>,
    change: Seq<u8>,
    fee_rate_sat_per_vb: u64,
) -> nat {
    (fee_rate_sat_per_vb * (INPUT_SIZE * inputs) + base_fee(receiver, fee_rate_sat_per_vb)
        + fee_rate_sat_per_vb * output_size(change) + dust_limit(change)) as nat
}

/// The least that a payment out of some inputs weighs: without change, and with the shortest
/// signatures.
pub open spec fn least_weight(inputs: nat, receiver: Seq<u8>) -> nat {
    4 * (9 + count_size(inputs) + BARE_INPUT_SIZE as nat * inputs + output_size(receiver)) + 2
        + LEAST_WITNESS_WEIGHT as nat * inputs
}

/// Whether the fee of a payment is not absurd, however many of some inputs it spends.
pub open spec fn never_absurd(
    limit: nat,
    receiver: Seq<u8>,
    change: Seq<u8>,
    fee_rate_sat_per_vb: u64,
) -> bool {
    forall|inputs: nat|
        1 <= inputs <= limit ==> !is_absurd(
            #[trigger] most_fee(inputs, receiver, change, fee_rate_sat_per_vb) as int,
            least_weight(inputs, receiver),
        )
}

/// Whether a wallet is bound to make a payment: coin selection can be asked for it and cannot lack
/// funds, the wallet has nothing but its own and the keys to it, and the fee is absurd for no
/// number of inputs.
pub open spec fn owed(
    wallet: TickWallet,
    unspendable: Seq<OutPoint>,
    receiver: Seq<u8>,
    change: Seq<u8>,
    amount_sat: u64,
    fee_rate_sat_per_vb: u64,
) -> bool {
    &&& payable(wallet.unspent(), unspendable, receiver, amount_sat, fee_rate_sat_per_vb)
    &&& affordable(
        wallet.txs(),
        wallet.anchors(),
        wallet.chain(),
        wallet.unspent(),
        unspendable,
        receiver,
        amount_sat,
        fee_rate_sat_per_vb,
    )
    &&& wallet.own_only()
    &&& has_keys(wallet.descriptors())
    &&& never_absurd(
        spendable(wallet.unspent(), unspendable).len(),
        receiver,
        change,
        fee_rate_sat_per_vb,
    )
}

/// Whether a transaction spends only listed outputs, and none that may not be spent.
pub open spec fn spends_within(
    inputs: Seq<OutPoint>,
    listed: Seq<WalletUtxo>,
    unspendable: Seq<OutPoint>,
) -> bool {
    forall|i: int|
        0 <= i < inputs.len() ==> lists(listed, #[trigger] inputs[i]) && !unspendable.contains(
            inputs[i],
        )
}

/// Whether a transaction is one that a request asks for: it spends outputs of the list, each
/// once and none that may not be spent, pays the amount to the receiver and what is left to the
/// change, and leaves the fee at the rate.
pub open spec fn fulfils(
    tx: TransactionView,
    unspent: Seq<WalletUtxo>,
    unspendable: Seq<OutPoint>,
    receiver: Seq<u8>,
    change: Seq<u8>,
    amount_sat: u64,
    fee_rate_sat_per_vb: u64,
) -> bool {
    &&& spends_within(tx.inputs, unspent, unspendable)
    &&& tx.inputs.no_duplicates()
    &&& pays(tx.outputs, receiver, amount_sat, change)
    &&& pays_fee(
        spent_value(tx.inputs, unspent),
        tx.inputs.len(),
        tx.outputs,
        receiver,
        change,
        fee_rate_sat_per_vb,
    )
    &&& amount_sat >= dust_limit(receiver)
}

/// Whether a weight is that of a payment with P2WPKH inputs: that of its inputs and outputs, and of
/// the signatures, whose size is not fixed.
pub open spec fn weighs(weight: nat, tx: TransactionView) -> bool {
    let bare = 4 * bare_size(tx.inputs.len(), tx.outputs);
    weight >= bare && is_signature_weight((weight - bare) as nat, tx.inputs.len())
}

/// Whether a fee covers a rate for a weight. By the virtual size, which is rounded up, the fee of
/// one input can fall short by half the rate.
pub open spec fn covers_rate(fee: int, weight: nat, inputs: nat, sat_per_vb: u64) -> bool {
    &&& 4 * fee >= sat_per_vb * weight
    &&& inputs >= 2 ==> fee >= sat_per_vb * virtual_size(weight)
    &&& fee + sat_per_vb / 2 >= sat_per_vb * virtual_size(weight)
}

/// Whether a transaction is one that a wallet gives out: it is signed and has the weight of P2WPKH
/// inputs, it spends nothing immature, and, if the wallet has nothing but its own, its fee is not
/// absurd for its weight.
pub open spec fn given_out(tx: Transaction, wallet: TickWallet) -> bool {
    &&& tx_signed(tx.bytes())
    &&& weighs(tx_weight(tx.bytes()), tx@)
    &&& forall|i: int|
        0 <= i < tx@.inputs.len() ==> is_mature(
            wallet.txs(),
            wallet.anchors(),
            wallet.chain(),
            (#[trigger] tx@.inputs[i]).txid,
        )
    &&& wallet.own_only() ==> !is_absurd(
        spent_value(tx@.inputs, wallet.unspent()) - paid_value(tx@.outputs),
        tx_weight(tx.bytes()),
    )
}

/// Whether an error can come of a request: one of the fee rate where it cannot be expressed, one of
/// the range where the rate can be expressed and coin selection cannot be asked, one of funding
/// where funds can be lacking, one of an output that is spent twice where one is listed twice, and
/// any other where the wallet is not bound to make the payment.
pub open spec fn fails_with(
    error: BuildError,
    wallet: TickWallet,
    unspendable: Seq<OutPoint>,
    receiver: Seq<u8>,
    change: Seq<u8>,
    amount_sat: u64,
    fee_rate_sat_per_vb: u64,
) -> bool {
    let asked = payable(
        wallet.unspent(),
        unspendable,
        receiver,
        amount_sat,
        fee_rate_sat_per_vb,
    );
    match error {
        BuildError::InvalidFeeRate => fee_rate_sat_per_vb * 250 > u64::MAX,
        BuildError::OutOfRange => fee_rate_sat_per_vb * 250 <= u64::MAX && !asked,
        BuildError::Create(_) => asked && !affordable(
            wallet.txs(),
            wallet.anchors(),
            wallet.chain(),
            wallet.unspent(),
            unspendable,
            receiver,
            amount_sat,
            fee_rate_sat_per_vb,
        ),
        BuildError::SpentTwice => asked && !distinct(wallet.unspent()),
        BuildError::Sign(_) | BuildError::NotSigned | BuildError::Extract(_) => asked && !owed(
            wallet,
            unspendable,
            receiver,
            change,
            amount_sat,
            fee_rate_sat_per_vb,
        ),
    }
}

/// A payment that a wallet is bound to make fails with no error.
pub proof fn what_is_owed_is_paid(
    error: BuildError,
    wallet: TickWallet,
    unspendable: Seq<OutPoint>,
    receiver: Seq<u8>,
    change: Seq<u8>,
    amount_sat: u64,
    fee_rate_sat_per_vb: u64,
)
    requires
        fails_with(
            error,
            wallet,
            unspendable,
            receiver,
            change,
            amount_sat,
            fee_rate_sat_per_vb,
        ),
    ensures
        !owed(wallet, unspendable, receiver, change, amount_sat, fee_rate_sat_per_vb),
{
}

/// Whether coin selection can look for an amount at a fee rate.
pub fn is_within_reach(receiver: &Vec<u8>, amount_sat: u64, sat_per_vb: u64) -> (within: bool)
    requires
        receiver@.len() <= SCRIPT_LIMIT,
    ensures
        within == within_reach(receiver@, amount_sat, sat_per_vb),
{
    if sat_per_vb > FEE_RATE_LIMIT {
        return false;
    }
    let prefix: u64 = if receiver.len() < 253 {
        1
    } else {
        3
    };
    let size: u64 = 8 + prefix + receiver.len() as u64;
    assert(size == output_size(receiver@));
    assert(0 <= sat_per_vb * (HEADER_SIZE + size) <= 1_000_000 * 20_000) by (nonlinear_arith)
        requires
            0 <= sat_per_vb <= 1_000_000,
            0 <= HEADER_SIZE + size <= 20_000,
    ;
    let base: u64 = sat_per_vb * (HEADER_SIZE + size) + (sat_per_vb + 1) / 2;
    assert(base == base_fee(receiver@, sat_per_vb));
    amount_sat as u128 + base as u128 + (sat_per_vb * P2WPKH_OUTPUT_SIZE) as u128
        <= VALUE_LIMIT as u128
}

/// Whether coin selection can work on those outputs of a list that may be spent.
pub fn is_selectable(utxos: &Vec<WalletUtxo>, unspendable: &Vec<OutPoint>) -> (within: bool)
    ensures
        within == selectable(utxos@, unspendable@),
{
    let mut total: u64 = 0;
    let mut count: u64 = 0;
    let mut i: usize = 0;
    while i < utxos.len()
        invariant
            i <= utxos@.len(),
            total == total_value(spendable(utxos@.take(i as int), unspendable@)),
            count == spendable(utxos@.take(i as int), unspendable@).len(),
            total <= VALUE_LIMIT,
            count <= u32::MAX,
        decreases utxos@.len() - i,
    {
        let value: u64 = utxos[i].value;
        let ghost funds = spendable(utxos@.take(i as int), unspendable@);
        assert(utxos@.take(i + 1).drop_last() =~= utxos@.take(i as int));
        if !contains(unspendable, &utxos[i].outpoint) {
            proof {
                assert(funds.push(utxos@[i as int]).drop_last() =~= funds);
                lemma_spendable_grows(utxos@, unspendable@, i + 1);
            }
            if value > VALUE_LIMIT - total || count == 0xffff_ffff {
                return false;
            }
            total += value;
            count += 1;
        }
        i += 1;
    }
    assert(utxos@.take(i as int) =~= utxos@);
    true
}

/// What may be spent of the first outputs of a list is no more than what may be spent of all.
proof fn lemma_spendable_grows(utxos: Seq<WalletUtxo>, unspendable: Seq<OutPoint>, n: int)
    requires
        0 <= n <= utxos.len(),
    ensures
        total_value(spendable(utxos.take(n), unspendable)) <= total_value(
            spendable(utxos, unspendable),
        ),
        spendable(utxos.take(n), unspendable).len() <= spendable(utxos, unspendable).len(),
    decreases utxos.len() - n,
{
    if n == utxos.len() {
        assert(utxos.take(n) =~= utxos);
    } else {
        let funds = spendable(utxos.take(n), unspendable);
        assert(utxos.take(n + 1).drop_last() =~= utxos.take(n));
        assert(funds.push(utxos[n]).drop_last() =~= funds);
        lemma_spendable_grows(utxos, unspendable, n + 1);
    }
}

/// An output of a list that may be spent is among those that may.
proof fn lemma_spendable_holds(utxos: Seq<WalletUtxo>, unspendable: Seq<OutPoint>, n: int)
    requires
        0 <= n < utxos.len(),
        !unspendable.contains(utxos[n].outpoint),
    ensures
        spendable(utxos, unspendable).contains(utxos[n]),
    decreases utxos.len(),
{
    let rest = spendable(utxos.drop_last(), unspendable);
    let all = spendable(utxos, unspendable);
    if n < utxos.len() - 1 {
        lemma_spendable_holds(utxos.drop_last(), unspendable, n);
        let k = choose|k: int| 0 <= k < rest.len() && rest[k] == utxos[n];
        assert(all[k] == utxos[n]);
    } else {
        assert(all[rest.len() as int] == utxos[n]);
    }
}

/// A list comes to what one of its outputs is worth more than the others.
proof fn lemma_total_without(utxos: Seq<WalletUtxo>, k: int)
    requires
        0 <= k < utxos.len(),
    ensures
        total_value(utxos) == total_value(utxos.remove(k)) + utxos[k].value,
    decreases utxos.len(),
{
    if k == utxos.len() - 1 {
        assert(utxos.remove(k) =~= utxos.drop_last());
    } else {
        lemma_total_without(utxos.drop_last(), k);
        assert(utxos.remove(k).drop_last() =~= utxos.drop_last().remove(k));
    }
}

/// Outputs that are each spent once are no more and come to no more than a list that holds them
/// all.
proof fn lemma_spent_within(
    inputs: Seq<OutPoint>,
    utxos: Seq<WalletUtxo>,
    funds: Seq<WalletUtxo>,
)
    requires
        inputs.no_duplicates(),
        forall|i: int|
            0 <= i < inputs.len() ==> entry(utxos, #[trigger] inputs[i]).outpoint == inputs[i],
        forall|i: int|
            0 <= i < inputs.len() ==> funds.contains(entry(utxos, #[trigger] inputs[i])),
    ensures
        spent_value(inputs, utxos) <= total_value(funds),
        inputs.len() <= funds.len(),
    decreases inputs.len(),
{
    if inputs.len() != 0 {
        let last = inputs.len() - 1;
        let spent = entry(utxos, inputs[last]);
        let k = choose|k: int| 0 <= k < funds.len() && funds[k] == spent;
        lemma_total_without(funds, k);
        let rest = funds.remove(k);
        assert forall|i: int| 0 <= i < inputs.drop_last().len() implies rest.contains(
            entry(utxos, #[trigger] inputs.drop_last()[i]),
        ) by {
            let other = entry(utxos, inputs[i]);
            assert(inputs[i] != inputs[last]);
            let j = choose|j: int| 0 <= j < funds.len() && funds[j] == other;
            assert(j != k);
            if j < k {
                assert(rest[j] == other);
            } else {
                assert(rest[j - 1] == other);
            }
        }
        lemma_spent_within(inputs.drop_last(), utxos, rest);
    }
}

/// In a list that holds each output once, an output has the entry at which it stands.
proof fn lemma_entry(utxos: Seq<WalletUtxo>, n: int)
    requires
        distinct(utxos),
        0 <= n < utxos.len(),
    ensures
        entry(utxos, utxos[n].outpoint) == utxos[n],
{
    assert forall|k: int| n < k < utxos.len() implies (#[trigger] utxos[k]).outpoint
        != utxos[n].outpoint by {
        assert(utxos[n].outpoint != utxos[k].outpoint);
    }
    assert(is_last(utxos, utxos[n].outpoint, n));
    let i = choose|i: int| is_last(utxos, utxos[n].outpoint, i);
    assert(i == n) by {
        if i < n {
            assert(utxos[n].outpoint != utxos[n].outpoint);
        }
        if n < i {
            assert(utxos[i].outpoint != utxos[n].outpoint);
        }
    }
}

/// What is recorded of inputs comes to what they spend.
proof fn lemma_recorded(
    inputs: Seq<OutPoint>,
    recorded: Seq<Option<TxOutView>>,
    utxos: Seq<WalletUtxo>,
)
    requires
        recorded.len() == inputs.len(),
        forall|i: int|
            0 <= i < inputs.len() ==> (#[trigger] recorded[i]) is Some && recorded[i]->0.value
                == entry(utxos, inputs[i]).value,
    ensures
        recorded_value(recorded) == spent_value(inputs, utxos),
    decreases inputs.len(),
{
    if inputs.len() != 0 {
        assert forall|i: int| 0 <= i < inputs.drop_last().len() implies (
        #[trigger] recorded.drop_last()[i]) is Some && recorded.drop_last()[i]->0.value == entry(
            utxos,
            inputs.drop_last()[i],
        ).value by {
            assert(recorded.drop_last()[i] == recorded[i]);
            assert(inputs.drop_last()[i] == inputs[i]);
        }
        lemma_recorded(inputs.drop_last(), recorded.drop_last(), utxos);
        assert(recorded.last() == recorded[recorded.len() - 1]);
        assert(recorded.last() is Some);
    }
}

/// The outputs of a payment have the size of the receiver's and, if there is change, of the
/// change's.
proof fn lemma_payment_size(
    outputs: Seq<TxOutView>,
    receiver: Seq<u8>,
    amount_sat: u64,
    change: Seq<u8>,
)
    requires
        pays(outputs, receiver, amount_sat, change),
    ensures
        outputs.len() == 1 || outputs.len() == 2,
        outputs_size(outputs) == output_size(receiver) + if outputs.len() == 2 {
            output_size(change)
        } else {
            0
        },
        paid_value(outputs) >= amount_sat,
{
    let i = choose|i: int|
        0 <= i < outputs.len() && (#[trigger] outputs[i]) == (TxOutView {
            value: amount_sat,
            script_pubkey: receiver,
        }) && forall|j: int|
            0 <= j < outputs.len() && j != i ==> {
                &&& (#[trigger] outputs[j]).script_pubkey == change
                &&& outputs[j].value >= dust_limit(change)
            };
    reveal_with_fuel(outputs_size, 3);
    reveal_with_fuel(paid_value, 3);
    assert(outputs[i].script_pubkey == receiver);
    if outputs.len() == 2 {
        assert(outputs[1 - i].script_pubkey == change);
        assert(outputs.drop_last()[0] == outputs[0]);
    }
}

/// The fee of a payment is no more than the most, and its weight no less than the least.
proof fn lemma_fee_and_weight(
    spent: nat,
    inputs: nat,
    outputs: Seq<TxOutView>,
    receiver: Seq<u8>,
    change: Seq<u8>,
    amount_sat: u64,
    sat_per_vb: u64,
)
    requires
        pays(outputs, receiver, amount_sat, change),
        pays_fee(spent, inputs, outputs, receiver, change, sat_per_vb),
    ensures
        spent - paid_value(outputs) <= most_fee(inputs, receiver, change, sat_per_vb),
        4 * bare_size(inputs, outputs) + 2 + LEAST_WITNESS_WEIGHT * inputs >= least_weight(
            inputs,
            receiver,
        ),
{
    lemma_payment_size(outputs, receiver, amount_sat, change);
    assert(0 <= sat_per_vb * output_size(change)) by (nonlinear_arith);
    assert(0 <= sat_per_vb * (INPUT_SIZE * inputs)) by (nonlinear_arith);
}

/// What a wallet is asked for: an amount to the receiver at a fee rate, with the change to the
/// fixed change address, and with some outputs kept out of coin selection.
pub fn tx_request(
    receiver_address: &Address,
    change_address: &Address,
    amount_sat: u64,
    fee_rate_sat_per_vb: u64,
    unspendable: &Vec<OutPoint>,
) -> (request: TxRequest)
    ensures
        request.receiver@ == receiver_address.script_pubkey@,
        request.change@ == change_address.script_pubkey@,
        request.amount_sat == amount_sat,
        request.sat_per_vb == fee_rate_sat_per_vb,
        request.unspendable@ == unspendable@,
{
    TxRequest {
        receiver: copy_bytes(&receiver_address.script_pubkey),
        change: copy_bytes(&change_address.script_pubkey),
        amount_sat,
        sat_per_vb: fee_rate_sat_per_vb,
        unspendable: copy_outpoints(unspendable),
    }
}

/// In a wallet with nothing but its own, each output is listed once.
pub proof fn lemma_listed_once(wallet: TickWallet)
    requires
        wallet.own_only(),
        wallet.lists_rightly(),
    ensures
        distinct(wallet.unspent()),
{
    let unspent = wallet.unspent();
    assert forall|i: int, j: int| 0 <= i < j < unspent.len() implies unspent[i].outpoint
        != unspent[j].outpoint by {
        let a = (unspent[i].keychain, unspent[i].derivation_index);
        let b = (unspent[j].keychain, unspent[j].derivation_index);
        assert(wallet.watched().contains((unspent[i].outpoint, a.0, a.1)));
        assert(wallet.watched().contains((unspent[j].outpoint, b.0, b.1)));
    }
}

/// What is counted for a payment covers the rate for what it weighs once it is signed.
pub proof fn lemma_covers_rate(
    tx: TransactionView,
    weight: nat,
    unspent: Seq<WalletUtxo>,
    unspendable: Seq<OutPoint>,
    receiver: Seq<u8>,
    change: Seq<u8>,
    amount_sat: u64,
    sat_per_vb: u64,
)
    requires
        fulfils(tx, unspent, unspendable, receiver, change, amount_sat, sat_per_vb),
        weighs(weight, tx),
        !is_op_return(change),
    ensures
        covers_rate(
            spent_value(tx.inputs, unspent) - paid_value(tx.outputs),
            weight,
            tx.inputs.len(),
            sat_per_vb,
        ),
{
    let rate = sat_per_vb as int;
    let n = tx.inputs.len() as int;
    let heavy = weight as int;
    let fee = spent_value(tx.inputs, unspent) - paid_value(tx.outputs);
    let counted = 68 * n + 10 + outputs_size(tx.outputs);
    lemma_payment_size(tx.outputs, receiver, amount_sat, change);
    let to_receiver = output_size(receiver) as int;
    let to_change = output_size(change) as int;
    assert(rate * (68 * n + 10 + to_receiver) == rate * (68 * n) + rate * (10 + to_receiver))
        by (nonlinear_arith);
    assert(rate * (68 * n + 10 + to_receiver + to_change) == rate * (68 * n) + rate * (10
        + to_receiver) + rate * to_change) by (nonlinear_arith);
    assert(fee >= rate * counted + (rate + 1) / 2);
    assert(rate * heavy <= 4 * (rate * counted) + 2 * rate) by (nonlinear_arith)
        requires
            0 <= rate,
            heavy <= 4 * counted + 2,
    ;
    let vsize = virtual_size(weight) as int;
    assert(rate * vsize <= rate * counted + rate) by (nonlinear_arith)
        requires
            0 <= rate,
            vsize <= counted + 1,
    ;
    if n >= 2 {
        assert(rate * vsize <= rate * counted) by (nonlinear_arith)
            requires
                0 <= rate,
                vsize <= counted,
        ;
    }
}

/// A transaction that a wallet with nothing but its own has funded can be signed, and what is
/// recorded of its inputs stays within what can be added up.
proof fn lemma_signable(
    wallet: TickWallet,
    request: TxRequest,
    inputs: Seq<OutPoint>,
    recorded: Seq<Option<TxOutView>>,
    outputs: Seq<TxOutView>,
)
    requires
        wallet.lists_rightly(),
        wallet.own_only(),
        distinct(wallet.unspent()),
        selectable(wallet.unspent(), request.unspendable@),
        request.receiver@.len() <= SCRIPT_LIMIT,
        request.change@.len() <= SCRIPT_LIMIT,
        recorded.len() == inputs.len(),
        forall|i: int|
            0 <= i < inputs.len() ==> recorded[i] == Some(
                output_at(wallet.txs(), #[trigger] inputs[i]),
            ),
        inputs.no_duplicates(),
        spends_within(inputs, wallet.unspent(), request.unspendable@),
        pays(outputs, request.receiver@, request.amount_sat, request.change@),
        pays_fee(
            spent_value(inputs, wallet.unspent()),
            inputs.len(),
            outputs,
            request.receiver@,
            request.change@,
            request.sat_per_vb,
        ),
    ensures
        signable(wallet.inner, inputs, recorded),
        all_recorded(recorded),
        recorded_value(recorded) == spent_value(inputs, wallet.unspent()),
        paid_value(outputs) <= recorded_value(recorded) <= VALUE_LIMIT,
        inputs.len() <= spendable(wallet.unspent(), request.unspendable@).len(),
        request.amount_sat > 0 ==> inputs.len() > 0,
        4 * bare_size(inputs.len(), outputs) + 2 + MOST_WITNESS_WEIGHT * inputs.len()
            <= WEIGHT_LIMIT,
{
    let unspent = wallet.unspent();
    let candidates = spendable(unspent, request.unspendable@);
    assert forall|i: int| 0 <= i < inputs.len() implies {
        &&& (#[trigger] recorded[i]) is Some
        &&& recorded[i]->0.value == entry(unspent, inputs[i]).value
        &&& entry(unspent, inputs[i]).outpoint == inputs[i]
        &&& candidates.contains(entry(unspent, inputs[i]))
        &&& recognized_by(wallet.inner, inputs[i], recorded[i]->0.script_pubkey)
    } by {
        assert(recorded[i] == Some(output_at(wallet.txs(), inputs[i])));
        assert(lists(unspent, inputs[i]));
        let n = choose|n: int| 0 <= n < unspent.len() && (#[trigger] unspent[n]).outpoint
            == inputs[i];
        lemma_entry(unspent, n);
        lemma_spendable_holds(unspent, request.unspendable@, n);
        let utxo = unspent[n];
        assert(wallet.watched().contains((utxo.outpoint, utxo.keychain, utxo.derivation_index)));
        assert(wallet_watched(wallet.inner).contains(
            (inputs[i], utxo.keychain, utxo.derivation_index),
        ));
    }
    assert forall|i: int| 0 <= i < inputs.len() implies entry(
        unspent,
        #[trigger] inputs[i],
    ).outpoint == inputs[i] && candidates.contains(entry(unspent, inputs[i])) by {
        assert(recorded[i] is Some);
    }
    lemma_recorded(inputs, recorded, unspent);
    lemma_spent_within(inputs, unspent, candidates);
    lemma_payment_size(outputs, request.receiver@, request.amount_sat, request.change@);
    if inputs.len() == 0 {
        assert(spent_value(inputs, unspent) == 0);
    }
}

/// What a wallet with nothing but its own has funded and signed is given out exactly where its fee
/// is not absurd, which it is not if the wallet is bound to make the payment.
proof fn lemma_not_absurd(
    wallet: TickWallet,
    request: TxRequest,
    inputs: Seq<OutPoint>,
    outputs: Seq<TxOutView>,
    weight: nat,
)
    requires
        owed(
            wallet,
            request.unspendable@,
            request.receiver@,
            request.change@,
            request.amount_sat,
            request.sat_per_vb,
        ),
        0 < inputs.len() <= spendable(wallet.unspent(), request.unspendable@).len(),
        pays(outputs, request.receiver@, request.amount_sat, request.change@),
        pays_fee(
            spent_value(inputs, wallet.unspent()),
            inputs.len(),
            outputs,
            request.receiver@,
            request.change@,
            request.sat_per_vb,
        ),
        weight >= 4 * bare_size(inputs.len(), outputs) + 2 + LEAST_WITNESS_WEIGHT * inputs.len(),
    ensures
        !is_absurd(spent_value(inputs, wallet.unspent()) - paid_value(outputs), weight),
{
    lemma_fee_and_weight(
        spent_value(inputs, wallet.unspent()),
        inputs.len(),
        outputs,
        request.receiver@,
        request.change@,
        request.amount_sat,
        request.sat_per_vb,
    );
    assert(!is_absurd(
        most_fee(inputs.len(), request.receiver@, request.change@, request.sat_per_vb) as int,
        least_weight(inputs.len(), request.receiver@),
    ));
}

/// Builds and signs a single transaction from the wallet to the receiver, with its change to
/// the fixed change address. The outputs in `unspendable` are kept out of coin selection,
/// which prevents double spends within a batch and against the mempool. The fee covers the rate for
/// what the signed transaction weighs. A payment that the wallet is bound to make is made. The
/// wallet stays as it is.
pub fn build_tx(
    wallet: &mut TickWallet,
    receiver_address: &Address,
    change_address: &Address,
    amount_sat: u64,
    fee_rate_sat_per_vb: u64,
    unspendable: &Vec<OutPoint>,
) -> (built: Result<Transaction, BuildError>)
    requires
        old(wallet).wf(),
        receiver_address.script_pubkey@.len() <= SCRIPT_LIMIT,
        change_address.script_pubkey@.len() <= SCRIPT_LIMIT,
    ensures
        *final(wallet) == *old(wallet),
        match built {
            Ok(tx) => {
                &&& payable(
                    old(wallet).unspent(),
                    unspendable@,
                    receiver_address.script_pubkey@,
                    amount_sat,
                    fee_rate_sat_per_vb,
                )
                &&& fulfils(
                    tx@,
                    old(wallet).unspent(),
                    unspendable@,
                    receiver_address.script_pubkey@,
                    change_address.script_pubkey@,
                    amount_sat,
                    fee_rate_sat_per_vb,
                )
                &&& given_out(tx, *old(wallet))
                &&& !is_op_return(change_address.script_pubkey@) ==> covers_rate(
                    spent_value(tx@.inputs, old(wallet).unspent()) - paid_value(tx@.outputs),
                    tx_weight(tx.bytes()),
                    tx@.inputs.len(),
                    fee_rate_sat_per_vb,
                )
            },
            Err(error) => fails_with(
                error,
                *old(wallet),
                unspendable@,
                receiver_address.script_pubkey@,
                change_address.script_pubkey@,
                amount_sat,
                fee_rate_sat_per_vb,
            ),
        },
{
    if fee_rate_sat_per_vb > u64::MAX / 250 {
        return Err(BuildError::InvalidFeeRate);
    }
    let request = tx_request(
        receiver_address,
        change_address,
        amount_sat,
        fee_rate_sat_per_vb,
        unspendable,
    );
    let unspent: Vec<WalletUtxo> = wallet.list_unspent();
    if !is_within_reach(&request.receiver, amount_sat, fee_rate_sat_per_vb) || !is_selectable(
        &unspent,
        unspendable,
    ) {
        return Err(BuildError::OutOfRange);
    }
    proof {
        wallet.lemma_workable();
    }
    let mut psbt = match create_psbt(&mut wallet.inner, &request) {
        Ok(psbt) => psbt,
        Err(error) => return Err(BuildError::Create(error)),
    };
    let ghost inputs = psbt_inputs(psbt);
    let ghost outputs = psbt_outputs(psbt);
    let ghost own = wallet.own_only();
    let ghost bound = owed(
        *wallet,
        request.unspendable@,
        request.receiver@,
        request.change@,
        amount_sat,
        fee_rate_sat_per_vb,
    );
    proof {
        if own {
            lemma_listed_once(*wallet);
            lemma_signable(*wallet, request, inputs, psbt_spends(psbt), outputs);
        }
    }
    match signed(sign_psbt(&wallet.inner, &mut psbt)) {
        Ok(()) => {},
        Err(error) => return Err(error),
    }
    proof {
        if bound {
            lemma_not_absurd(*wallet, request, inputs, outputs, signed_weight(psbt));
        }
    }
    let raw: Vec<u8> = match extract_tx(psbt) {
        Ok(raw) => raw,
        Err(error) => return Err(BuildError::Extract(error)),
    };
    match Transaction::decode(&raw) {
        Ok(tx) => {
            if tx.repeats_input() {
                return Err(BuildError::SpentTwice);
            }
            proof {
                if !is_op_return(request.change@) {
                    lemma_covers_rate(
                        tx@,
                        tx_weight(tx.bytes()),
                        wallet.unspent(),
                        unspendable@,
                        request.receiver@,
                        request.change@,
                        amount_sat,
                        fee_rate_sat_per_vb,
                    );
                }
            }
            Ok(tx)
        },
        Err(_) => vstd::pervasive::unreached(),
    }
}

} // verus!
