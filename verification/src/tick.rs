//! The course of one tick.
//!
//! A tick asks the node for one thing at a time and goes on with the reply. Where it stands in
//! between is a [`Stage`], what it asks for an [`Action`], and what comes back an [`Event`].

use crate::batch::{built_txs, is_batch, Attempt, PaymentView};
use crate::bdk::tx_signed;
use crate::mempool::{MempoolFetch, MempoolSnapshot};
use crate::plan::{Missing, WalletPlan};
use crate::scan::{ConfirmedSnapshot, ScanRequest, ScanResult, SCAN_FIRST, SCAN_LAST};
use crate::tx::Transaction;
use crate::types::{BlockHash, BlockId, OutPoint, Txid};
use crate::wallet::{TickWallet, WalletError};
use std::sync::Arc;
use vstd::prelude::*;

verus! {

/// What came of a tick.
#[derive(Debug, Clone, Copy, PartialEq, Eq, Structural)]
pub struct TickOutcome {
    /// Number of transactions that were built.
    pub built: u32,
    /// Number of transactions that were broadcast.
    pub broadcast: u32,
    /// Whether the tick was given up early.
    pub skipped: bool,
}

/// Why a tick was given up.
#[derive(Debug)]
pub enum SkipReason {
    /// There is no scan of the UTXO set.
    Scan,
    /// Not all of the mempool could be read, so that nothing protects against double spends.
    Mempool,
    /// There is no wallet.
    Wallet(WalletError),
    /// The wallet did not take in the mempool.
    Injection(WalletError),
}

/// What a wallet came to before a batch was built from it.
#[derive(Debug, Clone, Copy, PartialEq, Eq)]
pub struct WalletReport {
    /// Number of unspent outputs without the mempool.
    pub before_inject: usize,
    /// Number of unspent outputs with the mempool.
    pub after_inject: usize,
    /// Number of mempool transactions.
    pub injected: usize,
    /// The satoshis of all unspent outputs.
    pub balance: u128,
}

/// The transactions of a tick on their way to the node.
#[derive(Debug)]
pub struct Broadcast {
    pub report: WalletReport,
    /// The outputs of the wallet that mempool transactions spend.
    pub blocked: Vec<OutPoint>,
    pub attempts: Vec<Attempt>,
    /// The transactions that were built.
    pub txs: Vec<Arc<Transaction>>,
    /// How many of them were handed to the node.
    pub next: usize,
    /// How many of them the node took.
    pub broadcast: u32,
}

impl Broadcast {
    /// The transactions are those of a batch and signed, and no more were taken than handed over.
    pub open spec fn wf(&self, count: u32, payment: PaymentView) -> bool {
        &&& exists|wallet: TickWallet| #[trigger]
            is_batch(self.attempts@, count, wallet, self.blocked@, payment)
        &&& self.txs@ == built_txs(self.attempts@)
        &&& forall|k: int| 0 <= k < self.txs@.len() ==> tx_signed((#[trigger] self.txs@[k]).bytes())
        &&& self.txs@.len() <= count
        &&& self.next <= self.txs@.len()
        &&& self.broadcast <= self.next
    }

    /// What comes of the tick once every transaction was handed over.
    pub open spec fn outcome(&self) -> TickOutcome {
        TickOutcome {
            built: self.txs@.len() as u32,
            broadcast: self.broadcast,
            skipped: false,
        }
    }

    /// Takes the node's reply to a transaction. One that was refused does not hold up the rest.
    pub fn accept(&mut self, taken: bool)
        requires
            old(self).next < old(self).txs@.len(),
            old(self).broadcast <= old(self).next,
            old(self).txs@.len() <= u32::MAX,
        ensures
            accepted(*old(self), taken, *final(self)),
    {
        assert(self.next < self.txs.len());
        self.next += 1;
        if taken {
            self.broadcast += 1;
        }
    }
}

/// Whether a broadcast went on by one transaction.
pub open spec fn accepted(before: Broadcast, taken: bool, after: Broadcast) -> bool {
    &&& after.report == before.report
    &&& after.blocked == before.blocked
    &&& after.attempts == before.attempts
    &&& after.txs == before.txs
    &&& after.next == before.next + 1
    &&& after.broadcast == before.broadcast + if taken {
        1int
    } else {
        0
    }
}

/// Where a tick stands.
pub enum Stage {
    /// The UTXO set is being scanned.
    Scanning,
    /// The mempool is being listed.
    ListingMempool(ConfirmedSnapshot),
    /// The transactions of the mempool are being fetched.
    FetchingMempool(ConfirmedSnapshot, MempoolFetch),
    /// The block at the height of the last scan's tip is being fetched, for a fresh wallet.
    CheckingTip(MempoolSnapshot, TickWallet, ConfirmedSnapshot),
    /// The blocks and transactions that the wallet needs are being fetched.
    FillingWallet(MempoolSnapshot, WalletPlan),
    /// Transactions are being broadcast, if any were built.
    Broadcasting(Broadcast),
    /// The tick was given up.
    Skipped(SkipReason),
}

/// What a tick wants done.
#[derive(Debug)]
pub enum Action {
    /// Scan the UTXO set for some descriptors.
    Scan(Vec<ScanRequest>),
    /// List the ids of the mempool.
    ListMempool,
    /// Fetch a transaction, from a block if one is given and else from the mempool.
    FetchTx(Txid, Option<BlockHash>),
    /// Fetch the hash of the block at a height.
    FetchBlockHash(u32),
    /// Hand a transaction to the node.
    Broadcast(Arc<Transaction>),
    /// Nothing any more.
    Finish(TickOutcome),
}

/// What comes back from an action. A request that failed brings nothing.
pub enum Event {
    Scanned(Option<ScanResult>),
    MempoolListed(Option<Vec<Txid>>),
    TxFetched(Option<Transaction>),
    BlockHashFetched(Option<BlockHash>),
    /// Whether the node took a transaction.
    Broadcast(bool),
}

/// What comes of a tick that is given up.
pub open spec fn skipped_outcome() -> TickOutcome {
    TickOutcome { built: 0, broadcast: 0, skipped: true }
}

/// What a stage wants done, with the tip of the last scan that is remembered.
pub open spec fn wants(
    stage: Stage,
    external: Seq<char>,
    internal: Seq<char>,
    last_tip: Option<BlockId>,
    action: Action,
) -> bool {
    match stage {
        Stage::Scanning => action matches Action::Scan(requests) && is_scan(
            requests@,
            external,
            internal,
        ),
        Stage::ListingMempool(_) => action is ListMempool,
        Stage::FetchingMempool(_, fetch) => fetch@.awaited() is Some && action == Action::FetchTx(
            fetch@.awaited()->0,
            None,
        ),
        Stage::CheckingTip(_, _, _) => last_tip is Some && action == Action::FetchBlockHash(
            last_tip->0.height,
        ),
        Stage::FillingWallet(_, plan) => match plan@.missing() {
            Some(Missing::Block(height)) => action == Action::FetchBlockHash(height),
            Some(Missing::Parent(txid, block)) => action == Action::FetchTx(txid, Some(block)),
            None => false,
        },
        Stage::Broadcasting(broadcast) => if broadcast.next < broadcast.txs@.len() {
            action == Action::Broadcast(broadcast.txs@[broadcast.next as int])
        } else {
            action == Action::Finish(broadcast.outcome())
        },
        Stage::Skipped(_) => action == Action::Finish(skipped_outcome()),
    }
}

/// Whether requests name a scan of both keychains, over all the indices that a scan covers.
pub open spec fn is_scan(
    requests: Seq<ScanRequest>,
    external: Seq<char>,
    internal: Seq<char>,
) -> bool {
    &&& requests.len() == 2
    &&& requests[0].descriptor@ == external
    &&& requests[1].descriptor@ == internal
    &&& forall|i: int|
        0 <= i < 2 ==> (#[trigger] requests[i]).first == SCAN_FIRST
            && requests[i].last == SCAN_LAST
}

} // verus!
