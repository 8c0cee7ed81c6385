//! What the generator remembers from one tick to the next.

use crate::mempool::TxCache;
use crate::table::Table;
use crate::tx::Transaction;
use crate::types::{BlockHash, BlockId, ConfirmedKey, Key, Txid};
use std::collections::BTreeMap;
use std::sync::Arc;
use vstd::prelude::*;

verus! {

/// What the generator remembers from one tick to the next.
pub struct Caches {
    /// The tip of the last scan.
    pub scan_tip: Option<BlockId>,
    /// Block hashes by height.
    pub block_hashes: BTreeMap<u32, BlockHash>,
    /// Confirmed transactions, by id and block.
    pub confirmed_txs: Table<ConfirmedKey, Arc<Transaction>>,
    /// Mempool transactions.
    pub mempool_txs: TxCache,
}

/// Whether a scan tip shows that the chain was reorganized since the last scan: the tip is lower,
/// or another block stands at its height.
pub open spec fn reorganized(last: Option<BlockId>, tip: BlockId) -> bool {
    match last {
        Some(last) => tip.height < last.height || (tip.height == last.height && tip.hash
            != last.hash),
        None => false,
    }
}

/// What is remembered.
#[verifier::ext_equal]
pub struct CachesView {
    pub scan_tip: Option<BlockId>,
    pub block_hashes: Map<u32, BlockHash>,
    pub confirmed_txs: Map<ConfirmedKey, Arc<Transaction>>,
    pub mempool_txs: Map<Txid, Arc<Transaction>>,
}

impl View for Caches {
    type V = CachesView;

    open spec fn view(&self) -> CachesView {
        CachesView {
            scan_tip: self.scan_tip,
            block_hashes: self.block_hashes@,
            confirmed_txs: self.confirmed_txs@,
            mempool_txs: self.mempool_txs@,
        }
    }
}

/// What is remembered before the first tick.
pub open spec fn nothing_remembered() -> CachesView {
    CachesView {
        scan_tip: None,
        block_hashes: Map::empty(),
        confirmed_txs: Map::empty(),
        mempool_txs: Map::empty(),
    }
}

impl CachesView {
    /// Whether any confirmed block or transaction is remembered.
    pub open spec fn holds_confirmed(self) -> bool {
        ||| self.block_hashes != Map::<u32, BlockHash>::empty()
        ||| self.confirmed_txs != Map::<ConfirmedKey, Arc<Transaction>>::empty()
    }

    /// Whether a scan tip leaves it open if what is remembered of confirmed blocks and transactions
    /// still holds: the tip is higher than that of the last scan, which may stand or not.
    pub open spec fn in_doubt(self, tip: BlockId) -> bool {
        &&& self.holds_confirmed()
        &&& self.scan_tip is Some
        &&& self.scan_tip->0.height < tip.height
    }

    /// What is remembered after a scan whose tip does away with confirmed blocks and transactions.
    pub open spec fn forgetting(self, tip: BlockId) -> CachesView {
        CachesView {
            scan_tip: Some(tip),
            block_hashes: Map::empty(),
            confirmed_txs: Map::empty(),
            ..self
        }
    }

    /// What is remembered after a scan: its tip, and of confirmed blocks and transactions nothing
    /// if the tip shows a reorganization.
    pub open spec fn noting(self, tip: BlockId) -> CachesView {
        if reorganized(self.scan_tip, tip) {
            self.forgetting(tip)
        } else {
            CachesView { scan_tip: Some(tip), ..self }
        }
    }

    /// What is remembered after a scan with a higher tip, once the node was asked for the hash of
    /// the block at the height of the last one: of confirmed blocks and transactions nothing,
    /// unless it is the same block.
    pub open spec fn checking(self, tip: BlockId, reply: Option<BlockHash>) -> CachesView {
        if reply is Some && reply->0 == self.scan_tip->0.hash {
            CachesView { scan_tip: Some(tip), ..self }
        } else {
            self.forgetting(tip)
        }
    }
}

impl Caches {
    /// Every table is sound.
    pub open spec fn wf(&self) -> bool {
        &&& self.confirmed_txs.wf()
        &&& self.mempool_txs.wf()
    }

    /// Nothing remembered.
    pub fn new() -> (caches: Caches)
        ensures
            caches.wf(),
            caches@ == nothing_remembered(),
    {
        let caches = Caches {
            scan_tip: None,
            block_hashes: BTreeMap::new(),
            confirmed_txs: Table::new(),
            mempool_txs: Table::new(),
        };
        assert(caches@ =~= nothing_remembered());
        caches
    }

    /// Whether any confirmed block or transaction is remembered.
    pub fn holds_confirmed(&self) -> (held: bool)
        requires
            self.wf(),
        ensures
            held == self@.holds_confirmed(),
    {
        proof {
            let hashes = self.block_hashes@;
            if !hashes.is_empty() {
                assert(hashes.contains_key(hashes.dom().choose()));
            }
            assert(hashes.is_empty() ==> hashes =~= Map::<u32, BlockHash>::empty());
        }
        !self.block_hashes.is_empty() || !self.confirmed_txs.is_empty()
    }

    /// The height of the last tip, if a scan tip leaves it open whether that still stands.
    pub fn doubtful_height(&self, tip: &BlockId) -> (height: Option<u32>)
        requires
            self.wf(),
        ensures
            match height {
                Some(height) => self@.in_doubt(*tip) && height == self@.scan_tip->0.height,
                None => !self@.in_doubt(*tip),
            },
    {
        match &self.scan_tip {
            Some(last) => if last.height < tip.height && self.holds_confirmed() {
                Some(last.height)
            } else {
                None
            },
            None => None,
        }
    }

    /// Remembers the tip of a scan, and nothing of confirmed blocks and transactions.
    fn forget(&mut self, tip: BlockId)
        requires
            old(self).wf(),
        ensures
            final(self).wf(),
            final(self)@ == old(self)@.forgetting(tip),
    {
        let ghost before = self@;
        self.block_hashes.clear();
        self.confirmed_txs.clear();
        self.scan_tip = Some(tip);
        assert(self@ =~= before.forgetting(tip));
    }

    /// Remembers the tip of a scan. What is known of confirmed blocks and transactions is
    /// forgotten if the tip shows a reorganization.
    pub fn note_tip(&mut self, tip: BlockId)
        requires
            old(self).wf(),
        ensures
            final(self).wf(),
            final(self)@ == old(self)@.noting(tip),
    {
        let moved: bool = match &self.scan_tip {
            Some(last) => tip.height < last.height || (tip.height == last.height
                && !tip.hash.same(&last.hash)),
            None => false,
        };
        if moved {
            self.forget(tip);
        } else {
            self.scan_tip = Some(tip);
        }
    }

    /// Remembers the tip of a scan, once the node was asked for the hash of the block at the height
    /// of the last one. What is known of confirmed blocks and transactions is forgotten, unless
    /// that is the same block.
    pub fn check_tip(&mut self, tip: BlockId, reply: Option<BlockHash>)
        requires
            old(self).wf(),
            old(self)@.scan_tip is Some,
        ensures
            final(self).wf(),
            final(self)@ == old(self)@.checking(tip, reply),
    {
        let stands: bool = match (&self.scan_tip, &reply) {
            (Some(last), Some(hash)) => last.hash.same(hash),
            _ => false,
        };
        if stands {
            self.scan_tip = Some(tip);
        } else {
            self.forget(tip);
        }
    }
}

} // verus!
