//! The reading of the mempool at the start of a tick.
//!
//! The outputs that mempool transactions spend are kept out of coin selection, and the
//! transactions themselves are handed to the wallet, so that their change can be spent before
//! it is confirmed. A reading with a gap in it protects against nothing, so it is marked.

use crate::table::Table;
use crate::tx::Transaction;
use crate::types::{OutPoint, Txid};
use std::sync::Arc;
use vstd::prelude::*;

verus! {

/// What is known of the mempool.
pub struct MempoolSnapshot {
    /// Whether every transaction of the mempool could be had.
    pub complete: bool,
    /// The outputs that the transactions spend.
    pub spent: Vec<OutPoint>,
    /// The transactions.
    pub txs: Vec<Arc<Transaction>>,
}

/// The outputs that a list of transactions spends, one after the other.
pub open spec fn inputs_of(txs: Seq<Arc<Transaction>>) -> Seq<OutPoint>
    decreases txs.len(),
{
    if txs.len() == 0 {
        Seq::empty()
    } else {
        inputs_of(txs.drop_last()) + txs.last()@.inputs
    }
}

/// A list of transactions spends what any one of them spends, and nothing else.
pub proof fn lemma_inputs_of(txs: Seq<Arc<Transaction>>, outpoint: OutPoint)
    ensures
        inputs_of(txs).contains(outpoint) <==> exists|i: int|
            0 <= i < txs.len() && (#[trigger] txs[i])@.inputs.contains(outpoint),
    decreases txs.len(),
{
    if txs.len() != 0 {
        let first = inputs_of(txs.drop_last());
        let last = txs.last()@.inputs;
        lemma_inputs_of(txs.drop_last(), outpoint);
        if inputs_of(txs).contains(outpoint) {
            let k = choose|k: int| 0 <= k < inputs_of(txs).len() && inputs_of(txs)[k] == outpoint;
            if k < first.len() {
                assert(first[k] == outpoint);
                let i = choose|i: int|
                    0 <= i < txs.drop_last().len() && (
                    #[trigger] txs.drop_last()[i])@.inputs.contains(outpoint);
                assert(txs[i]@.inputs.contains(outpoint));
            } else {
                assert(last[k - first.len()] == outpoint);
                assert(txs[txs.len() - 1]@.inputs.contains(outpoint));
            }
        }
        if exists|i: int| 0 <= i < txs.len() && (#[trigger] txs[i])@.inputs.contains(outpoint) {
            let i = choose|i: int|
                0 <= i < txs.len() && (#[trigger] txs[i])@.inputs.contains(outpoint);
            if i < txs.len() - 1 {
                assert(txs.drop_last()[i]@.inputs.contains(outpoint));
                let k = choose|k: int| 0 <= k < first.len() && first[k] == outpoint;
                assert(inputs_of(txs)[k] == outpoint);
            } else {
                let k = choose|k: int| 0 <= k < last.len() && last[k] == outpoint;
                assert(inputs_of(txs)[first.len() + k] == outpoint);
            }
        }
    }
}

impl MempoolSnapshot {
    /// The spent outputs are those of the transactions.
    pub open spec fn wf(&self) -> bool {
        self.spent@ == inputs_of(self.txs@)
    }

    /// Adds a transaction.
    fn add_tx(&mut self, tx: Arc<Transaction>)
        requires
            old(self).wf(),
        ensures
            final(self).wf(),
            final(self).complete == old(self).complete,
            final(self).txs@ == old(self).txs@.push(tx),
    {
        let ghost before = *self;
        let inputs: &Vec<OutPoint> = (&*tx).inputs();
        let mut i: usize = 0;
        while i < inputs.len()
            invariant
                i <= inputs@.len(),
                self.complete == before.complete,
                self.txs == before.txs,
                self.spent@ == before.spent@ + inputs@.take(i as int),
            decreases inputs@.len() - i,
        {
            self.spent.push(inputs[i]);
            i += 1;
            assert(inputs@.take(i as int) =~= inputs@.take(i - 1).push(inputs@[i - 1]));
        }
        assert(inputs@.take(i as int) =~= inputs@);
        self.txs.push(tx);
        assert(self.txs@.drop_last() =~= before.txs@);
    }
}

/// Transactions by their id.
pub type TxCache = Table<Txid, Arc<Transaction>>;

/// A reading of the mempool that is under way.
pub struct MempoolFetch {
    /// The ids of the transactions in the mempool.
    pub txids: Vec<Txid>,
    /// How many of them have been looked at.
    pub next: usize,
    /// What has been found so far.
    pub snapshot: MempoolSnapshot,
    /// How many transactions came from the node.
    pub fetched: usize,
    /// How many transactions came from the cache.
    pub reused: usize,
}

/// Where a reading of the mempool stands.
#[verifier::ext_equal]
pub struct FetchView {
    pub txids: Seq<Txid>,
    pub next: int,
    pub complete: bool,
    pub txs: Seq<Arc<Transaction>>,
    pub fetched: int,
    pub reused: int,
}

impl View for MempoolFetch {
    type V = FetchView;

    open spec fn view(&self) -> FetchView {
        FetchView {
            txids: self.txids@,
            next: self.next as int,
            complete: self.snapshot.complete,
            txs: self.snapshot.txs@,
            fetched: self.fetched as int,
            reused: self.reused as int,
        }
    }
}

/// A reading of ids of which none was looked at yet.
pub open spec fn fetch_begun(txids: Seq<Txid>) -> FetchView {
    FetchView { txids, next: 0, complete: true, txs: Seq::empty(), fetched: 0, reused: 0 }
}

impl FetchView {
    /// The transaction that is asked for next, if any is left.
    pub open spec fn awaited(self) -> Option<Txid> {
        if self.next < self.txids.len() {
            Some(self.txids[self.next])
        } else {
            None
        }
    }

    /// How far the reading gets out of a cache alone: to the first id that is not cached.
    pub open spec fn reusing(self, cache: Map<Txid, Arc<Transaction>>) -> FetchView
        decreases self.txids.len() - self.next,
    {
        if 0 <= self.next < self.txids.len() && cache.contains_key(self.txids[self.next]) {
            FetchView {
                next: self.next + 1,
                txs: self.txs.push(cache[self.txids[self.next]]),
                reused: self.reused + 1,
                ..self
            }.reusing(cache)
        } else {
            self
        }
    }

    /// The reading after the node's reply. A transaction that cannot be had leaves a gap.
    pub open spec fn accepting(self, reply: Option<Arc<Transaction>>) -> FetchView {
        match reply {
            Some(tx) => FetchView {
                next: self.next + 1,
                txs: self.txs.push(tx),
                fetched: self.fetched + 1,
                ..self
            },
            None => FetchView { next: self.next + 1, complete: false, ..self },
        }
    }

    /// The cache after the node's reply.
    pub open spec fn remembering(
        self,
        cache: Map<Txid, Arc<Transaction>>,
        reply: Option<Arc<Transaction>>,
    ) -> Map<Txid, Arc<Transaction>> {
        match reply {
            Some(tx) => cache.insert(self.txids[self.next], tx),
            None => cache,
        }
    }

    /// Each id that was looked at is cached, and its transaction stands in its place.
    pub open spec fn covers(self, cache: Map<Txid, Arc<Transaction>>) -> bool {
        &&& self.txs.len() == self.next
        &&& forall|i: int|
            0 <= i < self.next ==> cache.contains_key(#[trigger] self.txids[i]) && self.txs[i]
                == cache[self.txids[i]]
    }
}

impl MempoolFetch {
    /// What has been found was all either fetched or reused. Nothing is cached that has left the
    /// mempool. If nothing was missed, what was found is everything that was looked at.
    pub open spec fn wf(&self, cache: Map<Txid, Arc<Transaction>>) -> bool {
        &&& self.snapshot.wf()
        &&& self.next <= self.txids@.len()
        &&& self.fetched + self.reused == self.snapshot.txs@.len()
        &&& self.snapshot.txs@.len() <= self.next
        &&& forall|txid: Txid| #[trigger]
            cache.contains_key(txid) ==> self.txids@.contains(txid)
        &&& self.snapshot.complete ==> self@.covers(cache)
    }

    /// Begins a reading of the given ids. Cached transactions that have left the mempool are
    /// forgotten.
    pub fn begin(txids: Vec<Txid>, cache: &mut TxCache) -> (fetch: MempoolFetch)
        requires
            old(cache).wf(),
        ensures
            final(cache).wf(),
            final(cache)@ == old(cache)@.restrict(txids@.to_set()),
            fetch.wf(final(cache)@),
            fetch@ == fetch_begun(txids@),
    {
        cache.retain(&txids);
        let fetch = MempoolFetch {
            txids,
            next: 0,
            snapshot: MempoolSnapshot { complete: true, spent: Vec::new(), txs: Vec::new() },
            fetched: 0,
            reused: 0,
        };
        assert(fetch@ =~= fetch_begun(txids@));
        fetch
    }

    /// Takes transactions from the cache, up to the first id that is not in it.
    pub fn reuse(&mut self, cache: &TxCache)
        requires
            cache.wf(),
            old(self).wf(cache@),
        ensures
            final(self).wf(cache@),
            final(self)@ == old(self)@.reusing(cache@),
            final(self)@.awaited() is Some ==> !cache@.contains_key(final(self)@.awaited()->0),
    {
        let ghost before = self@;
        while self.next < self.txids.len()
            invariant
                cache.wf(),
                self.wf(cache@),
                self@.reusing(cache@) == before.reusing(cache@),
            ensures
                self@ == before.reusing(cache@),
                self@.awaited() is Some ==> !cache@.contains_key(self@.awaited()->0),
            decreases self.txids@.len() - self.next,
        {
            let ghost at = self@;
            let txid: Txid = self.txids[self.next];
            match cache.get(&txid) {
                Some(tx) => {
                    self.snapshot.add_tx(tx.clone());
                    self.reused += 1;
                    self.next += 1;
                    assert(self@ =~= FetchView {
                        next: at.next + 1,
                        txs: at.txs.push(cache@[at.txids[at.next]]),
                        reused: at.reused + 1,
                        ..at
                    });
                },
                None => break,
            }
        }
    }

    /// The transaction that is asked for next, if any is left.
    pub fn pending(&self) -> (txid: Option<Txid>)
        ensures
            txid == self@.awaited(),
    {
        if self.next < self.txids.len() {
            Some(self.txids[self.next])
        } else {
            None
        }
    }

    /// Takes the node's reply to a request for the transaction that was asked for.
    pub fn accept(&mut self, cache: &mut TxCache, reply: Option<Arc<Transaction>>)
        requires
            old(cache).wf(),
            old(self).wf(old(cache)@),
            old(self)@.awaited() is Some,
            !old(cache)@.contains_key(old(self)@.awaited()->0),
        ensures
            final(cache).wf(),
            final(self).wf(final(cache)@),
            final(self)@ == old(self)@.accepting(reply),
            final(cache)@ == old(self)@.remembering(old(cache)@, reply),
    {
        assert(self.next < self.txids.len());
        let ghost before = self@;
        let txid: Txid = self.txids[self.next];
        match reply {
            Some(tx) => {
                self.snapshot.add_tx(tx.clone());
                cache.insert(txid, tx);
                self.fetched += 1;
            },
            None => {
                self.snapshot.complete = false;
            },
        }
        self.next += 1;
        assert(self@ =~= before.accepting(reply));
    }
}

} // verus!
