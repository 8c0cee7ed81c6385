//! The transaction generator.

use crate::batch::{
    blocked_outputs, build_batch, built_txs, is_batch, list_built, sum_values, Attempt,
    Payment, PaymentView,
};
use crate::bdk::{is_p2wpkh, lists, total_value, tx_signed, WalletUtxo, HEIGHT_LIMIT};
use crate::caches::{nothing_remembered, Caches, CachesView};
use crate::config::{
    batch_count_of, btc_network_of, change_account_of, coin_type_of, first_error, Config,
    ConfigError,
};
use crate::derivation::{
    address, bip39_seed, derive_address, derive_descriptors, descriptors, have_keys,
    is_first_address, is_keychain, DeriveError, HARDENED_FROM,
};
use crate::mempool::{fetch_begun, inputs_of, FetchView, MempoolFetch, MempoolSnapshot};
use crate::plan::{
    blank, climbing, empty_chain, fill_empty, filled, finished, needed, plan_begun, Missing,
    Parent, PlanView, WalletPlan,
};
use crate::scan::{is_tip, scan_requests, scan_utxos, ConfirmedSnapshot, ScanResult};
use crate::tick::{
    accepted, wants, Action, Broadcast, Event, SkipReason, Stage, TickOutcome,
    WalletReport,
};
use crate::tx::Transaction;
use crate::types::{Address, BlockHash, OutPoint, Txid};
use crate::wallet::{inject_mempool_txs, injectable, injected, TickWallet, WalletError};
use std::sync::Arc;
use vstd::prelude::*;

verus! {

/// A transaction generator.
///
/// The sending wallet, the receiving address and the change address are all derived from one
/// seed phrase. What the node was asked before is remembered from tick to tick.
pub struct TxGenerator {
    config: Config,
    external_descriptor: String,
    internal_descriptor: String,
    sender_address: Address,
    receiver_address: Address,
    change_address: Address,
    caches: Caches,
}

/// Why there is no generator.
#[derive(Debug)]
pub enum SetupError {
    /// The configuration is not valid.
    Config(ConfigError),
    /// The keys cannot be derived.
    Derive(DeriveError),
}

/// Whether every key that a configuration needs can be derived.
pub open spec fn derivable(config: Config) -> bool {
    let phrase = config.seed_phrase@;
    let network = btc_network_of(config.network);
    let coin_type = coin_type_of(config.network);
    let change = change_account_of(config);
    &&& descriptors(phrase, network, coin_type, config.sender_account_index, change) is Some
    &&& address(phrase, network, coin_type, config.sender_account_index) is Some
    &&& address(phrase, network, coin_type, config.receiver_account_index) is Some
    &&& address(phrase, network, coin_type, change) is Some
}

/// Whether the accounts of a configuration have indices that an account can have.
pub open spec fn accounts_in_range(config: Config) -> bool {
    &&& config.sender_account_index < HARDENED_FROM
    &&& config.receiver_account_index < HARDENED_FROM
    &&& change_account_of(config) < HARDENED_FROM
}

/// The reason for which keys cannot be derived fits a configuration.
pub open spec fn underivable(config: Config, error: DeriveError) -> bool {
    match error {
        DeriveError::Mnemonic(_) => bip39_seed(config.seed_phrase@) is None,
        DeriveError::Derivation(_) => bip39_seed(config.seed_phrase@) is Some && !derivable(config),
    }
}

impl TxGenerator {
    /// The configuration.
    pub closed spec fn settings(&self) -> Config {
        self.config
    }

    /// The descriptor of the receive keychain.
    pub closed spec fn external(&self) -> Seq<char> {
        self.external_descriptor@
    }

    /// The descriptor of the change keychain.
    pub closed spec fn internal(&self) -> Seq<char> {
        self.internal_descriptor@
    }

    /// The address that is shown for the sender.
    pub closed spec fn sender(&self) -> Address {
        self.sender_address
    }

    /// The address that is paid.
    pub closed spec fn receiver(&self) -> Address {
        self.receiver_address
    }

    /// The address that takes the change.
    pub closed spec fn change(&self) -> Address {
        self.change_address
    }

    /// What is remembered.
    pub closed spec fn remembered(&self) -> Caches {
        self.caches
    }

    /// What each transaction has to do.
    pub open spec fn payment(&self) -> PaymentView {
        PaymentView {
            receiver: self.receiver().script_pubkey@,
            change: self.change().script_pubkey@,
            amount_sat: self.settings().amount_sat,
            fee_rate_sat_per_vb: self.settings().fee_rate_sat_per_vb,
        }
    }

    /// The descriptors and the addresses are those of the configuration, and what is remembered
    /// is sound.
    pub open spec fn wf(&self) -> bool {
        let phrase = self.settings().seed_phrase@;
        let network = btc_network_of(self.settings().network);
        let coin_type = coin_type_of(self.settings().network);
        let sender = self.settings().sender_account_index;
        let receiver = self.settings().receiver_account_index;
        let change = change_account_of(self.settings());
        &&& descriptors(phrase, network, coin_type, sender, change) == Some(
            (self.external(), self.internal()),
        )
        &&& address(phrase, network, coin_type, sender) == Some(self.sender()@)
        &&& address(phrase, network, coin_type, receiver) == Some(self.receiver()@)
        &&& address(phrase, network, coin_type, change) == Some(self.change()@)
        &&& is_first_address(phrase, network, coin_type, change, self.change().script_pubkey@)
        &&& is_keychain(self.external())
        &&& is_keychain(self.internal())
        &&& have_keys(self.external(), self.internal())
        &&& is_p2wpkh(self.receiver().script_pubkey@)
        &&& is_p2wpkh(self.change().script_pubkey@)
        &&& self.remembered().wf()
    }

    /// Nothing but what is remembered differs.
    pub open spec fn same_setup(&self, other: TxGenerator) -> bool {
        &&& self.settings() == other.settings()
        &&& self.external() == other.external()
        &&& self.internal() == other.internal()
        &&& self.sender() == other.sender()
        &&& self.receiver() == other.receiver()
        &&& self.change() == other.change()
    }

    /// Sets a generator up from a configuration, which is validated first.
    pub fn new(config: Config) -> (generator: Result<TxGenerator, SetupError>)
        ensures
            match generator {
                Ok(generator) => first_error(config) is None && derivable(config)
                    && generator.wf() && generator.settings() == config
                    && generator.remembered()@ == nothing_remembered(),
                Err(SetupError::Config(error)) => first_error(config) == Some(error),
                Err(SetupError::Derive(error)) => first_error(config) is None && underivable(
                    config,
                    error,
                ),
            },
            !accounts_in_range(config) ==> generator is Err,
    {
        match config.validate() {
            Ok(()) => {},
            Err(error) => return Err(SetupError::Config(error)),
        }
        match Self::with_config(config) {
            Ok(generator) => Ok(generator),
            Err(error) => Err(SetupError::Derive(error)),
        }
    }

    /// Sets a generator up from a configuration as it is.
    pub fn with_config(config: Config) -> (generator: Result<TxGenerator, DeriveError>)
        ensures
            match generator {
                Ok(generator) => derivable(config) && generator.wf() && generator.settings()
                    == config && generator.remembered()@ == nothing_remembered(),
                Err(error) => underivable(config, error),
            },
            !accounts_in_range(config) ==> generator is Err,
    {
        let network = config.btc_network();
        let change_idx: u32 = config.effective_change_account_index();
        let (external_descriptor, internal_descriptor) = match derive_descriptors(
            &config,
            network,
            change_idx,
        ) {
            Ok(pair) => pair,
            Err(error) => return Err(error),
        };
        let sender_address = match derive_address(&config, config.sender_account_index, network) {
            Ok(derived) => derived,
            Err(error) => return Err(error),
        };
        let receiver_address = match derive_address(
            &config,
            config.receiver_account_index,
            network,
        ) {
            Ok(derived) => derived,
            Err(error) => return Err(error),
        };
        let change_address = match derive_address(&config, change_idx, network) {
            Ok(derived) => derived,
            Err(error) => return Err(error),
        };
        Ok(
            TxGenerator {
                config,
                external_descriptor,
                internal_descriptor,
                sender_address,
                receiver_address,
                change_address,
                caches: Caches::new(),
            },
        )
    }

    /// The configuration.
    pub fn config(&self) -> (config: &Config)
        ensures
            *config == self.settings(),
    {
        &self.config
    }

    /// The address that is shown for the sender.
    pub fn sender_address(&self) -> (address: &Address)
        ensures
            *address == self.sender(),
    {
        &self.sender_address
    }

    /// The address that is paid.
    pub fn receiver_address(&self) -> (address: &Address)
        ensures
            *address == self.receiver(),
    {
        &self.receiver_address
    }

    /// Whether any confirmed block or transaction is remembered.
    pub fn holds_confirmed(&self) -> (held: bool)
        requires
            self.wf(),
        ensures
            held == self.remembered()@.holds_confirmed(),
    {
        self.caches.holds_confirmed()
    }

    /// The address that takes the change.
    pub fn change_address(&self) -> (address: &Address)
        ensures
            *address == self.change(),
    {
        &self.change_address
    }
}

// ---------------------------------------------------------------------------------------
// What a step of a tick amounts to.
// ---------------------------------------------------------------------------------------

/// Whether a tick of a generator can stand where it says.
pub open spec fn stage_wf(generator: TxGenerator, stage: Stage) -> bool {
    match stage {
        Stage::Scanning => true,
        Stage::ListingMempool(_) => true,
        Stage::FetchingMempool(_, fetch) => {
            &&& fetch.wf(generator.remembered()@.mempool_txs)
            &&& fetch@.awaited() is Some
            &&& !generator.remembered()@.mempool_txs.contains_key(fetch@.awaited()->0)
        },
        Stage::CheckingTip(mempool, wallet, snapshot) => {
            &&& mempool.wf()
            &&& mempool.complete
            &&& blank(wallet)
            &&& wallet.fresh(
                generator.external(),
                generator.internal(),
                btc_network_of(generator.settings().network),
            )
            &&& generator.remembered()@.in_doubt(snapshot.tip)
        },
        Stage::FillingWallet(mempool, plan) => {
            &&& mempool.wf()
            &&& mempool.complete
            &&& plan.wf()
            &&& plan@.missing() is Some
            &&& plan@.lacks(generator.remembered()@)
        },
        Stage::Broadcasting(broadcast) => broadcast.wf(
            batch_count_of(generator.settings()),
            generator.payment(),
        ),
        Stage::Skipped(_) => true,
    }
}

/// Whether an event is a reply to what a stage asks for.
pub open spec fn answers(stage: Stage, event: Event) -> bool {
    match stage {
        Stage::Scanning => event is Scanned,
        Stage::ListingMempool(_) => event is MempoolListed,
        Stage::FetchingMempool(_, _) => event is TxFetched,
        Stage::CheckingTip(_, _, _) => event is BlockHashFetched,
        Stage::FillingWallet(_, plan) => match plan@.missing() {
            Some(Missing::Block(_)) => event is BlockHashFetched,
            Some(Missing::Parent(_, _)) => event is TxFetched,
            None => false,
        },
        Stage::Broadcasting(broadcast) => broadcast.next < broadcast.txs@.len()
            && event is Broadcast,
        Stage::Skipped(_) => false,
    }
}

/// Where a tick goes with the answer to a scan: on to the mempool with what was found, unless
/// the scan could not be had or failed.
pub open spec fn scan_read(reply: Option<ScanResult>, stage: Stage) -> bool {
    match reply {
        Some(result) => if result.success == Some(false) {
            stage matches Stage::Skipped(SkipReason::Scan)
        } else {
            stage matches Stage::ListingMempool(snapshot) && is_tip(result, snapshot.tip)
                && snapshot.utxos@ == result.unspents@
        },
        None => stage matches Stage::Skipped(SkipReason::Scan),
    }
}

/// Where a tick goes with a reading of the mempool: to the next transaction that is not cached,
/// or, where there is none left, on to the wallet, unless the reading has a gap.
pub open spec fn mempool_read(
    generator: TxGenerator,
    caches: CachesView,
    snapshot: ConfirmedSnapshot,
    fetch: FetchView,
    now: u64,
    caches_after: CachesView,
    stage: Stage,
) -> bool {
    let read = fetch.reusing(caches.mempool_txs);
    if read.awaited() is Some {
        &&& caches_after == caches
        &&& stage matches Stage::FetchingMempool(s, f)
        &&& s == snapshot
        &&& f@ == read
    } else if !read.complete {
        &&& caches_after == caches
        &&& stage matches Stage::Skipped(SkipReason::Mempool)
    } else {
        wallet_begun(generator, caches, snapshot, read.txs, now, caches_after, stage)
    }
}

/// Where a tick goes once the mempool was read: nowhere if there can be no wallet, and else on
/// with a fresh one. If what is remembered is in doubt, the node is asked first.
pub open spec fn wallet_begun(
    generator: TxGenerator,
    caches: CachesView,
    snapshot: ConfirmedSnapshot,
    txs: Seq<Arc<Transaction>>,
    now: u64,
    caches_after: CachesView,
    stage: Stage,
) -> bool {
    let network = btc_network_of(generator.settings().network);
    ||| {
        &&& caches_after == caches
        &&& stage matches Stage::Skipped(SkipReason::Wallet(error))
        &&& error is Database || error is Create
    }
    ||| exists|wallet: TickWallet| #[trigger]
        wallet.fresh(generator.external(), generator.internal(), network) && if caches.in_doubt(
            snapshot.tip,
        ) {
            &&& caches_after == caches
            &&& stage matches Stage::CheckingTip(mempool, w, s)
            &&& mempool.txs@ == txs
            &&& w == wallet
            &&& s == snapshot
        } else {
            wallet_started(
                generator,
                caches.noting(snapshot.tip),
                wallet,
                snapshot,
                txs,
                now,
                caches_after,
                stage,
            )
        }
}

/// Where a tick goes with a fresh wallet, once what is remembered is beyond doubt. One for which
/// the scan found nothing is filled at once.
pub open spec fn wallet_started(
    generator: TxGenerator,
    caches: CachesView,
    wallet: TickWallet,
    snapshot: ConfirmedSnapshot,
    txs: Seq<Arc<Transaction>>,
    now: u64,
    caches_after: CachesView,
    stage: Stage,
) -> bool {
    if snapshot.utxos@.len() == 0 {
        caches_after == caches && empty_wallet_filled(
            generator,
            wallet,
            snapshot,
            txs,
            now,
            stage,
        )
    } else {
        plan_started(generator, caches, wallet, snapshot, txs, now, caches_after, stage)
    }
}

/// Where a tick goes with a fresh wallet for which the scan found nothing: on to the batch, unless
/// the tip stands at a height that BDK does not take.
pub open spec fn empty_wallet_filled(
    generator: TxGenerator,
    wallet: TickWallet,
    snapshot: ConfirmedSnapshot,
    txs: Seq<Arc<Transaction>>,
    now: u64,
    stage: Stage,
) -> bool {
    let network = btc_network_of(generator.settings().network);
    if snapshot.tip.height >= HEIGHT_LIMIT {
        stage matches Stage::Skipped(SkipReason::Wallet(error)) && error is Height
    } else {
        exists|ready: TickWallet| #[trigger]
            filled(
                wallet,
                empty_chain(network, snapshot.tip),
                snapshot.utxos@,
                Map::<Txid, Parent>::empty(),
                ready,
            ) && batch_begun(generator, ready, txs, now, stage)
    }
}

/// Where a tick goes with a fresh wallet for which the scan found outputs: it is planned for,
/// with the heights that it needs.
pub open spec fn plan_started(
    generator: TxGenerator,
    caches: CachesView,
    wallet: TickWallet,
    snapshot: ConfirmedSnapshot,
    txs: Seq<Arc<Transaction>>,
    now: u64,
    caches_after: CachesView,
    stage: Stage,
) -> bool {
    exists|heights: Seq<u32>| #[trigger]
        are_heights(snapshot, heights) && plan_advanced(
            generator,
            caches,
            plan_begun(wallet, snapshot.tip, snapshot.utxos@, heights),
            txs,
            now,
            caches_after,
            stage,
        )
}

/// Whether heights are those that a wallet needs, in ascending order.
pub open spec fn are_heights(snapshot: ConfirmedSnapshot, heights: Seq<u32>) -> bool {
    &&& climbing(heights)
    &&& forall|height: u32| #[trigger] heights.contains(height) <==> needed(snapshot, height)
}

/// Where a tick goes with a plan: to the next thing that is missing and not remembered, or,
/// where nothing is missing, on to the batch with the filled wallet, unless that fails.
pub open spec fn plan_advanced(
    generator: TxGenerator,
    caches: CachesView,
    plan: PlanView,
    txs: Seq<Arc<Transaction>>,
    now: u64,
    caches_after: CachesView,
    stage: Stage,
) -> bool {
    let reached = plan.reusing(caches);
    &&& caches_after == caches
    &&& if reached.missing() is Some {
        &&& stage matches Stage::FillingWallet(mempool, p)
        &&& mempool.txs@ == txs
        &&& p@ == reached
    } else {
        exists|wallet: Result<TickWallet, WalletError>| #[trigger]
            finished(reached, wallet) && match wallet {
                Ok(wallet) => batch_begun(generator, wallet, txs, now, stage),
                Err(error) => stage matches Stage::Skipped(SkipReason::Wallet(e)) && e == error,
            }
    }
}

/// Whether a wallet could and did take in the transactions of the mempool, if there are any.
pub open spec fn took_in(
    before: TickWallet,
    txs: Seq<Arc<Transaction>>,
    now: u64,
    after: TickWallet,
) -> bool {
    if txs.len() == 0 {
        after == before
    } else {
        injectable(before, txs) && injected(before, txs, now, after)
    }
}

/// Where a tick goes with a filled wallet: the wallet takes in the mempool, a batch is built from
/// it, and the broadcast begins, unless the wallet cannot take the mempool in.
pub open spec fn batch_begun(
    generator: TxGenerator,
    wallet: TickWallet,
    txs: Seq<Arc<Transaction>>,
    now: u64,
    stage: Stage,
) -> bool {
    if txs.len() == 0 || injectable(wallet, txs) {
        exists|ready: TickWallet| #[trigger]
            took_in(wallet, txs, now, ready) && (stage matches Stage::Broadcasting(broadcast)
                && broadcast_begun(generator, wallet, ready, txs, broadcast))
    } else {
        stage matches Stage::Skipped(SkipReason::Injection(error)) && error is Unfit
    }
}

/// Whether a broadcast begins with a batch from a wallet: what is blocked is what the mempool
/// spends of the wallet's outputs.
pub open spec fn broadcast_begun(
    generator: TxGenerator,
    before: TickWallet,
    ready: TickWallet,
    txs: Seq<Arc<Transaction>>,
    broadcast: Broadcast,
) -> bool {
    &&& broadcast.report.before_inject == before.unspent().len()
    &&& broadcast.report.after_inject == ready.unspent().len()
    &&& broadcast.report.injected == txs.len()
    &&& broadcast.report.balance == total_value(ready.unspent())
    &&& ready.wf()
    &&& ready.lists_rightly()
    &&& forall|outpoint: OutPoint| #[trigger]
        broadcast.blocked@.contains(outpoint) <==> lists(ready.unspent(), outpoint) && inputs_of(
            txs,
        ).contains(outpoint)
    &&& broadcast.blocked@.no_duplicates()
    &&& is_batch(
        broadcast.attempts@,
        batch_count_of(generator.settings()),
        ready,
        broadcast.blocked@,
        generator.payment(),
    )
    &&& broadcast.txs@ == built_txs(broadcast.attempts@)
    &&& broadcast.next == 0
    &&& broadcast.broadcast == 0
}

/// The transaction of a reply, if there is one.
pub open spec fn shared(reply: Option<Transaction>) -> Option<Arc<Transaction>> {
    match reply {
        Some(tx) => Some(Arc::new(tx)),
        None => None,
    }
}

/// Where a tick goes with an event.
pub open spec fn stepped(
    generator: TxGenerator,
    stage: Stage,
    event: Event,
    now: u64,
    caches_after: CachesView,
    stage_after: Stage,
) -> bool {
    let caches = generator.remembered()@;
    match (stage, event) {
        (Stage::Scanning, Event::Scanned(reply)) => caches_after == caches && scan_read(
            reply,
            stage_after,
        ),
        (Stage::ListingMempool(snapshot), Event::MempoolListed(Some(txids))) => mempool_read(
            generator,
            CachesView {
                mempool_txs: caches.mempool_txs.restrict(txids@.to_set()),
                ..caches
            },
            snapshot,
            fetch_begun(txids@),
            now,
            caches_after,
            stage_after,
        ),
        (Stage::ListingMempool(_), Event::MempoolListed(None)) => caches_after == caches && (
        stage_after matches Stage::Skipped(SkipReason::Mempool)),
        (Stage::FetchingMempool(snapshot, fetch), Event::TxFetched(reply)) => mempool_read(
            generator,
            CachesView {
                mempool_txs: fetch@.remembering(caches.mempool_txs, shared(reply)),
                ..caches
            },
            snapshot,
            fetch@.accepting(shared(reply)),
            now,
            caches_after,
            stage_after,
        ),
        (
            Stage::CheckingTip(mempool, wallet, snapshot),
            Event::BlockHashFetched(reply),
        ) => wallet_started(
            generator,
            caches.checking(snapshot.tip, reply),
            wallet,
            snapshot,
            mempool.txs@,
            now,
            caches_after,
            stage_after,
        ),
        (Stage::FillingWallet(mempool, plan), Event::BlockHashFetched(Some(hash))) => plan_advanced(
            generator,
            plan@.remembering_block(caches, hash),
            plan@.accepting_block(hash),
            mempool.txs@,
            now,
            caches_after,
            stage_after,
        ),
        (Stage::FillingWallet(_, _), Event::BlockHashFetched(None)) => caches_after == caches && (
        stage_after matches Stage::Skipped(SkipReason::Wallet(error)) && error is BlockHash),
        (Stage::FillingWallet(mempool, plan), Event::TxFetched(reply)) => plan_advanced(
            generator,
            plan@.remembering_parent(caches, shared(reply)),
            plan@.accepting_parent(shared(reply)),
            mempool.txs@,
            now,
            caches_after,
            stage_after,
        ),
        (Stage::Broadcasting(before), Event::Broadcast(taken)) => caches_after == caches && (
        stage_after matches Stage::Broadcasting(after) && accepted(before, taken, after)),
        _ => false,
    }
}

// ---------------------------------------------------------------------------------------
// Ticks.
// ---------------------------------------------------------------------------------------

impl TxGenerator {
    /// Begins a tick.
    pub fn start_tick(&self) -> (begun: (Stage, Action))
        ensures
            begun.0 is Scanning,
            stage_wf(*self, begun.0),
            wants(
                begun.0,
                self.external(),
                self.internal(),
                self.remembered()@.scan_tip,
                begun.1,
            ),
    {
        (
            Stage::Scanning,
            Action::Scan(scan_requests(&self.external_descriptor, &self.internal_descriptor)),
        )
    }

    /// Takes a tick one step further: from a stage and what came back, to the next stage and
    /// what it wants done. `now` is the time at which mempool transactions are taken for seen,
    /// in seconds since the Unix epoch.
    ///
    /// - Without a scan the tick is given up, and so it is without all of the mempool or without
    ///   a wallet.
    /// - If the first transaction of a batch cannot be built, no other is attempted. If a later
    ///   one cannot be built, the rest are attempted all the same.
    /// - If the node does not take a transaction, the rest are handed to it all the same.
    pub fn run_tick(&mut self, stage: Stage, event: Event, now: u64) -> (next: (Stage, Action))
        requires
            old(self).wf(),
            stage_wf(*old(self), stage),
            answers(stage, event),
        ensures
            final(self).wf(),
            final(self).same_setup(*old(self)),
            stage_wf(*final(self), next.0),
            wants(
                next.0,
                final(self).external(),
                final(self).internal(),
                final(self).remembered()@.scan_tip,
                next.1,
            ),
            stepped(*old(self), stage, event, now, final(self).remembered()@, next.0),
    {
        let stage = match (stage, event) {
            (Stage::Scanning, Event::Scanned(reply)) => self.read_scan(reply),
            (Stage::ListingMempool(snapshot), Event::MempoolListed(reply)) => self.read_mempool(
                snapshot,
                reply,
                now,
            ),
            (Stage::FetchingMempool(snapshot, fetch), Event::TxFetched(reply)) => {
                self.read_mempool_tx(snapshot, fetch, reply, now)
            },
            (Stage::CheckingTip(mempool, wallet, snapshot), Event::BlockHashFetched(reply)) => {
                self.read_last_tip(mempool, wallet, snapshot, reply, now)
            },
            (Stage::FillingWallet(mempool, plan), Event::BlockHashFetched(reply)) => {
                self.read_block_hash(mempool, plan, reply, now)
            },
            (Stage::FillingWallet(mempool, plan), Event::TxFetched(reply)) => self.read_parent(
                mempool,
                plan,
                reply,
                now,
            ),
            (Stage::Broadcasting(broadcast), Event::Broadcast(taken)) => {
                let mut broadcast: Broadcast = broadcast;
                broadcast.accept(taken);
                Stage::Broadcasting(broadcast)
            },
            _ => vstd::pervasive::unreached(),
        };
        let action = self.request(&stage);
        (stage, action)
    }

    /// Whether an event is a reply that a tick can go on with.
    pub fn can_answer(&self, stage: &Stage, event: &Event) -> (fits: bool)
        requires
            stage_wf(*self, *stage),
        ensures
            fits == answers(*stage, *event),
    {
        match stage {
            Stage::Scanning => matches!(event, Event::Scanned(_)),
            Stage::ListingMempool(_) => matches!(event, Event::MempoolListed(_)),
            Stage::FetchingMempool(_, _) => matches!(event, Event::TxFetched(_)),
            Stage::CheckingTip(_, _, _) => matches!(event, Event::BlockHashFetched(_)),
            Stage::FillingWallet(_, plan) => match plan.pending() {
                Some(Missing::Block(_)) => matches!(event, Event::BlockHashFetched(_)),
                Some(Missing::Parent(_, _)) => matches!(event, Event::TxFetched(_)),
                None => false,
            },
            Stage::Broadcasting(broadcast) => broadcast.next < broadcast.txs.len() && matches!(
                event,
                Event::Broadcast(_)
            ),
            Stage::Skipped(_) => false,
        }
    }

    /// What a stage wants done.
    fn request(&self, stage: &Stage) -> (action: Action)
        requires
            self.wf(),
            stage_wf(*self, *stage),
        ensures
            wants(
                *stage,
                self.external(),
                self.internal(),
                self.remembered()@.scan_tip,
                action,
            ),
    {
        match stage {
            Stage::Scanning => Action::Scan(
                scan_requests(&self.external_descriptor, &self.internal_descriptor),
            ),
            Stage::ListingMempool(_) => Action::ListMempool,
            Stage::FetchingMempool(_, fetch) => match fetch.pending() {
                Some(txid) => Action::FetchTx(txid, None),
                None => vstd::pervasive::unreached(),
            },
            Stage::CheckingTip(_, _, snapshot) => match self.caches.doubtful_height(&snapshot.tip) {
                Some(height) => Action::FetchBlockHash(height),
                None => vstd::pervasive::unreached(),
            },
            Stage::FillingWallet(_, plan) => match plan.pending() {
                Some(Missing::Block(height)) => Action::FetchBlockHash(height),
                Some(Missing::Parent(txid, block)) => Action::FetchTx(txid, Some(block)),
                None => vstd::pervasive::unreached(),
            },
            Stage::Broadcasting(broadcast) => {
                if broadcast.next < broadcast.txs.len() {
                    Action::Broadcast(broadcast.txs[broadcast.next].clone())
                } else {
                    Action::Finish(
                        TickOutcome {
                            built: broadcast.txs.len() as u32,
                            broadcast: broadcast.broadcast,
                            skipped: false,
                        },
                    )
                }
            },
            Stage::Skipped(_) => Action::Finish(
                TickOutcome { built: 0, broadcast: 0, skipped: true },
            ),
        }
    }

    /// Goes on with the answer to a scan.
    fn read_scan(&self, reply: Option<ScanResult>) -> (stage: Stage)
        ensures
            stage_wf(*self, stage),
            scan_read(reply, stage),
    {
        match reply {
            Some(result) => match scan_utxos(result) {
                Ok(snapshot) => Stage::ListingMempool(snapshot),
                Err(_) => Stage::Skipped(SkipReason::Scan),
            },
            None => Stage::Skipped(SkipReason::Scan),
        }
    }

    /// Goes on with the ids of the mempool.
    fn read_mempool(
        &mut self,
        snapshot: ConfirmedSnapshot,
        reply: Option<Vec<Txid>>,
        now: u64,
    ) -> (stage: Stage)
        requires
            old(self).wf(),
        ensures
            final(self).wf(),
            final(self).same_setup(*old(self)),
            stage_wf(*final(self), stage),
            stepped(
                *old(self),
                Stage::ListingMempool(snapshot),
                Event::MempoolListed(reply),
                now,
                final(self).remembered()@,
                stage,
            ),
    {
        match reply {
            Some(txids) => {
                let ghost before = self.caches@;
                let fetch = MempoolFetch::begin(txids, &mut self.caches.mempool_txs);
                assert(self.caches@ =~= CachesView {
                    mempool_txs: before.mempool_txs.restrict(txids@.to_set()),
                    ..before
                });
                self.fetch_mempool_data(snapshot, fetch, now)
            },
            None => Stage::Skipped(SkipReason::Mempool),
        }
    }

    /// Goes on with a transaction of the mempool.
    fn read_mempool_tx(
        &mut self,
        snapshot: ConfirmedSnapshot,
        fetch: MempoolFetch,
        reply: Option<Transaction>,
        now: u64,
    ) -> (stage: Stage)
        requires
            old(self).wf(),
            stage_wf(*old(self), Stage::FetchingMempool(snapshot, fetch)),
        ensures
            final(self).wf(),
            final(self).same_setup(*old(self)),
            stage_wf(*final(self), stage),
            stepped(
                *old(self),
                Stage::FetchingMempool(snapshot, fetch),
                Event::TxFetched(reply),
                now,
                final(self).remembered()@,
                stage,
            ),
    {
        let ghost before = self.caches@;
        let mut fetch: MempoolFetch = fetch;
        let ghost reading = fetch@;
        let tx = share(reply);
        fetch.accept(&mut self.caches.mempool_txs, tx);
        assert(self.caches@ =~= CachesView {
            mempool_txs: reading.remembering(before.mempool_txs, tx),
            ..before
        });
        self.fetch_mempool_data(snapshot, fetch, now)
    }

    /// Reads the mempool as far as it is cached. With the whole of it read, goes on to the wallet.
    fn fetch_mempool_data(
        &mut self,
        snapshot: ConfirmedSnapshot,
        fetch: MempoolFetch,
        now: u64,
    ) -> (stage: Stage)
        requires
            old(self).wf(),
            fetch.wf(old(self).remembered()@.mempool_txs),
        ensures
            final(self).wf(),
            final(self).same_setup(*old(self)),
            stage_wf(*final(self), stage),
            mempool_read(
                *old(self),
                old(self).remembered()@,
                snapshot,
                fetch@,
                now,
                final(self).remembered()@,
                stage,
            ),
    {
        let mut fetch: MempoolFetch = fetch;
        fetch.reuse(&self.caches.mempool_txs);
        if fetch.pending().is_some() {
            return Stage::FetchingMempool(snapshot, fetch);
        }
        if !fetch.snapshot.complete {
            return Stage::Skipped(SkipReason::Mempool);
        }
        self.create_wallet_from_utxos(snapshot, fetch.snapshot, now)
    }

    /// Creates the wallet of the tick and begins to fill it with what the scan found.
    fn create_wallet_from_utxos(
        &mut self,
        snapshot: ConfirmedSnapshot,
        mempool: MempoolSnapshot,
        now: u64,
    ) -> (stage: Stage)
        requires
            old(self).wf(),
            mempool.wf(),
            mempool.complete,
        ensures
            final(self).wf(),
            final(self).same_setup(*old(self)),
            stage_wf(*final(self), stage),
            wallet_begun(
                *old(self),
                old(self).remembered()@,
                snapshot,
                mempool.txs@,
                now,
                final(self).remembered()@,
                stage,
            ),
    {
        let network = self.config.btc_network();
        let created = TickWallet::create(
            &self.external_descriptor,
            &self.internal_descriptor,
            network,
        );
        let wallet: TickWallet = match created {
            Ok(wallet) => wallet,
            Err(error) => return Stage::Skipped(SkipReason::Wallet(error)),
        };
        assert(wallet.chain().dom() =~= set![0u32]);
        if self.caches.doubtful_height(&snapshot.tip).is_some() {
            return Stage::CheckingTip(mempool, wallet, snapshot);
        }
        self.caches.note_tip(snapshot.tip);
        self.start_wallet(mempool, wallet, snapshot, now)
    }

    /// Goes on with the hash of the block at the height of the last scan's tip.
    fn read_last_tip(
        &mut self,
        mempool: MempoolSnapshot,
        wallet: TickWallet,
        snapshot: ConfirmedSnapshot,
        reply: Option<BlockHash>,
        now: u64,
    ) -> (stage: Stage)
        requires
            old(self).wf(),
            stage_wf(*old(self), Stage::CheckingTip(mempool, wallet, snapshot)),
        ensures
            final(self).wf(),
            final(self).same_setup(*old(self)),
            stage_wf(*final(self), stage),
            stepped(
                *old(self),
                Stage::CheckingTip(mempool, wallet, snapshot),
                Event::BlockHashFetched(reply),
                now,
                final(self).remembered()@,
                stage,
            ),
    {
        self.caches.check_tip(snapshot.tip, reply);
        self.start_wallet(mempool, wallet, snapshot, now)
    }

    /// Begins to fill the wallet of the tick with what the scan found.
    fn start_wallet(
        &mut self,
        mempool: MempoolSnapshot,
        wallet: TickWallet,
        snapshot: ConfirmedSnapshot,
        now: u64,
    ) -> (stage: Stage)
        requires
            old(self).wf(),
            mempool.wf(),
            mempool.complete,
            blank(wallet),
            wallet.fresh(
                old(self).external(),
                old(self).internal(),
                btc_network_of(old(self).settings().network),
            ),
        ensures
            final(self).wf(),
            final(self).same_setup(*old(self)),
            stage_wf(*final(self), stage),
            wallet_started(
                *old(self),
                old(self).remembered()@,
                wallet,
                snapshot,
                mempool.txs@,
                now,
                final(self).remembered()@,
                stage,
            ),
    {
        if snapshot.utxos.len() == 0 {
            assert(snapshot.utxos@ =~= Seq::empty());
            let mut wallet: TickWallet = wallet;
            let network = self.config.btc_network();
            return match fill_empty(&mut wallet, network, snapshot.tip) {
                Ok(()) => self.begin_broadcast(wallet, mempool, now),
                Err(error) => Stage::Skipped(SkipReason::Wallet(error)),
            };
        }
        let plan = WalletPlan::begin(wallet, snapshot);
        assert(are_heights(snapshot, plan.heights@));
        self.fill_wallet(mempool, plan, now)
    }

    /// Goes on with the hash of a block.
    fn read_block_hash(
        &mut self,
        mempool: MempoolSnapshot,
        plan: WalletPlan,
        reply: Option<BlockHash>,
        now: u64,
    ) -> (stage: Stage)
        requires
            old(self).wf(),
            stage_wf(*old(self), Stage::FillingWallet(mempool, plan)),
            plan@.missing()->0 is Block,
        ensures
            final(self).wf(),
            final(self).same_setup(*old(self)),
            stage_wf(*final(self), stage),
            stepped(
                *old(self),
                Stage::FillingWallet(mempool, plan),
                Event::BlockHashFetched(reply),
                now,
                final(self).remembered()@,
                stage,
            ),
    {
        match reply {
            Some(hash) => {
                let mut plan: WalletPlan = plan;
                plan.accept_block(&mut self.caches, hash);
                self.fill_wallet(mempool, plan, now)
            },
            None => Stage::Skipped(SkipReason::Wallet(WalletError::BlockHash)),
        }
    }

    /// Goes on with the transaction of an output.
    fn read_parent(
        &mut self,
        mempool: MempoolSnapshot,
        plan: WalletPlan,
        reply: Option<Transaction>,
        now: u64,
    ) -> (stage: Stage)
        requires
            old(self).wf(),
            stage_wf(*old(self), Stage::FillingWallet(mempool, plan)),
            plan@.missing()->0 is Parent,
        ensures
            final(self).wf(),
            final(self).same_setup(*old(self)),
            stage_wf(*final(self), stage),
            stepped(
                *old(self),
                Stage::FillingWallet(mempool, plan),
                Event::TxFetched(reply),
                now,
                final(self).remembered()@,
                stage,
            ),
    {
        let mut plan: WalletPlan = plan;
        plan.accept_parent(&mut self.caches, share(reply));
        self.fill_wallet(mempool, plan, now)
    }

    /// Fills the wallet as far as what it needs is remembered. With nothing missing any more, goes
    /// on to the batch.
    fn fill_wallet(&mut self, mempool: MempoolSnapshot, plan: WalletPlan, now: u64) -> (stage:
        Stage)
        requires
            old(self).wf(),
            mempool.wf(),
            mempool.complete,
            plan.wf(),
        ensures
            final(self).wf(),
            final(self).same_setup(*old(self)),
            stage_wf(*final(self), stage),
            plan_advanced(
                *old(self),
                old(self).remembered()@,
                plan@,
                mempool.txs@,
                now,
                final(self).remembered()@,
                stage,
            ),
    {
        let mut plan: WalletPlan = plan;
        plan.reuse(&self.caches);
        if plan.pending().is_some() {
            return Stage::FillingWallet(mempool, plan);
        }
        let ghost reached = plan@;
        let filled_wallet = plan.finish();
        let ghost result = filled_wallet;
        assert(finished(reached, result));
        match filled_wallet {
            Ok(wallet) => self.begin_broadcast(wallet, mempool, now),
            Err(error) => Stage::Skipped(SkipReason::Wallet(error)),
        }
    }

    /// Lets the wallet take in the mempool, builds the batch, and begins to broadcast it.
    fn begin_broadcast(&self, wallet: TickWallet, mempool: MempoolSnapshot, now: u64) -> (stage:
        Stage)
        requires
            self.wf(),
            wallet.wf(),
            mempool.wf(),
        ensures
            stage_wf(*self, stage),
            batch_begun(*self, wallet, mempool.txs@, now, stage),
    {
        let ghost before = wallet;
        let mut wallet: TickWallet = wallet;
        let before_inject: usize = wallet.list_unspent().len();
        let injection = inject_mempool_txs(&mut wallet, &mempool.txs, now);
        match injection {
            Ok(()) => {},
            Err(error) => return Stage::Skipped(SkipReason::Injection(error)),
        }
        let ghost ready = wallet;
        assert(took_in(before, mempool.txs@, now, ready));
        let unspent: Vec<WalletUtxo> = wallet.list_unspent();
        let blocked: Vec<OutPoint> = blocked_outputs(&unspent, &mempool.spent);
        let payment = Payment {
            receiver: &self.receiver_address,
            change: &self.change_address,
            amount_sat: self.config.amount_sat,
            fee_rate_sat_per_vb: self.config.fee_rate_sat_per_vb,
        };
        let count: u32 = self.config.batch_count();
        let attempts: Vec<Attempt> = build_batch(&mut wallet, &unspent, &blocked, &payment, count);
        let txs: Vec<Arc<Transaction>> = list_built(&attempts);
        let broadcast = Broadcast {
            report: WalletReport {
                before_inject,
                after_inject: unspent.len(),
                injected: mempool.txs.len(),
                balance: sum_values(&unspent),
            },
            blocked,
            attempts,
            txs,
            next: 0,
            broadcast: 0,
        };
        proof {
            lemma_built_len(broadcast.attempts@);
            lemma_built_signed(broadcast.attempts@);
            assert(is_batch(
                broadcast.attempts@,
                count,
                ready,
                broadcast.blocked@,
                self.payment(),
            ));
        }
        Stage::Broadcasting(broadcast)
    }
}

/// No more transactions come of a list of attempts than there are attempts.
proof fn lemma_built_len(attempts: Seq<Attempt>)
    ensures
        built_txs(attempts).len() <= attempts.len(),
    decreases attempts.len(),
{
    if attempts.len() != 0 {
        lemma_built_len(attempts.drop_last());
    }
}

/// The transactions of attempts that were all signed are signed.
proof fn lemma_built_signed(attempts: Seq<Attempt>)
    requires
        forall|i: int|
            0 <= i < attempts.len() && (#[trigger] attempts[i]) is Built ==> tx_signed(
                attempts[i]->Built_0.bytes(),
            ),
    ensures
        forall|k: int|
            0 <= k < built_txs(attempts).len() ==> tx_signed(
                (#[trigger] built_txs(attempts)[k]).bytes(),
            ),
    decreases attempts.len(),
{
    if attempts.len() != 0 {
        let rest = attempts.drop_last();
        assert forall|i: int| 0 <= i < rest.len() && (#[trigger] rest[i]) is Built implies
            tx_signed(rest[i]->Built_0.bytes()) by {
            assert(rest[i] == attempts[i]);
        }
        lemma_built_signed(rest);
        assert forall|k: int| 0 <= k < built_txs(attempts).len() implies tx_signed(
            (#[trigger] built_txs(attempts)[k]).bytes(),
        ) by {
            if k < built_txs(rest).len() {
                assert(built_txs(rest)[k] == built_txs(attempts)[k]);
            } else {
                assert(attempts[attempts.len() - 1] is Built);
            }
        }
    }
}

/// Makes the transaction of a reply one that can be shared.
fn share(reply: Option<Transaction>) -> (tx: Option<Arc<Transaction>>)
    ensures
        tx == shared(reply),
{
    match reply {
        Some(tx) => Some(Arc::new(tx)),
        None => None,
    }
}

} // verus!
