use bdk_wallet::bitcoin::absolute::LockTime;
use bdk_wallet::bitcoin::consensus::encode::{deserialize, serialize};
use bdk_wallet::bitcoin::constants::genesis_block;
use bdk_wallet::bitcoin::hashes;
use bdk_wallet::bitcoin::transaction::Version;
use bdk_wallet::bitcoin::{Amount, Network, ScriptBuf, Sequence, TxIn, Witness};
use std::sync::Arc;
use sv2_tx_generator::batch::{Attempt, OutputRole};
use sv2_tx_generator::config::{Config, Mode, NetworkConfig};
use sv2_tx_generator::scan::{ScanRequest, ScanResult, Utxo};
use sv2_tx_generator::tick::{Action, Broadcast, Event, SkipReason, Stage, TickOutcome};
use sv2_tx_generator::tx::Transaction;
use sv2_tx_generator::types::{BlockHash, OutPoint, Txid};
use sv2_tx_generator::wallet::{BuildError, WalletError};
use sv2_tx_generator::TxGenerator;

const SEED: &str = "abandon abandon abandon abandon abandon abandon abandon abandon abandon abandon abandon about";

fn config() -> Config {
    Config {
        interval_secs: 30,
        mode: Mode::Unit,
        batch_size: None,
        seed_phrase: SEED.to_string(),
        sender_account_index: 0,
        receiver_account_index: 1,
        change_account_index: None,
        amount_sat: 1000,
        fee_rate_sat_per_vb: 5,
        network: NetworkConfig::Regtest,
        rpc_address: "127.0.0.1".into(),
        rpc_port: 18443,
        rpc_username: "user".into(),
        rpc_password: "pass".into(),
    }
}

fn batch_config(size: u32) -> Config {
    let mut config = config();
    config.mode = Mode::Batch;
    config.batch_size = Some(size);
    config
}

fn generator(config: Config) -> TxGenerator {
    TxGenerator::new(config).ok().unwrap()
}

fn block(n: u8) -> BlockHash {
    BlockHash { bytes: [n; 32] }
}

fn genesis() -> BlockHash {
    BlockHash {
        bytes: hashes::Hash::to_byte_array(genesis_block(Network::Regtest).block_hash()),
    }
}

/// A transaction that spends an output of nobody and pays the given scripts.
fn funding(n: u8, outputs: &[(u64, Vec<u8>)]) -> Transaction {
    let tx = bdk_wallet::bitcoin::Transaction {
        version: Version::TWO,
        lock_time: LockTime::ZERO,
        input: vec![TxIn {
            previous_output: bdk_wallet::bitcoin::OutPoint {
                txid: hashes::Hash::from_byte_array([n; 32]),
                vout: 0,
            },
            script_sig: ScriptBuf::new(),
            sequence: Sequence::MAX,
            witness: Witness::new(),
        }],
        output: outputs
            .iter()
            .map(|(value, script)| bdk_wallet::bitcoin::TxOut {
                value: Amount::from_sat(*value),
                script_pubkey: ScriptBuf::from_bytes(script.clone()),
            })
            .collect(),
    };
    Transaction::decode(&serialize(&tx)).unwrap()
}

/// A transaction that names the null output beside an output of nobody.
fn naming_null(n: u8, outputs: &[(u64, Vec<u8>)]) -> Transaction {
    let plain = funding(n, outputs);
    let mut tx: bdk_wallet::bitcoin::Transaction = deserialize(plain.raw()).unwrap();
    tx.input.push(TxIn {
        previous_output: bdk_wallet::bitcoin::OutPoint::null(),
        script_sig: ScriptBuf::new(),
        sequence: Sequence::MAX,
        witness: Witness::new(),
    });
    Transaction::decode(&serialize(&tx)).unwrap()
}

/// A transaction that opens a block.
fn reward(outputs: &[(u64, Vec<u8>)]) -> Transaction {
    let plain = funding(0, outputs);
    let mut tx: bdk_wallet::bitcoin::Transaction = deserialize(plain.raw()).unwrap();
    tx.input[0].previous_output = bdk_wallet::bitcoin::OutPoint::null();
    Transaction::decode(&serialize(&tx)).unwrap()
}

/// A transaction that spends the given outputs.
fn spending(spent: &[OutPoint], outputs: &[(u64, Vec<u8>)]) -> Transaction {
    let plain = funding(0, outputs);
    let mut tx: bdk_wallet::bitcoin::Transaction = deserialize(plain.raw()).unwrap();
    tx.input = spent
        .iter()
        .map(|out| TxIn {
            previous_output: bdk_wallet::bitcoin::OutPoint {
                txid: hashes::Hash::from_byte_array(out.txid.bytes),
                vout: out.vout,
            },
            script_sig: ScriptBuf::new(),
            sequence: Sequence::MAX,
            witness: Witness::new(),
        })
        .collect();
    Transaction::decode(&serialize(&tx)).unwrap()
}

fn copy(tx: &Transaction) -> Transaction {
    Transaction::decode(tx.raw()).unwrap()
}

/// A node that answers from what it was given, and keeps a record of what it was asked.
struct Node {
    scan: Option<ScanResult>,
    mempool: Option<Vec<Txid>>,
    txs: Vec<Transaction>,
    blocks: Vec<(u32, BlockHash)>,
    /// Transactions that are given under an id that is not theirs.
    wrong: Vec<(Txid, Transaction)>,
    refuse: Vec<usize>,
    scans: Vec<Vec<ScanRequest>>,
    blocks_asked: Vec<u32>,
    txs_asked: Vec<(Txid, Option<BlockHash>)>,
    sent: Vec<Arc<Transaction>>,
}

impl Node {
    fn new(tip: u64, hash: BlockHash) -> Node {
        Node {
            scan: Some(ScanResult {
                success: Some(true),
                height: Some(tip),
                best_block_hash: Some(hash),
                unspents: Vec::new(),
            }),
            mempool: Some(Vec::new()),
            txs: Vec::new(),
            blocks: vec![(0, genesis())],
            wrong: Vec::new(),
            refuse: Vec::new(),
            scans: Vec::new(),
            blocks_asked: Vec::new(),
            txs_asked: Vec::new(),
            sent: Vec::new(),
        }
    }

    /// Puts a transaction into a block, with all its outputs found by the scan.
    fn confirm(&mut self, tx: Transaction, height: u32, hash: BlockHash) {
        let scan = self.scan.as_mut().unwrap();
        for (vout, output) in tx.outputs().iter().enumerate() {
            scan.unspents.push(Utxo {
                txid: tx.txid(),
                vout: vout as u32,
                script_pubkey: output.script_pubkey.clone(),
                amount: output.value,
                height: height as u64,
            });
        }
        self.blocks.push((height, hash));
        self.txs.push(tx);
    }

    /// Puts a transaction into the mempool.
    fn float(&mut self, tx: Transaction) {
        self.mempool.as_mut().unwrap().push(tx.txid());
        self.txs.push(tx);
    }

    fn forget_requests(&mut self) {
        self.scans.clear();
        self.blocks_asked.clear();
        self.txs_asked.clear();
        self.sent.clear();
    }

    fn answer(&mut self, action: Action) -> Event {
        match action {
            Action::Scan(requests) => {
                self.scans.push(requests);
                Event::Scanned(self.scan.clone())
            }
            Action::ListMempool => Event::MempoolListed(self.mempool.clone()),
            Action::FetchTx(txid, block) => {
                self.txs_asked.push((txid, block));
                let found = self.txs.iter().find(|tx| tx.txid() == txid);
                let wrong = self.wrong.iter().find(|(id, _)| *id == txid);
                Event::TxFetched(found.or(wrong.map(|(_, tx)| tx)).map(copy))
            }
            Action::FetchBlockHash(height) => {
                self.blocks_asked.push(height);
                let found = self.blocks.iter().find(|(h, _)| *h == height);
                Event::BlockHashFetched(found.map(|(_, hash)| *hash))
            }
            Action::Broadcast(tx) => {
                let refused = self.refuse.contains(&self.sent.len());
                self.sent.push(tx);
                Event::Broadcast(!refused)
            }
            Action::Finish(_) => panic!("nothing to answer"),
        }
    }

    fn tick(&mut self, generator: &mut TxGenerator) -> (Stage, TickOutcome) {
        let (mut stage, mut action) = generator.start_tick();
        loop {
            if let Action::Finish(outcome) = action {
                return (stage, outcome);
            }
            let event = self.answer(action);
            assert!(generator.can_answer(&stage, &event));
            let (next, asked) = generator.run_tick(stage, event, 1_700_000_000);
            stage = next;
            action = asked;
        }
    }
}

fn broadcast_of(stage: Stage) -> Broadcast {
    match stage {
        Stage::Broadcasting(broadcast) => broadcast,
        Stage::Skipped(reason) => panic!("skipped: {:?}", reason),
        _ => panic!("not finished"),
    }
}

fn skip_of(stage: Stage) -> SkipReason {
    match stage {
        Stage::Skipped(reason) => reason,
        _ => panic!("not skipped"),
    }
}

fn outpoint(tx: &Transaction, vout: u32) -> OutPoint {
    OutPoint { txid: tx.txid(), vout }
}

const SKIPPED: TickOutcome = TickOutcome { built: 0, broadcast: 0, skipped: true };

#[test]
fn tick_outcome_skipped_is_false_after_normal_completion() {
    let outcome = TickOutcome {
        built: 1,
        broadcast: 1,
        skipped: false,
    };
    assert_eq!(outcome.built, 1);
    assert_eq!(outcome.broadcast, 1);
    assert!(!outcome.skipped);
}

#[test]
fn a_scan_covers_both_keychains() {
    let mut generator = generator(config());
    let mut node = Node::new(7, block(7));
    node.tick(&mut generator);
    assert_eq!(node.scans.len(), 1);
    let requests = &node.scans[0];
    assert_eq!(requests.len(), 2);
    assert!(requests[0].descriptor.ends_with("/0/*)"));
    assert!(requests[1].descriptor.ends_with("/1/*)"));
    for request in requests {
        assert_eq!((request.first, request.last), (0, 1000));
    }
}

#[test]
fn a_scan_that_cannot_be_had_skips_the_tick() {
    let mut generator = generator(config());
    let mut node = Node::new(7, block(7));
    node.scan = None;
    let (stage, outcome) = node.tick(&mut generator);
    assert_eq!(outcome, SKIPPED);
    assert!(matches!(skip_of(stage), SkipReason::Scan));
}

#[test]
fn a_scan_that_failed_skips_the_tick() {
    let mut generator = generator(config());
    let mut node = Node::new(7, block(7));
    node.scan.as_mut().unwrap().success = Some(false);
    let (stage, outcome) = node.tick(&mut generator);
    assert_eq!(outcome, SKIPPED);
    assert!(matches!(skip_of(stage), SkipReason::Scan));
    // Its heights do not matter.
    node.scan.as_mut().unwrap().height = Some(500_000_000);
    let (stage, _) = node.tick(&mut generator);
    assert!(matches!(skip_of(stage), SkipReason::Scan));
}

#[test]
fn a_mempool_that_cannot_be_listed_skips_the_tick() {
    let mut generator = generator(config());
    let mut node = Node::new(7, block(7));
    node.mempool = None;
    let (stage, outcome) = node.tick(&mut generator);
    assert_eq!(outcome, SKIPPED);
    assert!(matches!(skip_of(stage), SkipReason::Mempool));
}

#[test]
fn a_gap_in_the_mempool_skips_the_tick_once_all_ids_were_tried() {
    let mut generator = generator(config());
    let mut node = Node::new(7, block(7));
    let present = funding(9, &[(5_000, vec![0x51])]);
    let absent = Txid { bytes: [8; 32] };
    node.mempool.as_mut().unwrap().push(absent);
    node.float(copy(&present));
    let (stage, outcome) = node.tick(&mut generator);
    assert_eq!(outcome, SKIPPED);
    assert!(matches!(skip_of(stage), SkipReason::Mempool));
    assert_eq!(node.txs_asked, vec![(absent, None), (present.txid(), None)]);
    // What could be had is remembered.
    node.forget_requests();
    node.tick(&mut generator);
    assert_eq!(node.txs_asked, vec![(absent, None)]);
}

#[test]
fn nothing_scanned_is_no_error() {
    for tip in [0, 7] {
        let mut generator = generator(config());
        let mut node = Node::new(tip, block(7));
        let (stage, outcome) = node.tick(&mut generator);
        assert_eq!(
            outcome,
            TickOutcome { built: 0, broadcast: 0, skipped: false }
        );
        let broadcast = broadcast_of(stage);
        assert_eq!(broadcast.report.balance, 0);
        assert_eq!(broadcast.report.after_inject, 0);
        assert_eq!(broadcast.attempts.len(), 1);
        assert!(matches!(
            broadcast.attempts[0],
            Attempt::Failed(BuildError::Create(_))
        ));
        assert!(node.blocks_asked.is_empty());
    }
}

#[test]
fn one_output_pays_for_one_transaction() {
    let mut generator = generator(config());
    let sender = generator.sender_address().script_pubkey.clone();
    let receiver = generator.receiver_address().script_pubkey.clone();
    let fund = funding(1, &[(100_000, sender.clone())]);
    let mut node = Node::new(7, block(7));
    node.confirm(copy(&fund), 3, block(3));
    let (stage, outcome) = node.tick(&mut generator);
    assert_eq!(
        outcome,
        TickOutcome { built: 1, broadcast: 1, skipped: false }
    );
    let broadcast = broadcast_of(stage);
    assert_eq!(broadcast.report.balance, 100_000);
    assert_eq!(broadcast.report.before_inject, 1);
    assert_eq!(broadcast.report.injected, 0);
    assert!(broadcast.blocked.is_empty());

    assert_eq!(node.sent.len(), 1);
    let tx = &node.sent[0];
    assert_eq!(*tx.inputs(), vec![outpoint(&fund, 0)]);
    assert_eq!(tx.outputs().len(), 2);
    let paid: Vec<u64> = tx
        .outputs()
        .iter()
        .filter(|output| output.script_pubkey == receiver)
        .map(|output| output.value)
        .collect();
    assert_eq!(paid, vec![1000]);
    let change: Vec<u64> = tx
        .outputs()
        .iter()
        .filter(|output| output.script_pubkey == sender)
        .map(|output| output.value)
        .collect();
    assert_eq!(change.len(), 1);
    // One input and two outputs at five satoshis for each virtual byte.
    assert_eq!(change[0], 100_000 - 1000 - 703);

    let Attempt::Built(built, summary) = &broadcast.attempts[0] else {
        panic!("not built");
    };
    assert_eq!(built.txid(), tx.txid());
    assert_eq!(summary.txid, tx.txid());
    assert_eq!(summary.input_count, 1);
    assert_eq!(summary.input_total, 100_000);
    assert_eq!(summary.shown.len(), 1);
    assert_eq!(summary.shown[0].value, 100_000);
    assert_eq!(summary.shown[0].derivation_index, 0);
    assert_eq!(summary.more_inputs, 0);
    assert_eq!(summary.unexpected, 0);
    assert!(summary.roles.contains(&OutputRole::Receiver));
    assert!(summary.roles.contains(&OutputRole::Change));
}

#[test]
fn every_input_is_signed() {
    let mut cfg = batch_config(2);
    cfg.amount_sat = 70_000;
    let mut generator = generator(cfg);
    let sender = generator.sender_address().script_pubkey.clone();
    let outputs = vec![(50_000, sender.clone()); 4];
    let mut node = Node::new(7, block(7));
    node.confirm(funding(1, &outputs), 3, block(3));
    let (_, outcome) = node.tick(&mut generator);
    assert_eq!(outcome.built, 2);
    for tx in &node.sent {
        let whole: bdk_wallet::bitcoin::Transaction = deserialize(tx.raw()).unwrap();
        assert_eq!(whole.input.len(), 2);
        for input in &whole.input {
            // A signature and a key.
            assert_eq!(input.witness.len(), 2);
            assert!(!input.witness.nth(0).unwrap().is_empty());
            assert_eq!(input.witness.nth(1).unwrap().len(), 33);
        }
    }
}

/// What the only transaction of a tick pays, out of one output of a value.
fn paid_out_of(value: u64) -> Vec<u64> {
    let mut generator = generator(config());
    let sender = generator.sender_address().script_pubkey.clone();
    let mut node = Node::new(7, block(7));
    node.confirm(funding(1, &[(value, sender)]), 3, block(3));
    node.tick(&mut generator);
    let mut paid: Vec<u64> = Vec::new();
    for tx in &node.sent {
        for output in tx.outputs() {
            paid.push(output.value);
        }
    }
    paid.sort();
    paid
}

#[test]
fn the_fee_is_that_of_the_rate_and_dust_is_left_to_it() {
    // One input and one output cost 548, and an output for the change 155 more.
    assert!(paid_out_of(1547).is_empty());
    assert_eq!(paid_out_of(1548), vec![1000]);
    assert_eq!(paid_out_of(1548 + 155 + 293), vec![1000]);
    assert_eq!(paid_out_of(1548 + 155 + 294), vec![294, 1000]);
    assert_eq!(paid_out_of(10_000), vec![1000, 10_000 - 1000 - 703]);
}

#[test]
fn money_up_to_what_can_be_added_up_is_spent() {
    let huge: u64 = 9_000_000_000_000_000_000;
    assert_eq!(paid_out_of(huge), vec![1000, huge - 1000 - 703]);

    let mut generator = generator(config());
    let sender = generator.sender_address().script_pubkey.clone();
    let mut node = Node::new(7, block(7));
    let outputs = [(huge, sender.clone()), (huge, sender)];
    node.confirm(funding(1, &outputs), 3, block(3));
    let (stage, outcome) = node.tick(&mut generator);
    assert_eq!(outcome.built, 0);
    assert!(matches!(
        broadcast_of(stage).attempts[0],
        Attempt::Failed(BuildError::OutOfRange)
    ));
}

#[test]
fn a_second_tick_on_the_same_scan_asks_for_nothing_and_finds_the_same() {
    let mut generator = generator(config());
    let sender = generator.sender_address().script_pubkey.clone();
    let mut node = Node::new(7, block(7));
    node.confirm(funding(1, &[(50_000, sender.clone()), (7_000, sender)]), 3, block(3));
    node.float(funding(9, &[(5_000, vec![0x51])]));
    let (stage, _) = node.tick(&mut generator);
    let first = broadcast_of(stage);
    node.forget_requests();
    let (stage, _) = node.tick(&mut generator);
    let second = broadcast_of(stage);
    assert!(node.blocks_asked.is_empty());
    assert!(node.txs_asked.is_empty());
    assert_eq!(first.report, second.report);
    assert_eq!(second.report.balance, 57_000);
    assert_eq!(second.report.injected, 1);
}

#[test]
fn a_second_reading_of_the_mempool_asks_for_what_failed() {
    let mut generator = generator(config());
    let mut node = Node::new(7, block(7));
    let present = funding(8, &[(5_000, vec![0x51])]);
    let late = funding(9, &[(5_000, vec![0x51])]);
    node.float(copy(&present));
    node.mempool.as_mut().unwrap().push(late.txid());
    let (stage, _) = node.tick(&mut generator);
    assert!(matches!(skip_of(stage), SkipReason::Mempool));
    node.forget_requests();
    node.txs.push(copy(&late));
    let (stage, _) = node.tick(&mut generator);
    assert_eq!(node.txs_asked, vec![(late.txid(), None)]);
    assert_eq!(broadcast_of(stage).report.injected, 2);
}

#[test]
fn an_output_whose_parent_is_another_transaction_is_not_spent() {
    let mut generator = generator(config());
    let sender = generator.sender_address().script_pubkey.clone();
    let lost = funding(1, &[(50_000, sender.clone())]);
    let kept = funding(2, &[(60_000, sender.clone())]);
    let other = funding(3, &[(70_000, vec![0x51])]);
    let mut node = Node::new(7, block(7));
    node.confirm(copy(&lost), 3, block(3));
    node.confirm(copy(&kept), 4, block(4));
    node.txs.retain(|tx| tx.txid() != lost.txid());
    node.wrong.push((lost.txid(), other));
    let (stage, outcome) = node.tick(&mut generator);
    assert_eq!(outcome.built, 1);
    assert_eq!(broadcast_of(stage).report.balance, 60_000);
    assert_eq!(*node.sent[0].inputs(), vec![outpoint(&kept, 0)]);

    // It is spent once its transaction is in the mempool.
    node.float(copy(&lost));
    let (stage, _) = node.tick(&mut generator);
    assert_eq!(broadcast_of(stage).report.balance, 110_000);
}

#[test]
fn one_transaction_may_name_the_null_output_beside_others() {
    let mut generator = generator(config());
    let sender = generator.sender_address().script_pubkey.clone();
    let mut node = Node::new(7, block(7));
    node.confirm(naming_null(1, &[(50_000, sender.clone())]), 3, block(3));
    let (stage, outcome) = node.tick(&mut generator);
    assert_eq!(outcome.built, 1);
    assert_eq!(broadcast_of(stage).report.balance, 50_000);

    // With another one in the mempool no wallet can go on.
    node.float(naming_null(2, &[(1_000, vec![0x51])]));
    let (stage, outcome) = node.tick(&mut generator);
    assert_eq!(outcome, SKIPPED);
    assert!(matches!(
        skip_of(stage),
        SkipReason::Injection(WalletError::Unfit)
    ));

    // Nor with another one in a block.
    node.mempool = Some(Vec::new());
    node.confirm(naming_null(3, &[(50_000, sender)]), 4, block(4));
    let (stage, outcome) = node.tick(&mut generator);
    assert_eq!(outcome, SKIPPED);
    assert!(matches!(
        skip_of(stage),
        SkipReason::Wallet(WalletError::Unfit)
    ));
}

#[test]
fn blocks_are_asked_for_in_ascending_order_and_then_parents() {
    let mut generator = generator(config());
    let sender = generator.sender_address().script_pubkey.clone();
    let late = funding(1, &[(50_000, sender.clone())]);
    let early = funding(2, &[(60_000, sender.clone()), (70_000, sender.clone())]);
    let mut node = Node::new(9, block(9));
    node.confirm(copy(&late), 9, block(9));
    node.confirm(copy(&early), 4, block(4));
    node.tick(&mut generator);
    assert_eq!(node.blocks_asked, vec![0, 4]);
    assert_eq!(
        node.txs_asked,
        vec![
            (late.txid(), Some(block(9))),
            (early.txid(), Some(block(4)))
        ]
    );
}

#[test]
fn what_is_remembered_is_not_asked_for_again() {
    let mut generator = generator(config());
    let sender = generator.sender_address().script_pubkey.clone();
    let fund = funding(1, &[(50_000, sender)]);
    let mut node = Node::new(7, block(7));
    node.confirm(fund, 3, block(3));
    node.tick(&mut generator);
    assert_eq!(node.blocks_asked, vec![0, 3]);
    assert_eq!(node.txs_asked.len(), 1);
    node.forget_requests();
    let (_, outcome) = node.tick(&mut generator);
    assert_eq!(outcome.built, 1);
    assert!(node.blocks_asked.is_empty());
    assert!(node.txs_asked.is_empty());
}

/// A generator after a tick with its tip in block 7, and the node that it asked.
fn after_a_tick() -> (TxGenerator, Node) {
    let mut generator = generator(config());
    let sender = generator.sender_address().script_pubkey.clone();
    let mut node = Node::new(7, block(7));
    node.confirm(funding(1, &[(50_000, sender)]), 3, block(3));
    node.tick(&mut generator);
    node.forget_requests();
    (generator, node)
}

fn move_tip(node: &mut Node, height: u64, hash: BlockHash) {
    node.scan.as_mut().unwrap().height = Some(height);
    node.scan.as_mut().unwrap().best_block_hash = Some(hash);
}

#[test]
fn under_a_higher_tip_nothing_is_asked_for_again_if_the_last_one_stands() {
    let (mut generator, mut node) = after_a_tick();
    move_tip(&mut node, 8, block(8));
    node.blocks.push((7, block(7)));
    let (_, outcome) = node.tick(&mut generator);
    assert_eq!(outcome.built, 1);
    assert_eq!(node.blocks_asked, vec![7]);
    assert!(node.txs_asked.is_empty());
    // The same tip is not in doubt.
    node.forget_requests();
    node.tick(&mut generator);
    assert!(node.blocks_asked.is_empty());
}

#[test]
fn a_reorganization_below_a_higher_tip_forgets_confirmed_data() {
    let (mut generator, mut node) = after_a_tick();
    move_tip(&mut node, 9, block(90));
    node.blocks.push((7, block(70)));
    let (_, outcome) = node.tick(&mut generator);
    assert_eq!(outcome.built, 1);
    assert_eq!(node.blocks_asked, vec![7, 0, 3]);
    assert_eq!(node.txs_asked.len(), 1);
}

#[test]
fn a_lower_tip_forgets_confirmed_data() {
    let (mut generator, mut node) = after_a_tick();
    move_tip(&mut node, 6, block(60));
    let (_, outcome) = node.tick(&mut generator);
    assert_eq!(outcome.built, 1);
    assert_eq!(node.blocks_asked, vec![0, 3]);
    assert_eq!(node.txs_asked.len(), 1);
}

#[test]
fn a_last_tip_that_cannot_be_looked_up_forgets_confirmed_data() {
    let (mut generator, mut node) = after_a_tick();
    assert!(generator.holds_confirmed());
    move_tip(&mut node, 8, block(8));
    let (_, outcome) = node.tick(&mut generator);
    assert_eq!(outcome.built, 1);
    assert_eq!(node.blocks_asked, vec![7, 0, 3]);
    assert_eq!(node.txs_asked.len(), 1);
}

#[test]
fn the_last_tip_is_looked_up_for_an_empty_scan_too() {
    let (mut generator, mut node) = after_a_tick();
    move_tip(&mut node, 8, block(8));
    let unspents = std::mem::take(&mut node.scan.as_mut().unwrap().unspents);
    node.blocks.push((7, block(70)));
    let (stage, _) = node.tick(&mut generator);
    assert_eq!(broadcast_of(stage).report.balance, 0);
    assert_eq!(node.blocks_asked, vec![7]);
    assert!(!generator.holds_confirmed());
    // What was remembered is gone.
    node.forget_requests();
    node.scan.as_mut().unwrap().unspents = unspents;
    node.tick(&mut generator);
    assert_eq!(node.blocks_asked, vec![0, 3]);
}

#[test]
fn heights_that_are_times_skip_the_tick() {
    let mut generator = generator(config());
    let sender = generator.sender_address().script_pubkey.clone();
    let mut node = Node::new(500_000_000, block(7));
    let (stage, outcome) = node.tick(&mut generator);
    assert_eq!(outcome, SKIPPED);
    assert!(matches!(
        skip_of(stage),
        SkipReason::Wallet(WalletError::Height)
    ));

    let mut node = Node::new(499_999_999, block(8));
    node.confirm(funding(1, &[(50_000, sender.clone())]), 3, block(3));
    let (_, outcome) = node.tick(&mut generator);
    assert_eq!(outcome.built, 1);

    node.confirm(funding(2, &[(50_000, sender)]), 500_000_000, block(9));
    let (stage, outcome) = node.tick(&mut generator);
    assert_eq!(outcome, SKIPPED);
    assert!(matches!(
        skip_of(stage),
        SkipReason::Wallet(WalletError::Height)
    ));
}

#[test]
fn a_block_reward_in_the_mempool_skips_the_tick() {
    let mut generator = generator(config());
    let mut node = Node::new(7, block(7));
    node.float(reward(&[(1_000, vec![0x51])]));
    let (stage, outcome) = node.tick(&mut generator);
    assert_eq!(outcome, SKIPPED);
    assert!(matches!(
        skip_of(stage),
        SkipReason::Injection(WalletError::Unfit)
    ));
}

#[test]
fn a_transaction_that_spends_an_output_twice_skips_the_tick() {
    let mut generator = generator(config());
    let sender = generator.sender_address().script_pubkey.clone();
    let spent = OutPoint { txid: Txid { bytes: [4; 32] }, vout: 0 };
    let twice = spending(&[spent, spent], &[(60_000, sender)]);
    let mut node = Node::new(7, block(7));
    node.float(copy(&twice));
    let (stage, _) = node.tick(&mut generator);
    assert!(matches!(
        skip_of(stage),
        SkipReason::Injection(WalletError::Unfit)
    ));
    node.mempool = Some(Vec::new());
    node.confirm(twice, 3, block(3));
    let (stage, _) = node.tick(&mut generator);
    assert!(matches!(
        skip_of(stage),
        SkipReason::Wallet(WalletError::Unfit)
    ));
}

#[test]
fn a_confirmed_block_reward_is_no_obstacle() {
    let mut generator = generator(config());
    let sender = generator.sender_address().script_pubkey.clone();
    let mined = reward(&[(50_000, sender.clone())]);
    let mut node = Node::new(200, block(7));
    node.confirm(copy(&mined), 3, block(3));
    let (stage, outcome) = node.tick(&mut generator);
    assert_eq!(outcome.built, 1);
    assert_eq!(broadcast_of(stage).report.balance, 50_000);

    // Nor is a transaction that spends it.
    node.float(spending(&[outpoint(&mined, 0)], &[(40_000, sender)]));
    let (stage, outcome) = node.tick(&mut generator);
    assert_eq!(outcome.built, 1);
    assert_eq!(broadcast_of(stage).report.balance, 40_000);
}

#[test]
fn a_block_reward_is_spent_once_it_is_mature() {
    for (tip, built) in [(101, 0), (102, 1)] {
        let mut generator = generator(config());
        let sender = generator.sender_address().script_pubkey.clone();
        let mut node = Node::new(tip, block(7));
        node.confirm(reward(&[(50_000, sender)]), 3, block(3));
        let (stage, outcome) = node.tick(&mut generator);
        assert_eq!(outcome.built, built);
        // It is listed all the same.
        assert_eq!(broadcast_of(stage).report.balance, 50_000);
    }
}

#[test]
fn an_output_that_costs_more_than_it_is_worth_is_no_obstacle() {
    for n in 1..5 {
        let mut generator = generator(config());
        let sender = generator.sender_address().script_pubkey.clone();
        let mut node = Node::new(7, block(7));
        let outputs = [(100_000, sender.clone()), (300, sender)];
        node.confirm(funding(n, &outputs), 3, block(3));
        let (_, outcome) = node.tick(&mut generator);
        assert_eq!(outcome.built, 1);
    }
}

#[test]
fn a_block_reward_without_its_block_may_not_be_spent_from() {
    let mut generator = generator(config());
    let sender = generator.sender_address().script_pubkey.clone();
    let lost = funding(1, &[(50_000, sender.clone())]);
    let kept = funding(2, &[(60_000, sender.clone())]);
    let mined = reward(&[(70_000, sender.clone())]);
    let mut node = Node::new(7, block(7));
    node.confirm(copy(&lost), 3, block(3));
    node.confirm(kept, 4, block(4));
    node.txs.retain(|tx| tx.txid() != lost.txid());
    node.wrong.push((lost.txid(), copy(&mined)));
    let (stage, outcome) = node.tick(&mut generator);
    assert_eq!(outcome.built, 1);
    assert_eq!(broadcast_of(stage).report.balance, 60_000);

    node.float(spending(&[outpoint(&mined, 0)], &[(40_000, sender)]));
    let (stage, outcome) = node.tick(&mut generator);
    assert_eq!(outcome, SKIPPED);
    assert!(matches!(
        skip_of(stage),
        SkipReason::Injection(WalletError::Unfit)
    ));
}

#[test]
fn a_reorganization_forgets_confirmed_data() {
    let mut generator = generator(config());
    let sender = generator.sender_address().script_pubkey.clone();
    let fund = funding(1, &[(50_000, sender)]);
    let mut node = Node::new(7, block(7));
    node.confirm(fund, 3, block(3));
    node.tick(&mut generator);
    node.forget_requests();
    node.scan.as_mut().unwrap().best_block_hash = Some(block(70));
    let (_, outcome) = node.tick(&mut generator);
    assert_eq!(outcome.built, 1);
    assert_eq!(node.blocks_asked, vec![0, 3]);
    assert_eq!(node.txs_asked.len(), 1);
}

#[test]
fn a_block_that_cannot_be_had_skips_the_tick() {
    let mut generator = generator(config());
    let sender = generator.sender_address().script_pubkey.clone();
    let mut node = Node::new(7, block(7));
    node.confirm(funding(1, &[(50_000, sender)]), 3, block(3));
    node.blocks.retain(|(height, _)| *height != 3);
    let (stage, outcome) = node.tick(&mut generator);
    assert_eq!(outcome, SKIPPED);
    assert!(matches!(
        skip_of(stage),
        SkipReason::Wallet(WalletError::BlockHash)
    ));
    // The block that could be had is remembered.
    node.forget_requests();
    node.tick(&mut generator);
    assert_eq!(node.blocks_asked, vec![3]);
}

#[test]
fn without_any_parent_the_tick_is_skipped() {
    let mut generator = generator(config());
    let sender = generator.sender_address().script_pubkey.clone();
    let mut node = Node::new(7, block(7));
    node.confirm(funding(1, &[(50_000, sender)]), 3, block(3));
    node.txs.clear();
    let (stage, outcome) = node.tick(&mut generator);
    assert_eq!(outcome, SKIPPED);
    assert!(matches!(
        skip_of(stage),
        SkipReason::Wallet(WalletError::NoParents)
    ));
}

#[test]
fn an_output_without_its_parent_is_passed_over() {
    let mut generator = generator(config());
    let sender = generator.sender_address().script_pubkey.clone();
    let lost = funding(1, &[(50_000, sender.clone()), (51_000, sender.clone())]);
    let kept = funding(2, &[(60_000, sender)]);
    let mut node = Node::new(7, block(7));
    node.confirm(copy(&lost), 3, block(3));
    node.confirm(copy(&kept), 4, block(4));
    node.txs.retain(|tx| tx.txid() != lost.txid());
    let (stage, outcome) = node.tick(&mut generator);
    assert_eq!(outcome.built, 1);
    assert_eq!(broadcast_of(stage).report.balance, 60_000);
    assert_eq!(*node.sent[0].inputs(), vec![outpoint(&kept, 0)]);
    // It is tried once for each of its outputs.
    assert_eq!(
        node.txs_asked,
        vec![
            (lost.txid(), Some(block(3))),
            (lost.txid(), Some(block(3))),
            (kept.txid(), Some(block(4)))
        ]
    );
}

#[test]
fn a_chain_of_another_network_skips_the_tick() {
    let mut generator = generator(config());
    let sender = generator.sender_address().script_pubkey.clone();
    let mut node = Node::new(7, block(7));
    node.confirm(funding(1, &[(50_000, sender)]), 3, block(3));
    node.blocks[0] = (0, block(1));
    let (stage, outcome) = node.tick(&mut generator);
    assert_eq!(outcome, SKIPPED);
    assert!(matches!(
        skip_of(stage),
        SkipReason::Wallet(WalletError::CannotConnect(_))
    ));
}

#[test]
fn a_batch_spends_no_output_twice() {
    let mut generator = generator(batch_config(3));
    let sender = generator.sender_address().script_pubkey.clone();
    let fund = funding(
        1,
        &[
            (50_000, sender.clone()),
            (50_000, sender.clone()),
            (50_000, sender.clone()),
        ],
    );
    let mut node = Node::new(7, block(7));
    node.confirm(fund, 3, block(3));
    let (stage, outcome) = node.tick(&mut generator);
    assert_eq!(
        outcome,
        TickOutcome { built: 3, broadcast: 3, skipped: false }
    );
    let mut spent: Vec<OutPoint> = Vec::new();
    for tx in &node.sent {
        for input in tx.inputs() {
            assert!(!spent.contains(input));
            spent.push(*input);
        }
    }
    assert_eq!(spent.len(), 3);
    assert_eq!(broadcast_of(stage).attempts.len(), 3);
}

#[test]
fn a_later_failure_does_not_end_the_batch() {
    let mut generator = generator(batch_config(4));
    let sender = generator.sender_address().script_pubkey.clone();
    let mut node = Node::new(7, block(7));
    node.confirm(funding(1, &[(50_000, sender)]), 3, block(3));
    let (stage, outcome) = node.tick(&mut generator);
    assert_eq!(
        outcome,
        TickOutcome { built: 1, broadcast: 1, skipped: false }
    );
    let broadcast = broadcast_of(stage);
    assert_eq!(broadcast.attempts.len(), 4);
    assert!(matches!(broadcast.attempts[0], Attempt::Built(_, _)));
    for attempt in &broadcast.attempts[1..] {
        assert!(matches!(attempt, Attempt::Failed(BuildError::Create(_))));
    }
}

#[test]
fn a_first_failure_ends_the_batch() {
    let mut generator = generator(batch_config(4));
    let sender = generator.sender_address().script_pubkey.clone();
    let mut node = Node::new(7, block(7));
    node.confirm(funding(1, &[(900, sender)]), 3, block(3));
    let (stage, outcome) = node.tick(&mut generator);
    assert_eq!(
        outcome,
        TickOutcome { built: 0, broadcast: 0, skipped: false }
    );
    assert_eq!(broadcast_of(stage).attempts.len(), 1);
}

#[test]
fn a_refused_transaction_does_not_hold_up_the_rest() {
    let mut generator = generator(batch_config(3));
    let sender = generator.sender_address().script_pubkey.clone();
    let fund = funding(
        1,
        &[
            (50_000, sender.clone()),
            (50_000, sender.clone()),
            (50_000, sender.clone()),
        ],
    );
    let mut node = Node::new(7, block(7));
    node.confirm(fund, 3, block(3));
    node.refuse = vec![0];
    let (_, outcome) = node.tick(&mut generator);
    assert_eq!(
        outcome,
        TickOutcome { built: 3, broadcast: 2, skipped: false }
    );
    assert_eq!(node.sent.len(), 3);
}

#[test]
fn unconfirmed_change_is_spent_and_mempool_spends_are_not_repeated() {
    let mut generator = generator(config());
    let sender = generator.sender_address().script_pubkey.clone();
    let fund = funding(1, &[(50_000, sender.clone())]);
    let mut node = Node::new(7, block(7));
    node.confirm(copy(&fund), 3, block(3));
    node.tick(&mut generator);
    let first = copy(&node.sent[0]);
    let change = first
        .outputs()
        .iter()
        .position(|output| output.script_pubkey == sender)
        .unwrap();
    node.forget_requests();
    node.float(copy(&first));
    let (stage, outcome) = node.tick(&mut generator);
    assert_eq!(outcome.built, 1);
    let broadcast = broadcast_of(stage);
    assert_eq!(broadcast.report.injected, 1);
    let second = &node.sent[0];
    assert_eq!(*second.inputs(), vec![outpoint(&first, change as u32)]);
    for input in second.inputs() {
        assert!(!first.inputs().contains(input));
    }
    assert_eq!(node.txs_asked, vec![(first.txid(), None)]);

    // A third tick finds the first transaction in its cache.
    node.forget_requests();
    node.tick(&mut generator);
    assert!(node.txs_asked.is_empty());

    // What has left the mempool is forgotten.
    node.mempool = Some(Vec::new());
    node.tick(&mut generator);
    node.forget_requests();
    node.mempool = Some(vec![first.txid()]);
    node.tick(&mut generator);
    assert_eq!(node.txs_asked, vec![(first.txid(), None)]);
}

#[test]
fn change_of_another_account_can_be_spent_too() {
    let mut cfg = config();
    cfg.change_account_index = Some(5);
    let mut generator = generator(cfg);
    let sender = generator.sender_address().script_pubkey.clone();
    let change = generator.change_address().script_pubkey.clone();
    let mut node = Node::new(7, block(7));
    node.confirm(funding(1, &[(50_000, sender)]), 3, block(3));
    node.tick(&mut generator);
    let first = copy(&node.sent[0]);
    let vout = first
        .outputs()
        .iter()
        .position(|output| output.script_pubkey == change)
        .unwrap();
    node.forget_requests();
    node.float(copy(&first));
    let (_, outcome) = node.tick(&mut generator);
    assert_eq!(outcome.built, 1);
    assert_eq!(*node.sent[0].inputs(), vec![outpoint(&first, vout as u32)]);
}

fn failure_of(config: Config, value: u64) -> BuildError {
    let mut generator = generator(config);
    let sender = generator.sender_address().script_pubkey.clone();
    let mut node = Node::new(7, block(7));
    node.confirm(funding(1, &[(value, sender)]), 3, block(3));
    let (stage, outcome) = node.tick(&mut generator);
    assert_eq!(outcome.built, 0);
    let mut broadcast = broadcast_of(stage);
    match broadcast.attempts.remove(0) {
        Attempt::Failed(error) => error,
        Attempt::Built(_, _) => panic!("built"),
    }
}

#[test]
fn dust_is_not_paid() {
    let mut cfg = config();
    cfg.amount_sat = 293;
    assert!(matches!(failure_of(cfg, 50_000), BuildError::Create(_)));

    let mut cfg = config();
    cfg.amount_sat = 294;
    let mut generator = generator(cfg);
    let sender = generator.sender_address().script_pubkey.clone();
    let mut node = Node::new(7, block(7));
    node.confirm(funding(1, &[(50_000, sender)]), 3, block(3));
    let (_, outcome) = node.tick(&mut generator);
    assert_eq!(outcome.built, 1);
}

#[test]
fn a_fee_rate_that_cannot_be_expressed_fails() {
    let mut cfg = config();
    cfg.fee_rate_sat_per_vb = u64::MAX / 250 + 1;
    assert!(matches!(failure_of(cfg, 50_000), BuildError::InvalidFeeRate));
}

#[test]
fn a_fee_rate_or_an_amount_beyond_all_means_fails() {
    let mut cfg = config();
    cfg.fee_rate_sat_per_vb = u64::MAX / 250;
    assert!(matches!(failure_of(cfg, 50_000), BuildError::OutOfRange));
    let mut cfg = config();
    cfg.fee_rate_sat_per_vb = 1_000_001;
    assert!(matches!(failure_of(cfg, 50_000), BuildError::OutOfRange));
    let mut cfg = config();
    cfg.amount_sat = u64::MAX;
    assert!(matches!(failure_of(cfg, 50_000), BuildError::OutOfRange));
}

/// The fee, the weight and the virtual size of the only transaction of a tick.
fn cost_of(amount_sat: u64, outputs: &[u64]) -> (u64, u64, u64) {
    let mut cfg = config();
    cfg.amount_sat = amount_sat;
    let mut generator = generator(cfg);
    let sender = generator.sender_address().script_pubkey.clone();
    let mut node = Node::new(7, block(7));
    let outputs: Vec<(u64, Vec<u8>)> = outputs.iter().map(|v| (*v, sender.clone())).collect();
    node.confirm(funding(1, &outputs), 3, block(3));
    let (stage, _) = node.tick(&mut generator);
    let broadcast = broadcast_of(stage);
    let Attempt::Built(tx, summary) = &broadcast.attempts[0] else {
        panic!("not built");
    };
    let whole: bdk_wallet::bitcoin::Transaction = deserialize(tx.raw()).unwrap();
    let paid: u64 = tx.outputs().iter().map(|output| output.value).sum();
    (
        summary.input_total as u64 - paid,
        whole.weight().to_wu(),
        whole.vsize() as u64,
    )
}

#[test]
fn the_fee_is_that_of_the_signed_transaction() {
    // A signature of 71 bytes makes a virtual size of 141, and three quarters of it are rounding.
    let (fee, weight, vsize) = cost_of(1000, &[100_000]);
    assert_eq!(fee, 703);
    assert!(560 - 8 <= weight && weight <= 561);
    assert!(4 * fee >= 5 * weight);
    assert!(fee + 2 >= 5 * vsize);

    let (fee, weight, vsize) = cost_of(70_000, &[50_000, 50_000]);
    assert!(4 * fee >= 5 * weight);
    assert!(fee >= 5 * vsize);
}

#[test]
fn what_can_be_afforded_at_a_sane_fee_rate_is_paid() {
    let mut cfg = batch_config(3);
    cfg.fee_rate_sat_per_vb = 16_000;
    let mut generator = generator(cfg);
    let sender = generator.sender_address().script_pubkey.clone();
    let mut node = Node::new(7, block(7));
    // Each pays for itself, and for one output to the receiver besides.
    let outputs = vec![(3_000_000, sender); 3];
    node.confirm(funding(1, &outputs), 3, block(3));
    let (stage, outcome) = node.tick(&mut generator);
    assert_eq!(outcome.built, 3);
    assert_eq!(broadcast_of(stage).attempts.len(), 3);
}

#[test]
fn an_absurd_fee_rate_fails_at_the_last_step() {
    let mut cfg = config();
    cfg.fee_rate_sat_per_vb = 30_000;
    assert!(matches!(
        failure_of(cfg, 10_000_000_000),
        BuildError::Extract(_)
    ));
}

#[test]
fn too_little_money_fails() {
    let mut cfg = config();
    cfg.amount_sat = 50_001;
    assert!(matches!(failure_of(cfg, 50_000), BuildError::Create(_)));
}

#[test]
fn outputs_of_strangers_are_not_spent() {
    let mut generator = generator(config());
    let sender = generator.sender_address().script_pubkey.clone();
    let receiver = generator.receiver_address().script_pubkey.clone();
    let fund = funding(1, &[(80_000, receiver), (40_000, sender)]);
    let mut node = Node::new(7, block(7));
    node.confirm(copy(&fund), 3, block(3));
    let (stage, _) = node.tick(&mut generator);
    assert_eq!(broadcast_of(stage).report.balance, 40_000);
    assert_eq!(*node.sent[0].inputs(), vec![outpoint(&fund, 1)]);
}

#[test]
fn only_a_fitting_reply_is_gone_on_with() {
    let generator = generator(config());
    let (stage, _) = generator.start_tick();
    let result = ScanResult {
        success: None,
        height: Some(500_000_000),
        best_block_hash: None,
        unspents: Vec::new(),
    };
    assert!(generator.can_answer(&stage, &Event::Scanned(None)));
    assert!(generator.can_answer(&stage, &Event::Scanned(Some(result))));
    assert!(!generator.can_answer(&stage, &Event::BlockHashFetched(None)));
    assert!(!generator.can_answer(&stage, &Event::MempoolListed(None)));
    assert!(!generator.can_answer(&stage, &Event::Broadcast(true)));
}
