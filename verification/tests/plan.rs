use bdk_wallet::bitcoin::absolute::LockTime;
use bdk_wallet::bitcoin::consensus::encode::serialize;
use bdk_wallet::bitcoin::constants::genesis_block;
use bdk_wallet::bitcoin::hashes;
use bdk_wallet::bitcoin::transaction::Version;
use bdk_wallet::bitcoin::{Amount, Network, ScriptBuf, Sequence, TxIn, TxOut, Witness};
use std::sync::Arc;
use sv2_tx_generator::caches::Caches;
use sv2_tx_generator::config::{Config, Mode, NetworkConfig};
use sv2_tx_generator::derivation::{derive_address, derive_descriptors};
use sv2_tx_generator::mempool::MempoolFetch;
use sv2_tx_generator::plan::{fill_empty, needed_heights, Missing, WalletPlan};
use sv2_tx_generator::scan::{ConfirmedSnapshot, Utxo};
use sv2_tx_generator::table::Table;
use sv2_tx_generator::tx::Transaction;
use sv2_tx_generator::types::{Address, BlockHash, BlockId, ConfirmedKey, OutPoint, Txid};
use sv2_tx_generator::wallet::{
    build_tx, inject_mempool_txs, BuildError, TickWallet, WalletError,
};

fn config() -> Config {
    Config {
        interval_secs: 30,
        mode: Mode::Unit,
        batch_size: None,
        seed_phrase: "abandon abandon abandon abandon abandon abandon abandon abandon abandon abandon abandon about".to_string(),
        sender_account_index: 0,
        receiver_account_index: 1,
        change_account_index: None,
        amount_sat: 1000,
        fee_rate_sat_per_vb: 5,
        network: NetworkConfig::Regtest,
        rpc_address: "127.0.0.1".into(),
        rpc_port: 18443,
        rpc_username: "user".into(),
        rpc_password: "pass".into(),
    }
}

fn wallet() -> TickWallet {
    let (external, internal) = derive_descriptors(&config(), Network::Regtest, 0).unwrap();
    TickWallet::create(&external, &internal, Network::Regtest).ok().unwrap()
}

fn block(n: u8) -> BlockHash {
    BlockHash { bytes: [n; 32] }
}

fn genesis() -> BlockHash {
    BlockHash {
        bytes: hashes::Hash::to_byte_array(genesis_block(Network::Regtest).block_hash()),
    }
}

fn paying(n: u8, value: u64, script: &Vec<u8>) -> Transaction {
    let tx = bdk_wallet::bitcoin::Transaction {
        version: Version::TWO,
        lock_time: LockTime::ZERO,
        input: vec![TxIn {
            previous_output: bdk_wallet::bitcoin::OutPoint {
                txid: hashes::Hash::from_byte_array([n; 32]),
                vout: 0,
            },
            script_sig: ScriptBuf::new(),
            sequence: Sequence::MAX,
            witness: Witness::new(),
        }],
        output: vec![TxOut {
            value: Amount::from_sat(value),
            script_pubkey: ScriptBuf::from_bytes(script.clone()),
        }],
    };
    Transaction::decode(&serialize(&tx)).unwrap()
}

fn found(tx: &Transaction, height: u64) -> Utxo {
    Utxo {
        txid: tx.txid(),
        vout: 0,
        script_pubkey: tx.outputs()[0].script_pubkey.clone(),
        amount: tx.outputs()[0].value,
        height,
    }
}

fn at(height: u64) -> Utxo {
    Utxo {
        txid: Txid { bytes: [1; 32] },
        vout: 0,
        script_pubkey: vec![],
        amount: 1,
        height,
    }
}

#[test]
fn the_heights_of_a_wallet_ascend_and_stand_once() {
    let snapshot = ConfirmedSnapshot {
        tip: BlockId { height: 50, hash: block(5) },
        utxos: vec![at(60), at(3), at(50), at(3), at(0), at(0x1_0000_0007)],
    };
    assert_eq!(needed_heights(&snapshot), vec![0, 3, 7, 50, 60]);
    let empty = ConfirmedSnapshot {
        tip: BlockId { height: 0, hash: block(5) },
        utxos: vec![],
    };
    assert_eq!(needed_heights(&empty), vec![0]);
}

#[test]
fn another_block_at_the_same_height_is_a_reorganization() {
    let mut caches = Caches::new();
    caches.note_tip(BlockId { height: 5, hash: block(5) });
    caches.block_hashes.insert(3, block(3));
    caches.confirmed_txs.insert(
        ConfirmedKey { txid: Txid { bytes: [1; 32] }, block: block(3) },
        Arc::new(paying(1, 1, &vec![])),
    );
    caches.mempool_txs.insert(
        Txid { bytes: [2; 32] },
        Arc::new(paying(2, 1, &vec![])),
    );
    caches.note_tip(BlockId { height: 5, hash: block(5) });
    assert!(!caches.block_hashes.is_empty());
    assert!(!caches.confirmed_txs.is_empty());
    caches.note_tip(BlockId { height: 5, hash: block(50) });
    assert!(caches.block_hashes.is_empty());
    assert!(caches.confirmed_txs.is_empty());
    assert!(!caches.mempool_txs.is_empty());
    assert_eq!(
        caches.scan_tip,
        Some(BlockId { height: 5, hash: block(50) })
    );
}

#[test]
fn a_lower_tip_is_a_reorganization() {
    let mut caches = Caches::new();
    caches.note_tip(BlockId { height: 5, hash: block(5) });
    caches.block_hashes.insert(3, block(3));
    caches.note_tip(BlockId { height: 4, hash: block(4) });
    assert!(caches.block_hashes.is_empty());
}

#[test]
fn under_a_higher_tip_the_last_one_is_looked_up() {
    let higher = BlockId { height: 6, hash: block(6) };
    let mut caches = Caches::new();
    assert_eq!(caches.doubtful_height(&higher), None);
    caches.note_tip(BlockId { height: 5, hash: block(5) });
    // Nothing is remembered yet that could be wrong.
    assert_eq!(caches.doubtful_height(&higher), None);
    caches.block_hashes.insert(3, block(3));
    assert_eq!(caches.doubtful_height(&higher), Some(5));
    assert_eq!(
        caches.doubtful_height(&BlockId { height: 5, hash: block(5) }),
        None
    );
    caches.check_tip(higher, Some(block(5)));
    assert_eq!(caches.scan_tip, Some(higher));
    assert_eq!(caches.block_hashes.get(&3), Some(&block(3)));
    assert!(caches.holds_confirmed());
    caches.check_tip(BlockId { height: 7, hash: block(7) }, Some(block(60)));
    assert!(caches.block_hashes.is_empty());
    assert!(!caches.holds_confirmed());
    caches.block_hashes.insert(3, block(3));
    caches.check_tip(BlockId { height: 8, hash: block(8) }, None);
    assert!(caches.block_hashes.is_empty());
}

#[test]
fn equal_descriptors_make_no_wallet() {
    let (external, _) = derive_descriptors(&config(), Network::Regtest, 0).unwrap();
    assert!(matches!(
        TickWallet::create(&external, &external, Network::Regtest),
        Err(WalletError::Create(_))
    ));
}

#[test]
fn descriptors_of_another_network_make_no_wallet() {
    let (external, internal) = derive_descriptors(&config(), Network::Regtest, 0).unwrap();
    assert!(matches!(
        TickWallet::create(&external, &internal, Network::Bitcoin),
        Err(WalletError::Create(_))
    ));
}

#[test]
fn a_wallet_without_outputs_lists_none() {
    for height in [0, 9] {
        let mut wallet = wallet();
        let tip = BlockId { height, hash: block(9) };
        assert!(fill_empty(&mut wallet, Network::Regtest, tip).is_ok());
        assert!(wallet.list_unspent().is_empty());
    }
}

#[test]
fn a_height_that_is_a_time_fills_no_wallet() {
    for (height, fills) in [(499_999_999, true), (500_000_000, false)] {
        let mut wallet = wallet();
        let tip = BlockId { height, hash: block(9) };
        let applied = fill_empty(&mut wallet, Network::Regtest, tip);
        assert_eq!(applied.is_ok(), fills);
        assert_eq!(matches!(applied, Err(WalletError::Height)), !fills);
    }
}

#[test]
fn a_plan_goes_from_blocks_to_parents_to_a_wallet() {
    let script = derive_address(&config(), 0, Network::Regtest).unwrap().script_pubkey;
    let tx = paying(1, 30_000, &script);
    let snapshot = ConfirmedSnapshot {
        tip: BlockId { height: 8, hash: block(8) },
        utxos: vec![found(&tx, 4)],
    };
    let mut caches = Caches::new();
    let mut plan = WalletPlan::begin(wallet(), snapshot);
    plan.reuse(&caches);
    assert_eq!(plan.pending(), Some(Missing::Block(0)));
    plan.accept_block(&mut caches, genesis());
    plan.reuse(&caches);
    assert_eq!(plan.pending(), Some(Missing::Block(4)));
    plan.accept_block(&mut caches, block(4));
    plan.reuse(&caches);
    assert_eq!(plan.pending(), Some(Missing::Parent(tx.txid(), block(4))));
    let id = tx.txid();
    plan.accept_parent(&mut caches, Some(Arc::new(tx)));
    plan.reuse(&caches);
    assert_eq!(plan.pending(), None);
    let wallet = plan.finish().ok().unwrap();
    let unspent = wallet.list_unspent();
    assert_eq!(unspent.len(), 1);
    assert_eq!(unspent[0].outpoint, OutPoint { txid: id, vout: 0 });
    assert_eq!(unspent[0].value, 30_000);
    assert_eq!(caches.block_hashes.get(&4), Some(&block(4)));
    assert!(caches
        .confirmed_txs
        .contains_key(&ConfirmedKey { txid: id, block: block(4) }));
}

#[test]
fn unconfirmed_outputs_are_listed_once_they_are_taken_in() {
    let script = derive_address(&config(), 0, Network::Regtest).unwrap().script_pubkey;
    let mut wallet = wallet();
    let tip = BlockId { height: 9, hash: block(9) };
    fill_empty(&mut wallet, Network::Regtest, tip).ok().unwrap();
    inject_mempool_txs(&mut wallet, &vec![], 5).ok().unwrap();
    assert!(wallet.list_unspent().is_empty());
    let tx = Arc::new(paying(1, 30_000, &script));
    inject_mempool_txs(&mut wallet, &vec![tx.clone()], 5).ok().unwrap();
    let unspent = wallet.list_unspent();
    assert_eq!(unspent.len(), 1);
    assert_eq!(unspent[0].outpoint, OutPoint { txid: tx.txid(), vout: 0 });

    // What may not be spent is left alone.
    let receiver = derive_address(&config(), 1, Network::Regtest).unwrap();
    let change = derive_address(&config(), 0, Network::Regtest).unwrap();
    let blocked = vec![OutPoint { txid: tx.txid(), vout: 0 }];
    assert!(build_tx(&mut wallet, &receiver, &change, 1000, 5, &blocked).is_err());
    let built = build_tx(&mut wallet, &receiver, &change, 1000, 5, &vec![]).ok().unwrap();
    assert_eq!(*built.inputs(), blocked);
}

#[test]
fn what_is_dust_rests_on_the_script() {
    let script = derive_address(&config(), 0, Network::Regtest).unwrap().script_pubkey;
    let change = derive_address(&config(), 0, Network::Regtest).unwrap();
    let mut wallet = wallet();
    let tip = BlockId { height: 9, hash: block(9) };
    fill_empty(&mut wallet, Network::Regtest, tip).ok().unwrap();
    let tx = Arc::new(paying(1, 30_000, &script));
    inject_mempool_txs(&mut wallet, &vec![tx], 5).ok().unwrap();
    let mut pay = |script_pubkey: Vec<u8>, amount: u64| {
        let receiver = Address { text: String::new(), script_pubkey };
        build_tx(&mut wallet, &receiver, &change, amount, 5, &vec![])
    };
    let mut taproot = vec![0x51, 0x20];
    taproot.extend([7; 32]);
    assert!(matches!(pay(taproot.clone(), 329), Err(BuildError::Create(_))));
    assert!(pay(taproot, 330).is_ok());
    let mut key_hash = vec![0x76, 0xa9, 0x14];
    key_hash.extend([7; 20]);
    key_hash.extend([0x88, 0xac]);
    assert!(matches!(pay(key_hash.clone(), 545), Err(BuildError::Create(_))));
    assert!(pay(key_hash, 546).is_ok());
    // What can never be spent may be worth anything.
    assert!(pay(vec![0x6a, 0x01, 0x07], 1).is_ok());
}

/// What a transaction pays to a change script that can never be spent, out of one output of a
/// value.
fn burnt_out_of(value: u64) -> u64 {
    let script = derive_address(&config(), 0, Network::Regtest).unwrap().script_pubkey;
    let receiver = derive_address(&config(), 1, Network::Regtest).unwrap();
    let change = Address { text: String::new(), script_pubkey: vec![0x6a] };
    let mut wallet = wallet();
    let tip = BlockId { height: 9, hash: block(9) };
    fill_empty(&mut wallet, Network::Regtest, tip).ok().unwrap();
    let tx = Arc::new(paying(1, value, &script));
    inject_mempool_txs(&mut wallet, &vec![tx], 5).ok().unwrap();
    let built = build_tx(&mut wallet, &receiver, &change, 1000, 5, &vec![]).ok().unwrap();
    assert_eq!(built.outputs().len(), 2);
    let burnt = built.outputs().iter().find(|output| output.script_pubkey == vec![0x6a]);
    burnt.unwrap().value
}

#[test]
fn change_that_cannot_be_dust_is_always_made() {
    // One input and one output cost 548, and ten bytes of change 50 more.
    assert_eq!(burnt_out_of(1548), 0);
    assert_eq!(burnt_out_of(1548 + 50), 0);
    assert_eq!(burnt_out_of(1548 + 51), 1);
    assert_eq!(burnt_out_of(30_000), 30_000 - 1548 - 50);
}

#[test]
fn a_reading_of_the_mempool_counts_what_it_fetched_and_reused() {
    let known = Arc::new(paying(1, 1, &vec![]));
    let new = Arc::new(paying(2, 2, &vec![]));
    let gone = Arc::new(paying(3, 3, &vec![]));
    let lost = Txid { bytes: [7; 32] };
    let mut cache: Table<Txid, Arc<Transaction>> = Table::new();
    cache.insert(known.txid(), known.clone());
    cache.insert(gone.txid(), gone.clone());
    let ids = vec![known.txid(), new.txid(), lost, known.txid()];
    let mut fetch = MempoolFetch::begin(ids, &mut cache);
    assert!(!cache.contains_key(&gone.txid()));
    fetch.reuse(&cache);
    assert_eq!(fetch.pending(), Some(new.txid()));
    fetch.accept(&mut cache, Some(new.clone()));
    fetch.reuse(&cache);
    assert!(fetch.snapshot.complete);
    assert_eq!(fetch.pending(), Some(lost));
    fetch.accept(&mut cache, None);
    fetch.reuse(&cache);
    assert_eq!(fetch.pending(), None);
    assert_eq!((fetch.fetched, fetch.reused), (1, 2));
    assert!(!fetch.snapshot.complete);
    let ids: Vec<Txid> = fetch.snapshot.txs.iter().map(|tx| tx.txid()).collect();
    assert_eq!(ids, vec![known.txid(), new.txid(), known.txid()]);
    assert!(fetch.snapshot.spent.contains(&known.inputs()[0]));
    assert!(fetch.snapshot.spent.contains(&new.inputs()[0]));
    assert!(!fetch.snapshot.spent.contains(&gone.inputs()[0]));
    assert!(cache.contains_key(&new.txid()));
    assert!(!cache.contains_key(&lost));
}
