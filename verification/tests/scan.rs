use sv2_tx_generator::scan::{
    low_half_of, scan_requests, scan_utxos, ScanFailed, ScanRequest, ScanResult, Utxo,
};
use sv2_tx_generator::types::{BlockHash, BlockId, Txid};

fn result() -> ScanResult {
    ScanResult {
        success: Some(true),
        height: Some(321),
        best_block_hash: Some(BlockHash { bytes: [4; 32] }),
        unspents: vec![Utxo {
            txid: Txid { bytes: [1; 32] },
            vout: 2,
            script_pubkey: vec![0x51],
            amount: 3,
            height: 300,
        }],
    }
}

#[test]
fn both_keychains_are_scanned_over_the_whole_range() {
    let requests = scan_requests(&"ext".to_string(), &"int".to_string());
    assert_eq!(
        requests,
        vec![
            ScanRequest { descriptor: "ext".to_string(), first: 0, last: 1000 },
            ScanRequest { descriptor: "int".to_string(), first: 0, last: 1000 },
        ]
    );
}

#[test]
fn a_scan_gives_its_tip_and_its_outputs() {
    let snapshot = scan_utxos(result()).unwrap();
    assert_eq!(
        snapshot.tip,
        BlockId { height: 321, hash: BlockHash { bytes: [4; 32] } }
    );
    assert_eq!(snapshot.utxos, result().unspents);
}

#[test]
fn only_a_reported_failure_is_one() {
    let mut failed = result();
    failed.success = Some(false);
    assert_eq!(scan_utxos(failed), Err(ScanFailed));
    let mut silent = result();
    silent.success = None;
    assert!(scan_utxos(silent).is_ok());
}

#[test]
fn a_missing_tip_is_zero() {
    let mut bare = result();
    bare.height = None;
    bare.best_block_hash = None;
    let snapshot = scan_utxos(bare).unwrap();
    assert_eq!(
        snapshot.tip,
        BlockId { height: 0, hash: BlockHash { bytes: [0; 32] } }
    );
}

#[test]
fn only_the_low_half_of_a_height_is_kept() {
    assert_eq!(low_half_of(5), 5);
    assert_eq!(low_half_of(0xffff_ffff), u32::MAX);
    assert_eq!(low_half_of(0x1_0000_0000), 0);
    assert_eq!(low_half_of(0x7_0000_0003), 3);
    let mut tall = result();
    tall.height = Some(0x1_0000_0009);
    assert_eq!(scan_utxos(tall).unwrap().tip.height, 9);
}
