use bdk_wallet::bitcoin::absolute::LockTime;
use bdk_wallet::bitcoin::consensus::encode::serialize;
use bdk_wallet::bitcoin::hashes;
use bdk_wallet::bitcoin::transaction::Version;
use bdk_wallet::bitcoin::{Amount, ScriptBuf, Sequence, TxIn, TxOut, Witness};
use sv2_tx_generator::tx::{DecodeError, Transaction};
use sv2_tx_generator::types::{OutPoint, Txid};

fn raw(inputs: &[(u8, u32)]) -> Vec<u8> {
    serialize(&bdk_wallet::bitcoin::Transaction {
        version: Version::TWO,
        lock_time: LockTime::ZERO,
        input: inputs
            .iter()
            .map(|(n, vout)| TxIn {
                previous_output: bdk_wallet::bitcoin::OutPoint {
                    txid: hashes::Hash::from_byte_array([*n; 32]),
                    vout: *vout,
                },
                script_sig: ScriptBuf::new(),
                sequence: Sequence::MAX,
                witness: Witness::new(),
            })
            .collect(),
        output: vec![
            TxOut {
                value: Amount::from_sat(7),
                script_pubkey: ScriptBuf::from_bytes(vec![0x51, 0x52]),
            },
            TxOut {
                value: Amount::from_sat(8),
                script_pubkey: ScriptBuf::new(),
            },
        ],
    })
}

#[test]
fn a_transaction_is_read_from_its_bytes() {
    let bytes = raw(&[(3, 1), (4, 0)]);
    let tx = Transaction::decode(&bytes).unwrap();
    let whole: bdk_wallet::bitcoin::Transaction =
        bdk_wallet::bitcoin::consensus::encode::deserialize(&bytes).unwrap();
    assert_eq!(
        tx.txid().bytes,
        hashes::Hash::to_byte_array(whole.compute_txid())
    );
    assert_eq!(
        *tx.inputs(),
        vec![
            OutPoint { txid: Txid { bytes: [3; 32] }, vout: 1 },
            OutPoint { txid: Txid { bytes: [4; 32] }, vout: 0 },
        ]
    );
    assert_eq!(tx.outputs().len(), 2);
    assert_eq!(tx.outputs()[0].value, 7);
    assert_eq!(tx.outputs()[0].script_pubkey, vec![0x51, 0x52]);
    assert_eq!(tx.outputs()[1].value, 8);
    assert_eq!(*tx.raw(), bytes);
    assert!(!tx.is_coinbase());
}

#[test]
fn bytes_that_encode_nothing_are_refused() {
    let mut bytes = raw(&[(3, 1)]);
    bytes.pop();
    assert!(matches!(
        Transaction::decode(&bytes),
        Err(DecodeError::Malformed(_))
    ));
    assert!(matches!(
        Transaction::decode(&Vec::new()),
        Err(DecodeError::Malformed(_))
    ));
}

#[test]
fn a_transaction_that_spends_an_output_twice_is_told_apart() {
    let twice = Transaction::decode(&raw(&[(3, 1), (4, 0), (3, 1)])).unwrap();
    assert!(twice.repeats_input());
    assert!(!twice.is_holdable());
    let once = Transaction::decode(&raw(&[(3, 1), (3, 2)])).unwrap();
    assert!(!once.repeats_input());
    assert!(once.is_holdable());
}

#[test]
fn the_null_output_beside_others_is_told_apart() {
    let tx = Transaction::decode(&raw(&[(3, 1), (0, u32::MAX)])).unwrap();
    assert!(tx.has_null_input());
    assert!(!tx.is_coinbase());
    assert!(!Transaction::decode(&raw(&[(3, 1), (0, 7)])).unwrap().has_null_input());
    assert!(!Transaction::decode(&raw(&[(0, u32::MAX)])).unwrap().has_null_input());
}

#[test]
fn the_transaction_that_opens_a_block_is_told_apart() {
    assert!(Transaction::decode(&raw(&[(0, u32::MAX)])).unwrap().is_coinbase());
    assert!(!Transaction::decode(&raw(&[(0, 0)])).unwrap().is_coinbase());
    assert!(!Transaction::decode(&raw(&[(1, u32::MAX)])).unwrap().is_coinbase());
}
