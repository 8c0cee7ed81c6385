use bdk_wallet::bitcoin::absolute::LockTime;
use bdk_wallet::bitcoin::consensus::encode::serialize;
use bdk_wallet::bitcoin::hashes;
use bdk_wallet::bitcoin::transaction::Version;
use bdk_wallet::bitcoin::{Amount, ScriptBuf, Sequence, TxIn, TxOut, Witness};
use bdk_wallet::signer::SignerError;
use sv2_tx_generator::batch::{
    blocked_outputs, list_built, sum_values, summarize, Attempt, OutputRole,
};
use sv2_tx_generator::bdk::{Keychain, WalletUtxo};
use sv2_tx_generator::tx::Transaction;
use sv2_tx_generator::types::{Address, OutPoint, Txid};
use sv2_tx_generator::wallet::{
    is_selectable, is_within_reach, signed, tx_request, BuildError,
};

fn outpoint(n: u8) -> OutPoint {
    OutPoint { txid: Txid { bytes: [n; 32] }, vout: n as u32 }
}

fn utxo(n: u8, value: u64) -> WalletUtxo {
    WalletUtxo {
        outpoint: outpoint(n),
        keychain: Keychain::External,
        derivation_index: n as u32,
        value,
    }
}

fn spending(inputs: &[u8], scripts: &[Vec<u8>]) -> Transaction {
    let tx = bdk_wallet::bitcoin::Transaction {
        version: Version::TWO,
        lock_time: LockTime::ZERO,
        input: inputs
            .iter()
            .map(|n| TxIn {
                previous_output: bdk_wallet::bitcoin::OutPoint {
                    txid: hashes::Hash::from_byte_array([*n; 32]),
                    vout: *n as u32,
                },
                script_sig: ScriptBuf::new(),
                sequence: Sequence::MAX,
                witness: Witness::new(),
            })
            .collect(),
        output: scripts
            .iter()
            .map(|script| TxOut {
                value: Amount::from_sat(5),
                script_pubkey: ScriptBuf::from_bytes(script.clone()),
            })
            .collect(),
    };
    Transaction::decode(&serialize(&tx)).unwrap()
}

#[test]
fn what_is_listed_and_spent_is_blocked() {
    let unspent = vec![utxo(1, 10), utxo(2, 20), utxo(3, 30)];
    let spent = vec![outpoint(3), outpoint(9), outpoint(1), outpoint(3)];
    assert_eq!(blocked_outputs(&unspent, &spent), vec![outpoint(1), outpoint(3)]);
    assert!(blocked_outputs(&unspent, &vec![]).is_empty());
}

#[test]
fn a_summary_shows_the_first_inputs_and_counts_the_rest() {
    let unspent = vec![
        utxo(1, 10),
        utxo(2, 20),
        utxo(3, u64::MAX),
        utxo(4, u64::MAX),
        utxo(5, 50),
    ];
    let receiver = vec![0x51];
    let change = vec![0x52];
    let tx = spending(
        &[4, 2, 3, 1, 5],
        &[change.clone(), vec![0x53], receiver.clone(), vec![]],
    );
    let summary = summarize(&tx, &unspent, &receiver, &change);
    assert_eq!(summary.txid, tx.txid());
    assert_eq!(summary.input_count, 5);
    assert_eq!(summary.input_total, 2 * u64::MAX as u128 + 80);
    assert_eq!(
        summary.shown,
        vec![utxo(4, u64::MAX), utxo(2, 20), utxo(3, u64::MAX)]
    );
    assert_eq!(summary.more_inputs, 2);
    assert_eq!(
        summary.roles,
        vec![
            OutputRole::Change,
            OutputRole::Unexpected,
            OutputRole::Receiver,
            OutputRole::Unexpected
        ]
    );
    assert_eq!(summary.unexpected, 2);
}

#[test]
fn an_input_that_is_not_listed_is_counted_and_not_shown() {
    let unspent = vec![utxo(2, 20)];
    let tx = spending(&[1, 2], &[vec![0x51]]);
    let summary = summarize(&tx, &unspent, &vec![0x51], &vec![0x51]);
    assert_eq!(summary.input_count, 2);
    assert_eq!(summary.input_total, 20);
    assert_eq!(summary.shown, vec![utxo(2, 20)]);
    assert_eq!(summary.more_inputs, 0);
    // The receiver comes first where both scripts are one.
    assert_eq!(summary.roles, vec![OutputRole::Receiver]);
}

#[test]
fn values_are_added_up() {
    assert_eq!(sum_values(&vec![]), 0);
    assert_eq!(
        sum_values(&vec![utxo(1, u64::MAX), utxo(2, u64::MAX)]),
        2 * u64::MAX as u128
    );
}

#[test]
fn coin_selection_is_asked_only_within_its_range() {
    let limit: u64 = i64::MAX as u64;
    assert!(is_selectable(&vec![], &vec![]));
    assert!(is_selectable(&vec![utxo(1, limit - 1), utxo(2, 1)], &vec![]));
    assert!(!is_selectable(&vec![utxo(1, limit - 1), utxo(2, 2)], &vec![]));
    assert!(!is_selectable(&vec![utxo(1, u64::MAX)], &vec![]));
    // What may not be spent does not count.
    assert!(is_selectable(&vec![utxo(1, limit), utxo(2, 2)], &vec![outpoint(2)]));
    assert!(is_selectable(&vec![utxo(1, u64::MAX)], &vec![outpoint(1)]));
    assert!(!is_selectable(&vec![utxo(1, u64::MAX)], &vec![outpoint(2)]));
}

#[test]
fn an_amount_is_looked_for_only_within_reach() {
    let limit: u64 = i64::MAX as u64;
    let script: Vec<u8> = vec![0; 22];
    // At one satoshi for each virtual byte: 41 and a half, rounded up, and 31 for change.
    assert!(is_within_reach(&script, limit - 73, 1));
    assert!(!is_within_reach(&script, limit - 72, 1));
    assert!(is_within_reach(&script, limit, 0));
    assert!(!is_within_reach(&script, u64::MAX, 0));
    assert!(is_within_reach(&script, 0, 1_000_000));
    assert!(!is_within_reach(&script, 0, 1_000_001));
    // A longer script takes two bytes more to give its length.
    assert!(is_within_reach(&vec![0; 252], limit - (10 + 261 + 1 + 31), 1));
    assert!(!is_within_reach(&vec![0; 252], limit - (10 + 261 + 31), 1));
    assert!(is_within_reach(&vec![0; 253], limit - (10 + 264 + 1 + 31), 1));
    assert!(!is_within_reach(&vec![0; 253], limit - (10 + 264 + 31), 1));
}

#[test]
fn a_request_says_what_is_asked_for() {
    let receiver = Address { text: "r".to_string(), script_pubkey: vec![1, 2] };
    let change = Address { text: "c".to_string(), script_pubkey: vec![3] };
    let request = tx_request(&receiver, &change, 1000, 5, &vec![outpoint(4)]);
    assert_eq!(request.receiver, vec![1, 2]);
    assert_eq!(request.change, vec![3]);
    assert_eq!(request.amount_sat, 1000);
    assert_eq!(request.sat_per_vb, 5);
    assert_eq!(request.unspendable, vec![outpoint(4)]);
}

#[test]
fn only_a_fully_signed_transaction_goes_on() {
    assert!(signed(Ok(true)).is_ok());
    assert!(matches!(signed(Ok(false)), Err(BuildError::NotSigned)));
    assert!(matches!(
        signed(Err(SignerError::UserCanceled)),
        Err(BuildError::Sign(SignerError::UserCanceled))
    ));
}

#[test]
fn built_transactions_are_listed_in_order() {
    let receiver = vec![0x51];
    let mut attempts = Vec::new();
    for n in [1u8, 2] {
        let tx = spending(&[n], &[receiver.clone()]);
        let summary = summarize(&tx, &vec![], &receiver, &receiver);
        attempts.push(Attempt::Built(std::sync::Arc::new(tx), summary));
        attempts.push(Attempt::Failed(BuildError::NotSigned));
    }
    let txs = list_built(&attempts);
    assert_eq!(txs.len(), 2);
    assert_eq!(*txs[0].inputs(), vec![outpoint(1)]);
    assert_eq!(*txs[1].inputs(), vec![outpoint(2)]);
}
