use bdk_wallet::bitcoin::Network;
use sv2_tx_generator::config::{Config, Mode, NetworkConfig};
use sv2_tx_generator::derivation::{
    account_path_text, address_path_text, derive_address, derive_descriptors, keychain_text,
    DeriveError,
};
use sv2_tx_generator::generator::SetupError;
use sv2_tx_generator::text::decimal_text;
use sv2_tx_generator::TxGenerator;

const TEST_SEED: &str = "abandon abandon abandon abandon abandon abandon abandon abandon abandon abandon abandon about";

fn test_config(seed_phrase: &str) -> Config {
    Config {
        interval_secs: 30,
        mode: Mode::Unit,
        batch_size: None,
        seed_phrase: seed_phrase.to_string(),
        sender_account_index: 0,
        receiver_account_index: 1,
        change_account_index: None,
        amount_sat: 1000,
        fee_rate_sat_per_vb: 5,
        network: NetworkConfig::Regtest,
        rpc_address: "127.0.0.1".into(),
        rpc_port: 18443,
        rpc_username: "user".into(),
        rpc_password: "pass".into(),
    }
}

#[test]
fn derivation_is_deterministic() {
    let cfg = test_config(TEST_SEED);
    let (ext1, int1) =
        derive_descriptors(&cfg, Network::Regtest, cfg.effective_change_account_index()).unwrap();
    let (ext2, int2) =
        derive_descriptors(&cfg, Network::Regtest, cfg.effective_change_account_index()).unwrap();
    assert_eq!(ext1, ext2);
    assert_eq!(int1, int2);
}

#[test]
fn derivation_same_seed_same_network_produces_consistent_addresses() {
    let cfg = test_config(TEST_SEED);
    let addr = derive_address(&cfg, 0, Network::Regtest).unwrap();
    let addr2 = derive_address(&cfg, 0, Network::Regtest).unwrap();
    assert_eq!(addr, addr2);
}

#[test]
fn different_accounts_produce_different_addresses() {
    let cfg = test_config(TEST_SEED);
    let a0 = derive_address(&cfg, 0, Network::Regtest).unwrap();
    let a1 = derive_address(&cfg, 1, Network::Regtest).unwrap();
    assert_ne!(a0, a1);
}

#[test]
fn coin_type_zero_for_mainnet() {
    let mut cfg = test_config(TEST_SEED);
    cfg.network = NetworkConfig::Bitcoin;
    assert_eq!(cfg.coin_type(), 0);
}

#[test]
fn coin_type_one_for_non_mainnet() {
    for net in [
        NetworkConfig::Testnet,
        NetworkConfig::Regtest,
        NetworkConfig::Signet,
    ] {
        let mut cfg = test_config(TEST_SEED);
        cfg.network = net;
        assert_eq!(cfg.coin_type(), 1, "coin_type should be 1 for {:?}", net);
    }
}

#[test]
fn mainnet_derivation_uses_coin_type_zero() {
    let mut cfg = test_config(TEST_SEED);
    cfg.network = NetworkConfig::Bitcoin;
    let (ext, _int) =
        derive_descriptors(&cfg, Network::Bitcoin, cfg.effective_change_account_index()).unwrap();
    assert!(
        ext.contains("/84'/0'/"),
        "expected coin_type 0 in descriptor, got: {ext}"
    );
}

#[test]
fn regtest_derivation_uses_coin_type_one() {
    let cfg = test_config(TEST_SEED);
    let (ext, _int) =
        derive_descriptors(&cfg, Network::Regtest, cfg.effective_change_account_index()).unwrap();
    assert!(
        ext.contains("/84'/1'/"),
        "expected coin_type 1 in descriptor, got: {ext}"
    );
}

#[test]
fn same_account_change_produces_internal_1_wildcard() {
    let cfg = test_config(TEST_SEED);
    let (_ext, int) =
        derive_descriptors(&cfg, Network::Regtest, cfg.sender_account_index).unwrap();
    assert!(
        int.contains("/1/*"),
        "expected /1/* in internal descriptor, got: {int}"
    );
}

#[test]
fn different_change_account_produces_account_0_wildcard() {
    let cfg = test_config(TEST_SEED);
    let (_ext, int) = derive_descriptors(&cfg, Network::Regtest, 99).unwrap();
    assert!(
        int.contains("/0/*"),
        "expected /0/* when change differs from sender, got: {int}"
    );
}

#[test]
fn external_descriptor_receive_keychain_is_0_wildcard() {
    let cfg = test_config(TEST_SEED);
    let (ext, _int) =
        derive_descriptors(&cfg, Network::Regtest, cfg.effective_change_account_index()).unwrap();
    assert!(
        ext.contains("/0/*"),
        "expected /0/* in external descriptor, got: {ext}"
    );
}

#[test]
fn invalid_mnemonic_rejected() {
    let cfg = test_config("this is not a valid mnemonic phrase at all");
    let result =
        derive_descriptors(&cfg, Network::Regtest, cfg.effective_change_account_index());
    assert!(result.is_err());
}

#[test]
fn invalid_mnemonic_is_named_as_such() {
    let cfg = test_config("this is not a valid mnemonic phrase at all");
    assert!(matches!(
        derive_descriptors(&cfg, Network::Regtest, 0),
        Err(DeriveError::Mnemonic(_))
    ));
    assert!(matches!(
        derive_address(&cfg, 0, Network::Regtest),
        Err(DeriveError::Mnemonic(_))
    ));
    assert!(matches!(
        TxGenerator::new(cfg),
        Err(SetupError::Derive(DeriveError::Mnemonic(_)))
    ));
}

#[test]
fn an_account_beyond_the_hardened_range_has_no_key() {
    let mut cfg = test_config(TEST_SEED);
    assert!(matches!(
        derive_address(&cfg, 0x8000_0000, Network::Regtest),
        Err(DeriveError::Derivation(_))
    ));
    assert!(derive_address(&cfg, 0x7fff_ffff, Network::Regtest).is_ok());
    assert!(matches!(
        derive_descriptors(&cfg, Network::Regtest, 0x8000_0000),
        Err(DeriveError::Derivation(_))
    ));
    cfg.sender_account_index = 0x8000_0000;
    assert!(matches!(
        derive_descriptors(&cfg, Network::Regtest, 0),
        Err(DeriveError::Derivation(_))
    ));
    assert!(matches!(
        TxGenerator::new(cfg),
        Err(SetupError::Derive(DeriveError::Derivation(_)))
    ));
}

#[test]
fn the_first_mainnet_address_is_that_of_the_standard() {
    let mut cfg = test_config(TEST_SEED);
    cfg.network = NetworkConfig::Bitcoin;
    let address = derive_address(&cfg, 0, Network::Bitcoin).unwrap();
    assert_eq!(address.text, "bc1qcr8te4kr609gcawutmrza0j4xv80jy8z306fyu");
    assert_eq!(address.script_pubkey.len(), 22);
    assert_eq!(address.script_pubkey[0], 0x00);
    assert_eq!(address.script_pubkey[1], 0x14);
}

#[test]
fn descriptors_carry_the_origin_of_their_key() {
    let mut cfg = test_config(TEST_SEED);
    cfg.sender_account_index = 7;
    let (ext, int) = derive_descriptors(&cfg, Network::Regtest, 12).unwrap();
    assert!(ext.starts_with("wpkh([73c5da0a/84'/1'/7']tprv"));
    assert!(ext.ends_with("/0/*)"));
    assert!(int.starts_with("wpkh([73c5da0a/84'/1'/12']tprv"));
    assert!(int.ends_with("/0/*)"));
    let (ext, int) = derive_descriptors(&cfg, Network::Regtest, 7).unwrap();
    assert!(ext.ends_with("/0/*)"));
    assert!(int.starts_with("wpkh([73c5da0a/84'/1'/7']tprv"));
    assert!(int.ends_with("/1/*)"));
    assert_eq!(ext[..ext.len() - 5], int[..int.len() - 5]);
}

#[test]
fn numbers_are_written_in_decimal() {
    assert_eq!(decimal_text(0), "0");
    assert_eq!(decimal_text(9), "9");
    assert_eq!(decimal_text(10), "10");
    assert_eq!(decimal_text(1_234_567_890), "1234567890");
    assert_eq!(decimal_text(u32::MAX), "4294967295");
}

#[test]
fn paths_and_keychains_are_written_in_full() {
    assert_eq!(account_path_text(1, 5), "m/84'/1'/5'");
    assert_eq!(address_path_text(0, 42), "m/84'/0'/42'/0/0");
    assert_eq!(
        keychain_text(&"00112233".to_string(), 1, 3, &"tprvX".to_string(), 1),
        "wpkh([00112233/84'/1'/3']tprvX/1/*)"
    );
}

#[test]
fn without_a_change_account_the_change_goes_to_the_sender() {
    let generator = TxGenerator::new(test_config(TEST_SEED)).ok().unwrap();
    assert_eq!(generator.change_address(), generator.sender_address());
    assert_ne!(generator.change_address(), generator.receiver_address());
}

#[test]
fn a_change_account_has_an_address_of_its_own() {
    let mut cfg = test_config(TEST_SEED);
    cfg.change_account_index = Some(2);
    let generator = TxGenerator::new(cfg.clone()).ok().unwrap();
    assert_eq!(
        *generator.change_address(),
        derive_address(&cfg, 2, Network::Regtest).unwrap()
    );
    assert_ne!(generator.change_address(), generator.sender_address());
    assert_eq!(generator.config().change_account_index, Some(2));
}

#[test]
fn what_else_is_configured_changes_no_key() {
    let plain = TxGenerator::new(test_config(TEST_SEED)).ok().unwrap();
    let mut cfg = test_config(TEST_SEED);
    cfg.interval_secs = 1;
    cfg.mode = Mode::Batch;
    cfg.batch_size = Some(9);
    cfg.amount_sat = 77;
    cfg.fee_rate_sat_per_vb = 3;
    cfg.rpc_port = 1;
    let other = TxGenerator::new(cfg).ok().unwrap();
    assert_eq!(plain.sender_address(), other.sender_address());
    assert_eq!(plain.receiver_address(), other.receiver_address());
    assert_eq!(plain.change_address(), other.change_address());
}

#[test]
fn an_invalid_configuration_makes_no_generator() {
    let mut cfg = test_config(TEST_SEED);
    cfg.amount_sat = 0;
    assert!(matches!(TxGenerator::new(cfg.clone()), Err(SetupError::Config(_))));
    assert!(TxGenerator::with_config(cfg).is_ok());
}
