use bdk_wallet::bitcoin::Network;
use sv2_tx_generator::{Config, ConfigError, Mode, NetworkConfig};

fn base_config() -> Config {
    Config {
        interval_secs: 30,
        mode: Mode::Unit,
        batch_size: None,
        seed_phrase: "abandon abandon abandon abandon abandon abandon abandon abandon abandon abandon abandon about".into(),
        sender_account_index: 0,
        receiver_account_index: 1,
        change_account_index: None,
        amount_sat: 1000,
        fee_rate_sat_per_vb: 5,
        network: NetworkConfig::Regtest,
        rpc_address: "127.0.0.1".into(),
        rpc_port: 18443,
        rpc_username: "user".into(),
        rpc_password: "pass".into(),
    }
}

#[test]
fn unit_mode_always_has_batch_count_one() {
    let cfg = base_config();
    assert_eq!(cfg.batch_count(), 1);
}

#[test]
fn unit_mode_ignores_batch_size() {
    let mut cfg = base_config();
    cfg.mode = Mode::Unit;
    cfg.batch_size = Some(10);
    assert_eq!(cfg.batch_count(), 1);
}

#[test]
fn batch_mode_uses_configured_batch_size() {
    let mut cfg = base_config();
    cfg.mode = Mode::Batch;
    cfg.batch_size = Some(5);
    assert_eq!(cfg.batch_count(), 5);
}

#[test]
fn batch_mode_without_size_is_rejected() {
    let mut cfg = base_config();
    cfg.mode = Mode::Batch;
    cfg.batch_size = None;
    assert!(cfg.validate().is_err());
}

#[test]
fn zero_interval_is_rejected() {
    let mut cfg = base_config();
    cfg.interval_secs = 0;
    assert!(cfg.validate().is_err());
}

#[test]
fn zero_amount_is_rejected() {
    let mut cfg = base_config();
    cfg.amount_sat = 0;
    assert!(cfg.validate().is_err());
}

#[test]
fn zero_fee_rate_is_rejected() {
    let mut cfg = base_config();
    cfg.fee_rate_sat_per_vb = 0;
    assert!(cfg.validate().is_err());
}

#[test]
fn unit_mode_validates_successfully() {
    let cfg = base_config();
    assert!(cfg.validate().is_ok());
}

#[test]
fn missing_change_account_defaults_to_sender() {
    let cfg = base_config();
    assert_eq!(
        cfg.effective_change_account_index(),
        cfg.sender_account_index
    );
}

#[test]
fn explicit_change_account_is_used() {
    let mut cfg = base_config();
    cfg.change_account_index = Some(7);
    assert_eq!(cfg.effective_change_account_index(), 7);
}

#[test]
fn coin_type_zero_for_mainnet_only() {
    let mut cfg = base_config();
    cfg.network = NetworkConfig::Bitcoin;
    assert_eq!(cfg.coin_type(), 0);
    for net in [
        NetworkConfig::Testnet,
        NetworkConfig::Regtest,
        NetworkConfig::Signet,
    ] {
        let mut c = base_config();
        c.network = net;
        assert_eq!(c.coin_type(), 1, "coin_type should be 1 for {:?}", net);
    }
}

#[test]
fn batch_size_zero_is_rejected() {
    let mut cfg = base_config();
    cfg.mode = Mode::Batch;
    cfg.batch_size = Some(0);
    assert!(cfg.validate().is_err());
}

#[test]
fn batch_size_one_is_valid() {
    let mut cfg = base_config();
    cfg.mode = Mode::Batch;
    cfg.batch_size = Some(1);
    assert!(cfg.validate().is_ok());
}

#[test]
fn each_rejection_names_its_reason() {
    let mut cfg = base_config();
    cfg.mode = Mode::Batch;
    assert_eq!(cfg.validate(), Err(ConfigError::MissingBatchSize));
    cfg.batch_size = Some(0);
    assert_eq!(cfg.validate(), Err(ConfigError::ZeroBatchSize));
    cfg.batch_size = Some(3);
    cfg.interval_secs = 0;
    assert_eq!(cfg.validate(), Err(ConfigError::ZeroInterval));
    cfg.interval_secs = 1;
    cfg.amount_sat = 0;
    assert_eq!(cfg.validate(), Err(ConfigError::ZeroAmount));
    cfg.amount_sat = 1;
    cfg.fee_rate_sat_per_vb = 0;
    assert_eq!(cfg.validate(), Err(ConfigError::ZeroFeeRate));
    cfg.fee_rate_sat_per_vb = 1;
    assert_eq!(cfg.validate(), Ok(()));
}

#[test]
fn the_batch_size_is_looked_at_before_the_rest() {
    let mut cfg = base_config();
    cfg.mode = Mode::Batch;
    cfg.interval_secs = 0;
    cfg.amount_sat = 0;
    assert_eq!(cfg.validate(), Err(ConfigError::MissingBatchSize));
    cfg.mode = Mode::Unit;
    assert_eq!(cfg.validate(), Err(ConfigError::ZeroInterval));
}

#[test]
fn rejections_have_texts() {
    let texts = [
        (
            ConfigError::MissingBatchSize,
            "batch_size is required when mode is 'batch'",
        ),
        (
            ConfigError::ZeroBatchSize,
            "batch_size must be greater than 0",
        ),
        (
            ConfigError::ZeroInterval,
            "interval_secs must be greater than 0",
        ),
        (ConfigError::ZeroAmount, "amount_sat must be greater than 0"),
        (
            ConfigError::ZeroFeeRate,
            "fee_rate_sat_per_vb must be greater than 0",
        ),
    ];
    for (error, text) in texts {
        assert_eq!(error.message(), text);
    }
}

#[test]
fn networks_map_one_to_one() {
    let mut cfg = base_config();
    assert_eq!(cfg.btc_network(), Network::Regtest);
    cfg.network = NetworkConfig::Bitcoin;
    assert_eq!(cfg.btc_network(), Network::Bitcoin);
    cfg.network = NetworkConfig::Testnet;
    assert_eq!(cfg.btc_network(), Network::Testnet);
    cfg.network = NetworkConfig::Signet;
    assert_eq!(cfg.btc_network(), Network::Signet);
}

#[test]
fn the_node_is_found_by_host_and_port() {
    let mut cfg = base_config();
    cfg.rpc_address = "http://node.example".into();
    cfg.rpc_port = 8332;
    assert_eq!(cfg.rpc_url(), "http://node.example:8332");
    cfg.rpc_port = 0;
    assert_eq!(cfg.rpc_url(), "http://node.example:0");
}
