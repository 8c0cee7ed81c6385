//! Configuration of the generator.

use crate::text::{decimal, decimal_text};
use bdk_wallet::bitcoin::Network;
use vstd::prelude::*;

verus! {

/// The networks that the `bitcoin` crate knows. The declaration lists its variants as they
/// are; nothing is claimed of any function of it.
#[verifier::external_type_specification]
pub struct ExNetwork(bdk_wallet::bitcoin::Network);

/// Top-level configuration of the transaction generator.
#[derive(Debug, Clone)]
pub struct Config {
    /// Interval between transaction batches, in seconds.
    pub interval_secs: u64,
    /// One transaction per tick, or a batch of them.
    pub mode: Mode,
    /// Number of transactions per batch. Required in batch mode, ignored in unit mode.
    pub batch_size: Option<u32>,
    /// BIP39 mnemonic from which every key is derived.
    pub seed_phrase: String,
    /// BIP84 account index of the sending wallet.
    pub sender_account_index: u32,
    /// BIP84 account index of the receiving address.
    pub receiver_account_index: u32,
    /// BIP84 account index of the fixed change address; the sender's account when omitted.
    pub change_account_index: Option<u32>,
    /// Amount to send per transaction, in satoshis.
    pub amount_sat: u64,
    /// Fee rate of each transaction, in satoshis per virtual byte.
    pub fee_rate_sat_per_vb: u64,
    /// Bitcoin network to use.
    pub network: NetworkConfig,
    /// Bitcoin Core RPC hostname or IP address.
    pub rpc_address: String,
    /// Bitcoin Core RPC port.
    pub rpc_port: u16,
    /// Bitcoin Core RPC username.
    pub rpc_username: String,
    /// Bitcoin Core RPC password.
    pub rpc_password: String,
}

/// Transaction generation mode.
#[derive(Debug, Clone, Copy, PartialEq, Eq, Structural)]
pub enum Mode {
    /// One transaction per interval tick.
    Unit,
    /// A batch of `batch_size` transactions per interval tick.
    Batch,
}

/// Supported Bitcoin networks.
#[derive(Debug, Clone, Copy, PartialEq, Eq, Structural)]
pub enum NetworkConfig {
    /// Mainnet (BIP44 coin type 0).
    Bitcoin,
    /// Testnet3 (BIP44 coin type 1).
    Testnet,
    /// Regtest (BIP44 coin type 1).
    Regtest,
    /// Signet (BIP44 coin type 1).
    Signet,
}

/// Why a configuration is rejected.
#[derive(Debug, Clone, Copy, PartialEq, Eq, Structural)]
pub enum ConfigError {
    /// Batch mode without a batch size.
    MissingBatchSize,
    /// Batch mode with a batch size of zero.
    ZeroBatchSize,
    /// An interval of zero seconds.
    ZeroInterval,
    /// An amount of zero satoshis.
    ZeroAmount,
    /// A fee rate of zero.
    ZeroFeeRate,
}

impl ConfigError {
    /// The text of the error.
    pub open spec fn text(self) -> Seq<char> {
        match self {
            ConfigError::MissingBatchSize => "batch_size is required when mode is 'batch'"@,
            ConfigError::ZeroBatchSize => "batch_size must be greater than 0"@,
            ConfigError::ZeroInterval => "interval_secs must be greater than 0"@,
            ConfigError::ZeroAmount => "amount_sat must be greater than 0"@,
            ConfigError::ZeroFeeRate => "fee_rate_sat_per_vb must be greater than 0"@,
        }
    }

    /// Describes the error to a user.
    pub fn message(&self) -> (message: String)
        ensures
            message@ == self.text(),
    {
        let text: &str = match self {
            ConfigError::MissingBatchSize => "batch_size is required when mode is 'batch'",
            ConfigError::ZeroBatchSize => "batch_size must be greater than 0",
            ConfigError::ZeroInterval => "interval_secs must be greater than 0",
            ConfigError::ZeroAmount => "amount_sat must be greater than 0",
            ConfigError::ZeroFeeRate => "fee_rate_sat_per_vb must be greater than 0",
        };
        text.to_owned()
    }
}

/// The first thing that is wrong with a configuration, if anything is: the batch size is
/// looked at first, then the interval, the amount and the fee rate.
pub open spec fn first_error(config: Config) -> Option<ConfigError> {
    if config.mode == Mode::Batch && config.batch_size is None {
        Some(ConfigError::MissingBatchSize)
    } else if config.mode == Mode::Batch && config.batch_size == Some(0u32) {
        Some(ConfigError::ZeroBatchSize)
    } else if config.interval_secs == 0 {
        Some(ConfigError::ZeroInterval)
    } else if config.amount_sat == 0 {
        Some(ConfigError::ZeroAmount)
    } else if config.fee_rate_sat_per_vb == 0 {
        Some(ConfigError::ZeroFeeRate)
    } else {
        None
    }
}

/// How many transactions a tick attempts.
pub open spec fn batch_count_of(config: Config) -> u32 {
    match (config.mode, config.batch_size) {
        (Mode::Batch, Some(size)) => size,
        _ => 1,
    }
}

/// The BIP44 coin type of a network.
pub open spec fn coin_type_of(network: NetworkConfig) -> u32 {
    if network == NetworkConfig::Bitcoin {
        0
    } else {
        1
    }
}

/// The account whose first address takes the change.
pub open spec fn change_account_of(config: Config) -> u32 {
    match config.change_account_index {
        Some(index) => index,
        None => config.sender_account_index,
    }
}

/// The network of the `bitcoin` crate that a configured network stands for.
pub open spec fn btc_network_of(network: NetworkConfig) -> Network {
    match network {
        NetworkConfig::Bitcoin => Network::Bitcoin,
        NetworkConfig::Testnet => Network::Testnet,
        NetworkConfig::Regtest => Network::Regtest,
        NetworkConfig::Signet => Network::Signet,
    }
}

/// Where the node listens: its host and port.
pub open spec fn rpc_url_of(config: Config) -> Seq<char> {
    config.rpc_address@ + ":"@ + decimal(config.rpc_port as nat)
}

impl Config {
    /// Validates the configuration: a batch size is present and positive in batch mode, and
    /// the interval, the amount and the fee rate are positive.
    pub fn validate(&self) -> (checked: Result<(), ConfigError>)
        ensures
            match checked {
                Ok(()) => first_error(*self) is None,
                Err(error) => first_error(*self) == Some(error),
            },
    {
        if let Mode::Batch = self.mode {
            match self.batch_size {
                None => return Err(ConfigError::MissingBatchSize),
                Some(size) => {
                    if size == 0 {
                        return Err(ConfigError::ZeroBatchSize);
                    }
                },
            }
        }
        if self.interval_secs == 0 {
            return Err(ConfigError::ZeroInterval);
        }
        if self.amount_sat == 0 {
            return Err(ConfigError::ZeroAmount);
        }
        if self.fee_rate_sat_per_vb == 0 {
            return Err(ConfigError::ZeroFeeRate);
        }
        Ok(())
    }

    /// The number of transactions to create per interval tick: one in unit mode, `batch_size`
    /// in batch mode.
    pub fn batch_count(&self) -> (count: u32)
        ensures
            count == batch_count_of(*self),
    {
        match self.mode {
            Mode::Unit => 1,
            Mode::Batch => match self.batch_size {
                Some(size) => size,
                None => 1,
            },
        }
    }

    /// BIP44 coin type of the configured network: 0 on mainnet, 1 elsewhere.
    pub fn coin_type(&self) -> (coin_type: u32)
        ensures
            coin_type == coin_type_of(self.network),
    {
        match self.network {
            NetworkConfig::Bitcoin => 0,
            _ => 1,
        }
    }

    /// The change account: the configured one, or else the sender's.
    pub fn effective_change_account_index(&self) -> (index: u32)
        ensures
            index == change_account_of(*self),
    {
        match self.change_account_index {
            Some(index) => index,
            None => self.sender_account_index,
        }
    }

    /// The configured network as the `bitcoin` crate names it.
    pub fn btc_network(&self) -> (network: Network)
        ensures
            network == btc_network_of(self.network),
    {
        match self.network {
            NetworkConfig::Bitcoin => Network::Bitcoin,
            NetworkConfig::Testnet => Network::Testnet,
            NetworkConfig::Regtest => Network::Regtest,
            NetworkConfig::Signet => Network::Signet,
        }
    }

    /// Where the node listens: its host and port.
    pub fn rpc_url(&self) -> (url: String)
        ensures
            url@ == rpc_url_of(*self),
    {
        let mut url: String = self.rpc_address.clone();
        url.append(":");
        url.append(decimal_text(self.rpc_port as u32).as_str());
        url
    }
}

/// A configuration that passes validation asks for at least one transaction per tick, and in
/// unit mode for exactly one, whatever its batch size. In batch mode it asks for its batch size.
pub proof fn validated_batch_is_never_empty(config: Config)
    ensures
        first_error(config) is None ==> batch_count_of(config) >= 1,
        config.mode == Mode::Unit ==> batch_count_of(config) == 1,
        first_error(config) is None && config.mode == Mode::Batch ==> config.batch_size == Some(
            batch_count_of(config),
        ),
{
}

/// A configuration without a change account sends its change to the sender's account.
pub proof fn omitted_change_account_is_the_senders(config: Config)
    ensures
        config.change_account_index is None ==> change_account_of(config)
            == config.sender_account_index,
{
}

} // verus!
