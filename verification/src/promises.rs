//! What each operation comes to, said of what goes in and what comes out alone.

use crate::config::{
    btc_network_of, coin_type_of, Config, ConfigError, Mode, NetworkConfig,
};
use crate::derivation::{
    account_path, address_path, bip39_seed, keychain, master_fingerprint, p2wpkh_at, xprv_at,
    DeriveError,
};
use crate::generator::{SetupError, TxGenerator};
use crate::scan::{
    low_half_of, scan_requests, scan_utxos, ConfirmedSnapshot, ScanFailed, ScanRequest, ScanResult,
};
use crate::text::{decimal, decimal_text, digit};
use crate::tick::{Action, Stage};
use crate::tx::Transaction;
use crate::types::{Address, AddressView, BlockHash, ConfirmedKey, Txid};
use bdk_wallet::bitcoin::Network;
use std::sync::Arc;
use vstd::prelude::*;

verus! {

// ---------------------------------------------------------------------------------------
// Numbers.
// ---------------------------------------------------------------------------------------

/// A number in decimal ends in its last digit, and what stands before that, if anything, is the
/// number without it.
pub proof fn decimal_ends_in_its_last_digit(n: u32, text: String, rest: String)
    requires
        call_ensures(decimal_text, (n,), text),
        call_ensures(decimal_text, (n / 10,), rest),
    ensures
        text@ == decimal(n as nat),
        n < 10 ==> text@ == seq![(n + 48) as char],
        n >= 10 ==> text@ == rest@.push((n % 10 + 48) as char),
{
    lemma_digit(n as nat % 10);
    if n >= 10 {
        assert(rest@ + seq![(n % 10 + 48) as char] =~= rest@.push((n % 10 + 48) as char));
    }
}

/// A digit is one character.
proof fn lemma_digit(d: nat)
    requires
        d < 10,
    ensures
        digit(d) == seq![(d + 48) as char],
{
    reveal_strlit("0");
    reveal_strlit("1");
    reveal_strlit("2");
    reveal_strlit("3");
    reveal_strlit("4");
    reveal_strlit("5");
    reveal_strlit("6");
    reveal_strlit("7");
    reveal_strlit("8");
    reveal_strlit("9");
    assert(digit(d) =~= seq![(d + 48) as char]);
}

/// Two numbers that are written alike are one.
pub proof fn decimals_tell_numbers_apart(a: u32, b: u32)
    requires
        decimal(a as nat) == decimal(b as nat),
    ensures
        a == b,
    decreases a,
{
    lemma_digit(a as nat % 10);
    lemma_digit(b as nat % 10);
    lemma_decimal_parts(a as nat);
    lemma_decimal_parts(b as nat);
    let text = decimal(a as nat);
    assert(text.last() == (a % 10 + 48) as char);
    assert(text.last() == (b % 10 + 48) as char);
    if a >= 10 && b >= 10 {
        assert(decimal((a / 10) as nat) =~= text.drop_last());
        assert(decimal((b / 10) as nat) =~= text.drop_last());
        decimals_tell_numbers_apart(a / 10, b / 10);
    }
}

/// A number in decimal has one character for its last digit, and at least one before that if it is
/// ten or more.
proof fn lemma_decimal_parts(n: nat)
    ensures
        decimal(n).len() >= 1,
        n < 10 ==> decimal(n) == seq![(n + 48) as char],
        n >= 10 ==> decimal(n) == decimal(n / 10).push((n % 10 + 48) as char),
        n >= 10 ==> decimal(n).len() >= 2,
    decreases n,
{
    lemma_digit(n % 10);
    if n >= 10 {
        lemma_decimal_parts(n / 10);
        let head = decimal(n / 10);
        assert(head + seq![(n % 10 + 48) as char] =~= head.push((n % 10 + 48) as char));
    }
}

// ---------------------------------------------------------------------------------------
// Configuration.
// ---------------------------------------------------------------------------------------

/// A configuration is valid exactly if its interval, amount and fee rate are positive and, in batch
/// mode, it has a batch size that is.
pub proof fn valid_means_positive_throughout(config: Config, checked: Result<(), ConfigError>)
    requires
        call_ensures(Config::validate, (&config,), checked),
    ensures
        checked is Ok <==> config.interval_secs > 0 && config.amount_sat > 0
            && config.fee_rate_sat_per_vb > 0 && (config.mode == Mode::Unit || (
        config.batch_size is Some && config.batch_size->0 > 0)),
{
}

/// The error of a configuration names something that is wrong with it, and nothing that is looked
/// at before that is wrong: the batch size, the interval, the amount and the fee rate, in this
/// order.
pub proof fn first_error_is_reported(config: Config, error: ConfigError)
    requires
        call_ensures(Config::validate, (&config,), Err(error)),
    ensures
        config.mode == Mode::Batch && config.batch_size is None <==> error
            == ConfigError::MissingBatchSize,
        config.mode == Mode::Batch && config.batch_size == Some(0u32) <==> error
            == ConfigError::ZeroBatchSize,
        error == ConfigError::ZeroInterval ==> config.interval_secs == 0,
        error == ConfigError::ZeroAmount ==> config.amount_sat == 0 && config.interval_secs > 0,
        error == ConfigError::ZeroFeeRate ==> config.fee_rate_sat_per_vb == 0 && config.amount_sat
            > 0 && config.interval_secs > 0,
{
}

/// Every error has a text that names what is wrong.
pub proof fn errors_name_what_is_wrong(error: ConfigError, message: String)
    requires
        call_ensures(ConfigError::message, (&error,), message),
    ensures
        error == ConfigError::MissingBatchSize ==> message@
            == "batch_size is required when mode is 'batch'"@,
        error == ConfigError::ZeroBatchSize ==> message@ == "batch_size must be greater than 0"@,
        error == ConfigError::ZeroInterval ==> message@ == "interval_secs must be greater than 0"@,
        error == ConfigError::ZeroAmount ==> message@ == "amount_sat must be greater than 0"@,
        error == ConfigError::ZeroFeeRate ==> message@
            == "fee_rate_sat_per_vb must be greater than 0"@,
{
}

/// A tick attempts one transaction in unit mode, and in batch mode as many as the batch size says.
pub proof fn batch_size_counts_in_batch_mode_only(config: Config, count: u32)
    requires
        call_ensures(Config::batch_count, (&config,), count),
    ensures
        config.mode == Mode::Unit ==> count == 1,
        config.mode == Mode::Batch && config.batch_size is Some ==> count == config.batch_size->0,
        config.mode == Mode::Batch && config.batch_size is None ==> count == 1,
{
}

/// A configured change account is the change account, whatever the sender's, and without one it is
/// the sender's.
pub proof fn configured_change_account_is_taken(config: Config, index: u32)
    requires
        call_ensures(Config::effective_change_account_index, (&config,), index),
    ensures
        config.change_account_index is Some ==> index == config.change_account_index->0,
        config.change_account_index is None ==> index == config.sender_account_index,
{
}

/// The coin type is zero on the main network, and one on every other.
pub proof fn only_the_main_network_has_coin_type_zero(config: Config, coin_type: u32)
    requires
        call_ensures(Config::coin_type, (&config,), coin_type),
    ensures
        coin_type == 0 <==> config.network == NetworkConfig::Bitcoin,
        coin_type <= 1,
{
}

/// The network is the configured one.
pub proof fn network_is_the_configured_one(config: Config, network: Network)
    requires
        call_ensures(Config::btc_network, (&config,), network),
    ensures
        network == Network::Bitcoin <==> config.network == NetworkConfig::Bitcoin,
        network == Network::Testnet <==> config.network == NetworkConfig::Testnet,
        network == Network::Regtest <==> config.network == NetworkConfig::Regtest,
        network == Network::Signet <==> config.network == NetworkConfig::Signet,
{
}

/// The node is reached under its host and its port.
pub proof fn node_is_reached_at_host_and_port(config: Config, url: String)
    requires
        call_ensures(Config::rpc_url, (&config,), url),
    ensures
        url@ == config.rpc_address@.push(':') + decimal(config.rpc_port as nat),
{
    reveal_strlit(":");
    assert(config.rpc_address@ + ":"@ =~= config.rpc_address@.push(':'));
}

// ---------------------------------------------------------------------------------------
// Keys and addresses.
// ---------------------------------------------------------------------------------------

/// The network of the `bitcoin` crate that goes by the name of a configured one.
pub open spec fn named(network: NetworkConfig) -> Network {
    match network {
        NetworkConfig::Bitcoin => Network::Bitcoin,
        NetworkConfig::Testnet => Network::Testnet,
        NetworkConfig::Regtest => Network::Regtest,
        NetworkConfig::Signet => Network::Signet,
    }
}

/// The steps of a path between the purpose and the branch: the coin and the account.
pub open spec fn coin_and_account(network: NetworkConfig, account: u32) -> Seq<char> {
    if network == NetworkConfig::Bitcoin {
        "/84'/0'/"@ + decimal(account as nat) + "'"@
    } else {
        "/84'/1'/"@ + decimal(account as nat) + "'"@
    }
}

/// The key of an account, if the seed has it.
pub open spec fn key_of(config: Config, account: u32) -> Option<Seq<char>> {
    xprv_at(
        named(config.network),
        bip39_seed(config.seed_phrase@)->0,
        "m"@ + coin_and_account(config.network, account),
    )
}

/// The first address of an account, if the seed has it.
pub open spec fn first_address_of(config: Config, account: u32) -> Option<AddressView> {
    p2wpkh_at(
        named(config.network),
        bip39_seed(config.seed_phrase@)->0,
        "m"@ + coin_and_account(config.network, account) + "/0/0"@,
    )
}

/// A descriptor of a key, with its origin in front and an end behind.
pub open spec fn descriptor_of(config: Config, account: u32, end: Seq<char>) -> Seq<char> {
    "wpkh(["@ + master_fingerprint(
        named(config.network),
        bip39_seed(config.seed_phrase@)->0,
    )->0 + coin_and_account(config.network, account) + "]"@ + key_of(config, account)->0 + end
}

/// The paths and the descriptors that keys are derived with are spelled out in full.
proof fn lemma_spelled(config: Config, account: u32)
    ensures
        account_path(coin_type_of(config.network), account) == "m"@ + coin_and_account(
            config.network,
            account,
        ),
        address_path(coin_type_of(config.network), account) == "m"@ + coin_and_account(
            config.network,
            account,
        ) + "/0/0"@,
        btc_network_of(config.network) == named(config.network),
        keychain(
            master_fingerprint(named(config.network), bip39_seed(config.seed_phrase@)->0)->0,
            coin_type_of(config.network),
            account,
            key_of(config, account)->0,
            0,
        ) == descriptor_of(config, account, "/0/*)"@),
        keychain(
            master_fingerprint(named(config.network), bip39_seed(config.seed_phrase@)->0)->0,
            coin_type_of(config.network),
            account,
            key_of(config, account)->0,
            1,
        ) == descriptor_of(config, account, "/1/*)"@),
{
    let coin_type = coin_type_of(config.network);
    let fingerprint = master_fingerprint(
        named(config.network),
        bip39_seed(config.seed_phrase@)->0,
    )->0;
    let xprv = key_of(config, account)->0;
    lemma_decimal_parts(coin_type as nat);
    lemma_decimal_parts(0);
    lemma_decimal_parts(1);
    reveal_strlit("m");
    reveal_strlit("m/84'/");
    reveal_strlit("'/");
    reveal_strlit("'");
    reveal_strlit("/84'/0'/");
    reveal_strlit("/84'/1'/");
    reveal_strlit("/84'/");
    reveal_strlit("']");
    reveal_strlit("]");
    reveal_strlit("/");
    reveal_strlit("/*)");
    reveal_strlit("/0/*)");
    reveal_strlit("/1/*)");
    let both = coin_and_account(config.network, account);
    assert("/84'/"@ + decimal(coin_type as nat) + "'/"@ =~= if coin_type == 0 {
        "/84'/0'/"@
    } else {
        "/84'/1'/"@
    });
    assert(account_path(coin_type, account) =~= "m"@ + both);
    assert("/"@ + decimal(0) + "/*)"@ =~= "/0/*)"@);
    assert("/"@ + decimal(1) + "/*)"@ =~= "/1/*)"@);
    assert(keychain(fingerprint, coin_type, account, xprv, 0) =~= descriptor_of(
        config,
        account,
        "/0/*)"@,
    ));
    assert(keychain(fingerprint, coin_type, account, xprv, 1) =~= descriptor_of(
        config,
        account,
        "/1/*)"@,
    ));
}

/// The addresses of a generator are the first ones of its accounts on the configured network: the
/// sender's, the receiver's, and for the change that of the change account, which is the sender's
/// unless another is configured.
pub proof fn addresses_are_the_first_of_their_accounts(
    config: Config,
    generator: TxGenerator,
    sender: &Address,
    receiver: &Address,
    change: &Address,
    shown: &Config,
)
    requires
        call_ensures(TxGenerator::with_config, (config,), Ok(generator)),
        call_ensures(TxGenerator::config, (&generator,), shown),
        call_ensures(TxGenerator::sender_address, (&generator,), sender),
        call_ensures(TxGenerator::receiver_address, (&generator,), receiver),
        call_ensures(TxGenerator::change_address, (&generator,), change),
    ensures
        *shown == config,
        generator.sender() == *sender,
        generator.receiver() == *receiver,
        generator.change() == *change,
        first_address_of(config, config.sender_account_index) == Some(sender@),
        first_address_of(config, config.receiver_account_index) == Some(receiver@),
        config.change_account_index is Some ==> first_address_of(
            config,
            config.change_account_index->0,
        ) == Some(change@),
        config.change_account_index is None ==> change@ == sender@,
{
    lemma_spelled(config, config.sender_account_index);
    lemma_spelled(config, config.receiver_account_index);
    match config.change_account_index {
        Some(index) => lemma_spelled(config, index),
        None => {},
    }
}

/// The same holds of a generator in whatever state, by its own configuration.
pub proof fn addresses_stay_the_first_of_their_accounts(generator: TxGenerator)
    requires
        generator.wf(),
    ensures
        ({
            let config = generator.settings();
            &&& first_address_of(config, config.sender_account_index) == Some(generator.sender()@)
            &&& first_address_of(config, config.receiver_account_index) == Some(
                generator.receiver()@,
            )
            &&& config.change_account_index is Some ==> first_address_of(
                config,
                config.change_account_index->0,
            ) == Some(generator.change()@)
            &&& config.change_account_index is None ==> generator.change()@ == generator.sender()@
        }),
{
    let config = generator.settings();
    lemma_spelled(config, config.sender_account_index);
    lemma_spelled(config, config.receiver_account_index);
    match config.change_account_index {
        Some(index) => lemma_spelled(config, index),
        None => {},
    }
}

/// The wallet's receive keychain is the first branch of the sender's account. Its change keychain
/// is the first branch of the configured change account. Without one, or where that is the
/// sender's, it is the second branch of the sender's.
pub proof fn keychains_are_of_the_sender_and_the_change_account(generator: TxGenerator)
    requires
        generator.wf(),
    ensures
        ({
            let config = generator.settings();
            let sender = config.sender_account_index;
            &&& bip39_seed(config.seed_phrase@) is Some
            &&& master_fingerprint(
                named(config.network),
                bip39_seed(config.seed_phrase@)->0,
            ) is Some
            &&& key_of(config, sender) is Some
            &&& generator.external() == descriptor_of(config, sender, "/0/*)"@)
            &&& config.change_account_index is None ==> generator.internal() == descriptor_of(
                config,
                sender,
                "/1/*)"@,
            )
            &&& config.change_account_index == Some(sender) ==> generator.internal()
                == descriptor_of(config, sender, "/1/*)"@)
            &&& config.change_account_index matches Some(index) ==> index != sender ==> key_of(
                config,
                index,
            ) is Some && generator.internal() == descriptor_of(config, index, "/0/*)"@)
        }),
{
    let config = generator.settings();
    lemma_spelled(config, config.sender_account_index);
    match config.change_account_index {
        Some(index) => lemma_spelled(config, index),
        None => {},
    }
}

/// Whether the seed of a configuration has all that an account needs.
pub open spec fn has_account(config: Config, account: u32) -> bool {
    key_of(config, account) is Some && first_address_of(config, account) is Some
}

/// A generator can be had exactly if the phrase is a mnemonic whose seed has a master key, keys for
/// the sender and for the change, and an address for each of the accounts.
pub proof fn generator_needs_its_keys_and_no_more(
    config: Config,
    made: Result<TxGenerator, DeriveError>,
)
    requires
        call_ensures(TxGenerator::with_config, (config,), made),
    ensures
        made is Ok <==> {
            let change = if config.change_account_index is Some {
                config.change_account_index->0
            } else {
                config.sender_account_index
            };
            &&& bip39_seed(config.seed_phrase@) is Some
            &&& master_fingerprint(
                named(config.network),
                bip39_seed(config.seed_phrase@)->0,
            ) is Some
            &&& has_account(config, config.sender_account_index)
            &&& has_account(config, change)
            &&& first_address_of(config, config.receiver_account_index) is Some
        },
        made matches Err(DeriveError::Mnemonic(_)) <==> bip39_seed(config.seed_phrase@) is None,
        made matches Ok(generator) ==> generator.settings() == config
            && generator.remembered()@.scan_tip is None && generator.remembered()@.block_hashes
            == Map::<u32, BlockHash>::empty() && generator.remembered()@.confirmed_txs == Map::<
            ConfirmedKey,
            Arc<Transaction>,
        >::empty() && generator.remembered()@.mempool_txs == Map::<Txid, Arc<Transaction>>::empty(),
{
    lemma_spelled(config, config.sender_account_index);
    lemma_spelled(config, config.receiver_account_index);
    match config.change_account_index {
        Some(index) => lemma_spelled(config, index),
        None => {},
    }
}

/// No generator has an account whose index does not fit in thirty-one bits.
pub proof fn accounts_stay_below_the_hardened_range(
    config: Config,
    made: Result<TxGenerator, DeriveError>,
)
    requires
        call_ensures(TxGenerator::with_config, (config,), made),
        config.sender_account_index >= 0x8000_0000 || config.receiver_account_index >= 0x8000_0000
            || (config.change_account_index is Some && config.change_account_index->0
            >= 0x8000_0000),
    ensures
        made is Err,
{
}

/// A configuration that is not valid makes no generator, whatever its keys, and a valid one makes
/// the generator that it makes unchecked.
pub proof fn invalid_configurations_make_no_generator(
    config: Config,
    made: Result<TxGenerator, SetupError>,
)
    requires
        call_ensures(TxGenerator::new, (config,), made),
    ensures
        made matches Err(SetupError::Config(_)) <==> config.interval_secs == 0 || config.amount_sat
            == 0 || config.fee_rate_sat_per_vb == 0 || (config.mode == Mode::Batch && (
        config.batch_size is None || config.batch_size->0 == 0)),
        made matches Ok(generator) ==> generator.wf() && generator.settings() == config
            && generator.remembered()@.scan_tip is None && generator.remembered()@.block_hashes
            == Map::<u32, BlockHash>::empty() && generator.remembered()@.confirmed_txs == Map::<
            ConfirmedKey,
            Arc<Transaction>,
        >::empty() && generator.remembered()@.mempool_txs == Map::<Txid, Arc<Transaction>>::empty(),
        made matches Err(SetupError::Derive(DeriveError::Mnemonic(_))) ==> bip39_seed(
            config.seed_phrase@,
        ) is None,
{
}

// ---------------------------------------------------------------------------------------
// Scans.
// ---------------------------------------------------------------------------------------

/// A height that thirty-two bits hold is kept, and of any other the low half is.
pub proof fn heights_are_kept(height: u64, low: u32)
    requires
        call_ensures(low_half_of, (height,), low),
    ensures
        height <= u32::MAX ==> low == height,
        (height - low) % 0x1_0000_0000 == 0,
{
}

/// A scan is of two descriptors, over the indices from zero to a thousand.
pub proof fn scan_names_both_descriptors(
    external: String,
    internal: String,
    requests: Vec<ScanRequest>,
)
    requires
        call_ensures(scan_requests, (&external, &internal), requests),
    ensures
        requests@.len() == 2,
        requests@[0].descriptor@ == external@,
        requests@[0].first == 0,
        requests@[0].last == 1000,
        requests@[1].descriptor@ == internal@,
        requests@[1].first == 0,
        requests@[1].last == 1000,
{
}

/// A tick begins with a scan of both keychains, over a thousand and one addresses each.
pub proof fn scan_covers_both_keychains(
    generator: TxGenerator,
    begun: (Stage, Action),
)
    requires
        call_ensures(TxGenerator::start_tick, (&generator,), begun),
    ensures
        begun.0 is Scanning,
        begun.1 matches Action::Scan(requests) && requests@.len() == 2
            && requests@[0].descriptor@ == generator.external() && requests@[0].first == 0
            && requests@[0].last == 1000 && requests@[1].descriptor@ == generator.internal()
            && requests@[1].first == 0 && requests@[1].last == 1000,
{
}

/// A scan is taken as it is, unless the node says that it failed: the outputs in their order, and
/// the tip, for whose height and hash zero stands where the node names none.
pub proof fn scan_is_taken_as_it_is(
    result: ScanResult,
    taken: Result<ConfirmedSnapshot, ScanFailed>,
)
    requires
        call_ensures(scan_utxos, (result,), taken),
    ensures
        taken is Err <==> result.success == Some(false),
        taken matches Ok(snapshot) ==> {
            &&& snapshot.utxos@ == result.unspents@
            &&& result.height is None ==> snapshot.tip.height == 0
            &&& result.height matches Some(height) ==> height <= u32::MAX ==> snapshot.tip.height
                == height
            &&& result.best_block_hash is Some ==> snapshot.tip.hash == result.best_block_hash->0
            &&& result.best_block_hash is None ==> forall|i: int|
                0 <= i < 32 ==> snapshot.tip.hash.bytes@[i] == 0
        },
{
}

} // verus!
