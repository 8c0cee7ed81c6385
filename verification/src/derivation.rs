//! How descriptors and addresses follow from the seed phrase.
//!
//! Every key stands on a BIP84 path, `m/84'/coin'/account'`, below the master key of the seed.
//! The cryptography is that of the `bip39` and `bitcoin` crates; which paths are taken and what
//! the descriptors look like is decided here.

use crate::bdk::{has_keys, is_p2wpkh, Keychain};
use crate::config::{coin_type_of, Config};
use crate::text::{decimal, decimal_text, lemma_index_len};
use crate::types::{Address, AddressView};
use bdk_wallet::bip39;
use bdk_wallet::bitcoin::bip32::{self, DerivationPath, Xpriv};
use bdk_wallet::bitcoin::secp256k1::Secp256k1;
use bdk_wallet::bitcoin::{CompressedPublicKey, Network};
use std::str::FromStr;
use vstd::prelude::*;

verus! {

/// An error of the `bip39` crate, carried as it came.
#[verifier::external_type_specification]
#[verifier::external_body]
pub struct ExBip39Error(bdk_wallet::bip39::Error);

/// An error of BIP32 derivation, carried as it came.
#[verifier::external_type_specification]
#[verifier::external_body]
pub struct ExBip32Error(bdk_wallet::bitcoin::bip32::Error);

/// Why keys cannot be derived.
#[derive(Debug)]
pub enum DeriveError {
    /// The seed phrase is no BIP39 mnemonic.
    Mnemonic(bip39::Error),
    /// The path leads to no key.
    Derivation(bip32::Error),
}

// ---------------------------------------------------------------------------------------
// Calls into the outside crates.
// ---------------------------------------------------------------------------------------

/// The seed of a BIP39 mnemonic without a passphrase, or nothing where the phrase is none.
pub uninterp spec fn bip39_seed(phrase: Seq<char>) -> Option<Seq<u8>>;

/// The fingerprint of the master key of a seed, in hexadecimal, if the seed has a master key.
pub uninterp spec fn master_fingerprint(network: Network, seed: Seq<u8>) -> Option<Seq<char>>;

/// The extended private key at a path below the master key of a seed, in its Base58 text, or
/// nothing where the path leads to no key.
pub uninterp spec fn xprv_at(network: Network, seed: Seq<u8>, path: Seq<char>) -> Option<
    Seq<char>,
>;

/// The P2WPKH address of the key at a path below the master key of a seed, or nothing where the
/// path leads to no key.
pub uninterp spec fn p2wpkh_at(network: Network, seed: Seq<u8>, path: Seq<char>) -> Option<
    AddressView,
>;

/// The depth of the extended private key that a text is the Base58 form of, or nothing where it is
/// that of none.
pub uninterp spec fn xprv_depth(xprv: Seq<char>) -> Option<nat>;

/// The P2WPKH script of the child of an extended private key at a branch and an index.
pub uninterp spec fn child_script(xprv: Seq<char>, branch: u32, index: u32) -> Seq<u8>;

/// Indices from here on are hardened ones in BIP32, and no account has them.
pub const HARDENED_FROM: u32 = 0x8000_0000;

/// The greatest depth of a key that keychains are made of. BIP32 counts the depth in one byte, and
/// a keychain takes two steps more.
pub const DEPTH_LIMIT: u8 = 253;

/// The longest path that is handed to derivation. BIP32 counts the depth of a key in one byte.
pub const PATH_LIMIT: usize = 64;

/// `bip39::Mnemonic::from_str` and `Mnemonic::to_seed` with an empty passphrase: the seed is a
/// function of the phrase, and there is an error exactly where the phrase has none.
#[verifier::external_body]
fn mnemonic_seed(phrase: &String) -> (seed: Result<Vec<u8>, bip39::Error>)
    ensures
        match seed {
            Ok(seed) => bip39_seed(phrase@) == Some(seed@),
            Err(_) => bip39_seed(phrase@) is None,
        },
{
    let mnemonic = bip39::Mnemonic::from_str(phrase)?;
    Ok(mnemonic.to_seed("").to_vec())
}

/// `Xpriv::new_master` and `Xpriv::fingerprint`: a function of the network and the seed, with an
/// error exactly where the seed has no master key.
#[verifier::external_body]
fn fingerprint_of(network: Network, seed: &Vec<u8>) -> (fingerprint: Result<String, bip32::Error>)
    ensures
        match fingerprint {
            Ok(fingerprint) => master_fingerprint(network, seed@) == Some(fingerprint@),
            Err(_) => master_fingerprint(network, seed@) is None,
        },
{
    let master = Xpriv::new_master(network, seed)?;
    Ok(master.fingerprint(&Secp256k1::new()).to_string())
}

/// `DerivationPath::from_str` and `Xpriv::derive_priv` below `Xpriv::new_master`: a function of
/// the network, the seed and the path, with an error exactly where there is no such key. An account
/// whose index is that of a hardened one has none. The key of an account has depth three.
#[verifier::external_body]
fn derive_xprv(network: Network, seed: &Vec<u8>, path: &String) -> (xprv: Result<
    String,
    bip32::Error,
>)
    requires
        path@.len() <= PATH_LIMIT,
    ensures
        match xprv {
            Ok(xprv) => xprv_at(network, seed@, path@) == Some(xprv@),
            Err(_) => xprv_at(network, seed@, path@) is None,
        },
        forall|coin_type: u32, account: u32|
            path@ == #[trigger] account_path(coin_type, account) && account >= HARDENED_FROM
                ==> xprv is Err,
        forall|coin_type: u32, account: u32|
            path@ == #[trigger] account_path(coin_type, account) && xprv is Ok ==> xprv_depth(
                xprv->Ok_0@,
            ) == Some(3nat),
{
    let master = Xpriv::new_master(network, seed)?;
    let path = DerivationPath::from_str(path)?;
    Ok(master.derive_priv(&Secp256k1::new(), &path)?.to_string())
}

/// `Xpriv::derive_priv` below `Xpriv::new_master`, `SecretKey::public_key` and
/// `Address::p2wpkh`: a function of the network, the seed and the path, with an error exactly
/// where there is no such key. An account whose index is that of a hardened one has none. The
/// script is a version zero witness program of twenty bytes, and at the end of a path it is that
/// of the child of the key before.
#[verifier::external_body]
fn derive_p2wpkh(network: Network, seed: &Vec<u8>, path: &String) -> (address: Result<
    Address,
    bip32::Error,
>)
    requires
        path@.len() <= PATH_LIMIT,
    ensures
        match address {
            Ok(address) => p2wpkh_at(network, seed@, path@) == Some(address@) && is_p2wpkh(
                address.script_pubkey@,
            ),
            Err(_) => p2wpkh_at(network, seed@, path@) is None,
        },
        forall|coin_type: u32, account: u32|
            path@ == #[trigger] address_path(coin_type, account) && account >= HARDENED_FROM
                ==> address is Err,
        forall|before: Seq<char>|
            address is Ok && path@ == before + "/0/0"@ && (#[trigger] xprv_at(
                network,
                seed@,
                before,
            )) is Some ==> address->Ok_0.script_pubkey@ == child_script(
                xprv_at(network, seed@, before)->0,
                0,
                0,
            ),
{
    let secp = Secp256k1::new();
    let path = DerivationPath::from_str(path)?;
    let xprv = Xpriv::new_master(network, seed)?.derive_priv(&secp, &path)?;
    let key = CompressedPublicKey(xprv.private_key.public_key(&secp));
    let address = bdk_wallet::bitcoin::Address::p2wpkh(&key, network);
    Ok(Address {
        text: address.to_string(),
        script_pubkey: address.script_pubkey().to_bytes(),
    })
}

// ---------------------------------------------------------------------------------------
// Text.
// ---------------------------------------------------------------------------------------

/// The path of an account.
pub open spec fn account_path(coin_type: u32, account: u32) -> Seq<char> {
    "m/84'/"@ + decimal(coin_type as nat) + "'/"@ + decimal(account as nat) + "'"@
}

/// The path of the one address that is shown for an account.
pub open spec fn address_path(coin_type: u32, account: u32) -> Seq<char> {
    account_path(coin_type, account) + "/0/0"@
}

/// The descriptor of one keychain of an account: the origin of the account's key, the key, and
/// the branch of the keychain with a wildcard.
pub open spec fn keychain(
    fingerprint: Seq<char>,
    coin_type: u32,
    account: u32,
    xprv: Seq<char>,
    branch: u32,
) -> Seq<char> {
    "wpkh(["@ + fingerprint + "/84'/"@ + decimal(coin_type as nat) + "'/"@ + decimal(
        account as nat,
    ) + "']"@ + xprv + "/"@ + decimal(branch as nat) + "/*)"@
}

/// Whether a descriptor is that of a keychain of an extended private key, with room below it.
pub open spec fn is_keychain(descriptor: Seq<char>) -> bool {
    exists|fingerprint: Seq<char>, coin_type: u32, account: u32, xprv: Seq<char>, branch: u32|
        descriptor == #[trigger] keychain(fingerprint, coin_type, account, xprv, branch)
            && xprv_depth(xprv) is Some && xprv_depth(xprv)->0 <= DEPTH_LIMIT
}

/// Whether two descriptors are of extended private keys below one master key, at different paths.
pub open spec fn have_keys(external: Seq<char>, internal: Seq<char>) -> bool {
    has_keys(map![Keychain::External => external, Keychain::Internal => internal])
}

/// Writes the path of an account.
pub fn account_path_text(coin_type: u32, account: u32) -> (path: String)
    ensures
        path@ == account_path(coin_type, account),
        path@.len() <= PATH_LIMIT - 4,
{
    let mut path: String = "m/84'/".to_owned();
    path.append(decimal_text(coin_type).as_str());
    path.append("'/");
    path.append(decimal_text(account).as_str());
    path.append("'");
    proof {
        reveal_strlit("m/84'/");
        reveal_strlit("'/");
        reveal_strlit("'");
        lemma_index_len(coin_type);
        lemma_index_len(account);
    }
    path
}

/// Writes the path of the one address that is shown for an account.
pub fn address_path_text(coin_type: u32, account: u32) -> (path: String)
    ensures
        path@ == address_path(coin_type, account),
        path@.len() <= PATH_LIMIT,
{
    let mut path: String = account_path_text(coin_type, account);
    path.append("/0/0");
    proof {
        reveal_strlit("/0/0");
    }
    path
}

/// Writes the descriptor of one keychain of an account.
pub fn keychain_text(
    fingerprint: &String,
    coin_type: u32,
    account: u32,
    xprv: &String,
    branch: u32,
) -> (descriptor: String)
    ensures
        descriptor@ == keychain(fingerprint@, coin_type, account, xprv@, branch),
{
    let mut descriptor: String = "wpkh([".to_owned();
    descriptor.append(fingerprint.as_str());
    descriptor.append("/84'/");
    descriptor.append(decimal_text(coin_type).as_str());
    descriptor.append("'/");
    descriptor.append(decimal_text(account).as_str());
    descriptor.append("']");
    descriptor.append(xprv.as_str());
    descriptor.append("/");
    descriptor.append(decimal_text(branch).as_str());
    descriptor.append("/*)");
    descriptor
}

// ---------------------------------------------------------------------------------------
// Derivation.
// ---------------------------------------------------------------------------------------

/// The descriptors of the sending wallet, external and internal, or nothing where a key is
/// missing. The change keychain is the second branch of the sender's account, or the first of
/// the account that the change goes to where that is another.
pub open spec fn descriptors(
    phrase: Seq<char>,
    network: Network,
    coin_type: u32,
    sender: u32,
    change: u32,
) -> Option<(Seq<char>, Seq<char>)> {
    match bip39_seed(phrase) {
        None => None,
        Some(seed) => {
            match (
                master_fingerprint(network, seed),
                xprv_at(network, seed, account_path(coin_type, sender)),
                xprv_at(network, seed, account_path(coin_type, change)),
            ) {
                (Some(fingerprint), Some(sender_xprv), Some(change_xprv)) => Some(
                    (
                        keychain(fingerprint, coin_type, sender, sender_xprv, 0),
                        if change == sender {
                            keychain(fingerprint, coin_type, sender, sender_xprv, 1)
                        } else {
                            keychain(fingerprint, coin_type, change, change_xprv, 0)
                        },
                    ),
                ),
                _ => None,
            }
        },
    }
}

/// The fixed address of an account, or nothing where its key is missing.
pub open spec fn address(
    phrase: Seq<char>,
    network: Network,
    coin_type: u32,
    account: u32,
) -> Option<AddressView> {
    match bip39_seed(phrase) {
        None => None,
        Some(seed) => p2wpkh_at(network, seed, address_path(coin_type, account)),
    }
}

/// Whether a script is the first one of the first branch of an account, if the account has a key.
pub open spec fn is_first_address(
    phrase: Seq<char>,
    network: Network,
    coin_type: u32,
    account: u32,
    script_pubkey: Seq<u8>,
) -> bool {
    bip39_seed(phrase) matches Some(seed) ==> (xprv_at(
        network,
        seed,
        account_path(coin_type, account),
    ) matches Some(xprv) ==> script_pubkey == child_script(xprv, 0, 0))
}

/// Derives the descriptors of the sending wallet.
pub fn derive_descriptors(config: &Config, network: Network, change_idx: u32) -> (derived: Result<
    (String, String),
    DeriveError,
>)
    ensures
        match derived {
            Ok((external, internal)) => descriptors(
                config.seed_phrase@,
                network,
                coin_type_of(config.network),
                config.sender_account_index,
                change_idx,
            ) == Some((external@, internal@)) && is_keychain(external@) && is_keychain(internal@)
                && have_keys(external@, internal@),
            Err(DeriveError::Mnemonic(_)) => bip39_seed(config.seed_phrase@) is None,
            Err(DeriveError::Derivation(_)) => bip39_seed(config.seed_phrase@) is Some
                && descriptors(
                config.seed_phrase@,
                network,
                coin_type_of(config.network),
                config.sender_account_index,
                change_idx,
            ) is None,
        },
        config.sender_account_index >= HARDENED_FROM || change_idx >= HARDENED_FROM
            ==> derived is Err,
{
    let seed: Vec<u8> = match mnemonic_seed(&config.seed_phrase) {
        Ok(seed) => seed,
        Err(error) => return Err(DeriveError::Mnemonic(error)),
    };
    let fingerprint: String = match fingerprint_of(network, &seed) {
        Ok(fingerprint) => fingerprint,
        Err(error) => return Err(DeriveError::Derivation(error)),
    };
    let coin_type: u32 = config.coin_type();
    let sender: u32 = config.sender_account_index;
    let sender_xprv: String = match derive_xprv(
        network,
        &seed,
        &account_path_text(coin_type, sender),
    ) {
        Ok(xprv) => xprv,
        Err(error) => return Err(DeriveError::Derivation(error)),
    };
    let external: String = keychain_text(&fingerprint, coin_type, sender, &sender_xprv, 0);
    let internal: String = if change_idx == sender {
        keychain_text(&fingerprint, coin_type, sender, &sender_xprv, 1)
    } else {
        match derive_xprv(network, &seed, &account_path_text(coin_type, change_idx)) {
            Ok(xprv) => keychain_text(&fingerprint, coin_type, change_idx, &xprv, 0),
            Err(error) => return Err(DeriveError::Derivation(error)),
        }
    };
    proof {
        assert(xprv_depth(sender_xprv@) == Some(3nat));
        assert(is_keychain(external@));
        if change_idx == sender {
            lemma_have_keys(
                external@,
                internal@,
                fingerprint@,
                coin_type,
                (sender, sender_xprv@, 0),
                (sender, sender_xprv@, 1),
            );
        } else {
            let change_xprv = xprv_at(network, seed@, account_path(coin_type, change_idx))->0;
            lemma_have_keys(
                external@,
                internal@,
                fingerprint@,
                coin_type,
                (sender, sender_xprv@, 0),
                (change_idx, change_xprv, 0),
            );
        }
    }
    Ok((external, internal))
}

/// Two keychains of private keys at different paths have keys.
proof fn lemma_have_keys(
    external: Seq<char>,
    internal: Seq<char>,
    fingerprint: Seq<char>,
    coin: u32,
    a: (u32, Seq<char>, u32),
    b: (u32, Seq<char>, u32),
)
    requires
        external == keychain(fingerprint, coin, a.0, a.1, a.2),
        internal == keychain(fingerprint, coin, b.0, b.1, b.2),
        xprv_depth(a.1) is Some,
        xprv_depth(b.1) is Some,
        a.0 != b.0 || a.2 != b.2,
    ensures
        have_keys(external, internal),
{
}

/// Derives the fixed address of an account.
pub fn derive_address(config: &Config, account_index: u32, network: Network) -> (derived: Result<
    Address,
    DeriveError,
>)
    ensures
        match derived {
            Ok(derived) => address(
                config.seed_phrase@,
                network,
                coin_type_of(config.network),
                account_index,
            ) == Some(derived@) && is_p2wpkh(derived.script_pubkey@) && is_first_address(
                config.seed_phrase@,
                network,
                coin_type_of(config.network),
                account_index,
                derived.script_pubkey@,
            ),
            Err(DeriveError::Mnemonic(_)) => bip39_seed(config.seed_phrase@) is None,
            Err(DeriveError::Derivation(_)) => bip39_seed(config.seed_phrase@) is Some && address(
                config.seed_phrase@,
                network,
                coin_type_of(config.network),
                account_index,
            ) is None,
        },
        account_index >= HARDENED_FROM ==> derived is Err,
{
    let seed: Vec<u8> = match mnemonic_seed(&config.seed_phrase) {
        Ok(seed) => seed,
        Err(error) => return Err(DeriveError::Mnemonic(error)),
    };
    let path: String = address_path_text(config.coin_type(), account_index);
    match derive_p2wpkh(network, &seed, &path) {
        Ok(address) => Ok(address),
        Err(error) => Err(DeriveError::Derivation(error)),
    }
}

} // verus!
