//! The boundary to BDK.
//!
//! The wallet, the updates that fill it and the transactions that it funds are BDK's. This
//! module names what they hold and states, call by call, what BDK does to it; everything else
//! in the crate is proved from those statements.

use crate::derivation::{child_script, is_keychain, keychain, xprv_depth};
use crate::tx::{holdable, names_null, opens_block, tx_decode, Transaction, TransactionView};
use crate::types::{BlockHash, BlockId, OutPoint, TxOutView, Txid};
use bdk_wallet::bitcoin::consensus::encode;
use bdk_wallet::bitcoin::psbt::ExtractTxError;
use bdk_wallet::bitcoin::{hashes, Amount, FeeRate, Network, Psbt, ScriptBuf};
use bdk_wallet::chain::local_chain::CannotConnectError;
use bdk_wallet::chain::{CheckPoint, ConfirmationBlockTime, TxUpdate};
use bdk_wallet::error::CreateTxError;
use bdk_wallet::rusqlite::Connection;
use bdk_wallet::signer::SignerError;
use bdk_wallet::{CreateWithPersistError, KeychainKind, PersistedWallet, SignOptions, Update};
use std::collections::BTreeMap;
use std::sync::Arc;
use vstd::prelude::*;

verus! {

/// BDK's wallet, with the kind of store that it was created in.
#[verifier::external_type_specification]
#[verifier::external_body]
#[verifier::reject_recursive_types(P)]
pub struct ExPersistedWallet<P>(bdk_wallet::PersistedWallet<P>);

/// An SQLite connection.
#[verifier::external_type_specification]
#[verifier::external_body]
pub struct ExConnection(bdk_wallet::rusqlite::Connection);

/// What a chain source tells a wallet about transactions.
#[verifier::external_type_specification]
#[verifier::external_body]
#[verifier::reject_recursive_types(A)]
pub struct ExTxUpdate<A>(bdk_wallet::chain::TxUpdate<A>);

/// The place and time of a confirmation.
#[verifier::external_type_specification]
#[verifier::external_body]
pub struct ExConfirmationBlockTime(bdk_wallet::chain::ConfirmationBlockTime);

/// A sparse chain of blocks.
#[verifier::external_type_specification]
#[verifier::external_body]
pub struct ExCheckPoint(bdk_wallet::chain::CheckPoint);

/// A transaction on its way to being signed.
#[verifier::external_type_specification]
#[verifier::external_body]
pub struct ExPsbt(bdk_wallet::bitcoin::Psbt);

/// An SQLite error, carried as it came.
#[verifier::external_type_specification]
#[verifier::external_body]
pub struct ExSqliteError(bdk_wallet::rusqlite::Error);

/// An error of wallet creation, carried as it came.
#[verifier::external_type_specification]
#[verifier::external_body]
#[verifier::reject_recursive_types(E)]
pub struct ExCreateWithPersistError<E>(bdk_wallet::CreateWithPersistError<E>);

/// An error of a chain update, carried as it came.
#[verifier::external_type_specification]
#[verifier::external_body]
pub struct ExCannotConnectError(bdk_wallet::chain::local_chain::CannotConnectError);

/// An error of transaction building, carried as it came.
#[verifier::external_type_specification]
#[verifier::external_body]
pub struct ExCreateTxError(bdk_wallet::error::CreateTxError);

/// An error of signing, carried as it came.
#[verifier::external_type_specification]
#[verifier::external_body]
pub struct ExSignerError(bdk_wallet::signer::SignerError);

/// An error of extracting a signed transaction, carried as it came.
#[verifier::external_type_specification]
#[verifier::external_body]
pub struct ExExtractTxError(bdk_wallet::bitcoin::psbt::ExtractTxError);

/// The two keychains of a wallet.
#[derive(Debug, Clone, Copy, PartialEq, Eq, Structural)]
pub enum Keychain {
    /// Receive addresses.
    External,
    /// Change addresses.
    Internal,
}

/// An output that the wallet can spend.
#[derive(Debug, Clone, Copy, PartialEq, Eq)]
pub struct WalletUtxo {
    pub outpoint: OutPoint,
    pub keychain: Keychain,
    pub derivation_index: u32,
    pub value: u64,
}

/// The block that confirms a transaction, and when it did so.
#[derive(Debug, Clone, Copy, PartialEq, Eq)]
pub struct Anchor {
    pub block: BlockId,
    pub time: u64,
}

// ---------------------------------------------------------------------------------------
// What a wallet holds.
// ---------------------------------------------------------------------------------------

/// The descriptors that a wallet was made with.
pub uninterp spec fn wallet_descriptors(wallet: PersistedWallet<Connection>) -> Map<
    Keychain,
    Seq<char>,
>;

/// The blocks of a wallet's local chain, by height.
pub uninterp spec fn wallet_chain(wallet: PersistedWallet<Connection>) -> Map<u32, BlockHash>;

/// The transactions that a wallet holds in full, by id.
pub uninterp spec fn wallet_txs(wallet: PersistedWallet<Connection>) -> Map<Txid, TransactionView>;

/// The scripts of a wallet's keychains, by keychain and derivation index.
pub uninterp spec fn wallet_scripts(wallet: PersistedWallet<Connection>) -> Map<
    (Keychain, u32),
    Seq<u8>,
>;

/// The outputs that a wallet takes for its own, each with the keychain and the derivation index
/// of the script that it was recognized by.
pub uninterp spec fn wallet_watched(wallet: PersistedWallet<Connection>) -> Set<
    (OutPoint, Keychain, u32),
>;

/// The outputs that a wallet holds without the transaction that they belong to.
pub uninterp spec fn wallet_floating(wallet: PersistedWallet<Connection>) -> Map<
    OutPoint,
    TxOutView,
>;

/// The blocks in which a wallet takes transactions to be confirmed.
pub uninterp spec fn wallet_anchors(wallet: PersistedWallet<Connection>) -> Set<(Anchor, Txid)>;

/// When a wallet last heard of a transaction being in the mempool.
pub uninterp spec fn wallet_last_seen(wallet: PersistedWallet<Connection>) -> Map<Txid, u64>;

/// The highest derivation index that a wallet has revealed, by keychain.
pub uninterp spec fn wallet_revealed(wallet: PersistedWallet<Connection>) -> Map<Keychain, u32>;

/// The network that a wallet was made for.
pub uninterp spec fn wallet_network(wallet: PersistedWallet<Connection>) -> Network;

/// The updates that a wallet has taken, in order.
pub uninterp spec fn wallet_updates(wallet: PersistedWallet<Connection>) -> Seq<UpdateView>;

/// The outputs that a wallet lists as unspent, in its order, if it was made with some descriptors
/// for a network and has taken some updates.
pub uninterp spec fn unspent_after(
    descriptors: Map<Keychain, Seq<char>>,
    network: Network,
    updates: Seq<UpdateView>,
) -> Seq<WalletUtxo>;

/// The outputs that a wallet lists as unspent, in its order.
pub open spec fn wallet_unspent(wallet: PersistedWallet<Connection>) -> Seq<WalletUtxo> {
    unspent_after(wallet_descriptors(wallet), wallet_network(wallet), wallet_updates(wallet))
}

/// What a wallet is told by an update.
#[verifier::ext_equal]
pub struct UpdateView {
    /// The index up to which both keychains are revealed.
    pub last_active: u32,
    /// The encodings of the full transactions, in order.
    pub raws: Seq<Seq<u8>>,
    /// The single outputs.
    pub txouts: Map<OutPoint, TxOutView>,
    /// The confirmations.
    pub anchors: Set<(Anchor, Txid)>,
    /// The mempool sightings.
    pub seen_ats: Set<(Txid, u64)>,
    /// The blocks by height, if there is a chain.
    pub blocks: Option<Map<u32, BlockHash>>,
}

/// The hash of the first block of a network.
pub uninterp spec fn genesis_of(network: Network) -> BlockHash;

// ---------------------------------------------------------------------------------------
// What an update, a chain of blocks and an unsigned transaction hold.
// ---------------------------------------------------------------------------------------

/// The full transactions of an update, in order.
pub uninterp spec fn update_txs(update: TxUpdate<ConfirmationBlockTime>) -> Seq<TransactionView>;

/// The encodings of the full transactions of an update, in order.
pub uninterp spec fn update_raws(update: TxUpdate<ConfirmationBlockTime>) -> Seq<Seq<u8>>;

/// The single outputs of an update.
pub uninterp spec fn update_txouts(update: TxUpdate<ConfirmationBlockTime>) -> Map<
    OutPoint,
    TxOutView,
>;

/// The confirmations of an update.
pub uninterp spec fn update_anchors(update: TxUpdate<ConfirmationBlockTime>) -> Set<
    (Anchor, Txid),
>;

/// The mempool sightings of an update.
pub uninterp spec fn update_seen_ats(update: TxUpdate<ConfirmationBlockTime>) -> Set<(Txid, u64)>;

/// The blocks of a sparse chain, by height.
pub uninterp spec fn checkpoint_blocks(chain: CheckPoint) -> Map<u32, BlockHash>;

/// The outputs that a transaction under construction spends, in the order of its inputs.
pub uninterp spec fn psbt_inputs(psbt: Psbt) -> Seq<OutPoint>;

/// The outputs of a transaction under construction.
pub uninterp spec fn psbt_outputs(psbt: Psbt) -> Seq<TxOutView>;

/// The output that each input of a transaction under construction spends, as far as it is recorded
/// beside the input with its whole transaction.
pub uninterp spec fn psbt_spends(psbt: Psbt) -> Seq<Option<TxOutView>>;

/// Whether no input of a transaction under construction asks for a kind of signature of its own, or
/// has a signature or a final script from elsewhere.
pub uninterp spec fn psbt_default(psbt: Psbt) -> bool;

/// Whether no input of a transaction under construction spends an output that the transaction
/// recorded beside it lacks.
pub uninterp spec fn psbt_coherent(psbt: Psbt) -> bool;

/// Whether every input of a transaction under construction has the script or the witness that
/// spends its output.
pub uninterp spec fn psbt_finalized(psbt: Psbt) -> bool;

/// What the final scripts and witnesses of a transaction under construction add to its weight, with
/// the two bytes that tell of witnesses.
pub uninterp spec fn psbt_signature_weight(psbt: Psbt) -> nat;

/// The weight of an encoded transaction, in weight units.
pub uninterp spec fn tx_weight(raw: Seq<u8>) -> nat;

/// Whether every input of an encoded transaction has the script or the witness that spends its
/// output.
pub uninterp spec fn tx_signed(raw: Seq<u8>) -> bool;

/// What a wallet is asked to pay.
#[derive(Debug)]
pub struct TxRequest {
    /// The script that is paid.
    pub receiver: Vec<u8>,
    /// The script that takes what is left.
    pub change: Vec<u8>,
    /// What the receiver is paid.
    pub amount_sat: u64,
    /// The fee for each virtual byte.
    pub sat_per_vb: u64,
    /// The outputs that may not be spent.
    pub unspendable: Vec<OutPoint>,
}

// ---------------------------------------------------------------------------------------
// Limits.
// ---------------------------------------------------------------------------------------

/// Heights from here on are times to Bitcoin's lock times, and BDK does not take them.
pub const HEIGHT_LIMIT: u32 = 500_000_000;

/// The most that coin selection can add up, since its arithmetic is signed.
pub const VALUE_LIMIT: u64 = 9_223_372_036_854_775_807;

/// No fee rate beyond this is handed to coin selection. It is forty times the rate from which
/// the `bitcoin` crate refuses to extract a transaction.
pub const FEE_RATE_LIMIT: u64 = 1_000_000;

/// No script longer than this is handed to coin selection. Scripts beyond it are unspendable.
pub const SCRIPT_LIMIT: usize = 10_000;

/// The fee for each thousand weight units beyond which the `bitcoin` crate refuses to extract a
/// transaction. It is 25,000 for each virtual byte.
pub const ABSURD_RATE: u64 = 6_250_000;

/// No transaction that is looked at is heavier than this.
pub const WEIGHT_LIMIT: u64 = 2_000_000_000_000;

/// The confirmations that what a block pays to its miner needs to be spent.
pub const MATURITY: u32 = 100;

/// The least that the witness of a P2WPKH input weighs: a count, the shortest signature and a key.
pub const LEAST_WITNESS_WEIGHT: u64 = 45;

/// The most that the witness of a P2WPKH input weighs, if its signature was ground.
pub const MOST_WITNESS_WEIGHT: u64 = 107;

/// The bytes of an input without its signature.
pub const BARE_INPUT_SIZE: u64 = 41;

/// The virtual bytes that coin selection counts for a P2WPKH input with its signature.
pub const INPUT_SIZE: u64 = 68;

/// The virtual bytes that coin selection counts for a transaction without inputs and outputs,
/// but for half a byte.
pub const HEADER_SIZE: u64 = 10;

/// The virtual bytes of a P2WPKH output.
pub const P2WPKH_OUTPUT_SIZE: u64 = 31;

/// The last derivation index that a wallet reveals on each keychain before outputs are matched
/// against it.
pub const LAST_ACTIVE_INDEX: u32 = 999;

/// Whether every block of a chain stands below [`HEIGHT_LIMIT`].
pub open spec fn heights_in_range(chain: Map<u32, BlockHash>) -> bool {
    forall|height: u32| chain.contains_key(height) ==> height < HEIGHT_LIMIT
}

/// The satoshis that a list of outputs comes to.
pub open spec fn total_value(utxos: Seq<WalletUtxo>) -> nat
    decreases utxos.len(),
{
    if utxos.len() == 0 {
        0
    } else {
        total_value(utxos.drop_last()) + utxos.last().value as nat
    }
}

/// Whether each output of a list stands in it once.
pub open spec fn distinct(utxos: Seq<WalletUtxo>) -> bool {
    forall|i: int, j: int| 0 <= i < j < utxos.len() ==> utxos[i].outpoint != utxos[j].outpoint
}

/// Whether coin selection can work on a list of outputs: those that may be spent stay within what
/// can be added up.
pub open spec fn selectable(utxos: Seq<WalletUtxo>, unspendable: Seq<OutPoint>) -> bool {
    let funds = spendable(utxos, unspendable);
    total_value(funds) <= VALUE_LIMIT && funds.len() <= u32::MAX
}

/// Whether a script can never be spent, since it starts with `OP_RETURN`.
pub open spec fn is_op_return(script_pubkey: Seq<u8>) -> bool {
    script_pubkey.len() != 0 && script_pubkey[0] == 0x6a
}

/// Whether a script is a witness program: a version, and two to forty bytes.
pub open spec fn is_witness_program(script_pubkey: Seq<u8>) -> bool {
    &&& 4 <= script_pubkey.len() <= 42
    &&& script_pubkey[0] == 0x00 || 0x51 <= script_pubkey[0] <= 0x60
    &&& script_pubkey[1] == script_pubkey.len() - 2
}

/// Less than this many satoshis to a script are dust: three for each byte of the output and of the
/// input that spends it one day.
pub open spec fn dust_limit(script_pubkey: Seq<u8>) -> nat {
    if is_op_return(script_pubkey) {
        0
    } else if is_witness_program(script_pubkey) {
        3 * (67 + output_size(script_pubkey))
    } else {
        3 * (148 + output_size(script_pubkey))
    }
}

/// The bytes of a count.
pub open spec fn count_size(count: nat) -> nat {
    if count < 0xfd {
        1
    } else if count <= 0xffff {
        3
    } else if count <= 0xffff_ffff {
        5
    } else {
        9
    }
}

/// The bytes of an output that pays a script.
pub open spec fn output_size(script_pubkey: Seq<u8>) -> nat {
    8 + count_size(script_pubkey.len()) + script_pubkey.len()
}

/// The bytes of a transaction without its signatures.
pub open spec fn bare_size(inputs: nat, outputs: Seq<TxOutView>) -> nat {
    8 + count_size(inputs) + BARE_INPUT_SIZE as nat * inputs + count_size(outputs.len())
        + outputs_size(outputs)
}

/// The bytes that a weight counts for, rounded up.
pub open spec fn virtual_size(weight: nat) -> nat {
    (weight + 3) / 4
}

/// Whether a fee is absurd for a weight: in satoshis for a thousand weight units, rounded down, it
/// is beyond [`ABSURD_RATE`].
pub open spec fn is_absurd(fee: int, weight: nat) -> bool {
    fee * 1000 >= ABSURD_RATE * weight + weight
}

/// The fee for a transaction without inputs that pays one script: its size in virtual bytes, with
/// the half byte of its header, rounded up.
pub open spec fn base_fee(receiver: Seq<u8>, sat_per_vb: u64) -> nat {
    (sat_per_vb * (HEADER_SIZE + output_size(receiver)) + (sat_per_vb + 1) / 2) as nat
}

/// Whether coin selection can look for an amount at a fee rate: what it looks for, and the cost of
/// change on top, stay within what can be added up.
pub open spec fn within_reach(receiver: Seq<u8>, amount_sat: u64, sat_per_vb: u64) -> bool {
    &&& sat_per_vb <= FEE_RATE_LIMIT
    &&& amount_sat + base_fee(receiver, sat_per_vb) + sat_per_vb * P2WPKH_OUTPUT_SIZE
        <= VALUE_LIMIT
}

/// The outputs of a list that may be spent.
pub open spec fn spendable(utxos: Seq<WalletUtxo>, unspendable: Seq<OutPoint>) -> Seq<WalletUtxo>
    decreases utxos.len(),
{
    if utxos.len() == 0 {
        Seq::empty()
    } else {
        let rest = spendable(utxos.drop_last(), unspendable);
        if unspendable.contains(utxos.last().outpoint) {
            rest
        } else {
            rest.push(utxos.last())
        }
    }
}

/// Whether the outputs of a transaction can be spent as far as its age goes: it does not open a
/// block, or a block of the chain that confirms it has enough blocks on top.
pub open spec fn is_mature(
    txs: Map<Txid, TransactionView>,
    anchors: Set<(Anchor, Txid)>,
    chain: Map<u32, BlockHash>,
    txid: Txid,
) -> bool {
    ||| !opens_block(txs[txid])
    ||| exists|anchor: Anchor, tip: u32| #[trigger]
        anchors.contains((anchor, txid)) && chain.contains_key(anchor.block.height)
            && chain[anchor.block.height] == anchor.block.hash && #[trigger] chain.contains_key(tip)
            && anchor.block.height + MATURITY <= tip + 1
}

/// The outputs of a list that may be spent and are mature.
pub open spec fn funds(
    txs: Map<Txid, TransactionView>,
    anchors: Set<(Anchor, Txid)>,
    chain: Map<u32, BlockHash>,
    utxos: Seq<WalletUtxo>,
    unspendable: Seq<OutPoint>,
) -> Seq<WalletUtxo> {
    spendable(utxos, unspendable).filter(
        |utxo: WalletUtxo| is_mature(txs, anchors, chain, utxo.outpoint.txid),
    )
}

/// Whether a payment cannot lack funds whichever outputs are drawn: it is something and not dust,
/// and all outputs that may be spent and are mature cover the amount and the fees of all of them.
pub open spec fn affordable(
    txs: Map<Txid, TransactionView>,
    anchors: Set<(Anchor, Txid)>,
    chain: Map<u32, BlockHash>,
    utxos: Seq<WalletUtxo>,
    unspendable: Seq<OutPoint>,
    receiver: Seq<u8>,
    amount_sat: u64,
    sat_per_vb: u64,
) -> bool {
    let funds = funds(txs, anchors, chain, utxos, unspendable);
    &&& amount_sat > 0
    &&& amount_sat >= dust_limit(receiver)
    &&& distinct(utxos)
    &&& total_value(funds) >= amount_sat + base_fee(receiver, sat_per_vb) + sat_per_vb * (INPUT_SIZE
        * funds.len())
}

/// Whether what a transaction spends beyond what it pays is the fee at a rate: exactly that of its
/// inputs and outputs if there is change that can be dust, up to that if there is change that
/// cannot, and if there is none, so much more as would have been dust after the cost of the change.
pub open spec fn pays_fee(
    spent: nat,
    inputs: nat,
    outputs: Seq<TxOutView>,
    receiver: Seq<u8>,
    change: Seq<u8>,
    sat_per_vb: u64,
) -> bool {
    let owed = paid_value(outputs) + sat_per_vb * (INPUT_SIZE * inputs) + base_fee(
        receiver,
        sat_per_vb,
    );
    let change_fee = sat_per_vb * output_size(change);
    &&& owed <= spent
    &&& outputs.len() == 2 ==> spent <= owed + change_fee
    &&& outputs.len() == 2 && dust_limit(change) > 0 ==> spent == owed + change_fee
    &&& outputs.len() == 1 ==> spent < owed + change_fee + dust_limit(change)
}

/// The satoshis of the outputs that the inputs of a transaction spend, as far as they are recorded.
pub open spec fn recorded_value(spends: Seq<Option<TxOutView>>) -> nat
    decreases spends.len(),
{
    if spends.len() == 0 {
        0
    } else {
        recorded_value(spends.drop_last()) + match spends.last() {
            Some(output) => output.value as nat,
            None => 0,
        }
    }
}

/// Whether the output of every input is recorded.
pub open spec fn all_recorded(spends: Seq<Option<TxOutView>>) -> bool {
    forall|i: int| 0 <= i < spends.len() ==> (#[trigger] spends[i]) is Some
}

/// The bytes of some outputs.
pub open spec fn outputs_size(outputs: Seq<TxOutView>) -> nat
    decreases outputs.len(),
{
    if outputs.len() == 0 {
        0
    } else {
        outputs_size(outputs.drop_last()) + output_size(outputs.last().script_pubkey)
    }
}

/// Whether an output is among those of a list.
pub open spec fn lists(utxos: Seq<WalletUtxo>, outpoint: OutPoint) -> bool {
    exists|i: int| 0 <= i < utxos.len() && (#[trigger] utxos[i]).outpoint == outpoint
}

/// Whether an entry of a list is the last one of an output.
pub open spec fn is_last(utxos: Seq<WalletUtxo>, outpoint: OutPoint, i: int) -> bool {
    &&& 0 <= i < utxos.len()
    &&& utxos[i].outpoint == outpoint
    &&& forall|k: int| i < k < utxos.len() ==> (#[trigger] utxos[k]).outpoint != outpoint
}

/// The last entry of an output in a list.
pub open spec fn entry(utxos: Seq<WalletUtxo>, outpoint: OutPoint) -> WalletUtxo {
    utxos[choose|i: int| is_last(utxos, outpoint, i)]
}

/// The satoshis that a transaction spends of the outputs of a list.
pub open spec fn spent_value(inputs: Seq<OutPoint>, utxos: Seq<WalletUtxo>) -> nat
    decreases inputs.len(),
{
    if inputs.len() == 0 {
        0
    } else {
        spent_value(inputs.drop_last(), utxos) + entry(utxos, inputs.last()).value as nat
    }
}

/// The satoshis that the outputs of a transaction come to.
pub open spec fn paid_value(outputs: Seq<TxOutView>) -> nat
    decreases outputs.len(),
{
    if outputs.len() == 0 {
        0
    } else {
        paid_value(outputs.drop_last()) + outputs.last().value as nat
    }
}

/// Whether a script is a version zero witness program of twenty bytes.
pub open spec fn is_p2wpkh(script_pubkey: Seq<u8>) -> bool {
    script_pubkey.len() == 22 && script_pubkey[0] == 0x00 && script_pubkey[1] == 0x14
}

/// The blocks of a list, by height.
pub open spec fn blocks_by_height(blocks: Seq<BlockId>) -> Map<u32, BlockHash>
    decreases blocks.len(),
{
    if blocks.len() == 0 {
        Map::empty()
    } else {
        blocks_by_height(blocks.drop_last()).insert(blocks.last().height, blocks.last().hash)
    }
}

/// Whether the blocks of a list stand in ascending order, one to a height.
pub open spec fn ascending(blocks: Seq<BlockId>) -> bool {
    forall|i: int, j: int| 0 <= i < j < blocks.len() ==> blocks[i].height < blocks[j].height
}

/// Whether a transaction pays an amount to one script and what is left, if anything and not dust,
/// to another.
pub open spec fn pays(
    outputs: Seq<TxOutView>,
    receiver: Seq<u8>,
    amount_sat: u64,
    change: Seq<u8>,
) -> bool {
    &&& outputs.len() <= 2
    &&& exists|i: int|
        0 <= i < outputs.len() && (#[trigger] outputs[i]) == (TxOutView {
            value: amount_sat,
            script_pubkey: receiver,
        }) && forall|j: int|
            0 <= j < outputs.len() && j != i ==> {
                &&& (#[trigger] outputs[j]).script_pubkey == change
                &&& outputs[j].value >= dust_limit(change)
            }
}

// ---------------------------------------------------------------------------------------
// Calls into BDK and the crates that it re-exports.
// ---------------------------------------------------------------------------------------

/// `rusqlite::Connection::open_in_memory`. Nothing is claimed of the connection.
pub assume_specification[ Connection::open_in_memory ]() -> (opened: Result<
    Connection,
    bdk_wallet::rusqlite::Error,
>)
;

/// `bitcoin::constants::genesis_block` and the hash of the block that it gives.
#[verifier::external_body]
pub(crate) fn genesis_hash(network: Network) -> (hash: BlockHash)
    ensures
        hash == genesis_of(network),
{
    let block = bdk_wallet::bitcoin::constants::genesis_block(network);
    BlockHash { bytes: hashes::Hash::to_byte_array(block.block_hash()) }
}

/// `Wallet::create` with `CreateParams::network` and `CreateParams::create_wallet`: a wallet
/// that was just made knows nothing but the first block of its network, and the scripts of its
/// keychains are those of the descriptors. When creation fails is left unsaid: it rests on the
/// descriptors and on the store.
#[verifier::external_body]
pub(crate) fn create_wallet(
    external: &String,
    internal: &String,
    network: Network,
    store: &mut Connection,
) -> (created: Result<
    PersistedWallet<Connection>,
    CreateWithPersistError<bdk_wallet::rusqlite::Error>,
>)
    requires
        is_keychain(external@),
        is_keychain(internal@),
    ensures
        created matches Ok(wallet) ==> {
            &&& wallet_descriptors(wallet)
                == map![Keychain::External => external@, Keychain::Internal => internal@]
            &&& wallet_chain(wallet) == map![0u32 => genesis_of(network)]
            &&& wallet_txs(wallet) == Map::<Txid, TransactionView>::empty()
            &&& wallet_watched(wallet) == Set::<(OutPoint, Keychain, u32)>::empty()
            &&& derives_scripts(external@, Keychain::External, wallet_scripts(wallet))
            &&& derives_scripts(internal@, Keychain::Internal, wallet_scripts(wallet))
            &&& wallet_floating(wallet) == Map::<OutPoint, TxOutView>::empty()
            &&& wallet_anchors(wallet) == Set::<(Anchor, Txid)>::empty()
            &&& wallet_last_seen(wallet) == Map::<Txid, u64>::empty()
            &&& wallet_network(wallet) == network
            &&& wallet_updates(wallet) == Seq::<UpdateView>::empty()
        },
{
    bdk_wallet::Wallet::create(external.clone(), internal.clone())
        .network(network)
        .create_wallet(store)
}

/// Whether a wallet has two keychains, each of an extended private key with room below it.
pub open spec fn has_keychains(descriptors: Map<Keychain, Seq<char>>) -> bool {
    &&& descriptors.contains_key(Keychain::External)
    &&& descriptors.contains_key(Keychain::Internal)
    &&& is_keychain(descriptors[Keychain::External])
    &&& is_keychain(descriptors[Keychain::Internal])
}

/// Whether the scripts of a keychain are those of its descriptor: each is the P2WPKH script of
/// the child of the descriptor's key at the branch and the index.
pub open spec fn derives_scripts(
    descriptor: Seq<char>,
    chain: Keychain,
    scripts: Map<(Keychain, u32), Seq<u8>>,
) -> bool {
    forall|fingerprint: Seq<char>, coin: u32, account: u32, xprv: Seq<char>, branch: u32, i: u32|
        #![trigger keychain(fingerprint, coin, account, xprv, branch), scripts[(chain, i)]]
        descriptor == keychain(fingerprint, coin, account, xprv, branch) && i < 0x8000_0000
            ==> scripts[(chain, i)] == child_script(xprv, branch, i)
}

/// `TxUpdate::default`: an update that says nothing.
#[verifier::external_body]
pub(crate) fn new_update() -> (update: TxUpdate<ConfirmationBlockTime>)
    ensures
        says_nothing(update),
{
    TxUpdate::default()
}

/// Whether an update holds nothing at all.
pub open spec fn says_nothing(update: TxUpdate<ConfirmationBlockTime>) -> bool {
    &&& update_txs(update) == Seq::<TransactionView>::empty()
    &&& update_raws(update) == Seq::<Seq<u8>>::empty()
    &&& update_txouts(update) == Map::<OutPoint, TxOutView>::empty()
    &&& update_anchors(update) == Set::<(Anchor, Txid)>::empty()
    &&& update_seen_ats(update) == Set::<(Txid, u64)>::empty()
}

/// A push onto `TxUpdate::txs` of the transaction that the bytes encode.
#[verifier::external_body]
pub(crate) fn push_tx(update: &mut TxUpdate<ConfirmationBlockTime>, raw: &Vec<u8>)
    requires
        tx_decode(raw@) is Some,
        holdable(tx_decode(raw@)->0),
    ensures
        update_txs(*final(update)) == update_txs(*old(update)).push(tx_decode(raw@)->0),
        update_raws(*final(update)) == update_raws(*old(update)).push(raw@),
        update_txouts(*final(update)) == update_txouts(*old(update)),
        update_anchors(*final(update)) == update_anchors(*old(update)),
        update_seen_ats(*final(update)) == update_seen_ats(*old(update)),
{
    update.txs.push(Arc::new(encode::deserialize(raw).expect("an encoded transaction")));
}

/// An insertion into `TxUpdate::txouts`, in place of what stood under the outpoint.
#[verifier::external_body]
pub(crate) fn insert_txout(
    update: &mut TxUpdate<ConfirmationBlockTime>,
    outpoint: OutPoint,
    value: u64,
    script_pubkey: &Vec<u8>,
)
    ensures
        update_txs(*final(update)) == update_txs(*old(update)),
        update_raws(*final(update)) == update_raws(*old(update)),
        update_txouts(*final(update)) == update_txouts(*old(update)).insert(
            outpoint,
            (TxOutView { value, script_pubkey: script_pubkey@ }),
        ),
        update_anchors(*final(update)) == update_anchors(*old(update)),
        update_seen_ats(*final(update)) == update_seen_ats(*old(update)),
{
    update.txouts.insert(
        bdk_wallet::bitcoin::OutPoint {
            txid: hashes::Hash::from_byte_array(outpoint.txid.bytes),
            vout: outpoint.vout,
        },
        bdk_wallet::bitcoin::TxOut {
            value: Amount::from_sat(value),
            script_pubkey: ScriptBuf::from_bytes(script_pubkey.clone()),
        },
    );
}

/// An insertion into `TxUpdate::anchors`.
#[verifier::external_body]
pub(crate) fn insert_anchor(
    update: &mut TxUpdate<ConfirmationBlockTime>,
    anchor: Anchor,
    txid: Txid,
)
    ensures
        update_txs(*final(update)) == update_txs(*old(update)),
        update_raws(*final(update)) == update_raws(*old(update)),
        update_txouts(*final(update)) == update_txouts(*old(update)),
        update_anchors(*final(update)) == update_anchors(*old(update)).insert((anchor, txid)),
        update_seen_ats(*final(update)) == update_seen_ats(*old(update)),
{
    let block_id = bdk_wallet::chain::BlockId {
        height: anchor.block.height,
        hash: hashes::Hash::from_byte_array(anchor.block.hash.bytes),
    };
    let confirmed = ConfirmationBlockTime { block_id, confirmation_time: anchor.time };
    update.anchors.insert((confirmed, hashes::Hash::from_byte_array(txid.bytes)));
}

/// An insertion into `TxUpdate::seen_ats`. Only a transaction that does not open a block can be
/// seen in the mempool.
#[verifier::external_body]
pub(crate) fn insert_seen_at(
    update: &mut TxUpdate<ConfirmationBlockTime>,
    tx: &Transaction,
    seen_at: u64,
)
    requires
        !tx.coinbase(),
    ensures
        update_txs(*final(update)) == update_txs(*old(update)),
        update_raws(*final(update)) == update_raws(*old(update)),
        update_txouts(*final(update)) == update_txouts(*old(update)),
        update_anchors(*final(update)) == update_anchors(*old(update)),
        update_seen_ats(*final(update)) == update_seen_ats(*old(update)).insert(
            (tx@.txid, seen_at),
        ),
{
    update.seen_ats.insert((hashes::Hash::from_byte_array(tx.txid().bytes), seen_at));
}

/// `CheckPoint::from_block_ids`: a chain of the given blocks, which are taken only in ascending
/// order and not if there are none.
#[verifier::external_body]
pub(crate) fn checkpoint(blocks: &Vec<BlockId>) -> (chain: Result<CheckPoint, Option<CheckPoint>>)
    ensures
        (chain is Ok) == (blocks@.len() != 0 && ascending(blocks@)),
        chain matches Ok(chain) ==> checkpoint_blocks(chain) == blocks_by_height(blocks@),
{
    CheckPoint::from_block_ids(blocks.iter().map(|block| bdk_wallet::chain::BlockId {
        height: block.height,
        hash: hashes::Hash::from_byte_array(block.hash.bytes),
    }))
}

/// `Wallet::apply_update`. Without a chain it succeeds and leaves the blocks alone. Onto a
/// wallet that knows only the first block, a chain is taken exactly where it starts with that
/// block, and then the wallet has its blocks. What a chain does to a wallet that knows more
/// blocks is left unsaid. A refused update changes nothing; one that is taken adds to what the
/// wallet holds: its transactions, its confirmations, its single outputs as far as the
/// transaction is not held in full, the latest of its sightings, and the revealed indices. Of
/// what is added, the wallet takes for its own the outputs that pay its scripts up to the last
/// active index at least.
#[verifier::external_body]
pub(crate) fn apply_update(
    wallet: &mut PersistedWallet<Connection>,
    last_active: u32,
    tx_update: TxUpdate<ConfirmationBlockTime>,
    chain: Option<CheckPoint>,
) -> (applied: Result<(), CannotConnectError>)
    requires
        last_active < 0x7fff_ffff,
        has_keychains(wallet_descriptors(*old(wallet))),
        wallet_floating(*old(wallet)).agrees(update_txouts(tx_update)),
    ensures
        applied is Err ==> *final(wallet) == *old(wallet),
        chain is None ==> applied is Ok,
        chain is None ==> wallet_chain(*final(wallet)) == wallet_chain(*old(wallet)),
        chain is Some && wallet_chain(*old(wallet)).dom() == set![0u32] ==> {
            &&& applied is Ok <==> checkpoint_blocks(chain->0).contains_key(0u32)
                && checkpoint_blocks(chain->0)[0u32] == wallet_chain(*old(wallet))[0u32]
            &&& applied is Ok ==> wallet_chain(*final(wallet)) == checkpoint_blocks(chain->0)
        },
        wallet_descriptors(*final(wallet)) == wallet_descriptors(*old(wallet)),
        wallet_scripts(*final(wallet)) == wallet_scripts(*old(wallet)),
        wallet_network(*final(wallet)) == wallet_network(*old(wallet)),
        applied is Ok ==> {
            &&& holds_more(
                wallet_txs(*old(wallet)),
                update_txs(tx_update),
                wallet_txs(*final(wallet)),
            )
            &&& watches_more(*old(wallet), last_active, *final(wallet))
            &&& wallet_anchors(*final(wallet)) == wallet_anchors(*old(wallet)).union(
                update_anchors(tx_update),
            )
            &&& wallet_floating(*final(wallet)) == whole_forgotten(
                wallet_floating(*old(wallet)).union_prefer_right(update_txouts(tx_update)),
                wallet_txs(*final(wallet)).dom(),
            )
            &&& latest_sightings(
                wallet_last_seen(*old(wallet)),
                update_seen_ats(tx_update),
                wallet_last_seen(*final(wallet)),
            )
            &&& revealed_to(wallet_revealed(*final(wallet)), last_active)
            &&& wallet_updates(*final(wallet)) == wallet_updates(*old(wallet)).push(
                told_by(last_active, tx_update, chain),
            )
        },
{
    let mut last_active_indices = BTreeMap::new();
    last_active_indices.insert(KeychainKind::External, last_active);
    last_active_indices.insert(KeychainKind::Internal, last_active);
    wallet.apply_update(Update { last_active_indices, tx_update, chain })
}

/// What a wallet is told by an update of transactions and a chain.
pub open spec fn told_by(
    last_active: u32,
    tx_update: TxUpdate<ConfirmationBlockTime>,
    chain: Option<CheckPoint>,
) -> UpdateView {
    UpdateView {
        last_active,
        raws: update_raws(tx_update),
        txouts: update_txouts(tx_update),
        anchors: update_anchors(tx_update),
        seen_ats: update_seen_ats(tx_update),
        blocks: match chain {
            Some(chain) => Some(checkpoint_blocks(chain)),
            None => None,
        },
    }
}

/// Whether transactions follow from earlier ones and newer ones: what was held stays as it is,
/// and of the newer ones there is one for each id.
pub open spec fn holds_more(
    before: Map<Txid, TransactionView>,
    added: Seq<TransactionView>,
    after: Map<Txid, TransactionView>,
) -> bool {
    &&& forall|txid: Txid|
        before.contains_key(txid) ==> #[trigger] after.contains_key(txid) && after[txid]
            == before[txid]
    &&& forall|i: int| 0 <= i < added.len() ==> after.contains_key((#[trigger] added[i]).txid)
    &&& forall|txid: Txid| #[trigger]
        after.contains_key(txid) ==> before.contains_key(txid) || exists|i: int|
            0 <= i < added.len() && (#[trigger] added[i]).txid == txid && after[txid] == added[i]
}

/// Whether a transaction that is held has an output.
pub open spec fn has_output(txs: Map<Txid, TransactionView>, outpoint: OutPoint) -> bool {
    txs.contains_key(outpoint.txid) && outpoint.vout < txs[outpoint.txid].outputs.len()
}

/// An output of a transaction that is held.
pub open spec fn output_at(txs: Map<Txid, TransactionView>, outpoint: OutPoint) -> TxOutView {
    txs[outpoint.txid].outputs[outpoint.vout as int]
}

/// Whether an output is taken for the wallet's own.
pub open spec fn is_watched(watched: Set<(OutPoint, Keychain, u32)>, outpoint: OutPoint) -> bool {
    exists|chain: Keychain, i: u32| watched.contains((outpoint, chain, i))
}

/// Whether what a wallet takes for its own follows from an update: nothing is given up, what is
/// new pays the script that it is recognized by or stands without its transaction, every output of
/// a new transaction that pays a script up to the last active index is recognized, none is newly
/// recognized by two scripts, and none that was recognized by the script that it pays is recognized
/// by another.
pub open spec fn watches_more(
    before: PersistedWallet<Connection>,
    last_active: u32,
    after: PersistedWallet<Connection>,
) -> bool {
    &&& wallet_watched(before).subset_of(wallet_watched(after))
    &&& forall|outpoint: OutPoint, chain: Keychain, i: u32| #[trigger]
        wallet_watched(after).contains((outpoint, chain, i)) ==> {
            ||| wallet_watched(before).contains((outpoint, chain, i))
            ||| has_output(wallet_txs(after), outpoint) && output_at(
                wallet_txs(after),
                outpoint,
            ).script_pubkey == wallet_scripts(after)[(chain, i)]
            ||| wallet_floating(after).contains_key(outpoint)
        }
    &&& forall|outpoint: OutPoint, chain: Keychain, i: u32|
        #![trigger has_output(wallet_txs(after), outpoint), wallet_scripts(after)[(chain, i)]]
        has_output(wallet_txs(after), outpoint) && !wallet_txs(before).contains_key(outpoint.txid)
            && i <= last_active && output_at(wallet_txs(after), outpoint).script_pubkey
            == wallet_scripts(after)[(chain, i)] ==> is_watched(wallet_watched(after), outpoint)
    &&& forall|outpoint: OutPoint, a: (Keychain, u32), b: (Keychain, u32)|
        #![trigger wallet_watched(after).contains((outpoint, a.0, a.1)),
            wallet_watched(after).contains((outpoint, b.0, b.1))]
        wallet_watched(after).contains((outpoint, a.0, a.1)) && wallet_watched(after).contains(
            (outpoint, b.0, b.1),
        ) && !is_watched(wallet_watched(before), outpoint) ==> a == b
    &&& forall|outpoint: OutPoint, a: (Keychain, u32), b: (Keychain, u32)|
        #![trigger wallet_watched(before).contains((outpoint, a.0, a.1)),
            wallet_watched(after).contains((outpoint, b.0, b.1))]
        wallet_watched(before).contains((outpoint, a.0, a.1)) && has_output(
            wallet_txs(before),
            outpoint,
        ) && output_at(wallet_txs(before), outpoint).script_pubkey == wallet_scripts(before)[a]
            && wallet_watched(after).contains((outpoint, b.0, b.1)) ==> wallet_watched(
            before,
        ).contains((outpoint, b.0, b.1))
}

/// The single outputs of a map whose transaction is not held in full.
pub open spec fn whole_forgotten(
    outputs: Map<OutPoint, TxOutView>,
    txids: Set<Txid>,
) -> Map<OutPoint, TxOutView> {
    outputs.restrict(Set::new(|outpoint: OutPoint| !txids.contains(outpoint.txid)))
}

/// Whether a record of sightings follows from an earlier one and newer sightings: each
/// transaction keeps its latest.
pub open spec fn latest_sightings(
    before: Map<Txid, u64>,
    sightings: Set<(Txid, u64)>,
    after: Map<Txid, u64>,
) -> bool {
    &&& forall|txid: Txid|
        before.contains_key(txid) ==> #[trigger] after.contains_key(txid) && before[txid]
            <= after[txid]
    &&& forall|txid: Txid, at: u64|
        #[trigger] sightings.contains((txid, at)) ==> after.contains_key(txid) && at <= after[txid]
    &&& forall|txid: Txid| #[trigger]
        after.contains_key(txid) ==> sightings.contains((txid, after[txid])) || (
        before.contains_key(txid) && before[txid] == after[txid])
}

/// Whether both keychains are revealed up to an index at least.
pub open spec fn revealed_to(revealed: Map<Keychain, u32>, index: u32) -> bool {
    forall|keychain: Keychain| #[trigger]
        revealed.contains_key(keychain) && index <= revealed[keychain]
}

/// `Wallet::list_unspent`: the outputs in the wallet's order, which follow from how the wallet was
/// made and what updates it has taken. Each is one that the wallet takes for its own, of a
/// transaction that it holds in full, and stands in the list once for each script that it is
/// recognized by. Two transactions that name the null output beside others cannot be told from a
/// double spend, on which BDK panics. Which transactions a wallet believes in where some contradict
/// each other, or are neither confirmed nor seen, is left unsaid: it takes BDK's canonicalization.
/// Where none do, the list is of all outputs that the wallet takes for its own and that no
/// transaction of it spends.
#[verifier::external_body]
pub(crate) fn list_unspent(wallet: &PersistedWallet<Connection>) -> (utxos: Vec<WalletUtxo>)
    requires
        null_named_once(wallet_txs(*wallet)),
    ensures
        utxos@ == unspent_after(
            wallet_descriptors(*wallet),
            wallet_network(*wallet),
            wallet_updates(*wallet),
        ),
        listed_once(utxos@),
        lists_owned(wallet_txs(*wallet), wallet_watched(*wallet), utxos@),
        all_placed(
            wallet_txs(*wallet),
            wallet_anchors(*wallet),
            wallet_chain(*wallet),
            wallet_last_seen(*wallet),
        ) && conflict_free(wallet_txs(*wallet)) ==> lists_unspent(
            wallet_txs(*wallet),
            wallet_watched(*wallet),
            utxos@,
        ),
{
    wallet.list_unspent().map(|utxo| WalletUtxo {
        outpoint: OutPoint {
            txid: Txid { bytes: hashes::Hash::to_byte_array(utxo.outpoint.txid) },
            vout: utxo.outpoint.vout,
        },
        keychain: match utxo.keychain {
            KeychainKind::External => Keychain::External,
            KeychainKind::Internal => Keychain::Internal,
        },
        derivation_index: utxo.derivation_index,
        value: utxo.txout.value.to_sat(),
    }).collect()
}

/// Whether a block of the chain confirms a transaction.
pub open spec fn is_anchored(
    anchors: Set<(Anchor, Txid)>,
    chain: Map<u32, BlockHash>,
    txid: Txid,
) -> bool {
    exists|anchor: Anchor| #[trigger]
        anchors.contains((anchor, txid)) && chain.contains_key(anchor.block.height)
            && chain[anchor.block.height] == anchor.block.hash
}

/// Whether each transaction that is held and opens a block is confirmed by a block of the chain, or
/// spent from by none that is held. One that is neither would be believed in without a block, on
/// which BDK panics.
pub open spec fn rewards_placed(
    txs: Map<Txid, TransactionView>,
    anchors: Set<(Anchor, Txid)>,
    chain: Map<u32, BlockHash>,
) -> bool {
    forall|reward: Txid, spender: Txid, i: int|
        #![trigger txs.contains_key(reward), txs[spender].inputs[i]]
        txs.contains_key(reward) && opens_block(txs[reward]) && !is_anchored(anchors, chain, reward)
            && txs.contains_key(spender) && 0 <= i < txs[spender].inputs.len()
            ==> txs[spender].inputs[i].txid != reward
}

/// Whether at most one of the transactions that are held names the null output beside others.
pub open spec fn null_named_once(txs: Map<Txid, TransactionView>) -> bool {
    forall|a: Txid, b: Txid|
        #![trigger txs.contains_key(a), txs.contains_key(b)]
        txs.contains_key(a) && txs.contains_key(b) && names_null(txs[a]) && names_null(txs[b])
            ==> a == b
}

/// Whether each output of a list stands in it once under a keychain and an index.
pub open spec fn listed_once(utxos: Seq<WalletUtxo>) -> bool {
    forall|i: int, j: int|
        #![trigger utxos[i], utxos[j]]
        0 <= i < j < utxos.len() ==> utxos[i].outpoint != utxos[j].outpoint || utxos[i].keychain
            != utxos[j].keychain || utxos[i].derivation_index != utxos[j].derivation_index
}

/// Whether each output of a list is taken for the wallet's own, under the keychain and the index
/// that the list gives, and is an output of a transaction that is held, with its value.
pub open spec fn lists_owned(
    txs: Map<Txid, TransactionView>,
    watched: Set<(OutPoint, Keychain, u32)>,
    utxos: Seq<WalletUtxo>,
) -> bool {
    forall|i: int|
        0 <= i < utxos.len() ==> {
            let utxo = #[trigger] utxos[i];
            &&& watched.contains((utxo.outpoint, utxo.keychain, utxo.derivation_index))
            &&& has_output(txs, utxo.outpoint)
            &&& output_at(txs, utxo.outpoint).value == utxo.value
        }
}

/// Whether each transaction that is held is confirmed by a block of the chain, or was seen in the
/// mempool.
pub open spec fn all_placed(
    txs: Map<Txid, TransactionView>,
    anchors: Set<(Anchor, Txid)>,
    chain: Map<u32, BlockHash>,
    last_seen: Map<Txid, u64>,
) -> bool {
    forall|txid: Txid| #[trigger]
        txs.contains_key(txid) ==> last_seen.contains_key(txid) || is_anchored(
            anchors,
            chain,
            txid,
        )
}

/// Whether a transaction spends an output. One that opens a block spends none.
pub open spec fn spends(tx: TransactionView, outpoint: OutPoint) -> bool {
    !opens_block(tx) && tx.inputs.contains(outpoint)
}

/// Whether no two transactions that are held spend the same output.
pub open spec fn conflict_free(txs: Map<Txid, TransactionView>) -> bool {
    forall|a: Txid, b: Txid, outpoint: OutPoint|
        #![trigger spends(txs[a], outpoint), spends(txs[b], outpoint)]
        txs.contains_key(a) && txs.contains_key(b) && a != b ==> !(spends(txs[a], outpoint)
            && spends(txs[b], outpoint))
}

/// Whether a transaction that is held spends an output.
pub open spec fn is_spent(txs: Map<Txid, TransactionView>, outpoint: OutPoint) -> bool {
    exists|txid: Txid| #[trigger] txs.contains_key(txid) && spends(txs[txid], outpoint)
}

/// Whether a list is of all outputs that are taken for the wallet's own and that no transaction
/// that is held spends.
pub open spec fn lists_unspent(
    txs: Map<Txid, TransactionView>,
    watched: Set<(OutPoint, Keychain, u32)>,
    utxos: Seq<WalletUtxo>,
) -> bool {
    forall|outpoint: OutPoint| #[trigger]
        lists(utxos, outpoint) <==> is_watched(watched, outpoint) && has_output(txs, outpoint)
            && !is_spent(txs, outpoint)
}

/// Whether everything that is taken for the wallet's own is an output of a transaction that is
/// held, and pays the script that it is recognized by.
pub open spec fn owned_by_script(
    txs: Map<Txid, TransactionView>,
    watched: Set<(OutPoint, Keychain, u32)>,
    scripts: Map<(Keychain, u32), Seq<u8>>,
) -> bool {
    forall|outpoint: OutPoint, chain: Keychain, i: u32| #[trigger]
        watched.contains((outpoint, chain, i)) ==> has_output(txs, outpoint) && output_at(
            txs,
            outpoint,
        ).script_pubkey == scripts[(chain, i)]
}

/// `Wallet::build_tx` with one recipient, a fee rate, the outputs that may not be spent and the
/// script that takes the change, and `TxBuilder::finish`. Which outputs are spent and in which
/// order rests on chance, and so may whether they are enough; what holds of every outcome is that
/// each is listed as unspent, is mature, is not among those that may not be spent and, if it is
/// listed once, is spent once, that the outputs pay the recipient and the change, and that what is
/// left over is the fee at the rate. Beside each input stands the output that it spends, if the
/// wallet has nothing but its own. To pay dust is refused, and what can be afforded on every draw
/// is not. The wallet stays as it is, since the script of the change is given.
#[verifier::external_body]
pub(crate) fn create_psbt(
    wallet: &mut PersistedWallet<Connection>,
    request: &TxRequest,
) -> (created: Result<Psbt, CreateTxError>)
    requires
        has_keychains(wallet_descriptors(*old(wallet))),
        heights_in_range(wallet_chain(*old(wallet))),
        null_named_once(wallet_txs(*old(wallet))),
        rewards_placed(
            wallet_txs(*old(wallet)),
            wallet_anchors(*old(wallet)),
            wallet_chain(*old(wallet)),
        ),
        selectable(wallet_unspent(*old(wallet)), request.unspendable@),
        within_reach(request.receiver@, request.amount_sat, request.sat_per_vb),
        request.receiver@.len() <= SCRIPT_LIMIT,
        request.change@.len() <= SCRIPT_LIMIT,
    ensures
        *final(wallet) == *old(wallet),
        created matches Ok(psbt) ==> {
            &&& psbt_coherent(psbt)
            &&& psbt_default(psbt)
            &&& psbt_spends(psbt).len() == psbt_inputs(psbt).len()
            &&& distinct(wallet_unspent(*old(wallet))) && owned_by_script(
                wallet_txs(*old(wallet)),
                wallet_watched(*old(wallet)),
                wallet_scripts(*old(wallet)),
            ) ==> forall|i: int|
                0 <= i < psbt_inputs(psbt).len() ==> psbt_spends(psbt)[i] == Some(
                    output_at(wallet_txs(*old(wallet)), #[trigger] psbt_inputs(psbt)[i]),
                )
            &&& distinct(wallet_unspent(*old(wallet))) ==> psbt_inputs(psbt).no_duplicates()
            &&& forall|i: int|
                0 <= i < psbt_inputs(psbt).len() ==> lists(
                    wallet_unspent(*old(wallet)),
                    #[trigger] psbt_inputs(psbt)[i],
                ) && !request.unspendable@.contains(psbt_inputs(psbt)[i]) && is_mature(
                    wallet_txs(*old(wallet)),
                    wallet_anchors(*old(wallet)),
                    wallet_chain(*old(wallet)),
                    psbt_inputs(psbt)[i].txid,
                )
            &&& pays(
                psbt_outputs(psbt),
                request.receiver@,
                request.amount_sat,
                request.change@,
            )
            &&& pays_fee(
                spent_value(psbt_inputs(psbt), wallet_unspent(*old(wallet))),
                psbt_inputs(psbt).len(),
                psbt_outputs(psbt),
                request.receiver@,
                request.change@,
                request.sat_per_vb,
            )
            &&& request.amount_sat >= dust_limit(request.receiver@)
        },
        affordable(
            wallet_txs(*old(wallet)),
            wallet_anchors(*old(wallet)),
            wallet_chain(*old(wallet)),
            wallet_unspent(*old(wallet)),
            request.unspendable@,
            request.receiver@,
            request.amount_sat,
            request.sat_per_vb,
        ) ==> created is Ok,
{
    let mut builder = wallet.build_tx();
    let receiver = ScriptBuf::from_bytes(request.receiver.clone());
    builder.add_recipient(receiver, Amount::from_sat(request.amount_sat));
    builder.fee_rate(FeeRate::from_sat_per_vb(request.sat_per_vb).expect("a fee rate"));
    builder.unspendable(request.unspendable.iter().map(|out| bdk_wallet::bitcoin::OutPoint {
        txid: hashes::Hash::from_byte_array(out.txid.bytes),
        vout: out.vout,
    }).collect());
    builder.drain_to(ScriptBuf::from_bytes(request.change.clone()));
    builder.finish()
}

/// `Wallet::sign` with the default options: it adds signatures, leaves the inputs, what is recorded
/// of them and the outputs alone, and answers whether every input is final then. A wallet of
/// extended private keys signs every input whose output is recorded and pays a script of the
/// wallet that the wallet recognized it by. Whether other inputs are signed is left unsaid. What
/// keychains of keys sign is a P2WPKH witness: a count of two, a signature and a key of 33 bytes,
/// each with its length. The signature is ground to 71 bytes at most with its type, and it has nine
/// at least.
#[verifier::external_body]
pub(crate) fn sign_psbt(
    wallet: &PersistedWallet<Connection>,
    psbt: &mut Psbt,
) -> (finalized: Result<bool, SignerError>)
    requires
        psbt_coherent(*old(psbt)),
    ensures
        psbt_inputs(*final(psbt)) == psbt_inputs(*old(psbt)),
        psbt_outputs(*final(psbt)) == psbt_outputs(*old(psbt)),
        psbt_coherent(*final(psbt)),
        psbt_spends(*final(psbt)) == psbt_spends(*old(psbt)),
        finalized matches Ok(done) ==> psbt_finalized(*final(psbt)) == done,
        psbt_default(*old(psbt)) && has_keys(wallet_descriptors(*wallet)) && signable(
            *wallet,
            psbt_inputs(*old(psbt)),
            psbt_spends(*old(psbt)),
        ) ==> finalized matches Ok(true),
        finalized matches Ok(true) && psbt_default(*old(psbt)) && has_keychains(
            wallet_descriptors(*wallet),
        ) ==> is_signature_weight(
            psbt_signature_weight(*final(psbt)),
            psbt_inputs(*old(psbt)).len(),
        ),
{
    wallet.sign(psbt, SignOptions::default())
}

/// Whether a weight is such as the signatures of some P2WPKH inputs add.
pub open spec fn is_signature_weight(weight: nat, inputs: nat) -> bool {
    2 + LEAST_WITNESS_WEIGHT * inputs <= weight <= 2 + MOST_WITNESS_WEIGHT * inputs
}

/// Whether the two keychains of a wallet are of extended private keys below one master key, at
/// different paths.
pub open spec fn has_keys(descriptors: Map<Keychain, Seq<char>>) -> bool {
    exists|fingerprint: Seq<char>, coin: u32, a: (u32, Seq<char>, u32), b: (u32, Seq<char>, u32)|
        {
            &&& descriptors[Keychain::External] == #[trigger] keychain(
                fingerprint,
                coin,
                a.0,
                a.1,
                a.2,
            )
            &&& descriptors[Keychain::Internal] == #[trigger] keychain(
                fingerprint,
                coin,
                b.0,
                b.1,
                b.2,
            )
            &&& xprv_depth(a.1) is Some && xprv_depth(b.1) is Some
            &&& a.0 != b.0 || a.2 != b.2
        }
}

/// Whether the output of every input is recorded, and pays the script by which the wallet takes it
/// for its own.
pub open spec fn signable(
    wallet: PersistedWallet<Connection>,
    inputs: Seq<OutPoint>,
    spends: Seq<Option<TxOutView>>,
) -> bool {
    &&& spends.len() == inputs.len()
    &&& forall|i: int|
        0 <= i < inputs.len() ==> (#[trigger] spends[i]) is Some && recognized_by(
            wallet,
            inputs[i],
            spends[i]->0.script_pubkey,
        )
}

/// Whether a wallet takes an output for its own by a script.
pub open spec fn recognized_by(
    wallet: PersistedWallet<Connection>,
    outpoint: OutPoint,
    script_pubkey: Seq<u8>,
) -> bool {
    exists|chain: Keychain, i: u32| #[trigger]
        wallet_watched(wallet).contains((outpoint, chain, i)) && wallet_scripts(wallet)[(chain, i)]
            == script_pubkey
}

/// `Psbt::extract_tx` and `bitcoin::consensus::serialize`: the bytes decode to a transaction with
/// the inputs and the outputs that were signed, each input has what was final of it, and the weight
/// is that of the transaction without its signatures and of what they add. A transaction whose
/// inputs are all recorded is refused exactly where its fee is absurd for its weight, up to a
/// weight beyond all memory. What becomes of one with inputs that are not recorded is left unsaid.
#[verifier::external_body]
pub(crate) fn extract_tx(psbt: Psbt) -> (extracted: Result<Vec<u8>, ExtractTxError>)
    requires
        psbt_coherent(psbt),
        psbt_finalized(psbt),
    ensures
        extracted matches Ok(raw) ==> {
            &&& tx_decode(raw@) is Some
            &&& tx_decode(raw@)->0.inputs == psbt_inputs(psbt)
            &&& tx_decode(raw@)->0.outputs == psbt_outputs(psbt)
            &&& tx_signed(raw@)
            &&& tx_weight(raw@) == signed_weight(psbt)
        },
        all_recorded(psbt_spends(psbt)) && psbt_spends(psbt).len() == psbt_inputs(psbt).len()
            && paid_value(psbt_outputs(psbt)) <= recorded_value(psbt_spends(psbt)) <= VALUE_LIMIT
            && signed_weight(psbt) <= WEIGHT_LIMIT ==> (extracted is Ok <==> !is_absurd(
            recorded_value(psbt_spends(psbt)) - paid_value(psbt_outputs(psbt)),
            signed_weight(psbt),
        )),
{
    psbt.extract_tx().map(|tx| encode::serialize(&tx))
}

/// The weight of a transaction under construction with what its final scripts and witnesses add.
pub open spec fn signed_weight(psbt: Psbt) -> nat {
    4 * bare_size(psbt_inputs(psbt).len(), psbt_outputs(psbt)) + psbt_signature_weight(psbt)
}

} // verus!
