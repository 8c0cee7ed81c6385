//! The scan of the confirmed UTXO set.

use crate::types::{is_zero_hash, BlockHash, BlockId, Txid};
use vstd::prelude::*;

verus! {

/// The first derivation index that a scan covers on each keychain.
pub const SCAN_FIRST: u64 = 0;

/// The last derivation index that a scan covers on each keychain.
pub const SCAN_LAST: u64 = 1000;

/// What a node is asked to look for: a descriptor, over a range of derivation indices.
#[derive(Debug, Clone, PartialEq, Eq)]
pub struct ScanRequest {
    pub descriptor: String,
    pub first: u64,
    pub last: u64,
}

/// An unspent output that a node found.
#[derive(Debug, Clone, PartialEq, Eq)]
pub struct Utxo {
    pub txid: Txid,
    pub vout: u32,
    pub script_pubkey: Vec<u8>,
    /// Value in satoshis.
    pub amount: u64,
    /// Height of the block that holds the output.
    pub height: u64,
}

/// What a node answers to a scan.
#[derive(Debug, Clone, PartialEq, Eq)]
pub struct ScanResult {
    pub success: Option<bool>,
    pub height: Option<u64>,
    pub best_block_hash: Option<BlockHash>,
    pub unspents: Vec<Utxo>,
}

/// The confirmed outputs of a wallet, with the chain tip at which they were found.
#[derive(Debug, Clone, PartialEq, Eq)]
pub struct ConfirmedSnapshot {
    pub tip: BlockId,
    pub utxos: Vec<Utxo>,
}

/// The node says that its scan failed.
#[derive(Debug, Clone, Copy, PartialEq, Eq)]
pub struct ScanFailed;

/// The low half of a height, which is all that BDK keeps of one.
pub open spec fn low_half(height: u64) -> u32 {
    (height % 0x1_0000_0000) as u32
}

/// The low half of a height.
pub fn low_half_of(height: u64) -> (low: u32)
    ensures
        low == low_half(height),
{
    (height % 0x1_0000_0000) as u32
}

/// Whether a block is the tip of a scan: its height is zero where the node gives none, and so is
/// its hash.
pub open spec fn is_tip(result: ScanResult, tip: BlockId) -> bool {
    &&& tip.height == low_half(
        match result.height {
            Some(height) => height,
            None => 0,
        },
    )
    &&& match result.best_block_hash {
        Some(hash) => tip.hash == hash,
        None => is_zero_hash(tip.hash),
    }
}

/// Names the scan of both keychains of a wallet.
pub fn scan_requests(external: &String, internal: &String) -> (requests: Vec<ScanRequest>)
    ensures
        requests@.len() == 2,
        requests@[0].descriptor@ == external@,
        requests@[1].descriptor@ == internal@,
        forall|i: int|
            0 <= i < 2 ==> (#[trigger] requests@[i]).first == SCAN_FIRST && requests@[i].last
                == SCAN_LAST,
{
    let mut requests: Vec<ScanRequest> = Vec::new();
    requests.push(
        ScanRequest { descriptor: external.clone(), first: SCAN_FIRST, last: SCAN_LAST },
    );
    requests.push(
        ScanRequest { descriptor: internal.clone(), first: SCAN_FIRST, last: SCAN_LAST },
    );
    requests
}

/// Reads the answer to a scan. It is refused only where the node says that the scan failed.
pub fn scan_utxos(result: ScanResult) -> (snapshot: Result<ConfirmedSnapshot, ScanFailed>)
    ensures
        match snapshot {
            Ok(snapshot) => result.success != Some(false) && is_tip(result, snapshot.tip)
                && snapshot.utxos@ == result.unspents@,
            Err(_) => result.success == Some(false),
        },
{
    match result.success {
        Some(false) => return Err(ScanFailed),
        _ => {},
    }
    let height: u64 = match result.height {
        Some(height) => height,
        None => 0,
    };
    let hash: BlockHash = match result.best_block_hash {
        Some(hash) => hash,
        None => BlockHash { bytes: [0; 32] },
    };
    Ok(ConfirmedSnapshot {
        tip: BlockId { height: low_half_of(height), hash },
        utxos: result.unspents,
    })
}

} // verus!
