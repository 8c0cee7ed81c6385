//! Plain values that the generator works on.

use vstd::prelude::*;

verus! {

/// A value that can be told apart from another of its kind.
pub trait Key: Copy {
    /// Whether two values are one and the same.
    fn same(&self, other: &Self) -> (same: bool)
        ensures
            same == (*self == *other),
    ;
}

/// Transaction id, in the byte order in which it is hashed.
#[derive(Debug, Clone, Copy, PartialEq, Eq)]
pub struct Txid {
    pub bytes: [u8; 32],
}

/// Block hash, in the byte order in which it is hashed.
#[derive(Debug, Clone, Copy, PartialEq, Eq)]
pub struct BlockHash {
    pub bytes: [u8; 32],
}

/// One output of one transaction.
#[derive(Debug, Clone, Copy, PartialEq, Eq)]
pub struct OutPoint {
    pub txid: Txid,
    pub vout: u32,
}

/// A block by its height and hash.
#[derive(Debug, Clone, Copy, PartialEq, Eq)]
pub struct BlockId {
    pub height: u32,
    pub hash: BlockHash,
}

/// A transaction as it is found in a given block.
#[derive(Debug, Clone, Copy, PartialEq, Eq)]
pub struct ConfirmedKey {
    pub txid: Txid,
    pub block: BlockHash,
}

/// A transaction output: its value in satoshis and the script that locks it.
#[derive(Debug, Clone, PartialEq, Eq)]
pub struct TxOut {
    pub value: u64,
    pub script_pubkey: Vec<u8>,
}

/// What a [`TxOut`] says.
pub struct TxOutView {
    pub value: u64,
    pub script_pubkey: Seq<u8>,
}

impl View for TxOut {
    type V = TxOutView;

    open spec fn view(&self) -> TxOutView {
        TxOutView { value: self.value, script_pubkey: self.script_pubkey@ }
    }
}

/// The outputs of a list, one by one.
pub open spec fn txout_views(outputs: Seq<TxOut>) -> Seq<TxOutView> {
    Seq::new(outputs.len(), |i: int| outputs[i]@)
}

/// A fixed address: the text that a user sees and the script that pays it.
#[derive(Debug, Clone, PartialEq, Eq)]
pub struct Address {
    pub text: String,
    pub script_pubkey: Vec<u8>,
}

/// What an [`Address`] says.
pub struct AddressView {
    pub text: Seq<char>,
    pub script_pubkey: Seq<u8>,
}

impl View for Address {
    type V = AddressView;

    open spec fn view(&self) -> AddressView {
        AddressView { text: self.text@, script_pubkey: self.script_pubkey@ }
    }
}

/// The hash that stands in where a node names no best block.
pub open spec fn is_zero_hash(hash: BlockHash) -> bool {
    forall|i: int| 0 <= i < 32 ==> hash.bytes@[i] == 0
}

/// Whether two hashes of 32 bytes agree in every byte.
fn same_bytes(a: &[u8; 32], b: &[u8; 32]) -> (same: bool)
    ensures
        same == (*a == *b),
{
    let mut i: usize = 0;
    while i < 32
        invariant
            i <= 32,
            forall|j: int| 0 <= j < i ==> a@[j] == b@[j],
        decreases 32 - i,
    {
        if a[i] != b[i] {
            return false;
        }
        i += 1;
    }
    assert(*a =~= *b);
    true
}

impl Key for Txid {
    fn same(&self, other: &Self) -> (same: bool) {
        same_bytes(&self.bytes, &other.bytes)
    }
}

impl Key for BlockHash {
    fn same(&self, other: &Self) -> (same: bool) {
        same_bytes(&self.bytes, &other.bytes)
    }
}

impl Key for OutPoint {
    fn same(&self, other: &Self) -> (same: bool) {
        self.vout == other.vout && self.txid.same(&other.txid)
    }
}

impl Key for ConfirmedKey {
    fn same(&self, other: &Self) -> (same: bool) {
        self.txid.same(&other.txid) && self.block.same(&other.block)
    }
}

/// Whether a list holds a value.
pub fn contains<K: Key>(list: &Vec<K>, key: &K) -> (found: bool)
    ensures
        found == list@.contains(*key),
{
    let mut i: usize = 0;
    while i < list.len()
        invariant
            i <= list@.len(),
            forall|j: int| 0 <= j < i ==> list@[j] != *key,
        decreases list@.len() - i,
    {
        if list[i].same(key) {
            return true;
        }
        i += 1;
    }
    false
}

/// Whether two byte strings are equal.
pub fn same_script(a: &Vec<u8>, b: &Vec<u8>) -> (same: bool)
    ensures
        same == (a@ == b@),
{
    if a.len() != b.len() {
        return false;
    }
    let mut i: usize = 0;
    while i < a.len()
        invariant
            i <= a@.len(),
            a@.len() == b@.len(),
            forall|j: int| 0 <= j < i ==> a@[j] == b@[j],
        decreases a@.len() - i,
    {
        if a[i] != b[i] {
            return false;
        }
        i += 1;
    }
    assert(a@ =~= b@);
    true
}

/// A copy of a list of outpoints.
pub fn copy_outpoints(outpoints: &Vec<OutPoint>) -> (copy: Vec<OutPoint>)
    ensures
        copy@ == outpoints@,
{
    let mut copy: Vec<OutPoint> = Vec::new();
    append_outpoints(&mut copy, outpoints);
    assert(copy@ =~= outpoints@);
    copy
}

/// Adds a list of outpoints to the end of another.
pub fn append_outpoints(list: &mut Vec<OutPoint>, more: &Vec<OutPoint>)
    ensures
        final(list)@ == old(list)@ + more@,
{
    let ghost before = list@;
    let mut i: usize = 0;
    while i < more.len()
        invariant
            i <= more@.len(),
            list@ == before + more@.take(i as int),
        decreases more@.len() - i,
    {
        list.push(more[i]);
        i += 1;
        assert(more@.take(i as int) =~= more@.take(i - 1).push(more@[i - 1]));
    }
    assert(more@.take(i as int) =~= more@);
}

} // verus!
