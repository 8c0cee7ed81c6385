//! Transactions as the generator reads them.

use crate::types::{contains, txout_views, OutPoint, TxOut, TxOutView, Txid};
use bdk_wallet::bitcoin::consensus::encode;
use bdk_wallet::bitcoin::hashes;
use vstd::prelude::*;

verus! {

/// The error of the `bitcoin` crate's consensus decoding, carried as it came.
#[verifier::external_type_specification]
#[verifier::external_body]
pub struct ExEncodeError(bdk_wallet::bitcoin::consensus::encode::Error);

/// What the generator reads of a transaction.
pub struct TransactionView {
    pub txid: Txid,
    pub inputs: Seq<OutPoint>,
    pub outputs: Seq<TxOutView>,
}

/// What a consensus encoding decodes to, or nothing where it is malformed: the id, the
/// previous outputs of the inputs and the outputs, each in its order.
pub uninterp spec fn tx_decode(raw: Seq<u8>) -> Option<TransactionView>;

/// A transaction: its consensus encoding and what the generator reads of it.
#[derive(Debug)]
pub struct Transaction {
    txid: Txid,
    inputs: Vec<OutPoint>,
    outputs: Vec<TxOut>,
    raw: Vec<u8>,
}

/// Why bytes are not taken for a transaction.
#[derive(Debug)]
pub enum DecodeError {
    /// They are no consensus encoding.
    Malformed(encode::Error),
}

/// The previous output that the input of a coinbase transaction names.
pub open spec fn is_null(outpoint: OutPoint) -> bool {
    outpoint.vout == u32::MAX && forall|i: int| 0 <= i < 32 ==> outpoint.txid.bytes@[i] == 0
}

/// Whether a transaction opens a block: it has one input, which names the null output.
pub open spec fn opens_block(tx: TransactionView) -> bool {
    tx.inputs.len() == 1 && is_null(tx.inputs[0])
}

/// Whether a transaction names the null output and does not open a block. No node accepts it, and
/// a wallet can hold one such transaction only.
pub open spec fn names_null(tx: TransactionView) -> bool {
    tx.inputs.len() != 1 && exists|i: int|
        0 <= i < tx.inputs.len() && is_null(#[trigger] tx.inputs[i])
}

/// Whether a transaction is such as a wallet can hold: no output is spent twice, and the outputs
/// can be told apart.
pub open spec fn holdable(tx: TransactionView) -> bool {
    &&& tx.inputs.no_duplicates()
    &&& tx.outputs.len() <= u32::MAX
}

impl View for Transaction {
    type V = TransactionView;

    closed spec fn view(&self) -> TransactionView {
        TransactionView {
            txid: self.txid,
            inputs: self.inputs@,
            outputs: txout_views(self.outputs@),
        }
    }
}

impl Transaction {
    /// The consensus encoding.
    pub closed spec fn bytes(&self) -> Seq<u8> {
        self.raw@
    }

    /// The encoding decodes to what is held beside it.
    #[verifier::type_invariant]
    pub open spec fn sound(&self) -> bool {
        tx_decode(self.bytes()) == Some(self@)
    }

    /// Whether this is the transaction that opens a block.
    pub open spec fn coinbase(&self) -> bool {
        opens_block(self@)
    }

    /// Reads a transaction from its consensus encoding.
    pub fn decode(raw: &Vec<u8>) -> (decoded: Result<Transaction, DecodeError>)
        ensures
            match decoded {
                Ok(tx) => tx_decode(raw@) == Some(tx@) && tx.bytes() == raw@,
                Err(DecodeError::Malformed(_)) => tx_decode(raw@) is None,
            },
    {
        let (txid, inputs, outputs) = match deserialize_tx(raw) {
            Ok(parts) => parts,
            Err(error) => return Err(DecodeError::Malformed(error)),
        };
        let raw: Vec<u8> = copy_bytes(raw);
        Ok(Transaction { txid, inputs, outputs, raw })
    }

    /// The transaction id.
    pub fn txid(&self) -> (txid: Txid)
        ensures
            txid == self@.txid,
    {
        self.txid
    }

    /// The outputs that the transaction spends, in the order of its inputs.
    pub fn inputs(&self) -> (inputs: &Vec<OutPoint>)
        ensures
            inputs@ == self@.inputs,
    {
        &self.inputs
    }

    /// The outputs of the transaction.
    pub fn outputs(&self) -> (outputs: &Vec<TxOut>)
        ensures
            txout_views(outputs@) == self@.outputs,
    {
        &self.outputs
    }

    /// The consensus encoding.
    pub fn raw(&self) -> (raw: &Vec<u8>)
        ensures
            raw@ == self.bytes(),
    {
        &self.raw
    }

    /// Whether this is the transaction that opens a block.
    pub fn is_coinbase(&self) -> (coinbase: bool)
        ensures
            coinbase == self.coinbase(),
    {
        self.inputs.len() == 1 && is_null_outpoint(&self.inputs[0])
    }

    /// Whether this spends an output twice.
    pub fn repeats_input(&self) -> (repeated: bool)
        ensures
            repeated == !self@.inputs.no_duplicates(),
    {
        has_repeated(&self.inputs)
    }

    /// Whether a wallet can hold this.
    pub fn is_holdable(&self) -> (fits: bool)
        ensures
            fits == holdable(self@),
    {
        !self.repeats_input() && self.outputs.len() <= 0xffff_ffff
    }

    /// Whether this names the null output and does not open a block.
    pub fn has_null_input(&self) -> (named: bool)
        ensures
            named == names_null(self@),
    {
        self.inputs.len() != 1 && has_null(&self.inputs)
    }
}

/// Whether an outpoint is the null output.
fn is_null_outpoint(outpoint: &OutPoint) -> (null: bool)
    ensures
        null == is_null(*outpoint),
{
    if outpoint.vout != u32::MAX {
        return false;
    }
    let mut i: usize = 0;
    while i < 32
        invariant
            i <= 32,
            forall|j: int| 0 <= j < i ==> outpoint.txid.bytes@[j] == 0,
        decreases 32 - i,
    {
        if outpoint.txid.bytes[i] != 0 {
            return false;
        }
        i += 1;
    }
    true
}

/// Whether the null output stands in a list.
fn has_null(list: &Vec<OutPoint>) -> (found: bool)
    ensures
        found == exists|i: int| 0 <= i < list@.len() && is_null(#[trigger] list@[i]),
{
    let mut i: usize = 0;
    while i < list.len()
        invariant
            i <= list@.len(),
            forall|j: int| 0 <= j < i ==> !is_null(#[trigger] list@[j]),
        decreases list@.len() - i,
    {
        if is_null_outpoint(&list[i]) {
            return true;
        }
        i += 1;
    }
    false
}

/// Whether a value stands twice in a list.
fn has_repeated(list: &Vec<OutPoint>) -> (repeated: bool)
    ensures
        repeated == !list@.no_duplicates(),
{
    let mut seen: Vec<OutPoint> = Vec::new();
    let mut i: usize = 0;
    while i < list.len()
        invariant
            i <= list@.len(),
            seen@ == list@.take(i as int),
            list@.take(i as int).no_duplicates(),
        decreases list@.len() - i,
    {
        if contains(&seen, &list[i]) {
            proof {
                let j = choose|j: int| 0 <= j < seen@.len() && seen@[j] == list@[i as int];
                assert(list@[j] == list@[i as int]);
            }
            return true;
        }
        proof {
            let longer = list@.take(i + 1);
            assert forall|a: int, b: int|
                0 <= a < longer.len() && 0 <= b < longer.len() && a != b implies longer[a]
                != longer[b] by {
                if a == i {
                    assert(seen@[b] == longer[b]);
                } else if b == i {
                    assert(seen@[a] == longer[a]);
                } else {
                    assert(list@.take(i as int)[a] == longer[a]);
                    assert(list@.take(i as int)[b] == longer[b]);
                }
            }
            assert(list@.take(i as int).push(list@[i as int]) =~= longer);
        }
        seen.push(list[i]);
        i += 1;
    }
    assert(list@.take(i as int) =~= list@);
    false
}

/// A copy of a byte string.
pub fn copy_bytes(bytes: &Vec<u8>) -> (copy: Vec<u8>)
    ensures
        copy@ == bytes@,
{
    let mut copy: Vec<u8> = Vec::new();
    let mut i: usize = 0;
    while i < bytes.len()
        invariant
            i <= bytes@.len(),
            copy@ == bytes@.take(i as int),
        decreases bytes@.len() - i,
    {
        copy.push(bytes[i]);
        i += 1;
        assert(bytes@.take(i as int) =~= bytes@.take(i - 1).push(bytes@[i - 1]));
    }
    assert(bytes@.take(i as int) =~= bytes@);
    copy
}

/// `bitcoin::consensus::deserialize` for a transaction, with the id that
/// `Transaction::compute_txid` gives: the parts are those that the bytes decode to, and there
/// is an error exactly where they are no encoding.
#[verifier::external_body]
fn deserialize_tx(raw: &Vec<u8>) -> (parts: Result<
    (Txid, Vec<OutPoint>, Vec<TxOut>),
    encode::Error,
>)
    ensures
        match parts {
            Ok((txid, inputs, outputs)) => tx_decode(raw@) == Some(
                (TransactionView {
                    txid,
                    inputs: inputs@,
                    outputs: txout_views(outputs@),
                }),
            ),
            Err(_) => tx_decode(raw@) is None,
        },
{
    let tx: bdk_wallet::bitcoin::Transaction = encode::deserialize(raw)?;
    let txid = Txid { bytes: hashes::Hash::to_byte_array(tx.compute_txid()) };
    let inputs = tx.input.iter().map(|input| OutPoint {
        txid: Txid { bytes: hashes::Hash::to_byte_array(input.previous_output.txid) },
        vout: input.previous_output.vout,
    });
    let outputs = tx.output.iter().map(|output| TxOut {
        value: output.value.to_sat(),
        script_pubkey: output.script_pubkey.to_bytes(),
    });
    Ok((txid, inputs.collect(), outputs.collect()))
}

} // verus!
