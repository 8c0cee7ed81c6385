//! The transactions of one tick.

use crate::bdk::{entry, is_last, lists, total_value, WalletUtxo, SCRIPT_LIMIT};
use crate::mempool::inputs_of;
use crate::tx::{Transaction, TransactionView};
use crate::types::{
    append_outpoints, contains, copy_outpoints, same_script, txout_views, Address, Key, OutPoint,
    TxOut, TxOutView, Txid,
};
use crate::wallet::{build_tx, fails_with, fulfils, given_out, payable, BuildError, TickWallet};
use std::sync::Arc;
use vstd::prelude::*;

verus! {

/// What each transaction of a batch has to do.
#[derive(Debug, Clone, Copy)]
pub struct Payment<'a> {
    pub receiver: &'a Address,
    pub change: &'a Address,
    pub amount_sat: u64,
    pub fee_rate_sat_per_vb: u64,
}

/// What a [`Payment`] says.
pub struct PaymentView {
    pub receiver: Seq<u8>,
    pub change: Seq<u8>,
    pub amount_sat: u64,
    pub fee_rate_sat_per_vb: u64,
}

impl<'a> View for Payment<'a> {
    type V = PaymentView;

    open spec fn view(&self) -> PaymentView {
        PaymentView {
            receiver: self.receiver.script_pubkey@,
            change: self.change.script_pubkey@,
            amount_sat: self.amount_sat,
            fee_rate_sat_per_vb: self.fee_rate_sat_per_vb,
        }
    }
}

impl<'a> Payment<'a> {
    /// Both scripts are of a length that coin selection takes.
    pub open spec fn wf(&self) -> bool {
        &&& self.receiver.script_pubkey@.len() <= SCRIPT_LIMIT
        &&& self.change.script_pubkey@.len() <= SCRIPT_LIMIT
    }
}

// ---------------------------------------------------------------------------------------
// What may not be spent.
// ---------------------------------------------------------------------------------------

/// Lists the outputs that a wallet takes for unspent and that are spent all the same.
pub fn blocked_outputs(unspent: &Vec<WalletUtxo>, spent: &Vec<OutPoint>) -> (blocked: Vec<OutPoint>)
    ensures
        blocked@.no_duplicates(),
        forall|outpoint: OutPoint| #[trigger]
            blocked@.contains(outpoint) <==> lists(unspent@, outpoint) && spent@.contains(outpoint),
{
    let mut blocked: Vec<OutPoint> = Vec::new();
    let mut i: usize = 0;
    while i < unspent.len()
        invariant
            i <= unspent@.len(),
            blocked@.no_duplicates(),
            forall|outpoint: OutPoint| #[trigger]
                blocked@.contains(outpoint) <==> lists(unspent@.take(i as int), outpoint)
                    && spent@.contains(outpoint),
        decreases unspent@.len() - i,
    {
        let outpoint: OutPoint = unspent[i].outpoint;
        let ghost before = blocked@;
        proof {
            assert forall|o: OutPoint| #[trigger]
                lists(unspent@.take(i + 1), o) <==> lists(unspent@.take(i as int), o) || o
                    == outpoint by {
                let shorter = unspent@.take(i as int);
                let longer = unspent@.take(i + 1);
                if lists(shorter, o) {
                    let k = choose|k: int|
                        0 <= k < shorter.len() && (#[trigger] shorter[k]).outpoint == o;
                    assert(longer[k].outpoint == o);
                }
                if o == outpoint {
                    assert(longer[i as int].outpoint == o);
                }
                if lists(longer, o) && o != outpoint {
                    let k = choose|k: int|
                        0 <= k < longer.len() && (#[trigger] longer[k]).outpoint == o;
                    assert(shorter[k].outpoint == o);
                }
            }
        }
        if contains(spent, &outpoint) && !contains(&blocked, &outpoint) {
            blocked.push(outpoint);
            proof {
                lemma_push_contains(before, outpoint);
            }
        }
        i += 1;
    }
    assert(unspent@.take(i as int) =~= unspent@);
    blocked
}

/// What a list holds once something new is put at its end.
proof fn lemma_push_contains<A>(list: Seq<A>, new: A)
    ensures
        forall|a: A| #[trigger] list.push(new).contains(a) <==> list.contains(a) || a == new,
        list.no_duplicates() && !list.contains(new) ==> list.push(new).no_duplicates(),
{
    let longer = list.push(new);
    assert forall|a: A| #[trigger] longer.contains(a) <==> list.contains(a) || a == new by {
        if list.contains(a) {
            let k = choose|k: int| 0 <= k < list.len() && list[k] == a;
            assert(longer[k] == a);
        }
        if a == new {
            assert(longer[list.len() as int] == a);
        }
        if longer.contains(a) && a != new {
            let k = choose|k: int| 0 <= k < longer.len() && longer[k] == a;
            assert(list[k] == a);
        }
    }
    if list.no_duplicates() && !list.contains(new) {
        assert forall|i: int, j: int|
            0 <= i < longer.len() && 0 <= j < longer.len() && i != j implies longer[i]
            != longer[j] by {
            if i == list.len() {
                assert(list.contains(list[j]));
            } else if j == list.len() {
                assert(list.contains(list[i]));
            }
        }
    }
}

// ---------------------------------------------------------------------------------------
// What a transaction amounts to.
// ---------------------------------------------------------------------------------------

/// How many inputs of a transaction are shown one by one.
pub const SHOWN_INPUTS: usize = 3;

/// Where an output goes.
#[derive(Debug, Clone, Copy, PartialEq, Eq, Structural)]
pub enum OutputRole {
    Receiver,
    Change,
    Unexpected,
}

/// What is reported of a transaction.
#[derive(Debug)]
pub struct TxSummary {
    pub txid: Txid,
    /// How many outputs it spends.
    pub input_count: usize,
    /// The satoshis that it spends.
    pub input_total: u128,
    /// The first few outputs that it spends.
    pub shown: Vec<WalletUtxo>,
    /// How many more it spends.
    pub more_inputs: usize,
    /// Where its outputs go.
    pub roles: Vec<OutputRole>,
    /// How many of its outputs go neither to the receiver nor to the change.
    pub unexpected: usize,
}

/// The entries of the outputs that a transaction spends, as far as they are listed.
pub open spec fn known_inputs(inputs: Seq<OutPoint>, utxos: Seq<WalletUtxo>) -> Seq<WalletUtxo>
    decreases inputs.len(),
{
    if inputs.len() == 0 {
        Seq::empty()
    } else {
        let rest = known_inputs(inputs.drop_last(), utxos);
        if lists(utxos, inputs.last()) {
            rest.push(entry(utxos, inputs.last()))
        } else {
            rest
        }
    }
}

/// Adds up the values of a list of outputs.
pub fn sum_values(utxos: &Vec<WalletUtxo>) -> (total: u128)
    ensures
        total == total_value(utxos@),
{
    let mut total: u128 = 0;
    let mut i: usize = 0;
    while i < utxos.len()
        invariant
            i <= utxos@.len(),
            total == total_value(utxos@.take(i as int)),
            total <= i * 0xffff_ffff_ffff_ffff,
        decreases utxos@.len() - i,
    {
        assert(utxos@.take(i + 1).drop_last() =~= utxos@.take(i as int));
        total += utxos[i].value as u128;
        i += 1;
    }
    assert(utxos@.take(i as int) =~= utxos@);
    total
}

/// Where an output with a script goes. The receiver comes first where both scripts are one.
pub open spec fn role_of(script_pubkey: Seq<u8>, receiver: Seq<u8>, change: Seq<u8>) -> OutputRole {
    if script_pubkey == receiver {
        OutputRole::Receiver
    } else if script_pubkey == change {
        OutputRole::Change
    } else {
        OutputRole::Unexpected
    }
}

/// Where the outputs of a transaction go.
pub open spec fn roles_of(outputs: Seq<TxOutView>, receiver: Seq<u8>, change: Seq<u8>) -> Seq<
    OutputRole,
> {
    Seq::new(outputs.len(), |i: int| role_of(outputs[i].script_pubkey, receiver, change))
}

/// How many outputs go neither to the receiver nor to the change.
pub open spec fn unexpected_in(roles: Seq<OutputRole>) -> nat
    decreases roles.len(),
{
    if roles.len() == 0 {
        0
    } else {
        unexpected_in(roles.drop_last()) + if roles.last() == OutputRole::Unexpected {
            1nat
        } else {
            0nat
        }
    }
}

/// Whether a summary is that of a transaction.
pub open spec fn summarizes(
    summary: TxSummary,
    tx: TransactionView,
    unspent: Seq<WalletUtxo>,
    receiver: Seq<u8>,
    change: Seq<u8>,
) -> bool {
    let known = known_inputs(tx.inputs, unspent);
    &&& summary.txid == tx.txid
    &&& summary.input_count == tx.inputs.len()
    &&& summary.input_total == total_value(known)
    &&& summary.shown@ == known.take(
        if known.len() < SHOWN_INPUTS {
            known.len() as int
        } else {
            SHOWN_INPUTS as int
        },
    )
    &&& summary.more_inputs == if tx.inputs.len() > SHOWN_INPUTS {
        tx.inputs.len() - SHOWN_INPUTS
    } else {
        0
    }
    &&& summary.roles@ == roles_of(tx.outputs, receiver, change)
    &&& summary.unexpected == unexpected_in(summary.roles@)
}

/// Finds the last entry of an output in a list.
fn find_entry(utxos: &Vec<WalletUtxo>, outpoint: &OutPoint) -> (found: Option<WalletUtxo>)
    ensures
        match found {
            Some(found) => lists(utxos@, *outpoint) && found == entry(utxos@, *outpoint),
            None => !lists(utxos@, *outpoint),
        },
{
    let mut i: usize = utxos.len();
    while i > 0
        invariant
            i <= utxos@.len(),
            forall|k: int| i <= k < utxos@.len() ==> (#[trigger] utxos@[k]).outpoint != *outpoint,
        decreases i,
    {
        i -= 1;
        if utxos[i].outpoint.same(outpoint) {
            proof {
                assert(utxos@[i as int].outpoint == *outpoint);
                assert(is_last(utxos@, *outpoint, i as int));
                let k = choose|k: int| is_last(utxos@, *outpoint, k);
                assert(k == i);
            }
            return Some(utxos[i]);
        }
    }
    None
}

/// Sums a transaction up.
pub fn summarize(
    tx: &Transaction,
    unspent: &Vec<WalletUtxo>,
    receiver: &Vec<u8>,
    change: &Vec<u8>,
) -> (summary: TxSummary)
    ensures
        summarizes(summary, tx@, unspent@, receiver@, change@),
{
    let inputs: &Vec<OutPoint> = tx.inputs();
    let mut input_total: u128 = 0;
    let mut shown: Vec<WalletUtxo> = Vec::new();
    let mut i: usize = 0;
    while i < inputs.len()
        invariant
            i <= inputs@.len(),
            input_total == total_value(known_inputs(inputs@.take(i as int), unspent@)),
            input_total <= i * 0xffff_ffff_ffff_ffff,
            shown@ == known_inputs(inputs@.take(i as int), unspent@).take(
                if known_inputs(inputs@.take(i as int), unspent@).len() < SHOWN_INPUTS {
                    known_inputs(inputs@.take(i as int), unspent@).len() as int
                } else {
                    SHOWN_INPUTS as int
                },
            ),
        decreases inputs@.len() - i,
    {
        let ghost known = known_inputs(inputs@.take(i as int), unspent@);
        assert(inputs@.take(i + 1).drop_last() =~= inputs@.take(i as int));
        match find_entry(unspent, &inputs[i]) {
            Some(utxo) => {
                assert(known.push(utxo).drop_last() =~= known);
                input_total += utxo.value as u128;
                if shown.len() < SHOWN_INPUTS {
                    shown.push(utxo);
                    assert(shown@ =~= known.push(utxo).take(shown@.len() as int));
                } else {
                    assert(shown@ =~= known.push(utxo).take(SHOWN_INPUTS as int));
                }
            },
            None => {},
        }
        i += 1;
    }
    assert(inputs@.take(i as int) =~= inputs@);
    let more_inputs: usize = if inputs.len() > SHOWN_INPUTS {
        inputs.len() - SHOWN_INPUTS
    } else {
        0
    };

    let outputs: &Vec<TxOut> = tx.outputs();
    let mut roles: Vec<OutputRole> = Vec::new();
    let mut unexpected: usize = 0;
    let mut n: usize = 0;
    while n < outputs.len()
        invariant
            n <= outputs@.len(),
            txout_views(outputs@) == tx@.outputs,
            roles@.len() == n,
            forall|k: int|
                0 <= k < n ==> roles@[k] == role_of(
                    tx@.outputs[k].script_pubkey,
                    receiver@,
                    change@,
                ),
            unexpected == unexpected_in(roles@),
            unexpected <= n,
        decreases outputs@.len() - n,
    {
        let script: &Vec<u8> = &outputs[n].script_pubkey;
        assert(tx@.outputs[n as int].script_pubkey == script@);
        let ghost before = roles@;
        let role: OutputRole = if same_script(script, receiver) {
            OutputRole::Receiver
        } else if same_script(script, change) {
            OutputRole::Change
        } else {
            unexpected += 1;
            OutputRole::Unexpected
        };
        roles.push(role);
        assert(roles@.drop_last() =~= before);
        n += 1;
    }
    assert(roles@ =~= roles_of(tx@.outputs, receiver@, change@));
    TxSummary {
        txid: tx.txid(),
        input_count: inputs.len(),
        input_total,
        shown,
        more_inputs,
        roles,
        unexpected,
    }
}

// ---------------------------------------------------------------------------------------
// The batch.
// ---------------------------------------------------------------------------------------

/// What came of an attempt to build a transaction.
#[derive(Debug)]
pub enum Attempt {
    /// A transaction, and what it amounts to.
    Built(Arc<Transaction>, TxSummary),
    /// The reason why there is none.
    Failed(BuildError),
}

/// The transactions that came of a list of attempts.
pub open spec fn built_txs(attempts: Seq<Attempt>) -> Seq<Arc<Transaction>>
    decreases attempts.len(),
{
    if attempts.len() == 0 {
        Seq::empty()
    } else {
        let rest = built_txs(attempts.drop_last());
        match attempts.last() {
            Attempt::Built(tx, _) => rest.push(tx),
            Attempt::Failed(_) => rest,
        }
    }
}

/// Whether an attempt comes of a payment out of a wallet's outputs, without those that may not
/// be spent.
pub open spec fn attempted(
    attempt: Attempt,
    wallet: TickWallet,
    unspendable: Seq<OutPoint>,
    payment: PaymentView,
) -> bool {
    match attempt {
        Attempt::Built(tx, summary) => {
            &&& payable(
                wallet.unspent(),
                unspendable,
                payment.receiver,
                payment.amount_sat,
                payment.fee_rate_sat_per_vb,
            )
            &&& fulfils(
                tx@,
                wallet.unspent(),
                unspendable,
                payment.receiver,
                payment.change,
                payment.amount_sat,
                payment.fee_rate_sat_per_vb,
            )
            &&& given_out(*tx, wallet)
            &&& summarizes(
                summary,
                tx@,
                wallet.unspent(),
                payment.receiver,
                payment.change,
            )
        },
        Attempt::Failed(error) => fails_with(
            error,
            wallet,
            unspendable,
            payment.receiver,
            payment.change,
            payment.amount_sat,
            payment.fee_rate_sat_per_vb,
        ),
    }
}

/// Whether a list of attempts is a batch: each leaves alone what is blocked and what the
/// attempts before it spend, a failure of the first ends the batch, and a later one does not.
pub open spec fn is_batch(
    attempts: Seq<Attempt>,
    count: u32,
    wallet: TickWallet,
    blocked: Seq<OutPoint>,
    payment: PaymentView,
) -> bool {
    &&& forall|i: int|
        0 <= i < attempts.len() ==> attempted(
            #[trigger] attempts[i],
            wallet,
            blocked + inputs_of(built_txs(attempts.take(i))),
            payment,
        )
    &&& count == 0 ==> attempts.len() == 0
    &&& count != 0 ==> attempts.len() == if attempts[0] is Failed {
        1
    } else {
        count as int
    }
}

/// Builds the transactions of a tick. The wallet stays as it is.
pub fn build_batch(
    wallet: &mut TickWallet,
    unspent: &Vec<WalletUtxo>,
    blocked: &Vec<OutPoint>,
    payment: &Payment,
    count: u32,
) -> (attempts: Vec<Attempt>)
    requires
        old(wallet).wf(),
        unspent@ == old(wallet).unspent(),
        payment.wf(),
    ensures
        *final(wallet) == *old(wallet),
        is_batch(attempts@, count, *old(wallet), blocked@, payment@),
{
    let ghost before = *wallet;
    let mut attempts: Vec<Attempt> = Vec::new();
    let mut unspendable: Vec<OutPoint> = copy_outpoints(blocked);
    let mut i: u32 = 0;
    assert(unspendable@ =~= blocked@ + inputs_of(built_txs(attempts@)));
    while i < count
        invariant_except_break
            attempts@.len() == i,
            i > 0 ==> !(attempts@[0] is Failed),
            unspendable@ == blocked@ + inputs_of(built_txs(attempts@)),
        invariant
            *wallet == before,
            before.wf(),
            unspent@ == before.unspent(),
            payment.wf(),
            i <= count,
            forall|k: int|
                0 <= k < attempts@.len() ==> attempted(
                    #[trigger] attempts@[k],
                    before,
                    blocked@ + inputs_of(built_txs(attempts@.take(k))),
                    payment@,
                ),
        ensures
            is_batch(attempts@, count, before, blocked@, payment@),
        decreases count - i,
    {
        let ghost done = attempts@;
        assert(done.take(done.len() as int) =~= done);
        let built = build_tx(
            wallet,
            payment.receiver,
            payment.change,
            payment.amount_sat,
            payment.fee_rate_sat_per_vb,
            &unspendable,
        );
        match built {
            Ok(tx) => {
                append_outpoints(&mut unspendable, tx.inputs());
                let summary: TxSummary = summarize(
                    &tx,
                    unspent,
                    &payment.receiver.script_pubkey,
                    &payment.change.script_pubkey,
                );
                let tx: Arc<Transaction> = Arc::new(tx);
                attempts.push(Attempt::Built(tx, summary));
                proof {
                    assert(attempts@.drop_last() =~= done);
                    let txs = built_txs(attempts@);
                    assert(txs == built_txs(done).push(tx));
                    assert(txs.drop_last() =~= built_txs(done));
                    assert(unspendable@ =~= blocked@ + inputs_of(txs));
                    lemma_prefixes(done, attempts@);
                }
            },
            Err(error) => {
                attempts.push(Attempt::Failed(error));
                proof {
                    assert(attempts@.drop_last() =~= done);
                    lemma_prefixes(done, attempts@);
                }
                if i == 0 {
                    break;
                }
            },
        }
        i += 1;
    }
    attempts
}

/// A longer list begins as the shorter one does.
proof fn lemma_prefixes(shorter: Seq<Attempt>, longer: Seq<Attempt>)
    requires
        longer.len() == shorter.len() + 1,
        longer.drop_last() == shorter,
    ensures
        forall|k: int| 0 <= k <= shorter.len() ==> #[trigger] longer.take(k) == shorter.take(k),
        forall|k: int| 0 <= k < shorter.len() ==> #[trigger] longer[k] == shorter[k],
{
    assert forall|k: int| 0 <= k <= shorter.len() implies #[trigger] longer.take(k)
        == shorter.take(k) by {
        assert(longer.take(k) =~= longer.drop_last().take(k));
    }
    assert forall|k: int| 0 <= k < shorter.len() implies #[trigger] longer[k] == shorter[k] by {
        assert(longer.drop_last()[k] == longer[k]);
    }
}

/// Lists the transactions that came of a batch.
pub fn list_built(attempts: &Vec<Attempt>) -> (txs: Vec<Arc<Transaction>>)
    ensures
        txs@ == built_txs(attempts@),
{
    let mut txs: Vec<Arc<Transaction>> = Vec::new();
    let mut i: usize = 0;
    while i < attempts.len()
        invariant
            i <= attempts@.len(),
            txs@ == built_txs(attempts@.take(i as int)),
        decreases attempts@.len() - i,
    {
        assert(attempts@.take(i + 1).drop_last() =~= attempts@.take(i as int));
        match &attempts[i] {
            Attempt::Built(tx, _) => txs.push(tx.clone()),
            Attempt::Failed(_) => {},
        }
        i += 1;
    }
    assert(attempts@.take(i as int) =~= attempts@);
    txs
}

} // verus!
