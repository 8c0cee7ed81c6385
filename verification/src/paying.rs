//! What payments come to, said of outputs, amounts and rates alone.

use crate::batch::{
    attempted, blocked_outputs, built_txs, is_batch, known_inputs, list_built, sum_values,
    summarize, summarizes, unexpected_in, Attempt, OutputRole, PaymentView, TxSummary,
};
use crate::bdk::{
    affordable, dust_limit, funds, has_keys, is_last, is_mature, is_p2wpkh, lists, output_size,
    paid_value, spendable, total_value, tx_signed, tx_weight, Anchor, WalletUtxo,
};
use crate::config::{batch_count_of, Mode};
use crate::course::{lemma_built_filtered, lemma_built_of};
use crate::generator::{broadcast_begun, TxGenerator};
use crate::holding::reward;
use crate::laws::{
    batch_builds_what_is_owed, built_transactions_pay_for_their_weight,
    built_transactions_pay_only_receiver_and_change, built_transactions_pay_the_fee_rate,
    lemma_sane_rate,
};
use crate::mempool::{inputs_of, lemma_inputs_of};
use crate::tick::{Action, Broadcast, Event, Stage};
use crate::tx::Transaction;
use crate::types::{Address, OutPoint, TxOutView, Txid};
use crate::wallet::{build_tx, payable, signed, BuildError, TickWallet};
use bdk_wallet::signer::SignerError;
use std::sync::Arc;
use vstd::prelude::*;

verus! {

// ---------------------------------------------------------------------------------------
// Lists of outputs.
// ---------------------------------------------------------------------------------------

/// The satoshis of a list of outputs, one added to the other.
pub open spec fn worth(utxos: Seq<WalletUtxo>) -> int {
    utxos.fold_left(0int, |sum: int, utxo: WalletUtxo| sum + utxo.value)
}

/// What a list of outputs comes to is what is added up.
proof fn lemma_worth(utxos: Seq<WalletUtxo>)
    ensures
        total_value(utxos) == worth(utxos),
    decreases utxos.len(),
{
    if utxos.len() != 0 {
        lemma_worth(utxos.drop_last());
    }
}

/// The values of a list of outputs are added up, all of them.
pub proof fn every_value_is_added_up(utxos: Vec<WalletUtxo>, total: u128)
    requires
        call_ensures(sum_values, (&utxos,), total),
    ensures
        total == utxos@.fold_left(0int, |sum: int, utxo: WalletUtxo| sum + utxo.value),
{
    lemma_worth(utxos@);
}

/// An output is blocked exactly if the wallet lists it and it is spent all the same, and it is
/// named once.
pub proof fn listed_outputs_that_are_spent_are_blocked(
    unspent: Vec<WalletUtxo>,
    spent: Vec<OutPoint>,
    blocked: Vec<OutPoint>,
)
    requires
        call_ensures(blocked_outputs, (&unspent, &spent), blocked),
    ensures
        forall|i: int, j: int| 0 <= i < j < blocked@.len() ==> blocked@[i] != blocked@[j],
        forall|n: int, m: int|
            #![trigger unspent@[n], spent@[m]]
            0 <= n < unspent@.len() && 0 <= m < spent@.len() && unspent@[n].outpoint == spent@[m]
                ==> blocked@.contains(spent@[m]),
        forall|k: int|
            0 <= k < blocked@.len() ==> spent@.contains(#[trigger] blocked@[k]) && exists|n: int|
                0 <= n < unspent@.len() && (#[trigger] unspent@[n]).outpoint == blocked@[k],
{
    assert forall|k: int| 0 <= k < blocked@.len() implies spent@.contains(#[trigger] blocked@[k])
        && exists|n: int|
        0 <= n < unspent@.len() && (#[trigger] unspent@[n]).outpoint == blocked@[k] by {
        assert(blocked@.contains(blocked@[k]));
    }
    assert forall|n: int, m: int|
        #![trigger unspent@[n], spent@[m]]
        0 <= n < unspent@.len() && 0 <= m < spent@.len() && unspent@[n].outpoint
            == spent@[m] implies blocked@.contains(spent@[m]) by {
        assert(lists(unspent@, spent@[m]));
    }
}

/// What came of a list of attempts are the transactions of those that succeeded, in their order.
pub proof fn built_transactions_are_those_of_successful_attempts(
    attempts: Vec<Attempt>,
    txs: Vec<Arc<Transaction>>,
)
    requires
        call_ensures(list_built, (&attempts,), txs),
    ensures
        txs@ == attempts@.filter(|attempt: Attempt| attempt is Built).map_values(
            |attempt: Attempt| attempt->Built_0,
        ),
{
    lemma_built_filtered(attempts@);
}

// ---------------------------------------------------------------------------------------
// Summaries.
// ---------------------------------------------------------------------------------------

/// Whether entries of a list are those of the inputs that it lists, each the last one of its
/// output.
pub open spec fn entries_of(
    inputs: Seq<OutPoint>,
    unspent: Seq<WalletUtxo>,
    known: Seq<WalletUtxo>,
) -> bool {
    let listed = inputs.filter(
        |outpoint: OutPoint|
            exists|n: int| 0 <= n < unspent.len() && (#[trigger] unspent[n]).outpoint == outpoint,
    );
    &&& known.len() == listed.len()
    &&& forall|k: int|
        0 <= k < known.len() ==> (#[trigger] known[k]).outpoint == listed[k] && exists|n: int|
            #![trigger unspent[n]]
            0 <= n < unspent.len() && unspent[n] == known[k] && forall|m: int|
                n < m < unspent.len() ==> (#[trigger] unspent[m]).outpoint != known[k].outpoint
}

/// The entries of inputs are the last ones of their outputs.
proof fn lemma_entries(inputs: Seq<OutPoint>, unspent: Seq<WalletUtxo>)
    ensures
        entries_of(inputs, unspent, known_inputs(inputs, unspent)),
    decreases inputs.len(),
{
    let is_listed = |outpoint: OutPoint|
        exists|n: int| 0 <= n < unspent.len() && (#[trigger] unspent[n]).outpoint == outpoint;
    reveal(Seq::filter);
    if inputs.len() != 0 {
        let rest = inputs.drop_last();
        let last = inputs.last();
        lemma_entries(rest, unspent);
        let before = known_inputs(rest, unspent);
        let known = known_inputs(inputs, unspent);
        if lists(unspent, last) {
            lemma_last_entry(unspent, last, unspent.len() as int);
            assert(is_listed(last));
            assert(inputs.filter(is_listed) == rest.filter(is_listed).push(last));
            let n = choose|n: int| is_last(unspent, last, n);
            assert(is_last(unspent, last, n));
            assert forall|k: int| 0 <= k < known.len() implies (#[trigger] known[k]).outpoint
                == inputs.filter(is_listed)[k] && exists|n: int|
                #![trigger unspent[n]]
                0 <= n < unspent.len() && unspent[n] == known[k] && forall|m: int|
                    n < m < unspent.len() ==> (#[trigger] unspent[m]).outpoint
                        != known[k].outpoint by {
                if k < before.len() {
                    assert(known[k] == before[k]);
                } else {
                    assert(known[k] == unspent[n]);
                }
            }
        } else {
            assert(!is_listed(last));
            assert(inputs.filter(is_listed) == rest.filter(is_listed));
        }
    }
}

/// An output that a list has has a last entry in it.
proof fn lemma_last_entry(unspent: Seq<WalletUtxo>, outpoint: OutPoint, end: int)
    requires
        0 <= end <= unspent.len(),
        exists|n: int| 0 <= n < end && (#[trigger] unspent[n]).outpoint == outpoint,
        forall|n: int| end <= n < unspent.len() ==> (#[trigger] unspent[n]).outpoint != outpoint,
    ensures
        exists|n: int| is_last(unspent, outpoint, n),
    decreases end,
{
    if unspent[end - 1].outpoint == outpoint {
        assert(is_last(unspent, outpoint, end - 1));
    } else {
        let n = choose|n: int| 0 <= n < end && (#[trigger] unspent[n]).outpoint == outpoint;
        assert(n < end - 1);
        lemma_last_entry(unspent, outpoint, end - 1);
    }
}

/// How many roles are unexpected.
proof fn lemma_unexpected(roles: Seq<OutputRole>)
    ensures
        unexpected_in(roles) == roles.filter(
            |role: OutputRole| role == OutputRole::Unexpected,
        ).len(),
    decreases roles.len(),
{
    reveal(Seq::filter);
    if roles.len() != 0 {
        lemma_unexpected(roles.drop_last());
    }
}

/// Whether a summary says of a transaction what its inputs and outputs are: their number, what the
/// inputs are worth by a list, the first three of them, and for each output whether it goes to the
/// receiver, or else to the change, or else elsewhere.
pub open spec fn tells_of(
    summary: TxSummary,
    tx: Transaction,
    unspent: Seq<WalletUtxo>,
    receiver: Seq<u8>,
    change: Seq<u8>,
) -> bool {
    &&& summary.txid == tx@.txid
    &&& summary.input_count == tx@.inputs.len()
    &&& exists|known: Seq<WalletUtxo>| #[trigger]
        entries_of(tx@.inputs, unspent, known) && summary.input_total == worth(known)
            && summary.shown@ == known.take(
            if known.len() < 3 {
                known.len() as int
            } else {
                3
            },
        )
    &&& summary.more_inputs == if tx@.inputs.len() > 3 {
        tx@.inputs.len() - 3
    } else {
        0
    }
    &&& summary.roles@.len() == tx@.outputs.len()
    &&& forall|i: int|
        #![trigger summary.roles@[i]]
        0 <= i < tx@.outputs.len() ==> {
            &&& summary.roles@[i] == OutputRole::Receiver <==> tx@.outputs[i].script_pubkey
                == receiver
            &&& summary.roles@[i] == OutputRole::Change <==> tx@.outputs[i].script_pubkey == change
                && tx@.outputs[i].script_pubkey != receiver
        }
    &&& summary.unexpected == summary.roles@.filter(
        |role: OutputRole| role == OutputRole::Unexpected,
    ).len()
}

/// A summary tells of its transaction.
pub proof fn summaries_tell_of_their_transaction(
    tx: Transaction,
    unspent: Vec<WalletUtxo>,
    receiver: Vec<u8>,
    change: Vec<u8>,
    summary: TxSummary,
)
    requires
        call_ensures(summarize, (&tx, &unspent, &receiver, &change), summary),
    ensures
        tells_of(summary, tx, unspent@, receiver@, change@),
{
    lemma_tells_of(summary, tx, unspent@, receiver@, change@);
}

/// A summary of a transaction tells of it.
proof fn lemma_tells_of(
    summary: TxSummary,
    tx: Transaction,
    unspent: Seq<WalletUtxo>,
    receiver: Seq<u8>,
    change: Seq<u8>,
)
    requires
        summarizes(summary, tx@, unspent, receiver, change),
    ensures
        tells_of(summary, tx, unspent, receiver, change),
{
    let known = known_inputs(tx@.inputs, unspent);
    lemma_entries(tx@.inputs, unspent);
    lemma_worth(known);
    lemma_unexpected(summary.roles@);
    assert(entries_of(tx@.inputs, unspent, known));
}

// ---------------------------------------------------------------------------------------
// One payment.
// ---------------------------------------------------------------------------------------

/// The outputs of a list that are not kept from being spent.
pub open spec fn left_over(unspent: Seq<WalletUtxo>, unspendable: Seq<OutPoint>) -> Seq<
    WalletUtxo,
> {
    unspent.filter(|utxo: WalletUtxo| !unspendable.contains(utxo.outpoint))
}

/// What may be spent is what is left over.
proof fn lemma_left_over(unspent: Seq<WalletUtxo>, unspendable: Seq<OutPoint>)
    ensures
        spendable(unspent, unspendable) == left_over(unspent, unspendable),
    decreases unspent.len(),
{
    reveal(Seq::filter);
    if unspent.len() != 0 {
        lemma_left_over(unspent.drop_last(), unspendable);
    }
}

/// Whether a script pays a key by the hash of it, of twenty bytes.
pub open spec fn pays_a_key(script_pubkey: Seq<u8>) -> bool {
    script_pubkey.len() == 22 && script_pubkey[0] == 0 && script_pubkey[1] == 20
}

/// Whether a payment is within what can be added up: a rate of a million at most, and an amount
/// with the fee for two outputs, and what is left over, each below two to the sixty-third.
pub open spec fn within_bounds(
    unspent: Seq<WalletUtxo>,
    unspendable: Seq<OutPoint>,
    amount_sat: u64,
    rate: u64,
) -> bool {
    &&& rate <= 1_000_000
    &&& amount_sat + 72 * rate + (rate + 1) / 2 <= 9_223_372_036_854_775_807
    &&& worth(left_over(unspent, unspendable)) <= 9_223_372_036_854_775_807
    &&& left_over(unspent, unspendable).len() <= 0xffff_ffff
}

/// Whether the outputs of a transaction are old enough to be spent: it is no reward of a block, or
/// has a hundred confirmations, its own block counted.
pub open spec fn ripe(wallet: TickWallet, txid: Txid) -> bool {
    ||| !reward(wallet.txs()[txid])
    ||| exists|anchor: Anchor, tip: u32| #[trigger]
        wallet.anchors().contains((anchor, txid)) && wallet.chain().contains_key(
            anchor.block.height,
        ) && wallet.chain()[anchor.block.height] == anchor.block.hash
            && #[trigger] wallet.chain().contains_key(tip) && tip - anchor.block.height + 1 >= 100
}

/// Whether a wallet has enough for a payment however it is put together: the amount is no dust,
/// each output is listed once, and what is left over and old enough covers the amount and the fee
/// for spending all of it.
pub open spec fn has_enough(
    wallet: TickWallet,
    unspendable: Seq<OutPoint>,
    amount_sat: u64,
    rate: u64,
) -> bool {
    let old_enough = left_over(wallet.unspent(), unspendable).filter(
        |utxo: WalletUtxo| ripe(wallet, utxo.outpoint.txid),
    );
    &&& amount_sat >= 294
    &&& forall|i: int, j: int|
        0 <= i < j < wallet.unspent().len() ==> wallet.unspent()[i].outpoint
            != wallet.unspent()[j].outpoint
    &&& worth(old_enough) >= amount_sat + 41 * rate + (rate + 1) / 2 + rate * (68
        * old_enough.len())
}

/// What coin selection is asked for, in bytes and satoshis.
proof fn lemma_bounds(
    wallet: TickWallet,
    unspendable: Seq<OutPoint>,
    receiver: Seq<u8>,
    amount_sat: u64,
    rate: u64,
)
    requires
        pays_a_key(receiver),
    ensures
        payable(wallet.unspent(), unspendable, receiver, amount_sat, rate) == within_bounds(
            wallet.unspent(),
            unspendable,
            amount_sat,
            rate,
        ),
        affordable(
            wallet.txs(),
            wallet.anchors(),
            wallet.chain(),
            wallet.unspent(),
            unspendable,
            receiver,
            amount_sat,
            rate,
        ) == has_enough(wallet, unspendable, amount_sat, rate),
{
    let unspent = wallet.unspent();
    let rest = left_over(unspent, unspendable);
    lemma_left_over(unspent, unspendable);
    lemma_worth(rest);
    assert(output_size(receiver) == 31);
    assert(rate * (10 + output_size(receiver)) == 41 * rate) by (nonlinear_arith)
        requires
            output_size(receiver) == 31,
    ;
    assert(rate * 31 == 31 * rate);
    assert(dust_limit(receiver) == 294);
    let mature = |utxo: WalletUtxo|
        is_mature(wallet.txs(), wallet.anchors(), wallet.chain(), utxo.outpoint.txid);
    let old_enough = |utxo: WalletUtxo| ripe(wallet, utxo.outpoint.txid);
    assert forall|utxo: WalletUtxo| #[trigger] mature(utxo) == old_enough(utxo) by {
        lemma_ripe(wallet, utxo.outpoint.txid);
    }
    assert(mature =~= old_enough);
    lemma_worth(rest.filter(old_enough));
    assert(funds(wallet.txs(), wallet.anchors(), wallet.chain(), unspent, unspendable)
        == rest.filter(old_enough));
}

/// The age that coin selection asks of a reward is a hundred confirmations.
proof fn lemma_ripe(wallet: TickWallet, txid: Txid)
    ensures
        is_mature(wallet.txs(), wallet.anchors(), wallet.chain(), txid) == ripe(wallet, txid),
{
}

/// A transaction goes on from the signers exactly if all of it was signed, and else for what kept
/// it from that.
pub proof fn only_what_is_all_signed_goes_on(
    finalized: Result<bool, SignerError>,
    outcome: Result<(), BuildError>,
)
    requires
        call_ensures(signed, (finalized,), outcome),
    ensures
        outcome is Ok <==> finalized == Ok::<bool, SignerError>(true),
        outcome matches Err(BuildError::NotSigned) <==> finalized == Ok::<bool, SignerError>(false),
        outcome matches Err(BuildError::Sign(_)) <==> finalized is Err,
        finalized matches Err(error) ==> outcome->Err_0->Sign_0 == error,
{
}

/// What comes of an attempt to pay a key from a wallet, with the change to another key. The wallet
/// stays as it is. A rate that cannot be expressed, and a payment that cannot be added up, are
/// refused as such, and nothing else is. Funds are lacking only if there is not enough. A wallet
/// that has nothing but its own and the keys to it, and enough, makes the payment, up to a rate of
/// sixteen thousand. What is built spends different outputs of the wallet, none that is kept from
/// it and none too young, and pays the amount to the receiver and the rest to the change.
pub proof fn payments_are_made_or_refused_for_cause(
    wallet: &mut TickWallet,
    receiver: Address,
    change: Address,
    amount_sat: u64,
    rate: u64,
    unspendable: Vec<OutPoint>,
    built: Result<Transaction, BuildError>,
)
    requires
        pays_a_key(receiver.script_pubkey@),
        pays_a_key(change.script_pubkey@),
        call_ensures(
            build_tx,
            (wallet, &receiver, &change, amount_sat, rate, &unspendable),
            built,
        ),
    ensures
        *final(wallet) == *old(wallet),
        built matches Err(BuildError::InvalidFeeRate) <==> rate * 250 > 0xffff_ffff_ffff_ffff,
        built matches Err(BuildError::OutOfRange) <==> rate * 250 <= 0xffff_ffff_ffff_ffff
            && !within_bounds(old(wallet).unspent(), unspendable@, amount_sat, rate),
        built matches Err(BuildError::Create(_)) ==> !has_enough(
            *old(wallet),
            unspendable@,
            amount_sat,
            rate,
        ),
        built matches Err(BuildError::SpentTwice) ==> exists|i: int, j: int|
            #![trigger old(wallet).unspent()[i], old(wallet).unspent()[j]]
            0 <= i < j < old(wallet).unspent().len() && old(wallet).unspent()[i].outpoint == old(
                wallet,
            ).unspent()[j].outpoint,
        built is Err && rate <= 16_000 && within_bounds(
            old(wallet).unspent(),
            unspendable@,
            amount_sat,
            rate,
        ) && has_enough(*old(wallet), unspendable@, amount_sat, rate) ==> !old(wallet).own_only()
            || !has_keys(old(wallet).descriptors()),
        built matches Ok(tx) ==> {
            &&& tx_signed(tx.bytes())
            &&& tx@.inputs.len() >= 1
            &&& amount_sat >= 294
            &&& forall|i: int, j: int|
                0 <= i < j < tx@.inputs.len() ==> tx@.inputs[i] != tx@.inputs[j]
            &&& forall|i: int|
                0 <= i < tx@.inputs.len() ==> !unspendable@.contains(#[trigger] tx@.inputs[i])
                    && ripe(*old(wallet), tx@.inputs[i].txid) && exists|n: int|
                    0 <= n < old(wallet).unspent().len() && (
                    #[trigger] old(wallet).unspent()[n]).outpoint == tx@.inputs[i]
            &&& tx@.outputs.len() == 1 || tx@.outputs.len() == 2
            &&& exists|i: int|
                #![trigger tx@.outputs[i]]
                {
                    &&& 0 <= i < tx@.outputs.len()
                    &&& tx@.outputs[i].value == amount_sat
                    &&& tx@.outputs[i].script_pubkey == receiver.script_pubkey@
                    &&& forall|j: int|
                        0 <= j < tx@.outputs.len() && j != i ==> (
                        #[trigger] tx@.outputs[j]).script_pubkey == change.script_pubkey@
                            && tx@.outputs[j].value >= 294
                }
        },
{
    let before = *old(wallet);
    lemma_bounds(before, unspendable@, receiver.script_pubkey@, amount_sat, rate);
    if rate <= 16_000 {
        lemma_sane_rate(
            spendable(before.unspent(), unspendable@).len(),
            receiver.script_pubkey@,
            change.script_pubkey@,
            rate,
        );
    }
    assert(dust_limit(receiver.script_pubkey@) == 294);
    assert(dust_limit(change.script_pubkey@) == 294);
    if let Ok(tx) = built {
        assert forall|i: int| 0 <= i < tx@.inputs.len() implies !unspendable@.contains(
            #[trigger] tx@.inputs[i],
        ) && ripe(before, tx@.inputs[i].txid) && exists|n: int|
            0 <= n < before.unspent().len() && (#[trigger] before.unspent()[n]).outpoint
                == tx@.inputs[i] by {
            lemma_ripe(before, tx@.inputs[i].txid);
            assert(lists(before.unspent(), tx@.inputs[i]));
        }
        if tx@.inputs.len() == 0 {
            lemma_paid(tx@.outputs);
        }
    }
}

/// Outputs come to no less than each of them.
proof fn lemma_paid(outputs: Seq<TxOutView>)
    ensures
        forall|i: int|
            0 <= i < outputs.len() ==> paid_value(outputs) >= (#[trigger] outputs[i]).value,
        outputs.len() == 1 ==> paid_value(outputs) == outputs[0].value,
        outputs.len() == 2 ==> paid_value(outputs) == outputs[0].value + outputs[1].value,
    decreases outputs.len(),
{
    if outputs.len() != 0 {
        let rest = outputs.drop_last();
        lemma_paid(rest);
        assert forall|i: int| 0 <= i < outputs.len() implies paid_value(outputs) >= (
        #[trigger] outputs[i]).value by {
            if i < rest.len() {
                assert(rest[i] == outputs[i]);
            }
        }
        if outputs.len() == 2 {
            assert(rest[0] == outputs[0]);
        }
        if rest.len() == 0 {
            assert(paid_value(rest) == 0);
        }
    }
}

// ---------------------------------------------------------------------------------------
// A batch.
// ---------------------------------------------------------------------------------------

/// What a tick has attempted once it comes to broadcast: as many payments as are configured,
/// unless the first failed, after which there is no other. Each transaction spends nothing that is
/// blocked, and its fee is that of its inputs and outputs at the configured rate, exactly if there
/// is change, and else by less than another output and dust more. It covers the rate for what the
/// signed transaction weighs. Its summary is that of the transaction.
pub proof fn attempts_are_as_configured(
    generator: &mut TxGenerator,
    stage: Stage,
    event: Event,
    now: u64,
    next: (Stage, Action),
    broadcast: Broadcast,
)
    requires
        call_ensures(TxGenerator::run_tick, (generator, stage, event, now), next),
        next.0 == Stage::Broadcasting(broadcast),
    ensures
        ({
            let config = old(generator).settings();
            let attempts = broadcast.attempts@;
            let rate = config.fee_rate_sat_per_vb;
            &&& config.mode == Mode::Unit || config.batch_size is None ==> attempts.len() == 1
            &&& config.mode == Mode::Batch && config.batch_size is Some ==> {
                &&& config.batch_size->0 == 0 ==> attempts.len() == 0
                &&& config.batch_size->0 > 0 ==> attempts.len() == if attempts[0] is Failed {
                    1
                } else {
                    config.batch_size->0 as int
                }
            }
            &&& forall|i: int|
                0 <= i < attempts.len() ==> (#[trigger] attempts[i] matches Attempt::Built(
                    tx,
                    summary,
                ) ==> paid_as_configured(tx, summary, broadcast.blocked@, rate))
            &&& forall|i: int|
                0 <= i < attempts.len() ==> (#[trigger] attempts[i] matches Attempt::Failed(
                    BuildError::InvalidFeeRate,
                ) ==> rate * 250 > 0xffff_ffff_ffff_ffff)
        }),
{
    let after = *final(generator);
    let config = after.settings();
    let attempts = broadcast.attempts@;
    let wallet = choose|wallet: TickWallet| #[trigger]
        is_batch(attempts, batch_count_of(config), wallet, broadcast.blocked@, after.payment());
    assert forall|i: int| 0 <= i < attempts.len() implies (#[trigger] attempts[i] matches
        Attempt::Built(tx, summary) ==> paid_as_configured(
        tx,
        summary,
        broadcast.blocked@,
        config.fee_rate_sat_per_vb,
    )) by {
        let unspendable = broadcast.blocked@ + inputs_of(built_txs(attempts.take(i)));
        assert(attempted(attempts[i], wallet, unspendable, after.payment()));
        if attempts[i] is Built {
            lemma_paid_as_configured(
                attempts[i],
                wallet,
                broadcast.blocked@,
                inputs_of(built_txs(attempts.take(i))),
                after.payment(),
            );
        }
    }
}

/// Whether a transaction leaves alone what is blocked and pays its fee at a rate, by a summary.
pub open spec fn paid_as_configured(
    tx: Arc<Transaction>,
    summary: TxSummary,
    blocked: Seq<OutPoint>,
    rate: u64,
) -> bool {
    let size = 68 * tx@.inputs.len() + 31 * tx@.outputs.len() + 10;
    let fee = summary.input_total - if tx@.outputs.len() == 1 {
        tx@.outputs[0].value as int
    } else {
        tx@.outputs[0].value + tx@.outputs[1].value
    };
    &&& summary.txid == tx@.txid
    &&& summary.input_count == tx@.inputs.len()
    &&& summary.unexpected == 0
    &&& summary.roles@.len() == tx@.outputs.len()
    &&& tx@.inputs.len() >= 1
    &&& tx@.outputs.len() == 1 || tx@.outputs.len() == 2
    &&& forall|k: int| 0 <= k < tx@.inputs.len() ==> !blocked.contains(#[trigger] tx@.inputs[k])
    &&& fee >= rate * size + (rate + 1) / 2
    &&& tx@.outputs.len() == 2 ==> fee == rate * size + (rate + 1) / 2
    &&& fee < rate * size + (rate + 1) / 2 + rate * 31 + 294
    &&& 4 * fee >= rate * tx_weight(tx.bytes())
}

/// What an attempt has built leaves alone what is blocked and pays its fee.
proof fn lemma_paid_as_configured(
    attempt: Attempt,
    wallet: TickWallet,
    blocked: Seq<OutPoint>,
    spent: Seq<OutPoint>,
    payment: PaymentView,
)
    requires
        attempted(attempt, wallet, blocked + spent, payment),
        attempt is Built,
        is_p2wpkh(payment.receiver),
        is_p2wpkh(payment.change),
    ensures
        paid_as_configured(
            attempt->Built_0,
            attempt->Built_1,
            blocked,
            payment.fee_rate_sat_per_vb,
        ),
{
    let tx = attempt->Built_0;
    built_transactions_pay_only_receiver_and_change(attempt, wallet, blocked + spent, payment);
    built_transactions_pay_the_fee_rate(attempt, wallet, blocked + spent, payment);
    built_transactions_pay_for_their_weight(attempt, wallet, blocked + spent, payment);
    lemma_paid(tx@.outputs);
    assert forall|k: int| 0 <= k < tx@.inputs.len() implies !blocked.contains(
        #[trigger] tx@.inputs[k],
    ) by {
        assert(!(blocked + spent).contains(tx@.inputs[k]));
        if blocked.contains(tx@.inputs[k]) {
            let n = choose|n: int| 0 <= n < blocked.len() && blocked[n] == tx@.inputs[k];
            assert((blocked + spent)[n] == tx@.inputs[k]);
        }
    }
}

/// A broadcast begins with a report of its wallet: how many outputs it listed without the mempool
/// and with it, how many transactions the mempool has, and what all the outputs are worth. What is
/// blocked is what the wallet lists and a transaction of the mempool spends. Each summary is by
/// what the wallet lists.
pub proof fn reports_tell_of_their_wallet(
    generator: TxGenerator,
    before: TickWallet,
    ready: TickWallet,
    txs: Seq<Arc<Transaction>>,
    broadcast: Broadcast,
)
    requires
        broadcast_begun(generator, before, ready, txs, broadcast),
    ensures
        broadcast.report.before_inject == before.unspent().len(),
        broadcast.report.after_inject == ready.unspent().len(),
        broadcast.report.injected == txs.len(),
        broadcast.report.balance == worth(ready.unspent()),
        forall|outpoint: OutPoint| #[trigger]
            broadcast.blocked@.contains(outpoint) <==> (exists|n: int|
                0 <= n < ready.unspent().len() && (#[trigger] ready.unspent()[n]).outpoint
                    == outpoint) && exists|m: int|
                0 <= m < txs.len() && (#[trigger] txs[m])@.inputs.contains(outpoint),
        forall|i: int|
            0 <= i < broadcast.attempts@.len() ==> (
            #[trigger] broadcast.attempts@[i] matches Attempt::Built(tx, summary) ==> tells_of(
                summary,
                *tx,
                ready.unspent(),
                generator.receiver().script_pubkey@,
                generator.change().script_pubkey@,
            )),
{
    lemma_worth(ready.unspent());
    assert forall|outpoint: OutPoint| #[trigger]
        broadcast.blocked@.contains(outpoint) <==> (exists|n: int|
            0 <= n < ready.unspent().len() && (#[trigger] ready.unspent()[n]).outpoint == outpoint)
            && exists|m: int|
            0 <= m < txs.len() && (#[trigger] txs[m])@.inputs.contains(outpoint) by {
        lemma_inputs_of(txs, outpoint);
        assert(lists(ready.unspent(), outpoint) <==> exists|n: int|
            0 <= n < ready.unspent().len() && (#[trigger] ready.unspent()[n]).outpoint == outpoint);
    }
    assert forall|i: int| 0 <= i < broadcast.attempts@.len() implies (
    #[trigger] broadcast.attempts@[i] matches Attempt::Built(tx, summary) ==> tells_of(
        summary,
        *tx,
        ready.unspent(),
        generator.receiver().script_pubkey@,
        generator.change().script_pubkey@,
    )) by {
        let attempt = broadcast.attempts@[i];
        let unspendable = broadcast.blocked@ + inputs_of(built_txs(broadcast.attempts@.take(i)));
        assert(attempted(attempt, ready, unspendable, generator.payment()));
        if let Attempt::Built(tx, summary) = attempt {
            lemma_tells_of(
                summary,
                *tx,
                ready.unspent(),
                generator.receiver().script_pubkey@,
                generator.change().script_pubkey@,
            );
        }
    }
}

/// Of a batch, an attempt is made whenever there is enough for it: out of a wallet with nothing but
/// its own and the keys to it, without what is blocked and what the transactions before it spend.
pub proof fn batch_pays_as_long_as_there_is_enough(
    generator: TxGenerator,
    before: TickWallet,
    ready: TickWallet,
    txs: Seq<Arc<Transaction>>,
    broadcast: Broadcast,
    i: int,
    unspendable: Seq<OutPoint>,
)
    requires
        generator.wf(),
        broadcast_begun(generator, before, ready, txs, broadcast),
        0 <= i < broadcast.attempts@.len(),
        forall|outpoint: OutPoint| #[trigger]
            unspendable.contains(outpoint) <==> broadcast.blocked@.contains(outpoint) || exists|
                k: int,
            |
                0 <= k < i && (#[trigger] broadcast.attempts@[k]) is Built
                    && broadcast.attempts@[k]->Built_0@.inputs.contains(outpoint),
        ready.own_only(),
        has_keys(ready.descriptors()),
        generator.settings().fee_rate_sat_per_vb <= 16_000,
        within_bounds(
            ready.unspent(),
            unspendable,
            generator.settings().amount_sat,
            generator.settings().fee_rate_sat_per_vb,
        ),
        has_enough(
            ready,
            unspendable,
            generator.settings().amount_sat,
            generator.settings().fee_rate_sat_per_vb,
        ),
    ensures
        broadcast.attempts@[i] is Built,
{
    let attempts = broadcast.attempts@;
    let rate = generator.settings().fee_rate_sat_per_vb;
    let amount = generator.settings().amount_sat;
    let kept = broadcast.blocked@ + inputs_of(built_txs(attempts.take(i)));
    assert forall|outpoint: OutPoint| kept.contains(outpoint) == unspendable.contains(outpoint) by {
        lemma_kept(broadcast.blocked@, attempts, i, outpoint);
    }
    lemma_same_left_over(ready.unspent(), kept, unspendable);
    lemma_bounds(ready, kept, generator.payment().receiver, amount, rate);
    lemma_sane_rate(
        spendable(ready.unspent(), kept).len(),
        generator.payment().receiver,
        generator.payment().change,
        rate,
    );
    batch_builds_what_is_owed(
        attempts,
        batch_count_of(generator.settings()),
        ready,
        broadcast.blocked@,
        generator.payment(),
        i,
    );
}

/// An attempt of a batch fails as a payment does: for a rate that cannot be expressed, for what
/// cannot be added up, and for want of funds only if there is not enough.
pub proof fn attempts_fail_for_cause(
    generator: TxGenerator,
    before: TickWallet,
    ready: TickWallet,
    txs: Seq<Arc<Transaction>>,
    broadcast: Broadcast,
    i: int,
    unspendable: Seq<OutPoint>,
)
    requires
        generator.wf(),
        broadcast_begun(generator, before, ready, txs, broadcast),
        0 <= i < broadcast.attempts@.len(),
        forall|outpoint: OutPoint| #[trigger]
            unspendable.contains(outpoint) <==> broadcast.blocked@.contains(outpoint) || exists|
                k: int,
            |
                0 <= k < i && (#[trigger] broadcast.attempts@[k]) is Built
                    && broadcast.attempts@[k]->Built_0@.inputs.contains(outpoint),
    ensures
        ({
            let rate = generator.settings().fee_rate_sat_per_vb;
            let amount = generator.settings().amount_sat;
            let attempt = broadcast.attempts@[i];
            let bounded = within_bounds(ready.unspent(), unspendable, amount, rate);
            &&& (attempt matches Attempt::Failed(BuildError::InvalidFeeRate)) == (rate * 250
                > 0xffff_ffff_ffff_ffff)
            &&& (attempt matches Attempt::Failed(BuildError::OutOfRange)) == (rate * 250
                <= 0xffff_ffff_ffff_ffff && !bounded)
            &&& attempt matches Attempt::Failed(BuildError::Create(_)) ==> !has_enough(
                ready,
                unspendable,
                amount,
                rate,
            )
        }),
{
    let attempts = broadcast.attempts@;
    let kept = broadcast.blocked@ + inputs_of(built_txs(attempts.take(i)));
    assert forall|outpoint: OutPoint| kept.contains(outpoint) == unspendable.contains(outpoint) by {
        lemma_kept(broadcast.blocked@, attempts, i, outpoint);
    }
    lemma_same_left_over(ready.unspent(), kept, unspendable);
    lemma_bounds(
        ready,
        kept,
        generator.payment().receiver,
        generator.settings().amount_sat,
        generator.settings().fee_rate_sat_per_vb,
    );
    assert(attempted(attempts[i], ready, kept, generator.payment()));
}

/// What is left over depends on nothing but which outputs are kept.
proof fn lemma_same_left_over(unspent: Seq<WalletUtxo>, a: Seq<OutPoint>, b: Seq<OutPoint>)
    requires
        forall|outpoint: OutPoint| a.contains(outpoint) == b.contains(outpoint),
    ensures
        left_over(unspent, a) == left_over(unspent, b),
{
    let one = |utxo: WalletUtxo| !a.contains(utxo.outpoint);
    let other = |utxo: WalletUtxo| !b.contains(utxo.outpoint);
    assert(one =~= other);
}

/// What is kept from an attempt is what is blocked and what the transactions before it spend.
proof fn lemma_kept(blocked: Seq<OutPoint>, attempts: Seq<Attempt>, i: int, outpoint: OutPoint)
    requires
        0 <= i <= attempts.len(),
    ensures
        (blocked + inputs_of(built_txs(attempts.take(i)))).contains(outpoint) <==> blocked.contains(
            outpoint,
        ) || exists|k: int|
            0 <= k < i && (#[trigger] attempts[k]) is Built
                && attempts[k]->Built_0@.inputs.contains(outpoint),
{
    let earlier = attempts.take(i);
    let txs = built_txs(earlier);
    let spent = inputs_of(txs);
    let all = blocked + spent;
    lemma_inputs_of(txs, outpoint);
    if blocked.contains(outpoint) {
        let n = choose|n: int| 0 <= n < blocked.len() && blocked[n] == outpoint;
        assert(all[n] == outpoint);
    }
    if spent.contains(outpoint) {
        let n = choose|n: int| 0 <= n < spent.len() && spent[n] == outpoint;
        assert(all[blocked.len() + n] == outpoint);
        let m = choose|m: int|
            0 <= m < txs.len() && (#[trigger] txs[m])@.inputs.contains(outpoint);
        lemma_built_of(earlier, m);
        let k = choose|k: int|
            0 <= k < earlier.len() && (#[trigger] earlier[k]) is Built && earlier[k]->Built_0
                == txs[m];
        assert(attempts[k] == earlier[k]);
    }
    if all.contains(outpoint) {
        let n = choose|n: int| 0 <= n < all.len() && all[n] == outpoint;
        if n < blocked.len() {
            assert(blocked[n] == outpoint);
        } else {
            assert(spent[n - blocked.len()] == outpoint);
        }
    }
    if exists|k: int|
        0 <= k < i && (#[trigger] attempts[k]) is Built
            && attempts[k]->Built_0@.inputs.contains(outpoint) {
        let k = choose|k: int|
            0 <= k < i && (#[trigger] attempts[k]) is Built
                && attempts[k]->Built_0@.inputs.contains(outpoint);
        assert(earlier[k] == attempts[k]);
        lemma_built_all(earlier, k);
        let m = choose|m: int| 0 <= m < txs.len() && txs[m] == attempts[k]->Built_0;
        assert(txs[m]@.inputs.contains(outpoint));
        let n = choose|n: int| 0 <= n < spent.len() && spent[n] == outpoint;
        assert(all[blocked.len() + n] == outpoint);
    }
}

/// A successful attempt has its transaction among those that came of the list.
proof fn lemma_built_all(attempts: Seq<Attempt>, k: int)
    requires
        0 <= k < attempts.len(),
        attempts[k] is Built,
    ensures
        built_txs(attempts).contains(attempts[k]->Built_0),
    decreases attempts.len(),
{
    let rest = attempts.drop_last();
    let txs = built_txs(attempts);
    if k < rest.len() {
        assert(rest[k] == attempts[k]);
        lemma_built_all(rest, k);
        let m = choose|m: int|
            0 <= m < built_txs(rest).len() && built_txs(rest)[m] == attempts[k]->Built_0;
        assert(txs[m] == attempts[k]->Built_0);
    } else {
        assert(txs[txs.len() - 1] == attempts[k]->Built_0);
    }
}

} // verus!
