//! What holds of the generator as a whole.

use crate::batch::{
    attempted, built_txs, is_batch, known_inputs, unexpected_in, Attempt, OutputRole, PaymentView,
};
use crate::bdk::{
    affordable, all_placed, blocks_by_height, dust_limit, has_output, is_absurd, is_op_return,
    is_p2wpkh, is_spent, lists, output_at, output_size, paid_value, pays, spendable, spends,
    spent_value, total_value, tx_signed, tx_weight, Anchor, Keychain, WalletUtxo,
    HEIGHT_LIMIT, LAST_ACTIVE_INDEX,
};
use crate::caches::{reorganized, CachesView};
use crate::config::{batch_count_of, btc_network_of, change_account_of, coin_type_of};
use crate::derivation::{
    account_path, bip39_seed, child_script, keychain, master_fingerprint, xprv_at,
};
use crate::generator::{
    answers, broadcast_begun, shared, stage_wf, stepped, took_in, wallet_begun, TxGenerator,
};
use crate::mempool::{fetch_begun, inputs_of, lemma_inputs_of, FetchView, MempoolFetch};
use crate::plan::{
    anchor_in, block_of, blocks_from, empty_chain, filled, found_rightly, holds_output, ids_found,
    known_hash, lemma_blocks_by_height, lemma_ids_complete, lemma_ids_found, loose_ids, needed,
    parent_key,
    parents_from, txs_found, Parent, PlanView, WalletPlan,
};
use crate::scan::{low_half, ConfirmedSnapshot, Utxo};
use crate::text::decimal;
use crate::tick::{accepted, wants, Action, Broadcast, Event, SkipReason, Stage, TickOutcome};
use crate::tx::{Transaction, TransactionView};
use crate::types::{BlockHash, BlockId, ConfirmedKey, OutPoint, TxOutView, Txid};
use crate::wallet::{
    covers_rate, fit, fulfils, least_weight, lemma_covers_rate, most_fee, never_absurd,
    none_coinbase, null_ids, owed, payable, sightings_of, views_of, what_is_owed_is_paid,
    TickWallet,
};
use std::sync::Arc;
use vstd::prelude::*;

verus! {

// ---------------------------------------------------------------------------------------
// Derivation.
// ---------------------------------------------------------------------------------------

/// Descriptors and addresses depend on nothing of a configuration but the seed phrase, the
/// network and the accounts: what else is configured changes no key.
pub proof fn keys_depend_on_seed_network_and_accounts(a: TxGenerator, b: TxGenerator)
    requires
        a.wf(),
        b.wf(),
        a.settings().seed_phrase@ == b.settings().seed_phrase@,
        a.settings().network == b.settings().network,
        a.settings().sender_account_index == b.settings().sender_account_index,
        a.settings().receiver_account_index == b.settings().receiver_account_index,
        change_account_of(a.settings()) == change_account_of(b.settings()),
    ensures
        a.external() == b.external(),
        a.internal() == b.internal(),
        a.sender()@ == b.sender()@,
        a.receiver()@ == b.receiver()@,
        a.change()@ == b.change()@,
{
}

/// Without a change account, the change goes to the address that is shown for the sender.
pub proof fn omitted_change_goes_to_the_sender(generator: TxGenerator)
    requires
        generator.wf(),
        generator.settings().change_account_index is None,
    ensures
        generator.change()@ == generator.sender()@,
{
}

/// Whether a text ends in another.
pub open spec fn ends_in(text: Seq<char>, end: Seq<char>) -> bool {
    exists|head: Seq<char>| text == #[trigger] (head + end)
}

/// The receive keychain is the first branch of the sender's account. The change keychain is the
/// second branch of that account if the change stays in it, and else the first branch of the
/// account that takes the change.
pub proof fn keychains_end_in_their_branches(generator: TxGenerator)
    requires
        generator.wf(),
    ensures
        ends_in(generator.external(), "/0/*)"@),
        change_account_of(generator.settings()) == generator.settings().sender_account_index
            ==> ends_in(generator.internal(), "/1/*)"@),
        change_account_of(generator.settings()) != generator.settings().sender_account_index
            ==> ends_in(generator.internal(), "/0/*)"@),
{
    let config = generator.settings();
    let coin_type = coin_type_of(config.network);
    assert forall|fingerprint: Seq<char>, account: u32, xprv: Seq<char>|
        ends_in(#[trigger] keychain(fingerprint, coin_type, account, xprv, 0), "/0/*)"@) by {
        lemma_keychain_end(fingerprint, coin_type, account, xprv, 0, "/0/*)"@);
    }
    assert forall|fingerprint: Seq<char>, account: u32, xprv: Seq<char>|
        ends_in(#[trigger] keychain(fingerprint, coin_type, account, xprv, 1), "/1/*)"@) by {
        lemma_keychain_end(fingerprint, coin_type, account, xprv, 1, "/1/*)"@);
    }
}

/// A keychain ends in its branch and the wildcard.
proof fn lemma_keychain_end(
    fingerprint: Seq<char>,
    coin_type: u32,
    account: u32,
    xprv: Seq<char>,
    branch: u32,
    end: Seq<char>,
)
    requires
        branch == 0 && end == "/0/*)"@ || branch == 1 && end == "/1/*)"@,
    ensures
        ends_in(keychain(fingerprint, coin_type, account, xprv, branch), end),
{
    reveal_strlit("/0/*)");
    reveal_strlit("/1/*)");
    reveal_strlit("/");
    reveal_strlit("/*)");
    reveal_strlit("0");
    reveal_strlit("1");
    let head = "wpkh(["@ + fingerprint + "/84'/"@ + decimal(coin_type as nat) + "'/"@ + decimal(
        account as nat,
    ) + "']"@ + xprv;
    assert("/"@ + decimal(branch as nat) + "/*)"@ =~= end);
    assert(keychain(fingerprint, coin_type, account, xprv, branch) =~= head + end);
}

// ---------------------------------------------------------------------------------------
// The batch.
// ---------------------------------------------------------------------------------------

/// Whether two transactions spend no output in common.
pub open spec fn disjoint(a: TransactionView, b: TransactionView) -> bool {
    forall|outpoint: OutPoint|
        !(#[trigger] a.inputs.contains(outpoint) && #[trigger] b.inputs.contains(outpoint))
}

/// The transactions of a list come each of one attempt, and what the attempts before that one
/// spend is what the transactions before it spend.
proof fn lemma_built_from(attempts: Seq<Attempt>, k: int) -> (i: int)
    requires
        0 <= k < built_txs(attempts).len(),
    ensures
        0 <= i < attempts.len(),
        attempts[i] is Built,
        attempts[i]->Built_0 == built_txs(attempts)[k],
        built_txs(attempts.take(i)) == built_txs(attempts).take(k),
    decreases attempts.len(),
{
    let rest = attempts.drop_last();
    let txs = built_txs(attempts);
    if k < built_txs(rest).len() {
        let i = lemma_built_from(rest, k);
        assert(attempts[i] == rest[i]);
        assert(attempts.take(i) =~= rest.take(i));
        assert(built_txs(rest).take(k) =~= txs.take(k));
        i
    } else {
        assert(attempts.take(attempts.len() - 1) =~= rest);
        assert(built_txs(rest) =~= txs.take(k));
        attempts.len() - 1
    }
}

/// Every transaction of a batch does what a payment asks for, and leaves alone what is blocked
/// and what the transactions before it spend.
proof fn lemma_built_fulfils(
    attempts: Seq<Attempt>,
    count: u32,
    wallet: TickWallet,
    blocked: Seq<OutPoint>,
    payment: PaymentView,
    k: int,
)
    requires
        is_batch(attempts, count, wallet, blocked, payment),
        0 <= k < built_txs(attempts).len(),
    ensures
        fulfils(
            built_txs(attempts)[k]@,
            wallet.unspent(),
            blocked + inputs_of(built_txs(attempts).take(k)),
            payment.receiver,
            payment.change,
            payment.amount_sat,
            payment.fee_rate_sat_per_vb,
        ),
{
    let i = lemma_built_from(attempts, k);
    assert(attempted(
        attempts[i],
        wallet,
        blocked + inputs_of(built_txs(attempts.take(i))),
        payment,
    ));
}

/// No two transactions of a batch spend the same output, each spends only outputs that the wallet
/// lists as unspent, each of them once, and none that is blocked.
pub proof fn batch_spends_nothing_twice(
    attempts: Seq<Attempt>,
    count: u32,
    wallet: TickWallet,
    blocked: Seq<OutPoint>,
    payment: PaymentView,
)
    requires
        is_batch(attempts, count, wallet, blocked, payment),
    ensures
        forall|j: int, k: int|
            0 <= j < k < built_txs(attempts).len() ==> disjoint(
                (#[trigger] built_txs(attempts)[j])@,
                (#[trigger] built_txs(attempts)[k])@,
            ),
        forall|k: int, outpoint: OutPoint|
            0 <= k < built_txs(attempts).len() && #[trigger] built_txs(
                attempts,
            )[k]@.inputs.contains(outpoint) ==> lists(wallet.unspent(), outpoint)
                && !blocked.contains(outpoint),
        forall|k: int|
            0 <= k < built_txs(attempts).len() ==> (
            #[trigger] built_txs(attempts)[k])@.inputs.no_duplicates(),
{
    let txs = built_txs(attempts);
    let unspent = wallet.unspent();
    assert forall|k: int, outpoint: OutPoint|
        0 <= k < txs.len() && #[trigger] txs[k]@.inputs.contains(outpoint) implies lists(
        unspent,
        outpoint,
    ) && !blocked.contains(outpoint) && !inputs_of(txs.take(k)).contains(outpoint) by {
        lemma_built_fulfils(attempts, count, wallet, blocked, payment, k);
        lemma_not_in_sum(blocked, inputs_of(txs.take(k)), outpoint);
        let n = choose|n: int| 0 <= n < txs[k]@.inputs.len() && txs[k]@.inputs[n] == outpoint;
        assert(lists(unspent, txs[k]@.inputs[n]));
    }
    assert forall|j: int, k: int| 0 <= j < k < txs.len() implies disjoint(
        (#[trigger] txs[j])@,
        (#[trigger] txs[k])@,
    ) by {
        assert forall|outpoint: OutPoint|
            !(#[trigger] txs[j]@.inputs.contains(outpoint) && #[trigger] txs[k]@.inputs.contains(
                outpoint,
            )) by {
            if txs[j]@.inputs.contains(outpoint) && txs[k]@.inputs.contains(outpoint) {
                lemma_inputs_of(txs.take(k), outpoint);
                assert(txs.take(k)[j] == txs[j]);
            }
        }
    }
    assert forall|k: int| 0 <= k < txs.len() implies (
    #[trigger] txs[k])@.inputs.no_duplicates() by {
        lemma_built_fulfils(attempts, count, wallet, blocked, payment, k);
    }
}

/// What two lists together do not hold, neither of them holds.
proof fn lemma_not_in_sum(a: Seq<OutPoint>, b: Seq<OutPoint>, outpoint: OutPoint)
    ensures
        !(a + b).contains(outpoint) ==> !a.contains(outpoint) && !b.contains(outpoint),
{
    if a.contains(outpoint) {
        let k = choose|k: int| 0 <= k < a.len() && a[k] == outpoint;
        assert((a + b)[k] == outpoint);
    }
    if b.contains(outpoint) {
        let k = choose|k: int| 0 <= k < b.len() && b[k] == outpoint;
        assert((a + b)[a.len() + k] == outpoint);
    }
}

/// No transaction that a tick builds spends an output that a transaction of the mempool spends.
pub proof fn tick_spends_nothing_of_the_mempool(
    generator: TxGenerator,
    before: TickWallet,
    ready: TickWallet,
    mempool: Seq<Arc<Transaction>>,
    broadcast: Broadcast,
)
    requires
        broadcast_begun(generator, before, ready, mempool, broadcast),
    ensures
        forall|k: int, m: int|
            0 <= k < broadcast.txs@.len() && 0 <= m < mempool.len() ==> disjoint(
                (#[trigger] broadcast.txs@[k])@,
                (#[trigger] mempool[m])@,
            ),
{
    batch_spends_nothing_twice(
        broadcast.attempts@,
        batch_count_of(generator.settings()),
        ready,
        broadcast.blocked@,
        generator.payment(),
    );
    assert forall|k: int, m: int|
        0 <= k < broadcast.txs@.len() && 0 <= m < mempool.len() implies disjoint(
        (#[trigger] broadcast.txs@[k])@,
        (#[trigger] mempool[m])@,
    ) by {
        assert forall|outpoint: OutPoint|
            !(#[trigger] broadcast.txs@[k]@.inputs.contains(outpoint)
                && #[trigger] mempool[m]@.inputs.contains(outpoint)) by {
            lemma_inputs_of(mempool, outpoint);
        }
    }
}

/// Every transaction of a batch pays the receiver the amount and sends the rest to the change
/// address: none of its outputs is unexpected, and it pays no more than it spends.
pub proof fn built_transactions_pay_only_receiver_and_change(
    attempt: Attempt,
    wallet: TickWallet,
    unspendable: Seq<OutPoint>,
    payment: PaymentView,
)
    requires
        attempted(attempt, wallet, unspendable, payment),
        attempt is Built,
    ensures
        attempt->Built_1.unexpected == 0,
        attempt->Built_1.roles@.contains(OutputRole::Receiver),
        pays(attempt->Built_0@.outputs, payment.receiver, payment.amount_sat, payment.change),
        paid_value(attempt->Built_0@.outputs) <= attempt->Built_1.input_total,
{
    let tx = attempt->Built_0@;
    let unspent = wallet.unspent();
    let summary = attempt->Built_1;
    let i = choose|i: int|
        0 <= i < tx.outputs.len() && (#[trigger] tx.outputs[i]) == (TxOutView {
            value: payment.amount_sat,
            script_pubkey: payment.receiver,
        }) && forall|j: int|
            0 <= j < tx.outputs.len() && j != i ==> (#[trigger] tx.outputs[j]).script_pubkey
                == payment.change;
    assert(summary.roles@[i] == OutputRole::Receiver);
    assert forall|j: int| 0 <= j < summary.roles@.len() implies #[trigger] summary.roles@[j]
        != OutputRole::Unexpected by {
        assert(tx.outputs[j].script_pubkey == payment.receiver || tx.outputs[j].script_pubkey
            == payment.change);
    }
    lemma_none_unexpected(summary.roles@);
    assert forall|n: int| 0 <= n < tx.inputs.len() implies lists(
        unspent,
        #[trigger] tx.inputs[n],
    ) by {}
    lemma_known_value(tx.inputs, unspent);
}

/// Every transaction of a batch pays its way at the fee rate: for each input, for each output and
/// for the rest, at the sizes that P2WPKH inputs and outputs have. With change the fee is exactly
/// that. Without, it exceeds it by less than the cost of change and dust together.
pub proof fn built_transactions_pay_the_fee_rate(
    attempt: Attempt,
    wallet: TickWallet,
    unspendable: Seq<OutPoint>,
    payment: PaymentView,
)
    requires
        attempted(attempt, wallet, unspendable, payment),
        attempt is Built,
        is_p2wpkh(payment.receiver),
        is_p2wpkh(payment.change),
    ensures
        ({
            let tx = attempt->Built_0@;
            let rate = payment.fee_rate_sat_per_vb;
            let fee = attempt->Built_1.input_total - paid_value(tx.outputs);
            let size = 68 * tx.inputs.len() + 31 * tx.outputs.len() + 10;
            &&& tx.inputs.len() >= 1
            &&& 1 <= tx.outputs.len() <= 2
            &&& fee >= rate * size + (rate + 1) / 2
            &&& tx.outputs.len() == 2 ==> fee == rate * size + (rate + 1) / 2
            &&& fee < rate * size + (rate + 1) / 2 + rate * 31 + 294
        }),
{
    let tx = attempt->Built_0@;
    let unspent = wallet.unspent();
    let rate = payment.fee_rate_sat_per_vb as int;
    let inputs = tx.inputs.len() as int;
    assert forall|n: int| 0 <= n < tx.inputs.len() implies lists(
        unspent,
        #[trigger] tx.inputs[n],
    ) by {}
    lemma_known_value(tx.inputs, unspent);
    lemma_paid_at_least(tx.outputs, payment.receiver, payment.amount_sat, payment.change);
    assert(rate * (68 * inputs + 31 + 10) == rate * (68 * inputs) + rate * 41) by (nonlinear_arith);
    assert(rate * (68 * inputs + 62 + 10) == rate * (68 * inputs) + rate * 41 + rate * 31)
        by (nonlinear_arith);
    assert(0 <= rate * (68 * inputs)) by (nonlinear_arith)
        requires
            0 <= rate,
            0 <= inputs,
    ;
}

/// Every transaction of a batch pays the fee rate for what it weighs once it is signed: at least
/// by its weight, and by its virtual size as well if it has two inputs or more. With one input it
/// can fall short of that by half the rate, since a virtual size is rounded up.
pub proof fn built_transactions_pay_for_their_weight(
    attempt: Attempt,
    wallet: TickWallet,
    unspendable: Seq<OutPoint>,
    payment: PaymentView,
)
    requires
        attempted(attempt, wallet, unspendable, payment),
        attempt is Built,
        !is_op_return(payment.change),
    ensures
        covers_rate(
            attempt->Built_1.input_total - paid_value(attempt->Built_0@.outputs),
            tx_weight(attempt->Built_0.bytes()),
            attempt->Built_0@.inputs.len(),
            payment.fee_rate_sat_per_vb,
        ),
{
    let tx = attempt->Built_0@;
    assert forall|i: int| 0 <= i < tx.inputs.len() implies lists(
        wallet.unspent(),
        #[trigger] tx.inputs[i],
    ) by {}
    lemma_known_value(tx.inputs, wallet.unspent());
    lemma_covers_rate(
        tx,
        tx_weight(attempt->Built_0.bytes()),
        wallet.unspent(),
        unspendable,
        payment.receiver,
        payment.change,
        payment.amount_sat,
        payment.fee_rate_sat_per_vb,
    );
}

/// Every transaction that the node is handed is signed.
pub proof fn what_the_node_is_handed_is_signed(
    generator: TxGenerator,
    stage: Stage,
    tx: Arc<Transaction>,
)
    requires
        stage_wf(generator, stage),
        wants(
            stage,
            generator.external(),
            generator.internal(),
            generator.remembered()@.scan_tip,
            Action::Broadcast(tx),
        ),
    ensures
        tx_signed(tx.bytes()),
{
}

/// No attempt of a batch fails while the wallet is bound to make the payment out of what is left:
/// without what is blocked and what the transactions before it spend.
pub proof fn batch_builds_what_is_owed(
    attempts: Seq<Attempt>,
    count: u32,
    wallet: TickWallet,
    blocked: Seq<OutPoint>,
    payment: PaymentView,
    i: int,
)
    requires
        is_batch(attempts, count, wallet, blocked, payment),
        0 <= i < attempts.len(),
        owed(
            wallet,
            blocked + inputs_of(built_txs(attempts.take(i))),
            payment.receiver,
            payment.change,
            payment.amount_sat,
            payment.fee_rate_sat_per_vb,
        ),
    ensures
        attempts[i] is Built,
{
    let unspendable = blocked + inputs_of(built_txs(attempts.take(i)));
    assert(attempted(attempts[i], wallet, unspendable, payment));
    if let Attempt::Failed(error) = attempts[i] {
        what_is_owed_is_paid(
            error,
            wallet,
            unspendable,
            payment.receiver,
            payment.change,
            payment.amount_sat,
            payment.fee_rate_sat_per_vb,
        );
    }
}

/// No fee of a payment between P2WPKH scripts is absurd at a rate up to this, whatever is drawn and
/// however short the signatures are.
pub const SANE_RATE: u64 = 16_000;

/// At a sane rate the fee of a payment between P2WPKH scripts is never absurd.
pub proof fn lemma_sane_rate(limit: nat, receiver: Seq<u8>, change: Seq<u8>, rate: u64)
    requires
        is_p2wpkh(receiver),
        is_p2wpkh(change),
        rate <= SANE_RATE,
    ensures
        never_absurd(limit, receiver, change, rate),
{
    assert forall|inputs: nat| 1 <= inputs <= limit implies !is_absurd(
        #[trigger] most_fee(inputs, receiver, change, rate) as int,
        least_weight(inputs, receiver),
    ) by {
        let n = inputs as int;
        assert(rate * (68 * n) <= 16_000 * (68 * n)) by (nonlinear_arith)
            requires
                0 <= rate <= 16_000,
                0 <= n,
        ;
        let size = output_size(receiver) as int;
        assert(size == 31 && output_size(change) == 31);
        assert(rate * (10 + size) == rate * 41) by (nonlinear_arith)
            requires
                size == 31,
        ;
        assert(rate * size == rate * 31) by (nonlinear_arith)
            requires
                size == 31,
        ;
        assert(dust_limit(change) == 294);
        let fee = most_fee(inputs, receiver, change, rate) as int;
        let weight = least_weight(inputs, receiver) as int;
        assert(fee <= 16_000 * (68 * n) + 16_000 * 72 + 8_000 + 294);
        assert(weight >= 209 * n + 166);
    }
}

/// A generator's wallet has the keys to what it holds, and the generator's change goes to an
/// address. So a payment at a sane fee rate is made if it can be afforded whichever
/// outputs are drawn, once the node gave for each scanned output a transaction of its id.
pub proof fn tick_pays_what_it_can_afford(
    generator: TxGenerator,
    fresh: TickWallet,
    blocks: Seq<BlockId>,
    utxos: Seq<Utxo>,
    parents: Map<Txid, Parent>,
    wallet: TickWallet,
    mempool: Seq<Arc<Transaction>>,
    now: u64,
    ready: TickWallet,
    broadcast: Broadcast,
)
    requires
        generator.wf(),
        fresh.fresh(
            generator.external(),
            generator.internal(),
            btc_network_of(generator.settings().network),
        ),
        filled(fresh, blocks, utxos, parents, wallet),
        found_rightly(parents),
        took_in(wallet, mempool, now, ready),
        broadcast_begun(generator, wallet, ready, mempool, broadcast),
        batch_count_of(generator.settings()) >= 1,
        payable(
            ready.unspent(),
            broadcast.blocked@,
            generator.payment().receiver,
            generator.payment().amount_sat,
            generator.payment().fee_rate_sat_per_vb,
        ),
        affordable(
            ready.txs(),
            ready.anchors(),
            ready.chain(),
            ready.unspent(),
            broadcast.blocked@,
            generator.payment().receiver,
            generator.payment().amount_sat,
            generator.payment().fee_rate_sat_per_vb,
        ),
        generator.payment().fee_rate_sat_per_vb <= SANE_RATE,
    ensures
        broadcast.txs@.len() >= 1,
        broadcast.attempts@.len() == batch_count_of(generator.settings()),
{
    let payment = generator.payment();
    let count = batch_count_of(generator.settings());
    let attempts = broadcast.attempts@;
    assert(built_txs(attempts.take(0)) =~= Seq::empty());
    assert(broadcast.blocked@ + inputs_of(built_txs(attempts.take(0))) =~= broadcast.blocked@);
    assert(ready.descriptors() == fresh.descriptors());
    lemma_sane_rate(
        spendable(ready.unspent(), broadcast.blocked@).len(),
        payment.receiver,
        payment.change,
        payment.fee_rate_sat_per_vb,
    );
    batch_builds_what_is_owed(attempts, count, ready, broadcast.blocked@, payment, 0);
    only_the_first_failure_ends_a_batch(attempts, count, ready, broadcast.blocked@, payment);
}

/// Roles of which none is unexpected count none that is.
proof fn lemma_none_unexpected(roles: Seq<OutputRole>)
    requires
        forall|j: int| 0 <= j < roles.len() ==> #[trigger] roles[j] != OutputRole::Unexpected,
    ensures
        unexpected_in(roles) == 0,
    decreases roles.len(),
{
    if roles.len() != 0 {
        let rest = roles.drop_last();
        assert forall|j: int| 0 <= j < rest.len() implies #[trigger] rest[j]
            != OutputRole::Unexpected by {
            assert(rest[j] == roles[j]);
        }
        lemma_none_unexpected(rest);
        assert(roles[roles.len() - 1] != OutputRole::Unexpected);
    }
}

/// Inputs that are all listed come to what is spent.
proof fn lemma_known_value(inputs: Seq<OutPoint>, unspent: Seq<WalletUtxo>)
    requires
        forall|n: int| 0 <= n < inputs.len() ==> lists(unspent, #[trigger] inputs[n]),
    ensures
        total_value(known_inputs(inputs, unspent)) == spent_value(inputs, unspent),
    decreases inputs.len(),
{
    if inputs.len() != 0 {
        let rest = inputs.drop_last();
        assert forall|n: int| 0 <= n < rest.len() implies lists(unspent, #[trigger] rest[n]) by {
            assert(rest[n] == inputs[n]);
        }
        lemma_known_value(rest, unspent);
        let known = known_inputs(inputs, unspent);
        let last = inputs.last();
        assert(lists(unspent, inputs[inputs.len() - 1]));
        assert(known.drop_last() =~= known_inputs(rest, unspent));
    }
}

/// If the first transaction of a batch cannot be built, there is none at all. If it can, as many
/// are attempted as a tick is to send, whatever becomes of the others.
pub proof fn only_the_first_failure_ends_a_batch(
    attempts: Seq<Attempt>,
    count: u32,
    wallet: TickWallet,
    blocked: Seq<OutPoint>,
    payment: PaymentView,
)
    requires
        is_batch(attempts, count, wallet, blocked, payment),
        count >= 1,
    ensures
        attempts[0] is Failed ==> built_txs(attempts).len() == 0,
        attempts[0] is Built ==> attempts.len() == count && built_txs(attempts).len() >= 1,
{
    if attempts[0] is Failed {
        assert(attempts.drop_last() =~= Seq::empty());
    } else {
        lemma_first_built(attempts);
    }
}

/// A list whose first attempt succeeded holds a transaction.
proof fn lemma_first_built(attempts: Seq<Attempt>)
    requires
        attempts.len() >= 1,
        attempts[0] is Built,
    ensures
        built_txs(attempts).len() >= 1,
    decreases attempts.len(),
{
    if attempts.len() > 1 {
        assert(attempts.drop_last()[0] == attempts[0]);
        lemma_first_built(attempts.drop_last());
    }
}

// ---------------------------------------------------------------------------------------
// The mempool.
// ---------------------------------------------------------------------------------------

/// What becomes of a reading that goes on out of a cache: the ids and the gaps are the same, it
/// comes no less far, and it covers what it has looked at if it did before.
proof fn lemma_reusing(fetch: FetchView, cache: Map<Txid, Arc<Transaction>>)
    requires
        0 <= fetch.next <= fetch.txids.len(),
        fetch.complete ==> fetch.covers(cache),
    ensures
        fetch.reusing(cache).txids == fetch.txids,
        fetch.reusing(cache).complete == fetch.complete,
        fetch.next <= fetch.reusing(cache).next <= fetch.txids.len(),
        fetch.complete ==> fetch.reusing(cache).covers(cache),
    decreases fetch.txids.len() - fetch.next,
{
    if fetch.next < fetch.txids.len() && cache.contains_key(fetch.txids[fetch.next]) {
        let step = FetchView {
            next: fetch.next + 1,
            txs: fetch.txs.push(cache[fetch.txids[fetch.next]]),
            reused: fetch.reused + 1,
            ..fetch
        };
        lemma_reusing(step, cache);
    }
}

/// The ids of the mempool that a tick knows of.
pub open spec fn listed_ids(stage: Stage, event: Event) -> Seq<Txid> {
    match (stage, event) {
        (Stage::ListingMempool(_), Event::MempoolListed(Some(txids))) => txids@,
        (Stage::FetchingMempool(_, fetch), _) => fetch.txids@,
        _ => Seq::empty(),
    }
}

/// A tick goes on from the mempool to a wallet only if every transaction that the node lists
/// could be had. It then remembers those and no others, and hands all of them to the wallet.
pub proof fn wallet_needs_the_whole_mempool(
    generator: TxGenerator,
    stage: Stage,
    event: Event,
    now: u64,
    caches_after: CachesView,
    stage_after: Stage,
)
    requires
        generator.wf(),
        stage_wf(generator, stage),
        answers(stage, event),
        stepped(generator, stage, event, now, caches_after, stage_after),
        stage is ListingMempool || stage is FetchingMempool,
        !(stage_after is FetchingMempool),
        !(stage_after matches Stage::Skipped(SkipReason::Mempool)),
    ensures
        caches_after.mempool_txs.dom() == listed_ids(stage, event).to_set(),
        stage_after matches Stage::CheckingTip(mempool, _, _) ==> mempool.txs@ == Seq::new(
            listed_ids(stage, event).len(),
            |i: int| caches_after.mempool_txs[listed_ids(stage, event)[i]],
        ),
        stage_after matches Stage::FillingWallet(mempool, _) ==> mempool.txs@ == Seq::new(
            listed_ids(stage, event).len(),
            |i: int| caches_after.mempool_txs[listed_ids(stage, event)[i]],
        ),
{
    let ids = listed_ids(stage, event);
    let caches = generator.remembered()@.mempool_txs;
    let (reading, cache) = reading_of(generator, stage, event);
    lemma_reading(generator, stage, event);
    lemma_reusing(reading, cache);
    let read = reading.reusing(cache);
    assert(read.next == ids.len());
    assert(caches_after.mempool_txs == cache);
    assert forall|txid: Txid| cache.contains_key(txid) <==> ids.to_set().contains(txid) by {
        if ids.to_set().contains(txid) {
            let i = choose|i: int| 0 <= i < ids.len() && ids[i] == txid;
            assert(cache.contains_key(read.txids[i]));
        }
    }
    assert(cache.dom() =~= ids.to_set());
    assert(read.txs =~= Seq::new(ids.len(), |i: int| cache[ids[i]]));
}

/// The reading of the mempool that an event leads to, and what is cached then.
pub open spec fn reading_of(generator: TxGenerator, stage: Stage, event: Event) -> (
    FetchView,
    Map<Txid, Arc<Transaction>>,
) {
    let cache = generator.remembered()@.mempool_txs;
    match (stage, event) {
        (Stage::FetchingMempool(_, fetch), Event::TxFetched(reply)) => (
            fetch@.accepting(shared(reply)),
            fetch@.remembering(cache, shared(reply)),
        ),
        _ => (
            fetch_begun(listed_ids(stage, event)),
            cache.restrict(listed_ids(stage, event).to_set()),
        ),
    }
}

/// A reading that an event leads to covers what it has looked at, unless it has a gap, and
/// nothing is cached but what the node lists.
proof fn lemma_reading(generator: TxGenerator, stage: Stage, event: Event)
    requires
        generator.wf(),
        stage_wf(generator, stage),
        answers(stage, event),
        stage is ListingMempool && event->MempoolListed_0 is Some || stage is FetchingMempool,
    ensures
        ({
            let (reading, cache) = reading_of(generator, stage, event);
            &&& reading.txids == listed_ids(stage, event)
            &&& 0 <= reading.next <= reading.txids.len()
            &&& reading.complete ==> reading.covers(cache)
            &&& forall|txid: Txid| #[trigger]
                cache.contains_key(txid) ==> listed_ids(stage, event).to_set().contains(txid)
        }),
{
    let (reading, cache) = reading_of(generator, stage, event);
    let ids = listed_ids(stage, event);
    if let Stage::FetchingMempool(_, fetch) = stage {
        let before = generator.remembered()@.mempool_txs;
        assert forall|txid: Txid| #[trigger] cache.contains_key(txid) implies ids.to_set().contains(
            txid,
        ) by {
            if txid == fetch@.txids[fetch@.next] {
                assert(ids.contains(txid));
            } else {
                assert(before.contains_key(txid));
            }
        }
        if reading.complete {
            assert forall|i: int| 0 <= i < reading.next implies cache.contains_key(
                #[trigger] reading.txids[i],
            ) && reading.txs[i] == cache[reading.txids[i]] by {
                if i < fetch@.next {
                    assert(before.contains_key(fetch@.txids[i]));
                }
            }
        }
    }
}

/// A gap in the reading of the mempool is never forgotten: the tick builds nothing.
pub proof fn gap_in_the_mempool_ends_the_tick(
    generator: TxGenerator,
    snapshot: ConfirmedSnapshot,
    fetch: MempoolFetch,
    reply: Option<Transaction>,
    now: u64,
    caches_after: CachesView,
    stage_after: Stage,
)
    requires
        generator.wf(),
        stage_wf(generator, Stage::FetchingMempool(snapshot, fetch)),
        answers(Stage::FetchingMempool(snapshot, fetch), Event::TxFetched(reply)),
        stepped(
            generator,
            Stage::FetchingMempool(snapshot, fetch),
            Event::TxFetched(reply),
            now,
            caches_after,
            stage_after,
        ),
        !fetch@.complete || reply is None,
    ensures
        (stage_after matches Stage::FetchingMempool(_, later) && !later@.complete) || (
        stage_after matches Stage::Skipped(SkipReason::Mempool)),
{
    let stage = Stage::FetchingMempool(snapshot, fetch);
    let event = Event::TxFetched(reply);
    lemma_reading(generator, stage, event);
    let (reading, cache) = reading_of(generator, stage, event);
    lemma_reusing(reading, cache);
}

// ---------------------------------------------------------------------------------------
// The wallet.
// ---------------------------------------------------------------------------------------

/// Whether nothing is believed of confirmed blocks and transactions but for the tip of a scan.
pub open spec fn knows_only_the_tip(caches: CachesView, tip: BlockId) -> bool {
    &&& forall|height: u32|
        height != tip.height ==> (#[trigger] known_hash(tip, caches.block_hashes, height)) is None
    &&& forall|key: ConfirmedKey| !(#[trigger] caches.confirmed_txs.contains_key(key))
}

/// After a reorganization, nothing that was remembered of confirmed blocks and transactions is
/// believed any more: but for the tip, every block and every transaction is asked for again.
pub proof fn reorganization_forgets_confirmed_data(caches: CachesView, tip: BlockId)
    requires
        reorganized(caches.scan_tip, tip),
    ensures
        knows_only_the_tip(caches.noting(tip), tip),
        caches.noting(tip).mempool_txs == caches.mempool_txs,
{
}

/// The same holds once a higher tip has come and another block stands at the height of the last, or
/// none that the node would name.
pub proof fn lost_tip_forgets_confirmed_data(
    caches: CachesView,
    tip: BlockId,
    reply: Option<BlockHash>,
)
    requires
        reply != Some(caches.scan_tip->0.hash),
    ensures
        knows_only_the_tip(caches.checking(tip, reply), tip),
        caches.checking(tip, reply).mempool_txs == caches.mempool_txs,
{
}

/// While the last tip stands, nothing is forgotten.
pub proof fn nothing_is_forgotten_while_the_last_tip_stands(caches: CachesView, tip: BlockId)
    requires
        caches.scan_tip is Some,
        !reorganized(caches.scan_tip, tip),
    ensures
        caches.noting(tip) == (CachesView { scan_tip: Some(tip), ..caches }),
        caches.checking(tip, Some(caches.scan_tip->0.hash)) == (CachesView {
            scan_tip: Some(tip),
            ..caches
        }),
{
}

/// What is remembered of confirmed blocks and transactions goes over to another tip only once the
/// node was asked whether the last one stands: a tick that goes on with another tip without asking
/// has nothing of it.
pub proof fn no_other_tip_is_taken_unchecked(
    generator: TxGenerator,
    caches: CachesView,
    snapshot: ConfirmedSnapshot,
    mempool: Seq<Arc<Transaction>>,
    now: u64,
    caches_after: CachesView,
    stage: Stage,
)
    requires
        wallet_begun(generator, caches, snapshot, mempool, now, caches_after, stage),
        caches.scan_tip is Some,
        caches.scan_tip != Some(snapshot.tip),
        caches_after.scan_tip == Some(snapshot.tip),
    ensures
        !caches_after.holds_confirmed(),
{
}

/// The node is never asked for what is remembered, but for the block at the height of the last tip,
/// to see whether that still stands.
pub proof fn nothing_remembered_is_asked_for(generator: TxGenerator, stage: Stage, action: Action)
    requires
        stage_wf(generator, stage),
        wants(
            stage,
            generator.external(),
            generator.internal(),
            generator.remembered()@.scan_tip,
            action,
        ),
    ensures
        match action {
            Action::FetchBlockHash(height) => if stage is CheckingTip {
                height == generator.remembered()@.scan_tip->0.height
            } else {
                !generator.remembered()@.block_hashes.contains_key(height)
            },
            Action::FetchTx(txid, Some(block)) => {
                !generator.remembered()@.confirmed_txs.contains_key(ConfirmedKey { txid, block })
            },
            Action::FetchTx(txid, None) => !generator.remembered()@.mempool_txs.contains_key(txid),
            _ => true,
        },
{
}

/// Once nothing is missing, the chain of a wallet holds the first block, the blocks of the
/// scanned outputs and the tip of the scan, and no others.
pub proof fn chain_spans_genesis_outputs_and_tip(plan: WalletPlan)
    requires
        plan.wf(),
        plan@.missing() is None,
    ensures
        forall|height: u32| #[trigger]
            plan@.chain().contains_key(height) <==> needed(plan.snapshot, height),
        plan@.chain()[plan.snapshot.tip.height] == plan.snapshot.tip.hash,
{
    plan.lemma_blocks();
    lemma_blocks_by_height(plan.blocks@);
    assert(plan@.chain().contains_key(plan.snapshot.tip.height));
    let i = choose|i: int|
        0 <= i < plan.blocks@.len() && (#[trigger] plan.blocks@[i]).height
            == plan.snapshot.tip.height;
    assert(plan.blocks@[i].hash == plan.snapshot.tip.hash);
}

/// A filled wallet takes a transaction for confirmed only in the block at the height at which the
/// scan found an output of it.
pub proof fn confirmations_are_where_the_scan_found_them(
    plan: WalletPlan,
    wallet: TickWallet,
    anchor: Anchor,
    txid: Txid,
)
    requires
        plan.wf(),
        plan@.missing() is None,
        filled(plan@.wallet, plan@.blocks, plan@.utxos, plan@.parents, wallet),
        wallet.anchors().contains((anchor, txid)),
    ensures
        exists|i: int|
            0 <= i < plan@.utxos.len() && (#[trigger] plan@.utxos[i]).txid == txid && anchor.block
                == block_of(plan@.utxos[i], plan@.chain()),
{
    lemma_ids_found(plan@.utxos, plan@.parents, txid);
    assert(plan@.parents.contains_key(txid));
    let i = choose|i: int|
        0 <= i < plan.next && (#[trigger] plan@.utxos[i]).txid == txid
            && plan@.parents[txid].block == block_of(plan@.utxos[i], plan@.chain());
    assert(plan@.utxos[i].txid == txid);
}

/// A tick's wallet has nothing but its own, if the node gave for each scanned output a transaction
/// of its id.
pub proof fn what_a_tick_holds_is_its_own(
    before: TickWallet,
    blocks: Seq<BlockId>,
    utxos: Seq<Utxo>,
    parents: Map<Txid, Parent>,
    wallet: TickWallet,
    mempool: Seq<Arc<Transaction>>,
    now: u64,
    ready: TickWallet,
)
    requires
        filled(before, blocks, utxos, parents, wallet),
        found_rightly(parents),
        took_in(wallet, mempool, now, ready),
    ensures
        ready.own_only(),
{
}

/// To take in the mempool confirms nothing and forgets nothing: the blocks and the confirmations
/// of a wallet stay, and every transaction is held from then on.
pub proof fn mempool_is_taken_in_unconfirmed(
    before: TickWallet,
    txs: Seq<Arc<Transaction>>,
    now: u64,
    after: TickWallet,
)
    requires
        took_in(before, txs, now, after),
    ensures
        after.chain() == before.chain(),
        after.anchors() == before.anchors(),
        forall|txid: Txid|
            before.txs().contains_key(txid) ==> #[trigger] after.txs().contains_key(txid)
                && after.txs()[txid] == before.txs()[txid],
        forall|i: int| 0 <= i < txs.len() ==> after.txs().contains_key((#[trigger] txs[i])@.txid),
{
    assert forall|i: int| 0 <= i < txs.len() implies after.txs().contains_key(
        (#[trigger] txs[i])@.txid,
    ) by {
        assert(views_of(txs)[i] == txs[i]@);
    }
}

/// In a wallet whose transactions are all confirmed or seen and do not contradict each other, an
/// output that pays a script of the wallet can be spent exactly if no transaction spends it.
pub proof fn own_outputs_can_be_spent_until_spent(
    wallet: TickWallet,
    outpoint: OutPoint,
    chain: Keychain,
    i: u32,
)
    requires
        wallet.wf(),
        wallet.lists_rightly(),
        wallet.settled(),
        has_output(wallet.txs(), outpoint),
        i <= LAST_ACTIVE_INDEX,
        output_at(wallet.txs(), outpoint).script_pubkey == wallet.scripts()[(chain, i)],
    ensures
        lists(wallet.unspent(), outpoint) <==> !is_spent(wallet.txs(), outpoint),
{
}

/// The transactions of a tick's wallet are all confirmed or seen, if the node gave for each
/// scanned output a transaction of its id.
pub proof fn what_a_tick_holds_is_confirmed_or_seen(
    plan: WalletPlan,
    wallet: TickWallet,
    mempool: Seq<Arc<Transaction>>,
    now: u64,
    ready: TickWallet,
)
    requires
        plan.wf(),
        plan@.missing() is None,
        found_rightly(plan@.parents),
        filled(plan@.wallet, plan@.blocks, plan@.utxos, plan@.parents, wallet),
        took_in(wallet, mempool, now, ready),
    ensures
        all_placed(ready.txs(), ready.anchors(), ready.chain(), ready.last_seen()),
{
    let ids = ids_found(plan@.utxos, plan@.parents);
    assert forall|txid: Txid| #[trigger] ready.txs().contains_key(txid) implies {
        ||| ready.last_seen().contains_key(txid)
        ||| exists|anchor: Anchor| #[trigger]
            ready.anchors().contains((anchor, txid)) && ready.chain().contains_key(
                anchor.block.height,
            ) && ready.chain()[anchor.block.height] == anchor.block.hash
    } by {
        if wallet.txs().contains_key(txid) {
            let found = txs_found(ids, plan@.parents);
            let k = choose|k: int|
                0 <= k < found.len() && (#[trigger] found[k]).txid == txid && wallet.txs()[txid]
                    == found[k];
            assert(ids.contains(ids[k]));
            lemma_ids_found(plan@.utxos, plan@.parents, ids[k]);
            assert(ids[k] == txid);
            let block = plan@.parents[txid].block;
            assert(wallet.anchors().contains((anchor_in(block), txid)));
            assert(ready.anchors().contains((anchor_in(block), txid)));
            let i = choose|i: int|
                0 <= i < plan.next && (#[trigger] plan@.utxos[i]).txid == txid
                    && plan@.parents[txid].block == block_of(plan@.utxos[i], plan@.chain());
            plan.lemma_blocks();
            assert(holds_output(plan@.utxos, low_half(plan@.utxos[i].height)));
            assert(needed(plan.snapshot, block.height));
            assert(plan@.chain().contains_key(block.height));
        } else {
            let k = choose|k: int|
                0 <= k < views_of(mempool).len() && (#[trigger] views_of(mempool)[k]).txid == txid
                    && ready.txs()[txid] == views_of(mempool)[k];
            assert(mempool[k]@.txid == txid);
            assert(sightings_of(mempool, now).contains((txid, now)));
        }
    }
}

/// The change of a transaction in the mempool can be spent before it is confirmed: it is listed as
/// unspent and not blocked, as long as no transaction spends it.
pub proof fn unconfirmed_change_can_be_spent(
    generator: TxGenerator,
    fresh: TickWallet,
    blocks: Seq<BlockId>,
    utxos: Seq<Utxo>,
    parents: Map<Txid, Parent>,
    wallet: TickWallet,
    mempool: Seq<Arc<Transaction>>,
    now: u64,
    ready: TickWallet,
    broadcast: Broadcast,
    m: int,
    vout: u32,
)
    requires
        generator.wf(),
        fresh.fresh(
            generator.external(),
            generator.internal(),
            btc_network_of(generator.settings().network),
        ),
        filled(fresh, blocks, utxos, parents, wallet),
        took_in(wallet, mempool, now, ready),
        broadcast_begun(generator, wallet, ready, mempool, broadcast),
        ready.settled(),
        forall|i: int|
            0 <= i < mempool.len() ==> ready.txs()[(#[trigger] mempool[i])@.txid] == mempool[i]@,
        0 <= m < mempool.len(),
        vout < mempool[m]@.outputs.len(),
        mempool[m]@.outputs[vout as int].script_pubkey == generator.change().script_pubkey@,
        !is_spent(ready.txs(), OutPoint { txid: mempool[m]@.txid, vout }),
    ensures
        lists(ready.unspent(), OutPoint { txid: mempool[m]@.txid, vout }),
        !broadcast.blocked@.contains(OutPoint { txid: mempool[m]@.txid, vout }),
{
    let outpoint = OutPoint { txid: mempool[m]@.txid, vout };
    let config = generator.settings();
    let network = btc_network_of(config.network);
    let coin = coin_type_of(config.network);
    let sender = config.sender_account_index;
    let change = change_account_of(config);
    let seed = bip39_seed(config.seed_phrase@)->0;
    let fingerprint = master_fingerprint(network, seed)->0;
    let sender_xprv = xprv_at(network, seed, account_path(coin, sender))->0;
    let change_xprv = xprv_at(network, seed, account_path(coin, change))->0;
    let chain = if change == sender {
        assert(generator.external() == keychain(fingerprint, coin, sender, sender_xprv, 0));
        Keychain::External
    } else {
        assert(generator.internal() == keychain(fingerprint, coin, change, change_xprv, 0));
        Keychain::Internal
    };
    assert(fresh.scripts()[(chain, 0u32)] == child_script(change_xprv, 0, 0));
    assert(views_of(mempool)[m] == mempool[m]@);
    assert(has_output(ready.txs(), outpoint));
    own_outputs_can_be_spent_until_spent(ready, outpoint, chain, 0);
    if broadcast.blocked@.contains(outpoint) {
        lemma_inputs_of(mempool, outpoint);
        let j = choose|j: int|
            0 <= j < mempool.len() && (#[trigger] mempool[j])@.inputs.contains(outpoint);
        assert(views_of(mempool)[j] == mempool[j]@);
        assert(ready.txs().contains_key(mempool[j]@.txid));
        assert(spends(ready.txs()[mempool[j]@.txid], outpoint));
    }
}

/// A confirmed output that the scan found can be spent, once its transaction was fetched, as long
/// as no transaction spends it.
pub proof fn scanned_outputs_can_be_spent(
    before: TickWallet,
    blocks: Seq<BlockId>,
    utxos: Seq<Utxo>,
    parents: Map<Txid, Parent>,
    wallet: TickWallet,
    mempool: Seq<Arc<Transaction>>,
    now: u64,
    ready: TickWallet,
    n: int,
    chain: Keychain,
    i: u32,
)
    requires
        filled(before, blocks, utxos, parents, wallet),
        took_in(wallet, mempool, now, ready),
        ready.wf(),
        ready.lists_rightly(),
        ready.settled(),
        0 <= n < utxos.len(),
        parents.contains_key(utxos[n].txid),
        parents[utxos[n].txid].tx@.txid == utxos[n].txid,
        ready.txs()[utxos[n].txid] == parents[utxos[n].txid].tx@,
        utxos[n].vout < parents[utxos[n].txid].tx@.outputs.len(),
        i <= LAST_ACTIVE_INDEX,
        parents[utxos[n].txid].tx@.outputs[utxos[n].vout as int].script_pubkey
            == ready.scripts()[(chain, i)],
        !is_spent(ready.txs(), OutPoint { txid: utxos[n].txid, vout: utxos[n].vout }),
    ensures
        lists(ready.unspent(), OutPoint { txid: utxos[n].txid, vout: utxos[n].vout }),
{
    let txid = utxos[n].txid;
    let outpoint = OutPoint { txid, vout: utxos[n].vout };
    let ids = ids_found(utxos, parents);
    lemma_ids_complete(utxos, parents, n);
    let k = choose|k: int| 0 <= k < ids.len() && ids[k] == txid;
    assert(txs_found(ids, parents)[k].txid == txid);
    assert(wallet.txs().contains_key(txid));
    assert(ready.txs().contains_key(txid));
    assert(has_output(ready.txs(), outpoint));
    own_outputs_can_be_spent_until_spent(ready, outpoint, chain, i);
}

/// A scan that found nothing is no error: unless BDK cannot create a wallet at all, does not take
/// the height of the tip, or cannot hold the mempool, the tick goes on to its batch, or to see
/// whether the last tip still stands.
pub proof fn nothing_scanned_is_no_error(
    generator: TxGenerator,
    caches: CachesView,
    snapshot: ConfirmedSnapshot,
    mempool: Seq<Arc<Transaction>>,
    now: u64,
    caches_after: CachesView,
    stage: Stage,
)
    requires
        wallet_begun(generator, caches, snapshot, mempool, now, caches_after, stage),
        snapshot.utxos@.len() == 0,
    ensures
        match stage {
            Stage::Broadcasting(_) => true,
            Stage::CheckingTip(_, _, _) => caches.in_doubt(snapshot.tip),
            Stage::Skipped(SkipReason::Wallet(error)) => error is Database || error is Create || (
            error is Height && snapshot.tip.height >= HEIGHT_LIMIT),
            Stage::Skipped(SkipReason::Injection(_)) => !none_coinbase(mempool) || !fit(
                views_of(mempool),
                null_ids(views_of(mempool)),
                Set::empty(),
            ),
            _ => false,
        },
{
    let none = Map::<Txid, Parent>::empty();
    assert(ids_found(snapshot.utxos@, none) =~= Seq::empty());
    assert(txs_found(Seq::empty(), none) =~= Seq::empty());
    assert(null_ids(Seq::empty()) =~= Set::<Txid>::empty());
    assert(loose_ids(Seq::empty(), Seq::empty()) =~= Set::<Txid>::empty());
    assert(Set::<Txid>::empty().union(null_ids(views_of(mempool))) =~= null_ids(views_of(mempool)));
}

/// The wallet of a scan that found nothing holds no transaction. If the mempool is empty as well,
/// its balance is zero, and there is nothing to build a transaction from.
pub proof fn nothing_scanned_makes_an_empty_wallet(
    generator: TxGenerator,
    wallet: TickWallet,
    ready: TickWallet,
    tip: BlockId,
    mempool: Seq<Arc<Transaction>>,
    now: u64,
    later: TickWallet,
    broadcast: Broadcast,
)
    requires
        filled(
            wallet,
            empty_chain(btc_network_of(generator.settings().network), tip),
            Seq::empty(),
            Map::<Txid, Parent>::empty(),
            ready,
        ),
        wallet.txs() == Map::<Txid, TransactionView>::empty(),
        took_in(ready, mempool, now, later),
        broadcast_begun(generator, ready, later, mempool, broadcast),
    ensures
        ready.txs() == Map::<Txid, TransactionView>::empty(),
        mempool.len() == 0 ==> broadcast.report.balance == 0,
        mempool.len() == 0 && generator.settings().amount_sat != 0 ==> broadcast.txs@.len() == 0,
{
    let none = Map::<Txid, Parent>::empty();
    assert(ids_found(Seq::empty(), none) =~= Seq::empty());
    assert(txs_found(Seq::empty(), none) =~= Seq::empty());
    assert(ready.txs() =~= Map::<Txid, TransactionView>::empty());
    if mempool.len() == 0 {
        let unspent = later.unspent();
        if unspent.len() != 0 {
            assert(has_output(later.txs(), unspent[0].outpoint));
        }
        if broadcast.txs@.len() != 0 && generator.settings().amount_sat != 0 {
            lemma_built_fulfils(
                broadcast.attempts@,
                batch_count_of(generator.settings()),
                later,
                broadcast.blocked@,
                generator.payment(),
                0,
            );
            let tx = broadcast.txs@[0]@;
            if tx.inputs.len() != 0 {
                assert(lists(unspent, tx.inputs[0]));
            }
            let payment = generator.payment();
            lemma_paid_at_least(tx.outputs, payment.receiver, payment.amount_sat, payment.change);
        }
    }
}

/// Outputs that pay an amount come to that amount at least.
proof fn lemma_paid_at_least(
    outputs: Seq<TxOutView>,
    receiver: Seq<u8>,
    amount_sat: u64,
    change: Seq<u8>,
)
    requires
        pays(outputs, receiver, amount_sat, change),
    ensures
        paid_value(outputs) >= amount_sat,
{
    let i = choose|i: int|
        0 <= i < outputs.len() && (#[trigger] outputs[i]) == (TxOutView {
            value: amount_sat,
            script_pubkey: receiver,
        }) && forall|j: int|
            0 <= j < outputs.len() && j != i ==> (#[trigger] outputs[j]).script_pubkey == change;
    reveal_with_fuel(paid_value, 3);
    if outputs.len() == 2 {
        assert(outputs.drop_last().drop_last() =~= Seq::empty());
        assert(outputs.drop_last()[0] == outputs[0]);
    } else {
        assert(outputs.drop_last() =~= Seq::empty());
    }
}

// ---------------------------------------------------------------------------------------
// The tick.
// ---------------------------------------------------------------------------------------

/// What comes of a tick adds up: no more transactions are broadcast than built, and no more built
/// than configured. A tick that was given up built and broadcast none, and any other has handed
/// every transaction that it built to the node.
pub proof fn outcome_adds_up(generator: TxGenerator, stage: Stage, outcome: TickOutcome)
    requires
        stage_wf(generator, stage),
        wants(
            stage,
            generator.external(),
            generator.internal(),
            generator.remembered()@.scan_tip,
            Action::Finish(outcome),
        ),
    ensures
        outcome.broadcast <= outcome.built <= batch_count_of(generator.settings()),
        outcome.skipped ==> outcome.built == 0 && outcome.broadcast == 0,
        outcome.skipped <==> stage is Skipped,
        !outcome.skipped ==> (stage matches Stage::Broadcasting(broadcast) && broadcast.next
            == broadcast.txs@.len() && outcome.built == broadcast.txs@.len()),
{
}

/// A refusal by the node changes nothing for the transactions that are still to be handed over.
pub proof fn refusal_does_not_hold_up_the_rest(
    before: Broadcast,
    after_taken: Broadcast,
    after_refused: Broadcast,
)
    requires
        accepted(before, true, after_taken),
        accepted(before, false, after_refused),
    ensures
        after_refused.txs == after_taken.txs,
        after_refused.next == after_taken.next,
        after_refused.broadcast == before.broadcast,
        after_taken.broadcast == before.broadcast + 1,
{
}

/// How far a tick is from its end: by its stage, and by what is left to do in it.
pub open spec fn stage_rank(stage: Stage) -> nat {
    match stage {
        Stage::Scanning => 6,
        Stage::ListingMempool(_) => 5,
        Stage::FetchingMempool(_, _) => 4,
        Stage::CheckingTip(_, _, _) => 3,
        Stage::FillingWallet(_, _) => 2,
        Stage::Broadcasting(_) => 1,
        Stage::Skipped(_) => 0,
    }
}

/// What is left to do in a stage.
pub open spec fn left_in(stage: Stage) -> int {
    match stage {
        Stage::FetchingMempool(_, fetch) => fetch@.txids.len() - fetch@.next,
        Stage::FillingWallet(_, plan) => plan@.heights.len() - plan@.blocks.len()
            + plan@.utxos.len() - plan@.next,
        Stage::Broadcasting(broadcast) => broadcast.txs@.len() - broadcast.next,
        _ => 0,
    }
}

/// Every step takes a tick nearer to its end, so that a tick asks the node for something only a
/// limited number of times.
pub proof fn every_step_comes_nearer_to_the_end(
    generator: TxGenerator,
    stage: Stage,
    event: Event,
    now: u64,
    caches_after: CachesView,
    generator_after: TxGenerator,
    stage_after: Stage,
)
    requires
        generator.wf(),
        stage_wf(generator, stage),
        answers(stage, event),
        stepped(generator, stage, event, now, caches_after, stage_after),
        stage_wf(generator_after, stage_after),
    ensures
        stage_rank(stage_after) < stage_rank(stage) || (stage_rank(stage_after) == stage_rank(stage)
            && 0 <= left_in(stage_after) < left_in(stage)),
{
    match stage {
        Stage::FetchingMempool(_, fetch) => {
            lemma_reading(generator, stage, event);
            let (reading, cache) = reading_of(generator, stage, event);
            lemma_reusing(reading, cache);
        },
        Stage::ListingMempool(_) => {
            if event->MempoolListed_0 is Some {
                lemma_reading(generator, stage, event);
                let (reading, cache) = reading_of(generator, stage, event);
                lemma_reusing(reading, cache);
            }
        },
        Stage::FillingWallet(_, plan) => match event {
            Event::BlockHashFetched(Some(hash)) => {
                lemma_plan_reusing(
                    plan@.accepting_block(hash),
                    plan@.remembering_block(generator.remembered()@, hash),
                );
            },
            Event::TxFetched(reply) => {
                lemma_plan_reusing(
                    plan@.accepting_parent(shared(reply)),
                    plan@.remembering_parent(generator.remembered()@, shared(reply)),
                );
            },
            _ => {},
        },
        _ => {},
    }
}

/// What becomes of a plan that goes on out of what is remembered: it comes no less far.
proof fn lemma_plan_reusing(plan: PlanView, caches: CachesView)
    requires
        plan.blocks.len() <= plan.heights.len(),
        0 <= plan.next <= plan.utxos.len(),
    ensures
        plan.reusing(caches).heights == plan.heights,
        plan.reusing(caches).utxos == plan.utxos,
        plan.blocks.len() <= plan.reusing(caches).blocks.len() <= plan.heights.len(),
        plan.next <= plan.reusing(caches).next <= plan.utxos.len(),
{
    lemma_blocks_from(plan.tip, caches.block_hashes, plan.heights, plan.blocks);
    let blocks = blocks_from(
        plan.tip,
        caches.block_hashes,
        plan.heights,
        plan.blocks,
    );
    lemma_parents_from(
        plan.utxos,
        blocks_by_height(blocks),
        caches.confirmed_txs,
        plan.next,
        plan.parents,
    );
}

/// Blocks are only added, and never more than there are heights.
proof fn lemma_blocks_from(
    tip: BlockId,
    cache: Map<u32, BlockHash>,
    heights: Seq<u32>,
    blocks: Seq<BlockId>,
)
    requires
        blocks.len() <= heights.len(),
    ensures
        blocks.len() <= blocks_from(tip, cache, heights, blocks).len()
            <= heights.len(),
    decreases heights.len() - blocks.len(),
{
    if blocks.len() < heights.len() {
        let height = heights[blocks.len() as int];
        if let Some(hash) = known_hash(tip, cache, height) {
            lemma_blocks_from(tip, cache, heights, blocks.push(BlockId { height, hash }));
        }
    }
}

/// Outputs are only passed, and never more than there are.
proof fn lemma_parents_from(
    utxos: Seq<Utxo>,
    chain: Map<u32, BlockHash>,
    cache: Map<ConfirmedKey, Arc<Transaction>>,
    next: int,
    parents: Map<Txid, Parent>,
)
    requires
        0 <= next <= utxos.len(),
    ensures
        next <= parents_from(utxos, chain, cache, next, parents).0 <= utxos.len(),
    decreases utxos.len() - next,
{
    if next < utxos.len() {
        let key = parent_key(utxos[next], chain);
        if parents.contains_key(utxos[next].txid) {
            lemma_parents_from(utxos, chain, cache, next + 1, parents);
        } else if cache.contains_key(key) {
            let parent = Parent {
                tx: cache[key],
                block: block_of(utxos[next], chain),
            };
            lemma_parents_from(
                utxos,
                chain,
                cache,
                next + 1,
                parents.insert(utxos[next].txid, parent),
            );
        }
    }
}

/// The transactions of the mempool that a tick goes on with.
pub open spec fn mempool_of(generator: TxGenerator, stage: Stage, event: Event) -> Seq<
    Arc<Transaction>,
> {
    match stage {
        Stage::CheckingTip(mempool, _, _) => mempool.txs@,
        Stage::FillingWallet(mempool, _) => mempool.txs@,
        _ => {
            let (reading, cache) = reading_of(generator, stage, event);
            reading.reusing(cache).txs
        },
    }
}

/// Whatever the node replies, a tick builds no double spend: the transactions that it comes to
/// broadcast spend nothing in common with each other, and nothing in common with a transaction of
/// the mempool.
pub proof fn no_tick_builds_a_double_spend(
    generator: TxGenerator,
    stage: Stage,
    event: Event,
    now: u64,
    caches_after: CachesView,
    broadcast: Broadcast,
)
    requires
        !(stage is Broadcasting),
        stepped(generator, stage, event, now, caches_after, Stage::Broadcasting(broadcast)),
    ensures
        forall|j: int, k: int|
            0 <= j < k < broadcast.txs@.len() ==> disjoint(
                (#[trigger] broadcast.txs@[j])@,
                (#[trigger] broadcast.txs@[k])@,
            ),
        forall|k: int, m: int|
            0 <= k < broadcast.txs@.len() && 0 <= m < mempool_of(generator, stage, event).len()
                ==> disjoint(
                (#[trigger] broadcast.txs@[k])@,
                (#[trigger] mempool_of(generator, stage, event)[m])@,
            ),
{
    let mempool = mempool_of(generator, stage, event);
    let (wallet, ready) = choose|wallet: TickWallet, ready: TickWallet| #[trigger]
        broadcast_begun(generator, wallet, ready, mempool, broadcast);
    assert(broadcast_begun(generator, wallet, ready, mempool, broadcast));
    batch_spends_nothing_twice(
        broadcast.attempts@,
        batch_count_of(generator.settings()),
        ready,
        broadcast.blocked@,
        generator.payment(),
    );
    tick_spends_nothing_of_the_mempool(generator, wallet, ready, mempool, broadcast);
}

} // verus!
