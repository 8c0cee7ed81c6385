//! What a tick comes to, said of its replies and its requests alone.

use crate::batch::{built_txs, is_batch, Attempt};
use crate::bdk::tx_signed;
use crate::caches::CachesView;
use crate::generator::{stage_wf, stepped, TxGenerator};
use crate::promises::{addresses_stay_the_first_of_their_accounts, first_address_of};
use crate::tick::{wants, Action, Broadcast, Event, Stage, TickOutcome};
use crate::tx::Transaction;
use crate::wallet::TickWallet;
use std::sync::Arc;
use vstd::prelude::*;

verus! {

// ---------------------------------------------------------------------------------------
// What the node is handed.
// ---------------------------------------------------------------------------------------

/// Whatever is configured, a transaction that the node is handed pays the configured amount to the
/// first address of the receiver's account, once, and the rest, if any, in one output to the first
/// address of the change account, which is the sender's unless another is configured.
pub proof fn every_transaction_pays_the_receiver_the_amount(
    generator: &mut TxGenerator,
    stage: Stage,
    event: Event,
    now: u64,
    next: (Stage, Action),
    tx: Arc<Transaction>,
)
    requires
        call_ensures(TxGenerator::run_tick, (generator, stage, event, now), next),
        next.1 == Action::Broadcast(tx),
    ensures
        ({
            let config = old(generator).settings();
            let change = if config.change_account_index is Some {
                config.change_account_index->0
            } else {
                config.sender_account_index
            };
            &&& tx_signed(tx.bytes())
            &&& tx@.outputs.len() == 1 || tx@.outputs.len() == 2
            &&& exists|i: int|
                #![trigger tx@.outputs[i]]
                {
                    &&& 0 <= i < tx@.outputs.len()
                    &&& tx@.outputs[i].value == config.amount_sat
                    &&& tx@.outputs[i].script_pubkey == first_address_of(
                        config,
                        config.receiver_account_index,
                    )->0.script_pubkey
                    &&& forall|j: int|
                        0 <= j < tx@.outputs.len() && j != i ==> (
                        #[trigger] tx@.outputs[j]).script_pubkey == first_address_of(
                            config,
                            change,
                        )->0.script_pubkey
                }
        }),
{
    let after = *final(generator);
    addresses_stay_the_first_of_their_accounts(after);
    let broadcast = next.0->Broadcasting_0;
    let wallet = choose|wallet: TickWallet| #[trigger]
        is_batch(
            broadcast.attempts@,
            crate::config::batch_count_of(after.settings()),
            wallet,
            broadcast.blocked@,
            after.payment(),
        );
    let n = broadcast.next as int;
    assert(broadcast.txs@[n] == tx);
    lemma_built_of(broadcast.attempts@, n);
}

/// A transaction that came of a list of attempts came of one of them.
pub proof fn lemma_built_of(attempts: Seq<Attempt>, n: int)
    requires
        0 <= n < built_txs(attempts).len(),
    ensures
        exists|i: int|
            0 <= i < attempts.len() && (#[trigger] attempts[i]) is Built && attempts[i]->Built_0
                == built_txs(attempts)[n],
    decreases attempts.len(),
{
    let rest = attempts.drop_last();
    if n < built_txs(rest).len() {
        lemma_built_of(rest, n);
        let i = choose|i: int|
            0 <= i < rest.len() && (#[trigger] rest[i]) is Built && rest[i]->Built_0
                == built_txs(rest)[n];
        assert(attempts[i] == rest[i]);
    } else {
        assert(attempts[attempts.len() - 1] is Built);
    }
}

/// A tick hands the node what it built: every transaction of a successful attempt, in the order of
/// the attempts, beginning with the first.
pub proof fn broadcast_begins_with_all_that_was_built(
    generator: &mut TxGenerator,
    stage: Stage,
    event: Event,
    now: u64,
    next: (Stage, Action),
    first: Broadcast,
)
    requires
        call_ensures(TxGenerator::run_tick, (generator, stage, event, now), next),
        !(stage is Broadcasting),
        next.0 == Stage::Broadcasting(first),
    ensures
        first.next == 0,
        first.broadcast == 0,
        first.txs@ == first.attempts@.filter(|attempt: Attempt| attempt is Built).map_values(
            |attempt: Attempt| attempt->Built_0,
        ),
        first.txs@.len() > 0 ==> next.1 == Action::Broadcast(first.txs@[0]),
        first.txs@.len() == 0 ==> next.1 == Action::Finish(
            (TickOutcome { built: 0, broadcast: 0, skipped: false }),
        ),
{
    lemma_begun(*old(generator), stage, event, now, final(generator).remembered()@, next.0);
    lemma_built_filtered(first.attempts@);
}

/// A broadcast that a step leads to begins with the first transaction.
proof fn lemma_begun(
    generator: TxGenerator,
    stage: Stage,
    event: Event,
    now: u64,
    caches_after: CachesView,
    stage_after: Stage,
)
    requires
        stepped(generator, stage, event, now, caches_after, stage_after),
        !(stage is Broadcasting),
        stage_after is Broadcasting,
    ensures
        stage_after->Broadcasting_0.next == 0,
        stage_after->Broadcasting_0.broadcast == 0,
        stage_after->Broadcasting_0.txs@ == built_txs(stage_after->Broadcasting_0.attempts@),
{
}

/// The transactions that came of a list of attempts are those of the successful ones.
pub proof fn lemma_built_filtered(attempts: Seq<Attempt>)
    ensures
        built_txs(attempts) == attempts.filter(|attempt: Attempt| attempt is Built).map_values(
            |attempt: Attempt| attempt->Built_0,
        ),
    decreases attempts.len(),
{
    let is_built = |attempt: Attempt| attempt is Built;
    let tx_of = |attempt: Attempt| attempt->Built_0;
    reveal(Seq::filter);
    if attempts.len() != 0 {
        let rest = attempts.drop_last();
        lemma_built_filtered(rest);
        if attempts.last() is Built {
            assert(attempts.filter(is_built) == rest.filter(is_built).push(attempts.last()));
            assert(rest.filter(is_built).push(attempts.last()).map_values(tx_of)
                =~= rest.filter(is_built).map_values(tx_of).push(attempts.last()->Built_0));
        } else {
            assert(attempts.filter(is_built) == rest.filter(is_built));
        }
    }
    assert(built_txs(attempts) =~= attempts.filter(is_built).map_values(tx_of));
}

/// With each reply of the node, the next transaction is handed to it, whether it took the last one
/// or not. After the last, the tick is over, and what comes of it is how many were built and how
/// many the node took.
pub proof fn next_transaction_follows_whatever_the_reply(
    generator: &mut TxGenerator,
    before: Broadcast,
    taken: bool,
    now: u64,
    next: (Stage, Action),
)
    requires
        call_ensures(
            TxGenerator::run_tick,
            (generator, Stage::Broadcasting(before), Event::Broadcast(taken), now),
            next,
        ),
        before.txs@.len() <= u32::MAX,
    ensures
        ({
            let count = before.broadcast + if taken {
                1int
            } else {
                0
            };
            &&& next.0 matches Stage::Broadcasting(after)
            &&& after.txs@ == before.txs@
            &&& after.attempts@ == before.attempts@
            &&& after.next == before.next + 1
            &&& after.broadcast == count
            &&& before.next + 1 < before.txs@.len() ==> next.1 == Action::Broadcast(
                before.txs@[before.next + 1],
            )
            &&& before.next + 1 == before.txs@.len() ==> (next.1 matches Action::Finish(outcome)
                && outcome.built == before.txs@.len() && outcome.broadcast == count
                && !outcome.skipped)
        }),
        final(generator).remembered()@ == old(generator).remembered()@,
{
}

/// Over a whole tick the node is handed the transactions that were built, each once and in their
/// order, however it replies. The tick is over after the last, and what comes of it is how many
/// were built and how many of the replies were that the node took one.
///
/// The first step is the one that comes to broadcast, and each of the others takes a reply.
pub proof fn node_is_handed_what_was_built_in_order(
    generators: Seq<TxGenerator>,
    stages: Seq<Stage>,
    events: Seq<Event>,
    times: Seq<u64>,
    actions: Seq<Action>,
    first: Broadcast,
    taken: Seq<bool>,
)
    requires
        taken.len() + 1 == events.len() == times.len() == actions.len(),
        generators.len() == stages.len() == events.len() + 1,
        forall|k: int|
            #![trigger actions[k]]
            0 <= k < events.len() ==> exists|generator: &mut TxGenerator|
                *generator == generators[k] && *final(generator) == generators[k + 1]
                    && #[trigger] call_ensures(
                    TxGenerator::run_tick,
                    (generator, stages[k], events[k], times[k]),
                    (stages[k + 1], actions[k]),
                ),
        !(stages[0] is Broadcasting),
        stages[1] == Stage::Broadcasting(first),
        forall|k: int|
            1 <= k < events.len() ==> #[trigger] events[k] == Event::Broadcast(taken[k - 1]),
    ensures
        actions.len() <= first.txs@.len() + 1,
        forall|k: int|
            0 <= k < actions.len() && k < first.txs@.len() ==> #[trigger] actions[k]
                == Action::Broadcast(first.txs@[k]),
        actions.len() == first.txs@.len() + 1 ==> actions.last() == Action::Finish(
            (TickOutcome {
                built: first.txs@.len() as u32,
                broadcast: taken.filter(|took: bool| took).len() as u32,
                skipped: false,
            }),
        ),
{
    assert forall|k: int| #![trigger actions[k]] 0 <= k < events.len() implies step(
        generators[k],
        stages[k],
        events[k],
        times[k],
        generators[k + 1],
        stages[k + 1],
        actions[k],
    ) by {
        reveal(step);
    }
    assert forall|k: int| 0 <= k < actions.len() implies k <= first.txs@.len() && (
    #[trigger] actions[k]) == if k < first.txs@.len() {
        Action::Broadcast(first.txs@[k])
    } else {
        Action::Finish(
            TickOutcome {
                built: first.txs@.len() as u32,
                broadcast: taken.take(k).filter(|took: bool| took).len() as u32,
                skipped: false,
            },
        )
    } by {
        lemma_handed_over(generators, stages, events, times, actions, first, taken, k);
    }
    let last = actions.len() - 1;
    let action = actions[last];
    assert(taken.take(last) =~= taken);
}

/// What is known of a step.
#[verifier::opaque]
spec fn step(
    generator: TxGenerator,
    stage: Stage,
    event: Event,
    now: u64,
    generator_after: TxGenerator,
    stage_after: Stage,
    action: Action,
) -> bool {
    &&& stepped(generator, stage, event, now, generator_after.remembered()@, stage_after)
    &&& stage_wf(generator_after, stage_after)
    &&& wants(
        stage_after,
        generator_after.external(),
        generator_after.internal(),
        generator_after.remembered()@.scan_tip,
        action,
    )
}

/// Where a broadcast stands after a number of replies.
proof fn lemma_handed_over(
    generators: Seq<TxGenerator>,
    stages: Seq<Stage>,
    events: Seq<Event>,
    times: Seq<u64>,
    actions: Seq<Action>,
    first: Broadcast,
    taken: Seq<bool>,
    k: int,
)
    requires
        0 <= k <= taken.len(),
        taken.len() + 1 == events.len() == times.len() == actions.len(),
        generators.len() == stages.len() == events.len() + 1,
        forall|k: int|
            #![trigger actions[k]]
            0 <= k < events.len() ==> step(
                generators[k],
                stages[k],
                events[k],
                times[k],
                generators[k + 1],
                stages[k + 1],
                actions[k],
            ),
        !(stages[0] is Broadcasting),
        stages[1] == Stage::Broadcasting(first),
        forall|k: int|
            1 <= k < events.len() ==> #[trigger] events[k] == Event::Broadcast(taken[k - 1]),
    ensures
        stages[k + 1] is Broadcasting,
        stages[k + 1]->Broadcasting_0.txs@ == first.txs@,
        stages[k + 1]->Broadcasting_0.next == k,
        stages[k + 1]->Broadcasting_0.broadcast == taken.take(k).filter(|took: bool| took).len(),
        k <= first.txs@.len(),
        actions[k] == if k < first.txs@.len() {
            Action::Broadcast(first.txs@[k])
        } else {
            Action::Finish(
                TickOutcome {
                    built: first.txs@.len() as u32,
                    broadcast: taken.take(k).filter(|took: bool| took).len() as u32,
                    skipped: false,
                },
            )
        },
    decreases k,
{
    let took = |took: bool| took;
    let action = actions[k];
    reveal(Seq::filter);
    if k == 0 {
        assert(taken.take(0) =~= Seq::empty());
        assert(taken.take(0).filter(took).len() == 0);
        lemma_first_step(
            generators[0],
            stages[0],
            events[0],
            times[0],
            generators[1],
            stages[1],
            actions[0],
        );
    } else {
        lemma_handed_over(generators, stages, events, times, actions, first, taken, k - 1);
        assert(events[k] == Event::Broadcast(taken[k - 1]));
        assert(taken.take(k).drop_last() =~= taken.take(k - 1));
        assert(taken.take(k).last() == taken[k - 1]);
        lemma_later_step(
            generators[k],
            stages[k],
            events[k],
            times[k],
            generators[k + 1],
            stages[k + 1],
            actions[k],
        );
    }
}

/// Where a broadcast stands at its beginning.
proof fn lemma_first_step(
    generator: TxGenerator,
    stage: Stage,
    event: Event,
    now: u64,
    generator_after: TxGenerator,
    stage_after: Stage,
    action: Action,
)
    requires
        step(generator, stage, event, now, generator_after, stage_after, action),
        !(stage is Broadcasting),
        stage_after is Broadcasting,
    ensures
        ({
            let after = stage_after->Broadcasting_0;
            &&& after.next == 0
            &&& after.broadcast == 0
            &&& after.txs@.len() > 0 ==> action == Action::Broadcast(after.txs@[0])
            &&& after.txs@.len() == 0 ==> action == Action::Finish(
                (TickOutcome { built: 0, broadcast: 0, skipped: false }),
            )
        }),
{
    reveal(step);
    lemma_begun(generator, stage, event, now, generator_after.remembered()@, stage_after);
}

/// Where a broadcast stands after a reply.
proof fn lemma_later_step(
    generator: TxGenerator,
    stage: Stage,
    event: Event,
    now: u64,
    generator_after: TxGenerator,
    stage_after: Stage,
    action: Action,
)
    requires
        step(generator, stage, event, now, generator_after, stage_after, action),
        stage is Broadcasting,
        event is Broadcast,
    ensures
        stage_after is Broadcasting,
        ({
            let before = stage->Broadcasting_0;
            let after = stage_after->Broadcasting_0;
            &&& after.txs@ == before.txs@
            &&& after.next == before.next + 1
            &&& after.next <= after.txs@.len()
            &&& after.broadcast == before.broadcast + if event->Broadcast_0 {
                1int
            } else {
                0
            }
            &&& after.next < after.txs@.len() ==> action == Action::Broadcast(
                after.txs@[after.next as int],
            )
            &&& after.next == after.txs@.len() ==> action == Action::Finish(
                (TickOutcome {
                    built: after.txs@.len() as u32,
                    broadcast: after.broadcast,
                    skipped: false,
                }),
            )
        }),
{
    reveal(step);
}

} // verus!
