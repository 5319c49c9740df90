//! The indexer together with its datastore: what holds of what is stored,
//! whatever the node answers and wherever a failure or a restart strikes.

use crate::decode::{block_summary_of, summaries_of, BlockSummary, TxSummaryView};
use crate::indexer::{
    batch_end, step_of, ActionView, Event, Phase, BATCH_CAP, IDLE_SLEEP_MILLIS, LOOP_SLEEP_MILLIS,
};
use crate::poll::{is_unavailable, MAX_FETCH_ATTEMPTS, RETRY_DELAY_MILLIS};
use crate::store::{
    last_block, last_transaction, lemma_rows_after_writes, BlockRow, Store,
};
use crate::writes::{
    advances_last, block_writes_of, lemma_block_writes_advance_last,
    lemma_every_summary_is_written, lemma_transactions_writes_are_rows, skip_writes_of,
    transactions_writes, WriteOpView,
};
use vstd::prelude::*;

verus! {

/// The machine between two events, the action that it last asked for, and
/// the datastore.
pub struct System {
    pub phase: Phase,
    pub pending: ActionView,
    pub targets: Set<Seq<char>>,
    pub store: Store,
}

/// The system as the loop starts over a datastore.
pub open spec fn initial(targets: Set<Seq<char>>, store: Store) -> System {
    System { phase: Phase::Probing, pending: ActionView::Probe, targets, store }
}

/// The driver may answer the pending action with `event`, leaving the
/// datastore as `after`. Reads and waits leave the datastore alone, and the
/// cursor that is read is the stored one. Writes are made in order: all of
/// them, or, when one fails, those before it.
pub open spec fn outcome(sys: System, event: Event, after: Store) -> bool {
    match sys.pending {
        ActionView::Probe => after == sys.store && (event is ProbeFinished || event is ProbeFailed),
        ActionView::LoadCursor => after == sys.store && (event is Failed || event
            == Event::CursorLoaded { cursor: sys.store.cursor }),
        ActionView::LoadHead => after == sys.store && (event is Failed || event is HeadLoaded),
        ActionView::FetchBlock { .. } => after == sys.store && (event is Failed
            || event is BlockFetched || event is FetchFailed),
        ActionView::Persist { writes } => {
            ||| event is Persisted && after == sys.store.apply_all(writes)
            ||| event is Failed && exists|k: int|
                0 <= k < writes.len() && after == sys.store.apply_all(#[trigger] writes.take(k))
        },
        ActionView::Sleep { .. } => after == sys.store && event is Woke,
        ActionView::Halt => false,
    }
}

/// The system after the driver answered with `event` and left the datastore
/// as `after`.
pub open spec fn next(sys: System, event: Event, after: Store) -> System {
    let (phase, pending) = step_of(sys.phase, event, sys.targets);
    System { phase, pending, targets: sys.targets, store: after }
}

/// `post` follows from `pre` by one step, in which the driver answered
/// with `event`.
pub open spec fn follows(pre: System, event: Event, post: System) -> bool {
    outcome(pre, event, post.store) && post == next(pre, event, post.store)
}

/// The process may stop at any moment and leave the datastore as `after`:
/// as it was, or, while writes were pending, with the first `k` of them
/// made, for any `k`.
pub open spec fn left_behind(sys: System, after: Store) -> bool {
    ||| after == sys.store
    ||| sys.pending matches ActionView::Persist { writes } && exists|k: int|
        0 <= k <= writes.len() && after == sys.store.apply_all(#[trigger] writes.take(k))
}

/// `post` is the system after the process stopped in `pre` and was started
/// again over the datastore that it left behind.
pub open spec fn restarts(pre: System, post: System) -> bool {
    left_behind(pre, post.store) && post == initial(pre.targets, post.store)
}

/// The slot in hand is the one after the stored cursor, and the batch ends
/// no more than `BATCH_CAP` slots after the cursor.
pub open spec fn in_hand(sys: System, slot: u64, last: u64) -> bool {
    &&& slot == sys.store.cursor + 1
    &&& slot <= last
    &&& last <= sys.store.cursor + BATCH_CAP
}

/// The number of an attempt is within the cap.
pub open spec fn within_cap(attempt: u32) -> bool {
    1 <= attempt <= MAX_FETCH_ATTEMPTS
}

/// What holds between any two events: the pending action is the one that the
/// phase waits on, the slot in hand follows the stored cursor, no slot is
/// fetched more often than the cap allows, and pending writes move the
/// cursor with their last write only.
pub open spec fn consistent(sys: System) -> bool {
    match sys.phase {
        Phase::Probing => sys.pending == ActionView::Probe,
        Phase::LoadingCursor => sys.pending == ActionView::LoadCursor,
        Phase::LoadingHead { cursor } => sys.pending == ActionView::LoadHead && cursor
            == sys.store.cursor,
        Phase::Fetching { slot, last, attempt } => {
            &&& sys.pending == ActionView::FetchBlock { slot }
            &&& in_hand(sys, slot, last)
            &&& within_cap(attempt)
        },
        Phase::Backoff { slot, last, attempt } => {
            &&& sys.pending == ActionView::Sleep { millis: RETRY_DELAY_MILLIS }
            &&& in_hand(sys, slot, last)
            &&& within_cap(attempt)
        },
        Phase::Persisting { slot, last } => {
            &&& sys.pending matches ActionView::Persist { writes }
            &&& advances_last(writes, slot)
            &&& in_hand(sys, slot, last)
        },
        Phase::Sleeping => sys.pending is Sleep,
        Phase::Halted => sys.pending == ActionView::Halt,
    }
}

/// With `event` the driver reports that all writes of `slot` are made.
pub open spec fn completes(sys: System, event: Event, slot: u64) -> bool {
    &&& event is Persisted
    &&& sys.phase matches Phase::Persisting { slot: done, .. }
    &&& done == slot
}

/// The cursor stayed, or moved up by one.
pub open spec fn stayed_or_advanced(before: Store, after: Store) -> bool {
    after.cursor == before.cursor || after.cursor == before.cursor + 1
}

/// Writes that hold no cursor write leave the cursor where it is.
pub proof fn lemma_cursor_kept(store: Store, writes: Seq<WriteOpView>)
    requires
        forall|i: int| 0 <= i < writes.len() ==> !(#[trigger] writes[i] is Cursor),
    ensures
        store.apply_all(writes).cursor == store.cursor,
    decreases writes.len(),
{
    if writes.len() > 0 {
        lemma_cursor_kept(store, writes.drop_last());
    }
}

/// Writes that move the cursor with their last write leave it at the slot of
/// that write when all are made, and where it was when any is left out.
pub proof fn lemma_cursor_after_writes(store: Store, writes: Seq<WriteOpView>, slot: u64, k: int)
    requires
        advances_last(writes, slot),
        0 <= k <= writes.len(),
    ensures
        store.apply_all(writes.take(k)).cursor == if k == writes.len() {
            slot
        } else {
            store.cursor
        },
{
    if k < writes.len() {
        lemma_cursor_kept(store, writes.take(k));
    }
}

/// The loop starts in a consistent system, whatever the datastore holds.
pub proof fn lemma_initial_is_consistent(targets: Set<Seq<char>>, store: Store)
    ensures
        consistent(initial(targets, store)),
{
}

/// Every step keeps the system consistent. The stored cursor stays, or it
/// moves up by one: then all writes of a slot were made, and it stands at
/// that slot.
pub proof fn lemma_step(sys: System, event: Event, after: Store)
    requires
        consistent(sys),
        outcome(sys, event, after),
    ensures
        consistent(next(sys, event, after)),
        stayed_or_advanced(sys.store, after),
        after.cursor != sys.store.cursor ==> completes(sys, event, after.cursor),
{
    match sys.phase {
        Phase::Fetching { slot, last, attempt } => {
            if let Event::BlockFetched { block } = event {
                lemma_block_writes_advance_last(
                    block_summary_of(block, slot),
                    summaries_of(block, slot),
                    sys.targets,
                );
            }
        },
        Phase::Persisting { slot, last } => {
            let writes = sys.pending->writes;
            if event is Failed {
                let k = choose|k: int|
                    0 <= k < writes.len() && after == sys.store.apply_all(
                        #[trigger] writes.take(k),
                    );
                lemma_cursor_after_writes(sys.store, writes, slot, k);
            }
        },
        _ => {},
    }
}

/// A restart leaves the system consistent, and the stored cursor where it
/// was or one slot further.
pub proof fn lemma_restart(pre: System, post: System)
    requires
        consistent(pre),
        restarts(pre, post),
    ensures
        consistent(post),
        stayed_or_advanced(pre.store, post.store),
{
    if post.store != pre.store {
        let writes = pre.pending->writes;
        let k = choose|k: int|
            0 <= k <= writes.len() && post.store == pre.store.apply_all(#[trigger] writes.take(k));
        lemma_cursor_after_writes(pre.store, writes, pre.phase->Persisting_slot, k);
    }
}

/// The most events that one slot takes: the fetch and the wait of every
/// attempt, and the writes.
pub open spec fn slot_budget() -> int {
    2 * MAX_FETCH_ATTEMPTS + 2
}

/// The most events that are left of the pass in `phase`.
pub open spec fn events_left(phase: Phase) -> int {
    match phase {
        Phase::Probing => BATCH_CAP * slot_budget() + 3,
        Phase::LoadingCursor => BATCH_CAP * slot_budget() + 2,
        Phase::LoadingHead { .. } => BATCH_CAP * slot_budget() + 1,
        Phase::Fetching { slot, last, attempt } => {
            (last - slot) * slot_budget() + 2 * (MAX_FETCH_ATTEMPTS - attempt) + 3
        },
        Phase::Backoff { slot, last, attempt } => {
            (last - slot) * slot_budget() + 2 * (MAX_FETCH_ATTEMPTS - attempt) + 2
        },
        Phase::Persisting { slot, last } => (last - slot) * slot_budget() + 1,
        Phase::Sleeping => 0,
        Phase::Halted => 0,
    }
}

/// Every pass ends: each event of a pass leaves fewer events to it, so that
/// the wait between passes, or the halt, comes after a bounded number of
/// events, whatever the node answers.
pub proof fn lemma_pass_is_bounded(sys: System, event: Event, after: Store)
    requires
        consistent(sys),
        outcome(sys, event, after),
        sys.phase != Phase::Sleeping,
    ensures
        0 <= events_left(next(sys, event, after).phase) < events_left(sys.phase),
{
    lemma_step(sys, event, after);
}

/// However the probe ends, and whatever slot it saw, the cursor is read next.
pub proof fn lemma_probe_is_advisory(event: Event, targets: Set<Seq<char>>)
    requires
        event is ProbeFinished || event is ProbeFailed,
    ensures
        step_of(Phase::Probing, event, targets) == (Phase::LoadingCursor, ActionView::LoadCursor),
{
}

/// A pass that finds the cursor at the head, or past it, asks for nothing
/// but the idle wait, after which the next pass starts with the probe.
pub proof fn lemma_caught_up_pass_only_sleeps(cursor: u64, head: u64, targets: Set<Seq<char>>)
    requires
        cursor >= head,
    ensures
        step_of(Phase::LoadingHead { cursor }, Event::HeadLoaded { head }, targets) == (
            Phase::Sleeping,
            ActionView::Sleep { millis: IDLE_SLEEP_MILLIS },
        ),
        step_of(Phase::Sleeping, Event::Woke, targets) == (Phase::Probing, ActionView::Probe),
{
}

/// A pass that finds the cursor behind the head starts with the slot after
/// the cursor, and its batch ends `BATCH_CAP` slots after the cursor or at
/// the head, whichever comes first.
pub proof fn lemma_batch_starts_after_cursor(cursor: u64, head: u64, targets: Set<Seq<char>>)
    requires
        cursor < head,
    ensures
        step_of(Phase::LoadingHead { cursor }, Event::HeadLoaded { head }, targets) == (
            Phase::Fetching {
                slot: (cursor + 1) as u64,
                last: batch_end(cursor as int, head as int) as u64,
                attempt: 1,
            },
            ActionView::FetchBlock { slot: (cursor + 1) as u64 },
        ),
        cursor + 1 <= batch_end(cursor as int, head as int) <= head,
        batch_end(cursor as int, head as int) <= cursor + BATCH_CAP,
{
}

/// When the writes of a slot are made, the next slot of the batch is
/// fetched; after the last slot of the batch comes the wait between passes.
pub proof fn lemma_slots_ascend(slot: u64, last: u64, targets: Set<Seq<char>>)
    requires
        slot <= last,
    ensures
        step_of(Phase::Persisting { slot, last }, Event::Persisted, targets) == if slot < last {
            (
                Phase::Fetching { slot: (slot + 1) as u64, last, attempt: 1 },
                ActionView::FetchBlock { slot: (slot + 1) as u64 },
            )
        } else {
            (Phase::Sleeping, ActionView::Sleep { millis: LOOP_SLEEP_MILLIS })
        },
{
}

/// An attempt that finds the block unavailable is followed by the retry
/// wait, and then by the next attempt as long as attempts are left.
pub proof fn lemma_unavailable_block_is_retried(
    slot: u64,
    last: u64,
    attempt: u32,
    message: String,
    targets: Set<Seq<char>>,
)
    requires
        is_unavailable(message@),
    ensures
        step_of(Phase::Fetching { slot, last, attempt }, Event::FetchFailed { message }, targets)
            == (
            Phase::Backoff { slot, last, attempt },
            ActionView::Sleep { millis: RETRY_DELAY_MILLIS },
        ),
        attempt < MAX_FETCH_ATTEMPTS ==> step_of(
            Phase::Backoff { slot, last, attempt },
            Event::Woke,
            targets,
        ) == (
            Phase::Fetching { slot, last, attempt: (attempt + 1) as u32 },
            ActionView::FetchBlock { slot },
        ),
{
}

/// Any other failure of a fetch halts the machine at once.
pub proof fn lemma_other_failure_halts(
    slot: u64,
    last: u64,
    attempt: u32,
    message: String,
    targets: Set<Seq<char>>,
)
    requires
        !is_unavailable(message@),
    ensures
        step_of(Phase::Fetching { slot, last, attempt }, Event::FetchFailed { message }, targets)
            == (Phase::Halted, ActionView::Halt),
{
}

/// A slot whose block stayed unavailable through the last attempt is passed
/// over: the cursor moves to it, and no row is written.
pub proof fn lemma_unavailable_slot_is_skipped(
    slot: u64,
    last: u64,
    attempt: u32,
    targets: Set<Seq<char>>,
    store: Store,
)
    requires
        attempt >= MAX_FETCH_ATTEMPTS,
    ensures
        step_of(Phase::Backoff { slot, last, attempt }, Event::Woke, targets) == (
            Phase::Persisting { slot, last },
            ActionView::Persist { writes: skip_writes_of(slot) },
        ),
        store.apply_all(skip_writes_of(slot)) == (Store { cursor: slot, ..store }),
{
    let writes = skip_writes_of(slot);
    assert(store.apply_all(writes.drop_last()) == store);
}

/// The block write after which no other block write comes decides what its
/// row holds.
proof fn lemma_last_block_at(ops: Seq<WriteOpView>, i: int)
    requires
        0 <= i < ops.len(),
        ops[i] is Block,
        forall|j: int| i < j < ops.len() ==> !(#[trigger] ops[j] is Block),
    ensures
        last_block(ops, ops[i]->Block_slot) == Some(
            BlockRow { tx_count: ops[i]->Block_tx_count, err_count: ops[i]->Block_err_count },
        ),
    decreases ops.len(),
{
    if i < ops.len() - 1 {
        lemma_last_block_at(ops.drop_last(), i);
    }
}

/// A transaction that is written has a last write.
proof fn lemma_last_transaction_some(ops: Seq<WriteOpView>, i: int)
    requires
        0 <= i < ops.len(),
        ops[i] is Transaction,
    ensures
        last_transaction(ops, ops[i]->Transaction_signature) is Some,
    decreases ops.len(),
{
    if i < ops.len() - 1 {
        lemma_last_transaction_some(ops.drop_last(), i);
    }
}

/// When all writes of a fetched block are made, the datastore holds the
/// block's summary under its slot and a row for every transaction of the
/// block, and the cursor stands at the slot.
pub proof fn lemma_block_is_stored(
    store: Store,
    summary: BlockSummary,
    txs: Seq<TxSummaryView>,
    targets: Set<Seq<char>>,
)
    ensures
        store.apply_all(block_writes_of(summary, txs, targets)).cursor == summary.slot,
        store.apply_all(block_writes_of(summary, txs, targets)).blocks.contains_key(summary.slot),
        store.apply_all(block_writes_of(summary, txs, targets)).blocks[summary.slot] == (BlockRow {
            tx_count: summary.tx_count,
            err_count: summary.err_count,
        }),
        forall|i: int|
            0 <= i < txs.len() ==> store.apply_all(
                block_writes_of(summary, txs, targets),
            ).transactions.contains_key(#[trigger] txs[i].signature),
{
    let writes = block_writes_of(summary, txs, targets);
    let rows = transactions_writes(txs, summary.slot, targets);
    lemma_rows_after_writes(store, writes);
    lemma_transactions_writes_are_rows(txs, summary.slot, targets);
    lemma_last_block_at(writes, 0);
    assert forall|i: int| 0 <= i < txs.len() implies store.apply_all(
        writes,
    ).transactions.contains_key(#[trigger] txs[i].signature) by {
        lemma_every_summary_is_written(txs, summary.slot, targets, i);
        let wanted = WriteOpView::Transaction {
            signature: txs[i].signature,
            slot: summary.slot,
            is_error: txs[i].is_error,
            fee_lamports: txs[i].fee_lamports,
            compute_units: txs[i].compute_units,
        };
        let j = choose|j: int| 0 <= j < rows.len() && rows[j] == wanted;
        lemma_last_transaction_some(writes, j + 1);
    }
}

/// State `i + 1` of the sequence comes from state `i` by one step or by a
/// restart.
pub open spec fn linked(states: Seq<System>, i: int) -> bool {
    ||| exists|event: Event| #[trigger] follows(states[i], event, states[i + 1])
    ||| restarts(states[i], states[i + 1])
}

/// The states are a run of the system: they start consistent and each comes
/// from the one before it.
pub open spec fn is_run(states: Seq<System>) -> bool {
    &&& states.len() > 0
    &&& consistent(states[0])
    &&& forall|i: int| 0 <= i < states.len() - 1 ==> #[trigger] linked(states, i)
}

/// One link of a run keeps the system consistent and the cursor where it
/// was or one slot further.
proof fn lemma_link(states: Seq<System>, i: int)
    requires
        0 <= i < states.len() - 1,
        consistent(states[i]),
        linked(states, i),
    ensures
        consistent(states[i + 1]),
        stayed_or_advanced(states[i].store, states[i + 1].store),
{
    if restarts(states[i], states[i + 1]) {
        lemma_restart(states[i], states[i + 1]);
    } else {
        let event = choose|event: Event| #[trigger] follows(states[i], event, states[i + 1]);
        lemma_step(states[i], event, states[i + 1].store);
    }
}

/// Along any run, through failures and restarts, the system stays
/// consistent and the stored cursor never decreases.
pub proof fn lemma_cursor_never_decreases(states: Seq<System>, i: int, j: int)
    requires
        is_run(states),
        0 <= i <= j < states.len(),
    ensures
        consistent(states[j]),
        states[i].store.cursor <= states[j].store.cursor,
    decreases j,
{
    if j > 0 {
        if i < j {
            lemma_cursor_never_decreases(states, i, j - 1);
        } else {
            lemma_cursor_never_decreases(states, j - 1, j - 1);
        }
        lemma_link(states, j - 1);
    }
}

/// The number of times, up to state `j` of the sequence, that the stored
/// cursor moved.
pub open spec fn advances(states: Seq<System>, j: int) -> nat
    decreases j,
{
    if j <= 0 {
        0
    } else if states[j].store.cursor != states[j - 1].store.cursor {
        advances(states, j - 1) + 1
    } else {
        advances(states, j - 1)
    }
}

/// Along any run the stored cursor is ahead of where it started by the
/// number of times that it moved: every advance is by one slot, so that
/// after `n` advances the cursor stands at the `n`-th slot after its start.
pub proof fn lemma_cursor_counts_advances(states: Seq<System>, j: int)
    requires
        is_run(states),
        0 <= j < states.len(),
    ensures
        states[j].store.cursor == states[0].store.cursor + advances(states, j),
    decreases j,
{
    if j > 0 {
        lemma_cursor_counts_advances(states, j - 1);
        lemma_cursor_never_decreases(states, 0, j - 1);
        lemma_link(states, j - 1);
    }
}

} // verus!
