//! The indexing loop as a state machine. A driver carries out each action,
//! reports what came of it as an event, and is told the next action.

use crate::block::RawBlock;
use crate::decode::{block_summary_of, decode_block, summaries_of};
use crate::poll::{
    after_wait, after_wait_of, classify_failure, is_unavailable, AfterWait, FetchFailure,
    RETRY_DELAY_MILLIS,
};
use crate::targets::TargetProgramSet;
use crate::writes::{
    block_writes, block_writes_of, skip_writes, skip_writes_of, write_views, WriteOp, WriteOpView,
};
use vstd::prelude::*;

verus! {

/// The most slots that one pass takes on.
pub const BATCH_CAP: u64 = 20;

/// The wait when the cursor has caught up with the head, in milliseconds.
pub const IDLE_SLEEP_MILLIS: u64 = 1000;

/// The wait after a batch, in milliseconds.
pub const LOOP_SLEEP_MILLIS: u64 = 200;

/// The last slot of the batch that follows `cursor`: at most `BATCH_CAP`
/// slots, and none past `head`.
pub open spec fn batch_end(cursor: int, head: int) -> int {
    if cursor + BATCH_CAP <= head {
        cursor + BATCH_CAP
    } else {
        head
    }
}

/// What one pass does, given the cursor and the head.
#[derive(Debug, Clone, Copy, PartialEq, Eq, Structural)]
pub enum Plan {
    /// Nothing is pending.
    Idle,
    /// The slots from `first` to `last`, both included, in ascending order.
    Batch { first: u64, last: u64 },
}

/// The plan of a pass: idle when the cursor has reached the head, else the
/// slots after the cursor up to the end of the batch.
pub open spec fn plan_of(cursor: u64, head: u64) -> Plan {
    if cursor >= head {
        Plan::Idle
    } else {
        Plan::Batch {
            first: (cursor + 1) as u64,
            last: batch_end(cursor as int, head as int) as u64,
        }
    }
}

/// Plans a pass.
pub fn plan_iteration(cursor: u64, head: u64) -> (plan: Plan)
    ensures
        plan == plan_of(cursor, head),
        match plan {
            Plan::Idle => cursor >= head,
            Plan::Batch { first, last } => {
                &&& first == cursor + 1
                &&& last == batch_end(cursor as int, head as int)
                &&& first <= last <= head
                &&& last - cursor <= BATCH_CAP
            },
        },
{
    if cursor >= head {
        Plan::Idle
    } else if head - cursor <= BATCH_CAP {
        Plan::Batch { first: cursor + 1, last: head }
    } else {
        Plan::Batch { first: cursor + 1, last: cursor + BATCH_CAP }
    }
}

/// What the machine waits for.
#[derive(Debug, Clone, Copy, PartialEq, Eq, Structural)]
pub enum Phase {
    /// The advisory probe of the subscription feed runs.
    Probing,
    /// The cursor is being read.
    LoadingCursor,
    /// The head is being queried; the cursor was `cursor`.
    LoadingHead { cursor: u64 },
    /// Attempt number `attempt` to fetch the block at `slot` runs; the batch
    /// ends at `last`.
    Fetching { slot: u64, last: u64, attempt: u32 },
    /// Attempt number `attempt` found the block at `slot` unavailable; the
    /// wait that follows it runs.
    Backoff { slot: u64, last: u64, attempt: u32 },
    /// The writes of `slot` run.
    Persisting { slot: u64, last: u64 },
    /// The wait between two passes runs.
    Sleeping,
    /// A failure on the authoritative path has stopped the machine.
    Halted,
}

/// What the driver reports.
#[derive(Debug, Clone, PartialEq, Eq)]
pub enum Event {
    /// The probe has ended; `last_slot` is the last slot that it saw, if any.
    ProbeFinished { last_slot: Option<u64> },
    /// The probe has failed.
    ProbeFailed,
    /// The datastore holds the cursor `cursor`.
    CursorLoaded { cursor: u64 },
    /// The node reports the head `head`.
    HeadLoaded { head: u64 },
    /// The node returned the block of the slot asked for.
    BlockFetched { block: RawBlock },
    /// The fetch failed; the node's answer was `message`.
    FetchFailed { message: String },
    /// All writes of the last `Persist` are made.
    Persisted,
    /// The wait is over.
    Woke,
    /// The cursor read, the head query or a write failed.
    Failed,
}

/// What the driver is asked to do next.
#[derive(Debug, Clone, PartialEq, Eq)]
pub enum Action {
    /// Run the advisory probe, and report how it ended.
    Probe,
    /// Read the cursor.
    LoadCursor,
    /// Query the head.
    LoadHead,
    /// Fetch the block at `slot`, once.
    FetchBlock { slot: u64 },
    /// Make the writes in the order given; stop at the first that fails.
    Persist { writes: Vec<WriteOp> },
    /// Wait for `millis` milliseconds.
    Sleep { millis: u64 },
    /// Stop: the machine takes no further event.
    Halt,
}

/// An action as a mathematical value.
pub enum ActionView {
    Probe,
    LoadCursor,
    LoadHead,
    FetchBlock { slot: u64 },
    Persist { writes: Seq<WriteOpView> },
    Sleep { millis: u64 },
    Halt,
}

impl View for Action {
    type V = ActionView;

    open spec fn view(&self) -> ActionView {
        match *self {
            Action::Probe => ActionView::Probe,
            Action::LoadCursor => ActionView::LoadCursor,
            Action::LoadHead => ActionView::LoadHead,
            Action::FetchBlock { slot } => ActionView::FetchBlock { slot },
            Action::Persist { writes } => ActionView::Persist { writes: write_views(writes@) },
            Action::Sleep { millis } => ActionView::Sleep { millis },
            Action::Halt => ActionView::Halt,
        }
    }
}

/// The step after the writes of `slot`: the next slot of the batch, or the
/// wait that ends the pass.
pub open spec fn after_slot(slot: u64, last: u64) -> (Phase, ActionView) {
    if slot < last {
        (
            Phase::Fetching { slot: (slot + 1) as u64, last, attempt: 1 },
            ActionView::FetchBlock { slot: (slot + 1) as u64 },
        )
    } else {
        (Phase::Sleeping, ActionView::Sleep { millis: LOOP_SLEEP_MILLIS })
    }
}

/// The transition of the machine: the phase and the action that follow
/// `event` in `phase`. However the probe ends, the cursor is read next. An
/// event that the phase does not wait for halts the machine, as `Failed`
/// does.
pub open spec fn step_of(phase: Phase, event: Event, targets: Set<Seq<char>>) -> (
    Phase,
    ActionView,
) {
    match (phase, event) {
        (Phase::Probing, Event::ProbeFinished { .. }) => (
            Phase::LoadingCursor,
            ActionView::LoadCursor,
        ),
        (Phase::Probing, Event::ProbeFailed) => (Phase::LoadingCursor, ActionView::LoadCursor),
        (Phase::LoadingCursor, Event::CursorLoaded { cursor }) => (
            Phase::LoadingHead { cursor },
            ActionView::LoadHead,
        ),
        (Phase::LoadingHead { cursor }, Event::HeadLoaded { head }) => match plan_of(
            cursor,
            head,
        ) {
            Plan::Idle => (Phase::Sleeping, ActionView::Sleep { millis: IDLE_SLEEP_MILLIS }),
            Plan::Batch { first, last } => (
                Phase::Fetching { slot: first, last, attempt: 1 },
                ActionView::FetchBlock { slot: first },
            ),
        },
        (Phase::Fetching { slot, last, attempt }, Event::BlockFetched { block }) => (
            Phase::Persisting { slot, last },
            ActionView::Persist {
                writes: block_writes_of(
                    block_summary_of(block, slot),
                    summaries_of(block, slot),
                    targets,
                ),
            },
        ),
        (Phase::Fetching { slot, last, attempt }, Event::FetchFailed { message }) => {
            if is_unavailable(message@) {
                (
                    Phase::Backoff { slot, last, attempt },
                    ActionView::Sleep { millis: RETRY_DELAY_MILLIS },
                )
            } else {
                (Phase::Halted, ActionView::Halt)
            }
        },
        (Phase::Backoff { slot, last, attempt }, Event::Woke) => match after_wait_of(attempt) {
            AfterWait::Retry { attempt: next } => (
                Phase::Fetching { slot, last, attempt: next },
                ActionView::FetchBlock { slot },
            ),
            AfterWait::GiveUp => (
                Phase::Persisting { slot, last },
                ActionView::Persist { writes: skip_writes_of(slot) },
            ),
        },
        (Phase::Persisting { slot, last }, Event::Persisted) => after_slot(slot, last),
        (Phase::Sleeping, Event::Woke) => (Phase::Probing, ActionView::Probe),
        _ => (Phase::Halted, ActionView::Halt),
    }
}

/// The indexing loop between two actions.
pub struct Indexer {
    targets: TargetProgramSet,
    phase: Phase,
}

impl Indexer {
    /// The configured targets.
    pub closed spec fn targets(&self) -> Set<Seq<char>> {
        self.targets@
    }

    /// What the machine waits for.
    pub closed spec fn phase(&self) -> Phase {
        self.phase
    }

    /// Starts the loop: the machine with the first action, the probe.
    pub fn start(targets: TargetProgramSet) -> (r: (Indexer, Action))
        ensures
            r.0.targets() == targets@,
            r.0.phase() == Phase::Probing,
            r.1@ == ActionView::Probe,
    {
        (Indexer { targets, phase: Phase::Probing }, Action::Probe)
    }

    /// The phase that the machine is in.
    pub fn current_phase(&self) -> (phase: Phase)
        ensures
            phase == self.phase(),
    {
        self.phase
    }

    /// Tells whether the machine has stopped.
    pub fn is_halted(&self) -> (r: bool)
        ensures
            r == (self.phase() == Phase::Halted),
    {
        match self.phase {
            Phase::Halted => true,
            _ => false,
        }
    }

    /// Takes the event that the last action led to, and gives the next action.
    pub fn step(&mut self, event: Event) -> (action: Action)
        ensures
            final(self).targets() == old(self).targets(),
            (final(self).phase(), action@) == step_of(
                old(self).phase(),
                event,
                old(self).targets(),
            ),
    {
        let (phase, action) = match (self.phase, event) {
            (Phase::Probing, Event::ProbeFinished { .. }) => (
                Phase::LoadingCursor,
                Action::LoadCursor,
            ),
            (Phase::Probing, Event::ProbeFailed) => (Phase::LoadingCursor, Action::LoadCursor),
            (Phase::LoadingCursor, Event::CursorLoaded { cursor }) => (
                Phase::LoadingHead { cursor },
                Action::LoadHead,
            ),
            (Phase::LoadingHead { cursor }, Event::HeadLoaded { head }) => match plan_iteration(
                cursor,
                head,
            ) {
                Plan::Idle => (Phase::Sleeping, Action::Sleep { millis: IDLE_SLEEP_MILLIS }),
                Plan::Batch { first, last } => (
                    Phase::Fetching { slot: first, last, attempt: 1 },
                    Action::FetchBlock { slot: first },
                ),
            },
            (Phase::Fetching { slot, last, attempt }, Event::BlockFetched { block }) => {
                let decoded = decode_block(&block, slot);
                (
                    Phase::Persisting { slot, last },
                    Action::Persist { writes: block_writes(&decoded, &self.targets) },
                )
            },
            (Phase::Fetching { slot, last, attempt }, Event::FetchFailed { message }) => {
                match classify_failure(message.as_str()) {
                    FetchFailure::Unavailable => (
                        Phase::Backoff { slot, last, attempt },
                        Action::Sleep { millis: RETRY_DELAY_MILLIS },
                    ),
                    FetchFailure::Fatal => (Phase::Halted, Action::Halt),
                }
            },
            (Phase::Backoff { slot, last, attempt }, Event::Woke) => match after_wait(attempt) {
                AfterWait::Retry { attempt: next } => (
                    Phase::Fetching { slot, last, attempt: next },
                    Action::FetchBlock { slot },
                ),
                AfterWait::GiveUp => (
                    Phase::Persisting { slot, last },
                    Action::Persist { writes: skip_writes(slot) },
                ),
            },
            (Phase::Persisting { slot, last }, Event::Persisted) => {
                if slot < last {
                    (
                        Phase::Fetching { slot: slot + 1, last, attempt: 1 },
                        Action::FetchBlock { slot: slot + 1 },
                    )
                } else {
                    (Phase::Sleeping, Action::Sleep { millis: LOOP_SLEEP_MILLIS })
                }
            },
            (Phase::Sleeping, Event::Woke) => (Phase::Probing, Action::Probe),
            _ => (Phase::Halted, Action::Halt),
        };
        self.phase = phase;
        action
    }
}

} // verus!
