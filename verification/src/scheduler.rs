use vstd::prelude::*;
use vstd::multiset::Multiset;
use crate::queue::{Queue, QueueEntry, QueueEntryView};

verus! {

// ---------------------------------------------------------------------------
// One scheduler tick
// ---------------------------------------------------------------------------

/// What one tick of the dispatch loop decides: hand a popped entry to a new
/// handler, keep ticking because handlers are still in flight, or halt.
pub enum TickAction {
    Dispatch(QueueEntry),
    Idle,
    Halt,
}

/// One tick of the dispatch loop over the shared queue and the in-flight
/// counter: pops an entry to dispatch if one is pending; with nothing pending
/// it halts exactly when no handler is in flight.
pub fn scheduler_tick(queue: &mut Queue, in_flight: u64) -> (a: TickAction)
    requires
        old(queue).wf(),
    ensures
        final(queue).wf(),
        (a is Halt) <==> (old(queue)@.len() == 0 && in_flight == 0),
        (a is Idle) <==> (old(queue)@.len() == 0 && in_flight > 0),
        match a {
            TickAction::Dispatch(e) => {
                &&& old(queue)@.len() > 0
                &&& exists|i: int|
                    0 <= i < old(queue)@.len() && e@ == old(queue)@[i] && final(queue)@ == old(
                        queue,
                    )@.remove(i)
                &&& final(queue)@.to_multiset() == old(queue)@.to_multiset().remove(e@)
                &&& old(queue)@.to_multiset().contains(e@)
            },
            TickAction::Idle => *final(queue) == *old(queue),
            TickAction::Halt => *final(queue) == *old(queue),
        },
{
    match queue.pop() {
        Some(entry) => TickAction::Dispatch(entry),
        None => {
            if in_flight == 0 {
                TickAction::Halt
            } else {
                TickAction::Idle
            }
        },
    }
}

/// A handler is about to be spawned for a dispatched entry; the increment
/// happens before the spawn so the halt check can never miss it.
pub fn begin_task(in_flight: &mut u64)
    requires
        *old(in_flight) < u64::MAX,
    ensures
        *final(in_flight) == *old(in_flight) + 1,
{
    *in_flight = *in_flight + 1;
}

/// A handler has finished, and every enqueue and append it owed is already
/// visible; only now may the in-flight counter drop.
pub fn finish_task(in_flight: &mut u64)
    requires
        *old(in_flight) > 0,
    ensures
        *final(in_flight) == *old(in_flight) - 1,
{
    *in_flight = *in_flight - 1;
}

// ---------------------------------------------------------------------------
// The crawl system as a state machine
// ---------------------------------------------------------------------------

/// The shared crawl state, abstracted: the multiset of pending entries, the
/// number of handlers in flight, and whether the scheduler has halted.
pub struct SystemState {
    pub pending: Multiset<QueueEntryView>,
    pub in_flight: nat,
    pub halted: bool,
}

/// The scheduler pops a pending entry and spawns a handler for it; the
/// in-flight count rises before the entry's work can complete.
pub open spec fn dispatch_step(pre: SystemState, post: SystemState, e: QueueEntryView) -> bool {
    &&& !pre.halted
    &&& pre.pending.contains(e)
    &&& post.pending == pre.pending.remove(e)
    &&& post.in_flight == pre.in_flight + 1
    &&& !post.halted
}

/// A handler finishes: its newly discovered entries become pending in the
/// same step in which the in-flight count drops, never after.
pub open spec fn complete_step(
    pre: SystemState,
    post: SystemState,
    discovered: Multiset<QueueEntryView>,
) -> bool {
    &&& !pre.halted
    &&& pre.in_flight > 0
    &&& post.pending == pre.pending.add(discovered)
    &&& post.in_flight == pre.in_flight - 1
    &&& !post.halted
}

/// The scheduler halts: possible only with nothing pending and no handler in
/// flight.
pub open spec fn halt_step(pre: SystemState, post: SystemState) -> bool {
    &&& !pre.halted
    &&& pre.pending.len() == 0
    &&& pre.in_flight == 0
    &&& post.pending == pre.pending
    &&& post.in_flight == pre.in_flight
    &&& post.halted
}

/// Any one transition of the crawl system.
pub open spec fn next_step(pre: SystemState, post: SystemState) -> bool {
    ||| exists|e: QueueEntryView| dispatch_step(pre, post, e)
    ||| exists|d: Multiset<QueueEntryView>| complete_step(pre, post, d)
    ||| halt_step(pre, post)
}

/// A halted system holds no work: nothing pending, nothing in flight.
pub open spec fn halted_means_quiescent(s: SystemState) -> bool {
    s.halted ==> s.pending.len() == 0 && s.in_flight == 0
}

/// The scheduler halts only when the queue is empty and the in-flight count
/// is zero, and every halted state it can reach is quiescent: no transition
/// makes work invisible to the halt check.
pub proof fn lemma_halt_iff_quiescent(pre: SystemState, post: SystemState)
    requires
        halted_means_quiescent(pre),
        next_step(pre, post),
    ensures
        halted_means_quiescent(post),
        post.halted && !pre.halted ==> pre.pending.len() == 0 && pre.in_flight == 0,
{
}

/// A handler that is mid-flight prevents halting, even while the queue is
/// momentarily empty: with the in-flight count positive no transition sets
/// `halted`.
pub proof fn lemma_no_halt_while_in_flight(pre: SystemState, post: SystemState)
    requires
        !pre.halted,
        pre.in_flight > 0,
        next_step(pre, post),
    ensures
        !post.halted,
{
}

} // verus!
