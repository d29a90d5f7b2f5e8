use vstd::prelude::*;

verus! {

/// Where one worker of the pool stands in its loop.
#[derive(Clone, Copy, Debug, PartialEq, Eq, Structural)]
pub enum WorkerState {
    /// Blocked on the queue, ready to take the next item.
    Waiting,
    /// Running an item it took from the queue.
    Executing,
    /// Left its loop for good.
    Stopped,
}

/// Number of workers in `ws` that have not stopped.
pub open spec fn count_live(ws: Seq<WorkerState>) -> nat
    decreases ws.len(),
{
    if ws.len() == 0 {
        0
    } else {
        count_live(ws.drop_last()) + if ws.last() != WorkerState::Stopped {
            1nat
        } else {
            0nat
        }
    }
}

/// Replacing one entry changes the live count by what the two entries count.
pub proof fn lemma_count_live_update(ws: Seq<WorkerState>, i: int, s: WorkerState)
    requires
        0 <= i < ws.len(),
    ensures
        count_live(ws.update(i, s)) + (if ws[i] != WorkerState::Stopped { 1int } else { 0int })
            == count_live(ws) + (if s != WorkerState::Stopped { 1int } else { 0int }),
    decreases ws.len(),
{
    let u = ws.update(i, s);
    if i == ws.len() - 1 {
        assert(u.drop_last() =~= ws.drop_last());
    } else {
        assert(u.drop_last() =~= ws.drop_last().update(i, s));
        lemma_count_live_update(ws.drop_last(), i, s);
    }
}

/// A sequence of workers that are all waiting counts each of them as live.
pub proof fn lemma_count_live_all_waiting(n: nat)
    ensures
        count_live(Seq::new(n, |j: int| WorkerState::Waiting)) == n,
    decreases n,
{
    if n > 0 {
        let ws = Seq::new(n, |j: int| WorkerState::Waiting);
        assert(ws.drop_last() =~= Seq::new((n - 1) as nat, |j: int| WorkerState::Waiting));
        lemma_count_live_all_waiting((n - 1) as nat);
    }
}

} // verus!
