use std::collections::VecDeque;
use vstd::prelude::*;
use crate::worker::{count_live, lemma_count_live_all_waiting, lemma_count_live_update, WorkerState};

verus! {

/// What a worker is told to do when it asks for work.
#[derive(Debug)]
pub enum Step<T> {
    /// Run this item, which now belongs to the worker alone.
    Run(T),
    /// Nothing is pending: block until an item is submitted or the pool shuts down.
    Wait,
    /// The pool has shut down and nothing is pending: leave the loop.
    Stop,
}

/// Why a submission was refused. The item is handed back.
#[derive(Debug)]
pub enum SubmitError<T> {
    /// The submission side has been closed.
    Closed(T),
    /// Every worker has stopped, so nobody could ever run the item.
    NoWorkers(T),
}

/// The abstract state of a pool.
pub ghost struct PoolView<T> {
    /// Every item the pool accepted, in order of acceptance.
    pub accepted: Seq<T>,
    /// How many of them, from the front, have been handed to a worker.
    pub handed_out: nat,
    /// The state of each worker; the count is fixed at construction.
    pub workers: Seq<WorkerState>,
    /// Whether the submission side has been closed.
    pub closed: bool,
}

impl<T> PoolView<T> {
    /// A pool of `n` workers, all waiting, with nothing submitted.
    pub open spec fn initial(n: nat) -> Self {
        PoolView {
            accepted: Seq::empty(),
            handed_out: 0,
            workers: Seq::new(n, |j: int| WorkerState::Waiting),
            closed: false,
        }
    }

    pub open spec fn valid(self) -> bool {
        self.handed_out <= self.accepted.len()
    }

    /// Items accepted but not yet handed out, oldest first.
    pub open spec fn pending(self) -> Seq<T> {
        self.accepted.skip(self.handed_out as int)
    }

    /// Number of workers that have not stopped.
    pub open spec fn live(self) -> nat {
        count_live(self.workers)
    }

    pub open spec fn is_waiting(self, w: int) -> bool {
        0 <= w < self.workers.len() && self.workers[w] == WorkerState::Waiting
    }

    pub open spec fn is_executing(self, w: int) -> bool {
        0 <= w < self.workers.len() && self.workers[w] == WorkerState::Executing
    }

    /// A submission is accepted while the pool is open and some worker may still take it.
    pub open spec fn accepts(self) -> bool {
        !self.closed && self.live() > 0
    }

    pub open spec fn submit(self, item: T) -> Self {
        if self.accepts() {
            PoolView { accepted: self.accepted.push(item), ..self }
        } else {
            self
        }
    }

    /// Worker `w` asks for work: the oldest pending item if there is one; else it
    /// stops if the pool is closed, and waits if not. A worker that is not
    /// waiting takes nothing.
    pub open spec fn take(self, w: int) -> (Self, Step<T>) {
        if !self.is_waiting(w) {
            (self, Step::Wait)
        } else if self.handed_out < self.accepted.len() {
            (
                PoolView {
                    handed_out: self.handed_out + 1,
                    workers: self.workers.update(w, WorkerState::Executing),
                    ..self
                },
                Step::Run(self.accepted[self.handed_out as int]),
            )
        } else if self.closed {
            (PoolView { workers: self.workers.update(w, WorkerState::Stopped), ..self }, Step::Stop)
        } else {
            (self, Step::Wait)
        }
    }

    /// Worker `w` has run its item to completion and waits again.
    pub open spec fn finish(self, w: int) -> Self {
        if self.is_executing(w) {
            PoolView { workers: self.workers.update(w, WorkerState::Waiting), ..self }
        } else {
            self
        }
    }

    /// Worker `w` was lost while running its item (the item faulted).
    pub open spec fn abandon(self, w: int) -> Self {
        if self.is_executing(w) {
            PoolView { workers: self.workers.update(w, WorkerState::Stopped), ..self }
        } else {
            self
        }
    }

    /// The submission side is closed for good.
    pub open spec fn close(self) -> Self {
        PoolView { closed: true, ..self }
    }
}

/// The shared state of a pool: its queue of pending items and its workers.
pub struct PoolState<T> {
    queue: VecDeque<T>,
    workers: Vec<WorkerState>,
    live: usize,
    closed: bool,
    accepted: Ghost<Seq<T>>,
    handed_out: Ghost<nat>,
}

impl<T> View for PoolState<T> {
    type V = PoolView<T>;

    closed spec fn view(&self) -> PoolView<T> {
        PoolView {
            accepted: self.accepted@,
            handed_out: self.handed_out@,
            workers: self.workers@,
            closed: self.closed,
        }
    }
}

impl<T> PoolState<T> {
    /// The pool's internal invariant: the queue holds exactly the items not yet
    /// handed out, and the live counter matches the workers' states.
    pub closed spec fn wf(&self) -> bool {
        &&& self.handed_out@ <= self.accepted@.len()
        &&& self.queue@ == self.accepted@.skip(self.handed_out@ as int)
        &&& self.live == count_live(self.workers@)
    }

    /// A well-formed pool has a valid view.
    pub proof fn lemma_wf_valid(&self)
        requires
            self.wf(),
        ensures
            self@.valid(),
    {
    }

    /// A pool of `num_threads` waiting workers with nothing submitted.
    pub fn new(num_threads: u8) -> (r: Self)
        requires
            num_threads > 0,
        ensures
            r.wf(),
            r@ == PoolView::<T>::initial(num_threads as nat),
    {
        let mut workers: Vec<WorkerState> = Vec::new();
        let mut i: u8 = 0;
        while i < num_threads
            invariant
                i <= num_threads,
                workers@ == Seq::new(i as nat, |j: int| WorkerState::Waiting),
            decreases num_threads - i,
        {
            workers.push(WorkerState::Waiting);
            i = i + 1;
            assert(workers@ =~= Seq::new(i as nat, |j: int| WorkerState::Waiting));
        }
        proof {
            lemma_count_live_all_waiting(num_threads as nat);
        }
        let r = PoolState {
            queue: VecDeque::new(),
            workers,
            live: num_threads as usize,
            closed: false,
            accepted: Ghost(Seq::empty()),
            handed_out: Ghost(0),
        };
        assert(r.queue@ =~= r.accepted@.skip(0));
        r
    }

    /// Enqueues `work` for the first worker that becomes free. Refused, with the
    /// item handed back, once the pool is closed or when every worker has stopped.
    pub fn execute(&mut self, work: T) -> (r: Result<(), SubmitError<T>>)
        requires
            old(self).wf(),
        ensures
            final(self).wf(),
            final(self)@ == old(self)@.submit(work),
            r is Ok <==> old(self)@.accepts(),
            r == Err::<(), SubmitError<T>>(SubmitError::Closed(work)) <==> old(self)@.closed,
            r == Err::<(), SubmitError<T>>(SubmitError::NoWorkers(work)) <==> !old(self)@.closed
                && old(self)@.live() == 0,
    {
        if self.closed {
            return Err(SubmitError::Closed(work));
        }
        if self.live == 0 {
            return Err(SubmitError::NoWorkers(work));
        }
        self.queue.push_back(work);
        self.accepted = Ghost(self.accepted@.push(work));
        assert(self.queue@ =~= self.accepted@.skip(self.handed_out@ as int));
        Ok(())
    }

    /// Worker `worker` asks for work: it gets the oldest pending item, is told to
    /// stop once the pool is closed and drained, or to wait.
    pub fn take(&mut self, worker: usize) -> (r: Step<T>)
        requires
            old(self).wf(),
            old(self)@.is_waiting(worker as int),
        ensures
            final(self).wf(),
            (final(self)@, r) == old(self)@.take(worker as int),
    {
        match self.queue.pop_front() {
            Some(item) => {
                self.workers.set(worker, WorkerState::Executing);
                proof {
                    lemma_count_live_update(old(self).workers@, worker as int, WorkerState::Executing);
                    self.handed_out = Ghost(self.handed_out@ + 1);
                    assert(self.queue@ =~= self.accepted@.skip(self.handed_out@ as int));
                }
                Step::Run(item)
            },
            None => {
                if self.closed {
                    proof {
                        lemma_count_live_update(old(self).workers@, worker as int, WorkerState::Stopped);
                    }
                    self.workers.set(worker, WorkerState::Stopped);
                    self.live = self.live - 1;
                    Step::Stop
                } else {
                    Step::Wait
                }
            },
        }
    }

    /// Worker `worker` has run its item to completion and waits again.
    pub fn finish(&mut self, worker: usize)
        requires
            old(self).wf(),
            old(self)@.is_executing(worker as int),
        ensures
            final(self).wf(),
            final(self)@ == old(self)@.finish(worker as int),
    {
        proof {
            lemma_count_live_update(self.workers@, worker as int, WorkerState::Waiting);
        }
        self.workers.set(worker, WorkerState::Waiting);
    }

    /// Worker `worker` was lost while running its item; the pool goes on with
    /// one worker fewer.
    pub fn abandon(&mut self, worker: usize)
        requires
            old(self).wf(),
            old(self)@.is_executing(worker as int),
        ensures
            final(self).wf(),
            final(self)@ == old(self)@.abandon(worker as int),
    {
        proof {
            lemma_count_live_update(self.workers@, worker as int, WorkerState::Stopped);
        }
        self.workers.set(worker, WorkerState::Stopped);
        self.live = self.live - 1;
    }

    /// Closes the submission side. Workers drain what is pending, then stop.
    pub fn close(&mut self)
        requires
            old(self).wf(),
        ensures
            final(self).wf(),
            final(self)@ == old(self)@.close(),
    {
        self.closed = true;
    }
    /// The number of workers the pool was built with.
    pub fn num_workers(&self) -> (r: usize)
        requires
            self.wf(),
        ensures
            r == self@.workers.len(),
    {
        self.workers.len()
    }

    /// Where worker `worker` stands.
    pub fn worker_state(&self, worker: usize) -> (r: WorkerState)
        requires
            self.wf(),
            worker < self@.workers.len(),
        ensures
            r == self@.workers[worker as int],
    {
        self.workers[worker]
    }

    /// The number of workers that have not stopped.
    pub fn live_workers(&self) -> (r: usize)
        requires
            self.wf(),
        ensures
            r == self@.live(),
    {
        self.live
    }

    /// The number of items accepted and not yet handed to a worker.
    pub fn pending_len(&self) -> (r: usize)
        requires
            self.wf(),
        ensures
            r == self@.pending().len(),
    {
        self.queue.len()
    }

    /// Whether the submission side has been closed.
    pub fn is_closed(&self) -> (r: bool)
        requires
            self.wf(),
        ensures
            r == self@.closed,
    {
        self.closed
    }
}

} // verus!
