use vstd::prelude::*;
use crate::pool::{PoolView, Step};
use crate::worker::{count_live, WorkerState};

verus! {

/// One operation on a pool, as the threads around it perform them.
pub ghost enum Op<T> {
    /// A submitter hands in an item.
    Submit(T),
    /// A worker asks for work.
    Take(int),
    /// A worker has run its item to completion.
    Finish(int),
    /// A worker was lost while running its item.
    Abandon(int),
    /// The submission side is closed.
    Close,
}

/// The state after one operation.
pub open spec fn apply<T>(v: PoolView<T>, op: Op<T>) -> PoolView<T> {
    match op {
        Op::Submit(x) => v.submit(x),
        Op::Take(w) => v.take(w).0,
        Op::Finish(w) => v.finish(w),
        Op::Abandon(w) => v.abandon(w),
        Op::Close => v.close(),
    }
}

/// The state after a series of operations.
pub open spec fn run<T>(v: PoolView<T>, ops: Seq<Op<T>>) -> PoolView<T>
    decreases ops.len(),
{
    if ops.len() == 0 {
        v
    } else {
        apply(run(v, ops.drop_last()), ops.last())
    }
}

/// The items that one operation hands to a worker.
pub open spec fn delivered_by<T>(v: PoolView<T>, op: Op<T>) -> Seq<T> {
    match op {
        Op::Take(w) => match v.take(w).1 {
            Step::Run(x) => seq![x],
            _ => Seq::empty(),
        },
        _ => Seq::empty(),
    }
}

/// The items that one operation gets accepted.
pub open spec fn accepted_by<T>(v: PoolView<T>, op: Op<T>) -> Seq<T> {
    match op {
        Op::Submit(x) => if v.accepts() {
            seq![x]
        } else {
            Seq::empty()
        },
        _ => Seq::empty(),
    }
}

/// The items handed to workers over a series of operations, in the order handed out.
pub open spec fn delivered<T>(v: PoolView<T>, ops: Seq<Op<T>>) -> Seq<T>
    decreases ops.len(),
{
    if ops.len() == 0 {
        Seq::empty()
    } else {
        delivered(v, ops.drop_last()) + delivered_by(run(v, ops.drop_last()), ops.last())
    }
}

/// The items accepted over a series of operations, in the order accepted.
pub open spec fn accepted<T>(v: PoolView<T>, ops: Seq<Op<T>>) -> Seq<T>
    decreases ops.len(),
{
    if ops.len() == 0 {
        Seq::empty()
    } else {
        accepted(v, ops.drop_last()) + accepted_by(run(v, ops.drop_last()), ops.last())
    }
}

/// Over any series of operations, the items handed to workers are exactly the
/// accepted items that were pending at the start or accepted since, taken from
/// the front, in order of acceptance: none is handed out twice, none is skipped,
/// and none is handed out before an item accepted earlier.
pub proof fn lemma_delivery_in_order<T>(v: PoolView<T>, ops: Seq<Op<T>>)
    requires
        v.valid(),
    ensures
        run(v, ops).valid(),
        run(v, ops).accepted == v.accepted + accepted(v, ops),
        v.handed_out <= run(v, ops).handed_out,
        delivered(v, ops) == run(v, ops).accepted.subrange(
            v.handed_out as int,
            run(v, ops).handed_out as int,
        ),
    decreases ops.len(),
{
    if ops.len() == 0 {
        assert(v.accepted + Seq::<T>::empty() =~= v.accepted);
        assert(v.accepted.subrange(v.handed_out as int, v.handed_out as int) =~= Seq::<T>::empty());
    } else {
        let prev = ops.drop_last();
        lemma_delivery_in_order(v, prev);
        let p = run(v, prev);
        let r = run(v, ops);
        assert(r == apply(p, ops.last()));
        match ops.last() {
            Op::Take(w) => {
                if p.is_waiting(w) && p.handed_out < p.accepted.len() {
                    assert(r.accepted.subrange(v.handed_out as int, r.handed_out as int) =~=
                        p.accepted.subrange(v.handed_out as int, p.handed_out as int).push(
                            p.accepted[p.handed_out as int]));
                } else {
                    assert(delivered_by(p, ops.last()) =~= Seq::<T>::empty());
                }
                assert(accepted_by(p, ops.last()) =~= Seq::<T>::empty());
                assert(accepted(v, ops) =~= accepted(v, prev));
            },
            Op::Submit(x) => {
                assert(delivered(v, ops) =~= delivered(v, prev));
                if p.accepts() {
                    assert(r.accepted =~= v.accepted + accepted(v, ops));
                    assert(r.accepted.subrange(v.handed_out as int, r.handed_out as int) =~=
                        p.accepted.subrange(v.handed_out as int, p.handed_out as int));
                } else {
                    assert(accepted(v, ops) =~= accepted(v, prev));
                }
            },
            _ => {
                assert(delivered(v, ops) =~= delivered(v, prev));
                assert(accepted(v, ops) =~= accepted(v, prev));
            },
        }
    }
}

/// When the series ends with nothing pending, the items handed out over it are
/// exactly the items pending at its start followed by those accepted during it:
/// nothing accepted is lost and nothing is run twice.
pub proof fn lemma_no_loss<T>(v: PoolView<T>, ops: Seq<Op<T>>)
    requires
        v.valid(),
        run(v, ops).pending().len() == 0,
    ensures
        delivered(v, ops) == v.pending() + accepted(v, ops),
        delivered(v, ops).len() == v.pending().len() + accepted(v, ops).len(),
{
    lemma_delivery_in_order(v, ops);
    let r = run(v, ops);
    assert(r.handed_out == r.accepted.len());
    assert(delivered(v, ops) =~= v.pending() + accepted(v, ops));
}

/// A waiting worker that asks for work while some is pending gets the oldest
/// pending item.
pub proof fn lemma_waiting_worker_gets_oldest<T>(v: PoolView<T>, w: int)
    requires
        v.valid(),
        v.is_waiting(w),
        v.pending().len() > 0,
    ensures
        v.take(w).1 == Step::Run(v.pending()[0]),
        v.take(w).0.pending() == v.pending().drop_first(),
        v.take(w).0.is_executing(w),
{
    assert(v.take(w).0.pending() =~= v.pending().drop_first());
}

/// A worker is told to stop only once the pool is closed and nothing is pending.
pub proof fn lemma_stop_means_drained<T>(v: PoolView<T>, w: int)
    requires
        v.valid(),
        v.take(w).1 is Stop,
    ensures
        v.closed,
        v.pending().len() == 0,
        v.take(w).0.workers[w] == WorkerState::Stopped,
{
}

/// `k` rounds in which worker `w` takes an item and runs it to completion.
pub open spec fn serve<T>(w: int, k: nat) -> Seq<Op<T>>
    decreases k,
{
    if k == 0 {
        Seq::empty()
    } else {
        serve(w, (k - 1) as nat) + seq![Op::Take(w), Op::Finish(w)]
    }
}

proof fn lemma_serve_prefix<T>(v: PoolView<T>, w: int, i: nat)
    requires
        v.valid(),
        v.is_waiting(w),
        i <= v.pending().len(),
    ensures
        run(v, serve(w, i)) == (PoolView { handed_out: v.handed_out + i, ..v }),
        delivered(v, serve::<T>(w, i)) == v.pending().take(i as int),
    decreases i,
{
    if i == 0 {
        assert(v.pending().take(0) =~= Seq::<T>::empty());
    } else {
        let k = (i - 1) as nat;
        lemma_serve_prefix(v, w, k);
        let ops = serve::<T>(w, i);
        let mid = serve::<T>(w, k).push(Op::Take(w));
        assert(ops.drop_last() =~= mid);
        assert(mid.drop_last() =~= serve::<T>(w, k));
        let p = run(v, serve::<T>(w, k));
        assert(p.is_waiting(w));
        assert(p.handed_out < p.accepted.len());
        let q = p.take(w).0;
        assert(run(v, mid) == q);
        assert(delivered(v, mid) =~= v.pending().take(k as int).push(v.pending()[k as int]));
        assert(q.is_executing(w));
        assert(q.workers.update(w, WorkerState::Waiting) =~= v.workers);
        assert(run(v, ops) == q.finish(w));
        assert(delivered(v, ops) == delivered(v, mid));
        assert(run(v, ops) =~= PoolView { handed_out: v.handed_out + i, ..v });
        assert(delivered(v, ops) =~= v.pending().take(i as int));
    }
}

/// After the pool is closed, a single waiting worker that keeps taking and running
/// items runs every pending item, oldest first, and is then told to stop: every
/// accepted item is eventually run, even by one worker.
pub proof fn lemma_one_worker_drains<T>(v: PoolView<T>, w: int)
    requires
        v.valid(),
        v.closed,
        v.is_waiting(w),
    ensures
        delivered(v, serve::<T>(w, v.pending().len()).push(Op::Take(w))) == v.pending(),
        run(v, serve::<T>(w, v.pending().len()).push(Op::Take(w))).pending().len() == 0,
        run(v, serve::<T>(w, v.pending().len())).take(w).1 is Stop,
        run(v, serve::<T>(w, v.pending().len()).push(Op::Take(w))).workers[w]
            == WorkerState::Stopped,
{
    let n = v.pending().len();
    lemma_serve_prefix(v, w, n);
    let ops = serve::<T>(w, n).push(Op::Take(w));
    assert(ops.drop_last() =~= serve::<T>(w, n));
    assert(v.pending().take(n as int) =~= v.pending());
    assert(delivered(v, ops) =~= v.pending());
}

/// Worker `0`, then worker `1`, ... up to worker `n - 1`, each asks for work once.
pub open spec fn each_takes<T>(n: nat) -> Seq<Op<T>> {
    Seq::new(n, |j: int| Op::Take(j))
}

proof fn lemma_each_takes_prefix<T>(v: PoolView<T>, i: nat)
    requires
        v.valid(),
        forall|j: int| 0 <= j < v.workers.len() ==> v.workers[j] == WorkerState::Waiting,
        i <= v.workers.len() <= v.pending().len(),
    ensures
        run(v, each_takes::<T>(i)).handed_out == v.handed_out + i,
        run(v, each_takes::<T>(i)).accepted == v.accepted,
        run(v, each_takes::<T>(i)).workers.len() == v.workers.len(),
        forall|j: int| 0 <= j < i ==> run(v, each_takes::<T>(i)).workers[j] == WorkerState::Executing,
        forall|j: int| i <= j < v.workers.len() ==> run(v, each_takes::<T>(i)).workers[j]
            == WorkerState::Waiting,
        delivered(v, each_takes::<T>(i)) == v.pending().take(i as int),
    decreases i,
{
    if i == 0 {
        assert(each_takes::<T>(0) =~= Seq::<Op<T>>::empty());
        assert(v.pending().take(0) =~= Seq::<T>::empty());
    } else {
        let k = (i - 1) as nat;
        lemma_each_takes_prefix(v, k);
        assert(each_takes::<T>(i).drop_last() =~= each_takes::<T>(k));
        assert(delivered(v, each_takes::<T>(i)) =~= v.pending().take(i as int));
    }
}

/// A pool whose workers all wait, given at least as many pending items as it has
/// workers, puts one item in flight on every worker at once; and while no worker
/// is waiting, no further item is started (see `lemma_no_start_while_all_busy`).
pub proof fn lemma_all_workers_in_flight<T>(v: PoolView<T>)
    requires
        v.valid(),
        forall|j: int| 0 <= j < v.workers.len() ==> v.workers[j] == WorkerState::Waiting,
        v.workers.len() <= v.pending().len(),
    ensures
        forall|j: int| 0 <= j < v.workers.len() ==> run(v, each_takes::<T>(v.workers.len()))
            .workers[j] == WorkerState::Executing,
        delivered(v, each_takes::<T>(v.workers.len())) == v.pending().take(v.workers.len() as int),
{
    lemma_each_takes_prefix(v, v.workers.len());
}

/// While no worker is waiting, and none finishes, no item is handed out, however
/// many are submitted or asked for.
pub proof fn lemma_no_start_while_all_busy<T>(v: PoolView<T>, ops: Seq<Op<T>>)
    requires
        forall|j: int| 0 <= j < v.workers.len() ==> v.workers[j] != WorkerState::Waiting,
        forall|k: int| 0 <= k < ops.len() ==> !(ops[k] is Finish),
    ensures
        delivered(v, ops).len() == 0,
        run(v, ops).handed_out == v.handed_out,
        run(v, ops).workers.len() == v.workers.len(),
        forall|j: int| 0 <= j < v.workers.len() ==> run(v, ops).workers[j] != WorkerState::Waiting,
    decreases ops.len(),
{
    if ops.len() > 0 {
        let prev = ops.drop_last();
        lemma_no_start_while_all_busy(v, prev);
        let p = run(v, prev);
        assert(!(ops.last() is Finish));
        assert(delivered_by(p, ops.last()) =~= Seq::<T>::empty());
    }
}

/// A pool that is closed before any work is submitted tells each of its workers
/// to stop the first time it asks for work.
pub proof fn lemma_idle_pool_stops<T>(n: nat, w: int)
    requires
        0 <= w < n,
    ensures
        PoolView::<T>::initial(n).close().take(w).1 is Stop,
        PoolView::<T>::initial(n).close().take(w).0.workers[w] == WorkerState::Stopped,
{
}

} // verus!
