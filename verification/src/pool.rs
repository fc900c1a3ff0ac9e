//! The worker pool: a fixed set of workers fed from one shared FIFO dispatch
//! queue. Construction brings up exactly the requested number of workers;
//! submission appends work behind everything pending; teardown sends one
//! termination signal per worker slot and drains the queue until no worker is
//! left, handing every still-pending job out exactly once, in order.

use vstd::prelude::*;

use crate::dispatch::{Job, Message, MessageQueue, WorkerAction};

verus! {

/// The one externally observable error of the pool: a submission could not be
/// delivered because the pool has already begun tearing down, so no receiving
/// end is attached any more.
#[derive(Clone, Copy, PartialEq, Eq, Structural, Debug)]
pub struct SubmissionError;

/// One worker slot: an id equal to its index in the pool (unique, assigned at
/// construction, never reused) and whether its execution unit is still alive.
pub struct Worker {
    pub id: usize,
    pub alive: bool,
}

impl Worker {
    /// A freshly brought-up worker under the given id.
    pub fn new(id: usize) -> (w: Worker)
        ensures
            w.id == id,
            w.alive,
    {
        Worker { id, alive: true }
    }
}

/// How many workers of the slice are still alive: the pool's remaining
/// capacity.
pub open spec fn alive_count(ws: Seq<Worker>) -> nat
    decreases ws.len(),
{
    if ws.len() == 0 {
        0
    } else {
        alive_count(ws.drop_last()) + if ws.last().alive {
            1nat
        } else {
            0nat
        }
    }
}

pub proof fn lemma_alive_count_le_len(ws: Seq<Worker>)
    ensures
        alive_count(ws) <= ws.len(),
    decreases ws.len(),
{
    if ws.len() > 0 {
        lemma_alive_count_le_len(ws.drop_last());
    }
}

/// A pool whose workers are all alive has its full capacity.
pub proof fn lemma_alive_count_full(ws: Seq<Worker>)
    requires
        forall|i: int| 0 <= i < ws.len() ==> (#[trigger] ws[i]).alive,
    ensures
        alive_count(ws) == ws.len(),
    decreases ws.len(),
{
    if ws.len() > 0 {
        lemma_alive_count_full(ws.drop_last());
    }
}

/// Retiring one live worker shrinks the capacity by exactly one.
pub proof fn lemma_alive_count_retire(ws: Seq<Worker>, i: int, w: Worker)
    requires
        0 <= i < ws.len(),
        ws[i].alive,
        !w.alive,
    ensures
        alive_count(ws.update(i, w)) == alive_count(ws) - 1,
    decreases ws.len(),
{
    let ws2 = ws.update(i, w);
    if i == ws.len() - 1 {
        assert(ws2.drop_last() =~= ws.drop_last());
    } else {
        assert(ws2.drop_last() =~= ws.drop_last().update(i, w));
        lemma_alive_count_retire(ws.drop_last(), i, w);
        assert(ws2.last() == ws.last());
    }
}

/// A pool whose workers are all retired has no capacity left.
pub proof fn lemma_alive_count_none(ws: Seq<Worker>)
    requires
        forall|i: int| 0 <= i < ws.len() ==> !(#[trigger] ws[i]).alive,
    ensures
        alive_count(ws) == 0,
    decreases ws.len(),
{
    if ws.len() > 0 {
        lemma_alive_count_none(ws.drop_last());
    }
}

/// A pool with no capacity left has no live worker at all.
pub proof fn lemma_alive_count_zero(ws: Seq<Worker>)
    requires
        alive_count(ws) == 0,
    ensures
        forall|i: int| 0 <= i < ws.len() ==> !(#[trigger] ws[i]).alive,
    decreases ws.len(),
{
    if ws.len() > 0 {
        lemma_alive_count_zero(ws.drop_last());
        assert(!ws.last().alive);
        assert(forall|i: int|
            0 <= i < ws.len() - 1 ==> #[trigger] ws[i] == ws.drop_last()[i]);
    }
}

/// The pool itself: a fixed set of worker slots, the shared dispatch queue,
/// and whether the sending end still reaches a receiver (`accepting` turns
/// false the moment teardown begins and never turns back).
pub struct ThreadPool<P> {
    pub workers: Vec<Worker>,
    pub queue: MessageQueue<P>,
    pub accepting: bool,
}

impl<P> ThreadPool<P> {
    /// Well-formedness: at least one worker slot, every worker's id is its
    /// index (unique, never reused), and as long as the pool accepts work the
    /// queue holds work only — termination signals enter exactly at teardown.
    pub open spec fn wf(self) -> bool {
        &&& self.workers@.len() >= 1
        &&& forall|i: int| 0 <= i < self.workers@.len() ==> (#[trigger] self.workers@[i]).id == i
        &&& self.accepting ==> forall|i: int|
            0 <= i < self.queue@.len() ==> (#[trigger] self.queue@[i]) is NewJob
    }

    /// The pool's remaining capacity: how many workers are still alive.
    pub open spec fn capacity(self) -> nat {
        alive_count(self.workers@)
    }

    /// The jobs waiting in the dispatch queue, oldest first.
    pub open spec fn pending_jobs(self) -> Seq<Job<P>> {
        crate::dispatch::jobs_of(self.queue@)
    }

    /// Bring up a pool of exactly `size` workers — a strictly positive count;
    /// a zero-worker pool could never execute anything. Immediately after
    /// construction all `size` workers are alive, their ids are 0..size, the
    /// queue is empty and the pool accepts work.
    pub fn new(size: usize) -> (pool: Self)
        requires
            size >= 1,
        ensures
            pool.wf(),
            pool.accepting,
            pool.workers@.len() == size,
            pool.capacity() == size,
            forall|i: int| 0 <= i < size ==> (#[trigger] pool.workers@[i]).alive,
            pool.queue@ == Seq::<Message<P>>::empty(),
            pool.pending_jobs() == Seq::<Job<P>>::empty(),
    {
        let mut workers: Vec<Worker> = Vec::new();
        let mut id: usize = 0;
        while id < size
            invariant
                id <= size,
                workers@.len() == id,
                forall|i: int|
                    0 <= i < id ==> (#[trigger] workers@[i]).id == i && workers@[i].alive,
            decreases size - id,
        {
            workers.push(Worker::new(id));
            id = id + 1;
        }
        proof {
            lemma_alive_count_full(workers@);
        }
        ThreadPool { workers, queue: MessageQueue::new(), accepting: true }
    }

    /// The pool's remaining capacity, counted over the worker slots.
    pub fn alive_workers(&self) -> (n: usize)
        ensures
            n == self.capacity(),
    {
        let mut n: usize = 0;
        let mut i: usize = 0;
        while i < self.workers.len()
            invariant
                i <= self.workers@.len(),
                n == alive_count(self.workers@.take(i as int)),
                n <= i,
            decreases self.workers@.len() - i,
        {
            proof {
                assert(self.workers@.take(i + 1).drop_last() =~= self.workers@.take(i as int));
                assert(self.workers@.take(i + 1).last() == self.workers@[i as int]);
            }
            if self.workers[i].alive {
                n = n + 1;
            }
            i = i + 1;
        }
        proof {
            assert(self.workers@.take(self.workers@.len() as int) =~= self.workers@);
        }
        n
    }

    /// Submit one unit of work under the given job number. Submission fails
    /// exactly when the pool no longer accepts work (teardown has begun);
    /// otherwise the job is appended behind everything already pending and
    /// the submission never blocks.
    pub fn execute(&mut self, payload: P, jobnum: &usize) -> (r: Result<(), SubmissionError>)
        requires
            old(self).wf(),
        ensures
            final(self).wf(),
            final(self).workers@ == old(self).workers@,
            final(self).accepting == old(self).accepting,
            r is Ok <==> old(self).accepting,
            old(self).accepting ==> final(self).queue@ == old(self).queue@.push(
                Message::NewJob((Job { payload, jobnum: *jobnum })),
            ) && final(self).pending_jobs() == old(self).pending_jobs().push(
                (Job { payload, jobnum: *jobnum }),
            ),
            !old(self).accepting ==> final(self).queue@ == old(self).queue@,
    {
        if !self.accepting {
            return Err(SubmissionError);
        }
        let msg = Message::NewJob(Job { payload, jobnum: *jobnum });
        proof {
            crate::dispatch::lemma_jobs_of_push(self.queue@, msg);
        }
        self.queue.send(msg);
        Ok(())
    }

    /// The index of some still-alive worker; callable whenever capacity is
    /// left.
    fn first_alive(&self) -> (wid: usize)
        requires
            self.capacity() > 0,
        ensures
            wid < self.workers@.len(),
            self.workers@[wid as int].alive,
    {
        let mut i: usize = 0;
        while i < self.workers.len()
            invariant
                i <= self.workers@.len(),
                self.capacity() > 0,
                forall|k: int| 0 <= k < i ==> !(#[trigger] self.workers@[k]).alive,
            decreases self.workers@.len() - i,
        {
            if self.workers[i].alive {
                return i;
            }
            i = i + 1;
        }
        proof {
            lemma_alive_count_none(self.workers@);
        }
        assert(false);
        0
    }

    /// One worker takes exclusive access to the shared receiving end and
    /// takes the oldest message out. The receive both returns the front
    /// message and removes it, so no two workers can ever observe the same
    /// message. A job leaves the worker set untouched and is handed back to
    /// be run; the termination signal retires the receiving worker itself.
    pub fn step(&mut self, wid: usize) -> (act: WorkerAction<P>)
        requires
            old(self).wf(),
            wid < old(self).workers@.len(),
            old(self).workers@[wid as int].alive,
            old(self).queue@.len() > 0,
        ensures
            final(self).wf(),
            final(self).queue@ == old(self).queue@.drop_first(),
            final(self).accepting == old(self).accepting,
            final(self).workers@.len() == old(self).workers@.len(),
            match old(self).queue@[0] {
                Message::NewJob(job) => {
                    &&& act == WorkerAction::<P>::Run(job)
                    &&& final(self).workers@ == old(self).workers@
                    &&& old(self).pending_jobs().len() > 0
                    &&& job == old(self).pending_jobs()[0]
                    &&& final(self).pending_jobs() == old(self).pending_jobs().drop_first()
                }
                Message::Terminate => {
                    &&& act == WorkerAction::<P>::Exit
                    &&& final(self).workers@ == old(self).workers@.update(
                        wid as int,
                        (Worker { id: wid, alive: false }),
                    )
                    &&& final(self).capacity() == old(self).capacity() - 1
                    &&& final(self).pending_jobs() == old(self).pending_jobs()
                }
            },
    {
        let msg = match self.queue.recv() {
            Some(m) => m,
            None => {
                proof {
                    assert(false);
                }
                return WorkerAction::Exit;
            }
        };
        match crate::dispatch::worker_step(msg) {
            WorkerAction::Run(job) => {
                proof {
                    assert(self.pending_jobs() =~= old(self).pending_jobs().drop_first());
                }
                WorkerAction::Run(job)
            }
            WorkerAction::Exit => {
                let w = Worker { id: wid, alive: false };
                proof {
                    lemma_alive_count_retire(self.workers@, wid as int, w);
                }
                self.workers[wid] = w;
                WorkerAction::Exit
            }
        }
    }

    /// Teardown. The pool stops accepting work, sends exactly one
    /// termination signal per worker slot — as many signals as slots, so
    /// every live worker observes exactly one and none is left blocked — and
    /// then drains the queue until no capacity is left. Because the queue is
    /// FIFO, every job still pending when teardown began stands ahead of
    /// every termination signal, so, provided any worker was alive to take
    /// it, each such job is handed back exactly once, in submission order,
    /// and none is left pending. After the call no worker is alive.
    pub fn shutdown(&mut self) -> (jobs: Vec<Job<P>>)
        requires
            old(self).wf(),
            old(self).accepting,
        ensures
            final(self).wf(),
            !final(self).accepting,
            final(self).workers@.len() == old(self).workers@.len(),
            final(self).capacity() == 0,
            forall|i: int|
                0 <= i < final(self).workers@.len()
                    ==> !(#[trigger] final(self).workers@[i]).alive,
            old(self).capacity() > 0
                ==> jobs@ == old(self).pending_jobs()
                    && final(self).pending_jobs() == Seq::<Job<P>>::empty(),
            old(self).capacity() == 0 ==> jobs@ == Seq::<Job<P>>::empty(),
    {
        self.accepting = false;
        let ghost q0 = self.queue@;
        let ghost pending0 = crate::dispatch::jobs_of(q0);
        let n = self.workers.len();

        proof {
            assert(q0 + Seq::new(0nat, |i: int| Message::<P>::Terminate) =~= q0);
        }
        let mut k: usize = 0;
        while k < n
            invariant
                k <= n,
                self.queue@ == q0 + Seq::new(k as nat, |i: int| Message::<P>::Terminate),
                self.workers@ == old(self).workers@,
                !self.accepting,
                n == self.workers@.len(),
            decreases n - k,
        {
            proof {
                assert(self.queue@.push(Message::<P>::Terminate) =~= q0 + Seq::new(
                    (k + 1) as nat,
                    |i: int| Message::<P>::Terminate,
                ));
            }
            self.queue.send(Message::Terminate);
            k = k + 1;
        }

        let ghost q1 = self.queue@;
        let ghost m = q0.len() as int;
        proof {
            let terms = Seq::new(n as nat, |i: int| Message::<P>::Terminate);
            crate::dispatch::lemma_jobs_of_concat(q0, terms);
            crate::dispatch::lemma_jobs_of_none(terms);
            assert(pending0 + Seq::<Job<P>>::empty() =~= pending0);
            assert(crate::dispatch::jobs_of(q1) == pending0);
            crate::dispatch::lemma_jobs_of_len_le(q0);
            // work stands ahead of every termination signal
            assert(forall|i: int| 0 <= i < m ==> (#[trigger] q1[i]) is NewJob);
            assert(forall|i: int| m <= i < q1.len() ==> (#[trigger] q1[i]) is Terminate);
        }

        let mut alive = self.alive_workers();
        proof {
            lemma_alive_count_le_len(self.workers@);
        }
        if alive == 0 {
            proof {
                lemma_alive_count_zero(self.workers@);
            }
            return Vec::new();
        }

        let mut jobs: Vec<Job<P>> = Vec::new();
        while alive > 0 && self.queue.len() > 0
            invariant
                self.wf(),
                !self.accepting,
                self.workers@.len() == n,
                alive == self.capacity(),
                jobs@ + self.pending_jobs() == pending0,
                crate::dispatch::jobs_of(self.queue@).len() + alive <= self.queue@.len(),
                forall|i: int, j: int|
                    0 <= i < j < self.queue@.len() && (#[trigger] self.queue@[i]) is Terminate
                        ==> (#[trigger] self.queue@[j]) is Terminate,
                alive == 0 ==> jobs@ == pending0,
            decreases self.queue@.len(),
        {
            let wid = self.first_alive();
            let ghost pre = *self;
            match self.step(wid) {
                WorkerAction::Run(job) => {
                    proof {
                        assert(pre.queue@[0] is NewJob);
                        assert(jobs@.push(pre.pending_jobs()[0]) + pre.pending_jobs().drop_first()
                            =~= jobs@ + pre.pending_jobs());
                    }
                    jobs.push(job);
                }
                WorkerAction::Exit => {
                    proof {
                        assert(pre.queue@[0] is Terminate);
                        assert(forall|j: int|
                            0 <= j < pre.queue@.len() ==> (#[trigger] pre.queue@[j]) is Terminate);
                        crate::dispatch::lemma_jobs_of_none(pre.queue@);
                        assert(pre.pending_jobs() =~= Seq::<Job<P>>::empty());
                        assert(jobs@ + Seq::<Job<P>>::empty() =~= jobs@);
                        assert(jobs@ == pending0);
                    }
                    alive = alive - 1;
                }
            }
        }
        proof {
            if self.queue@.len() == 0 {
                assert(self.pending_jobs() =~= Seq::<Job<P>>::empty());
                assert(jobs@ + Seq::<Job<P>>::empty() =~= jobs@);
            } else {
                assert(alive == 0);
                assert(jobs@.len() + self.pending_jobs().len() == pending0.len());
                assert(self.pending_jobs() =~= Seq::<Job<P>>::empty());
            }
            assert(jobs@ == pending0);
            lemma_alive_count_zero(self.workers@);
        }
        jobs
    }

    /// A job fault takes its worker down with it: the pool's remaining
    /// capacity shrinks by exactly one, permanently — the worker is not
    /// restarted — while every other worker slot, the queue and the pool's
    /// acceptance of work are untouched.
    pub fn report_fault(&mut self, wid: usize)
        requires
            old(self).wf(),
            wid < old(self).workers@.len(),
            old(self).workers@[wid as int].alive,
        ensures
            final(self).wf(),
            final(self).workers@ == old(self).workers@.update(
                wid as int,
                (Worker { id: wid, alive: false }),
            ),
            final(self).capacity() == old(self).capacity() - 1,
            final(self).queue@ == old(self).queue@,
            final(self).accepting == old(self).accepting,
    {
        let w = Worker { id: wid, alive: false };
        proof {
            lemma_alive_count_retire(self.workers@, wid as int, w);
        }
        self.workers[wid] = w;
    }
}

} // verus!
