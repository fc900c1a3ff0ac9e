//! The dispatch channel model: the messages that travel from submitters to
//! workers, the FIFO queue that carries them, and the decision a worker takes
//! on each received message.

use std::collections::VecDeque;
use vstd::prelude::*;

verus! {

/// One opaque, single-execution unit of work, paired with the numeric id used
/// for diagnostic attribution. The pool never inspects the payload.
pub struct Job<P> {
    pub payload: P,
    pub jobnum: usize,
}

/// The envelope carried on the dispatch channel: either a unit of work or the
/// shutdown signal, consumed by exactly one worker.
pub enum Message<P> {
    NewJob(Job<P>),
    Terminate,
}

/// What a worker does right after receiving one message: run the job it was
/// handed, or exit its loop for good.
pub enum WorkerAction<P> {
    Run(Job<P>),
    Exit,
}

/// The decision a worker takes on each message it receives: a job is run,
/// the termination signal ends the loop. The caller performs the action.
pub fn worker_step<P>(msg: Message<P>) -> (act: WorkerAction<P>)
    ensures
        match msg {
            Message::NewJob(job) => act == WorkerAction::<P>::Run(job),
            Message::Terminate => act == WorkerAction::<P>::Exit,
        },
{
    match msg {
        Message::NewJob(job) => WorkerAction::Run(job),
        Message::Terminate => WorkerAction::Exit,
    }
}

/// The ordered hand-off queue between submitters and workers. Messages leave
/// in the order they entered, and a received message is removed as it is
/// handed out, so no two receivers ever observe the same message.
pub struct MessageQueue<P> {
    msgs: VecDeque<Message<P>>,
}

impl<P> View for MessageQueue<P> {
    type V = Seq<Message<P>>;

    closed spec fn view(&self) -> Seq<Message<P>> {
        self.msgs@
    }
}

impl<P> MessageQueue<P> {
    pub fn new() -> (q: Self)
        ensures
            q@ == Seq::<Message<P>>::empty(),
    {
        MessageQueue { msgs: VecDeque::new() }
    }

    pub fn len(&self) -> (n: usize)
        ensures
            n == self@.len(),
    {
        self.msgs.len()
    }

    /// Enqueue one message at the back: delivery order is send order.
    pub fn send(&mut self, msg: Message<P>)
        ensures
            final(self)@ == old(self)@.push(msg),
    {
        self.msgs.push_back(msg);
    }

    /// Dequeue the oldest message, if any. The message handed out is removed
    /// from the queue, so it can never be received a second time.
    pub fn recv(&mut self) -> (r: Option<Message<P>>)
        ensures
            old(self)@.len() == 0 ==> r is None && final(self)@ == old(self)@,
            old(self)@.len() > 0 ==> r == Some(old(self)@[0]) && final(self)@ == old(self)@.drop_first(),
    {
        self.msgs.pop_front()
    }
}

/// The jobs carried by a run of messages, in order, termination signals left
/// aside.
pub open spec fn jobs_of<P>(msgs: Seq<Message<P>>) -> Seq<Job<P>>
    decreases msgs.len(),
{
    if msgs.len() == 0 {
        Seq::empty()
    } else {
        match msgs[0] {
            Message::NewJob(j) => seq![j] + jobs_of(msgs.drop_first()),
            Message::Terminate => jobs_of(msgs.drop_first()),
        }
    }
}

/// The jobs of two runs of messages sent one after the other are the jobs of
/// the first run followed by the jobs of the second.
pub proof fn lemma_jobs_of_concat<P>(a: Seq<Message<P>>, b: Seq<Message<P>>)
    ensures
        jobs_of(a + b) == jobs_of(a) + jobs_of(b),
    decreases a.len(),
{
    if a.len() == 0 {
        assert(a + b =~= b);
        assert(jobs_of(a) + jobs_of(b) =~= jobs_of(b));
    } else {
        assert((a + b).drop_first() =~= a.drop_first() + b);
        lemma_jobs_of_concat(a.drop_first(), b);
        assert((a + b)[0] == a[0]);
        match a[0] {
            Message::NewJob(j) => {
                assert(jobs_of(a + b) =~= jobs_of(a) + jobs_of(b));
            }
            Message::Terminate => {}
        }
    }
}

/// Appending one message appends its job, if it carries one.
pub proof fn lemma_jobs_of_push<P>(msgs: Seq<Message<P>>, m: Message<P>)
    ensures
        jobs_of(msgs.push(m)) == match m {
            Message::NewJob(j) => jobs_of(msgs).push(j),
            Message::Terminate => jobs_of(msgs),
        },
{
    assert(msgs.push(m) =~= msgs + seq![m]);
    lemma_jobs_of_concat(msgs, seq![m]);
    assert(seq![m][0] == m);
    assert(seq![m].drop_first() =~= Seq::<Message<P>>::empty());
    assert(jobs_of(Seq::<Message<P>>::empty()) == Seq::<Job<P>>::empty());
    match m {
        Message::NewJob(j) => {
            assert(jobs_of(seq![m]) == seq![j] + jobs_of(seq![m].drop_first()));
            assert(jobs_of(seq![m]) =~= seq![j]);
            assert(jobs_of(msgs) + seq![j] =~= jobs_of(msgs).push(j));
        }
        Message::Terminate => {
            assert(jobs_of(seq![m]) == jobs_of(seq![m].drop_first()));
            assert(jobs_of(msgs) + jobs_of(seq![m]) =~= jobs_of(msgs));
        }
    }
}

/// A run of messages carries at most one job per message.
pub proof fn lemma_jobs_of_len_le<P>(msgs: Seq<Message<P>>)
    ensures
        jobs_of(msgs).len() <= msgs.len(),
    decreases msgs.len(),
{
    if msgs.len() > 0 {
        lemma_jobs_of_len_le(msgs.drop_first());
    }
}

/// A run of messages that carries no work yields no jobs.
pub proof fn lemma_jobs_of_none<P>(msgs: Seq<Message<P>>)
    requires
        forall|i: int| 0 <= i < msgs.len() ==> (#[trigger] msgs[i]) is Terminate,
    ensures
        jobs_of(msgs) == Seq::<Job<P>>::empty(),
    decreases msgs.len(),
{
    if msgs.len() > 0 {
        lemma_jobs_of_none(msgs.drop_first());
    }
}

/// Exhaustive delivery: messages leave the queue from the front, one at a
/// time, so after any number `k` of receives the jobs already handed out
/// (those of the first `k` messages) and the jobs still pending recompose to
/// exactly the jobs sent — each job is delivered at most once, none is
/// duplicated, none is silently dropped, and the order of delivery is the
/// order of submission.
pub proof fn lemma_exhaustive_delivery<P>(sent: Seq<Message<P>>, k: int)
    requires
        0 <= k <= sent.len(),
    ensures
        jobs_of(sent.take(k)) + jobs_of(sent.skip(k)) == jobs_of(sent),
{
    assert(sent.take(k) + sent.skip(k) =~= sent);
    lemma_jobs_of_concat(sent.take(k), sent.skip(k));
}

} // verus!
