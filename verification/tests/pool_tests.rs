use std::cell::Cell;
use std::rc::Rc;

use backend::dispatch::{Job, Message, MessageQueue, WorkerAction, worker_step};
use backend::pool::{SubmissionError, ThreadPool, Worker};

#[test]
fn worker_new_is_alive() {
    let w = Worker::new(3);
    assert_eq!(w.id, 3);
    assert!(w.alive);
}

#[test]
fn worker_step_runs_a_job() {
    let msg = Message::NewJob(Job { payload: 7u32, jobnum: 9 });
    match worker_step(msg) {
        WorkerAction::Run(job) => {
            assert_eq!(job.payload, 7);
            assert_eq!(job.jobnum, 9);
        }
        WorkerAction::Exit => panic!("a job must be run, not dropped"),
    }
}

#[test]
fn worker_step_exits_on_terminate() {
    let msg: Message<u32> = Message::Terminate;
    assert!(matches!(worker_step(msg), WorkerAction::Exit));
}

#[test]
fn queue_is_fifo() {
    let mut q: MessageQueue<u32> = MessageQueue::new();
    assert_eq!(q.len(), 0);
    q.send(Message::NewJob(Job { payload: 1, jobnum: 1 }));
    q.send(Message::NewJob(Job { payload: 2, jobnum: 2 }));
    q.send(Message::Terminate);
    assert_eq!(q.len(), 3);
    match q.recv() {
        Some(Message::NewJob(job)) => assert_eq!(job.payload, 1),
        _ => panic!("the oldest message leaves first"),
    }
    match q.recv() {
        Some(Message::NewJob(job)) => assert_eq!(job.payload, 2),
        _ => panic!("messages leave in send order"),
    }
    assert!(matches!(q.recv(), Some(Message::Terminate)));
}

#[test]
fn queue_never_hands_a_message_out_twice() {
    let mut q: MessageQueue<u32> = MessageQueue::new();
    q.send(Message::NewJob(Job { payload: 5, jobnum: 1 }));
    assert!(q.recv().is_some());
    assert!(q.recv().is_none());
    assert_eq!(q.len(), 0);
}

#[test]
fn capacity_after_construction() {
    for size in [1usize, 2, 4, 12] {
        let p: ThreadPool<u32> = ThreadPool::new(size);
        assert_eq!(p.alive_workers(), size);
    }
}

#[test]
fn delivery_is_exhaustive_and_in_order() {
    let mut p: ThreadPool<usize> = ThreadPool::new(3);
    for n in 1usize..=5 {
        p.execute(n * 10, &n).unwrap();
    }
    let jobs = p.shutdown();
    let nums: Vec<usize> = jobs.iter().map(|j| j.jobnum).collect();
    assert_eq!(nums, vec![1, 2, 3, 4, 5]);
    let payloads: Vec<usize> = jobs.iter().map(|j| j.payload).collect();
    assert_eq!(payloads, vec![10, 20, 30, 40, 50]);
}

#[test]
fn step_hands_each_job_to_one_worker_once() {
    let mut p: ThreadPool<u32> = ThreadPool::new(2);
    p.execute(7, &1).unwrap();
    match p.step(0) {
        WorkerAction::Run(job) => assert_eq!(job.payload, 7),
        WorkerAction::Exit => panic!("a job must not retire a worker"),
    }
    // the message was consumed with the receive: nothing is left to observe
    let jobs = p.shutdown();
    assert!(jobs.is_empty());
}

#[test]
fn scenario_ten_jobs_all_run() {
    let counter = Rc::new(Cell::new(0usize));
    let mut p: ThreadPool<Box<dyn FnOnce()>> = ThreadPool::new(4);
    for n in 1usize..=10 {
        let c = Rc::clone(&counter);
        p.execute(Box::new(move || c.set(c.get() + 1)), &n).unwrap();
    }
    let jobs = p.shutdown();
    assert_eq!(jobs.len(), 10);
    for job in jobs {
        (job.payload)();
    }
    assert_eq!(counter.get(), 10);
}

#[test]
fn scenario_single_worker_serializes() {
    let order: Rc<Cell<u32>> = Rc::new(Cell::new(0));
    let a_done = Rc::new(Cell::new(false));
    let b_started_after_a = Rc::new(Cell::new(false));
    let mut p: ThreadPool<Box<dyn FnOnce()>> = ThreadPool::new(1);
    {
        let order = Rc::clone(&order);
        let a_done = Rc::clone(&a_done);
        p.execute(
            Box::new(move || {
                order.set(order.get() + 1);
                a_done.set(true);
            }),
            &1,
        )
        .unwrap();
    }
    {
        let a_done = Rc::clone(&a_done);
        let flag = Rc::clone(&b_started_after_a);
        p.execute(Box::new(move || flag.set(a_done.get())), &2).unwrap();
    }
    let jobs = p.shutdown();
    for job in jobs {
        (job.payload)();
    }
    assert!(b_started_after_a.get(), "the second job starts only after the first completed");
}

#[test]
fn scenario_immediate_teardown() {
    let mut p: ThreadPool<u32> = ThreadPool::new(2);
    let jobs = p.shutdown();
    assert!(jobs.is_empty());
    assert_eq!(p.alive_workers(), 0);
}

#[test]
fn scenario_execute_after_teardown() {
    let mut p: ThreadPool<u32> = ThreadPool::new(2);
    let _ = p.shutdown();
    let r = p.execute(1, &1);
    assert_eq!(r, Err(SubmissionError));
}

#[test]
fn fault_shrinks_capacity_by_one() {
    let mut p: ThreadPool<u32> = ThreadPool::new(3);
    p.report_fault(1);
    assert_eq!(p.alive_workers(), 2);
    // the surviving workers keep servicing submissions
    p.execute(42, &1).unwrap();
    match p.step(0) {
        WorkerAction::Run(job) => assert_eq!(job.payload, 42),
        WorkerAction::Exit => panic!("a fault elsewhere must not retire this worker"),
    }
}

#[test]
fn teardown_after_faults_leaves_no_worker() {
    let mut p: ThreadPool<u32> = ThreadPool::new(2);
    p.report_fault(0);
    p.execute(5, &1).unwrap();
    let jobs = p.shutdown();
    assert_eq!(jobs.len(), 1);
    assert_eq!(p.alive_workers(), 0);
}
