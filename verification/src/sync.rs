//! The decisions of the crate's background workers.
//!
//! A `Worker` runs the tasks sent to it on a thread of its own, a
//! `ResultWorker` also sends each task's result back, and a `ThreadPool`
//! shares one queue of tasks among several threads.  Threads and channels are
//! the application's; this module decides what each step does: what a worker
//! thread does with what it received, how a handle reports what it lacks or
//! what failed, how threads are named, and in which order a handle shuts
//! down.

use crate::comp::token::push_char;
use crate::error::Error;
use std::sync::mpsc::RecvError;
use std::sync::mpsc::TryRecvError;
use vstd::prelude::*;
use vstd::string::*;

verus! {

/// The kind of a message on a worker's queue.
#[derive(PartialEq, Eq, Structural, Clone, Copy, Debug)]
pub enum MessageKind {
    /// A task to run.
    NewTask,
    /// Stop after the messages before this one.
    Terminate,
}

/// What a worker thread's wait on its queue gave.
#[derive(PartialEq, Eq, Structural, Clone, Copy, Debug)]
pub enum Received {
    Message(MessageKind),
    /// Every sender is gone and the queue is empty.
    Disconnected,
}

/// What a worker thread does next.
#[derive(PartialEq, Eq, Structural, Clone, Copy, Debug)]
pub enum LoopStep {
    RunTask,
    Stop,
}

/// A worker thread runs each task it receives, and stops at `Terminate` or
/// when its queue is disconnected.
pub open spec fn step_of(received: Received) -> LoopStep {
    match received {
        Received::Message(MessageKind::NewTask) => LoopStep::RunTask,
        _ => LoopStep::Stop,
    }
}

/// What a worker thread does with what it received.
pub fn next_step(received: Received) -> (s: LoopStep)
    ensures
        s == step_of(received),
{
    match received {
        Received::Message(MessageKind::NewTask) => LoopStep::RunTask,
        Received::Message(MessageKind::Terminate) => LoopStep::Stop,
        Received::Disconnected => LoopStep::Stop,
    }
}

/// How many tasks a worker thread runs when it receives `events` in order:
/// those before it first stops.
pub open spec fn tasks_run(events: Seq<Received>) -> nat
    decreases events.len(),
{
    if events.len() == 0 {
        0
    } else {
        match step_of(events[0]) {
            LoopStep::RunTask => 1 + tasks_run(events.drop_first()),
            LoopStep::Stop => 0,
        }
    }
}

/// `n` tasks.
pub open spec fn tasks(n: nat) -> Seq<Received> {
    Seq::new(n, |i: int| Received::Message(MessageKind::NewTask))
}

/// A worker thread runs every task queued before what stops it, and none
/// after: `n` tasks, then `Terminate` or a disconnection, then anything, run
/// exactly `n` tasks.  Dropping a `Worker` or a `ResultWorker` queues
/// `Terminate` behind the tasks sent to it, and dropping a `ThreadPool`
/// disconnects its queue behind them, so each runs all of them.
pub proof fn lemma_runs_every_queued_task(n: nat, stop: Received, after: Seq<Received>)
    requires
        step_of(stop) == LoopStep::Stop,
    ensures
        tasks_run(tasks(n) + seq![stop] + after) == n,
    decreases n,
{
    let events = tasks(n) + seq![stop] + after;
    if n == 0 {
        assert(events[0] == stop);
    } else {
        assert(events[0] == Received::Message(MessageKind::NewTask));
        assert(events.drop_first() =~= tasks((n - 1) as nat) + seq![stop] + after);
        lemma_runs_every_queued_task((n - 1) as nat, stop, after);
    }
}

/// The three kinds of handle.
#[derive(PartialEq, Eq, Structural, Clone, Copy, Debug)]
pub enum HandleKind {
    Worker,
    ResultWorker,
    ThreadPool,
}

/// What a handle reports when it has no sender left.
pub open spec fn missing_sender_text(kind: HandleKind) -> Seq<char> {
    match kind {
        HandleKind::Worker => "worker does not have sender"@,
        HandleKind::ResultWorker => "result worker doesnot have sender"@,
        HandleKind::ThreadPool => "thread pool does not have sender"@,
    }
}

/// What a result worker reports when it has no receiver left.
pub open spec fn missing_receiver_text() -> Seq<char> {
    "result worker doesnot have receiver"@
}

/// Before a send: a handle without its sender fails with a `SyncError`.
pub fn check_sender(kind: HandleKind, has_sender: bool) -> (r: Result<(), Error>)
    ensures
        has_sender ==> r is Ok,
        !has_sender ==> exists|text: String|
            text@ == missing_sender_text(kind) && r == Err::<(), Error>(Error::SyncError(text)),
{
    if has_sender {
        Ok(())
    } else {
        let text = match kind {
            HandleKind::Worker => String::from_str("worker does not have sender"),
            HandleKind::ResultWorker => String::from_str("result worker doesnot have sender"),
            HandleKind::ThreadPool => String::from_str("thread pool does not have sender"),
        };
        Err(Error::SyncError(text))
    }
}

/// Before a receive: a result worker without its receiver fails with a
/// `SyncError`.
pub fn check_receiver(has_receiver: bool) -> (r: Result<(), Error>)
    ensures
        has_receiver ==> r is Ok,
        !has_receiver ==> exists|text: String|
            text@ == missing_receiver_text() && r == Err::<(), Error>(Error::SyncError(text)),
{
    if has_receiver {
        Ok(())
    } else {
        Err(Error::SyncError(String::from_str("result worker doesnot have receiver")))
    }
}

/// After a send: a failed send becomes a `SyncSendError` holding what the
/// failure displays.
pub fn send_outcome<E: core::fmt::Display>(sent: std::result::Result<(), E>) -> (r: Result<
    (),
    Error,
>)
    ensures
        match sent {
            Ok(()) => r is Ok,
            Err(e) => exists|text: String|
                to_string_from_display_ensures::<E>(&e, text) && r == Err::<(), Error>(
                    Error::SyncSendError(text),
                ),
        },
{
    match sent {
        Ok(()) => Ok(()),
        Err(e) => Err(Error::as_sync_send_error(e)),
    }
}

/// After a blocking receive: a closed channel becomes a `SyncRecvError`.
pub fn recv_outcome<R>(received: std::result::Result<R, RecvError>) -> (r: Result<R, Error>)
    ensures
        match received {
            Ok(v) => r == Ok::<R, Error>(v),
            Err(e) => r == Err::<R, Error>(Error::SyncRecvError(e)),
        },
{
    match received {
        Ok(v) => Ok(v),
        Err(e) => Err(Error::SyncRecvError(e)),
    }
}

/// After a receive that does not wait: an empty or closed channel becomes a
/// `SyncTryRecvError`.
pub fn try_recv_outcome<R>(received: std::result::Result<R, TryRecvError>) -> (r: Result<
    R,
    Error,
>)
    ensures
        match received {
            Ok(v) => r == Ok::<R, Error>(v),
            Err(e) => r == Err::<R, Error>(Error::SyncTryRecvError(e)),
        },
{
    match received {
        Ok(v) => Ok(v),
        Err(e) => Err(Error::SyncTryRecvError(e)),
    }
}

/// After starting a thread: a failure becomes a `SyncThreadError`.
pub fn spawn_outcome<H>(spawned: std::result::Result<H, std::io::Error>) -> (r: Result<H, Error>)
    ensures
        match spawned {
            Ok(h) => r == Ok::<H, Error>(h),
            Err(e) => r == Err::<H, Error>(Error::SyncThreadError(e)),
        },
{
    match spawned {
        Ok(h) => Ok(h),
        Err(e) => Err(Error::SyncThreadError(e)),
    }
}

/// The digit `d`.
pub open spec fn digit_char(d: nat) -> char {
    "0123456789"@[d as int]
}

/// The decimal digits of `n`.
pub open spec fn decimal(n: nat) -> Seq<char>
    decreases n,
{
    if n < 10 {
        seq![digit_char(n)]
    } else {
        decimal(n / 10).push(digit_char(n % 10))
    }
}

/// The decimal digits of a number are those of its tens followed by its last
/// digit, a number under ten being its one digit, and the digits are `0`
/// to `9` in order.
pub proof fn lemma_decimal_digits(n: nat, d: nat)
    requires
        d < 10,
    ensures
        decimal(d) == seq![digit_char(d)],
        n > 0 ==> decimal(10 * n + d) == decimal(n).push(digit_char(d)),
        digit_char(d) as u32 == 48 + d,
{
    reveal_strlit("0123456789");
    if n > 0 {
        assert((10 * n + d) / 10 == n);
        assert((10 * n + d) % 10 == d);
    }
    assert(digit_char(d) as u32 == 48 + d) by {
        if d == 0 {} else if d == 1 {} else if d == 2 {} else if d == 3 {} else if d == 4 {}
        else if d == 5 {} else if d == 6 {} else if d == 7 {} else if d == 8 {} else {}
    }
}

/// Appends the decimal digits of `n`.
pub fn push_decimal(out: &mut String, n: usize)
    ensures
        final(out)@ == old(out)@ + decimal(n as nat),
    decreases n,
{
    proof {
        reveal_strlit("0123456789");
    }
    if n >= 10 {
        push_decimal(out, n / 10);
    }
    let d = "0123456789".get_char(n % 10);
    push_char(out, d);
    assert(out@ =~= old(out)@ + decimal(n as nat));
}

/// The name of a worker's thread: the one given, or `toolbelt_a worker `
/// and the worker's sequence number.
pub fn worker_thread_name(name: Option<String>, seq: usize) -> (r: String)
    ensures
        match name {
            Some(given) => r == given,
            None => r@ == "toolbelt_a worker "@ + decimal(seq as nat),
        },
{
    match name {
        Some(given) => given,
        None => {
            let mut r = String::from_str("toolbelt_a worker ");
            push_decimal(&mut r, seq);
            r
        },
    }
}

/// The name of a result worker's thread: the one given, or
/// `toolbelt_a result worker ` and the worker's sequence number.
pub fn result_worker_thread_name(name: Option<String>, seq: usize) -> (r: String)
    ensures
        match name {
            Some(given) => r == given,
            None => r@ == "toolbelt_a result worker "@ + decimal(seq as nat),
        },
{
    match name {
        Some(given) => given,
        None => {
            let mut r = String::from_str("toolbelt_a result worker ");
            push_decimal(&mut r, seq);
            r
        },
    }
}

/// What a thread pool reports about its worker `id`.
#[derive(PartialEq, Eq, Structural, Clone, Copy, Debug)]
pub enum PoolEvent {
    /// The worker took a task from the queue.
    GotTask,
    /// The queue is disconnected; the worker stops.
    Disconnected,
    /// The pool is joining the worker's thread.
    ShuttingDown,
}

/// The line a thread pool prints about its worker `id`.
pub open spec fn pool_line(event: PoolEvent, id: nat) -> Seq<char> {
    match event {
        PoolEvent::GotTask => "Worker "@ + decimal(id) + " got a task; executing."@,
        PoolEvent::Disconnected => "Worker "@ + decimal(id) + " disconnected; shutting down."@,
        PoolEvent::ShuttingDown => "Shutting down worker "@ + decimal(id),
    }
}

/// The line a thread pool prints about its worker `id`.
pub fn pool_log_line(event: PoolEvent, id: usize) -> (r: String)
    ensures
        r@ == pool_line(event, id as nat),
{
    match event {
        PoolEvent::GotTask => {
            let mut r = String::from_str("Worker ");
            push_decimal(&mut r, id);
            r.append(" got a task; executing.");
            r
        },
        PoolEvent::Disconnected => {
            let mut r = String::from_str("Worker ");
            push_decimal(&mut r, id);
            r.append(" disconnected; shutting down.");
            r
        },
        PoolEvent::ShuttingDown => {
            let mut r = String::from_str("Shutting down worker ");
            push_decimal(&mut r, id);
            r
        },
    }
}

/// What a handle still holds while it shuts down.
#[derive(PartialEq, Eq, Structural, Clone, Copy, Debug)]
pub struct ShutdownState {
    /// The sending end of its queue.
    pub sender: bool,
    /// `Terminate` has been queued.
    pub terminate_sent: bool,
    /// The receiving end of a result worker's results.
    pub receiver: bool,
    /// Threads not joined yet.
    pub threads: usize,
}

/// One step of shutting a handle down.
#[derive(PartialEq, Eq, Structural, Clone, Copy, Debug)]
pub enum ShutdownAction {
    /// Queue `Terminate` behind the tasks sent so far.
    SendTerminate,
    /// Drop the sending end of the queue.
    DropSender,
    /// Drop the receiving end of the results.
    DropReceiver,
    /// Wait for the next thread to finish.
    JoinThread,
    /// Nothing is left.
    Done,
}

/// A `Worker` and a `ResultWorker` stop their thread with `Terminate`; a
/// `ThreadPool` stops its threads by disconnecting their queue.
pub open spec fn uses_terminate(kind: HandleKind) -> bool {
    kind != HandleKind::ThreadPool
}

/// The order of shutting down: queue `Terminate` where the handle uses it,
/// drop the sender, drop the receiver, then join the threads one by one.
pub open spec fn shutdown_step(kind: HandleKind, s: ShutdownState) -> (ShutdownState, ShutdownAction) {
    if s.sender && uses_terminate(kind) && !s.terminate_sent {
        (ShutdownState { terminate_sent: true, ..s }, ShutdownAction::SendTerminate)
    } else if s.sender {
        (ShutdownState { sender: false, ..s }, ShutdownAction::DropSender)
    } else if s.receiver {
        (ShutdownState { receiver: false, ..s }, ShutdownAction::DropReceiver)
    } else if s.threads > 0 {
        (ShutdownState { threads: (s.threads - 1) as usize, ..s }, ShutdownAction::JoinThread)
    } else {
        (s, ShutdownAction::Done)
    }
}

/// The next step of shutting a handle down, and what it then holds.
pub fn next_shutdown(kind: HandleKind, s: ShutdownState) -> (r: (ShutdownState, ShutdownAction))
    ensures
        r == shutdown_step(kind, s),
{
    if s.sender && kind != HandleKind::ThreadPool && !s.terminate_sent {
        (ShutdownState { terminate_sent: true, ..s }, ShutdownAction::SendTerminate)
    } else if s.sender {
        (ShutdownState { sender: false, ..s }, ShutdownAction::DropSender)
    } else if s.receiver {
        (ShutdownState { receiver: false, ..s }, ShutdownAction::DropReceiver)
    } else if s.threads > 0 {
        (ShutdownState { threads: s.threads - 1, ..s }, ShutdownAction::JoinThread)
    } else {
        (s, ShutdownAction::Done)
    }
}

/// How many steps shutting down has left.
pub open spec fn shutdown_measure(kind: HandleKind, s: ShutdownState) -> nat {
    (if s.sender && uses_terminate(kind) && !s.terminate_sent {
        1nat
    } else {
        0nat
    }) + (if s.sender {
        1nat
    } else {
        0nat
    }) + (if s.receiver {
        1nat
    } else {
        0nat
    }) + s.threads as nat
}

/// Shutting down never waits on a thread that could still be waiting for
/// work: a thread is joined only once the handle's sender is gone, and a
/// handle that stops its thread with `Terminate` drops its sender only after
/// queuing it.  Each step leaves fewer steps to go, and `Done` comes exactly
/// when nothing is held.
pub proof fn lemma_shutdown_order(kind: HandleKind, s: ShutdownState)
    ensures
        shutdown_step(kind, s).1 == ShutdownAction::JoinThread ==> !s.sender && !s.receiver,
        shutdown_step(kind, s).1 == ShutdownAction::DropSender && uses_terminate(kind)
            ==> s.terminate_sent,
        shutdown_step(kind, s).1 == ShutdownAction::SendTerminate ==> uses_terminate(kind),
        shutdown_step(kind, s).1 != ShutdownAction::Done ==> shutdown_measure(
            kind,
            shutdown_step(kind, s).0,
        ) < shutdown_measure(kind, s),
        (shutdown_step(kind, s).1 == ShutdownAction::Done) == (!s.sender && !s.receiver
            && s.threads == 0),
        shutdown_step(kind, s).1 == ShutdownAction::JoinThread ==> shutdown_step(kind, s).0
            == (ShutdownState { threads: (s.threads - 1) as usize, ..s }),
        shutdown_step(kind, s).1 != ShutdownAction::JoinThread ==> shutdown_step(
            kind,
            s,
        ).0.threads == s.threads,
{
}

/// How many of the steps taken from each state of `trace` but the last join a
/// thread.
pub open spec fn joins(kind: HandleKind, trace: Seq<ShutdownState>) -> nat
    decreases trace.len(),
{
    if trace.len() <= 1 {
        0
    } else {
        (if shutdown_step(kind, trace[0]).1 == ShutdownAction::JoinThread {
            1nat
        } else {
            0nat
        }) + joins(kind, trace.drop_first())
    }
}

/// Shutting a handle down joins every one of its threads, each exactly once:
/// along the states that the steps pass through, up to the one where the
/// next step is `Done`, there are as many `JoinThread` steps as the handle
/// held threads at the start.
pub proof fn lemma_joins_every_thread(kind: HandleKind, trace: Seq<ShutdownState>)
    requires
        trace.len() > 0,
        forall|i: int|
            0 <= i < trace.len() - 1 ==> shutdown_step(kind, #[trigger] trace[i]).1
                != ShutdownAction::Done && trace[i + 1] == shutdown_step(kind, trace[i]).0,
        shutdown_step(kind, trace.last()).1 == ShutdownAction::Done,
    ensures
        joins(kind, trace) == trace[0].threads,
    decreases trace.len(),
{
    lemma_shutdown_order(kind, trace[0]);
    if trace.len() > 1 {
        let rest = trace.drop_first();
        assert forall|i: int| 0 <= i < rest.len() - 1 implies shutdown_step(
            kind,
            #[trigger] rest[i],
        ).1 != ShutdownAction::Done && rest[i + 1] == shutdown_step(kind, rest[i]).0 by {
            assert(rest[i] == trace[i + 1]);
            assert(rest[i + 1] == trace[i + 2]);
        }
        assert(rest.last() == trace.last());
        lemma_joins_every_thread(kind, rest);
        assert(rest[0] == trace[1]);
    }
}

/// The ids of a thread pool's workers: `0` up to `size`.  A pool has at
/// least one worker.
pub fn pool_worker_ids(size: usize) -> (ids: Vec<usize>)
    requires
        size > 0,
    ensures
        ids@ == Seq::new(size as nat, |i: int| i as usize),
{
    let mut ids: Vec<usize> = Vec::new();
    let mut i: usize = 0;
    while i < size
        invariant
            i <= size,
            ids@ == Seq::new(i as nat, |x: int| x as usize),
        decreases size - i,
    {
        ids.push(i);
        i = i + 1;
        assert(ids@ =~= Seq::new(i as nat, |x: int| x as usize));
    }
    ids
}

} // verus!
