use std::sync::mpsc;
use toolbelt_a::sync::{
    check_receiver, check_sender, next_shutdown, next_step, pool_log_line, recv_outcome,
    result_worker_thread_name, send_outcome, spawn_outcome, try_recv_outcome,
    worker_thread_name, HandleKind, LoopStep, MessageKind, PoolEvent, Received, ShutdownAction,
    ShutdownState,
};
use toolbelt_a::Error;

#[test]
fn worker_runs_tasks_and_stops() {
    assert_eq!(next_step(Received::Message(MessageKind::NewTask)), LoopStep::RunTask);
    assert_eq!(next_step(Received::Message(MessageKind::Terminate)), LoopStep::Stop);
    assert_eq!(next_step(Received::Disconnected), LoopStep::Stop);
}

#[test]
fn queued_tasks_all_run_before_terminate() {
    let events = [
        Received::Message(MessageKind::NewTask),
        Received::Message(MessageKind::NewTask),
        Received::Message(MessageKind::NewTask),
        Received::Message(MessageKind::Terminate),
        Received::Message(MessageKind::NewTask),
    ];
    let mut ran = 0;
    for e in events {
        match next_step(e) {
            LoopStep::RunTask => ran += 1,
            LoopStep::Stop => break,
        }
    }
    assert_eq!(ran, 3);
}

fn sync_error_text(e: Error) -> String {
    match e {
        Error::SyncError(text) => text,
        other => panic!("unexpected error {:?}", other),
    }
}

#[test]
fn missing_sender_errors() {
    assert!(check_sender(HandleKind::Worker, true).is_ok());
    assert_eq!(
        sync_error_text(check_sender(HandleKind::Worker, false).unwrap_err()),
        "worker does not have sender"
    );
    assert_eq!(
        sync_error_text(check_sender(HandleKind::ResultWorker, false).unwrap_err()),
        "result worker doesnot have sender"
    );
    assert_eq!(
        sync_error_text(check_sender(HandleKind::ThreadPool, false).unwrap_err()),
        "thread pool does not have sender"
    );
    assert!(check_receiver(true).is_ok());
    assert_eq!(
        sync_error_text(check_receiver(false).unwrap_err()),
        "result worker doesnot have receiver"
    );
}

#[test]
fn failed_send_keeps_its_text() {
    let (sender, receiver) = mpsc::channel::<u8>();
    drop(receiver);
    let failed = sender.send(7);
    let error = send_outcome(failed).unwrap_err();
    match &error {
        Error::SyncSendError(text) => assert_eq!(text, "sending on a closed channel"),
        other => panic!("unexpected error {:?}", other),
    }
    assert_eq!(error.message(), "sync send error: sending on a closed channel");
    assert!(send_outcome::<String>(Ok(())).is_ok());
}

#[test]
fn failed_receives_are_sync_errors() {
    let (sender, receiver) = mpsc::channel::<u8>();
    assert!(matches!(
        try_recv_outcome(receiver.try_recv()),
        Err(Error::SyncTryRecvError(mpsc::TryRecvError::Empty))
    ));
    sender.send(5).unwrap();
    assert_eq!(recv_outcome(receiver.recv()).unwrap(), 5);
    drop(sender);
    let error = recv_outcome(receiver.recv()).unwrap_err();
    assert!(matches!(error, Error::SyncRecvError(_)));
    assert_eq!(error.message(), "sync recv error: receiving on a closed channel");
}

#[test]
fn failed_spawn_is_a_thread_error() {
    let failed: Result<(), std::io::Error> =
        Err(std::io::Error::new(std::io::ErrorKind::Other, "no threads"));
    let error = spawn_outcome(failed).unwrap_err();
    assert_eq!(error.message(), "sync thread error: no threads");
    assert_eq!(spawn_outcome::<u8>(Ok(3)).unwrap(), 3);
}

#[test]
fn error_messages() {
    assert_eq!(Error::SyncError(String::from("x")).message(), "sync error: x");
    assert_eq!(Error::UnknownError(String::from("y")).message(), "unknown error: y");
    assert_eq!(
        Error::as_sync_send_error("gone").message(),
        "sync send error: gone"
    );
}

#[test]
fn thread_names() {
    assert_eq!(worker_thread_name(None, 0), "toolbelt_a worker 0");
    assert_eq!(worker_thread_name(None, 1234), "toolbelt_a worker 1234");
    assert_eq!(worker_thread_name(Some(String::from("mine")), 9), "mine");
    assert_eq!(result_worker_thread_name(None, 10), "toolbelt_a result worker 10");
    assert_eq!(
        result_worker_thread_name(None, usize::MAX),
        format!("toolbelt_a result worker {}", usize::MAX)
    );
}

#[test]
fn pool_lines() {
    assert_eq!(pool_log_line(PoolEvent::GotTask, 3), "Worker 3 got a task; executing.");
    assert_eq!(
        pool_log_line(PoolEvent::Disconnected, 40),
        "Worker 40 disconnected; shutting down."
    );
    assert_eq!(pool_log_line(PoolEvent::ShuttingDown, 105), "Shutting down worker 105");
}

fn shutdown_actions(kind: HandleKind, mut s: ShutdownState) -> Vec<ShutdownAction> {
    let mut actions = Vec::new();
    loop {
        let (next, action) = next_shutdown(kind, s);
        actions.push(action);
        if action == ShutdownAction::Done {
            return actions;
        }
        s = next;
    }
}

#[test]
fn shutdown_orders() {
    let worker = ShutdownState { sender: true, terminate_sent: false, receiver: false, threads: 1 };
    assert_eq!(
        shutdown_actions(HandleKind::Worker, worker),
        [
            ShutdownAction::SendTerminate,
            ShutdownAction::DropSender,
            ShutdownAction::JoinThread,
            ShutdownAction::Done
        ]
    );
    let result_worker =
        ShutdownState { sender: true, terminate_sent: false, receiver: true, threads: 1 };
    assert_eq!(
        shutdown_actions(HandleKind::ResultWorker, result_worker),
        [
            ShutdownAction::SendTerminate,
            ShutdownAction::DropSender,
            ShutdownAction::DropReceiver,
            ShutdownAction::JoinThread,
            ShutdownAction::Done
        ]
    );
    let pool = ShutdownState { sender: true, terminate_sent: false, receiver: false, threads: 3 };
    assert_eq!(
        shutdown_actions(HandleKind::ThreadPool, pool),
        [
            ShutdownAction::DropSender,
            ShutdownAction::JoinThread,
            ShutdownAction::JoinThread,
            ShutdownAction::JoinThread,
            ShutdownAction::Done
        ]
    );
    let emptied = ShutdownState { sender: false, terminate_sent: true, receiver: false, threads: 0 };
    assert_eq!(shutdown_actions(HandleKind::Worker, emptied), [ShutdownAction::Done]);
}

#[test]
fn pool_ids() {
    assert_eq!(toolbelt_a::sync::pool_worker_ids(1), [0]);
    assert_eq!(toolbelt_a::sync::pool_worker_ids(4), [0, 1, 2, 3]);
}
