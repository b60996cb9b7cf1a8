use kernel::task::executor::{Executor, ExecutorError, Next, TaskId};

fn poll_id(next: Result<Next<&'static str>, ExecutorError>) -> Option<(u64, &'static str)> {
    match next {
        Ok(Next::Poll { id, task }) => Some((id.0, task)),
        Ok(Next::Idle) => None,
        Err(e) => panic!("executor refused: {:?}", e),
    }
}

#[test]
fn tasks_run_in_spawn_order() {
    let mut executor: Executor<&'static str> = Executor::new();
    let first = executor.spawn("first").unwrap();
    let second = executor.spawn("second").unwrap();
    assert_eq!(first, TaskId(0));
    assert_eq!(second, TaskId(1));
    assert_eq!(poll_id(executor.take_next()), Some((0, "first")));
    assert_eq!(executor.running(), Some(TaskId(0)));
    assert_eq!(executor.suspended_count(), 1);
    // The second task cannot start while the first is out.
    assert!(matches!(executor.take_next(), Err(ExecutorError::TaskRunning)));
    assert_eq!(executor.complete(), Ok(TaskId(0)));
    assert_eq!(poll_id(executor.take_next()), Some((1, "second")));
    assert_eq!(executor.complete(), Ok(TaskId(1)));
    assert_eq!(poll_id(executor.take_next()), None);
    assert!(executor.is_idle());
    assert_eq!(executor.suspended_count(), 0);
    assert_eq!(executor.running(), None);
}

#[test]
fn parked_task_waits_for_its_waker() {
    let mut executor: Executor<&'static str> = Executor::new();
    let id = executor.spawn("consumer").unwrap();
    assert_eq!(poll_id(executor.take_next()), Some((0, "consumer")));
    assert_eq!(executor.park("consumer, suspended"), Ok(id));
    // Nothing is ready until the waker fires.
    assert_eq!(poll_id(executor.take_next()), None);
    assert!(executor.is_idle());
    assert_eq!(executor.suspended_count(), 1);
    assert!(executor.wake(id));
    assert!(!executor.is_idle());
    assert_eq!(poll_id(executor.take_next()), Some((0, "consumer, suspended")));
}

#[test]
fn wake_during_a_poll_is_not_lost() {
    let mut executor: Executor<&'static str> = Executor::new();
    let id = executor.spawn("consumer").unwrap();
    assert_eq!(poll_id(executor.take_next()), Some((0, "consumer")));
    assert!(executor.wake(id));
    assert_eq!(executor.park("consumer"), Ok(id));
    assert_eq!(poll_id(executor.take_next()), Some((0, "consumer")));
}

#[test]
fn wake_queues_a_task_once() {
    let mut executor: Executor<&'static str> = Executor::new();
    let a = executor.spawn("a").unwrap();
    let b = executor.spawn("b").unwrap();
    // Both are queued already.
    assert!(!executor.wake(a));
    assert!(!executor.wake(b));
    assert_eq!(poll_id(executor.take_next()), Some((0, "a")));
    assert_eq!(executor.park("a"), Ok(a));
    assert!(executor.wake(a));
    assert!(!executor.wake(a));
    assert_eq!(poll_id(executor.take_next()), Some((1, "b")));
    assert_eq!(executor.park("b"), Ok(b));
    assert_eq!(poll_id(executor.take_next()), Some((0, "a")));
    assert_eq!(executor.park("a"), Ok(a));
    assert_eq!(poll_id(executor.take_next()), None);
}

#[test]
fn woken_tasks_go_behind_ready_ones() {
    let mut executor: Executor<&'static str> = Executor::new();
    let a = executor.spawn("a").unwrap();
    assert_eq!(poll_id(executor.take_next()), Some((0, "a")));
    assert_eq!(executor.park("a"), Ok(a));
    let _b = executor.spawn("b").unwrap();
    assert!(executor.wake(a));
    let _c = executor.spawn("c").unwrap();
    assert_eq!(poll_id(executor.take_next()), Some((1, "b")));
    assert_eq!(executor.complete(), Ok(TaskId(1)));
    assert_eq!(poll_id(executor.take_next()), Some((0, "a")));
    assert_eq!(executor.complete(), Ok(TaskId(0)));
    assert_eq!(poll_id(executor.take_next()), Some((2, "c")));
}

#[test]
fn completed_task_is_gone_even_if_woken() {
    let mut executor: Executor<&'static str> = Executor::new();
    let id = executor.spawn("short").unwrap();
    assert_eq!(poll_id(executor.take_next()), Some((0, "short")));
    // The waker fires while the task runs for the last time.
    assert!(executor.wake(id));
    assert_eq!(executor.complete(), Ok(id));
    assert_eq!(poll_id(executor.take_next()), None);
    // A waker that fires after the task is gone wakes nothing.
    assert!(!executor.wake(id));
    assert!(!executor.wake(TaskId(17)));
    assert_eq!(executor.suspended_count(), 0);
}

#[test]
fn reports_without_a_running_task_are_refused() {
    let mut executor: Executor<&'static str> = Executor::new();
    assert_eq!(executor.park("nobody"), Err(ExecutorError::NotRunning));
    assert_eq!(executor.complete(), Err(ExecutorError::NotRunning));
    let _ = executor.spawn("a").unwrap();
    assert_eq!(executor.complete(), Err(ExecutorError::NotRunning));
    assert_eq!(poll_id(executor.take_next()), Some((0, "a")));
}

#[test]
fn identifiers_are_never_reused() {
    let mut executor: Executor<u8> = Executor::new();
    let a = executor.spawn(1).unwrap();
    assert!(matches!(executor.take_next(), Ok(Next::Poll { id: TaskId(0), task: 1 })));
    assert_eq!(executor.complete(), Ok(a));
    let b = executor.spawn(2).unwrap();
    assert_eq!(b, TaskId(1));
    assert_eq!(executor.suspended_count(), 1);
}
