use kernel::task::event_queue::{
    EventQueue, Polled, PushOutcome, QueueError, MAX_QUEUE_CAPACITY,
};
use std::sync::atomic::{AtomicUsize, Ordering};
use std::sync::Arc;
use std::task::{Wake, Waker};

struct Counter {
    wakes: AtomicUsize,
}

impl Wake for Counter {
    fn wake(self: Arc<Self>) {
        self.wakes.fetch_add(1, Ordering::SeqCst);
    }
}

fn counting_waker() -> (Arc<Counter>, Waker) {
    let counter = Arc::new(Counter { wakes: AtomicUsize::new(0) });
    (counter.clone(), Waker::from(counter))
}

fn ready_queue(capacity: usize) -> EventQueue {
    let mut queue = EventQueue::uninit();
    assert_eq!(queue.init(capacity), Ok(()));
    queue
}

#[test]
fn queue_returns_items_in_push_order() {
    let mut queue = ready_queue(4);
    for byte in [7u8, 1, 9, 3] {
        assert_eq!(queue.push(byte), Ok(PushOutcome::Queued));
    }
    assert_eq!(queue.pop(), Ok(Some(7)));
    assert_eq!(queue.pop(), Ok(Some(1)));
    assert_eq!(queue.pop(), Ok(Some(9)));
    assert_eq!(queue.pop(), Ok(Some(3)));
    assert_eq!(queue.pop(), Ok(None));
}

#[test]
fn push_beyond_capacity_drops_the_last() {
    let mut queue = ready_queue(3);
    assert_eq!(queue.push(10), Ok(PushOutcome::Queued));
    assert_eq!(queue.push(11), Ok(PushOutcome::Queued));
    assert_eq!(queue.push(12), Ok(PushOutcome::Queued));
    assert_eq!(queue.push(13), Ok(PushOutcome::Dropped));
    assert_eq!(queue.pop(), Ok(Some(10)));
    assert_eq!(queue.pop(), Ok(Some(11)));
    assert_eq!(queue.pop(), Ok(Some(12)));
    assert_eq!(queue.pop(), Ok(None));
}

#[test]
fn queue_wraps_around_its_buffer() {
    let mut queue = ready_queue(2);
    for round in 0..5u8 {
        assert_eq!(queue.push(round), Ok(PushOutcome::Queued));
        assert_eq!(queue.push(round + 100), Ok(PushOutcome::Queued));
        assert_eq!(queue.push(200), Ok(PushOutcome::Dropped));
        assert_eq!(queue.pop(), Ok(Some(round)));
        assert_eq!(queue.pop(), Ok(Some(round + 100)));
        assert_eq!(queue.pop(), Ok(None));
    }
}

#[test]
fn uninitialized_queue_refuses_every_use() {
    let (_, waker) = counting_waker();
    let mut queue = EventQueue::uninit();
    assert!(!queue.is_initialized());
    assert_eq!(queue.push(1), Err(QueueError::NotInitialized));
    assert_eq!(queue.pop(), Err(QueueError::NotInitialized));
    assert_eq!(queue.register(&waker), Err(QueueError::NotInitialized));
    assert_eq!(queue.recheck(), Err(QueueError::NotInitialized));
    assert_eq!(queue.poll_next(&waker), Err(QueueError::NotInitialized));
}

#[test]
fn queue_is_initialized_once() {
    let mut queue = EventQueue::uninit();
    assert_eq!(queue.init(0), Err(QueueError::BadCapacity));
    assert_eq!(queue.init(MAX_QUEUE_CAPACITY + 1), Err(QueueError::BadCapacity));
    assert!(!queue.is_initialized());
    assert_eq!(queue.init(8), Ok(()));
    assert!(queue.is_initialized());
    assert_eq!(queue.push(5), Ok(PushOutcome::Queued));
    assert_eq!(queue.init(8), Err(QueueError::AlreadyInitialized));
    assert_eq!(queue.init(0), Err(QueueError::AlreadyInitialized));
    assert_eq!(queue.pop(), Ok(Some(5)));
}

#[test]
fn poll_returns_waiting_byte_without_registering() {
    let (counter, waker) = counting_waker();
    let mut queue = ready_queue(4);
    assert_eq!(queue.push(42), Ok(PushOutcome::Queued));
    assert_eq!(queue.poll_next(&waker), Ok(Polled::Ready(42)));
    // No waker was registered, so a later push wakes nobody.
    assert_eq!(queue.push(43), Ok(PushOutcome::Queued));
    assert_eq!(counter.wakes.load(Ordering::SeqCst), 0);
}

#[test]
fn poll_on_empty_queue_registers_and_push_wakes() {
    let (counter, waker) = counting_waker();
    let mut queue = ready_queue(4);
    assert_eq!(queue.poll_next(&waker), Ok(Polled::Pending));
    assert_eq!(counter.wakes.load(Ordering::SeqCst), 0);
    assert_eq!(queue.push(1), Ok(PushOutcome::Queued));
    assert_eq!(counter.wakes.load(Ordering::SeqCst), 1);
    // The waker fired once; it is gone until the consumer registers again.
    assert_eq!(queue.push(2), Ok(PushOutcome::Queued));
    assert_eq!(counter.wakes.load(Ordering::SeqCst), 1);
    assert_eq!(queue.poll_next(&waker), Ok(Polled::Ready(1)));
    assert_eq!(queue.poll_next(&waker), Ok(Polled::Ready(2)));
    assert_eq!(queue.poll_next(&waker), Ok(Polled::Pending));
}

#[test]
fn push_after_register_is_seen_by_recheck() {
    let (counter, waker) = counting_waker();
    let mut queue = ready_queue(4);
    assert_eq!(queue.pop(), Ok(None));
    assert_eq!(queue.register(&waker), Ok(()));
    assert_eq!(queue.push(77), Ok(PushOutcome::Queued));
    assert_eq!(counter.wakes.load(Ordering::SeqCst), 1);
    assert_eq!(queue.recheck(), Ok(Polled::Ready(77)));
    assert_eq!(queue.pop(), Ok(None));
}

#[test]
fn push_before_register_is_seen_by_recheck() {
    let (counter, waker) = counting_waker();
    let mut queue = ready_queue(4);
    assert_eq!(queue.pop(), Ok(None));
    assert_eq!(queue.push(78), Ok(PushOutcome::Queued));
    assert_eq!(queue.register(&waker), Ok(()));
    assert_eq!(queue.recheck(), Ok(Polled::Ready(78)));
    // The byte was taken, so the waker was withdrawn without firing.
    assert_eq!(counter.wakes.load(Ordering::SeqCst), 0);
    assert_eq!(queue.push(79), Ok(PushOutcome::Queued));
    assert_eq!(counter.wakes.load(Ordering::SeqCst), 0);
}

#[test]
fn dropped_push_wakes_nobody() {
    let (counter, waker) = counting_waker();
    let mut queue = ready_queue(1);
    assert_eq!(queue.push(1), Ok(PushOutcome::Queued));
    assert_eq!(queue.register(&waker), Ok(()));
    assert_eq!(queue.push(2), Ok(PushOutcome::Dropped));
    assert_eq!(counter.wakes.load(Ordering::SeqCst), 0);
    assert_eq!(queue.recheck(), Ok(Polled::Ready(1)));
}
