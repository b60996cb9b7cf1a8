//! A bounded queue of raw bytes paired with one waker: filled from interrupt
//! context, drained by one polled consumer.
use core::task::Waker;
use crossbeam_queue::ArrayQueue;
use futures_util::task::AtomicWaker;
use vstd::prelude::*;

verus! {

/// `crossbeam_queue::ArrayQueue`, a bounded queue. Nothing is known of what
/// is inside it but what the functions below say.
#[verifier::external_type_specification]
#[verifier::external_body]
#[verifier::reject_recursive_types(T)]
pub struct ExArrayQueue<T>(ArrayQueue<T>);

/// `futures_util::task::AtomicWaker`, a slot for one waker. Nothing is known
/// of what is inside it but what the functions below say.
#[verifier::external_type_specification]
#[verifier::external_body]
pub struct ExAtomicWaker(AtomicWaker);

/// `core::task::Waker`, the handle that marks a task to be polled again. It
/// is only passed on.
#[verifier::external_type_specification]
#[verifier::external_body]
pub struct ExWaker(Waker);

/// The bytes that a queue holds, oldest first.
pub uninterp spec fn queue_items(queue: ArrayQueue<u8>) -> Seq<u8>;

/// The number of bytes that a queue was made to hold.
pub uninterp spec fn queue_capacity(queue: ArrayQueue<u8>) -> nat;

/// Whether a waker slot holds a waker.
pub uninterp spec fn waker_armed(slot: AtomicWaker) -> bool;

/// The largest capacity that an event queue may be given. `ArrayQueue::new`
/// panics on a capacity whose successor has no power of two above it, and
/// the allocation of its slots panics when they take more bytes than
/// `isize::MAX`; a slot of a byte queue takes two machine words, sixteen
/// bytes at most.
pub const MAX_QUEUE_CAPACITY: usize = usize::MAX / 32;

/// `ArrayQueue::new`, which panics on a capacity of zero and on one above
/// `MAX_QUEUE_CAPACITY`: the new queue is empty and has the capacity asked
/// for.
#[verifier::external_body]
fn queue_new(capacity: usize) -> (queue: ArrayQueue<u8>)
    requires
        0 < capacity <= MAX_QUEUE_CAPACITY,
    ensures
        queue_items(queue) == Seq::<u8>::empty(),
        queue_capacity(queue) == capacity,
{
    ArrayQueue::new(capacity)
}

/// `ArrayQueue::push` on a queue that nobody else touches meanwhile: a queue
/// with room takes the byte at its end; a full queue gives the byte back and
/// stays as it was.
#[verifier::external_body]
fn queue_push(queue: &mut ArrayQueue<u8>, value: u8) -> (r: Result<(), u8>)
    ensures
        queue_capacity(*final(queue)) == queue_capacity(*old(queue)),
        r is Ok <==> queue_items(*old(queue)).len() < queue_capacity(*old(queue)),
        r is Ok ==> queue_items(*final(queue)) == queue_items(*old(queue)).push(value),
        r is Err ==> r->Err_0 == value && queue_items(*final(queue)) == queue_items(*old(queue)),
{
    queue.push(value)
}

/// `ArrayQueue::pop` on a queue that nobody else touches meanwhile: the
/// oldest byte leaves and is returned; an empty queue returns `None`.
#[verifier::external_body]
fn queue_pop(queue: &mut ArrayQueue<u8>) -> (r: Option<u8>)
    ensures
        queue_capacity(*final(queue)) == queue_capacity(*old(queue)),
        r is Some <==> queue_items(*old(queue)).len() > 0,
        r is Some ==> r->Some_0 == queue_items(*old(queue))[0],
        r is Some ==> queue_items(*final(queue)) == queue_items(*old(queue)).drop_first(),
        r is None ==> queue_items(*final(queue)) == queue_items(*old(queue)),
{
    queue.pop()
}

/// `AtomicWaker::new`: a slot without a waker.
#[verifier::external_body]
fn waker_slot_new() -> (slot: AtomicWaker)
    ensures
        !waker_armed(slot),
{
    AtomicWaker::new()
}

/// `AtomicWaker::register` on a slot that nobody else touches meanwhile:
/// afterwards the slot holds a waker.
#[verifier::external_body]
fn waker_slot_register(slot: &mut AtomicWaker, waker: &Waker)
    ensures
        waker_armed(*final(slot)),
{
    slot.register(waker)
}

/// `AtomicWaker::wake`: the waker, if the slot holds one, is taken out and
/// woken; afterwards the slot is empty.
#[verifier::external_body]
fn waker_slot_wake(slot: &mut AtomicWaker)
    ensures
        !waker_armed(*final(slot)),
{
    slot.wake()
}

/// `AtomicWaker::take` on a slot that nobody else touches meanwhile: the
/// waker, if the slot holds one, is taken out without being woken;
/// afterwards the slot is empty.
#[verifier::external_body]
fn waker_slot_take(slot: &mut AtomicWaker) -> (taken: Option<Waker>)
    ensures
        taken is Some <==> waker_armed(*old(slot)),
        !waker_armed(*final(slot)),
{
    slot.take()
}

/// What became of a byte offered to a ready queue.
#[derive(Clone, Copy, Debug, PartialEq, Eq, Structural)]
pub enum PushOutcome {
    /// The byte is in the queue and the consumer was woken.
    Queued,
    /// The queue was full; the byte was dropped.
    Dropped,
}

/// What a poll of the queue found.
#[derive(Clone, Copy, Debug, PartialEq, Eq, Structural)]
pub enum Polled {
    /// The oldest byte, now removed from the queue.
    Ready(u8),
    /// Nothing yet; the waker is registered.
    Pending,
}

/// Why the queue refused an operation.
#[derive(Clone, Copy, Debug, PartialEq, Eq, Structural)]
pub enum QueueError {
    /// The queue was initialized before.
    AlreadyInitialized,
    /// The queue was not initialized yet.
    NotInitialized,
    /// The capacity is zero or above `MAX_QUEUE_CAPACITY`.
    BadCapacity,
}

/// What an event queue stands for.
pub struct QueueState {
    /// Whether the queue went from uninitialized to ready.
    pub initialized: bool,
    /// How many bytes the queue holds at most.
    pub capacity: nat,
    /// The bytes waiting, oldest first.
    pub items: Seq<u8>,
    /// Whether a consumer's waker is registered and not yet fired.
    pub armed: bool,
}

impl QueueState {
    /// The invariant of the model.
    pub open spec fn wf(self) -> bool {
        if self.initialized {
            0 < self.capacity && self.items.len() <= self.capacity
        } else {
            self.capacity == 0 && self.items.len() == 0
        }
    }

    /// What becomes of a byte pushed in this state. A queue that is not
    /// initialized refuses it.
    pub open spec fn push_outcome(self) -> Result<PushOutcome, QueueError> {
        if !self.initialized {
            Err(QueueError::NotInitialized)
        } else if self.items.len() >= self.capacity {
            Ok(PushOutcome::Dropped)
        } else {
            Ok(PushOutcome::Queued)
        }
    }

    /// What a use of the queue answers that needs it to be ready.
    pub open spec fn ready(self) -> Result<(), QueueError> {
        if self.initialized {
            Ok(())
        } else {
            Err(QueueError::NotInitialized)
        }
    }

    /// The state after a push: a byte that is taken goes to the end and
    /// fires the waker; a byte that is dropped or refused changes nothing.
    pub open spec fn after_push(self, byte: u8) -> QueueState {
        if self.push_outcome() == Ok::<PushOutcome, QueueError>(PushOutcome::Queued) {
            QueueState { items: self.items.push(byte), armed: false, ..self }
        } else {
            self
        }
    }

    /// The oldest byte, if there is one.
    pub open spec fn front(self) -> Option<u8> {
        if self.items.len() > 0 {
            Some(self.items[0])
        } else {
            None
        }
    }

    /// The state after a pop.
    pub open spec fn after_pop(self) -> QueueState {
        if self.items.len() > 0 {
            QueueState { items: self.items.drop_first(), ..self }
        } else {
            self
        }
    }

    /// The state after the consumer registered its waker. A queue that is
    /// not initialized takes none.
    pub open spec fn after_register(self) -> QueueState {
        if self.initialized {
            QueueState { armed: true, ..self }
        } else {
            self
        }
    }

    /// The state after the consumer looked again, having registered: a byte
    /// found is taken and the waker withdrawn.
    pub open spec fn after_recheck(self) -> QueueState {
        if self.items.len() > 0 {
            QueueState { items: self.items.drop_first(), armed: false, ..self }
        } else {
            self
        }
    }

    /// What a look at the queue reports.
    pub open spec fn polled(self) -> Polled {
        match self.front() {
            Some(byte) => Polled::Ready(byte),
            None => Polled::Pending,
        }
    }

    /// The state after a whole poll: look, register, look again.
    pub open spec fn after_poll(self) -> QueueState {
        if self.items.len() > 0 {
            self.after_pop()
        } else {
            self.after_register().after_recheck()
        }
    }
}

/// A bounded byte queue with its waker slot. It starts uninitialized and is
/// made ready exactly once.
pub struct EventQueue {
    queue: Option<ArrayQueue<u8>>,
    waker: AtomicWaker,
}

impl View for EventQueue {
    type V = QueueState;

    closed spec fn view(&self) -> QueueState {
        match self.queue {
            Some(queue) => QueueState {
                initialized: true,
                capacity: queue_capacity(queue),
                items: queue_items(queue),
                armed: waker_armed(self.waker),
            },
            None => QueueState {
                initialized: false,
                capacity: 0,
                items: Seq::empty(),
                armed: waker_armed(self.waker),
            },
        }
    }
}

impl EventQueue {
    /// The invariant of the queue.
    pub open spec fn wf(&self) -> bool {
        self@.wf()
    }

    /// A queue that is not initialized yet and has no waker.
    pub fn uninit() -> (queue: EventQueue)
        ensures
            queue.wf(),
            queue@ == (QueueState {
                initialized: false,
                capacity: 0,
                items: Seq::empty(),
                armed: false,
            }),
    {
        EventQueue { queue: None, waker: waker_slot_new() }
    }

    /// Makes the queue ready with room for `capacity` bytes. This happens at
    /// most once: a second attempt is refused, and so is a capacity of zero
    /// or above `MAX_QUEUE_CAPACITY`. A refusal changes nothing.
    pub fn init(&mut self, capacity: usize) -> (r: Result<(), QueueError>)
        requires
            old(self).wf(),
        ensures
            final(self).wf(),
            r == (if old(self)@.initialized {
                Err::<(), QueueError>(QueueError::AlreadyInitialized)
            } else if capacity == 0 || capacity > MAX_QUEUE_CAPACITY {
                Err::<(), QueueError>(QueueError::BadCapacity)
            } else {
                Ok::<(), QueueError>(())
            }),
            r is Ok ==> final(self)@ == (QueueState {
                initialized: true,
                capacity: capacity as nat,
                items: Seq::empty(),
                armed: old(self)@.armed,
            }),
            r is Err ==> final(self)@ == old(self)@,
    {
        if self.queue.is_some() {
            return Err(QueueError::AlreadyInitialized);
        }
        if capacity == 0 || capacity > MAX_QUEUE_CAPACITY {
            return Err(QueueError::BadCapacity);
        }
        self.queue = Some(queue_new(capacity));
        Ok(())
    }

    /// Whether the queue was made ready.
    pub fn is_initialized(&self) -> (b: bool)
        ensures
            b == self@.initialized,
    {
        self.queue.is_some()
    }

    /// Offers a byte to the queue without ever blocking. A ready queue with
    /// room takes it and wakes the consumer; a full queue drops it and stays
    /// as it was. A queue that is not initialized refuses it: that is a
    /// fault of the caller, not a full queue.
    pub fn push(&mut self, byte: u8) -> (r: Result<PushOutcome, QueueError>)
        requires
            old(self).wf(),
        ensures
            final(self).wf(),
            r == old(self)@.push_outcome(),
            final(self)@ == old(self)@.after_push(byte),
    {
        match &mut self.queue {
            None => Err(QueueError::NotInitialized),
            Some(queue) => {
                match queue_push(queue, byte) {
                    Err(_) => Ok(PushOutcome::Dropped),
                    Ok(()) => {
                        waker_slot_wake(&mut self.waker);
                        Ok(PushOutcome::Queued)
                    },
                }
            },
        }
    }

    /// Takes the oldest byte out without blocking; `None` means that the
    /// queue is empty. A queue that is not initialized refuses.
    pub fn pop(&mut self) -> (r: Result<Option<u8>, QueueError>)
        requires
            old(self).wf(),
        ensures
            final(self).wf(),
            r == (match old(self)@.ready() {
                Ok(_) => Ok::<Option<u8>, QueueError>(old(self)@.front()),
                Err(e) => Err::<Option<u8>, QueueError>(e),
            }),
            final(self)@ == old(self)@.after_pop(),
    {
        match &mut self.queue {
            None => Err(QueueError::NotInitialized),
            Some(queue) => Ok(queue_pop(queue)),
        }
    }

    /// Registers the consumer's waker, replacing any earlier one. A queue
    /// that is not initialized refuses and takes none.
    pub fn register(&mut self, waker: &Waker) -> (r: Result<(), QueueError>)
        requires
            old(self).wf(),
        ensures
            final(self).wf(),
            r == old(self)@.ready(),
            final(self)@ == old(self)@.after_register(),
    {
        if self.queue.is_none() {
            return Err(QueueError::NotInitialized);
        }
        waker_slot_register(&mut self.waker, waker);
        Ok(())
    }

    /// Looks at the queue again after registering: a byte that arrived in
    /// the meantime is taken and the waker withdrawn, so that no wakeup is
    /// lost between the first look and the registration. A queue that is not
    /// initialized refuses.
    pub fn recheck(&mut self) -> (r: Result<Polled, QueueError>)
        requires
            old(self).wf(),
        ensures
            final(self).wf(),
            r == (match old(self)@.ready() {
                Ok(_) => Ok::<Polled, QueueError>(old(self)@.polled()),
                Err(e) => Err::<Polled, QueueError>(e),
            }),
            final(self)@ == old(self)@.after_recheck(),
    {
        match self.pop() {
            Err(e) => Err(e),
            Ok(Some(byte)) => {
                let _ = waker_slot_take(&mut self.waker);
                Ok(Polled::Ready(byte))
            },
            Ok(None) => Ok(Polled::Pending),
        }
    }

    /// One poll of the consumer: look, and if nothing is there register the
    /// waker and look again. A queue that is not initialized refuses and
    /// stays as it was.
    pub fn poll_next(&mut self, waker: &Waker) -> (r: Result<Polled, QueueError>)
        requires
            old(self).wf(),
        ensures
            final(self).wf(),
            !old(self)@.initialized ==> r == Err::<Polled, QueueError>(QueueError::NotInitialized)
                && final(self)@ == old(self)@,
            old(self)@.initialized ==> r == Ok::<Polled, QueueError>(old(self)@.polled())
                && final(self)@ == old(self)@.after_poll(),
    {
        match self.pop() {
            Err(e) => {
                return Err(e);
            },
            Ok(Some(byte)) => {
                return Ok(Polled::Ready(byte));
            },
            Ok(None) => {},
        }
        match self.register(waker) {
            Err(e) => Err(e),
            Ok(()) => self.recheck(),
        }
    }
}

/// The state after pushing `bytes` one by one, first byte first.
pub open spec fn after_pushes(state: QueueState, bytes: Seq<u8>) -> QueueState
    decreases bytes.len(),
{
    if bytes.len() == 0 {
        state
    } else {
        after_pushes(state, bytes.drop_last()).after_push(bytes.last())
    }
}

/// The state after `count` pops.
pub open spec fn after_pops(state: QueueState, count: nat) -> QueueState
    decreases count,
{
    if count == 0 {
        state
    } else {
        after_pops(state, (count - 1) as nat).after_pop()
    }
}

/// The first `limit` items of a sequence, or all of it if it is shorter.
pub open spec fn truncated(items: Seq<u8>, limit: nat) -> Seq<u8> {
    if items.len() <= limit {
        items
    } else {
        items.take(limit as int)
    }
}

/// Pushing a run of bytes appends them in order as far as there is room and
/// drops the rest; what was in the queue stays in front.
pub proof fn law_pushes_append_up_to_capacity(state: QueueState, bytes: Seq<u8>)
    requires
        state.wf(),
        state.initialized,
    ensures
        after_pushes(state, bytes).wf(),
        after_pushes(state, bytes).initialized,
        after_pushes(state, bytes).capacity == state.capacity,
        after_pushes(state, bytes).items == truncated(state.items + bytes, state.capacity),
    decreases bytes.len(),
{
    if bytes.len() == 0 {
        assert(state.items + bytes == state.items);
    } else {
        let shorter = bytes.drop_last();
        law_pushes_append_up_to_capacity(state, shorter);
        assert(state.items + bytes == (state.items + shorter).push(bytes.last()));
        let before = after_pushes(state, shorter);
        if before.push_outcome() == Ok::<PushOutcome, QueueError>(PushOutcome::Queued) {
        } else {
            assert((state.items + bytes).take(state.capacity as int) == before.items);
        }
    }
}

/// Popping takes the bytes out oldest first.
pub proof fn law_pops_take_oldest_first(state: QueueState, count: nat)
    requires
        state.wf(),
        count <= state.items.len(),
    ensures
        after_pops(state, count).items == state.items.skip(count as int),
        count < state.items.len() ==> after_pops(state, count).front() == Some(
            state.items[count as int],
        ),
        count == state.items.len() ==> after_pops(state, count).front() is None,
    decreases count,
{
    if count == 0 {
        assert(state.items.skip(0) == state.items);
    } else {
        law_pops_take_oldest_first(state, (count - 1) as nat);
        assert(state.items.skip(count - 1).drop_first() == state.items.skip(count as int));
    }
}

/// Bytes pushed into an empty queue that has room for all of them come out
/// in the order in which they went in.
pub proof fn law_queue_is_fifo(state: QueueState, bytes: Seq<u8>, k: int)
    requires
        state.wf(),
        state.initialized,
        state.items.len() == 0,
        bytes.len() <= state.capacity,
        0 <= k < bytes.len(),
    ensures
        after_pushes(state, bytes).items == bytes,
        after_pops(after_pushes(state, bytes), k as nat).front() == Some(bytes[k]),
        after_pops(after_pushes(state, bytes), bytes.len()).items.len() == 0,
{
    law_pushes_append_up_to_capacity(state, bytes);
    assert(state.items + bytes == bytes);
    law_pops_take_oldest_first(after_pushes(state, bytes), k as nat);
    law_pops_take_oldest_first(after_pushes(state, bytes), bytes.len());
}

/// One byte more than an empty queue has room for: the last byte is dropped
/// and the bytes before it stay, in order.
pub proof fn law_overflow_drops_the_last(state: QueueState, bytes: Seq<u8>)
    requires
        state.wf(),
        state.initialized,
        state.items.len() == 0,
        bytes.len() == state.capacity + 1,
    ensures
        after_pushes(state, bytes.drop_last()).push_outcome() == Ok::<PushOutcome, QueueError>(
            PushOutcome::Dropped,
        ),
        after_pushes(state, bytes).items == bytes.drop_last(),
{
    law_pushes_append_up_to_capacity(state, bytes);
    law_pushes_append_up_to_capacity(state, bytes.drop_last());
    assert(state.items + bytes == bytes);
    assert(state.items + bytes.drop_last() == bytes.drop_last());
    assert(bytes.take(state.capacity as int) == bytes.drop_last());
}

/// No wakeup is lost. A consumer that found the queue empty registers its
/// waker and looks again. Whether the producer's push falls after the
/// registration or between the first look and the registration, the second
/// look finds the byte; and a push that falls after the registration fires
/// the waker.
pub proof fn law_no_lost_wakeup(state: QueueState, byte: u8)
    requires
        state.wf(),
        state.initialized,
        state.items.len() == 0,
    ensures
        state.after_register().after_push(byte).polled() == Polled::Ready(byte),
        !state.after_register().after_push(byte).armed,
        state.after_push(byte).after_register().polled() == Polled::Ready(byte),
        state.after_push(byte).after_register().after_recheck().items.len() == 0,
        state.after_register().after_push(byte).after_recheck().items.len() == 0,
{
    assert(state.items.push(byte).drop_first() == Seq::<u8>::empty());
}

} // verus!
