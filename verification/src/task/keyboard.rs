//! The keyboard: its scancode queue and the stream that drains it.
use crate::task::event_queue::{EventQueue, Polled, PushOutcome, QueueError, QueueState};
use core::task::Waker;
use vstd::prelude::*;

verus! {

/// Number of scancodes that the keyboard queue holds.
pub const SCANCODE_QUEUE_SIZE: usize = 100;

/// Hands one scancode from the keyboard interrupt to the queue. A full
/// queue drops it, and the outcome says so, for the caller to log. A queue
/// that is not initialized refuses it.
pub fn add_scancode(queue: &mut EventQueue, scancode: u8) -> (r: Result<PushOutcome, QueueError>)
    requires
        old(queue).wf(),
    ensures
        final(queue).wf(),
        r == old(queue)@.push_outcome(),
        final(queue)@ == old(queue)@.after_push(scancode),
{
    queue.push(scancode)
}

/// The consumer's end of the keyboard queue. Making one initializes the
/// queue, so there is at most one per queue.
pub struct ScancodeStream {
    _private: (),
}

impl ScancodeStream {
    /// Initializes the keyboard queue with room for `SCANCODE_QUEUE_SIZE`
    /// scancodes and returns the stream over it. A queue that was initialized
    /// before is refused and left as it was.
    pub fn new(queue: &mut EventQueue) -> (r: Result<ScancodeStream, QueueError>)
        requires
            old(queue).wf(),
        ensures
            final(queue).wf(),
            r is Ok <==> !old(queue)@.initialized,
            r is Ok ==> final(queue)@ == (QueueState {
                initialized: true,
                capacity: SCANCODE_QUEUE_SIZE as nat,
                items: Seq::empty(),
                armed: old(queue)@.armed,
            }),
            r matches Err(e) ==> e == QueueError::AlreadyInitialized && final(queue)@ == old(
                queue,
            )@,
    {
        match queue.init(SCANCODE_QUEUE_SIZE) {
            Ok(()) => Ok(ScancodeStream { _private: () }),
            Err(e) => Err(e),
        }
    }

    /// One poll of the stream: the oldest scancode if one waits, else
    /// `Pending` with `waker` registered. The queue is looked at a second
    /// time after registering, so a scancode pushed in between is not missed.
    pub fn poll_next(&mut self, queue: &mut EventQueue, waker: &Waker) -> (r: Result<
        Polled,
        QueueError,
    >)
        requires
            old(queue).wf(),
        ensures
            final(queue).wf(),
            !old(queue)@.initialized ==> r == Err::<Polled, QueueError>(QueueError::NotInitialized)
                && final(queue)@ == old(queue)@,
            old(queue)@.initialized ==> r == Ok::<Polled, QueueError>(old(queue)@.polled())
                && final(queue)@ == old(queue)@.after_poll(),
    {
        queue.poll_next(waker)
    }
}

} // verus!
