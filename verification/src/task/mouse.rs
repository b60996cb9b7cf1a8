//! The mouse: its packet queue, the stream that drains it, and the pointer
//! state that the decoded packets drive.
use crate::task::event_queue::{EventQueue, Polled, PushOutcome, QueueError, QueueState};
use core::task::Waker;
use vstd::prelude::*;

verus! {

/// Number of packet bytes that the mouse queue holds.
pub const MOUSE_QUEUE_SIZE: usize = 200;

/// Hands one packet byte from the mouse interrupt to the queue. A full
/// queue drops it, and the outcome says so, for the caller to log. A queue
/// that is not initialized refuses it.
pub fn add_packet(queue: &mut EventQueue, packet: u8) -> (r: Result<PushOutcome, QueueError>)
    requires
        old(queue).wf(),
    ensures
        final(queue).wf(),
        r == old(queue)@.push_outcome(),
        final(queue)@ == old(queue)@.after_push(packet),
{
    queue.push(packet)
}

/// The consumer's end of the mouse queue. Making one initializes the queue,
/// so there is at most one per queue.
pub struct PacketStream {
    _private: (),
}

impl PacketStream {
    /// Initializes the mouse queue with room for `MOUSE_QUEUE_SIZE` bytes and
    /// returns the stream over it. A queue that was initialized before is
    /// refused and left as it was.
    pub fn new(queue: &mut EventQueue) -> (r: Result<PacketStream, QueueError>)
        requires
            old(queue).wf(),
        ensures
            final(queue).wf(),
            r is Ok <==> !old(queue)@.initialized,
            r is Ok ==> final(queue)@ == (QueueState {
                initialized: true,
                capacity: MOUSE_QUEUE_SIZE as nat,
                items: Seq::empty(),
                armed: old(queue)@.armed,
            }),
            r matches Err(e) ==> e == QueueError::AlreadyInitialized && final(queue)@ == old(
                queue,
            )@,
    {
        match queue.init(MOUSE_QUEUE_SIZE) {
            Ok(()) => Ok(PacketStream { _private: () }),
            Err(e) => Err(e),
        }
    }

    /// One poll of the stream: the oldest packet byte if one waits, else
    /// `Pending` with `waker` registered. The queue is looked at a second
    /// time after registering, so a byte pushed in between is not missed.
    pub fn poll_next(&mut self, queue: &mut EventQueue, waker: &Waker) -> (r: Result<
        Polled,
        QueueError,
    >)
        requires
            old(queue).wf(),
        ensures
            final(queue).wf(),
            !old(queue)@.initialized ==> r == Err::<Polled, QueueError>(QueueError::NotInitialized)
                && final(queue)@ == old(queue)@,
            old(queue)@.initialized ==> r == Ok::<Polled, QueueError>(old(queue)@.polled())
                && final(queue)@ == old(queue)@.after_poll(),
    {
        queue.poll_next(waker)
    }
}

/// One decoded mouse packet: the buttons held and the movement since the
/// packet before, with `dy` counted upwards as the device reports it.
#[derive(Clone, Copy, Debug, PartialEq, Eq, Structural)]
pub struct MouseReport {
    /// Whether the left button is held.
    pub left: bool,
    /// Whether the right button is held.
    pub right: bool,
    /// Movement to the right, in pixels.
    pub dx: i16,
    /// Movement upwards, in pixels.
    pub dy: i16,
}

/// Keeps `value` inside `0..=last`.
pub open spec fn clamped(value: int, last: int) -> int {
    if value < 0 {
        0
    } else if value > last {
        last
    } else {
        value
    }
}

/// The pointer: where it stands on a screen of a given size and which
/// buttons are held.
#[derive(Clone, Copy, Debug, PartialEq, Eq, Structural)]
pub struct MousePointer {
    x: usize,
    y: usize,
    width: usize,
    height: usize,
    left: bool,
    right: bool,
}

impl MousePointer {
    /// The invariant: the pointer stands on the screen.
    pub closed spec fn wf(self) -> bool {
        self.x < self.width && self.y < self.height
    }

    /// Column of the pointer, counted from the left edge.
    pub closed spec fn spec_x(self) -> int {
        self.x as int
    }

    /// Row of the pointer, counted from the top edge.
    pub closed spec fn spec_y(self) -> int {
        self.y as int
    }

    /// Width of the screen in pixels.
    pub closed spec fn spec_width(self) -> int {
        self.width as int
    }

    /// Height of the screen in pixels.
    pub closed spec fn spec_height(self) -> int {
        self.height as int
    }

    /// Whether the left button is held.
    pub closed spec fn spec_left(self) -> bool {
        self.left
    }

    /// Whether the right button is held.
    pub closed spec fn spec_right(self) -> bool {
        self.right
    }

    /// A pointer in the middle of a screen of `width` by `height` pixels,
    /// with no button held. A screen without pixels has no pointer.
    pub fn new(width: usize, height: usize) -> (r: Option<MousePointer>)
        ensures
            r is Some <==> width > 0 && height > 0,
            r matches Some(p) ==> p.wf() && p.spec_width() == width && p.spec_height() == height
                && p.spec_x() == width / 2 && p.spec_y() == height / 2 && !p.spec_left()
                && !p.spec_right(),
    {
        if width == 0 || height == 0 {
            None
        } else {
            Some(
                MousePointer {
                    x: width / 2,
                    y: height / 2,
                    width,
                    height,
                    left: false,
                    right: false,
                },
            )
        }
    }

    /// Applies one report: the pointer moves by `dx` to the right and by `dy`
    /// up, stopping at the edges of the screen, and takes the buttons over.
    pub fn apply(&mut self, report: MouseReport)
        requires
            old(self).wf(),
        ensures
            final(self).wf(),
            final(self).spec_width() == old(self).spec_width(),
            final(self).spec_height() == old(self).spec_height(),
            final(self).spec_x() == clamped(
                old(self).spec_x() + report.dx,
                old(self).spec_width() - 1,
            ),
            final(self).spec_y() == clamped(
                old(self).spec_y() - report.dy,
                old(self).spec_height() - 1,
            ),
            final(self).spec_left() == report.left,
            final(self).spec_right() == report.right,
    {
        self.x = moved(self.x, report.dx as i32, self.width);
        self.y = moved(self.y, -(report.dy as i32), self.height);
        self.left = report.left;
        self.right = report.right;
    }

    /// Column of the pointer, counted from the left edge.
    pub fn x(&self) -> (x: usize)
        ensures
            x == self.spec_x(),
    {
        self.x
    }

    /// Row of the pointer, counted from the top edge.
    pub fn y(&self) -> (y: usize)
        ensures
            y == self.spec_y(),
    {
        self.y
    }

    /// Whether the left button is held.
    pub fn left_button_down(&self) -> (b: bool)
        ensures
            b == self.spec_left(),
    {
        self.left
    }

    /// Whether the right button is held.
    pub fn right_button_down(&self) -> (b: bool)
        ensures
            b == self.spec_right(),
    {
        self.right
    }
}

/// `position` moved by `delta` along an axis of `extent` pixels, stopping at
/// both ends.
fn moved(position: usize, delta: i32, extent: usize) -> (r: usize)
    requires
        position < extent,
        -32768 <= delta <= 32768,
    ensures
        r == clamped(position + delta, extent - 1),
{
    if delta < 0 {
        let back: usize = (-delta) as usize;
        if back > position {
            0
        } else {
            position - back
        }
    } else {
        let forward: usize = delta as usize;
        if forward >= extent - position {
            extent - 1
        } else {
            position + forward
        }
    }
}

} // verus!
