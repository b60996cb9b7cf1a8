//! What the handlers bound in the kernel's dispatch table decide. Reading
//! the device's port before, and writing the diagnosis and signalling the
//! end of the interrupt after, are the binary's part.
use crate::interrupts::exception_handlers::{
    Diagnosis, Disposition, Exception, InterruptStackFrame,
};
use crate::task::event_queue::{EventQueue, PushOutcome, QueueError};
use crate::task::keyboard::add_scancode;
use crate::task::mouse::add_packet;
use vstd::prelude::*;

verus! {

/// The port from which the bytes of keyboard and mouse are read.
pub const PS2_DATA_PORT: u16 = 0x60;

/// What a device interrupt's handler did and what is left to do.
#[derive(Clone, Copy, Debug, PartialEq, Eq, Structural)]
pub struct Handled {
    /// What became of the byte that the device delivered, if it delivered
    /// one.
    pub queued: Option<PushOutcome>,
    /// Whether the end of the interrupt must be signalled to the local APIC
    /// before the handler returns. Without it the line stays blocked.
    pub end_of_interrupt: bool,
}

/// Breakpoint: report and go on.
pub fn breakpoint_handler(stack_frame: InterruptStackFrame) -> (d: Diagnosis)
    ensures
        d == (Diagnosis {
            exception: Exception::Breakpoint,
            stack_frame,
            error_code: None,
            accessed_address: None,
            disposition: Disposition::Resume,
        }),
{
    crate::interrupts::exception_handlers::breakpoint_handler(stack_frame)
}

/// Double fault: fatal.
pub fn double_fault_handler(stack_frame: InterruptStackFrame, error_code: u64) -> (d: Diagnosis)
    ensures
        d == (Diagnosis {
            exception: Exception::DoubleFault,
            stack_frame,
            error_code: None,
            accessed_address: None,
            disposition: Disposition::Panic,
        }),
{
    crate::interrupts::exception_handlers::double_fault_handler(stack_frame, error_code)
}

/// Page fault: reported with the address whose access faulted, then the
/// processor is parked.
pub fn page_fault_handler(stack_frame: InterruptStackFrame, error_code: u64, accessed_address: u64) -> (d:
    Diagnosis)
    ensures
        d == (Diagnosis {
            exception: Exception::PageFault,
            stack_frame,
            error_code: Some(error_code),
            accessed_address: Some(accessed_address),
            disposition: Disposition::Halt,
        }),
{
    crate::interrupts::exception_handlers::page_fault_handler(
        stack_frame,
        error_code,
        accessed_address,
    )
}

/// What the local APIC reports of an error inside it.
#[derive(Clone, Copy, Debug, PartialEq, Eq, Structural)]
pub struct ApicFailure {
    /// The bits of the error status register.
    pub error_flags: u8,
}

/// An error inside the local APIC: fatal. `error_flags` is what the error
/// status register held; the kernel panics with it, and no end of interrupt
/// is signalled.
pub fn apic_error_handler(_stack_frame: InterruptStackFrame, error_flags: u8) -> (failure: ApicFailure)
    ensures
        failure == (ApicFailure { error_flags }),
{
    ApicFailure { error_flags }
}

/// The timer: nothing to do but to signal the end of the interrupt.
pub fn timer_interrupt_handler(_stack_frame: InterruptStackFrame) -> (h: Handled)
    ensures
        h == (Handled { queued: None, end_of_interrupt: true }),
{
    Handled { queued: None, end_of_interrupt: true }
}

/// What a device handler answers when its byte went to `queue` in `state`:
/// the end of the interrupt is signalled whether the byte was taken or
/// dropped; a queue that is not initialized is a fatal fault.
pub open spec fn handled(state: crate::task::event_queue::QueueState) -> Result<Handled, QueueError> {
    match state.push_outcome() {
        Ok(outcome) => Ok(Handled { queued: Some(outcome), end_of_interrupt: true }),
        Err(e) => Err(e),
    }
}

/// The keyboard: the scancode read from the data port goes to the keyboard
/// queue, whose consumer is woken; then the end of the interrupt is
/// signalled, whether the scancode was taken or dropped. A queue that is not
/// initialized is refused, which is fatal.
pub fn keyboard_interrupt_handler(
    _stack_frame: InterruptStackFrame,
    scancode: u8,
    queue: &mut EventQueue,
) -> (r: Result<Handled, QueueError>)
    requires
        old(queue).wf(),
    ensures
        final(queue).wf(),
        final(queue)@ == old(queue)@.after_push(scancode),
        r == handled(old(queue)@),
{
    match add_scancode(queue, scancode) {
        Ok(outcome) => Ok(Handled { queued: Some(outcome), end_of_interrupt: true }),
        Err(e) => Err(e),
    }
}

/// The mouse: the packet byte read from the data port goes to the mouse
/// queue, whose consumer is woken; then the end of the interrupt is
/// signalled, whether the byte was taken or dropped. A queue that is not
/// initialized is refused, which is fatal.
pub fn mouse_interrupt_handler(
    _stack_frame: InterruptStackFrame,
    packet: u8,
    queue: &mut EventQueue,
) -> (r: Result<Handled, QueueError>)
    requires
        old(queue).wf(),
    ensures
        final(queue).wf(),
        final(queue)@ == old(queue)@.after_push(packet),
        r == handled(old(queue)@),
{
    match add_packet(queue, packet) {
        Ok(outcome) => Ok(Handled { queued: Some(outcome), end_of_interrupt: true }),
        Err(e) => Err(e),
    }
}

} // verus!
