//! What the handlers of the processor's exceptions decide. Writing the
//! diagnosis to the screen and halting are the binary's part.
use vstd::prelude::*;

verus! {

/// What the processor pushes before it enters a handler.
#[derive(Clone, Copy, Debug, PartialEq, Eq, Structural)]
pub struct InterruptStackFrame {
    /// Address of the instruction to return to.
    pub instruction_pointer: u64,
    /// Code segment selector.
    pub code_segment: u64,
    /// The flags register.
    pub cpu_flags: u64,
    /// The stack pointer at the time of the interrupt.
    pub stack_pointer: u64,
    /// Stack segment selector.
    pub stack_segment: u64,
}

/// The exceptions that the kernel handles.
#[derive(Clone, Copy, Debug, PartialEq, Eq, Structural)]
pub enum Exception {
    /// Breakpoint.
    Breakpoint,
    /// Non-maskable interrupt.
    NonMaskable,
    /// Division by zero.
    DivideError,
    /// Invalid opcode.
    InvalidOpcode,
    /// General protection fault.
    GeneralProtectionFault,
    /// Stack segment fault.
    StackSegmentFault,
    /// Segment not present.
    SegmentNotPresent,
    /// Page fault.
    PageFault,
    /// Double fault.
    DoubleFault,
}

/// What happens after the diagnosis was written.
#[derive(Clone, Copy, Debug, PartialEq, Eq, Structural)]
pub enum Disposition {
    /// The interrupted code goes on.
    Resume,
    /// The processor is parked for good.
    Halt,
    /// The kernel panics.
    Panic,
}

/// What a handler found and what it decided.
#[derive(Clone, Copy, Debug, PartialEq, Eq, Structural)]
pub struct Diagnosis {
    /// The exception.
    pub exception: Exception,
    /// What the processor pushed.
    pub stack_frame: InterruptStackFrame,
    /// The error code, for the exceptions that have one and report it.
    pub error_code: Option<u64>,
    /// The address whose access faulted, for a page fault.
    pub accessed_address: Option<u64>,
    /// What happens next.
    pub disposition: Disposition,
}

/// What becomes of the interrupted code after an exception: a breakpoint is
/// benign, a page fault parks the processor, everything else is fatal.
pub open spec fn disposition_of(exception: Exception) -> Disposition {
    match exception {
        Exception::Breakpoint => Disposition::Resume,
        Exception::PageFault => Disposition::Halt,
        _ => Disposition::Panic,
    }
}

/// Breakpoint: report and go on.
pub fn breakpoint_handler(stack_frame: InterruptStackFrame) -> (d: Diagnosis)
    ensures
        d == (Diagnosis {
            exception: Exception::Breakpoint,
            stack_frame,
            error_code: None,
            accessed_address: None,
            disposition: Disposition::Resume,
        }),
        d.disposition == disposition_of(d.exception),
{
    Diagnosis {
        exception: Exception::Breakpoint,
        stack_frame,
        error_code: None,
        accessed_address: None,
        disposition: Disposition::Resume,
    }
}

/// Non-maskable interrupt: fatal.
pub fn non_maskable_interrupt_handler(stack_frame: InterruptStackFrame) -> (d: Diagnosis)
    ensures
        d == (Diagnosis {
            exception: Exception::NonMaskable,
            stack_frame,
            error_code: None,
            accessed_address: None,
            disposition: Disposition::Panic,
        }),
        d.disposition == disposition_of(d.exception),
{
    Diagnosis {
        exception: Exception::NonMaskable,
        stack_frame,
        error_code: None,
        accessed_address: None,
        disposition: Disposition::Panic,
    }
}

/// Division by zero: fatal.
pub fn divide_error_handler(stack_frame: InterruptStackFrame) -> (d: Diagnosis)
    ensures
        d == (Diagnosis {
            exception: Exception::DivideError,
            stack_frame,
            error_code: None,
            accessed_address: None,
            disposition: Disposition::Panic,
        }),
        d.disposition == disposition_of(d.exception),
{
    Diagnosis {
        exception: Exception::DivideError,
        stack_frame,
        error_code: None,
        accessed_address: None,
        disposition: Disposition::Panic,
    }
}

/// Invalid opcode: fatal.
pub fn invalid_opcode_handler(stack_frame: InterruptStackFrame) -> (d: Diagnosis)
    ensures
        d == (Diagnosis {
            exception: Exception::InvalidOpcode,
            stack_frame,
            error_code: None,
            accessed_address: None,
            disposition: Disposition::Panic,
        }),
        d.disposition == disposition_of(d.exception),
{
    Diagnosis {
        exception: Exception::InvalidOpcode,
        stack_frame,
        error_code: None,
        accessed_address: None,
        disposition: Disposition::Panic,
    }
}

/// General protection fault: fatal, reported with its error code.
pub fn general_protection_fault_handler(stack_frame: InterruptStackFrame, error_code: u64) -> (d:
    Diagnosis)
    ensures
        d == (Diagnosis {
            exception: Exception::GeneralProtectionFault,
            stack_frame,
            error_code: Some(error_code),
            accessed_address: None,
            disposition: Disposition::Panic,
        }),
        d.disposition == disposition_of(d.exception),
{
    Diagnosis {
        exception: Exception::GeneralProtectionFault,
        stack_frame,
        error_code: Some(error_code),
        accessed_address: None,
        disposition: Disposition::Panic,
    }
}

/// Stack segment fault: fatal, reported with its error code.
pub fn stack_segment_fault_handler(stack_frame: InterruptStackFrame, error_code: u64) -> (d:
    Diagnosis)
    ensures
        d == (Diagnosis {
            exception: Exception::StackSegmentFault,
            stack_frame,
            error_code: Some(error_code),
            accessed_address: None,
            disposition: Disposition::Panic,
        }),
        d.disposition == disposition_of(d.exception),
{
    Diagnosis {
        exception: Exception::StackSegmentFault,
        stack_frame,
        error_code: Some(error_code),
        accessed_address: None,
        disposition: Disposition::Panic,
    }
}

/// Segment not present: fatal, reported with its error code.
pub fn segment_not_present_handler(stack_frame: InterruptStackFrame, error_code: u64) -> (d:
    Diagnosis)
    ensures
        d == (Diagnosis {
            exception: Exception::SegmentNotPresent,
            stack_frame,
            error_code: Some(error_code),
            accessed_address: None,
            disposition: Disposition::Panic,
        }),
        d.disposition == disposition_of(d.exception),
{
    Diagnosis {
        exception: Exception::SegmentNotPresent,
        stack_frame,
        error_code: Some(error_code),
        accessed_address: None,
        disposition: Disposition::Panic,
    }
}

/// Page fault: reported with the address whose access faulted and with the
/// error code, then the processor is parked. `accessed_address` is what the
/// fault address register held.
pub fn page_fault_handler(stack_frame: InterruptStackFrame, error_code: u64, accessed_address: u64) -> (d:
    Diagnosis)
    ensures
        d == (Diagnosis {
            exception: Exception::PageFault,
            stack_frame,
            error_code: Some(error_code),
            accessed_address: Some(accessed_address),
            disposition: Disposition::Halt,
        }),
        d.disposition == disposition_of(d.exception),
{
    Diagnosis {
        exception: Exception::PageFault,
        stack_frame,
        error_code: Some(error_code),
        accessed_address: Some(accessed_address),
        disposition: Disposition::Halt,
    }
}

/// Double fault: fatal. Its error code is always zero and is not reported.
pub fn double_fault_handler(stack_frame: InterruptStackFrame, _error_code: u64) -> (d: Diagnosis)
    ensures
        d == (Diagnosis {
            exception: Exception::DoubleFault,
            stack_frame,
            error_code: None,
            accessed_address: None,
            disposition: Disposition::Panic,
        }),
        d.disposition == disposition_of(d.exception),
{
    Diagnosis {
        exception: Exception::DoubleFault,
        stack_frame,
        error_code: None,
        accessed_address: None,
        disposition: Disposition::Panic,
    }
}

} // verus!
