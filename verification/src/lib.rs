//! Early-boot core of a bare-metal x86-64 kernel: physical and virtual memory
//! management, firmware-table reading, interrupt-controller configuration,
//! interrupt-fed event queues and a cooperative task executor.
//!
//! Everything here is plain computation on plain values; touching hardware is
//! left to the binary built around this library.
//!
//! - [`memory`]: addresses, the frame allocator, the page tables.
//! - [`allocator`]: where the heap lives and how it is backed.
//! - [`acpi`]: the firmware's tables of processors and interrupt controllers.
//! - [`interrupts`]: vectors, the dispatch table, the controllers' set-up,
//!   and what each handler decides.
//! - [`task`]: the event queues of keyboard and mouse, and the executor.
//! - [`frame_buffer`]: text on the screen.
//! - [`boot`], [`gdt`], [`once`]: the boot order and what goes with it.
use vstd::prelude::*;

pub mod acpi;
pub mod allocator;
pub mod boot;
pub mod frame_buffer;
pub mod gdt;
pub mod interrupts;
pub mod memory;
pub mod once;
pub mod task;

verus! {

/// Runs the kernel's own tests. The kernel has none of its own: its logic is
/// tested from outside.
pub fn test_runner<F: Fn()>(tests: &[F]) {
}

} // verus!
