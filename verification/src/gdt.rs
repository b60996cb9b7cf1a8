//! The global descriptor table and the task-state segment. Building and
//! loading them is the binary's part; what the rest of the kernel needs to
//! know of them is stated here.
use vstd::prelude::*;

verus! {

/// Index of the double fault's stack in the interrupt stack table.
pub const DOUBLE_FAULT_IST_INDEX: u16 = 0;

/// Number of entries of the interrupt stack table.
pub const IST_ENTRIES: u16 = 7;

/// Size in bytes of the double fault's stack: five pages.
pub const DOUBLE_FAULT_STACK_SIZE: usize = 20480;

/// The address that the interrupt stack table holds for a stack of `size`
/// bytes that starts at `stack_start`: the end of the stack, from which it
/// grows downwards. `None` means that the stack would end beyond the last
/// address.
pub fn stack_top(stack_start: u64, size: usize) -> (top: Option<u64>)
    ensures
        top == (if stack_start + size <= u64::MAX {
            Some((stack_start + size) as u64)
        } else {
            None
        }),
{
    let size: u64 = size as u64;
    if size > u64::MAX - stack_start {
        None
    } else {
        Some(stack_start + size)
    }
}

} // verus!
