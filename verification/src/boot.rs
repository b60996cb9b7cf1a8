//! The boot sequence: what the bootloader must hand over, and the order in
//! which the subsystems come up.
use vstd::prelude::*;

verus! {

/// What the bootloader hands over, as far as the kernel decides on it.
#[derive(Clone, Copy, Debug, PartialEq, Eq, Structural)]
pub struct HandOff {
    /// Physical address of the firmware's root pointer, if the bootloader
    /// found one.
    pub rsdp_addr: Option<u64>,
    /// The offset at which all physical memory is mapped, if it is.
    pub physical_memory_offset: Option<u64>,
    /// Whether there is a frame buffer.
    pub has_framebuffer: bool,
}

/// What the kernel boots from.
#[derive(Clone, Copy, Debug, PartialEq, Eq, Structural)]
pub struct BootParameters {
    /// Physical address of the firmware's root pointer.
    pub rsdp_addr: u64,
    /// The offset at which all physical memory is mapped.
    pub physical_memory_offset: u64,
}

/// Why the kernel cannot boot.
#[derive(Clone, Copy, Debug, PartialEq, Eq, Structural)]
pub enum BootError {
    /// The bootloader found no root pointer.
    NoRsdpAddress,
    /// Physical memory is not mapped.
    NoPhysicalMemoryOffset,
    /// There is no frame buffer to write to.
    NoFrameBuffer,
    /// A subsystem was brought up out of turn.
    OutOfOrder,
}

/// What `start` answers.
pub open spec fn boot_parameters(hand_off: HandOff) -> Result<BootParameters, BootError> {
    match hand_off.rsdp_addr {
        None => Err(BootError::NoRsdpAddress),
        Some(rsdp_addr) => match hand_off.physical_memory_offset {
            None => Err(BootError::NoPhysicalMemoryOffset),
            Some(physical_memory_offset) => if hand_off.has_framebuffer {
                Ok(BootParameters { rsdp_addr, physical_memory_offset })
            } else {
                Err(BootError::NoFrameBuffer)
            },
        },
    }
}

/// Checks what the bootloader handed over. The kernel needs the root
/// pointer, the mapping of physical memory and a frame buffer; without any
/// of them it halts.
pub fn start(hand_off: HandOff) -> (r: Result<BootParameters, BootError>)
    ensures
        r == boot_parameters(hand_off),
{
    let rsdp_addr = match hand_off.rsdp_addr {
        Some(a) => a,
        None => {
            return Err(BootError::NoRsdpAddress);
        },
    };
    let physical_memory_offset = match hand_off.physical_memory_offset {
        Some(o) => o,
        None => {
            return Err(BootError::NoPhysicalMemoryOffset);
        },
    };
    if !hand_off.has_framebuffer {
        return Err(BootError::NoFrameBuffer);
    }
    Ok(BootParameters { rsdp_addr, physical_memory_offset })
}

/// The subsystems, in the order in which they come up.
#[derive(Clone, Copy, Debug, PartialEq, Eq, Structural)]
pub enum BootStage {
    /// The screen writer, so that every later stage can report.
    FrameBuffer,
    /// Page tables and frame allocator.
    Memory,
    /// The heap.
    Heap,
    /// The firmware tables.
    Acpi,
    /// Descriptor table and task-state segment.
    Gdt,
    /// Dispatch table and interrupt controllers.
    Interrupts,
    /// The task executor.
    Executor,
}

impl BootStage {
    /// The place of the stage in the boot order, counted from zero.
    pub open spec fn rank(self) -> nat {
        match self {
            BootStage::FrameBuffer => 0,
            BootStage::Memory => 1,
            BootStage::Heap => 2,
            BootStage::Acpi => 3,
            BootStage::Gdt => 4,
            BootStage::Interrupts => 5,
            BootStage::Executor => 6,
        }
    }

    /// The place of the stage in the boot order, counted from zero.
    pub fn index(self) -> (i: u8)
        ensures
            i == self.rank(),
    {
        match self {
            BootStage::FrameBuffer => 0,
            BootStage::Memory => 1,
            BootStage::Heap => 2,
            BootStage::Acpi => 3,
            BootStage::Gdt => 4,
            BootStage::Interrupts => 5,
            BootStage::Executor => 6,
        }
    }
}

/// Number of stages.
pub const STAGE_COUNT: u8 = 7;

/// How far the boot has come.
pub struct BootSequence {
    completed: u8,
}

impl BootSequence {
    /// Number of stages that are up.
    pub closed spec fn completed(&self) -> nat {
        self.completed as nat
    }

    /// The invariant: no more stages are up than there are.
    pub closed spec fn wf(&self) -> bool {
        self.completed <= STAGE_COUNT
    }

    /// Whether `stage` is up.
    pub open spec fn is_up(&self, stage: BootStage) -> bool {
        stage.rank() < self.completed()
    }

    /// A boot that has not begun.
    pub fn new() -> (boot: BootSequence)
        ensures
            boot.wf(),
            boot.completed() == 0,
    {
        BootSequence { completed: 0 }
    }

    /// Records that `stage` is up. Each stage rests on those before it, so
    /// it is accepted only when it is the next in order; a stage out of turn,
    /// or one that is up already, is refused and nothing changes.
    pub fn complete(&mut self, stage: BootStage) -> (r: Result<(), BootError>)
        requires
            old(self).wf(),
        ensures
            final(self).wf(),
            r is Ok <==> stage.rank() == old(self).completed(),
            r is Ok ==> final(self).completed() == old(self).completed() + 1,
            r matches Err(e) ==> e == BootError::OutOfOrder && final(self).completed() == old(
                self,
            ).completed(),
    {
        if stage.index() != self.completed {
            return Err(BootError::OutOfOrder);
        }
        self.completed = self.completed + 1;
        Ok(())
    }

    /// Whether every subsystem is up and tasks may run.
    pub fn is_ready(&self) -> (b: bool)
        ensures
            b == (self.completed() == STAGE_COUNT),
    {
        self.completed == STAGE_COUNT
    }
}

/// When a stage is up, so is every stage before it.
pub proof fn law_stages_come_up_in_order(boot: BootSequence, stage: BootStage, earlier: BootStage)
    requires
        boot.is_up(stage),
        earlier.rank() <= stage.rank(),
    ensures
        boot.is_up(earlier),
{
}

} // verus!
