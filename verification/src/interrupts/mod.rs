//! Interrupt vectors and the configuration of the interrupt controllers.
use crate::acpi::{Apic, ApicView};
use crate::interrupts::idt::{kernel_table, InterruptTable};
use crate::memory::page_table::{default_flags, MapError, MemoryView};
use crate::memory::Memory;
use crate::once::OnceSlot;
use vstd::prelude::*;

pub mod exception_handlers;
pub mod handlers;
pub mod idt;

verus! {

/// First vector of the interrupts that arrive through the I/O APIC.
pub const IOAPIC_INTERRUPT_INDEX_OFFSET: u8 = 0x28;

/// First vector of the interrupts that the local APIC raises itself.
pub const LAPIC_INTERRUPT_INDEX_OFFSET: u8 = 0x90;

/// Vector of spurious interrupts.
pub const SPURIOUS_INTERRUPT_INDEX: u8 = 0xff;

/// Vector offset of the first legacy interrupt controller.
pub const PIC_1_OFFSET: u8 = 0x20;

/// Vector offset of the second legacy interrupt controller.
pub const PIC_2_OFFSET: u8 = 0x28;

/// The vectors that device interrupts are delivered on.
#[allow(non_camel_case_types)]
#[derive(Clone, Copy, Debug, PartialEq, Eq, Structural)]
pub enum InterruptIndex {
    /// The base of the I/O APIC range, kept free.
    _IoApic,
    /// The keyboard.
    Keyboard,
    /// The mouse.
    Mouse,
    /// An error inside the local APIC.
    ApicError,
    /// The local APIC timer.
    Timer,
}

impl InterruptIndex {
    /// The vector number.
    pub open spec fn vector(self) -> u8 {
        match self {
            InterruptIndex::_IoApic => 0x28,
            InterruptIndex::Keyboard => 0x29,
            InterruptIndex::Mouse => 0x34,
            InterruptIndex::ApicError => 0x90,
            InterruptIndex::Timer => 0x91,
        }
    }

    /// The vector number as a byte.
    pub fn as_u8(self) -> (v: u8)
        ensures
            v == self.vector(),
            v >= 32,
    {
        match self {
            InterruptIndex::_IoApic => IOAPIC_INTERRUPT_INDEX_OFFSET,
            InterruptIndex::Keyboard => IOAPIC_INTERRUPT_INDEX_OFFSET + 1,
            InterruptIndex::Mouse => IOAPIC_INTERRUPT_INDEX_OFFSET + 12,
            InterruptIndex::ApicError => LAPIC_INTERRUPT_INDEX_OFFSET,
            InterruptIndex::Timer => LAPIC_INTERRUPT_INDEX_OFFSET + 1,
        }
    }

    /// The vector number as an index into the vector table.
    pub fn as_usize(self) -> (v: usize)
        ensures
            v == self.vector(),
    {
        self.as_u8() as usize
    }

    /// The device interrupt delivered on `vector`, if there is one.
    pub fn from_vector(vector: u8) -> (r: Option<InterruptIndex>)
        ensures
            r matches Some(index) ==> index.vector() == vector,
            r is None ==> forall|index: InterruptIndex| index.vector() != vector,
    {
        if vector == 0x28 {
            Some(InterruptIndex::_IoApic)
        } else if vector == 0x29 {
            Some(InterruptIndex::Keyboard)
        } else if vector == 0x34 {
            Some(InterruptIndex::Mouse)
        } else if vector == 0x90 {
            Some(InterruptIndex::ApicError)
        } else if vector == 0x91 {
            Some(InterruptIndex::Timer)
        } else {
            None
        }
    }
}

/// The input pins of the I/O APIC that the kernel routes.
#[derive(Clone, Copy, Debug, PartialEq, Eq, Structural)]
pub enum IoApicTableIndex {
    /// The keyboard's line.
    Keyboard,
    /// The mouse's line.
    Mouse,
}

impl IoApicTableIndex {
    /// The pin number.
    pub open spec fn irq(self) -> u8 {
        match self {
            IoApicTableIndex::Keyboard => 1,
            IoApicTableIndex::Mouse => 12,
        }
    }

    /// The pin number as a byte.
    pub fn as_u8(self) -> (v: u8)
        ensures
            v == self.irq(),
    {
        match self {
            IoApicTableIndex::Keyboard => 1,
            IoApicTableIndex::Mouse => 12,
        }
    }

    /// The vector that the pin's interrupt is delivered on: the pin number
    /// above the base of the I/O APIC range.
    pub fn interrupt_index(self) -> (index: InterruptIndex)
        ensures
            index.vector() == IOAPIC_INTERRUPT_INDEX_OFFSET + self.irq(),
    {
        match self {
            IoApicTableIndex::Keyboard => InterruptIndex::Keyboard,
            IoApicTableIndex::Mouse => InterruptIndex::Mouse,
        }
    }
}

/// By how much the local APIC's timer divides the bus clock.
#[derive(Clone, Copy, Debug, PartialEq, Eq, Structural)]
pub enum TimerDivide {
    /// By 2.
    Div2,
    /// By 4.
    Div4,
    /// By 8.
    Div8,
    /// By 16.
    Div16,
    /// By 32.
    Div32,
    /// By 64.
    Div64,
    /// By 128.
    Div128,
    /// By 256.
    Div256,
}

/// How the local APIC is set up.
#[derive(Clone, Copy, Debug, PartialEq, Eq, Structural)]
pub struct LocalApicConfig {
    /// Vector of the timer's interrupt.
    pub timer_vector: usize,
    /// The timer's divider.
    pub timer_divide: TimerDivide,
    /// Vector of the interrupt for errors inside the APIC.
    pub error_vector: usize,
    /// Vector of spurious interrupts.
    pub spurious_vector: usize,
    /// Address of the APIC's registers, mapped to itself.
    pub xapic_base: u64,
}

/// The kernel's set-up of a local APIC whose registers lie at `address`.
pub open spec fn local_apic_config(address: u64) -> LocalApicConfig {
    LocalApicConfig {
        timer_vector: 0x91,
        timer_divide: TimerDivide::Div128,
        error_vector: 0x90,
        spurious_vector: 0xff,
        xapic_base: address,
    }
}

/// Why the interrupt controllers could not be set up.
#[derive(Clone, Copy, Debug, PartialEq, Eq, Structural)]
pub enum ApicError {
    /// The local APIC, or the dispatch table, was set up before.
    AlreadyInitialized,
    /// The local APIC was not set up yet.
    NotInitialized,
    /// The registers could not be mapped.
    Mapping(MapError),
}

/// What `init_local_apic` answers.
pub open spec fn local_apic_outcome(
    memory: MemoryView,
    slot: Option<LocalApicConfig>,
    address: u64,
) -> Result<LocalApicConfig, ApicError> {
    if slot is Some {
        Err(ApicError::AlreadyInitialized)
    } else {
        match memory.identity_outcome(address, default_flags()) {
            Ok(_) => Ok(local_apic_config(address)),
            Err(e) => Err(ApicError::Mapping(e)),
        }
    }
}

/// Sets the local APIC up: maps its registers to their own address and
/// records how the controller is configured in `local_apic`, the slot of the
/// one local APIC. This happens once. A second attempt is refused, and
/// memory and the recorded set-up stay as they are. Enabling the controller
/// with the set-up is the caller's part.
pub fn init_local_apic(
    local_apic_address: u64,
    memory: &mut Memory,
    local_apic: &mut OnceSlot<LocalApicConfig>,
) -> (r: Result<LocalApicConfig, ApicError>)
    requires
        old(memory).wf(),
    ensures
        final(memory).wf(),
        final(memory)@.frames.wf(),
        final(memory).offset() == old(memory).offset(),
        r == local_apic_outcome(old(memory)@, old(local_apic)@, local_apic_address),
        final(memory)@ == (if old(local_apic)@ is Some {
            old(memory)@
        } else {
            old(memory)@.after_identity(local_apic_address, default_flags())
        }),
        final(local_apic)@ == (match r {
            Ok(config) => Some(config),
            Err(_) => old(local_apic)@,
        }),
{
    if local_apic.is_initialized() {
        proof {
            memory.lemma_wf();
        }
        return Err(ApicError::AlreadyInitialized);
    }
    match memory.identity_map(local_apic_address, None) {
        Ok(()) => {
            let config = LocalApicConfig {
                timer_vector: InterruptIndex::Timer.as_usize(),
                timer_divide: TimerDivide::Div128,
                error_vector: InterruptIndex::ApicError.as_usize(),
                spurious_vector: SPURIOUS_INTERRUPT_INDEX as usize,
                xapic_base: local_apic_address,
            };
            let _ = local_apic.init_once(config);
            Ok(config)
        },
        Err(e) => Err(ApicError::Mapping(e)),
    }
}

/// How an I/O APIC delivers an interrupt.
#[derive(Clone, Copy, Debug, PartialEq, Eq, Structural)]
pub enum IrqMode {
    /// To the processors named, as an ordinary interrupt.
    Fixed,
    /// To the processor of lowest priority among those named.
    LowestPriority,
    /// As a system management interrupt.
    SystemManagement,
    /// As a non-maskable interrupt.
    NonMaskable,
    /// As an INIT signal.
    Init,
    /// As an interrupt of an external controller.
    External,
}

impl IrqMode {
    /// The three bits that stand for the mode in a redirection entry.
    pub open spec fn bits(self) -> u32 {
        match self {
            IrqMode::Fixed => 0,
            IrqMode::LowestPriority => 1,
            IrqMode::SystemManagement => 2,
            IrqMode::NonMaskable => 4,
            IrqMode::Init => 5,
            IrqMode::External => 7,
        }
    }
}

/// One entry of an I/O APIC's redirection table.
#[derive(Clone, Copy, Debug, PartialEq, Eq, Structural)]
pub struct RedirectionEntry {
    /// The vector that the interrupt is delivered on.
    pub vector: u8,
    /// How it is delivered.
    pub mode: IrqMode,
    /// The local APIC that it is delivered to.
    pub destination: u8,
    /// Whether the line is active low, not high.
    pub low_active: bool,
    /// Whether a level triggers the interrupt, not an edge.
    pub level_triggered: bool,
    /// Whether the interrupt is held back.
    pub masked: bool,
}

impl RedirectionEntry {
    /// The low register of the entry: vector in bits 0 to 7, mode in bits 8
    /// to 10, polarity in bit 13, trigger mode in bit 15, mask in bit 16.
    pub open spec fn low(self) -> u32 {
        (self.vector + 0x100 * self.mode.bits() + (if self.low_active {
            0x2000int
        } else {
            0int
        }) + (if self.level_triggered {
            0x8000int
        } else {
            0int
        }) + (if self.masked {
            0x1_0000int
        } else {
            0int
        })) as u32
    }

    /// The high register of the entry: the destination in bits 24 to 31.
    pub open spec fn high(self) -> u32 {
        (self.destination * 0x100_0000) as u32
    }

    /// The two registers of the entry, low and high, as they are written to
    /// the controller.
    pub fn registers(self) -> (r: (u32, u32))
        ensures
            r.0 == self.low(),
            r.1 == self.high(),
    {
        let mode: u32 = match self.mode {
            IrqMode::Fixed => 0,
            IrqMode::LowestPriority => 1,
            IrqMode::SystemManagement => 2,
            IrqMode::NonMaskable => 4,
            IrqMode::Init => 5,
            IrqMode::External => 7,
        };
        let mut low: u32 = self.vector as u32 + 0x100 * mode;
        if self.low_active {
            low = low + 0x2000;
        }
        if self.level_triggered {
            low = low + 0x8000;
        }
        if self.masked {
            low = low + 0x1_0000;
        }
        (low, self.destination as u32 * 0x100_0000)
    }

    /// The entry that the two registers stand for. `None` means that the
    /// mode bits hold a value that names no mode. Bits that the entry does
    /// not model are ignored.
    pub fn from_registers(low: u32, high: u32) -> (r: Option<RedirectionEntry>)
        ensures
            r == entry_of(low, high),
    {
        let mode = match (low / 0x100) % 8 {
            0 => IrqMode::Fixed,
            1 => IrqMode::LowestPriority,
            2 => IrqMode::SystemManagement,
            4 => IrqMode::NonMaskable,
            5 => IrqMode::Init,
            7 => IrqMode::External,
            _ => {
                return None;
            },
        };
        Some(
            RedirectionEntry {
                vector: (low % 0x100) as u8,
                mode,
                destination: (high / 0x100_0000) as u8,
                low_active: (low / 0x2000) % 2 == 1,
                level_triggered: (low / 0x8000) % 2 == 1,
                masked: (low / 0x1_0000) % 2 == 1,
            },
        )
    }
}

/// The mode that three mode bits name, if they name one.
pub open spec fn mode_of(bits: int) -> Option<IrqMode> {
    if bits == 0 {
        Some(IrqMode::Fixed)
    } else if bits == 1 {
        Some(IrqMode::LowestPriority)
    } else if bits == 2 {
        Some(IrqMode::SystemManagement)
    } else if bits == 4 {
        Some(IrqMode::NonMaskable)
    } else if bits == 5 {
        Some(IrqMode::Init)
    } else if bits == 7 {
        Some(IrqMode::External)
    } else {
        None
    }
}

/// The entry that two registers stand for: each field read from its bits.
pub open spec fn entry_of(low: u32, high: u32) -> Option<RedirectionEntry> {
    match mode_of((low as int / 0x100) % 8) {
        Some(mode) => Some(
            RedirectionEntry {
                vector: (low % 0x100) as u8,
                mode,
                destination: (high / 0x100_0000) as u8,
                low_active: (low as int / 0x2000) % 2 == 1,
                level_triggered: (low as int / 0x8000) % 2 == 1,
                masked: (low as int / 0x1_0000) % 2 == 1,
            },
        ),
        None => None,
    }
}

/// The registers of an entry stand for that entry.
pub proof fn law_registers_round_trip(entry: RedirectionEntry)
    ensures
        entry_of(entry.low(), entry.high()) == Some(entry),
{
}

/// One line of an I/O APIC as the kernel routes it: the entry is written
/// masked, then the line is unmasked.
#[derive(Clone, Copy, Debug, PartialEq, Eq, Structural)]
pub struct IrqRoute {
    /// The input pin.
    pub irq: u8,
    /// The entry written for it.
    pub entry: RedirectionEntry,
}

/// The route of the input pin `irq_index` to the vector `int_index` of the
/// processor whose local APIC is `lapic_id`: delivered as an ordinary
/// interrupt, level triggered and active low, written masked.
pub open spec fn route_of(lapic_id: u8, int_index: u8, irq_index: u8) -> IrqRoute {
    IrqRoute {
        irq: irq_index,
        entry: RedirectionEntry {
            vector: int_index,
            mode: IrqMode::Fixed,
            destination: lapic_id,
            low_active: true,
            level_triggered: true,
            masked: true,
        },
    }
}

/// The route of one device interrupt.
pub fn register_io_apic_entry(lapic_id: u8, int_index: u8, irq_index: u8) -> (route: IrqRoute)
    ensures
        route == route_of(lapic_id, int_index, irq_index),
{
    IrqRoute {
        irq: irq_index,
        entry: RedirectionEntry {
            vector: int_index,
            mode: IrqMode::Fixed,
            destination: lapic_id,
            low_active: true,
            level_triggered: true,
            masked: true,
        },
    }
}

/// How an I/O APIC is set up.
#[derive(Clone, Copy, Debug, PartialEq, Eq, Structural)]
pub struct IoApicConfig {
    /// Address of the controller's registers, mapped to itself.
    pub address: u64,
    /// The vector that input pin 0 is redirected to; pin `i` goes to this
    /// vector plus `i`.
    pub vector_offset: u8,
    /// The keyboard's route.
    pub keyboard: IrqRoute,
    /// The mouse's route.
    pub mouse: IrqRoute,
}

/// The kernel's set-up of an I/O APIC whose registers lie at `address`, for
/// a boot processor whose local APIC is `lapic_id`.
pub open spec fn io_apic_config(address: u64, lapic_id: u8) -> IoApicConfig {
    IoApicConfig {
        address,
        vector_offset: 0x28,
        keyboard: route_of(lapic_id, 0x29, 1),
        mouse: route_of(lapic_id, 0x34, 12),
    }
}

/// What `init_io_apic` answers.
pub open spec fn io_apic_outcome(
    memory: MemoryView,
    slot: Option<LocalApicConfig>,
    address: u64,
    lapic_id: u8,
) -> Result<IoApicConfig, ApicError> {
    if slot is None {
        Err(ApicError::NotInitialized)
    } else {
        match memory.identity_outcome(address, default_flags()) {
            Ok(_) => Ok(io_apic_config(address, lapic_id)),
            Err(e) => Err(ApicError::Mapping(e)),
        }
    }
}

/// Maps the registers of an I/O APIC to their own address and says how the
/// controller is set up: all pins redirected above the vector offset, and
/// the lines of keyboard and mouse routed to the processor whose local APIC
/// is `lapic_id`. The local APIC must have been set up before; without it
/// the call is refused and nothing changes. Writing the set-up to the
/// controller is the caller's part.
pub fn init_io_apic(
    io_apic_address: u64,
    lapic_id: u8,
    memory: &mut Memory,
    local_apic: &OnceSlot<LocalApicConfig>,
) -> (r: Result<IoApicConfig, ApicError>)
    requires
        old(memory).wf(),
    ensures
        final(memory).wf(),
        final(memory)@.frames.wf(),
        final(memory).offset() == old(memory).offset(),
        r == io_apic_outcome(old(memory)@, local_apic@, io_apic_address, lapic_id),
        final(memory)@ == (if local_apic@ is None {
            old(memory)@
        } else {
            old(memory)@.after_identity(io_apic_address, default_flags())
        }),
{
    if !local_apic.is_initialized() {
        proof {
            memory.lemma_wf();
        }
        return Err(ApicError::NotInitialized);
    }
    match memory.identity_map(io_apic_address, None) {
        Ok(()) => Ok(
            IoApicConfig {
                address: io_apic_address,
                vector_offset: IOAPIC_INTERRUPT_INDEX_OFFSET,
                keyboard: register_io_apic_entry(
                    lapic_id,
                    InterruptIndex::Keyboard.as_u8(),
                    IoApicTableIndex::Keyboard.as_u8(),
                ),
                mouse: register_io_apic_entry(
                    lapic_id,
                    InterruptIndex::Mouse.as_u8(),
                    IoApicTableIndex::Mouse.as_u8(),
                ),
            },
        ),
        Err(e) => Err(ApicError::Mapping(e)),
    }
}

/// How the legacy pair of interrupt controllers is shut off: remapped to
/// these two vector offsets, then every line masked.
#[derive(Clone, Copy, Debug, PartialEq, Eq, Structural)]
pub struct LegacyPicShutdown {
    /// Vector offset of the first controller.
    pub offset_1: u8,
    /// Vector offset of the second controller.
    pub offset_2: u8,
}

/// How the legacy controllers are shut off before the APICs take over. Both
/// models would otherwise claim the same lines.
pub fn disable_legacy_pic() -> (shutdown: LegacyPicShutdown)
    ensures
        shutdown == (LegacyPicShutdown { offset_1: 0x20, offset_2: 0x28 }),
{
    LegacyPicShutdown { offset_1: PIC_1_OFFSET, offset_2: PIC_2_OFFSET }
}

/// One step of bringing the interrupt controllers up.
#[derive(Clone, Copy, Debug, PartialEq, Eq, Structural)]
pub enum ApicStep {
    /// Keep the processor from taking interrupts.
    DisableInterrupts,
    /// Shut the legacy controllers off.
    DisableLegacyPic(LegacyPicShutdown),
    /// Load the dispatch table.
    LoadInterruptTable,
    /// Build the local APIC from this set-up and enable it.
    EnableLocalApic(LocalApicConfig),
    /// Redirect every pin of the I/O APIC at `address` to the vector of its
    /// number above `vector_offset`.
    ConfigureIoApic { address: u64, vector_offset: u8 },
    /// Write the entry of a route to the I/O APIC at `address`.
    WriteRedirection { address: u64, route: IrqRoute },
    /// Unmask the line `irq` of the I/O APIC at `address`.
    UnmaskIrq { address: u64, irq: u8 },
    /// Let the processor take interrupts again.
    EnableInterrupts,
}

/// The steps that set one I/O APIC up: its pins are redirected, then the
/// entry of each routed line is written, masked, and the line unmasked.
pub open spec fn io_apic_steps(config: IoApicConfig) -> Seq<ApicStep> {
    seq![
        ApicStep::ConfigureIoApic { address: config.address, vector_offset: config.vector_offset },
        ApicStep::WriteRedirection { address: config.address, route: config.keyboard },
        ApicStep::UnmaskIrq { address: config.address, irq: config.keyboard.irq },
        ApicStep::WriteRedirection { address: config.address, route: config.mouse },
        ApicStep::UnmaskIrq { address: config.address, irq: config.mouse.irq },
    ]
}

/// The steps that set the I/O APICs up, one controller after the other.
pub open spec fn io_apic_script(configs: Seq<IoApicConfig>) -> Seq<ApicStep>
    decreases configs.len(),
{
    if configs.len() == 0 {
        Seq::empty()
    } else {
        io_apic_script(configs.drop_last()) + io_apic_steps(configs.last())
    }
}

/// The identifier of the boot processor's local APIC, cut down to the eight
/// bits that a redirection entry holds.
pub open spec fn boot_apic_id(apic: ApicView) -> u8 {
    (apic.boot_processor.local_apic_id % 256) as u8
}

/// How each I/O APIC of the platform is set up, in table order.
pub open spec fn io_apic_configs(apic: ApicView) -> Seq<IoApicConfig> {
    Seq::new(
        apic.io_apics.len(),
        |i: int| io_apic_config(apic.io_apics[i].address as u64, boot_apic_id(apic)),
    )
}

/// The first steps of the bring-up: interrupts off, the legacy controllers
/// off, the dispatch table loaded, the local APIC enabled.
pub open spec fn apic_script_head(apic: ApicView) -> Seq<ApicStep> {
    seq![
        ApicStep::DisableInterrupts,
        ApicStep::DisableLegacyPic(LegacyPicShutdown { offset_1: 0x20, offset_2: 0x28 }),
        ApicStep::LoadInterruptTable,
        ApicStep::EnableLocalApic(local_apic_config(apic.local_apic_address)),
    ]
}

/// The steps that bring the controllers up, in order: the first steps,
/// every I/O APIC set up in table order, interrupts on.
pub open spec fn apic_script(apic: ApicView) -> Seq<ApicStep> {
    apic_script_head(apic) + io_apic_script(io_apic_configs(apic)) + seq![
        ApicStep::EnableInterrupts,
    ]
}

/// What mapping the registers at each of `addresses` to themselves, one
/// after the other, answers: the refusal of the first address that is
/// refused, if any is.
pub open spec fn identity_maps_outcome(memory: MemoryView, addresses: Seq<u64>) -> Result<
    (),
    MapError,
>
    decreases addresses.len(),
{
    if addresses.len() == 0 {
        Ok(())
    } else {
        match identity_maps_outcome(memory, addresses.drop_last()) {
            Err(e) => Err(e),
            Ok(_) => after_identity_maps(memory, addresses.drop_last()).identity_outcome(
                addresses.last(),
                default_flags(),
            ),
        }
    }
}

/// The state after mapping the registers at each of `addresses` to
/// themselves, one after the other, up to the first refusal.
pub open spec fn after_identity_maps(memory: MemoryView, addresses: Seq<u64>) -> MemoryView
    decreases addresses.len(),
{
    if addresses.len() == 0 {
        memory
    } else {
        match identity_maps_outcome(memory, addresses.drop_last()) {
            Err(e) => after_identity_maps(memory, addresses.drop_last()),
            Ok(_) => after_identity_maps(memory, addresses.drop_last()).after_identity(
                addresses.last(),
                default_flags(),
            ),
        }
    }
}

/// The addresses of the registers of all controllers: the local APIC's,
/// then those of the I/O APICs in table order.
pub open spec fn controller_addresses(apic: ApicView) -> Seq<u64> {
    seq![apic.local_apic_address] + io_apic_addresses(apic)
}

/// The addresses of the registers of the I/O APICs, in table order.
pub open spec fn io_apic_addresses(apic: ApicView) -> Seq<u64> {
    Seq::new(apic.io_apics.len(), |i: int| apic.io_apics[i].address as u64)
}

/// What `init_apic` answers when neither slot was filled before.
pub open spec fn apic_outcome(memory: MemoryView, apic: ApicView) -> Result<Seq<ApicStep>, ApicError> {
    match identity_maps_outcome(memory, controller_addresses(apic)) {
        Ok(_) => Ok(apic_script(apic)),
        Err(e) => Err(ApicError::Mapping(e)),
    }
}

/// Plans the bring-up of the interrupt controllers that the firmware
/// describes. The kernel's dispatch table goes, loaded, into `idt`, and the
/// set-up of the local APIC into `local_apic`; the registers of every
/// controller are mapped to themselves; the steps to take are returned in
/// order. The lines of keyboard and mouse are routed to the boot processor.
///
/// All of this happens once: when the table or the local APIC was set up
/// before, the call is refused and nothing changes. Mapping stops at the
/// first refusal; the local APIC is recorded as set up when its own
/// registers were mapped.
pub fn init_apic(
    apic_info: &Apic,
    memory: &mut Memory,
    idt: &mut OnceSlot<InterruptTable>,
    local_apic: &mut OnceSlot<LocalApicConfig>,
) -> (r: Result<Vec<ApicStep>, ApicError>)
    requires
        old(memory).wf(),
    ensures
        final(memory).wf(),
        final(memory)@.frames.wf(),
        final(memory).offset() == old(memory).offset(),
        (old(idt)@ is Some || old(local_apic)@ is Some) ==> r == Err::<Vec<ApicStep>, ApicError>(
            ApicError::AlreadyInitialized,
        ) && final(memory)@ == old(memory)@ && final(idt)@ == old(idt)@ && final(local_apic)@
            == old(local_apic)@,
        (old(idt)@ is None && old(local_apic)@ is None) ==> final(memory)@ == after_identity_maps(
            old(memory)@,
            controller_addresses(apic_info@),
        ),
        (old(idt)@ is None && old(local_apic)@ is None) ==> (final(idt)@ matches Some(table)
            && table.wf() && table@ == kernel_table().after_load()),
        (old(idt)@ is None && old(local_apic)@ is None) ==> final(local_apic)@ == (if old(
            memory,
        )@.identity_outcome(apic_info.local_apic_address, default_flags()) is Ok {
            Some(local_apic_config(apic_info.local_apic_address))
        } else {
            None::<LocalApicConfig>
        }),
        (old(idt)@ is None && old(local_apic)@ is None) ==> (match apic_outcome(
            old(memory)@,
            apic_info@,
        ) {
            Ok(script) => r is Ok && r.unwrap()@ == script,
            Err(e) => r == Err::<Vec<ApicStep>, ApicError>(e),
        }),
{
    if idt.is_initialized() || local_apic.is_initialized() {
        proof {
            memory.lemma_wf();
        }
        return Err(ApicError::AlreadyInitialized);
    }
    let mut table = InterruptTable::kernel();
    let _ = table.load();
    let _ = idt.init_once(table);
    let lapic_id: u8 = (apic_info.boot_processor.local_apic_id % 256) as u8;
    let ghost start = memory@;
    let ghost addresses = controller_addresses(apic_info@);
    let ghost configs = io_apic_configs(apic_info@);
    let mut steps: Vec<ApicStep> = Vec::new();
    steps.push(ApicStep::DisableInterrupts);
    steps.push(ApicStep::DisableLegacyPic(disable_legacy_pic()));
    steps.push(ApicStep::LoadInterruptTable);
    proof {
        assert(addresses.take(1).drop_last() =~= Seq::<u64>::empty());
        assert(addresses.take(1).last() == apic_info.local_apic_address);
        reveal_with_fuel(identity_maps_outcome, 2);
        reveal_with_fuel(after_identity_maps, 2);
    }
    match init_local_apic(apic_info.local_apic_address, memory, local_apic) {
        Ok(config) => {
            steps.push(ApicStep::EnableLocalApic(config));
        },
        Err(e) => {
            proof {
                lemma_identity_maps_stop(start, addresses, 1);
            }
            return Err(e);
        },
    }
    assert(steps@ =~= apic_script_head(apic_info@));
    assert(configs.take(0) =~= Seq::<IoApicConfig>::empty());
    let mut i: usize = 0;
    while i < apic_info.io_apics.len()
        invariant
            memory.wf(),
            memory@.frames.wf(),
            memory.offset() == old(memory).offset(),
            i <= apic_info.io_apics.len(),
            start == old(memory)@,
            old(idt)@ is None,
            old(local_apic)@ is None,
            lapic_id == boot_apic_id(apic_info@),
            local_apic@ == Some(local_apic_config(apic_info.local_apic_address)),
            start.identity_outcome(apic_info.local_apic_address, default_flags()) is Ok,
            idt@ matches Some(t) && t.wf() && t@ == kernel_table().after_load(),
            addresses == controller_addresses(apic_info@),
            addresses.len() == apic_info.io_apics.len() + 1,
            configs == io_apic_configs(apic_info@),
            identity_maps_outcome(start, addresses.take(i + 1)) is Ok,
            memory@ == after_identity_maps(start, addresses.take(i + 1)),
            steps@ == apic_script_head(apic_info@) + io_apic_script(configs.take(i as int)),
        decreases apic_info.io_apics.len() - i,
    {
        let address: u64 = apic_info.io_apics[i].address as u64;
        proof {
            assert(addresses.take(i + 2).drop_last() =~= addresses.take(i + 1));
            assert(addresses.take(i + 2).last() == address);
            assert(configs.take(i + 1).drop_last() =~= configs.take(i as int));
            assert(configs.take(i + 1).last() == io_apic_config(address, lapic_id));
        }
        match init_io_apic(address, lapic_id, memory, local_apic) {
            Ok(config) => {
                steps.push(
                    ApicStep::ConfigureIoApic {
                        address: config.address,
                        vector_offset: config.vector_offset,
                    },
                );
                steps.push(
                    ApicStep::WriteRedirection { address: config.address, route: config.keyboard },
                );
                steps.push(ApicStep::UnmaskIrq { address: config.address, irq: config.keyboard.irq });
                steps.push(
                    ApicStep::WriteRedirection { address: config.address, route: config.mouse },
                );
                steps.push(ApicStep::UnmaskIrq { address: config.address, irq: config.mouse.irq });
                proof {
                    assert(steps@ =~= apic_script_head(apic_info@) + io_apic_script(
                        configs.take(i as int),
                    ) + io_apic_steps(config));
                    assert(steps@ =~= apic_script_head(apic_info@) + io_apic_script(
                        configs.take(i + 1),
                    ));
                }
            },
            Err(e) => {
                proof {
                    lemma_identity_maps_stop(start, addresses, i + 2);
                }
                return Err(e);
            },
        }
        i += 1;
    }
    steps.push(ApicStep::EnableInterrupts);
    proof {
        assert(addresses.take(i + 1) =~= addresses);
        assert(configs.take(i as int) =~= configs);
        assert(steps@ =~= apic_script(apic_info@));
    }
    Ok(steps)
}

/// Once an address is refused, the refusal and the state stay as they are
/// however many addresses follow.
pub proof fn lemma_identity_maps_stop(memory: MemoryView, addresses: Seq<u64>, failed: int)
    requires
        0 <= failed <= addresses.len(),
        identity_maps_outcome(memory, addresses.take(failed)) is Err,
    ensures
        identity_maps_outcome(memory, addresses) == identity_maps_outcome(
            memory,
            addresses.take(failed),
        ),
        after_identity_maps(memory, addresses) == after_identity_maps(
            memory,
            addresses.take(failed),
        ),
    decreases addresses.len() - failed,
{
    if failed == addresses.len() {
        assert(addresses.take(failed) =~= addresses);
    } else {
        assert(addresses.drop_last().take(failed) =~= addresses.take(failed));
        lemma_identity_maps_stop(memory, addresses.drop_last(), failed);
    }
}

/// Step `i` of the script of the I/O APICs is step `i % 5` of controller
/// `i / 5`.
pub proof fn lemma_io_apic_script(configs: Seq<IoApicConfig>, i: int)
    requires
        0 <= i < 5 * configs.len(),
    ensures
        io_apic_script(configs).len() == 5 * configs.len(),
        io_apic_script(configs)[i] == io_apic_steps(configs[i / 5])[i % 5],
    decreases configs.len(),
{
    lemma_io_apic_script_len(configs);
    lemma_io_apic_script_len(configs.drop_last());
    if i < 5 * (configs.len() - 1) {
        lemma_io_apic_script(configs.drop_last(), i);
    }
}

/// Every I/O APIC takes five steps.
pub proof fn lemma_io_apic_script_len(configs: Seq<IoApicConfig>)
    ensures
        io_apic_script(configs).len() == 5 * configs.len(),
    decreases configs.len(),
{
    if configs.len() > 0 {
        lemma_io_apic_script_len(configs.drop_last());
    }
}

/// In the script the legacy controllers are shut off before the local APIC
/// is enabled, so the two models are never active together; interrupts are
/// off from the first step to the last; and every line whose entry is
/// written is unmasked by the very next step.
pub proof fn law_script_order(apic: ApicView, i: int)
    requires
        0 <= i < apic_script(apic).len(),
    ensures
        apic_script(apic).len() == 5 * apic.io_apics.len() + 5,
        apic_script(apic)[0] == ApicStep::DisableInterrupts,
        apic_script(apic)[1] is DisableLegacyPic,
        apic_script(apic)[2] == ApicStep::LoadInterruptTable,
        apic_script(apic)[3] is EnableLocalApic,
        apic_script(apic).last() == ApicStep::EnableInterrupts,
        apic_script(apic)[i] matches ApicStep::WriteRedirection { address, route } ==> (i + 1
            < apic_script(apic).len() && apic_script(apic)[i + 1] == (ApicStep::UnmaskIrq {
            address,
            irq: route.irq,
        })),
{
    let configs = io_apic_configs(apic);
    lemma_io_apic_script_len(configs);
    if 4 <= i < 4 + 5 * configs.len() {
        lemma_io_apic_script(configs, i - 4);
        if i + 1 < 4 + 5 * configs.len() {
            lemma_io_apic_script(configs, i - 3);
        }
    }
}

} // verus!
