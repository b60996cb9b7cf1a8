//! Reading the firmware's description tables.
use crate::memory::address::{phys_to_virt, translated, AddressError};
use crate::memory::page_table::{
    default_flags, frame_base, pages_touched, valid_range, valid_region, MapError, MemoryView,
};
use crate::memory::Memory;
use vstd::prelude::*;

pub mod reader;

verus! {

/// A region of physical memory made visible at a virtual address.
#[derive(Clone, Copy, Debug, PartialEq, Eq, Structural)]
pub struct PhysicalMapping {
    /// Physical address of the first byte.
    pub physical_start: usize,
    /// Virtual address at which that byte is visible.
    pub virtual_start: u64,
    /// Number of bytes asked for.
    pub region_length: usize,
    /// Number of bytes made visible.
    pub mapped_length: usize,
}

/// Why a region of firmware memory could not be made visible.
#[derive(Clone, Copy, Debug, PartialEq, Eq, Structural)]
pub enum RegionError {
    /// The physical address has no virtual counterpart.
    Address(AddressError),
    /// The page-table manager refused.
    Mapping(MapError),
}

/// What `map_physical_region` answers for `size` bytes at `physical_address`
/// under `offset`, in the state `memory`.
pub open spec fn region_mapping(
    memory: MemoryView,
    offset: u64,
    physical_address: usize,
    size: usize,
) -> Result<PhysicalMapping, RegionError> {
    match translated(offset, physical_address as u64) {
        Err(e) => Err(RegionError::Address(e)),
        Ok(v) => if !valid_region(v, physical_address as u64, size as u64) {
            Err(RegionError::Mapping(MapError::InvalidRange))
        } else {
            match memory.region_outcome(
                frame_base(v),
                frame_base(physical_address as u64),
                pages_touched(v, size as u64),
                default_flags(),
            ) {
                Ok(_) => Ok(
                    PhysicalMapping {
                        physical_start: physical_address,
                        virtual_start: v,
                        region_length: size,
                        mapped_length: size,
                    },
                ),
                Err(e) => Err(RegionError::Mapping(e)),
            }
        }
    }
}

/// The state after `map_physical_region`: the pages of the region are
/// mapped, up to the first that is refused.
pub open spec fn after_region_mapping(
    memory: MemoryView,
    offset: u64,
    physical_address: usize,
    size: usize,
) -> MemoryView {
    match translated(offset, physical_address as u64) {
        Err(e) => memory,
        Ok(v) => if !valid_region(v, physical_address as u64, size as u64) {
            memory
        } else {
            memory.after_region(
                frame_base(v),
                frame_base(physical_address as u64),
                pages_touched(v, size as u64),
                default_flags(),
            )
        },
    }
}

/// The state after `unmap_physical_region`: every page of the region is
/// unmapped. A region that spans no pages that can be mapped changes
/// nothing.
pub open spec fn after_region_unmapping(memory: MemoryView, region: PhysicalMapping) -> MemoryView {
    if valid_range(region.virtual_start, region.mapped_length as u64) {
        memory.after_unmapped_run(
            frame_base(region.virtual_start),
            pages_touched(region.virtual_start, region.mapped_length as u64),
        )
    } else {
        memory
    }
}

/// The table reader's only way to memory: it asks the memory subsystem to
/// map a physical region at the fixed offset and to unmap it again, and
/// holds no authority over the page tables itself.
#[derive(Clone, Copy, Debug)]
pub struct ACPIHandler {
    physical_memory_offset: u64,
}

impl ACPIHandler {
    /// The offset at which physical memory is mapped.
    pub closed spec fn offset(&self) -> u64 {
        self.physical_memory_offset
    }

    /// A handler for physical memory mapped at `physical_memory_offset`.
    pub fn new(physical_memory_offset: u64) -> (handler: ACPIHandler)
        ensures
            handler.offset() == physical_memory_offset,
    {
        ACPIHandler { physical_memory_offset }
    }

    /// Makes `size` bytes at `physical_address` visible at the address plus
    /// the offset: every page that the region touches is mapped, present and
    /// writable, to the frame that holds its bytes. The mapping is exactly
    /// as long as asked.
    pub fn map_physical_region(
        &self,
        physical_address: usize,
        size: usize,
        memory: &mut Memory,
    ) -> (r: Result<PhysicalMapping, RegionError>)
        requires
            old(memory).wf(),
        ensures
            final(memory).wf(),
            final(memory)@.frames.wf(),
            final(memory).offset() == old(memory).offset(),
            r == region_mapping(old(memory)@, self.offset(), physical_address, size),
            final(memory)@ == after_region_mapping(
                old(memory)@,
                self.offset(),
                physical_address,
                size,
            ),
    {
        let virtual_start = match phys_to_virt(self.physical_memory_offset, physical_address as u64) {
            Ok(v) => v,
            Err(e) => {
                proof {
                    memory.lemma_wf();
                }
                return Err(RegionError::Address(e));
            },
        };
        match memory.map_region(virtual_start, physical_address as u64, size as u64, None) {
            Ok(()) => Ok(
                PhysicalMapping {
                    physical_start: physical_address,
                    virtual_start,
                    region_length: size,
                    mapped_length: size,
                },
            ),
            Err(e) => Err(RegionError::Mapping(e)),
        }
    }

    /// Releases a mapping: every page that the region touches is unmapped,
    /// so that no leaf of it is left. The caller flushes the pages' entries
    /// of the translation cache.
    pub fn unmap_physical_region(&self, region: &PhysicalMapping, memory: &mut Memory)
        requires
            old(memory).wf(),
        ensures
            final(memory).wf(),
            final(memory)@.frames.wf(),
            final(memory).offset() == old(memory).offset(),
            final(memory)@ == after_region_unmapping(old(memory)@, *region),
    {
        let _ = memory.unmap_region(region.virtual_start, region.mapped_length as u64);
    }
}

/// After a region was unmapped, none of its addresses leads anywhere: the
/// leaf of every page of the region is absent.
pub proof fn law_unmapped_region_leaves_no_leaf(
    memory: MemoryView,
    region: PhysicalMapping,
    offset: int,
)
    requires
        valid_range(region.virtual_start, region.mapped_length as u64),
        0 <= offset < region.mapped_length,
    ensures
        after_region_unmapping(memory, region).tables.mapping_of(
            crate::memory::page_table::page_number((region.virtual_start + offset) as u64),
        ) is None,
{
    let first = frame_base(region.virtual_start);
    let count = pages_touched(region.virtual_start, region.mapped_length as u64);
    crate::memory::page_table::lemma_valid_range_pages(
        region.virtual_start,
        region.mapped_length as u64,
    );
    let x = region.virtual_start + offset;
    let k = (x - first) / 4096;
    assert(crate::memory::page_table::page_address(first, k) == x - x % 4096);
    assert(crate::memory::page_table::page_number(x as u64)
        == crate::memory::page_table::page_number(
        crate::memory::page_table::page_address(first, k),
    ));
    crate::memory::page_table::law_unmapped_run_leaves_no_leaf(memory, first, count, k);
}

/// Why the firmware tables could not be used.
#[derive(Clone, Copy, Debug, PartialEq, Eq, Structural)]
pub enum AcpiError {
    /// The table is shorter than its fixed part.
    TableTooShort,
    /// The table does not carry the signature asked for.
    BadSignature,
    /// The length in the header is not the length of the table.
    BadLength,
    /// The bytes of the table do not sum to zero.
    BadChecksum,
    /// An entry is shorter than its kind requires or runs beyond the table.
    MalformedEntry,
    /// An interrupt source override names a bus other than ISA.
    InterruptOverrideEntryHasInvalidBus,
    /// An interrupt source override holds a reserved polarity or trigger mode.
    InvalidMpsIntiFlags,
    /// The tables name no processor.
    NoProcessorInfo,
    /// The platform has no APIC; the legacy controller alone is not
    /// supported.
    NoApic,
    /// The root table names no table of interrupt controllers.
    TableNotFound,
    /// The reader was handed bytes after it had finished.
    Finished,
}

/// What the firmware says of a processor's state.
#[derive(Clone, Copy, Debug, PartialEq, Eq, Structural)]
pub enum ProcessorState {
    /// The processor cannot be used.
    Disabled,
    /// An application processor that waits to be started.
    WaitingForSipi,
    /// The processor that runs the boot code.
    Running,
}

/// One processor.
#[derive(Clone, Copy, Debug, PartialEq, Eq, Structural)]
pub struct Processor {
    /// The firmware's identifier of the processor.
    pub processor_uid: u32,
    /// The identifier of the processor's local APIC.
    pub local_apic_id: u32,
    /// The processor's state.
    pub state: ProcessorState,
    /// Whether this is an application processor, not the boot processor.
    pub is_ap: bool,
}

/// One I/O APIC.
#[derive(Clone, Copy, Debug, PartialEq, Eq, Structural)]
pub struct IoApic {
    /// The controller's identifier.
    pub id: u8,
    /// Physical address of the controller's registers.
    pub address: u32,
    /// The global interrupt number of the controller's first input.
    pub global_system_interrupt_base: u32,
}

/// The level at which an interrupt line is active.
#[derive(Clone, Copy, Debug, PartialEq, Eq, Structural)]
pub enum Polarity {
    /// As the bus defines it.
    SameAsBus,
    /// Active high.
    ActiveHigh,
    /// Active low.
    ActiveLow,
}

/// What on an interrupt line raises the interrupt.
#[derive(Clone, Copy, Debug, PartialEq, Eq, Structural)]
pub enum TriggerMode {
    /// As the bus defines it.
    SameAsBus,
    /// An edge.
    Edge,
    /// A level.
    Level,
}

/// An ISA interrupt that arrives on another global interrupt number than its
/// own.
#[derive(Clone, Copy, Debug, PartialEq, Eq, Structural)]
pub struct InterruptSourceOverride {
    /// The ISA interrupt.
    pub isa_source: u8,
    /// The global interrupt number that it arrives on.
    pub global_system_interrupt: u32,
    /// The line's polarity.
    pub polarity: Polarity,
    /// The line's trigger mode.
    pub trigger_mode: TriggerMode,
}

/// What the tables say of processors and interrupt controllers.
pub struct TopologyView {
    /// Whether the platform delivers interrupts through APICs.
    pub apic_model: bool,
    /// The processor that runs the boot code.
    pub boot_processor: Option<Processor>,
    /// The other processors, in table order.
    pub application_processors: Seq<Processor>,
    /// Physical address of the local APIC's registers.
    pub local_apic_address: u64,
    /// The I/O APICs, in table order.
    pub io_apics: Seq<IoApic>,
    /// The interrupt source overrides, in table order.
    pub interrupt_source_overrides: Seq<InterruptSourceOverride>,
    /// Whether the platform has the legacy controllers as well.
    pub also_has_legacy_pics: bool,
}

/// What the tables say of processors and interrupt controllers.
#[derive(Debug, PartialEq, Eq)]
pub struct Topology {
    /// Whether the platform delivers interrupts through APICs.
    pub apic_model: bool,
    /// The processor that runs the boot code.
    pub boot_processor: Option<Processor>,
    /// The other processors, in table order.
    pub application_processors: Vec<Processor>,
    /// Physical address of the local APIC's registers.
    pub local_apic_address: u64,
    /// The I/O APICs, in table order.
    pub io_apics: Vec<IoApic>,
    /// The interrupt source overrides, in table order.
    pub interrupt_source_overrides: Vec<InterruptSourceOverride>,
    /// Whether the platform has the legacy controllers as well.
    pub also_has_legacy_pics: bool,
}

impl View for Topology {
    type V = TopologyView;

    open spec fn view(&self) -> TopologyView {
        TopologyView {
            apic_model: self.apic_model,
            boot_processor: self.boot_processor,
            application_processors: self.application_processors@,
            local_apic_address: self.local_apic_address,
            io_apics: self.io_apics@,
            interrupt_source_overrides: self.interrupt_source_overrides@,
            also_has_legacy_pics: self.also_has_legacy_pics,
        }
    }
}

/// The APIC topology that the interrupt subsystem is set up from.
#[derive(Debug, PartialEq, Eq)]
pub struct Apic {
    /// The processor that runs the boot code.
    pub boot_processor: Processor,
    /// The other processors, in table order.
    pub application_processors: Vec<Processor>,
    /// Physical address of the local APIC's registers.
    pub local_apic_address: u64,
    /// The I/O APICs, in table order.
    pub io_apics: Vec<IoApic>,
    /// The interrupt source overrides, in table order.
    pub interrupt_source_overrides: Vec<InterruptSourceOverride>,
    /// Whether the platform has the legacy controllers as well.
    pub also_has_legacy_pics: bool,
}

/// What the APIC topology stands for.
pub struct ApicView {
    /// The processor that runs the boot code.
    pub boot_processor: Processor,
    /// The other processors, in table order.
    pub application_processors: Seq<Processor>,
    /// Physical address of the local APIC's registers.
    pub local_apic_address: u64,
    /// The I/O APICs, in table order.
    pub io_apics: Seq<IoApic>,
    /// The interrupt source overrides, in table order.
    pub interrupt_source_overrides: Seq<InterruptSourceOverride>,
    /// Whether the platform has the legacy controllers as well.
    pub also_has_legacy_pics: bool,
}

impl View for Apic {
    type V = ApicView;

    open spec fn view(&self) -> ApicView {
        ApicView {
            boot_processor: self.boot_processor,
            application_processors: self.application_processors@,
            local_apic_address: self.local_apic_address,
            io_apics: self.io_apics@,
            interrupt_source_overrides: self.interrupt_source_overrides@,
            also_has_legacy_pics: self.also_has_legacy_pics,
        }
    }
}

/// The 16-bit little-endian number at `at`.
pub open spec fn le16(bytes: Seq<u8>, at: int) -> int {
    bytes[at] + 256 * bytes[at + 1]
}

/// The 32-bit little-endian number at `at`.
pub open spec fn le32(bytes: Seq<u8>, at: int) -> int {
    bytes[at] + 256 * bytes[at + 1] + 65536 * bytes[at + 2] + 16777216 * bytes[at + 3]
}

/// The 64-bit little-endian number at `at`.
pub open spec fn le64(bytes: Seq<u8>, at: int) -> int {
    le32(bytes, at) + 0x1_0000_0000 * le32(bytes, at + 4)
}

/// The sum of all bytes.
pub open spec fn byte_sum(bytes: Seq<u8>) -> int
    decreases bytes.len(),
{
    if bytes.len() == 0 {
        0
    } else {
        byte_sum(bytes.drop_last()) + bytes.last()
    }
}

/// Length of the header that every description table starts with.
pub const HEADER_LENGTH: usize = 36;

/// Offset of the first entry of the table of interrupt controllers.
pub const MADT_ENTRIES: usize = 44;

/// The least length of an entry of a kind; entries of other kinds are
/// skipped and need only hold their own two-byte header.
pub open spec fn least_entry_length(kind: u8) -> int {
    if kind == 0 {
        8
    } else if kind == 1 {
        12
    } else if kind == 2 {
        10
    } else if kind == 5 {
        12
    } else if kind == 9 {
        16
    } else {
        2
    }
}

/// Whether the entry at `at` holds its header, is as long as its kind
/// requires, and ends inside the table.
pub open spec fn entry_fits(bytes: Seq<u8>, at: int) -> bool {
    &&& at + 2 <= bytes.len()
    &&& bytes[at + 1] >= least_entry_length(bytes[at])
    &&& at + bytes[at + 1] <= bytes.len()
}

/// Whether an entry of a kind shows that interrupts go through APICs.
pub open spec fn is_apic_kind(kind: u8) -> bool {
    kind <= 5 || kind == 9 || kind == 10
}

/// The polarity that the flags of an interrupt source override name.
pub open spec fn polarity_of(flags: int) -> Option<Polarity> {
    if flags % 4 == 0 {
        Some(Polarity::SameAsBus)
    } else if flags % 4 == 1 {
        Some(Polarity::ActiveHigh)
    } else if flags % 4 == 3 {
        Some(Polarity::ActiveLow)
    } else {
        None
    }
}

/// The trigger mode that the flags of an interrupt source override name.
pub open spec fn trigger_mode_of(flags: int) -> Option<TriggerMode> {
    if (flags / 4) % 4 == 0 {
        Some(TriggerMode::SameAsBus)
    } else if (flags / 4) % 4 == 1 {
        Some(TriggerMode::Edge)
    } else if (flags / 4) % 4 == 3 {
        Some(TriggerMode::Level)
    } else {
        None
    }
}

/// The processor that an entry names. The first processor of the table is
/// the boot processor; a processor whose enabled bit is clear is disabled.
pub open spec fn processor_of(uid: int, apic_id: int, flags: int, is_ap: bool) -> Processor {
    Processor {
        processor_uid: uid as u32,
        local_apic_id: apic_id as u32,
        state: if flags % 2 == 0 {
            ProcessorState::Disabled
        } else if is_ap {
            ProcessorState::WaitingForSipi
        } else {
            ProcessorState::Running
        },
        is_ap,
    }
}

/// `topology` with `processor` taken in: as the boot processor if there is
/// none yet, else behind the application processors.
pub open spec fn with_processor(topology: TopologyView, processor: Processor) -> TopologyView {
    if topology.boot_processor is Some {
        TopologyView {
            application_processors: topology.application_processors.push(processor),
            ..topology
        }
    } else {
        TopologyView { boot_processor: Some(processor), ..topology }
    }
}

/// `topology` with what the entry at `at` says taken in.
pub open spec fn with_entry(topology: TopologyView, bytes: Seq<u8>, at: int) -> Result<
    TopologyView,
    AcpiError,
> {
    let kind = bytes[at];
    let seen = TopologyView { apic_model: topology.apic_model || is_apic_kind(kind), ..topology };
    if kind == 0 {
        Ok(
            with_processor(
                seen,
                processor_of(
                    bytes[at + 2] as int,
                    bytes[at + 3] as int,
                    le32(bytes, at + 4),
                    seen.boot_processor is Some,
                ),
            ),
        )
    } else if kind == 9 {
        Ok(
            with_processor(
                seen,
                processor_of(
                    le32(bytes, at + 12),
                    le32(bytes, at + 4),
                    le32(bytes, at + 8),
                    seen.boot_processor is Some,
                ),
            ),
        )
    } else if kind == 1 {
        Ok(
            TopologyView {
                io_apics: seen.io_apics.push(
                    IoApic {
                        id: bytes[at + 2],
                        address: le32(bytes, at + 4) as u32,
                        global_system_interrupt_base: le32(bytes, at + 8) as u32,
                    },
                ),
                ..seen
            },
        )
    } else if kind == 2 {
        if bytes[at + 2] != 0 {
            Err(AcpiError::InterruptOverrideEntryHasInvalidBus)
        } else {
            match (polarity_of(le16(bytes, at + 8)), trigger_mode_of(le16(bytes, at + 8))) {
                (Some(polarity), Some(trigger_mode)) => Ok(
                    TopologyView {
                        interrupt_source_overrides: seen.interrupt_source_overrides.push(
                            InterruptSourceOverride {
                                isa_source: bytes[at + 3],
                                global_system_interrupt: le32(bytes, at + 4) as u32,
                                polarity,
                                trigger_mode,
                            },
                        ),
                        ..seen
                    },
                ),
                _ => Err(AcpiError::InvalidMpsIntiFlags),
            }
        }
    } else if kind == 5 {
        Ok(TopologyView { local_apic_address: le64(bytes, at + 4) as u64, ..seen })
    } else {
        Ok(seen)
    }
}

/// What the entries from `at` on add to `topology`.
pub open spec fn scan_entries(bytes: Seq<u8>, at: int, topology: TopologyView) -> Result<
    TopologyView,
    AcpiError,
>
    decreases bytes.len() - at,
{
    if at >= bytes.len() {
        Ok(topology)
    } else if !entry_fits(bytes, at) {
        Err(AcpiError::MalformedEntry)
    } else {
        match with_entry(topology, bytes, at) {
            Err(e) => Err(e),
            Ok(next) => scan_entries(bytes, at + bytes[at + 1], next),
        }
    }
}

/// What a table of interrupt controllers starts from: its own local APIC
/// address and its flag for legacy controllers, and nothing else.
pub open spec fn madt_start(bytes: Seq<u8>) -> TopologyView {
    TopologyView {
        apic_model: false,
        boot_processor: None,
        application_processors: Seq::empty(),
        local_apic_address: le32(bytes, 36) as u64,
        io_apics: Seq::empty(),
        interrupt_source_overrides: Seq::empty(),
        also_has_legacy_pics: le32(bytes, 40) % 2 == 1,
    }
}

/// Whether the table starts with the four bytes `APIC`.
pub open spec fn has_madt_signature(bytes: Seq<u8>) -> bool {
    bytes[0] == 0x41 && bytes[1] == 0x50 && bytes[2] == 0x49 && bytes[3] == 0x43
}

/// What a table of interrupt controllers says, or why it cannot be used. A
/// table without any entry on APICs describes an unknown interrupt model and
/// no processors.
pub open spec fn madt_topology(bytes: Seq<u8>) -> Result<TopologyView, AcpiError> {
    if bytes.len() < 44 {
        Err(AcpiError::TableTooShort)
    } else if !has_madt_signature(bytes) {
        Err(AcpiError::BadSignature)
    } else if le32(bytes, 4) != bytes.len() {
        Err(AcpiError::BadLength)
    } else if byte_sum(bytes) % 256 != 0 {
        Err(AcpiError::BadChecksum)
    } else {
        scan_entries(bytes, 44, madt_start(bytes))
    }
}

/// The 16-bit little-endian number at `at`.
pub(crate) fn read_u16(bytes: &[u8], at: usize) -> (v: u16)
    requires
        at + 2 <= bytes@.len(),
    ensures
        v == le16(bytes@, at as int),
{
    (bytes[at] as u16) + (bytes[at + 1] as u16) * 256
}

/// The 32-bit little-endian number at `at`.
pub(crate) fn read_u32(bytes: &[u8], at: usize) -> (v: u32)
    requires
        at + 4 <= bytes@.len(),
    ensures
        v == le32(bytes@, at as int),
{
    (bytes[at] as u32) + (bytes[at + 1] as u32) * 256 + (bytes[at + 2] as u32) * 65536 + (bytes[at
        + 3] as u32) * 16777216
}

/// The 64-bit little-endian number at `at`.
pub(crate) fn read_u64(bytes: &[u8], at: usize) -> (v: u64)
    requires
        at + 8 <= bytes@.len(),
    ensures
        v == le64(bytes@, at as int),
{
    assert(bytes@.len() == bytes.len());
    let low = read_u32(bytes, at);
    let high = read_u32(bytes, at + 4);
    (low as u64) + (high as u64) * 0x1_0000_0000
}

/// Whether the bytes sum to zero modulo 256, as the bytes of every
/// description table must.
pub fn checksum_valid(bytes: &[u8]) -> (ok: bool)
    ensures
        ok == (byte_sum(bytes@) % 256 == 0),
{
    let mut sum: u32 = 0;
    let mut i: usize = 0;
    while i < bytes.len()
        invariant
            i <= bytes.len(),
            sum < 256,
            sum == byte_sum(bytes@.take(i as int)) % 256,
        decreases bytes.len() - i,
    {
        proof {
            assert(bytes@.take(i + 1).drop_last() == bytes@.take(i as int));
        }
        sum = (sum + bytes[i] as u32) % 256;
        i += 1;
    }
    proof {
        assert(bytes@.take(i as int) == bytes@);
    }
    sum == 0
}

/// The processor that an entry names.
fn make_processor(uid: u32, apic_id: u32, flags: u32, is_ap: bool) -> (p: Processor)
    ensures
        p == processor_of(uid as int, apic_id as int, flags as int, is_ap),
{
    let state = if flags % 2 == 0 {
        ProcessorState::Disabled
    } else if is_ap {
        ProcessorState::WaitingForSipi
    } else {
        ProcessorState::Running
    };
    Processor { processor_uid: uid, local_apic_id: apic_id, state, is_ap }
}

/// Reads a table of interrupt controllers: checks signature, length and
/// checksum, then takes in entry after entry.
pub fn parse_madt(bytes: &[u8]) -> (r: Result<Topology, AcpiError>)
    ensures
        match madt_topology(bytes@) {
            Ok(v) => r is Ok && r.unwrap()@ == v,
            Err(e) => r == Err::<Topology, AcpiError>(e),
        },
{
    if bytes.len() < 44 {
        return Err(AcpiError::TableTooShort);
    }
    if bytes[0] != 0x41 || bytes[1] != 0x50 || bytes[2] != 0x49 || bytes[3] != 0x43 {
        return Err(AcpiError::BadSignature);
    }
    if read_u32(bytes, 4) as usize != bytes.len() {
        return Err(AcpiError::BadLength);
    }
    if !checksum_valid(bytes) {
        return Err(AcpiError::BadChecksum);
    }
    let mut topology = Topology {
        apic_model: false,
        boot_processor: None,
        application_processors: Vec::new(),
        local_apic_address: read_u32(bytes, 36) as u64,
        io_apics: Vec::new(),
        interrupt_source_overrides: Vec::new(),
        also_has_legacy_pics: read_u32(bytes, 40) % 2 == 1,
    };
    let mut at: usize = 44;
    while at < bytes.len()
        invariant
            44 <= at <= bytes.len(),
            madt_topology(bytes@) == scan_entries(bytes@, at as int, topology@),
        decreases bytes.len() - at,
    {
        if bytes.len() - at < 2 {
            return Err(AcpiError::MalformedEntry);
        }
        let kind: u8 = bytes[at];
        let length: usize = bytes[at + 1] as usize;
        let least: usize = if kind == 0 {
            8
        } else if kind == 1 {
            12
        } else if kind == 2 {
            10
        } else if kind == 5 {
            12
        } else if kind == 9 {
            16
        } else {
            2
        };
        if length < least || length > bytes.len() - at {
            return Err(AcpiError::MalformedEntry);
        }
        let ghost before = topology@;
        if kind <= 5 || kind == 9 || kind == 10 {
            topology.apic_model = true;
        }
        if kind == 0 {
            let is_ap = topology.boot_processor.is_some();
            let processor = make_processor(
                bytes[at + 2] as u32,
                bytes[at + 3] as u32,
                read_u32(bytes, at + 4),
                is_ap,
            );
            if is_ap {
                topology.application_processors.push(processor);
            } else {
                topology.boot_processor = Some(processor);
            }
        } else if kind == 9 {
            let is_ap = topology.boot_processor.is_some();
            let processor = make_processor(
                read_u32(bytes, at + 12),
                read_u32(bytes, at + 4),
                read_u32(bytes, at + 8),
                is_ap,
            );
            if is_ap {
                topology.application_processors.push(processor);
            } else {
                topology.boot_processor = Some(processor);
            }
        } else if kind == 1 {
            topology.io_apics.push(
                IoApic {
                    id: bytes[at + 2],
                    address: read_u32(bytes, at + 4),
                    global_system_interrupt_base: read_u32(bytes, at + 8),
                },
            );
        } else if kind == 2 {
            if bytes[at + 2] != 0 {
                return Err(AcpiError::InterruptOverrideEntryHasInvalidBus);
            }
            let flags = read_u16(bytes, at + 8);
            let polarity = if flags % 4 == 0 {
                Polarity::SameAsBus
            } else if flags % 4 == 1 {
                Polarity::ActiveHigh
            } else if flags % 4 == 3 {
                Polarity::ActiveLow
            } else {
                return Err(AcpiError::InvalidMpsIntiFlags);
            };
            let trigger_mode = if (flags / 4) % 4 == 0 {
                TriggerMode::SameAsBus
            } else if (flags / 4) % 4 == 1 {
                TriggerMode::Edge
            } else if (flags / 4) % 4 == 3 {
                TriggerMode::Level
            } else {
                return Err(AcpiError::InvalidMpsIntiFlags);
            };
            topology.interrupt_source_overrides.push(
                InterruptSourceOverride {
                    isa_source: bytes[at + 3],
                    global_system_interrupt: read_u32(bytes, at + 4),
                    polarity,
                    trigger_mode,
                },
            );
        } else if kind == 5 {
            topology.local_apic_address = read_u64(bytes, at + 4);
        }
        assert(with_entry(before, bytes@, at as int) == Ok::<TopologyView, AcpiError>(topology@));
        at = at + length;
    }
    Ok(topology)
}

/// What `init` answers: the APIC topology of a platform that names its boot
/// processor and delivers interrupts through APICs.
pub open spec fn apic_of(topology: TopologyView) -> Result<ApicView, AcpiError> {
    if topology.boot_processor is None {
        Err(AcpiError::NoProcessorInfo)
    } else if !topology.apic_model {
        Err(AcpiError::NoApic)
    } else {
        Ok(
            ApicView {
                boot_processor: topology.boot_processor.unwrap(),
                application_processors: topology.application_processors,
                local_apic_address: topology.local_apic_address,
                io_apics: topology.io_apics,
                interrupt_source_overrides: topology.interrupt_source_overrides,
                also_has_legacy_pics: topology.also_has_legacy_pics,
            },
        )
    }
}

/// Picks the topology that the interrupt subsystem is set up from out of
/// what the tables say: the processors and the interrupt controllers. A
/// platform whose tables name no processor, or that has no APIC, is refused:
/// the kernel cannot run on it.
pub fn init(topology: Topology) -> (r: Result<Apic, AcpiError>)
    ensures
        match apic_of(topology@) {
            Ok(v) => r is Ok && r.unwrap()@ == v,
            Err(e) => r == Err::<Apic, AcpiError>(e),
        },
{
    let boot_processor = match topology.boot_processor {
        Some(p) => p,
        None => {
            return Err(AcpiError::NoProcessorInfo);
        },
    };
    if !topology.apic_model {
        return Err(AcpiError::NoApic);
    }
    Ok(
        Apic {
            boot_processor,
            application_processors: topology.application_processors,
            local_apic_address: topology.local_apic_address,
            io_apics: topology.io_apics,
            interrupt_source_overrides: topology.interrupt_source_overrides,
            also_has_legacy_pics: topology.also_has_legacy_pics,
        },
    )
}

} // verus!
