use kernel::acpi::reader::{
    parse_header, parse_root_table, parse_rsdp, Region, Request, RootPointer, TableHeader,
    TableReader, MADT_SIGNATURE,
};
use kernel::acpi::{
    checksum_valid, init, parse_madt, ACPIHandler, AcpiError, Apic, InterruptSourceOverride,
    IoApic, PhysicalMapping, Polarity, Processor, ProcessorState, RegionError, Topology,
    TriggerMode,
};
use kernel::memory::address::AddressError;
use kernel::memory::frame_allocator::{MemoryRegion, RegionKind};
use kernel::memory::page_table::{MapError, Mapping, PageFlags};
use kernel::memory::Memory;

/// Sets byte 9 so that the bytes of a table sum to zero.
fn seal(mut table: Vec<u8>) -> Vec<u8> {
    table[9] = 0;
    let sum = table.iter().fold(0u8, |a, b| a.wrapping_add(*b));
    table[9] = 0u8.wrapping_sub(sum);
    table
}

fn table(signature: &[u8; 4], body: &[u8]) -> Vec<u8> {
    let mut bytes = vec![0u8; 36];
    bytes[0..4].copy_from_slice(signature);
    let length = (36 + body.len()) as u32;
    bytes[4..8].copy_from_slice(&length.to_le_bytes());
    bytes[8] = 1;
    bytes.extend_from_slice(body);
    seal(bytes)
}

fn madt(local_apic_address: u32, flags: u32, entries: &[Vec<u8>]) -> Vec<u8> {
    let mut body = Vec::new();
    body.extend_from_slice(&local_apic_address.to_le_bytes());
    body.extend_from_slice(&flags.to_le_bytes());
    for entry in entries {
        body.extend_from_slice(entry);
    }
    table(b"APIC", &body)
}

fn local_apic(uid: u8, apic_id: u8, flags: u32) -> Vec<u8> {
    let mut e = vec![0u8, 8, uid, apic_id];
    e.extend_from_slice(&flags.to_le_bytes());
    e
}

fn io_apic(id: u8, address: u32, base: u32) -> Vec<u8> {
    let mut e = vec![1u8, 12, id, 0];
    e.extend_from_slice(&address.to_le_bytes());
    e.extend_from_slice(&base.to_le_bytes());
    e
}

fn source_override(bus: u8, source: u8, gsi: u32, flags: u16) -> Vec<u8> {
    let mut e = vec![2u8, 10, bus, source];
    e.extend_from_slice(&gsi.to_le_bytes());
    e.extend_from_slice(&flags.to_le_bytes());
    e
}

fn two_processor_blob() -> Vec<u8> {
    madt(
        0xfee0_0000,
        1,
        &[local_apic(0, 0, 1), local_apic(1, 1, 1), io_apic(2, 0xfec0_0000, 0)],
    )
}

#[test]
fn two_processors_and_one_io_apic() {
    let topology = parse_madt(&two_processor_blob()).unwrap();
    assert_eq!(topology.application_processors.len(), 1);
    assert_eq!(
        topology.boot_processor,
        Some(Processor {
            processor_uid: 0,
            local_apic_id: 0,
            state: ProcessorState::Running,
            is_ap: false
        })
    );
    assert_eq!(
        topology.application_processors[0],
        Processor {
            processor_uid: 1,
            local_apic_id: 1,
            state: ProcessorState::WaitingForSipi,
            is_ap: true
        }
    );
    assert!(topology.apic_model);
    assert!(topology.also_has_legacy_pics);
    assert_eq!(topology.local_apic_address, 0xfee0_0000);
    assert_eq!(
        topology.io_apics,
        vec![IoApic { id: 2, address: 0xfec0_0000, global_system_interrupt_base: 0 }]
    );
    let apic = init(topology).unwrap();
    assert_eq!(apic.application_processors.len(), 1);
    assert_eq!(apic.boot_processor.local_apic_id, 0);
    assert_eq!(apic.application_processors[0].local_apic_id, 1);
    assert_eq!(apic.local_apic_address, 0xfee0_0000);
    assert_eq!(apic.io_apics.len(), 1);
    assert!(apic.interrupt_source_overrides.is_empty());
    assert!(apic.also_has_legacy_pics);
}

#[test]
fn disabled_processors_are_marked() {
    let blob = madt(0xfee0_0000, 0, &[local_apic(7, 3, 0), local_apic(8, 4, 0), local_apic(9, 5, 3)]);
    let topology = parse_madt(&blob).unwrap();
    let boot = topology.boot_processor.unwrap();
    assert_eq!(boot.state, ProcessorState::Disabled);
    assert_eq!(boot.processor_uid, 7);
    assert_eq!(boot.local_apic_id, 3);
    assert_eq!(topology.application_processors.len(), 2);
    assert_eq!(topology.application_processors[0].state, ProcessorState::Disabled);
    assert_eq!(topology.application_processors[1].state, ProcessorState::WaitingForSipi);
    assert!(!topology.also_has_legacy_pics);
}

#[test]
fn overrides_and_other_entries() {
    let mut x2apic = vec![9u8, 16, 0, 0];
    x2apic.extend_from_slice(&0x100u32.to_le_bytes());
    x2apic.extend_from_slice(&1u32.to_le_bytes());
    x2apic.extend_from_slice(&0x55u32.to_le_bytes());
    let mut address_override = vec![5u8, 12, 0, 0];
    address_override.extend_from_slice(&0x1_fee0_0000u64.to_le_bytes());
    let unknown = vec![0x20u8, 4, 0xaa, 0xbb];
    let blob = madt(
        0xfee0_0000,
        0,
        &[
            x2apic,
            source_override(0, 0, 2, 0),
            source_override(0, 9, 9, 0b1101),
            unknown,
            address_override,
            source_override(0, 5, 5, 0b0111),
        ],
    );
    let topology = parse_madt(&blob).unwrap();
    assert_eq!(
        topology.boot_processor,
        Some(Processor {
            processor_uid: 0x55,
            local_apic_id: 0x100,
            state: ProcessorState::Running,
            is_ap: false
        })
    );
    assert_eq!(topology.local_apic_address, 0x1_fee0_0000);
    assert_eq!(
        topology.interrupt_source_overrides,
        vec![
            InterruptSourceOverride {
                isa_source: 0,
                global_system_interrupt: 2,
                polarity: Polarity::SameAsBus,
                trigger_mode: TriggerMode::SameAsBus
            },
            InterruptSourceOverride {
                isa_source: 9,
                global_system_interrupt: 9,
                polarity: Polarity::ActiveHigh,
                trigger_mode: TriggerMode::Level
            },
            InterruptSourceOverride {
                isa_source: 5,
                global_system_interrupt: 5,
                polarity: Polarity::ActiveLow,
                trigger_mode: TriggerMode::Edge
            },
        ]
    );
}

#[test]
fn malformed_tables_are_refused() {
    assert_eq!(parse_madt(&[0u8; 43]), Err(AcpiError::TableTooShort));
    let good = two_processor_blob();
    let mut wrong_signature = good.clone();
    wrong_signature[0] = b'X';
    assert_eq!(parse_madt(&wrong_signature), Err(AcpiError::BadSignature));
    let mut wrong_length = good.clone();
    wrong_length.push(0);
    assert_eq!(parse_madt(&wrong_length), Err(AcpiError::BadLength));
    let mut wrong_sum = good.clone();
    wrong_sum[50] ^= 0x40;
    assert_eq!(parse_madt(&wrong_sum), Err(AcpiError::BadChecksum));
    assert!(checksum_valid(&good));
    assert!(!checksum_valid(&wrong_sum));
    assert!(checksum_valid(&[]));
    assert!(checksum_valid(&[0x80, 0x80]));
}

#[test]
fn malformed_entries_are_refused() {
    // An entry that claims more bytes than the table holds.
    let mut long = local_apic(0, 0, 1);
    long[1] = 9;
    assert_eq!(parse_madt(&madt(0, 0, &[long])), Err(AcpiError::MalformedEntry));
    // A processor entry that is too short for its fields.
    let short = vec![0u8, 4, 0, 0];
    assert_eq!(parse_madt(&madt(0, 0, &[short])), Err(AcpiError::MalformedEntry));
    // An entry of length zero would never end.
    let empty = vec![0x30u8, 0, 0, 0];
    assert_eq!(parse_madt(&madt(0, 0, &[empty])), Err(AcpiError::MalformedEntry));
    // A lone byte at the end holds no entry header.
    assert_eq!(parse_madt(&madt(0, 0, &[vec![0x30u8]])), Err(AcpiError::MalformedEntry));
    assert_eq!(
        parse_madt(&madt(0, 0, &[source_override(1, 0, 2, 0)])),
        Err(AcpiError::InterruptOverrideEntryHasInvalidBus)
    );
    assert_eq!(
        parse_madt(&madt(0, 0, &[source_override(0, 0, 2, 0b0010)])),
        Err(AcpiError::InvalidMpsIntiFlags)
    );
    assert_eq!(
        parse_madt(&madt(0, 0, &[source_override(0, 0, 2, 0b1000)])),
        Err(AcpiError::InvalidMpsIntiFlags)
    );
}

#[test]
fn platforms_without_apic_or_processor_are_refused() {
    let none = parse_madt(&madt(0xfee0_0000, 0, &[])).unwrap();
    assert!(!none.apic_model);
    assert_eq!(none.boot_processor, None);
    assert_eq!(init(none), Err(AcpiError::NoProcessorInfo));
    let only_io = parse_madt(&madt(0xfee0_0000, 0, &[io_apic(0, 0xfec0_0000, 0)])).unwrap();
    assert!(only_io.apic_model);
    assert_eq!(init(only_io), Err(AcpiError::NoProcessorInfo));
    let legacy = Topology {
        apic_model: false,
        boot_processor: Some(Processor {
            processor_uid: 0,
            local_apic_id: 0,
            state: ProcessorState::Running,
            is_ap: false,
        }),
        application_processors: Vec::new(),
        local_apic_address: 0,
        io_apics: Vec::new(),
        interrupt_source_overrides: Vec::new(),
        also_has_legacy_pics: true,
    };
    assert_eq!(init(legacy), Err(AcpiError::NoApic));
}

fn memory(frames: u64) -> Memory {
    let regions = vec![MemoryRegion { start: 0x10_0000, length: frames * 4096, kind: RegionKind::Usable }];
    Memory::init(0x0000_1800_0000_0000, regions, 0x1000).unwrap()
}

#[test]
fn handler_maps_and_unmaps_through_the_page_tables() {
    let flags = PageFlags { present: true, writable: true, user: false, no_execute: false };
    let offset: u64 = 0x0000_1800_0000_0000;
    let handler = ACPIHandler::new(offset);
    let mut memory = memory(16);
    // 0x30 bytes from 0xe_0ff0 on touch two pages.
    let mapping = handler.map_physical_region(0xe_0ff0, 0x30, &mut memory).unwrap();
    assert_eq!(
        mapping,
        PhysicalMapping {
            physical_start: 0xe_0ff0,
            virtual_start: offset + 0xe_0ff0,
            region_length: 0x30,
            mapped_length: 0x30,
        }
    );
    assert_eq!(
        memory.translate(offset + 0xe_0ff0),
        Some(Mapping { frame: 0xe_0000, flags })
    );
    assert_eq!(
        memory.translate(offset + 0xe_1000),
        Some(Mapping { frame: 0xe_1000, flags })
    );
    assert_eq!(memory.translate(offset + 0xe_2000), None);
    assert_eq!(memory.translate(offset + 0xd_f000), None);
    // A second region in the first page leaves that page as it is.
    let inner = handler.map_physical_region(0xe_0000, 8, &mut memory).unwrap();
    assert_eq!(inner.virtual_start, offset + 0xe_0000);
    handler.unmap_physical_region(&mapping, &mut memory);
    assert_eq!(memory.translate(offset + 0xe_0ff0), None);
    assert_eq!(memory.translate(offset + 0xe_1000), None);
    // The tables stay, so mapping again takes no frame.
    assert!(handler.map_physical_region(0xe_0ff0, 0x30, &mut memory).is_ok());
    handler.unmap_physical_region(&mapping, &mut memory);
    assert_eq!(memory.allocate_frame(), Some(0x10_3000));
}

#[test]
fn handler_refuses_what_cannot_be_mapped() {
    let mut memory = memory(16);
    assert_eq!(
        ACPIHandler::new(0).map_physical_region(0, 4, &mut memory),
        Err(RegionError::Address(AddressError::Null))
    );
    assert_eq!(
        ACPIHandler::new(u64::MAX).map_physical_region(1, 4, &mut memory),
        Err(RegionError::Address(AddressError::Overflow))
    );
    assert_eq!(
        ACPIHandler::new(0x0001_0000_0000_0000).map_physical_region(0x1000, 4, &mut memory),
        Err(RegionError::Address(AddressError::NotCanonical))
    );
    let handler = ACPIHandler::new(0x0000_1800_0000_0000);
    assert_eq!(
        handler.map_physical_region(0x1000, 0, &mut memory),
        Err(RegionError::Mapping(MapError::InvalidRange))
    );
    // An offset that is no whole number of pages cannot be mapped by pages.
    assert_eq!(
        ACPIHandler::new(0x0000_1800_0000_0800).map_physical_region(0x1000, 4, &mut memory),
        Err(RegionError::Mapping(MapError::InvalidRange))
    );
    let mut starved = self::memory(2);
    assert_eq!(
        handler.map_physical_region(0x1000, 4, &mut starved),
        Err(RegionError::Mapping(MapError::OutOfMemory))
    );
    assert_eq!(memory.allocate_frame(), Some(0x10_0000));
    // Releasing a region that spans nothing changes nothing.
    let nothing = PhysicalMapping {
        physical_start: 0x1000,
        virtual_start: 0x0000_1800_0000_1000,
        region_length: 0,
        mapped_length: 0,
    };
    handler.unmap_physical_region(&nothing, &mut memory);
}

fn rsdp_v1(rsdt: u32) -> Vec<u8> {
    let mut bytes = vec![0u8; 36];
    bytes[0..8].copy_from_slice(b"RSD PTR ");
    bytes[16..20].copy_from_slice(&rsdt.to_le_bytes());
    let sum = bytes[..20].iter().fold(0u8, |a, b| a.wrapping_add(*b));
    bytes[8] = 0u8.wrapping_sub(sum);
    bytes
}

fn rsdp_v2(xsdt: u64) -> Vec<u8> {
    let mut bytes = vec![0u8; 36];
    bytes[0..8].copy_from_slice(b"RSD PTR ");
    bytes[15] = 2;
    bytes[16..20].copy_from_slice(&0x1234u32.to_le_bytes());
    bytes[20..24].copy_from_slice(&36u32.to_le_bytes());
    bytes[24..32].copy_from_slice(&xsdt.to_le_bytes());
    let sum = bytes[..20].iter().fold(0u8, |a, b| a.wrapping_add(*b));
    bytes[8] = 0u8.wrapping_sub(sum);
    let sum = bytes.iter().fold(0u8, |a, b| a.wrapping_add(*b));
    bytes[32] = 0u8.wrapping_sub(sum);
    bytes
}

#[test]
fn root_pointer_of_both_revisions() {
    assert_eq!(
        parse_rsdp(&rsdp_v1(0x7fe_0000)),
        Ok(RootPointer { address: 0x7fe_0000, wide: false })
    );
    assert_eq!(
        parse_rsdp(&rsdp_v2(0x1_7fe_0000)),
        Ok(RootPointer { address: 0x1_7fe_0000, wide: true })
    );
    assert_eq!(parse_rsdp(&[0u8; 35]), Err(AcpiError::TableTooShort));
    let mut bad = rsdp_v1(0x7fe_0000);
    bad[7] = b'!';
    assert_eq!(parse_rsdp(&bad), Err(AcpiError::BadSignature));
    let mut bad = rsdp_v1(0x7fe_0000);
    bad[16] ^= 1;
    assert_eq!(parse_rsdp(&bad), Err(AcpiError::BadChecksum));
    let mut bad = rsdp_v2(0x1_7fe_0000);
    bad[33] ^= 1;
    assert_eq!(parse_rsdp(&bad), Err(AcpiError::BadChecksum));
    let mut bad = rsdp_v2(0x1_7fe_0000);
    bad[20] = 35;
    bad[32] = bad[32].wrapping_add(1);
    assert_eq!(parse_rsdp(&bad), Err(AcpiError::BadLength));
}

#[test]
fn headers_and_root_tables() {
    let blob = two_processor_blob();
    assert_eq!(
        parse_header(&blob),
        Ok(TableHeader { signature: MADT_SIGNATURE, length: blob.len() as u32 })
    );
    assert_eq!(parse_header(&blob[..35]), Err(AcpiError::TableTooShort));
    let mut short = blob.clone();
    short[4..8].copy_from_slice(&35u32.to_le_bytes());
    assert_eq!(parse_header(&short), Err(AcpiError::BadLength));

    let mut body = Vec::new();
    body.extend_from_slice(&0x1000u32.to_le_bytes());
    body.extend_from_slice(&0x2000u32.to_le_bytes());
    let rsdt = table(b"RSDT", &body);
    assert_eq!(parse_root_table(&rsdt, false), Ok(vec![0x1000, 0x2000]));
    assert_eq!(parse_root_table(&rsdt, true), Err(AcpiError::BadSignature));
    let mut body = Vec::new();
    body.extend_from_slice(&0x1_0000_1000u64.to_le_bytes());
    let xsdt = table(b"XSDT", &body);
    assert_eq!(parse_root_table(&xsdt, true), Ok(vec![0x1_0000_1000]));
    assert_eq!(parse_root_table(&table(b"XSDT", &[]), true), Ok(Vec::new()));
    assert_eq!(parse_root_table(&table(b"XSDT", &[0; 4]), true), Err(AcpiError::BadLength));
    assert_eq!(parse_root_table(&table(b"RSDT", &[0; 6]), false), Err(AcpiError::BadLength));
    let mut bad = rsdt.clone();
    bad[40] ^= 1;
    assert_eq!(parse_root_table(&bad, false), Err(AcpiError::BadChecksum));
    assert_eq!(parse_root_table(&rsdt[..30], false), Err(AcpiError::TableTooShort));
}

/// Runs the reader over a memory made of `(address, bytes)` blocks.
fn read_tables(rsdp_address: u64, memory: &[(u64, Vec<u8>)]) -> (Result<Apic, AcpiError>, Vec<Region>) {
    let (mut reader, mut request) = TableReader::new(rsdp_address);
    let mut asked = Vec::new();
    for _ in 0..64 {
        match request {
            Request::MapRegion(region) => {
                asked.push(region);
                let block = memory.iter().find(|(address, _)| *address == region.physical);
                let bytes: Vec<u8> = match block {
                    Some((_, bytes)) => {
                        bytes.iter().copied().take(region.length).collect()
                    }
                    None => Vec::new(),
                };
                request = reader.feed(&bytes);
            }
            Request::Done(apic) => return (Ok(apic), asked),
            Request::Failed(e) => return (Err(e), asked),
        }
    }
    panic!("the reader did not finish");
}

#[test]
fn reader_walks_from_root_pointer_to_topology() {
    let blob = two_processor_blob();
    let other = table(b"FACP", &[0u8; 8]);
    let mut body = Vec::new();
    body.extend_from_slice(&0x3000u64.to_le_bytes());
    body.extend_from_slice(&0x4000u64.to_le_bytes());
    let xsdt = table(b"XSDT", &body);
    let memory = vec![
        (0xe_0000, rsdp_v2(0x2000)),
        (0x2000, xsdt.clone()),
        (0x3000, other),
        (0x4000, blob.clone()),
    ];
    let (result, asked) = read_tables(0xe_0000, &memory);
    let apic = result.unwrap();
    assert_eq!(apic.local_apic_address, 0xfee0_0000);
    assert_eq!(
        apic.io_apics,
        vec![IoApic { id: 2, address: 0xfec0_0000, global_system_interrupt_base: 0 }]
    );
    assert_eq!(
        asked,
        vec![
            Region { physical: 0xe_0000, length: 36 },
            Region { physical: 0x2000, length: 36 },
            Region { physical: 0x2000, length: xsdt.len() },
            Region { physical: 0x3000, length: 36 },
            Region { physical: 0x4000, length: 36 },
            Region { physical: 0x4000, length: blob.len() },
        ]
    );
}

#[test]
fn reader_gives_up_on_missing_or_broken_tables() {
    let mut body = Vec::new();
    body.extend_from_slice(&0x3000u32.to_le_bytes());
    let rsdt = table(b"RSDT", &body);
    let other = table(b"FACP", &[0u8; 8]);
    let memory = vec![(0xe_0000, rsdp_v1(0x2000)), (0x2000, rsdt.clone()), (0x3000, other)];
    assert_eq!(read_tables(0xe_0000, &memory).0, Err(AcpiError::TableNotFound));
    // Nothing is mapped at the root pointer.
    assert_eq!(read_tables(0xf_0000, &memory).0, Err(AcpiError::TableTooShort));
    // The table of interrupt controllers is damaged.
    let mut blob = two_processor_blob();
    blob[45] ^= 0xff;
    let memory = vec![(0xe_0000, rsdp_v1(0x2000)), (0x2000, rsdt), (0x3000, blob)];
    assert_eq!(read_tables(0xe_0000, &memory).0, Err(AcpiError::BadChecksum));
    // A reader that has finished takes no more bytes.
    let (mut reader, _) = TableReader::new(0);
    assert_eq!(reader.feed(&[]), Request::Failed(AcpiError::TableTooShort));
    assert_eq!(reader.feed(&[]), Request::Failed(AcpiError::Finished));
}
