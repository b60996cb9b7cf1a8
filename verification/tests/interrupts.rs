use kernel::acpi::{Apic, IoApic, Processor, ProcessorState};
use kernel::gdt::{stack_top, DOUBLE_FAULT_IST_INDEX, DOUBLE_FAULT_STACK_SIZE};
use kernel::interrupts::exception_handlers::{
    divide_error_handler, general_protection_fault_handler, invalid_opcode_handler,
    non_maskable_interrupt_handler, segment_not_present_handler, stack_segment_fault_handler,
    Diagnosis, Disposition, Exception, InterruptStackFrame,
};
use kernel::interrupts::handlers::{
    apic_error_handler, breakpoint_handler, double_fault_handler, keyboard_interrupt_handler,
    mouse_interrupt_handler, page_fault_handler, timer_interrupt_handler, ApicFailure, Handled,
};
use kernel::interrupts::idt::{Binding, Handler, IdtError, InterruptTable};
use kernel::interrupts::{
    disable_legacy_pic, init_apic, init_io_apic, init_local_apic, register_io_apic_entry,
    ApicError, ApicStep, InterruptIndex, IoApicConfig, IoApicTableIndex, IrqMode, IrqRoute,
    LegacyPicShutdown, LocalApicConfig, RedirectionEntry, TimerDivide,
    IOAPIC_INTERRUPT_INDEX_OFFSET, LAPIC_INTERRUPT_INDEX_OFFSET,
};
use kernel::once::OnceSlot;
use kernel::memory::frame_allocator::{MemoryRegion, RegionKind};
use kernel::memory::page_table::{MapError, Mapping, PageFlags};
use kernel::memory::Memory;
use kernel::task::event_queue::{EventQueue, PushOutcome, QueueError};

const FRAME: InterruptStackFrame = InterruptStackFrame {
    instruction_pointer: 0x20_1000,
    code_segment: 8,
    cpu_flags: 0x202,
    stack_pointer: 0x7fff_0000,
    stack_segment: 0,
};

fn memory(frames: u64) -> Memory {
    let regions = vec![MemoryRegion { start: 0x10_0000, length: frames * 4096, kind: RegionKind::Usable }];
    Memory::init(0, regions, 0x1000).unwrap()
}

fn local_config(base: u64) -> LocalApicConfig {
    LocalApicConfig {
        timer_vector: 0x91,
        timer_divide: TimerDivide::Div128,
        error_vector: 0x90,
        spurious_vector: 0xff,
        xapic_base: base,
    }
}

fn route(lapic_id: u8, vector: u8, irq: u8) -> IrqRoute {
    IrqRoute {
        irq,
        entry: RedirectionEntry {
            vector,
            mode: IrqMode::Fixed,
            destination: lapic_id,
            low_active: true,
            level_triggered: true,
            masked: true,
        },
    }
}

#[test]
fn interrupt_vectors() {
    assert_eq!(IOAPIC_INTERRUPT_INDEX_OFFSET, 0x28);
    assert_eq!(LAPIC_INTERRUPT_INDEX_OFFSET, 0x90);
    assert_eq!(InterruptIndex::_IoApic.as_u8(), 0x28);
    assert_eq!(InterruptIndex::Keyboard.as_u8(), 0x29);
    assert_eq!(InterruptIndex::Mouse.as_u8(), 0x34);
    assert_eq!(InterruptIndex::ApicError.as_u8(), 0x90);
    assert_eq!(InterruptIndex::Timer.as_u8(), 0x91);
    assert_eq!(InterruptIndex::Timer.as_usize(), 0x91);
    assert_eq!(IoApicTableIndex::Keyboard.as_u8(), 1);
    assert_eq!(IoApicTableIndex::Mouse.as_u8(), 12);
    assert_eq!(IoApicTableIndex::Keyboard.interrupt_index(), InterruptIndex::Keyboard);
    assert_eq!(IoApicTableIndex::Mouse.interrupt_index(), InterruptIndex::Mouse);
    assert_eq!(InterruptIndex::from_vector(0x34), Some(InterruptIndex::Mouse));
    assert_eq!(InterruptIndex::from_vector(0x91), Some(InterruptIndex::Timer));
    assert_eq!(InterruptIndex::from_vector(0x35), None);
    for vector in 0..=255u8 {
        if let Some(index) = InterruptIndex::from_vector(vector) {
            assert_eq!(index.as_u8(), vector);
        }
    }
}

#[test]
fn local_apic_is_mapped_and_configured() {
    let mut memory = memory(16);
    let mut slot = OnceSlot::uninit();
    assert_eq!(
        init_local_apic(0xfee0_0000, &mut memory, &mut slot),
        Ok(local_config(0xfee0_0000))
    );
    assert_eq!(slot.get(), Ok(&local_config(0xfee0_0000)));
    let flags = PageFlags { present: true, writable: true, user: false, no_execute: false };
    assert_eq!(memory.translate(0xfee0_0000), Some(Mapping { frame: 0xfee0_0000, flags }));
    let mut starved = self::memory(1);
    let mut empty = OnceSlot::uninit();
    assert_eq!(
        init_local_apic(0xfee0_0000, &mut starved, &mut empty),
        Err(ApicError::Mapping(MapError::OutOfMemory))
    );
    assert_eq!(starved.translate(0xfee0_0000), None);
    assert!(!empty.is_initialized());
}

#[test]
fn local_apic_is_set_up_once() {
    let mut memory = memory(16);
    let mut slot = OnceSlot::uninit();
    assert!(init_local_apic(0xfee0_0000, &mut memory, &mut slot).is_ok());
    // A second attempt is refused, also on another address; the first
    // set-up stays and nothing more is mapped.
    assert_eq!(
        init_local_apic(0xfee0_0000, &mut memory, &mut slot),
        Err(ApicError::AlreadyInitialized)
    );
    assert_eq!(
        init_local_apic(0xfed0_0000, &mut memory, &mut slot),
        Err(ApicError::AlreadyInitialized)
    );
    assert_eq!(slot.get(), Ok(&local_config(0xfee0_0000)));
    assert_eq!(memory.translate(0xfed0_0000), None);
    assert_eq!(memory.allocate_frame(), Some(0x10_3000));
}

#[test]
fn io_apic_routes_keyboard_and_mouse() {
    assert_eq!(register_io_apic_entry(3, 0x29, 1), route(3, 0x29, 1));
    let mut memory = memory(16);
    let mut slot = OnceSlot::uninit();
    // Without a local APIC there is nobody to route to.
    assert_eq!(
        init_io_apic(0xfec0_0000, 3, &mut memory, &slot),
        Err(ApicError::NotInitialized)
    );
    assert_eq!(memory.translate(0xfec0_0000), None);
    assert!(init_local_apic(0xfee0_0000, &mut memory, &mut slot).is_ok());
    assert_eq!(
        init_io_apic(0xfec0_0000, 3, &mut memory, &slot),
        Ok(IoApicConfig {
            address: 0xfec0_0000,
            vector_offset: 0x28,
            keyboard: route(3, 0x29, 1),
            mouse: route(3, 0x34, 12),
        })
    );
    assert!(memory.translate(0xfec0_0000).is_some());
    assert_eq!(
        init_io_apic(0x0000_8000_0000_0000, 3, &mut memory, &slot),
        Err(ApicError::Mapping(MapError::NotCanonical))
    );
}

#[test]
fn redirection_entry_registers_are_bit_exact() {
    let entry = route(0xab, 0x29, 1).entry;
    assert_eq!(entry.registers(), (0x0001_a029, 0xab00_0000));
    let edge = RedirectionEntry {
        vector: 0xff,
        mode: IrqMode::External,
        destination: 0,
        low_active: false,
        level_triggered: false,
        masked: false,
    };
    assert_eq!(edge.registers(), (0x0000_07ff, 0));
    let nmi = RedirectionEntry { mode: IrqMode::NonMaskable, vector: 2, ..edge };
    assert_eq!(nmi.registers(), (0x0000_0402, 0));
    for mode in [
        IrqMode::Fixed,
        IrqMode::LowestPriority,
        IrqMode::SystemManagement,
        IrqMode::NonMaskable,
        IrqMode::Init,
        IrqMode::External,
    ] {
        for bits in 0..8u8 {
            let e = RedirectionEntry {
                vector: 0x40 + bits,
                mode,
                destination: 0xf0 | bits,
                low_active: bits & 1 != 0,
                level_triggered: bits & 2 != 0,
                masked: bits & 4 != 0,
            };
            let (low, high) = e.registers();
            assert_eq!(RedirectionEntry::from_registers(low, high), Some(e));
        }
    }
    assert_eq!(RedirectionEntry::from_registers(0x0000_0300, 0), None);
    assert_eq!(RedirectionEntry::from_registers(0x0000_0600, 0), None);
}

fn apic(boot_apic_id: u32, io_apics: Vec<IoApic>) -> Apic {
    Apic {
        boot_processor: Processor {
            processor_uid: 0,
            local_apic_id: boot_apic_id,
            state: ProcessorState::Running,
            is_ap: false,
        },
        application_processors: Vec::new(),
        local_apic_address: 0xfee0_0000,
        io_apics,
        interrupt_source_overrides: Vec::new(),
        also_has_legacy_pics: true,
    }
}

fn io_apic_steps(address: u64, lapic_id: u8) -> Vec<ApicStep> {
    vec![
        ApicStep::ConfigureIoApic { address, vector_offset: 0x28 },
        ApicStep::WriteRedirection { address, route: route(lapic_id, 0x29, 1) },
        ApicStep::UnmaskIrq { address, irq: 1 },
        ApicStep::WriteRedirection { address, route: route(lapic_id, 0x34, 12) },
        ApicStep::UnmaskIrq { address, irq: 12 },
    ]
}

#[test]
fn bring_up_script_is_in_order() {
    let apic = apic(
        5,
        vec![
            IoApic { id: 0, address: 0xfec0_0000, global_system_interrupt_base: 0 },
            IoApic { id: 1, address: 0xfec0_1000, global_system_interrupt_base: 24 },
        ],
    );
    let mut memory = memory(16);
    let mut idt = OnceSlot::uninit();
    let mut local_apic = OnceSlot::uninit();
    let steps = init_apic(&apic, &mut memory, &mut idt, &mut local_apic).unwrap();
    let mut expected = vec![
        ApicStep::DisableInterrupts,
        ApicStep::DisableLegacyPic(LegacyPicShutdown { offset_1: 0x20, offset_2: 0x28 }),
        ApicStep::LoadInterruptTable,
        ApicStep::EnableLocalApic(local_config(0xfee0_0000)),
    ];
    expected.extend(io_apic_steps(0xfec0_0000, 5));
    expected.extend(io_apic_steps(0xfec0_1000, 5));
    expected.push(ApicStep::EnableInterrupts);
    assert_eq!(steps, expected);
    assert!(memory.translate(0xfee0_0000).is_some());
    assert!(memory.translate(0xfec0_0000).is_some());
    assert!(memory.translate(0xfec0_1000).is_some());
    assert_eq!(disable_legacy_pic(), LegacyPicShutdown { offset_1: 0x20, offset_2: 0x28 });
    assert_eq!(local_apic.get(), Ok(&local_config(0xfee0_0000)));
    // The table that was loaded is the kernel's, and it is closed.
    let table = idt.get().unwrap();
    assert!(table.is_loaded());
    assert_eq!(
        table.binding(13),
        Some(Binding { handler: Handler::GeneralProtectionFault, stack_index: None })
    );
}

#[test]
fn every_written_line_is_unmasked_next() {
    let apic = apic(
        0x1ff,
        vec![
            IoApic { id: 0, address: 0xfec0_0000, global_system_interrupt_base: 0 },
            IoApic { id: 1, address: 0xfec0_1000, global_system_interrupt_base: 24 },
            IoApic { id: 2, address: 0xfec0_2000, global_system_interrupt_base: 48 },
        ],
    );
    let mut memory = memory(16);
    let mut idt = OnceSlot::uninit();
    let mut local_apic = OnceSlot::uninit();
    let steps = init_apic(&apic, &mut memory, &mut idt, &mut local_apic).unwrap();
    assert_eq!(steps.len(), 5 + 3 * 5);
    let mut written = 0;
    for (i, step) in steps.iter().enumerate() {
        if let ApicStep::WriteRedirection { address, route } = step {
            written += 1;
            assert!(route.entry.masked);
            // The identifier of the boot processor's local APIC, cut to a byte.
            assert_eq!(route.entry.destination, 0xff);
            assert_eq!(steps[i + 1], ApicStep::UnmaskIrq { address: *address, irq: route.irq });
        }
    }
    assert_eq!(written, 6);
}

#[test]
fn bring_up_happens_once() {
    let apic = apic(0, Vec::new());
    let mut memory = memory(16);
    let mut idt = OnceSlot::uninit();
    let mut local_apic = OnceSlot::uninit();
    assert_eq!(init_apic(&apic, &mut memory, &mut idt, &mut local_apic).unwrap().len(), 5);
    assert_eq!(
        init_apic(&apic, &mut memory, &mut idt, &mut local_apic),
        Err(ApicError::AlreadyInitialized)
    );
    // A table that is there already refuses the bring-up too.
    let mut fresh = OnceSlot::uninit();
    assert_eq!(
        init_apic(&apic, &mut memory, &mut idt, &mut fresh),
        Err(ApicError::AlreadyInitialized)
    );
    assert!(!fresh.is_initialized());
    let mut no_table = OnceSlot::uninit();
    assert_eq!(
        init_apic(&apic, &mut memory, &mut no_table, &mut local_apic),
        Err(ApicError::AlreadyInitialized)
    );
    assert!(!no_table.is_initialized());
}

#[test]
fn bring_up_without_memory() {
    let mut starved = self::memory(2);
    let mut idt = OnceSlot::uninit();
    let mut local_apic = OnceSlot::uninit();
    assert_eq!(
        init_apic(&apic(0, Vec::new()), &mut starved, &mut idt, &mut local_apic),
        Err(ApicError::Mapping(MapError::OutOfMemory))
    );
    assert!(!local_apic.is_initialized());
    // The local APIC takes three tables and the first I/O APIC one more; the
    // second I/O APIC lies elsewhere and needs two that are not there.
    let apic = apic(
        0,
        vec![
            IoApic { id: 0, address: 0xfec0_0000, global_system_interrupt_base: 0 },
            IoApic { id: 1, address: 0x4000_0000, global_system_interrupt_base: 24 },
        ],
    );
    let mut tight = self::memory(4);
    let mut idt = OnceSlot::uninit();
    let mut local_apic = OnceSlot::uninit();
    assert_eq!(
        init_apic(&apic, &mut tight, &mut idt, &mut local_apic),
        Err(ApicError::Mapping(MapError::OutOfMemory))
    );
    assert!(tight.translate(0xfee0_0000).is_some());
    assert!(tight.translate(0xfec0_0000).is_some());
    assert_eq!(tight.translate(0x4000_0000), None);
    assert!(local_apic.is_initialized());
}

#[test]
fn kernel_table_binds_the_kernel_handlers() {
    let table = InterruptTable::kernel();
    assert!(!table.is_loaded());
    let bound = [
        (0u8, Handler::DivideError),
        (2, Handler::NonMaskableInterrupt),
        (3, Handler::Breakpoint),
        (6, Handler::InvalidOpcode),
        (8, Handler::DoubleFault),
        (11, Handler::SegmentNotPresent),
        (12, Handler::StackSegmentFault),
        (13, Handler::GeneralProtectionFault),
        (14, Handler::PageFault),
        (0x29, Handler::Keyboard),
        (0x34, Handler::Mouse),
        (0x90, Handler::ApicError),
        (0x91, Handler::Timer),
    ];
    for vector in 0..=255u8 {
        let expected = bound.iter().find(|(v, _)| *v == vector).map(|(_, handler)| Binding {
            handler: *handler,
            // Only the double fault runs on a stack of its own.
            stack_index: if vector == 8 { Some(DOUBLE_FAULT_IST_INDEX) } else { None },
        });
        assert_eq!(table.binding(vector), expected);
    }
}

#[test]
fn table_is_immutable_once_loaded() {
    let mut table = InterruptTable::new();
    assert_eq!(table.bind(0, Handler::DivideError, None), Ok(()));
    assert_eq!(table.load(), Ok(()));
    assert!(table.is_loaded());
    assert_eq!(table.bind(6, Handler::InvalidOpcode, None), Err(IdtError::Loaded));
    assert_eq!(table.bind(0, Handler::DivideError, None), Err(IdtError::Loaded));
    assert_eq!(table.load(), Err(IdtError::Loaded));
    assert_eq!(table.binding(6), None);
    assert_eq!(
        table.binding(0),
        Some(Binding { handler: Handler::DivideError, stack_index: None })
    );
}

#[test]
fn binding_rules() {
    let mut table = InterruptTable::new();
    assert_eq!(table.bind(4, Handler::Breakpoint, None), Err(IdtError::WrongVector));
    assert_eq!(table.bind(31, Handler::Timer, None), Err(IdtError::WrongVector));
    assert_eq!(table.bind(3, Handler::Timer, None), Err(IdtError::WrongVector));
    assert_eq!(table.bind(32, Handler::Timer, None), Ok(()));
    assert_eq!(table.bind(32, Handler::Keyboard, None), Err(IdtError::SlotTaken));
    assert_eq!(table.bind(33, Handler::Timer, None), Ok(()));
    assert_eq!(table.bind(8, Handler::DoubleFault, Some(7)), Err(IdtError::NoSuchStack));
    assert_eq!(table.bind(8, Handler::DoubleFault, Some(6)), Ok(()));
    assert_eq!(table.bind(8, Handler::DoubleFault, Some(0)), Err(IdtError::SlotTaken));
    assert_eq!(table.bind(2, Handler::NonMaskableInterrupt, None), Ok(()));
    assert_eq!(table.bind(11, Handler::SegmentNotPresent, None), Ok(()));
    assert_eq!(table.bind(12, Handler::StackSegmentFault, None), Ok(()));
    assert_eq!(table.bind(13, Handler::GeneralProtectionFault, None), Ok(()));
    assert_eq!(table.bind(14, Handler::PageFault, None), Ok(()));
    assert_eq!(Handler::PageFault.exception_vector(), Some(14));
    assert_eq!(Handler::Mouse.exception_vector(), None);
    assert_eq!(
        table.binding(32),
        Some(Binding { handler: Handler::Timer, stack_index: None })
    );
}

fn fatal(exception: Exception, error_code: Option<u64>) -> Diagnosis {
    Diagnosis {
        exception,
        stack_frame: FRAME,
        error_code,
        accessed_address: None,
        disposition: Disposition::Panic,
    }
}

#[test]
fn exception_handlers_decide_by_class() {
    let resume = Diagnosis { disposition: Disposition::Resume, ..fatal(Exception::Breakpoint, None) };
    assert_eq!(breakpoint_handler(FRAME), resume);
    assert_eq!(
        kernel::interrupts::exception_handlers::breakpoint_handler(FRAME),
        resume
    );
    assert_eq!(non_maskable_interrupt_handler(FRAME), fatal(Exception::NonMaskable, None));
    assert_eq!(divide_error_handler(FRAME), fatal(Exception::DivideError, None));
    assert_eq!(invalid_opcode_handler(FRAME), fatal(Exception::InvalidOpcode, None));
    assert_eq!(
        general_protection_fault_handler(FRAME, 0x10),
        fatal(Exception::GeneralProtectionFault, Some(0x10))
    );
    assert_eq!(
        stack_segment_fault_handler(FRAME, 3),
        fatal(Exception::StackSegmentFault, Some(3))
    );
    assert_eq!(
        segment_not_present_handler(FRAME, 4),
        fatal(Exception::SegmentNotPresent, Some(4))
    );
    assert_eq!(double_fault_handler(FRAME, 9), fatal(Exception::DoubleFault, None));
    assert_eq!(
        kernel::interrupts::exception_handlers::double_fault_handler(FRAME, 0),
        fatal(Exception::DoubleFault, None)
    );
    let parked = Diagnosis {
        exception: Exception::PageFault,
        stack_frame: FRAME,
        error_code: Some(2),
        accessed_address: Some(0xdead_b000),
        disposition: Disposition::Halt,
    };
    assert_eq!(page_fault_handler(FRAME, 2, 0xdead_b000), parked);
    assert_eq!(
        kernel::interrupts::exception_handlers::page_fault_handler(FRAME, 2, 0xdead_b000),
        parked
    );
    assert_eq!(apic_error_handler(FRAME, 0x40), ApicFailure { error_flags: 0x40 });
}

#[test]
fn device_handlers_queue_and_signal_end_of_interrupt() {
    assert_eq!(timer_interrupt_handler(FRAME), Handled { queued: None, end_of_interrupt: true });
    let mut queue = EventQueue::uninit();
    // A queue that was never set up is a fault, not a full queue.
    assert_eq!(
        keyboard_interrupt_handler(FRAME, 0x1e, &mut queue),
        Err(QueueError::NotInitialized)
    );
    assert_eq!(
        mouse_interrupt_handler(FRAME, 0x08, &mut queue),
        Err(QueueError::NotInitialized)
    );
    assert_eq!(queue.init(1), Ok(()));
    assert_eq!(
        keyboard_interrupt_handler(FRAME, 0x1e, &mut queue),
        Ok(Handled { queued: Some(PushOutcome::Queued), end_of_interrupt: true })
    );
    assert_eq!(
        mouse_interrupt_handler(FRAME, 0x08, &mut queue),
        Ok(Handled { queued: Some(PushOutcome::Dropped), end_of_interrupt: true })
    );
    assert_eq!(queue.pop(), Ok(Some(0x1e)));
    assert_eq!(
        mouse_interrupt_handler(FRAME, 0x08, &mut queue),
        Ok(Handled { queued: Some(PushOutcome::Queued), end_of_interrupt: true })
    );
    assert_eq!(queue.pop(), Ok(Some(0x08)));
}

#[test]
fn double_fault_stack_top() {
    assert_eq!(DOUBLE_FAULT_IST_INDEX, 0);
    assert_eq!(DOUBLE_FAULT_STACK_SIZE, 4096 * 5);
    assert_eq!(stack_top(0x8_0000, DOUBLE_FAULT_STACK_SIZE), Some(0x8_5000));
    assert_eq!(stack_top(u64::MAX - 10, 10), Some(u64::MAX));
    assert_eq!(stack_top(u64::MAX - 10, 11), None);
}
