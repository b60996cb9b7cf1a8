//! The trap and interrupt dispatch table: 256 slots, each empty or bound to
//! one handler. Handlers are bound while the table is unloaded; loading it
//! happens once, and after that the table does not change.
use crate::gdt::{DOUBLE_FAULT_IST_INDEX, IST_ENTRIES};
use crate::interrupts::InterruptIndex;
use vstd::prelude::*;

verus! {

/// Number of slots of the table.
pub const VECTOR_COUNT: usize = 256;

/// Number of the vectors that the processor keeps for its own exceptions.
pub const EXCEPTION_VECTORS: u8 = 32;

/// The handlers that the kernel has.
#[derive(Clone, Copy, Debug, PartialEq, Eq, Structural)]
pub enum Handler {
    /// Division by zero.
    DivideError,
    /// Non-maskable interrupt.
    NonMaskableInterrupt,
    /// Breakpoint.
    Breakpoint,
    /// Invalid opcode.
    InvalidOpcode,
    /// Double fault.
    DoubleFault,
    /// Segment not present.
    SegmentNotPresent,
    /// Stack segment fault.
    StackSegmentFault,
    /// General protection fault.
    GeneralProtectionFault,
    /// Page fault.
    PageFault,
    /// An error inside the local APIC.
    ApicError,
    /// The local APIC timer.
    Timer,
    /// The keyboard.
    Keyboard,
    /// The mouse.
    Mouse,
}

impl Handler {
    /// The vector that the architecture fixes for an exception handler;
    /// `None` for the handler of a device interrupt, whose vector the kernel
    /// chooses.
    pub open spec fn architectural_vector(self) -> Option<u8> {
        match self {
            Handler::DivideError => Some(0u8),
            Handler::NonMaskableInterrupt => Some(2u8),
            Handler::Breakpoint => Some(3u8),
            Handler::InvalidOpcode => Some(6u8),
            Handler::DoubleFault => Some(8u8),
            Handler::SegmentNotPresent => Some(11u8),
            Handler::StackSegmentFault => Some(12u8),
            Handler::GeneralProtectionFault => Some(13u8),
            Handler::PageFault => Some(14u8),
            _ => None,
        }
    }

    /// Whether the handler may be bound to `vector`: an exception handler
    /// only to its own vector, a device handler only above the vectors of
    /// the exceptions.
    pub open spec fn fits(self, vector: u8) -> bool {
        match self.architectural_vector() {
            Some(v) => v == vector,
            None => vector >= 32,
        }
    }

    /// The vector that the architecture fixes for the handler, if any.
    pub fn exception_vector(self) -> (v: Option<u8>)
        ensures
            v == self.architectural_vector(),
    {
        match self {
            Handler::DivideError => Some(0),
            Handler::NonMaskableInterrupt => Some(2),
            Handler::Breakpoint => Some(3),
            Handler::InvalidOpcode => Some(6),
            Handler::DoubleFault => Some(8),
            Handler::SegmentNotPresent => Some(11),
            Handler::StackSegmentFault => Some(12),
            Handler::GeneralProtectionFault => Some(13),
            Handler::PageFault => Some(14),
            _ => None,
        }
    }
}

/// What a slot is bound to.
#[derive(Clone, Copy, Debug, PartialEq, Eq, Structural)]
pub struct Binding {
    /// The handler.
    pub handler: Handler,
    /// The entry of the interrupt stack table whose stack the handler runs
    /// on; `None` for the stack that was in use.
    pub stack_index: Option<u16>,
}

/// Why the table refused.
#[derive(Clone, Copy, Debug, PartialEq, Eq, Structural)]
pub enum IdtError {
    /// The table is loaded and does not change any more.
    Loaded,
    /// The slot is bound to a handler already.
    SlotTaken,
    /// The handler may not be bound to this vector.
    WrongVector,
    /// The interrupt stack table has no such entry.
    NoSuchStack,
}

/// What the table stands for.
pub struct TableView {
    /// The bound slots, by vector.
    pub slots: Map<u8, Binding>,
    /// Whether the table is active on the processor.
    pub loaded: bool,
}

impl TableView {
    /// What binding `binding` to `vector` answers.
    pub open spec fn bind_outcome(self, vector: u8, binding: Binding) -> Result<(), IdtError> {
        if self.loaded {
            Err(IdtError::Loaded)
        } else if !binding.handler.fits(vector) {
            Err(IdtError::WrongVector)
        } else if binding.stack_index matches Some(index) && index >= IST_ENTRIES {
            Err(IdtError::NoSuchStack)
        } else if self.slots.dom().contains(vector) {
            Err(IdtError::SlotTaken)
        } else {
            Ok(())
        }
    }

    /// The state after binding: a binding that is accepted fills its slot, a
    /// refusal changes nothing.
    pub open spec fn after_bind(self, vector: u8, binding: Binding) -> TableView {
        if self.bind_outcome(vector, binding) is Ok {
            TableView { slots: self.slots.insert(vector, binding), ..self }
        } else {
            self
        }
    }

    /// The state after loading.
    pub open spec fn after_load(self) -> TableView {
        TableView { loaded: true, ..self }
    }

    /// What the slot of `vector` is bound to.
    pub open spec fn binding_of(self, vector: u8) -> Option<Binding> {
        if self.slots.dom().contains(vector) {
            Some(self.slots[vector])
        } else {
            None
        }
    }
}

/// The dispatch table.
pub struct InterruptTable {
    slots: Vec<Option<Binding>>,
    loaded: bool,
}

impl View for InterruptTable {
    type V = TableView;

    closed spec fn view(&self) -> TableView {
        TableView {
            slots: Map::new(
                |v: u8| v < self.slots.len() && self.slots[v as int] is Some,
                |v: u8| self.slots[v as int].unwrap(),
            ),
            loaded: self.loaded,
        }
    }
}

impl InterruptTable {
    /// The invariant: the table has its 256 slots, and every bound handler
    /// stands where it may stand.
    pub closed spec fn wf(&self) -> bool {
        &&& self.slots.len() == 256
        &&& forall|v: int|
            0 <= v < 256 ==> (#[trigger] self.slots[v] matches Some(b) ==> b.handler.fits(v as u8))
    }

    /// Every bound handler stands where it may stand.
    pub proof fn lemma_bound_handlers_fit(&self, vector: u8)
        requires
            self.wf(),
        ensures
            self@.binding_of(vector) matches Some(b) ==> b.handler.fits(vector),
    {
        assert(self.slots[vector as int] == self.slots[vector as int]);
    }

    /// An unloaded table, all of whose slots are empty.
    pub fn new() -> (table: InterruptTable)
        ensures
            table.wf(),
            table@ == (TableView { slots: Map::empty(), loaded: false }),
    {
        let mut slots: Vec<Option<Binding>> = Vec::new();
        let mut n: usize = 0;
        while n < 256
            invariant
                n <= 256,
                slots.len() == n,
                forall|v: int| 0 <= v < n ==> slots[v] is None,
            decreases 256 - n,
        {
            slots.push(None);
            n += 1;
        }
        let table = InterruptTable { slots, loaded: false };
        assert(table@.slots =~= Map::<u8, Binding>::empty());
        table
    }

    /// Binds `handler` to the slot of `vector`, to run on the stack that
    /// `stack_index` names. Refused once the table is loaded, for a handler
    /// that may not stand at that vector, for a stack that does not exist,
    /// and for a slot that is taken.
    pub fn bind(&mut self, vector: u8, handler: Handler, stack_index: Option<u16>) -> (r: Result<
        (),
        IdtError,
    >)
        requires
            old(self).wf(),
        ensures
            final(self).wf(),
            r == old(self)@.bind_outcome(vector, Binding { handler, stack_index }),
            final(self)@ == old(self)@.after_bind(vector, Binding { handler, stack_index }),
    {
        if self.loaded {
            return Err(IdtError::Loaded);
        }
        let fits = match handler.exception_vector() {
            Some(v) => v == vector,
            None => vector >= EXCEPTION_VECTORS,
        };
        if !fits {
            return Err(IdtError::WrongVector);
        }
        match stack_index {
            Some(index) => {
                if index >= IST_ENTRIES {
                    return Err(IdtError::NoSuchStack);
                }
            },
            None => {},
        }
        if self.slots[vector as usize].is_some() {
            return Err(IdtError::SlotTaken);
        }
        self.slots.set(vector as usize, Some(Binding { handler, stack_index }));
        assert(self@.slots =~= old(self)@.slots.insert(vector, Binding { handler, stack_index }));
        Ok(())
    }

    /// Makes the table the active one. This happens once; a table that is
    /// loaded already is refused.
    pub fn load(&mut self) -> (r: Result<(), IdtError>)
        requires
            old(self).wf(),
        ensures
            final(self).wf(),
            r == (if old(self)@.loaded {
                Err::<(), IdtError>(IdtError::Loaded)
            } else {
                Ok::<(), IdtError>(())
            }),
            final(self)@ == old(self)@.after_load(),
    {
        if self.loaded {
            return Err(IdtError::Loaded);
        }
        self.loaded = true;
        assert(self@.slots =~= old(self)@.slots);
        Ok(())
    }

    /// Whether the table is active.
    pub fn is_loaded(&self) -> (b: bool)
        ensures
            b == self@.loaded,
    {
        self.loaded
    }

    /// What the slot of `vector` is bound to. An empty slot means that the
    /// interrupt is not handled, which is fatal.
    pub fn binding(&self, vector: u8) -> (r: Option<Binding>)
        requires
            self.wf(),
        ensures
            r == self@.binding_of(vector),
    {
        self.slots[vector as usize]
    }

    /// The kernel's table, unloaded: a handler for each fault that the
    /// kernel knows, the double fault's on a stack of its own, and the
    /// handlers of the four device interrupts.
    pub fn kernel() -> (table: InterruptTable)
        ensures
            table.wf(),
            table@ == kernel_table(),
    {
        let mut table = InterruptTable::new();
        let _ = table.bind(0, Handler::DivideError, None);
        let _ = table.bind(2, Handler::NonMaskableInterrupt, None);
        let _ = table.bind(3, Handler::Breakpoint, None);
        let _ = table.bind(6, Handler::InvalidOpcode, None);
        let _ = table.bind(8, Handler::DoubleFault, Some(DOUBLE_FAULT_IST_INDEX));
        let _ = table.bind(11, Handler::SegmentNotPresent, None);
        let _ = table.bind(12, Handler::StackSegmentFault, None);
        let _ = table.bind(13, Handler::GeneralProtectionFault, None);
        let _ = table.bind(14, Handler::PageFault, None);
        let _ = table.bind(InterruptIndex::Keyboard.as_u8(), Handler::Keyboard, None);
        let _ = table.bind(InterruptIndex::Mouse.as_u8(), Handler::Mouse, None);
        let _ = table.bind(InterruptIndex::ApicError.as_u8(), Handler::ApicError, None);
        let _ = table.bind(InterruptIndex::Timer.as_u8(), Handler::Timer, None);
        assert(table@.slots =~= kernel_table().slots);
        table
    }
}

/// A binding on the stack that was in use.
pub open spec fn plain(handler: Handler) -> Binding {
    Binding { handler, stack_index: None }
}

/// What the kernel's table holds before it is loaded: the faults on the
/// vectors that the architecture gives them, the devices on theirs.
pub open spec fn kernel_table() -> TableView {
    TableView {
        slots: Map::<u8, Binding>::empty().insert(0u8, plain(Handler::DivideError)).insert(
            2u8,
            plain(Handler::NonMaskableInterrupt),
        ).insert(3u8, plain(Handler::Breakpoint)).insert(6u8, plain(Handler::InvalidOpcode)).insert(
            8u8,
            Binding { handler: Handler::DoubleFault, stack_index: Some(0u16) },
        ).insert(11u8, plain(Handler::SegmentNotPresent)).insert(
            12u8,
            plain(Handler::StackSegmentFault),
        ).insert(13u8, plain(Handler::GeneralProtectionFault)).insert(
            14u8,
            plain(Handler::PageFault),
        ).insert(0x29u8, plain(Handler::Keyboard)).insert(0x34u8, plain(Handler::Mouse)).insert(
            0x90u8,
            plain(Handler::ApicError),
        ).insert(0x91u8, plain(Handler::Timer)),
        loaded: false,
    }
}

/// The kernel's table binds exactly the nine fault vectors and the four
/// device vectors, each to the handler of its name.
pub proof fn law_kernel_table_binds(vector: u8)
    ensures
        kernel_table().slots.dom().contains(vector) <==> (vector == 0 || vector == 2 || vector == 3
            || vector == 6 || vector == 8 || vector == 11 || vector == 12 || vector == 13 || vector
            == 14 || vector == 0x29 || vector == 0x34 || vector == 0x90 || vector == 0x91),
        kernel_table().binding_of(vector) matches Some(b) ==> b.handler.fits(vector),
{
}

/// Once the table is loaded, no binding is accepted and the slots stay as
/// they are; loading again is refused and changes nothing either.
pub proof fn law_loaded_table_is_immutable(table: TableView, vector: u8, binding: Binding)
    requires
        table.loaded,
    ensures
        table.bind_outcome(vector, binding) == Err::<(), IdtError>(IdtError::Loaded),
        table.after_bind(vector, binding) == table,
        table.after_load() == table,
{
}

/// A slot is bound to one handler at most: a second binding of a bound slot
/// is refused, and the first stays.
pub proof fn law_slot_is_bound_once(table: TableView, vector: u8, first: Binding, second: Binding)
    requires
        table.bind_outcome(vector, first) is Ok,
    ensures
        table.after_bind(vector, first).bind_outcome(vector, second) is Err,
        table.after_bind(vector, first).after_bind(vector, second).binding_of(vector) == Some(
            first,
        ),
{
}

/// In the kernel's table the double fault's handler, and it alone, runs on
/// a stack of its own.
pub proof fn law_only_double_fault_has_own_stack(vector: u8)
    ensures
        kernel_table().binding_of(vector) matches Some(b) ==> (b.stack_index is Some <==> b.handler
            == Handler::DoubleFault),
{
}

} // verus!
