//! The interrupt vector table: which CPU vector is bound to which handler,
//! and the remapped hardware interrupt lines.
//!
//! Loading the table into the CPU and acknowledging the interrupt
//! controller are hardware steps performed outside this crate; the table
//! itself, and the vector assignment, are built and checked here.

use vstd::prelude::*;
use crate::timer::tick;
use crate::vga::spec_write_byte;
use crate::vga::Writer;

verus! {

/// First vector of the primary interrupt controller after remapping.
pub const PIC_1_OFFSET: u8 = 32;

/// First vector of the secondary interrupt controller after remapping.
pub const PIC_2_OFFSET: u8 = PIC_1_OFFSET + 8;

/// CPU-defined vector of the breakpoint exception.
pub const BREAKPOINT_VECTOR: u8 = 3;

/// CPU-defined vector of the double fault exception.
pub const DOUBLE_FAULT_VECTOR: u8 = 8;

/// CPU-defined vector of the page fault exception.
pub const PAGE_FAULT_VECTOR: u8 = 14;

/// Slot in the interrupt stack table reserved for the double fault handler,
/// so that a fault caused by stack exhaustion cannot itself fault.
pub const DOUBLE_FAULT_IST_INDEX: u16 = 0;

/// Number of entries in the interrupt descriptor table.
pub const IDT_ENTRIES: usize = 256;

/// The two remapped hardware interrupt lines this kernel uses.
#[derive(Clone, Copy, Debug, PartialEq, Eq, Structural)]
pub enum InterruptIndex {
    Timer,
    Keyboard,
}

impl InterruptIndex {
    /// The vector number of this hardware line: the timer sits on the first
    /// remapped vector, the keyboard on the one after it.
    pub fn as_u8(self) -> (v: u8)
        ensures
            self == InterruptIndex::Timer ==> v == PIC_1_OFFSET,
            self == InterruptIndex::Keyboard ==> v == PIC_1_OFFSET + 1,
    {
        match self {
            InterruptIndex::Timer => PIC_1_OFFSET,
            InterruptIndex::Keyboard => PIC_1_OFFSET + 1,
        }
    }

    /// The vector number as a table index.
    pub fn as_usize(self) -> (v: usize)
        ensures
            self == InterruptIndex::Timer ==> v == PIC_1_OFFSET,
            self == InterruptIndex::Keyboard ==> v == PIC_1_OFFSET + 1,
    {
        self.as_u8() as usize
    }
}

/// The handler a vector is bound to.
#[derive(Clone, Copy, Debug, PartialEq, Eq, Structural)]
pub enum HandlerKind {
    /// No handler installed.
    Missing,
    /// Reports and resumes.
    Breakpoint,
    /// Always fatal; runs on its own stack.
    DoubleFault,
    /// Reports the faulting condition and halts.
    PageFault,
    /// Advances the tick counter.
    Timer,
    /// Reads a scancode and hands it to the event bridge.
    Keyboard,
}

/// One entry of the vector table: a handler and, where one is set, the
/// interrupt-stack-table slot the handler runs on.
#[derive(Clone, Copy, Debug, PartialEq, Eq, Structural)]
pub struct IdtEntry {
    pub handler: HandlerKind,
    pub stack_index: Option<u16>,
}

/// The vector table: a fixed-size mapping from vector number to handler.
/// Built once, loaded once, immutable thereafter.
pub struct InterruptVectorTable {
    entries: Vec<IdtEntry>,
}

impl InterruptVectorTable {
    /// The entries as a sequence, for contracts.
    pub closed spec fn entries(&self) -> Seq<IdtEntry> {
        self.entries@
    }

    /// The entry at a vector, for callers that load the table.
    pub fn entry(&self, vector: usize) -> (e: IdtEntry)
        requires
            self.entries().len() == IDT_ENTRIES,
            vector < IDT_ENTRIES,
        ensures
            e == self.entries()[vector as int],
    {
        self.entries[vector]
    }
}

/// What `init_idt` installs at a given vector.
pub open spec fn spec_idt_entry(vector: int) -> IdtEntry {
    if vector == BREAKPOINT_VECTOR {
        IdtEntry { handler: HandlerKind::Breakpoint, stack_index: None }
    } else if vector == DOUBLE_FAULT_VECTOR {
        IdtEntry { handler: HandlerKind::DoubleFault, stack_index: Some(DOUBLE_FAULT_IST_INDEX) }
    } else if vector == PAGE_FAULT_VECTOR {
        IdtEntry { handler: HandlerKind::PageFault, stack_index: None }
    } else if vector == PIC_1_OFFSET {
        IdtEntry { handler: HandlerKind::Timer, stack_index: None }
    } else if vector == PIC_1_OFFSET + 1 {
        IdtEntry { handler: HandlerKind::Keyboard, stack_index: None }
    } else {
        IdtEntry { handler: HandlerKind::Missing, stack_index: None }
    }
}

/// What the timer interrupt handler computes: one tick on the monotonic
/// counter and a progress dot on the display. Acknowledging the
/// interrupt controller afterwards is a hardware step outside this
/// crate; the body is bounded and allocation-free. The keyboard
/// handler's counterpart is the bridge handoff itself,
/// `CombinedStream::add_ps2_scancode`: the handler reads the scancode
/// from the data port, pushes it there unseen, and acknowledges.
pub fn handle_timer_interrupt(ticks: &mut u64, display: &mut Writer)
    requires
        *old(ticks) < u64::MAX,
        old(display)@.wf(),
    ensures
        *final(ticks) == *old(ticks) + 1,
        final(display)@.wf(),
        final(display)@ == spec_write_byte(old(display)@, 46),
{
    display.write_byte(46);  // '.'
    tick(ticks);
}

/// Build the vector table: breakpoint, double fault (on its own stack),
/// page fault, and the two remapped hardware lines; every other vector is
/// left without a handler.
pub fn init_idt() -> (t: InterruptVectorTable)
    ensures
        t.entries().len() == IDT_ENTRIES,
        forall|v: int| 0 <= v < IDT_ENTRIES ==> t.entries()[v] == spec_idt_entry(v),
{
    let mut entries: Vec<IdtEntry> = Vec::new();
    let mut i: usize = 0;
    while i < IDT_ENTRIES
        invariant
            i <= IDT_ENTRIES,
            entries@.len() == i,
            forall|v: int| 0 <= v < i ==> entries@[v] == (IdtEntry {
                handler: HandlerKind::Missing,
                stack_index: None,
            }),
        decreases IDT_ENTRIES - i,
    {
        entries.push(IdtEntry { handler: HandlerKind::Missing, stack_index: None });
        i = i + 1;
    }
    let mut table = InterruptVectorTable { entries };
    table.entries.set(
        BREAKPOINT_VECTOR as usize,
        IdtEntry { handler: HandlerKind::Breakpoint, stack_index: None },
    );
    table.entries.set(
        DOUBLE_FAULT_VECTOR as usize,
        IdtEntry { handler: HandlerKind::DoubleFault, stack_index: Some(DOUBLE_FAULT_IST_INDEX) },
    );
    table.entries.set(
        PAGE_FAULT_VECTOR as usize,
        IdtEntry { handler: HandlerKind::PageFault, stack_index: None },
    );
    table.entries.set(
        InterruptIndex::Timer.as_usize(),
        IdtEntry { handler: HandlerKind::Timer, stack_index: None },
    );
    table.entries.set(
        InterruptIndex::Keyboard.as_usize(),
        IdtEntry { handler: HandlerKind::Keyboard, stack_index: None },
    );
    table
}

} // verus!
