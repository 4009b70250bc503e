use kosmos_core::interrupts::handle_timer_interrupt;
use kosmos_core::interrupts::init_idt;
use kosmos_core::keyboard::CombinedStream;
use kosmos_core::keyboard::PollByte;
use kosmos_core::vga::Writer;
use kosmos_core::interrupts::HandlerKind;
use kosmos_core::interrupts::InterruptIndex;
use kosmos_core::interrupts::BREAKPOINT_VECTOR;
use kosmos_core::interrupts::DOUBLE_FAULT_IST_INDEX;
use kosmos_core::interrupts::DOUBLE_FAULT_VECTOR;
use kosmos_core::interrupts::IDT_ENTRIES;
use kosmos_core::interrupts::PAGE_FAULT_VECTOR;
use kosmos_core::interrupts::PIC_1_OFFSET;
use kosmos_core::interrupts::PIC_2_OFFSET;

#[test]
fn hardware_lines_sit_on_the_remapped_vectors() {
    assert_eq!(PIC_1_OFFSET, 32);
    assert_eq!(PIC_2_OFFSET, 40);
    assert_eq!(InterruptIndex::Timer.as_u8(), 32);
    assert_eq!(InterruptIndex::Keyboard.as_u8(), 33);
    assert_eq!(InterruptIndex::Timer.as_usize(), 32);
    assert_eq!(InterruptIndex::Keyboard.as_usize(), 33);
}

#[test]
fn the_timer_handler_ticks_and_prints_a_dot() {
    let mut ticks: u64 = 41;
    let mut display = Writer::new();
    handle_timer_interrupt(&mut ticks, &mut display);
    assert_eq!(ticks, 42);
    assert_eq!(display.char_at(0, 0), b'.');
    assert_eq!(display.cursor_position(), 1);
}

#[test]
fn the_keyboard_handler_hands_the_byte_to_the_bridge() {
    // the handler reads port 0x60 and pushes the raw byte, unseen, into
    // the bridge; the consumer observes it on its next poll
    let mut bridge = CombinedStream::new();
    assert_eq!(bridge.add_ps2_scancode(0x23), Ok(None));
    assert_eq!(bridge.poll_next(1), PollByte::Ready(0x23));
}

#[test]
fn the_vector_table_binds_every_handler_once() {
    let table = init_idt();
    assert_eq!(table.entry(BREAKPOINT_VECTOR as usize).handler, HandlerKind::Breakpoint);
    let double_fault = table.entry(DOUBLE_FAULT_VECTOR as usize);
    assert_eq!(double_fault.handler, HandlerKind::DoubleFault);
    // the double fault handler runs on its own stack
    assert_eq!(double_fault.stack_index, Some(DOUBLE_FAULT_IST_INDEX));
    assert_eq!(table.entry(PAGE_FAULT_VECTOR as usize).handler, HandlerKind::PageFault);
    assert_eq!(table.entry(32).handler, HandlerKind::Timer);
    assert_eq!(table.entry(33).handler, HandlerKind::Keyboard);

    let mut missing = 0;
    for v in 0..IDT_ENTRIES {
        let entry = table.entry(v);
        if entry.handler == HandlerKind::Missing {
            missing += 1;
            assert_eq!(entry.stack_index, None);
        }
    }
    assert_eq!(missing, IDT_ENTRIES - 5);
}
