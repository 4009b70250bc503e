use kosmos_core::keyboard::CombinedStream;
use kosmos_core::keyboard::EventQueue;
use kosmos_core::keyboard::PollByte;
use kosmos_core::keyboard::QUEUE_CAPACITY;

#[test]
fn event_queue_is_fifo_for_a_full_capacity_of_pushes() {
    let mut q = EventQueue::new();
    for i in 0..QUEUE_CAPACITY {
        assert!(q.push(i as u8).is_ok());
    }
    assert_eq!(q.len(), QUEUE_CAPACITY);
    // the 101st push on the full queue is the fatal overflow
    assert!(q.push(0xff).is_err());
    for i in 0..QUEUE_CAPACITY {
        assert_eq!(q.pop(), Some(i as u8));
    }
    assert_eq!(q.pop(), None);
}

#[test]
fn ps2_bytes_are_visible_in_arrival_order_while_usb_is_silent() {
    let mut stream = CombinedStream::new();
    assert_eq!(stream.add_ps2_scancode(0x1e), Ok(None));
    assert_eq!(stream.add_ps2_scancode(0x30), Ok(None));
    assert_eq!(stream.poll_next(1), PollByte::Ready(0x1e));
    assert_eq!(stream.poll_next(1), PollByte::Ready(0x30));
    assert_eq!(stream.poll_next(1), PollByte::Pending);
}

#[test]
fn first_usb_byte_flips_the_flag_without_appearing() {
    let mut stream = CombinedStream::new();
    // first USB byte: detection only, never queued
    assert_eq!(stream.add_usb_scancode(0x05), Ok(None));
    assert_eq!(stream.poll_next(1), PollByte::Pending);
    // PS/2 input is now discarded unmodified
    assert_eq!(stream.add_ps2_scancode(0x1e), Ok(None));
    assert_eq!(stream.poll_next(1), PollByte::Pending);
    // later USB bytes flow normally, waking the task the empty polls
    // registered on the USB queue
    assert_eq!(stream.add_usb_scancode(0x06), Ok(Some(1)));
    assert_eq!(stream.poll_next(1), PollByte::Ready(0x06));
}

#[test]
fn ps2_queue_is_checked_before_usb() {
    let mut stream = CombinedStream::new();
    // PS/2 bytes arrive while the USB source is still silent
    assert_eq!(stream.add_ps2_scancode(0x10), Ok(None));
    assert_eq!(stream.add_ps2_scancode(0x11), Ok(None));
    // then the USB source appears and queues a byte
    assert_eq!(stream.add_usb_scancode(0x99), Ok(None));
    assert_eq!(stream.add_usb_scancode(0x42), Ok(None));
    // the earlier PS/2 bytes still come out first
    assert_eq!(stream.poll_next(1), PollByte::Ready(0x10));
    assert_eq!(stream.poll_next(1), PollByte::Ready(0x11));
    assert_eq!(stream.poll_next(1), PollByte::Ready(0x42));
    assert_eq!(stream.poll_next(1), PollByte::Pending);
}

#[test]
fn a_push_wakes_the_registered_task_once() {
    let mut stream = CombinedStream::new();
    // an empty poll registers the waker on both queues
    assert_eq!(stream.poll_next(7), PollByte::Pending);
    // the next PS/2 byte wakes task 7 and consumes the registration
    assert_eq!(stream.add_ps2_scancode(0x1e), Ok(Some(7)));
    assert_eq!(stream.add_ps2_scancode(0x30), Ok(None));
    // the USB side still holds its own registration
    assert_eq!(stream.add_usb_scancode(0x05), Ok(None)); // detection byte
    assert_eq!(stream.add_usb_scancode(0x06), Ok(Some(7)));
    assert_eq!(stream.add_usb_scancode(0x07), Ok(None));
}

#[test]
fn overflowing_the_ps2_queue_is_fatal() {
    let mut stream = CombinedStream::new();
    for i in 0..QUEUE_CAPACITY {
        assert!(stream.add_ps2_scancode(i as u8).is_ok());
    }
    assert!(stream.add_ps2_scancode(0xff).is_err());
}
