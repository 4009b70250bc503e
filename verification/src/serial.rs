//! The serial byte sink and a formatter that prints a 64-bit value in
//! hexadecimal without any formatting machinery.
//!
//! The model records the bytes handed to the port in order; pushing each
//! byte out over the wire is an I/O step performed outside this crate.

use vstd::prelude::*;

verus! {

/// Base I/O port of the first serial interface.
pub const SERIAL_1_PORT: u16 = 0x3f8;

/// A serial port as its users see it: the ordered trace of bytes sent.
pub struct SerialSink {
    sent: Vec<u8>,
}

impl View for SerialSink {
    type V = Seq<u8>;

    closed spec fn view(&self) -> Seq<u8> {
        self.sent@
    }
}

impl SerialSink {
    /// A sink with nothing sent yet.
    pub fn new() -> (s: SerialSink)
        ensures
            s@ == Seq::<u8>::empty(),
    {
        SerialSink { sent: Vec::new() }
    }

    /// Send one byte.
    pub fn send(&mut self, byte: u8)
        ensures
            final(self)@ == old(self)@.push(byte),
    {
        self.sent.push(byte);
    }

    /// The bytes sent so far, oldest first, for the hardware driver and
    /// for tests.
    pub fn sent(&self) -> (v: &Vec<u8>)
        ensures
            v@ == self@,
    {
        &self.sent
    }
}

/// The character for one hexadecimal digit, upper case.
pub open spec fn spec_hex_digit(d: u8) -> u8 {
    if d < 10 {
        (48 + d) as u8
    } else {
        (55 + d) as u8
    }
}

/// The sixteen-digit hexadecimal rendering of a 64-bit value, most
/// significant nibble first.
pub open spec fn spec_hex_u64(n: u64) -> Seq<u8> {
    Seq::new(16, |i: int| spec_hex_digit(((n >> ((15 - i) * 4)) & 0xf) as u8))
}

fn hex_digit(d: u8) -> (c: u8)
    requires
        d < 16,
    ensures
        c == spec_hex_digit(d),
{
    if d < 10 {
        48 + d
    } else {
        55 + d
    }
}

/// Print a 64-bit value to the serial sink as sixteen hexadecimal digits,
/// most significant nibble first.
pub fn serial_print_hex_u64(serial: &mut SerialSink, n: u64)
    ensures
        final(serial)@ == old(serial)@ + spec_hex_u64(n),
{
    proof {
        assert(old(serial)@ + spec_hex_u64(n).take(0) =~= old(serial)@);
    }
    let mut i: usize = 0;
    while i < 16
        invariant
            i <= 16,
            serial@ == old(serial)@ + spec_hex_u64(n).take(i as int),
        decreases 16 - i,
    {
        let shift: u64 = ((15 - i) as u64) * 4;
        let nib: u64 = (n >> shift) & 0xf;
        proof {
            assert((n >> shift) & 0xf < 16) by (bit_vector);
        }
        let d: u8 = nib as u8;
        serial.send(hex_digit(d));
        i = i + 1;
        proof {
            assert(spec_hex_u64(n).take(i as int) =~= spec_hex_u64(n).take(i - 1).push(
                spec_hex_u64(n)[i - 1],
            ));
        }
    }
    proof {
        assert(spec_hex_u64(n).take(16) =~= spec_hex_u64(n));
    }
}

} // verus!
