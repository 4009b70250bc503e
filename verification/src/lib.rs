//! The runtime core of a bare-metal, single-address-space kernel: the
//! subsystems that take a booted CPU from a flat, interrupt-less state to
//! one where hardware events — keyboard input, timer ticks — are consumed
//! by cooperative tasks backed by a dynamically allocated heap.
//!
//! The pieces, leaves first: the interrupt vector assignment
//! ([`interrupts`]), the physical frame allocator ([`allocator`]), the
//! heap bootstrap and arena ([`heap`]), the interrupt-to-async bridge
//! with its event queues and line editor ([`keyboard`]), the cooperative
//! executor with its missed-wakeup-free idle protocol ([`executor`]),
//! the timer ([`timer`]), and the display, serial and shell
//! collaborators at the boundary ([`vga`], [`serial`], [`shell`]).
//!
//! Everything here works on plain values. The few steps that only the
//! machine can take — port reads and writes, loading descriptor tables,
//! installing page-table mappings, halting — are performed by the
//! embedding kernel around this crate, which hands the results in and
//! carries the planned effects out.

pub mod allocator;
pub mod executor;
pub mod heap;
pub mod interrupts;
pub mod keyboard;
pub mod serial;
pub mod shell;
pub mod text;
pub mod timer;
pub mod vga;
