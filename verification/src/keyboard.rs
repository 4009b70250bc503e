//! The interrupt-to-async bridge for keyboard input: two fixed-capacity
//! byte queues (PS/2 and USB), the arbitration between the two sources,
//! the merged stream the consumer polls, and the line editor built on it.
//!
//! Producers run in interrupt context: they must not block or allocate,
//! and treat a full queue as a fatal condition rather than dropping input
//! silently. The consumer registers a waker whenever it finds a queue
//! empty; waking the returned task id is the executor's job.

use vstd::prelude::*;
use crate::vga::Writer;
use crate::vga::WriterModel;
use crate::vga::spec_write_byte;
use crate::vga::spec_write_bytes;
use crate::vga::spec_backspace;

verus! {

/// Capacity of each event queue, in bytes.
pub const QUEUE_CAPACITY: usize = 100;

#[verifier::external_type_specification]
#[verifier::external_body]
#[verifier::reject_recursive_types(T)]
pub struct ExArrayQueue<T>(crossbeam_queue::ArrayQueue<T>);

/// What a queue holds, oldest first.
pub uninterp spec fn array_queue_contents(q: crossbeam_queue::ArrayQueue<u8>) -> Seq<u8>;

/// The capacity the queue was created with.
pub uninterp spec fn array_queue_capacity(q: crossbeam_queue::ArrayQueue<u8>) -> nat;

/// Relies on `crossbeam_queue::ArrayQueue::new`: builds an empty queue
/// with the given capacity. `new` panics on a zero (or absurdly large)
/// capacity, so small positive capacities are required here.
#[verifier::external_body]
fn array_queue_new(cap: usize) -> (q: crossbeam_queue::ArrayQueue<u8>)
    requires
        0 < cap <= 4096,
    ensures
        array_queue_contents(q) == Seq::<u8>::empty(),
        array_queue_capacity(q) == cap,
{
    crossbeam_queue::ArrayQueue::new(cap)
}

/// Relies on `crossbeam_queue::ArrayQueue::push`: appends the value at
/// the tail when there is room, and hands it back unchanged when the
/// queue is full.
#[verifier::external_body]
fn array_queue_push(q: &mut crossbeam_queue::ArrayQueue<u8>, value: u8) -> (r: Result<(), u8>)
    ensures
        array_queue_contents(*old(q)).len() < array_queue_capacity(*old(q)) ==> r is Ok
            && array_queue_contents(*final(q)) == array_queue_contents(*old(q)).push(value)
            && array_queue_capacity(*final(q)) == array_queue_capacity(*old(q)),
        array_queue_contents(*old(q)).len() >= array_queue_capacity(*old(q)) ==> r is Err
            && r->Err_0 == value && array_queue_contents(*final(q)) == array_queue_contents(
            *old(q),
        ) && array_queue_capacity(*final(q)) == array_queue_capacity(*old(q)),
{
    q.push(value)
}

/// Relies on `crossbeam_queue::ArrayQueue::pop`: removes and returns the
/// element at the head — the oldest one — or `None` when the queue is
/// empty.
#[verifier::external_body]
fn array_queue_pop(q: &mut crossbeam_queue::ArrayQueue<u8>) -> (r: Option<u8>)
    ensures
        array_queue_contents(*old(q)).len() == 0 ==> r is None && array_queue_contents(*final(q))
            == array_queue_contents(*old(q)) && array_queue_capacity(*final(q))
            == array_queue_capacity(*old(q)),
        array_queue_contents(*old(q)).len() > 0 ==> r == Some(array_queue_contents(*old(q))[0])
            && array_queue_contents(*final(q)) == array_queue_contents(*old(q)).drop_first()
            && array_queue_capacity(*final(q)) == array_queue_capacity(*old(q)),
{
    q.pop()
}

/// Relies on `crossbeam_queue::ArrayQueue::len`: the number of elements
/// currently in the queue.
#[verifier::external_body]
fn array_queue_len(q: &crossbeam_queue::ArrayQueue<u8>) -> (n: usize)
    ensures
        n == array_queue_contents(*q).len(),
{
    q.len()
}

/// A producer found its queue full. The design prefers a visible halt
/// over silently dropped keystrokes, so callers treat this as fatal.
#[derive(Clone, Copy, Debug, PartialEq, Eq, Structural)]
pub struct QueueFullError;

/// One bounded event queue: interrupt handlers push single bytes, the
/// consumer pops them in arrival order.
pub struct EventQueue {
    queue: crossbeam_queue::ArrayQueue<u8>,
}

impl View for EventQueue {
    type V = Seq<u8>;

    closed spec fn view(&self) -> Seq<u8> {
        array_queue_contents(self.queue)
    }
}

impl EventQueue {
    /// The queue was created with the fixed bridge capacity.
    pub closed spec fn wf(&self) -> bool {
        array_queue_capacity(self.queue) == QUEUE_CAPACITY
    }

    /// An empty queue of the fixed capacity.
    pub fn new() -> (q: EventQueue)
        ensures
            q.wf(),
            q@ == Seq::<u8>::empty(),
    {
        EventQueue { queue: array_queue_new(QUEUE_CAPACITY) }
    }

    /// Append one byte, or report the fatal full-queue condition, exactly
    /// when the queue already holds its full capacity.
    pub fn push(&mut self, value: u8) -> (r: Result<(), QueueFullError>)
        requires
            old(self).wf(),
        ensures
            final(self).wf(),
            old(self)@.len() < QUEUE_CAPACITY ==> r is Ok && final(self)@ == old(self)@.push(
                value,
            ),
            old(self)@.len() >= QUEUE_CAPACITY ==> r is Err && final(self)@ == old(self)@,
    {
        match array_queue_push(&mut self.queue, value) {
            Ok(_) => Ok(()),
            Err(_) => Err(QueueFullError),
        }
    }

    /// Remove and return the oldest byte, or `None` exactly when the
    /// queue is empty.
    pub fn pop(&mut self) -> (r: Option<u8>)
        requires
            old(self).wf(),
        ensures
            final(self).wf(),
            old(self)@.len() == 0 ==> r is None && final(self)@ == old(self)@,
            old(self)@.len() > 0 ==> r == Some(old(self)@[0]) && final(self)@ == old(
                self,
            )@.drop_first(),
    {
        array_queue_pop(&mut self.queue)
    }

    /// The number of bytes waiting.
    pub fn len(&self) -> (n: usize)
        ensures
            n == self@.len(),
    {
        array_queue_len(&self.queue)
    }
}

/// Pushing a whole sequence of bytes, one `EventQueue::push` at a time:
/// the contents after each successful push, or `None` as soon as a push
/// hits a full queue.
pub open spec fn spec_push_all(q: Seq<u8>, xs: Seq<u8>, cap: nat) -> Option<Seq<u8>>
    decreases xs.len(),
{
    if xs.len() == 0 {
        Some(q)
    } else if q.len() < cap {
        spec_push_all(q.push(xs[0]), xs.drop_first(), cap)
    } else {
        None
    }
}

/// Any sequence of pushes that fits in the capacity goes through whole,
/// and the queue then holds the bytes in push order — pops return them
/// first-in, first-out.
pub proof fn lemma_queue_fifo(q: Seq<u8>, xs: Seq<u8>, cap: nat)
    requires
        q.len() + xs.len() <= cap,
    ensures
        spec_push_all(q, xs, cap) == Some(q + xs),
    decreases xs.len(),
{
    if xs.len() == 0 {
        assert(q + xs =~= q);
    } else {
        lemma_queue_fifo(q.push(xs[0]), xs.drop_first(), cap);
        assert(q.push(xs[0]) + xs.drop_first() =~= q + xs);
    }
}

/// One more push on an already-full queue is the fatal overflow: the
/// sequence of pushes does not go through.
pub proof fn lemma_queue_overflow(q: Seq<u8>, xs: Seq<u8>, cap: nat)
    requires
        q.len() >= cap,
        xs.len() > 0,
    ensures
        spec_push_all(q, xs, cap) is None,
{
}

/// The bridge state as contracts see it: the two queues, the arbitration
/// flag, and the registered wakers.
pub struct StreamModel {
    pub ps2: Seq<u8>,
    pub usb: Seq<u8>,
    pub usb_active: bool,
    pub ps2_waker: Option<u64>,
    pub usb_waker: Option<u64>,
}

/// What a PS/2 byte does: discarded unmodified while the USB source is
/// active; otherwise queued, waking the registered waker, with a full
/// queue fatal. The result is the new state, the task to wake, and
/// whether the fatal overflow happened.
pub open spec fn spec_add_ps2(s: StreamModel, scancode: u8) -> (StreamModel, Option<u64>, bool) {
    if s.usb_active {
        (s, None, false)
    } else if s.ps2.len() < QUEUE_CAPACITY {
        (
            StreamModel { ps2: s.ps2.push(scancode), ps2_waker: None, ..s },
            s.ps2_waker,
            false,
        )
    } else {
        (s, None, true)
    }
}

/// What a USB byte does: the first byte observed while inactive only
/// flips the flag — it is never queued, so it never reaches the consumer;
/// afterwards bytes are queued, waking the registered waker, with a full
/// queue fatal.
pub open spec fn spec_add_usb(s: StreamModel, scancode: u8) -> (StreamModel, Option<u64>, bool) {
    if !s.usb_active {
        (StreamModel { usb_active: true, ..s }, None, false)
    } else if s.usb.len() < QUEUE_CAPACITY {
        (
            StreamModel { usb: s.usb.push(scancode), usb_waker: None, ..s },
            s.usb_waker,
            false,
        )
    } else {
        (s, None, true)
    }
}

/// What one poll does: the PS/2 queue is checked first and its head
/// returned at once when present; otherwise the waker is registered
/// there, the USB queue is checked next, and when that too is empty the
/// waker is registered there as well and the poll reports not-ready.
pub open spec fn spec_poll(s: StreamModel, waker: u64) -> (StreamModel, Option<u8>) {
    if s.ps2.len() > 0 {
        (StreamModel { ps2: s.ps2.drop_first(), ..s }, Some(s.ps2[0]))
    } else {
        let registered = StreamModel { ps2_waker: Some(waker), ..s };
        if s.usb.len() > 0 {
            (StreamModel { usb: s.usb.drop_first(), ..registered }, Some(s.usb[0]))
        } else {
            (StreamModel { usb_waker: Some(waker), ..registered }, None)
        }
    }
}

/// What one poll of the merged stream reported.
#[derive(Clone, Copy, Debug, PartialEq, Eq, Structural)]
pub enum PollByte {
    /// The next byte of the merged sequence.
    Ready(u8),
    /// Both queues were empty; the waker is registered on both.
    Pending,
}

/// The merged, lazy, infinite stream over the two event queues.
pub struct CombinedStream {
    ps2_queue: EventQueue,
    usb_queue: EventQueue,
    usb_active: bool,
    ps2_waker: Option<u64>,
    usb_waker: Option<u64>,
}

impl View for CombinedStream {
    type V = StreamModel;

    closed spec fn view(&self) -> StreamModel {
        StreamModel {
            ps2: self.ps2_queue@,
            usb: self.usb_queue@,
            usb_active: self.usb_active,
            ps2_waker: self.ps2_waker,
            usb_waker: self.usb_waker,
        }
    }
}

impl CombinedStream {
    /// Both queues were created with the bridge capacity.
    pub closed spec fn wf(&self) -> bool {
        self.ps2_queue.wf() && self.usb_queue.wf()
    }

    /// A fresh bridge: empty queues, no wakers, and the USB source not
    /// yet observed, so PS/2 input flows until a USB byte arrives.
    pub fn new() -> (s: CombinedStream)
        ensures
            s.wf(),
            s@ == (StreamModel {
                ps2: Seq::<u8>::empty(),
                usb: Seq::<u8>::empty(),
                usb_active: false,
                ps2_waker: None,
                usb_waker: None,
            }),
    {
        CombinedStream {
            ps2_queue: EventQueue::new(),
            usb_queue: EventQueue::new(),
            usb_active: false,
            ps2_waker: None,
            usb_waker: None,
        }
    }

    /// Called by the PS/2 keyboard interrupt handler. Must not block or
    /// allocate. Returns the task to wake, or the fatal overflow.
    pub fn add_ps2_scancode(&mut self, scancode: u8) -> (r: Result<Option<u64>, QueueFullError>)
        requires
            old(self).wf(),
        ensures
            final(self).wf(),
            spec_add_ps2(old(self)@, scancode).2 ==> r is Err && final(self)@ == old(self)@,
            !spec_add_ps2(old(self)@, scancode).2 ==> r is Ok && r->Ok_0 == spec_add_ps2(
                old(self)@,
                scancode,
            ).1 && final(self)@ == spec_add_ps2(old(self)@, scancode).0,
    {
        if self.usb_active {
            return Ok(None);
        }
        match self.ps2_queue.push(scancode) {
            Ok(_) => {
                let woken = self.ps2_waker;
                self.ps2_waker = None;
                Ok(woken)
            },
            Err(e) => Err(e),
        }
    }

    /// Called by the USB keyboard interrupt handler. Must not block or
    /// allocate. Returns the task to wake, or the fatal overflow.
    pub fn add_usb_scancode(&mut self, scancode: u8) -> (r: Result<Option<u64>, QueueFullError>)
        requires
            old(self).wf(),
        ensures
            final(self).wf(),
            spec_add_usb(old(self)@, scancode).2 ==> r is Err && final(self)@ == old(self)@,
            !spec_add_usb(old(self)@, scancode).2 ==> r is Ok && r->Ok_0 == spec_add_usb(
                old(self)@,
                scancode,
            ).1 && final(self)@ == spec_add_usb(old(self)@, scancode).0,
    {
        if !self.usb_active {
            self.usb_active = true;
            return Ok(None);
        }
        match self.usb_queue.push(scancode) {
            Ok(_) => {
                let woken = self.usb_waker;
                self.usb_waker = None;
                Ok(woken)
            },
            Err(e) => Err(e),
        }
    }

    /// One poll of the merged stream by the task identified by `waker`.
    pub fn poll_next(&mut self, waker: u64) -> (r: PollByte)
        requires
            old(self).wf(),
        ensures
            final(self).wf(),
            final(self)@ == spec_poll(old(self)@, waker).0,
            r == (match spec_poll(old(self)@, waker).1 {
                Some(b) => PollByte::Ready(b),
                None => PollByte::Pending,
            }),
    {
        // try PS/2 first
        if let Some(byte) = self.ps2_queue.pop() {
            return PollByte::Ready(byte);
        }
        self.ps2_waker = Some(waker);

        // then try USB
        if let Some(byte) = self.usb_queue.pop() {
            return PollByte::Ready(byte);
        }
        self.usb_waker = Some(waker);

        PollByte::Pending
    }
}

/// While the USB source has never produced a byte, the arbitration flag
/// stays down: neither PS/2 bytes nor polls raise it.
pub proof fn lemma_usb_stays_inactive(s: StreamModel, scancode: u8, waker: u64)
    requires
        !s.usb_active,
    ensures
        !spec_add_ps2(s, scancode).0.usb_active,
        !spec_poll(s, waker).0.usb_active,
{
}

/// While the USB source is inactive, a PS/2 byte that finds room is
/// queued behind the earlier ones — the consumer sees PS/2 bytes in
/// arrival order.
pub proof fn lemma_ps2_visible_in_order(s: StreamModel, scancode: u8)
    requires
        !s.usb_active,
        s.ps2.len() < QUEUE_CAPACITY,
    ensures
        !spec_add_ps2(s, scancode).2,
        spec_add_ps2(s, scancode).0.ps2 == s.ps2.push(scancode),
        spec_add_ps2(s, scancode).0.usb == s.usb,
{
}

/// A poll that finds the PS/2 queue non-empty returns its oldest byte at
/// once, consuming it and nothing else.
pub proof fn lemma_poll_returns_ps2_head(s: StreamModel, waker: u64)
    requires
        s.ps2.len() > 0,
    ensures
        spec_poll(s, waker).1 == Some(s.ps2[0]),
        spec_poll(s, waker).0.ps2 == s.ps2.drop_first(),
        spec_poll(s, waker).0.usb == s.usb,
{
}

/// The first USB byte observed while inactive is not queued — it can
/// never appear in the consumer's output — and it flips the flag, after
/// which PS/2 bytes are discarded unmodified.
pub proof fn lemma_first_usb_byte_flips(s: StreamModel, scancode: u8, later: u8)
    requires
        !s.usb_active,
    ensures
        !spec_add_usb(s, scancode).2,
        spec_add_usb(s, scancode).0.usb == s.usb,
        spec_add_usb(s, scancode).0.ps2 == s.ps2,
        spec_add_usb(s, scancode).0.usb_active,
        spec_add_ps2(spec_add_usb(s, scancode).0, later).0 == spec_add_usb(s, scancode).0,
        spec_add_ps2(spec_add_usb(s, scancode).0, later).1 is None,
{
}

#[verifier::external_type_specification]
#[verifier::external_body]
pub struct ExKeyEvent(pc_keyboard::KeyEvent);

/// A stateful scancode decoder: raw bytes in, decoded characters out.
/// It holds `pc_keyboard::PS2Keyboard`, whose generic bounds Verus does
/// not take in a type declaration, so the decoder state is opaque.
#[verifier::external_body]
pub struct KeyboardDecoder {
    keyboard: pc_keyboard::PS2Keyboard<pc_keyboard::layouts::Us104Key, pc_keyboard::ScancodeSet1>,
}

/// Relies on `pc_keyboard::PS2Keyboard::new`: a fresh decoder for scan
/// code set 1 with the US 104-key layout, control characters kept as
/// Unicode.
#[verifier::external_body]
fn keyboard_new() -> (kb: KeyboardDecoder) {
    KeyboardDecoder {
        keyboard: pc_keyboard::PS2Keyboard::new(
            pc_keyboard::ScancodeSet1::new(),
            pc_keyboard::layouts::Us104Key,
            pc_keyboard::HandleControl::Ignore,
        ),
    }
}

/// Relies on `pc_keyboard::PS2Keyboard::add_byte`: advances the scan
/// code state machine by one byte; a completed key press or release comes
/// back as an event. Malformed input comes back as an error, dropped here
/// as the handlers drop it — a malformed event is reported, not fatal.
#[verifier::external_body]
fn keyboard_add_byte(kb: &mut KeyboardDecoder, scancode: u8) -> (r: Option<
    pc_keyboard::KeyEvent,
>) {
    match kb.keyboard.add_byte(scancode) {
        Ok(event) => event,
        Err(_) => None,
    }
}

/// Relies on `pc_keyboard::PS2Keyboard::process_keyevent`: folds the
/// modifier state into the event and yields the decoded key. Only Unicode
/// keys carry a character; raw keys decode to none.
#[verifier::external_body]
fn keyboard_process_keyevent(kb: &mut KeyboardDecoder, event: pc_keyboard::KeyEvent) -> (r:
    Option<char>) {
    match kb.keyboard.process_keyevent(event) {
        Some(pc_keyboard::DecodedKey::Unicode(character)) => Some(character),
        Some(pc_keyboard::DecodedKey::RawKey(_)) => None,
        None => None,
    }
}

impl KeyboardDecoder {
    /// A fresh decoder.
    pub fn new() -> KeyboardDecoder {
        keyboard_new()
    }

    /// Feed one scancode; a character comes out when the byte completes
    /// the press of a Unicode-producing key.
    pub fn decode(&mut self, scancode: u8) -> Option<char> {
        match keyboard_add_byte(self, scancode) {
            Some(event) => keyboard_process_keyevent(self, event),
            None => None,
        }
    }
}

/// The display after echoing one character: the character's UTF-8
/// bytes, each filtered to printable ASCII or the block character.
pub open spec fn spec_echo_char(w: WriterModel, c: char) -> WriterModel {
    spec_write_bytes(w, vstd::utf8::encode_utf8(seq![c]))
}

/// Echo one character to the display.
pub fn echo_char(w: &mut Writer, c: char)
    requires
        old(w)@.wf(),
    ensures
        final(w)@.wf(),
        final(w)@ == spec_echo_char(old(w)@, c),
{
    let mut s = String::new();
    s.push(c);
    w.write_string(s.as_str());
    proof {
        assert(Seq::<char>::empty().push(c) =~= seq![c]);
    }
}

/// A line terminator: the decoded key that completes `get_line`.
pub open spec fn spec_is_terminator(c: char) -> bool {
    c == '\n' || c == '\r'
}

/// What one decoded character does to the line being edited: a line
/// terminator completes the line unchanged; a backspace removes the last
/// accepted character, if any; anything else is appended.
pub open spec fn spec_apply_key(line: Seq<char>, c: char) -> (Seq<char>, bool) {
    if spec_is_terminator(c) {
        (line, true)
    } else if c == '\u{8}' {
        (
            if line.len() > 0 {
                line.drop_last()
            } else {
                line
            },
            false,
        )
    } else {
        (line.push(c), false)
    }
}

/// What the same character does to the display: a terminator moves to the
/// next line, a backspace erases the cell of the removed character, and
/// an accepted character is echoed.
pub open spec fn spec_apply_key_echo(w: WriterModel, line: Seq<char>, c: char) -> WriterModel {
    if spec_is_terminator(c) {
        spec_write_byte(w, 10)
    } else if c == '\u{8}' {
        if line.len() > 0 {
            spec_backspace(w)
        } else {
            w
        }
    } else {
        spec_echo_char(w, c)
    }
}

/// The line after applying a sequence of decoded characters in order.
pub open spec fn spec_line_after(line: Seq<char>, cs: Seq<char>) -> Seq<char>
    decreases cs.len(),
{
    if cs.len() == 0 {
        line
    } else {
        spec_line_after(spec_apply_key(line, cs[0]).0, cs.drop_first())
    }
}

/// The display after echoing the same sequence of decoded characters,
/// each against the line as it stood when that character arrived.
pub open spec fn spec_echo_after(w: WriterModel, line: Seq<char>, cs: Seq<char>) -> WriterModel
    decreases cs.len(),
{
    if cs.len() == 0 {
        w
    } else {
        spec_echo_after(
            spec_apply_key_echo(w, line, cs[0]),
            spec_apply_key(line, cs[0]).0,
            cs.drop_first(),
        )
    }
}

/// The merged stream yields exactly these bytes, in order, under
/// successive polls by the same waker.
pub open spec fn spec_polls_yield(s: StreamModel, bs: Seq<u8>, waker: u64) -> bool
    decreases bs.len(),
{
    if bs.len() == 0 {
        true
    } else {
        spec_poll(s, waker).1 == Some(bs[0]) && spec_polls_yield(
            spec_poll(s, waker).0,
            bs.drop_first(),
            waker,
        )
    }
}

/// The stream state after that many polls.
pub open spec fn spec_stream_after(s: StreamModel, bs: Seq<u8>, waker: u64) -> StreamModel
    decreases bs.len(),
{
    if bs.len() == 0 {
        s
    } else {
        spec_stream_after(spec_poll(s, waker).0, bs.drop_first(), waker)
    }
}

/// Extending the applied characters by one: the folds step by
/// `spec_apply_key` and `spec_apply_key_echo` on the folded state.
proof fn lemma_fold_keys_snoc(line: Seq<char>, w: WriterModel, cs: Seq<char>, c: char)
    ensures
        spec_line_after(line, cs.push(c)) == spec_apply_key(spec_line_after(line, cs), c).0,
        spec_echo_after(w, line, cs.push(c)) == spec_apply_key_echo(
            spec_echo_after(w, line, cs),
            spec_line_after(line, cs),
            c,
        ),
    decreases cs.len(),
{
    let ext = cs.push(c);
    if cs.len() == 0 {
        assert(ext[0] == c);
        assert(ext.drop_first() =~= Seq::<char>::empty());
        assert(spec_line_after(line, ext) == spec_line_after(
            spec_apply_key(line, c).0,
            ext.drop_first(),
        ));
        assert(spec_line_after(line, cs) == line);
        assert(spec_echo_after(w, line, ext) == spec_echo_after(
            spec_apply_key_echo(w, line, c),
            spec_apply_key(line, c).0,
            ext.drop_first(),
        ));
        assert(spec_echo_after(w, line, cs) == w);
    } else {
        assert(ext[0] == cs[0]);
        assert(ext.drop_first() =~= cs.drop_first().push(c));
        lemma_fold_keys_snoc(
            spec_apply_key(line, cs[0]).0,
            spec_apply_key_echo(w, line, cs[0]),
            cs.drop_first(),
            c,
        );
        assert(spec_line_after(line, ext) == spec_line_after(
            spec_apply_key(line, cs[0]).0,
            ext.drop_first(),
        ));
        assert(spec_line_after(line, cs) == spec_line_after(
            spec_apply_key(line, cs[0]).0,
            cs.drop_first(),
        ));
        assert(spec_echo_after(w, line, ext) == spec_echo_after(
            spec_apply_key_echo(w, line, cs[0]),
            spec_apply_key(line, cs[0]).0,
            ext.drop_first(),
        ));
        assert(spec_echo_after(w, line, cs) == spec_echo_after(
            spec_apply_key_echo(w, line, cs[0]),
            spec_apply_key(line, cs[0]).0,
            cs.drop_first(),
        ));
    }
}

/// Extending the polled bytes by one: one more successful poll of the
/// folded stream state.
proof fn lemma_polls_snoc(s: StreamModel, bs: Seq<u8>, b: u8, waker: u64)
    requires
        spec_polls_yield(s, bs, waker),
        spec_poll(spec_stream_after(s, bs, waker), waker).1 == Some(b),
    ensures
        spec_polls_yield(s, bs.push(b), waker),
        spec_stream_after(s, bs.push(b), waker) == spec_poll(
            spec_stream_after(s, bs, waker),
            waker,
        ).0,
    decreases bs.len(),
{
    let ext = bs.push(b);
    if bs.len() == 0 {
        assert(ext[0] == b);
        assert(ext.drop_first() =~= Seq::<u8>::empty());
        assert(spec_stream_after(s, bs, waker) == s);
        assert(spec_polls_yield(spec_poll(s, waker).0, ext.drop_first(), waker));
        assert(spec_stream_after(s, ext, waker) == spec_stream_after(
            spec_poll(s, waker).0,
            ext.drop_first(),
            waker,
        ));
    } else {
        assert(ext[0] == bs[0]);
        assert(ext.drop_first() =~= bs.drop_first().push(b));
        assert(spec_stream_after(s, bs, waker) == spec_stream_after(
            spec_poll(s, waker).0,
            bs.drop_first(),
            waker,
        ));
        lemma_polls_snoc(spec_poll(s, waker).0, bs.drop_first(), b, waker);
        assert(spec_polls_yield(s, ext, waker)) by {
            assert(spec_poll(s, waker).1 == Some(ext[0]));
            assert(spec_polls_yield(spec_poll(s, waker).0, ext.drop_first(), waker));
        }
        assert(spec_stream_after(s, ext, waker) == spec_stream_after(
            spec_poll(s, waker).0,
            ext.drop_first(),
            waker,
        ));
    }
}

/// The line editor behind `get_line`: a scancode decoder and the line
/// accepted so far.
pub struct LineEditor {
    decoder: KeyboardDecoder,
    line: String,
}

impl LineEditor {
    /// The characters accepted so far.
    pub closed spec fn line(&self) -> Seq<char> {
        self.line@
    }

    /// A fresh editor with an empty line.
    pub fn new() -> (ed: LineEditor)
        ensures
            ed.line() == Seq::<char>::empty(),
    {
        LineEditor { decoder: KeyboardDecoder::new(), line: String::new() }
    }

    /// Apply one decoded character to the line and the display; reports
    /// whether the line is complete.
    pub fn apply_key(&mut self, c: char, echo: &mut Writer) -> (done: bool)
        requires
            old(echo)@.wf(),
        ensures
            final(echo)@.wf(),
            (final(self).line(), done) == spec_apply_key(old(self).line(), c),
            final(echo)@ == spec_apply_key_echo(old(echo)@, old(self).line(), c),
    {
        if c == '\n' || c == '\r' {
            echo.write_byte(10);
            true
        } else if c == '\u{8}' {
            match self.line.pop() {
                Some(_) => {
                    echo.backspace();
                },
                None => {},
            }
            false
        } else {
            self.line.push(c);
            echo_char(echo, c);
            false
        }
    }

    /// Feed one raw scancode: decode it and, when a character comes out,
    /// apply it. Whatever the decoder produced, the line and the display
    /// change only by that one key.
    pub fn handle_scancode(&mut self, scancode: u8, echo: &mut Writer) -> (done: bool)
        requires
            old(echo)@.wf(),
        ensures
            final(echo)@.wf(),
            (!done && final(self).line() == old(self).line() && final(echo)@ == old(echo)@)
                || (exists|c: char|
                (final(self).line(), done) == #[trigger] spec_apply_key(old(self).line(), c)
                    && final(echo)@ == spec_apply_key_echo(old(echo)@, old(self).line(), c)),
    {
        match self.decoder.decode(scancode) {
            Some(c) => {
                let done = self.apply_key(c, echo);
                proof {
                    assert((final(self).line(), done) == spec_apply_key(old(self).line(), c));
                }
                done
            },
            None => false,
        }
    }

    /// Take the completed line, leaving the editor empty for the next.
    pub fn take_line(&mut self) -> (s: String)
        ensures
            s@ == old(self).line(),
            final(self).line() == Seq::<char>::empty(),
    {
        let mut out = String::new();
        core::mem::swap(&mut out, &mut self.line);
        out
    }
}

/// Read one line from the merged scancode stream, echoing to the
/// display: polls until a line terminator is decoded and returns the
/// accepted text, or returns `None` once both queues ran dry — the
/// caller then suspends, registered on both queues, and is resumed by
/// whichever fires first.
///
/// The bytes consumed are successive heads of the stream, and the line
/// and the display are the folds of the decoded characters over
/// `spec_apply_key` and `spec_apply_key_echo`. Which characters the
/// bytes decode to is the decoder's — an outside call without a
/// contract — so the character sequence is existential; everything
/// applied to it is exact.
pub fn get_line(
    ed: &mut LineEditor,
    scancodes: &mut CombinedStream,
    echo: &mut Writer,
    waker: u64,
) -> (r: Option<String>)
    requires
        old(scancodes).wf(),
        old(echo)@.wf(),
    ensures
        final(scancodes).wf(),
        final(echo)@.wf(),
        final(scancodes)@.usb_active == old(scancodes)@.usb_active,
        old(scancodes)@.ps2.len() == 0 && old(scancodes)@.usb.len() == 0 ==> r is None,
        exists|bs: Seq<u8>|
            #[trigger] spec_polls_yield(old(scancodes)@, bs, waker) && (match r {
                Some(text) => bs.len() > 0 && final(scancodes)@ == spec_stream_after(
                    old(scancodes)@,
                    bs,
                    waker,
                ),
                None => final(scancodes)@ == spec_poll(
                    spec_stream_after(old(scancodes)@, bs, waker),
                    waker,
                ).0,
            }),
        r is None ==> final(scancodes)@.ps2.len() == 0 && final(scancodes)@.usb.len() == 0
            && final(scancodes)@.ps2_waker == Some(waker) && final(scancodes)@.usb_waker == Some(
            waker,
        ),
        r is None ==> exists|cs: Seq<char>|
            (forall|i: int| 0 <= i < cs.len() ==> !spec_is_terminator(#[trigger] cs[i]))
                && final(ed).line() == #[trigger] spec_line_after(old(ed).line(), cs)
                && final(echo)@ == spec_echo_after(old(echo)@, old(ed).line(), cs),
        r is Some ==> final(ed).line().len() == 0 && exists|cs: Seq<char>|
            cs.len() > 0 && spec_is_terminator(cs.last()) && (forall|i: int|
                0 <= i < cs.len() - 1 ==> !spec_is_terminator(#[trigger] cs[i])) && r->Some_0@
                == #[trigger] spec_line_after(old(ed).line(), cs) && final(echo)@
                == spec_echo_after(old(echo)@, old(ed).line(), cs),
{
    let ghost stream0 = old(scancodes)@;
    let ghost line0 = old(ed).line();
    let ghost echo0 = old(echo)@;
    let ghost mut polled: Seq<u8> = Seq::empty();
    let ghost mut applied: Seq<char> = Seq::empty();
    loop
        invariant
            scancodes.wf(),
            echo@.wf(),
            stream0 == old(scancodes)@,
            line0 == old(ed).line(),
            echo0 == old(echo)@,
            scancodes@.usb_active == stream0.usb_active,
            spec_polls_yield(stream0, polled, waker),
            scancodes@ == spec_stream_after(stream0, polled, waker),
            ed.line() == spec_line_after(line0, applied),
            echo@ == spec_echo_after(echo0, line0, applied),
            forall|i: int| 0 <= i < applied.len() ==> !spec_is_terminator(#[trigger] applied[i]),
        decreases scancodes@.ps2.len() + scancodes@.usb.len(),
    {
        let ghost pre_stream = scancodes@;
        match scancodes.poll_next(waker) {
            PollByte::Pending => {
                return None;
            },
            PollByte::Ready(scancode) => {
                proof {
                    lemma_polls_snoc(stream0, polled, scancode, waker);
                    polled = polled.push(scancode);
                }
                let ghost pre_line = ed.line();
                let ghost pre_echo = echo@;
                let done = ed.handle_scancode(scancode, echo);
                proof {
                    if !(ed.line() == pre_line && echo@ == pre_echo && !done) {
                        let c = choose|c: char|
                            (ed.line(), done) == #[trigger] spec_apply_key(pre_line, c) && echo@
                                == spec_apply_key_echo(pre_echo, pre_line, c);
                        lemma_fold_keys_snoc(line0, echo0, applied, c);
                        applied = applied.push(c);
                        assert(applied.last() == c);
                        assert(forall|i: int|
                            0 <= i < applied.len() - 1 ==> !spec_is_terminator(
                                #[trigger] applied[i],
                            ));
                    }
                }
                if done {
                    proof {
                        // the first poll yielded a byte, so the queues
                        // did not both start empty
                        assert(polled.len() > 0);
                        assert(spec_poll(stream0, waker).1 == Some(polled[0]));
                        if stream0.ps2.len() == 0 && stream0.usb.len() == 0 {
                            assert(spec_poll(stream0, waker).1 is None);
                        }
                    }
                    let text = ed.take_line();
                    return Some(text);
                }
            },
        }
    }
}

} // verus!
