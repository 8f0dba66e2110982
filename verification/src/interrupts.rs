//! Scancode queue filled by the keyboard interrupt and drained by the
//! keyboard driver, and interrupt descriptor table entries.
use vstd::prelude::*;

verus! {

/// Number of slots of the scancode ring.
pub const SCANCODE_SLOTS: usize = 256;

/// Fixed-capacity ring buffer of raw PS/2 scancodes.
///
/// One slot always stays free, so it holds at most `SCANCODE_SLOTS - 1` bytes.
pub struct ScancodeBuffer {
    buffer: Vec<u8>,
    head: usize,
    tail: usize,
}

impl ScancodeBuffer {
    /// Internal consistency: ring of the right size and indices inside it.
    pub closed spec fn inv(&self) -> bool {
        &&& self.buffer@.len() == SCANCODE_SLOTS
        &&& self.head < SCANCODE_SLOTS
        &&& self.tail < SCANCODE_SLOTS
    }

    /// Number of queued scancodes.
    pub closed spec fn queued_len(&self) -> nat {
        ((self.head + SCANCODE_SLOTS - self.tail) % (SCANCODE_SLOTS as int)) as nat
    }

    /// The queued scancodes, oldest first.
    pub closed spec fn view(&self) -> Seq<u8> {
        Seq::new(
            self.queued_len(),
            |i: int| self.buffer@[(self.tail + i) % (SCANCODE_SLOTS as int)],
        )
    }

    /// Maximum number of queued scancodes.
    pub open spec fn capacity() -> nat {
        (SCANCODE_SLOTS - 1) as nat
    }

    /// The queue never holds more than its capacity.
    pub proof fn lemma_view_bounded(&self)
        requires
            self.inv(),
        ensures
            self@.len() <= Self::capacity(),
    {
    }

    /// An empty queue.
    pub fn new() -> (r: Self)
        ensures
            r.inv(),
            r@ == Seq::<u8>::empty(),
    {
        let r = ScancodeBuffer { buffer: vec![0u8; SCANCODE_SLOTS], head: 0, tail: 0 };
        assert(r@ =~= Seq::<u8>::empty());
        r
    }

    /// Appends a scancode unless the queue is full, in which case the byte is dropped.
    pub fn push(&mut self, scancode: u8)
        requires
            old(self).inv(),
        ensures
            final(self).inv(),
            old(self)@.len() < Self::capacity() ==> final(self)@ == old(self)@.push(scancode),
            old(self)@.len() >= Self::capacity() ==> final(self)@ == old(self)@,
    {
        let next_head = (self.head + 1) % SCANCODE_SLOTS;
        if next_head != self.tail {
            let ghost old_view = self@;
            self.buffer.set(self.head, scancode);
            self.head = next_head;
            assert(self@ =~= old_view.push(scancode));
        }
    }

    /// Removes and returns the oldest scancode, if any.
    pub fn pop(&mut self) -> (r: Option<u8>)
        requires
            old(self).inv(),
        ensures
            final(self).inv(),
            old(self)@.len() == 0 ==> r is None && final(self)@ == old(self)@,
            old(self)@.len() > 0 ==> r == Some(old(self)@[0]) && final(self)@ == old(self)@.drop_first(),
    {
        if self.head == self.tail {
            None
        } else {
            let ghost old_view = self@;
            let scancode = self.buffer[self.tail];
            self.tail = (self.tail + 1) % SCANCODE_SLOTS;
            assert(self@ =~= old_view.drop_first());
            Some(scancode)
        }
    }
}

/// Removes the oldest scancode from the queue that the keyboard interrupt fills.
pub fn pop_scancode(queue: &mut ScancodeBuffer) -> (r: Option<u8>)
    requires
        old(queue).inv(),
    ensures
        final(queue).inv(),
        old(queue)@.len() == 0 ==> r is None && final(queue)@ == old(queue)@,
        old(queue)@.len() > 0 ==> r == Some(old(queue)@[0]) && final(queue)@ == old(queue)@.drop_first(),
{
    queue.pop()
}

/// Little-endian bytes of a 16-bit value.
pub open spec fn le16(x: u16) -> Seq<u8> {
    seq![x as u8, (x >> 8) as u8]
}

/// Little-endian bytes of a 32-bit value.
pub open spec fn le32(x: u32) -> Seq<u8> {
    seq![x as u8, (x >> 8) as u8, (x >> 16) as u8, (x >> 24) as u8]
}

/// Interrupt descriptor table entry of 64-bit mode.
#[derive(Debug, Clone, Copy)]
pub struct IdtEntry {
    pointer_low: u16,
    gdt_selector: u16,
    options: u16,
    pointer_middle: u16,
    pointer_high: u32,
    reserved: u32,
}

/// Gate options of a present ring 0 interrupt gate.
pub const KERNEL_GATE_OPTIONS: u16 = 0x8E00;
/// Gate options of a present interrupt gate of privilege level 2, callable
/// from ring 2 (system calls).
pub const USER_GATE_OPTIONS: u16 = 0xCE00;

impl IdtEntry {
    /// Handler address split over the three pointer fields.
    pub closed spec fn handler_address(&self) -> u64 {
        (self.pointer_low as u64) | ((self.pointer_middle as u64) << 16u64) | ((self.pointer_high as u64) << 32u64)
    }

    pub closed spec fn selector(&self) -> u16 {
        self.gdt_selector
    }

    pub closed spec fn gate_options(&self) -> u16 {
        self.options
    }

    pub closed spec fn reserved_bits(&self) -> u32 {
        self.reserved
    }

    /// The entry in the table format: each field little-endian, in order.
    pub closed spec fn table_bytes(&self) -> Seq<u8> {
        le16(self.pointer_low) + le16(self.gdt_selector) + le16(self.options) + le16(self.pointer_middle) + le32(
            self.pointer_high,
        ) + le32(self.reserved)
    }

    /// An absent gate: every field zero.
    pub fn missing() -> (r: Self)
        ensures
            r.handler_address() == 0,
            r.selector() == 0,
            r.gate_options() == 0,
            r.reserved_bits() == 0,
    {
        let r = IdtEntry {
            pointer_low: 0,
            gdt_selector: 0,
            options: 0,
            pointer_middle: 0,
            pointer_high: 0,
            reserved: 0,
        };
        assert((0u16 as u64) | ((0u16 as u64) << 16u64) | ((0u32 as u64) << 32u64) == 0u64) by (bit_vector);
        r
    }

    fn set_gate(&mut self, handler: u64, options: u16)
        ensures
            final(self).handler_address() == handler,
            final(self).selector() == crate::config::gdt::KERNEL_CODE_SEL,
            final(self).gate_options() == options,
            final(self).reserved_bits() == 0,
    {
        let low = (handler & 0xFFFF) as u16;
        let middle = ((handler >> 16) & 0xFFFF) as u16;
        let high = ((handler >> 32) & 0xFFFFFFFF) as u32;
        self.pointer_low = low;
        self.gdt_selector = crate::config::gdt::KERNEL_CODE_SEL;
        self.options = options;
        self.pointer_middle = middle;
        self.pointer_high = high;
        self.reserved = 0;
        assert((((handler & 0xFFFF) as u16) as u64) | ((((handler >> 16) & 0xFFFF) as u16 as u64) << 16u64)
            | ((((handler >> 32) & 0xFFFFFFFF) as u32 as u64) << 32u64) == handler) by (bit_vector);
    }

    /// The 16 bytes of the entry as the processor reads them from the table:
    /// each field little-endian, in declaration order.
    pub fn descriptor_bytes(&self) -> (r: [u8; 16])
        ensures
            r@ == self.table_bytes(),
    {
        let r = [
            self.pointer_low as u8,
            (self.pointer_low >> 8) as u8,
            self.gdt_selector as u8,
            (self.gdt_selector >> 8) as u8,
            self.options as u8,
            (self.options >> 8) as u8,
            self.pointer_middle as u8,
            (self.pointer_middle >> 8) as u8,
            self.pointer_high as u8,
            (self.pointer_high >> 8) as u8,
            (self.pointer_high >> 16) as u8,
            (self.pointer_high >> 24) as u8,
            self.reserved as u8,
            (self.reserved >> 8) as u8,
            (self.reserved >> 16) as u8,
            (self.reserved >> 24) as u8,
        ];
        assert(r@ =~= le16(self.pointer_low) + le16(self.gdt_selector) + le16(self.options) + le16(self.pointer_middle)
            + le32(self.pointer_high) + le32(self.reserved));
        r
    }

    /// Points the entry at `handler` as a present ring 0 interrupt gate in the kernel code segment.
    pub fn set_handler(&mut self, handler: u64)
        ensures
            final(self).handler_address() == handler,
            final(self).selector() == crate::config::gdt::KERNEL_CODE_SEL,
            final(self).gate_options() == KERNEL_GATE_OPTIONS,
            final(self).reserved_bits() == 0,
    {
        self.set_gate(handler, KERNEL_GATE_OPTIONS);
    }

    /// Points the entry at `handler` as a present gate that ring 2 code may invoke.
    pub fn set_user_syscall_handler(&mut self, handler: u64)
        ensures
            final(self).handler_address() == handler,
            final(self).selector() == crate::config::gdt::KERNEL_CODE_SEL,
            final(self).gate_options() == USER_GATE_OPTIONS,
            final(self).reserved_bits() == 0,
    {
        self.set_gate(handler, USER_GATE_OPTIONS);
    }
}

} // verus!
