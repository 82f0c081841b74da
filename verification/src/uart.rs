//! The UART register block, modeled, and the byte/string output primitives.
//!
//! On the target board the UART is a block of memory-mapped registers at a
//! fixed physical address; the driver only ever writes the Data Register and
//! reads the Flag Register. The [`Uart`] struct stands in for that block: it
//! records every byte written to the Data Register and lets a harness script
//! how many Flag Register reads report a full transmit FIFO, so that the
//! driver's polling discipline can be stated and proved.

use vstd::prelude::*;

verus! {

/// Physical base address of the UART register block: a board constant.
pub const UART0_BASE: usize = 0x0900_0000;

/// Byte offset of the Data Register (write a byte to transmit it).
pub const UART_DR: usize = 0x00;

/// Byte offset of the Flag Register (read-only status bits).
pub const UART_FR: usize = 0x18;

/// Flag Register bit 5: the transmit FIFO is full.
pub const FR_TXFF: u32 = 0x20;

/// Carriage return, inserted before every transmitted newline.
pub const CR: u8 = 0x0d;

/// Line feed: the newline byte that triggers the insertion.
pub const LF: u8 = 0x0a;

/// A model of the UART register block.
///
/// The driver's whole hardware contract is visible through this struct: `tx`
/// is the serial output (every Data Register write, in order), and
/// `busy_polls` scripts the Flag Register, reporting a full transmit FIFO for
/// that many more reads. `polls` counts Flag Register reads, so a harness can
/// observe how often the driver polled; it saturates at `u64::MAX` rather
/// than wrap.
pub struct Uart {
    /// Every byte written to the Data Register, oldest first.
    pub tx: Vec<u8>,
    /// How many upcoming Flag Register reads report a full transmit FIFO.
    pub busy_polls: u64,
    /// Total Flag Register reads so far (saturating).
    pub polls: u64,
}

impl Uart {
    /// Whether the transmit FIFO is full right now: the next Flag Register
    /// read would report bit 5 set.
    pub open spec fn tx_full(&self) -> bool {
        self.busy_polls > 0
    }

    /// A quiescent UART: nothing transmitted, FIFO ready, no reads yet.
    pub fn new() -> (uart: Uart)
        ensures
            uart.tx@ == Seq::<u8>::empty(),
            uart.busy_polls == 0,
            uart.polls == 0,
    {
        Uart { tx: Vec::new(), busy_polls: 0, polls: 0 }
    }

    /// Scripts the Flag Register: the next `n` reads report a full FIFO.
    pub fn set_busy_polls(&mut self, n: u64)
        ensures
            final(self).busy_polls == n,
            final(self).tx@ == old(self).tx@,
            final(self).polls == old(self).polls,
    {
        self.busy_polls = n;
    }

    /// A volatile 32-bit read of a UART register. The driver only ever reads
    /// the Flag Register; each call re-reads the device state, so each call
    /// consumes one step of the scripted busy period.
    pub fn read_register(&mut self, address: usize) -> (value: u32)
        requires
            address == UART0_BASE + UART_FR,
        ensures
            final(self).tx@ == old(self).tx@,
            old(self).tx_full() ==> value == FR_TXFF
                && final(self).busy_polls == old(self).busy_polls - 1,
            !old(self).tx_full() ==> value == 0
                && final(self).busy_polls == 0,
            final(self).polls
                == (if old(self).polls == u64::MAX { u64::MAX as int } else { old(self).polls + 1 }),
    {
        if self.polls < u64::MAX {
            self.polls = self.polls + 1;
        }
        if self.busy_polls > 0 {
            self.busy_polls = self.busy_polls - 1;
            FR_TXFF
        } else {
            0
        }
    }

    /// A volatile 32-bit write of a UART register. The driver only ever
    /// writes the Data Register, one byte per write, and must never do so
    /// while the transmit FIFO is full: that is this model's one demand on
    /// every caller, and the verifier holds the whole driver to it.
    pub fn write_register(&mut self, address: usize, value: u32)
        requires
            address == UART0_BASE + UART_DR,
            !old(self).tx_full(),
            value < 256,
        ensures
            final(self).tx@ == old(self).tx@.push(value as u8),
            final(self).busy_polls == old(self).busy_polls,
            final(self).polls == old(self).polls,
    {
        self.tx.push(value as u8);
    }
}

/// Transmits one byte: busy-waits, re-reading the Flag Register until the
/// transmit FIFO has room, then writes the byte to the Data Register.
/// Blocking by design: with the FIFO scripted full forever this would never
/// return, and on this model the scripted busy period is finite.
pub fn uart_putc(uart: &mut Uart, c: u8)
    ensures
        final(uart).tx@ == old(uart).tx@.push(c),
        final(uart).busy_polls == 0,
        old(uart).polls + old(uart).busy_polls < u64::MAX
            ==> final(uart).polls == old(uart).polls + old(uart).busy_polls + 1,
        final(uart).polls >= old(uart).polls,
{
    loop
        invariant_except_break
            uart.tx@ == old(uart).tx@,
            uart.busy_polls <= old(uart).busy_polls,
            uart.polls >= old(uart).polls,
            old(uart).polls + old(uart).busy_polls < u64::MAX
                ==> uart.polls == old(uart).polls + old(uart).busy_polls - uart.busy_polls,
        ensures
            uart.tx@ == old(uart).tx@,
            uart.busy_polls == 0,
            uart.polls >= old(uart).polls,
            old(uart).polls + old(uart).busy_polls < u64::MAX
                ==> uart.polls == old(uart).polls + old(uart).busy_polls + 1,
        decreases uart.busy_polls,
    {
        let flags = uart.read_register(UART0_BASE + UART_FR);
        proof {
            assert(0x20u32 & 0x20u32 == 0x20u32) by (bit_vector);
            assert(0u32 & 0x20u32 == 0u32) by (bit_vector);
        }
        if flags & FR_TXFF == 0 {
            break;
        }
    }
    uart.write_register(UART0_BASE + UART_DR, c as u32);
}

/// The bytes put on the wire for one input byte: a newline is preceded by a
/// carriage return, every other byte passes through unchanged.
pub open spec fn byte_out(b: u8) -> Seq<u8> {
    if b == LF {
        seq![CR, LF]
    } else {
        seq![b]
    }
}

/// The newline translation applied to a whole byte string: the concatenation
/// of [`byte_out`] over its bytes, in order.
pub open spec fn crlf_translate(s: Seq<u8>) -> Seq<u8>
    decreases s.len(),
{
    if s.len() == 0 {
        Seq::<u8>::empty()
    } else {
        crlf_translate(s.drop_last()) + byte_out(s.last())
    }
}

/// Transmits a byte string in order via [`uart_putc`], inserting a carriage
/// return before every newline byte; no other transformation.
pub fn uart_puts(uart: &mut Uart, s: &[u8])
    ensures
        final(uart).tx@ == old(uart).tx@ + crlf_translate(s@),
        final(uart).polls >= old(uart).polls,
        s@.len() == 0 ==> final(uart).busy_polls == old(uart).busy_polls
            && final(uart).polls == old(uart).polls,
        s@.len() > 0 ==> final(uart).busy_polls == 0,
{
    let mut i: usize = 0;
    while i < s.len()
        invariant
            i <= s@.len(),
            uart.tx@ == old(uart).tx@ + crlf_translate(s@.take(i as int)),
            uart.polls >= old(uart).polls,
            i == 0 ==> uart.busy_polls == old(uart).busy_polls
                && uart.polls == old(uart).polls,
            i > 0 ==> uart.busy_polls == 0,
        decreases s@.len() - i,
    {
        let b = s[i];
        if b == LF {
            uart_putc(uart, CR);
        }
        uart_putc(uart, b);
        proof {
            assert(s@.take(i as int + 1).drop_last() =~= s@.take(i as int));
            assert(s@.take(i as int + 1).last() == s@[i as int]);
        }
        i = i + 1;
    }
    proof {
        assert(s@.take(s@.len() as int) =~= s@);
    }
}

/// The byte string with every carriage return removed.
pub open spec fn strip_cr(s: Seq<u8>) -> Seq<u8>
    decreases s.len(),
{
    if s.len() == 0 {
        Seq::<u8>::empty()
    } else if s.last() == CR {
        strip_cr(s.drop_last())
    } else {
        strip_cr(s.drop_last()).push(s.last())
    }
}

proof fn lemma_strip_cr_append(x: Seq<u8>, y: Seq<u8>)
    ensures
        strip_cr(x + y) == strip_cr(x) + strip_cr(y),
    decreases y.len(),
{
    if y.len() == 0 {
        assert(x + y =~= x);
        assert(strip_cr(x) + strip_cr(y) =~= strip_cr(x));
    } else {
        lemma_strip_cr_append(x, y.drop_last());
        assert((x + y).drop_last() =~= x + y.drop_last());
        assert((x + y).last() == y.last());
        if y.last() != CR {
            assert(strip_cr(x) + strip_cr(y.drop_last()).push(y.last())
                =~= (strip_cr(x) + strip_cr(y.drop_last())).push(y.last()));
        }
    }
}

/// The newline-translation law: on an input free of carriage returns, every
/// newline in the emitted byte sequence is immediately preceded by a carriage
/// return, every carriage return is immediately followed by a newline (so no
/// bare carriage return is ever introduced), and removing the inserted
/// carriage returns gives back the input, byte for byte — the newlines stay
/// exactly where they were.
pub proof fn lemma_newline_translation(s: Seq<u8>)
    requires
        forall|i: int| 0 <= i < s.len() ==> s[i] != CR,
    ensures
        forall|i: int| 0 <= i < crlf_translate(s).len() && #[trigger] crlf_translate(s)[i] == LF
            ==> 0 < i && crlf_translate(s)[i - 1] == CR,
        forall|i: int| 0 <= i < crlf_translate(s).len() && #[trigger] crlf_translate(s)[i] == CR
            ==> i + 1 < crlf_translate(s).len() && crlf_translate(s)[i + 1] == LF,
        strip_cr(crlf_translate(s)) == s,
    decreases s.len(),
{
    if s.len() == 0 {
    } else {
        let sp = s.drop_last();
        let b = s.last();
        let tp = crlf_translate(sp);
        let t = crlf_translate(s);
        assert(forall|i: int| 0 <= i < sp.len() ==> sp[i] == s[i]);
        lemma_newline_translation(sp);
        assert(t == tp + byte_out(b));
        assert(b != CR);

        // The recursive case appends either the byte itself or the pair
        // carriage return + newline; either way both directional clauses
        // extend from the prefix to the whole.
        assert forall|i: int| 0 <= i < t.len() && #[trigger] t[i] == LF implies 0 < i
            && t[i - 1] == CR by {
            if i < tp.len() {
                assert(t[i] == tp[i]);
                assert(t[i - 1] == tp[i - 1]);
            } else {
                if b == LF {
                    assert(byte_out(b) == seq![CR, LF]);
                    assert(i == tp.len() + 1);
                    assert(t[i - 1] == CR);
                } else {
                    assert(t[i] == b);
                }
            }
        }
        assert forall|i: int| 0 <= i < t.len() && #[trigger] t[i] == CR implies i + 1 < t.len()
            && t[i + 1] == LF by {
            if i + 1 < tp.len() {
                assert(t[i] == tp[i]);
            } else if i < tp.len() {
                // A trailing carriage return in the prefix would have had
                // nothing to follow it there either.
                assert(t[i] == tp[i]);
                assert(i + 1 < tp.len());
            } else {
                if b == LF {
                    assert(byte_out(b) == seq![CR, LF]);
                    assert(i == tp.len());
                    assert(t[i + 1] == LF);
                } else {
                    assert(t[i] == b);
                }
            }
        }

        lemma_strip_cr_append(tp, byte_out(b));
        assert(strip_cr(Seq::<u8>::empty()) == Seq::<u8>::empty());
        if b == LF {
            assert(seq![CR].drop_last() =~= Seq::<u8>::empty());
            assert(seq![CR].last() == CR);
            assert(strip_cr(seq![CR]) == Seq::<u8>::empty());
            assert(seq![CR, LF].drop_last() =~= seq![CR]);
            assert(seq![CR, LF].last() == LF);
            assert(strip_cr(seq![CR, LF]) =~= seq![LF]);
            assert(strip_cr(byte_out(b)) =~= seq![LF]);
        } else {
            assert(seq![b].drop_last() =~= Seq::<u8>::empty());
            assert(seq![b].last() == b);
            assert(strip_cr(seq![b]) =~= seq![b]);
            assert(strip_cr(byte_out(b)) =~= seq![b]);
        }
        assert(strip_cr(t) == sp + strip_cr(byte_out(b)));
        assert(strip_cr(t) =~= s);
    }
}

} // verus!
