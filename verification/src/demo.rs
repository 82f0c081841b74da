//! The program around the driver: startup banner, the endless
//! print–increment–delay cycle, and the terminal panic path.
//!
//! On hardware the main loop never exits and the panic handler never
//! returns. The model makes both finite without changing what they emit: the
//! entry point takes the number of cycles to run, and the panic handler
//! returns the terminal [`Phase`] instead of spinning in a low-power wait.

use crate::decimal::{dec_digits, dec_value, lemma_dec_digits_round_trip, print_num};
use crate::uart::{byte_out, crlf_translate, uart_puts, Uart, CR, LF};
use vstd::prelude::*;

verus! {

/// Iteration count of the calibration-free busy-wait delay: a board-specific
/// constant, deliberately not derived from any timer.
pub const DELAY_ITERATIONS: u64 = 5_000_000;

/// The banner bytes, exactly `"Hello, world from Rust (bare metal)!\n"`.
pub open spec fn banner_text() -> Seq<u8> {
    seq![
        0x48, 0x65, 0x6c, 0x6c, 0x6f, 0x2c, 0x20, // "Hello, "
        0x77, 0x6f, 0x72, 0x6c, 0x64, 0x20, // "world "
        0x66, 0x72, 0x6f, 0x6d, 0x20, // "from "
        0x52, 0x75, 0x73, 0x74, 0x20, // "Rust "
        0x28, 0x62, 0x61, 0x72, 0x65, 0x20, // "(bare "
        0x6d, 0x65, 0x74, 0x61, 0x6c, 0x29, // "metal)"
        0x21, LF, // "!\n"
    ]
}

/// The bytes of `"counter = "`, the fixed prefix of every counter line.
pub open spec fn counter_prefix_text() -> Seq<u8> {
    seq![0x63, 0x6f, 0x75, 0x6e, 0x74, 0x65, 0x72, 0x20, 0x3d, 0x20]
}

/// One counter line as it appears on the wire: the prefix, the decimal
/// digits of the counter, then carriage return and line feed.
pub open spec fn counter_line(c: nat) -> Seq<u8> {
    counter_prefix_text() + dec_digits(c) + seq![CR, LF]
}

/// The first `k` counter lines, for counter values `0` through `k - 1`.
pub open spec fn counter_lines(k: nat) -> Seq<u8>
    decreases k,
{
    if k == 0 {
        Seq::<u8>::empty()
    } else {
        counter_lines((k - 1) as nat) + counter_line((k - 1) as nat)
    }
}

/// Everything `k` cycles of the demo put on the wire: the translated banner,
/// then the counter lines in order.
pub open spec fn demo_output(k: nat) -> Seq<u8> {
    crlf_translate(banner_text()) + counter_lines(k)
}

/// The counter after one cycle: one more, wrapping past the 64-bit maximum.
pub open spec fn next_counter(c: u64) -> u64 {
    if c == u64::MAX {
        0u64
    } else {
        (c + 1) as u64
    }
}

/// The bytes the panic handler puts on the wire: `"panic!"`, carriage
/// return, line feed.
pub open spec fn panic_out() -> Seq<u8> {
    seq![0x70, 0x61, 0x6e, 0x69, 0x63, 0x21, CR, LF]
}

/// Whether the program is still in its endless main loop or has reached the
/// terminal panic state: the only two fates the program has.
#[derive(PartialEq, Eq, Structural, Clone, Copy, Debug)]
pub enum Phase {
    Running,
    Panicked,
}

/// Newline translation leaves a byte string without newlines unchanged.
proof fn lemma_crlf_no_lf(s: Seq<u8>)
    requires
        forall|i: int| 0 <= i < s.len() ==> s[i] != LF,
    ensures
        crlf_translate(s) == s,
    decreases s.len(),
{
    if s.len() == 0 {
        assert(crlf_translate(s) =~= s);
    } else {
        assert(forall|i: int| 0 <= i < s.drop_last().len() ==> s.drop_last()[i] == s[i]);
        lemma_crlf_no_lf(s.drop_last());
        assert(s[s.len() - 1] != LF);
        assert(byte_out(s.last()) == seq![s.last()]);
        assert(s.drop_last() + seq![s.last()] =~= s);
    }
}

/// The startup banner as a byte string for the transmit routine.
fn banner() -> (v: Vec<u8>)
    ensures
        v@ == banner_text(),
{
    let v: Vec<u8> = vec![
        0x48, 0x65, 0x6c, 0x6c, 0x6f, 0x2c, 0x20, // "Hello, "
        0x77, 0x6f, 0x72, 0x6c, 0x64, 0x20, // "world "
        0x66, 0x72, 0x6f, 0x6d, 0x20, // "from "
        0x52, 0x75, 0x73, 0x74, 0x20, // "Rust "
        0x28, 0x62, 0x61, 0x72, 0x65, 0x20, // "(bare "
        0x6d, 0x65, 0x74, 0x61, 0x6c, 0x29, // "metal)"
        0x21, LF, // "!\n"
    ];
    proof {
        assert(v@ =~= banner_text());
    }
    v
}

/// The counter-line prefix as a byte string for the transmit routine.
fn counter_prefix() -> (v: Vec<u8>)
    ensures
        v@ == counter_prefix_text(),
{
    let v: Vec<u8> = vec![0x63, 0x6f, 0x75, 0x6e, 0x74, 0x65, 0x72, 0x20, 0x3d, 0x20];
    proof {
        assert(v@ =~= counter_prefix_text());
    }
    v
}

/// Approximates a fixed pause by counting to `DELAY_ITERATIONS`: a busy wait
/// with no observable effect, whose wall-clock length depends on the CPU
/// speed — an accepted limitation of the calibration-free design.
pub fn delay() {
    let mut i: u64 = 0;
    while i < DELAY_ITERATIONS
        invariant
            i <= DELAY_ITERATIONS,
        decreases DELAY_ITERATIONS - i,
    {
        i = i + 1;
    }
}

/// One cycle of the main loop: print the prefix, the counter's decimal
/// digits and a newline, advance the counter (wrapping past the 64-bit
/// maximum), and run the fixed delay.
pub fn counter_step(uart: &mut Uart, counter: u64) -> (next: u64)
    ensures
        final(uart).tx@ == old(uart).tx@ + counter_line(counter as nat),
        next == next_counter(counter),
        final(uart).busy_polls == 0,
        final(uart).polls >= old(uart).polls,
{
    let prefix = counter_prefix();
    uart_puts(uart, prefix.as_slice());
    proof {
        lemma_crlf_no_lf(counter_prefix_text());
    }
    print_num(uart, counter);
    let newline: Vec<u8> = vec![LF];
    uart_puts(uart, newline.as_slice());
    proof {
        assert(newline@ =~= seq![LF]);
        assert(seq![LF].drop_last() =~= Seq::<u8>::empty());
        assert(crlf_translate(Seq::<u8>::empty()) == Seq::<u8>::empty());
        assert(crlf_translate(seq![LF]) =~= seq![CR, LF]);
        assert(uart.tx@ =~= old(uart).tx@ + counter_line(counter as nat));
    }
    let next = if counter == u64::MAX {
        0
    } else {
        counter + 1
    };
    delay();
    next
}

/// The core's entry point: print the banner once, then run the
/// print–increment–delay cycle with the counter starting at zero. On
/// hardware the cycle repeats forever; here it runs for `cycles` rounds and
/// reports that the loop was still running, since it never exits of its own
/// accord.
pub fn rust_main(uart: &mut Uart, cycles: u64) -> (phase: Phase)
    ensures
        final(uart).tx@ == old(uart).tx@ + demo_output(cycles as nat),
        phase == Phase::Running,
        final(uart).busy_polls == 0,
        final(uart).polls >= old(uart).polls,
{
    let b = banner();
    uart_puts(uart, b.as_slice());
    let mut counter: u64 = 0;
    proof {
        assert(counter_lines(0) =~= Seq::<u8>::empty());
        assert(uart.tx@ =~= old(uart).tx@ + demo_output(0));
    }
    while counter < cycles
        invariant
            counter <= cycles,
            uart.tx@ == old(uart).tx@ + demo_output(counter as nat),
            uart.busy_polls == 0,
            uart.polls >= old(uart).polls,
        decreases cycles - counter,
    {
        let next = counter_step(uart, counter);
        proof {
            assert(next == counter + 1);
            assert(counter_lines((counter + 1) as nat)
                == counter_lines(counter as nat) + counter_line(counter as nat));
            assert(uart.tx@ =~= old(uart).tx@ + demo_output((counter + 1) as nat));
        }
        counter = next;
    }
    Phase::Running
}

/// The program's sole failure path: print `"panic!"` and stop. On hardware
/// the handler then waits forever in a low-power loop; in the model the
/// terminal state is the returned phase, and the message is the last thing
/// the device ever transmits.
pub fn panic_handler(uart: &mut Uart) -> (phase: Phase)
    ensures
        final(uart).tx@ == old(uart).tx@ + panic_out(),
        phase == Phase::Panicked,
        final(uart).busy_polls == 0,
        final(uart).polls >= old(uart).polls,
{
    let msg: Vec<u8> = vec![0x70, 0x61, 0x6e, 0x69, 0x63, 0x21, LF];
    proof {
        assert(msg@ =~= seq![0x70u8, 0x61u8, 0x6eu8, 0x69u8, 0x63u8, 0x21u8, LF]);
    }
    uart_puts(uart, msg.as_slice());
    proof {
        let body = seq![0x70u8, 0x61u8, 0x6eu8, 0x69u8, 0x63u8, 0x21u8];
        lemma_crlf_no_lf(body);
        assert(msg@.drop_last() =~= body);
        assert(msg@.last() == LF);
        assert(crlf_translate(msg@) == crlf_translate(body) + byte_out(LF));
        assert(crlf_translate(msg@) =~= panic_out());
        assert(uart.tx@ =~= old(uart).tx@ + panic_out());
    }
    Phase::Panicked
}

/// The counter monotonicity law: in consecutive cycles the printed values
/// increase by exactly one, and once the 64-bit maximum has been printed the
/// next printed value is zero.
pub proof fn lemma_counter_monotonic(c: u64)
    ensures
        c < u64::MAX ==> dec_value(dec_digits(next_counter(c) as nat))
            == dec_value(dec_digits(c as nat)) + 1,
        c == u64::MAX ==> next_counter(c) == 0
            && dec_value(dec_digits(next_counter(c) as nat)) == 0,
{
    lemma_dec_digits_round_trip(c as nat);
    lemma_dec_digits_round_trip(next_counter(c) as nat);
}

} // verus!
