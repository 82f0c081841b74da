//! Decimal formatting of an unsigned 64-bit value onto the serial line.
//!
//! The formatter peels digits off the value least significant first into a
//! fixed 20-byte stack buffer, then drains the buffer backwards so the digits
//! go out most significant first. Twenty bytes is exactly enough for the
//! largest 64-bit value; that the index never leaves the buffer is proved,
//! not assumed.

use crate::uart::{uart_putc, Uart};
use vstd::arithmetic::div_mod::{lemma_fundamental_div_mod, lemma_multiply_divide_lt};
use vstd::prelude::*;

verus! {

/// ASCII digit zero, `'0'`.
pub const DIGIT_ZERO: u8 = 0x30;

/// The decimal ASCII digits of `n`, most significant first: no sign, no
/// leading zeros, a single `'0'` for zero.
pub open spec fn dec_digits(n: nat) -> Seq<u8>
    decreases n,
{
    if n < 10 {
        seq![(DIGIT_ZERO + n) as u8]
    } else {
        dec_digits(n / 10) + seq![(DIGIT_ZERO + n % 10) as u8]
    }
}

/// The numeric value of one decimal ASCII digit.
pub open spec fn digit_val(d: u8) -> nat {
    (d - DIGIT_ZERO) as nat
}

/// Decodes a sequence of decimal ASCII digits, most significant first.
pub open spec fn dec_value(s: Seq<u8>) -> nat
    decreases s.len(),
{
    if s.len() == 0 {
        0
    } else {
        dec_value(s.drop_last()) * 10 + digit_val(s.last())
    }
}

/// Powers of ten.
pub open spec fn pow10(k: nat) -> nat
    decreases k,
{
    if k == 0 {
        1
    } else {
        10 * pow10((k - 1) as nat)
    }
}

/// A value below `10^k` has at most `k` decimal digits.
proof fn lemma_dec_digits_len_bound(n: nat, k: nat)
    requires
        1 <= k,
        n < pow10(k),
    ensures
        dec_digits(n).len() <= k,
    decreases k,
{
    if n < 10 {
    } else {
        assert(pow10(k) == 10 * pow10((k - 1) as nat));
        if k == 1 {
            assert(pow10(1) == 10 * pow10(0));
            assert(false);
        }
        lemma_multiply_divide_lt(n as int, 10, pow10((k - 1) as nat) as int);
        lemma_dec_digits_len_bound(n / 10, (k - 1) as nat);
        assert(dec_digits(n).len() == dec_digits(n / 10).len() + 1);
    }
}

/// Every 64-bit value fits in twenty decimal digits.
proof fn lemma_dec_digits_len_u64(n: u64)
    ensures
        dec_digits(n as nat).len() <= 20,
{
    assert(pow10(20) > u64::MAX) by {
        reveal_with_fuel(pow10, 21);
    }
    lemma_dec_digits_len_bound(n as nat, 20);
}

/// The formatter round-trip law: decoding the emitted decimal ASCII digits
/// gives back exactly the value that was formatted; the digits are all ASCII
/// decimal digits; there is no leading zero except that zero itself is the
/// single byte `'0'`.
pub proof fn lemma_dec_digits_round_trip(n: nat)
    ensures
        dec_digits(n).len() >= 1,
        dec_value(dec_digits(n)) == n,
        n == 0 ==> dec_digits(n) == seq![DIGIT_ZERO],
        n > 0 ==> dec_digits(n)[0] != DIGIT_ZERO,
        forall|i: int| 0 <= i < dec_digits(n).len()
            ==> DIGIT_ZERO <= #[trigger] dec_digits(n)[i] < DIGIT_ZERO + 10,
    decreases n,
{
    if n < 10 {
        let d = (DIGIT_ZERO + n) as u8;
        assert(dec_digits(n) == seq![d]);
        assert(seq![d].drop_last() =~= Seq::<u8>::empty());
        assert(seq![d].last() == d);
        assert(dec_value(Seq::<u8>::empty()) == 0);
        assert(dec_value(seq![d]) == dec_value(seq![d].drop_last()) * 10 + digit_val(seq![d].last()));
        assert(dec_value(dec_digits(n)) == digit_val(d));
        if n == 0 {
            assert(dec_digits(n) =~= seq![DIGIT_ZERO]);
        }
    } else {
        lemma_dec_digits_round_trip(n / 10);
        let d = (DIGIT_ZERO + n % 10) as u8;
        let w = dec_digits(n / 10);
        assert((w + seq![d]).drop_last() =~= w);
        assert((w + seq![d]).last() == d);
        assert(dec_value(dec_digits(n)) == dec_value(w) * 10 + digit_val(d));
        lemma_fundamental_div_mod(n as int, 10);
        assert(dec_digits(n)[0] == w[0]);
        assert forall|i: int| 0 <= i < dec_digits(n).len() implies DIGIT_ZERO
            <= #[trigger] dec_digits(n)[i] < DIGIT_ZERO + 10 by {
            if i < w.len() {
                assert(dec_digits(n)[i] == w[i]);
            } else {
                assert(dec_digits(n)[i] == d);
            }
        }
    }
}

/// The first `i` bytes of the digit buffer, in reverse: digits are stored
/// least significant first and emitted most significant first.
spec fn rev_take(buf: Seq<u8>, i: int) -> Seq<u8> {
    Seq::new(i as nat, |j: int| buf[i - 1 - j])
}

/// Formats `n` in decimal ASCII and transmits the digits, most significant
/// first: exactly the bytes `dec_digits(n)`, so a single `'0'` for zero and
/// no leading zeros otherwise.
pub fn print_num(uart: &mut Uart, n: u64)
    ensures
        final(uart).tx@ == old(uart).tx@ + dec_digits(n as nat),
        final(uart).busy_polls == 0,
        final(uart).polls >= old(uart).polls,
{
    if n == 0 {
        uart_putc(uart, DIGIT_ZERO);
        proof {
            lemma_dec_digits_round_trip(0);
            assert(old(uart).tx@.push(DIGIT_ZERO) =~= old(uart).tx@ + seq![DIGIT_ZERO]);
        }
        return;
    }

    let mut buf: [u8; 20] = [0; 20];
    let mut i: usize = 0;
    let mut m: u64 = n;

    proof {
        lemma_dec_digits_len_u64(n);
        assert(rev_take(buf@, 0) =~= Seq::<u8>::empty());
    }
    while m > 0
        invariant
            i <= 20,
            n > 0,
            m == 0 ==> i >= 1,
            m > 0 ==> dec_digits(n as nat) == dec_digits(m as nat) + rev_take(buf@, i as int),
            m == 0 ==> dec_digits(n as nat) == rev_take(buf@, i as int),
            dec_digits(n as nat).len() <= 20,
            uart.tx@ == old(uart).tx@,
            uart.busy_polls == old(uart).busy_polls,
            uart.polls == old(uart).polls,
        decreases m,
    {
        proof {
            lemma_dec_digits_round_trip(m as nat);
            assert(dec_digits(m as nat).len() >= 1);
            assert(i < 20);
        }
        let digit = DIGIT_ZERO + (m % 10) as u8;
        let ghost pre = buf@;
        buf[i] = digit;
        proof {
            assert(rev_take(buf@, i as int) =~= rev_take(pre, i as int));
            if m >= 10 {
                assert(dec_digits(m as nat)
                    == dec_digits((m as nat) / 10) + seq![(DIGIT_ZERO + (m as nat) % 10) as u8]);
                assert((m / 10) as nat == (m as nat) / 10);
                assert(seq![(DIGIT_ZERO + (m as nat) % 10) as u8] + rev_take(pre, i as int)
                    =~= rev_take(buf@, i as int + 1));
                assert(dec_digits((m / 10) as nat) + rev_take(buf@, i as int + 1)
                    =~= dec_digits(n as nat));
            } else {
                assert(dec_digits(m as nat) == seq![(DIGIT_ZERO + (m as nat)) as u8]);
                assert((m as nat) % 10 == m as nat);
                assert(seq![(DIGIT_ZERO + (m as nat)) as u8] + rev_take(pre, i as int)
                    =~= rev_take(buf@, i as int + 1));
                assert(rev_take(buf@, i as int + 1) =~= dec_digits(n as nat));
            }
        }
        m = m / 10;
        i = i + 1;
    }

    let ghost digits = dec_digits(n as nat);
    let ghost total: int = i as int;
    proof {
        assert(digits == rev_take(buf@, total));
        assert(digits.len() == total);
    }
    let mut k: usize = i;
    while k > 0
        invariant
            k <= total,
            total == i,
            i <= 20,
            total >= 1,
            digits == dec_digits(n as nat),
            digits == rev_take(buf@, total),
            digits.len() == total,
            uart.tx@ == old(uart).tx@ + digits.take(total - k),
            uart.polls >= old(uart).polls,
            k == i ==> uart.busy_polls == old(uart).busy_polls && uart.polls == old(uart).polls,
            k < i ==> uart.busy_polls == 0,
        decreases k,
    {
        k = k - 1;
        uart_putc(uart, buf[k]);
        proof {
            assert(digits[total - k - 1] == buf@[k as int]);
            assert(digits.take(total - k) =~= digits.take(total - k - 1).push(buf@[k as int]));
        }
    }
    proof {
        assert(digits.take(total) =~= digits);
    }
}

} // verus!
