use uart_driver::decimal::print_num;
use uart_driver::demo::{counter_step, panic_handler, rust_main, Phase};
use uart_driver::uart::{uart_putc, uart_puts, Uart, FR_TXFF};

const BANNER: &[u8] = b"Hello, world from Rust (bare metal)!\r\n";

#[test]
fn new_uart_is_quiescent() {
    let uart = Uart::new();
    assert_eq!(uart.tx, Vec::<u8>::new());
    assert_eq!(uart.busy_polls, 0);
    assert_eq!(uart.polls, 0);
}

#[test]
fn flag_register_reports_scripted_busy_period() {
    let mut uart = Uart::new();
    uart.set_busy_polls(2);
    assert_eq!(uart.read_register(0x0900_0000 + 0x18), FR_TXFF);
    assert_eq!(uart.read_register(0x0900_0000 + 0x18), FR_TXFF);
    assert_eq!(uart.read_register(0x0900_0000 + 0x18), 0);
    assert_eq!(uart.polls, 3);
    assert_eq!(uart.tx, Vec::<u8>::new());
}

#[test]
fn put_byte_polls_exactly_four_times_when_full_thrice() {
    let mut uart = Uart::new();
    uart.set_busy_polls(3);
    uart_putc(&mut uart, 0x41);
    assert_eq!(uart.polls, 4);
    assert_eq!(uart.tx, vec![0x41]);
    assert_eq!(uart.busy_polls, 0);
}

#[test]
fn put_byte_writes_after_one_poll_when_ready() {
    let mut uart = Uart::new();
    uart_putc(&mut uart, b'A');
    assert_eq!(uart.polls, 1);
    assert_eq!(uart.tx, b"A".to_vec());
}

#[test]
fn put_string_translates_each_newline() {
    let mut uart = Uart::new();
    uart_puts(&mut uart, b"one\ntwo\n");
    assert_eq!(uart.tx, b"one\r\ntwo\r\n".to_vec());
}

#[test]
fn put_string_leaves_other_bytes_alone() {
    let mut uart = Uart::new();
    uart_puts(&mut uart, b"abc \t \x7f");
    assert_eq!(uart.tx, b"abc \t \x7f".to_vec());
}

#[test]
fn put_string_passes_a_lone_carriage_return_through() {
    let mut uart = Uart::new();
    uart_puts(&mut uart, b"a\rb");
    assert_eq!(uart.tx, b"a\rb".to_vec());
}

#[test]
fn put_string_of_nothing_emits_nothing() {
    let mut uart = Uart::new();
    uart_puts(&mut uart, b"");
    assert_eq!(uart.tx, Vec::<u8>::new());
    assert_eq!(uart.polls, 0);
}

#[test]
fn zero_prints_as_a_single_zero_byte() {
    let mut uart = Uart::new();
    print_num(&mut uart, 0);
    assert_eq!(uart.tx, b"0".to_vec());
}

#[test]
fn small_and_round_numbers_print_exactly() {
    for (n, text) in [
        (7u64, &b"7"[..]),
        (10, b"10"),
        (42, b"42"),
        (100, b"100"),
        (12345, b"12345"),
        (1_000_000_007, b"1000000007"),
    ] {
        let mut uart = Uart::new();
        print_num(&mut uart, n);
        assert_eq!(uart.tx, text.to_vec(), "formatting {}", n);
    }
}

#[test]
fn largest_value_fills_all_twenty_digits() {
    let mut uart = Uart::new();
    print_num(&mut uart, u64::MAX);
    assert_eq!(uart.tx, b"18446744073709551615".to_vec());
}

#[test]
fn printed_digits_decode_back_to_the_value() {
    for n in [0u64, 1, 9, 10, 99, 4096, 123_456_789, u64::MAX - 1, u64::MAX] {
        let mut uart = Uart::new();
        print_num(&mut uart, n);
        let text = String::from_utf8(uart.tx.clone()).unwrap();
        assert_eq!(text.parse::<u64>().unwrap(), n);
        if n > 0 {
            assert_ne!(uart.tx[0], b'0', "leading zero while formatting {}", n);
        } else {
            assert_eq!(uart.tx.len(), 1);
        }
    }
}

#[test]
fn consecutive_cycles_print_successive_values() {
    let mut uart = Uart::new();
    let mut counter: u64 = 5;
    counter = counter_step(&mut uart, counter);
    counter = counter_step(&mut uart, counter);
    assert_eq!(counter, 7);
    assert_eq!(uart.tx, b"counter = 5\r\ncounter = 6\r\n".to_vec());
}

#[test]
fn counter_wraps_to_zero_past_the_maximum() {
    let mut uart = Uart::new();
    let next = counter_step(&mut uart, u64::MAX);
    assert_eq!(next, 0);
    assert_eq!(uart.tx, b"counter = 18446744073709551615\r\n".to_vec());
    let next = counter_step(&mut uart, next);
    assert_eq!(next, 1);
    assert_eq!(
        uart.tx,
        b"counter = 18446744073709551615\r\ncounter = 0\r\n".to_vec()
    );
}

#[test]
fn banner_appears_before_any_counter_line() {
    let mut uart = Uart::new();
    let phase = rust_main(&mut uart, 2);
    assert_eq!(phase, Phase::Running);
    assert_eq!(&uart.tx[..BANNER.len()], BANNER);
    let mut expected = BANNER.to_vec();
    expected.extend_from_slice(b"counter = 0\r\ncounter = 1\r\n");
    assert_eq!(uart.tx, expected);
}

#[test]
fn zero_cycles_emit_the_banner_alone() {
    let mut uart = Uart::new();
    rust_main(&mut uart, 0);
    assert_eq!(uart.tx, BANNER.to_vec());
}

#[test]
fn panic_prints_its_message_and_reports_the_terminal_phase() {
    let mut uart = Uart::new();
    let phase = panic_handler(&mut uart);
    assert_eq!(phase, Phase::Panicked);
    assert_eq!(uart.tx, b"panic!\r\n".to_vec());
}

#[test]
fn panic_respects_backpressure_too() {
    let mut uart = Uart::new();
    uart.set_busy_polls(5);
    panic_handler(&mut uart);
    assert_eq!(uart.tx, b"panic!\r\n".to_vec());
    assert_eq!(uart.busy_polls, 0);
}
