//! A minimal polling UART transmit driver, verified against a register-level
//! model of the hardware.
//!
//! The driver talks to a single memory-mapped UART through two registers: a
//! Data Register (write a byte to transmit it) and a Flag Register (read the
//! "transmit FIFO full" status bit). On hardware those accesses are volatile
//! reads and writes of physical addresses; here the register block is the
//! [`uart::Uart`] model, which records every Data Register write and lets a
//! harness script how many Flag Register reads report a full FIFO. Everything
//! the driver does — busy-wait polling, carriage-return insertion before each
//! newline, decimal formatting of the counter, the banner-then-count main
//! loop, and the terminal panic path — is proved against that model.

pub mod decimal;
pub mod demo;
pub mod uart;

pub use decimal::print_num;
pub use demo::{counter_step, panic_handler, rust_main, Phase};
pub use uart::{uart_putc, uart_puts, Uart};
