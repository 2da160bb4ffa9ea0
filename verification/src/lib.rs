//! Hardware abstraction layer core for a microcontroller SPI peripheral:
//! a register-level transfer engine with blocking and resumable non-blocking
//! operation sets, gated by compile-time communication-mode capabilities,
//! plus a reset-cause decoder for the reset-and-clock-control block.

pub mod rcc;
pub mod spi;
