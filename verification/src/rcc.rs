//! Reset and clock control block: reset-cause capture.

pub mod reset_reason;
