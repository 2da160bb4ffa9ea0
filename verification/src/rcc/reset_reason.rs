//! Capture the reset-status register and decode why the microcontroller
//! reset, clearing the register so the next reset is reported fresh.

use vstd::prelude::*;

verus! {

/// The reset-source flags of the reset-status register, as plain values,
/// together with the raw register word they were read from.
#[derive(Clone, Copy, Debug, PartialEq, Eq, Structural)]
pub struct ResetStatus {
    /// An illegal low-power stop entry caused a reset.
    pub lpwr: bool,
    /// The window watchdog triggered.
    pub wwdg: bool,
    /// The independent watchdog triggered.
    pub iwdg: bool,
    /// Software requested a system reset through the core.
    pub sft: bool,
    /// A brown-out was detected.
    pub bor: bool,
    /// The reset pin was asserted.
    pub pin: bool,
    /// The raw register bits the flags were decoded from.
    pub bits: u32,
}

/// The reset-and-clock-control block, modelled by the one register this
/// module reads: the reset-status register.
#[derive(Clone, Copy, Debug, PartialEq, Eq, Structural)]
pub struct Rcc {
    pub rsr: ResetStatus,
}

/// Why the microcontroller reset.
#[derive(Clone, Copy, Debug, PartialEq, Eq, Structural)]
pub enum ResetReason {
    /// The microcontroller went from unpowered to powered.
    PowerOnReset,
    /// The reset pin was asserted.
    PinReset,
    /// Software requested a reset through the core's control register.
    SystemReset,
    /// The window watchdog triggered.
    WindowWatchdogReset,
    /// The independent watchdog triggered.
    IndependentWatchdogReset,
    /// One or both watchdogs triggered, without telling which.
    GenericWatchdogReset,
    /// An illegal stop entry triggered a reset.
    IllegalStopEntryReset,
    /// The flag combination matches no known cause.
    Unknown { rcc_rsr: u32 },
}

/// The reset source a flag combination identifies. Every hardware-driven
/// reset also asserts the pin flag; a brown-out beside it is a power-on.
pub open spec fn decode_reset(f: ResetStatus) -> ResetReason {
    if !f.lpwr && !f.wwdg && !f.iwdg && !f.sft && f.bor && f.pin {
        ResetReason::PowerOnReset
    } else if !f.lpwr && !f.wwdg && !f.iwdg && !f.sft && !f.bor && f.pin {
        ResetReason::PinReset
    } else if !f.lpwr && !f.wwdg && !f.iwdg && f.sft && !f.bor && f.pin {
        ResetReason::SystemReset
    } else if !f.lpwr && f.wwdg && !f.iwdg && !f.sft && !f.bor && f.pin {
        ResetReason::WindowWatchdogReset
    } else if !f.lpwr && !f.wwdg && f.iwdg && !f.sft && !f.bor && f.pin {
        ResetReason::IndependentWatchdogReset
    } else if f.lpwr && !f.wwdg && !f.iwdg && !f.sft && !f.bor && f.pin {
        ResetReason::IllegalStopEntryReset
    } else if !f.lpwr && f.wwdg && f.iwdg && !f.sft && !f.bor && f.pin {
        ResetReason::GenericWatchdogReset
    } else {
        ResetReason::Unknown { rcc_rsr: f.bits }
    }
}

/// A reset-status register with every source flag cleared.
pub open spec fn cleared_status() -> ResetStatus {
    ResetStatus { lpwr: false, wwdg: false, iwdg: false, sft: false, bor: false, pin: false, bits: 0 }
}

/// Read and decode the reason the microcontroller reset, clearing the
/// reset-status register so the flags report only the next reset.
pub fn get_reset_reason(rcc: &mut Rcc) -> (r: ResetReason)
    ensures
        r == decode_reset(old(rcc).rsr),
        final(rcc).rsr == cleared_status(),
{
    let f = rcc.rsr;
    rcc.rsr = ResetStatus {
        lpwr: false,
        wwdg: false,
        iwdg: false,
        sft: false,
        bor: false,
        pin: false,
        bits: 0,
    };
    if !f.lpwr && !f.wwdg && !f.iwdg && !f.sft && f.bor && f.pin {
        ResetReason::PowerOnReset
    } else if !f.lpwr && !f.wwdg && !f.iwdg && !f.sft && !f.bor && f.pin {
        ResetReason::PinReset
    } else if !f.lpwr && !f.wwdg && !f.iwdg && f.sft && !f.bor && f.pin {
        ResetReason::SystemReset
    } else if !f.lpwr && f.wwdg && !f.iwdg && !f.sft && !f.bor && f.pin {
        ResetReason::WindowWatchdogReset
    } else if !f.lpwr && !f.wwdg && f.iwdg && !f.sft && !f.bor && f.pin {
        ResetReason::IndependentWatchdogReset
    } else if f.lpwr && !f.wwdg && !f.iwdg && !f.sft && !f.bor && f.pin {
        ResetReason::IllegalStopEntryReset
    } else if !f.lpwr && f.wwdg && f.iwdg && !f.sft && !f.bor && f.pin {
        ResetReason::GenericWatchdogReset
    } else {
        ResetReason::Unknown { rcc_rsr: f.bits }
    }
}

} // verus!
