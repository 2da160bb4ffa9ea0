use stm32h5xx_hal::rcc::reset_reason::{get_reset_reason, Rcc, ResetReason, ResetStatus};

fn status(lpwr: bool, wwdg: bool, iwdg: bool, sft: bool, bor: bool, pin: bool, bits: u32) -> Rcc {
    Rcc { rsr: ResetStatus { lpwr, wwdg, iwdg, sft, bor, pin, bits } }
}

#[test]
fn known_reset_sources_decode() {
    let mut rcc = status(false, false, false, false, true, true, 0);
    assert_eq!(get_reset_reason(&mut rcc), ResetReason::PowerOnReset);

    let mut rcc = status(false, false, false, false, false, true, 0);
    assert_eq!(get_reset_reason(&mut rcc), ResetReason::PinReset);

    let mut rcc = status(false, false, false, true, false, true, 0);
    assert_eq!(get_reset_reason(&mut rcc), ResetReason::SystemReset);

    let mut rcc = status(false, true, false, false, false, true, 0);
    assert_eq!(get_reset_reason(&mut rcc), ResetReason::WindowWatchdogReset);

    let mut rcc = status(false, false, true, false, false, true, 0);
    assert_eq!(get_reset_reason(&mut rcc), ResetReason::IndependentWatchdogReset);

    let mut rcc = status(true, false, false, false, false, true, 0);
    assert_eq!(get_reset_reason(&mut rcc), ResetReason::IllegalStopEntryReset);

    let mut rcc = status(false, true, true, false, false, true, 0);
    assert_eq!(get_reset_reason(&mut rcc), ResetReason::GenericWatchdogReset);
}

#[test]
fn unknown_combination_reports_raw_bits() {
    let mut rcc = status(true, true, true, true, true, true, 0xAB54);
    assert_eq!(
        get_reset_reason(&mut rcc),
        ResetReason::Unknown { rcc_rsr: 0xAB54 }
    );

    let mut rcc = status(false, false, false, false, false, false, 7);
    assert_eq!(get_reset_reason(&mut rcc), ResetReason::Unknown { rcc_rsr: 7 });
}

#[test]
fn reading_clears_the_register() {
    let mut rcc = status(false, false, false, true, false, true, 0x30000);
    let _ = get_reset_reason(&mut rcc);
    let cleared = status(false, false, false, false, false, false, 0);
    assert_eq!(rcc, cleared);
    assert_eq!(
        get_reset_reason(&mut rcc),
        ResetReason::Unknown { rcc_rsr: 0 },
        "a second read reports no stale cause"
    );
}
