use stm32h5xx_hal::spi::hal::{ErrorCategory, Operation};
use stm32h5xx_hal::spi::nonblocking::{
    NonBlockingRead, NonBlockingTransfer, NonBlockingWrite, Polled, Transaction,
};
use stm32h5xx_hal::spi::{
    Error, FullDuplex, HalfDuplex, SimplexReceiver, SimplexTransmitter, Spi, SpiHw,
    MAX_TRANSFER_WORDS,
};

fn loopback_spi_u8() -> Spi<FullDuplex, u8> {
    Spi::new(SpiHw::new(true))
}

#[test]
fn loopback_round_trip_u8() {
    let mut spi = loopback_spi_u8();
    let data: Vec<u8> = vec![0x12, 0x34, 0x56, 0x78];
    assert_eq!(spi.write(&data), Ok(4));
    let mut out: Vec<u8> = vec![0; 4];
    assert_eq!(spi.read(&mut out), Ok(4));
    assert_eq!(out, data);
    assert!(spi.is_idle());
}

#[test]
fn loopback_round_trip_u16() {
    let mut spi: Spi<FullDuplex, u16> = Spi::new(SpiHw::new(true));
    let data: Vec<u16> = vec![0xBEEF, 0x0001, 0xFFFF];
    assert_eq!(spi.write(&data), Ok(3));
    let mut out: Vec<u16> = vec![0; 3];
    assert_eq!(spi.read(&mut out), Ok(3));
    assert_eq!(out, data);
}

#[test]
fn loopback_round_trip_u32() {
    let mut spi: Spi<FullDuplex, u32> = Spi::new(SpiHw::new(true));
    let data: Vec<u32> = vec![0xDEAD_BEEF, 7, 0xFFFF_FFFF];
    assert_eq!(spi.write(&data), Ok(3));
    let mut out: Vec<u32> = vec![0; 3];
    assert_eq!(spi.read(&mut out), Ok(3));
    assert_eq!(out, data);
}

#[test]
fn nonblocking_write_completes_in_word_count_polls() {
    let mut spi = loopback_spi_u8();
    let data: Vec<u8> = vec![1, 2, 3, 4];
    let mut t = spi.start_nonblocking_write(data).unwrap();
    assert_eq!(t.cursor, 0);
    let mut polls: usize = 0;
    let mut last_cursor: usize = 0;
    loop {
        polls += 1;
        match spi.transfer_nonblocking(t) {
            Ok(Polled::Pending(t2)) => {
                assert!(t2.cursor > last_cursor, "progress must be monotonic");
                last_cursor = t2.cursor;
                t = t2;
            }
            Ok(Polled::Complete(op)) => {
                match op {
                    Operation::Write(b) => assert_eq!(b, vec![1, 2, 3, 4]),
                    _ => panic!("operation kind must be preserved"),
                }
                break;
            }
            Err(e) => panic!("unexpected error {:?}", e),
        }
        assert!(polls < 100);
    }
    assert_eq!(polls, 4, "a transaction completes within word-count polls");
    assert!(spi.is_idle());
    assert_eq!(spi.inner.hw.tx, vec![1, 2, 3, 4]);
}

#[test]
fn nonblocking_read_round_trip() {
    let mut spi = loopback_spi_u8();
    assert_eq!(spi.write(&vec![9, 8, 7]), Ok(3));
    let mut t = spi.start_nonblocking_read(vec![0; 3]).unwrap();
    loop {
        match spi.transfer_nonblocking(t) {
            Ok(Polled::Pending(t2)) => t = t2,
            Ok(Polled::Complete(op)) => {
                match op {
                    Operation::Read(b) => assert_eq!(b, vec![9, 8, 7]),
                    _ => panic!("operation kind must be preserved"),
                }
                break;
            }
            Err(e) => panic!("unexpected error {:?}", e),
        }
    }
    assert!(spi.is_idle());
}

#[test]
fn nonblocking_duplex_transfer_and_inplace() {
    let mut hw: SpiHw<u8> = SpiHw::new(false);
    hw.rx = vec![10, 20, 30];
    let mut spi: Spi<FullDuplex, u8> = Spi::new(hw);
    let mut t = spi
        .start_nonblocking_duplex_transfer(vec![0, 0], vec![1, 2, 3, 4])
        .unwrap();
    loop {
        match spi.transfer_nonblocking(t) {
            Ok(Polled::Pending(t2)) => t = t2,
            Ok(Polled::Complete(op)) => {
                match op {
                    Operation::Transfer(r, w) => {
                        assert_eq!(r, vec![10, 20]);
                        assert_eq!(w, vec![1, 2, 3, 4]);
                    }
                    _ => panic!("operation kind must be preserved"),
                }
                break;
            }
            Err(e) => panic!("unexpected error {:?}", e),
        }
    }
    assert_eq!(spi.inner.hw.tx, vec![1, 2, 3, 4]);

    let mut spi2 = loopback_spi_u8();
    let mut t2 = spi2.start_nonblocking_duplex_transfer_inplace(vec![5, 6]).unwrap();
    loop {
        match spi2.transfer_nonblocking(t2) {
            Ok(Polled::Pending(p)) => t2 = p,
            Ok(Polled::Complete(op)) => {
                match op {
                    Operation::TransferInPlace(b) => assert_eq!(b, vec![5, 6]),
                    _ => panic!("operation kind must be preserved"),
                }
                break;
            }
            Err(e) => panic!("unexpected error {:?}", e),
        }
    }
}

#[test]
fn resubmit_after_complete_fails() {
    let mut spi = loopback_spi_u8();
    let mut t = spi.start_nonblocking_write(vec![42]).unwrap();
    let finished: Operation<u8>;
    loop {
        match spi.transfer_nonblocking(t) {
            Ok(Polled::Pending(t2)) => t = t2,
            Ok(Polled::Complete(op)) => {
                finished = op;
                break;
            }
            Err(e) => panic!("unexpected error {:?}", e),
        }
    }
    let stale = Transaction { op: finished, cursor: 0 };
    assert_eq!(
        spi.transfer_nonblocking(stale).err(),
        Some(Error::TransferAlreadyComplete)
    );
}

#[test]
fn stale_midflight_transaction_is_invalid() {
    let mut spi = loopback_spi_u8();
    let t = spi.start_nonblocking_write(vec![1, 2, 3]).unwrap();
    assert!(!spi.is_idle(), "a started operation holds the frame open");
    let t = match spi.transfer_nonblocking(t) {
        Ok(Polled::Pending(t2)) => t2,
        _ => panic!("three words take three polls"),
    };
    assert_eq!(t.cursor, 1);
    let stale = Transaction { op: t.op, cursor: 0 };
    assert_eq!(
        spi.transfer_nonblocking(stale).err(),
        Some(Error::InvalidOperation),
        "a cursor that disagrees with the open frame is rejected"
    );
}

#[test]
fn buffer_too_big_blocking_and_nonblocking() {
    let mut spi = loopback_spi_u8();
    let big: Vec<u8> = vec![0; MAX_TRANSFER_WORDS + 1];
    assert_eq!(
        spi.write(&big),
        Err(Error::BufferTooBig { max_size: MAX_TRANSFER_WORDS })
    );
    assert!(spi.is_idle());
    assert!(spi.inner.hw.tx.is_empty(), "hardware state must be untouched");

    let big2: Vec<u8> = vec![0; MAX_TRANSFER_WORDS + 1];
    match spi.start_nonblocking_write(big2) {
        Err(Error::BufferTooBig { max_size }) => assert_eq!(max_size, MAX_TRANSFER_WORDS),
        _ => panic!("an overlong request must be rejected"),
    }
    assert!(spi.is_idle());
    assert!(spi.inner.hw.tx.is_empty());

    let mut rbuf: Vec<u8> = vec![0; MAX_TRANSFER_WORDS + 1];
    assert_eq!(
        spi.transfer(&mut rbuf, &vec![]),
        Err(Error::BufferTooBig { max_size: MAX_TRANSFER_WORDS })
    );
    assert!(spi.is_idle());
}

#[test]
fn second_start_is_rejected() {
    let mut spi = loopback_spi_u8();
    let _t = spi.start_nonblocking_write(vec![1, 2]).unwrap();
    match spi.start_nonblocking_read(vec![0; 2]) {
        Err(Error::TransactionAlreadyStarted) => {}
        _ => panic!("a second operation must be rejected while one is open"),
    }
}

#[test]
fn zero_length_start_is_invalid() {
    let mut spi = loopback_spi_u8();
    match spi.start_nonblocking_write(vec![]) {
        Err(Error::InvalidOperation) => {}
        _ => panic!("a zero-length start must be rejected"),
    }
    assert!(spi.is_idle());
}

#[test]
fn hardware_fault_aborts_blocking_write() {
    let mut hw: SpiHw<u8> = SpiHw::new(false);
    hw.fault = Some(Error::Underrun);
    hw.fault_in = 1;
    let mut spi: Spi<FullDuplex, u8> = Spi::new(hw);
    assert_eq!(spi.write(&vec![1, 2, 3]), Err(Error::Underrun));
    assert!(spi.is_idle(), "an error forces the peripheral back to idle");
    assert!(spi.inner.hw.fault.is_none(), "the fault is cleared by the abort");
}

#[test]
fn hardware_fault_aborts_nonblocking_poll() {
    let mut hw: SpiHw<u8> = SpiHw::new(true);
    hw.fault = Some(Error::Overrun);
    hw.fault_in = 1;
    let mut spi: Spi<FullDuplex, u8> = Spi::new(hw);
    let t = spi.start_nonblocking_write(vec![1, 2]).unwrap();
    let t = match spi.transfer_nonblocking(t) {
        Ok(Polled::Pending(t2)) => t2,
        other => panic!("the first word clocks cleanly, got {:?}", other.is_ok()),
    };
    assert_eq!(spi.transfer_nonblocking(t).err(), Some(Error::Overrun));
    assert!(spi.is_idle());
    assert!(spi.inner.hw.fault.is_none());
}

#[test]
fn mode_fault_and_crc_surface() {
    let mut hw: SpiHw<u8> = SpiHw::new(false);
    hw.fault = Some(Error::ModeFault);
    hw.fault_in = 0;
    let mut spi: Spi<FullDuplex, u8> = Spi::new(hw);
    assert_eq!(spi.write(&vec![5]), Err(Error::ModeFault));

    let mut hw2: SpiHw<u8> = SpiHw::new(false);
    hw2.fault = Some(Error::Crc);
    hw2.fault_in = 0;
    let mut spi2: Spi<FullDuplex, u8> = Spi::new(hw2);
    let mut buf: Vec<u8> = vec![0; 2];
    assert_eq!(spi2.read(&mut buf), Err(Error::Crc));
}

#[test]
fn read_from_idle_wire_yields_filler() {
    let mut hw: SpiHw<u8> = SpiHw::new(false);
    hw.rx = vec![42];
    let mut spi: Spi<FullDuplex, u8> = Spi::new(hw);
    let mut buf: Vec<u8> = vec![0xFF; 3];
    assert_eq!(spi.read(&mut buf), Ok(3));
    assert_eq!(buf, vec![42, 0, 0]);
}

#[test]
fn transfer_with_unequal_buffers() {
    let mut hw: SpiHw<u8> = SpiHw::new(false);
    hw.rx = vec![1, 2, 3];
    let mut spi: Spi<FullDuplex, u8> = Spi::new(hw);
    let mut read: Vec<u8> = vec![0; 2];
    let write: Vec<u8> = vec![9, 8, 7, 6];
    assert_eq!(spi.transfer(&mut read, &write), Ok(()));
    assert_eq!(read, vec![1, 2]);
    assert_eq!(spi.inner.hw.tx, vec![9, 8, 7, 6]);
    assert!(spi.inner.hw.rx.is_empty());

    let mut read2: Vec<u8> = vec![0; 3];
    let write2: Vec<u8> = vec![5];
    let mut spi2 = loopback_spi_u8();
    assert_eq!(spi2.transfer(&mut read2, &write2), Ok(()));
    assert_eq!(read2, vec![5, 0, 0], "the filler word pads a short outbound buffer");
}

#[test]
fn transfer_inplace_loopback_is_identity() {
    let mut spi = loopback_spi_u8();
    let mut buf: Vec<u8> = vec![5, 6, 7];
    assert_eq!(spi.transfer_inplace(&mut buf), Ok(()));
    assert_eq!(buf, vec![5, 6, 7]);
    assert_eq!(spi.inner.hw.tx, vec![5, 6, 7]);
}

#[test]
fn flush_is_a_no_op() {
    let mut spi = loopback_spi_u8();
    assert_eq!(spi.flush(), Ok(()));
    assert!(spi.is_idle());
}

#[test]
fn simplex_modes_keep_their_directions() {
    let mut rx_only: Spi<SimplexReceiver, u8> = Spi::new(SpiHw::new(false));
    rx_only.inner.hw.rx = vec![3, 4];
    let mut buf: Vec<u8> = vec![0; 2];
    assert_eq!(rx_only.read(&mut buf), Ok(2));
    assert_eq!(buf, vec![3, 4]);

    let mut tx_only: Spi<SimplexTransmitter, u8> = Spi::new(SpiHw::new(false));
    assert_eq!(tx_only.write(&vec![8, 9]), Ok(2));
    assert_eq!(tx_only.inner.hw.tx, vec![8, 9]);

    let mut half: Spi<HalfDuplex, u8> = Spi::new(SpiHw::new(false));
    assert_eq!(half.write(&vec![1]), Ok(1));
    half.inner.hw.rx = vec![2];
    let mut hbuf: Vec<u8> = vec![0];
    assert_eq!(half.read(&mut hbuf), Ok(1));
    assert_eq!(hbuf, vec![2]);
}

#[test]
fn error_kind_mapping_is_lossy_one_way() {
    assert_eq!(Error::Overrun.kind(), ErrorCategory::Overrun);
    assert_eq!(Error::ModeFault.kind(), ErrorCategory::ModeFault);
    assert_eq!(Error::Underrun.kind(), ErrorCategory::Other);
    assert_eq!(Error::Crc.kind(), ErrorCategory::Other);
    assert_eq!(Error::TransferAlreadyComplete.kind(), ErrorCategory::Other);
    assert_eq!(Error::TransactionAlreadyStarted.kind(), ErrorCategory::Other);
    assert_eq!(Error::BufferTooBig { max_size: 65535 }.kind(), ErrorCategory::Other);
    assert_eq!(Error::InvalidOperation.kind(), ErrorCategory::Other);
}
