use stm32h5xx_hal::spi::hal::Operation;
use stm32h5xx_hal::spi::{Error, FullDuplex, Spi, SpiHw, MAX_TRANSFER_WORDS};

#[test]
fn operation_len_per_kind() {
    assert_eq!(Operation::<u8>::Read(vec![0; 3]).len(), 3);
    assert_eq!(Operation::<u8>::Write(vec![1, 2]).len(), 2);
    assert_eq!(Operation::<u8>::Transfer(vec![0; 2], vec![0; 5]).len(), 5);
    assert_eq!(Operation::<u8>::Transfer(vec![0; 4], vec![0; 1]).len(), 4);
    assert_eq!(Operation::<u8>::TransferInPlace(vec![0; 6]).len(), 6);
    assert_eq!(Operation::<u8>::DelayNs(1_000_000).len(), 0);
}

#[test]
fn zero_total_transaction_touches_no_hardware() {
    let mut spi: Spi<FullDuplex, u8> = Spi::new(SpiHw::new(true));

    let res = spi.transaction(vec![]).unwrap();
    assert!(res.is_empty());
    assert!(spi.is_idle());
    assert!(spi.inner.hw.tx.is_empty());

    let res = spi.transaction(vec![Operation::Read(vec![])]).unwrap();
    assert_eq!(res.len(), 1);
    assert!(spi.is_idle());
    assert!(spi.inner.hw.tx.is_empty());

    let res = spi
        .transaction(vec![Operation::DelayNs(500), Operation::Write(vec![])])
        .unwrap();
    assert_eq!(res.len(), 2);
    assert!(spi.is_idle());
    assert!(spi.inner.hw.tx.is_empty(), "a zero-length set must not clock the bus");
}

#[test]
fn transaction_executes_operations_in_order() {
    let mut spi: Spi<FullDuplex, u8> = Spi::new(SpiHw::new(true));
    let ops: Vec<Operation<u8>> = vec![
        Operation::Write(vec![1, 2]),
        Operation::Read(vec![0, 0]),
        Operation::TransferInPlace(vec![7]),
    ];
    let res = spi.transaction(ops).unwrap();
    assert_eq!(res.len(), 3);
    match &res[1] {
        Operation::Read(b) => assert_eq!(b, &vec![1, 2], "the read sees the looped-back write"),
        _ => panic!("operation kinds must be preserved in order"),
    }
    match &res[2] {
        Operation::TransferInPlace(b) => assert_eq!(b, &vec![7]),
        _ => panic!("operation kinds must be preserved in order"),
    }
    assert!(spi.is_idle());
    assert_eq!(spi.inner.hw.tx, vec![1, 2, 7]);
}

#[test]
fn failing_second_operation_aborts_before_third() {
    let mut hw: SpiHw<u8> = SpiHw::new(false);
    hw.fault = Some(Error::Overrun);
    hw.fault_in = 2;
    let mut spi: Spi<FullDuplex, u8> = Spi::new(hw);
    let ops: Vec<Operation<u8>> = vec![
        Operation::Write(vec![1, 2]),
        Operation::Write(vec![3, 4]),
        Operation::Write(vec![5, 6]),
    ];
    assert_eq!(spi.transaction(ops), Err(Error::Overrun));
    assert!(spi.is_idle(), "the peripheral must report idle after the abort");
    assert_eq!(
        spi.inner.hw.tx,
        vec![1, 2],
        "the third operation must never execute"
    );
}

#[test]
fn delay_reached_during_execution_aborts() {
    let mut spi: Spi<FullDuplex, u8> = Spi::new(SpiHw::new(true));
    let ops: Vec<Operation<u8>> = vec![
        Operation::Write(vec![1]),
        Operation::DelayNs(100),
        Operation::Write(vec![2]),
    ];
    assert_eq!(spi.transaction(ops), Err(Error::InvalidOperation));
    assert!(spi.is_idle());
    assert_eq!(spi.inner.hw.tx, vec![1]);
}

#[test]
fn overlong_transaction_is_rejected_untouched() {
    let mut spi: Spi<FullDuplex, u8> = Spi::new(SpiHw::new(false));
    let ops: Vec<Operation<u8>> = vec![
        Operation::Write(vec![0; MAX_TRANSFER_WORDS]),
        Operation::Write(vec![0; 1]),
    ];
    assert_eq!(
        spi.transaction(ops),
        Err(Error::BufferTooBig { max_size: MAX_TRANSFER_WORDS })
    );
    assert!(spi.is_idle());
    assert!(spi.inner.hw.tx.is_empty(), "hardware state must be untouched");
}

#[test]
fn transaction_while_operation_open_is_rejected() {
    let mut spi: Spi<FullDuplex, u8> = Spi::new(SpiHw::new(true));
    let _t = spi.start_write(vec![1]).unwrap();
    assert_eq!(
        spi.transaction(vec![Operation::Write(vec![2])]),
        Err(Error::TransactionAlreadyStarted)
    );
}

#[test]
fn transfer_operation_clocks_the_longer_buffer() {
    let mut hw: SpiHw<u8> = SpiHw::new(false);
    hw.rx = vec![11, 12, 13];
    let mut spi: Spi<FullDuplex, u8> = Spi::new(hw);
    let ops: Vec<Operation<u8>> = vec![Operation::Transfer(vec![0; 3], vec![9])];
    let res = spi.transaction(ops).unwrap();
    match &res[0] {
        Operation::Transfer(r, w) => {
            assert_eq!(r, &vec![11, 12, 13]);
            assert_eq!(w, &vec![9]);
        }
        _ => panic!("operation kinds must be preserved"),
    }
    assert_eq!(
        spi.inner.hw.tx,
        vec![9, 0, 0],
        "the filler word pads the short outbound buffer"
    );
}
