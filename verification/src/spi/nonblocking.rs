//! Resumable non-blocking operations: a started operation is a plain
//! `Transaction` value the caller polls, one word per poll, until it
//! completes; suspension needs no runtime support.

use vstd::prelude::*;
use super::hal::{model_len, op_model, OpModel, Operation};
use super::{
    dec1, hw_bus, out_word, recv_word, rx_drop, wire_rx_after, wire_word, BusState,
    CommunicationMode, Error, FullDuplex, Spi, SupportsRead, SupportsWrite, Word,
    MAX_TRANSFER_WORDS,
};

verus! {

/// One in-flight, possibly incomplete hardware operation: the operation with
/// its buffers, and a progress cursor counting the words completed so far.
pub struct Transaction<W: Word> {
    pub op: Operation<W>,
    pub cursor: usize,
}

/// What a poll of an in-flight transaction yields.
pub enum Polled<W: Word> {
    /// Still in progress: resubmit exactly this value on the next poll.
    Pending(Transaction<W>),
    /// Complete: the peripheral is idle again and the buffers come back.
    Complete(Operation<W>),
}

/// One word-slot of non-blocking progress: what a single poll does to the
/// bus and to the operation's buffers at the given cursor, or the fault
/// that interrupts it.
#[verifier::ext_equal]
pub enum PollStep<W: Word> {
    Step(BusState<W>, OpModel<W>),
    Fail(Error),
}

pub open spec fn poll_step<W: Word>(
    loopback: bool,
    bus: BusState<W>,
    m: OpModel<W>,
    cursor: int,
) -> PollStep<W> {
    if bus.fault is Some && bus.fault_in == 0 {
        PollStep::Fail(bus.fault->0)
    } else {
        match m {
            OpModel::Read(b) => PollStep::Step(
                (BusState {
                    rx: rx_drop(bus.rx, 1),
                    tx: bus.tx,
                    fault: bus.fault,
                    fault_in: dec1(bus.fault_in),
                }),
                OpModel::Read(b.update(cursor, recv_word(bus.rx, 0))),
            ),
            OpModel::Write(b) => PollStep::Step(
                (BusState {
                    rx: if loopback {
                        bus.rx.push(b[cursor])
                    } else {
                        bus.rx
                    },
                    tx: bus.tx.push(b[cursor]),
                    fault: bus.fault,
                    fault_in: dec1(bus.fault_in),
                }),
                OpModel::Write(b),
            ),
            OpModel::Transfer(r, w) => PollStep::Step(
                (BusState {
                    rx: wire_rx_after(loopback, bus.rx),
                    tx: bus.tx.push(out_word(w, cursor)),
                    fault: bus.fault,
                    fault_in: dec1(bus.fault_in),
                }),
                OpModel::Transfer(
                    if 0 <= cursor < r.len() {
                        r.update(cursor, wire_word(loopback, bus.rx, out_word(w, cursor)))
                    } else {
                        r
                    },
                    w,
                ),
            ),
            OpModel::TransferInPlace(b) => PollStep::Step(
                (BusState {
                    rx: wire_rx_after(loopback, bus.rx),
                    tx: bus.tx.push(b[cursor]),
                    fault: bus.fault,
                    fault_in: dec1(bus.fault_in),
                }),
                OpModel::TransferInPlace(
                    b.update(cursor, wire_word(loopback, bus.rx, b[cursor])),
                ),
            ),
            OpModel::DelayNs(_) => PollStep::Fail(Error::InvalidOperation),
        }
    }
}

/// `k` successive polls, each advancing the cursor by one word, with the
/// first fault encountered cutting the run short.
pub open spec fn poll_many<W: Word>(
    loopback: bool,
    bus: BusState<W>,
    m: OpModel<W>,
    cursor: int,
    k: int,
) -> PollStep<W>
    decreases k,
{
    if k <= 0 {
        PollStep::Step(bus, m)
    } else {
        match poll_step(loopback, bus, m, cursor) {
            PollStep::Step(b2, m2) => poll_many(loopback, b2, m2, cursor + 1, k - 1),
            PollStep::Fail(e) => PollStep::Fail(e),
        }
    }
}

/// Law: liveness under a fair scheduler. Resubmitting the pending
/// transaction each poll makes monotonic progress, one word per poll, so an
/// in-flight operation with `k` words left completes within `k` polls and
/// without error, whenever no armed fault falls due within those words.
pub proof fn lemma_polling_completes<W: Word>(
    loopback: bool,
    bus: BusState<W>,
    m: OpModel<W>,
    cursor: int,
    k: int,
)
    requires
        !(m is DelayNs),
        bus.fault is Some ==> bus.fault_in >= k,
    ensures
        poll_many(loopback, bus, m, cursor, k) is Step,
    decreases k,
{
    if k > 0 {
        let s = poll_step(loopback, bus, m, cursor);
        assert(!(bus.fault is Some && bus.fault_in == 0));
        let b2 = s->Step_0;
        let m2 = s->Step_1;
        lemma_polling_completes(loopback, b2, m2, cursor + 1, k - 1);
    }
}

impl<MODE: SupportsRead, W: Word> Spi<MODE, W> {
    /// Arm the peripheral for a resumable receive of the whole buffer and
    /// hand back the initial transaction.
    pub fn start_read(&mut self, buf: Vec<W>) -> (r: Result<Transaction<W>, Error>)
        ensures
            match r {
                Ok(t) => {
                    &&& !old(self).inner.hw.enabled
                    &&& 0 < buf@.len() <= MAX_TRANSFER_WORDS
                    &&& t.cursor == 0
                    &&& op_model(t.op) == OpModel::Read(buf@)
                    &&& final(self).inner.hw.enabled
                    &&& final(self).inner.hw.frame_left == buf@.len()
                    &&& hw_bus(final(self).inner.hw) == hw_bus(old(self).inner.hw)
                    &&& final(self).inner.hw.loopback == old(self).inner.hw.loopback
                },
                Err(e) => {
                    &&& *final(self) == *old(self)
                    &&& if old(self).inner.hw.enabled {
                        e == Error::TransactionAlreadyStarted
                    } else if buf@.len() == 0 {
                        e == Error::InvalidOperation
                    } else {
                        e == (Error::BufferTooBig { max_size: MAX_TRANSFER_WORDS }) && buf@.len()
                            > MAX_TRANSFER_WORDS
                    }
                },
            },
    {
        let len = buf.len();
        match self.inner.setup_transaction(len) {
            Err(e) => Err(e),
            Ok(()) => {
                proof {
                    assert(hw_bus(self.inner.hw) =~= hw_bus(old(self).inner.hw));
                }
                Ok(Transaction { op: Operation::Read(buf), cursor: 0 })
            },
        }
    }
}

impl<MODE: SupportsWrite, W: Word> Spi<MODE, W> {
    /// Arm the peripheral for a resumable transmit of the whole buffer and
    /// hand back the initial transaction.
    pub fn start_write(&mut self, words: Vec<W>) -> (r: Result<Transaction<W>, Error>)
        ensures
            match r {
                Ok(t) => {
                    &&& !old(self).inner.hw.enabled
                    &&& 0 < words@.len() <= MAX_TRANSFER_WORDS
                    &&& t.cursor == 0
                    &&& op_model(t.op) == OpModel::Write(words@)
                    &&& final(self).inner.hw.enabled
                    &&& final(self).inner.hw.frame_left == words@.len()
                    &&& hw_bus(final(self).inner.hw) == hw_bus(old(self).inner.hw)
                    &&& final(self).inner.hw.loopback == old(self).inner.hw.loopback
                },
                Err(e) => {
                    &&& *final(self) == *old(self)
                    &&& if old(self).inner.hw.enabled {
                        e == Error::TransactionAlreadyStarted
                    } else if words@.len() == 0 {
                        e == Error::InvalidOperation
                    } else {
                        e == (Error::BufferTooBig { max_size: MAX_TRANSFER_WORDS }) && words@.len()
                            > MAX_TRANSFER_WORDS
                    }
                },
            },
    {
        let len = words.len();
        match self.inner.setup_transaction(len) {
            Err(e) => Err(e),
            Ok(()) => {
                proof {
                    assert(hw_bus(self.inner.hw) =~= hw_bus(old(self).inner.hw));
                }
                Ok(Transaction { op: Operation::Write(words), cursor: 0 })
            },
        }
    }
}

impl<W: Word> Spi<FullDuplex, W> {
    /// Arm the peripheral for a resumable full-duplex transfer clocking the
    /// longer of the two buffers.
    pub fn start_transfer(&mut self, read: Vec<W>, write: Vec<W>) -> (r: Result<
        Transaction<W>,
        Error,
    >)
        ensures
            match r {
                Ok(t) => {
                    &&& !old(self).inner.hw.enabled
                    &&& 0 < super::max2(read@.len() as int, write@.len() as int)
                        <= MAX_TRANSFER_WORDS
                    &&& t.cursor == 0
                    &&& op_model(t.op) == OpModel::Transfer(read@, write@)
                    &&& final(self).inner.hw.enabled
                    &&& final(self).inner.hw.frame_left == super::max2(
                        read@.len() as int,
                        write@.len() as int,
                    )
                    &&& hw_bus(final(self).inner.hw) == hw_bus(old(self).inner.hw)
                    &&& final(self).inner.hw.loopback == old(self).inner.hw.loopback
                },
                Err(e) => {
                    &&& *final(self) == *old(self)
                    &&& if old(self).inner.hw.enabled {
                        e == Error::TransactionAlreadyStarted
                    } else if super::max2(read@.len() as int, write@.len() as int) == 0 {
                        e == Error::InvalidOperation
                    } else {
                        e == (Error::BufferTooBig { max_size: MAX_TRANSFER_WORDS }) && super::max2(
                            read@.len() as int,
                            write@.len() as int,
                        ) > MAX_TRANSFER_WORDS
                    }
                },
            },
    {
        let len = if read.len() >= write.len() {
            read.len()
        } else {
            write.len()
        };
        match self.inner.setup_transaction(len) {
            Err(e) => Err(e),
            Ok(()) => {
                proof {
                    assert(hw_bus(self.inner.hw) =~= hw_bus(old(self).inner.hw));
                }
                Ok(Transaction { op: Operation::Transfer(read, write), cursor: 0 })
            },
        }
    }

    /// Arm the peripheral for a resumable in-place full-duplex transfer.
    pub fn start_transfer_inplace(&mut self, words: Vec<W>) -> (r: Result<Transaction<W>, Error>)
        ensures
            match r {
                Ok(t) => {
                    &&& !old(self).inner.hw.enabled
                    &&& 0 < words@.len() <= MAX_TRANSFER_WORDS
                    &&& t.cursor == 0
                    &&& op_model(t.op) == OpModel::TransferInPlace(words@)
                    &&& final(self).inner.hw.enabled
                    &&& final(self).inner.hw.frame_left == words@.len()
                    &&& hw_bus(final(self).inner.hw) == hw_bus(old(self).inner.hw)
                    &&& final(self).inner.hw.loopback == old(self).inner.hw.loopback
                },
                Err(e) => {
                    &&& *final(self) == *old(self)
                    &&& if old(self).inner.hw.enabled {
                        e == Error::TransactionAlreadyStarted
                    } else if words@.len() == 0 {
                        e == Error::InvalidOperation
                    } else {
                        e == (Error::BufferTooBig { max_size: MAX_TRANSFER_WORDS }) && words@.len()
                            > MAX_TRANSFER_WORDS
                    }
                },
            },
    {
        let len = words.len();
        match self.inner.setup_transaction(len) {
            Err(e) => Err(e),
            Ok(()) => {
                proof {
                    assert(hw_bus(self.inner.hw) =~= hw_bus(old(self).inner.hw));
                }
                Ok(Transaction { op: Operation::TransferInPlace(words), cursor: 0 })
            },
        }
    }
}

impl<MODE: CommunicationMode, W: Word> Spi<MODE, W> {
    /// One poll of an in-flight transaction. While work remains, each poll
    /// advances the cursor by exactly one word, so a transaction completes
    /// within as many polls as its word count. On completion, and on any
    /// error, the peripheral is left idle and ready for the next operation;
    /// submitting a transaction when the peripheral is already idle fails
    /// with `TransferAlreadyComplete`.
    pub fn transfer_nonblocking_internal(&mut self, transaction: Transaction<W>) -> (r: Result<
        Polled<W>,
        Error,
    >)
        ensures
            match r {
                Ok(Polled::Pending(t2)) => {
                    &&& old(self).inner.hw.enabled
                    &&& !(op_model(transaction.op) is DelayNs)
                    &&& t2.cursor == transaction.cursor + 1
                    &&& t2.cursor < model_len(op_model(transaction.op))
                    &&& poll_step(
                        old(self).inner.hw.loopback,
                        hw_bus(old(self).inner.hw),
                        op_model(transaction.op),
                        transaction.cursor as int,
                    ) == PollStep::Step(hw_bus(final(self).inner.hw), op_model(t2.op))
                    &&& final(self).inner.hw.enabled
                    &&& final(self).inner.hw.frame_left == model_len(op_model(transaction.op))
                        - t2.cursor
                    &&& final(self).inner.hw.loopback == old(self).inner.hw.loopback
                },
                Ok(Polled::Complete(op2)) => {
                    &&& old(self).inner.hw.enabled
                    &&& !(op_model(transaction.op) is DelayNs)
                    &&& transaction.cursor <= model_len(op_model(transaction.op))
                    &&& !final(self).inner.hw.enabled
                    &&& final(self).inner.hw.frame_left == 0
                    &&& final(self).inner.hw.loopback == old(self).inner.hw.loopback
                    &&& if transaction.cursor == model_len(op_model(transaction.op)) {
                        op_model(op2) == op_model(transaction.op) && hw_bus(final(self).inner.hw)
                            == hw_bus(old(self).inner.hw)
                    } else {
                        transaction.cursor + 1 == model_len(op_model(transaction.op)) && poll_step(
                            old(self).inner.hw.loopback,
                            hw_bus(old(self).inner.hw),
                            op_model(transaction.op),
                            transaction.cursor as int,
                        ) == PollStep::Step(hw_bus(final(self).inner.hw), op_model(op2))
                    }
                },
                Err(e) => {
                    &&& if !old(self).inner.hw.enabled {
                        e == Error::TransferAlreadyComplete && *final(self) == *old(self)
                    } else if op_model(transaction.op) is DelayNs {
                        e == Error::InvalidOperation && *final(self) == *old(self)
                    } else if !(transaction.cursor <= model_len(op_model(transaction.op)) && old(
                        self,
                    ).inner.hw.frame_left == model_len(op_model(transaction.op))
                        - transaction.cursor) {
                        e == Error::InvalidOperation && *final(self) == *old(self)
                    } else {
                        &&& transaction.cursor < model_len(op_model(transaction.op))
                        &&& poll_step(
                            old(self).inner.hw.loopback,
                            hw_bus(old(self).inner.hw),
                            op_model(transaction.op),
                            transaction.cursor as int,
                        ) == PollStep::<W>::Fail(e)
                        &&& !final(self).inner.hw.enabled
                        &&& final(self).inner.hw.frame_left == 0
                        &&& final(self).inner.hw.rx@ == Seq::<W>::empty()
                        &&& final(self).inner.hw.tx@ == old(self).inner.hw.tx@
                        &&& final(self).inner.hw.fault is None
                        &&& final(self).inner.hw.loopback == old(self).inner.hw.loopback
                    }
                },
            },
    {
        if !self.inner.hw.enabled {
            return Err(Error::TransferAlreadyComplete);
        }
        match &transaction.op {
            Operation::DelayNs(_) => {
                return Err(Error::InvalidOperation);
            },
            _ => {},
        }
        let ghost lb = self.inner.hw.loopback;
        let ghost bus0 = hw_bus(self.inner.hw);
        let ghost m = op_model(transaction.op);
        let Transaction { op, cursor } = transaction;
        let n = op.len();
        if cursor > n {
            return Err(Error::InvalidOperation);
        }
        if self.inner.hw.frame_left != n - cursor {
            return Err(Error::InvalidOperation);
        }
        if cursor == n {
            self.inner.end_transaction();
            proof {
                assert(hw_bus(self.inner.hw) =~= bus0);
            }
            return Ok(Polled::Complete(op));
        }
        match op {
            Operation::Read(mut b) => {
                match self.inner.read_partial(&mut b, cursor) {
                    Ok(c2) => {
                        proof {
                            assert(poll_step(lb, bus0, m, cursor as int) =~= PollStep::Step(
                                hw_bus(self.inner.hw),
                                op_model(Operation::Read(b)),
                            ));
                        }
                        if c2 == n {
                            self.inner.end_transaction();
                            Ok(Polled::Complete(Operation::Read(b)))
                        } else {
                            Ok(Polled::Pending(Transaction { op: Operation::Read(b), cursor: c2 }))
                        }
                    },
                    Err(e) => {
                        self.inner.abort_transaction();
                        Err(e)
                    },
                }
            },
            Operation::Write(b) => {
                match self.inner.write_partial(&b, cursor) {
                    Ok(c2) => {
                        proof {
                            assert(poll_step(lb, bus0, m, cursor as int) =~= PollStep::Step(
                                hw_bus(self.inner.hw),
                                op_model(Operation::Write(b)),
                            ));
                        }
                        if c2 == n {
                            self.inner.end_transaction();
                            Ok(Polled::Complete(Operation::Write(b)))
                        } else {
                            Ok(Polled::Pending(Transaction { op: Operation::Write(b), cursor: c2 }))
                        }
                    },
                    Err(e) => {
                        self.inner.abort_transaction();
                        Err(e)
                    },
                }
            },
            Operation::Transfer(mut rb, wb) => {
                match self.inner.transfer_partial(&mut rb, &wb, cursor) {
                    Ok(c2) => {
                        proof {
                            assert(poll_step(lb, bus0, m, cursor as int) =~= PollStep::Step(
                                hw_bus(self.inner.hw),
                                op_model(Operation::Transfer(rb, wb)),
                            ));
                        }
                        if c2 == n {
                            self.inner.end_transaction();
                            Ok(Polled::Complete(Operation::Transfer(rb, wb)))
                        } else {
                            Ok(
                                Polled::Pending(
                                    Transaction { op: Operation::Transfer(rb, wb), cursor: c2 },
                                ),
                            )
                        }
                    },
                    Err(e) => {
                        self.inner.abort_transaction();
                        Err(e)
                    },
                }
            },
            Operation::TransferInPlace(mut b) => {
                match self.inner.transfer_inplace_partial(&mut b, cursor) {
                    Ok(c2) => {
                        proof {
                            assert(poll_step(lb, bus0, m, cursor as int) =~= PollStep::Step(
                                hw_bus(self.inner.hw),
                                op_model(Operation::TransferInPlace(b)),
                            ));
                        }
                        if c2 == n {
                            self.inner.end_transaction();
                            Ok(Polled::Complete(Operation::TransferInPlace(b)))
                        } else {
                            Ok(
                                Polled::Pending(
                                    Transaction { op: Operation::TransferInPlace(b), cursor: c2 },
                                ),
                            )
                        }
                    },
                    Err(e) => {
                        self.inner.abort_transaction();
                        Err(e)
                    },
                }
            },
            Operation::DelayNs(_) => Err(Error::InvalidOperation),
        }
    }
}

/// Non-blocking receive capability, available wherever the communication
/// mode supports reading.
pub trait NonBlockingRead<W: Word> {
    /// Start a non-blocking read. The returned transaction is processed by
    /// polling `transfer_nonblocking` until it completes.
    fn start_nonblocking_read(&mut self, buf: Vec<W>) -> Result<Transaction<W>, Error>;
}

/// Non-blocking transmit capability, available wherever the communication
/// mode supports writing.
pub trait NonBlockingWrite<W: Word> {
    /// Start a non-blocking write. The returned transaction is processed by
    /// polling `transfer_nonblocking` until it completes.
    fn start_nonblocking_write(&mut self, words: Vec<W>) -> Result<Transaction<W>, Error>;
}

/// Non-blocking full-duplex capability: only full-duplex wiring can
/// interleave simultaneous shift-in and shift-out.
pub trait NonBlockingTransfer<W: Word> {
    /// Start a non-blocking full-duplex transfer.
    fn start_nonblocking_duplex_transfer(&mut self, read: Vec<W>, write: Vec<W>) -> Result<
        Transaction<W>,
        Error,
    >;

    /// Start a non-blocking full-duplex transfer that reuses one buffer for
    /// transmit and receive.
    fn start_nonblocking_duplex_transfer_inplace(&mut self, words: Vec<W>) -> Result<
        Transaction<W>,
        Error,
    >;

    /// Process a transaction one poll at a time: `Ok(Polled::Pending(t))`
    /// while in progress, `Ok(Polled::Complete(op))` once done, with the
    /// peripheral disabled and ready for the next operation on completion
    /// and on error alike.
    fn transfer_nonblocking(&mut self, transaction: Transaction<W>) -> Result<Polled<W>, Error>;
}

impl<MODE: SupportsRead, W: Word> NonBlockingRead<W> for Spi<MODE, W> {
    fn start_nonblocking_read(&mut self, buf: Vec<W>) -> Result<Transaction<W>, Error> {
        self.start_read(buf)
    }
}

impl<MODE: SupportsWrite, W: Word> NonBlockingWrite<W> for Spi<MODE, W> {
    fn start_nonblocking_write(&mut self, words: Vec<W>) -> Result<Transaction<W>, Error> {
        self.start_write(words)
    }
}

impl<W: Word> NonBlockingTransfer<W> for Spi<FullDuplex, W> {
    fn start_nonblocking_duplex_transfer(&mut self, read: Vec<W>, write: Vec<W>) -> Result<
        Transaction<W>,
        Error,
    > {
        self.start_transfer(read, write)
    }

    fn start_nonblocking_duplex_transfer_inplace(&mut self, words: Vec<W>) -> Result<
        Transaction<W>,
        Error,
    > {
        self.start_transfer_inplace(words)
    }

    fn transfer_nonblocking(&mut self, transaction: Transaction<W>) -> Result<Polled<W>, Error> {
        self.transfer_nonblocking_internal(transaction)
    }
}

} // verus!
