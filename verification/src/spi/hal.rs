//! Adapter layer for the platform-standard synchronous bus and device trait
//! contracts: the heterogeneous operation model, the lossy one-way error
//! category map, and the multi-operation device transaction.

use vstd::prelude::*;
use super::{
    hw_bus, in_word, max2, out_word, recv_word, rx_after_n, rx_drop, sub_floor, BusState,
    Error, FullDuplex, Spi, Word, MAX_TRANSFER_WORDS,
};

verus! {

/// The generic error category a bus error maps to for interoperability with
/// drivers written against the platform-standard trait contract. The map is
/// lossy and one way: callers wanting the exact cause use [`Error`].
#[derive(Clone, Copy, Debug, PartialEq, Eq, Structural)]
pub enum ErrorCategory {
    /// Inbound data was lost.
    Overrun,
    /// A multi-master bus conflict was detected.
    ModeFault,
    /// Every other cause.
    Other,
}

/// The category each error maps to: overrun and mode-fault keep their
/// identity, everything else is `Other`.
pub open spec fn kind_spec(e: Error) -> ErrorCategory {
    match e {
        Error::Overrun => ErrorCategory::Overrun,
        Error::ModeFault => ErrorCategory::ModeFault,
        _ => ErrorCategory::Other,
    }
}

impl Error {
    /// The generic category of this error.
    pub fn kind(&self) -> (k: ErrorCategory)
        ensures
            k == kind_spec(*self),
    {
        match self {
            Error::Overrun => ErrorCategory::Overrun,
            Error::ModeFault => ErrorCategory::ModeFault,
            _ => ErrorCategory::Other,
        }
    }
}

/// One step of a heterogeneous device transaction: a direction (or delay)
/// together with its buffer.
#[derive(Debug, PartialEq, Eq)]
pub enum Operation<W: Word> {
    /// Receive into the buffer.
    Read(Vec<W>),
    /// Transmit the buffer.
    Write(Vec<W>),
    /// Full-duplex exchange: fill the first buffer while sending the second.
    Transfer(Vec<W>, Vec<W>),
    /// Full-duplex exchange through a single buffer.
    TransferInPlace(Vec<W>),
    /// A timed pause, in nanoseconds. This polling engine owns no timer, so
    /// reaching one during execution is a structural error; it contributes
    /// zero length.
    DelayNs(u32),
}

/// The mathematical shape of an operation: its buffers as sequences.
#[verifier::ext_equal]
pub enum OpModel<W: Word> {
    Read(Seq<W>),
    Write(Seq<W>),
    Transfer(Seq<W>, Seq<W>),
    TransferInPlace(Seq<W>),
    DelayNs(u32),
}

/// The model of an operation value.
pub open spec fn op_model<W: Word>(op: Operation<W>) -> OpModel<W> {
    match op {
        Operation::Read(b) => OpModel::Read(b@),
        Operation::Write(b) => OpModel::Write(b@),
        Operation::Transfer(r, w) => OpModel::Transfer(r@, w@),
        Operation::TransferInPlace(b) => OpModel::TransferInPlace(b@),
        Operation::DelayNs(d) => OpModel::DelayNs(d),
    }
}

/// The models of a sequence of operations.
pub open spec fn ops_model<W: Word>(ops: Seq<Operation<W>>) -> Seq<OpModel<W>> {
    ops.map_values(|o: Operation<W>| op_model(o))
}

/// The word count an operation contributes to a transaction frame: a duplex
/// transfer clocks the longer of its two buffers, a delay clocks nothing.
pub open spec fn model_len<W: Word>(m: OpModel<W>) -> int {
    match m {
        OpModel::Read(b) => b.len() as int,
        OpModel::Write(b) => b.len() as int,
        OpModel::Transfer(r, w) => max2(r.len() as int, w.len() as int),
        OpModel::TransferInPlace(b) => b.len() as int,
        OpModel::DelayNs(_) => 0,
    }
}

/// The total word count of a sequence of operations.
pub open spec fn ops_total_len<W: Word>(ops: Seq<OpModel<W>>) -> int
    decreases ops.len(),
{
    if ops.len() == 0 {
        0
    } else {
        model_len(ops[0]) + ops_total_len(ops.skip(1))
    }
}

pub proof fn lemma_ops_total_nonneg<W: Word>(ops: Seq<OpModel<W>>)
    ensures
        ops_total_len(ops) >= 0,
    decreases ops.len(),
{
    if ops.len() > 0 {
        lemma_ops_total_nonneg(ops.skip(1));
    }
}

impl<W: Word> Operation<W> {
    /// The word count this operation contributes to a transaction frame.
    pub fn len(&self) -> (n: usize)
        ensures
            n == model_len(op_model(*self)),
    {
        match self {
            Operation::Read(b) => b.len(),
            Operation::Write(b) => b.len(),
            Operation::Transfer(r, w) => {
                if r.len() >= w.len() {
                    r.len()
                } else {
                    w.len()
                }
            },
            Operation::TransferInPlace(b) => b.len(),
            Operation::DelayNs(_) => 0,
        }
    }
}

/// The bus state an operation succeeds into, and the operation's result
/// value, when no fault interrupts it.
pub open spec fn op_ok<W: Word>(loopback: bool, bus: BusState<W>, m: OpModel<W>) -> (
    BusState<W>,
    OpModel<W>,
) {
    match m {
        OpModel::Read(b) => (
            (BusState {
                rx: rx_drop(bus.rx, b.len() as int),
                tx: bus.tx,
                fault: bus.fault,
                fault_in: sub_floor(bus.fault_in, b.len() as int),
            }),
            OpModel::Read(Seq::new(b.len(), |i: int| recv_word(bus.rx, i))),
        ),
        OpModel::Write(b) => (
            (BusState {
                rx: if loopback {
                    bus.rx + b
                } else {
                    bus.rx
                },
                tx: bus.tx + b,
                fault: bus.fault,
                fault_in: sub_floor(bus.fault_in, b.len() as int),
            }),
            OpModel::Write(b),
        ),
        OpModel::Transfer(r, w) => (
            (BusState {
                rx: rx_after_n(loopback, bus.rx, max2(r.len() as int, w.len() as int)),
                tx: bus.tx + Seq::new(
                    max2(r.len() as int, w.len() as int) as nat,
                    |i: int| out_word(w, i),
                ),
                fault: bus.fault,
                fault_in: sub_floor(bus.fault_in, max2(r.len() as int, w.len() as int)),
            }),
            OpModel::Transfer(Seq::new(r.len(), |i: int| in_word(loopback, bus.rx, w, i)), w),
        ),
        OpModel::TransferInPlace(b) => (
            (BusState {
                rx: rx_after_n(loopback, bus.rx, b.len() as int),
                tx: bus.tx + b,
                fault: bus.fault,
                fault_in: sub_floor(bus.fault_in, b.len() as int),
            }),
            OpModel::TransferInPlace(Seq::new(b.len(), |i: int| in_word(loopback, bus.rx, b, i))),
        ),
        OpModel::DelayNs(_) => (bus, m),
    }
}

/// One operation executed against the bus: a delay is structurally invalid
/// for this timer-less engine, an armed fault whose countdown elapses within
/// the operation interrupts it, and anything else succeeds as `op_ok` says.
pub open spec fn op_step<W: Word>(loopback: bool, bus: BusState<W>, m: OpModel<W>) -> Result<
    (BusState<W>, OpModel<W>),
    Error,
> {
    match m {
        OpModel::DelayNs(_) => Err(Error::InvalidOperation),
        _ => match bus.fault {
            Some(e) => if bus.fault_in < model_len(m) {
                Err(e)
            } else {
                Ok(op_ok(loopback, bus, m))
            },
            None => Ok(op_ok(loopback, bus, m)),
        },
    }
}

/// A whole operation sequence executed in order against the bus: the final
/// bus state and the per-operation results, or the first error.
pub open spec fn run_ops<W: Word>(loopback: bool, bus: BusState<W>, ops: Seq<OpModel<W>>) -> Result<
    (BusState<W>, Seq<OpModel<W>>),
    Error,
>
    decreases ops.len(),
{
    if ops.len() == 0 {
        Ok((bus, Seq::empty()))
    } else {
        match op_step(loopback, bus, ops[0]) {
            Ok((bus2, res0)) => match run_ops(loopback, bus2, ops.skip(1)) {
                Ok((bus3, rest)) => Ok((bus3, seq![res0] + rest)),
                Err(e) => Err(e),
            },
            Err(e) => Err(e),
        }
    }
}

impl<W: Word> Spi<FullDuplex, W> {
    /// Execute one operation of an open transaction frame via the blocking
    /// partial-operation dispatch, returning the operation with its receive
    /// buffers filled.
    fn perform_operation(&mut self, op: Operation<W>) -> (r: Result<Operation<W>, Error>)
        requires
            old(self).inner.hw.enabled,
            old(self).inner.hw.frame_left >= model_len(op_model(op)),
        ensures
            match r {
                Ok(op2) => {
                    &&& op_step(
                        old(self).inner.hw.loopback,
                        hw_bus(old(self).inner.hw),
                        op_model(op),
                    ) == Ok::<(BusState<W>, OpModel<W>), Error>(
                        (hw_bus(final(self).inner.hw), op_model(op2)),
                    )
                    &&& final(self).inner.hw.enabled
                    &&& final(self).inner.hw.loopback == old(self).inner.hw.loopback
                    &&& final(self).inner.hw.frame_left == old(self).inner.hw.frame_left
                        - model_len(op_model(op))
                },
                Err(e) => {
                    &&& op_step(
                        old(self).inner.hw.loopback,
                        hw_bus(old(self).inner.hw),
                        op_model(op),
                    ) == Err::<(BusState<W>, OpModel<W>), Error>(e)
                    &&& final(self).inner.hw.enabled
                    &&& final(self).inner.hw.loopback == old(self).inner.hw.loopback
                },
            },
    {
        let ghost lb = self.inner.hw.loopback;
        let ghost bus0 = hw_bus(self.inner.hw);
        let ghost m = op_model(op);
        match op {
            Operation::Read(mut b) => {
                match self.inner.drive_read(&mut b) {
                    Ok(()) => {
                        proof {
                            assert(hw_bus(self.inner.hw) =~= op_ok(lb, bus0, m).0);
                            assert(op_model(Operation::Read(b)) =~= op_ok(lb, bus0, m).1);
                        }
                        Ok(Operation::Read(b))
                    },
                    Err(e) => Err(e),
                }
            },
            Operation::Write(b) => {
                match self.inner.drive_write(&b) {
                    Ok(()) => {
                        proof {
                            assert(hw_bus(self.inner.hw) =~= op_ok(lb, bus0, m).0);
                            assert(op_model(Operation::Write(b)) =~= op_ok(lb, bus0, m).1);
                        }
                        Ok(Operation::Write(b))
                    },
                    Err(e) => Err(e),
                }
            },
            Operation::Transfer(mut rb, wb) => {
                match self.inner.drive_transfer(&mut rb, &wb) {
                    Ok(()) => {
                        proof {
                            assert(hw_bus(self.inner.hw) =~= op_ok(lb, bus0, m).0);
                            assert(op_model(Operation::Transfer(rb, wb)) =~= op_ok(lb, bus0, m).1);
                        }
                        Ok(Operation::Transfer(rb, wb))
                    },
                    Err(e) => Err(e),
                }
            },
            Operation::TransferInPlace(mut b) => {
                match self.inner.drive_transfer_inplace(&mut b) {
                    Ok(()) => {
                        proof {
                            assert(hw_bus(self.inner.hw) =~= op_ok(lb, bus0, m).0);
                            assert(op_model(Operation::TransferInPlace(b)) =~= op_ok(
                                lb,
                                bus0,
                                m,
                            ).1);
                        }
                        Ok(Operation::TransferInPlace(b))
                    },
                    Err(e) => Err(e),
                }
            },
            Operation::DelayNs(_) => Err(Error::InvalidOperation),
        }
    }

    /// Device-level transaction: frame one hardware transaction sized to the
    /// total word count, execute each operation in order, abort on the first
    /// error, and commit if all succeed. An all-zero-length operation set
    /// succeeds trivially without touching the hardware.
    pub fn transaction(&mut self, operations: Vec<Operation<W>>) -> (r: Result<
        Vec<Operation<W>>,
        Error,
    >)
        ensures
            match r {
                Ok(res) => {
                    &&& (ops_total_len(ops_model(operations@)) == 0 ==> *final(self) == *old(self)
                        && res == operations)
                    &&& (ops_total_len(ops_model(operations@)) > 0 ==> {
                        &&& !old(self).inner.hw.enabled
                        &&& ops_total_len(ops_model(operations@)) <= MAX_TRANSFER_WORDS
                        &&& run_ops(
                            old(self).inner.hw.loopback,
                            hw_bus(old(self).inner.hw),
                            ops_model(operations@),
                        ) == Ok::<(BusState<W>, Seq<OpModel<W>>), Error>(
                            (hw_bus(final(self).inner.hw), ops_model(res@)),
                        )
                        &&& final(self).inner.hw.idle()
                        &&& final(self).inner.hw.frame_left == 0
                        &&& final(self).inner.hw.loopback == old(self).inner.hw.loopback
                    })
                },
                Err(e) => {
                    &&& ops_total_len(ops_model(operations@)) > 0
                    &&& if ops_total_len(ops_model(operations@)) > MAX_TRANSFER_WORDS {
                        e == (Error::BufferTooBig { max_size: MAX_TRANSFER_WORDS }) && *final(self)
                            == *old(self)
                    } else if old(self).inner.hw.enabled {
                        e == Error::TransactionAlreadyStarted && *final(self) == *old(self)
                    } else {
                        &&& run_ops(
                            old(self).inner.hw.loopback,
                            hw_bus(old(self).inner.hw),
                            ops_model(operations@),
                        ) == Err::<(BusState<W>, Seq<OpModel<W>>), Error>(e)
                        &&& final(self).inner.hw.idle()
                        &&& final(self).inner.hw.frame_left == 0
                        &&& final(self).inner.hw.rx@ == Seq::<W>::empty()
                        &&& final(self).inner.hw.fault is None
                        &&& final(self).inner.hw.loopback == old(self).inner.hw.loopback
                    }
                },
            },
    {
        let ghost models = ops_model(operations@);
        proof {
            assert(models.skip(0) =~= models);
        }
        let mut total: usize = 0;
        let mut i: usize = 0;
        while i < operations.len()
            invariant
                models == ops_model(operations@),
                i <= operations@.len(),
                total <= MAX_TRANSFER_WORDS,
                total + ops_total_len(models.skip(i as int)) == ops_total_len(models),
            decreases operations@.len() - i,
        {
            proof {
                assert(models.skip(i as int)[0] == models[i as int]);
                assert(models.skip(i as int).skip(1) =~= models.skip(i as int + 1));
                assert(models[i as int] == op_model(operations@[i as int]));
                lemma_ops_total_nonneg(models.skip(i as int + 1));
            }
            let opr = &operations[i];
            let l = opr.len();
            if l > MAX_TRANSFER_WORDS - total {
                return Err(Error::BufferTooBig { max_size: MAX_TRANSFER_WORDS });
            }
            total = total + l;
            i = i + 1;
        }
        proof {
            assert(models.skip(operations@.len() as int) =~= Seq::<OpModel<W>>::empty());
        }
        if total == 0 {
            return Ok(operations);
        }
        match self.inner.setup_transaction(total) {
            Err(e) => {
                return Err(e);
            },
            Ok(()) => {},
        }
        let ghost lb = self.inner.hw.loopback;
        let ghost bus0 = hw_bus(self.inner.hw);
        proof {
            assert(bus0 =~= hw_bus(old(self).inner.hw));
        }
        let mut remaining = operations;
        let mut done: Vec<Operation<W>> = Vec::new();
        while remaining.len() > 0
            invariant
                lb == old(self).inner.hw.loopback,
                bus0 == hw_bus(old(self).inner.hw),
                models == ops_model(operations@),
                0 < ops_total_len(models) <= MAX_TRANSFER_WORDS,
                !old(self).inner.hw.enabled,
                self.inner.hw.enabled,
                self.inner.hw.loopback == lb,
                self.inner.hw.frame_left == ops_total_len(ops_model(remaining@)),
                run_ops(lb, bus0, models) == (match run_ops(
                    lb,
                    hw_bus(self.inner.hw),
                    ops_model(remaining@),
                ) {
                    Ok((b, rs)) => Ok::<(BusState<W>, Seq<OpModel<W>>), Error>(
                        (b, ops_model(done@) + rs),
                    ),
                    Err(e) => Err::<(BusState<W>, Seq<OpModel<W>>), Error>(e),
                }),
            decreases remaining@.len(),
        {
            let ghost rem0 = remaining@;
            let ghost done0 = done@;
            let ghost bus_cur = hw_bus(self.inner.hw);
            let op = remaining.remove(0);
            proof {
                assert(rem0.remove(0) =~= rem0.skip(1));
                assert(ops_model(remaining@) =~= ops_model(rem0).skip(1));
                assert(ops_model(rem0)[0] == op_model(op));
                lemma_ops_total_nonneg(ops_model(remaining@));
            }
            match self.perform_operation(op) {
                Ok(op2) => {
                    done.push(op2);
                    proof {
                        assert(ops_model(done@) =~= ops_model(done0).push(op_model(op2)));
                        let rr = run_ops(lb, hw_bus(self.inner.hw), ops_model(remaining@));
                        match rr {
                            Ok((b, rs)) => {
                                assert(ops_model(done0) + (seq![op_model(op2)] + rs) =~= ops_model(
                                    done@,
                                ) + rs);
                            },
                            Err(_) => {},
                        }
                    }
                },
                Err(e) => {
                    proof {
                        assert(run_ops(lb, bus_cur, ops_model(rem0)) == Err::<
                            (BusState<W>, Seq<OpModel<W>>),
                            Error,
                        >(e));
                    }
                    self.inner.abort_transaction();
                    return Err(e);
                },
            }
        }
        proof {
            assert(ops_model(remaining@) =~= Seq::<OpModel<W>>::empty());
            assert(ops_model(done@) + Seq::<OpModel<W>>::empty() =~= ops_model(done@));
        }
        let ghost bus_end = hw_bus(self.inner.hw);
        self.inner.end_transaction();
        proof {
            assert(hw_bus(self.inner.hw) =~= bus_end);
        }
        Ok(done)
    }
}

} // verus!
