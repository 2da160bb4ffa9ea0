//! SPI transfer engine: communication-mode capability model, the inner
//! register-level engine with single-poll partial primitives, and the
//! blocking facade built by polling those primitives to completion.

pub mod hal;
pub mod nonblocking;

use vstd::prelude::*;
use core::marker::PhantomData;

verus! {

/// Largest word count one hardware transaction can be framed for: the
/// peripheral's transfer-size register field holds sixteen bits.
pub const MAX_TRANSFER_WORDS: usize = 65535;

/// A bus-transportable scalar the engine moves one unit at a time.
pub trait Word: Copy + Sized {
    /// The word the master shifts out on a slot with no outbound data,
    /// and the word received from an idle wire.
    spec fn filler_spec() -> Self;

    fn filler() -> (w: Self)
        ensures
            w == Self::filler_spec(),
    ;
}

impl Word for u8 {
    open spec fn filler_spec() -> u8 {
        0u8
    }

    fn filler() -> (w: u8) {
        0u8
    }
}

impl Word for u16 {
    open spec fn filler_spec() -> u16 {
        0u16
    }

    fn filler() -> (w: u16) {
        0u16
    }
}

impl Word for u32 {
    open spec fn filler_spec() -> u32 {
        0u32
    }

    fn filler() -> (w: u32) {
        0u32
    }
}

/// Unified error taxonomy surfaced by every layer of the engine.
#[derive(Clone, Copy, Debug, PartialEq, Eq, Structural)]
pub enum Error {
    /// Inbound data was lost because it was not read in time.
    Overrun,
    /// The outbound buffer was not refilled in time.
    Underrun,
    /// The hardware detected an illegal multi-master bus conflict.
    ModeFault,
    /// The hardware cyclic-redundancy check failed.
    Crc,
    /// A transaction was resubmitted after it already completed.
    TransferAlreadyComplete,
    /// A second operation was started while one is already open.
    TransactionAlreadyStarted,
    /// The requested length exceeds the hardware's addressable transfer length.
    BufferTooBig { max_size: usize },
    /// The operation is structurally invalid for the current mode or state,
    /// for example a zero length on a path that expects work.
    InvalidOperation,
}

/// Compile-time capability tag for the wiring configuration of a bus instance.
pub trait CommunicationMode {
}

/// Modes whose wiring supports receiving.
pub trait SupportsRead: CommunicationMode {
}

/// Modes whose wiring supports transmitting.
pub trait SupportsWrite: CommunicationMode {
}

/// Both directions, simultaneously.
pub struct FullDuplex;

/// Both directions, but never simultaneously.
pub struct HalfDuplex;

/// Receive only.
pub struct SimplexReceiver;

/// Transmit only.
pub struct SimplexTransmitter;

impl CommunicationMode for FullDuplex {
}

impl SupportsRead for FullDuplex {
}

impl SupportsWrite for FullDuplex {
}

impl CommunicationMode for HalfDuplex {
}

impl SupportsRead for HalfDuplex {
}

impl SupportsWrite for HalfDuplex {
}

impl CommunicationMode for SimplexReceiver {
}

impl SupportsRead for SimplexReceiver {
}

impl CommunicationMode for SimplexTransmitter {
}

impl SupportsWrite for SimplexTransmitter {
}

/// Register-level model of one SPI peripheral block and the wire it drives.
/// The receive queue holds words the wire will deliver, front first; the
/// transmit log records every word shifted out. With `loopback` wiring, the
/// outbound line feeds the inbound line. A fault armed via `fault` fires
/// once `fault_in` further words have been clocked.
pub struct SpiHw<W: Word> {
    /// Words the wire has delivered and the engine has not yet consumed.
    pub rx: Vec<W>,
    /// Every word shifted out since construction.
    pub tx: Vec<W>,
    /// Whether the outbound line is wired back to the inbound line.
    pub loopback: bool,
    /// Whether a hardware transaction frame is open.
    pub enabled: bool,
    /// Words the open frame still has room for.
    pub frame_left: usize,
    /// A hardware error condition to surface, if armed.
    pub fault: Option<Error>,
    /// How many further words clock before the armed fault fires.
    pub fault_in: usize,
}

impl<W: Word> SpiHw<W> {
    /// An armed fault whose countdown has elapsed surfaces on the next poll.
    pub open spec fn fault_pending(self) -> bool {
        self.fault is Some && self.fault_in == 0
    }

    /// The peripheral is idle and ready for the next transaction.
    pub open spec fn idle(self) -> bool {
        !self.enabled
    }

    pub fn new(loopback: bool) -> (hw: SpiHw<W>)
        ensures
            hw.rx@ == Seq::<W>::empty(),
            hw.tx@ == Seq::<W>::empty(),
            hw.loopback == loopback,
            !hw.enabled,
            hw.frame_left == 0,
            hw.fault is None,
            hw.fault_in == 0,
    {
        SpiHw {
            rx: Vec::new(),
            tx: Vec::new(),
            loopback,
            enabled: false,
            frame_left: 0,
            fault: None,
            fault_in: 0,
        }
    }
}

/// One less, stopping at zero.
pub open spec fn dec1(a: usize) -> usize {
    if a > 0 {
        (a - 1) as usize
    } else {
        0
    }
}

/// `n` less, stopping at zero.
pub open spec fn sub_floor(a: usize, n: int) -> usize {
    if a >= n {
        (a - n) as usize
    } else {
        0
    }
}

/// The word a duplex transfer shifts out at slot `i`: the outbound buffer's
/// word while it lasts, the filler word beyond it.
pub open spec fn out_word<W: Word>(write: Seq<W>, i: int) -> W {
    if 0 <= i < write.len() {
        write[i]
    } else {
        W::filler_spec()
    }
}

/// The word the wire delivers for one clocked slot, given the word going out.
pub open spec fn wire_word<W: Word>(loopback: bool, rx: Seq<W>, out: W) -> W {
    if loopback {
        out
    } else if rx.len() > 0 {
        rx[0]
    } else {
        W::filler_spec()
    }
}

/// The receive queue after one clocked duplex slot.
pub open spec fn wire_rx_after<W: Word>(loopback: bool, rx: Seq<W>) -> Seq<W> {
    if loopback {
        rx
    } else if rx.len() > 0 {
        rx.skip(1)
    } else {
        rx
    }
}

/// The word a receive takes at slot `i`: the queue's word while it lasts,
/// the filler word from an idle wire beyond it.
pub open spec fn recv_word<W: Word>(rx: Seq<W>, i: int) -> W {
    if 0 <= i < rx.len() {
        rx[i]
    } else {
        W::filler_spec()
    }
}

/// The receive queue with its first `k` words consumed.
pub open spec fn rx_drop<W: Word>(rx: Seq<W>, k: int) -> Seq<W> {
    if k <= rx.len() {
        rx.skip(k)
    } else {
        Seq::empty()
    }
}

/// The word a duplex transfer of `write` against preset queue `rx` shifts in
/// at slot `i`.
pub open spec fn in_word<W: Word>(loopback: bool, rx: Seq<W>, write: Seq<W>, i: int) -> W {
    if loopback {
        out_word(write, i)
    } else if 0 <= i < rx.len() {
        rx[i]
    } else {
        W::filler_spec()
    }
}

/// The receive queue after `k` clocked duplex slots.
pub open spec fn rx_after_n<W: Word>(loopback: bool, rx: Seq<W>, k: int) -> Seq<W> {
    if loopback {
        rx
    } else if k <= rx.len() {
        rx.skip(k)
    } else {
        Seq::empty()
    }
}

/// The mathematical state of the bus wiring that operations read and write:
/// the peripheral model without its framing fields.
#[verifier::ext_equal]
pub struct BusState<W: Word> {
    pub rx: Seq<W>,
    pub tx: Seq<W>,
    pub fault: Option<Error>,
    pub fault_in: usize,
}

/// The bus state of a peripheral model.
pub open spec fn hw_bus<W: Word>(hw: SpiHw<W>) -> BusState<W> {
    BusState { rx: hw.rx@, tx: hw.tx@, fault: hw.fault, fault_in: hw.fault_in }
}

/// The inner transfer engine: owns the peripheral register model and moves
/// at most one word per poll, so repeated calls make monotonic progress.
pub struct Inner<W: Word> {
    pub hw: SpiHw<W>,
}

impl<W: Word> Inner<W> {
    /// Arm the peripheral for a transaction frame of `len` words.
    pub fn setup_transaction(&mut self, len: usize) -> (r: Result<(), Error>)
        ensures
            match r {
                Ok(()) => {
                    &&& !old(self).hw.enabled
                    &&& 0 < len <= MAX_TRANSFER_WORDS
                    &&& final(self).hw.enabled
                    &&& final(self).hw.frame_left == len
                    &&& final(self).hw.rx@ == old(self).hw.rx@
                    &&& final(self).hw.tx@ == old(self).hw.tx@
                    &&& final(self).hw.loopback == old(self).hw.loopback
                    &&& final(self).hw.fault == old(self).hw.fault
                    &&& final(self).hw.fault_in == old(self).hw.fault_in
                },
                Err(e) => {
                    &&& *final(self) == *old(self)
                    &&& if old(self).hw.enabled {
                        e == Error::TransactionAlreadyStarted
                    } else if len == 0 {
                        e == Error::InvalidOperation
                    } else {
                        e == (Error::BufferTooBig { max_size: MAX_TRANSFER_WORDS })
                            && len > MAX_TRANSFER_WORDS
                    }
                },
            },
    {
        if self.hw.enabled {
            return Err(Error::TransactionAlreadyStarted);
        }
        if len == 0 {
            return Err(Error::InvalidOperation);
        }
        if len > MAX_TRANSFER_WORDS {
            return Err(Error::BufferTooBig { max_size: MAX_TRANSFER_WORDS });
        }
        self.hw.enabled = true;
        self.hw.frame_left = len;
        Ok(())
    }

    /// Commit the open frame: every word of it has been clocked, so the
    /// peripheral returns to idle.
    pub fn end_transaction(&mut self)
        requires
            old(self).hw.enabled,
            old(self).hw.frame_left == 0,
        ensures
            !final(self).hw.enabled,
            final(self).hw.frame_left == 0,
            final(self).hw.rx@ == old(self).hw.rx@,
            final(self).hw.tx@ == old(self).hw.tx@,
            final(self).hw.loopback == old(self).hw.loopback,
            final(self).hw.fault == old(self).hw.fault,
            final(self).hw.fault_in == old(self).hw.fault_in,
    {
        self.hw.enabled = false;
    }

    /// Abort the open frame: disable the peripheral, flush the receive
    /// queue and clear any error condition, leaving it idle and reusable.
    pub fn abort_transaction(&mut self)
        ensures
            !final(self).hw.enabled,
            final(self).hw.frame_left == 0,
            final(self).hw.rx@ == Seq::<W>::empty(),
            final(self).hw.tx@ == old(self).hw.tx@,
            final(self).hw.loopback == old(self).hw.loopback,
            final(self).hw.fault is None,
            final(self).hw.fault_in == 0,
    {
        self.hw.enabled = false;
        self.hw.frame_left = 0;
        self.hw.rx.clear();
        self.hw.fault = None;
        self.hw.fault_in = 0;
    }

    /// One poll of a receive: clock one word in, from the wire's queue or,
    /// when the queue is idle, the filler level. Never transmits.
    pub fn read_partial(&mut self, buf: &mut Vec<W>, cursor: usize) -> (r: Result<usize, Error>)
        requires
            cursor < old(buf).len(),
            old(self).hw.enabled,
            old(self).hw.frame_left > 0,
        ensures
            final(buf)@.len() == old(buf)@.len(),
            match r {
                Ok(c2) => {
                    &&& !old(self).hw.fault_pending()
                    &&& c2 == cursor + 1
                    &&& final(buf)@ == old(buf)@.update(
                        cursor as int,
                        recv_word(old(self).hw.rx@, 0),
                    )
                    &&& final(self).hw.rx@ == rx_drop(old(self).hw.rx@, 1)
                    &&& final(self).hw.tx@ == old(self).hw.tx@
                    &&& final(self).hw.loopback == old(self).hw.loopback
                    &&& final(self).hw.enabled
                    &&& final(self).hw.frame_left == old(self).hw.frame_left - 1
                    &&& final(self).hw.fault == old(self).hw.fault
                    &&& final(self).hw.fault_in == dec1(old(self).hw.fault_in)
                },
                Err(e) => {
                    &&& old(self).hw.fault_pending()
                    &&& old(self).hw.fault == Some(e)
                    &&& *final(self) == *old(self)
                    &&& final(buf)@ == old(buf)@
                },
            },
    {
        if self.hw.fault_in == 0 {
            match self.hw.fault {
                Some(e) => {
                    return Err(e);
                },
                None => {},
            }
        }
        let w: W = if self.hw.rx.len() > 0 {
            let h = self.hw.rx.remove(0);
            proof {
                assert(old(self).hw.rx@.remove(0) =~= old(self).hw.rx@.skip(1));
            }
            h
        } else {
            W::filler()
        };
        buf[cursor] = w;
        self.hw.frame_left = self.hw.frame_left - 1;
        if self.hw.fault_in > 0 {
            self.hw.fault_in = self.hw.fault_in - 1;
        }
        Ok(cursor + 1)
    }

    /// One poll of a transmit: shift the cursor's word into the transmit
    /// path. The model's transmit path always has room for one word.
    pub fn write_partial(&mut self, words: &Vec<W>, cursor: usize) -> (r: Result<usize, Error>)
        requires
            cursor < words.len(),
            old(self).hw.enabled,
            old(self).hw.frame_left > 0,
        ensures
            match r {
                Ok(c2) => {
                    &&& !old(self).hw.fault_pending()
                    &&& c2 == cursor + 1
                    &&& final(self).hw.tx@ == old(self).hw.tx@.push(words@[cursor as int])
                    &&& final(self).hw.rx@ == if old(self).hw.loopback {
                        old(self).hw.rx@.push(words@[cursor as int])
                    } else {
                        old(self).hw.rx@
                    }
                    &&& final(self).hw.loopback == old(self).hw.loopback
                    &&& final(self).hw.enabled
                    &&& final(self).hw.frame_left == old(self).hw.frame_left - 1
                    &&& final(self).hw.fault == old(self).hw.fault
                    &&& final(self).hw.fault_in == dec1(old(self).hw.fault_in)
                },
                Err(e) => {
                    &&& old(self).hw.fault_pending()
                    &&& old(self).hw.fault == Some(e)
                    &&& *final(self) == *old(self)
                },
            },
    {
        if self.hw.fault_in == 0 {
            match self.hw.fault {
                Some(e) => {
                    return Err(e);
                },
                None => {},
            }
        }
        let w = words[cursor];
        self.hw.tx.push(w);
        if self.hw.loopback {
            self.hw.rx.push(w);
        }
        self.hw.frame_left = self.hw.frame_left - 1;
        if self.hw.fault_in > 0 {
            self.hw.fault_in = self.hw.fault_in - 1;
        }
        Ok(cursor + 1)
    }

    /// One poll of a full-duplex transfer: simultaneously shift the cursor's
    /// outbound word out and one word in, in lockstep.
    pub fn transfer_partial(&mut self, read: &mut Vec<W>, write: &Vec<W>, cursor: usize) -> (r:
        Result<usize, Error>)
        requires
            cursor < old(read).len() || cursor < write.len(),
            old(self).hw.enabled,
            old(self).hw.frame_left > 0,
        ensures
            final(read)@.len() == old(read)@.len(),
            match r {
                Ok(c2) => {
                    &&& !old(self).hw.fault_pending()
                    &&& c2 == cursor + 1
                    &&& final(self).hw.tx@ == old(self).hw.tx@.push(
                        out_word(write@, cursor as int),
                    )
                    &&& final(self).hw.rx@ == wire_rx_after(
                        old(self).hw.loopback,
                        old(self).hw.rx@,
                    )
                    &&& final(read)@ == if cursor < old(read)@.len() {
                        old(read)@.update(
                            cursor as int,
                            wire_word(
                                old(self).hw.loopback,
                                old(self).hw.rx@,
                                out_word(write@, cursor as int),
                            ),
                        )
                    } else {
                        old(read)@
                    }
                    &&& final(self).hw.loopback == old(self).hw.loopback
                    &&& final(self).hw.enabled
                    &&& final(self).hw.frame_left == old(self).hw.frame_left - 1
                    &&& final(self).hw.fault == old(self).hw.fault
                    &&& final(self).hw.fault_in == dec1(old(self).hw.fault_in)
                },
                Err(e) => {
                    &&& old(self).hw.fault_pending()
                    &&& old(self).hw.fault == Some(e)
                    &&& *final(self) == *old(self)
                    &&& final(read)@ == old(read)@
                },
            },
    {
        if self.hw.fault_in == 0 {
            match self.hw.fault {
                Some(e) => {
                    return Err(e);
                },
                None => {},
            }
        }
        let out: W = if cursor < write.len() {
            write[cursor]
        } else {
            W::filler()
        };
        let inw: W = if self.hw.loopback {
            out
        } else if self.hw.rx.len() > 0 {
            let h = self.hw.rx.remove(0);
            proof {
                assert(old(self).hw.rx@.remove(0) =~= old(self).hw.rx@.skip(1));
            }
            h
        } else {
            W::filler()
        };
        self.hw.tx.push(out);
        if cursor < read.len() {
            read[cursor] = inw;
        }
        self.hw.frame_left = self.hw.frame_left - 1;
        if self.hw.fault_in > 0 {
            self.hw.fault_in = self.hw.fault_in - 1;
        }
        Ok(cursor + 1)
    }

    /// One poll of an in-place full-duplex transfer: the cursor's slot is
    /// read for the outbound word, then overwritten with the inbound word.
    pub fn transfer_inplace_partial(&mut self, buf: &mut Vec<W>, cursor: usize) -> (r: Result<
        usize,
        Error,
    >)
        requires
            cursor < old(buf).len(),
            old(self).hw.enabled,
            old(self).hw.frame_left > 0,
        ensures
            final(buf)@.len() == old(buf)@.len(),
            match r {
                Ok(c2) => {
                    &&& !old(self).hw.fault_pending()
                    &&& c2 == cursor + 1
                    &&& final(self).hw.tx@ == old(self).hw.tx@.push(old(buf)@[cursor as int])
                    &&& final(self).hw.rx@ == wire_rx_after(
                        old(self).hw.loopback,
                        old(self).hw.rx@,
                    )
                    &&& final(buf)@ == old(buf)@.update(
                        cursor as int,
                        wire_word(old(self).hw.loopback, old(self).hw.rx@, old(buf)@[cursor as int]),
                    )
                    &&& final(self).hw.loopback == old(self).hw.loopback
                    &&& final(self).hw.enabled
                    &&& final(self).hw.frame_left == old(self).hw.frame_left - 1
                    &&& final(self).hw.fault == old(self).hw.fault
                    &&& final(self).hw.fault_in == dec1(old(self).hw.fault_in)
                },
                Err(e) => {
                    &&& old(self).hw.fault_pending()
                    &&& old(self).hw.fault == Some(e)
                    &&& *final(self) == *old(self)
                    &&& final(buf)@ == old(buf)@
                },
            },
    {
        if self.hw.fault_in == 0 {
            match self.hw.fault {
                Some(e) => {
                    return Err(e);
                },
                None => {},
            }
        }
        let out: W = buf[cursor];
        let inw: W = if self.hw.loopback {
            out
        } else if self.hw.rx.len() > 0 {
            let h = self.hw.rx.remove(0);
            proof {
                assert(old(self).hw.rx@.remove(0) =~= old(self).hw.rx@.skip(1));
            }
            h
        } else {
            W::filler()
        };
        self.hw.tx.push(out);
        buf[cursor] = inw;
        self.hw.frame_left = self.hw.frame_left - 1;
        if self.hw.fault_in > 0 {
            self.hw.fault_in = self.hw.fault_in - 1;
        }
        Ok(cursor + 1)
    }
}

/// The larger of two lengths.
pub open spec fn max2(a: int, b: int) -> int {
    if a >= b {
        a
    } else {
        b
    }
}

impl<W: Word> Inner<W> {
    /// Poll `read_partial` until the whole buffer is filled.
    fn drive_read(&mut self, buf: &mut Vec<W>) -> (r: Result<(), Error>)
        requires
            old(self).hw.enabled,
            old(self).hw.frame_left >= old(buf).len(),
        ensures
            final(buf)@.len() == old(buf)@.len(),
            match r {
                Ok(()) => {
                    &&& (old(self).hw.fault is Some ==> old(self).hw.fault_in >= old(buf)@.len())
                    &&& final(buf)@ == Seq::new(
                        old(buf)@.len(),
                        |i: int| recv_word(old(self).hw.rx@, i),
                    )
                    &&& final(self).hw.rx@ == rx_drop(old(self).hw.rx@, old(buf)@.len() as int)
                    &&& final(self).hw.tx@ == old(self).hw.tx@
                    &&& final(self).hw.loopback == old(self).hw.loopback
                    &&& final(self).hw.enabled
                    &&& final(self).hw.frame_left == old(self).hw.frame_left - old(buf)@.len()
                    &&& final(self).hw.fault == old(self).hw.fault
                    &&& final(self).hw.fault_in == sub_floor(
                        old(self).hw.fault_in,
                        old(buf)@.len() as int,
                    )
                },
                Err(e) => {
                    &&& old(self).hw.fault == Some(e)
                    &&& old(self).hw.fault_in < old(buf)@.len()
                    &&& final(self).hw.enabled
                    &&& final(self).hw.loopback == old(self).hw.loopback
                    &&& final(self).hw.tx@ == old(self).hw.tx@
                },
            },
    {
        let ghost hw0 = self.hw;
        let ghost buf0 = buf@;
        let len = buf.len();
        let mut cursor: usize = 0;
        while cursor < len
            invariant
                hw0 == old(self).hw,
                buf0 == old(buf)@,
                cursor <= len,
                len == buf0.len(),
                buf@.len() == buf0.len(),
                self.hw.enabled,
                hw0.frame_left >= len,
                self.hw.frame_left == hw0.frame_left - cursor,
                self.hw.loopback == hw0.loopback,
                self.hw.fault == hw0.fault,
                self.hw.tx@ == hw0.tx@,
                self.hw.rx@ == rx_drop(hw0.rx@, cursor as int),
                forall|j: int|
                    0 <= j < buf0.len() ==> buf@[j] == (if j < cursor {
                        recv_word(hw0.rx@, j)
                    } else {
                        buf0[j]
                    }),
                self.hw.fault_in == sub_floor(hw0.fault_in, cursor as int),
                hw0.fault is Some ==> hw0.fault_in >= cursor,
            decreases len - cursor,
        {
            let ghost rx_cur = self.hw.rx@;
            match self.read_partial(buf, cursor) {
                Ok(c2) => {
                    proof {
                        assert(recv_word(rx_cur, 0) == recv_word(hw0.rx@, cursor as int));
                        assert(rx_drop(rx_cur, 1) =~= rx_drop(hw0.rx@, cursor as int + 1));
                    }
                    cursor = c2;
                },
                Err(e) => {
                    return Err(e);
                },
            }
        }
        proof {
            assert(buf@ =~= Seq::new(buf0.len(), |i: int| recv_word(hw0.rx@, i)));
        }
        Ok(())
    }

    /// Poll `write_partial` until the whole buffer has been shifted out.
    fn drive_write(&mut self, words: &Vec<W>) -> (r: Result<(), Error>)
        requires
            old(self).hw.enabled,
            old(self).hw.frame_left >= words.len(),
        ensures
            match r {
                Ok(()) => {
                    &&& (old(self).hw.fault is Some ==> old(self).hw.fault_in >= words@.len())
                    &&& final(self).hw.tx@ == old(self).hw.tx@ + words@
                    &&& final(self).hw.rx@ == if old(self).hw.loopback {
                        old(self).hw.rx@ + words@
                    } else {
                        old(self).hw.rx@
                    }
                    &&& final(self).hw.loopback == old(self).hw.loopback
                    &&& final(self).hw.enabled
                    &&& final(self).hw.frame_left == old(self).hw.frame_left - words@.len()
                    &&& final(self).hw.fault == old(self).hw.fault
                    &&& final(self).hw.fault_in == sub_floor(
                        old(self).hw.fault_in,
                        words@.len() as int,
                    )
                },
                Err(e) => {
                    &&& old(self).hw.fault == Some(e)
                    &&& old(self).hw.fault_in < words@.len()
                    &&& final(self).hw.enabled
                    &&& final(self).hw.loopback == old(self).hw.loopback
                },
            },
    {
        let ghost hw0 = self.hw;
        let len = words.len();
        let mut cursor: usize = 0;
        while cursor < len
            invariant
                hw0 == old(self).hw,
                cursor <= len,
                len == words@.len(),
                self.hw.enabled,
                hw0.frame_left >= len,
                self.hw.frame_left == hw0.frame_left - cursor,
                self.hw.loopback == hw0.loopback,
                self.hw.fault == hw0.fault,
                self.hw.tx@ == hw0.tx@ + words@.take(cursor as int),
                self.hw.rx@ == if hw0.loopback {
                    hw0.rx@ + words@.take(cursor as int)
                } else {
                    hw0.rx@
                },
                self.hw.fault_in == sub_floor(hw0.fault_in, cursor as int),
                hw0.fault is Some ==> hw0.fault_in >= cursor,
            decreases len - cursor,
        {
            match self.write_partial(words, cursor) {
                Ok(c2) => {
                    proof {
                        assert((hw0.tx@ + words@.take(cursor as int)).push(
                            words@[cursor as int],
                        ) =~= hw0.tx@ + words@.take(cursor as int + 1));
                        if hw0.loopback {
                            assert((hw0.rx@ + words@.take(cursor as int)).push(
                                words@[cursor as int],
                            ) =~= hw0.rx@ + words@.take(cursor as int + 1));
                        }
                    }
                    cursor = c2;
                },
                Err(e) => {
                    return Err(e);
                },
            }
        }
        proof {
            assert(words@.take(len as int) =~= words@);
        }
        Ok(())
    }

    /// Poll `transfer_partial` until the longer of the two buffers is done.
    fn drive_transfer(&mut self, read: &mut Vec<W>, write: &Vec<W>) -> (r: Result<(), Error>)
        requires
            old(self).hw.enabled,
            old(self).hw.frame_left >= max2(old(read).len() as int, write.len() as int),
        ensures
            final(read)@.len() == old(read)@.len(),
            match r {
                Ok(()) => {
                    &&& (old(self).hw.fault is Some ==> old(self).hw.fault_in >= max2(
                        old(read)@.len() as int,
                        write@.len() as int,
                    ))
                    &&& final(read)@ == Seq::new(
                        old(read)@.len(),
                        |i: int| in_word(old(self).hw.loopback, old(self).hw.rx@, write@, i),
                    )
                    &&& final(self).hw.tx@ == old(self).hw.tx@ + Seq::new(
                        max2(old(read)@.len() as int, write@.len() as int) as nat,
                        |i: int| out_word(write@, i),
                    )
                    &&& final(self).hw.rx@ == rx_after_n(
                        old(self).hw.loopback,
                        old(self).hw.rx@,
                        max2(old(read)@.len() as int, write@.len() as int),
                    )
                    &&& final(self).hw.loopback == old(self).hw.loopback
                    &&& final(self).hw.enabled
                    &&& final(self).hw.frame_left == old(self).hw.frame_left - max2(
                        old(read)@.len() as int,
                        write@.len() as int,
                    )
                    &&& final(self).hw.fault == old(self).hw.fault
                    &&& final(self).hw.fault_in == sub_floor(
                        old(self).hw.fault_in,
                        max2(old(read)@.len() as int, write@.len() as int),
                    )
                },
                Err(e) => {
                    &&& old(self).hw.fault == Some(e)
                    &&& old(self).hw.fault_in < max2(old(read)@.len() as int, write@.len() as int)
                    &&& final(self).hw.enabled
                    &&& final(self).hw.loopback == old(self).hw.loopback
                },
            },
    {
        let ghost hw0 = self.hw;
        let ghost r0 = read@;
        let n = if read.len() >= write.len() {
            read.len()
        } else {
            write.len()
        };
        let mut cursor: usize = 0;
        while cursor < n
            invariant
                hw0 == old(self).hw,
                r0 == old(read)@,
                cursor <= n,
                n == max2(r0.len() as int, write@.len() as int),
                read@.len() == r0.len(),
                self.hw.enabled,
                hw0.frame_left >= n,
                self.hw.frame_left == hw0.frame_left - cursor,
                self.hw.loopback == hw0.loopback,
                self.hw.fault == hw0.fault,
                self.hw.tx@ == hw0.tx@ + Seq::new(cursor as nat, |i: int| out_word(write@, i)),
                self.hw.rx@ == rx_after_n(hw0.loopback, hw0.rx@, cursor as int),
                forall|j: int|
                    0 <= j < r0.len() ==> read@[j] == (if j < cursor {
                        in_word(hw0.loopback, hw0.rx@, write@, j)
                    } else {
                        r0[j]
                    }),
                self.hw.fault_in == sub_floor(hw0.fault_in, cursor as int),
                hw0.fault is Some ==> hw0.fault_in >= cursor,
            decreases n - cursor,
        {
            let ghost rx_cur = self.hw.rx@;
            let ghost tx_cur = self.hw.tx@;
            match self.transfer_partial(read, write, cursor) {
                Ok(c2) => {
                    proof {
                        assert(tx_cur.push(out_word(write@, cursor as int)) =~= hw0.tx@ + Seq::new(
                            cursor as nat + 1,
                            |i: int| out_word(write@, i),
                        ));
                        if !hw0.loopback {
                            if rx_cur.len() > 0 {
                                assert(cursor < hw0.rx@.len());
                                assert(rx_cur[0] == hw0.rx@[cursor as int]);
                                assert(wire_rx_after(hw0.loopback, rx_cur) =~= rx_after_n(
                                    hw0.loopback,
                                    hw0.rx@,
                                    cursor as int + 1,
                                ));
                            } else {
                                assert(wire_rx_after(hw0.loopback, rx_cur) =~= rx_after_n(
                                    hw0.loopback,
                                    hw0.rx@,
                                    cursor as int + 1,
                                ));
                            }
                        }
                        assert(wire_word(hw0.loopback, rx_cur, out_word(write@, cursor as int))
                            == in_word(hw0.loopback, hw0.rx@, write@, cursor as int));
                    }
                    cursor = c2;
                },
                Err(e) => {
                    return Err(e);
                },
            }
        }
        proof {
            assert(read@ =~= Seq::new(
                r0.len(),
                |i: int| in_word(hw0.loopback, hw0.rx@, write@, i),
            ));
        }
        Ok(())
    }

    /// Poll `transfer_inplace_partial` until every slot has been exchanged.
    fn drive_transfer_inplace(&mut self, buf: &mut Vec<W>) -> (r: Result<(), Error>)
        requires
            old(self).hw.enabled,
            old(self).hw.frame_left >= old(buf).len(),
        ensures
            final(buf)@.len() == old(buf)@.len(),
            match r {
                Ok(()) => {
                    &&& (old(self).hw.fault is Some ==> old(self).hw.fault_in >= old(buf)@.len())
                    &&& final(buf)@ == Seq::new(
                        old(buf)@.len(),
                        |i: int| in_word(old(self).hw.loopback, old(self).hw.rx@, old(buf)@, i),
                    )
                    &&& final(self).hw.tx@ == old(self).hw.tx@ + old(buf)@
                    &&& final(self).hw.rx@ == rx_after_n(
                        old(self).hw.loopback,
                        old(self).hw.rx@,
                        old(buf)@.len() as int,
                    )
                    &&& final(self).hw.loopback == old(self).hw.loopback
                    &&& final(self).hw.enabled
                    &&& final(self).hw.frame_left == old(self).hw.frame_left - old(buf)@.len()
                    &&& final(self).hw.fault == old(self).hw.fault
                    &&& final(self).hw.fault_in == sub_floor(
                        old(self).hw.fault_in,
                        old(buf)@.len() as int,
                    )
                },
                Err(e) => {
                    &&& old(self).hw.fault == Some(e)
                    &&& old(self).hw.fault_in < old(buf)@.len()
                    &&& final(self).hw.enabled
                    &&& final(self).hw.loopback == old(self).hw.loopback
                },
            },
    {
        let ghost hw0 = self.hw;
        let ghost b0 = buf@;
        let len = buf.len();
        let mut cursor: usize = 0;
        while cursor < len
            invariant
                hw0 == old(self).hw,
                b0 == old(buf)@,
                cursor <= len,
                len == b0.len(),
                buf@.len() == b0.len(),
                self.hw.enabled,
                hw0.frame_left >= len,
                self.hw.frame_left == hw0.frame_left - cursor,
                self.hw.loopback == hw0.loopback,
                self.hw.fault == hw0.fault,
                self.hw.tx@ == hw0.tx@ + b0.take(cursor as int),
                self.hw.rx@ == rx_after_n(hw0.loopback, hw0.rx@, cursor as int),
                forall|j: int|
                    0 <= j < b0.len() ==> buf@[j] == (if j < cursor {
                        in_word(hw0.loopback, hw0.rx@, b0, j)
                    } else {
                        b0[j]
                    }),
                self.hw.fault_in == sub_floor(hw0.fault_in, cursor as int),
                hw0.fault is Some ==> hw0.fault_in >= cursor,
            decreases len - cursor,
        {
            let ghost rx_cur = self.hw.rx@;
            let ghost tx_cur = self.hw.tx@;
            let ghost bcur = buf@;
            match self.transfer_inplace_partial(buf, cursor) {
                Ok(c2) => {
                    proof {
                        assert(bcur[cursor as int] == b0[cursor as int]);
                        assert(tx_cur.push(b0[cursor as int]) =~= hw0.tx@ + b0.take(
                            cursor as int + 1,
                        ));
                        if !hw0.loopback {
                            if rx_cur.len() > 0 {
                                assert(cursor < hw0.rx@.len());
                                assert(rx_cur[0] == hw0.rx@[cursor as int]);
                                assert(wire_rx_after(hw0.loopback, rx_cur) =~= rx_after_n(
                                    hw0.loopback,
                                    hw0.rx@,
                                    cursor as int + 1,
                                ));
                            } else {
                                assert(wire_rx_after(hw0.loopback, rx_cur) =~= rx_after_n(
                                    hw0.loopback,
                                    hw0.rx@,
                                    cursor as int + 1,
                                ));
                            }
                        }
                        assert(wire_word(hw0.loopback, rx_cur, bcur[cursor as int]) == in_word(
                            hw0.loopback,
                            hw0.rx@,
                            b0,
                            cursor as int,
                        ));
                    }
                    cursor = c2;
                },
                Err(e) => {
                    return Err(e);
                },
            }
        }
        proof {
            assert(b0.take(len as int) =~= b0);
            assert(buf@ =~= Seq::new(b0.len(), |i: int| in_word(hw0.loopback, hw0.rx@, b0, i)));
        }
        Ok(())
    }
}

/// The SPI facade: owns the inner engine, and therefore exclusive access to
/// one peripheral block, and gates every operation set by the capability
/// flags of its communication mode.
pub struct Spi<MODE: CommunicationMode, W: Word> {
    pub inner: Inner<W>,
    pub mode: PhantomData<MODE>,
}

impl<MODE: CommunicationMode, W: Word> Spi<MODE, W> {
    pub fn new(hw: SpiHw<W>) -> (spi: Spi<MODE, W>)
        ensures
            spi.inner.hw == hw,
    {
        Spi { inner: Inner { hw }, mode: PhantomData }
    }

    /// Whether the peripheral reports idle: no transaction frame is open.
    pub fn is_idle(&self) -> (r: bool)
        ensures
            r == self.inner.hw.idle(),
    {
        !self.inner.hw.enabled
    }

    /// Nothing is ever buffered past the end of a blocking call, so there is
    /// nothing to flush.
    pub fn flush(&mut self) -> (r: Result<(), Error>)
        ensures
            r == Ok::<(), Error>(()),
            *final(self) == *old(self),
    {
        Ok(())
    }
}

impl<MODE: SupportsRead, W: Word> Spi<MODE, W> {
    /// Blocking receive: frame a transaction for the whole buffer, poll the
    /// partial primitive to completion, and commit. Returns the word count.
    pub fn read(&mut self, words: &mut Vec<W>) -> (r: Result<usize, Error>)
        ensures
            final(words)@.len() == old(words)@.len(),
            match r {
                Ok(n) => {
                    &&& n == old(words)@.len()
                    &&& (old(words)@.len() == 0 ==> *final(self) == *old(self) && final(words)@
                        == old(words)@)
                    &&& (old(words)@.len() > 0 ==> {
                        &&& !old(self).inner.hw.enabled
                        &&& old(words)@.len() <= MAX_TRANSFER_WORDS
                        &&& (old(self).inner.hw.fault is Some ==> old(self).inner.hw.fault_in
                            >= old(words)@.len())
                        &&& final(words)@ == Seq::new(
                            old(words)@.len(),
                            |i: int| recv_word(old(self).inner.hw.rx@, i),
                        )
                        &&& final(self).inner.hw.rx@ == rx_drop(
                            old(self).inner.hw.rx@,
                            old(words)@.len() as int,
                        )
                        &&& final(self).inner.hw.tx@ == old(self).inner.hw.tx@
                        &&& final(self).inner.hw.idle()
                        &&& final(self).inner.hw.frame_left == 0
                        &&& final(self).inner.hw.loopback == old(self).inner.hw.loopback
                        &&& final(self).inner.hw.fault == old(self).inner.hw.fault
                        &&& final(self).inner.hw.fault_in == sub_floor(
                            old(self).inner.hw.fault_in,
                            old(words)@.len() as int,
                        )
                    })
                },
                Err(e) => {
                    &&& old(words)@.len() > 0
                    &&& if old(self).inner.hw.enabled {
                        e == Error::TransactionAlreadyStarted && *final(self) == *old(self)
                            && final(words)@ == old(words)@
                    } else if old(words)@.len() > MAX_TRANSFER_WORDS {
                        e == (Error::BufferTooBig { max_size: MAX_TRANSFER_WORDS }) && *final(self)
                            == *old(self) && final(words)@ == old(words)@
                    } else {
                        &&& old(self).inner.hw.fault == Some(e)
                        &&& old(self).inner.hw.fault_in < old(words)@.len()
                        &&& final(self).inner.hw.idle()
                        &&& final(self).inner.hw.frame_left == 0
                        &&& final(self).inner.hw.rx@ == Seq::<W>::empty()
                        &&& final(self).inner.hw.tx@ == old(self).inner.hw.tx@
                        &&& final(self).inner.hw.fault is None
                        &&& final(self).inner.hw.loopback == old(self).inner.hw.loopback
                    }
                },
            },
    {
        let len = words.len();
        if len == 0 {
            return Ok(0);
        }
        match self.inner.setup_transaction(len) {
            Err(e) => {
                return Err(e);
            },
            Ok(()) => {},
        }
        match self.inner.drive_read(words) {
            Ok(()) => {
                self.inner.end_transaction();
                Ok(len)
            },
            Err(e) => {
                self.inner.abort_transaction();
                Err(e)
            },
        }
    }
}

impl<MODE: SupportsWrite, W: Word> Spi<MODE, W> {
    /// Blocking transmit: frame a transaction for the whole buffer, poll the
    /// partial primitive to completion, and commit. Returns the word count.
    pub fn write(&mut self, words: &Vec<W>) -> (r: Result<usize, Error>)
        ensures
            match r {
                Ok(n) => {
                    &&& n == words@.len()
                    &&& (words@.len() == 0 ==> *final(self) == *old(self))
                    &&& (words@.len() > 0 ==> {
                        &&& !old(self).inner.hw.enabled
                        &&& words@.len() <= MAX_TRANSFER_WORDS
                        &&& (old(self).inner.hw.fault is Some ==> old(self).inner.hw.fault_in
                            >= words@.len())
                        &&& final(self).inner.hw.tx@ == old(self).inner.hw.tx@ + words@
                        &&& final(self).inner.hw.rx@ == if old(self).inner.hw.loopback {
                            old(self).inner.hw.rx@ + words@
                        } else {
                            old(self).inner.hw.rx@
                        }
                        &&& final(self).inner.hw.idle()
                        &&& final(self).inner.hw.frame_left == 0
                        &&& final(self).inner.hw.loopback == old(self).inner.hw.loopback
                        &&& final(self).inner.hw.fault == old(self).inner.hw.fault
                        &&& final(self).inner.hw.fault_in == sub_floor(
                            old(self).inner.hw.fault_in,
                            words@.len() as int,
                        )
                    })
                },
                Err(e) => {
                    &&& words@.len() > 0
                    &&& if old(self).inner.hw.enabled {
                        e == Error::TransactionAlreadyStarted && *final(self) == *old(self)
                    } else if words@.len() > MAX_TRANSFER_WORDS {
                        e == (Error::BufferTooBig { max_size: MAX_TRANSFER_WORDS }) && *final(self)
                            == *old(self)
                    } else {
                        &&& old(self).inner.hw.fault == Some(e)
                        &&& old(self).inner.hw.fault_in < words@.len()
                        &&& final(self).inner.hw.idle()
                        &&& final(self).inner.hw.frame_left == 0
                        &&& final(self).inner.hw.rx@ == Seq::<W>::empty()
                        &&& final(self).inner.hw.fault is None
                        &&& final(self).inner.hw.loopback == old(self).inner.hw.loopback
                    }
                },
            },
    {
        let len = words.len();
        if len == 0 {
            return Ok(0);
        }
        match self.inner.setup_transaction(len) {
            Err(e) => {
                return Err(e);
            },
            Ok(()) => {},
        }
        match self.inner.drive_write(words) {
            Ok(()) => {
                self.inner.end_transaction();
                Ok(len)
            },
            Err(e) => {
                self.inner.abort_transaction();
                Err(e)
            },
        }
    }
}

impl<W: Word> Spi<FullDuplex, W> {
    /// Blocking full-duplex transfer: shift the outbound buffer out while
    /// filling the inbound buffer, clocking the longer of the two.
    pub fn transfer(&mut self, read: &mut Vec<W>, write: &Vec<W>) -> (r: Result<(), Error>)
        ensures
            final(read)@.len() == old(read)@.len(),
            match r {
                Ok(()) => {
                    &&& (max2(old(read)@.len() as int, write@.len() as int) == 0 ==> *final(self)
                        == *old(self) && final(read)@ == old(read)@)
                    &&& (max2(old(read)@.len() as int, write@.len() as int) > 0 ==> {
                        &&& !old(self).inner.hw.enabled
                        &&& max2(old(read)@.len() as int, write@.len() as int)
                            <= MAX_TRANSFER_WORDS
                        &&& (old(self).inner.hw.fault is Some ==> old(self).inner.hw.fault_in
                            >= max2(old(read)@.len() as int, write@.len() as int))
                        &&& final(read)@ == Seq::new(
                            old(read)@.len(),
                            |i: int|
                                in_word(
                                    old(self).inner.hw.loopback,
                                    old(self).inner.hw.rx@,
                                    write@,
                                    i,
                                ),
                        )
                        &&& final(self).inner.hw.tx@ == old(self).inner.hw.tx@ + Seq::new(
                            max2(old(read)@.len() as int, write@.len() as int) as nat,
                            |i: int| out_word(write@, i),
                        )
                        &&& final(self).inner.hw.rx@ == rx_after_n(
                            old(self).inner.hw.loopback,
                            old(self).inner.hw.rx@,
                            max2(old(read)@.len() as int, write@.len() as int),
                        )
                        &&& final(self).inner.hw.idle()
                        &&& final(self).inner.hw.frame_left == 0
                        &&& final(self).inner.hw.loopback == old(self).inner.hw.loopback
                        &&& final(self).inner.hw.fault == old(self).inner.hw.fault
                        &&& final(self).inner.hw.fault_in == sub_floor(
                            old(self).inner.hw.fault_in,
                            max2(old(read)@.len() as int, write@.len() as int),
                        )
                    })
                },
                Err(e) => {
                    &&& max2(old(read)@.len() as int, write@.len() as int) > 0
                    &&& if old(self).inner.hw.enabled {
                        e == Error::TransactionAlreadyStarted && *final(self) == *old(self)
                            && final(read)@ == old(read)@
                    } else if max2(old(read)@.len() as int, write@.len() as int)
                        > MAX_TRANSFER_WORDS {
                        e == (Error::BufferTooBig { max_size: MAX_TRANSFER_WORDS }) && *final(self)
                            == *old(self) && final(read)@ == old(read)@
                    } else {
                        &&& old(self).inner.hw.fault == Some(e)
                        &&& old(self).inner.hw.fault_in < max2(
                            old(read)@.len() as int,
                            write@.len() as int,
                        )
                        &&& final(self).inner.hw.idle()
                        &&& final(self).inner.hw.frame_left == 0
                        &&& final(self).inner.hw.rx@ == Seq::<W>::empty()
                        &&& final(self).inner.hw.fault is None
                        &&& final(self).inner.hw.loopback == old(self).inner.hw.loopback
                    }
                },
            },
    {
        let n = if read.len() >= write.len() {
            read.len()
        } else {
            write.len()
        };
        if n == 0 {
            return Ok(());
        }
        match self.inner.setup_transaction(n) {
            Err(e) => {
                return Err(e);
            },
            Ok(()) => {},
        }
        match self.inner.drive_transfer(read, write) {
            Ok(()) => {
                self.inner.end_transaction();
                Ok(())
            },
            Err(e) => {
                self.inner.abort_transaction();
                Err(e)
            },
        }
    }

    /// Blocking in-place full-duplex transfer: each slot's word goes out and
    /// is replaced by the word shifted in, never reading a slot after the
    /// matching outbound word overwrote it.
    pub fn transfer_inplace(&mut self, words: &mut Vec<W>) -> (r: Result<(), Error>)
        ensures
            final(words)@.len() == old(words)@.len(),
            match r {
                Ok(()) => {
                    &&& (old(words)@.len() == 0 ==> *final(self) == *old(self) && final(words)@
                        == old(words)@)
                    &&& (old(words)@.len() > 0 ==> {
                        &&& !old(self).inner.hw.enabled
                        &&& old(words)@.len() <= MAX_TRANSFER_WORDS
                        &&& (old(self).inner.hw.fault is Some ==> old(self).inner.hw.fault_in
                            >= old(words)@.len())
                        &&& final(words)@ == Seq::new(
                            old(words)@.len(),
                            |i: int|
                                in_word(
                                    old(self).inner.hw.loopback,
                                    old(self).inner.hw.rx@,
                                    old(words)@,
                                    i,
                                ),
                        )
                        &&& final(self).inner.hw.tx@ == old(self).inner.hw.tx@ + old(words)@
                        &&& final(self).inner.hw.rx@ == rx_after_n(
                            old(self).inner.hw.loopback,
                            old(self).inner.hw.rx@,
                            old(words)@.len() as int,
                        )
                        &&& final(self).inner.hw.idle()
                        &&& final(self).inner.hw.frame_left == 0
                        &&& final(self).inner.hw.loopback == old(self).inner.hw.loopback
                        &&& final(self).inner.hw.fault == old(self).inner.hw.fault
                        &&& final(self).inner.hw.fault_in == sub_floor(
                            old(self).inner.hw.fault_in,
                            old(words)@.len() as int,
                        )
                    })
                },
                Err(e) => {
                    &&& old(words)@.len() > 0
                    &&& if old(self).inner.hw.enabled {
                        e == Error::TransactionAlreadyStarted && *final(self) == *old(self)
                            && final(words)@ == old(words)@
                    } else if old(words)@.len() > MAX_TRANSFER_WORDS {
                        e == (Error::BufferTooBig { max_size: MAX_TRANSFER_WORDS }) && *final(self)
                            == *old(self) && final(words)@ == old(words)@
                    } else {
                        &&& old(self).inner.hw.fault == Some(e)
                        &&& old(self).inner.hw.fault_in < old(words)@.len()
                        &&& final(self).inner.hw.idle()
                        &&& final(self).inner.hw.frame_left == 0
                        &&& final(self).inner.hw.rx@ == Seq::<W>::empty()
                        &&& final(self).inner.hw.fault is None
                        &&& final(self).inner.hw.loopback == old(self).inner.hw.loopback
                    }
                },
            },
    {
        let len = words.len();
        if len == 0 {
            return Ok(());
        }
        match self.inner.setup_transaction(len) {
            Err(e) => {
                return Err(e);
            },
            Ok(()) => {},
        }
        match self.inner.drive_transfer_inplace(words) {
            Ok(()) => {
                self.inner.end_transaction();
                Ok(())
            },
            Err(e) => {
                self.inner.abort_transaction();
                Err(e)
            },
        }
    }
}

/// Law: round-trip identity under external loopback. On a loopback-wired
/// full-duplex bus whose receive queue starts empty, a write of any `words`
/// leaves exactly `words` queued, and a read of the same count returns
/// exactly `words`: writing then reading is the identity.
pub proof fn lemma_loopback_round_trip<W: Word>(rx0: Seq<W>, words: Seq<W>)
    requires
        rx0.len() == 0,
    ensures
        Seq::new(words.len(), |i: int| recv_word(rx0 + words, i)) == words,
        rx_drop(rx0 + words, words.len() as int) == Seq::<W>::empty(),
{
    assert(Seq::new(words.len(), |i: int| recv_word(rx0 + words, i)) =~= words);
    assert(rx_drop(rx0 + words, words.len() as int) =~= Seq::<W>::empty());
}

} // verus!
