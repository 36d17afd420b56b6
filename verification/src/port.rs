//! The capability interface the protocol engine drives, and the ghost
//! transcript its contracts are stated over.
//!
//! A port stands for the panel-facing hardware as one bundle: the SPI
//! transport, the data/command select line, the reset line, the busy-sense
//! line and the delay source. Every implementation keeps one ghost log of
//! everything it has done, in order: wire acts (select levels, written
//! bytes, reset edges), busy-line readings and delays, interleaved as they
//! happened. The engine's contracts pin the exact extension of that log, so
//! the placement of every hold and every wait is part of what is proved; the
//! wire data alone is recovered by [`wire_of`], so any two conforming
//! implementations can also be compared on the wire view alone.

use vstd::prelude::*;
use crate::display::{BusFault, LineFault};
use crate::protocol::{init_table, BUSY_WAIT_DELAY_MS, BUSY_WAIT_MAX_POLLS, RESET_DELAY_MS};

verus! {

/// One act at the panel's interface: something sent towards the panel, one
/// reading of the busy line, or one delay.
pub enum PortAct {
    /// The data/command select line set to the command level.
    SelectCommand,
    /// The data/command select line set to the data level.
    SelectData,
    /// One SPI write of the given bytes.
    Write(Seq<u8>),
    /// One SPI transfer writing the given byte and reading one byte back.
    TransferByte(u8),
    /// The reset line driven low.
    ResetLow,
    /// The reset line driven high.
    ResetHigh,
    /// One reading of the busy line: true for ready.
    Poll(bool),
    /// One pause of the given number of milliseconds.
    Delay(u32),
}

/// Whether the next bytes on the bus are an opcode or a payload.
#[derive(Clone, Copy, PartialEq, Eq, Structural, Debug)]
pub enum DataCommand {
    Data,
    Command,
}

/// Whether an act carries data towards the panel. Busy-line readings and
/// delays do not: their number varies with the panel's readiness.
pub open spec fn is_wire_act(act: PortAct) -> bool {
    match act {
        PortAct::Poll(_) => false,
        PortAct::Delay(_) => false,
        _ => true,
    }
}

/// The wire view of a log: its wire acts, in order, with the readings and
/// delays between them dropped.
pub open spec fn wire_of(log: Seq<PortAct>) -> Seq<PortAct>
    decreases log.len(),
{
    if log.len() == 0 {
        Seq::empty()
    } else if is_wire_act(log.last()) {
        wire_of(log.drop_last()).push(log.last())
    } else {
        wire_of(log.drop_last())
    }
}

/// The wire view of two logs in a row is the two wire views in a row.
pub proof fn lemma_wire_of_concat(a: Seq<PortAct>, b: Seq<PortAct>)
    ensures
        wire_of(a + b) == wire_of(a) + wire_of(b),
    decreases b.len(),
{
    if b.len() == 0 {
        assert(a + b =~= a);
        assert(wire_of(a) + b =~= wire_of(a));
    } else {
        lemma_wire_of_concat(a, b.drop_last());
        assert((a + b).drop_last() =~= a + b.drop_last());
        assert((a + b).last() == b.last());
        if is_wire_act(b.last()) {
            assert(wire_of(a + b) =~= wire_of(a) + wire_of(b));
        } else {
            assert(wire_of(a + b) =~= wire_of(a) + wire_of(b));
        }
    }
}

/// The wire view keeps a pushed wire act and drops a pushed reading or
/// delay.
pub proof fn lemma_wire_of_push(s: Seq<PortAct>, a: PortAct)
    ensures
        wire_of(s.push(a)) == (if is_wire_act(a) {
            wire_of(s).push(a)
        } else {
            wire_of(s)
        }),
{
    assert(s.push(a).drop_last() =~= s);
    assert(s.push(a).last() == a);
}

/// A log of readings and delays alone has an empty wire view.
pub proof fn lemma_wire_of_none(s: Seq<PortAct>)
    requires
        forall|i: int| 0 <= i < s.len() ==> !is_wire_act(#[trigger] s[i]),
    ensures
        wire_of(s) == Seq::<PortAct>::empty(),
    decreases s.len(),
{
    if s.len() > 0 {
        lemma_wire_of_none(s.drop_last());
        assert(wire_of(s) =~= Seq::<PortAct>::empty());
    } else {
        assert(wire_of(s) =~= Seq::<PortAct>::empty());
    }
}

/// A log of wire acts alone is its own wire view.
pub proof fn lemma_wire_of_pure(s: Seq<PortAct>)
    requires
        forall|i: int| 0 <= i < s.len() ==> is_wire_act(#[trigger] s[i]),
    ensures
        wire_of(s) == s,
    decreases s.len(),
{
    if s.len() > 0 {
        lemma_wire_of_pure(s.drop_last());
        assert(wire_of(s) =~= s);
    } else {
        assert(wire_of(s) =~= s);
    }
}

/// The wire events of sending one opcode byte: select the command level,
/// write the byte.
pub open spec fn command_wire(code: u8) -> Seq<PortAct> {
    seq![PortAct::SelectCommand, PortAct::Write(seq![code])]
}

/// The wire events of sending a payload: select the data level, write the
/// bytes.
pub open spec fn data_wire(data: Seq<u8>) -> Seq<PortAct> {
    seq![PortAct::SelectData, PortAct::Write(data)]
}

/// One full command transaction: the opcode, then its payload.
pub open spec fn transaction_wire(code: u8, data: Seq<u8>) -> Seq<PortAct> {
    command_wire(code) + data_wire(data)
}

/// One command transaction that reads one reply byte instead of sending a
/// payload.
pub open spec fn read_wire(code: u8) -> Seq<PortAct> {
    seq![PortAct::SelectCommand, PortAct::TransferByte(code)]
}

/// The reset pulse on the wire alone: the line driven low, then high.
pub open spec fn reset_wire() -> Seq<PortAct> {
    seq![PortAct::ResetLow, PortAct::ResetHigh]
}

/// The wire events of replaying a command table in order.
pub open spec fn transactions_wire(table: Seq<(u8, Seq<u8>)>) -> Seq<PortAct>
    decreases table.len(),
{
    if table.len() == 0 {
        seq![]
    } else {
        transaction_wire(table.first().0, table.first().1) + transactions_wire(table.drop_first())
    }
}

/// The wire events of one verbatim replay of the initialization sequence.
pub open spec fn init_wire() -> Seq<PortAct> {
    transactions_wire(init_table())
}

/// `k` not-ready rounds of the polled busy wait: each round one not-ready
/// reading followed by one pacing delay.
pub open spec fn poll_rounds(k: nat) -> Seq<PortAct>
    decreases k,
{
    if k == 0 {
        Seq::empty()
    } else {
        poll_rounds((k - 1) as nat) + seq![
            PortAct::Poll(false),
            PortAct::Delay(BUSY_WAIT_DELAY_MS),
        ]
    }
}

/// One completed busy wait: `k` not-ready rounds, then the ready reading.
pub open spec fn busy_wait_acts(k: nat) -> Seq<PortAct> {
    poll_rounds(k).push(PortAct::Poll(true))
}

/// `s` is one completed busy wait within the polling budget.
pub open spec fn is_busy_wait_acts(s: Seq<PortAct>) -> bool {
    exists|k: nat| k < BUSY_WAIT_MAX_POLLS && s == busy_wait_acts(k)
}

/// The whole reset sequence, in order: the reset line driven low, the first
/// hold, the line driven high, the second hold, then one busy wait of `k`
/// not-ready rounds.
pub open spec fn reset_acts(k: nat) -> Seq<PortAct> {
    seq![
        PortAct::ResetLow,
        PortAct::Delay(RESET_DELAY_MS),
        PortAct::ResetHigh,
        PortAct::Delay(RESET_DELAY_MS),
    ] + busy_wait_acts(k)
}

/// Command, payload and read transactions consist of wire acts alone, so
/// each is its own wire view.
pub proof fn lemma_wire_of_builders(code: u8, data: Seq<u8>)
    ensures
        wire_of(command_wire(code)) == command_wire(code),
        wire_of(data_wire(data)) == data_wire(data),
        wire_of(read_wire(code)) == read_wire(code),
        wire_of(transaction_wire(code, data)) == transaction_wire(code, data),
{
    assert forall|i: int| 0 <= i < command_wire(code).len()
        implies is_wire_act(#[trigger] command_wire(code)[i]) by {}
    lemma_wire_of_pure(command_wire(code));
    assert forall|i: int| 0 <= i < data_wire(data).len()
        implies is_wire_act(#[trigger] data_wire(data)[i]) by {}
    lemma_wire_of_pure(data_wire(data));
    assert forall|i: int| 0 <= i < read_wire(code).len()
        implies is_wire_act(#[trigger] read_wire(code)[i]) by {}
    lemma_wire_of_pure(read_wire(code));
    assert forall|i: int| 0 <= i < transaction_wire(code, data).len()
        implies is_wire_act(#[trigger] transaction_wire(code, data)[i]) by {
        if i < command_wire(code).len() {
            assert(transaction_wire(code, data)[i] == command_wire(code)[i]);
        } else {
            assert(transaction_wire(code, data)[i] == data_wire(data)[i - command_wire(
                code,
            ).len()]);
        }
    }
    lemma_wire_of_pure(transaction_wire(code, data));
}

/// Polling rounds carry no wire acts.
pub proof fn lemma_wire_of_poll_rounds(k: nat)
    ensures
        wire_of(poll_rounds(k)) == Seq::<PortAct>::empty(),
        wire_of(busy_wait_acts(k)) == Seq::<PortAct>::empty(),
    decreases k,
{
    if k == 0 {
        assert(wire_of(poll_rounds(0)) =~= Seq::<PortAct>::empty());
    } else {
        lemma_wire_of_poll_rounds((k - 1) as nat);
        let round = seq![PortAct::Poll(false), PortAct::Delay(BUSY_WAIT_DELAY_MS)];
        lemma_wire_of_concat(poll_rounds((k - 1) as nat), round);
        assert forall|i: int| 0 <= i < round.len() implies !is_wire_act(#[trigger] round[i]) by {}
        lemma_wire_of_none(round);
        assert(wire_of(poll_rounds(k)) =~= Seq::<PortAct>::empty());
    }
    lemma_wire_of_push(poll_rounds(k), PortAct::Poll(true));
    assert(wire_of(busy_wait_acts(k)) =~= Seq::<PortAct>::empty());
}

/// The wire view of a reset sequence is the bare pulse: low, then high.
pub proof fn lemma_wire_of_reset(k: nat)
    ensures
        wire_of(reset_acts(k)) == reset_wire(),
{
    let holds = seq![
        PortAct::ResetLow,
        PortAct::Delay(RESET_DELAY_MS),
        PortAct::ResetHigh,
        PortAct::Delay(RESET_DELAY_MS),
    ];
    let e = Seq::<PortAct>::empty();
    let s1 = e.push(PortAct::ResetLow);
    let s2 = s1.push(PortAct::Delay(RESET_DELAY_MS));
    let s3 = s2.push(PortAct::ResetHigh);
    let s4 = s3.push(PortAct::Delay(RESET_DELAY_MS));
    assert(wire_of(e) =~= e);
    lemma_wire_of_push(e, PortAct::ResetLow);
    lemma_wire_of_push(s1, PortAct::Delay(RESET_DELAY_MS));
    lemma_wire_of_push(s2, PortAct::ResetHigh);
    lemma_wire_of_push(s3, PortAct::Delay(RESET_DELAY_MS));
    assert(holds =~= s4);
    assert(wire_of(holds) =~= reset_wire());
    lemma_wire_of_concat(holds, busy_wait_acts(k));
    lemma_wire_of_poll_rounds(k);
    assert(wire_of(reset_acts(k)) =~= reset_wire());
}

/// The panel-facing hardware bundle the protocol engine drives.
///
/// The capability set behind this interface — a byte-transfer bus, a
/// data/command output line, a reset output line, a busy input line and a
/// delay source — is merged into one trait so that a single log captures
/// the order of operations across all of them. Implementations live outside
/// the verified core: a hardware adapter, or a recording mock in a test
/// harness. The contracts here are what such an implementation owes: each
/// operation appends exactly its own act to the log. Nothing is promised
/// after a fault, since a failing transport may or may not have touched the
/// wire.
pub trait DisplayPort: Sized {
    /// Everything this port has done, in order. The default body is a
    /// placeholder so that implementations outside the verifier need not
    /// provide one; an implementation verified against this trait models
    /// its own log instead.
    open spec fn log(&self) -> Seq<PortAct> {
        Seq::empty()
    }

    /// Sets the data/command select line to the given level.
    fn set_data_command(&mut self, level: DataCommand) -> (r: Result<(), LineFault>)
        ensures
            r is Ok ==> final(self).log() == old(self).log().push(
                match level {
                    DataCommand::Data => PortAct::SelectData,
                    DataCommand::Command => PortAct::SelectCommand,
                },
            ),
    ;

    /// Writes the given bytes over the SPI bus as one transfer.
    fn spi_write(&mut self, data: &[u8]) -> (r: Result<(), BusFault>)
        ensures
            r is Ok ==> final(self).log() == old(self).log().push(PortAct::Write(data@)),
    ;

    /// Writes one byte over the SPI bus and reads one byte back in the same
    /// transfer. Nothing is promised of the byte the panel answers with.
    fn spi_transfer_byte(&mut self, out: u8) -> (r: Result<u8, BusFault>)
        ensures
            r is Ok ==> final(self).log() == old(self).log().push(PortAct::TransferByte(out)),
    ;

    /// Drives the reset line low or high.
    fn set_reset(&mut self, high: bool) -> (r: Result<(), LineFault>)
        ensures
            r is Ok ==> final(self).log() == old(self).log().push(
                if high {
                    PortAct::ResetHigh
                } else {
                    PortAct::ResetLow
                },
            ),
    ;

    /// Reads the busy line once: true when the panel reports ready.
    /// Nothing is promised of the reading itself.
    fn busy_is_ready(&mut self) -> (r: Result<bool, LineFault>)
        ensures
            r matches Ok(ready) ==> final(self).log() == old(self).log().push(
                PortAct::Poll(ready),
            ),
    ;

    /// Pauses for the given number of milliseconds.
    fn delay_ms(&mut self, ms: u32)
        ensures
            final(self).log() == old(self).log().push(PortAct::Delay(ms)),
    ;
}

} // verus!
