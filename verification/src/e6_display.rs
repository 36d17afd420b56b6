//! The protocol engine: a display instance that sequences commands over a
//! [`DisplayPort`], chunks frame transfers and waits on the busy line.
//!
//! Every device-facing operation carries an exact transcript contract over
//! the port's single interleaved log: which bytes go out, where the holds
//! lie between the reset edges, and where the busy waits sit between the
//! chunks and the bracket commands. The wire data alone is also stated, as
//! the filtered view [`E6Display::wire`], so runs can be compared on the
//! wire whatever the panel's readiness did to the waits.

use vstd::prelude::*;
use crate::display::{Error, Pixel};
use crate::e6_color::E6Color;
use crate::nibbles::{
    painted_value, spec_underlying_data_len, underlying_data_len, NibbleCode, Nibbles,
};
use crate::port::{
    busy_wait_acts, command_wire, data_wire, init_wire, is_busy_wait_acts, is_wire_act,
    lemma_wire_of_builders, lemma_wire_of_concat, lemma_wire_of_poll_rounds, lemma_wire_of_pure,
    lemma_wire_of_reset, poll_rounds, read_wire, reset_acts, reset_wire, transaction_wire,
    transactions_wire, wire_of, DataCommand, DisplayPort, PortAct,
};
use crate::protocol::{
    chunk_len_of, chunks_of, init_commands, init_table, CommandCode, BUSY_WAIT_DELAY_MS,
    BUSY_WAIT_MAX_POLLS, RESET_DELAY_MS, SPI_CHUNK_SIZE,
};

verus! {

/// The wire events of streaming a chunk list, one data write per chunk.
pub open spec fn chunks_wire(chunks: Seq<Seq<u8>>) -> Seq<PortAct>
    decreases chunks.len(),
{
    if chunks.len() == 0 {
        seq![]
    } else {
        data_wire(chunks.first()) + chunks_wire(chunks.drop_first())
    }
}

/// The wire view of one frame transfer over `bytes`: the
/// data-transfer-start command, the chunked data writes, then the
/// status-read transaction.
pub open spec fn frame_transfer_wire(bytes: Seq<u8>) -> Seq<PortAct> {
    command_wire(0x10) + chunks_wire(chunks_of(bytes)) + read_wire(0x11)
}

/// The wire view of the refresh bracket: power-on, display-refresh with its
/// fixed zero byte, power-off.
pub open spec fn refresh_bracket_wire() -> Seq<PortAct> {
    command_wire(0x04) + transaction_wire(0x12, seq![0x00u8]) + command_wire(0x02)
}

/// `s` is the full transcript of streaming `bytes` in chunks: each chunk of
/// at most [`SPI_CHUNK_SIZE`] bytes sent as one data write and followed by
/// one busy wait, in order, until the bytes are exhausted.
pub open spec fn is_chunk_stream_acts(s: Seq<PortAct>, bytes: Seq<u8>) -> bool
    decreases bytes.len(),
{
    if bytes.len() == 0 {
        s == Seq::<PortAct>::empty()
    } else {
        exists|wait: Seq<PortAct>, rest: Seq<PortAct>|
            #![trigger wait.len(), rest.len()]
            {
                &&& is_busy_wait_acts(wait)
                &&& is_chunk_stream_acts(rest, bytes.skip(chunk_len_of(bytes.len())))
                &&& s == data_wire(bytes.take(chunk_len_of(bytes.len()))) + wait + rest
            }
    }
}

/// `s` is the full transcript of one frame transfer over `bytes`: the
/// data-transfer-start command, the chunk stream with its busy wait after
/// every chunk, the status-read transaction, then one more busy wait.
pub open spec fn is_frame_transfer_acts(s: Seq<PortAct>, bytes: Seq<u8>) -> bool {
    exists|mid: Seq<PortAct>, wait: Seq<PortAct>|
        #![auto]
        {
            &&& is_chunk_stream_acts(mid, bytes)
            &&& is_busy_wait_acts(wait)
            &&& s == command_wire(0x10) + mid + read_wire(0x11) + wait
        }
}

/// `s` is the full transcript of the refresh bracket, in order: power-on,
/// busy wait, display-refresh with its fixed zero byte, busy wait,
/// power-off, busy wait.
pub open spec fn is_refresh_bracket_acts(s: Seq<PortAct>) -> bool {
    exists|w1: Seq<PortAct>, w2: Seq<PortAct>, w3: Seq<PortAct>|
        #![auto]
        {
            &&& is_busy_wait_acts(w1)
            &&& is_busy_wait_acts(w2)
            &&& is_busy_wait_acts(w3)
            &&& s == command_wire(0x04) + w1 + transaction_wire(0x12, seq![0x00u8]) + w2
                + command_wire(0x02) + w3
        }
}

/// Every act of a replayed command table is a wire act.
proof fn lemma_transactions_wire_pure(table: Seq<(u8, Seq<u8>)>)
    ensures
        forall|i: int| 0 <= i < transactions_wire(table).len()
            ==> is_wire_act(#[trigger] transactions_wire(table)[i]),
    decreases table.len(),
{
    if table.len() > 0 {
        lemma_transactions_wire_pure(table.drop_first());
        let head = transaction_wire(table.first().0, table.first().1);
        assert forall|i: int| 0 <= i < transactions_wire(table).len()
            implies is_wire_act(#[trigger] transactions_wire(table)[i]) by {
            if i < head.len() {
                assert(transactions_wire(table)[i] == head[i]);
            } else {
                assert(transactions_wire(table)[i] == transactions_wire(table.drop_first())[i
                    - head.len()]);
            }
        }
    }
}

/// The wire view of a chunk stream is the chunked data writes alone.
proof fn lemma_wire_of_chunk_stream(s: Seq<PortAct>, bytes: Seq<u8>)
    requires
        is_chunk_stream_acts(s, bytes),
    ensures
        wire_of(s) == chunks_wire(chunks_of(bytes)),
    decreases bytes.len(),
{
    if bytes.len() == 0 {
        assert(wire_of(s) =~= chunks_wire(chunks_of(bytes)));
    } else {
        let clen = if bytes.len() <= SPI_CHUNK_SIZE {
            bytes.len() as int
        } else {
            SPI_CHUNK_SIZE as int
        };
        let (wait, rest) = choose|wait: Seq<PortAct>, rest: Seq<PortAct>|
            #![auto]
            {
                &&& is_busy_wait_acts(wait)
                &&& is_chunk_stream_acts(rest, bytes.skip(chunk_len_of(bytes.len())))
                &&& s == data_wire(bytes.take(chunk_len_of(bytes.len()))) + wait + rest
            };
        assert(clen == chunk_len_of(bytes.len()));
        let k = choose|k: nat| k < BUSY_WAIT_MAX_POLLS && wait == busy_wait_acts(k);
        lemma_wire_of_chunk_stream(rest, bytes.skip(clen));
        lemma_wire_of_concat(data_wire(bytes.take(clen)) + wait, rest);
        lemma_wire_of_concat(data_wire(bytes.take(clen)), wait);
        lemma_wire_of_poll_rounds(k);
        lemma_wire_of_builders(0x10, bytes.take(clen));
        if bytes.len() <= SPI_CHUNK_SIZE {
            assert(bytes.take(clen) =~= bytes);
            assert(chunks_of(bytes) =~= seq![bytes]);
            assert(chunks_of(bytes).drop_first() =~= Seq::<Seq<u8>>::empty());
            assert(wire_of(s) =~= chunks_wire(chunks_of(bytes)));
        } else {
            assert(chunks_of(bytes).first() == bytes.take(clen));
            assert(chunks_of(bytes).drop_first() =~= chunks_of(bytes.skip(clen)));
            assert(wire_of(s) =~= chunks_wire(chunks_of(bytes)));
        }
    }
}

/// The wire view of a frame transfer transcript.
proof fn lemma_wire_of_frame_transfer(s: Seq<PortAct>, bytes: Seq<u8>)
    requires
        is_frame_transfer_acts(s, bytes),
    ensures
        wire_of(s) == frame_transfer_wire(bytes),
{
    let (mid, wait) = choose|mid: Seq<PortAct>, wait: Seq<PortAct>|
        #![auto]
        {
            &&& is_chunk_stream_acts(mid, bytes)
            &&& is_busy_wait_acts(wait)
            &&& s == command_wire(0x10) + mid + read_wire(0x11) + wait
        };
    let k = choose|k: nat| k < BUSY_WAIT_MAX_POLLS && wait == busy_wait_acts(k);
    lemma_wire_of_chunk_stream(mid, bytes);
    lemma_wire_of_concat(command_wire(0x10) + mid + read_wire(0x11), wait);
    lemma_wire_of_concat(command_wire(0x10) + mid, read_wire(0x11));
    lemma_wire_of_concat(command_wire(0x10), mid);
    lemma_wire_of_poll_rounds(k);
    lemma_wire_of_builders(0x10, Seq::<u8>::empty());
    lemma_wire_of_builders(0x11, Seq::<u8>::empty());
    assert(wire_of(s) =~= frame_transfer_wire(bytes));
}

/// The wire view of a refresh bracket transcript.
proof fn lemma_wire_of_refresh_bracket(s: Seq<PortAct>)
    requires
        is_refresh_bracket_acts(s),
    ensures
        wire_of(s) == refresh_bracket_wire(),
{
    let (w1, w2, w3) = choose|w1: Seq<PortAct>, w2: Seq<PortAct>, w3: Seq<PortAct>|
        #![auto]
        {
            &&& is_busy_wait_acts(w1)
            &&& is_busy_wait_acts(w2)
            &&& is_busy_wait_acts(w3)
            &&& s == command_wire(0x04) + w1 + transaction_wire(0x12, seq![0x00u8]) + w2
                + command_wire(0x02) + w3
        };
    let k1 = choose|k: nat| k < BUSY_WAIT_MAX_POLLS && w1 == busy_wait_acts(k);
    let k2 = choose|k: nat| k < BUSY_WAIT_MAX_POLLS && w2 == busy_wait_acts(k);
    let k3 = choose|k: nat| k < BUSY_WAIT_MAX_POLLS && w3 == busy_wait_acts(k);
    lemma_wire_of_poll_rounds(k1);
    lemma_wire_of_poll_rounds(k2);
    lemma_wire_of_poll_rounds(k3);
    let a = command_wire(0x04);
    let b = transaction_wire(0x12, seq![0x00u8]);
    let c = command_wire(0x02);
    lemma_wire_of_concat(a + w1 + b + w2 + c, w3);
    lemma_wire_of_concat(a + w1 + b + w2, c);
    lemma_wire_of_concat(a + w1 + b, w2);
    lemma_wire_of_concat(a + w1, b);
    lemma_wire_of_concat(a, w1);
    lemma_wire_of_builders(0x04, Seq::<u8>::empty());
    lemma_wire_of_builders(0x12, seq![0x00u8]);
    lemma_wire_of_builders(0x02, Seq::<u8>::empty());
    assert(wire_of(s) =~= refresh_bracket_wire());
}

/// The frame after the first `count` writes of a pixel stream, each stored
/// at its row-major index, later writes winning.
pub open spec fn drawn(
    frame0: Seq<u8>,
    pixels: Seq<Pixel<E6Color>>,
    width: int,
    count: int,
) -> Seq<u8>
    decreases count,
{
    if count <= 0 {
        frame0
    } else {
        let p = pixels[count - 1];
        drawn(frame0, pixels, width, count - 1).update(p.y * width + p.x, p.color.code_spec())
    }
}

/// A six-color display instance: a port to the panel and the packed frame
/// buffer, with the panel's width and height fixed at construction.
pub struct E6Display<P: DisplayPort> {
    port: P,
    width: u16,
    height: u16,
    frame_buffer: Nibbles<E6Color>,
}

impl<P: DisplayPort> E6Display<P> {
    /// The frame buffer store.
    pub closed spec fn store(&self) -> Nibbles<E6Color> {
        self.frame_buffer
    }

    /// Everything this display has done at the port, in order: wire acts,
    /// busy-line readings and delays interleaved.
    pub closed spec fn log(&self) -> Seq<PortAct> {
        self.port.log()
    }

    /// The wire view of the log: what was sent towards the panel, in order.
    pub open spec fn wire(&self) -> Seq<PortAct> {
        wire_of(self.log())
    }

    /// The panel width fixed at construction.
    pub closed spec fn width_spec(&self) -> u16 {
        self.width
    }

    /// The panel height fixed at construction.
    pub closed spec fn height_spec(&self) -> u16 {
        self.height
    }

    /// The frame buffer as the sequence of its stored color codes.
    pub open spec fn frame(&self) -> Seq<u8> {
        self.store()@
    }

    /// The packed bytes a frame transfer streams: the first
    /// `ceil(len / 2)` bytes of the backing buffer.
    pub open spec fn frame_bytes(&self) -> Seq<u8> {
        self.store().bytes().take(spec_underlying_data_len(self.store().spec_len()) as int)
    }

    /// The capacity invariant: the frame buffer is well formed and holds at
    /// least one slot per pixel of the width-by-height panel.
    pub open spec fn wf(&self) -> bool {
        &&& self.store().wf()
        &&& self.store().spec_len() >= self.width_spec() * self.height_spec()
    }

    /// The parts of a display no device-facing operation touches: the frame
    /// buffer and the fixed dimensions.
    pub open spec fn same_store(a: &Self, b: &Self) -> bool {
        &&& b.store() == a.store()
        &&& b.width_spec() == a.width_spec()
        &&& b.height_spec() == a.height_spec()
    }

    /// Builds a display over `port` with the given dimensions and frame
    /// buffer. The buffer must hold a slot for every pixel; a caller unsure
    /// of that uses [`E6Display::try_new`].
    pub fn new(width: u16, height: u16, port: P, frame_buffer: Nibbles<E6Color>) -> (r: Self)
        requires
            frame_buffer.wf(),
            frame_buffer.spec_len() >= width * height,
        ensures
            r.wf(),
            r.width_spec() == width,
            r.height_spec() == height,
            r.store() == frame_buffer,
            r.log() == port.log(),
    {
        E6Display { port, width, height, frame_buffer }
    }

    /// Builds a display if the frame buffer has a slot for every pixel, and
    /// reports a too-small buffer otherwise: construction succeeds exactly
    /// when `frame_buffer` holds at least `width * height` slots. The rule
    /// is deliberately at-least rather than exact: an oversized buffer is
    /// accepted, its tail slots simply never shown.
    pub fn try_new(width: u16, height: u16, port: P, frame_buffer: Nibbles<E6Color>) -> (r:
        Option<Self>)
        requires
            frame_buffer.wf(),
        ensures
            r is Some <==> frame_buffer.spec_len() >= width * height,
            r matches Some(d) ==> {
                &&& d.wf()
                &&& d.width_spec() == width
                &&& d.height_spec() == height
                &&& d.store() == frame_buffer
                &&& d.log() == port.log()
            },
    {
        proof {
            assert(width * height <= 65535 * 65535) by (nonlinear_arith)
                requires
                    width <= 65535,
                    height <= 65535,
            ;
        }
        let pixels = (width as usize) * (height as usize);
        if frame_buffer.len() >= pixels {
            Some(E6Display { port, width, height, frame_buffer })
        } else {
            None
        }
    }

    /// The port this display drives, for callers that need to look at the
    /// transport behind the display (a recording mock in a test harness).
    pub fn port_ref(&self) -> (r: &P)
        ensures
            r.log() == self.log(),
    {
        &self.port
    }

    /// Reads the whole frame buffer back as raw color codes, one nibble per
    /// pixel, in index order.
    pub fn frame_codes(&self) -> (r: Vec<u8>)
        requires
            self.wf(),
        ensures
            r@ == self.frame(),
    {
        let len = self.frame_buffer.len();
        let mut out: Vec<u8> = Vec::new();
        let mut i: usize = 0;
        while i < len
            invariant
                self.wf(),
                i <= len,
                len == self.frame().len(),
                out@.len() == i,
                forall|j: int| 0 <= j < i ==> out@[j] == self.frame()[j],
            decreases len - i,
        {
            let pair = self.frame_buffer.as_underlying_data()[i / 2];
            let code = if i % 2 == 0 {
                pair >> 4u8
            } else {
                pair & 0x0Fu8
            };
            out.push(code);
            i = i + 1;
        }
        proof {
            assert(out@ =~= self.frame());
        }
        out
    }

    /// The panel width.
    pub fn width(&self) -> (r: u16)
        ensures
            r == self.width_spec(),
    {
        self.width
    }

    /// The panel height.
    pub fn height(&self) -> (r: u16)
        ensures
            r == self.height_spec(),
    {
        self.height
    }

    /// The pixel count of the panel: width times height.
    pub fn len(&self) -> (r: usize)
        ensures
            r == self.width_spec() * self.height_spec(),
    {
        proof {
            assert(self.width_spec() * self.height_spec() <= 65535 * 65535) by (nonlinear_arith)
                requires
                    self.width_spec() <= 65535,
                    self.height_spec() <= 65535,
            ;
        }
        (self.width as usize) * (self.height as usize)
    }

    /// The slot count of the frame buffer: at least the pixel count, and
    /// the bound up to which a pixel stream is consumed.
    pub fn frame_len(&self) -> (r: usize)
        ensures
            r == self.frame().len(),
    {
        self.frame_buffer.len()
    }

    /// The pixel-store index of position (x, y): row-major, `y * width + x`.
    fn pixel_index(&self, x: usize, y: usize) -> (r: usize)
        requires
            y * self.width_spec() + x <= usize::MAX,
        ensures
            r == y * self.width_spec() + x,
    {
        y * (self.width as usize) + x
    }

    /// Sets the data/command select line, wrapping a line fault.
    fn set_data_command(&mut self, level: DataCommand) -> (r: Result<(), Error>)
        ensures
            Self::same_store(old(self), final(self)),
            r is Ok ==> final(self).log() == old(self).log().push(
                match level {
                    DataCommand::Data => PortAct::SelectData,
                    DataCommand::Command => PortAct::SelectCommand,
                },
            ),
            r is Err ==> r matches Err(Error::DigitalPinError(_)),
    {
        match self.port.set_data_command(level) {
            Ok(()) => Ok(()),
            Err(e) => Err(Error::from_digital_pin_error(e)),
        }
    }

    /// Sends one opcode byte: command level on the select line, then the
    /// byte as one SPI write.
    fn spi_write_command(&mut self, command: CommandCode) -> (r: Result<(), Error>)
        ensures
            Self::same_store(old(self), final(self)),
            r is Ok ==> final(self).log() == old(self).log() + command_wire(command.code_spec()),
            r is Err ==> (r matches Err(Error::DigitalPinError(_)) || r matches Err(
                Error::SpiError(_),
            )),
    {
        self.set_data_command(DataCommand::Command)?;
        let mut buf: Vec<u8> = Vec::new();
        buf.push(command.code());
        match self.port.spi_write(buf.as_slice()) {
            Ok(()) => {
                proof {
                    assert(buf@ =~= seq![command.code_spec()]);
                    assert(self.log() =~= old(self).log() + command_wire(command.code_spec()));
                }
                Ok(())
            },
            Err(e) => Err(Error::from_spi_error(e)),
        }
    }

    /// Sends payload bytes: data level on the select line, then the bytes
    /// as one SPI write.
    fn spi_write_data(&mut self, data: &[u8]) -> (r: Result<(), Error>)
        ensures
            Self::same_store(old(self), final(self)),
            r is Ok ==> final(self).log() == old(self).log() + data_wire(data@),
            r is Err ==> (r matches Err(Error::DigitalPinError(_)) || r matches Err(
                Error::SpiError(_),
            )),
    {
        self.set_data_command(DataCommand::Data)?;
        match self.port.spi_write(data) {
            Ok(()) => {
                proof {
                    assert(self.log() =~= old(self).log() + data_wire(data@));
                }
                Ok(())
            },
            Err(e) => Err(Error::from_spi_error(e)),
        }
    }

    /// Sends one opcode and reads one reply byte in the same transfer.
    /// Nothing is promised of the reply.
    fn spi_write_command_and_read(&mut self, command: CommandCode) -> (r: Result<u8, Error>)
        ensures
            Self::same_store(old(self), final(self)),
            r is Ok ==> final(self).log() == old(self).log() + read_wire(command.code_spec()),
            r is Err ==> (r matches Err(Error::DigitalPinError(_)) || r matches Err(
                Error::SpiError(_),
            )),
    {
        self.set_data_command(DataCommand::Command)?;
        match self.port.spi_transfer_byte(command.code()) {
            Ok(b) => {
                proof {
                    assert(self.log() =~= old(self).log() + read_wire(command.code_spec()));
                }
                Ok(b)
            },
            Err(e) => Err(Error::from_spi_error(e)),
        }
    }

    /// Sends one full command transaction: the opcode, then its payload.
    fn spi_write_command_and_data(&mut self, command: CommandCode, data: &[u8]) -> (r: Result<
        (),
        Error,
    >)
        ensures
            Self::same_store(old(self), final(self)),
            r is Ok ==> final(self).log() == old(self).log() + transaction_wire(
                command.code_spec(),
                data@,
            ),
            r is Err ==> (r matches Err(Error::DigitalPinError(_)) || r matches Err(
                Error::SpiError(_),
            )),
    {
        self.spi_write_command(command)?;
        self.spi_write_data(data)?;
        proof {
            assert(self.log() =~= old(self).log() + transaction_wire(command.code_spec(), data@));
        }
        Ok(())
    }

    /// Issues the power-on command.
    fn power_on(&mut self) -> (r: Result<(), Error>)
        ensures
            Self::same_store(old(self), final(self)),
            r is Ok ==> final(self).log() == old(self).log() + command_wire(0x04),
            r is Err ==> (r matches Err(Error::DigitalPinError(_)) || r matches Err(
                Error::SpiError(_),
            )),
    {
        self.spi_write_command(CommandCode::PON)
    }

    /// Issues the power-off command.
    fn power_off(&mut self) -> (r: Result<(), Error>)
        ensures
            Self::same_store(old(self), final(self)),
            r is Ok ==> final(self).log() == old(self).log() + command_wire(0x02),
            r is Err ==> (r matches Err(Error::DigitalPinError(_)) || r matches Err(
                Error::SpiError(_),
            )),
    {
        self.spi_write_command(CommandCode::POF)
    }

    /// Issues the display-refresh command with its fixed zero data byte.
    fn display_refresh(&mut self) -> (r: Result<(), Error>)
        ensures
            Self::same_store(old(self), final(self)),
            r is Ok ==> final(self).log() == old(self).log() + transaction_wire(
                0x12,
                seq![0x00u8],
            ),
            r is Err ==> (r matches Err(Error::DigitalPinError(_)) || r matches Err(
                Error::SpiError(_),
            )),
    {
        let mut payload: Vec<u8> = Vec::new();
        payload.push(0x00);
        let r = self.spi_write_command_and_data(CommandCode::DRF, payload.as_slice());
        proof {
            assert(payload@ =~= seq![0x00u8]);
        }
        r
    }

    /// Blocks until the busy line reports ready, polling at a fixed pace
    /// with a bounded budget: at most [`BUSY_WAIT_MAX_POLLS`] readings, one
    /// fixed pause after each not-ready reading. An exhausted budget is the
    /// recoverable [`Error::BusyTimeout`], never an unbounded wait.
    pub fn busy_wait(&mut self) -> (r: Result<(), Error>)
        ensures
            Self::same_store(old(self), final(self)),
            r is Ok ==> exists|k: nat|
                #![auto]
                k < BUSY_WAIT_MAX_POLLS && final(self).log() == old(self).log() + busy_wait_acts(
                    k,
                ),
            r is Ok ==> final(self).wire() == old(self).wire(),
            r == Err::<(), Error>(Error::BusyTimeout) ==> {
                &&& final(self).log() == old(self).log() + poll_rounds(BUSY_WAIT_MAX_POLLS as nat)
                &&& final(self).wire() == old(self).wire()
            },
            r is Err ==> (r == Err::<(), Error>(Error::BusyTimeout) || r matches Err(
                Error::DigitalPinError(_),
            )),
    {
        let mut attempts: u32 = 0;
        while attempts < BUSY_WAIT_MAX_POLLS
            invariant
                attempts <= BUSY_WAIT_MAX_POLLS,
                Self::same_store(old(self), self),
                self.log() == old(self).log() + poll_rounds(attempts as nat),
            decreases BUSY_WAIT_MAX_POLLS - attempts,
        {
            let ready = match self.port.busy_is_ready() {
                Ok(b) => b,
                Err(e) => {
                    return Err(Error::from_digital_pin_error(e));
                },
            };
            if ready {
                proof {
                    let k = attempts as nat;
                    assert(self.log() =~= old(self).log() + busy_wait_acts(k));
                    lemma_wire_of_concat(old(self).log(), busy_wait_acts(k));
                    lemma_wire_of_poll_rounds(k);
                    assert(self.wire() =~= old(self).wire());
                }
                return Ok(());
            }
            self.port.delay_ms(BUSY_WAIT_DELAY_MS);
            attempts = attempts + 1;
            proof {
                let k = (attempts - 1) as nat;
                assert(poll_rounds(k + 1) =~= poll_rounds(k) + seq![
                    PortAct::Poll(false),
                    PortAct::Delay(BUSY_WAIT_DELAY_MS),
                ]);
                assert(self.log() =~= old(self).log() + poll_rounds(k + 1));
            }
        }
        proof {
            let k = BUSY_WAIT_MAX_POLLS as nat;
            lemma_wire_of_concat(old(self).log(), poll_rounds(k));
            lemma_wire_of_poll_rounds(k);
            assert(self.wire() =~= old(self).wire());
        }
        Err(Error::BusyTimeout)
    }

    /// Resets the panel, in order: the reset line driven low, one fixed
    /// hold, the line driven high, the same hold again, then one busy wait.
    pub fn reset(&mut self) -> (r: Result<(), Error>)
        ensures
            Self::same_store(old(self), final(self)),
            r is Ok ==> exists|k: nat|
                #![auto]
                k < BUSY_WAIT_MAX_POLLS && final(self).log() == old(self).log() + reset_acts(k),
            r is Ok ==> final(self).wire() == old(self).wire() + reset_wire(),
    {
        match self.port.set_reset(false) {
            Ok(()) => (),
            Err(e) => {
                return Err(Error::from_digital_pin_error(e));
            },
        }
        self.port.delay_ms(RESET_DELAY_MS);
        match self.port.set_reset(true) {
            Ok(()) => (),
            Err(e) => {
                return Err(Error::from_digital_pin_error(e));
            },
        }
        self.port.delay_ms(RESET_DELAY_MS);
        let ghost log_before_wait = self.log();
        self.busy_wait()?;
        proof {
            let k = choose|k: nat|
                #![auto]
                k < BUSY_WAIT_MAX_POLLS && self.log() == log_before_wait + busy_wait_acts(k);
            assert(self.log() =~= old(self).log() + reset_acts(k));
            lemma_wire_of_concat(old(self).log(), reset_acts(k));
            lemma_wire_of_reset(k);
        }
        Ok(())
    }

    /// Initializes the panel: one reset pulse with its holds and busy wait,
    /// then one verbatim replay of the 13-entry initialization sequence, in
    /// table order, with no readings or delays between the entries.
    pub fn initialize(&mut self) -> (r: Result<(), Error>)
        ensures
            Self::same_store(old(self), final(self)),
            r is Ok ==> exists|k: nat|
                #![auto]
                k < BUSY_WAIT_MAX_POLLS && final(self).log() == old(self).log() + reset_acts(k)
                    + init_wire(),
            r is Ok ==> final(self).wire() == old(self).wire() + reset_wire() + init_wire(),
    {
        self.reset()?;
        let ghost k = choose|k: nat|
            #![auto]
            k < BUSY_WAIT_MAX_POLLS && self.log() == old(self).log() + reset_acts(k);
        let ghost log_after_reset = self.log();
        let commands = init_commands();
        proof {
            assert(init_table().skip(0) =~= init_table());
        }
        let mut i: usize = 0;
        while i < commands.len()
            invariant
                i <= commands@.len(),
                commands@.len() == init_table().len(),
                forall|j: int| 0 <= j < commands@.len() ==> {
                    &&& (#[trigger] commands@[j]).0.code_spec() == init_table()[j].0
                    &&& commands@[j].1@ == init_table()[j].1
                },
                Self::same_store(old(self), self),
                self.log() + transactions_wire(init_table().skip(i as int)) == log_after_reset
                    + transactions_wire(init_table()),
            decreases commands@.len() - i,
        {
            let entry = &commands[i];
            let ghost table_rest = init_table().skip(i as int);
            self.spi_write_command_and_data(entry.0, entry.1.as_slice())?;
            proof {
                assert(table_rest.first() == init_table()[i as int]);
                assert(table_rest.drop_first() =~= init_table().skip(i as int + 1));
                assert(transactions_wire(table_rest) == transaction_wire(
                    init_table()[i as int].0,
                    init_table()[i as int].1,
                ) + transactions_wire(init_table().skip(i as int + 1)));
                assert(self.log() + transactions_wire(init_table().skip(i as int + 1))
                    =~= log_after_reset + transactions_wire(init_table()));
            }
            i = i + 1;
        }
        proof {
            assert(init_table().skip(init_table().len() as int) =~= Seq::<(u8, Seq<u8>)>::empty());
            assert(self.log() =~= log_after_reset + init_wire());
            assert(self.log() =~= old(self).log() + reset_acts(k) + init_wire());
            lemma_wire_of_concat(old(self).log() + reset_acts(k), init_wire());
            lemma_wire_of_concat(old(self).log(), reset_acts(k));
            lemma_wire_of_reset(k);
            lemma_transactions_wire_pure(init_table());
            lemma_wire_of_pure(init_wire());
            assert(self.wire() =~= old(self).wire() + reset_wire() + init_wire());
        }
        Ok(())
    }

    /// Streams the backing bytes from `offset` on in chunks of at most
    /// [`SPI_CHUNK_SIZE`], each chunk one data write followed by one busy
    /// wait.
    fn send_chunks(&mut self, offset: usize, total: usize) -> (r: Result<(), Error>)
        requires
            old(self).wf(),
            offset <= total,
            total == old(self).frame_bytes().len(),
        ensures
            Self::same_store(old(self), final(self)),
            r is Ok ==> exists|ext: Seq<PortAct>|
                #![auto]
                final(self).log() == old(self).log() + ext && is_chunk_stream_acts(
                    ext,
                    old(self).frame_bytes().skip(offset as int),
                ),
        decreases total - offset,
    {
        let ghost bytes = self.frame_bytes();
        let ghost remaining = bytes.skip(offset as int);
        if offset >= total {
            proof {
                assert(self.log() =~= old(self).log() + Seq::<PortAct>::empty());
                assert(remaining =~= Seq::<u8>::empty());
            }
            return Ok(());
        }
        let chunk_len = if total - offset < SPI_CHUNK_SIZE {
            total - offset
        } else {
            SPI_CHUNK_SIZE
        };
        let end = offset + chunk_len;
        let mut chunk: Vec<u8> = Vec::new();
        let mut j = offset;
        while j < end
            invariant
                offset <= j <= end,
                end <= total,
                total == bytes.len(),
                bytes == self.frame_bytes(),
                self.wf(),
                chunk@ == bytes.subrange(offset as int, j as int),
            decreases end - j,
        {
            let b = self.frame_buffer.as_underlying_data()[j];
            chunk.push(b);
            proof {
                assert(chunk@ =~= bytes.subrange(offset as int, j + 1));
            }
            j = j + 1;
        }
        proof {
            assert(chunk@ =~= remaining.take(chunk_len as int));
        }
        self.spi_write_data(chunk.as_slice())?;
        let ghost log_before_wait = self.log();
        self.busy_wait()?;
        let ghost k = choose|k: nat|
            #![auto]
            k < BUSY_WAIT_MAX_POLLS && self.log() == log_before_wait + busy_wait_acts(k);
        let ghost log_before_rest = self.log();
        self.send_chunks(end, total)?;
        proof {
            let rest = choose|rest: Seq<PortAct>|
                #![auto]
                self.log() == log_before_rest + rest && is_chunk_stream_acts(
                    rest,
                    bytes.skip(end as int),
                );
            let clen = chunk_len_of(remaining.len());
            assert(clen == chunk_len as int);
            let wait = busy_wait_acts(k);
            let ext = data_wire(remaining.take(clen)) + wait + rest;
            assert(self.log() =~= old(self).log() + ext);
            assert(remaining.skip(clen) =~= bytes.skip(end as int));
            assert(is_busy_wait_acts(wait));
            assert(is_chunk_stream_acts(rest, remaining.skip(clen)));
            assert(ext == data_wire(remaining.take(clen)) + wait + rest);
            // The transcript predicate's witness pattern matches on the
            // lengths of the wait and the tail; name them.
            assert(wait.len() >= 0 && rest.len() >= 0);
            assert(is_chunk_stream_acts(ext, remaining));
        }
        Ok(())
    }

    /// Streams the frame buffer to the panel: the data-transfer-start
    /// command, then the packed bytes in chunks of [`SPI_CHUNK_SIZE`], each
    /// chunk one data write followed by one busy wait; after the last
    /// chunk, the status-read command expecting one reply byte, then one
    /// more busy wait.
    pub fn send_frame_buffer(&mut self) -> (r: Result<(), Error>)
        requires
            old(self).wf(),
        ensures
            Self::same_store(old(self), final(self)),
            r is Ok ==> exists|ext: Seq<PortAct>|
                #![auto]
                final(self).log() == old(self).log() + ext && is_frame_transfer_acts(
                    ext,
                    old(self).frame_bytes(),
                ),
            r is Ok ==> final(self).wire() == old(self).wire() + frame_transfer_wire(
                old(self).frame_bytes(),
            ),
    {
        let ghost bytes = self.frame_bytes();
        self.spi_write_command(CommandCode::DTM1)?;
        let ghost log_after_cmd = self.log();
        let total = underlying_data_len(self.frame_buffer.len());
        proof {
            assert(bytes.len() == total);
            assert(bytes.skip(0) =~= bytes);
        }
        self.send_chunks(0, total)?;
        let ghost mid = choose|ext: Seq<PortAct>|
            #![auto]
            self.log() == log_after_cmd + ext && is_chunk_stream_acts(ext, bytes.skip(0));
        let ghost log_after_chunks = self.log();
        let _status = self.spi_write_command_and_read(CommandCode::DSP)?;
        let ghost log_before_wait = self.log();
        self.busy_wait()?;
        proof {
            let k = choose|k: nat|
                #![auto]
                k < BUSY_WAIT_MAX_POLLS && self.log() == log_before_wait + busy_wait_acts(k);
            let ext = command_wire(0x10) + mid + read_wire(0x11) + busy_wait_acts(k);
            assert(self.log() =~= old(self).log() + ext);
            assert(is_busy_wait_acts(busy_wait_acts(k)));
            assert(is_chunk_stream_acts(mid, bytes));
            assert(is_frame_transfer_acts(ext, bytes));
            lemma_wire_of_frame_transfer(ext, bytes);
            lemma_wire_of_concat(old(self).log(), ext);
        }
        Ok(())
    }

    /// Runs the refresh bracket, in order: power-on, busy wait,
    /// display-refresh with its fixed zero byte, busy wait, power-off, busy
    /// wait.
    pub fn refresh_display(&mut self) -> (r: Result<(), Error>)
        ensures
            Self::same_store(old(self), final(self)),
            r is Ok ==> exists|ext: Seq<PortAct>|
                #![auto]
                final(self).log() == old(self).log() + ext && is_refresh_bracket_acts(ext),
            r is Ok ==> final(self).wire() == old(self).wire() + refresh_bracket_wire(),
    {
        self.power_on()?;
        let ghost m1 = self.log();
        self.busy_wait()?;
        let ghost k1 = choose|k: nat|
            #![auto]
            k < BUSY_WAIT_MAX_POLLS && self.log() == m1 + busy_wait_acts(k);
        self.display_refresh()?;
        let ghost m2 = self.log();
        self.busy_wait()?;
        let ghost k2 = choose|k: nat|
            #![auto]
            k < BUSY_WAIT_MAX_POLLS && self.log() == m2 + busy_wait_acts(k);
        self.power_off()?;
        let ghost m3 = self.log();
        self.busy_wait()?;
        proof {
            let k3 = choose|k: nat|
                #![auto]
                k < BUSY_WAIT_MAX_POLLS && self.log() == m3 + busy_wait_acts(k);
            let ext = command_wire(0x04) + busy_wait_acts(k1) + transaction_wire(
                0x12,
                seq![0x00u8],
            ) + busy_wait_acts(k2) + command_wire(0x02) + busy_wait_acts(k3);
            assert(self.log() =~= old(self).log() + ext);
            assert(is_busy_wait_acts(busy_wait_acts(k1)));
            assert(is_busy_wait_acts(busy_wait_acts(k2)));
            assert(is_busy_wait_acts(busy_wait_acts(k3)));
            assert(is_refresh_bracket_acts(ext));
            lemma_wire_of_refresh_bracket(ext);
            lemma_wire_of_concat(old(self).log(), ext);
        }
        Ok(())
    }

    /// Refreshes the panel from the frame buffer: the two phases in order,
    /// first the full frame transfer, then the refresh bracket.
    pub fn refresh(&mut self) -> (r: Result<(), Error>)
        requires
            old(self).wf(),
        ensures
            Self::same_store(old(self), final(self)),
            r is Ok ==> exists|a: Seq<PortAct>, b: Seq<PortAct>|
                #![auto]
                final(self).log() == old(self).log() + a + b && is_frame_transfer_acts(
                    a,
                    old(self).frame_bytes(),
                ) && is_refresh_bracket_acts(b),
            r is Ok ==> final(self).wire() == old(self).wire() + frame_transfer_wire(
                old(self).frame_bytes(),
            ) + refresh_bracket_wire(),
    {
        self.send_frame_buffer()?;
        let ghost a = choose|ext: Seq<PortAct>|
            #![auto]
            self.log() == old(self).log() + ext && is_frame_transfer_acts(
                ext,
                old(self).frame_bytes(),
            );
        let ghost log_mid = self.log();
        self.refresh_display()?;
        proof {
            let b = choose|ext: Seq<PortAct>|
                #![auto]
                self.log() == log_mid + ext && is_refresh_bracket_acts(ext);
            assert(self.log() =~= old(self).log() + a + b);
            assert(self.wire() =~= old(self).wire() + frame_transfer_wire(old(self).frame_bytes())
                + refresh_bracket_wire());
        }
        Ok(())
    }

    /// Overwrites the frame buffer from the start with the given colors, in
    /// index order: position `i` receives `colors[i]`. A source shorter
    /// than the store fills only a prefix; the remaining pixels keep their
    /// prior value. Purely in-memory: nothing reaches the device.
    pub fn update(&mut self, colors: &Vec<E6Color>) -> (r: Result<(), Error>)
        requires
            old(self).wf(),
        ensures
            final(self).wf(),
            final(self).width_spec() == old(self).width_spec(),
            final(self).height_spec() == old(self).height_spec(),
            final(self).log() == old(self).log(),
            r is Ok,
            final(self).frame().len() == old(self).frame().len(),
            forall|i: int| 0 <= i < old(self).frame().len() ==> final(self).frame()[i] == (
                if i < colors@.len() {
                    colors@[i].code_spec()
                } else {
                    old(self).frame()[i]
                }),
    {
        self.frame_buffer.fill_prefix(colors);
        Ok(())
    }

    /// Overwrites the rectangle with corners `(horizontal.0, vertical.0)`
    /// and `(horizontal.1, vertical.1)`, both inclusive, from the given
    /// colors: the vertical range outer, the horizontal range inner, so the
    /// source is consumed in row-major order. A source shorter than the
    /// rectangle fills only a prefix of that order; every pixel outside the
    /// rectangle keeps its prior value. Purely in-memory.
    pub fn partial_update(
        &mut self,
        colors: &Vec<E6Color>,
        horizontal: (u16, u16),
        vertical: (u16, u16),
    ) -> (r: Result<(), Error>)
        requires
            old(self).wf(),
            horizontal.1 < old(self).width_spec(),
            vertical.1 < old(self).height_spec(),
        ensures
            final(self).wf(),
            final(self).width_spec() == old(self).width_spec(),
            final(self).height_spec() == old(self).height_spec(),
            final(self).log() == old(self).log(),
            r is Ok,
            final(self).frame().len() == old(self).frame().len(),
            forall|i: int| 0 <= i < old(self).frame().len() ==> final(self).frame()[i]
                == painted_value(
                old(self).frame(),
                colors@,
                old(self).width_spec() as int,
                horizontal,
                vertical,
                colors@.len() as int,
                i,
            ),
    {
        proof {
            assert((vertical.1 as int) * (self.width_spec() as int) + horizontal.1
                < self.store().spec_len()) by (nonlinear_arith)
                requires
                    horizontal.1 < self.width_spec(),
                    vertical.1 < self.height_spec(),
                    self.width_spec() * self.height_spec() <= self.store().spec_len(),
            ;
        }
        self.frame_buffer.fill_rect(colors, self.width, horizontal, vertical);
        Ok(())
    }

    /// Accepts a stream of pixel writes, in order, storing each at its
    /// row-major index; later writes to the same position win. The stream
    /// is silently truncated once the number of writes consumed reaches the
    /// pixel-store length. Purely in-memory.
    pub fn draw_pixels(&mut self, pixels: &Vec<Pixel<E6Color>>) -> (r: Result<(), Error>)
        requires
            old(self).wf(),
            forall|k: int| 0 <= k < pixels@.len() && k < old(self).frame().len()
                ==> (#[trigger] pixels@[k]).y * old(self).width_spec() + pixels@[k].x
                < old(self).frame().len(),
        ensures
            final(self).wf(),
            final(self).width_spec() == old(self).width_spec(),
            final(self).height_spec() == old(self).height_spec(),
            final(self).log() == old(self).log(),
            r is Ok,
            final(self).frame().len() == old(self).frame().len(),
            final(self).frame() == drawn(
                old(self).frame(),
                pixels@,
                old(self).width_spec() as int,
                if pixels@.len() < old(self).frame().len() {
                    pixels@.len() as int
                } else {
                    old(self).frame().len() as int
                },
            ),
    {
        let flen = self.frame_buffer.len();
        let width = self.width as usize;
        let mut k: usize = 0;
        while k < pixels.len() && k < flen
            invariant
                self.wf(),
                self.width_spec() == old(self).width_spec(),
                self.height_spec() == old(self).height_spec(),
                self.log() == old(self).log(),
                flen == self.frame().len(),
                flen == old(self).frame().len(),
                width == self.width_spec(),
                k <= pixels@.len(),
                k <= flen,
                forall|j: int| 0 <= j < pixels@.len() && j < flen ==> (#[trigger] pixels@[j]).y
                    * width + pixels@[j].x < flen,
                self.frame() == drawn(old(self).frame(), pixels@, width as int, k as int),
            decreases flen - k,
        {
            let p = &pixels[k];
            proof {
                assert((p.y as int) * (width as int) + (p.x as int) < flen);
                assert(p.y * self.width_spec() + p.x <= 65535 * 65535 + 65535)
                    by (nonlinear_arith)
                    requires
                        p.y <= 65535,
                        p.x <= 65535,
                        self.width_spec() <= 65535,
                ;
            }
            let index = self.pixel_index(p.x as usize, p.y as usize);
            self.frame_buffer.set(index, p.color);
            k = k + 1;
        }
        Ok(())
    }
}

} // verus!
