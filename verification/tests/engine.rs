use epd_e6_driver::display::{BusFault, Error, LineFault, Pixel};
use epd_e6_driver::e6_color::E6Color;
use epd_e6_driver::e6_display::E6Display;
use epd_e6_driver::nibbles::Nibbles;
use epd_e6_driver::port::{DataCommand, DisplayPort};
use epd_e6_driver::protocol::init_commands;

/// One recorded act of the mock port, in the order it happened.
#[derive(Clone, PartialEq, Eq, Debug)]
enum Recorded {
    SelectCommand,
    SelectData,
    Write(Vec<u8>),
    Transfer(u8),
    ResetLow,
    ResetHigh,
    Poll(bool),
    Delay(u32),
}

/// A recording port whose busy line reports not-ready a fixed number of
/// times before going ready (or never, when that number is out of reach).
struct MockPort {
    acts: Vec<Recorded>,
    polls: usize,
    ready_after: usize,
}

impl MockPort {
    fn ready_immediately() -> Self {
        MockPort { acts: Vec::new(), polls: 0, ready_after: 0 }
    }

    fn never_ready() -> Self {
        MockPort { acts: Vec::new(), polls: 0, ready_after: usize::MAX }
    }
}

impl DisplayPort for MockPort {
    fn set_data_command(&mut self, level: DataCommand) -> Result<(), LineFault> {
        self.acts.push(match level {
            DataCommand::Data => Recorded::SelectData,
            DataCommand::Command => Recorded::SelectCommand,
        });
        Ok(())
    }

    fn spi_write(&mut self, data: &[u8]) -> Result<(), BusFault> {
        self.acts.push(Recorded::Write(data.to_vec()));
        Ok(())
    }

    fn spi_transfer_byte(&mut self, out: u8) -> Result<u8, BusFault> {
        self.acts.push(Recorded::Transfer(out));
        Ok(0)
    }

    fn set_reset(&mut self, high: bool) -> Result<(), LineFault> {
        self.acts.push(if high { Recorded::ResetHigh } else { Recorded::ResetLow });
        Ok(())
    }

    fn busy_is_ready(&mut self) -> Result<bool, LineFault> {
        let ready = self.polls >= self.ready_after;
        self.polls += 1;
        self.acts.push(Recorded::Poll(ready));
        Ok(ready)
    }

    fn delay_ms(&mut self, ms: u32) {
        self.acts.push(Recorded::Delay(ms));
    }
}

fn display_with(width: u16, height: u16, port: MockPort) -> E6Display<MockPort> {
    let pixels = width as usize * height as usize;
    let buffer = vec![0u8; (pixels + 1) / 2];
    E6Display::new(width, height, port, Nibbles::new(buffer, pixels))
}

fn wire_only(acts: &[Recorded]) -> Vec<Recorded> {
    acts.iter()
        .filter(|a| !matches!(a, Recorded::Poll(_) | Recorded::Delay(_)))
        .cloned()
        .collect()
}

/// Splits wire acts into (opcode, payload) command transactions, checking
/// the command/data framing along the way.
fn transactions(events: &[Recorded]) -> Vec<(u8, Vec<u8>)> {
    let mut out = Vec::new();
    let mut i = 0;
    while i < events.len() {
        assert_eq!(events[i], Recorded::SelectCommand, "transaction must start at command level");
        let opcode = match &events[i + 1] {
            Recorded::Write(bytes) => {
                assert_eq!(bytes.len(), 1, "opcode is a single byte");
                bytes[0]
            }
            Recorded::Transfer(byte) => *byte,
            other => panic!("expected an opcode write, got {:?}", other),
        };
        i += 2;
        let mut payload = Vec::new();
        while i + 1 < events.len() && events[i] == Recorded::SelectData {
            match &events[i + 1] {
                Recorded::Write(bytes) => payload.extend_from_slice(bytes),
                other => panic!("expected a payload write, got {:?}", other),
            }
            i += 2;
        }
        out.push((opcode, payload));
    }
    out
}

/// A port whose SPI writes fail, or whose digital lines fail.
struct FailingPort {
    fail_spi: bool,
    fail_lines: bool,
}

impl DisplayPort for FailingPort {
    fn set_data_command(&mut self, _level: DataCommand) -> Result<(), LineFault> {
        if self.fail_lines { Err(LineFault::Other) } else { Ok(()) }
    }

    fn spi_write(&mut self, _data: &[u8]) -> Result<(), BusFault> {
        if self.fail_spi { Err(BusFault::Overrun) } else { Ok(()) }
    }

    fn spi_transfer_byte(&mut self, _out: u8) -> Result<u8, BusFault> {
        if self.fail_spi { Err(BusFault::Overrun) } else { Ok(0) }
    }

    fn set_reset(&mut self, _high: bool) -> Result<(), LineFault> {
        if self.fail_lines { Err(LineFault::Other) } else { Ok(()) }
    }

    fn busy_is_ready(&mut self) -> Result<bool, LineFault> {
        if self.fail_lines { Err(LineFault::Other) } else { Ok(true) }
    }

    fn delay_ms(&mut self, _ms: u32) {}
}

#[test]
fn spi_fault_surfaces_as_spi_error_with_its_kind() {
    let port = FailingPort { fail_spi: true, fail_lines: false };
    let buffer = Nibbles::new(vec![0u8; 8], 16);
    let mut display = E6Display::new(4, 4, port, buffer);
    assert_eq!(display.initialize(), Err(Error::SpiError(BusFault::Overrun)));
}

#[test]
fn line_fault_surfaces_as_digital_pin_error_with_its_kind() {
    let port = FailingPort { fail_spi: false, fail_lines: true };
    let buffer = Nibbles::new(vec![0u8; 8], 16);
    let mut display = E6Display::new(4, 4, port, buffer);
    assert_eq!(display.initialize(), Err(Error::DigitalPinError(LineFault::Other)));
}

#[test]
fn construction_rejects_short_frame_buffer() {
    let port = MockPort::ready_immediately();
    let buffer = Nibbles::new(vec![0u8; 7], 14);
    let display: Option<E6Display<MockPort>> = E6Display::try_new(4, 4, port, buffer);
    assert!(display.is_none());
}

#[test]
fn construction_accepts_exact_frame_buffer() {
    let port = MockPort::ready_immediately();
    let buffer = Nibbles::new(vec![0u8; 8], 16);
    let display = E6Display::try_new(4, 4, port, buffer).expect("exact capacity must do");
    assert_eq!(display.width(), 4);
    assert_eq!(display.height(), 4);
    assert_eq!(display.len(), 16);
    assert_eq!(display.frame_len(), 16);
}

#[test]
fn construction_accepts_oversized_frame_buffer() {
    let port = MockPort::ready_immediately();
    let buffer = Nibbles::new(vec![0u8; 16], 32);
    assert!(E6Display::try_new(4, 4, port, buffer).is_some());
}

#[test]
fn busy_timeout_after_bounded_polls() {
    let port = MockPort::never_ready();
    let mut display = display_with(4, 4, port);
    let result = display.busy_wait();
    assert_eq!(result, Err(Error::BusyTimeout));
    // No more than ceil(20000 / 100) + 1 readings of the busy line, each
    // not-ready reading followed by exactly one pacing delay.
    let acts = &display.port_ref().acts;
    assert_eq!(acts.len(), 402);
    for pair in acts.chunks(2) {
        assert_eq!(pair, &[Recorded::Poll(false), Recorded::Delay(100)]);
    }
}

#[test]
fn busy_wait_paces_polls_until_ready() {
    let mut port = MockPort::ready_immediately();
    port.ready_after = 3;
    let mut display = display_with(4, 4, port);
    assert_eq!(display.busy_wait(), Ok(()));
    // Three not-ready rounds, each one reading then one pacing delay, then
    // the ready reading; nothing touches the wire.
    assert_eq!(
        display.port_ref().acts,
        vec![
            Recorded::Poll(false),
            Recorded::Delay(100),
            Recorded::Poll(false),
            Recorded::Delay(100),
            Recorded::Poll(false),
            Recorded::Delay(100),
            Recorded::Poll(true),
        ]
    );
}

#[test]
fn initialize_holds_lie_between_the_reset_edges() {
    let port = MockPort::ready_immediately();
    let mut display = display_with(4, 4, port);
    display.initialize().expect("initialize against a well-behaved mock");

    // The exact interleaving: low, hold, high, hold, busy wait — only then
    // the command table.
    let acts = &display.port_ref().acts;
    assert_eq!(
        &acts[0..5],
        &[
            Recorded::ResetLow,
            Recorded::Delay(30),
            Recorded::ResetHigh,
            Recorded::Delay(30),
            Recorded::Poll(true),
        ]
    );
    // No readings or delays between the table entries.
    for act in &acts[5..] {
        assert!(!matches!(act, Recorded::Poll(_) | Recorded::Delay(_)));
    }
}

#[test]
fn initialize_replays_the_table_verbatim() {
    let port = MockPort::ready_immediately();
    let mut display = display_with(4, 4, port);
    display.initialize().expect("initialize against a well-behaved mock");

    let wire = wire_only(&display.port_ref().acts);
    assert_eq!(wire[0], Recorded::ResetLow);
    assert_eq!(wire[1], Recorded::ResetHigh);
    let txns = transactions(&wire[2..]);
    assert_eq!(txns.len(), 13);
    let table = init_commands();
    for ((opcode, payload), (code, data)) in txns.iter().zip(table.iter()) {
        assert_eq!(*opcode, code.code());
        assert_eq!(payload, data);
    }
}

#[test]
fn frame_transfer_waits_after_every_chunk() {
    // 8200 nibbles over 4100 bytes: one full chunk and a 4-byte tail.
    let port = MockPort::ready_immediately();
    let buffer = Nibbles::new(vec![0u8; 4100], 8200);
    let mut display = E6Display::new(100, 82, port, buffer);
    display.send_frame_buffer().expect("transfer against a well-behaved mock");

    let acts = &display.port_ref().acts;
    // The exact interleaving with an always-ready line: the start command,
    // each chunk followed by its busy wait, the status read, one last wait.
    assert_eq!(
        acts.as_slice(),
        &[
            Recorded::SelectCommand,
            Recorded::Write(vec![0x10]),
            Recorded::SelectData,
            Recorded::Write(vec![0u8; 4096]),
            Recorded::Poll(true),
            Recorded::SelectData,
            Recorded::Write(vec![0u8; 4]),
            Recorded::Poll(true),
            Recorded::SelectCommand,
            Recorded::Transfer(0x11),
            Recorded::Poll(true),
        ]
    );
}

#[test]
fn frame_transfer_chunks_sum_to_buffer_len() {
    let port = MockPort::ready_immediately();
    let buffer = Nibbles::new(vec![0u8; 4100], 8200);
    let mut display = E6Display::new(100, 82, port, buffer);
    display.send_frame_buffer().expect("transfer against a well-behaved mock");

    let mut chunk_sizes = Vec::new();
    for act in wire_only(&display.port_ref().acts) {
        if let Recorded::Write(bytes) = act {
            if bytes.len() != 1 {
                chunk_sizes.push(bytes.len());
            }
        }
    }
    assert_eq!(chunk_sizes, vec![4096, 4]);
    assert_eq!(chunk_sizes.iter().sum::<usize>(), 4100);
}

#[test]
fn frame_transfer_of_exact_chunk_multiple() {
    // 16384 nibbles over 8192 bytes: two full chunks, the tail is full.
    let port = MockPort::ready_immediately();
    let buffer = Nibbles::new(vec![0u8; 8192], 16384);
    let mut display = E6Display::new(128, 128, port, buffer);
    display.send_frame_buffer().expect("transfer against a well-behaved mock");

    let mut chunk_sizes = Vec::new();
    for act in wire_only(&display.port_ref().acts) {
        if let Recorded::Write(bytes) = act {
            if bytes.len() != 1 {
                chunk_sizes.push(bytes.len());
            }
        }
    }
    assert_eq!(chunk_sizes, vec![4096, 4096]);
}

#[test]
fn frame_transfer_streams_the_packed_pixels() {
    let port = MockPort::ready_immediately();
    let mut display = display_with(2, 2, port);
    display
        .update(&vec![E6Color::Red, E6Color::Green, E6Color::White, E6Color::Blue])
        .expect("fill four pixels");
    display.send_frame_buffer().expect("transfer against a well-behaved mock");

    // Even index in the high nibble: pixels (3, 6, 1, 5) pack to 0x36 0x15.
    let wire = wire_only(&display.port_ref().acts);
    assert_eq!(wire[2], Recorded::SelectData);
    assert_eq!(wire[3], Recorded::Write(vec![0x36, 0x15]));
}

#[test]
fn refresh_bracket_waits_after_every_command() {
    let port = MockPort::ready_immediately();
    let mut display = display_with(4, 4, port);
    display.refresh_display().expect("bracket against a well-behaved mock");

    assert_eq!(
        display.port_ref().acts,
        vec![
            Recorded::SelectCommand,
            Recorded::Write(vec![0x04]),
            Recorded::Poll(true),
            Recorded::SelectCommand,
            Recorded::Write(vec![0x12]),
            Recorded::SelectData,
            Recorded::Write(vec![0x00]),
            Recorded::Poll(true),
            Recorded::SelectCommand,
            Recorded::Write(vec![0x02]),
            Recorded::Poll(true),
        ]
    );
}

#[test]
fn refresh_sends_frame_then_bracket() {
    let port = MockPort::ready_immediately();
    let mut display = display_with(4, 4, port);
    display.refresh().expect("refresh against a well-behaved mock");

    let wire = wire_only(&display.port_ref().acts);
    let txns = transactions(&wire);
    // Frame transfer: data-transfer-start with the 8 packed bytes, then the
    // status read; bracket: power-on, refresh with 0x00, power-off.
    assert_eq!(txns.len(), 5);
    assert_eq!(txns[0], (0x10, vec![0u8; 8]));
    assert_eq!(txns[1], (0x11, vec![]));
    assert_eq!(txns[2], (0x04, vec![]));
    assert_eq!(txns[3], (0x12, vec![0x00]));
    assert_eq!(txns[4], (0x02, vec![]));
}

#[test]
fn typed_store_round_trips_colors() {
    let mut store: Nibbles<E6Color> = Nibbles::new(vec![0u8; 2], 4);
    let colors = [E6Color::Yellow, E6Color::Black, E6Color::Green, E6Color::Blue];
    for (i, c) in colors.iter().enumerate() {
        store.set(i, *c);
    }
    for (i, c) in colors.iter().enumerate() {
        assert_eq!(store.get(i), *c);
    }
    assert_eq!(store.to_vec(), colors.to_vec());
}

#[test]
fn update_fills_prefix_and_keeps_rest() {
    let port = MockPort::ready_immediately();
    let mut display = display_with(4, 2, port);
    display.update(&vec![E6Color::Red; 8]).expect("full update");
    let colors = vec![E6Color::Green, E6Color::Blue, E6Color::Yellow];
    display.update(&colors).expect("short update");

    let frame = display.frame_codes();
    assert_eq!(frame, vec![6, 5, 2, 3, 3, 3, 3, 3]);
    assert!(display.port_ref().acts.is_empty());
}

#[test]
fn partial_update_touches_only_the_rectangle() {
    let port = MockPort::ready_immediately();
    let mut display = display_with(4, 4, port);
    display.update(&vec![E6Color::White; 16]).expect("fill with white");

    let colors = vec![E6Color::Red, E6Color::Green, E6Color::Blue, E6Color::Yellow];
    display
        .partial_update(&colors, (1, 2), (1, 2))
        .expect("in-bounds rectangle");

    let frame = display.frame_codes();
    // Row-major over the rectangle x in 1..=2, y in 1..=2.
    let expected = vec![
        1, 1, 1, 1, //
        1, 3, 6, 1, //
        1, 5, 2, 1, //
        1, 1, 1, 1,
    ];
    assert_eq!(frame, expected);
}

#[test]
fn partial_update_stops_when_source_runs_dry() {
    let port = MockPort::ready_immediately();
    let mut display = display_with(4, 4, port);
    display.update(&vec![E6Color::Black; 16]).expect("fill with black");

    let colors = vec![E6Color::Red, E6Color::Green, E6Color::Blue];
    display
        .partial_update(&colors, (0, 1), (0, 1))
        .expect("short source");

    let frame = display.frame_codes();
    let expected = vec![
        3, 6, 0, 0, //
        5, 0, 0, 0, //
        0, 0, 0, 0, //
        0, 0, 0, 0,
    ];
    assert_eq!(frame, expected);
}

#[test]
fn draw_pixels_later_write_wins_and_stream_truncates() {
    let port = MockPort::ready_immediately();
    let mut display = display_with(2, 2, port);
    let mut pixels = vec![
        Pixel { x: 0, y: 0, color: E6Color::Red },
        Pixel { x: 1, y: 1, color: E6Color::Green },
        Pixel { x: 0, y: 0, color: E6Color::Blue },
        Pixel { x: 1, y: 0, color: E6Color::Yellow },
    ];
    // A fifth write would exceed the pixel-store length of 4: truncated.
    pixels.push(Pixel { x: 0, y: 1, color: E6Color::White });
    display.draw_pixels(&pixels).expect("draw against the store");

    let frame = display.frame_codes();
    assert_eq!(frame, vec![5, 2, 0, 6]);
}
