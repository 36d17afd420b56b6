use epd_e6_driver::protocol::{
    chunk_bounds, init_commands, CommandCode, BUSY_WAIT_DELAY_MS, BUSY_WAIT_MAX_POLLS,
    BUSY_WAIT_TIMEOUT_MS, RESET_DELAY_MS, SPI_CHUNK_SIZE,
};

#[test]
fn chunk_bounds_follow_the_chunking_rule() {
    assert_eq!(chunk_bounds(0), vec![]);
    assert_eq!(chunk_bounds(1), vec![(0, 1)]);
    assert_eq!(chunk_bounds(4096), vec![(0, 4096)]);
    assert_eq!(chunk_bounds(4097), vec![(0, 4096), (4096, 1)]);
    assert_eq!(chunk_bounds(4100), vec![(0, 4096), (4096, 4)]);
    assert_eq!(chunk_bounds(8192), vec![(0, 4096), (4096, 4096)]);
    let bounds = chunk_bounds(10_000);
    assert_eq!(bounds.len(), 3);
    assert_eq!(bounds.iter().map(|b| b.1).sum::<usize>(), 10_000);
    assert_eq!(bounds.last().unwrap().1, 10_000 % 4096);
}

#[test]
fn timing_constants_match_panel_requirements() {
    assert_eq!(RESET_DELAY_MS, 30);
    assert_eq!(BUSY_WAIT_DELAY_MS, 100);
    assert_eq!(BUSY_WAIT_TIMEOUT_MS, 20_000);
    assert_eq!(BUSY_WAIT_MAX_POLLS, 201);
    assert_eq!(SPI_CHUNK_SIZE, 4096);
}

#[test]
fn opcode_table_matches_panel_commands() {
    assert_eq!(CommandCode::PSR.code(), 0x00);
    assert_eq!(CommandCode::PWR.code(), 0x01);
    assert_eq!(CommandCode::POF.code(), 0x02);
    assert_eq!(CommandCode::POFS.code(), 0x03);
    assert_eq!(CommandCode::PON.code(), 0x04);
    assert_eq!(CommandCode::BTST1.code(), 0x05);
    assert_eq!(CommandCode::BTST2.code(), 0x06);
    assert_eq!(CommandCode::DSLP.code(), 0x07);
    assert_eq!(CommandCode::BTST3.code(), 0x08);
    assert_eq!(CommandCode::DTM1.code(), 0x10);
    assert_eq!(CommandCode::DSP.code(), 0x11);
    assert_eq!(CommandCode::DRF.code(), 0x12);
    assert_eq!(CommandCode::PLL.code(), 0x30);
    assert_eq!(CommandCode::CDI.code(), 0x50);
    assert_eq!(CommandCode::TCON.code(), 0x60);
    assert_eq!(CommandCode::TRES.code(), 0x61);
    assert_eq!(CommandCode::REV.code(), 0x70);
    assert_eq!(CommandCode::VDCS.code(), 0x82);
    assert_eq!(CommandCode::PTL.code(), 0x83);
    assert_eq!(CommandCode::PWS.code(), 0xE3);
    assert_eq!(CommandCode::INIT.code(), 0xAA);
}

#[test]
fn init_sequence_is_the_literal_table() {
    let commands = init_commands();
    let expected: Vec<(u8, Vec<u8>)> = vec![
        (0xAA, vec![0x49, 0x55, 0x20, 0x08, 0x09, 0x18]),
        (0x01, vec![0x3F]),
        (0x00, vec![0x5F, 0x69]),
        (0x05, vec![0x40, 0x1F, 0x1F, 0x2C]),
        (0x08, vec![0x6F, 0x1F, 0x1F, 0x22]),
        (0x06, vec![0x6F, 0x1F, 0x17, 0x17]),
        (0x03, vec![0x00, 0x54, 0x00, 0x44]),
        (0x60, vec![0x02, 0x00]),
        (0x30, vec![0x08]),
        (0x50, vec![0x3F]),
        (0x61, vec![0x03, 0x20, 0x01, 0xE0]),
        (0xE3, vec![0x2F]),
        (0x82, vec![0x01]),
    ];
    assert_eq!(commands.len(), 13);
    assert_eq!(commands.len(), expected.len());
    for ((code, data), (want_code, want_data)) in commands.iter().zip(expected.iter()) {
        assert_eq!(code.code(), *want_code);
        assert_eq!(data, want_data);
    }
}
