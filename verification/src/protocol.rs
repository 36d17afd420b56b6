//! The panel's wire protocol as data: the command opcode table, the literal
//! initialization sequence, the timing constants, and the frame-transfer
//! chunking rule.
//!
//! Both execution variants of the driver consume these tables, so the wire
//! behavior has a single source of truth.

use vstd::prelude::*;

verus! {

/// Width of the reset pulse, for both the low and the high phase, in
/// milliseconds.
pub const RESET_DELAY_MS: u32 = 30;

/// Pause between two reads of the busy line in the polled wait, in
/// milliseconds.
pub const BUSY_WAIT_DELAY_MS: u32 = 100;

/// Total polling budget of the polled busy wait, in milliseconds.
pub const BUSY_WAIT_TIMEOUT_MS: u32 = 20000;

/// Largest number of reads of the busy line one polled wait performs.
pub const BUSY_WAIT_MAX_POLLS: u32 = BUSY_WAIT_TIMEOUT_MS / BUSY_WAIT_DELAY_MS + 1;

/// Largest number of frame-buffer bytes sent as one data transfer.
pub const SPI_CHUNK_SIZE: usize = 4096;

/// The named single-byte commands of the panel.
#[allow(non_camel_case_types)]
#[derive(Clone, Copy, PartialEq, Eq, Structural, Debug)]
pub enum CommandCode {
    PSR,
    PWR,
    POF,
    POFS,
    PON,
    BTST1,
    BTST2,
    DSLP,
    BTST3,
    DTM1,
    DSP,
    DRF,
    PLL,
    CDI,
    TCON,
    TRES,
    REV,
    VDCS,
    PTL,
    PWS,
    INIT,
}

impl CommandCode {
    /// The opcode byte of this command.
    pub open spec fn code_spec(self) -> u8 {
        match self {
            CommandCode::PSR => 0x00,
            CommandCode::PWR => 0x01,
            CommandCode::POF => 0x02,
            CommandCode::POFS => 0x03,
            CommandCode::PON => 0x04,
            CommandCode::BTST1 => 0x05,
            CommandCode::BTST2 => 0x06,
            CommandCode::DSLP => 0x07,
            CommandCode::BTST3 => 0x08,
            CommandCode::DTM1 => 0x10,
            CommandCode::DSP => 0x11,
            CommandCode::DRF => 0x12,
            CommandCode::PLL => 0x30,
            CommandCode::CDI => 0x50,
            CommandCode::TCON => 0x60,
            CommandCode::TRES => 0x61,
            CommandCode::REV => 0x70,
            CommandCode::VDCS => 0x82,
            CommandCode::PTL => 0x83,
            CommandCode::PWS => 0xE3,
            CommandCode::INIT => 0xAA,
        }
    }

    /// Returns the opcode byte of this command.
    pub fn code(self) -> (r: u8)
        ensures
            r == self.code_spec(),
    {
        match self {
            CommandCode::PSR => 0x00,
            CommandCode::PWR => 0x01,
            CommandCode::POF => 0x02,
            CommandCode::POFS => 0x03,
            CommandCode::PON => 0x04,
            CommandCode::BTST1 => 0x05,
            CommandCode::BTST2 => 0x06,
            CommandCode::DSLP => 0x07,
            CommandCode::BTST3 => 0x08,
            CommandCode::DTM1 => 0x10,
            CommandCode::DSP => 0x11,
            CommandCode::DRF => 0x12,
            CommandCode::PLL => 0x30,
            CommandCode::CDI => 0x50,
            CommandCode::TCON => 0x60,
            CommandCode::TRES => 0x61,
            CommandCode::REV => 0x70,
            CommandCode::VDCS => 0x82,
            CommandCode::PTL => 0x83,
            CommandCode::PWS => 0xE3,
            CommandCode::INIT => 0xAA,
        }
    }
}

/// The initialization sequence: (opcode, literal data bytes) pairs, replayed
/// verbatim and in this order once per initialize call.
pub open spec fn init_table() -> Seq<(u8, Seq<u8>)> {
    seq![
        (0xAAu8, seq![0x49u8, 0x55u8, 0x20u8, 0x08u8, 0x09u8, 0x18u8]),
        (0x01u8, seq![0x3Fu8]),
        (0x00u8, seq![0x5Fu8, 0x69u8]),
        (0x05u8, seq![0x40u8, 0x1Fu8, 0x1Fu8, 0x2Cu8]),
        (0x08u8, seq![0x6Fu8, 0x1Fu8, 0x1Fu8, 0x22u8]),
        (0x06u8, seq![0x6Fu8, 0x1Fu8, 0x17u8, 0x17u8]),
        (0x03u8, seq![0x00u8, 0x54u8, 0x00u8, 0x44u8]),
        (0x60u8, seq![0x02u8, 0x00u8]),
        (0x30u8, seq![0x08u8]),
        (0x50u8, seq![0x3Fu8]),
        (0x61u8, seq![0x03u8, 0x20u8, 0x01u8, 0xE0u8]),
        (0xE3u8, seq![0x2Fu8]),
        (0x82u8, seq![0x01u8]),
    ]
}

/// Builds the initialization sequence as executable data: the same 13
/// entries as [`init_table`], opcode for opcode and byte for byte.
pub fn init_commands() -> (r: Vec<(CommandCode, Vec<u8>)>)
    ensures
        r@.len() == init_table().len(),
        forall|i: int| 0 <= i < r@.len() ==> {
            &&& (#[trigger] r@[i]).0.code_spec() == init_table()[i].0
            &&& r@[i].1@ == init_table()[i].1
        },
{
    let mut r: Vec<(CommandCode, Vec<u8>)> = Vec::new();
    r.push((CommandCode::INIT, vec![0x49, 0x55, 0x20, 0x08, 0x09, 0x18]));
    r.push((CommandCode::PWR, vec![0x3F]));
    r.push((CommandCode::PSR, vec![0x5F, 0x69]));
    r.push((CommandCode::BTST1, vec![0x40, 0x1F, 0x1F, 0x2C]));
    r.push((CommandCode::BTST3, vec![0x6F, 0x1F, 0x1F, 0x22]));
    r.push((CommandCode::BTST2, vec![0x6F, 0x1F, 0x17, 0x17]));
    r.push((CommandCode::POFS, vec![0x00, 0x54, 0x00, 0x44]));
    r.push((CommandCode::TCON, vec![0x02, 0x00]));
    r.push((CommandCode::PLL, vec![0x08]));
    r.push((CommandCode::CDI, vec![0x3F]));
    r.push((CommandCode::TRES, vec![0x03, 0x20, 0x01, 0xE0]));
    r.push((CommandCode::PWS, vec![0x2F]));
    r.push((CommandCode::VDCS, vec![0x01]));
    proof {
        assert forall|i: int| 0 <= i < r@.len() implies {
            &&& (#[trigger] r@[i]).0.code_spec() == init_table()[i].0
            &&& r@[i].1@ == init_table()[i].1
        } by {
            assert(r@[0].1@ =~= init_table()[0].1);
            assert(r@[1].1@ =~= init_table()[1].1);
            assert(r@[2].1@ =~= init_table()[2].1);
            assert(r@[3].1@ =~= init_table()[3].1);
            assert(r@[4].1@ =~= init_table()[4].1);
            assert(r@[5].1@ =~= init_table()[5].1);
            assert(r@[6].1@ =~= init_table()[6].1);
            assert(r@[7].1@ =~= init_table()[7].1);
            assert(r@[8].1@ =~= init_table()[8].1);
            assert(r@[9].1@ =~= init_table()[9].1);
            assert(r@[10].1@ =~= init_table()[10].1);
            assert(r@[11].1@ =~= init_table()[11].1);
            assert(r@[12].1@ =~= init_table()[12].1);
        }
    }
    r
}

/// The length of the next chunk when `remaining` bytes are left: a full
/// chunk, or all of them if fewer remain.
pub open spec fn chunk_len_of(remaining: nat) -> int {
    if remaining <= SPI_CHUNK_SIZE {
        remaining as int
    } else {
        SPI_CHUNK_SIZE as int
    }
}

/// The frame-transfer chunking rule: a byte sequence split into slices of
/// [`SPI_CHUNK_SIZE`] bytes, the last one holding whatever remains.
pub open spec fn chunks_of(data: Seq<u8>) -> Seq<Seq<u8>>
    decreases data.len(),
{
    if data.len() == 0 {
        seq![]
    } else if data.len() <= SPI_CHUNK_SIZE {
        seq![data]
    } else {
        seq![data.take(SPI_CHUNK_SIZE as int)] + chunks_of(data.skip(SPI_CHUNK_SIZE as int))
    }
}

/// A chunk index below the chunk count starts strictly inside the data.
proof fn lemma_chunk_offset_in_range(len: int, i: int)
    requires
        len >= 0,
        0 <= i,
        i < (len + SPI_CHUNK_SIZE - 1) / (SPI_CHUNK_SIZE as int),
    ensures
        i * SPI_CHUNK_SIZE < len,
{
    let c = SPI_CHUNK_SIZE as int;
    vstd::arithmetic::div_mod::lemma_fundamental_div_mod(len, c);
    vstd::arithmetic::div_mod::lemma_mod_bound(len, c);
    let q = len / c;
    let m = len % c;
    if m == 0 {
        vstd::arithmetic::div_mod::lemma_fundamental_div_mod_converse(len + c - 1, c, q, c - 1);
        assert(i * c < len) by (nonlinear_arith)
            requires
                i <= q - 1,
                len == q * c,
                c > 0,
                i >= 0,
        ;
    } else {
        vstd::arithmetic::div_mod::lemma_fundamental_div_mod_converse(len + c - 1, c, q + 1, m - 1);
        assert(i * c < len) by (nonlinear_arith)
            requires
                i <= q,
                len == q * c + m,
                m > 0,
                c > 0,
                i >= 0,
        ;
    }
}

/// Returns the chunk list for a transfer of `total` bytes: for each chunk
/// its start offset and its length, in order, following the chunking rule.
/// There are `ceil(total / chunk)` chunks; every chunk but the last is
/// full, and the last holds whatever remains.
pub fn chunk_bounds(total: usize) -> (r: Vec<(usize, usize)>)
    ensures
        r@.len() == (total + SPI_CHUNK_SIZE - 1) as int / (SPI_CHUNK_SIZE as int),
        forall|i: int| 0 <= i < r@.len() ==> {
            &&& (#[trigger] r@[i]).0 == i * SPI_CHUNK_SIZE
            &&& r@[i].1 == chunk_len_of((total - i * SPI_CHUNK_SIZE) as nat)
            &&& i * SPI_CHUNK_SIZE + r@[i].1 <= total
            &&& r@[i].1 > 0
        },
{
    let count = total / SPI_CHUNK_SIZE + (if total % SPI_CHUNK_SIZE == 0 {
        0
    } else {
        1
    });
    proof {
        let c = SPI_CHUNK_SIZE as int;
        let q = total as int / c;
        let m = total as int % c;
        vstd::arithmetic::div_mod::lemma_fundamental_div_mod(total as int, c);
        vstd::arithmetic::div_mod::lemma_mod_bound(total as int, c);
        if m == 0 {
            vstd::arithmetic::div_mod::lemma_fundamental_div_mod_converse(
                total as int + c - 1,
                c,
                q,
                c - 1,
            );
        } else {
            vstd::arithmetic::div_mod::lemma_fundamental_div_mod_converse(
                total as int + c - 1,
                c,
                q + 1,
                m - 1,
            );
        }
        if count > 0 {
            lemma_chunk_offset_in_range(total as int, count - 1);
        }
    }
    let mut r: Vec<(usize, usize)> = Vec::new();
    let mut i: usize = 0;
    while i < count
        invariant
            i <= count,
            count == (total + SPI_CHUNK_SIZE - 1) as int / (SPI_CHUNK_SIZE as int),
            count > 0 ==> (count - 1) * SPI_CHUNK_SIZE < total,
            r@.len() == i,
            forall|j: int| 0 <= j < i ==> {
                &&& (#[trigger] r@[j]).0 == j * SPI_CHUNK_SIZE
                &&& r@[j].1 == chunk_len_of((total - j * SPI_CHUNK_SIZE) as nat)
                &&& j * SPI_CHUNK_SIZE + r@[j].1 <= total
                &&& r@[j].1 > 0
            },
        decreases count - i,
    {
        proof {
            assert(i * SPI_CHUNK_SIZE <= (count - 1) * SPI_CHUNK_SIZE) by (nonlinear_arith)
                requires
                    i <= count - 1,
                    SPI_CHUNK_SIZE > 0,
            ;
        }
        let off = i * SPI_CHUNK_SIZE;
        let len = if total - off < SPI_CHUNK_SIZE {
            total - off
        } else {
            SPI_CHUNK_SIZE
        };
        r.push((off, len));
        i = i + 1;
    }
    r
}

/// Each chunk of the chunking rule is the matching slice of the data:
/// chunk `i` starts at offset `i * SPI_CHUNK_SIZE` and holds the next
/// [`chunk_len_of`] bytes, so the offsets and lengths of [`chunk_bounds`]
/// cut a buffer into exactly the chunks of [`chunks_of`].
pub proof fn lemma_chunks_of_slices(data: Seq<u8>, i: int)
    requires
        0 <= i < chunks_of(data).len(),
    ensures
        chunks_of(data)[i] == data.subrange(
            i * SPI_CHUNK_SIZE,
            i * SPI_CHUNK_SIZE + chunk_len_of((data.len() - i * SPI_CHUNK_SIZE) as nat),
        ),
    decreases i,
{
    let c = SPI_CHUNK_SIZE as int;
    if i == 0 {
        if data.len() <= SPI_CHUNK_SIZE {
            assert(chunks_of(data)[0] == data);
            assert(data =~= data.subrange(0, chunk_len_of(data.len())));
        } else {
            assert(chunks_of(data)[0] == data.take(c));
            assert(data.take(c) =~= data.subrange(0, c));
        }
    } else {
        assert(data.len() > SPI_CHUNK_SIZE);
        let tail = data.skip(c);
        assert(chunks_of(data)[i] == chunks_of(tail)[i - 1]);
        lemma_chunks_of_slices(tail, i - 1);
        lemma_frame_chunking(tail);
        lemma_chunk_offset_in_range(tail.len() as int, i - 1);
        let sub_lo = (i - 1) * c;
        let sub_hi = sub_lo + chunk_len_of((tail.len() - (i - 1) * c) as nat);
        assert(sub_lo == i * c - c);
        assert(tail.subrange(sub_lo, sub_hi) =~= data.subrange(c + sub_lo, c + sub_hi));
        assert(c + sub_lo == i * c);
        assert((tail.len() - (i - 1) * c) as nat == (data.len() - i * c) as nat);
    }
}

/// The total length of a sequence of byte slices.
pub open spec fn chunks_len_sum(chunks: Seq<Seq<u8>>) -> int
    decreases chunks.len(),
{
    if chunks.len() == 0 {
        0
    } else {
        chunks.first().len() + chunks_len_sum(chunks.drop_first())
    }
}

/// Frame transfer splits a buffer of `B` bytes into `ceil(B / chunk)`
/// chunks that concatenate back to the buffer, so their sizes sum to `B`;
/// every chunk but the last is full, and the last holds `B mod chunk` bytes
/// (a full chunk if `B` divides evenly).
pub proof fn lemma_frame_chunking(data: Seq<u8>)
    ensures
        chunks_of(data).len() == (data.len() + SPI_CHUNK_SIZE - 1) / (SPI_CHUNK_SIZE as int),
        chunks_of(data).flatten() == data,
        chunks_len_sum(chunks_of(data)) == data.len(),
        forall|i: int| 0 <= i < chunks_of(data).len()
            ==> 0 < (#[trigger] chunks_of(data)[i]).len() <= SPI_CHUNK_SIZE,
        forall|i: int| 0 <= i < chunks_of(data).len() - 1
            ==> (#[trigger] chunks_of(data)[i]).len() == SPI_CHUNK_SIZE,
        data.len() > 0 ==> chunks_of(data).last().len() == (
            if data.len() as int % (SPI_CHUNK_SIZE as int) == 0 {
                SPI_CHUNK_SIZE as int
            } else {
                data.len() as int % (SPI_CHUNK_SIZE as int)
            }),
    decreases data.len(),
{
    let c = SPI_CHUNK_SIZE as int;
    if data.len() == 0 {
        assert(chunks_of(data).flatten() =~= data);
    } else if data.len() <= SPI_CHUNK_SIZE {
        let chunks = chunks_of(data);
        assert(chunks =~= seq![data]);
        chunks.lemma_flatten_one_element();
        assert(chunks.drop_first() =~= Seq::<Seq<u8>>::empty());
        assert(chunks_len_sum(chunks) == data.len() + chunks_len_sum(chunks.drop_first()));
    } else {
        let head = data.take(c);
        let tail = data.skip(c);
        lemma_frame_chunking(tail);
        let chunks = chunks_of(data);
        assert(chunks.first() == head);
        assert(chunks.drop_first() =~= chunks_of(tail));
        assert(chunks.flatten() == head + chunks_of(tail).flatten()) by {
            lemma_flatten_cons(head, chunks_of(tail));
            assert(chunks =~= seq![head] + chunks_of(tail));
        }
        assert(head + tail =~= data);
        assert(tail.len() == data.len() - c);
        assert((tail.len() as int + c - 1) / c + 1 == (data.len() as int + c - 1) / c) by {
            vstd::arithmetic::div_mod::lemma_div_plus_one(data.len() - 1, c);
        }
        assert(tail.len() as int % c == data.len() as int % c) by {
            vstd::arithmetic::div_mod::lemma_mod_sub_multiples_vanish(data.len() as int, c);
        }
        assert(chunks.last() == chunks_of(tail).last());
        assert(chunks_len_sum(chunks) == head.len() + chunks_len_sum(chunks.drop_first()));
    }
}

/// Prepending one slice to a slice list prepends it to the flattening.
proof fn lemma_flatten_cons(head: Seq<u8>, rest: Seq<Seq<u8>>)
    ensures
        (seq![head] + rest).flatten() == head + rest.flatten(),
{
    let whole = seq![head] + rest;
    assert(whole.first() == head);
    assert(whole.drop_first() =~= rest);
    assert(whole.len() != 0);
    assert(whole.flatten() == head + rest.flatten());
}

} // verus!
