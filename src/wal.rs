//! The write-ahead log: its 32-byte header, the 24-byte header of each
//! frame, and the rolling checksum that chains the frames.
use vstd::prelude::*;

use crate::bytes::{
    be_bytes, be_uint, lemma_be_bytes_len, lemma_be_uint_round_trip,
    lemma_pow256_values, push_be_uint, push_bytes, read_u32,
};
use crate::error::{corrupt, LimboError};

verus! {

pub const WAL_HEADER_SIZE: usize = 32;

pub const WAL_FRAME_HEADER_SIZE: usize = 24;

/// Magic number of a log whose checksums read words little-endian.
pub const WAL_MAGIC_LE: u32 = 0x377f0682;

/// Magic number of a log whose checksums read words big-endian.
pub const WAL_MAGIC_BE: u32 = 0x377f0683;

/// The log format version.
pub const WAL_FILE_FORMAT: u32 = 3007000;

/// The header at the start of the write-ahead log; every field is stored as
/// a big-endian `u32`.
#[derive(Debug, Default, Clone, Copy, PartialEq, Eq, Structural)]
pub struct WalHeader {
    /// 0x377f0682 or 0x377f0683; the low bit selects the checksum byte order.
    pub magic: u32,
    /// Format version, 3007000.
    pub file_format: u32,
    /// Database page size in bytes.
    pub page_size: u32,
    /// Increases with each checkpoint.
    pub checkpoint_seq: u32,
    /// Random value used in the checksums.
    pub salt_1: u32,
    /// Second random value used in the checksums.
    pub salt_2: u32,
    /// First half of the checksum of the header.
    pub checksum_1: u32,
    /// Second half of the checksum of the header.
    pub checksum_2: u32,
}

/// The header of one frame of the log; every field is stored as a
/// big-endian `u32`.
#[derive(Debug, Default, Clone, Copy, PartialEq, Eq, Structural)]
pub struct WalFrameHeader {
    pub page_number: u32,
    /// For a commit frame, the size of the database in pages after the
    /// commit; zero for other frames.
    pub db_size: u32,
    /// Salt-1, copied from the log header.
    pub salt_1: u32,
    /// Salt-2, copied from the log header.
    pub salt_2: u32,
    /// First half of the checksum of the log up to and including this frame.
    pub checksum_1: u32,
    /// Second half of that checksum.
    pub checksum_2: u32,
}

/// The four bytes of `x`, most significant first.
pub open spec fn u32_bytes(x: u32) -> Seq<u8> {
    be_bytes(x as nat, 4)
}

/// The 32 bytes a log header is stored as.
pub open spec fn encode_wal_header(h: WalHeader) -> Seq<u8> {
    u32_bytes(h.magic) + u32_bytes(h.file_format) + u32_bytes(h.page_size) + u32_bytes(
        h.checkpoint_seq,
    ) + u32_bytes(h.salt_1) + u32_bytes(h.salt_2) + u32_bytes(h.checksum_1) + u32_bytes(
        h.checksum_2,
    )
}

/// The big-endian `u32` at byte `pos` of `b`.
pub open spec fn u32_field(b: Seq<u8>, pos: int) -> u32 {
    be_uint(b.subrange(pos, pos + 4)) as u32
}

/// The log header that the first 32 bytes of `b` hold.
pub open spec fn decode_wal_header(b: Seq<u8>) -> WalHeader {
    WalHeader {
        magic: u32_field(b, 0),
        file_format: u32_field(b, 4),
        page_size: u32_field(b, 8),
        checkpoint_seq: u32_field(b, 12),
        salt_1: u32_field(b, 16),
        salt_2: u32_field(b, 20),
        checksum_1: u32_field(b, 24),
        checksum_2: u32_field(b, 28),
    }
}

/// The 24 bytes a frame header is stored as.
pub open spec fn encode_frame_header(h: WalFrameHeader) -> Seq<u8> {
    u32_bytes(h.page_number) + u32_bytes(h.db_size) + u32_bytes(h.salt_1) + u32_bytes(h.salt_2)
        + u32_bytes(h.checksum_1) + u32_bytes(h.checksum_2)
}

/// The frame header that the first 24 bytes of `b` hold.
pub open spec fn decode_frame_header(b: Seq<u8>) -> WalFrameHeader {
    WalFrameHeader {
        page_number: u32_field(b, 0),
        db_size: u32_field(b, 4),
        salt_1: u32_field(b, 8),
        salt_2: u32_field(b, 12),
        checksum_1: u32_field(b, 16),
        checksum_2: u32_field(b, 20),
    }
}

proof fn lemma_u32_bytes(x: u32)
    ensures
        u32_bytes(x).len() == 4,
        be_uint(u32_bytes(x)) as u32 == x,
{
    lemma_pow256_values();
    lemma_be_uint_round_trip(x as nat, 4);
}

/// Reading back a stored log header gives the header.
pub proof fn lemma_wal_header_round_trip(h: WalHeader, rest: Seq<u8>)
    ensures
        encode_wal_header(h).len() == 32,
        decode_wal_header(encode_wal_header(h) + rest) == h,
{
    let b = encode_wal_header(h) + rest;
    lemma_u32_bytes(h.magic);
    lemma_u32_bytes(h.file_format);
    lemma_u32_bytes(h.page_size);
    lemma_u32_bytes(h.checkpoint_seq);
    lemma_u32_bytes(h.salt_1);
    lemma_u32_bytes(h.salt_2);
    lemma_u32_bytes(h.checksum_1);
    lemma_u32_bytes(h.checksum_2);
    assert(b.subrange(0, 4) =~= u32_bytes(h.magic));
    assert(b.subrange(4, 8) =~= u32_bytes(h.file_format));
    assert(b.subrange(8, 12) =~= u32_bytes(h.page_size));
    assert(b.subrange(12, 16) =~= u32_bytes(h.checkpoint_seq));
    assert(b.subrange(16, 20) =~= u32_bytes(h.salt_1));
    assert(b.subrange(20, 24) =~= u32_bytes(h.salt_2));
    assert(b.subrange(24, 28) =~= u32_bytes(h.checksum_1));
    assert(b.subrange(28, 32) =~= u32_bytes(h.checksum_2));
}

/// Reading back a stored frame header gives the header.
pub proof fn lemma_frame_header_round_trip(h: WalFrameHeader, rest: Seq<u8>)
    ensures
        encode_frame_header(h).len() == 24,
        decode_frame_header(encode_frame_header(h) + rest) == h,
{
    let b = encode_frame_header(h) + rest;
    lemma_u32_bytes(h.page_number);
    lemma_u32_bytes(h.db_size);
    lemma_u32_bytes(h.salt_1);
    lemma_u32_bytes(h.salt_2);
    lemma_u32_bytes(h.checksum_1);
    lemma_u32_bytes(h.checksum_2);
    assert(b.subrange(0, 4) =~= u32_bytes(h.page_number));
    assert(b.subrange(4, 8) =~= u32_bytes(h.db_size));
    assert(b.subrange(8, 12) =~= u32_bytes(h.salt_1));
    assert(b.subrange(12, 16) =~= u32_bytes(h.salt_2));
    assert(b.subrange(16, 20) =~= u32_bytes(h.checksum_1));
    assert(b.subrange(20, 24) =~= u32_bytes(h.checksum_2));
}

/// Addition modulo 2^32.
pub open spec fn add32(a: u32, b: u32) -> u32 {
    if a + b > u32::MAX {
        (a + b - 0x1_0000_0000) as u32
    } else {
        (a + b) as u32
    }
}

/// The four bytes at `i` read as a word, big-endian or little-endian.
pub open spec fn word_at(s: Seq<u8>, i: int, big_endian: bool) -> u32 {
    if big_endian {
        (s[i] * 0x100_0000 + s[i + 1] * 0x1_0000 + s[i + 2] * 0x100 + s[i + 3]) as u32
    } else {
        (s[i + 3] * 0x100_0000 + s[i + 2] * 0x1_0000 + s[i + 1] * 0x100 + s[i]) as u32
    }
}

/// One step of the checksum, over the pair of words `(a, b)`.
pub open spec fn checksum_step(s: (u32, u32), a: u32, b: u32) -> (u32, u32) {
    let s0 = add32(s.0, add32(a, s.1));
    let s1 = add32(s.1, add32(b, s0));
    (s0, s1)
}

/// The checksum of `s`, taken eight bytes at a time, from the pair `start`;
/// trailing bytes short of eight are not summed.
pub open spec fn wal_checksum(s: Seq<u8>, big_endian: bool, start: (u32, u32)) -> (u32, u32)
    decreases s.len(),
{
    if s.len() < 8 {
        start
    } else {
        wal_checksum(
            s.subrange(8, s.len() as int),
            big_endian,
            checksum_step(start, word_at(s, 0, big_endian), word_at(s, 4, big_endian)),
        )
    }
}

/// Whether a log with this magic number reads checksum words big-endian:
/// the low bit of the magic.
pub open spec fn checksum_big_endian(magic: u32) -> bool {
    magic % 2 == 1
}

/// The checksum of an empty buffer is its starting pair.
pub proof fn lemma_checksum_empty(big_endian: bool, start: (u32, u32))
    ensures
        wal_checksum(Seq::empty(), big_endian, start) == start,
{
}

/// Checksums chain: the checksum of `a` followed by `b` is the checksum of
/// `b` started from the checksum of `a`, where `a` is a whole number of
/// eight-byte pairs.
pub proof fn lemma_checksum_chain(a: Seq<u8>, b: Seq<u8>, big_endian: bool, start: (u32, u32))
    requires
        a.len() % 8 == 0,
    ensures
        wal_checksum(a + b, big_endian, start) == wal_checksum(
            b,
            big_endian,
            wal_checksum(a, big_endian, start),
        ),
    decreases a.len(),
{
    if a.len() == 0 {
        assert(a + b =~= b);
    } else {
        let ab = a + b;
        let next = checksum_step(start, word_at(a, 0, big_endian), word_at(a, 4, big_endian));
        assert(word_at(ab, 0, big_endian) == word_at(a, 0, big_endian));
        assert(word_at(ab, 4, big_endian) == word_at(a, 4, big_endian));
        assert(ab.subrange(8, ab.len() as int) =~= a.subrange(8, a.len() as int) + b);
        lemma_checksum_chain(a.subrange(8, a.len() as int), b, big_endian, next);
    }
}

/// A word reads the same either way round.
pub open spec fn palindromic_word(s: Seq<u8>, i: int) -> bool {
    s[i] == s[i + 3] && s[i + 1] == s[i + 2]
}

/// Where every word of `s` reads the same either way round, the two byte
/// orders give the same checksum.
pub proof fn lemma_checksum_palindromes(s: Seq<u8>, start: (u32, u32))
    requires
        s.len() % 8 == 0,
        forall|i: int| 0 <= i < s.len() && i % 4 == 0 ==> #[trigger] palindromic_word(s, i),
    ensures
        wal_checksum(s, true, start) == wal_checksum(s, false, start),
    decreases s.len(),
{
    if s.len() >= 8 {
        assert(palindromic_word(s, 0));
        assert(palindromic_word(s, 4));
        let rest = s.subrange(8, s.len() as int);
        assert forall|i: int| 0 <= i < rest.len() && i % 4 == 0 implies #[trigger] palindromic_word(
            rest,
            i,
        ) by {
            assert(palindromic_word(s, i + 8));
        }
        assert(word_at(s, 0, true) == word_at(s, 0, false));
        assert(word_at(s, 4, true) == word_at(s, 4, false));
        lemma_checksum_palindromes(
            rest,
            checksum_step(start, word_at(s, 0, true), word_at(s, 4, true)),
        );
    }
}

/// The two readings of four bytes agree only where the word is a
/// palindrome.
proof fn lemma_word_orders_agree(b0: u8, b1: u8, b2: u8, b3: u8)
    requires
        (b0 as u32) * 0x100_0000 + (b1 as u32) * 0x1_0000 + (b2 as u32) * 0x100 + (b3 as u32)
            == (b3 as u32) * 0x100_0000 + (b2 as u32) * 0x1_0000 + (b1 as u32) * 0x100 + (
        b0 as u32),
    ensures
        b0 == b3 && b1 == b2,
{
    assert(b0 == b3 && b1 == b2) by (bit_vector)
        requires
            (b0 as u32) * 0x100_0000 + (b1 as u32) * 0x1_0000 + (b2 as u32) * 0x100 + (b3 as u32)
                == (b3 as u32) * 0x100_0000 + (b2 as u32) * 0x1_0000 + (b1 as u32) * 0x100 + (
            b0 as u32),
    ;
}

/// For a single pair of words, the two byte orders give the same checksum
/// only where both words are palindromes.
pub proof fn lemma_checksum_pair_orders(s: Seq<u8>, start: (u32, u32))
    requires
        s.len() == 8,
        wal_checksum(s, true, start) == wal_checksum(s, false, start),
    ensures
        palindromic_word(s, 0) && palindromic_word(s, 4),
{
    reveal_with_fuel(wal_checksum, 2);
    assert(s.subrange(8, 8).len() == 0);
    let a = word_at(s, 0, true);
    let b = word_at(s, 4, true);
    let c = word_at(s, 0, false);
    let d = word_at(s, 4, false);
    assert(wal_checksum(s, true, start) == checksum_step(start, a, b));
    assert(wal_checksum(s, false, start) == checksum_step(start, c, d));
    assert(a == c);
    assert(b == d);
    lemma_word_orders_agree(s[0], s[1], s[2], s[3]);
    lemma_word_orders_agree(s[4], s[5], s[6], s[7]);
}

/// The checksum of `buf`, whose length is a whole number of eight-byte
/// pairs, started from `input`, reading words big-endian where
/// `big_endian_words` holds and little-endian otherwise.
pub fn checksum_wal(
    buf: &[u8],
    _wal_header: &WalHeader,
    input: (u32, u32),
    big_endian_words: bool,
) -> (r: (u32, u32))
    requires
        buf@.len() % 8 == 0,
    ensures
        r == wal_checksum(buf@, big_endian_words, input),
{
    let mut s0: u32 = input.0;
    let mut s1: u32 = input.1;
    let mut i: usize = 0;
    let len = buf.len();
    assert(buf@.subrange(0, len as int) =~= buf@);
    while i < len
        invariant
            len == buf@.len(),
            len % 8 == 0,
            i <= len,
            i % 8 == 0,
            wal_checksum(buf@, big_endian_words, input) == wal_checksum(
                buf@.subrange(i as int, len as int),
                big_endian_words,
                (s0, s1),
            ),
        decreases len - i,
    {
        let v0 = read_word(buf, i, big_endian_words);
        let v1 = read_word(buf, i + 4, big_endian_words);
        let ghost rest = buf@.subrange(i as int, len as int);
        assert(word_at(rest, 0, big_endian_words) == v0);
        assert(word_at(rest, 4, big_endian_words) == v1);
        assert(rest.subrange(8, rest.len() as int) =~= buf@.subrange(i + 8, len as int));
        s0 = s0.wrapping_add(v0.wrapping_add(s1));
        s1 = s1.wrapping_add(v1.wrapping_add(s0));
        i += 8;
    }
    (s0, s1)
}

/// The word at `i` of `buf`, in the given byte order.
fn read_word(buf: &[u8], i: usize, big_endian: bool) -> (r: u32)
    requires
        i + 4 <= buf@.len(),
    ensures
        r == word_at(buf@, i as int, big_endian),
{
    let (b0, b1, b2, b3) = (buf[i] as u32, buf[i + 1] as u32, buf[i + 2] as u32, buf[i + 3] as u32);
    if big_endian {
        b0 * 0x100_0000 + b1 * 0x1_0000 + b2 * 0x100 + b3
    } else {
        b3 * 0x100_0000 + b2 * 0x1_0000 + b1 * 0x100 + b0
    }
}

/// Decodes the log header from the first 32 bytes of `buf`.
///
/// Fails with `Corrupt` where `buf` is shorter than the header.
pub fn finish_read_wal_header(buf: &[u8]) -> (r: Result<WalHeader, LimboError>)
    ensures
        r is Ok <==> buf@.len() >= 32,
        r matches Ok(h) ==> h == decode_wal_header(buf@),
{
    if buf.len() < WAL_HEADER_SIZE {
        return Err(corrupt("log header is cut short"));
    }
    Ok(
        WalHeader {
            magic: read_u32(buf, 0),
            file_format: read_u32(buf, 4),
            page_size: read_u32(buf, 8),
            checkpoint_seq: read_u32(buf, 12),
            salt_1: read_u32(buf, 16),
            salt_2: read_u32(buf, 20),
            checksum_1: read_u32(buf, 24),
            checksum_2: read_u32(buf, 28),
        },
    )
}

/// The 32 bytes `header` is stored as.
pub fn write_wal_header(header: &WalHeader) -> (r: Vec<u8>)
    ensures
        r@ == encode_wal_header(*header),
{
    let mut buf: Vec<u8> = Vec::with_capacity(WAL_HEADER_SIZE);
    push_be_uint(&mut buf, header.magic as u64, 4);
    push_be_uint(&mut buf, header.file_format as u64, 4);
    push_be_uint(&mut buf, header.page_size as u64, 4);
    push_be_uint(&mut buf, header.checkpoint_seq as u64, 4);
    push_be_uint(&mut buf, header.salt_1 as u64, 4);
    push_be_uint(&mut buf, header.salt_2 as u64, 4);
    push_be_uint(&mut buf, header.checksum_1 as u64, 4);
    push_be_uint(&mut buf, header.checksum_2 as u64, 4);
    assert(buf@ =~= encode_wal_header(*header));
    buf
}

/// Decodes a frame header from the first 24 bytes of `buf`.
///
/// Fails with `Corrupt` where `buf` is shorter than a frame header.
pub fn read_wal_frame_header(buf: &[u8]) -> (r: Result<WalFrameHeader, LimboError>)
    ensures
        r is Ok <==> buf@.len() >= 24,
        r matches Ok(h) ==> h == decode_frame_header(buf@),
{
    if buf.len() < WAL_FRAME_HEADER_SIZE {
        return Err(corrupt("frame header is cut short"));
    }
    Ok(
        WalFrameHeader {
            page_number: read_u32(buf, 0),
            db_size: read_u32(buf, 4),
            salt_1: read_u32(buf, 8),
            salt_2: read_u32(buf, 12),
            checksum_1: read_u32(buf, 16),
            checksum_2: read_u32(buf, 20),
        },
    )
}

/// The checksum a frame carries: that of the first eight bytes of its
/// header, from the log's running checksum `start`, continued over the page.
pub open spec fn frame_checksum(
    page_number: u32,
    db_size: u32,
    page: Seq<u8>,
    magic: u32,
    start: (u32, u32),
) -> (u32, u32) {
    let be = checksum_big_endian(magic);
    wal_checksum(page, be, wal_checksum(u32_bytes(page_number) + u32_bytes(db_size), be, start))
}

/// Builds the frame that logs `page` as page `page_number`, with the salts
/// of `wal_header` and the checksum chained from `checksums`, and returns it
/// with its checksum, the input of the next frame.
///
/// `db_size` is the size of the database in pages after a commit frame, and
/// zero for other frames.
pub fn build_wal_frame(
    page_number: u32,
    page: &[u8],
    db_size: u32,
    wal_header: &WalHeader,
    checksums: (u32, u32),
) -> (r: (Vec<u8>, (u32, u32)))
    requires
        page@.len() % 8 == 0,
    ensures
        r.1 == frame_checksum(page_number, db_size, page@, wal_header.magic, checksums),
        r.0@ == encode_frame_header(
            WalFrameHeader {
                page_number,
                db_size,
                salt_1: wal_header.salt_1,
                salt_2: wal_header.salt_2,
                checksum_1: r.1.0,
                checksum_2: r.1.1,
            },
        ) + page@,
{
    let big_endian = wal_header.magic % 2 == 1;
    let mut prefix: Vec<u8> = Vec::with_capacity(8);
    push_be_uint(&mut prefix, page_number as u64, 4);
    push_be_uint(&mut prefix, db_size as u64, 4);
    proof {
        lemma_be_bytes_len(page_number as nat, 4);
        lemma_be_bytes_len(db_size as nat, 4);
        assert(prefix@ =~= u32_bytes(page_number) + u32_bytes(db_size));
    }
    let header_checksum = checksum_wal(prefix.as_slice(), wal_header, checksums, big_endian);
    let final_checksum = checksum_wal(page, wal_header, header_checksum, big_endian);
    let mut frame: Vec<u8> = Vec::new();
    push_bytes(&mut frame, prefix.as_slice());
    push_be_uint(&mut frame, wal_header.salt_1 as u64, 4);
    push_be_uint(&mut frame, wal_header.salt_2 as u64, 4);
    push_be_uint(&mut frame, final_checksum.0 as u64, 4);
    push_be_uint(&mut frame, final_checksum.1 as u64, 4);
    push_bytes(&mut frame, page);
    let ghost h = WalFrameHeader {
        page_number,
        db_size,
        salt_1: wal_header.salt_1,
        salt_2: wal_header.salt_2,
        checksum_1: final_checksum.0,
        checksum_2: final_checksum.1,
    };
    assert(frame@ =~= encode_frame_header(h) + page@);
    (frame, final_checksum)
}

} // verus!
