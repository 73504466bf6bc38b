//! The 100-byte database header at the start of the database file.
use vstd::prelude::*;

use crate::bytes::{
    be_bytes, be_int, be_uint, copy_into, i32_bits, i32_to_bits, lemma_be_bytes_len,
    lemma_be_int_round_trip, lemma_be_uint_bound, lemma_be_uint_round_trip, lemma_pow256_values,
    push_be_uint, push_bytes, read_be_u16, read_be_uint, read_u32,
};
use crate::error::{corrupt, LimboError};
use crate::value::copy_prefix;

verus! {

/// The size of the database header in bytes.
pub const DATABASE_HEADER_SIZE: usize = 100;

/// The cache size that a header with 0 in that field stands for: a negative
/// size counts kibibytes of memory rather than pages.
pub const DEFAULT_CACHE_SIZE: i32 = -2000;

/// Minimum number of pages that the page cache holds.
pub const MIN_PAGE_CACHE_SIZE: usize = 10;

/// The database header. Multi-byte fields are stored big-endian.
#[derive(Debug, Clone, PartialEq)]
pub struct DatabaseHeader {
    /// The header string: "SQLite format 3\0".
    pub magic: Vec<u8>,
    /// The page size in bytes; the value 1 stands for 65536.
    pub page_size: u16,
    /// File format write version: 1 for legacy, 2 for WAL.
    pub write_version: u8,
    /// File format read version: 1 for legacy, 2 for WAL.
    pub read_version: u8,
    /// Bytes set aside at the end of each page.
    pub reserved_space: u8,
    /// Maximum embedded payload fraction; must be 64.
    pub max_embed_frac: u8,
    /// Minimum embedded payload fraction; must be 32.
    pub min_embed_frac: u8,
    /// Leaf payload fraction; must be 32.
    pub min_leaf_frac: u8,
    pub change_counter: u32,
    /// Size of the database file in pages.
    pub database_size: u32,
    pub freelist_trunk_page: u32,
    pub freelist_pages: u32,
    pub schema_cookie: u32,
    pub schema_format: u32,
    /// Default page cache size; negative for a size in kibibytes.
    pub default_page_cache_size: i32,
    pub vacuum_mode_largest_root_page: u32,
    /// 1 for UTF-8, 2 for UTF-16le, 3 for UTF-16be.
    pub text_encoding: u32,
    pub user_version: u32,
    pub incremental_vacuum_enabled: u32,
    pub application_id: u32,
    /// Reserved for expansion; must be zero.
    pub reserved_for_expansion: Vec<u8>,
    pub version_valid_for: u32,
    pub version_number: u32,
}

/// The page size in bytes that a stored page-size field stands for: the
/// value 1 stands for 65536.
pub open spec fn page_size_of(raw: u16) -> nat {
    if raw == 1 {
        65536
    } else {
        raw as nat
    }
}

impl DatabaseHeader {
    /// The page size in bytes, with a stored 1 read as 65536.
    pub fn page_size_in_bytes(&self) -> (r: u32)
        ensures
            r == page_size_of(self.page_size),
    {
        if self.page_size == 1 {
            65536
        } else {
            self.page_size as u32
        }
    }
}

/// The byte fields have the lengths the file gives them.
pub open spec fn db_header_wf(h: DatabaseHeader) -> bool {
    h.magic@.len() == 16 && h.reserved_for_expansion@.len() == 20
}

/// The 100 bytes a header is stored as.
pub open spec fn encode_db_header(h: DatabaseHeader) -> Seq<u8> {
    h.magic@ + be_bytes(h.page_size as nat, 2) + seq![
        h.write_version,
        h.read_version,
        h.reserved_space,
        h.max_embed_frac,
        h.min_embed_frac,
        h.min_leaf_frac,
    ] + be_bytes(h.change_counter as nat, 4) + be_bytes(h.database_size as nat, 4) + be_bytes(
        h.freelist_trunk_page as nat,
        4,
    ) + be_bytes(h.freelist_pages as nat, 4) + be_bytes(h.schema_cookie as nat, 4) + be_bytes(
        h.schema_format as nat,
        4,
    ) + be_bytes(i32_bits(h.default_page_cache_size), 4) + be_bytes(
        h.vacuum_mode_largest_root_page as nat,
        4,
    ) + be_bytes(h.text_encoding as nat, 4) + be_bytes(h.user_version as nat, 4) + be_bytes(
        h.incremental_vacuum_enabled as nat,
        4,
    ) + be_bytes(h.application_id as nat, 4) + h.reserved_for_expansion@ + be_bytes(
        h.version_valid_for as nat,
        4,
    ) + be_bytes(h.version_number as nat, 4)
}

/// The big-endian `u32` field at byte `pos` of `b`.
pub open spec fn field_u32(b: Seq<u8>, pos: int) -> nat {
    be_uint(b.subrange(pos, pos + 4))
}

/// The cache size that the stored value `raw` stands for.
pub open spec fn cache_size_of(raw: int) -> int {
    if raw == 0 {
        DEFAULT_CACHE_SIZE as int
    } else {
        raw
    }
}

/// `h` is the header that the first 100 bytes of `b` hold.
pub open spec fn db_header_decodes_to(b: Seq<u8>, h: DatabaseHeader) -> bool {
    &&& b.len() >= 100
    &&& h.magic@ == b.subrange(0, 16)
    &&& h.page_size == be_uint(b.subrange(16, 18))
    &&& h.write_version == b[18]
    &&& h.read_version == b[19]
    &&& h.reserved_space == b[20]
    &&& h.max_embed_frac == b[21]
    &&& h.min_embed_frac == b[22]
    &&& h.min_leaf_frac == b[23]
    &&& h.change_counter == field_u32(b, 24)
    &&& h.database_size == field_u32(b, 28)
    &&& h.freelist_trunk_page == field_u32(b, 32)
    &&& h.freelist_pages == field_u32(b, 36)
    &&& h.schema_cookie == field_u32(b, 40)
    &&& h.schema_format == field_u32(b, 44)
    &&& h.default_page_cache_size == cache_size_of(be_int(b.subrange(48, 52)))
    &&& h.vacuum_mode_largest_root_page == field_u32(b, 52)
    &&& h.text_encoding == field_u32(b, 56)
    &&& h.user_version == field_u32(b, 60)
    &&& h.incremental_vacuum_enabled == field_u32(b, 64)
    &&& h.application_id == field_u32(b, 68)
    &&& h.reserved_for_expansion@ == b.subrange(72, 92)
    &&& h.version_valid_for == field_u32(b, 92)
    &&& h.version_number == field_u32(b, 96)
}

/// Reading back a stored header gives every field as it was, but for a
/// cache size of 0, which reads back as the default.
pub proof fn lemma_db_header_round_trip(h: DatabaseHeader, rest: Seq<u8>)
    requires
        db_header_wf(h),
    ensures
        encode_db_header(h).len() == 100,
        db_header_decodes_to(
            encode_db_header(h) + rest,
            DatabaseHeader {
                default_page_cache_size: cache_size_of(h.default_page_cache_size as int) as i32,
                ..h
            },
        ),
        h.default_page_cache_size != 0 ==> db_header_decodes_to(encode_db_header(h) + rest, h),
{
    lemma_pow256_values();
    let b = encode_db_header(h) + rest;
    lemma_be_uint_round_trip(h.page_size as nat, 2);
    lemma_be_uint_round_trip(h.change_counter as nat, 4);
    lemma_be_uint_round_trip(h.database_size as nat, 4);
    lemma_be_uint_round_trip(h.freelist_trunk_page as nat, 4);
    lemma_be_uint_round_trip(h.freelist_pages as nat, 4);
    lemma_be_uint_round_trip(h.schema_cookie as nat, 4);
    lemma_be_uint_round_trip(h.schema_format as nat, 4);
    lemma_be_int_round_trip(h.default_page_cache_size as int, 4);
    lemma_be_uint_round_trip(h.vacuum_mode_largest_root_page as nat, 4);
    lemma_be_uint_round_trip(h.text_encoding as nat, 4);
    lemma_be_uint_round_trip(h.user_version as nat, 4);
    lemma_be_uint_round_trip(h.incremental_vacuum_enabled as nat, 4);
    lemma_be_uint_round_trip(h.application_id as nat, 4);
    lemma_be_uint_round_trip(h.version_valid_for as nat, 4);
    lemma_be_uint_round_trip(h.version_number as nat, 4);
    assert(b.subrange(0, 16) =~= h.magic@);
    assert(b.subrange(16, 18) =~= be_bytes(h.page_size as nat, 2));
    assert(b.subrange(24, 28) =~= be_bytes(h.change_counter as nat, 4));
    assert(b.subrange(28, 32) =~= be_bytes(h.database_size as nat, 4));
    assert(b.subrange(32, 36) =~= be_bytes(h.freelist_trunk_page as nat, 4));
    assert(b.subrange(36, 40) =~= be_bytes(h.freelist_pages as nat, 4));
    assert(b.subrange(40, 44) =~= be_bytes(h.schema_cookie as nat, 4));
    assert(b.subrange(44, 48) =~= be_bytes(h.schema_format as nat, 4));
    assert(b.subrange(48, 52) =~= be_bytes(i32_bits(h.default_page_cache_size), 4));
    assert(b.subrange(52, 56) =~= be_bytes(h.vacuum_mode_largest_root_page as nat, 4));
    assert(b.subrange(56, 60) =~= be_bytes(h.text_encoding as nat, 4));
    assert(b.subrange(60, 64) =~= be_bytes(h.user_version as nat, 4));
    assert(b.subrange(64, 68) =~= be_bytes(h.incremental_vacuum_enabled as nat, 4));
    assert(b.subrange(68, 72) =~= be_bytes(h.application_id as nat, 4));
    assert(b.subrange(72, 92) =~= h.reserved_for_expansion@);
    assert(b.subrange(92, 96) =~= be_bytes(h.version_valid_for as nat, 4));
    assert(b.subrange(96, 100) =~= be_bytes(h.version_number as nat, 4));
}

impl Default for DatabaseHeader {
    fn default() -> (r: Self)
        ensures
            db_header_wf(r),
            // "SQLite format 3" and a zero byte.
            r.magic@ == seq![
                83u8,
                81u8,
                76u8,
                105u8,
                116u8,
                101u8,
                32u8,
                102u8,
                111u8,
                114u8,
                109u8,
                97u8,
                116u8,
                32u8,
                51u8,
                0u8,
            ],
            r.page_size == 4096,
            r.write_version == 2,
            r.read_version == 2,
            r.reserved_space == 0,
            r.max_embed_frac == 64,
            r.min_embed_frac == 32,
            r.min_leaf_frac == 32,
            r.change_counter == 1,
            r.database_size == 1,
            r.freelist_trunk_page == 0,
            r.freelist_pages == 0,
            r.schema_cookie == 0,
            r.schema_format == 4,
            r.default_page_cache_size == 500,
            r.vacuum_mode_largest_root_page == 0,
            r.text_encoding == 1,
            r.user_version == 0,
            r.incremental_vacuum_enabled == 0,
            r.application_id == 0,
            r.reserved_for_expansion@ == Seq::new(20, |i: int| 0u8),
            r.version_valid_for == 3047000,
            r.version_number == 3047000,
    {
        let magic = vec![
            83u8,
            81u8,
            76u8,
            105u8,
            116u8,
            101u8,
            32u8,
            102u8,
            111u8,
            114u8,
            109u8,
            97u8,
            116u8,
            32u8,
            51u8,
            0u8,
        ];
        let mut reserved_for_expansion: Vec<u8> = Vec::new();
        let mut i: usize = 0;
        while i < 20
            invariant
                i <= 20,
                reserved_for_expansion@ == Seq::new(i as nat, |k: int| 0u8),
            decreases 20 - i,
        {
            reserved_for_expansion.push(0);
            i += 1;
            assert(reserved_for_expansion@ =~= Seq::new(i as nat, |k: int| 0u8));
        }
        DatabaseHeader {
            magic,
            page_size: 4096,
            write_version: 2,
            read_version: 2,
            reserved_space: 0,
            max_embed_frac: 64,
            min_embed_frac: 32,
            min_leaf_frac: 32,
            change_counter: 1,
            database_size: 1,
            freelist_trunk_page: 0,
            freelist_pages: 0,
            schema_cookie: 0,
            // The latest schema format, the one new databases use.
            schema_format: 4,
            default_page_cache_size: 500,
            vacuum_mode_largest_root_page: 0,
            text_encoding: 1,
            user_version: 0,
            incremental_vacuum_enabled: 0,
            application_id: 0,
            reserved_for_expansion,
            version_valid_for: 3047000,
            version_number: 3047000,
        }
    }
}

/// Decodes the database header from the first 100 bytes of `buf`.
///
/// Fails with `Corrupt` where `buf` is shorter than the header.
pub fn finish_read_database_header(buf: &[u8]) -> (r: Result<DatabaseHeader, LimboError>)
    ensures
        r is Ok <==> buf@.len() >= 100,
        r matches Ok(h) ==> db_header_decodes_to(buf@, h) && db_header_wf(h),
{
    if buf.len() < DATABASE_HEADER_SIZE {
        return Err(corrupt("database header is cut short"));
    }
    let default_page_cache_size = read_be_uint(buf, 48, 4);
    proof {
        lemma_pow256_values();
        lemma_be_uint_bound(buf@.subrange(48, 52));
    }
    let cache = if default_page_cache_size >= 0x8000_0000 {
        (default_page_cache_size as i64 - 0x1_0000_0000) as i32
    } else {
        default_page_cache_size as i32
    };
    let cache = if cache == 0 {
        DEFAULT_CACHE_SIZE
    } else {
        cache
    };
    let magic = copy_prefix(buf, 16);
    let reserved_for_expansion = copy_prefix(&buf[72..92], 20);
    assert(buf@.subrange(72, 92).subrange(0, 20) =~= buf@.subrange(72, 92));
    Ok(DatabaseHeader {
        magic,
        page_size: read_be_u16(buf, 16),
        write_version: buf[18],
        read_version: buf[19],
        reserved_space: buf[20],
        max_embed_frac: buf[21],
        min_embed_frac: buf[22],
        min_leaf_frac: buf[23],
        change_counter: read_u32(buf, 24),
        database_size: read_u32(buf, 28),
        freelist_trunk_page: read_u32(buf, 32),
        freelist_pages: read_u32(buf, 36),
        schema_cookie: read_u32(buf, 40),
        schema_format: read_u32(buf, 44),
        default_page_cache_size: cache,
        vacuum_mode_largest_root_page: read_u32(buf, 52),
        text_encoding: read_u32(buf, 56),
        user_version: read_u32(buf, 60),
        incremental_vacuum_enabled: read_u32(buf, 64),
        application_id: read_u32(buf, 68),
        reserved_for_expansion,
        version_valid_for: read_u32(buf, 92),
        version_number: read_u32(buf, 96),
    })
}

/// Writes `header` over the first 100 bytes of `buf`, leaving the rest of
/// `buf` as it was.
pub fn write_header_to_buf(buf: &mut [u8], header: &DatabaseHeader)
    requires
        old(buf)@.len() >= 100,
        db_header_wf(*header),
    ensures
        final(buf)@ == encode_db_header(*header) + old(buf)@.subrange(100, old(buf)@.len() as int),
{
    let h = header;
    let mut out: Vec<u8> = Vec::with_capacity(DATABASE_HEADER_SIZE);
    push_bytes(&mut out, h.magic.as_slice());
    push_be_uint(&mut out, h.page_size as u64, 2);
    out.push(h.write_version);
    out.push(h.read_version);
    out.push(h.reserved_space);
    out.push(h.max_embed_frac);
    out.push(h.min_embed_frac);
    out.push(h.min_leaf_frac);
    push_be_uint(&mut out, h.change_counter as u64, 4);
    push_be_uint(&mut out, h.database_size as u64, 4);
    push_be_uint(&mut out, h.freelist_trunk_page as u64, 4);
    push_be_uint(&mut out, h.freelist_pages as u64, 4);
    push_be_uint(&mut out, h.schema_cookie as u64, 4);
    push_be_uint(&mut out, h.schema_format as u64, 4);
    push_be_uint(&mut out, i32_to_bits(h.default_page_cache_size) as u64, 4);
    push_be_uint(&mut out, h.vacuum_mode_largest_root_page as u64, 4);
    push_be_uint(&mut out, h.text_encoding as u64, 4);
    push_be_uint(&mut out, h.user_version as u64, 4);
    push_be_uint(&mut out, h.incremental_vacuum_enabled as u64, 4);
    push_be_uint(&mut out, h.application_id as u64, 4);
    push_bytes(&mut out, h.reserved_for_expansion.as_slice());
    push_be_uint(&mut out, h.version_valid_for as u64, 4);
    push_be_uint(&mut out, h.version_number as u64, 4);
    proof {
        lemma_header_len(*h);
        assert(out@ =~= encode_db_header(*h));
    }
    copy_into(buf, out.as_slice());
}

proof fn lemma_header_len(h: DatabaseHeader)
    requires
        db_header_wf(h),
    ensures
        encode_db_header(h).len() == 100,
{
    lemma_be_bytes_len(h.page_size as nat, 2);
    lemma_be_bytes_len(h.change_counter as nat, 4);
    lemma_be_bytes_len(h.database_size as nat, 4);
    lemma_be_bytes_len(h.freelist_trunk_page as nat, 4);
    lemma_be_bytes_len(h.freelist_pages as nat, 4);
    lemma_be_bytes_len(h.schema_cookie as nat, 4);
    lemma_be_bytes_len(h.schema_format as nat, 4);
    lemma_be_bytes_len(i32_bits(h.default_page_cache_size), 4);
    lemma_be_bytes_len(h.vacuum_mode_largest_root_page as nat, 4);
    lemma_be_bytes_len(h.text_encoding as nat, 4);
    lemma_be_bytes_len(h.user_version as nat, 4);
    lemma_be_bytes_len(h.incremental_vacuum_enabled as nat, 4);
    lemma_be_bytes_len(h.application_id as nat, 4);
    lemma_be_bytes_len(h.version_valid_for as nat, 4);
    lemma_be_bytes_len(h.version_number as nat, 4);
}

} // verus!
