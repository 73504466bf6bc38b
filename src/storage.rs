//! Reading and writing pages of the database file and frames of the log
//! through a storage backend, and an in-memory backend.
use vstd::prelude::*;

use crate::error::{corrupt, LimboError};
use crate::header::{
    db_header_decodes_to, db_header_wf, encode_db_header, finish_read_database_header,
    write_header_to_buf, DatabaseHeader, DATABASE_HEADER_SIZE,
};
use crate::page::PageContent;
use crate::value::copy_prefix;
use crate::wal::{
    build_wal_frame, decode_wal_header, encode_frame_header, encode_wal_header, frame_checksum,
    finish_read_wal_header, write_wal_header, WalFrameHeader, WalHeader, WAL_HEADER_SIZE,
};

verus! {

/// The pages after page `page_idx` (counted from 1) is written with `data`:
/// an existing page is replaced, and the page just past the end is added.
pub open spec fn pages_after_write(pages: Seq<Seq<u8>>, page_idx: nat, data: Seq<u8>) -> Option<
    Seq<Seq<u8>>,
> {
    if 1 <= page_idx <= pages.len() {
        Some(pages.update(page_idx - 1, data))
    } else if page_idx == pages.len() + 1 {
        Some(pages.push(data))
    } else {
        None
    }
}

/// The database file, as a sequence of pages numbered from 1.
pub trait DatabaseStorage {
    /// The pages, page 1 first.
    spec fn spec_pages(&self) -> Seq<Seq<u8>>;

    /// Reads page `page_idx`.
    fn read_page(&self, page_idx: usize) -> (r: Result<Vec<u8>, LimboError>)
        ensures
            r matches Ok(b) ==> 1 <= page_idx <= self.spec_pages().len() && b@
                == self.spec_pages()[page_idx - 1],
    ;

    /// Writes `buf` as page `page_idx`.
    fn write_page(&mut self, page_idx: usize, buf: &[u8]) -> (r: Result<(), LimboError>)
        ensures
            r is Ok ==> pages_after_write(old(self).spec_pages(), page_idx as nat, buf@) == Some(
                final(self).spec_pages(),
            ),
            r is Err ==> final(self).spec_pages() == old(self).spec_pages(),
    ;

    /// Makes what was written durable.
    fn sync(&mut self) -> (r: Result<(), LimboError>)
        ensures
            final(self).spec_pages() == old(self).spec_pages(),
    ;
}

/// The bytes of a file after `data` is written at `pos`, which is within or
/// just past the end of the file.
pub open spec fn bytes_after_write(contents: Seq<u8>, pos: nat, data: Seq<u8>) -> Seq<u8> {
    if pos + data.len() >= contents.len() {
        contents.subrange(0, pos as int) + data
    } else {
        contents.subrange(0, pos as int) + data + contents.subrange(
            (pos + data.len()) as int,
            contents.len() as int,
        )
    }
}

/// A file read and written at byte offsets, as the log is.
pub trait File {
    /// The bytes of the file.
    spec fn contents(&self) -> Seq<u8>;

    /// Reads `len` bytes at `pos`.
    fn pread(&self, pos: usize, len: usize) -> (r: Result<Vec<u8>, LimboError>)
        ensures
            r matches Ok(b) ==> pos + len <= self.contents().len() && b@
                == self.contents().subrange(pos as int, pos + len),
    ;

    /// Writes `buf` at `pos`.
    fn pwrite(&mut self, pos: usize, buf: &[u8]) -> (r: Result<(), LimboError>)
        ensures
            r is Ok ==> pos <= old(self).contents().len() && final(self).contents()
                == bytes_after_write(old(self).contents(), pos as nat, buf@),
            r is Err ==> final(self).contents() == old(self).contents(),
    ;

    /// Makes what was written durable.
    fn sync(&mut self) -> (r: Result<(), LimboError>)
        ensures
            final(self).contents() == old(self).contents(),
    ;
}

/// A database file held in memory.
pub struct MemoryStorage {
    pub pages: Vec<Vec<u8>>,
}

impl MemoryStorage {
    pub fn new() -> (r: Self)
        ensures
            r.spec_pages() == Seq::<Seq<u8>>::empty(),
    {
        MemoryStorage { pages: Vec::new() }
    }
}

impl DatabaseStorage for MemoryStorage {
    open spec fn spec_pages(&self) -> Seq<Seq<u8>> {
        self.pages@.map_values(|p: Vec<u8>| p@)
    }

    fn read_page(&self, page_idx: usize) -> (r: Result<Vec<u8>, LimboError>) {
        if page_idx == 0 || page_idx > self.pages.len() {
            return Err(corrupt("page out of range"));
        }
        let page = &self.pages[page_idx - 1];
        Ok(copy_prefix(page.as_slice(), page.len()))
    }

    fn write_page(&mut self, page_idx: usize, buf: &[u8]) -> (r: Result<(), LimboError>) {
        let n = self.pages.len();
        if page_idx == 0 || page_idx - 1 > n {
            return Err(corrupt("page out of range"));
        }
        let data = copy_prefix(buf, buf.len());
        assert(data@ =~= buf@);
        let ghost before = self.spec_pages();
        if page_idx - 1 == n {
            self.pages.push(data);
            assert(self.spec_pages() =~= before.push(buf@));
        } else {
            self.pages.set(page_idx - 1, data);
            assert(self.spec_pages() =~= before.update(page_idx - 1, buf@));
        }
        Ok(())
    }

    fn sync(&mut self) -> (r: Result<(), LimboError>) {
        Ok(())
    }
}

/// A file held in memory.
pub struct MemoryFile {
    pub data: Vec<u8>,
}

impl MemoryFile {
    pub fn new() -> (r: Self)
        ensures
            r.contents() == Seq::<u8>::empty(),
    {
        MemoryFile { data: Vec::new() }
    }
}

impl File for MemoryFile {
    open spec fn contents(&self) -> Seq<u8> {
        self.data@
    }

    fn pread(&self, pos: usize, len: usize) -> (r: Result<Vec<u8>, LimboError>) {
        let size = self.data.len();
        if pos > size || len > size - pos {
            return Err(corrupt("read past the end of the file"));
        }
        let b = copy_prefix(&self.data.as_slice()[pos..pos + len], len);
        assert(self.data@.subrange(pos as int, pos + len).subrange(0, len as int)
            =~= self.data@.subrange(pos as int, pos + len));
        Ok(b)
    }

    fn pwrite(&mut self, pos: usize, buf: &[u8]) -> (r: Result<(), LimboError>) {
        let size = self.data.len();
        if pos > size {
            return Err(corrupt("write past the end of the file"));
        }
        let ghost before = self.data@;
        let mut i: usize = 0;
        let n = buf.len();
        while i < n
            invariant
                pos <= before.len(),
                n == buf@.len(),
                i <= n,
                pos + i <= self.data@.len(),
                self.data@ == bytes_after_write(before, pos as nat, buf@.subrange(0, i as int)),
            decreases n - i,
        {
            proof {
                assert(self.data@.len() == self.data.len());
            }
            let at = pos + i;
            if at < self.data.len() {
                self.data.set(at, buf[i]);
            } else {
                self.data.push(buf[i]);
            }
            i += 1;
            assert(self.data@ =~= bytes_after_write(
                before,
                pos as nat,
                buf@.subrange(0, i as int),
            ));
        }
        assert(buf@.subrange(0, n as int) =~= buf@);
        Ok(())
    }

    fn sync(&mut self) -> (r: Result<(), LimboError>) {
        Ok(())
    }
}

/// Reads the database header from page 1.
///
/// Fails where page 1 cannot be read, and with `Corrupt` where it is shorter
/// than the header.
pub fn begin_read_database_header<S: DatabaseStorage>(db_file: &S) -> (r: Result<
    DatabaseHeader,
    LimboError,
>)
    ensures
        r matches Ok(h) ==> db_file.spec_pages().len() >= 1 && db_header_decodes_to(
            db_file.spec_pages()[0],
            h,
        ) && db_header_wf(h),
{
    let buf = db_file.read_page(1)?;
    finish_read_database_header(buf.as_slice())
}

/// Writes `header` over the first 100 bytes of page 1, keeping the rest of
/// the page.
///
/// Fails where page 1 cannot be read or written, and with `Corrupt` where it
/// is shorter than the header.
pub fn begin_write_database_header<S: DatabaseStorage>(
    header: &DatabaseHeader,
    db_file: &mut S,
) -> (r: Result<(), LimboError>)
    requires
        db_header_wf(*header),
    ensures
        r is Ok ==> old(db_file).spec_pages().len() >= 1 && old(db_file).spec_pages()[0].len()
            >= 100 && final(db_file).spec_pages() == old(db_file).spec_pages().update(
            0,
            encode_db_header(*header) + old(db_file).spec_pages()[0].subrange(
                100,
                old(db_file).spec_pages()[0].len() as int,
            ),
        ),
        r is Err ==> final(db_file).spec_pages() == old(db_file).spec_pages(),
{
    let mut buf = db_file.read_page(1)?;
    if buf.len() < DATABASE_HEADER_SIZE {
        return Err(corrupt("page 1 is shorter than the database header"));
    }
    write_header_to_buf(buf.as_mut_slice(), header);
    db_file.write_page(1, buf.as_slice())
}

/// The header offset of page `page_idx`: 100 on page 1, after the database
/// header, and 0 elsewhere.
pub open spec fn page_header_offset(page_idx: nat) -> nat {
    if page_idx == 1 {
        100
    } else {
        0
    }
}

/// Reads page `page_idx`.
pub fn begin_read_page<S: DatabaseStorage>(db_file: &S, page_idx: usize) -> (r: Result<
    PageContent,
    LimboError,
>)
    ensures
        r matches Ok(p) ==> 1 <= page_idx <= db_file.spec_pages().len() && p.buffer@
            == db_file.spec_pages()[page_idx - 1] && p.offset == page_header_offset(page_idx as nat)
            && p.overflow_cells@.len() == 0,
{
    let buffer = db_file.read_page(page_idx)?;
    Ok(finish_read_page(page_idx, buffer))
}

/// The contents of page `page_idx`, read into `buffer`.
fn finish_read_page(page_idx: usize, buffer: Vec<u8>) -> (r: PageContent)
    ensures
        r.buffer@ == buffer@,
        r.offset == page_header_offset(page_idx as nat),
        r.overflow_cells@.len() == 0,
{
    let pos = if page_idx == 1 {
        DATABASE_HEADER_SIZE
    } else {
        0
    };
    PageContent { offset: pos, buffer, overflow_cells: Vec::new() }
}

/// Writes `page` as page `page_id`.
pub fn begin_write_btree_page<S: DatabaseStorage>(
    db_file: &mut S,
    page_id: usize,
    page: &PageContent,
) -> (r: Result<(), LimboError>)
    ensures
        r is Ok ==> pages_after_write(old(db_file).spec_pages(), page_id as nat, page.buffer@)
            == Some(final(db_file).spec_pages()),
        r is Err ==> final(db_file).spec_pages() == old(db_file).spec_pages(),
{
    db_file.write_page(page_id, page.buffer.as_slice())
}

/// Syncs the database file. `syncing` is set while the sync is under way;
/// it is clear again once the sync has completed.
pub fn begin_sync<S: DatabaseStorage>(db_file: &mut S, syncing: &mut bool) -> (r: Result<
    (),
    LimboError,
>)
    requires
        !*old(syncing),
    ensures
        final(db_file).spec_pages() == old(db_file).spec_pages(),
        *final(syncing) == r is Err,
{
    *syncing = true;
    db_file.sync()?;
    *syncing = false;
    Ok(())
}

/// Reads the log header from the start of the log.
///
/// Fails where the log is shorter than the header.
pub fn begin_read_wal_header<F: File>(io: &F) -> (r: Result<WalHeader, LimboError>)
    ensures
        r matches Ok(h) ==> io.contents().len() >= 32 && h == decode_wal_header(io.contents()),
{
    let buf = io.pread(0, WAL_HEADER_SIZE)?;
    let h = finish_read_wal_header(buf.as_slice());
    proof {
        if h is Ok {
            assert(buf@.subrange(0, 4) =~= io.contents().subrange(0, 4));
            assert(buf@.subrange(4, 8) =~= io.contents().subrange(4, 8));
            assert(buf@.subrange(8, 12) =~= io.contents().subrange(8, 12));
            assert(buf@.subrange(12, 16) =~= io.contents().subrange(12, 16));
            assert(buf@.subrange(16, 20) =~= io.contents().subrange(16, 20));
            assert(buf@.subrange(20, 24) =~= io.contents().subrange(20, 24));
            assert(buf@.subrange(24, 28) =~= io.contents().subrange(24, 28));
            assert(buf@.subrange(28, 32) =~= io.contents().subrange(28, 32));
        }
    }
    h
}

/// Reads the page of a frame, `page_size` bytes at `offset` of the log, as
/// the contents of page `page_id`.
pub fn begin_read_wal_frame<F: File>(
    io: &F,
    offset: usize,
    page_size: usize,
    page_id: usize,
) -> (r: Result<PageContent, LimboError>)
    ensures
        r matches Ok(p) ==> offset + page_size <= io.contents().len() && p.buffer@
            == io.contents().subrange(offset as int, offset + page_size) && p.offset
            == page_header_offset(page_id as nat) && p.overflow_cells@.len() == 0,
{
    let buffer = io.pread(offset, page_size)?;
    Ok(finish_read_page(page_id, buffer))
}

/// Writes at `offset` of the log the frame that logs `page` as page
/// `page_id`, and returns its checksum, the input of the next frame.
///
/// `db_size` is the size of the database in pages after a commit frame, and
/// zero for other frames; `checksums` is the checksum of the frame before,
/// or of the log header for the first frame.
pub fn begin_write_wal_frame<F: File>(
    io: &mut F,
    offset: usize,
    page_id: u32,
    page: &PageContent,
    db_size: u32,
    wal_header: &WalHeader,
    checksums: (u32, u32),
) -> (r: Result<(u32, u32), LimboError>)
    requires
        page.buffer@.len() % 8 == 0,
    ensures
        r matches Ok(c) ==> c == frame_checksum(
            page_id,
            db_size,
            page.buffer@,
            wal_header.magic,
            checksums,
        ) && offset <= old(io).contents().len() && final(io).contents() == bytes_after_write(
            old(io).contents(),
            offset as nat,
            encode_frame_header(
                WalFrameHeader {
                    page_number: page_id,
                    db_size,
                    salt_1: wal_header.salt_1,
                    salt_2: wal_header.salt_2,
                    checksum_1: c.0,
                    checksum_2: c.1,
                },
            ) + page.buffer@,
        ),
        r is Err ==> final(io).contents() == old(io).contents(),
{
    let (frame, checksums) = build_wal_frame(
        page_id,
        page.buffer.as_slice(),
        db_size,
        wal_header,
        checksums,
    );
    io.pwrite(offset, frame.as_slice())?;
    Ok(checksums)
}

/// Writes `header` at the start of the log.
pub fn begin_write_wal_header<F: File>(io: &mut F, header: &WalHeader) -> (r: Result<
    (),
    LimboError,
>)
    ensures
        r is Ok ==> final(io).contents() == bytes_after_write(
            old(io).contents(),
            0,
            encode_wal_header(*header),
        ),
        r is Err ==> final(io).contents() == old(io).contents(),
{
    let buf = write_wal_header(header);
    io.pwrite(0, buf.as_slice())
}

} // verus!
