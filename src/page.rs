//! The contents of a b-tree page: its header, its cell pointer array, and
//! access to its cells.
use vstd::prelude::*;

use crate::bytes::{
    be_bytes, be_uint, lemma_be_uint_bound, lemma_pow256_values, read_be_u16, read_u32,
    write_be_uint,
};
use crate::cell::{
    is_leaf_type, overflow_split_of, page_type_of, parse_btree_cell, payload_split,
    read_btree_cell, thresholds_ok, varint_at, BTreeCell, PageType,
};
use crate::error::LimboError;
use crate::header::{db_header_wf, encode_db_header, write_header_to_buf, DatabaseHeader};
use crate::varint::{lemma_varint_decode_bounds, read_varint};

verus! {

/// A cell that did not fit on its page, kept aside with its index.
#[derive(Debug, Clone)]
pub struct OverflowCell {
    pub index: usize,
    pub payload: Vec<u8>,
}

/// A page buffer, with the offset of its b-tree header: 100 on the first
/// page, after the database header, and 0 elsewhere.
#[derive(Debug, Clone)]
pub struct PageContent {
    pub offset: usize,
    pub buffer: Vec<u8>,
    pub overflow_cells: Vec<OverflowCell>,
}

/// Size of the b-tree header of a page of type `t`.
pub open spec fn header_size_of(t: PageType) -> nat {
    if is_leaf_type(t) {
        8
    } else {
        12
    }
}

/// The bytes a cell of a page of type `t` takes at byte `ptr` of `page`:
/// its child pointer and varints, and its payload on the page with the
/// overflow pointer where it overflows.
pub open spec fn cell_region_len(
    page: Seq<u8>,
    t: PageType,
    ptr: nat,
    max_local: nat,
    min_local: nat,
    usable_size: nat,
) -> Option<nat> {
    let on_page = |p: nat|
        {
            let (overflows, to_read) = payload_split(p, max_local, min_local, usable_size);
            if overflows {
                to_read
            } else {
                p
            }
        };
    match t {
        PageType::TableInterior => match varint_at(page, ptr + 4) {
            Some((_, n)) => Some(4 + n),
            None => None,
        },
        PageType::TableLeaf => match varint_at(page, ptr) {
            Some((p, n1)) => match varint_at(page, ptr + n1) {
                Some((_, n2)) => Some(n1 + n2 + on_page(p)),
                None => None,
            },
            None => None,
        },
        PageType::IndexInterior => match varint_at(page, ptr + 4) {
            Some((p, n1)) => Some(4 + n1 + on_page(p)),
            None => None,
        },
        PageType::IndexLeaf => match varint_at(page, ptr) {
            Some((p, n1)) => Some(n1 + on_page(p)),
            None => None,
        },
    }
}

/// The freeblocks of the chain that starts at offset `pc`, as (offset, size,
/// next offset): the chain ends at a zero offset, at an offset past
/// `usable_space` or too close to the end of the page to hold a block header,
/// and after a block whose next offset does not lie further on.
pub open spec fn freeblocks_from(page: Seq<u8>, pc: nat, usable_space: nat) -> Seq<(nat, nat, nat)>
    decreases usable_space + 1 - pc,
{
    if pc == 0 || pc > usable_space || pc + 4 > page.len() {
        Seq::empty()
    } else {
        let next = be_uint(page.subrange(pc as int, pc + 2 as int));
        let size = be_uint(page.subrange(pc + 2 as int, pc + 4 as int));
        let rest = if pc < next <= usable_space {
            freeblocks_from(page, next, usable_space)
        } else {
            Seq::empty()
        };
        seq![(pc, size, next)] + rest
    }
}

/// Freeblock entries with their fields widened.
pub open spec fn blocks_view(v: Seq<(usize, u16, u16)>) -> Seq<(nat, nat, nat)> {
    v.map_values(|b: (usize, u16, u16)| (b.0 as nat, b.1 as nat, b.2 as nat))
}

impl PageContent {
    /// The big-endian `u16` at byte `pos` of the buffer.
    pub open spec fn u16_at(&self, pos: int) -> nat {
        be_uint(self.buffer@.subrange(pos, pos + 2))
    }

    /// The big-endian `u32` at byte `pos` of the buffer.
    pub open spec fn u32_at(&self, pos: int) -> nat {
        be_uint(self.buffer@.subrange(pos, pos + 4))
    }

    /// The page type its header names, if any.
    pub open spec fn spec_page_type(&self) -> Option<PageType> {
        if self.offset < self.buffer@.len() {
            page_type_of(self.buffer@[self.offset as int])
        } else {
            None
        }
    }

    /// The page has a b-tree header: a valid type, and room for the header
    /// in a buffer of at most the largest page size.
    pub open spec fn has_header(&self) -> bool {
        &&& self.buffer@.len() <= 65536
        &&& self.spec_page_type() is Some
        &&& self.offset + header_size_of(self.spec_page_type().unwrap()) <= self.buffer@.len()
    }

    pub open spec fn spec_header_size(&self) -> nat {
        header_size_of(self.spec_page_type().unwrap())
    }

    /// Where the cell content area begins: the stored offset, where a stored 0
    /// stands for 65536.
    pub open spec fn spec_cell_content_area(&self) -> nat {
        let raw = self.u16_at(self.offset + 5);
        if raw == 0 {
            65536
        } else {
            raw
        }
    }

    pub open spec fn spec_cell_count(&self) -> nat {
        self.u16_at(self.offset + 3)
    }

    /// Where the slot of cell `idx` stands in the cell pointer array.
    pub open spec fn cell_slot(&self, idx: nat) -> nat {
        (self.offset + self.spec_header_size() + 2 * idx) as nat
    }

    /// The offset of cell `idx`, from the cell pointer array.
    pub open spec fn cell_pointer(&self, idx: nat) -> nat {
        self.u16_at(self.cell_slot(idx) as int)
    }

    /// Cell `idx` exists and its slot lies within the buffer.
    pub open spec fn has_cell(&self, idx: nat) -> bool {
        &&& self.has_header()
        &&& idx < self.spec_cell_count()
        &&& self.cell_slot(idx) + 2 <= self.buffer@.len()
    }

    /// The page type; requires a valid type byte.
    pub fn page_type(&self) -> (r: PageType)
        requires
            self.spec_page_type() is Some,
        ensures
            self.spec_page_type() == Some(r),
    {
        match PageType::try_from(self.read_u8(0)) {
            Ok(t) => t,
            Err(_) => PageType::TableLeaf,
        }
    }

    /// The page type, or `None` where the type byte names none (as on an
    /// overflow page).
    pub fn maybe_page_type(&self) -> (r: Option<PageType>)
        requires
            self.offset < self.buffer@.len(),
        ensures
            r == self.spec_page_type(),
    {
        match PageType::try_from(self.read_u8(0)) {
            Ok(v) => Some(v),
            Err(_) => None,
        }
    }

    pub fn read_u8(&self, pos: usize) -> (r: u8)
        requires
            self.offset + pos < self.buffer@.len(),
        ensures
            r == self.buffer@[self.offset + pos],
    {
        proof {
            assert(self.buffer@.len() == self.buffer.len());
        }
        self.buffer[self.offset + pos]
    }

    pub fn read_u16(&self, pos: usize) -> (r: u16)
        requires
            self.offset + pos + 2 <= self.buffer@.len(),
        ensures
            r == self.u16_at(self.offset + pos),
    {
        proof {
            assert(self.buffer@.len() == self.buffer.len());
        }
        read_be_u16(self.buffer.as_slice(), self.offset + pos)
    }

    pub fn read_u16_no_offset(&self, pos: usize) -> (r: u16)
        requires
            pos + 2 <= self.buffer@.len(),
        ensures
            r == self.u16_at(pos as int),
    {
        read_be_u16(self.buffer.as_slice(), pos)
    }

    pub fn read_u32_no_offset(&self, pos: usize) -> (r: u32)
        requires
            pos + 4 <= self.buffer@.len(),
        ensures
            r == self.u32_at(pos as int),
    {
        read_u32(self.buffer.as_slice(), pos)
    }

    pub fn read_u32(&self, pos: usize) -> (r: u32)
        requires
            self.offset + pos + 4 <= self.buffer@.len(),
        ensures
            r == self.u32_at(self.offset + pos),
    {
        proof {
            assert(self.buffer@.len() == self.buffer.len());
        }
        read_u32(self.buffer.as_slice(), self.offset + pos)
    }

    pub fn write_u8(&mut self, pos: usize, value: u8)
        requires
            old(self).offset + pos < old(self).buffer@.len(),
        ensures
            final(self).offset == old(self).offset,
            final(self).overflow_cells@ == old(self).overflow_cells@,
            final(self).buffer@ == old(self).buffer@.update(old(self).offset + pos, value),
    {
        proof {
            assert(self.buffer@.len() == self.buffer.len());
        }
        let p = self.offset + pos;
        self.buffer.set(p, value);
    }

    pub fn write_u16(&mut self, pos: usize, value: u16)
        requires
            old(self).offset + pos + 2 <= old(self).buffer@.len(),
        ensures
            final(self).offset == old(self).offset,
            final(self).overflow_cells@ == old(self).overflow_cells@,
            final(self).buffer@ == old(self).buffer@.subrange(0, old(self).offset + pos)
                + be_bytes(value as nat, 2) + old(self).buffer@.subrange(
                old(self).offset + pos + 2,
                old(self).buffer@.len() as int,
            ),
    {
        proof {
            assert(self.buffer@.len() == self.buffer.len());
        }
        let p = self.offset + pos;
        write_be_uint(self.buffer.as_mut_slice(), p, 2, value as u64);
    }

    pub fn write_u16_no_offset(&mut self, pos: usize, value: u16)
        requires
            pos + 2 <= old(self).buffer@.len(),
        ensures
            final(self).offset == old(self).offset,
            final(self).overflow_cells@ == old(self).overflow_cells@,
            final(self).buffer@ == old(self).buffer@.subrange(0, pos as int) + be_bytes(
                value as nat,
                2,
            ) + old(self).buffer@.subrange(pos + 2, old(self).buffer@.len() as int),
    {
        write_be_uint(self.buffer.as_mut_slice(), pos, 2, value as u64);
    }

    pub fn write_u32(&mut self, pos: usize, value: u32)
        requires
            old(self).offset + pos + 4 <= old(self).buffer@.len(),
        ensures
            final(self).offset == old(self).offset,
            final(self).overflow_cells@ == old(self).overflow_cells@,
            final(self).buffer@ == old(self).buffer@.subrange(0, old(self).offset + pos)
                + be_bytes(value as nat, 4) + old(self).buffer@.subrange(
                old(self).offset + pos + 4,
                old(self).buffer@.len() as int,
            ),
    {
        proof {
            assert(self.buffer@.len() == self.buffer.len());
        }
        let p = self.offset + pos;
        write_be_uint(self.buffer.as_mut_slice(), p, 4, value as u64);
    }

    /// The offset of the first freeblock, or zero where there is none.
    ///
    /// Freeblocks are unused blocks of at least four bytes within the cell
    /// content area, chained in order of offset.
    pub fn first_freeblock(&self) -> (r: u16)
        requires
            self.has_header(),
        ensures
            r == self.u16_at(self.offset + 1),
    {
        self.read_u16(1)
    }

    /// The freeblock chain of the page, as (offset, size, next offset) for
    /// each block, following `freeblocks_from` from the first freeblock.
    pub fn freeblocks(&self, usable_space: u16) -> (r: Vec<(usize, u16, u16)>)
        requires
            self.has_header(),
        ensures
            blocks_view(r@) == freeblocks_from(
                self.buffer@,
                self.u16_at(self.offset + 1),
                usable_space as nat,
            ),
    {
        let len = self.buffer.len();
        let mut out: Vec<(usize, u16, u16)> = Vec::new();
        let mut pc = self.first_freeblock() as usize;
        let ghost first = pc as nat;
        assert(blocks_view(out@) =~= Seq::<(nat, nat, nat)>::empty());
        while pc != 0 && pc <= usable_space as usize && pc + 4 <= len
            invariant
                len == self.buffer@.len(),
                len <= 65536,
                pc <= 65535,
                first == self.u16_at(self.offset + 1),
                freeblocks_from(self.buffer@, first, usable_space as nat) == blocks_view(out@)
                    + freeblocks_from(self.buffer@, pc as nat, usable_space as nat),
            decreases usable_space + 1 - pc,
        {
            let next = self.read_u16_no_offset(pc);
            let size = self.read_u16_no_offset(pc + 2);
            let ghost before = blocks_view(out@);
            let ghost entry = (pc as nat, size as nat, next as nat);
            out.push((pc, size, next));
            assert(blocks_view(out@) =~= before.push(entry));
            if (next as usize) <= pc || next > usable_space {
                assert(freeblocks_from(self.buffer@, pc as nat, usable_space as nat) =~= seq![entry]);
                assert(before + seq![entry] =~= blocks_view(out@));
                return out;
            }
            proof {
                assert(freeblocks_from(self.buffer@, pc as nat, usable_space as nat) =~= seq![entry]
                    + freeblocks_from(self.buffer@, next as nat, usable_space as nat));
                assert(before + (seq![entry] + freeblocks_from(
                    self.buffer@,
                    next as nat,
                    usable_space as nat,
                )) =~= blocks_view(out@) + freeblocks_from(
                    self.buffer@,
                    next as nat,
                    usable_space as nat,
                ));
            }
            pc = next as usize;
        }
        out
    }

    /// The number of cells on the page.
    pub fn cell_count(&self) -> (r: usize)
        requires
            self.has_header(),
        ensures
            r == self.spec_cell_count(),
            r <= 0xffff,
    {
        self.read_u16(3) as usize
    }

    /// The size of the cell pointer array: two bytes per cell.
    pub fn cell_pointer_array_size(&self) -> (r: usize)
        requires
            self.has_header(),
        ensures
            r == 2 * self.spec_cell_count(),
    {
        self.cell_count() * 2
    }

    /// Where the unallocated region begins: after the header and the cell
    /// pointer array.
    pub fn unallocated_region_start(&self) -> (r: usize)
        requires
            self.has_header(),
        ensures
            r == self.offset + self.spec_header_size() + 2 * self.spec_cell_count(),
    {
        let (cell_ptr_array_start, cell_ptr_array_size) = self.cell_pointer_array_offset_and_size();
        proof {
            lemma_be_uint_bound(self.buffer@.subrange(self.offset + 3, self.offset + 5));
            lemma_pow256_values();
        }
        cell_ptr_array_start + cell_ptr_array_size
    }

    /// The size of the unallocated region, between the cell pointer array and
    /// the cell content area.
    pub fn unallocated_region_size(&self) -> (r: usize)
        requires
            self.has_header(),
            self.offset + self.spec_header_size() + 2 * self.spec_cell_count()
                <= self.spec_cell_content_area(),
        ensures
            r == self.spec_cell_content_area() - (self.offset + self.spec_header_size() + 2
                * self.spec_cell_count()),
    {
        self.cell_content_area() as usize - self.unallocated_region_start()
    }

    /// Where the cell content area begins; cells are placed as far toward the
    /// end of the page as they fit. A stored 0 stands for 65536, the start
    /// of an empty content area on a page of 65536 bytes.
    pub fn cell_content_area(&self) -> (r: u32)
        requires
            self.has_header(),
        ensures
            r == self.spec_cell_content_area(),
    {
        let raw = self.read_u16(5);
        if raw == 0 {
            65536
        } else {
            raw as u32
        }
    }

    /// The size of the b-tree header: 8 for a leaf page, 12 for an interior
    /// page, which also holds its rightmost child.
    pub fn header_size(&self) -> (r: usize)
        requires
            self.spec_page_type() is Some,
        ensures
            r == self.spec_header_size(),
    {
        match self.page_type() {
            PageType::IndexInterior => 12,
            PageType::TableInterior => 12,
            PageType::IndexLeaf => 8,
            PageType::TableLeaf => 8,
        }
    }

    /// The number of bytes in fragments, isolated runs of one to three unused
    /// bytes within the cell content area.
    pub fn num_frag_free_bytes(&self) -> (r: u8)
        requires
            self.has_header(),
        ensures
            r == self.buffer@[self.offset + 7],
    {
        self.read_u8(7)
    }

    /// The rightmost child of an interior page; `None` for a leaf page.
    pub fn rightmost_pointer(&self) -> (r: Option<u32>)
        requires
            self.has_header(),
        ensures
            is_leaf_type(self.spec_page_type().unwrap()) ==> r is None,
            !is_leaf_type(self.spec_page_type().unwrap()) ==> r == Some(
                self.u32_at(self.offset + 8) as u32,
            ),
    {
        match self.page_type() {
            PageType::IndexInterior => Some(self.read_u32(8)),
            PageType::TableInterior => Some(self.read_u32(8)),
            PageType::IndexLeaf => None,
            PageType::TableLeaf => None,
        }
    }

    /// Where the cell pointer array begins, and its size. Its offsets are in
    /// key order, the cell of the smallest key first.
    pub fn cell_pointer_array_offset_and_size(&self) -> (r: (usize, usize))
        requires
            self.has_header(),
        ensures
            r == (
                (self.offset + self.spec_header_size()) as usize,
                (2 * self.spec_cell_count()) as usize,
            ),
    {
        let header_size = self.header_size();
        (self.offset + header_size, self.cell_pointer_array_size())
    }

    /// The offset of cell `idx` and the size of its region.
    pub fn cell_get_raw_region(
        &self,
        idx: usize,
        payload_overflow_threshold_max: usize,
        payload_overflow_threshold_min: usize,
        usable_size: usize,
    ) -> (r: (usize, usize))
        requires
            self.has_cell(idx as nat),
            thresholds_ok(
                payload_overflow_threshold_max as nat,
                payload_overflow_threshold_min as nat,
                usable_size as nat,
            ),
            cell_region_len(
                self.buffer@,
                self.spec_page_type().unwrap(),
                self.cell_pointer(idx as nat),
                payload_overflow_threshold_max as nat,
                payload_overflow_threshold_min as nat,
                usable_size as nat,
            ) is Some,
        ensures
            r.0 == self.cell_pointer(idx as nat),
            Some(r.1 as nat) == cell_region_len(
                self.buffer@,
                self.spec_page_type().unwrap(),
                self.cell_pointer(idx as nat),
                payload_overflow_threshold_max as nat,
                payload_overflow_threshold_min as nat,
                usable_size as nat,
            ),
    {
        let buf = self.buffer.as_slice();
        let len = buf.len();
        let (cell_pointer_array_start, _) = self.cell_pointer_array_offset_and_size();
        let cell_pointer = cell_pointer_array_start + (idx * 2);
        let cell_pointer = self.read_u16_no_offset(cell_pointer) as usize;
        let max = payload_overflow_threshold_max;
        let min = payload_overflow_threshold_min;
        let start = cell_pointer;
        let len = match self.page_type() {
            PageType::IndexInterior => {
                let (len_payload, n_payload) = read_varint_in(buf, cell_pointer + 4);
                4 + n_payload + on_page_size(len_payload, max, min, usable_size)
            },
            PageType::TableInterior => {
                let (_, n_rowid) = read_varint_in(buf, cell_pointer + 4);
                4 + n_rowid
            },
            PageType::IndexLeaf => {
                let (len_payload, n_payload) = read_varint_in(buf, cell_pointer);
                n_payload + on_page_size(len_payload, max, min, usable_size)
            },
            PageType::TableLeaf => {
                let (len_payload, n_payload) = read_varint_in(buf, cell_pointer);
                let (_, n_rowid) = read_varint_in(buf, cell_pointer + n_payload);
                n_payload + n_rowid + on_page_size(len_payload, max, min, usable_size)
            },
        };
        (start, len)
    }

    /// Reads cell `idx`, with the overflow thresholds and the usable size of
    /// the page.
    ///
    /// Fails with `Corrupt` where the page ends before the cell does.
    pub fn cell_get(
        &self,
        idx: usize,
        payload_overflow_threshold_max: usize,
        payload_overflow_threshold_min: usize,
        usable_size: usize,
    ) -> (r: Result<BTreeCell, LimboError>)
        requires
            self.has_cell(idx as nat),
            thresholds_ok(
                payload_overflow_threshold_max as nat,
                payload_overflow_threshold_min as nat,
                usable_size as nat,
            ),
        ensures
            r is Ok <==> parse_btree_cell(
                self.buffer@,
                self.spec_page_type().unwrap(),
                self.cell_pointer(idx as nat),
                payload_overflow_threshold_max as nat,
                payload_overflow_threshold_min as nat,
                usable_size as nat,
            ) is Some,
            r matches Ok(c) ==> parse_btree_cell(
                self.buffer@,
                self.spec_page_type().unwrap(),
                self.cell_pointer(idx as nat),
                payload_overflow_threshold_max as nat,
                payload_overflow_threshold_min as nat,
                usable_size as nat,
            ) == Some(c@),
    {
        let cell_pointer_array_start = self.header_size();
        let cell_pointer = cell_pointer_array_start + (idx * 2);
        let cell_pointer = self.read_u16(cell_pointer) as usize;
        let page_type = self.page_type();
        read_btree_cell(
            self.buffer.as_slice(),
            &page_type,
            cell_pointer,
            payload_overflow_threshold_max,
            payload_overflow_threshold_min,
            usable_size,
        )
    }

    /// Whether the page is a leaf.
    pub fn is_leaf(&self) -> (r: bool)
        requires
            self.spec_page_type() is Some,
        ensures
            r == is_leaf_type(self.spec_page_type().unwrap()),
    {
        match self.page_type() {
            PageType::IndexInterior => false,
            PageType::TableInterior => false,
            PageType::IndexLeaf => true,
            PageType::TableLeaf => true,
        }
    }

    /// Writes `header` over the first 100 bytes of the buffer.
    pub fn write_database_header(&mut self, header: &DatabaseHeader)
        requires
            old(self).buffer@.len() >= 100,
            db_header_wf(*header),
        ensures
            final(self).offset == old(self).offset,
            final(self).overflow_cells@ == old(self).overflow_cells@,
            final(self).buffer@ == encode_db_header(*header) + old(self).buffer@.subrange(
                100,
                old(self).buffer@.len() as int,
            ),
    {
        write_header_to_buf(self.buffer.as_mut_slice(), header);
    }
}

/// The varint at byte `pos` of `buf`, which is known to be there.
fn read_varint_in(buf: &[u8], pos: usize) -> (r: (u64, usize))
    requires
        varint_at(buf@, pos as nat) is Some,
    ensures
        varint_at(buf@, pos as nat) == Some((r.0 as nat, r.1 as nat)),
        1 <= r.1 <= 9,
{
    let len = buf.len();
    proof {
        lemma_varint_decode_bounds(buf@.subrange(pos as int, len as int));
    }
    match read_varint(&buf[pos..len]) {
        Ok(v) => v,
        Err(_) => (0, 1),
    }
}

/// The bytes a payload of `p` bytes takes on the page.
fn on_page_size(p: u64, max_local: usize, min_local: usize, usable_size: usize) -> (r: usize)
    requires
        thresholds_ok(max_local as nat, min_local as nat, usable_size as nat),
    ensures
        r as nat == ({
            let (overflows, to_read) = payload_split(
                p as nat,
                max_local as nat,
                min_local as nat,
                usable_size as nat,
            );
            if overflows {
                to_read
            } else {
                p as nat
            }
        }),
        r <= max_local + 4,
{
    if p <= max_local as u64 {
        p as usize
    } else {
        overflow_split_of(p, max_local, min_local, usable_size).1
    }
}

} // verus!
