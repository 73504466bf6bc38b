//! B-tree page types and cells: the four cell layouts, and the rule that
//! splits a large payload between the page and a chain of overflow pages.
use vstd::prelude::*;

use crate::bytes::{be_uint, read_u32};
use crate::error::{corrupt, LimboError};
use crate::value::copy_prefix;
use crate::varint::{lemma_varint_decode_bounds, read_varint, varint_decode};

verus! {

/// The kind of a b-tree page, from the first byte of its header.
#[derive(Debug, PartialEq, Eq, Structural, Clone, Copy)]
pub enum PageType {
    IndexInterior,
    TableInterior,
    IndexLeaf,
    TableLeaf,
}

/// The page type a header byte names: 2, 5, 10 or 13.
pub open spec fn page_type_of(b: u8) -> Option<PageType> {
    if b == 2 {
        Some(PageType::IndexInterior)
    } else if b == 5 {
        Some(PageType::TableInterior)
    } else if b == 10 {
        Some(PageType::IndexLeaf)
    } else if b == 13 {
        Some(PageType::TableLeaf)
    } else {
        None
    }
}

/// The header byte of a page type.
pub open spec fn page_type_byte(t: PageType) -> u8 {
    match t {
        PageType::IndexInterior => 2,
        PageType::TableInterior => 5,
        PageType::IndexLeaf => 10,
        PageType::TableLeaf => 13,
    }
}

pub open spec fn is_leaf_type(t: PageType) -> bool {
    t == PageType::IndexLeaf || t == PageType::TableLeaf
}

impl PageType {
    /// The page type that `value` names; any other byte fails with `Corrupt`.
    pub fn try_from(value: u8) -> (r: Result<PageType, LimboError>)
        ensures
            r is Ok <==> page_type_of(value) is Some,
            r matches Ok(t) ==> page_type_of(value) == Some(t),
    {
        if value == 2 {
            Ok(PageType::IndexInterior)
        } else if value == 5 {
            Ok(PageType::TableInterior)
        } else if value == 10 {
            Ok(PageType::IndexLeaf)
        } else if value == 13 {
            Ok(PageType::TableLeaf)
        } else {
            Err(corrupt("invalid page type"))
        }
    }
}

/// The overflow thresholds a caller may pass: a minimum no larger than the
/// maximum, which is within the usable size of a page.
pub open spec fn thresholds_ok(max_local: nat, min_local: nat, usable_size: nat) -> bool {
    min_local <= max_local <= usable_size && 4 < usable_size <= 65536
}

/// Bytes of a payload of size `p` that stay on the page when it overflows.
pub open spec fn overflow_local(p: nat, max_local: nat, min_local: nat, usable_size: nat) -> nat {
    let local = min_local + (p - min_local) % (usable_size - 4);
    if local > max_local {
        min_local
    } else {
        local as nat
    }
}

/// Whether a payload of size `p` overflows and, if so, the bytes it takes on
/// the page with the four-byte pointer to its first overflow page.
pub open spec fn payload_split(p: nat, max_local: nat, min_local: nat, usable_size: nat) -> (
    bool,
    nat,
) {
    if p <= max_local {
        (false, 0)
    } else {
        (true, overflow_local(p, max_local, min_local, usable_size) + 4)
    }
}

/// Whether a payload of `payload_size` bytes overflows the page, and if so
/// the bytes it takes on the page, the overflow pointer included.
pub fn payload_overflows(
    payload_size: usize,
    payload_overflow_threshold_max: usize,
    payload_overflow_threshold_min: usize,
    usable_size: usize,
) -> (r: (bool, usize))
    requires
        thresholds_ok(
            payload_overflow_threshold_max as nat,
            payload_overflow_threshold_min as nat,
            usable_size as nat,
        ),
    ensures
        (r.0, r.1 as nat) == payload_split(
            payload_size as nat,
            payload_overflow_threshold_max as nat,
            payload_overflow_threshold_min as nat,
            usable_size as nat,
        ),
{
    if payload_size <= payload_overflow_threshold_max {
        return (false, 0);
    }
    let mut space_left = payload_overflow_threshold_min + (payload_size
        - payload_overflow_threshold_min) % (usable_size - 4);
    if space_left > payload_overflow_threshold_max {
        space_left = payload_overflow_threshold_min;
    }
    (true, space_left + 4)
}

/// An overflowing payload keeps at most the maximum on the page, and the
/// overflow pages, each carrying `usable_size - 4` bytes, hold the rest.
pub proof fn lemma_overflow_split(p: nat, max_local: nat, min_local: nat, usable_size: nat)
    requires
        thresholds_ok(max_local, min_local, usable_size),
        p > max_local,
    ensures
        ({
            let local = overflow_local(p, max_local, min_local, usable_size);
            let per_page = (usable_size - 4) as nat;
            let pages = ((p - local) + per_page - 1) / per_page as int;
            &&& local <= max_local
            &&& local <= p
            &&& local + pages * per_page >= p
        }),
{
    let local = overflow_local(p, max_local, min_local, usable_size);
    let per_page = (usable_size - 4) as nat;
    let rest = (p - local) as int;
    let pages = (rest + per_page - 1) / per_page as int;
    vstd::arithmetic::div_mod::lemma_fundamental_div_mod(rest + per_page - 1, per_page as int);
    vstd::arithmetic::div_mod::lemma_mod_bound(rest + per_page - 1, per_page as int);
    assert(pages * per_page >= rest) by (nonlinear_arith)
        requires
            rest + per_page - 1 == per_page * pages + (rest + per_page - 1) % (per_page as int),
            (rest + per_page - 1) % (per_page as int) < per_page,
    ;
}

/// A table interior cell: a child page and the rowid that bounds it.
#[derive(Debug, Clone)]
pub struct TableInteriorCell {
    pub _left_child_page: u32,
    pub _rowid: u64,
}

/// A table leaf cell: a rowid and a payload, the part of it on the page.
#[derive(Debug, Clone)]
pub struct TableLeafCell {
    pub _rowid: u64,
    /// The part of the payload on the page.
    pub _payload: Vec<u8>,
    /// The size of the whole payload, overflow pages included.
    pub payload_size: u64,
    pub first_overflow_page: Option<u32>,
}

/// An index interior cell: a child page and a key payload.
#[derive(Debug, Clone)]
pub struct IndexInteriorCell {
    pub left_child_page: u32,
    pub payload: Vec<u8>,
    /// The size of the whole payload, overflow pages included.
    pub payload_size: u64,
    pub first_overflow_page: Option<u32>,
}

/// An index leaf cell: a key payload.
#[derive(Debug, Clone)]
pub struct IndexLeafCell {
    pub payload: Vec<u8>,
    pub first_overflow_page: Option<u32>,
    /// The size of the whole payload, overflow pages included.
    pub payload_size: u64,
}

#[derive(Debug, Clone)]
pub enum BTreeCell {
    TableInteriorCell(TableInteriorCell),
    TableLeafCell(TableLeafCell),
    IndexInteriorCell(IndexInteriorCell),
    IndexLeafCell(IndexLeafCell),
}

/// The content of a cell: the page part of its payload, the size of the
/// whole payload and the first overflow page, and its child and rowid.
pub enum CellModel {
    TableInterior { left_child_page: u32, rowid: u64 },
    TableLeaf { rowid: u64, payload: Seq<u8>, payload_size: u64, first_overflow_page: Option<u32> },
    IndexInterior {
        left_child_page: u32,
        payload: Seq<u8>,
        payload_size: u64,
        first_overflow_page: Option<u32>,
    },
    IndexLeaf { payload: Seq<u8>, payload_size: u64, first_overflow_page: Option<u32> },
}

impl View for BTreeCell {
    type V = CellModel;

    open spec fn view(&self) -> CellModel {
        match self {
            BTreeCell::TableInteriorCell(c) => CellModel::TableInterior {
                left_child_page: c._left_child_page,
                rowid: c._rowid,
            },
            BTreeCell::TableLeafCell(c) => CellModel::TableLeaf {
                rowid: c._rowid,
                payload: c._payload@,
                payload_size: c.payload_size,
                first_overflow_page: c.first_overflow_page,
            },
            BTreeCell::IndexInteriorCell(c) => CellModel::IndexInterior {
                left_child_page: c.left_child_page,
                payload: c.payload@,
                payload_size: c.payload_size,
                first_overflow_page: c.first_overflow_page,
            },
            BTreeCell::IndexLeafCell(c) => CellModel::IndexLeaf {
                payload: c.payload@,
                payload_size: c.payload_size,
                first_overflow_page: c.first_overflow_page,
            },
        }
    }
}

/// The varint at byte `pos` of `page`.
pub open spec fn varint_at(page: Seq<u8>, pos: nat) -> Option<(nat, nat)> {
    if pos <= page.len() {
        varint_decode(page.subrange(pos as int, page.len() as int))
    } else {
        None
    }
}

/// The big-endian `u32` at byte `pos` of `page`.
pub open spec fn u32_at(page: Seq<u8>, pos: nat) -> Option<u32> {
    if pos + 4 <= page.len() {
        Some(be_uint(page.subrange(pos as int, pos + 4 as int)) as u32)
    } else {
        None
    }
}

/// The page part of a payload of size `p` whose cell bytes are `unread`,
/// and the overflow pointer in its last four bytes where the payload does
/// not fit.
pub open spec fn payload_parts(unread: Seq<u8>, p: nat) -> (Seq<u8>, Option<u32>) {
    if p <= unread.len() {
        (unread.subrange(0, p as int), None)
    } else {
        let n = unread.len();
        (unread.subrange(0, n - 4), Some(be_uint(unread.subrange(n - 4, n as int)) as u32))
    }
}

/// The page part and the overflow pointer of a payload of size `p` that
/// starts at byte `pos` of `page`; `None` where the page ends first.
pub open spec fn cell_payload(
    page: Seq<u8>,
    pos: nat,
    p: nat,
    max_local: nat,
    min_local: nat,
    usable_size: nat,
) -> Option<(Seq<u8>, Option<u32>)> {
    let (overflows, to_read) = payload_split(p, max_local, min_local, usable_size);
    let n = if overflows {
        to_read
    } else {
        p
    };
    if pos + n <= page.len() {
        Some(payload_parts(page.subrange(pos as int, (pos + n) as int), p))
    } else {
        None
    }
}

/// The cell of a page of type `t` at byte `pos` of `page`; `None` where the
/// page ends before the cell does.
pub open spec fn parse_btree_cell(
    page: Seq<u8>,
    t: PageType,
    pos: nat,
    max_local: nat,
    min_local: nat,
    usable_size: nat,
) -> Option<CellModel> {
    match t {
        PageType::TableInterior => match (u32_at(page, pos), varint_at(page, pos + 4)) {
            (Some(left), Some((rowid, _))) => Some(
                CellModel::TableInterior { left_child_page: left, rowid: rowid as u64 },
            ),
            _ => None,
        },
        PageType::TableLeaf => match varint_at(page, pos) {
            Some((p, n1)) => match varint_at(page, pos + n1) {
                Some((rowid, n2)) => match cell_payload(
                    page,
                    pos + n1 + n2,
                    p,
                    max_local,
                    min_local,
                    usable_size,
                ) {
                    Some((payload, first)) => Some(
                        CellModel::TableLeaf {
                            rowid: rowid as u64,
                            payload,
                            payload_size: p as u64,
                            first_overflow_page: first,
                        },
                    ),
                    None => None,
                },
                None => None,
            },
            None => None,
        },
        PageType::IndexInterior => match (u32_at(page, pos), varint_at(page, pos + 4)) {
            (Some(left), Some((p, n1))) => match cell_payload(
                page,
                pos + 4 + n1,
                p,
                max_local,
                min_local,
                usable_size,
            ) {
                Some((payload, first)) => Some(
                    CellModel::IndexInterior {
                        left_child_page: left,
                        payload,
                        payload_size: p as u64,
                        first_overflow_page: first,
                    },
                ),
                None => None,
            },
            _ => None,
        },
        PageType::IndexLeaf => match varint_at(page, pos) {
            Some((p, n1)) => match cell_payload(
                page,
                pos + n1,
                p,
                max_local,
                min_local,
                usable_size,
            ) {
                Some((payload, first)) => Some(
                    CellModel::IndexLeaf { payload, payload_size: p as u64, first_overflow_page: first },
                ),
                None => None,
            },
            None => None,
        },
    }
}

/// Splits the cell bytes `unread` of a payload of `payload_size` bytes into
/// the part on the page and, where it does not fit, the overflow pointer in
/// the last four bytes.
pub fn read_payload(unread: &[u8], payload_size: usize) -> (r: (Vec<u8>, Option<u32>))
    requires
        payload_size <= unread@.len() || unread@.len() >= 4,
    ensures
        (r.0@, r.1) == payload_parts(unread@, payload_size as nat),
{
    let cell_len = unread.len();
    if payload_size <= cell_len {
        (copy_prefix(unread, payload_size), None)
    } else {
        let first_overflow_page = read_u32(unread, cell_len - 4);
        (copy_prefix(unread, cell_len - 4), Some(first_overflow_page))
    }
}

/// Reads the varint at byte `pos` of `page`.
fn read_varint_at(page: &[u8], pos: usize) -> (r: Result<(u64, usize), LimboError>)
    ensures
        r is Ok <==> varint_at(page@, pos as nat) is Some,
        r matches Ok((v, n)) ==> varint_at(page@, pos as nat) == Some((v as nat, n as nat)) && 1
            <= n <= 9 && pos + n <= page@.len(),
{
    let len = page.len();
    if pos > len {
        return Err(corrupt("cell runs past the end of the page"));
    }
    proof {
        lemma_varint_decode_bounds(page@.subrange(pos as int, len as int));
    }
    read_varint(&page[pos..len])
}

/// Reads the page part of a payload of `payload_size` bytes at byte `pos` of
/// `page`, and its overflow pointer.
fn read_cell_payload(
    page: &[u8],
    pos: usize,
    payload_size: u64,
    max_local: usize,
    min_local: usize,
    usable_size: usize,
) -> (r: Result<(Vec<u8>, Option<u32>), LimboError>)
    requires
        thresholds_ok(max_local as nat, min_local as nat, usable_size as nat),
        pos <= page@.len(),
    ensures
        r is Ok <==> cell_payload(
            page@,
            pos as nat,
            payload_size as nat,
            max_local as nat,
            min_local as nat,
            usable_size as nat,
        ) is Some,
        r matches Ok((payload, first)) ==> cell_payload(
            page@,
            pos as nat,
            payload_size as nat,
            max_local as nat,
            min_local as nat,
            usable_size as nat,
        ) == Some((payload@, first)),
{
    let len = page.len();
    if payload_size <= max_local as u64 {
        let n = payload_size as usize;
        if n > len - pos {
            return Err(corrupt("cell payload runs past the end of the page"));
        }
        Ok(read_payload(&page[pos..pos + n], n))
    } else {
        let (_, to_read) = overflow_split_of(payload_size, max_local, min_local, usable_size);
        if to_read > len - pos {
            return Err(corrupt("cell payload runs past the end of the page"));
        }
        // Any size beyond `to_read` splits the cell bytes the same way.
        let size = if payload_size > to_read as u64 {
            to_read + 1
        } else {
            payload_size as usize
        };
        Ok(read_payload(&page[pos..pos + to_read], size))
    }
}

/// `payload_split` for a payload size held in 64 bits, where it overflows.
pub(crate) fn overflow_split_of(payload_size: u64, max_local: usize, min_local: usize, usable_size: usize) -> (r: (
    bool,
    usize,
))
    requires
        thresholds_ok(max_local as nat, min_local as nat, usable_size as nat),
        payload_size > max_local,
    ensures
        (r.0, r.1 as nat) == payload_split(
            payload_size as nat,
            max_local as nat,
            min_local as nat,
            usable_size as nat,
        ),
        r.1 <= max_local + 4,
{
    let rem = ((payload_size - min_local as u64) % (usable_size as u64 - 4)) as usize;
    let mut space_left = min_local + rem;
    if space_left > max_local {
        space_left = min_local;
    }
    (true, space_left + 4)
}

/// Reads the cell at byte `pos` of `page`, a page of type `page_type`, with
/// the overflow thresholds and the usable size of the page.
///
/// Fails with `Corrupt` where the page ends before the cell does.
pub fn read_btree_cell(
    page: &[u8],
    page_type: &PageType,
    pos: usize,
    max_local: usize,
    min_local: usize,
    usable_size: usize,
) -> (r: Result<BTreeCell, LimboError>)
    requires
        thresholds_ok(max_local as nat, min_local as nat, usable_size as nat),
    ensures
        r is Ok <==> parse_btree_cell(
            page@,
            *page_type,
            pos as nat,
            max_local as nat,
            min_local as nat,
            usable_size as nat,
        ) is Some,
        r matches Ok(c) ==> parse_btree_cell(
            page@,
            *page_type,
            pos as nat,
            max_local as nat,
            min_local as nat,
            usable_size as nat,
        ) == Some(c@),
{
    let len = page.len();
    match page_type {
        PageType::IndexInterior => {
            if pos > len || len - pos < 4 {
                return Err(corrupt("cell runs past the end of the page"));
            }
            let left_child_page = read_u32(page, pos);
            let (payload_size, nr) = read_varint_at(page, pos + 4)?;
            let (payload, first_overflow_page) = read_cell_payload(
                page,
                pos + 4 + nr,
                payload_size,
                max_local,
                min_local,
                usable_size,
            )?;
            Ok(
                BTreeCell::IndexInteriorCell(
                    IndexInteriorCell {
                        left_child_page,
                        payload,
                        first_overflow_page,
                        payload_size,
                    },
                ),
            )
        },
        PageType::TableInterior => {
            if pos > len || len - pos < 4 {
                return Err(corrupt("cell runs past the end of the page"));
            }
            let left_child_page = read_u32(page, pos);
            let (rowid, _) = read_varint_at(page, pos + 4)?;
            Ok(
                BTreeCell::TableInteriorCell(
                    TableInteriorCell { _left_child_page: left_child_page, _rowid: rowid },
                ),
            )
        },
        PageType::IndexLeaf => {
            let (payload_size, nr) = read_varint_at(page, pos)?;
            let (payload, first_overflow_page) = read_cell_payload(
                page,
                pos + nr,
                payload_size,
                max_local,
                min_local,
                usable_size,
            )?;
            Ok(BTreeCell::IndexLeafCell(IndexLeafCell { payload, first_overflow_page, payload_size }))
        },
        PageType::TableLeaf => {
            let (payload_size, nr) = read_varint_at(page, pos)?;
            let (rowid, nr2) = read_varint_at(page, pos + nr)?;
            let (payload, first_overflow_page) = read_cell_payload(
                page,
                pos + nr + nr2,
                payload_size,
                max_local,
                min_local,
                usable_size,
            )?;
            Ok(
                BTreeCell::TableLeafCell(
                    TableLeafCell {
                        _rowid: rowid,
                        _payload: payload,
                        first_overflow_page,
                        payload_size,
                    },
                ),
            )
        },
    }
}

} // verus!
