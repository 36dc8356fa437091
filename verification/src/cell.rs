//! Leaf-table cells: payload size, row id, the locally stored payload,
//! and the optional overflow-page pointer.

use vstd::prelude::*;

use crate::error::DecodeError;
use crate::header::valid_page_size;
use crate::varint;

verus! {

/// The most payload bytes a page can store locally.
pub open spec fn max_local(page_size: int) -> int {
    page_size - 35
}

/// The least payload bytes a spilling cell keeps locally.
pub open spec fn min_local(page_size: int) -> int {
    (page_size - 12) * 32 / 255 - 23
}

/// A payload larger than the local threshold spills to an overflow page.
pub open spec fn has_overflow(page_size: int, payload_size: int) -> bool {
    payload_size > max_local(page_size)
}

/// How many payload bytes stay in the cell: the whole payload when it
/// fits locally, otherwise `min_local + (payload - min_local) % (page_size
/// - 4)` clamped to not exceed `max_local`.
pub open spec fn local_size(page_size: int, payload_size: int) -> int {
    if payload_size <= max_local(page_size) {
        payload_size
    } else {
        let k = min_local(page_size) + (payload_size - min_local(page_size)) % (page_size - 4);
        if k > max_local(page_size) {
            max_local(page_size)
        } else {
            k
        }
    }
}

/// The 32-bit big-endian integer at byte offset `off` of `s`.
pub open spec fn be32(s: Seq<u8>, off: int) -> nat {
    (s[off] as nat) * 0x1000000 + (s[off + 1] as nat) * 0x10000 + (s[off + 2] as nat) * 0x100 + (
    s[off + 3] as nat)
}

/// The payload-size varint sits first in the cell.
pub open spec fn cell_tail(s: Seq<u8>, off: int) -> Seq<u8> {
    s.subrange(off, s.len() as int)
}

pub open spec fn cell_payload_size(s: Seq<u8>, off: int) -> nat {
    varint::varint_value(cell_tail(s, off))
}

/// The row-id varint follows the payload-size varint.
pub open spec fn cell_row_id_tail(s: Seq<u8>, off: int) -> Seq<u8> {
    s.subrange(off + varint::varint_len(cell_tail(s, off)), s.len() as int)
}

pub open spec fn cell_row_id(s: Seq<u8>, off: int) -> nat {
    varint::varint_value(cell_row_id_tail(s, off))
}

/// Where the locally stored payload begins: after the two varints.
pub open spec fn cell_payload_start(s: Seq<u8>, off: int) -> int {
    off + varint::varint_len(cell_tail(s, off)) + varint::varint_len(cell_row_id_tail(s, off))
}

pub open spec fn cell_local_len(s: Seq<u8>, off: int) -> int {
    local_size(s.len() as int, cell_payload_size(s, off) as int)
}

/// One past the last byte the cell occupies, the trailing 4-byte
/// overflow-page number included when the payload spills.
pub open spec fn cell_end(s: Seq<u8>, off: int) -> int {
    cell_payload_start(s, off) + cell_local_len(s, off) + if has_overflow(
        s.len() as int,
        cell_payload_size(s, off) as int,
    ) {
        4int
    } else {
        0int
    }
}

/// Both varints are whole and every region of the cell lies inside the
/// page.
pub open spec fn cell_shape_ok(s: Seq<u8>, off: int) -> bool {
    &&& varint::varint_complete(cell_tail(s, off))
    &&& varint::varint_complete(cell_row_id_tail(s, off))
    &&& cell_end(s, off) <= s.len()
}

/// A decoded leaf-table cell.
pub struct LeafTableCell {
    /// Total payload length in bytes, overflowed bytes included.
    pub payload_size: u64,
    /// The cell's integer key.
    pub row_id: u64,
    /// The payload bytes stored in the cell itself.
    pub local_payload: Vec<u8>,
    /// The first overflow page, when the payload spills.
    pub overflow_page: Option<u32>,
}

/// `c` holds exactly what the page `s` stores for the cell at `off`.
pub open spec fn cell_matches(c: LeafTableCell, s: Seq<u8>, off: int) -> bool {
    let p0 = cell_payload_start(s, off);
    let k = cell_local_len(s, off);
    &&& c.payload_size as nat == cell_payload_size(s, off)
    &&& c.row_id as nat == cell_row_id(s, off)
    &&& c.local_payload@ == s.subrange(p0, p0 + k)
    &&& if has_overflow(s.len() as int, cell_payload_size(s, off) as int) {
        c.overflow_page matches Some(pg) && pg as nat == be32(s, p0 + k)
    } else {
        c.overflow_page is None
    }
}

/// Decodes the leaf-table cell at byte offset `offset` of the page in
/// `bytes`, whose length must be the page size.
pub fn read_leaf_table_cell(bytes: &[u8], page_size: usize, offset: usize) -> (r: Result<
    LeafTableCell,
    DecodeError,
>)
    requires
        valid_page_size(bytes@.len() as nat),
        page_size == bytes@.len(),
        offset <= bytes@.len(),
    ensures
        cell_shape_ok(bytes@, offset as int) ==> (r matches Ok(c) && cell_matches(
            c,
            bytes@,
            offset as int,
        )),
        !cell_shape_ok(bytes@, offset as int) ==> r == Err::<LeafTableCell, DecodeError>(
            DecodeError::CorruptCell,
        ),
{
    let ghost s = bytes@;
    let (payload_size, n1) = match varint::decode_at(bytes, offset) {
        Ok(p) => p,
        Err(_) => {
            return Err(DecodeError::CorruptCell);
        },
    };
    proof {
        varint::lemma_varint_len_bounds(cell_tail(s, offset as int));
    }
    let (row_id, n2) = match varint::decode_at(bytes, offset + n1) {
        Ok(p) => p,
        Err(_) => {
            return Err(DecodeError::CorruptCell);
        },
    };
    proof {
        varint::lemma_varint_len_bounds(cell_row_id_tail(s, offset as int));
    }
    let p0 = offset + n1 + n2;
    let max_loc: usize = page_size - 35;
    let min_loc: usize = (page_size - 12) * 32 / 255 - 23;
    let spills = payload_size > max_loc as u64;
    let k: usize = if !spills {
        payload_size as usize
    } else {
        let k0: u64 = min_loc as u64 + (payload_size - min_loc as u64) % (page_size as u64 - 4);
        if k0 > max_loc as u64 {
            max_loc
        } else {
            k0 as usize
        }
    };
    proof {
        assert(k == cell_local_len(s, offset as int));
        assert(p0 == cell_payload_start(s, offset as int));
    }
    let trailer: usize = if spills {
        4
    } else {
        0
    };
    if k > page_size || trailer > page_size - k || p0 > page_size - k - trailer {
        return Err(DecodeError::CorruptCell);
    }
    let mut local_payload: Vec<u8> = Vec::new();
    let mut i: usize = 0;
    while i < k
        invariant
            s == bytes@,
            s.len() <= usize::MAX,
            p0 + k <= s.len(),
            0 <= i <= k,
            local_payload@ == s.subrange(p0 as int, p0 + i),
        decreases k - i,
    {
        local_payload.push(bytes[p0 + i]);
        proof {
            assert(s.subrange(p0 as int, p0 + i + 1) =~= s.subrange(p0 as int, p0 + i).push(
                s[p0 + i],
            ));
        }
        i = i + 1;
    }
    let overflow_page: Option<u32> = if spills {
        let q = p0 + k;
        let pg: u32 = (bytes[q] as u32) * 0x1000000 + (bytes[q + 1] as u32) * 0x10000 + (bytes[q
            + 2] as u32) * 0x100 + (bytes[q + 3] as u32);
        Some(pg)
    } else {
        None
    };
    Ok(LeafTableCell { payload_size, row_id, local_payload, overflow_page })
}

/// Law: a payload larger than `max_local` always spills — the decoded
/// cell carries an overflow page and keeps fewer than `payload_size`
/// bytes locally.
pub proof fn lemma_overflow_trigger(page_size: int, payload_size: int)
    requires
        0 <= page_size,
        valid_page_size(page_size as nat),
        payload_size > max_local(page_size),
    ensures
        has_overflow(page_size, payload_size),
        0 <= local_size(page_size, payload_size) <= max_local(page_size),
        local_size(page_size, payload_size) < payload_size,
{
}

} // verus!
