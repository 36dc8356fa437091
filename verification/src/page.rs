//! B-tree pages: the page-type tag, the page header, and the
//! cell-pointer array.

use vstd::prelude::*;

use crate::error::DecodeError;
use crate::header::valid_page_size;

verus! {

/// The four page kinds the format defines.
#[derive(Clone, Copy, Debug, PartialEq, Eq, Structural)]
pub enum PageType {
    /// Tag 0x02: an interior index page.
    InteriorIndex,
    /// Tag 0x05: an interior table page.
    InteriorTable,
    /// Tag 0x0a: a leaf index page.
    LeafIndex,
    /// Tag 0x0d: a leaf table page, the only kind whose cells are decoded.
    LeafTable,
}

/// The page kind a tag byte denotes, if any.
pub open spec fn page_type_of(tag: u8) -> Option<PageType> {
    if tag == 0x02 {
        Some(PageType::InteriorIndex)
    } else if tag == 0x05 {
        Some(PageType::InteriorTable)
    } else if tag == 0x0a {
        Some(PageType::LeafIndex)
    } else if tag == 0x0d {
        Some(PageType::LeafTable)
    } else {
        None
    }
}

/// Page-header length: interior pages carry an extra 4-byte right-most
/// child pointer.
pub open spec fn page_header_len(t: PageType) -> int {
    match t {
        PageType::InteriorIndex | PageType::InteriorTable => 12,
        PageType::LeafIndex | PageType::LeafTable => 8,
    }
}

/// The 16-bit big-endian integer at byte offset `off` of `s`.
pub open spec fn be16(s: Seq<u8>, off: int) -> nat {
    (s[off] as nat) * 256 + (s[off + 1] as nat)
}

/// Where page structure starts inside the page buffer: page 1 embeds the
/// 100-byte file header, every other page starts at its first byte.
pub open spec fn page_base(is_first_page: bool) -> int {
    if is_first_page {
        100
    } else {
        0
    }
}

/// The cell count stored at page-relative offset 3.
pub open spec fn spec_cell_count(s: Seq<u8>, base: int) -> nat {
    be16(s, base + 3)
}

/// The content-area start stored at page-relative offset 5; a stored 0
/// denotes 65536.
pub open spec fn spec_content_area(s: Seq<u8>, base: int) -> nat {
    if be16(s, base + 5) == 0 {
        65536
    } else {
        be16(s, base + 5)
    }
}

/// The `i`-th entry of the cell-pointer array, which sits immediately
/// after the page header.
pub open spec fn spec_cell_pointer(s: Seq<u8>, base: int, hdr: int, i: int) -> nat {
    be16(s, base + hdr + 2 * i)
}

/// The whole cell-pointer array lies inside the page.
pub open spec fn pointer_array_fits(s: Seq<u8>, base: int, hdr: int, cc: nat) -> bool {
    base + hdr + 2 * cc <= s.len()
}

/// Every cell pointer points past the page header and into the page.
pub open spec fn pointers_ok(s: Seq<u8>, base: int, hdr: int, cc: nat) -> bool {
    forall|i: int|
        0 <= i < cc ==> base + hdr <= #[trigger] spec_cell_pointer(s, base, hdr, i) < s.len()
}

/// A decoded page: its kind, its header fields, and its cell-pointer
/// array in stored order.
pub struct Page {
    pub page_type: PageType,
    pub cell_count: u16,
    /// Start of the cell content area; a stored 0 denotes 65536, hence u32.
    pub content_area_start: u32,
    /// One byte offset from the start of the page per cell.
    pub cell_pointers: Vec<u16>,
}

/// `p` holds exactly what the page buffer `s` stores at `base`.
pub open spec fn page_matches(p: Page, s: Seq<u8>, base: int) -> bool {
    &&& page_type_of(s[base]) == Some(p.page_type)
    &&& p.cell_count as nat == spec_cell_count(s, base)
    &&& p.content_area_start as nat == spec_content_area(s, base)
    &&& p.cell_pointers@.len() == spec_cell_count(s, base)
    &&& forall|i: int|
        0 <= i < spec_cell_count(s, base) ==> p.cell_pointers@[i] as nat == spec_cell_pointer(
            s,
            base,
            page_header_len(p.page_type),
            i,
        )
}

/// Reads the 16-bit big-endian integer at byte offset `off`.
pub fn be16_at(bytes: &[u8], off: usize) -> (r: u16)
    requires
        off + 2 <= bytes@.len(),
    ensures
        r as nat == be16(bytes@, off as int),
{
    (bytes[off] as u16) * 256 + (bytes[off + 1] as u16)
}

/// Classifies the page in `bytes` and extracts its header fields and
/// cell-pointer array. `bytes` must be exactly one page; when
/// `is_first_page` is set, its first 100 bytes are the file header and
/// every page-relative offset is shifted past them.
pub fn read_page(bytes: &[u8], is_first_page: bool) -> (r: Result<Page, DecodeError>)
    requires
        valid_page_size(bytes@.len() as nat),
    ensures
        ({
            let s = bytes@;
            let base = page_base(is_first_page);
            match page_type_of(s[base]) {
                None => r == Err::<Page, DecodeError>(DecodeError::UnsupportedPageType),
                Some(t) => {
                    let hdr = page_header_len(t);
                    let cc = spec_cell_count(s, base);
                    if pointer_array_fits(s, base, hdr, cc) && pointers_ok(s, base, hdr, cc) {
                        r matches Ok(p) && p.page_type == t && page_matches(p, s, base)
                    } else {
                        r == Err::<Page, DecodeError>(DecodeError::CorruptPage)
                    }
                },
            }
        }),
{
    let ghost s = bytes@;
    let base: usize = if is_first_page {
        100
    } else {
        0
    };
    let tag = bytes[base];
    let page_type = if tag == 0x02 {
        PageType::InteriorIndex
    } else if tag == 0x05 {
        PageType::InteriorTable
    } else if tag == 0x0a {
        PageType::LeafIndex
    } else if tag == 0x0d {
        PageType::LeafTable
    } else {
        return Err(DecodeError::UnsupportedPageType);
    };
    let cell_count = be16_at(bytes, base + 3);
    let content_raw = be16_at(bytes, base + 5);
    let content_area_start: u32 = if content_raw == 0 {
        65536
    } else {
        content_raw as u32
    };
    let hdr: usize = match page_type {
        PageType::InteriorIndex | PageType::InteriorTable => 12,
        PageType::LeafIndex | PageType::LeafTable => 8,
    };
    if bytes.len() - base - hdr < 2 * (cell_count as usize) {
        return Err(DecodeError::CorruptPage);
    }
    let mut cell_pointers: Vec<u16> = Vec::new();
    let mut i: usize = 0;
    while i < cell_count as usize
        invariant
            s == bytes@,
            base == page_base(is_first_page),
            page_type_of(s[base as int]) == Some(page_type),
            hdr == page_header_len(page_type),
            cell_count as nat == spec_cell_count(s, base as int),
            base + hdr + 2 * (cell_count as nat) <= s.len(),
            0 <= i <= cell_count as usize,
            cell_pointers@.len() == i,
            forall|j: int|
                0 <= j < i ==> {
                    &&& cell_pointers@[j] as nat == spec_cell_pointer(
                        s,
                        base as int,
                        hdr as int,
                        j,
                    )
                    &&& base + hdr <= cell_pointers@[j] < s.len()
                },
        decreases cell_count as usize - i,
    {
        let p = be16_at(bytes, base + hdr + 2 * i);
        proof {
            assert(p as nat == spec_cell_pointer(s, base as int, hdr as int, i as int));
        }
        if (p as usize) < base + hdr || (p as usize) >= bytes.len() {
            return Err(DecodeError::CorruptPage);
        }
        cell_pointers.push(p);
        i = i + 1;
    }
    proof {
        assert forall|j: int|
            0 <= j < cell_count as nat implies base + hdr <= #[trigger] spec_cell_pointer(
            s,
            base as int,
            hdr as int,
            j,
        ) < s.len() by {
            assert(cell_pointers@[j] as nat == spec_cell_pointer(s, base as int, hdr as int, j));
        }
        assert(pointers_ok(s, base as int, hdr as int, cell_count as nat));
    }
    Ok(Page { page_type, cell_count, content_area_start, cell_pointers })
}

} // verus!
