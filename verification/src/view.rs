//! The composed view of a database image: the file header, page 1, and
//! page 1's decoded leaf-table cells.

use vstd::prelude::*;
use vstd::slice::slice_subrange;
use vstd::slice::slice_to_vec;

use crate::cell;
use crate::cell::LeafTableCell;
use crate::error::DecodeError;
use crate::header;
use crate::header::DatabaseHeader;
use crate::page;
use crate::page::Page;
use crate::page::PageType;

verus! {

/// A database image whose header and first page decoded successfully.
pub struct DatabaseView {
    /// The decoded file header.
    pub header: DatabaseHeader,
    /// The decoded first page.
    pub page1: Page,
    /// The raw bytes of the first page, the embedded file header included.
    pub page1_bytes: Vec<u8>,
}

impl DatabaseView {
    /// The decoded parts agree with the stored first page.
    pub open spec fn wf(self) -> bool {
        let s = self.page1_bytes@;
        &&& header::valid_page_size(s.len() as nat)
        &&& s.len() == self.header.page_size
        &&& header::header_ok(s)
        &&& self.header.page_size as nat == header::effective_page_size(
            header::stored_page_size(s),
        )
        &&& page::page_matches(self.page1, s, 100)
        &&& page::pointers_ok(
            s,
            100,
            page::page_header_len(self.page1.page_type),
            self.page1.cell_count as nat,
        )
    }

    /// Opens a database image: decodes the 100-byte header, then reads
    /// and decodes page 1 from the front of `data`.
    pub fn open(data: Vec<u8>) -> (r: Result<DatabaseView, DecodeError>)
        ensures
            ({
                let s = data@;
                &&& s.len() < 100 ==> r == Err::<DatabaseView, DecodeError>(DecodeError::Truncated)
                &&& s.len() >= 100 && !header::header_ok(s) ==> r == Err::<
                    DatabaseView,
                    DecodeError,
                >(DecodeError::InvalidFormat)
                &&& (s.len() >= 100 && header::header_ok(s)) ==> {
                    let ps = header::effective_page_size(header::stored_page_size(s));
                    let p1 = s.subrange(0, ps as int);
                    &&& s.len() < ps ==> r == Err::<DatabaseView, DecodeError>(
                        DecodeError::Truncated,
                    )
                    &&& s.len() >= ps ==> match page::page_type_of(p1[100]) {
                        None => r == Err::<DatabaseView, DecodeError>(
                            DecodeError::UnsupportedPageType,
                        ),
                        Some(t) => {
                            let hdr = page::page_header_len(t);
                            let cc = page::spec_cell_count(p1, 100);
                            if page::pointer_array_fits(p1, 100, hdr, cc) && page::pointers_ok(
                                p1,
                                100,
                                hdr,
                                cc,
                            ) {
                                r matches Ok(v) && v.wf() && v.header.page_size as nat == ps
                                    && v.page1_bytes@ == p1 && v.page1.page_type == t
                            } else {
                                r == Err::<DatabaseView, DecodeError>(DecodeError::CorruptPage)
                            }
                        },
                    }
                }
            }),
    {
        if data.len() < 100 {
            return Err(DecodeError::Truncated);
        }
        let header = match header::read_header(data.as_slice()) {
            Ok(h) => h,
            Err(e) => {
                return Err(e);
            },
        };
        let ps = header.page_size as usize;
        if data.len() < ps {
            return Err(DecodeError::Truncated);
        }
        let page1_bytes: Vec<u8> = slice_to_vec(slice_subrange(data.as_slice(), 0, ps));
        let page1 = match page::read_page(page1_bytes.as_slice(), true) {
            Ok(p) => p,
            Err(e) => {
                return Err(e);
            },
        };
        Ok(DatabaseView { header, page1, page1_bytes })
    }

    /// Decodes the one cell that the `i`-th entry of page 1's cell-pointer
    /// array points to. Reports `RootIsInterior` when page 1 is an interior
    /// page and `NotImplemented` when it is a leaf index page.
    pub fn cell_at(&self, i: usize) -> (r: Result<LeafTableCell, DecodeError>)
        requires
            self.wf(),
            i < self.page1.cell_count,
        ensures
            ({
                let s = self.page1_bytes@;
                let hdr = page::page_header_len(self.page1.page_type);
                let off = page::spec_cell_pointer(s, 100, hdr, i as int) as int;
                match self.page1.page_type {
                    PageType::InteriorIndex | PageType::InteriorTable => r == Err::<
                        LeafTableCell,
                        DecodeError,
                    >(DecodeError::RootIsInterior),
                    PageType::LeafIndex => r == Err::<LeafTableCell, DecodeError>(
                        DecodeError::NotImplemented,
                    ),
                    PageType::LeafTable => {
                        &&& cell::cell_shape_ok(s, off) ==> (r matches Ok(c) && cell::cell_matches(
                            c,
                            s,
                            off,
                        ))
                        &&& !cell::cell_shape_ok(s, off) ==> r == Err::<LeafTableCell, DecodeError>(
                            DecodeError::CorruptCell,
                        )
                    },
                }
            }),
    {
        let ghost s = self.page1_bytes@;
        let ghost hdr = page::page_header_len(self.page1.page_type);
        match self.page1.page_type {
            PageType::InteriorIndex | PageType::InteriorTable => Err(DecodeError::RootIsInterior),
            PageType::LeafIndex => Err(DecodeError::NotImplemented),
            PageType::LeafTable => {
                let ptr = self.page1.cell_pointers[i];
                proof {
                    assert(ptr as nat == page::spec_cell_pointer(s, 100, hdr, i as int));
                    assert(100 + hdr <= ptr < s.len());
                }
                cell::read_leaf_table_cell(
                    self.page1_bytes.as_slice(),
                    self.page1_bytes.len(),
                    ptr as usize,
                )
            },
        }
    }

    /// Decodes one leaf-table cell per entry of page 1's cell-pointer
    /// array, in stored order. Reports `RootIsInterior` when page 1 is an
    /// interior page and `NotImplemented` when it is a leaf index page.
    pub fn schema_page_cells(&self) -> (r: Result<Vec<LeafTableCell>, DecodeError>)
        requires
            self.wf(),
        ensures
            ({
                let s = self.page1_bytes@;
                let hdr = page::page_header_len(self.page1.page_type);
                let cc = self.page1.cell_count as nat;
                match self.page1.page_type {
                    PageType::InteriorIndex | PageType::InteriorTable => r == Err::<
                        Vec<LeafTableCell>,
                        DecodeError,
                    >(DecodeError::RootIsInterior),
                    PageType::LeafIndex => r == Err::<Vec<LeafTableCell>, DecodeError>(
                        DecodeError::NotImplemented,
                    ),
                    PageType::LeafTable => {
                        if forall|i: int|
                            0 <= i < cc ==> cell::cell_shape_ok(
                                s,
                                page::spec_cell_pointer(s, 100, hdr, i) as int,
                            ) {
                            r matches Ok(cells) && cells@.len() == cc && (forall|i: int|
                                0 <= i < cc ==> cell::cell_matches(
                                    cells@[i],
                                    s,
                                    page::spec_cell_pointer(s, 100, hdr, i) as int,
                                ))
                        } else {
                            r == Err::<Vec<LeafTableCell>, DecodeError>(DecodeError::CorruptCell)
                        }
                    },
                }
            }),
    {
        let ghost s = self.page1_bytes@;
        let ghost hdr = page::page_header_len(self.page1.page_type);
        match self.page1.page_type {
            PageType::InteriorIndex | PageType::InteriorTable => Err(DecodeError::RootIsInterior),
            PageType::LeafIndex => Err(DecodeError::NotImplemented),
            PageType::LeafTable => {
                let page_size = self.page1_bytes.len();
                let cc = self.page1.cell_count as usize;
                let mut cells: Vec<LeafTableCell> = Vec::new();
                let mut i: usize = 0;
                while i < cc
                    invariant
                        self.wf(),
                        self.page1.page_type == PageType::LeafTable,
                        s == self.page1_bytes@,
                        hdr == page::page_header_len(self.page1.page_type),
                        page_size == s.len(),
                        cc == self.page1.cell_count as usize,
                        0 <= i <= cc,
                        cells@.len() == i,
                        forall|j: int|
                            0 <= j < i ==> cell::cell_shape_ok(
                                s,
                                page::spec_cell_pointer(s, 100, hdr, j) as int,
                            ),
                        forall|j: int|
                            0 <= j < i ==> cell::cell_matches(
                                cells@[j],
                                s,
                                page::spec_cell_pointer(s, 100, hdr, j) as int,
                            ),
                    decreases cc - i,
                {
                    let ptr = self.page1.cell_pointers[i];
                    proof {
                        assert(ptr as nat == page::spec_cell_pointer(s, 100, hdr, i as int));
                        assert(100 + hdr <= ptr < s.len());
                    }
                    let c = match cell::read_leaf_table_cell(
                        self.page1_bytes.as_slice(),
                        page_size,
                        ptr as usize,
                    ) {
                        Ok(c) => c,
                        Err(e) => {
                            return Err(e);
                        },
                    };
                    let ghost prev = cells@;
                    cells.push(c);
                    proof {
                        assert(cells@ == prev.push(c));
                        assert(cell::cell_shape_ok(s, ptr as int));
                        assert forall|j: int| 0 <= j <= i implies cell::cell_shape_ok(
                            s,
                            page::spec_cell_pointer(s, 100, hdr, j) as int,
                        ) by {
                            if j == i {
                                assert(page::spec_cell_pointer(s, 100, hdr, j) == ptr as nat);
                            }
                        }
                        assert forall|j: int| 0 <= j <= i implies cell::cell_matches(
                            cells@[j],
                            s,
                            page::spec_cell_pointer(s, 100, hdr, j) as int,
                        ) by {
                            if j < i {
                                assert(cells@[j] == prev[j]);
                            } else {
                                assert(cells@[j] == c);
                                assert(cell::cell_matches(c, s, ptr as int));
                            }
                        }
                    }
                    i = i + 1;
                }
                Ok(cells)
            },
        }
    }
}

} // verus!
