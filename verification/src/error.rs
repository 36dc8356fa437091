use vstd::prelude::*;

verus! {

/// Everything that can go wrong while decoding a database image.
#[derive(Clone, Copy, Debug, PartialEq, Eq, Structural)]
pub enum DecodeError {
    /// The source ended before a required fixed-size read was satisfied.
    Truncated,
    /// A varint needed more bytes than the buffer holds.
    TruncatedInput,
    /// The magic string is wrong, or the stored page size is invalid.
    InvalidFormat,
    /// The page-type tag is outside the known set.
    UnsupportedPageType,
    /// A cell pointer, or the cell-pointer array itself, lies outside the page.
    CorruptPage,
    /// A varint or payload region of a cell runs past the page end.
    CorruptCell,
    /// Page 1 is an interior page; traversing child pages is unsupported.
    RootIsInterior,
    /// Cell decoding was requested for a page type whose cells are not decoded.
    NotImplemented,
}

} // verus!
