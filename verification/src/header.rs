//! The fixed 100-byte file header: the 16-byte magic string and the
//! stored page size.

use vstd::prelude::*;

use crate::error::DecodeError;

verus! {

/// The first 16 bytes of `s` spell the ASCII magic string
/// `"SQLite format 3"` followed by a NUL.
pub open spec fn magic_ok(s: Seq<u8>) -> bool {
    &&& s.len() >= 16
    &&& s[0] == 83
    &&& s[1] == 81
    &&& s[2] == 76
    &&& s[3] == 105
    &&& s[4] == 116
    &&& s[5] == 101
    &&& s[6] == 32
    &&& s[7] == 102
    &&& s[8] == 111
    &&& s[9] == 114
    &&& s[10] == 109
    &&& s[11] == 97
    &&& s[12] == 116
    &&& s[13] == 32
    &&& s[14] == 51
    &&& s[15] == 0
}

/// The raw 16-bit big-endian page-size field at byte offset 16.
pub open spec fn stored_page_size(s: Seq<u8>) -> nat {
    (s[16] as nat) * 256 + (s[17] as nat)
}

/// The page size a stored field denotes: the stored value 1 means 65536,
/// the only size a 16-bit field cannot hold.
pub open spec fn effective_page_size(raw: nat) -> nat {
    if raw == 1 {
        65536
    } else {
        raw
    }
}

/// The page sizes the format allows.
pub open spec fn valid_page_size(n: nat) -> bool {
    ||| n == 512
    ||| n == 1024
    ||| n == 2048
    ||| n == 4096
    ||| n == 8192
    ||| n == 16384
    ||| n == 32768
    ||| n == 65536
}

/// A 100-byte header is well formed when the magic matches and the page
/// size it denotes is one the format allows.
pub open spec fn header_ok(s: Seq<u8>) -> bool {
    magic_ok(s) && valid_page_size(effective_page_size(stored_page_size(s)))
}

/// The decoded file header.
#[derive(Clone, Copy, Debug, PartialEq, Eq, Structural)]
pub struct DatabaseHeader {
    /// The page size in bytes, with the stored-1-means-65536 rule applied.
    pub page_size: u32,
}

/// Parses the fixed 100-byte file header at the front of `bytes`:
/// validates the magic string, then extracts and validates the page size.
pub fn read_header(bytes: &[u8]) -> (r: Result<DatabaseHeader, DecodeError>)
    requires
        bytes@.len() >= 100,
    ensures
        header_ok(bytes@) ==> (r matches Ok(h) && h.page_size as nat == effective_page_size(
            stored_page_size(bytes@),
        )),
        !header_ok(bytes@) ==> r == Err::<DatabaseHeader, DecodeError>(DecodeError::InvalidFormat),
{
    let magic_match = bytes[0] == 83 && bytes[1] == 81 && bytes[2] == 76 && bytes[3] == 105
        && bytes[4] == 116 && bytes[5] == 101 && bytes[6] == 32 && bytes[7] == 102 && bytes[8]
        == 111 && bytes[9] == 114 && bytes[10] == 109 && bytes[11] == 97 && bytes[12] == 116
        && bytes[13] == 32 && bytes[14] == 51 && bytes[15] == 0;
    if !magic_match {
        return Err(DecodeError::InvalidFormat);
    }
    let raw: u32 = (bytes[16] as u32) * 256 + (bytes[17] as u32);
    let page_size: u32 = if raw == 1 {
        65536
    } else {
        raw
    };
    if page_size == 512 || page_size == 1024 || page_size == 2048 || page_size == 4096 || page_size
        == 8192 || page_size == 16384 || page_size == 32768 || page_size == 65536 {
        Ok(DatabaseHeader { page_size })
    } else {
        Err(DecodeError::InvalidFormat)
    }
}

} // verus!
