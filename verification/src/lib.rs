//! Read-only decoder for the on-disk page format of a single-file
//! SQLite-style database: the fixed 100-byte file header, fixed-size pages,
//! the leaf-table cell layout, and the variable-length integer encoding
//! used throughout the format.

pub mod cell;
pub mod error;
pub mod header;
pub mod page;
pub mod varint;
pub mod view;
