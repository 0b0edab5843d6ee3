//! Reading the header and lump directory of a WAD archive.
//!
//! The decoder works on the archive's bytes held in memory and either
//! returns a validated [`Header`] or says exactly which rule the bytes
//! break.

mod bytes;
mod error;
mod header;
mod name;

pub use error::{mk_err, DecodeError, FormatError};
pub use header::{read_header, Header, HeaderView, Lump, WadType};
pub use name::validate_lump_name;
