use vstd::prelude::*;

use byteorder::{ByteOrder, LittleEndian};

verus! {

/// The first four bytes of `b` as an unsigned number, least significant
/// byte first.
pub open spec fn le_u32(b: Seq<u8>) -> int {
    b[0] + 256 * b[1] + 65536 * b[2] + 16777216 * b[3]
}

/// The first four bytes of `b` as a two's complement number, least
/// significant byte first.
pub open spec fn le_i32(b: Seq<u8>) -> int {
    if le_u32(b) >= 0x8000_0000 {
        le_u32(b) - 0x1_0000_0000
    } else {
        le_u32(b)
    }
}

/// Whether every byte of `b` is ASCII.
pub open spec fn is_ascii(b: Seq<u8>) -> bool {
    forall|i: int| 0 <= i < b.len() ==> #[trigger] b[i] < 128
}

/// ASCII bytes read as text, one character per byte.
pub open spec fn ascii_text(b: Seq<u8>) -> Seq<char> {
    b.map_values(|c: u8| c as char)
}

/// Relies on byteorder's `LittleEndian::read_i32`: the first four bytes of
/// `buf`, least significant first, as an `i32`; it panics on fewer than
/// four bytes.
#[verifier::external_body]
pub(crate) fn read_i32_le(buf: &[u8]) -> (r: i32)
    requires
        buf@.len() >= 4,
    ensures
        r as int == le_i32(buf@),
{
    LittleEndian::read_i32(buf)
}

/// Relies on `String::from_utf8_lossy`: bytes that are valid UTF-8, as
/// ASCII bytes are, come back as the same text.
#[verifier::external_body]
pub(crate) fn text_lossy(b: &[u8]) -> (r: String)
    ensures
        is_ascii(b@) ==> r@ == ascii_text(b@),
{
    String::from_utf8_lossy(b).into_owned()
}

} // verus!
