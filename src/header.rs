use vstd::prelude::*;
use vstd::slice::slice_subrange;

use crate::bytes::{ascii_text, le_i32, read_i32_le, text_lossy};
use crate::error::{DecodeError, FormatError};
use crate::name::{lemma_accepted_name_is_ascii, lump_name_verdict, trim_nuls, validate_lump_name};

verus! {

/// The two kinds of WAD archive.
#[derive(Debug, Clone, Copy, PartialEq, Eq, Structural)]
pub enum WadType {
    /// A main game archive; running a game always takes one.
    IWAD,
    /// A patch archive, loaded on top of an IWAD, whose lumps override
    /// the IWAD's.
    PWAD,
}

/// A directory entry: where a lump's bytes lie in the archive.
#[derive(Debug, Clone, Copy, PartialEq, Eq, Structural)]
pub struct Lump {
    /// Byte offset in the archive where the lump's data starts.
    pub file_offset: i32,
    /// Length of the lump's data in bytes.
    pub size: i32,
}

/// The archive's type and its lump directory.
///
/// The directory is kept as a sequence in the archive's order, so that
/// lumps that share a name all stay, as they do in the archive.
#[derive(Debug)]
pub struct Header {
    /// Type of the archive.
    pub wad_type: WadType,
    /// Number of lumps in the archive.
    pub directory_entry_count: i32,
    /// Byte offset in the archive where the lump directory starts.
    pub directory_start: i32,
    /// Each lump's name with its entry, in directory order.
    pub lumps: Vec<(String, Lump)>,
}

/// A header with each lump name as a sequence of characters.
pub struct HeaderView {
    pub wad_type: WadType,
    pub directory_entry_count: i32,
    pub directory_start: i32,
    pub lumps: Seq<(Seq<char>, Lump)>,
}

/// The directory entries of `v` with their names as character sequences.
pub open spec fn lumps_view(v: Seq<(String, Lump)>) -> Seq<(Seq<char>, Lump)> {
    v.map_values(|e: (String, Lump)| (e.0@, e.1))
}

impl View for Header {
    type V = HeaderView;

    open spec fn view(&self) -> HeaderView {
        HeaderView {
            wad_type: self.wad_type,
            directory_entry_count: self.directory_entry_count,
            directory_start: self.directory_start,
            lumps: lumps_view(self.lumps@),
        }
    }
}

impl HeaderView {
    /// The consistency every decoded header has with an archive of
    /// `file_size` bytes.
    pub open spec fn wf(self, file_size: int) -> bool {
        &&& 0 <= self.directory_entry_count
        &&& 0 <= self.directory_start <= file_size
        &&& self.lumps.len() == self.directory_entry_count
        &&& forall|i: int|
            0 <= i < self.lumps.len() ==> {
                let l = (#[trigger] self.lumps[i]).1;
                0 <= l.file_offset && 0 <= l.size && l.file_offset + l.size <= file_size
            }
    }
}

/// The signed little-endian field of four bytes at `pos`.
pub open spec fn field_i32(d: Seq<u8>, pos: int) -> int {
    le_i32(d.subrange(pos, pos + 4))
}

/// The archive type that a four-byte tag announces.
pub open spec fn tag_type(t: Seq<u8>) -> Option<WadType> {
    if t == seq![0x49u8, 0x57u8, 0x41u8, 0x44u8] {
        Some(WadType::IWAD)
    } else if t == seq![0x50u8, 0x57u8, 0x41u8, 0x44u8] {
        Some(WadType::PWAD)
    } else {
        None
    }
}

/// The printable name of an accepted name field.
pub open spec fn name_text(field: Seq<u8>) -> Seq<char> {
    ascii_text(trim_nuls(field))
}

/// The outcome of reading the directory entry at byte `pos` of `d`: its
/// offset, its size, then its name field, each checked as soon as it is
/// read.
pub open spec fn entry_verdict(d: Seq<u8>, pos: int) -> Result<(Seq<char>, Lump), DecodeError> {
    let n = d.len() as int;
    if pos + 4 > n {
        Err(DecodeError::UnexpectedEof)
    } else if field_i32(d, pos) < 0 {
        Err(DecodeError::Format(FormatError::NegativeLumpStart))
    } else if field_i32(d, pos) > n {
        Err(DecodeError::Format(FormatError::LumpStartTooLarge))
    } else if pos + 8 > n {
        Err(DecodeError::UnexpectedEof)
    } else if field_i32(d, pos + 4) < 0 {
        Err(DecodeError::Format(FormatError::NegativeLumpSize))
    } else if field_i32(d, pos) + field_i32(d, pos + 4) > n {
        Err(DecodeError::Format(FormatError::LumpSizeTooLarge))
    } else if pos + 16 > n {
        Err(DecodeError::UnexpectedEof)
    } else {
        let field = d.subrange(pos + 8, pos + 16);
        match lump_name_verdict(field) {
            Err(e) => Err(DecodeError::Format(e)),
            Ok(_) => Ok(
                (
                    name_text(field),
                    Lump {
                        file_offset: field_i32(d, pos) as i32,
                        size: field_i32(d, pos + 4) as i32,
                    },
                ),
            ),
        }
    }
}

/// The outcome of reading the first `count` directory entries, which
/// start at byte `start` of `d` and take sixteen bytes each; the first
/// entry that fails decides.
pub open spec fn directory_verdict(d: Seq<u8>, start: int, count: nat) -> Result<
    Seq<(Seq<char>, Lump)>,
    DecodeError,
>
    decreases count,
{
    if count == 0 {
        Ok(Seq::empty())
    } else {
        match directory_verdict(d, start, (count - 1) as nat) {
            Err(e) => Err(e),
            Ok(es) => match entry_verdict(d, start + 16 * (count - 1)) {
                Err(e) => Err(e),
                Ok(en) => Ok(es.push(en)),
            },
        }
    }
}

/// The outcome of decoding the archive `d`: its tag, its entry count and
/// directory start, then each directory entry in turn.
pub open spec fn header_verdict(d: Seq<u8>) -> Result<HeaderView, DecodeError> {
    if d.len() < 4 {
        Err(DecodeError::UnexpectedEof)
    } else if tag_type(d.subrange(0, 4)) is None {
        Err(DecodeError::Format(FormatError::InvalidTag))
    } else if d.len() < 12 {
        Err(DecodeError::UnexpectedEof)
    } else if field_i32(d, 4) < 0 {
        Err(DecodeError::Format(FormatError::NegativeEntryCount))
    } else if field_i32(d, 8) < 0 {
        Err(DecodeError::Format(FormatError::NegativeDirectoryStart))
    } else if field_i32(d, 8) > d.len() {
        Err(DecodeError::Format(FormatError::CannotSeekToDirectory))
    } else {
        match directory_verdict(d, field_i32(d, 8), field_i32(d, 4) as nat) {
            Err(e) => Err(e),
            Ok(es) => Ok(
                HeaderView {
                    wad_type: tag_type(d.subrange(0, 4))->Some_0,
                    directory_entry_count: field_i32(d, 4) as i32,
                    directory_start: field_i32(d, 8) as i32,
                    lumps: es,
                },
            ),
        }
    }
}

/// Once the first `m` entries fail, every longer run fails the same way.
proof fn lemma_directory_error_stays(d: Seq<u8>, start: int, m: nat, count: nat)
    requires
        m <= count,
        directory_verdict(d, start, m) is Err,
    ensures
        directory_verdict(d, start, count) == directory_verdict(d, start, m),
    decreases count,
{
    if count > m {
        lemma_directory_error_stays(d, start, m, (count - 1) as nat);
    }
}

/// Each entry that a successful directory read returns lies within the
/// archive, and there is one per entry read.
proof fn lemma_directory_ok_bounded(d: Seq<u8>, start: int, count: nat)
    requires
        directory_verdict(d, start, count) is Ok,
    ensures
        ({
            let es = directory_verdict(d, start, count)->Ok_0;
            &&& es.len() == count
            &&& forall|i: int|
                0 <= i < es.len() ==> {
                    let l = (#[trigger] es[i]).1;
                    0 <= l.file_offset && 0 <= l.size && l.file_offset + l.size <= d.len()
                }
        }),
    decreases count,
{
    if count > 0 {
        lemma_directory_ok_bounded(d, start, (count - 1) as nat);
    }
}

/// Every header that decodes from an archive is consistent with its size:
/// counts and offsets are non-negative, the directory starts within the
/// archive, there is one entry per counted lump, and each lump lies
/// within the archive.
pub proof fn lemma_decoded_header_wf(d: Seq<u8>)
    requires
        header_verdict(d) is Ok,
    ensures
        header_verdict(d)->Ok_0.wf(d.len() as int),
{
    lemma_directory_ok_bounded(d, field_i32(d, 8), field_i32(d, 4) as nat);
}

/// An archive whose first four bytes are neither `IWAD` nor `PWAD` is
/// rejected for its tag, whatever follows.
pub proof fn lemma_bad_tag_rejected(d: Seq<u8>)
    requires
        d.len() >= 4,
        d.subrange(0, 4) != seq![0x49u8, 0x57u8, 0x41u8, 0x44u8],
        d.subrange(0, 4) != seq![0x50u8, 0x57u8, 0x41u8, 0x44u8],
    ensures
        header_verdict(d) == Err::<HeaderView, _>(DecodeError::Format(FormatError::InvalidTag)),
{
}

/// A well-formed header that counts no entries decodes to an empty
/// directory, wherever within the archive its directory start points.
pub proof fn lemma_empty_directory(d: Seq<u8>)
    requires
        d.len() >= 12,
        tag_type(d.subrange(0, 4)) is Some,
        field_i32(d, 4) == 0,
        0 <= field_i32(d, 8) <= d.len(),
    ensures
        header_verdict(d) is Ok,
        header_verdict(d)->Ok_0.wad_type == tag_type(d.subrange(0, 4))->Some_0,
        header_verdict(d)->Ok_0.directory_entry_count == 0,
        header_verdict(d)->Ok_0.directory_start == field_i32(d, 8),
        header_verdict(d)->Ok_0.lumps.len() == 0,
{
}

/// A directory entry whose data would run past the end of the archive
/// means that no header is returned; where the entries before it pass and
/// its offset and size are each in range, the error is the size bound.
pub proof fn lemma_lump_past_end_rejected(d: Seq<u8>, i: nat)
    requires
        d.len() >= 12,
        tag_type(d.subrange(0, 4)) is Some,
        i < field_i32(d, 4),
        0 <= field_i32(d, 8) <= d.len(),
        field_i32(d, 8) + 16 * i + 8 <= d.len(),
        field_i32(d, field_i32(d, 8) + 16 * i) + field_i32(d, field_i32(d, 8) + 16 * i + 4)
            > d.len(),
    ensures
        header_verdict(d) is Err,
        ({
            let pos = field_i32(d, 8) + 16 * i;
            directory_verdict(d, field_i32(d, 8), i) is Ok && 0 <= field_i32(d, pos) <= d.len()
                && 0 <= field_i32(d, pos + 4)
        }) ==> header_verdict(d) == Err::<HeaderView, _>(
            DecodeError::Format(FormatError::LumpSizeTooLarge),
        ),
{
    let start = field_i32(d, 8);
    let count = field_i32(d, 4) as nat;
    assert(directory_verdict(d, start, i + 1) is Err);
    lemma_directory_error_stays(d, start, i + 1, count);
}

/// Reads the four-byte little-endian field at `pos`.
fn field_at(data: &[u8], pos: usize) -> (r: i32)
    requires
        pos + 4 <= data@.len(),
    ensures
        r as int == field_i32(data@, pos as int),
{
    // The slice's length is a `usize`, so `pos + 4` cannot overflow.
    let _n = data.len();
    read_i32_le(slice_subrange(data, pos, pos + 4))
}

/// Reads and checks the directory entry at byte `pos`.
fn read_entry(data: &[u8], pos: usize) -> (r: Result<(String, Lump), DecodeError>)
    requires
        pos <= data@.len(),
    ensures
        match r {
            Ok(e) => entry_verdict(data@, pos as int) == Ok::<_, DecodeError>((e.0@, e.1)),
            Err(e) => entry_verdict(data@, pos as int) == Err::<(Seq<char>, Lump), _>(e),
        },
{
    let n = data.len();
    if n - pos < 4 {
        return Err(DecodeError::UnexpectedEof);
    }
    let lump_ptr = field_at(data, pos);
    if lump_ptr < 0 {
        return Err(DecodeError::Format(FormatError::NegativeLumpStart));
    } else if lump_ptr as usize > n {
        return Err(DecodeError::Format(FormatError::LumpStartTooLarge));
    }
    if n - pos < 8 {
        return Err(DecodeError::UnexpectedEof);
    }
    let lump_size = field_at(data, pos + 4);
    if lump_size < 0 {
        return Err(DecodeError::Format(FormatError::NegativeLumpSize));
    } else if lump_size as usize > n - lump_ptr as usize {
        return Err(DecodeError::Format(FormatError::LumpSizeTooLarge));
    }
    if n - pos < 16 {
        return Err(DecodeError::UnexpectedEof);
    }
    let mut name: [u8; 8] = [0u8; 8];
    let mut j: usize = 0;
    while j < 8
        invariant
            j <= 8,
            pos + 16 <= data@.len(),
            n == data@.len(),
            name@.len() == 8,
            forall|i: int| 0 <= i < j ==> name@[i] == data@[pos + 8 + i],
        decreases 8 - j,
    {
        name[j] = data[pos + 8 + j];
        j += 1;
    }
    let ghost field = data@.subrange(pos + 8, pos + 16);
    assert(name@ =~= field);
    match validate_lump_name(&name) {
        Err(e) => {
            return Err(DecodeError::Format(e));
        },
        Ok(_) => {},
    }
    let mut d: usize = 8;
    assert(name@.subrange(0, 8) =~= name@);
    while d > 0 && name[d - 1] == 0
        invariant
            d <= 8,
            name@.len() == 8,
            trim_nuls(name@.subrange(0, d as int)) == trim_nuls(name@),
        decreases d,
    {
        assert(name@.subrange(0, d as int).drop_last() =~= name@.subrange(0, d - 1));
        d -= 1;
    }
    assert(trim_nuls(name@) == name@.subrange(0, d as int));
    proof {
        lemma_accepted_name_is_ascii(name@, d as int);
    }
    let text = text_lossy(slice_subrange(vstd::array::array_as_slice(&name), 0, d));
    Ok((text, Lump { file_offset: lump_ptr, size: lump_size }))
}

/// Decodes the header and lump directory of the WAD archive `data`.
///
/// The lumps' own bytes are not read, only checked to lie within `data`.
pub fn read_header(data: &[u8]) -> (r: Result<Header, DecodeError>)
    ensures
        match r {
            Ok(h) => header_verdict(data@) == Ok::<_, DecodeError>(h@),
            Err(e) => header_verdict(data@) == Err::<HeaderView, _>(e),
        },
        r is Ok ==> r->Ok_0@.wf(data@.len() as int),
{
    let n = data.len();
    if n < 4 {
        return Err(DecodeError::UnexpectedEof);
    }
    assert(data@.subrange(0, 4) =~= seq![data@[0], data@[1], data@[2], data@[3]]);
    let wad_type = if data[0] == 0x49 && data[1] == 0x57 && data[2] == 0x41 && data[3] == 0x44 {
        WadType::IWAD
    } else if data[0] == 0x50 && data[1] == 0x57 && data[2] == 0x41 && data[3] == 0x44 {
        WadType::PWAD
    } else {
        return Err(DecodeError::Format(FormatError::InvalidTag));
    };
    assert(tag_type(data@.subrange(0, 4)) == Some(wad_type));
    if n < 12 {
        return Err(DecodeError::UnexpectedEof);
    }
    let directory_entry_count = field_at(data, 4);
    let directory_start = field_at(data, 8);
    if directory_entry_count < 0 {
        return Err(DecodeError::Format(FormatError::NegativeEntryCount));
    }
    if directory_start < 0 {
        return Err(DecodeError::Format(FormatError::NegativeDirectoryStart));
    }
    if directory_start as usize > n {
        return Err(DecodeError::Format(FormatError::CannotSeekToDirectory));
    }
    let ghost start = directory_start as int;
    let mut lumps: Vec<(String, Lump)> = Vec::new();
    let mut pos: usize = directory_start as usize;
    let mut i: i32 = 0;
    assert(lumps_view(lumps@) =~= Seq::empty());
    while i < directory_entry_count
        invariant
            0 <= i <= directory_entry_count,
            pos == start + 16 * i,
            pos <= n,
            n == data@.len(),
            n >= 12,
            field_i32(data@, 4) == directory_entry_count,
            field_i32(data@, 8) == start,
            start == directory_start,
            0 <= start <= n,
            tag_type(data@.subrange(0, 4)) == Some(wad_type),
            directory_verdict(data@, start, i as nat) == Ok::<_, DecodeError>(lumps_view(lumps@)),
        decreases directory_entry_count - i,
    {
        match read_entry(data, pos) {
            Err(e) => {
                proof {
                    assert(directory_verdict(data@, start, (i + 1) as nat) == Err::<
                        Seq<(Seq<char>, Lump)>,
                        _,
                    >(e));
                    lemma_directory_error_stays(
                        data@,
                        start,
                        (i + 1) as nat,
                        directory_entry_count as nat,
                    );
                }
                return Err(e);
            },
            Ok(entry) => {
                let ghost before = lumps@;
                lumps.push(entry);
                assert(lumps_view(lumps@) =~= lumps_view(before).push((entry.0@, entry.1)));
            },
        }
        pos = pos + 16;
        i = i + 1;
    }
    proof {
        lemma_decoded_header_wf(data@);
    }
    Ok(
        Header {
            wad_type,
            directory_entry_count,
            directory_start,
            lumps,
        },
    )
}

} // verus!
