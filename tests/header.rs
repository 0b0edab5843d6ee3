use wadfile::{mk_err, read_header, DecodeError, FormatError, Lump, WadType};

fn le(v: i32) -> [u8; 4] {
    v.to_le_bytes()
}

fn archive(tag: &[u8; 4], count: i32, start: i32) -> Vec<u8> {
    let mut d = Vec::new();
    d.extend_from_slice(tag);
    d.extend_from_slice(&le(count));
    d.extend_from_slice(&le(start));
    d
}

fn entry(d: &mut Vec<u8>, offset: i32, size: i32, name: &[u8; 8]) {
    d.extend_from_slice(&le(offset));
    d.extend_from_slice(&le(size));
    d.extend_from_slice(name);
}

fn format_err(d: &[u8]) -> FormatError {
    match read_header(d) {
        Err(DecodeError::Format(e)) => e,
        other => panic!("expected a format error, got {:?}", other),
    }
}

#[test]
fn single_entry_pwad_decodes() {
    let mut d = archive(b"PWAD", 1, 12);
    entry(&mut d, 12, 0, b"E1M1\0\0\0\0");
    assert_eq!(d.len(), 28);
    let h = read_header(&d).unwrap();
    assert_eq!(h.wad_type, WadType::PWAD);
    assert_eq!(h.directory_entry_count, 1);
    assert_eq!(h.directory_start, 12);
    assert_eq!(h.lumps.len(), 1);
    assert_eq!(h.lumps[0].0, "E1M1");
    assert_eq!(h.lumps[0].1, Lump { file_offset: 12, size: 0 });
}

#[test]
fn magic_only_is_truncated() {
    assert_eq!(read_header(b"IWAD").unwrap_err(), DecodeError::UnexpectedEof);
    assert_eq!(read_header(b"PWAD").unwrap_err(), DecodeError::UnexpectedEof);
}

#[test]
fn short_inputs_are_truncated() {
    assert_eq!(read_header(b"").unwrap_err(), DecodeError::UnexpectedEof);
    assert_eq!(read_header(b"IWA").unwrap_err(), DecodeError::UnexpectedEof);
    let d = archive(b"IWAD", 0, 12);
    assert_eq!(read_header(&d[..8]).unwrap_err(), DecodeError::UnexpectedEof);
    assert_eq!(read_header(&d[..11]).unwrap_err(), DecodeError::UnexpectedEof);
}

#[test]
fn bad_tag_is_rejected() {
    assert_eq!(format_err(&archive(b"WAD2", 0, 12)), FormatError::InvalidTag);
    assert_eq!(format_err(&archive(b"iwad", 0, 12)), FormatError::InvalidTag);
    assert_eq!(format_err(b"XXXX"), FormatError::InvalidTag);
}

#[test]
fn empty_directory_decodes() {
    let h = read_header(&archive(b"IWAD", 0, 12)).unwrap();
    assert_eq!(h.wad_type, WadType::IWAD);
    assert_eq!(h.directory_entry_count, 0);
    assert_eq!(h.directory_start, 12);
    assert!(h.lumps.is_empty());
    let h = read_header(&archive(b"PWAD", 0, 5)).unwrap();
    assert_eq!(h.directory_start, 5);
    assert!(h.lumps.is_empty());
    let h = read_header(&archive(b"PWAD", 0, 0)).unwrap();
    assert_eq!(h.directory_start, 0);
}

#[test]
fn negative_count_and_start_are_rejected() {
    assert_eq!(format_err(&archive(b"IWAD", -1, 12)), FormatError::NegativeEntryCount);
    assert_eq!(format_err(&archive(b"IWAD", 0, -12)), FormatError::NegativeDirectoryStart);
    assert_eq!(format_err(&archive(b"IWAD", -1, -1)), FormatError::NegativeEntryCount);
}

#[test]
fn directory_past_end_cannot_be_reached() {
    assert_eq!(format_err(&archive(b"IWAD", 0, 13)), FormatError::CannotSeekToDirectory);
}

#[test]
fn multi_byte_fields_are_little_endian() {
    let mut d = archive(b"PWAD", 1, 0x0100);
    d.resize(0x0100, 0);
    entry(&mut d, 0x0102, 0x0e, b"ARCHVILE");
    assert_eq!(d.len(), 0x0110);
    let h = read_header(&d).unwrap();
    assert_eq!(h.directory_start, 256);
    assert_eq!(h.lumps[0].0, "ARCHVILE");
    assert_eq!(h.lumps[0].1, Lump { file_offset: 258, size: 14 });
}

#[test]
fn lump_past_end_is_rejected() {
    let mut d = archive(b"PWAD", 1, 12);
    entry(&mut d, 10, 100, b"E1M1\0\0\0\0");
    assert_eq!(format_err(&d), FormatError::LumpSizeTooLarge);
    let mut d = archive(b"PWAD", 1, 12);
    entry(&mut d, 28, 1, b"E1M1\0\0\0\0");
    assert_eq!(format_err(&d), FormatError::LumpSizeTooLarge);
    let mut d = archive(b"PWAD", 1, 12);
    entry(&mut d, i32::MAX, i32::MAX, b"E1M1\0\0\0\0");
    assert_eq!(format_err(&d), FormatError::LumpStartTooLarge);
}

#[test]
fn lump_fitting_exactly_is_accepted() {
    let mut d = archive(b"PWAD", 1, 12);
    entry(&mut d, 0, 28, b"E1M1\0\0\0\0");
    let h = read_header(&d).unwrap();
    assert_eq!(h.lumps[0].1, Lump { file_offset: 0, size: 28 });
}

#[test]
fn bad_lump_fields_are_rejected() {
    let mut d = archive(b"PWAD", 1, 12);
    entry(&mut d, -1, 0, b"E1M1\0\0\0\0");
    assert_eq!(format_err(&d), FormatError::NegativeLumpStart);
    let mut d = archive(b"PWAD", 1, 12);
    entry(&mut d, 29, 0, b"E1M1\0\0\0\0");
    assert_eq!(format_err(&d), FormatError::LumpStartTooLarge);
    let mut d = archive(b"PWAD", 1, 12);
    entry(&mut d, 0, -5, b"E1M1\0\0\0\0");
    assert_eq!(format_err(&d), FormatError::NegativeLumpSize);
}

#[test]
fn bad_lump_names_fail_the_whole_header() {
    let mut d = archive(b"PWAD", 2, 12);
    entry(&mut d, 0, 0, b"E1M1\0\0\0\0");
    entry(&mut d, 0, 0, b"\0\0\0\0\0\0\0\0");
    assert_eq!(format_err(&d), FormatError::EmptyLumpName);
    let mut d = archive(b"PWAD", 1, 12);
    entry(&mut d, 0, 0, b"e1m1\0\0\0\0");
    assert_eq!(format_err(&d), FormatError::InvalidCharacter(b'e'));
    let mut d = archive(b"PWAD", 1, 12);
    entry(&mut d, 0, 0, b"DEMO3\0\0S");
    assert_eq!(format_err(&d), FormatError::NonZeroAfterZero);
}

#[test]
fn truncated_directory_is_an_io_failure() {
    let mut d = archive(b"IWAD", 2, 12);
    entry(&mut d, 0, 0, b"E1M1\0\0\0\0");
    assert_eq!(read_header(&d).unwrap_err(), DecodeError::UnexpectedEof);
    d.extend_from_slice(&le(0));
    d.extend_from_slice(&le(0));
    d.extend_from_slice(b"E1M");
    assert_eq!(read_header(&d).unwrap_err(), DecodeError::UnexpectedEof);
}

#[test]
fn duplicate_names_are_kept_in_order() {
    let mut d = archive(b"IWAD", 3, 12);
    entry(&mut d, 0, 4, b"THINGS\0\0");
    entry(&mut d, 4, 8, b"THINGS\0\0");
    entry(&mut d, 12, 1, b"MAP01\0\0\0");
    let h = read_header(&d).unwrap();
    assert_eq!(h.directory_entry_count, 3);
    let names: Vec<&str> = h.lumps.iter().map(|e| e.0.as_str()).collect();
    assert_eq!(names, vec!["THINGS", "THINGS", "MAP01"]);
    assert_eq!(h.lumps[1].1, Lump { file_offset: 4, size: 8 });
}

#[test]
fn error_helpers() {
    assert_eq!(mk_err(FormatError::InvalidTag), DecodeError::Format(FormatError::InvalidTag));
    assert_eq!(FormatError::InvalidTag.reason(), "invalid WAD tag");
    assert_eq!(FormatError::InvalidCharacter(b'a').reason(), "invalid character in lump name");
}
