use vstd::prelude::*;

verus! {

/// A way in which readable bytes break the structure of a WAD archive.
#[derive(Debug, Clone, Copy, PartialEq, Eq, Structural)]
pub enum FormatError {
    /// The first four bytes are neither `IWAD` nor `PWAD`.
    InvalidTag,
    /// The directory entry count is negative.
    NegativeEntryCount,
    /// The directory start is negative.
    NegativeDirectoryStart,
    /// The directory start lies past the end of the archive.
    CannotSeekToDirectory,
    /// A lump's start offset is negative.
    NegativeLumpStart,
    /// A lump's start offset lies past the end of the archive.
    LumpStartTooLarge,
    /// A lump's size is negative.
    NegativeLumpSize,
    /// A lump's data runs past the end of the archive.
    LumpSizeTooLarge,
    /// A lump name field is all NUL bytes.
    EmptyLumpName,
    /// A lump name field has a non-NUL byte after a NUL byte.
    NonZeroAfterZero,
    /// A lump name field holds a byte that names may not use.
    InvalidCharacter(u8),
}

/// Why decoding an archive failed.
#[derive(Debug, Clone, Copy, PartialEq, Eq, Structural)]
pub enum DecodeError {
    /// The bytes ended before a field that had to be read.
    UnexpectedEof,
    /// The bytes were readable but break the archive's structure.
    Format(FormatError),
}

impl FormatError {
    /// A short description of the violation.
    pub fn reason(&self) -> (r: &'static str)
        ensures
            r@ == match *self {
                FormatError::InvalidTag => "invalid WAD tag"@,
                FormatError::NegativeEntryCount => "directory entry count is negative"@,
                FormatError::NegativeDirectoryStart => "directory start is negative"@,
                FormatError::CannotSeekToDirectory => "cannot seek to directory start"@,
                FormatError::NegativeLumpStart => "lump start pointer is negative"@,
                FormatError::LumpStartTooLarge => "lump start pointer is too large"@,
                FormatError::NegativeLumpSize => "lump size is negative"@,
                FormatError::LumpSizeTooLarge => "lump size is too large"@,
                FormatError::EmptyLumpName => "empty lump name"@,
                FormatError::NonZeroAfterZero => "non-0 after 0 character in lump name"@,
                FormatError::InvalidCharacter(_) => "invalid character in lump name"@,
            },
    {
        match self {
            FormatError::InvalidTag => "invalid WAD tag",
            FormatError::NegativeEntryCount => "directory entry count is negative",
            FormatError::NegativeDirectoryStart => "directory start is negative",
            FormatError::CannotSeekToDirectory => "cannot seek to directory start",
            FormatError::NegativeLumpStart => "lump start pointer is negative",
            FormatError::LumpStartTooLarge => "lump start pointer is too large",
            FormatError::NegativeLumpSize => "lump size is negative",
            FormatError::LumpSizeTooLarge => "lump size is too large",
            FormatError::EmptyLumpName => "empty lump name",
            FormatError::NonZeroAfterZero => "non-0 after 0 character in lump name",
            FormatError::InvalidCharacter(_) => "invalid character in lump name",
        }
    }
}

/// Wraps a structural violation as a decode error.
pub fn mk_err(reason: FormatError) -> (r: DecodeError)
    ensures
        r == DecodeError::Format(reason),
{
    DecodeError::Format(reason)
}

} // verus!
