use vstd::prelude::*;

use crate::bytes::is_ascii;
use crate::error::FormatError;

verus! {

/// Bytes a lump name may hold before its NUL padding.
pub open spec fn is_name_char(c: u8) -> bool {
    (0x41 <= c && c <= 0x5a)  // 'A'..='Z'
    || (0x30 <= c && c <= 0x39)  // '0'..='9'
    || c == 0x5b  // '['
    || c == 0x5d  // ']'
    || c == 0x2d  // '-'
    || c == 0x5f  // '_'
    || c == 0x5c  // '\\'
}

/// Index of the first byte of `s` at or after `i` that is not a name
/// character; `s.len()` when there is none.
pub open spec fn first_stop_from(s: Seq<u8>, i: int) -> int
    decreases s.len() - i,
{
    if i < 0 || i >= s.len() {
        s.len() as int
    } else if !is_name_char(s[i]) {
        i
    } else {
        first_stop_from(s, i + 1)
    }
}

/// Index of the first byte of `s` that is not a name character.
pub open spec fn first_stop(s: Seq<u8>) -> int {
    first_stop_from(s, 0)
}

/// Whether every byte of `s` from index `i` on is NUL.
pub open spec fn nul_from(s: Seq<u8>, i: int) -> bool {
    forall|j: int| i <= j < s.len() ==> s[j] == 0
}

/// The verdict on a lump name field: the field is read left to right and
/// the first byte that is not a name character decides.
pub open spec fn lump_name_verdict(s: Seq<u8>) -> Result<(), FormatError> {
    let k = first_stop(s);
    if k >= s.len() {
        Ok(())
    } else if s[k] != 0 {
        Err(FormatError::InvalidCharacter(s[k]))
    } else if k == 0 {
        Err(FormatError::EmptyLumpName)
    } else if nul_from(s, k) {
        Ok(())
    } else {
        Err(FormatError::NonZeroAfterZero)
    }
}

proof fn lemma_first_stop_from(s: Seq<u8>, i: int)
    requires
        0 <= i <= s.len(),
    ensures
        i <= first_stop_from(s, i) <= s.len(),
        forall|j: int| i <= j < first_stop_from(s, i) ==> is_name_char(#[trigger] s[j]),
        first_stop_from(s, i) < s.len() ==> !is_name_char(s[first_stop_from(s, i)]),
    decreases s.len() - i,
{
    if i < s.len() && is_name_char(s[i]) {
        lemma_first_stop_from(s, i + 1);
    }
}

/// The first stop is the least index whose byte is not a name character.
pub proof fn lemma_first_stop(s: Seq<u8>)
    ensures
        0 <= first_stop(s) <= s.len(),
        forall|j: int| 0 <= j < first_stop(s) ==> is_name_char(#[trigger] s[j]),
        first_stop(s) < s.len() ==> !is_name_char(s[first_stop(s)]),
{
    lemma_first_stop_from(s, 0);
}

/// A field of name characters followed by NUL padding, with at least one
/// character, is accepted.
pub proof fn lemma_padded_name_accepted(s: Seq<u8>, k: int)
    requires
        s.len() == 8,
        1 <= k <= 8,
        forall|j: int| 0 <= j < k ==> is_name_char(#[trigger] s[j]),
        forall|j: int| k <= j < 8 ==> #[trigger] s[j] == 0,
    ensures
        lump_name_verdict(s) == Ok::<(), FormatError>(()),
{
    lemma_first_stop(s);
    let f = first_stop(s);
    if f < k {
        assert(is_name_char(s[f]));
    } else if f > k {
        assert(is_name_char(s[k]));
    }
    assert(f == k);
}

/// A field of NUL bytes only is rejected as an empty name.
pub proof fn lemma_all_nul_rejected(s: Seq<u8>)
    requires
        s.len() == 8,
        forall|j: int| 0 <= j < 8 ==> #[trigger] s[j] == 0,
    ensures
        lump_name_verdict(s) == Err::<(), FormatError>(FormatError::EmptyLumpName),
{
    lemma_first_stop(s);
    if first_stop(s) > 0 {
        assert(is_name_char(s[0]));
    }
}

/// A field with a non-NUL byte somewhere after a NUL byte is rejected,
/// whatever comes before the first NUL.
pub proof fn lemma_nonzero_after_nul_rejected(s: Seq<u8>, i: int, j: int)
    requires
        s.len() == 8,
        0 <= i < j < 8,
        s[i] == 0,
        s[j] != 0,
    ensures
        lump_name_verdict(s) is Err,
{
    lemma_first_stop(s);
    let f = first_stop(s);
    if f > i {
        assert(is_name_char(s[i]));
    }
    if f > 0 && s[f] == 0 {
        assert(!nul_from(s, f)) by {
            assert(s[j] != 0);
        }
    }
}

/// A field holding a byte that is neither a name character nor NUL is
/// rejected; where only name characters come before that byte, the
/// rejection names it.
pub proof fn lemma_invalid_byte_rejected(s: Seq<u8>, i: int)
    requires
        s.len() == 8,
        0 <= i < 8,
        !is_name_char(s[i]),
        s[i] != 0,
    ensures
        lump_name_verdict(s) is Err,
        (forall|j: int| 0 <= j < i ==> is_name_char(#[trigger] s[j])) ==> lump_name_verdict(s)
            == Err::<(), FormatError>(FormatError::InvalidCharacter(s[i])),
{
    lemma_first_stop(s);
    let f = first_stop(s);
    if f > i {
        assert(is_name_char(s[i]));
    }
    if f > 0 && s[f] == 0 {
        assert(!nul_from(s, f)) by {
            assert(s[i] != 0);
        }
    }
    if forall|j: int| 0 <= j < i ==> is_name_char(#[trigger] s[j]) {
        if f < i {
            assert(is_name_char(s[f]));
        }
    }
}

/// A name field without its trailing NUL bytes.
pub open spec fn trim_nuls(s: Seq<u8>) -> Seq<u8>
    decreases s.len(),
{
    if s.len() > 0 && s.last() == 0 {
        trim_nuls(s.drop_last())
    } else {
        s
    }
}

/// An accepted name field holds ASCII bytes only, and so does every prefix
/// of it.
pub proof fn lemma_accepted_name_is_ascii(s: Seq<u8>, d: int)
    requires
        lump_name_verdict(s) is Ok,
        0 <= d <= s.len(),
    ensures
        is_ascii(s.subrange(0, d)),
{
    lemma_first_stop(s);
    assert forall|i: int| 0 <= i < d implies #[trigger] s.subrange(0, d)[i] < 128 by {
        if i < first_stop(s) {
            assert(is_name_char(s[i]));
        } else {
            assert(s[i] == 0);
        }
    }
}

/// Checks a lump name field: upper-case letters, digits and `[ ] - _ \`,
/// then NUL padding to the end, with at least one character before it.
pub fn validate_lump_name(name: &[u8; 8]) -> (r: Result<(), FormatError>)
    ensures
        r == lump_name_verdict(name@),
{
    proof {
        lemma_first_stop(name@);
    }
    let mut c: usize = 0;
    while c < 8
        invariant
            c <= 8,
            name@.len() == 8,
            forall|j: int| 0 <= j < c ==> is_name_char(#[trigger] name@[j]),
            0 <= first_stop(name@) <= 8,
            forall|j: int| 0 <= j < first_stop(name@) ==> is_name_char(#[trigger] name@[j]),
            first_stop(name@) < 8 ==> !is_name_char(name@[first_stop(name@)]),
        decreases 8 - c,
    {
        let ch = name[c];
        if is_name_byte(ch) {
            c += 1;
        } else {
            assert(first_stop(name@) == c as int);
            if ch != 0 {
                return Err(FormatError::InvalidCharacter(ch));
            }
            if c == 0 {
                return Err(FormatError::EmptyLumpName);
            }
            let mut i: usize = c;
            while i < 8
                invariant
                    c <= i <= 8,
                    name@.len() == 8,
                    forall|j: int| c <= j < i ==> name@[j] == 0,
                    0 < c < 8,
                    first_stop(name@) == c,
                    name@[c as int] == 0,
                decreases 8 - i,
            {
                if name[i] != 0 {
                    assert(!nul_from(name@, c as int)) by {
                        assert(name@[i as int] != 0);
                    }
                    return Err(FormatError::NonZeroAfterZero);
                }
                i += 1;
            }
            return Ok(());
        }
    }
    assert(first_stop(name@) == 8);
    Ok(())
}

fn is_name_byte(c: u8) -> (r: bool)
    ensures
        r == is_name_char(c),
{
    (0x41 <= c && c <= 0x5a) || (0x30 <= c && c <= 0x39) || c == 0x5b || c == 0x5d || c == 0x2d
        || c == 0x5f || c == 0x5c
}

} // verus!
