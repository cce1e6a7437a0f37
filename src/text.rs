//! UTF-8 text of source slices.
use vstd::prelude::*;
use vstd::utf8::*;

verus! {

/// Relies on `std::str::from_utf8`: it succeeds exactly on valid UTF-8, and the
/// text it yields is the characters those bytes encode.
#[verifier::external_body]
pub(crate) fn text_of(bytes: &[u8]) -> (r: Option<String>)
    ensures
        r is Some <==> valid_utf8(bytes@),
        r matches Some(s) ==> s@ == decode_utf8(bytes@),
{
    match std::str::from_utf8(bytes) {
        Ok(s) => Some(s.to_string()),
        Err(_) => None,
    }
}

/// An ASCII byte of valid UTF-8 starts a character.
pub proof fn lemma_ascii_is_boundary(bytes: Seq<u8>, i: int)
    requires
        valid_utf8(bytes),
        0 <= i < bytes.len(),
        bytes[i] <= 0x7f,
    ensures
        is_char_boundary(bytes, i),
{
    is_char_boundary_iff_not_is_continuation_byte(bytes, i);
}

/// The byte after an ASCII byte of valid UTF-8 starts a character (or is the end).
pub proof fn lemma_boundary_after_ascii(bytes: Seq<u8>, i: int)
    requires
        valid_utf8(bytes),
        0 <= i < bytes.len(),
        bytes[i] <= 0x7f,
    ensures
        is_char_boundary(bytes, i + 1),
    decreases bytes.len(),
{
    let w = length_of_first_scalar(bytes);
    let rest = pop_first_scalar(bytes);
    assert(valid_first_scalar(bytes) && valid_utf8(rest));
    if i < w {
        if i > 0 {
            assert(is_continuation_byte(bytes[i]));
        }
        assert(w == 1);
        assert(is_char_boundary(rest, 0));
    } else {
        assert(rest.len() < bytes.len());
        assert(rest[i - w] == bytes[i]);
        lemma_boundary_after_ascii(rest, i - w);
    }
}

/// The bytes between two character boundaries of valid UTF-8 are valid UTF-8.
pub proof fn lemma_valid_between_boundaries(bytes: Seq<u8>, i: int, j: int)
    requires
        valid_utf8(bytes),
        0 <= i <= j <= bytes.len(),
        is_char_boundary(bytes, i),
        is_char_boundary(bytes, j),
    ensures
        valid_utf8(bytes.subrange(i, j)),
    decreases bytes.len(),
{
    if i == 0 {
        valid_utf8_split(bytes, j);
    } else {
        let w = length_of_first_scalar(bytes);
        let rest = pop_first_scalar(bytes);
        assert(valid_first_scalar(bytes) && valid_utf8(rest));
        assert(is_char_boundary(rest, i - w));
        assert(is_char_boundary(rest, j - w));
        assert(rest.len() < bytes.len());
        lemma_valid_between_boundaries(rest, i - w, j - w);
        assert(rest.subrange(i - w, j - w) =~= bytes.subrange(i, j));
    }
}

} // verus!
