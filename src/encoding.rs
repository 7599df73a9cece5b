//! The check that the input is UTF-8 text.
use vstd::prelude::*;

verus! {

/// Where the valid UTF-8 prefix of `b` ends, when `b` is not valid UTF-8;
/// nothing when it is.
pub uninterp spec fn utf8_error_at(b: Seq<u8>) -> Option<usize>;

/// Relies on `std::str::from_utf8`, which decides whether `b` is valid UTF-8
/// and, when it is not, gives through `Utf8Error::valid_up_to` the length of
/// the longest valid prefix.
#[verifier::external_body]
pub(crate) fn utf8_check(b: &[u8]) -> (r: Option<usize>)
    ensures
        r == utf8_error_at(b@),
{
    match std::str::from_utf8(b) {
        Ok(_) => None,
        Err(e) => Some(e.valid_up_to()),
    }
}

} // verus!
