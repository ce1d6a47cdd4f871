//! Player handles: how a proposed handle is normalised and which handles are
//! accepted.

use vstd::prelude::*;
use vstd::utf8::encode_utf8;

verus! {

/// The most bytes a handle may take.
pub const HANDLE_MAX_BYTES: usize = 32;

/// Why a proposed handle was refused.
#[derive(Clone, Copy, Debug, PartialEq, Eq, Structural)]
pub enum HandleError {
    /// Longer than [`HANDLE_MAX_BYTES`] bytes.
    TooLong,
    /// Holds a character the handle pattern does not allow.
    BadCharacters,
}

/// What `regex` answers when `text` is searched for `pattern`, compiled with
/// letters compared without case.
pub uninterp spec fn regex_match_ignoring_case(pattern: Seq<char>, text: Seq<char>) -> bool;

/// What `str::to_lowercase` gives for a text.
pub uninterp spec fn lower_of(s: Seq<char>) -> Seq<char>;

/// Relies on `regex::RegexBuilder` (`new`, `case_insensitive(true)`, `build`)
/// and `regex::Regex::is_match`: `None` when the pattern does not compile,
/// else whether the text matches; the answer depends on the two texts alone.
#[verifier::external_body]
fn matches_ignoring_case(pattern: &str, text: &str) -> (r: Option<bool>)
    ensures
        r matches Some(b) ==> b == regex_match_ignoring_case(pattern@, text@),
{
    match regex::RegexBuilder::new(pattern).case_insensitive(true).build() {
        Ok(re) => Some(re.is_match(text)),
        Err(_) => None,
    }
}

/// Relies on `str::to_lowercase`: the result depends on the characters alone,
/// and an empty text stays empty.
#[verifier::external_body]
fn lowercase(s: &str) -> (r: String)
    ensures
        r@ == lower_of(s@),
        s@.len() == 0 ==> r@.len() == 0,
{
    s.to_lowercase()
}

/// The handle a player gets for a proposed name: the name in lower case.
pub fn normalize_handle(proposed: &str) -> (r: String)
    ensures
        r@ == lower_of(proposed@),
{
    lowercase(proposed)
}

/// The verdict on a handle of `bytes` bytes, given whether it matches the
/// handle pattern: too long first, then the pattern.
pub open spec fn handle_result(bytes: int, matched: bool) -> Result<(), HandleError> {
    if bytes > HANDLE_MAX_BYTES {
        Err(HandleError::TooLong)
    } else if !matched {
        Err(HandleError::BadCharacters)
    } else {
        Ok(())
    }
}

/// The verdict on `handle` once the pattern match is known.
pub fn handle_verdict(handle: &str, matched: bool) -> (r: Result<(), HandleError>)
    ensures
        r == handle_result(encode_utf8(handle@).len() as usize as int, matched),
{
    if handle.len() > HANDLE_MAX_BYTES {
        Err(HandleError::TooLong)
    } else if !matched {
        Err(HandleError::BadCharacters)
    } else {
        Ok(())
    }
}

/// Checks a handle: at most [`HANDLE_MAX_BYTES`] bytes, and matching
/// `^[a-z\d_.]{1,32}$` with letters compared without case (one to 32
/// letters, digits, `_` or `.`). A pattern that
/// fails to compile accepts nothing.
pub fn check_handle(handle: &str) -> (r: Result<(), HandleError>)
    ensures
        r == handle_result(encode_utf8(handle@).len() as usize as int, regex_match_ignoring_case(r"^[a-z\d_.]{1,32}$"@, handle@))
            || r == Err::<(), HandleError>(HandleError::BadCharacters),
        r is Ok ==> handle_result(encode_utf8(handle@).len() as usize as int, regex_match_ignoring_case(r"^[a-z\d_.]{1,32}$"@, handle@)) is Ok,
{
    if handle.len() > HANDLE_MAX_BYTES {
        return Err(HandleError::TooLong);
    }
    match matches_ignoring_case(r"^[a-z\d_.]{1,32}$", handle) {
        Some(matched) => handle_verdict(handle, matched),
        None => Err(HandleError::BadCharacters),
    }
}

} // verus!
