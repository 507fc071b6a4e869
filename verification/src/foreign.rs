//! Functions of the standard library that are taken as they are: each one is
//! called in one place, and its contract is what the rest relies on.
use vstd::prelude::*;
use vstd::utf8::*;

use crate::chars;

verus! {

/// How `Utf8Error` describes what is wrong with bytes that are no UTF-8.
pub uninterp spec fn utf8_complaint(bytes: Seq<u8>) -> Seq<char>;

/// The text that `String::from_utf8_lossy` makes of bytes.
pub uninterp spec fn lossy(bytes: Seq<u8>) -> Seq<char>;

/// The text of `Debug` for a string: in quotes, with escapes.
pub uninterp spec fn debug_quoted(s: Seq<char>) -> Seq<char>;

/// Unicode's `Alphabetic` property or a numeric general category.
pub uninterp spec fn unicode_alphanumeric(c: char) -> bool;

/// `std::str::from_utf8`: the text that the bytes encode when they are valid
/// UTF-8, and a description of the first fault when they are not.
#[verifier::external_body]
pub(crate) fn utf8_text(bytes: &[u8]) -> (r: Result<&str, String>)
    ensures
        match r {
            Ok(s) => valid_utf8(bytes@) && s@ == decode_utf8(bytes@),
            Err(e) => !valid_utf8(bytes@) && e@ == utf8_complaint(bytes@),
        },
{
    std::str::from_utf8(bytes).map_err(|e| e.to_string())
}

/// `String::from_utf8_lossy`: the text that the bytes encode when they are valid
/// UTF-8. What it makes of other bytes has a name only.
#[verifier::external_body]
pub(crate) fn lossy_text(bytes: &[u8]) -> (r: String)
    ensures
        r@ == lossy(bytes@),
        valid_utf8(bytes@) ==> r@ == decode_utf8(bytes@),
{
    String::from_utf8_lossy(bytes).into_owned()
}

/// The `Debug` form of a string, by `format!`. Which characters it escapes has
/// a name only.
#[verifier::external_body]
pub(crate) fn debug_text(s: &str) -> (r: String)
    ensures
        r@ == debug_quoted(s@),
{
    format!("{s:?}")
}

/// `char::is_alphanumeric`: a Unicode property that has a name only, beyond
/// ASCII, where it holds of letters and digits.
#[verifier::external_body]
pub(crate) fn is_unicode_alphanumeric(c: char) -> (r: bool)
    ensures
        r == unicode_alphanumeric(c),
        c <= '\u{7f}' ==> r == chars::is_alphanumeric(c),
{
    c.is_alphanumeric()
}

/// `char::from_u32`: the character with a code point, unless the number is a
/// surrogate or too great.
#[verifier::external_body]
pub(crate) fn char_of(n: u32) -> (r: Option<char>)
    ensures
        match r {
            Some(c) => is_scalar(n) && c == n as char,
            None => !is_scalar(n),
        },
{
    char::from_u32(n)
}

}
