//! Text and paths in quotes, with escapes.

use vstd::prelude::*;

verus! {

/// What `{:?}` makes of a text.
pub uninterp spec fn debug_text(text: Seq<char>) -> Seq<char>;

/// What `{:?}` makes of a path.
pub uninterp spec fn debug_path(path: Seq<char>) -> Seq<char>;

/// `format!` with `{:?}` of a `str`: the text in double quotes with its special characters
/// escaped. Which characters those are is left to the standard library; the contract says
/// only that the result is determined by the text.
#[verifier::external_body]
pub(crate) fn quote_text(text: &str) -> (quoted: String)
    ensures
        quoted@ == debug_text(text@),
{
    format!("{:?}", text)
}

/// `format!` with `{:?}` of a `std::path::Path`: the path in double quotes with its special
/// characters escaped. Which characters those are is left to the standard library; the
/// contract says only that the result is determined by the path's text.
#[verifier::external_body]
pub(crate) fn quote_path(path: &str) -> (quoted: String)
    ensures
        quoted@ == debug_path(path@),
{
    format!("{:?}", std::path::Path::new(path))
}

} // verus!
