//! Ranges of characters of the text view.

use vstd::prelude::*;

verus! {

/// A range of the characters of the text view.
#[derive(Clone, Copy, Debug, PartialEq, Eq, Structural)]
pub struct TextRange {
    pub location: usize,
    pub length: usize,
}

/// Where new text is put in: behind all of the old.
pub fn insert_range(old_len: usize) -> (range: TextRange)
    ensures
        range.location == old_len,
        range.length == 0,
{
    TextRange { location: old_len, length: 0 }
}

/// The range of the text that was put in, if any was.
pub fn inserted_range(old_len: usize, new_len: usize) -> (result: Option<TextRange>)
    requires
        old_len <= new_len,
    ensures
        match result {
            Some(range) => old_len < new_len && range.location == old_len && range.location
                + range.length == new_len,
            None => old_len == new_len,
        },
{
    if new_len == old_len {
        None
    } else {
        Some(TextRange { location: old_len, length: new_len - old_len })
    }
}

/// The range that is scrolled into view: the last character, if there is any.
pub fn scroll_range(total_len: usize) -> (result: Option<TextRange>)
    ensures
        match result {
            Some(range) => total_len > 0 && range.location == total_len - 1 && range.length == 1,
            None => total_len == 0,
        },
{
    if total_len > 0 {
        Some(TextRange { location: total_len - 1, length: 1 })
    } else {
        None
    }
}

} // verus!
