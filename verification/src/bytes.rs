//! The output of programs, as bytes and as text.

use vstd::prelude::*;
use vstd::utf8::{decode_utf8, valid_utf8};

verus! {

/// What is left of bytes as text when every wrong sequence is replaced by U+FFFD.
pub uninterp spec fn lossy_text(bytes: Seq<u8>) -> Seq<char>;

/// `std::str::from_utf8`: the text that the bytes encode, if they are valid UTF-8.
#[verifier::external_body]
pub(crate) fn utf8_text(bytes: &[u8]) -> (result: Option<&str>)
    ensures
        match result {
            Some(text) => valid_utf8(bytes@) && text@ == decode_utf8(bytes@),
            None => !valid_utf8(bytes@),
        },
{
    match std::str::from_utf8(bytes) {
        Ok(text) => Some(text),
        Err(_) => None,
    }
}

/// `String::from_utf8_lossy`: the text that the bytes encode, with U+FFFD in the place of
/// what is not valid UTF-8. Valid bytes come out unchanged; how many wrong bytes one U+FFFD
/// stands for is left to the standard library, and the result is determined by the bytes.
#[verifier::external_body]
pub(crate) fn text_lossy(bytes: &[u8]) -> (text: String)
    ensures
        text@ == lossy_text(bytes@),
        valid_utf8(bytes@) ==> text@ == decode_utf8(bytes@),
{
    String::from_utf8_lossy(bytes).into_owned()
}

/// The output of a program as text, with U+FFFD in the place of what is not valid UTF-8.
pub fn output_text(bytes: &[u8]) -> (text: String)
    ensures
        text@ == lossy_text(bytes@),
        valid_utf8(bytes@) ==> text@ == decode_utf8(bytes@),
{
    text_lossy(bytes)
}

/// How much of the buffer a read has filled; `None` where the output has ended or failed.
pub fn filled(bytes_read: isize) -> (count: Option<usize>)
    ensures
        count == (if bytes_read <= 0 {
            None
        } else {
            Some(bytes_read as usize)
        }),
{
    if bytes_read <= 0 {
        None
    } else {
        Some(bytes_read as usize)
    }
}

/// The text of a chunk of output that is shown on the screen; a chunk that is not valid UTF-8
/// is not shown.
pub fn mirrored_text(chunk: &[u8]) -> (result: Option<String>)
    ensures
        match result {
            Some(text) => valid_utf8(chunk@) && text@ == decode_utf8(chunk@),
            None => !valid_utf8(chunk@),
        },
{
    match utf8_text(chunk) {
        Some(text) => Some(text.to_string()),
        None => None,
    }
}

} // verus!
