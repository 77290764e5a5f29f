//! Reading bytes as text without ever failing.

use vstd::prelude::*;
use vstd::utf8::{decode_utf8, valid_utf8};

verus! {

/// The character that stands in for bytes that are no valid text.
pub const REPLACEMENT: char = '\u{FFFD}';

/// What `String::from_utf8_lossy` makes of a byte sequence.
pub uninterp spec fn lossy_decoding(bytes: Seq<u8>) -> Seq<char>;

/// The text that a byte sequence reads as: its decoding where the bytes are
/// valid UTF-8, and else the decoding in which replacement characters stand
/// for the invalid parts.
pub open spec fn lossy_text(bytes: Seq<u8>) -> Seq<char> {
    if valid_utf8(bytes) {
        decode_utf8(bytes)
    } else {
        lossy_decoding(bytes)
    }
}

/// `String::from_utf8_lossy`, with the result owned.
///
/// Trusted: that valid UTF-8 comes back as the text it encodes, that the
/// result for other bytes depends on the bytes alone, and that it then holds
/// at least one U+FFFD.
#[verifier::external_body]
pub(crate) fn from_utf8_lossy(bytes: &[u8]) -> (text: String)
    ensures
        valid_utf8(bytes@) ==> text@ == decode_utf8(bytes@),
        !valid_utf8(bytes@) ==> text@ == lossy_decoding(bytes@) && text@.contains(REPLACEMENT),
{
    String::from_utf8_lossy(bytes).into_owned()
}

/// Reads bytes as text, putting U+FFFD in place of whatever is no valid
/// UTF-8.
pub fn decode_lossy(bytes: &Vec<u8>) -> (text: String)
    ensures
        text@ == lossy_text(bytes@),
        !valid_utf8(bytes@) ==> text@.contains(REPLACEMENT),
{
    from_utf8_lossy(bytes.as_slice())
}

} // verus!
