//! Text on the wire. Strings travel as UTF-8; the decoder reads them
//! permissively, so that no byte sequence is fatal.

use vstd::prelude::*;
use vstd::utf8::{decode_utf8, encode_utf8, valid_utf8};

verus! {

/// The text that `String::from_utf8_lossy` makes of `bytes`: the bytes read
/// as UTF-8, with a replacement character for each invalid sequence.
pub uninterp spec fn lossy_text(bytes: Seq<u8>) -> Seq<char>;

/// The text that the decoder reads from `bytes`: their UTF-8 decoding where
/// they are valid UTF-8, and the lossy reading otherwise.
pub open spec fn text_of(bytes: Seq<u8>) -> Seq<char> {
    if valid_utf8(bytes) {
        decode_utf8(bytes)
    } else {
        lossy_text(bytes)
    }
}

/// `String::from_utf8_lossy`, made into an owned `String`. The result is a
/// function of the bytes alone; valid UTF-8 is taken over unchanged, so the
/// text's own UTF-8 bytes are then the input.
#[verifier::external_body]
pub(crate) fn from_utf8_lossy(bytes: &[u8]) -> (text: String)
    ensures
        text@ == lossy_text(bytes@),
        valid_utf8(bytes@) ==> encode_utf8(text@) == bytes@,
{
    String::from_utf8_lossy(bytes).into_owned()
}

/// Reads `bytes` as text, permissively.
pub fn read_text(bytes: &[u8]) -> (text: String)
    ensures
        text@ == text_of(bytes@),
{
    let text = from_utf8_lossy(bytes);
    proof {
        if valid_utf8(bytes@) {
            vstd::utf8::encode_utf8_decode_utf8(text@);
        }
    }
    text
}

/// Text written as UTF-8 and read back is the same text.
pub proof fn lemma_text_round_trip(text: Seq<char>)
    ensures
        text_of(encode_utf8(text)) == text,
{
    vstd::utf8::encode_utf8_valid_utf8(text);
    vstd::utf8::encode_utf8_decode_utf8(text);
}

} // verus!
