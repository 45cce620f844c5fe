//! The laws of the library, stated over the same spec functions its
//! contracts use.

use vstd::prelude::*;
use vstd::utf8::{
    decode_utf8, decode_utf8_encode_utf8, encode_utf8, encode_utf8_decode_utf8,
    encode_utf8_valid_utf8, valid_utf8, valid_utf8_concat,
};

verus! {

/// Round trip: the encoding of any text is valid UTF-8 and decodes back to
/// exactly that text. Together with the contract of `AStr::try_from_utf8`
/// (which accepts exactly the `N`-byte valid encodings and stores the bytes
/// unchanged) and of `AStr::as_str` (whose result decodes the stored
/// bytes), this says that feeding a text's bytes through the checked
/// constructor succeeds and hands the same text back.
pub proof fn lemma_round_trip(t: Seq<char>)
    ensures
        valid_utf8(encode_utf8(t)),
        decode_utf8(encode_utf8(t)) == t,
{
    encode_utf8_valid_utf8(t);
    encode_utf8_decode_utf8(t);
}

/// Equality delegates to the text view: two valid UTF-8 byte sequences are
/// equal exactly when the texts they decode to are equal. So `==` on
/// fixed-capacity text, which compares the stored bytes, agrees with
/// comparing the texts.
pub proof fn lemma_eq_text(a: Seq<u8>, b: Seq<u8>)
    requires
        valid_utf8(a),
        valid_utf8(b),
    ensures
        (a == b) <==> (decode_utf8(a) == decode_utf8(b)),
{
    decode_utf8_encode_utf8(a);
    decode_utf8_encode_utf8(b);
}

/// Concatenation safety: two valid UTF-8 byte sequences laid end to end are
/// again valid UTF-8. This is the argument that lets `AStr::concat` build
/// its result through the unchecked constructor without re-validation.
pub proof fn lemma_concat_valid(a: Seq<u8>, b: Seq<u8>)
    requires
        valid_utf8(a),
        valid_utf8(b),
    ensures
        valid_utf8(a + b),
{
    valid_utf8_concat(a, b);
}

} // verus!
