//! ASCII text helpers shared by the descriptor and hex codecs.
use vstd::prelude::*;
use vstd::utf8::{decode_utf8, encode_utf8, valid_utf8};

verus! {

/// Every byte is a 7-bit ASCII value.
pub open spec fn spec_ascii_bytes(b: Seq<u8>) -> bool {
    forall|i: int| 0 <= i < b.len() ==> b[i] < 128
}

/// The characters that the given bytes stand for, one per byte.
pub open spec fn spec_bytes_to_chars(b: Seq<u8>) -> Seq<char> {
    Seq::new(b.len(), |i: int| b[i] as char)
}

/// Append `c` to `s`.
///
/// Trusted wrapper of `String::push`, which std documents as appending the
/// given `char` to the end of the string; nothing else of the string changes.
#[verifier::external_body]
pub(crate) fn string_push(s: &mut String, c: char)
    ensures
        final(s)@ == old(s)@.push(c),
{
    s.push(c);
}

/// Append `t` to `s`.
///
/// Trusted wrapper of `String::push_str`, which std documents as appending
/// the given string slice to the end of the string; nothing else changes.
#[verifier::external_body]
pub(crate) fn string_push_str(s: &mut String, t: &str)
    ensures
        final(s)@ == old(s)@ + t@,
{
    s.push_str(t);
}

/// ASCII bytes are valid UTF-8 and decode to one character per byte.
pub proof fn lemma_decode_ascii(bytes: Seq<u8>)
    requires
        spec_ascii_bytes(bytes),
    ensures
        valid_utf8(bytes),
        decode_utf8(bytes) == spec_bytes_to_chars(bytes),
    decreases bytes.len(),
{
    if bytes.len() > 0 {
        let b0 = bytes[0];
        assert((b0 & 0x7f) as u32 == b0 as u32) by (bit_vector)
            requires
                b0 < 128,
        ;
        let rest = bytes.subrange(1, bytes.len() as int);
        lemma_decode_ascii(rest);
        assert(vstd::utf8::pop_first_scalar(bytes) =~= rest);
        assert(decode_utf8(bytes) =~= spec_bytes_to_chars(bytes));
    }
}

/// A character sequence whose UTF-8 encoding is all ASCII consists of
/// exactly the characters of those bytes.
pub proof fn lemma_ascii_chars(chars: Seq<char>)
    requires
        spec_ascii_bytes(encode_utf8(chars)),
    ensures
        chars == spec_bytes_to_chars(encode_utf8(chars)),
{
    vstd::utf8::encode_utf8_decode_utf8(chars);
    lemma_decode_ascii(encode_utf8(chars));
}

} // verus!
