//! Byte strings at the boundary: C strings on the way in, UTF-8 on the way out.
use vstd::prelude::*;
use vstd::utf8::*;

verus! {

/// True when some byte of `bytes` is NUL.
pub open spec fn has_nul(bytes: Seq<u8>) -> bool {
    exists|i: int| 0 <= i < bytes.len() && bytes[i] == 0u8
}

/// The C string that holds `bytes`: the bytes followed by one NUL.
pub open spec fn c_string(bytes: Seq<u8>) -> Seq<u8> {
    bytes.push(0u8)
}

/// Looks for a NUL byte.
pub fn contains_nul(bytes: &[u8]) -> (found: bool)
    ensures
        found == has_nul(bytes@),
{
    let mut i: usize = 0;
    while i < bytes.len()
        invariant
            i <= bytes.len(),
            forall|j: int| 0 <= j < i ==> bytes@[j] != 0u8,
        decreases bytes.len() - i,
    {
        if bytes[i] == 0 {
            return true;
        }
        i += 1;
    }
    false
}

/// Builds the C string of `bytes`, which exists exactly when no byte is NUL.
pub fn to_c_string(bytes: &[u8]) -> (out: Option<Vec<u8>>)
    ensures
        out is Some <==> !has_nul(bytes@),
        out matches Some(c) ==> c@ == c_string(bytes@),
{
    if contains_nul(bytes) {
        return None;
    }
    let mut out: Vec<u8> = Vec::new();
    let mut i: usize = 0;
    while i < bytes.len()
        invariant
            i <= bytes.len(),
            out@ == bytes@.subrange(0, i as int),
        decreases bytes.len() - i,
    {
        out.push(bytes[i]);
        i += 1;
        assert(out@ =~= bytes@.subrange(0, i as int));
    }
    out.push(0);
    assert(bytes@.subrange(0, bytes@.len() as int) =~= bytes@);
    Some(out)
}

/// `String::from_utf8` of std, believed and not proved: it gives a text
/// exactly when `bytes` are valid UTF-8, and the text is the one whose UTF-8
/// encoding is `bytes`.
#[verifier::external_body]
fn text_from_utf8(bytes: Vec<u8>) -> (out: Option<String>)
    ensures
        out is Some <==> valid_utf8(bytes@),
        out matches Some(s) ==> encode_utf8(s@) == bytes@,
{
    String::from_utf8(bytes).ok()
}

/// Decodes the bytes of a native string.
pub fn decode_text(bytes: Vec<u8>) -> (out: Option<String>)
    ensures
        out is Some <==> valid_utf8(bytes@),
        out matches Some(s) ==> s@ == decode_utf8(bytes@),
{
    let out = text_from_utf8(bytes);
    proof {
        if out is Some {
            encode_utf8_decode_utf8(out->Some_0@);
        }
    }
    out
}

/// A text that was encoded comes back from its bytes.
pub proof fn lemma_text_round_trip(chars: Seq<char>)
    ensures
        valid_utf8(encode_utf8(chars)),
        decode_utf8(encode_utf8(chars)) == chars,
{
    encode_utf8_valid_utf8(chars);
    encode_utf8_decode_utf8(chars);
}

} // verus!
