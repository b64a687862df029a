//! Facts about ASCII byte sequences seen as UTF-8, and the one trusted
//! conversion from checked bytes back to `String`.

use vstd::prelude::*;

verus! {

use vstd::utf8::*;

/// The characters of an ASCII byte sequence, one per byte.
pub open spec fn ascii_chars(bs: Seq<u8>) -> Seq<char> {
    bs.map(|_i: int, b: u8| b as char)
}

/// Every byte is below 0x80.
pub open spec fn is_ascii_bytes(bs: Seq<u8>) -> bool {
    forall|i: int| 0 <= i < bs.len() ==> bs[i] < 0x80
}

/// An ASCII byte sequence is exactly the UTF-8 encoding of its own characters,
/// and is therefore valid UTF-8.
pub proof fn lemma_ascii_utf8(bs: Seq<u8>)
    requires
        is_ascii_bytes(bs),
    ensures
        encode_utf8(ascii_chars(bs)) == bs,
        valid_utf8(bs),
    decreases bs.len(),
{
    if bs.len() == 0 {
        assert(encode_utf8(ascii_chars(bs)) =~= bs);
    } else {
        let b = bs[0];
        let c = b as char;
        assert(c as u32 == b as u32);
        assert(((b as u32) & 0x7F) as u8 == b) by (bit_vector)
            requires
                b < 0x80,
        ;
        assert(encode_scalar(c as u32) =~= seq![b]);
        lemma_ascii_utf8(bs.drop_first());
        assert(ascii_chars(bs).drop_first() =~= ascii_chars(bs.drop_first()));
        assert(encode_utf8(ascii_chars(bs)) =~= bs);
    }
    encode_utf8_valid_utf8(ascii_chars(bs));
}

/// UTF-8 encoding distributes over concatenation of character sequences.
pub proof fn lemma_encode_utf8_append(a: Seq<char>, b: Seq<char>)
    ensures
        encode_utf8(a + b) == encode_utf8(a) + encode_utf8(b),
    decreases a.len(),
{
    if a.len() == 0 {
        assert(a + b =~= b);
        assert(encode_utf8(a) + encode_utf8(b) =~= encode_utf8(b));
    } else {
        lemma_encode_utf8_append(a.drop_first(), b);
        assert((a + b).drop_first() =~= a.drop_first() + b);
        assert(encode_utf8(a + b) =~= encode_utf8(a) + encode_utf8(b));
    }
}

/// UTF-8 encoding is injective: equal encodings come from equal characters.
pub proof fn lemma_encode_utf8_injective(a: Seq<char>, b: Seq<char>)
    requires
        encode_utf8(a) == encode_utf8(b),
    ensures
        a == b,
{
    encode_utf8_decode_utf8(a);
    encode_utf8_decode_utf8(b);
}

/// The concatenation of two valid UTF-8 byte sequences is valid UTF-8.
pub proof fn lemma_valid_utf8_concat(a: Seq<u8>, b: Seq<u8>)
    requires
        valid_utf8(a),
        valid_utf8(b),
    ensures
        valid_utf8(a + b),
{
    decode_utf8_encode_utf8(a);
    decode_utf8_encode_utf8(b);
    lemma_encode_utf8_append(decode_utf8(a), decode_utf8(b));
    encode_utf8_valid_utf8(decode_utf8(a) + decode_utf8(b));
    assert(valid_utf8(a + b));
}

/// Relies on `String::from_utf8`: it succeeds exactly on valid UTF-8 input and
/// the returned string's byte representation is the input bytes.
#[verifier::external_body]
pub fn bytes_to_string(v: Vec<u8>) -> (r: Option<String>)
    ensures
        r is Some <==> valid_utf8(v@),
        r matches Some(s) ==> encode_utf8(s@) == v@,
{
    match String::from_utf8(v) {
        Ok(s) => Some(s),
        Err(_) => None,
    }
}

} // verus!
