//! Content hashing: a 32-byte SHA-256 digest of arbitrary bytes, the
//! `Hashable` capability, and lower-case hex rendering of byte buffers.

use vstd::prelude::*;
use sha2::Digest;

verus! {

use vstd::utf8::encode_utf8;
use crate::ascii::{
    ascii_chars, is_ascii_bytes, lemma_ascii_utf8, bytes_to_string, lemma_encode_utf8_injective,
};

/// A 32-byte digest value.
pub type Hash = [u8; 32];

/// What SHA-256 returns for a byte sequence: a function of the bytes alone.
pub uninterp spec fn sha256_of(bytes: Seq<u8>) -> Seq<u8>;

/// Relies on `sha2::Sha256::digest`: a 32-byte digest that depends on the
/// input bytes alone.
#[verifier::external_body]
fn sha256_digest(bytes: &[u8]) -> (r: Hash)
    ensures
        r@ == sha256_of(bytes@),
{
    sha2::Sha256::digest(bytes).into()
}

/// Anything that can produce a digest of itself. `hash_input` says which
/// bytes of the value are digested.
pub trait Hashable {
    /// The byte content that the digest is computed over.
    spec fn hash_input(&self) -> Seq<u8>;

    /// Calculate the hash of the object.
    fn calc_hash(&self) -> (r: Hash)
        ensures
            r@ == sha256_of(self.hash_input()),
    ;
}

/// Digest of a plain byte buffer.
pub fn obj_hash(object: &[u8]) -> (r: Hash)
    ensures
        r@ == sha256_of(object@),
{
    sha256_digest(object)
}

/// The all-zero sentinel digest, never produced by real input in practice.
pub fn empty_hash() -> (r: Hash)
    ensures
        r@ == Seq::new(32, |_i: int| 0u8),
{
    let r = [0u8; 32];
    proof {
        assert(r@ =~= Seq::new(32, |_i: int| 0u8));
    }
    r
}

/// The ASCII code of the lower-case hex digit for `n`.
pub open spec fn hex_digit_byte(n: u8) -> u8
    recommends
        n < 16,
{
    if n < 10 {
        (0x30 + n) as u8
    } else {
        (0x57 + n) as u8
    }
}

/// Lower-case hex rendering of a byte sequence, two digits per byte, in
/// byte order.
pub open spec fn hex_bytes(bs: Seq<u8>) -> Seq<u8>
    decreases bs.len(),
{
    if bs.len() == 0 {
        seq![]
    } else {
        hex_bytes(bs.drop_last()) + seq![
            hex_digit_byte(bs.last() / 16),
            hex_digit_byte(bs.last() % 16),
        ]
    }
}

pub(crate) fn hex_digit(n: u8) -> (r: u8)
    requires
        n < 16,
    ensures
        r == hex_digit_byte(n),
        r < 0x80,
{
    if n < 10 {
        0x30 + n
    } else {
        0x57 + n
    }
}

/// Hex digits of the byte slice, as bytes, in order.
pub(crate) fn hex_of_slice(buf: &[u8]) -> (r: Vec<u8>)
    ensures
        r@ == hex_bytes(buf@),
        is_ascii_bytes(r@),
{
    let mut out: Vec<u8> = Vec::new();
    let mut i: usize = 0;
    proof {
        assert(buf@.take(0) =~= Seq::<u8>::empty());
        assert(out@ =~= hex_bytes(buf@.take(0)));
    }
    while i < buf.len()
        invariant
            i <= buf@.len(),
            out@ == hex_bytes(buf@.take(i as int)),
            is_ascii_bytes(out@),
        decreases buf@.len() - i,
    {
        let b = buf[i];
        out.push(hex_digit(b / 16));
        out.push(hex_digit(b % 16));
        proof {
            let t = buf@.take(i as int + 1);
            assert(t.drop_last() =~= buf@.take(i as int));
            assert(t.last() == b);
            assert(out@ =~= hex_bytes(t));
        }
        i = i + 1;
    }
    proof {
        assert(buf@.take(buf@.len() as int) =~= buf@);
    }
    out
}

/// Build a `String` from ASCII bytes.
pub(crate) fn ascii_to_string(v: Vec<u8>) -> (r: String)
    requires
        is_ascii_bytes(v@),
    ensures
        r@ == ascii_chars(v@),
{
    proof {
        lemma_ascii_utf8(v@);
    }
    let ghost bytes = v@;
    match bytes_to_string(v) {
        Some(s) => {
            proof {
                lemma_encode_utf8_injective(s@, ascii_chars(bytes));
            }
            s
        },
        None => {
            proof {
                assert(false);
            }
            String::new()
        },
    }
}

/// Convert a hash value to its lower-case hex string.
pub fn hash_to_str(hash: &Hash) -> (r: String)
    ensures
        r@ == ascii_chars(hex_bytes(hash@)),
{
    let hex = hex_of_slice(hash.as_slice());
    ascii_to_string(hex)
}

impl Hashable for String {
    open spec fn hash_input(&self) -> Seq<u8> {
        encode_utf8(self@)
    }

    fn calc_hash(&self) -> (r: Hash) {
        obj_hash(self.as_str().as_bytes())
    }
}

impl Hashable for &str {
    open spec fn hash_input(&self) -> Seq<u8> {
        encode_utf8(self@)
    }

    fn calc_hash(&self) -> (r: Hash) {
        obj_hash(self.as_bytes())
    }
}

} // verus!
