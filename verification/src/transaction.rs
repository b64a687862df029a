//! The `Transaction` entity: canonical signing content, Ed25519 signing and
//! verification, the chain-continuity check, constructors, and proofs of the
//! tamper-detection and chain laws.

use vstd::prelude::*;

verus! {

use vstd::utf8::encode_utf8;
use vstd::bytes::{spec_u64_to_le_bytes, u64_to_le_bytes, lemma_auto_spec_u64_to_from_le_bytes};
use crate::ed25519::{
    pk_of, sig_of, sig_ok, gen_signing_key, public_key_of, sign_detached, verify_detached,
};
use crate::hash::{Hashable, sha256_of, obj_hash, hex_bytes, ascii_to_string, hex_of_slice};
use crate::ascii::{ascii_chars, lemma_encode_utf8_injective, bytes_to_string};
use crate::b64::{b64_encode, b64_decode};
use crate::json::{
    DecodeError, RawX, decode_tx, json_bytes, emit_bytes, empty_raw, push_wire, p_members,
    skip_ws_x, lemma_decode_emit, lemma_emit_valid, lemma_b64_text_plain,
};
use vstd::slice::slice_to_vec as bytes_of_slice;
use vstd::utf8::{
    decode_utf8, encode_utf8_valid_utf8, encode_utf8_decode_utf8, decode_utf8_encode_utf8,
};

/// Public key bytes.
pub type PubKey = Vec<u8>;

/// Signature bytes: a 64-byte Ed25519 signature followed by the signed
/// canonical content, as libsodium's combined mode lays it out.
pub type Signature = Vec<u8>;

/// Seconds since the Unix epoch.
pub type Timestamp = u64;

/// A 32-byte Ed25519 signing key, owned by the caller between transactions.
pub struct SecretKey {
    pub bytes: Vec<u8>,
}

impl SecretKey {
    /// A well-formed signing key holds exactly 32 bytes.
    pub open spec fn wf(&self) -> bool {
        self.bytes@.len() == 32
    }
}

/// Relies on `std::time::SystemTime::now`: the clock's seconds since the
/// Unix epoch. Aborts only if the clock reports a time before the epoch.
#[verifier::external_body]
pub fn make_timestamp() -> Timestamp {
    let ts = std::time::SystemTime::now()
        .duration_since(std::time::SystemTime::UNIX_EPOCH)
        .expect("failed to make timestamp");
    ts.as_secs()
}

/// Format a byte buffer as its lower-case hex representation.
pub fn buf_to_str(buf: &Vec<u8>) -> (r: String)
    ensures
        r@ == ascii_chars(hex_bytes(buf@)),
{
    let hex = hex_of_slice(buf.as_slice());
    ascii_to_string(hex)
}

/// Mathematical image of a transaction: the field values as sequences.
#[verifier::ext_equal]
pub struct TxView {
    pub id: Seq<char>,
    pub timestamp: u64,
    pub public_key_input: Option<Seq<u8>>,
    pub public_key_output: Seq<u8>,
    pub signature: Seq<u8>,
}

/// One entry in an asset's chain of custody. `public_key_input` is absent
/// exactly on a register (first) transaction.
#[derive(Clone, Debug, PartialEq, Eq)]
pub struct Transaction {
    pub id: String,
    pub timestamp: Timestamp,
    pub pub_key_input: Option<PubKey>,
    pub pub_key_output: PubKey,
    pub signature: Signature,
}

/// The view of an optional byte vector.
pub open spec fn opt_bytes(o: Option<Vec<u8>>) -> Option<Seq<u8>> {
    match o {
        Some(v) => Some(v@),
        None => None,
    }
}

impl View for Transaction {
    type V = TxView;

    open spec fn view(&self) -> TxView {
        TxView {
            id: self.id@,
            timestamp: self.timestamp,
            public_key_input: opt_bytes(self.pub_key_input),
            public_key_output: self.pub_key_output@,
            signature: self.signature@,
        }
    }
}

/// The canonical content that is signed: UTF-8 id bytes, then the timestamp
/// as 8 little-endian bytes, then the input key bytes if present, then the
/// output key bytes.
pub open spec fn content_spec(v: TxView) -> Seq<u8> {
    encode_utf8(v.id) + spec_u64_to_le_bytes(v.timestamp) + (match v.public_key_input {
        Some(k) => k,
        None => Seq::<u8>::empty(),
    }) + v.public_key_output
}

/// The key that must have authorized this transaction: the input key when
/// present (previous owner), else the output key (self-registration).
pub open spec fn authorizing_key_spec(v: TxView) -> Seq<u8> {
    match v.public_key_input {
        Some(k) => k,
        None => v.public_key_output,
    }
}

/// A combined signed message: detached signature followed by the message.
pub open spec fn signed_message(m: Seq<u8>, sk: Seq<u8>) -> Seq<u8> {
    sig_of(m, sk) + m
}

/// A transaction verifies iff its authorizing key has the size of a public
/// key, its signature field holds a 64-byte signature followed by a message,
/// the signature is accepted over that message under the authorizing key,
/// and the message equals the freshly recomputed canonical content.
pub open spec fn verified_spec(v: TxView) -> bool {
    &&& authorizing_key_spec(v).len() == 32
    &&& v.signature.len() >= 64
    &&& sig_ok(v.signature.skip(64), v.signature.take(64), authorizing_key_spec(v))
    &&& v.signature.skip(64) == content_spec(v)
}

/// `v` is a legitimate successor of `prev`: it verifies on its own and its
/// input key equals `prev`'s output key. A register transaction (no input
/// key) is never a successor of anything.
pub open spec fn verify_is_next_spec(v: TxView, prev: TxView) -> bool {
    &&& verified_spec(v)
    &&& match v.public_key_input {
        Some(k) => k == prev.public_key_output,
        None => false,
    }
}

/// Why verification rejected a transaction.
#[derive(Clone, Copy, Debug, PartialEq, Eq, Structural)]
pub enum VerificationError {
    /// The authorizing key bytes do not have the size of a public key.
    BadPublicKey,
    /// The stored signature is not a valid signature under the authorizing key.
    BadSignature,
    /// The signature is valid, but over content that does not match the
    /// transaction's recomputed canonical content.
    ContentMismatch,
}

impl VerificationError {
    /// A human-readable reason.
    pub fn message(&self) -> (r: String)
        ensures
            r@.len() > 0,
    {
        let s: &str = match self {
            VerificationError::BadPublicKey => "could not create public key from input",
            VerificationError::BadSignature => "signature is not valid",
            VerificationError::ContentMismatch => "content does not match the signature",
        };
        proof {
            reveal_strlit("could not create public key from input");
            reveal_strlit("signature is not valid");
            reveal_strlit("content does not match the signature");
        }
        s.to_owned()
    }
}

/// Append all bytes of `src` to `dst`.
pub(crate) fn push_all(dst: &mut Vec<u8>, src: &[u8])
    ensures
        final(dst)@ == old(dst)@ + src@,
{
    let mut i: usize = 0;
    proof {
        assert(dst@ =~= old(dst)@ + src@.take(0));
    }
    while i < src.len()
        invariant
            i <= src@.len(),
            dst@ == old(dst)@ + src@.take(i as int),
        decreases src@.len() - i,
    {
        dst.push(src[i]);
        proof {
            assert(src@.take(i as int + 1) =~= src@.take(i as int) + seq![src@[i as int]]);
            assert(dst@ =~= old(dst)@ + src@.take(i as int + 1));
        }
        i = i + 1;
    }
    proof {
        assert(src@.take(src@.len() as int) =~= src@);
    }
}

/// Byte-for-byte equality of two slices.
pub(crate) fn eq_bytes(a: &[u8], b: &[u8]) -> (r: bool)
    ensures
        r == (a@ == b@),
{
    if a.len() != b.len() {
        return false;
    }
    let mut i: usize = 0;
    while i < a.len()
        invariant
            i <= a@.len(),
            a@.len() == b@.len(),
            forall|j: int| 0 <= j < i ==> a@[j] == b@[j],
        decreases a@.len() - i,
    {
        if a[i] != b[i] {
            return false;
        }
        i = i + 1;
    }
    proof {
        assert(a@ =~= b@);
    }
    true
}

/// Copy of a byte vector.
pub(crate) fn clone_bytes(v: &Vec<u8>) -> (r: Vec<u8>)
    ensures
        r@ == v@,
{
    bytes_of_slice(v.as_slice())
}

impl Transaction {
    /// Build an unsigned transaction with the current time as timestamp.
    pub fn new(id: String, pub_key_input: Option<PubKey>, pub_key_output: PubKey) -> (r:
        Transaction)
        ensures
            r@.id == id@,
            r@.public_key_input == opt_bytes(pub_key_input),
            r@.public_key_output == pub_key_output@,
            r@.signature == Seq::<u8>::empty(),
    {
        Transaction {
            id,
            timestamp: make_timestamp(),
            pub_key_input,
            pub_key_output,
            signature: Vec::new(),
        }
    }

    /// Rebuild a transaction from already-known field values; performs no
    /// signing.
    pub fn from_details(
        id: String,
        timestamp: Timestamp,
        pub_key_input: Option<PubKey>,
        pub_key_output: PubKey,
        signature: Signature,
    ) -> (r: Transaction)
        ensures
            r@ == (TxView {
                id: id@,
                timestamp,
                public_key_input: opt_bytes(pub_key_input),
                public_key_output: pub_key_output@,
                signature: signature@,
            }),
    {
        let r = Transaction { id, timestamp, pub_key_input, pub_key_output, signature };
        proof {
            assert(r@ =~= TxView {
                id: r.id@,
                timestamp: r.timestamp,
                public_key_input: opt_bytes(r.pub_key_input),
                public_key_output: r.pub_key_output@,
                signature: r.signature@,
            });
        }
        r
    }

    /// The canonical content of this transaction as a byte buffer.
    pub fn content_to_u8(&self) -> (r: Vec<u8>)
        ensures
            r@ == content_spec(self@),
    {
        let mut buf: Vec<u8> = Vec::new();
        push_all(&mut buf, self.id.as_str().as_bytes());
        let ts = u64_to_le_bytes(self.timestamp);
        push_all(&mut buf, ts.as_slice());
        match &self.pub_key_input {
            Some(key) => push_all(&mut buf, key.as_slice()),
            None => {},
        }
        push_all(&mut buf, self.pub_key_output.as_slice());
        proof {
            assert(buf@ =~= content_spec(self@));
        }
        buf
    }

    /// Sign this transaction's canonical content with `sk`, storing the
    /// combined signed message in `signature`. All other fields must already
    /// be final, since they are what gets signed. If `sk` is paired with the
    /// authorizing key, the transaction verifies afterwards.
    pub fn sign(&mut self, sk: &SecretKey)
        requires
            sk.wf(),
        ensures
            final(self)@ == (TxView {
                signature: signed_message(content_spec(old(self)@), sk.bytes@),
                ..old(self)@
            }),
            pk_of(sk.bytes@) == authorizing_key_spec(old(self)@) && authorizing_key_spec(
                old(self)@,
            ).len() == 32 ==> verified_spec(final(self)@),
    {
        let content = self.content_to_u8();
        let mut sig = sign_detached(content.as_slice(), sk.bytes.as_slice());
        push_all(&mut sig, content.as_slice());
        self.signature = sig;
        proof {
            assert(self@ =~= (TxView {
                signature: signed_message(content_spec(old(self)@), sk.bytes@),
                ..old(self)@
            }));
            assert(content_spec(self@) =~= content_spec(old(self)@));
            assert(authorizing_key_spec(self@) == authorizing_key_spec(old(self)@));
            assert(self@.signature.take(64) =~= sig_of(content_spec(old(self)@), sk.bytes@));
            assert(self@.signature.skip(64) =~= content_spec(old(self)@));
        }
    }

    /// Verify this transaction: reconstruct the authorizing public key,
    /// check the stored signature, and compare the signed content against
    /// the recomputed canonical content.
    pub fn verify(&self) -> (r: Result<(), VerificationError>)
        ensures
            r is Ok <==> verified_spec(self@),
            (r matches Err(e) && e == VerificationError::BadPublicKey) <==> authorizing_key_spec(
                self@,
            ).len() != 32,
            (r matches Err(e) && e == VerificationError::BadSignature) <==> (
            authorizing_key_spec(self@).len() == 32 && (self@.signature.len() < 64 || !sig_ok(
                self@.signature.skip(64),
                self@.signature.take(64),
                authorizing_key_spec(self@),
            ))),
            (r matches Err(e) && e == VerificationError::ContentMismatch) <==> (
            authorizing_key_spec(self@).len() == 32 && self@.signature.len() >= 64 && sig_ok(
                self@.signature.skip(64),
                self@.signature.take(64),
                authorizing_key_spec(self@),
            ) && self@.signature.skip(64) != content_spec(self@)),
    {
        let key: &Vec<u8> = match &self.pub_key_input {
            Some(k) => k,
            None => &self.pub_key_output,
        };
        if key.len() != 32 {
            return Err(VerificationError::BadPublicKey);
        }
        if self.signature.len() < 64 {
            return Err(VerificationError::BadSignature);
        }
        let (sig, msg) = self.signature.as_slice().split_at(64);
        if !verify_detached(msg, sig, key.as_slice()) {
            return Err(VerificationError::BadSignature);
        }
        let content = self.content_to_u8();
        if !eq_bytes(msg, content.as_slice()) {
            return Err(VerificationError::ContentMismatch);
        }
        Ok(())
    }

    /// Whether this transaction is a legitimate successor of `prev_t`.
    pub fn verify_is_next(&self, prev_t: &Transaction) -> (r: bool)
        ensures
            r == verify_is_next_spec(self@, prev_t@),
    {
        match self.verify() {
            Ok(()) => match &self.pub_key_input {
                Some(key) => eq_bytes(prev_t.pub_key_output.as_slice(), key.as_slice()),
                None => false,
            },
            Err(_) => false,
        }
    }

    /// Build and sign a fresh register transaction for asset `id`: a new key
    /// pair is generated, the new public key becomes the output key, and the
    /// new secret key both signs the transaction and is returned for the
    /// caller to author the next transfer. The result always verifies.
    pub fn debug_make_register(id: String) -> (r: (Transaction, SecretKey))
        ensures
            r.1.wf(),
            r.0@.id == id@,
            r.0@.public_key_input is None,
            r.0@.public_key_output == pk_of(r.1.bytes@),
            r.0@.signature == signed_message(content_spec(r.0@), r.1.bytes@),
            verified_spec(r.0@),
    {
        let sk_bytes = gen_signing_key();
        let pk = public_key_of(sk_bytes.as_slice());
        let sk = SecretKey { bytes: sk_bytes };
        let mut t = Transaction::new(id, None, pk);
        t.sign(&sk);
        (t, sk)
    }

    /// Build and sign a fresh transfer transaction continuing `t_prev`: the
    /// input key is `t_prev`'s output key, the output key is freshly
    /// generated, and the signature is made with the *previous* secret key,
    /// proving the previous owner's consent. When `sk_prev` is indeed paired
    /// with `t_prev`'s output key, the result verifies and is a legitimate
    /// successor of `t_prev`.
    pub fn debug_make_transfer(t_prev: &Transaction, sk_prev: &SecretKey) -> (r: (
        Transaction,
        SecretKey,
    ))
        requires
            sk_prev.wf(),
        ensures
            r.1.wf(),
            r.0@.id == t_prev@.id,
            r.0@.public_key_input == Some(t_prev@.public_key_output),
            r.0@.public_key_output == pk_of(r.1.bytes@),
            r.0@.signature == signed_message(content_spec(r.0@), sk_prev.bytes@),
            pk_of(sk_prev.bytes@) == t_prev@.public_key_output && t_prev@.public_key_output.len()
                == 32 ==> verified_spec(r.0@) && verify_is_next_spec(r.0@, t_prev@),
    {
        let sk_bytes = gen_signing_key();
        let pk = public_key_of(sk_bytes.as_slice());
        let sk_new = SecretKey { bytes: sk_bytes };
        let mut t = Transaction {
            id: self_id_clone(t_prev),
            timestamp: make_timestamp(),
            pub_key_input: Some(clone_bytes(&t_prev.pub_key_output)),
            pub_key_output: pk,
            signature: Vec::new(),
        };
        t.sign(sk_prev);
        (t, sk_new)
    }

    /// The fixed, fully deterministic genesis register transaction: asset id
    /// `"GENESIS"`, timestamp `0`, key pair derived from the all-zero seed.
    /// Every invocation yields the same field values, so two invocations
    /// agree on id, timestamp, output key bytes and signature bytes.
    pub fn make_genesis() -> (r: (Transaction, SecretKey))
        ensures
            r.1.bytes@ == zero_seed(),
            r.1.wf(),
            r.0@ == genesis_view(),
            verified_spec(genesis_view()),
    {
        let mut seed: Vec<u8> = Vec::new();
        let mut i: usize = 0;
        while i < 32
            invariant
                i <= 32,
                seed@ =~= Seq::new(i as nat, |_j: int| 0u8),
            decreases 32 - i,
        {
            seed.push(0u8);
            proof {
                assert(seed@ =~= Seq::new(i as nat + 1, |_j: int| 0u8));
            }
            i = i + 1;
        }
        proof {
            assert(seed@ =~= zero_seed());
        }
        let pk = public_key_of(seed.as_slice());
        let sk = SecretKey { bytes: seed };
        let mut t = Transaction {
            id: "GENESIS".to_owned(),
            timestamp: 0u64,
            pub_key_input: None,
            pub_key_output: pk,
            signature: Vec::new(),
        };
        proof {
            assert(t@ =~= genesis_base());
        }
        t.sign(&sk);
        proof {
            assert(t@ =~= genesis_view());
        }
        (t, sk)
    }

    /// Whether this transaction has an input key (is a transfer).
    pub fn has_input(&self) -> (r: bool)
        ensures
            r == (self@.public_key_input is Some),
    {
        self.pub_key_input.is_some()
    }

    /// The id of the transacted asset.
    pub fn get_id(&self) -> (r: &String)
        ensures
            r@ == self@.id,
    {
        &self.id
    }

    /// Replace the asset id. Mutating a signed transaction invalidates its
    /// signature; this exists to build tampering scenarios.
    pub fn set_id(&mut self, id: &str)
        ensures
            final(self)@ == (TxView { id: id@, ..old(self)@ }),
    {
        self.id = id.to_owned();
        proof {
            assert(self@ =~= (TxView { id: id@, ..old(self)@ }));
        }
    }

    /// The construction timestamp, seconds since the Unix epoch.
    pub fn get_timestamp(&self) -> (r: u64)
        ensures
            r == self@.timestamp,
    {
        self.timestamp
    }

    /// The input public key, absent on a register transaction.
    pub fn get_public_key_input(&self) -> (r: &Option<PubKey>)
        ensures
            opt_bytes(*r) == self@.public_key_input,
    {
        &self.pub_key_input
    }

    /// The output public key: the holder after this transaction.
    pub fn get_public_key_output(&self) -> (r: &PubKey)
        ensures
            r@ == self@.public_key_output,
    {
        &self.pub_key_output
    }

    /// The stored combined signed message.
    pub fn get_signature(&self) -> (r: &Signature)
        ensures
            r@ == self@.signature,
    {
        &self.signature
    }
}


impl Transaction {
    /// Render this transaction as its JSON wire text: the five fields as one
    /// JSON object, byte fields in standard base64. Encoding always succeeds
    /// for an in-memory transaction, and decoding the produced text yields
    /// this transaction back in every field: the wire round trip.
    pub fn to_json(&self) -> (r: String)
        ensures
            encode_utf8(r@) == json_bytes(self@),
            decode_tx(json_bytes(self@)) == Ok::<TxView, DecodeError>(self@),
    {
        let out_txt = b64_encode(self.pub_key_output.as_slice());
        let sig_txt = b64_encode(self.signature.as_slice());
        let in_txt: Option<Vec<u8>> = match &self.pub_key_input {
            Some(k) => Some(b64_encode(k.as_slice())),
            None => None,
        };
        let ghost gin = match in_txt {
            Some(ref t) => Some(t@),
            None => None,
        };
        let mut buf: Vec<u8> = Vec::new();
        push_wire(&mut buf, self.id.as_str(), self.timestamp, &in_txt, &out_txt, &sig_txt);
        proof {
            assert(buf@ == emit_bytes(self.id@, self.timestamp, gin, out_txt@, sig_txt@));
            assert(buf@ == json_bytes(self@));
            lemma_b64_text_plain(out_txt@);
            lemma_b64_text_plain(sig_txt@);
            if gin is Some {
                lemma_b64_text_plain(gin.unwrap());
            }
            lemma_emit_valid(self.id@, self.timestamp, gin, out_txt@, sig_txt@);
            lemma_decode_emit(self.id@, self.timestamp, gin, out_txt@, sig_txt@);
            encode_utf8_valid_utf8(self.id@);
            encode_utf8_decode_utf8(self.id@);
            assert(decode_tx(json_bytes(self@)) == Ok::<TxView, DecodeError>(self@));
        }
        match bytes_to_string(buf) {
            Some(s) => s,
            None => {
                proof {
                    assert(false);
                }
                String::new()
            },
        }
    }

    /// Decode a transaction from its JSON wire text. Returns `Ok` exactly on
    /// text that `decode_tx` accepts — one JSON object carrying a string
    /// `id`, an unsigned 64-bit `timestamp`, base64 `publicKeyOutput` and
    /// `signature`, and a base64-or-null `publicKeyInput` — and otherwise
    /// the error that names what was wrong.
    pub fn from_json(string: &str) -> (r: Result<Transaction, DecodeError>)
        ensures
            (match r {
                Ok(t) => decode_tx(encode_utf8(string@)) == Ok::<TxView, DecodeError>(t@),
                Err(e) => decode_tx(encode_utf8(string@)) == Err::<TxView, DecodeError>(e),
            }),
    {
        let bs: Vec<u8> = bytes_of_slice(string.as_bytes());
        proof {
            assert(bs@ == encode_utf8(string@));
            assert(bs@.skip(0) =~= bs@);
        }
        let i0 = skip_ws_x(&bs, 0);
        if i0 >= bs.len() || bs[i0] != 0x7b {
            proof {
                if i0 < bs@.len() {
                    assert(bs@.skip(i0 as int)[0] == bs@[i0 as int]);
                }
            }
            return Err(DecodeError::MalformedJson);
        }
        proof {
            assert(bs@.skip(i0 as int)[0] == bs@[i0 as int]);
            assert(bs@.skip(i0 as int).drop_first() =~= bs@.skip(i0 as int + 1));
        }
        let i1 = skip_ws_x(&bs, i0 + 1);
        let mut raw = RawX { id: None, ts: None, pk_in: None, pk_out: None, sig: None };
        proof {
            assert(raw@ =~= empty_raw());
        }
        let after: usize;
        if i1 < bs.len() && bs[i1] == 0x7d {
            proof {
                assert(bs@.skip(i1 as int)[0] == bs@[i1 as int]);
                assert(bs@.skip(i1 as int).drop_first() =~= bs@.skip(i1 as int + 1));
            }
            after = i1 + 1;
        } else {
            proof {
                if bs@.skip(i1 as int).len() > 0 {
                    assert(bs@.skip(i1 as int)[0] == bs@[i1 as int]);
                }
            }
            match p_members(&bs, i1, &mut raw, 6) {
                Ok(j) => {
                    after = j;
                },
                Err(e) => {
                    return Err(e);
                },
            }
        }
        let t_end = skip_ws_x(&bs, after);
        if t_end < bs.len() {
            proof {
                assert(bs@.skip(t_end as int).len() > 0);
            }
            return Err(DecodeError::MalformedJson);
        }
        proof {
            assert(bs@.skip(t_end as int).len() == 0);
        }
        let ghost graw = raw@;
        let RawX { id, ts, pk_in, pk_out, sig } = raw;
        let idb = match id {
            Some(v) => v,
            None => {
                return Err(DecodeError::IdInvalid);
            },
        };
        let ghost gidb = idb@;
        let id_string = match bytes_to_string(idb) {
            Some(s) => s,
            None => {
                return Err(DecodeError::IdInvalid);
            },
        };
        let ts_v = match ts {
            Some(v) => v,
            None => {
                return Err(DecodeError::TimestampInvalid);
            },
        };
        let out_t = match pk_out {
            Some(v) => v,
            None => {
                return Err(DecodeError::OutputKeyInvalid);
            },
        };
        let out_b = match b64_decode(out_t.as_slice()) {
            Some(v) => v,
            None => {
                return Err(DecodeError::OutputKeyInvalid);
            },
        };
        let sig_t = match sig {
            Some(v) => v,
            None => {
                return Err(DecodeError::SignatureInvalid);
            },
        };
        let sig_b = match b64_decode(sig_t.as_slice()) {
            Some(v) => v,
            None => {
                return Err(DecodeError::SignatureInvalid);
            },
        };
        let in_b: Option<PubKey> = match pk_in {
            Some(Some(t)) => match b64_decode(t.as_slice()) {
                Some(v) => Some(v),
                None => {
                    return Err(DecodeError::InputKeyInvalid);
                },
            },
            _ => None,
        };
        let t = Transaction {
            id: id_string,
            timestamp: ts_v,
            pub_key_input: in_b,
            pub_key_output: out_b,
            signature: sig_b,
        };
        proof {
            decode_utf8_encode_utf8(gidb);
            lemma_encode_utf8_injective(t.id@, decode_utf8(gidb));
            assert(t@ =~= (match crate::json::assemble(graw) {
                Ok(v) => v,
                Err(_) => t@,
            }));
        }
        Ok(t)
    }
}

/// Copy of a transaction's id string.
fn self_id_clone(t: &Transaction) -> (r: String)
    ensures
        r@ == t@.id,
{
    t.id.clone()
}

/// The all-zero 32-byte seed of the genesis key pair.
pub open spec fn zero_seed() -> Seq<u8> {
    Seq::new(32, |_i: int| 0u8)
}

/// The genesis transaction's fields before signing.
pub open spec fn genesis_base() -> TxView {
    TxView {
        id: "GENESIS"@,
        timestamp: 0u64,
        public_key_input: None,
        public_key_output: pk_of(zero_seed()),
        signature: Seq::<u8>::empty(),
    }
}

/// The one genesis transaction: `genesis_base` carrying its signature.
pub open spec fn genesis_view() -> TxView {
    TxView { signature: signed_message(content_spec(genesis_base()), zero_seed()), ..genesis_base() }
}

impl Hashable for Transaction {
    /// A transaction's fingerprint digests its signature bytes.
    open spec fn hash_input(&self) -> Seq<u8> {
        self@.signature
    }

    fn calc_hash(&self) -> (r: crate::hash::Hash) {
        obj_hash(self.signature.as_slice())
    }
}

/// Tamper detection: a transaction that verifies pins its canonical content;
/// keeping the signature but changing the content in any way yields a
/// transaction that no longer verifies.
pub proof fn lemma_tamper(a: TxView, b: TxView)
    requires
        verified_spec(a),
        b.signature == a.signature,
        content_spec(b) != content_spec(a),
    ensures
        !verified_spec(b),
{
}

/// Changing the id (all other fields equal) changes the canonical content.
pub proof fn lemma_content_differs_id(a: TxView, b: TxView)
    requires
        b.timestamp == a.timestamp,
        b.public_key_input == a.public_key_input,
        b.public_key_output == a.public_key_output,
        b.id != a.id,
    ensures
        content_spec(b) != content_spec(a),
{
    let ea = encode_utf8(a.id);
    let eb = encode_utf8(b.id);
    let rest = spec_u64_to_le_bytes(a.timestamp) + (match a.public_key_input {
        Some(k) => k,
        None => Seq::<u8>::empty(),
    }) + a.public_key_output;
    assert(content_spec(a) =~= ea + rest);
    assert(content_spec(b) =~= eb + rest);
    if content_spec(b) == content_spec(a) {
        assert(ea.len() == eb.len());
        assert(ea =~= (ea + rest).subrange(0, ea.len() as int));
        assert(eb =~= (eb + rest).subrange(0, eb.len() as int));
        lemma_encode_utf8_injective(a.id, b.id);
        assert(false);
    }
}

/// Changing the timestamp (all other fields equal) changes the canonical
/// content.
pub proof fn lemma_content_differs_timestamp(a: TxView, b: TxView)
    requires
        b.id == a.id,
        b.public_key_input == a.public_key_input,
        b.public_key_output == a.public_key_output,
        b.timestamp != a.timestamp,
    ensures
        content_spec(b) != content_spec(a),
{
    lemma_auto_spec_u64_to_from_le_bytes();
    let e = encode_utf8(a.id);
    let ta = spec_u64_to_le_bytes(a.timestamp);
    let tb = spec_u64_to_le_bytes(b.timestamp);
    if content_spec(b) == content_spec(a) {
        assert(ta =~= content_spec(a).subrange(e.len() as int, e.len() as int + 8));
        assert(tb =~= content_spec(b).subrange(e.len() as int, e.len() as int + 8));
        assert(ta == tb);
        assert(false);
    }
}

/// Changing the output key (all other fields equal) changes the canonical
/// content.
pub proof fn lemma_content_differs_output_key(a: TxView, b: TxView)
    requires
        b.id == a.id,
        b.timestamp == a.timestamp,
        b.public_key_input == a.public_key_input,
        b.public_key_output != a.public_key_output,
    ensures
        content_spec(b) != content_spec(a),
{
    let pre = encode_utf8(a.id) + spec_u64_to_le_bytes(a.timestamp) + (match a.public_key_input {
        Some(k) => k,
        None => Seq::<u8>::empty(),
    });
    assert(content_spec(a) =~= pre + a.public_key_output);
    assert(content_spec(b) =~= pre + b.public_key_output);
    if content_spec(b) == content_spec(a) {
        assert(a.public_key_output =~= content_spec(a).subrange(
            pre.len() as int,
            content_spec(a).len() as int,
        ));
        assert(b.public_key_output =~= content_spec(b).subrange(
            pre.len() as int,
            content_spec(b).len() as int,
        ));
        assert(false);
    }
}

/// Changing the input key (all other fields equal) changes the canonical
/// content, provided present input keys have the size of a public key.
pub proof fn lemma_content_differs_input_key(a: TxView, b: TxView)
    requires
        b.id == a.id,
        b.timestamp == a.timestamp,
        b.public_key_output == a.public_key_output,
        b.public_key_input != a.public_key_input,
        (a.public_key_input matches Some(k) ==> k.len() == 32),
        (b.public_key_input matches Some(k) ==> k.len() == 32),
    ensures
        content_spec(b) != content_spec(a),
{
    let pre = encode_utf8(a.id) + spec_u64_to_le_bytes(a.timestamp);
    let ia = match a.public_key_input {
        Some(k) => k,
        None => Seq::<u8>::empty(),
    };
    let ib = match b.public_key_input {
        Some(k) => k,
        None => Seq::<u8>::empty(),
    };
    assert(content_spec(a) =~= pre + ia + a.public_key_output);
    assert(content_spec(b) =~= pre + ib + a.public_key_output);
    if content_spec(b) == content_spec(a) {
        assert(ia.len() == ib.len());
        assert(ia =~= content_spec(a).subrange(pre.len() as int, pre.len() as int + ia.len() as int));
        assert(ib =~= content_spec(b).subrange(pre.len() as int, pre.len() as int + ib.len() as int));
        assert(ia == ib);
        assert(false);
    }
}

/// A register transaction (no input key) is never a legitimate successor of
/// any transaction.
pub proof fn lemma_register_never_next(t: TxView, prev: TxView)
    requires
        t.public_key_input is None,
    ensures
        !verify_is_next_spec(t, prev),
{
}

/// Chain continuity: in a sequence that starts with a register transaction
/// and in which every later transaction verifies and takes its input key
/// from its predecessor's output key, every later transaction is a
/// legitimate successor of its predecessor, and the opening register
/// transaction is a successor of nothing.
pub proof fn lemma_chain(chain: Seq<TxView>)
    requires
        chain.len() >= 1,
        chain[0].public_key_input is None,
        forall|i: int| 1 <= i < chain.len() ==> verified_spec(#[trigger] chain[i]),
        forall|i: int| 1 <= i < chain.len() ==> (#[trigger] chain[i]).public_key_input == Some(
            chain[i - 1].public_key_output,
        ),
    ensures
        forall|i: int| 1 <= i < chain.len() ==> verify_is_next_spec(
            #[trigger] chain[i],
            chain[i - 1],
        ),
        forall|p: TxView| !verify_is_next_spec(chain[0], p),
{
}

} // verus!
