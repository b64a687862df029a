//! The JSON wire format: a single object with the five transaction fields,
//! parsed and emitted at the byte level. The grammar spec functions here are
//! the reference; the executable parsers are proved to follow them exactly.

use vstd::prelude::*;

verus! {

use crate::hash::hex_digit_byte;

/// Why decoding a wire transaction failed.
#[derive(Clone, Copy, Debug, PartialEq, Eq, Structural)]
pub enum DecodeError {
    /// The text is not the JSON object shape this format uses: bad
    /// punctuation, an unterminated or ill-escaped string, an unknown or
    /// repeated key, or trailing content.
    MalformedJson,
    /// `id` is missing, not a string, or not valid UTF-8.
    IdInvalid,
    /// `timestamp` is missing, or not an unsigned integer that fits 64 bits.
    TimestampInvalid,
    /// `publicKeyInput` is neither null nor a string, or not valid base64.
    InputKeyInvalid,
    /// `publicKeyOutput` is missing, not a string, or not valid base64.
    OutputKeyInvalid,
    /// `signature` is missing, not a string, or not valid base64.
    SignatureInvalid,
}

impl DecodeError {
    /// A human-readable reason.
    pub fn message(&self) -> (r: String)
        ensures
            r@.len() > 0,
    {
        let s: &str = match self {
            DecodeError::MalformedJson => "failed to convert from json",
            DecodeError::IdInvalid => "could not parse id as String",
            DecodeError::TimestampInvalid => "could not parse timestamp as u64",
            DecodeError::InputKeyInvalid => "could not decode publicKeyInput",
            DecodeError::OutputKeyInvalid => "could not decode publicKeyOutput",
            DecodeError::SignatureInvalid => "could not decode signature",
        };
        proof {
            reveal_strlit("failed to convert from json");
            reveal_strlit("could not parse id as String");
            reveal_strlit("could not parse timestamp as u64");
            reveal_strlit("could not decode publicKeyInput");
            reveal_strlit("could not decode publicKeyOutput");
            reveal_strlit("could not decode signature");
        }
        s.to_owned()
    }
}

/// The raw member values collected while walking the object: each field's
/// text, once seen. For `publicKeyInput` the inner option distinguishes a
/// JSON null from a string value.
#[verifier::ext_equal]
pub struct RawDoc {
    pub id: Option<Seq<u8>>,
    pub ts: Option<u64>,
    pub pk_in: Option<Option<Seq<u8>>>,
    pub pk_out: Option<Seq<u8>>,
    pub sig: Option<Seq<u8>>,
}

/// No member seen yet.
pub open spec fn empty_raw() -> RawDoc {
    RawDoc { id: None, ts: None, pk_in: None, pk_out: None, sig: None }
}

/// JSON insignificant whitespace.
pub open spec fn is_ws(b: u8) -> bool {
    b == 0x20 || b == 0x09 || b == 0x0a || b == 0x0d
}

/// The suffix after leading whitespace.
pub open spec fn skip_ws(s: Seq<u8>) -> Seq<u8>
    decreases s.len(),
{
    if s.len() > 0 && is_ws(s[0]) {
        skip_ws(s.drop_first())
    } else {
        s
    }
}

/// ASCII decimal digit.
pub open spec fn is_digit(b: u8) -> bool {
    0x30 <= b <= 0x39
}

/// ASCII hex digit (either case).
pub open spec fn is_hex(b: u8) -> bool {
    is_digit(b) || 0x61 <= b <= 0x66 || 0x41 <= b <= 0x46
}

/// Value of an ASCII hex digit.
pub open spec fn hex_val(b: u8) -> u8
    recommends
        is_hex(b),
{
    if is_digit(b) {
        (b - 0x30) as u8
    } else if 0x61 <= b <= 0x66 {
        (b - 0x57) as u8
    } else {
        (b - 0x37) as u8
    }
}

/// How one content byte is written inside a JSON string: quote and backslash
/// get a backslash escape, control bytes a `\u00XX` escape, everything else
/// stands as itself.
pub open spec fn esc_byte(b: u8) -> Seq<u8> {
    if b == 0x22 {
        seq![0x5cu8, 0x22u8]
    } else if b == 0x5c {
        seq![0x5cu8, 0x5cu8]
    } else if b < 0x20 {
        seq![0x5cu8, 0x75u8, 0x30u8, 0x30u8, hex_digit_byte(b / 16), hex_digit_byte(b % 16)]
    } else {
        seq![b]
    }
}

/// A byte sequence escaped for embedding in a JSON string.
pub open spec fn esc(s: Seq<u8>) -> Seq<u8>
    decreases s.len(),
{
    if s.len() == 0 {
        seq![]
    } else {
        esc_byte(s[0]) + esc(s.drop_first())
    }
}

/// Parse a JSON string body (the opening quote already consumed): the
/// unescaped content bytes and the suffix after the closing quote. `\uXXXX`
/// escapes are accepted for ASCII values only; raw control bytes are
/// rejected; all other bytes (including multi-byte UTF-8) pass through.
pub open spec fn parse_str_rest(s: Seq<u8>) -> Option<(Seq<u8>, Seq<u8>)>
    decreases s.len(), 0int,
{
    if s.len() == 0 {
        None
    } else if s[0] == 0x22 {
        Some((seq![], s.drop_first()))
    } else if s[0] == 0x5c {
        if s.len() < 2 {
            None
        } else {
            let e = s[1];
            if e == 0x22 || e == 0x5c || e == 0x2f {
                parse_str_cons(e, s.skip(2))
            } else if e == 0x6e {
                parse_str_cons(0x0a, s.skip(2))
            } else if e == 0x72 {
                parse_str_cons(0x0d, s.skip(2))
            } else if e == 0x74 {
                parse_str_cons(0x09, s.skip(2))
            } else if e == 0x62 {
                parse_str_cons(0x08, s.skip(2))
            } else if e == 0x66 {
                parse_str_cons(0x0c, s.skip(2))
            } else if e == 0x75 {
                if s.len() < 6 {
                    None
                } else if is_hex(s[2]) && is_hex(s[3]) && is_hex(s[4]) && is_hex(s[5]) && hex_val(
                    s[2],
                ) == 0 && hex_val(s[3]) == 0 && hex_val(s[4]) < 8 {
                    parse_str_cons((hex_val(s[4]) * 16 + hex_val(s[5])) as u8, s.skip(6))
                } else {
                    None
                }
            } else {
                None
            }
        }
    } else if s[0] < 0x20 {
        None
    } else {
        parse_str_cons(s[0], s.skip(1))
    }
}

/// Prepend one unescaped byte to the parse of the remaining string body.
pub open spec fn parse_str_cons(b: u8, s: Seq<u8>) -> Option<(Seq<u8>, Seq<u8>)>
    decreases s.len(), 1int,
{
    match parse_str_rest(s) {
        Some(p) => Some((seq![b] + p.0, p.1)),
        None => None,
    }
}

/// A string value: an opening quote, then a string body.
pub open spec fn parse_string_value(s: Seq<u8>) -> Option<(Seq<u8>, Seq<u8>)> {
    if s.len() > 0 && s[0] == 0x22 {
        parse_str_rest(s.drop_first())
    } else {
        None
    }
}

/// How many decimal digits the sequence starts with.
pub open spec fn digits_prefix_len(s: Seq<u8>) -> int
    decreases s.len(),
{
    if s.len() > 0 && is_digit(s[0]) {
        1 + digits_prefix_len(s.drop_first())
    } else {
        0
    }
}

/// The value of a sequence of decimal digits, most significant first.
pub open spec fn val_of_digits(d: Seq<u8>) -> nat
    decreases d.len(),
{
    if d.len() == 0 {
        0
    } else {
        val_of_digits(d.drop_last()) * 10 + (d.last() - 0x30) as nat
    }
}

/// A number value: one or more digits whose value fits an unsigned 64-bit
/// integer, and the suffix after them. Anything else (a sign, no digits, or
/// an overflowing value) is rejected.
pub open spec fn parse_num(s: Seq<u8>) -> Option<(u64, Seq<u8>)> {
    let n = digits_prefix_len(s);
    if n == 0 {
        None
    } else if val_of_digits(s.take(n)) > u64::MAX {
        None
    } else {
        Some((val_of_digits(s.take(n)) as u64, s.skip(n)))
    }
}

/// The bytes of the JSON `null` literal.
pub open spec fn null_lit() -> Seq<u8> {
    seq![0x6eu8, 0x75u8, 0x6cu8, 0x6cu8]
}

/// The bytes of the key `"id"` (without quotes).
pub open spec fn id_key() -> Seq<u8> {
    seq![0x69u8, 0x64u8]
}

/// The bytes of the key `"timestamp"`.
pub open spec fn ts_key() -> Seq<u8> {
    seq![0x74u8, 0x69u8, 0x6du8, 0x65u8, 0x73u8, 0x74u8, 0x61u8, 0x6du8, 0x70u8]
}

/// The bytes of the key `"publicKeyInput"`.
pub open spec fn in_key() -> Seq<u8> {
    seq![
        0x70u8,
        0x75u8,
        0x62u8,
        0x6cu8,
        0x69u8,
        0x63u8,
        0x4bu8,
        0x65u8,
        0x79u8,
        0x49u8,
        0x6eu8,
        0x70u8,
        0x75u8,
        0x74u8,
    ]
}

/// The bytes of the key `"publicKeyOutput"`.
pub open spec fn out_key() -> Seq<u8> {
    seq![
        0x70u8,
        0x75u8,
        0x62u8,
        0x6cu8,
        0x69u8,
        0x63u8,
        0x4bu8,
        0x65u8,
        0x79u8,
        0x4fu8,
        0x75u8,
        0x74u8,
        0x70u8,
        0x75u8,
        0x74u8,
    ]
}

/// The bytes of the key `"signature"`.
pub open spec fn sig_key() -> Seq<u8> {
    seq![0x73u8, 0x69u8, 0x67u8, 0x6eu8, 0x61u8, 0x74u8, 0x75u8, 0x72u8, 0x65u8]
}

/// Parse one `"key": value` member starting at a quote, recording its value
/// in `acc`. Unknown or repeated keys are malformed; a value of the wrong
/// shape is charged to its field.
pub open spec fn parse_member(s: Seq<u8>, acc: RawDoc) -> Result<(RawDoc, Seq<u8>), DecodeError> {
    if s.len() == 0 || s[0] != 0x22 {
        Err(DecodeError::MalformedJson)
    } else {
        match parse_str_rest(s.drop_first()) {
            None => Err(DecodeError::MalformedJson),
            Some((key, r1)) => {
                let r2 = skip_ws(r1);
                if r2.len() == 0 || r2[0] != 0x3a {
                    Err(DecodeError::MalformedJson)
                } else {
                    let r3 = skip_ws(r2.drop_first());
                    if key == id_key() {
                        if acc.id is Some {
                            Err(DecodeError::MalformedJson)
                        } else {
                            match parse_string_value(r3) {
                                None => Err(DecodeError::IdInvalid),
                                Some((v, r)) => Ok((RawDoc { id: Some(v), ..acc }, r)),
                            }
                        }
                    } else if key == ts_key() {
                        if acc.ts is Some {
                            Err(DecodeError::MalformedJson)
                        } else {
                            match parse_num(r3) {
                                None => Err(DecodeError::TimestampInvalid),
                                Some((n, r)) => Ok((RawDoc { ts: Some(n), ..acc }, r)),
                            }
                        }
                    } else if key == in_key() {
                        if acc.pk_in is Some {
                            Err(DecodeError::MalformedJson)
                        } else if r3.len() >= 4 && r3.take(4) == null_lit() {
                            Ok((RawDoc { pk_in: Some(None), ..acc }, r3.skip(4)))
                        } else {
                            match parse_string_value(r3) {
                                None => Err(DecodeError::InputKeyInvalid),
                                Some((v, r)) => Ok((RawDoc { pk_in: Some(Some(v)), ..acc }, r)),
                            }
                        }
                    } else if key == out_key() {
                        if acc.pk_out is Some {
                            Err(DecodeError::MalformedJson)
                        } else {
                            match parse_string_value(r3) {
                                None => Err(DecodeError::OutputKeyInvalid),
                                Some((v, r)) => Ok((RawDoc { pk_out: Some(v), ..acc }, r)),
                            }
                        }
                    } else if key == sig_key() {
                        if acc.sig is Some {
                            Err(DecodeError::MalformedJson)
                        } else {
                            match parse_string_value(r3) {
                                None => Err(DecodeError::SignatureInvalid),
                                Some((v, r)) => Ok((RawDoc { sig: Some(v), ..acc }, r)),
                            }
                        }
                    } else {
                        Err(DecodeError::MalformedJson)
                    }
                }
            },
        }
    }
}

/// Parse the members of the object, starting at the first member's quote,
/// through the closing brace. At most the five known members can succeed
/// (a sixth is always a repeat or unknown), so a recursion budget of six
/// settles every input.
pub open spec fn parse_members(s: Seq<u8>, acc: RawDoc, fuel: nat) -> Result<
    (RawDoc, Seq<u8>),
    DecodeError,
>
    decreases fuel,
{
    if fuel == 0 {
        Err(DecodeError::MalformedJson)
    } else {
        match parse_member(s, acc) {
            Err(e) => Err(e),
            Ok((acc2, r)) => {
                let r1 = skip_ws(r);
                if r1.len() == 0 {
                    Err(DecodeError::MalformedJson)
                } else if r1[0] == 0x7d {
                    Ok((acc2, r1.drop_first()))
                } else if r1[0] == 0x2c {
                    parse_members(skip_ws(r1.drop_first()), acc2, (fuel - 1) as nat)
                } else {
                    Err(DecodeError::MalformedJson)
                }
            },
        }
    }
}

/// Check the collected members and assemble the decoded field values:
/// `id` (required, UTF-8), `timestamp` (required), `publicKeyOutput` and
/// `signature` (required, base64), `publicKeyInput` (optional; absent or
/// null means no input key, a string must be base64).
pub open spec fn assemble(raw: RawDoc) -> Result<crate::transaction::TxView, DecodeError> {
    match raw.id {
        None => Err(DecodeError::IdInvalid),
        Some(idb) => if !vstd::utf8::valid_utf8(idb) {
            Err(DecodeError::IdInvalid)
        } else {
            match raw.ts {
                None => Err(DecodeError::TimestampInvalid),
                Some(ts) => match raw.pk_out {
                    None => Err(DecodeError::OutputKeyInvalid),
                    Some(outt) => match crate::b64::b64_dec_of(outt) {
                        None => Err(DecodeError::OutputKeyInvalid),
                        Some(outb) => match raw.sig {
                            None => Err(DecodeError::SignatureInvalid),
                            Some(sigt) => match crate::b64::b64_dec_of(sigt) {
                                None => Err(DecodeError::SignatureInvalid),
                                Some(sigb) => match raw.pk_in {
                                    Some(Some(int_)) => match crate::b64::b64_dec_of(int_) {
                                        None => Err(DecodeError::InputKeyInvalid),
                                        Some(inb) => Ok(crate::transaction::TxView {
                                            id: vstd::utf8::decode_utf8(idb),
                                            timestamp: ts,
                                            public_key_input: Some(inb),
                                            public_key_output: outb,
                                            signature: sigb,
                                        }),
                                    },
                                    _ => Ok(crate::transaction::TxView {
                                        id: vstd::utf8::decode_utf8(idb),
                                        timestamp: ts,
                                        public_key_input: None,
                                        public_key_output: outb,
                                        signature: sigb,
                                    }),
                                },
                            },
                        },
                    },
                },
            }
        },
    }
}

/// What decoding a wire transaction from the given bytes yields: the single
/// JSON object, with nothing but whitespace around it, its members checked
/// and assembled as `assemble` says.
pub open spec fn decode_tx(bs: Seq<u8>) -> Result<crate::transaction::TxView, DecodeError> {
    let s0 = skip_ws(bs);
    if s0.len() == 0 || s0[0] != 0x7b {
        Err(DecodeError::MalformedJson)
    } else {
        let s1 = skip_ws(s0.drop_first());
        let m = if s1.len() > 0 && s1[0] == 0x7d {
            Ok((empty_raw(), s1.drop_first()))
        } else {
            parse_members(s1, empty_raw(), 6)
        };
        match m {
            Err(e) => Err(e),
            Ok((raw, rest)) => {
                if skip_ws(rest).len() != 0 {
                    Err(DecodeError::MalformedJson)
                } else {
                    assemble(raw)
                }
            },
        }
    }
}

/// Decimal digits of `n`, most significant first.
pub open spec fn dec_of(n: nat) -> Seq<u8>
    decreases n,
{
    if n < 10 {
        seq![(0x30 + n) as u8]
    } else {
        dec_of(n / 10) + seq![(0x30 + n % 10) as u8]
    }
}

/// The wire text from the `"signature"` member to the closing brace.
pub open spec fn wire_from_sig(sig_txt: Seq<u8>) -> Seq<u8> {
    seq![0x22u8] + sig_key() + seq![0x22u8, 0x3au8] + (seq![0x22u8] + sig_txt + seq![0x22u8]
        + seq![0x7du8])
}

/// The wire text from the `"publicKeyOutput"` member on.
pub open spec fn wire_from_out(out_txt: Seq<u8>, sig_txt: Seq<u8>) -> Seq<u8> {
    seq![0x22u8] + out_key() + seq![0x22u8, 0x3au8] + (seq![0x22u8] + out_txt + seq![0x22u8]
        + (seq![0x2cu8] + wire_from_sig(sig_txt)))
}

/// The wire text from the `"publicKeyInput"` member on.
pub open spec fn wire_from_in(
    in_txt: Option<Seq<u8>>,
    out_txt: Seq<u8>,
    sig_txt: Seq<u8>,
) -> Seq<u8> {
    seq![0x22u8] + in_key() + seq![0x22u8, 0x3au8] + (match in_txt {
        Some(t) => seq![0x22u8] + t + seq![0x22u8] + (seq![0x2cu8] + wire_from_out(
            out_txt,
            sig_txt,
        )),
        None => null_lit() + (seq![0x2cu8] + wire_from_out(out_txt, sig_txt)),
    })
}

/// The wire text from the `"timestamp"` member on.
pub open spec fn wire_from_ts(
    ts: u64,
    in_txt: Option<Seq<u8>>,
    out_txt: Seq<u8>,
    sig_txt: Seq<u8>,
) -> Seq<u8> {
    seq![0x22u8] + ts_key() + seq![0x22u8, 0x3au8] + (dec_of(ts as nat) + (seq![0x2cu8]
        + wire_from_in(in_txt, out_txt, sig_txt)))
}

/// The wire text from the `"id"` member on.
pub open spec fn wire_from_id(
    id: Seq<char>,
    ts: u64,
    in_txt: Option<Seq<u8>>,
    out_txt: Seq<u8>,
    sig_txt: Seq<u8>,
) -> Seq<u8> {
    seq![0x22u8] + id_key() + seq![0x22u8, 0x3au8] + (seq![0x22u8] + esc(
        vstd::utf8::encode_utf8(id),
    ) + seq![0x22u8] + (seq![0x2cu8] + wire_from_ts(ts, in_txt, out_txt, sig_txt)))
}

/// The wire bytes of a transaction whose byte-valued fields are already
/// rendered as base64 text: an opening brace, then the five members in a
/// fixed order, each a quoted key, a colon and its value, separated by
/// commas, with no insignificant whitespace, then the closing brace.
pub open spec fn emit_bytes(
    id: Seq<char>,
    ts: u64,
    in_txt: Option<Seq<u8>>,
    out_txt: Seq<u8>,
    sig_txt: Seq<u8>,
) -> Seq<u8> {
    seq![0x7bu8] + wire_from_id(id, ts, in_txt, out_txt, sig_txt)
}

/// The wire bytes of a transaction: its byte fields rendered as standard
/// base64, laid out by `emit_bytes`.
pub open spec fn json_bytes(v: crate::transaction::TxView) -> Seq<u8> {
    emit_bytes(
        v.id,
        v.timestamp,
        match v.public_key_input {
            Some(k) => Some(crate::b64::b64_of(k)),
            None => None,
        },
        crate::b64::b64_of(v.public_key_output),
        crate::b64::b64_of(v.signature),
    )
}

/// The raw member values as executable data.
pub struct RawX {
    pub id: Option<Vec<u8>>,
    pub ts: Option<u64>,
    pub pk_in: Option<Option<Vec<u8>>>,
    pub pk_out: Option<Vec<u8>>,
    pub sig: Option<Vec<u8>>,
}

impl View for RawX {
    type V = RawDoc;

    open spec fn view(&self) -> RawDoc {
        RawDoc {
            id: match self.id {
                Some(ref v) => Some(v@),
                None => None,
            },
            ts: self.ts,
            pk_in: match self.pk_in {
                Some(Some(ref v)) => Some(Some(v@)),
                Some(None) => Some(None),
                None => None,
            },
            pk_out: match self.pk_out {
                Some(ref v) => Some(v@),
                None => None,
            },
            sig: match self.sig {
                Some(ref v) => Some(v@),
                None => None,
            },
        }
    }
}

/// Index just past the leading whitespace from `start`.
pub(crate) fn skip_ws_x(bs: &Vec<u8>, start: usize) -> (j: usize)
    requires
        start <= bs@.len(),
    ensures
        start <= j <= bs@.len(),
        skip_ws(bs@.skip(start as int)) == bs@.skip(j as int),
{
    let mut cur: usize = start;
    while cur < bs.len() && (bs[cur] == 0x20 || bs[cur] == 0x09 || bs[cur] == 0x0a || bs[cur]
        == 0x0d)
        invariant
            start <= cur <= bs@.len(),
            skip_ws(bs@.skip(start as int)) == skip_ws(bs@.skip(cur as int)),
        decreases bs@.len() - cur,
    {
        proof {
            assert(bs@.skip(cur as int).drop_first() =~= bs@.skip(cur as int + 1));
        }
        cur = cur + 1;
    }
    cur
}

/// Value of an ASCII hex digit, if it is one.
fn hexv(b: u8) -> (r: Option<u8>)
    ensures
        r is Some <==> is_hex(b),
        r matches Some(v) ==> v == hex_val(b) && v < 16,
{
    if 0x30 <= b && b <= 0x39 {
        Some(b - 0x30)
    } else if 0x61 <= b && b <= 0x66 {
        Some(b - 0x57)
    } else if 0x41 <= b && b <= 0x46 {
        Some(b - 0x37)
    } else {
        None
    }
}

/// Parse a string body beginning at `start` (just after the opening quote),
/// exactly as `parse_str_rest` says.
pub(crate) fn p_str_rest(bs: &Vec<u8>, start: usize) -> (r: Option<(Vec<u8>, usize)>)
    requires
        start <= bs@.len(),
    ensures
        match r {
            Some(p) => start <= p.1 <= bs@.len() && parse_str_rest(bs@.skip(start as int)) == Some(
                (p.0@, bs@.skip(p.1 as int)),
            ),
            None => parse_str_rest(bs@.skip(start as int)) is None,
        },
{
    let mut out: Vec<u8> = Vec::new();
    let mut cur: usize = start;
    loop
        invariant
            start <= cur <= bs@.len(),
            (match parse_str_rest(bs@.skip(cur as int)) {
                Some(p) => parse_str_rest(bs@.skip(start as int)) == Some((out@ + p.0, p.1)),
                None => parse_str_rest(bs@.skip(start as int)) is None,
            }),
        decreases bs@.len() - cur,
    {
        let ghost s = bs@.skip(cur as int);
        if cur >= bs.len() {
            return None;
        }
        let b = bs[cur];
        proof {
            assert(s[0] == b);
        }
        if b == 0x22 {
            proof {
                assert(s.drop_first() =~= bs@.skip(cur as int + 1));
                assert(out@ + Seq::<u8>::empty() =~= out@);
            }
            return Some((out, cur + 1));
        } else if b == 0x5c {
            if cur + 1 >= bs.len() {
                return None;
            }
            let e = bs[cur + 1];
            proof {
                assert(s[1] == e);
                assert(s.skip(2) =~= bs@.skip(cur as int + 2));
            }
            let unescaped: u8 = if e == 0x22 || e == 0x5c || e == 0x2f {
                e
            } else if e == 0x6e {
                0x0a
            } else if e == 0x72 {
                0x0d
            } else if e == 0x74 {
                0x09
            } else if e == 0x62 {
                0x08
            } else if e == 0x66 {
                0x0c
            } else if e == 0x75 {
                if bs.len() - cur < 6 {
                    proof {
                        assert(s.len() < 6);
                    }
                    return None;
                }
                proof {
                    assert(s[2] == bs@[cur as int + 2]);
                    assert(s[3] == bs@[cur as int + 3]);
                    assert(s[4] == bs@[cur as int + 4]);
                    assert(s[5] == bs@[cur as int + 5]);
                    assert(s.skip(6) =~= bs@.skip(cur as int + 6));
                }
                let h2 = hexv(bs[cur + 2]);
                let h3 = hexv(bs[cur + 3]);
                let h4 = hexv(bs[cur + 4]);
                let h5 = hexv(bs[cur + 5]);
                match (h2, h3, h4, h5) {
                    (Some(v2), Some(v3), Some(v4), Some(v5)) => {
                        if v2 == 0 && v3 == 0 && v4 < 8 {
                            let vv: u8 = v4 * 16 + v5;
                            let ghost out_prev = out@;
                            out.push(vv);
                            proof {
                                lemma_cons_shift(s, vv, 6, out_prev, bs@.skip(start as int));
                                assert(out@ =~= out_prev + seq![vv]);
                            }
                            cur = cur + 6;
                            continue;
                        } else {
                            return None;
                        }
                    },
                    _ => {
                        return None;
                    },
                }
            } else {
                return None;
            };
            let ghost out_prev = out@;
            out.push(unescaped);
            proof {
                lemma_cons_shift(s, unescaped, 2, out_prev, bs@.skip(start as int));
                assert(out@ =~= out_prev + seq![unescaped]);
            }
            cur = cur + 2;
        } else if b < 0x20 {
            return None;
        } else {
            let ghost out_prev = out@;
            out.push(b);
            proof {
                assert(s.skip(1) =~= bs@.skip(cur as int + 1));
                lemma_cons_shift(s, b, 1, out_prev, bs@.skip(start as int));
                assert(out@ =~= out_prev + seq![b]);
            }
            cur = cur + 1;
        }
    }
}

/// One step of the string-parse loop: when the spec takes `k` input bytes
/// and yields the content byte `b`, pushing `b` keeps the loop's relation
/// between the full parse and the parse of the remaining suffix.
proof fn lemma_cons_shift(s: Seq<u8>, b: u8, k: int, out_prev: Seq<u8>, full: Seq<u8>)
    requires
        0 <= k <= s.len(),
        parse_str_rest(s) == parse_str_cons(b, s.skip(k)),
        (match parse_str_rest(s) {
            Some(p) => parse_str_rest(full) == Some((out_prev + p.0, p.1)),
            None => parse_str_rest(full) is None,
        }),
    ensures
        (match parse_str_rest(s.skip(k)) {
            Some(p) => parse_str_rest(full) == Some(((out_prev + seq![b]) + p.0, p.1)),
            None => parse_str_rest(full) is None,
        }),
{
    match parse_str_rest(s.skip(k)) {
        Some(p) => {
            assert(parse_str_rest(s) == Some((seq![b] + p.0, p.1)));
            assert(out_prev + (seq![b] + p.0) =~= (out_prev + seq![b]) + p.0);
        },
        None => {
            assert(parse_str_rest(s) is None);
        },
    }
}

/// Everything before `k` in `d` is a decimal digit, so the digit prefix is
/// at least `k` long.
proof fn lemma_digits_prefix_at_least(s: Seq<u8>, k: int)
    requires
        0 <= k <= s.len(),
        forall|j: int| 0 <= j < k ==> is_digit(s[j]),
    ensures
        digits_prefix_len(s) >= k,
    decreases k,
{
    if k > 0 {
        assert(is_digit(s[0]));
        assert forall|j: int| 0 <= j < k - 1 implies is_digit(s.drop_first()[j]) by {
            assert(s.drop_first()[j] == s[j + 1]);
        }
        lemma_digits_prefix_at_least(s.drop_first(), k - 1);
        assert(digits_prefix_len(s) == 1 + digits_prefix_len(s.drop_first()));
    } else {
        lemma_digits_prefix_bounds(s);
    }
}

/// The digit prefix never runs past the end.
proof fn lemma_digits_prefix_bounds(s: Seq<u8>)
    ensures
        0 <= digits_prefix_len(s) <= s.len(),
    decreases s.len(),
{
    if s.len() > 0 && is_digit(s[0]) {
        lemma_digits_prefix_bounds(s.drop_first());
    }
}

/// The digit prefix ends exactly where the digits end.
proof fn lemma_digits_prefix_exact(s: Seq<u8>, k: int)
    requires
        0 <= k <= s.len(),
        forall|j: int| 0 <= j < k ==> is_digit(s[j]),
        k == s.len() || !is_digit(s[k]),
    ensures
        digits_prefix_len(s) == k,
    decreases k,
{
    if k > 0 {
        assert(is_digit(s[0]));
        assert forall|j: int| 0 <= j < k - 1 implies is_digit(s.drop_first()[j]) by {
            assert(s.drop_first()[j] == s[j + 1]);
        }
        lemma_digits_prefix_exact(s.drop_first(), k - 1);
        assert(digits_prefix_len(s) == 1 + digits_prefix_len(s.drop_first()));
    }
}

/// Dropping trailing digits never increases the value.
proof fn lemma_val_mono(d: Seq<u8>, k: int)
    requires
        0 <= k <= d.len(),
    ensures
        val_of_digits(d.take(k)) <= val_of_digits(d),
    decreases d.len(),
{
    if k < d.len() {
        assert(d.take(k) =~= d.drop_last().take(k));
        lemma_val_mono(d.drop_last(), k);
    } else {
        assert(d.take(k) =~= d);
    }
}

/// Parse an unsigned decimal number beginning at `start`, exactly as
/// `parse_num` says.
pub(crate) fn p_num(bs: &Vec<u8>, start: usize) -> (r: Option<(u64, usize)>)
    requires
        start <= bs@.len(),
    ensures
        match r {
            Some(p) => start <= p.1 <= bs@.len() && parse_num(bs@.skip(start as int)) == Some(
                (p.0, bs@.skip(p.1 as int)),
            ),
            None => parse_num(bs@.skip(start as int)) is None,
        },
{
    let ghost s = bs@.skip(start as int);
    if start >= bs.len() || !(0x30 <= bs[start] && bs[start] <= 0x39) {
        proof {
            assert(digits_prefix_len(s) == 0);
        }
        return None;
    }
    let mut cur: usize = start;
    let mut acc: u64 = 0;
    while cur < bs.len() && 0x30 <= bs[cur] && bs[cur] <= 0x39
        invariant
            start <= cur <= bs@.len(),
            s == bs@.skip(start as int),
            forall|j: int| start <= j < cur ==> is_digit(bs@[j]),
            acc == val_of_digits(bs@.subrange(start as int, cur as int)),
        decreases bs@.len() - cur,
    {
        let d: u8 = bs[cur] - 0x30;
        let ghost sofar = bs@.subrange(start as int, cur as int);
        let ghost step = bs@.subrange(start as int, cur as int + 1);
        proof {
            assert(step.drop_last() =~= sofar);
            assert(step.last() == bs@[cur as int]);
        }
        let next = match acc.checked_mul(10) {
            Some(a) => a.checked_add(d as u64),
            None => None,
        };
        match next {
            Some(a2) => {
                acc = a2;
            },
            None => {
                proof {
                    assert(val_of_digits(step) > u64::MAX);
                    let k = cur as int + 1 - start;
                    assert forall|j: int| 0 <= j < k implies is_digit(s[j]) by {
                        assert(s[j] == bs@[j + start]);
                    }
                    lemma_digits_prefix_at_least(s, k);
                    lemma_digits_prefix_bounds(s);
                    let n = digits_prefix_len(s);
                    assert(s.take(k) =~= step);
                    assert(s.take(n).take(k) =~= s.take(k));
                    lemma_val_mono(s.take(n), k);
                    assert(val_of_digits(s.take(n)) > u64::MAX);
                }
                return None;
            },
        }
        cur = cur + 1;
    }
    proof {
        let k = cur as int - start;
        assert forall|j: int| 0 <= j < k implies is_digit(s[j]) by {
            assert(s[j] == bs@[j + start]);
        }
        if k < s.len() {
            assert(s[k] == bs@[cur as int]);
        }
        lemma_digits_prefix_exact(s, k);
        assert(s.take(k) =~= bs@.subrange(start as int, cur as int));
        assert(s.skip(k) =~= bs@.skip(cur as int));
    }
    Some((acc, cur))
}

/// Which known member key these bytes are: 1 id, 2 timestamp,
/// 3 publicKeyInput, 4 publicKeyOutput, 5 signature, 0 none of them.
pub(crate) fn key_tag(key: &Vec<u8>) -> (r: usize)
    ensures
        (r == 1) == (key@ == id_key()),
        (r == 2) == (key@ == ts_key()),
        (r == 3) == (key@ == in_key()),
        (r == 4) == (key@ == out_key()),
        (r == 5) == (key@ == sig_key()),
        r <= 5,
{
    let k_id: [u8; 2] = [0x69, 0x64];
    let k_ts: [u8; 9] = [0x74, 0x69, 0x6d, 0x65, 0x73, 0x74, 0x61, 0x6d, 0x70];
    let k_in: [u8; 14] = [
        0x70,
        0x75,
        0x62,
        0x6c,
        0x69,
        0x63,
        0x4b,
        0x65,
        0x79,
        0x49,
        0x6e,
        0x70,
        0x75,
        0x74,
    ];
    let k_out: [u8; 15] = [
        0x70,
        0x75,
        0x62,
        0x6c,
        0x69,
        0x63,
        0x4b,
        0x65,
        0x79,
        0x4f,
        0x75,
        0x74,
        0x70,
        0x75,
        0x74,
    ];
    let k_sig: [u8; 9] = [0x73, 0x69, 0x67, 0x6e, 0x61, 0x74, 0x75, 0x72, 0x65];
    proof {
        assert(k_id@ =~= id_key());
        assert(k_ts@ =~= ts_key());
        assert(k_in@ =~= in_key());
        assert(k_out@ =~= out_key());
        assert(k_sig@ =~= sig_key());
    }
    if crate::transaction::eq_bytes(key.as_slice(), k_id.as_slice()) {
        1
    } else if crate::transaction::eq_bytes(key.as_slice(), k_ts.as_slice()) {
        2
    } else if crate::transaction::eq_bytes(key.as_slice(), k_in.as_slice()) {
        3
    } else if crate::transaction::eq_bytes(key.as_slice(), k_out.as_slice()) {
        4
    } else if crate::transaction::eq_bytes(key.as_slice(), k_sig.as_slice()) {
        5
    } else {
        0
    }
}

/// Parse one member beginning at `start`, recording its value in `acc`,
/// exactly as `parse_member` says.
pub(crate) fn p_member(bs: &Vec<u8>, start: usize, acc: &mut RawX) -> (r: Result<
    usize,
    DecodeError,
>)
    requires
        start <= bs@.len(),
    ensures
        match r {
            Ok(j) => start <= j <= bs@.len() && parse_member(bs@.skip(start as int), old(acc)@)
                == Ok::<(RawDoc, Seq<u8>), DecodeError>((final(acc)@, bs@.skip(j as int))),
            Err(e) => parse_member(bs@.skip(start as int), old(acc)@) == Err::<
                (RawDoc, Seq<u8>),
                DecodeError,
            >(e),
        },
{
    let ghost s = bs@.skip(start as int);
    if start >= bs.len() || bs[start] != 0x22 {
        return Err(DecodeError::MalformedJson);
    }
    proof {
        assert(s[0] == bs@[start as int]);
        assert(s.drop_first() =~= bs@.skip(start as int + 1));
    }
    let parsed_key = p_str_rest(bs, start + 1);
    match parsed_key {
        None => Err(DecodeError::MalformedJson),
        Some((key, j)) => {
            let j1 = skip_ws_x(bs, j);
            if j1 >= bs.len() || bs[j1] != 0x3a {
                return Err(DecodeError::MalformedJson);
            }
            proof {
                assert(bs@.skip(j1 as int)[0] == bs@[j1 as int]);
                assert(bs@.skip(j1 as int).drop_first() =~= bs@.skip(j1 as int + 1));
            }
            let j2 = skip_ws_x(bs, j1 + 1);
            let ghost r3 = bs@.skip(j2 as int);
            let tag = key_tag(&key);
            if tag == 1 {
                if acc.id.is_some() {
                    return Err(DecodeError::MalformedJson);
                }
                match p_string_value(bs, j2) {
                    None => Err(DecodeError::IdInvalid),
                    Some((v, j3)) => {
                        acc.id = Some(v);
                        Ok(j3)
                    },
                }
            } else if tag == 2 {
                if acc.ts.is_some() {
                    return Err(DecodeError::MalformedJson);
                }
                match p_num(bs, j2) {
                    None => Err(DecodeError::TimestampInvalid),
                    Some((n, j3)) => {
                        acc.ts = Some(n);
                        Ok(j3)
                    },
                }
            } else if tag == 3 {
                if acc.pk_in.is_some() {
                    return Err(DecodeError::MalformedJson);
                }
                if bs.len() - j2 >= 4 && bs[j2] == 0x6e && bs[j2 + 1] == 0x75 && bs[j2 + 2]
                    == 0x6c && bs[j2 + 3] == 0x6c {
                    proof {
                        assert(r3.take(4) =~= null_lit());
                        assert(r3.skip(4) =~= bs@.skip(j2 as int + 4));
                    }
                    acc.pk_in = Some(None);
                    Ok(j2 + 4)
                } else {
                    proof {
                        if r3.len() >= 4 && r3.take(4) == null_lit() {
                            assert(r3[0] == bs@[j2 as int]);
                            assert(r3[1] == bs@[j2 as int + 1]);
                            assert(r3[2] == bs@[j2 as int + 2]);
                            assert(r3[3] == bs@[j2 as int + 3]);
                            assert(r3.take(4)[0] == 0x6e);
                            assert(r3.take(4)[1] == 0x75);
                            assert(r3.take(4)[2] == 0x6c);
                            assert(r3.take(4)[3] == 0x6c);
                            assert(false);
                        }
                    }
                    match p_string_value(bs, j2) {
                        None => Err(DecodeError::InputKeyInvalid),
                        Some((v, j3)) => {
                            acc.pk_in = Some(Some(v));
                            Ok(j3)
                        },
                    }
                }
            } else if tag == 4 {
                if acc.pk_out.is_some() {
                    return Err(DecodeError::MalformedJson);
                }
                match p_string_value(bs, j2) {
                    None => Err(DecodeError::OutputKeyInvalid),
                    Some((v, j3)) => {
                        acc.pk_out = Some(v);
                        Ok(j3)
                    },
                }
            } else if tag == 5 {
                if acc.sig.is_some() {
                    return Err(DecodeError::MalformedJson);
                }
                match p_string_value(bs, j2) {
                    None => Err(DecodeError::SignatureInvalid),
                    Some((v, j3)) => {
                        acc.sig = Some(v);
                        Ok(j3)
                    },
                }
            } else {
                Err(DecodeError::MalformedJson)
            }
        },
    }
}

/// Parse a quoted string value beginning at `start`, exactly as
/// `parse_string_value` says.
pub(crate) fn p_string_value(bs: &Vec<u8>, start: usize) -> (r: Option<(Vec<u8>, usize)>)
    requires
        start <= bs@.len(),
    ensures
        match r {
            Some(p) => start <= p.1 <= bs@.len() && parse_string_value(bs@.skip(start as int))
                == Some((p.0@, bs@.skip(p.1 as int))),
            None => parse_string_value(bs@.skip(start as int)) is None,
        },
{
    if start >= bs.len() || bs[start] != 0x22 {
        return None;
    }
    proof {
        assert(bs@.skip(start as int)[0] == bs@[start as int]);
        assert(bs@.skip(start as int).drop_first() =~= bs@.skip(start as int + 1));
    }
    p_str_rest(bs, start + 1)
}

/// Append the escaped form of one content byte.
pub(crate) fn esc_push(out: &mut Vec<u8>, b: u8)
    ensures
        final(out)@ == old(out)@ + esc_byte(b),
{
    if b == 0x22 {
        out.push(0x5c);
        out.push(0x22);
    } else if b == 0x5c {
        out.push(0x5c);
        out.push(0x5c);
    } else if b < 0x20 {
        out.push(0x5c);
        out.push(0x75);
        out.push(0x30);
        out.push(0x30);
        out.push(crate::hash::hex_digit(b / 16));
        out.push(crate::hash::hex_digit(b % 16));
    } else {
        out.push(b);
    }
    proof {
        assert(out@ =~= old(out)@ + esc_byte(b));
    }
}

/// Escaping one byte is escaping a one-byte sequence.
pub proof fn lemma_esc_single(b: u8)
    ensures
        esc(seq![b]) == esc_byte(b),
{
    assert(seq![b].drop_first() =~= Seq::<u8>::empty());
    assert(esc(Seq::<u8>::empty()) =~= Seq::<u8>::empty());
    assert(esc(seq![b]) =~= esc_byte(b));
}

/// Escaping distributes over concatenation.
pub proof fn lemma_esc_append(a: Seq<u8>, b: Seq<u8>)
    ensures
        esc(a + b) == esc(a) + esc(b),
    decreases a.len(),
{
    if a.len() == 0 {
        assert(a + b =~= b);
        assert(esc(a) + esc(b) =~= esc(b));
    } else {
        lemma_esc_append(a.drop_first(), b);
        assert((a + b).drop_first() =~= a.drop_first() + b);
        assert(esc(a + b) =~= esc(a) + esc(b));
    }
}

/// Append the escaped form of a whole byte slice.
pub(crate) fn esc_push_all(out: &mut Vec<u8>, src: &[u8])
    ensures
        final(out)@ == old(out)@ + esc(src@),
{
    let mut i: usize = 0;
    proof {
        assert(esc(src@.take(0)) =~= Seq::<u8>::empty());
        assert(out@ =~= old(out)@ + esc(src@.take(0)));
    }
    while i < src.len()
        invariant
            i <= src@.len(),
            out@ == old(out)@ + esc(src@.take(i as int)),
        decreases src@.len() - i,
    {
        esc_push(out, src[i]);
        proof {
            assert(src@.take(i as int + 1) =~= src@.take(i as int) + seq![src@[i as int]]);
            lemma_esc_append(src@.take(i as int), seq![src@[i as int]]);
            lemma_esc_single(src@[i as int]);
            assert(out@ =~= old(out)@ + esc(src@.take(i as int + 1)));
        }
        i = i + 1;
    }
    proof {
        assert(src@.take(src@.len() as int) =~= src@);
    }
}

/// Append the decimal digits of `n`.
pub(crate) fn push_dec(out: &mut Vec<u8>, n: u64)
    ensures
        final(out)@ == old(out)@ + dec_of(n as nat),
    decreases n,
{
    if n < 10 {
        out.push(0x30 + (n as u8));
        proof {
            assert(out@ =~= old(out)@ + dec_of(n as nat));
        }
    } else {
        push_dec(out, n / 10);
        out.push(0x30 + ((n % 10) as u8));
        proof {
            assert(out@ =~= old(out)@ + dec_of(n as nat));
        }
    }
}


/// Bytes that stand for themselves inside a JSON string: not a quote, not a
/// backslash, not a control byte.
pub open spec fn no_special(s: Seq<u8>) -> bool {
    forall|i: int| 0 <= i < s.len() ==> s[i] != 0x22 && s[i] != 0x5c && s[i] >= 0x20
}

/// Escaping leaves a sequence without special bytes unchanged.
pub proof fn lemma_esc_id(s: Seq<u8>)
    requires
        no_special(s),
    ensures
        esc(s) == s,
    decreases s.len(),
{
    if s.len() == 0 {
        assert(esc(s) =~= s);
    } else {
        assert(s[0] != 0x22 && s[0] != 0x5c && s[0] >= 0x20);
        lemma_esc_id(s.drop_first());
        assert(esc(s) =~= s);
    }
}

/// A string body of plain bytes followed by a closing quote parses to those
/// bytes.
pub proof fn lemma_parse_plain(s: Seq<u8>, rest: Seq<u8>)
    requires
        no_special(s),
    ensures
        parse_str_rest(s + seq![0x22u8] + rest) == Some((s, rest)),
    decreases s.len(),
{
    let w = s + seq![0x22u8] + rest;
    if s.len() == 0 {
        assert(w =~= seq![0x22u8] + rest);
        assert(w[0] == 0x22);
        assert(w.drop_first() =~= rest);
        assert(parse_str_rest(w) == Some((Seq::<u8>::empty(), rest)));
        assert(Seq::<u8>::empty() =~= s);
    } else {
        let b = s[0];
        assert(w[0] == b);
        assert(b != 0x22 && b != 0x5c && b >= 0x20);
        assert(w.skip(1) =~= s.drop_first() + seq![0x22u8] + rest);
        lemma_parse_plain(s.drop_first(), rest);
        assert(parse_str_rest(w) == parse_str_cons(b, w.skip(1)));
        assert(seq![b] + s.drop_first() =~= s);
    }
}

/// A string body holding the escaped form of arbitrary bytes followed by a
/// closing quote parses back to exactly those bytes.
pub proof fn lemma_parse_esc(x: Seq<u8>, rest: Seq<u8>)
    ensures
        parse_str_rest(esc(x) + seq![0x22u8] + rest) == Some((x, rest)),
    decreases x.len(),
{
    let w = esc(x) + seq![0x22u8] + rest;
    if x.len() == 0 {
        assert(esc(x) =~= Seq::<u8>::empty());
        assert(w =~= seq![0x22u8] + rest);
        assert(w[0] == 0x22);
        assert(w.drop_first() =~= rest);
        assert(Seq::<u8>::empty() =~= x);
    } else {
        let b = x[0];
        let x1 = x.drop_first();
        lemma_parse_esc(x1, rest);
        let w1 = esc(x1) + seq![0x22u8] + rest;
        assert(esc(x) =~= esc_byte(b) + esc(x1));
        assert(w =~= esc_byte(b) + w1);
        if b == 0x22 || b == 0x5c {
            assert(w[0] == 0x5c);
            assert(w[1] == b);
            assert(w.skip(2) =~= w1);
            assert(parse_str_rest(w) == parse_str_cons(b, w.skip(2)));
            assert(seq![b] + x1 =~= x);
        } else if b < 0x20 {
            let h1 = hex_digit_byte(b / 16);
            let h2 = hex_digit_byte(b % 16);
            assert(w[0] == 0x5c);
            assert(w[1] == 0x75);
            assert(w[2] == 0x30);
            assert(w[3] == 0x30);
            assert(w[4] == h1);
            assert(w[5] == h2);
            assert(w.len() >= 6);
            assert(is_hex(0x30) && hex_val(0x30) == 0);
            assert(b / 16 < 2);
            assert(is_hex(h1) && hex_val(h1) == b / 16);
            assert(is_hex(h2) && hex_val(h2) == b % 16);
            assert(hex_val(h1) < 8);
            assert((hex_val(h1) * 16 + hex_val(h2)) as u8 == b);
            assert(w.skip(6) =~= w1);
            assert(parse_str_rest(w) == parse_str_cons(b, w.skip(6)));
            assert(seq![b] + x1 =~= x);
        } else {
            assert(w[0] == b);
            assert(w.skip(1) =~= w1);
            assert(parse_str_rest(w) == parse_str_cons(b, w.skip(1)));
            assert(seq![b] + x1 =~= x);
        }
    }
}

/// Every digit of a decimal rendering is a digit, and there is at least one.
pub proof fn lemma_dec_digits(n: nat)
    ensures
        dec_of(n).len() >= 1,
        forall|i: int| 0 <= i < dec_of(n).len() ==> is_digit(#[trigger] dec_of(n)[i]),
    decreases n,
{
    if n >= 10 {
        lemma_dec_digits(n / 10);
        assert forall|i: int| 0 <= i < dec_of(n).len() implies is_digit(#[trigger] dec_of(n)[i]) by {
            if i < dec_of(n / 10).len() {
                assert(dec_of(n)[i] == dec_of(n / 10)[i]);
            } else {
                assert(dec_of(n)[i] == (0x30 + n % 10) as u8);
            }
        }
    }
}

/// The decimal rendering of `n` has value `n`.
pub proof fn lemma_dec_val(n: nat)
    ensures
        val_of_digits(dec_of(n)) == n,
    decreases n,
{
    if n < 10 {
        assert(dec_of(n) =~= seq![(0x30 + n) as u8]);
        assert(dec_of(n).drop_last() =~= Seq::<u8>::empty());
        assert(val_of_digits(Seq::<u8>::empty()) == 0);
        assert(dec_of(n).last() == (0x30 + n) as u8);
        assert(((0x30 + n) as u8) as nat == 0x30 + n);
        assert(val_of_digits(dec_of(n)) == n);
    } else {
        lemma_dec_val(n / 10);
        lemma_dec_digits(n / 10);
        assert(dec_of(n).drop_last() =~= dec_of(n / 10));
        assert(dec_of(n).last() == (0x30 + n % 10) as u8);
        assert(val_of_digits(dec_of(n)) == (n / 10) * 10 + n % 10);
    }
}

/// The decimal rendering of a 64-bit value, followed by a non-digit, parses
/// back to exactly that value.
pub proof fn lemma_parse_num_emit(n: u64, rest: Seq<u8>)
    requires
        rest.len() > 0,
        !is_digit(rest[0]),
    ensures
        parse_num(dec_of(n as nat) + rest) == Some((n, rest)),
{
    let d = dec_of(n as nat);
    let s = d + rest;
    lemma_dec_digits(n as nat);
    lemma_dec_val(n as nat);
    let k = d.len() as int;
    assert forall|j: int| 0 <= j < k implies is_digit(s[j]) by {
        assert(s[j] == d[j]);
    }
    assert(s[k] == rest[0]);
    lemma_digits_prefix_exact(s, k);
    assert(s.take(k) =~= d);
    assert(s.skip(k) =~= rest);
}

/// The bytes written for one escaped content byte are ASCII.
proof fn lemma_esc_byte_ascii(b: u8)
    requires
        b < 0x80,
    ensures
        crate::ascii::is_ascii_bytes(esc_byte(b)),
{
}

/// Prepending one well-formed scalar encoding to valid UTF-8 bytes yields
/// valid UTF-8 bytes.
proof fn lemma_valid_scalar_prepend(v: Seq<u8>, tail: Seq<u8>)
    requires
        vstd::utf8::valid_first_scalar(v),
        vstd::utf8::length_of_first_scalar(v) <= v.len(),
        vstd::utf8::valid_utf8(tail),
    ensures
        vstd::utf8::valid_utf8(v.take(vstd::utf8::length_of_first_scalar(v)) + tail),
{
    let ln = vstd::utf8::length_of_first_scalar(v);
    let w = v.take(ln) + tail;
    assert(w[0] == v[0]);
    if ln >= 2 {
        assert(w[1] == v[1]);
    }
    if ln >= 3 {
        assert(w[2] == v[2]);
    }
    if ln >= 4 {
        assert(w[3] == v[3]);
    }
    assert(vstd::utf8::valid_leading_and_continuation_bytes_first_codepoint(w));
    assert(vstd::utf8::length_of_first_codepoint(w) == ln);
    assert(vstd::utf8::decode_first_codepoint(w) == vstd::utf8::decode_first_codepoint(v));
    assert(vstd::utf8::valid_first_scalar(w));
    assert(vstd::utf8::pop_first_scalar(w) =~= tail);
    assert(vstd::utf8::valid_utf8(w));
}

/// Escaping valid UTF-8 bytes yields valid UTF-8 bytes.
pub proof fn lemma_esc_valid(v: Seq<u8>)
    requires
        vstd::utf8::valid_utf8(v),
    ensures
        vstd::utf8::valid_utf8(esc(v)),
    decreases v.len(),
{
    if v.len() == 0 {
        assert(esc(v) =~= Seq::<u8>::empty());
    } else {
        assert(vstd::utf8::valid_first_scalar(v));
        let ln = vstd::utf8::length_of_first_scalar(v);
        assert(1 <= ln <= v.len());
        let rest = vstd::utf8::pop_first_scalar(v);
        assert(rest =~= v.skip(ln));
        lemma_esc_valid(rest);
        if ln == 1 {
            let b = v[0];
            assert(vstd::utf8::is_leading_byte_width_1(b));
            assert(v.drop_first() =~= rest);
            assert(esc(v) =~= esc_byte(b) + esc(rest));
            lemma_esc_byte_ascii(b);
            crate::ascii::lemma_ascii_utf8(esc_byte(b));
            crate::ascii::lemma_valid_utf8_concat(esc_byte(b), esc(rest));
        } else {
            assert(vstd::utf8::is_continuation_byte(v[1]));
            assert forall|i: int| 0 <= i < ln implies v.take(ln)[i] != 0x22 && v.take(ln)[i]
                != 0x5c && v.take(ln)[i] >= 0x20 by {
                assert(v.take(ln)[i] == v[i]);
                if i == 0 {
                    assert(v[0] >= 0xc0);
                } else {
                    assert(vstd::utf8::is_continuation_byte(v[i]));
                }
            }
            lemma_esc_id(v.take(ln));
            assert(v =~= v.take(ln) + v.skip(ln));
            lemma_esc_append(v.take(ln), v.skip(ln));
            assert(esc(v) =~= v.take(ln) + esc(rest));
            lemma_valid_scalar_prepend(v, esc(rest));
        }
    }
}

/// Parsing one emitted member: a quoted plain key, a colon, and a value
/// whose parse is already known, append one field and leave the given rest.
proof fn lemma_member_head(key: Seq<u8>, vrest: Seq<u8>)
    requires
        no_special(key),
    ensures
        ({
            let s = seq![0x22u8] + key + seq![0x22u8, 0x3au8] + vrest;
            &&& s.len() > 0
            &&& s[0] == 0x22
            &&& parse_str_rest(s.drop_first()) == Some((key, seq![0x3au8] + vrest))
            &&& skip_ws(seq![0x3au8] + vrest) == seq![0x3au8] + vrest
            &&& (seq![0x3au8] + vrest)[0] == 0x3a
            &&& skip_ws((seq![0x3au8] + vrest).drop_first()) == skip_ws(vrest)
        }),
{
    let s = seq![0x22u8] + key + seq![0x22u8, 0x3au8] + vrest;
    assert(s[0] == 0x22);
    assert(s.drop_first() =~= key + seq![0x22u8] + (seq![0x3au8] + vrest));
    lemma_parse_plain(key, seq![0x3au8] + vrest);
    assert((seq![0x3au8] + vrest)[0] == 0x3a);
    assert((seq![0x3au8] + vrest).drop_first() =~= vrest);
}

/// One emitted `"id"` member parses to its unescaped content.
proof fn lemma_member_id(idb: Seq<u8>, rest: Seq<u8>, acc: RawDoc)
    requires
        acc.id is None,
    ensures
        parse_member(
            seq![0x22u8] + id_key() + seq![0x22u8, 0x3au8] + (seq![0x22u8] + esc(idb) + seq![
                0x22u8,
            ] + rest),
            acc,
        ) == Ok::<(RawDoc, Seq<u8>), DecodeError>((RawDoc { id: Some(idb), ..acc }, rest)),
{
    let v = seq![0x22u8] + esc(idb) + seq![0x22u8] + rest;
    assert(no_special(id_key()));
    lemma_member_head(id_key(), v);
    assert(v[0] == 0x22);
    assert(skip_ws(v) == v);
    assert(v.drop_first() =~= esc(idb) + seq![0x22u8] + rest);
    lemma_parse_esc(idb, rest);
    assert(parse_string_value(v) == Some((idb, rest)));
}

/// One emitted `"timestamp"` member parses to its value.
proof fn lemma_member_ts(ts: u64, rest: Seq<u8>, acc: RawDoc)
    requires
        acc.ts is None,
        rest.len() > 0,
        !is_digit(rest[0]),
    ensures
        parse_member(
            seq![0x22u8] + ts_key() + seq![0x22u8, 0x3au8] + (dec_of(ts as nat) + rest),
            acc,
        ) == Ok::<(RawDoc, Seq<u8>), DecodeError>((RawDoc { ts: Some(ts), ..acc }, rest)),
{
    let v = dec_of(ts as nat) + rest;
    assert(no_special(ts_key()));
    assert(id_key().len() != ts_key().len());
    lemma_member_head(ts_key(), v);
    lemma_dec_digits(ts as nat);
    assert(v[0] == dec_of(ts as nat)[0]);
    assert(skip_ws(v) == v);
    lemma_parse_num_emit(ts, rest);
}

/// One emitted `"publicKeyInput"` member holding a string parses to it.
proof fn lemma_member_in_str(t: Seq<u8>, rest: Seq<u8>, acc: RawDoc)
    requires
        acc.pk_in is None,
        no_special(t),
    ensures
        parse_member(
            seq![0x22u8] + in_key() + seq![0x22u8, 0x3au8] + (seq![0x22u8] + t + seq![0x22u8]
                + rest),
            acc,
        ) == Ok::<(RawDoc, Seq<u8>), DecodeError>((RawDoc { pk_in: Some(Some(t)), ..acc }, rest)),
{
    let v = seq![0x22u8] + t + seq![0x22u8] + rest;
    assert(no_special(in_key()));
    assert(in_key().len() != id_key().len());
    assert(in_key().len() != ts_key().len());
    lemma_member_head(in_key(), v);
    assert(v[0] == 0x22);
    assert(skip_ws(v) == v);
    if v.len() >= 4 && v.take(4) == null_lit() {
        assert(v.take(4)[0] == 0x22);
        assert(null_lit()[0] == 0x6e);
        assert(false);
    }
    assert(v.drop_first() =~= t + seq![0x22u8] + rest);
    lemma_parse_plain(t, rest);
    assert(parse_string_value(v) == Some((t, rest)));
}

/// One emitted `"publicKeyInput"` member holding null parses to no key.
proof fn lemma_member_in_null(rest: Seq<u8>, acc: RawDoc)
    requires
        acc.pk_in is None,
    ensures
        parse_member(
            seq![0x22u8] + in_key() + seq![0x22u8, 0x3au8] + (null_lit() + rest),
            acc,
        ) == Ok::<(RawDoc, Seq<u8>), DecodeError>((RawDoc { pk_in: Some(None), ..acc }, rest)),
{
    let v = null_lit() + rest;
    assert(no_special(in_key()));
    assert(in_key().len() != id_key().len());
    assert(in_key().len() != ts_key().len());
    lemma_member_head(in_key(), v);
    assert(v[0] == 0x6e);
    assert(skip_ws(v) == v);
    assert(v.take(4) =~= null_lit());
    assert(v.skip(4) =~= rest);
}

/// One emitted `"publicKeyOutput"` member parses to its string.
proof fn lemma_member_out(t: Seq<u8>, rest: Seq<u8>, acc: RawDoc)
    requires
        acc.pk_out is None,
        no_special(t),
    ensures
        parse_member(
            seq![0x22u8] + out_key() + seq![0x22u8, 0x3au8] + (seq![0x22u8] + t + seq![0x22u8]
                + rest),
            acc,
        ) == Ok::<(RawDoc, Seq<u8>), DecodeError>((RawDoc { pk_out: Some(t), ..acc }, rest)),
{
    let v = seq![0x22u8] + t + seq![0x22u8] + rest;
    assert(no_special(out_key()));
    assert(out_key().len() != id_key().len());
    assert(out_key().len() != ts_key().len());
    assert(out_key().len() != in_key().len());
    lemma_member_head(out_key(), v);
    assert(v[0] == 0x22);
    assert(skip_ws(v) == v);
    assert(v.drop_first() =~= t + seq![0x22u8] + rest);
    lemma_parse_plain(t, rest);
    assert(parse_string_value(v) == Some((t, rest)));
}

/// One emitted `"signature"` member parses to its string.
proof fn lemma_member_sig(t: Seq<u8>, rest: Seq<u8>, acc: RawDoc)
    requires
        acc.sig is None,
        no_special(t),
    ensures
        parse_member(
            seq![0x22u8] + sig_key() + seq![0x22u8, 0x3au8] + (seq![0x22u8] + t + seq![0x22u8]
                + rest),
            acc,
        ) == Ok::<(RawDoc, Seq<u8>), DecodeError>((RawDoc { sig: Some(t), ..acc }, rest)),
{
    let v = seq![0x22u8] + t + seq![0x22u8] + rest;
    assert(no_special(sig_key()));
    assert(sig_key().len() != id_key().len());
    assert(sig_key() != ts_key()) by {
        assert(sig_key()[0] == 0x73);
        assert(ts_key()[0] == 0x74);
    }
    assert(sig_key().len() != in_key().len());
    assert(sig_key().len() != out_key().len());
    lemma_member_head(sig_key(), v);
    assert(v[0] == 0x22);
    assert(skip_ws(v) == v);
    assert(v.drop_first() =~= t + seq![0x22u8] + rest);
    lemma_parse_plain(t, rest);
    assert(parse_string_value(v) == Some((t, rest)));
}

/// One step of the member walk: a parsed member followed by a comma
/// continues the walk on the next member.
proof fn lemma_members_comma_step(
    s: Seq<u8>,
    acc: RawDoc,
    acc2: RawDoc,
    next: Seq<u8>,
    fuel: nat,
)
    requires
        fuel >= 1,
        parse_member(s, acc) == Ok::<(RawDoc, Seq<u8>), DecodeError>((
            acc2,
            seq![0x2cu8] + next,
        )),
        next.len() > 0,
        !is_ws(next[0]),
    ensures
        parse_members(s, acc, fuel) == parse_members(next, acc2, (fuel - 1) as nat),
{
    let c = seq![0x2cu8] + next;
    assert(skip_ws(c) == c);
    assert(c[0] == 0x2c);
    assert(c.drop_first() =~= next);
    assert(skip_ws(next) == next);
}

/// The last step of the member walk: a parsed member followed by the
/// closing brace ends the walk.
proof fn lemma_members_close_step(s: Seq<u8>, acc: RawDoc, acc2: RawDoc, fuel: nat)
    requires
        fuel >= 1,
        parse_member(s, acc) == Ok::<(RawDoc, Seq<u8>), DecodeError>((acc2, seq![0x7du8])),
    ensures
        parse_members(s, acc, fuel) == Ok::<(RawDoc, Seq<u8>), DecodeError>((
            acc2,
            Seq::<u8>::empty(),
        )),
{
    let c = seq![0x7du8];
    assert(skip_ws(c) == c);
    assert(c[0] == 0x7d);
    assert(c.drop_first() =~= Seq::<u8>::empty());
}

/// Decoding the emitted bytes of a transaction record collects exactly the
/// rendered field values: the whole wire round trip above the base64 layer.
#[verifier::rlimit(100)]
#[verifier::spinoff_prover]
pub proof fn lemma_decode_emit(
    id: Seq<char>,
    ts: u64,
    in_txt: Option<Seq<u8>>,
    out_txt: Seq<u8>,
    sig_txt: Seq<u8>,
)
    requires
        (match in_txt {
            Some(t) => no_special(t),
            None => true,
        }),
        no_special(out_txt),
        no_special(sig_txt),
    ensures
        decode_tx(emit_bytes(id, ts, in_txt, out_txt, sig_txt)) == assemble(
            RawDoc {
                id: Some(vstd::utf8::encode_utf8(id)),
                ts: Some(ts),
                pk_in: match in_txt {
                    Some(t) => Some(Some(t)),
                    None => Some(None),
                },
                pk_out: Some(out_txt),
                sig: Some(sig_txt),
            },
        ),
{
    let idb = vstd::utf8::encode_utf8(id);
    let s5 = wire_from_sig(sig_txt);
    let s4 = wire_from_out(out_txt, sig_txt);
    let s3 = wire_from_in(in_txt, out_txt, sig_txt);
    let s2 = wire_from_ts(ts, in_txt, out_txt, sig_txt);
    let s1 = wire_from_id(id, ts, in_txt, out_txt, sig_txt);
    let bs = emit_bytes(id, ts, in_txt, out_txt, sig_txt);

    let raw0 = empty_raw();
    let raw1 = RawDoc { id: Some(idb), ..raw0 };
    let raw2 = RawDoc { ts: Some(ts), ..raw1 };
    let raw3 = RawDoc {
        pk_in: match in_txt {
            Some(t) => Some(Some(t)),
            None => Some(None),
        },
        ..raw2
    };
    let raw4 = RawDoc { pk_out: Some(out_txt), ..raw3 };
    let raw5 = RawDoc { sig: Some(sig_txt), ..raw4 };

    lemma_member_id(idb, seq![0x2cu8] + s2, raw0);
    lemma_member_ts(ts, seq![0x2cu8] + s3, raw1);
    match in_txt {
        Some(t) => {
            lemma_member_in_str(t, seq![0x2cu8] + s4, raw2);
        },
        None => {
            lemma_member_in_null(seq![0x2cu8] + s4, raw2);
        },
    }
    lemma_member_out(out_txt, seq![0x2cu8] + s5, raw3);
    lemma_member_sig(sig_txt, seq![0x7du8], raw4);

    lemma_members_close_step(s5, raw4, raw5, 2);
    lemma_members_comma_step(s4, raw3, raw4, s5, 3);
    lemma_members_comma_step(s3, raw2, raw3, s4, 4);
    lemma_members_comma_step(s2, raw1, raw2, s3, 5);
    lemma_members_comma_step(s1, raw0, raw1, s2, 6);
    assert(parse_members(s1, raw0, 6) == Ok::<(RawDoc, Seq<u8>), DecodeError>((
        raw5,
        Seq::<u8>::empty(),
    )));

    assert(bs[0] == 0x7b);
    assert(skip_ws(bs) == bs);
    assert(bs.drop_first() =~= s1);
    assert(s1[0] == 0x22);
    assert(skip_ws(s1) == s1);
    assert(skip_ws(Seq::<u8>::empty()).len() == 0);
    assert(decode_tx(bs) == assemble(raw5));
    assert(raw5 =~= RawDoc {
        id: Some(idb),
        ts: Some(ts),
        pk_in: match in_txt {
            Some(t) => Some(Some(t)),
            None => Some(None),
        },
        pk_out: Some(out_txt),
        sig: Some(sig_txt),
    });
}

/// ASCII bytes concatenate to ASCII bytes.
pub proof fn lemma_ascii_concat(a: Seq<u8>, b: Seq<u8>)
    requires
        crate::ascii::is_ascii_bytes(a),
        crate::ascii::is_ascii_bytes(b),
    ensures
        crate::ascii::is_ascii_bytes(a + b),
{
    assert forall|i: int| 0 <= i < (a + b).len() implies (a + b)[i] < 0x80 by {
        if i < a.len() {
            assert((a + b)[i] == a[i]);
        } else {
            assert((a + b)[i] == b[i - a.len()]);
        }
    }
}

/// The decimal rendering is ASCII.
proof fn lemma_dec_ascii(n: nat)
    ensures
        crate::ascii::is_ascii_bytes(dec_of(n)),
{
    lemma_dec_digits(n);
}

/// The wire text from the `"timestamp"` member on is ASCII whenever the
/// base64 texts are.
proof fn lemma_wire_ts_ascii(ts: u64, in_txt: Option<Seq<u8>>, out_txt: Seq<u8>, sig_txt: Seq<u8>)
    requires
        (match in_txt {
            Some(t) => crate::ascii::is_ascii_bytes(t),
            None => true,
        }),
        crate::ascii::is_ascii_bytes(out_txt),
        crate::ascii::is_ascii_bytes(sig_txt),
    ensures
        crate::ascii::is_ascii_bytes(wire_from_ts(ts, in_txt, out_txt, sig_txt)),
{
    let q = seq![0x22u8];
    let qc = seq![0x22u8, 0x3au8];
    let comma = seq![0x2cu8];
    assert(crate::ascii::is_ascii_bytes(q));
    assert(crate::ascii::is_ascii_bytes(qc));
    assert(crate::ascii::is_ascii_bytes(comma));
    assert(crate::ascii::is_ascii_bytes(seq![0x7du8]));
    assert(crate::ascii::is_ascii_bytes(null_lit()));
    assert(crate::ascii::is_ascii_bytes(id_key()));
    assert(crate::ascii::is_ascii_bytes(ts_key()));
    assert(crate::ascii::is_ascii_bytes(in_key()));
    assert(crate::ascii::is_ascii_bytes(out_key()));
    assert(crate::ascii::is_ascii_bytes(sig_key()));

    lemma_ascii_concat(q, sig_txt);
    lemma_ascii_concat(q + sig_txt, q);
    lemma_ascii_concat(q + sig_txt + q, seq![0x7du8]);
    lemma_ascii_concat(q, sig_key());
    lemma_ascii_concat(q + sig_key(), qc);
    lemma_ascii_concat(q + sig_key() + qc, q + sig_txt + q + seq![0x7du8]);
    assert(crate::ascii::is_ascii_bytes(wire_from_sig(sig_txt)));

    let s5 = wire_from_sig(sig_txt);
    lemma_ascii_concat(comma, s5);
    lemma_ascii_concat(q, out_txt);
    lemma_ascii_concat(q + out_txt, q);
    lemma_ascii_concat(q + out_txt + q, comma + s5);
    lemma_ascii_concat(q, out_key());
    lemma_ascii_concat(q + out_key(), qc);
    lemma_ascii_concat(q + out_key() + qc, q + out_txt + q + (comma + s5));
    assert(crate::ascii::is_ascii_bytes(wire_from_out(out_txt, sig_txt)));

    let s4 = wire_from_out(out_txt, sig_txt);
    lemma_ascii_concat(comma, s4);
    lemma_ascii_concat(q, in_key());
    lemma_ascii_concat(q + in_key(), qc);
    match in_txt {
        Some(t) => {
            lemma_ascii_concat(q, t);
            lemma_ascii_concat(q + t, q);
            lemma_ascii_concat(q + t + q, comma + s4);
            lemma_ascii_concat(q + in_key() + qc, q + t + q + (comma + s4));
        },
        None => {
            lemma_ascii_concat(null_lit(), comma + s4);
            lemma_ascii_concat(q + in_key() + qc, null_lit() + (comma + s4));
        },
    }
    assert(crate::ascii::is_ascii_bytes(wire_from_in(in_txt, out_txt, sig_txt)));

    let s3 = wire_from_in(in_txt, out_txt, sig_txt);
    lemma_dec_ascii(ts as nat);
    lemma_ascii_concat(comma, s3);
    lemma_ascii_concat(dec_of(ts as nat), comma + s3);
    lemma_ascii_concat(q, ts_key());
    lemma_ascii_concat(q + ts_key(), qc);
    lemma_ascii_concat(q + ts_key() + qc, dec_of(ts as nat) + (comma + s3));
    assert(crate::ascii::is_ascii_bytes(wire_from_ts(ts, in_txt, out_txt, sig_txt)));
}

/// The emitted wire bytes are valid UTF-8 whenever the base64 texts are
/// ASCII: everything but the escaped id is ASCII, and the escaped id is
/// valid UTF-8 because the id's encoding is.
pub proof fn lemma_emit_valid(
    id: Seq<char>,
    ts: u64,
    in_txt: Option<Seq<u8>>,
    out_txt: Seq<u8>,
    sig_txt: Seq<u8>,
)
    requires
        (match in_txt {
            Some(t) => crate::ascii::is_ascii_bytes(t),
            None => true,
        }),
        crate::ascii::is_ascii_bytes(out_txt),
        crate::ascii::is_ascii_bytes(sig_txt),
    ensures
        vstd::utf8::valid_utf8(emit_bytes(id, ts, in_txt, out_txt, sig_txt)),
{
    let idb = vstd::utf8::encode_utf8(id);
    let q = seq![0x22u8];
    let qc = seq![0x22u8, 0x3au8];
    let comma = seq![0x2cu8];
    lemma_wire_ts_ascii(ts, in_txt, out_txt, sig_txt);
    let s2 = wire_from_ts(ts, in_txt, out_txt, sig_txt);
    vstd::utf8::encode_utf8_valid_utf8(id);
    lemma_esc_valid(idb);
    lemma_ascii_concat(comma, s2);
    crate::ascii::lemma_ascii_utf8(comma + s2);
    crate::ascii::lemma_ascii_utf8(q);
    crate::ascii::lemma_valid_utf8_concat(q, esc(idb));
    crate::ascii::lemma_valid_utf8_concat(q + esc(idb), q);
    crate::ascii::lemma_valid_utf8_concat(q + esc(idb) + q, comma + s2);
    assert(crate::ascii::is_ascii_bytes(id_key()));
    lemma_ascii_concat(q, id_key());
    lemma_ascii_concat(q + id_key(), qc);
    crate::ascii::lemma_ascii_utf8(q + id_key() + qc);
    crate::ascii::lemma_valid_utf8_concat(q + id_key() + qc, q + esc(idb) + q + (comma + s2));
    assert(vstd::utf8::valid_utf8(wire_from_id(id, ts, in_txt, out_txt, sig_txt)));
    crate::ascii::lemma_ascii_utf8(seq![0x7bu8]);
    crate::ascii::lemma_valid_utf8_concat(
        seq![0x7bu8],
        wire_from_id(id, ts, in_txt, out_txt, sig_txt),
    );
}

/// Append the key `"id"`.
fn push_id_key(buf: &mut Vec<u8>)
    ensures
        final(buf)@ == old(buf)@ + id_key(),
{
    let a: [u8; 2] = [0x69, 0x64];
    proof {
        assert(a@ =~= id_key());
    }
    crate::transaction::push_all(buf, a.as_slice());
}

/// Append the key `"timestamp"`.
fn push_ts_key(buf: &mut Vec<u8>)
    ensures
        final(buf)@ == old(buf)@ + ts_key(),
{
    let a: [u8; 9] = [0x74, 0x69, 0x6d, 0x65, 0x73, 0x74, 0x61, 0x6d, 0x70];
    proof {
        assert(a@ =~= ts_key());
    }
    crate::transaction::push_all(buf, a.as_slice());
}

/// Append the key `"publicKeyInput"`.
fn push_in_key(buf: &mut Vec<u8>)
    ensures
        final(buf)@ == old(buf)@ + in_key(),
{
    let a: [u8; 14] = [
        0x70,
        0x75,
        0x62,
        0x6c,
        0x69,
        0x63,
        0x4b,
        0x65,
        0x79,
        0x49,
        0x6e,
        0x70,
        0x75,
        0x74,
    ];
    proof {
        assert(a@ =~= in_key());
    }
    crate::transaction::push_all(buf, a.as_slice());
}

/// Append the key `"publicKeyOutput"`.
fn push_out_key(buf: &mut Vec<u8>)
    ensures
        final(buf)@ == old(buf)@ + out_key(),
{
    let a: [u8; 15] = [
        0x70,
        0x75,
        0x62,
        0x6c,
        0x69,
        0x63,
        0x4b,
        0x65,
        0x79,
        0x4f,
        0x75,
        0x74,
        0x70,
        0x75,
        0x74,
    ];
    proof {
        assert(a@ =~= out_key());
    }
    crate::transaction::push_all(buf, a.as_slice());
}

/// Append the key `"signature"`.
fn push_sig_key(buf: &mut Vec<u8>)
    ensures
        final(buf)@ == old(buf)@ + sig_key(),
{
    let a: [u8; 9] = [0x73, 0x69, 0x67, 0x6e, 0x61, 0x74, 0x75, 0x72, 0x65];
    proof {
        assert(a@ =~= sig_key());
    }
    crate::transaction::push_all(buf, a.as_slice());
}

/// Append the wire text from the `"signature"` member to the closing brace.
fn push_from_sig(buf: &mut Vec<u8>, sig_txt: &Vec<u8>)
    ensures
        final(buf)@ == old(buf)@ + wire_from_sig(sig_txt@),
{
    buf.push(0x22);
    push_sig_key(buf);
    buf.push(0x22);
    buf.push(0x3a);
    buf.push(0x22);
    crate::transaction::push_all(buf, sig_txt.as_slice());
    buf.push(0x22);
    buf.push(0x7d);
    proof {
        assert(buf@ =~= old(buf)@ + wire_from_sig(sig_txt@));
    }
}

/// Append the wire text from the `"publicKeyOutput"` member on.
fn push_from_out(buf: &mut Vec<u8>, out_txt: &Vec<u8>, sig_txt: &Vec<u8>)
    ensures
        final(buf)@ == old(buf)@ + wire_from_out(out_txt@, sig_txt@),
{
    buf.push(0x22);
    push_out_key(buf);
    buf.push(0x22);
    buf.push(0x3a);
    buf.push(0x22);
    crate::transaction::push_all(buf, out_txt.as_slice());
    buf.push(0x22);
    buf.push(0x2c);
    push_from_sig(buf, sig_txt);
    proof {
        assert(buf@ =~= old(buf)@ + wire_from_out(out_txt@, sig_txt@));
    }
}

/// Append the wire text from the `"publicKeyInput"` member on.
fn push_from_in(buf: &mut Vec<u8>, in_txt: &Option<Vec<u8>>, out_txt: &Vec<u8>, sig_txt: &Vec<u8>)
    ensures
        final(buf)@ == old(buf)@ + wire_from_in(
            (match *in_txt {
                Some(ref t) => Some(t@),
                None => None,
            }),
            out_txt@,
            sig_txt@,
        ),
{
    buf.push(0x22);
    push_in_key(buf);
    buf.push(0x22);
    buf.push(0x3a);
    match in_txt {
        Some(t) => {
            buf.push(0x22);
            crate::transaction::push_all(buf, t.as_slice());
            buf.push(0x22);
        },
        None => {
            buf.push(0x6e);
            buf.push(0x75);
            buf.push(0x6c);
            buf.push(0x6c);
        },
    }
    buf.push(0x2c);
    push_from_out(buf, out_txt, sig_txt);
    proof {
        assert(buf@ =~= old(buf)@ + wire_from_in(
            (match *in_txt {
                Some(ref t) => Some(t@),
                None => None,
            }),
            out_txt@,
            sig_txt@,
        ));
    }
}

/// Append the wire text from the `"timestamp"` member on.
fn push_from_ts(
    buf: &mut Vec<u8>,
    ts: u64,
    in_txt: &Option<Vec<u8>>,
    out_txt: &Vec<u8>,
    sig_txt: &Vec<u8>,
)
    ensures
        final(buf)@ == old(buf)@ + wire_from_ts(
            ts,
            (match *in_txt {
                Some(ref t) => Some(t@),
                None => None,
            }),
            out_txt@,
            sig_txt@,
        ),
{
    buf.push(0x22);
    push_ts_key(buf);
    buf.push(0x22);
    buf.push(0x3a);
    push_dec(buf, ts);
    buf.push(0x2c);
    push_from_in(buf, in_txt, out_txt, sig_txt);
    proof {
        assert(buf@ =~= old(buf)@ + wire_from_ts(
            ts,
            (match *in_txt {
                Some(ref t) => Some(t@),
                None => None,
            }),
            out_txt@,
            sig_txt@,
        ));
    }
}

/// Append the whole wire object for the given rendered fields.
pub(crate) fn push_wire(
    buf: &mut Vec<u8>,
    id: &str,
    ts: u64,
    in_txt: &Option<Vec<u8>>,
    out_txt: &Vec<u8>,
    sig_txt: &Vec<u8>,
)
    ensures
        final(buf)@ == old(buf)@ + emit_bytes(
            id@,
            ts,
            (match *in_txt {
                Some(ref t) => Some(t@),
                None => None,
            }),
            out_txt@,
            sig_txt@,
        ),
{
    buf.push(0x7b);
    buf.push(0x22);
    push_id_key(buf);
    buf.push(0x22);
    buf.push(0x3a);
    buf.push(0x22);
    esc_push_all(buf, id.as_bytes());
    buf.push(0x22);
    buf.push(0x2c);
    push_from_ts(buf, ts, in_txt, out_txt, sig_txt);
    proof {
        assert(buf@ =~= old(buf)@ + emit_bytes(
            id@,
            ts,
            (match *in_txt {
                Some(ref t) => Some(t@),
                None => None,
            }),
            out_txt@,
            sig_txt@,
        ));
    }
}

/// Walk the members from the first member's opening quote through the
/// closing brace, exactly as `parse_members` says for the same budget.
pub(crate) fn p_members(bs: &Vec<u8>, start: usize, raw: &mut RawX, fuel: u8) -> (r: Result<
    usize,
    DecodeError,
>)
    requires
        start <= bs@.len(),
    ensures
        match r {
            Ok(j) => j <= bs@.len() && parse_members(bs@.skip(start as int), old(raw)@, fuel as nat)
                == Ok::<(RawDoc, Seq<u8>), DecodeError>((final(raw)@, bs@.skip(j as int))),
            Err(e) => parse_members(bs@.skip(start as int), old(raw)@, fuel as nat) == Err::<
                (RawDoc, Seq<u8>),
                DecodeError,
            >(e),
        },
    decreases fuel,
{
    if fuel == 0 {
        return Err(DecodeError::MalformedJson);
    }
    match p_member(bs, start, raw) {
        Err(e) => Err(e),
        Ok(j) => {
            let j1 = skip_ws_x(bs, j);
            if j1 >= bs.len() {
                return Err(DecodeError::MalformedJson);
            }
            proof {
                assert(bs@.skip(j1 as int)[0] == bs@[j1 as int]);
                assert(bs@.skip(j1 as int).drop_first() =~= bs@.skip(j1 as int + 1));
            }
            if bs[j1] == 0x7d {
                Ok(j1 + 1)
            } else if bs[j1] == 0x2c {
                let j2 = skip_ws_x(bs, j1 + 1);
                p_members(bs, j2, raw, fuel - 1)
            } else {
                Err(DecodeError::MalformedJson)
            }
        },
    }
}

/// Base64 text is ASCII and needs no escaping inside a JSON string.
pub proof fn lemma_b64_text_plain(t: Seq<u8>)
    requires
        crate::b64::is_b64_text(t),
    ensures
        crate::ascii::is_ascii_bytes(t),
        no_special(t),
{
    assert forall|i: int| 0 <= i < t.len() implies t[i] < 0x80 by {
        assert(crate::b64::is_b64_byte(t[i]));
    }
    assert forall|i: int| 0 <= i < t.len() implies t[i] != 0x22 && t[i] != 0x5c && t[i]
        >= 0x20 by {
        assert(crate::b64::is_b64_byte(t[i]));
    }
}

} // verus!
