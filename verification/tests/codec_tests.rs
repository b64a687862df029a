use custody_chain::json::DecodeError;
use custody_chain::transaction::Transaction;

#[test]
fn test_json_round_trip_register() {
    let (t, _) = Transaction::debug_make_register("SN1337BIKE".to_string());
    let json = t.to_json();
    let back = Transaction::from_json(&json).expect("round trip must decode");
    assert_eq!(back, t);
}

#[test]
fn test_json_round_trip_transfer() {
    let (t0, sk0) = Transaction::debug_make_register("SN1337BIKE".to_string());
    let (t1, _) = Transaction::debug_make_transfer(&t0, &sk0);
    let json = t1.to_json();
    let back = Transaction::from_json(&json).expect("round trip must decode");
    assert_eq!(back, t1);
    assert_eq!(back.verify(), Ok(()));
    assert!(back.verify_is_next(&t0));
}

#[test]
fn test_json_round_trip_exotic_id() {
    let t = Transaction::from_details(
        "sn \"quoted\"\\\n\tümlaut\u{1F6B2}".to_string(),
        u64::MAX,
        Some(vec![0u8; 32]),
        vec![255u8; 32],
        vec![170u8; 80],
    );
    let json = t.to_json();
    let back = Transaction::from_json(&json).expect("round trip must decode");
    assert_eq!(back, t);
}

#[test]
fn test_to_json_exact_text() {
    let t = Transaction::from_details("a".to_string(), 5, None, vec![1], vec![2]);
    assert_eq!(
        t.to_json(),
        "{\"id\":\"a\",\"timestamp\":5,\"publicKeyInput\":null,\
         \"publicKeyOutput\":\"AQ==\",\"signature\":\"Ag==\"}"
    );
}

#[test]
fn test_to_json_escapes_id() {
    let t = Transaction::from_details("a\"b\\c\n".to_string(), 0, None, vec![1], vec![2]);
    assert_eq!(
        t.to_json(),
        "{\"id\":\"a\\\"b\\\\c\\u000a\",\"timestamp\":0,\"publicKeyInput\":null,\
         \"publicKeyOutput\":\"AQ==\",\"signature\":\"Ag==\"}"
    );
}

#[test]
fn test_from_json_accepts_whitespace_and_any_order() {
    let json = " { \"signature\" : \"Ag==\" ,\n\t\"id\" : \"bike\" , \"timestamp\" : 12 ,\
                \"publicKeyOutput\" : \"AQ==\" , \"publicKeyInput\" : null } ";
    let t = Transaction::from_json(json).expect("must decode");
    assert_eq!(t.get_id(), "bike");
    assert_eq!(t.get_timestamp(), 12);
    assert!(!t.has_input());
    assert_eq!(t.get_public_key_output(), &vec![1u8]);
    assert_eq!(t.get_signature(), &vec![2u8]);
}

#[test]
fn test_from_json_missing_input_key_means_none() {
    let json = "{\"id\":\"b\",\"timestamp\":3,\"publicKeyOutput\":\"AQ==\",\
                \"signature\":\"Ag==\"}";
    let t = Transaction::from_json(json).expect("must decode");
    assert!(!t.has_input());
}

#[test]
fn test_from_json_input_key_string() {
    let json = "{\"id\":\"b\",\"timestamp\":3,\"publicKeyInput\":\"AQID\",\
                \"publicKeyOutput\":\"AQ==\",\"signature\":\"Ag==\"}";
    let t = Transaction::from_json(json).expect("must decode");
    assert_eq!(t.get_public_key_input().as_ref().unwrap(), &vec![1u8, 2, 3]);
}

#[test]
fn test_from_json_unicode_escape() {
    let json = "{\"id\":\"\\u0041x\",\"timestamp\":3,\"publicKeyInput\":null,\
                \"publicKeyOutput\":\"AQ==\",\"signature\":\"Ag==\"}";
    let t = Transaction::from_json(json).expect("must decode");
    assert_eq!(t.get_id(), "Ax");
}

#[test]
fn test_decode_missing_signature() {
    let json = "{\"id\":\"b\",\"timestamp\":3,\"publicKeyInput\":null,\
                \"publicKeyOutput\":\"AQ==\"}";
    assert_eq!(
        Transaction::from_json(json),
        Err(DecodeError::SignatureInvalid)
    );
}

#[test]
fn test_decode_output_key_not_base64() {
    let json = "{\"id\":\"b\",\"timestamp\":3,\"publicKeyInput\":null,\
                \"publicKeyOutput\":\"!!not base64!!\",\"signature\":\"Ag==\"}";
    assert_eq!(
        Transaction::from_json(json),
        Err(DecodeError::OutputKeyInvalid)
    );
}

#[test]
fn test_decode_negative_timestamp() {
    let json = "{\"id\":\"b\",\"timestamp\":-5,\"publicKeyInput\":null,\
                \"publicKeyOutput\":\"AQ==\",\"signature\":\"Ag==\"}";
    assert_eq!(
        Transaction::from_json(json),
        Err(DecodeError::TimestampInvalid)
    );
}

#[test]
fn test_decode_huge_timestamp() {
    let json = "{\"id\":\"b\",\"timestamp\":18446744073709551616,\"publicKeyInput\":null,\
                \"publicKeyOutput\":\"AQ==\",\"signature\":\"Ag==\"}";
    assert_eq!(
        Transaction::from_json(json),
        Err(DecodeError::TimestampInvalid)
    );
}

#[test]
fn test_decode_max_timestamp_ok() {
    let json = "{\"id\":\"b\",\"timestamp\":18446744073709551615,\"publicKeyInput\":null,\
                \"publicKeyOutput\":\"AQ==\",\"signature\":\"Ag==\"}";
    let t = Transaction::from_json(json).expect("must decode");
    assert_eq!(t.get_timestamp(), u64::MAX);
}

#[test]
fn test_decode_id_not_string() {
    let json = "{\"id\":7,\"timestamp\":3,\"publicKeyInput\":null,\
                \"publicKeyOutput\":\"AQ==\",\"signature\":\"Ag==\"}";
    assert_eq!(Transaction::from_json(json), Err(DecodeError::IdInvalid));
}

#[test]
fn test_decode_malformed_json() {
    assert_eq!(
        Transaction::from_json("{"),
        Err(DecodeError::MalformedJson)
    );
    assert_eq!(
        Transaction::from_json("not json at all"),
        Err(DecodeError::MalformedJson)
    );
    assert_eq!(Transaction::from_json(""), Err(DecodeError::MalformedJson));
}

#[test]
fn test_decode_empty_object() {
    assert_eq!(Transaction::from_json("{}"), Err(DecodeError::IdInvalid));
}

#[test]
fn test_decode_trailing_garbage() {
    let json = "{\"id\":\"b\",\"timestamp\":3,\"publicKeyInput\":null,\
                \"publicKeyOutput\":\"AQ==\",\"signature\":\"Ag==\"} x";
    assert_eq!(
        Transaction::from_json(json),
        Err(DecodeError::MalformedJson)
    );
}

#[test]
fn test_decode_unknown_key() {
    let json = "{\"id\":\"b\",\"timestamp\":3,\"publicKeyInput\":null,\
                \"publicKeyOutput\":\"AQ==\",\"signature\":\"Ag==\",\"extra\":\"x\"}";
    assert_eq!(
        Transaction::from_json(json),
        Err(DecodeError::MalformedJson)
    );
}

#[test]
fn test_decode_duplicate_key() {
    let json = "{\"id\":\"b\",\"id\":\"c\",\"timestamp\":3,\"publicKeyInput\":null,\
                \"publicKeyOutput\":\"AQ==\",\"signature\":\"Ag==\"}";
    assert_eq!(
        Transaction::from_json(json),
        Err(DecodeError::MalformedJson)
    );
}

#[test]
fn test_decode_error_messages() {
    assert!(!DecodeError::MalformedJson.message().is_empty());
    assert!(!DecodeError::IdInvalid.message().is_empty());
    assert!(!DecodeError::TimestampInvalid.message().is_empty());
    assert!(!DecodeError::InputKeyInvalid.message().is_empty());
    assert!(!DecodeError::OutputKeyInvalid.message().is_empty());
    assert!(!DecodeError::SignatureInvalid.message().is_empty());
}

#[test]
fn test_decoded_transaction_still_verifies() {
    let (t, _) = Transaction::debug_make_register("SN1337BIKE".to_string());
    let back = Transaction::from_json(&t.to_json()).expect("must decode");
    assert_eq!(back.verify(), Ok(()));
}
