use custody_chain::transaction::{SecretKey, Transaction, VerificationError};

#[test]
fn test_sign_verify() {
    // make a transaction, sign it and verify
    let (mut t, sk) = Transaction::debug_make_register(format!("SN1337BIKE"));
    t.sign(&sk);
    assert_eq!(t.verify(), Ok(()));

    // tamper with the transaction content
    t.id += "1";
    assert_ne!(t.verify(), Ok(()));
}

#[test]
fn test_verify_is_next() {
    // T0 - make the first "register" transaction
    let (t0, sk0) = Transaction::debug_make_register(format!("SN1337BIKE"));
    assert_eq!(t0.verify(), Ok(()));

    // T1 - make the second "transfer" transaction
    let (t1, sk1) = Transaction::debug_make_transfer(&t0, &sk0);
    assert_eq!(t1.verify(), Ok(()));
    assert_eq!(t1.verify_is_next(&t0), true);

    // T2 - make the third "transfer" transaction
    let (t2, _) = Transaction::debug_make_transfer(&t1, &sk1);
    assert_eq!(t2.verify(), Ok(()));
    assert_eq!(t2.verify_is_next(&t1), true);
}

#[test]
fn test_register_transfer_chain_scenario() {
    let (t0, sk0) = Transaction::debug_make_register("SN1337BIKE".to_string());
    let (t1, sk1) = Transaction::debug_make_transfer(&t0, &sk0);
    let (t2, _sk2) = Transaction::debug_make_transfer(&t1, &sk1);
    assert_eq!(t0.verify(), Ok(()));
    assert_eq!(t1.verify(), Ok(()));
    assert_eq!(t2.verify(), Ok(()));
    assert!(t1.verify_is_next(&t0));
    assert!(t2.verify_is_next(&t1));
    assert!(!t2.verify_is_next(&t0));
}

#[test]
fn test_register_is_never_next() {
    let (a, _) = Transaction::debug_make_register("ASSET-A".to_string());
    let (b, _) = Transaction::debug_make_register("ASSET-A".to_string());
    assert_eq!(b.verify(), Ok(()));
    // two independently registered transactions are not chained
    assert!(!b.verify_is_next(&a));
    assert!(!a.verify_is_next(&b));
}

#[test]
fn test_genesis_deterministic() {
    let (g1, sk1) = Transaction::make_genesis();
    let (g2, sk2) = Transaction::make_genesis();
    assert_eq!(g1.get_id(), "GENESIS");
    assert_eq!(g1.get_timestamp(), 0);
    assert!(g1.get_public_key_input().is_none());
    assert_eq!(g1.get_id(), g2.get_id());
    assert_eq!(g1.get_timestamp(), g2.get_timestamp());
    assert_eq!(g1.get_public_key_output(), g2.get_public_key_output());
    assert_eq!(g1.get_signature(), g2.get_signature());
    assert_eq!(sk1.bytes, sk2.bytes);
    assert_eq!(g1.verify(), Ok(()));
}

#[test]
fn test_tamper_timestamp_fails_verify() {
    let (mut t, _) = Transaction::debug_make_register("SNX".to_string());
    assert_eq!(t.verify(), Ok(()));
    t.timestamp = t.timestamp.wrapping_add(1);
    assert_eq!(t.verify(), Err(VerificationError::ContentMismatch));
}

#[test]
fn test_set_id_invalidates() {
    let (mut t, _) = Transaction::debug_make_register("SNY".to_string());
    t.set_id("SNY2");
    assert_eq!(t.get_id(), "SNY2");
    assert_eq!(t.verify(), Err(VerificationError::ContentMismatch));
}

#[test]
fn test_verify_bad_key_length() {
    let t = Transaction::from_details(
        "x".to_string(),
        7,
        None,
        vec![1, 2, 3],
        vec![0u8; 80],
    );
    assert_eq!(t.verify(), Err(VerificationError::BadPublicKey));
}

#[test]
fn test_verify_short_signature() {
    let t = Transaction::from_details("x".to_string(), 7, None, vec![0u8; 32], vec![0u8; 10]);
    assert_eq!(t.verify(), Err(VerificationError::BadSignature));
}

#[test]
fn test_verify_garbage_signature() {
    let t = Transaction::from_details("x".to_string(), 7, None, vec![7u8; 32], vec![1u8; 80]);
    assert_eq!(t.verify(), Err(VerificationError::BadSignature));
}

#[test]
fn test_from_details_and_getters() {
    let t = Transaction::from_details(
        "serial".to_string(),
        42,
        Some(vec![9, 9]),
        vec![1, 2],
        vec![3, 4],
    );
    assert_eq!(t.get_id(), "serial");
    assert_eq!(t.get_timestamp(), 42);
    assert!(t.has_input());
    assert_eq!(t.get_public_key_input().as_ref().unwrap(), &vec![9u8, 9]);
    assert_eq!(t.get_public_key_output(), &vec![1u8, 2]);
    assert_eq!(t.get_signature(), &vec![3u8, 4]);
}

#[test]
fn test_new_has_empty_signature() {
    let t = Transaction::new("n".to_string(), None, vec![5u8; 32]);
    assert!(t.get_signature().is_empty());
    assert!(!t.has_input());
    assert_eq!(t.get_id(), "n");
}

#[test]
fn test_resign_with_wrong_key_fails() {
    let (t0, _sk0) = Transaction::debug_make_register("SNZ".to_string());
    let (_other, sk_other) = Transaction::debug_make_register("OTHER".to_string());
    let mut t = t0;
    t.sign(&sk_other);
    assert_ne!(t.verify(), Ok(()));
}

#[test]
fn test_secret_key_is_32_bytes() {
    let (_t, sk) = Transaction::debug_make_register("SNQ".to_string());
    let SecretKey { bytes } = sk;
    assert_eq!(bytes.len(), 32);
}

#[test]
fn test_verification_error_messages() {
    assert!(!VerificationError::BadPublicKey.message().is_empty());
    assert!(!VerificationError::BadSignature.message().is_empty());
    assert!(!VerificationError::ContentMismatch.message().is_empty());
}

#[test]
fn test_make_timestamp_is_recent() {
    let ts = custody_chain::transaction::make_timestamp();
    // after 2020-01-01 on any sane clock
    assert!(ts > 1_577_836_800);
}
