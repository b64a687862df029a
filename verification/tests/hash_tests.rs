use custody_chain::hash::{empty_hash, hash_to_str, obj_hash, Hashable};
use custody_chain::transaction::{buf_to_str, Transaction};

#[test]
fn test_obj_hash_empty_input() {
    let h = obj_hash(b"");
    assert_eq!(
        hash_to_str(&h),
        "e3b0c44298fc1c149afbf4c8996fb92427ae41e4649b934ca495991b7852b855"
    );
}

#[test]
fn test_obj_hash_abc() {
    let h = obj_hash(b"abc");
    assert_eq!(
        hash_to_str(&h),
        "ba7816bf8f01cfea414140de5dae2223b00361a396177a9cb410ff61f20015ad"
    );
}

#[test]
fn test_obj_hash_deterministic() {
    assert_eq!(obj_hash(b"custody"), obj_hash(b"custody"));
    assert_ne!(obj_hash(b"custody"), obj_hash(b"custodz"));
}

#[test]
fn test_empty_hash_is_zero() {
    let h = empty_hash();
    assert_eq!(h, [0u8; 32]);
    assert_eq!(
        hash_to_str(&h),
        "0000000000000000000000000000000000000000000000000000000000000000"
    );
}

#[test]
fn test_buf_to_str() {
    assert_eq!(buf_to_str(&vec![]), "");
    assert_eq!(buf_to_str(&vec![0x01, 0xab, 0xff, 0x00]), "01abff00");
}

#[test]
fn test_string_calc_hash_matches_obj_hash() {
    let s = String::from("abc");
    assert_eq!(s.calc_hash(), obj_hash(b"abc"));
    assert_eq!("abc".calc_hash(), obj_hash(b"abc"));
}

#[test]
fn test_transaction_calc_hash_digests_signature() {
    let (t, _) = Transaction::debug_make_register("SNH".to_string());
    assert_eq!(t.calc_hash(), obj_hash(t.get_signature().as_slice()));
}
