use oneinstall::integrity::{VerificationError, hash_hex, verify_hash_bytes};

const EMPTY_SHA256: &str = "e3b0c44298fc1c149afbf4c8996fb92427ae41e4649b934ca495991b7852b855";
const ABC_SHA256: &str = "ba7816bf8f01cfea414140de5dae2223b00361a396177a9cb410ff61f20015ad";

#[test]
fn test_hash_hex_known_answers() {
    assert_eq!(hash_hex(&Vec::new()), EMPTY_SHA256);
    assert_eq!(hash_hex(&b"abc".to_vec()), ABC_SHA256);
}

#[test]
fn test_verify_matching_hash() {
    assert!(verify_hash_bytes(&b"abc".to_vec(), ABC_SHA256).is_ok());
}

#[test]
fn test_verify_is_case_insensitive() {
    let upper = ABC_SHA256.to_uppercase();
    assert!(verify_hash_bytes(&b"abc".to_vec(), &upper).is_ok());
}

#[test]
fn test_verify_mismatch_reports_both_hashes() {
    match verify_hash_bytes(&b"abc".to_vec(), EMPTY_SHA256) {
        Err(VerificationError::HashMismatch { expected, actual }) => {
            assert_eq!(expected, EMPTY_SHA256);
            assert_eq!(actual, ABC_SHA256);
        }
        _ => panic!("expected a hash mismatch"),
    }
}
