use tsunoru::auth::{hash_password_with_salt, verify_password_phc};
use tsunoru::core_bridge::{bridge_hash, bridge_operation, bridge_verify, unknown_operation, BridgeOperation};

#[test]
fn bridge_operations_are_read_by_name() {
    assert_eq!(bridge_operation("event"), Some(BridgeOperation::Event));
    assert_eq!(bridge_operation("verify"), Some(BridgeOperation::Verify));
    assert_eq!(bridge_operation("facts"), Some(BridgeOperation::Facts));
    assert_eq!(bridge_operation("Event"), None);
    assert_eq!(unknown_operation(), "unknown operation");
}

#[test]
fn bridge_hash_checks_lengths_before_hashing() {
    let long = "x".repeat(513);
    assert_eq!(bridge_hash(&long, &[0u8; 16]), Err("password too long".to_string()));
    assert_eq!(bridge_hash("password", &[0u8; 15]), Err("salt length".to_string()));
}

#[test]
fn hashed_password_verifies_and_another_does_not() {
    let phc = bridge_hash("correct horse battery staple", &[7u8; 16]).unwrap();
    assert!(phc.starts_with("$argon2id$v=19$m=19456,t=2,p=1$"));
    assert_eq!(bridge_verify("correct horse battery staple", &phc), Ok(true));
    assert_eq!(bridge_verify("wrong horse battery staple", &phc), Ok(false));
    assert_eq!(hash_password_with_salt("correct horse battery staple", &[7u8; 16]), Some(phc.clone()));
    assert_eq!(verify_password_phc("correct horse battery staple", &phc), Some(true));
}

#[test]
fn malformed_hash_is_refused() {
    assert_eq!(bridge_verify("password", "not a hash"), Err("invalid hash".to_string()));
    assert_eq!(verify_password_phc("password", "not a hash"), None);
}
