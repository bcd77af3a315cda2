use base64::Engine as _;
use termii::services::crypto::{
    create_master_password, decrypt_secret, encrypt_secret, unlock_master_password,
    validate_argon2_params, validate_master_password_policy, CryptoError, EncryptedSecret,
};

#[test]
fn unlock_rejects_excessive_argon2_memory() {
    let (mut cfg, _key) = create_master_password("Abcdef!1").expect("create master password");
    cfg.argon2_memory_kib = (256 * 1024) + 1;
    let result = unlock_master_password(&cfg, "Abcdef!1");
    assert!(result.is_err());
}

#[test]
fn unlock_rejects_excessive_argon2_iterations() {
    let (mut cfg, _key) = create_master_password("Abcdef!1").expect("create master password");
    cfg.argon2_iterations = 11;
    let result = unlock_master_password(&cfg, "Abcdef!1");
    assert!(result.is_err());
}

#[test]
fn unlock_rejects_excessive_argon2_parallelism() {
    let (mut cfg, _key) = create_master_password("Abcdef!1").expect("create master password");
    cfg.argon2_parallelism = 5;
    let result = unlock_master_password(&cfg, "Abcdef!1");
    assert!(result.is_err());
}

#[test]
fn password_policy_rejects_space_as_only_symbol() {
    let result = validate_master_password_policy("Abcdef1 ");
    assert!(result.is_err());
}

#[test]
fn password_policy_errors_in_order() {
    assert_eq!(validate_master_password_policy("Ab!1"), Err(CryptoError::PasswordTooShort));
    assert_eq!(validate_master_password_policy("abcdefg!1"), Err(CryptoError::PasswordWithoutUppercase));
    assert_eq!(validate_master_password_policy("Abcdefgh1"), Err(CryptoError::PasswordWithoutSymbol));
    assert_eq!(validate_master_password_policy("Abcdefg!1"), Ok(()));
}

#[test]
fn argon2_bounds_are_checked_in_order() {
    assert_eq!(validate_argon2_params(32 * 1024 - 1, 3, 1), Err(CryptoError::MemoryTooSmall));
    assert_eq!(validate_argon2_params(256 * 1024 + 1, 3, 1), Err(CryptoError::MemoryTooLarge));
    assert_eq!(validate_argon2_params(64 * 1024, 2, 1), Err(CryptoError::IterationsTooFew));
    assert_eq!(validate_argon2_params(64 * 1024, 11, 1), Err(CryptoError::IterationsTooMany));
    assert_eq!(validate_argon2_params(64 * 1024, 3, 0), Err(CryptoError::ParallelismTooFew));
    assert_eq!(validate_argon2_params(64 * 1024, 3, 5), Err(CryptoError::ParallelismTooMany));
    assert_eq!(validate_argon2_params(64 * 1024, 3, 1), Ok(()));
}

#[test]
fn created_master_password_unlocks_with_the_same_key() {
    let (cfg, key) = create_master_password("Abcdef!1").expect("create master password");
    let again = unlock_master_password(&cfg, "Abcdef!1").expect("unlock");
    assert_eq!(again, key);
}

#[test]
fn wrong_master_password_does_not_open_the_verifier() {
    let (cfg, _key) = create_master_password("Abcdef!1").expect("create master password");
    assert_eq!(unlock_master_password(&cfg, "Abcdef!2"), Err(CryptoError::DecryptionFailed));
}

#[test]
fn sealed_secret_opens_to_the_same_text() {
    let key = [7u8; 32];
    let sealed = encrypt_secret(&key, "hunter2 ü").expect("seal");
    assert_ne!(sealed.ciphertext_b64, "hunter2 ü");
    assert_eq!(decrypt_secret(&key, &sealed).expect("open"), "hunter2 ü");
    let other = [8u8; 32];
    assert_eq!(decrypt_secret(&other, &sealed), Err(CryptoError::DecryptionFailed));
}

#[test]
fn malformed_sealed_secrets_are_refused() {
    let key = [1u8; 32];
    let bad_nonce = EncryptedSecret { nonce_b64: "***".to_string(), ciphertext_b64: "AAAA".to_string() };
    assert_eq!(decrypt_secret(&key, &bad_nonce), Err(CryptoError::InvalidNonceEncoding));
    let short_nonce = EncryptedSecret { nonce_b64: "AAAA".to_string(), ciphertext_b64: "AAAA".to_string() };
    assert_eq!(decrypt_secret(&key, &short_nonce), Err(CryptoError::InvalidNonceLength));
}

#[test]
fn sealed_text_carries_a_24_byte_nonce_and_a_16_byte_tag() {
    let key = [7u8; 32];
    let sealed = encrypt_secret(&key, "abc").expect("seal");
    let b64 = base64::engine::general_purpose::STANDARD;
    assert_eq!(b64.decode(&sealed.nonce_b64).unwrap().len(), 24);
    assert_eq!(b64.decode(&sealed.ciphertext_b64).unwrap().len(), 3 + 16);
    assert_eq!(decrypt_secret(&key, &sealed).unwrap(), "abc");
}
