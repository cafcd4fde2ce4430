use std::hash::Hasher;
use lst::auth::{http_base_url_of, prepare_auth_request, prepare_token_verification, AuthInputError};
use lst::crypto::{
    derive_key_from_credentials, hash_password, hash_password_with_email, hash_password_with_email_hash, verify_password, CryptoError,
};

#[test]
fn hashed_passwords_verify() {
    let hash = hash_password("hunter42").unwrap();
    assert!(hash.starts_with("$argon2id$"));
    assert_eq!(verify_password("hunter42", &hash), Ok(true));
    assert_eq!(verify_password("hunter43", &hash), Ok(false));
}

#[test]
fn hashes_carry_fresh_salts() {
    let a = hash_password("same").unwrap();
    let b = hash_password("same").unwrap();
    assert_ne!(a, b);
}

#[test]
fn malformed_hashes_are_refused() {
    assert_eq!(verify_password("pw", "not a hash"), Err(CryptoError::InvalidPasswordHash));
}

#[test]
fn client_hashes_are_deterministic_per_email_hash() {
    let a = hash_password_with_email_hash("secret", 42).unwrap();
    let b = hash_password_with_email_hash("secret", 42).unwrap();
    let c = hash_password_with_email_hash("secret", 43).unwrap();
    assert_eq!(a, b);
    assert_ne!(a, c);
    assert_eq!(verify_password("secret", &a), Ok(true));
    assert_eq!(verify_password("other", &a), Ok(false));
}

#[test]
fn credential_keys_are_stable_and_case_blind_in_the_email() {
    let a = derive_key_from_credentials("User@Example.com", "pw", "tok").unwrap();
    let b = derive_key_from_credentials("user@example.com", "pw", "tok").unwrap();
    let c = derive_key_from_credentials("user@example.com", "pw", "other").unwrap();
    assert_eq!(a.len(), 32);
    assert_eq!(a, b);
    assert_ne!(a, c);
}

#[test]
fn client_hashes_follow_the_email() {
    let mut h = std::collections::hash_map::DefaultHasher::new();
    h.write(b"user@example.com");
    h.write(b"lst-client-salt");
    let expected = hash_password_with_email_hash("secret", h.finish()).unwrap();
    let a = hash_password_with_email("secret", "user@example.com").unwrap();
    assert_eq!(a, expected);
    assert_eq!(a, hash_password_with_email("secret", "user@example.com").unwrap());
    assert_ne!(a, hash_password_with_email("secret", "other@example.com").unwrap());
    assert_eq!(verify_password("secret", &a), Ok(true));
}

#[test]
fn auth_requests_check_their_inputs() {
    assert_eq!(prepare_auth_request("", "ws://h/api/sync", None).err(), Some(AuthInputError::InvalidEmail));
    assert_eq!(prepare_auth_request("nobody", "ws://h/api/sync", None).err(), Some(AuthInputError::InvalidEmail));
    assert_eq!(prepare_auth_request("a@b.c", "", None).err(), Some(AuthInputError::MissingServerUrl));
    let (req, url) = prepare_auth_request("a@b.c", "ws://host:5673/api/sync", Some("pw")).unwrap();
    assert_eq!(req.email, "a@b.c");
    assert_eq!(req.host, "ws://host:5673/api/sync");
    assert_eq!(req.password_hash, hash_password_with_email("pw", "a@b.c").unwrap());
    assert_eq!(url, "http://host:5673/api/auth/request");
    let (plain, _) = prepare_auth_request("a@b.c", "wss://host/api/sync", None).unwrap();
    assert_eq!(plain.password_hash, hash_password_with_email("default_password", "a@b.c").unwrap());
    assert_eq!(http_base_url_of("wss://host/api/sync"), "https://host");
    assert_eq!(prepare_token_verification("abc", "ws://h/api/sync"), Err(AuthInputError::InvalidToken));
    assert_eq!(prepare_token_verification("ABCD", "ws://h:1/api/sync"), Ok("http://h:1/api/auth/verify".to_string()));
}
