//! Encryption of synced content with XChaCha20-Poly1305, the encryption key
//! file, and where the key lives.

use vstd::prelude::*;

use argon2::password_hash::PasswordHasher;
use base64::Engine;
use chacha20poly1305::aead::{Aead, KeyInit};
use rand::RngCore;
use sha2::Digest;
use std::collections::hash_map::DefaultHasher;
use std::hash::Hasher;
use vstd::std_specs::hash::DefaultHasherAdditionalSpecFns;

use crate::paths::{join, join_spec};
use crate::places::{data_dir, home_dir};
use crate::list::{lowercase, to_lowercase};
use crate::text::{chars_of, slice_chars, str_eq, string_of};

verus! {

broadcast use vstd::string::group_string_axioms;

/// Why encryption or decryption failed.
#[derive(Debug, Clone, Copy, PartialEq, Eq, Structural)]
pub enum CryptoError {
    /// The cipher refused the plaintext.
    EncryptionFailed,
    /// The data is shorter than a nonce.
    CiphertextTooShort,
    /// The ciphertext does not open with this key and nonce.
    DecryptionFailed,
    /// The key file holds no 32-byte key.
    InvalidKeyLength,
    /// The key file is neither a raw key nor base64.
    InvalidKeyEncoding,
    /// The key could not be derived from the credentials.
    KeyDerivationFailed,
    /// Email, password and auth token are all needed to derive the key.
    MissingCredentials,
    /// A stored password hash is not a PHC string.
    InvalidPasswordHash,
    /// Neither the data directory nor the home directory is known, so the
    /// master key has no place.
    NoKeyDirectory,
}

/// The length of an XChaCha20-Poly1305 nonce.
pub const NONCE_LEN: usize = 24;

/// The plaintexts that XChaCha20-Poly1305 encrypts are shorter than this
/// many bytes: `u32::MAX` blocks of 64 bytes.
pub open spec fn max_plaintext_len() -> int {
    64 * 4294967295int
}

/// `chacha20poly1305`'s XChaCha20-Poly1305 encryption of `plaintext` under
/// `key` and `nonce` (ciphertext followed by the tag).
pub uninterp spec fn aead_seal(key: Seq<u8>, nonce: Seq<u8>, plaintext: Seq<u8>) -> Seq<u8>;

/// `chacha20poly1305`'s XChaCha20-Poly1305 decryption of `ciphertext` under
/// `key` and `nonce`: the plaintext, or `None` when the tag does not match.
pub uninterp spec fn aead_open(key: Seq<u8>, nonce: Seq<u8>, ciphertext: Seq<u8>) -> Option<Seq<u8>>;

/// What `decrypt` gives for a message: a message shorter than a nonce is
/// refused; else the rest opens under the key and the leading nonce.
pub open spec fn decryption(key: Seq<u8>, data: Seq<u8>) -> Result<Seq<u8>, CryptoError> {
    if data.len() < NONCE_LEN {
        Err(CryptoError::CiphertextTooShort)
    } else {
        match aead_open(key, data.subrange(0, NONCE_LEN as int), data.subrange(NONCE_LEN as int, data.len() as int)) {
            Some(p) => Ok(p),
            None => Err(CryptoError::DecryptionFailed),
        }
    }
}

/// `rand::thread_rng().fill_bytes` on 24 bytes: a fresh random nonce.
#[verifier::external_body]
fn random_nonce() -> (r: Vec<u8>)
    ensures
        r@.len() == NONCE_LEN,
{
    let mut nonce = vec![0u8; 24];
    rand::thread_rng().fill_bytes(&mut nonce);
    nonce
}

/// `XChaCha20Poly1305::new(key).encrypt(nonce, plaintext)`: the ciphertext
/// with its 16-byte tag. The cipher refuses only a plaintext of `u32::MAX`
/// 64-byte blocks or more; the ciphertext opens back to the plaintext under
/// the same key and nonce.
#[verifier::external_body]
fn xchacha_encrypt(key: &[u8; 32], nonce: &[u8], plaintext: &[u8]) -> (r: Option<Vec<u8>>)
    requires
        nonce@.len() == NONCE_LEN,
    ensures
        plaintext@.len() < max_plaintext_len() ==> r is Some,
        r matches Some(ct) ==> ct@.len() == plaintext@.len() + 16,
        r matches Some(ct) ==> ct@ == aead_seal(key@, nonce@, plaintext@) && aead_open(key@, nonce@, ct@) == Some(
            plaintext@,
        ),
{
    let cipher = chacha20poly1305::XChaCha20Poly1305::new(chacha20poly1305::Key::from_slice(key));
    cipher.encrypt(chacha20poly1305::XNonce::from_slice(nonce), plaintext).ok()
}

/// `XChaCha20Poly1305::new(key).decrypt(nonce, ciphertext)`.
#[verifier::external_body]
fn xchacha_decrypt(key: &[u8; 32], nonce: &[u8], ciphertext: &[u8]) -> (r: Option<Vec<u8>>)
    requires
        nonce@.len() == NONCE_LEN,
    ensures
        match aead_open(key@, nonce@, ciphertext@) {
            Some(p) => r matches Some(v) && v@ == p,
            None => r is None,
        },
{
    let cipher = chacha20poly1305::XChaCha20Poly1305::new(chacha20poly1305::Key::from_slice(key));
    cipher.decrypt(chacha20poly1305::XNonce::from_slice(nonce), ciphertext).ok()
}

fn bytes_between(s: &[u8], from: usize, to: usize) -> (r: Vec<u8>)
    requires
        from <= to <= s@.len(),
    ensures
        r@ == s@.subrange(from as int, to as int),
{
    let mut r: Vec<u8> = Vec::new();
    let mut i = from;
    while i < to
        invariant
            from <= i <= to,
            to <= s@.len(),
            r@ == s@.subrange(from as int, i as int),
        decreases to - i,
    {
        r.push(s[i]);
        assert(r@ =~= s@.subrange(from as int, i + 1));
        i = i + 1;
    }
    r
}

/// Encrypt data with a fresh random nonce; the result is the nonce followed
/// by the ciphertext and its tag, 40 bytes longer than the data, and
/// decrypts back to the data. Only data too long for the cipher is refused.
pub fn encrypt(data: &[u8], key: &[u8; 32]) -> (r: Result<Vec<u8>, CryptoError>)
    ensures
        data@.len() < max_plaintext_len() ==> r is Ok,
        r matches Ok(out) ==> out@.len() == data@.len() + 40,
        match r {
            Ok(out) => out@.len() >= NONCE_LEN && out@.subrange(NONCE_LEN as int, out@.len() as int) == aead_seal(
                key@,
                out@.subrange(0, NONCE_LEN as int),
                data@,
            ) && decryption(key@, out@) == Ok::<Seq<u8>, CryptoError>(data@),
            Err(e) => e == CryptoError::EncryptionFailed,
        },
{
    let nonce = random_nonce();
    match xchacha_encrypt(key, nonce.as_slice(), data) {
        Some(ct) => {
            let mut out = nonce.clone();
            let mut i: usize = 0;
            while i < ct.len()
                invariant
                    i <= ct@.len(),
                    out@ == nonce@ + ct@.subrange(0, i as int),
                decreases ct@.len() - i,
            {
                out.push(ct[i]);
                assert(out@ =~= nonce@ + ct@.subrange(0, i + 1));
                i = i + 1;
            }
            assert(ct@.subrange(0, i as int) =~= ct@);
            assert(out@.subrange(0, 24) =~= nonce@);
            assert(out@.subrange(24, out@.len() as int) =~= ct@);
            Ok(out)
        },
        None => Err(CryptoError::EncryptionFailed),
    }
}

/// Decrypt data that `encrypt` wrote: the first 24 bytes are the nonce.
pub fn decrypt(data: &[u8], key: &[u8; 32]) -> (r: Result<Vec<u8>, CryptoError>)
    ensures
        match decryption(key@, data@) {
            Ok(p) => r matches Ok(v) && v@ == p,
            Err(e) => r == Err::<Vec<u8>, CryptoError>(e),
        },
{
    if data.len() < NONCE_LEN {
        return Err(CryptoError::CiphertextTooShort);
    }
    let nonce = bytes_between(data, 0, NONCE_LEN);
    let ciphertext = bytes_between(data, NONCE_LEN, data.len());
    match xchacha_decrypt(key, nonce.as_slice(), ciphertext.as_slice()) {
        Some(p) => Ok(p),
        None => Err(CryptoError::DecryptionFailed),
    }
}

/// `base64`'s standard engine decoding of `data`, when it is valid base64.
pub uninterp spec fn base64_decoded(data: Seq<u8>) -> Option<Seq<u8>>;

/// `general_purpose::STANDARD.decode(data)`: the decoded bytes, or `None`
/// when `data` is not valid base64.
#[verifier::external_body]
fn base64_decode(data: &[u8]) -> (r: Option<Vec<u8>>)
    ensures
        match base64_decoded(data@) {
            Some(d) => r matches Some(v) && v@ == d,
            None => r is None,
        },
{
    base64::engine::general_purpose::STANDARD.decode(data).ok()
}

/// `sha2`'s SHA-256 digest of `data`.
pub uninterp spec fn sha256_of(data: Seq<u8>) -> Seq<u8>;

/// `Sha256::digest(data)`: the 32-byte SHA-256 digest of `data`.
#[verifier::external_body]
pub(crate) fn sha256(data: &[u8]) -> (r: Vec<u8>)
    ensures
        r@ == sha256_of(data@),
        r@.len() == 32,
{
    sha2::Sha256::digest(data).to_vec()
}

/// `password_hash`'s `SaltString::encode_b64` of `bytes`, as text: the salt
/// string, or `None` when `bytes` make no valid salt.
pub uninterp spec fn salt_b64_of(bytes: Seq<u8>) -> Option<Seq<char>>;

/// `SaltString::encode_b64(bytes)`, as text. Sixteen bytes always encode
/// (22 characters fit the salt's 64).
#[verifier::external_body]
fn encode_salt(bytes: &[u8]) -> (r: Option<String>)
    ensures
        match salt_b64_of(bytes@) {
            Some(t) => r matches Some(s) && s@ == t,
            None => r is None,
        },
        bytes@.len() == 16 ==> r is Some,
{
    argon2::password_hash::SaltString::encode_b64(bytes).ok().map(|s| s.as_str().to_owned())
}

/// Whether a salt string is the encoding of some sixteen bytes.
pub open spec fn encodes_sixteen_bytes(salt: Seq<char>) -> bool {
    exists|b: Seq<u8>| b.len() == 16 && #[trigger] salt_b64_of(b) == Some(salt)
}

/// `argon2`'s `Argon2::default().hash_password(input, salt)`: the hash it
/// computes for `input` with the salt string `salt`, as its PHC string and
/// as the bytes of its output, or `None` when the salt is refused, hashing
/// fails, or no output comes back.
pub uninterp spec fn argon2_default_hash(input: Seq<u8>, salt: Seq<char>) -> Option<(Seq<char>, Seq<u8>)>;

/// `argon2`'s verdict on a password against a PHC string:
/// `Argon2::default().verify_password(password, &PasswordHash::new(phc))`
/// succeeding or not, or `None` when the string does not parse.
pub uninterp spec fn argon2_verdict(password: Seq<u8>, phc: Seq<char>) -> Option<bool>;

/// `Argon2::default().hash_password(input, salt)` with the salt string
/// `salt`: the PHC string of the hash and the bytes of its output. The PHC
/// string verifies `input`. Hashing succeeds for a salt string that encodes
/// sixteen bytes (it decodes back to them, at least the eight bytes Argon2
/// asks for) and an input of at most `0xFFFFFFFF` bytes.
#[verifier::external_body]
fn argon2_hash(input: &[u8], salt: &str) -> (r: Option<(String, Vec<u8>)>)
    ensures
        match argon2_default_hash(input@, salt@) {
            Some((phc, h)) => r matches Some((s, v)) && s@ == phc && v@ == h,
            None => r is None,
        },
        r matches Some((s, v)) ==> argon2_verdict(input@, s@) == Some(true),
        encodes_sixteen_bytes(salt@) && input@.len() <= 0xFFFFFFFF ==> r is Some,
{
    let salt = argon2::password_hash::Salt::from_b64(salt).ok()?;
    let hash = argon2::Argon2::default().hash_password(input, salt).ok()?;
    let output = hash.hash?;
    Some((hash.to_string(), output.as_bytes().to_vec()))
}

/// `Argon2::default().verify_password(password, &PasswordHash::new(phc)?)`:
/// whether the password matches, or `None` when `phc` is no PHC string.
#[verifier::external_body]
fn argon2_verify(password: &[u8], phc: &str) -> (r: Option<bool>)
    ensures
        r == argon2_verdict(password@, phc@),
{
    let parsed = argon2::password_hash::PasswordHash::new(phc).ok()?;
    Some(argon2::password_hash::PasswordVerifier::verify_password(&argon2::Argon2::default(), password, &parsed).is_ok())
}

/// `SaltString::generate(&mut OsRng)`: a fresh random salt string, the
/// encoding of sixteen random bytes; which bytes is not stated.
#[verifier::external_body]
fn random_salt() -> (r: String)
    ensures
        encodes_sixteen_bytes(r@),
{
    argon2::password_hash::SaltString::generate(&mut argon2::password_hash::rand_core::OsRng).as_str().to_owned()
}

/// The UTF-8 bytes of a text.
pub open spec fn utf8(s: Seq<char>) -> Seq<u8> {
    vstd::utf8::encode_utf8(s)
}

/// The input of the salt digest: `lst-salt-v2:` and the lower-cased email.
pub open spec fn salt_input(email: Seq<char>) -> Seq<u8> {
    utf8("lst-salt-v2:"@) + utf8(lowercase(email))
}

/// The input of the key derivation: password, lower-cased email and auth
/// token, separated by `:`.
pub open spec fn credentials_input(email: Seq<char>, password: Seq<char>, auth_token: Seq<char>) -> Seq<u8> {
    utf8(password) + utf8(":"@) + utf8(lowercase(email)) + utf8(":"@) + utf8(auth_token)
}

/// The key derived from credentials: Argon2 (default parameters) over
/// password, email and token, salted with the first 16 bytes of the SHA-256
/// digest of the email; the first 32 bytes of the hash.
pub open spec fn derived_key(email: Seq<char>, password: Seq<char>, auth_token: Seq<char>) -> Option<Seq<u8>> {
    match salt_b64_of(sha256_of(salt_input(email)).subrange(0, 16)) {
        None => None,
        Some(salt) => match argon2_default_hash(credentials_input(email, password, auth_token), salt) {
            None => None,
            Some((_, h)) => if h.len() < 32 {
                None
            } else {
                Some(h.subrange(0, 32))
            },
        },
    }
}

/// Derive the encryption key from email, password and auth token, the same
/// on every device.
pub fn derive_key_from_credentials(email: &str, password: &str, auth_token: &str) -> (r: Result<Vec<u8>, CryptoError>)
    ensures
        match derived_key(email@, password@, auth_token@) {
            Some(k) => r matches Ok(v) && v@ == k && v@.len() == 32,
            None => r == Err::<Vec<u8>, CryptoError>(CryptoError::KeyDerivationFailed),
        },
{
    let lower = to_lowercase(email);
    let mut salt_in: Vec<u8> = Vec::new();
    salt_in.extend_from_slice("lst-salt-v2:".as_bytes());
    salt_in.extend_from_slice(lower.as_str().as_bytes());
    assert(salt_in@ =~= salt_input(email@));
    let digest = sha256(salt_in.as_slice());
    let head = bytes_between(digest.as_slice(), 0, 16);
    let salt = match encode_salt(head.as_slice()) {
        Some(s) => s,
        None => return Err(CryptoError::KeyDerivationFailed),
    };
    let mut input: Vec<u8> = Vec::new();
    input.extend_from_slice(password.as_bytes());
    input.extend_from_slice(":".as_bytes());
    input.extend_from_slice(lower.as_str().as_bytes());
    input.extend_from_slice(":".as_bytes());
    input.extend_from_slice(auth_token.as_bytes());
    assert(input@ =~= credentials_input(email@, password@, auth_token@));
    let hash = match argon2_hash(input.as_slice(), salt.as_str()) {
        Some((_, h)) => h,
        None => return Err(CryptoError::KeyDerivationFailed),
    };
    if hash.len() < 32 {
        return Err(CryptoError::KeyDerivationFailed);
    }
    Ok(bytes_between(hash.as_slice(), 0, 32))
}

/// The encryption key from complete credentials: all of email, password
/// and auth token are needed.
pub fn load_or_derive_key_from_credentials(
    email: Option<&str>,
    password: Option<&str>,
    auth_token: Option<&str>,
) -> (r: Result<Vec<u8>, CryptoError>)
    ensures
        match (email, password, auth_token) {
            (Some(e), Some(p), Some(t)) => match derived_key(e@, p@, t@) {
                Some(k) => r matches Ok(v) && v@ == k,
                None => r == Err::<Vec<u8>, CryptoError>(CryptoError::KeyDerivationFailed),
            },
            _ => r == Err::<Vec<u8>, CryptoError>(CryptoError::MissingCredentials),
        },
{
    match (email, password, auth_token) {
        (Some(e), Some(p), Some(t)) => derive_key_from_credentials(e, p, t),
        _ => Err(CryptoError::MissingCredentials),
    }
}

/// The little-endian bytes of the `n` lowest bytes of `h`.
pub open spec fn le_bytes(h: nat, n: nat) -> Seq<u8>
    decreases n,
{
    if n == 0 {
        Seq::empty()
    } else {
        seq![(h % 256) as u8] + le_bytes(h / 256, (n - 1) as nat)
    }
}

/// `n` little-endian bytes are `n` bytes.
proof fn lemma_le_bytes_len(h: nat, n: nat)
    ensures
        le_bytes(h, n).len() == n,
    decreases n,
{
    if n > 0 {
        lemma_le_bytes_len(h / 256, (n - 1) as nat);
    }
}

/// The client-side salt for an email's hash (`DefaultHasher` over the email
/// and `lst-client-salt`): its eight little-endian bytes, twice.
pub open spec fn client_salt(email_hash: u64) -> Seq<u8> {
    le_bytes(email_hash as nat, 8) + le_bytes(email_hash as nat, 8)
}

fn client_salt_bytes(email_hash: u64) -> (r: Vec<u8>)
    ensures
        r@ == client_salt(email_hash),
{
    let mut head: Vec<u8> = Vec::new();
    let mut x: u64 = email_hash;
    let mut k: usize = 0;
    while k < 8
        invariant
            k <= 8,
            head@ + le_bytes(x as nat, (8 - k) as nat) == le_bytes(email_hash as nat, 8),
        decreases 8 - k,
    {
        let ghost before = head@;
        let b = (x % 256) as u8;
        head.push(b);
        assert(le_bytes(x as nat, (8 - k) as nat) == seq![b] + le_bytes((x / 256) as nat, (8 - k - 1) as nat));
        assert(head@ + le_bytes((x / 256) as nat, (8 - k - 1) as nat) =~= before + (seq![b] + le_bytes(
            (x / 256) as nat,
            (8 - k - 1) as nat,
        )));
        x = x / 256;
        k = k + 1;
    }
    assert(le_bytes(x as nat, 0) =~= Seq::<u8>::empty());
    assert(head@ =~= le_bytes(email_hash as nat, 8));
    let mut r: Vec<u8> = Vec::new();
    r.extend_from_slice(head.as_slice());
    r.extend_from_slice(head.as_slice());
    r
}

/// The client-side password hash for an email whose hash is `email_hash`:
/// the PHC string of Argon2 (default parameters) over the password, salted
/// with the email's salt.
pub open spec fn client_password_hash(password: Seq<char>, email_hash: u64) -> Option<Seq<char>> {
    match salt_b64_of(client_salt(email_hash)) {
        Some(salt) => match argon2_default_hash(utf8(password), salt) {
            Some((phc, _)) => Some(phc),
            None => None,
        },
        None => None,
    }
}

/// Hash a password on the client with a salt fixed by the email (given by
/// its hash), so that the same password and email always hash alike.
pub fn hash_password_with_email_hash(password: &str, email_hash: u64) -> (r: Result<String, CryptoError>)
    ensures
        match client_password_hash(password@, email_hash) {
            Some(h) => r matches Ok(s) && s@ == h,
            None => r == Err::<String, CryptoError>(CryptoError::KeyDerivationFailed),
        },
        r matches Ok(s) ==> argon2_verdict(utf8(password@), s@) == Some(true),
        utf8(password@).len() <= 0xFFFFFFFF ==> r is Ok,
{
    let salt_bytes = client_salt_bytes(email_hash);
    proof {
        lemma_le_bytes_len(email_hash as nat, 8);
    }
    let salt = match encode_salt(salt_bytes.as_slice()) {
        Some(s) => s,
        None => return Err(CryptoError::KeyDerivationFailed),
    };
    assert(salt_b64_of(salt_bytes@) == Some(salt@));
    match argon2_hash(password.as_bytes(), salt.as_str()) {
        Some((phc, _)) => Ok(phc),
        None => Err(CryptoError::KeyDerivationFailed),
    }
}

/// The hash of an email from which its client salt is made: the standard
/// library's default hasher over the email's bytes, then `lst-client-salt`.
pub open spec fn email_hash_of(email: Seq<char>) -> u64 {
    DefaultHasher::spec_finish(seq![utf8(email), utf8("lst-client-salt"@)])
}

/// Hash a password on the client with a salt fixed by the email, so that
/// the same password and email always hash alike.
pub fn hash_password_with_email(password: &str, email: &str) -> (r: Result<String, CryptoError>)
    ensures
        match client_password_hash(password@, email_hash_of(email@)) {
            Some(h) => r matches Ok(s) && s@ == h,
            None => r == Err::<String, CryptoError>(CryptoError::KeyDerivationFailed),
        },
        r matches Ok(s) ==> argon2_verdict(utf8(password@), s@) == Some(true),
        utf8(password@).len() <= 0xFFFFFFFF ==> r is Ok,
{
    proof {
        reveal_strlit("lst-client-salt");
    }
    let mut hasher = DefaultHasher::new();
    hasher.write(email.as_bytes());
    hasher.write("lst-client-salt".as_bytes());
    let email_hash = hasher.finish();
    assert(hasher@ =~= seq![utf8(email@), utf8("lst-client-salt"@)]);
    hash_password_with_email_hash(password, email_hash)
}

/// What hashing a password with the salt string `salt` gives: the PHC
/// string of Argon2 (default parameters), or `KeyDerivationFailed` when
/// Argon2 refuses the salt or fails.
pub open spec fn hashed_with_salt(password: Seq<char>, salt: Seq<char>, r: Result<String, CryptoError>) -> bool {
    match argon2_default_hash(utf8(password), salt) {
        Some((phc, _)) => r matches Ok(s) && s@ == phc,
        None => r == Err::<String, CryptoError>(CryptoError::KeyDerivationFailed),
    }
}

/// Hash a password for storage with a fresh random salt: the PHC string of
/// Argon2 (default parameters) with that salt, or `KeyDerivationFailed`
/// when hashing with it fails; a hash verifies the password.
pub fn hash_password(password: &str) -> (r: Result<String, CryptoError>)
    ensures
        exists|salt: Seq<char>| #[trigger] hashed_with_salt(password@, salt, r),
        r matches Ok(s) ==> argon2_verdict(utf8(password@), s@) == Some(true),
        utf8(password@).len() <= 0xFFFFFFFF ==> r is Ok,
{
    let salt = random_salt();
    let r = match argon2_hash(password.as_bytes(), salt.as_str()) {
        Some((phc, _)) => Ok(phc),
        None => Err(CryptoError::KeyDerivationFailed),
    };
    assert(hashed_with_salt(password@, salt@, r));
    r
}

/// Whether a password matches a stored PHC hash; refused when the hash does
/// not parse.
pub fn verify_password(password: &str, hash: &str) -> (r: Result<bool, CryptoError>)
    ensures
        match argon2_verdict(utf8(password@), hash@) {
            Some(v) => r == Ok::<bool, CryptoError>(v),
            None => r == Err::<bool, CryptoError>(CryptoError::InvalidPasswordHash),
        },
{
    match argon2_verify(password.as_bytes(), hash) {
        Some(v) => Ok(v),
        None => Err(CryptoError::InvalidPasswordHash),
    }
}

/// A password hashed for storage verifies: the verdict that checking the
/// password against the stored hash gives is `Ok(true)`.
pub proof fn lemma_hashed_password_verifies(password: Seq<char>, stored: Seq<char>, verdict: Result<bool, CryptoError>)
    requires
        argon2_verdict(utf8(password), stored) == Some(true),
        match argon2_verdict(utf8(password), stored) {
            Some(v) => verdict == Ok::<bool, CryptoError>(v),
            None => verdict == Err::<bool, CryptoError>(CryptoError::InvalidPasswordHash),
        },
    ensures
        verdict == Ok::<bool, CryptoError>(true),
{
}

/// `base64`'s standard engine encoding of `data`.
pub uninterp spec fn base64_encoded(data: Seq<u8>) -> Seq<char>;

/// `general_purpose::STANDARD.encode(data)`: the padded base64 text of
/// `data` (four characters for every three bytes begun), which the same
/// engine decodes back to `data`.
#[verifier::external_body]
fn base64_encode(data: &[u8]) -> (r: String)
    ensures
        r@ == base64_encoded(data@),
        utf8(r@).len() == 4 * ((data@.len() + 2) / 3),
        base64_decoded(utf8(r@)) == Some(data@),
{
    base64::engine::general_purpose::STANDARD.encode(data)
}

/// What a key file holds for a key: the key in base64, which reads back as
/// the same key.
pub fn key_file_text(key: &[u8; 32]) -> (r: String)
    ensures
        r@ == base64_encoded(key@),
        key_in_file(utf8(r@)) == Ok::<Seq<u8>, CryptoError>(key@),
{
    base64_encode(key)
}

/// The key that a key file holds: its 32 bytes as they are, or else the 32
/// bytes that it encodes in base64.
pub open spec fn key_in_file(data: Seq<u8>) -> Result<Seq<u8>, CryptoError> {
    if data.len() == 32 {
        Ok(data)
    } else {
        match base64_decoded(data) {
            Some(d) => if d.len() == 32 {
                Ok(d)
            } else {
                Err(CryptoError::InvalidKeyLength)
            },
            None => Err(CryptoError::InvalidKeyEncoding),
        }
    }
}

/// The key that the contents of a key file hold.
pub fn key_from_file_bytes(data: &[u8]) -> (r: Result<Vec<u8>, CryptoError>)
    ensures
        match key_in_file(data@) {
            Ok(k) => r matches Ok(v) && v@ == k,
            Err(e) => r == Err::<Vec<u8>, CryptoError>(e),
        },
{
    if data.len() == 32 {
        return Ok(bytes_between(data, 0, data.len()));
    }
    match base64_decode(data) {
        Some(d) => if d.len() == 32 {
            Ok(d)
        } else {
            Err(CryptoError::InvalidKeyLength)
        },
        None => Err(CryptoError::InvalidKeyEncoding),
    }
}

/// The reference that names the master key.
pub open spec fn master_key_ref() -> Seq<char> {
    "lst-master-key"@
}

/// The master key file of the desktop and command-line apps:
/// `<data dir>/lst/lst-master-key`, else
/// `<home>/.local/share/lst/lst-master-key`; `None` when neither directory
/// is known.
pub open spec fn master_key_file(data_dir: Option<Seq<char>>, home: Option<Seq<char>>) -> Option<Seq<char>> {
    match data_dir {
        Some(d) => Some(join_spec(join_spec(d, "lst"@), "lst-master-key"@)),
        None => match home {
            Some(h) => Some(
                join_spec(join_spec(join_spec(join_spec(h, ".local"@), "share"@), "lst"@), "lst-master-key"@),
            ),
            None => None,
        },
    }
}

/// The master key file of the mobile app: `<data dir>/lst-mobile/lst-master-key`,
/// else the same under the temporary directory.
pub open spec fn mobile_key_file(data_dir: Option<Seq<char>>, temp_dir: Seq<char>) -> Seq<char> {
    let base = match data_dir {
        Some(d) => d,
        None => temp_dir,
    };
    join_spec(join_spec(base, "lst-mobile"@), "lst-master-key"@)
}

/// The master key file for the given data and home directories.
pub fn master_key_path_in(data_dir: Option<&str>, home: Option<&str>) -> (r: Result<String, CryptoError>)
    ensures
        match master_key_file(
            match data_dir {
                Some(d) => Some(d@),
                None => None,
            },
            match home {
                Some(h) => Some(h@),
                None => None,
            },
        ) {
            Some(p) => r matches Ok(s) && s@ == p,
            None => r == Err::<String, CryptoError>(CryptoError::NoKeyDirectory),
        },
{
    match data_dir {
        Some(d) => {
            let dir = join(d, "lst");
            Ok(join(dir.as_str(), "lst-master-key"))
        },
        None => match home {
            Some(h) => {
                let a = join(h, ".local");
                let b = join(a.as_str(), "share");
                let c = join(b.as_str(), "lst");
                Ok(join(c.as_str(), "lst-master-key"))
            },
            None => Err(CryptoError::NoKeyDirectory),
        },
    }
}

/// The master key file of the mobile app for the given data directory and
/// temporary directory.
pub fn mobile_master_key_path_in(data_dir: Option<&str>, temp_dir: &str) -> (r: String)
    ensures
        r@ == mobile_key_file(
            match data_dir {
                Some(d) => Some(d@),
                None => None,
            },
            temp_dir@,
        ),
{
    let base = match data_dir {
        Some(d) => d,
        None => temp_dir,
    };
    let dir = join(base, "lst-mobile");
    join(dir.as_str(), "lst-master-key")
}

/// The master key file of the desktop and command-line apps, in the user's
/// data directory or else under the home directory; the caller creates its
/// directory.
pub fn get_master_key_path() -> (r: Result<String, CryptoError>)
    ensures
        exists|d: Option<Seq<char>>, h: Option<Seq<char>>|
            match #[trigger] master_key_file(d, h) {
                Some(p) => r matches Ok(s) && s@ == p,
                None => r == Err::<String, CryptoError>(CryptoError::NoKeyDirectory),
            },
{
    let d = data_dir();
    let h = home_dir();
    let r = master_key_path_in(
        match &d {
            Some(x) => Some(x.as_str()),
            None => None,
        },
        match &h {
            Some(x) => Some(x.as_str()),
            None => None,
        },
    );
    proof {
        let dv = match d {
            Some(x) => Some(x@),
            None => None,
        };
        let hv = match h {
            Some(x) => Some(x@),
            None => None,
        };
        assert(match master_key_file(dv, hv) {
            Some(p) => r matches Ok(s) && s@ == p,
            None => r == Err::<String, CryptoError>(CryptoError::NoKeyDirectory),
        });
    }
    r
}

/// The master key file of the mobile app, in the user's data directory or
/// else under `temp_dir` (the system's temporary directory); the caller
/// creates its directory.
pub fn get_mobile_master_key_path(temp_dir: &str) -> (r: String)
    ensures
        exists|d: Option<Seq<char>>| r@ == #[trigger] mobile_key_file(d, temp_dir@),
{
    let d = data_dir();
    let r = mobile_master_key_path_in(
        match &d {
            Some(x) => Some(x.as_str()),
            None => None,
        },
        temp_dir,
    );
    proof {
        let dv = match d {
            Some(x) => Some(x@),
            None => None,
        };
        assert(r@ == mobile_key_file(dv, temp_dir@));
    }
    r
}

/// The key file an encryption key reference names: `lst-master-key` names
/// the master key file ([`get_master_key_path`]); anything else is a path.
pub fn resolve_key_path(encryption_key_ref: &str) -> (r: Result<String, CryptoError>)
    ensures
        encryption_key_ref@ != master_key_ref() ==> (r matches Ok(p) && p@ == encryption_key_ref@),
        encryption_key_ref@ == master_key_ref() ==> exists|d: Option<Seq<char>>, h: Option<Seq<char>>|
            match #[trigger] master_key_file(d, h) {
                Some(p) => r matches Ok(s) && s@ == p,
                None => r == Err::<String, CryptoError>(CryptoError::NoKeyDirectory),
            },
{
    if str_eq(encryption_key_ref, "lst-master-key") {
        get_master_key_path()
    } else {
        Ok(encryption_key_ref.to_owned())
    }
}

/// The key file an encryption key reference names on a mobile device:
/// `lst-master-key` names the app's master key file
/// ([`get_mobile_master_key_path`], with `temp_dir` the system's temporary
/// directory); anything else is a path.
pub fn resolve_mobile_key_path(encryption_key_ref: &str, temp_dir: &str) -> (r: String)
    ensures
        encryption_key_ref@ != master_key_ref() ==> r@ == encryption_key_ref@,
        encryption_key_ref@ == master_key_ref() ==> exists|d: Option<Seq<char>>| r@ == #[trigger] mobile_key_file(
            d,
            temp_dir@,
        ),
{
    if str_eq(encryption_key_ref, "lst-master-key") {
        get_mobile_master_key_path(temp_dir)
    } else {
        encryption_key_ref.to_owned()
    }
}

/// A path with a leading `~/` standing for the home directory; `None` when
/// the home directory is needed and unknown.
pub open spec fn expand_home(path: Seq<char>, home: Option<Seq<char>>) -> Option<Seq<char>> {
    if path.len() >= 2 && path[0] == '~' && path[1] == '/' {
        match home {
            Some(h) => Some(join_spec(h, path.subrange(2, path.len() as int))),
            None => None,
        }
    } else {
        Some(path)
    }
}

/// Expand a leading `~/` in a key path to the given home directory.
pub fn expand_key_path(path: &str, home: Option<&str>) -> (r: Option<String>)
    ensures
        match expand_home(path@, match home { Some(h) => Some(h@), None => None }) {
            Some(p) => r matches Some(s) && s@ == p,
            None => r is None,
        },
{
    let cs = chars_of(path);
    if cs.len() >= 2 && cs[0] == '~' && cs[1] == '/' {
        match home {
            Some(h) => {
                let rest = slice_chars(&cs, 2, cs.len());
                let rs = string_of(&rest);
                Some(join(h, rs.as_str()))
            },
            None => None,
        }
    } else {
        Some(path.to_owned())
    }
}

/// Expand a leading `~/` in a key path to the user's home directory.
pub fn expand_key_path_home(path: &str) -> (r: Option<String>)
    ensures
        !(path@.len() >= 2 && path@[0] == '~' && path@[1] == '/') ==> (r matches Some(s) && s@ == path@),
        r matches Some(s) ==> exists|h: Option<Seq<char>>| expand_home(path@, h) == Some(s@),
{
    let home = home_dir();
    let r = match &home {
        Some(h) => expand_key_path(path, Some(h.as_str())),
        None => expand_key_path(path, None),
    };
    proof {
        let hv = match home {
            Some(h) => Some(h@),
            None => None,
        };
        if r is Some {
            assert(expand_home(path@, hv) == Some(r->0@));
        }
    }
    r
}

} // verus!
