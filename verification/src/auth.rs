//! The mobile app's authentication requests: the checks on what the user
//! typed, the client-side password hash, and where each request goes. The
//! requests themselves are sent by the app.

use vstd::prelude::*;

use crate::crypto::{client_password_hash, email_hash_of, hash_password_with_email};
use crate::text::{byte_len, chars_of, contains_char, owned, replace_all, replace_chars, string_of};

verus! {

broadcast use vstd::string::group_string_axioms;

/// Why an authentication request cannot be made.
#[derive(Debug, Clone, Copy, PartialEq, Eq, Structural)]
pub enum AuthInputError {
    /// The email is empty or has no `@`.
    InvalidEmail,
    /// No server URL was given.
    MissingServerUrl,
    /// The password could not be hashed.
    HashingFailed,
    /// The token is shorter than four bytes.
    InvalidToken,
}

/// A request for a login token, as the mobile app sends it.
#[derive(Debug, Clone)]
pub struct AuthRequest {
    pub email: String,
    pub host: String,
    pub password_hash: String,
}

/// The HTTP base URL of a sync server given by its WebSocket URL:
/// `ws://` becomes `http://`, `wss://` becomes `https://`, and `/api/sync`
/// is dropped.
pub open spec fn http_base_url(server_url: Seq<char>) -> Seq<char> {
    replace_all(
        replace_all(replace_all(server_url, "ws://"@, "http://"@), "wss://"@, "https://"@),
        "/api/sync"@,
        Seq::empty(),
    )
}

/// The HTTP base URL of a sync server given by its WebSocket URL.
pub fn http_base_url_of(server_url: &str) -> (r: String)
    ensures
        r@ == http_base_url(server_url@),
{
    proof {
        reveal_strlit("ws://");
        reveal_strlit("wss://");
        reveal_strlit("/api/sync");
    }
    let cs = chars_of(server_url);
    let a = replace_chars(&cs, &chars_of("ws://"), &chars_of("http://"));
    let b = replace_chars(&a, &chars_of("wss://"), &chars_of("https://"));
    let nothing: Vec<char> = Vec::new();
    assert(nothing@ =~= Seq::<char>::empty());
    let c = replace_chars(&b, &chars_of("/api/sync"), &nothing);
    string_of(&c)
}

/// Whether an email can be used: not empty, and holding an `@`.
pub open spec fn usable_email(email: Seq<char>) -> bool {
    email.len() > 0 && email.contains('@')
}

/// The password hashed when the user gave none.
pub open spec fn default_password() -> Seq<char> {
    "default_password"@
}

/// A login token request for `email` at the server `server_url`, with the
/// password (`default_password` when none is given) hashed on the client
/// with a salt fixed by the email, and the URL it is sent to
/// (`<base>/api/auth/request`). Refused for an unusable email, then for a
/// missing server URL, then when hashing fails.
pub fn prepare_auth_request(email: &str, server_url: &str, password: Option<&str>) -> (r: Result<
    (AuthRequest, String),
    AuthInputError,
>)
    ensures
        !usable_email(email@) ==> r == Err::<(AuthRequest, String), AuthInputError>(AuthInputError::InvalidEmail),
        usable_email(email@) && server_url@.len() == 0 ==> r == Err::<(AuthRequest, String), AuthInputError>(
            AuthInputError::MissingServerUrl,
        ),
        usable_email(email@) && server_url@.len() > 0 ==> match client_password_hash(
            match password {
                Some(p) => p@,
                None => default_password(),
            },
            email_hash_of(email@),
        ) {
            Some(h) => r matches Ok((req, url)) && req.email@ == email@ && req.host@ == server_url@
                && req.password_hash@ == h && url@ == http_base_url(server_url@) + "/api/auth/request"@,
            None => r == Err::<(AuthRequest, String), AuthInputError>(AuthInputError::HashingFailed),
        },
{
    let ecs = chars_of(email);
    if ecs.len() == 0 || !contains_char(&ecs, '@') {
        return Err(AuthInputError::InvalidEmail);
    }
    let ucs = chars_of(server_url);
    if ucs.len() == 0 {
        return Err(AuthInputError::MissingServerUrl);
    }
    let pw = match password {
        Some(p) => p,
        None => "default_password",
    };
    proof {
        reveal_strlit("default_password");
    }
    let hash = match hash_password_with_email(pw, email) {
        Ok(h) => h,
        Err(_) => return Err(AuthInputError::HashingFailed),
    };
    let mut url = http_base_url_of(server_url);
    url.append("/api/auth/request");
    Ok((AuthRequest { email: owned(email), host: owned(server_url), password_hash: hash }, url))
}

/// The URL a token is checked at for the server `server_url`
/// (`<base>/api/auth/verify`); refused for a token shorter than four bytes.
pub fn prepare_token_verification(token: &str, server_url: &str) -> (r: Result<String, AuthInputError>)
    ensures
        byte_len(token@) < 4 ==> r == Err::<String, AuthInputError>(AuthInputError::InvalidToken),
        byte_len(token@) >= 4 ==> (r matches Ok(url) && url@ == http_base_url(server_url@) + "/api/auth/verify"@),
{
    if token.len() < 4 {
        return Err(AuthInputError::InvalidToken);
    }
    let mut url = http_base_url_of(server_url);
    url.append("/api/auth/verify");
    Ok(url)
}

} // verus!
