//! The sync server's rules for logging in: one-time login tokens and their
//! lifetime, the login link sent by email, session tokens (JWT) and the
//! bearer header that carries them, and the kinds and paths under which
//! content is stored.

use vstd::prelude::*;

use crate::crypto::utf8;
use crate::list::{contains_chars, occurs_in};
use crate::text::{chars_of, contains_char, decimal, decimal_chars, has_prefix, owned, slice_chars, starts_with, str_eq, string_of};

verus! {

broadcast use vstd::string::group_string_axioms;

/// How long a login token is valid, in seconds.
pub const TOKEN_VALID_FOR_SECS: u64 = 900;

/// How long a session token (JWT) is valid, in seconds.
pub const JWT_VALID_FOR_SECS: i64 = 3600;

/// Whether a login token matches the one stored for the email and has not
/// expired at `now`.
pub open spec fn login_token_accepted(stored: Option<(Seq<char>, u64)>, token: Seq<char>, now: u64) -> bool {
    match stored {
        Some((t, expires_at)) => t == token && expires_at > now,
        None => false,
    }
}

/// Check a login token against the one stored for the email (its text and
/// expiry, in seconds since the epoch).
pub fn login_token_valid(stored: Option<(&str, u64)>, token: &str, now: u64) -> (r: bool)
    ensures
        r == login_token_accepted(
            match stored {
                Some((t, e)) => Some((t@, e)),
                None => None,
            },
            token@,
            now,
        ),
{
    match stored {
        Some((t, expires_at)) => str_eq(t, token) && expires_at > now,
        None => false,
    }
}

/// When a login token issued at `now` expires.
pub fn login_token_expiry(now: u64) -> (r: u64)
    requires
        now + TOKEN_VALID_FOR_SECS <= u64::MAX,
    ensures
        r == now + TOKEN_VALID_FOR_SECS,
{
    now + TOKEN_VALID_FOR_SECS
}

/// When a session token issued at `now` expires.
pub fn jwt_expiry(now: i64) -> (r: i64)
    requires
        now + JWT_VALID_FOR_SECS <= i64::MAX,
    ensures
        r == now + JWT_VALID_FOR_SECS,
{
    now + JWT_VALID_FOR_SECS
}

/// The secret with which the server signs session tokens.
pub const JWT_SECRET: &'static str = "lst-jwt-demo-secret-goes-here";

/// The bytes of the session token secret.
pub open spec fn jwt_secret_bytes() -> Seq<u8> {
    utf8("lst-jwt-demo-secret-goes-here"@)
}

/// `jsonwebtoken`'s token for the claims `{"exp": exp, "sub": sub}` under
/// the default header (HS256) and the HMAC secret `secret`.
pub uninterp spec fn jwt_hs256(sub: Seq<char>, exp: u64, secret: Seq<u8>) -> Seq<char>;

/// The claims that `jsonwebtoken`'s `decode` reads from a token under the
/// HMAC secret `secret` with the default validation, apart from its check of
/// the expiry against the clock: the subject and expiry, when the token has
/// three parts, names HS256, carries a signature that verifies, and holds a
/// string `sub` and an unsigned integer `exp`.
pub uninterp spec fn jwt_claims(token: Seq<char>, secret: Seq<u8>) -> Option<(Seq<char>, u64)>;

/// `jsonwebtoken::encode(&Header::default(), claims,
/// &EncodingKey::from_secret(secret))` for the claims `sub` and `exp`. For
/// an HMAC key under the default HS256 header, encoding does not fail, and
/// the token decodes under the same secret to the same claims.
#[verifier::external_body]
fn jwt_encode(sub: &str, exp: u64, secret: &[u8]) -> (r: Option<String>)
    ensures
        r is Some,
        r matches Some(t) ==> t@ == jwt_hs256(sub@, exp, secret@) && jwt_claims(t@, secret@) == Some((sub@, exp)),
{
    let mut claims = serde_json::Map::new();
    claims.insert("sub".to_owned(), serde_json::Value::from(sub));
    claims.insert("exp".to_owned(), serde_json::Value::from(exp));
    let key = jsonwebtoken::EncodingKey::from_secret(secret);
    jsonwebtoken::encode(&jsonwebtoken::Header::default(), &claims, &key).ok()
}

/// `jsonwebtoken::decode(token, &DecodingKey::from_secret(secret),
/// &Validation::default())`, read as the claims `sub` and `exp`. Whether an
/// expired token is refused depends on the clock, so only this is stated:
/// what comes back are the token's claims, and a token without valid claims
/// is refused.
#[verifier::external_body]
fn jwt_decode(token: &str, secret: &[u8]) -> (r: Option<(String, u64)>)
    ensures
        r matches Some((sub, exp)) ==> jwt_claims(token@, secret@) == Some((sub@, exp)),
        jwt_claims(token@, secret@) is None ==> r is None,
{
    let key = jsonwebtoken::DecodingKey::from_secret(secret);
    let data = jsonwebtoken::decode::<serde_json::Value>(token, &key, &jsonwebtoken::Validation::default()).ok()?;
    let sub = data.claims.get("sub")?.as_str()?.to_owned();
    let exp = data.claims.get("exp")?.as_u64()?;
    Some((sub, exp))
}

/// The session token issued at `now` to the owner of `email`: signed with
/// the server's secret, naming the email and expiring an hour later. It
/// reads back as that email and expiry.
pub fn session_token(email: &str, now: u64) -> (r: Option<String>)
    requires
        now + JWT_VALID_FOR_SECS <= u64::MAX,
    ensures
        r matches Some(t) && t@ == jwt_hs256(email@, (now + JWT_VALID_FOR_SECS) as u64, jwt_secret_bytes()),
        r matches Some(t) ==> jwt_claims(t@, jwt_secret_bytes()) == Some((email@, (now + JWT_VALID_FOR_SECS) as u64)),
{
    proof {
        reveal_strlit("lst-jwt-demo-secret-goes-here");
    }
    let valid_for = JWT_VALID_FOR_SECS as u64;
    jwt_encode(email, now + valid_for, JWT_SECRET.as_bytes())
}

/// The answer to a login with a one-time token at `now`: a session token
/// for the email when the token matches the one stored for it (its text
/// and expiry) and has not expired; refused otherwise.
pub fn verify_login(stored: Option<(&str, u64)>, email: &str, token: &str, now: u64) -> (r: Option<String>)
    requires
        now + JWT_VALID_FOR_SECS <= u64::MAX,
    ensures
        ({
            let accepted = login_token_accepted(
                match stored {
                    Some((t, e)) => Some((t@, e)),
                    None => None,
                },
                token@,
                now,
            );
            &&& !accepted ==> r is None
            &&& accepted ==> (r matches Some(t) && t@ == jwt_hs256(email@, (now + JWT_VALID_FOR_SECS) as u64, jwt_secret_bytes())
                && jwt_claims(t@, jwt_secret_bytes()) == Some((email@, (now + JWT_VALID_FOR_SECS) as u64)))
        }),
{
    if login_token_valid(stored, token, now) {
        session_token(email, now)
    } else {
        None
    }
}

/// The claims of the session token in an `Authorization` header, when the
/// header is `Bearer <token>` and the token is the server's and valid; the
/// request is refused otherwise.
pub fn session_claims(authorization: Option<&str>) -> (r: Option<(String, u64)>)
    ensures
        r matches Some((sub, exp)) ==> (authorization matches Some(h) && has_prefix(h@, "Bearer "@) && jwt_claims(
            h@.subrange(7, h@.len() as int),
            jwt_secret_bytes(),
        ) == Some((sub@, exp))),
        authorization is None ==> r is None,
        authorization matches Some(h) && !has_prefix(h@, "Bearer "@) ==> r is None,
        authorization matches Some(h) && has_prefix(h@, "Bearer "@) && jwt_claims(
            h@.subrange(7, h@.len() as int),
            jwt_secret_bytes(),
        ) is None ==> r is None,
{
    proof {
        reveal_strlit("lst-jwt-demo-secret-goes-here");
    }
    match authorization {
        Some(h) => match bearer_token(h) {
            Some(t) => jwt_decode(t.as_str(), JWT_SECRET.as_bytes()),
            None => None,
        },
        None => None,
    }
}

/// Whether a byte stays as it is in a percent-encoded text: ASCII letters
/// and digits, `-`, `.`, `_` and `~`.
pub open spec fn url_safe(b: u8) -> bool {
    (48 <= b <= 57) || (65 <= b <= 90) || (97 <= b <= 122) || b == 45 || b == 46 || b == 95 || b == 126
}

/// The upper-case hexadecimal digit of a value below 16.
pub open spec fn hex_digit(d: int) -> char {
    if d < 10 {
        (48 + d) as char
    } else {
        (55 + d) as char
    }
}

/// Bytes percent-encoded: every byte that is not URL-safe becomes `%` and
/// two upper-case hexadecimal digits.
pub open spec fn percent_encoded(bytes: Seq<u8>) -> Seq<char>
    decreases bytes.len(),
{
    if bytes.len() == 0 {
        Seq::empty()
    } else {
        let b = bytes.last();
        let tail = if url_safe(b) {
            seq![b as char]
        } else {
            seq!['%', hex_digit(b as int / 16), hex_digit(b as int % 16)]
        };
        percent_encoded(bytes.drop_last()) + tail
    }
}

/// `urlencoding::encode(s)`: the UTF-8 bytes of `s`, percent-encoded.
#[verifier::external_body]
fn url_encode(s: &str) -> (r: String)
    ensures
        r@ == percent_encoded(utf8(s@)),
{
    urlencoding::encode(s).into_owned()
}

/// The login link for a token: it opens the app on `host` with the token
/// and the email, both percent-encoded.
pub open spec fn login_link(host: Seq<char>, token: Seq<char>, email: Seq<char>) -> Seq<char> {
    "lst-login://"@ + host + "/auth/verify?token="@ + percent_encoded(utf8(token)) + "&email="@ + percent_encoded(
        utf8(email),
    )
}

/// The login link sent for a token.
pub fn login_url(host: &str, token: &str, email: &str) -> (r: String)
    ensures
        r@ == login_link(host@, token@, email@),
{
    let mut s = owned("lst-login://");
    s.append(host);
    s.append("/auth/verify?token=");
    s.append(url_encode(token).as_str());
    s.append("&email=");
    s.append(url_encode(email).as_str());
    s
}

/// The text of the login email.
pub open spec fn login_mail(link: Seq<char>, token: Seq<char>) -> Seq<char> {
    "Click to login: "@ + link + "\nOr use code: "@ + token
}

/// The text of the login email for a link and its token.
pub fn login_email_body(link: &str, token: &str) -> (r: String)
    ensures
        r@ == login_mail(link@, token@),
{
    let mut s = owned("Click to login: ");
    s.append(link);
    s.append("\nOr use code: ");
    s.append(token);
    s
}

/// The token of an `Authorization` header of the form `Bearer <token>`.
pub fn bearer_token(header: &str) -> (r: Option<String>)
    ensures
        has_prefix(header@, "Bearer "@) ==> (r matches Some(t) && t@ == header@.subrange(7, header@.len() as int)),
        !has_prefix(header@, "Bearer "@) ==> r is None,
{
    proof {
        reveal_strlit("Bearer ");
    }
    let cs = chars_of(header);
    let prefix = chars_of("Bearer ");
    if starts_with(&cs, &prefix) {
        Some(string_of(&slice_chars(&cs, 7, cs.len())))
    } else {
        None
    }
}

/// `str::to_uppercase` of `s`.
pub uninterp spec fn uppercase(s: Seq<char>) -> Seq<char>;

/// `str::to_uppercase`.
#[verifier::external_body]
fn to_uppercase(s: &str) -> (r: String)
    ensures
        r@ == uppercase(s@),
{
    s.to_uppercase()
}

/// A login token made of three words and a number: the words upper-cased,
/// then the number, separated by `-`.
pub open spec fn login_token(a: Seq<char>, b: Seq<char>, c: Seq<char>, digits: u16) -> Seq<char> {
    uppercase(a) + "-"@ + uppercase(b) + "-"@ + uppercase(c) + "-"@ + decimal(digits as nat)
}

/// The login token for three chosen words and a chosen number.
pub fn login_token_text(a: &str, b: &str, c: &str, digits: u16) -> (r: String)
    ensures
        r@ == login_token(a@, b@, c@, digits),
{
    let mut s = to_uppercase(a);
    s.append("-");
    s.append(to_uppercase(b).as_str());
    s.append("-");
    s.append(to_uppercase(c).as_str());
    s.append("-");
    s.append(string_of(&decimal_chars(digits as u64)).as_str());
    s
}

/// Whether a content kind is accepted: not empty, without `/` or `..`, and
/// not starting with `.`.
pub open spec fn content_kind_ok(kind: Seq<char>) -> bool {
    &&& kind.len() > 0
    &&& !kind.contains('/')
    &&& !occurs_in(kind, ".."@)
    &&& kind[0] != '.'
}

/// Whether a content path is accepted: not empty, without `..`, and neither
/// starting nor ending with `/`.
pub open spec fn content_path_ok(path: Seq<char>) -> bool {
    &&& path.len() > 0
    &&& !occurs_in(path, ".."@)
    &&& path[0] != '/'
    &&& path.last() != '/'
}

/// Why content cannot be stored under a kind and path.
#[derive(Debug, Clone, Copy, PartialEq, Eq, Structural)]
pub enum ContentAddressError {
    /// The kind is empty, holds `/` or `..`, or starts with `.`.
    InvalidKind,
    /// The path is empty, holds `..`, or starts or ends with `/`.
    InvalidPath,
}

/// Check the kind and path under which new content is to be stored: the
/// kind first, then the path.
pub fn check_content_address(kind: &str, path: &str) -> (r: Result<(), ContentAddressError>)
    ensures
        !content_kind_ok(kind@) ==> r == Err::<(), ContentAddressError>(ContentAddressError::InvalidKind),
        content_kind_ok(kind@) && !content_path_ok(path@) ==> r == Err::<(), ContentAddressError>(
            ContentAddressError::InvalidPath,
        ),
        content_kind_ok(kind@) && content_path_ok(path@) ==> r is Ok,
{
    let k = chars_of(kind);
    let dots = chars_of("..");
    proof {
        reveal_strlit("..");
    }
    if k.len() == 0 || contains_char(&k, '/') || contains_chars(&k, &dots) || k[0] == '.' {
        return Err(ContentAddressError::InvalidKind);
    }
    let p = chars_of(path);
    if p.len() == 0 || contains_chars(&p, &dots) || p[0] == '/' || p[p.len() - 1] == '/' {
        return Err(ContentAddressError::InvalidPath);
    }
    Ok(())
}

/// Whether `picks` are the words at the distinct positions `ix`, in order.
pub open spec fn picked_at(ix: Seq<int>, words: Seq<String>, picks: Seq<String>) -> bool {
    &&& ix.len() == picks.len()
    &&& ix.no_duplicates()
    &&& forall|i: int| 0 <= i < ix.len() ==> 0 <= #[trigger] ix[i] < words.len() && words[ix[i]]@ == picks[i]@
}

/// `words.choose_multiple(&mut rand::thread_rng(), amount)`, cloned:
/// `amount` of the words (all of them when there are fewer), taken from
/// distinct positions, in random order.
#[verifier::external_body]
fn choose_words(words: &Vec<String>, amount: usize) -> (r: Vec<String>)
    ensures
        r@.len() == if amount < words@.len() {
            amount as int
        } else {
            words@.len() as int
        },
        exists|ix: Seq<int>| #[trigger] picked_at(ix, words@, r@),
{
    rand::seq::SliceRandom::choose_multiple(words.as_slice(), &mut rand::thread_rng(), amount).cloned().collect()
}

/// `rand::thread_rng().gen_range(1000..10000)`: a random four-digit number.
#[verifier::external_body]
fn random_code() -> (r: u16)
    ensures
        1000 <= r < 10000,
{
    rand::Rng::gen_range(&mut rand::thread_rng(), 1000..10000)
}

/// A fresh login token: three different words of the word list, chosen at
/// random and upper-cased, and a random four-digit number.
pub fn generate_token(words: &Vec<String>) -> (r: String)
    requires
        words@.len() >= 3,
    ensures
        exists|a: int, b: int, c: int, d: u16|
            {
                &&& 0 <= a < words@.len() && 0 <= b < words@.len() && 0 <= c < words@.len()
                &&& a != b && b != c && a != c
                &&& 1000 <= d < 10000
                &&& r@ == #[trigger] login_token(words@[a]@, words@[b]@, words@[c]@, d)
            },
{
    let picks = choose_words(words, 3);
    let digits = random_code();
    let ghost ix = choose|ix: Seq<int>| #[trigger] picked_at(ix, words@, picks@);
    let r = login_token_text(picks[0].as_str(), picks[1].as_str(), picks[2].as_str(), digits);
    proof {
        assert(ix[0] != ix[1] && ix[1] != ix[2] && ix[0] != ix[2]);
        assert(words@[ix[0]]@ == picks@[0]@ && words@[ix[1]]@ == picks@[1]@ && words@[ix[2]]@ == picks@[2]@);
        assert(r@ == login_token(words@[ix[0]]@, words@[ix[1]]@, words@[ix[2]]@, digits));
    }
    r
}

} // verus!
