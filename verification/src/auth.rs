//! Accounts and sessions: password hashing, token issuance, and the
//! decisions of the signup, signin and authentication paths.
//!
//! The hashing and signing themselves are outside libraries behind
//! trusted wrappers; everything around them is verified.

use crate::probe::{has_prefix, spec_has_prefix};
use crate::request_output::{CreateUserOutput, SignInOutput};
use crate::store::{users_named, Store};
use vstd::prelude::*;

use argon2::password_hash::phc::PasswordHash;
use argon2::password_hash::{PasswordHasher, PasswordVerifier};

verus! {

use vstd::string::StrSliceExecFns;

/// The claims a session token carries: the user's id and an expiry time
/// in seconds since the Unix epoch.
#[derive(Debug)]
pub struct Claims {
    pub sub: String,
    pub exp: u64,
}

/// An authenticated caller's user id, as extracted from an
/// `Authorization: Bearer` header.
#[derive(Debug)]
pub struct UserId(pub String);

/// Why a request to the account paths was refused.
#[derive(Clone, Copy, Debug, PartialEq, Eq, Structural)]
pub enum AuthError {
    /// Hashing or signing failed.
    Internal,
    /// The account could not be created.
    Conflict,
    /// The credentials do not match an account.
    Unauthorized,
    /// The request carries no `Authorization` header.
    MissingToken,
    /// The header does not have the `Bearer <token>` shape.
    InvalidTokenFormat,
    /// The token did not decode under the secret.
    TokenMalformed,
}

/// The name stands for what argon2's verification computes: whether the
/// password matches the PHC hash string. It is a function of the two
/// arguments alone.
pub uninterp spec fn password_verifies(password: Seq<char>, hash: Seq<char>) -> bool;

/// Relies on argon2's `PasswordHasher::hash_password`: hashes the
/// password under a random salt into a PHC string, and a hash so
/// produced verifies against the same password. The salt is random, so
/// two calls may return different strings.
#[verifier::external_body]
pub fn hash_password(password: &str) -> (r: Option<String>)
    ensures
        r matches Some(h) ==> password_verifies(password@, h@),
{
    match argon2::Argon2::default().hash_password(password.as_bytes()) {
        Ok(h) => Some(h.to_string()),
        Err(_) => None,
    }
}

/// Relies on argon2's `PasswordVerifier::verify_password` over a parsed
/// PHC string: whether the password matches the hash, a function of the
/// two arguments alone; a string that is no PHC hash matches nothing.
#[verifier::external_body]
pub fn verify_password(password: &str, hash: &str) -> (r: bool)
    ensures
        r == password_verifies(password@, hash@),
{
    match PasswordHash::new(hash) {
        Ok(parsed) => argon2::Argon2::default().verify_password(password.as_bytes(), &parsed).is_ok(),
        Err(_) => false,
    }
}

/// The name stands for what jsonwebtoken's `encode` signs with the
/// default HS256 header: a function of the secret and the claims alone.
pub uninterp spec fn token_of(secret: Seq<char>, sub: Seq<char>, exp: u64) -> Seq<char>;

/// Relies on jsonwebtoken::encode with `Header::default()` (HS256) and
/// an `EncodingKey` from the secret: the token depends on the secret
/// and the claims alone.
#[verifier::external_body]
fn encode_token(sub: &String, exp: u64, secret: &str) -> (r: Option<String>)
    ensures
        r matches Some(t) ==> t@ == token_of(secret@, sub@, exp),
{
    let mut claims = serde_json::Map::new();
    claims.insert("sub".to_string(), serde_json::Value::String(sub.clone()));
    claims.insert("exp".to_string(), serde_json::Value::from(exp));
    let value = serde_json::Value::Object(claims);
    let key = jsonwebtoken::EncodingKey::from_secret(secret.as_bytes());
    match jsonwebtoken::encode(&jsonwebtoken::Header::default(), &value, &key) {
        Ok(t) => Some(t),
        Err(_) => None,
    }
}

/// Relies on jsonwebtoken::decode with `Validation::default()` (HS256,
/// expiry checked against the system clock): hands back the token's
/// `sub` and `exp` claims when signature and validation pass. The clock
/// takes part, so nothing is promised of the outcome.
#[verifier::external_body]
fn decode_token(token: &str, secret: &str) -> (r: Option<(String, u64)>) {
    let key = jsonwebtoken::DecodingKey::from_secret(secret.as_bytes());
    let validation = jsonwebtoken::Validation::default();
    let data: jsonwebtoken::TokenData<serde_json::Value> =
        jsonwebtoken::decode(token, &key, &validation).ok()?;
    let sub = data.claims.get("sub")?.as_str()?.to_string();
    let exp = data.claims.get("exp")?.as_u64()?;
    Some((sub, exp))
}

/// Creates an account: hashes the password and stores the new user,
/// answering with the fresh user id. Only a hashing failure is refused.
pub fn signup(store: &mut Store, username: String, password: String, email: String) -> (r: Result<
    CreateUserOutput,
    AuthError,
>)
    ensures
        r is Err ==> r == Err::<CreateUserOutput, AuthError>(AuthError::Internal) && *final(store)
            == *old(store),
        r matches Ok(out) ==> {
            &&& out.id@.len() == 36
            &&& final(store).users.deep_view().len() == old(store).users.deep_view().len() + 1
            &&& final(store).users.deep_view().last().username == username@
            &&& final(store).users.deep_view().last().email == email@
            &&& final(store).users.deep_view().last().id == out.id@
            &&& password_verifies(password@, final(store).users.deep_view().last().password)
            &&& forall|j: int|
                0 <= j < old(store).users.deep_view().len() ==> final(store).users.deep_view()[j]
                    == old(store).users.deep_view()[j]
        },
{
    let hashed = match hash_password(password.as_str()) {
        Some(h) => h,
        None => {
            return Err(AuthError::Internal);
        },
    };
    match store.sign_up(username, hashed, email) {
        Ok(id) => Ok(CreateUserOutput { id }),
        Err(_) => {
            proof {
                assert(false);
            }
            Err(AuthError::Conflict)
        },
    }
}

/// Signs a caller in: the stored hash of the first account under the
/// username must match the password, and the answer carries a session
/// token for that account, expiring `expiry_hours` after `now_secs`.
/// A caller without a matching account is refused as unauthorized; on
/// that path a throwaway hash is still computed and checked, so the
/// timing does not reveal whether the username exists.
pub fn signin(
    store: &mut Store,
    username: &str,
    password: &str,
    expiry_hours: u64,
    now_secs: u64,
    jwt_secret: &str,
) -> (r: Result<SignInOutput, AuthError>)
    requires
        expiry_hours * 3600 + now_secs <= u64::MAX,
    ensures
        *final(store) == *old(store),
        ({
            let named = users_named(old(store).users.deep_view(), username@);
            if named.len() == 0 || !password_verifies(password@, named[0].password) {
                r == Err::<SignInOutput, AuthError>(AuthError::Unauthorized)
            } else {
                (r matches Ok(out) ==> out.jwt@ == token_of(
                    jwt_secret@,
                    named[0].id,
                    (now_secs + expiry_hours * 3600) as u64,
                )) && (r is Err ==> r == Err::<SignInOutput, AuthError>(AuthError::Internal))
            }
        }),
{
    let user_id: Option<String> = match store.get_user_by_username(username) {
        Ok((id, stored_hash)) => {
            if verify_password(password, stored_hash.as_str()) {
                Some(id)
            } else {
                None
            }
        },
        Err(_) => {
            // equalize timing against a username probe
            let dummy_hash = match hash_password("dummy_password_for_timing") {
                Some(h) => h,
                None => String::new(),
            };
            let _ = verify_password(password, dummy_hash.as_str());
            None
        },
    };
    let user_id = match user_id {
        Some(id) => id,
        None => {
            return Err(AuthError::Unauthorized);
        },
    };
    let claims = Claims { sub: user_id, exp: now_secs + expiry_hours * 3600 };
    match encode_token(&claims.sub, claims.exp, jwt_secret) {
        Some(token) => Ok(SignInOutput { jwt: token }),
        None => Err(AuthError::Internal),
    }
}

/// The token part of an `Authorization` header: what follows the
/// `Bearer ` prefix.
pub open spec fn spec_bearer_token(header: Seq<char>) -> Option<Seq<char>> {
    if spec_has_prefix(header, "Bearer "@) {
        Some(header.skip("Bearer "@.len() as int))
    } else {
        None
    }
}

/// Splits the token off an `Authorization` header.
pub fn parse_bearer(header: &str) -> (r: Option<String>)
    ensures
        r matches Some(t) ==> spec_bearer_token(header@) == Some(t@),
        r is None <==> spec_bearer_token(header@) is None,
{
    proof {
        reveal_strlit("Bearer ");
        assert("Bearer "@.len() == 7);
    }
    if has_prefix(header, "Bearer ") {
        let n = header.unicode_len();
        let token = header.substring_char(7, n);
        proof {
            assert(token@ =~= header@.skip(7));
        }
        Some(token.to_owned())
    } else {
        None
    }
}

/// Authenticates a request from its `Authorization` header: the header
/// must carry a `Bearer` token that decodes under the secret. Whether a
/// well-formed token decodes depends on the clock (the expiry check),
/// so success is pinned down only as far as the header's shape.
pub fn authorize(auth_header: Option<&str>, jwt_secret: &str) -> (r: Result<UserId, AuthError>)
    ensures
        auth_header is None ==> r == Err::<UserId, AuthError>(AuthError::MissingToken),
        auth_header is Some ==> r != Err::<UserId, AuthError>(AuthError::MissingToken),
        (auth_header matches Some(h) && spec_bearer_token(h@) is None) ==> r == Err::<
            UserId,
            AuthError,
        >(AuthError::InvalidTokenFormat),
        (auth_header matches Some(h) && spec_bearer_token(h@) is Some) ==> r != Err::<
            UserId,
            AuthError,
        >(AuthError::InvalidTokenFormat),
        r is Ok ==> (auth_header matches Some(h) && spec_bearer_token(h@) is Some),
{
    let header = match auth_header {
        None => {
            return Err(AuthError::MissingToken);
        },
        Some(h) => h,
    };
    let token = match parse_bearer(header) {
        None => {
            return Err(AuthError::InvalidTokenFormat);
        },
        Some(t) => t,
    };
    match decode_token(token.as_str(), jwt_secret) {
        Some((sub, _exp)) => Ok(UserId(sub)),
        None => Err(AuthError::TokenMalformed),
    }
}

} // verus!
