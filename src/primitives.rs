use sha2::Digest;
use rand::RngCore;
use vstd::prelude::*;

verus! {

/// The SHA-256 digest of a password's UTF-8 bytes followed by a salt.
pub uninterp spec fn password_digest(password: Seq<char>, salt: Seq<u8>) -> Seq<u8>;

/// The HS256 token, with the default header, that signs the claims
/// `{user_id, version}` under a key.
pub uninterp spec fn signed_token(key: Seq<u8>, user_id: Seq<char>, version: int) -> Seq<char>;

/// The claims `(user_id, version)` that a token carries when its HS256
/// signature holds under the key and its payload has both fields; `None`
/// otherwise.
pub uninterp spec fn token_claims(key: Seq<u8>, token: Seq<char>) -> Option<(Seq<char>, int)>;

#[verifier::external_type_specification]
#[verifier::external_body]
pub struct ExJwtError(jsonwebtoken::errors::Error);

/// Relies on sha2::Sha256: hashes the password's bytes, then the salt,
/// into a 32-byte digest.
#[verifier::external_body]
pub(crate) fn salted_digest(password: &str, salt: &[u8]) -> (r: Vec<u8>)
    ensures
        r@ == password_digest(password@, salt@),
        r@.len() == 32,
{
    let mut hasher = sha2::Sha256::new();
    hasher.update(password.as_bytes());
    hasher.update(salt);
    hasher.finalize().to_vec()
}

/// Relies on rand's OsRng (through RngCore::try_fill_bytes): `n` bytes from
/// the operating system's secure random source, or `None` when that source
/// fails.
#[verifier::external_body]
pub(crate) fn random_bytes(n: usize) -> (r: Option<Vec<u8>>)
    ensures
        r is Some ==> r->Some_0@.len() == n,
{
    let mut bytes = vec![0u8; n];
    rand::rngs::OsRng.try_fill_bytes(&mut bytes[..]).ok()?;
    Some(bytes)
}

/// Relies on jsonwebtoken::encode with the default (HS256) header and an HMAC
/// key, over the JSON object `{"user_id": .., "version": ..}`. It fails only
/// on a key that does not fit the header's algorithm or claims that do not
/// serialise, neither of which can happen here. Read back by
/// jsonwebtoken::decode under the same key, the token gives the same two values.
#[verifier::external_body]
pub(crate) fn sign_claims(key: &[u8], user_id: &str, version: i32) -> (r: Result<
    String,
    jsonwebtoken::errors::Error,
>)
    ensures
        r is Ok,
        r is Ok ==> r->Ok_0@ == signed_token(key@, user_id@, version as int),
        r is Ok ==> token_claims(key@, r->Ok_0@) == Some((user_id@, version as int)),
{
    let mut claims = serde_json::Map::new();
    claims.insert("user_id".to_string(), serde_json::Value::from(user_id));
    claims.insert("version".to_string(), serde_json::Value::from(version));
    let header = jsonwebtoken::Header::default();
    jsonwebtoken::encode(&header, &claims, &jsonwebtoken::EncodingKey::from_secret(key))
}

/// Relies on jsonwebtoken::decode (HS256, with no expiry check and no claim
/// required): the fields `user_id` (a string) and `version` (an integer) of a
/// token whose signature holds under the key.
#[verifier::external_body]
pub(crate) fn read_claims(key: &[u8], token: &str) -> (r: Option<(String, i64)>)
    ensures
        r is None ==> token_claims(key@, token@) is None,
        r is Some ==> token_claims(key@, token@) == Some((r->Some_0.0@, r->Some_0.1 as int)),
{
    let mut validation = jsonwebtoken::Validation::new(jsonwebtoken::Algorithm::HS256);
    validation.required_spec_claims.clear();
    validation.validate_exp = false;
    let key = jsonwebtoken::DecodingKey::from_secret(key);
    let data = jsonwebtoken::decode::<serde_json::Map<String, serde_json::Value>>(token, &key, &validation).ok()?;
    let user_id = data.claims.get("user_id")?.as_str()?.to_string();
    let version = data.claims.get("version")?.as_i64()?;
    Some((user_id, version))
}

} // verus!
