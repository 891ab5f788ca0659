//! The keyed hash under which a token is stored and found again, and the
//! random material that a new token is made of.
//!
//! The hash is HMAC-SHA-512 of the token under the deployment's secret,
//! written in base64. It is one deterministic function of secret and token,
//! so a presented token is looked up by its hash alone.

use vstd::prelude::*;
use vstd::utf8::encode_utf8;
use base64::Engine;
use hmac::Mac;
use rand::Rng;

verus! {

/// The error with which the `digest` crate turns a key away for its length.
#[verifier::external_type_specification]
#[verifier::external_body]
pub struct ExInvalidLength(hmac::digest::InvalidLength);

/// The HMAC-SHA-512 tag of `message` under `key`.
pub uninterp spec fn hmac_sha512(key: Seq<u8>, message: Seq<u8>) -> Seq<u8>;

/// The base64 text of `bytes`, in the standard alphabet and padded.
pub uninterp spec fn base64_standard(bytes: Seq<u8>) -> Seq<char>;

/// The length of the padded base64 text of `n` bytes: four characters for
/// every three bytes begun.
pub open spec fn base64_len(n: nat) -> nat {
    4 * ((n + 2) / 3)
}

/// `hmac::Hmac::<sha2::Sha512>`: `new_from_slice`, `update`, then
/// `finalize().into_bytes()`. The contract claims that the call succeeds
/// for a key of any length, which is how HMAC is keyed, that the tag is the
/// named function of key and message, and that it is 64 bytes long, the
/// output size of SHA-512.
#[verifier::external_body]
fn hmac_sha512_tag(key: &[u8], message: &[u8]) -> (r: Result<Vec<u8>, hmac::digest::InvalidLength>)
    ensures
        r is Ok,
        r->Ok_0@ == hmac_sha512(key@, message@),
        r->Ok_0@.len() == 64,
{
    let mut mac = hmac::Hmac::<sha2::Sha512>::new_from_slice(key)?;
    mac.update(message);
    Ok(mac.finalize().into_bytes().to_vec())
}

/// `base64::engine::general_purpose::STANDARD.encode`. The contract claims
/// that the text is the named function of the bytes and has the length that
/// the crate's `encoded_len` computes with padding. The call panics where
/// that length does not fit in `usize`, so such input is left out.
#[verifier::external_body]
fn base64_encode(bytes: &[u8]) -> (r: String)
    requires
        base64_len(bytes@.len()) <= usize::MAX,
    ensures
        r@ == base64_standard(bytes@),
        r@.len() == base64_len(bytes@.len()),
{
    base64::engine::general_purpose::STANDARD.encode(bytes)
}

/// `rand::thread_rng().gen::<[u8; 30]>()`: thirty bytes from the thread's
/// generator. Nothing is claimed of them.
#[verifier::external_body]
pub(crate) fn random_bytes() -> [u8; 30] {
    rand::thread_rng().gen::<[u8; 30]>()
}

/// The hash under which `token` is stored for the deployment keyed by
/// `secret`: the base64 text of the HMAC-SHA-512 tag of the token's bytes
/// under the secret's bytes.
pub open spec fn token_hash(secret: Seq<char>, token: Seq<char>) -> Seq<char> {
    base64_standard(hmac_sha512(encode_utf8(secret), encode_utf8(token)))
}

/// The raw token made of `bytes`: their base64 text.
pub open spec fn raw_token(bytes: Seq<u8>) -> Seq<char> {
    base64_standard(bytes)
}

/// Computes the hash of `token` under `secret`. `None` stands for a failure
/// of the hashing itself.
pub fn keyed_hash(secret: &str, token: &str) -> (r: Option<String>)
    ensures
        r matches Some(h) && h@ == token_hash(secret@, token@),
{
    match hmac_sha512_tag(secret.as_bytes(), token.as_bytes()) {
        Ok(tag) => Some(base64_encode(tag.as_slice())),
        Err(_) => None,
    }
}

/// Encodes the random material of a new token as the raw token.
pub fn encode_token(bytes: &[u8; 30]) -> (r: String)
    ensures
        r@ == raw_token(bytes@),
        r@.len() == 40,
{
    base64_encode(bytes.as_slice())
}

} // verus!
