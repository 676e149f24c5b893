//! Digests, message authentication codes, random bytes and the clock.

use hmac::Mac;
use sha2::Digest;
use vstd::prelude::*;

verus! {

/// HMAC-SHA1 of `message` under `key`.
pub uninterp spec fn hmac_sha1_of(key: Seq<u8>, message: Seq<u8>) -> Seq<u8>;

/// HMAC-SHA256 of `message` under `key`.
pub uninterp spec fn hmac_sha256_of(key: Seq<u8>, message: Seq<u8>) -> Seq<u8>;

/// SHA-256 of `data`.
pub uninterp spec fn sha256_of(data: Seq<u8>) -> Seq<u8>;

/// Calls `hmac::Hmac::<sha1::Sha1>`: `new_from_slice` takes a key of any length, so a code always
/// comes back. It depends on the key and the message alone and is 20 bytes long.
#[verifier::external_body]
pub(crate) fn hmac_sha1(key: &[u8], message: &[u8]) -> (res: Option<Vec<u8>>)
    ensures
        res is Some,
        res->0@ == hmac_sha1_of(key@, message@),
        res->0@.len() == 20,
{
    let mut mac = hmac::Hmac::<sha1::Sha1>::new_from_slice(key).ok()?;
    mac.update(message);
    Some(mac.finalize().into_bytes().to_vec())
}

/// Calls `hmac::Hmac::<sha2::Sha256>`: `new_from_slice` takes a key of any length, so a code
/// always comes back. It depends on the key and the message alone and is 32 bytes long.
#[verifier::external_body]
pub(crate) fn hmac_sha256(key: &[u8], message: &[u8]) -> (res: Option<Vec<u8>>)
    ensures
        res is Some,
        res->0@ == hmac_sha256_of(key@, message@),
        res->0@.len() == 32,
{
    let mut mac = hmac::Hmac::<sha2::Sha256>::new_from_slice(key).ok()?;
    mac.update(message);
    Some(mac.finalize().into_bytes().to_vec())
}

/// Calls `sha2::Sha256::digest`: the digest depends on the data alone and is 32 bytes long.
#[verifier::external_body]
pub(crate) fn sha256(data: &[u8]) -> (res: Vec<u8>)
    ensures
        res@ == sha256_of(data@),
        res@.len() == 32,
{
    sha2::Sha256::digest(data).to_vec()
}

/// Calls `getrandom::fill` on a buffer of `len` bytes. What the bytes are is left open, and so is
/// whether the system's source of randomness answers.
#[verifier::external_body]
pub(crate) fn random_bytes(len: usize) -> (res: Option<Vec<u8>>)
    requires
        len <= 65536,
    ensures
        res matches Some(bytes) ==> bytes@.len() == len,
{
    let mut bytes = vec![0u8; len];
    getrandom::fill(&mut bytes).ok()?;
    Some(bytes)
}

/// Calls `SystemTime::elapsed` on the Unix epoch: the whole seconds since then, or `None` where
/// the clock stands before it. The reading is left open.
#[verifier::external_body]
pub(crate) fn unix_time() -> (res: Option<u64>) {
    std::time::SystemTime::UNIX_EPOCH.elapsed().ok().map(|elapsed| elapsed.as_secs())
}

} // verus!
