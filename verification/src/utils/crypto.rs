//! Hashing and signatures: SHA-1 over the body and RSA with PKCS#1 v1.5 padding.

use vstd::prelude::*;
use crate::error::PpmError;

verus! {

/// Bytes in a signature.
pub const SIGNATURE_SIZE: usize = 0x80;

/// Bytes in a digest.
pub const DIGEST_SIZE: usize = 20;

/// The SHA-1 digest of `data`, as the collision-detecting hasher gives it.
pub uninterp spec fn spec_sha1(data: Seq<u8>) -> Seq<u8>;

/// Whether the PEM text holds an RSA public key.
pub uninterp spec fn spec_pem_holds_key(public_key_pem: Seq<char>) -> bool;

/// Whether `signature` is a valid PKCS#1 v1.5 signature of the SHA-1 digest `digest` under
/// the public key that the PEM text holds.
pub uninterp spec fn spec_rsa_valid(public_key_pem: Seq<char>, digest: Seq<u8>, signature: Seq<u8>) -> bool;

/// The outcome of a verification: `None` where the text holds no public key, else whether
/// the signature is valid under that key. A signature that does not match is `Some(false)`,
/// never `None`.
pub open spec fn spec_rsa_verify(public_key_pem: Seq<char>, digest: Seq<u8>, signature: Seq<u8>) -> Option<
    bool,
> {
    if spec_pem_holds_key(public_key_pem) {
        Some(spec_rsa_valid(public_key_pem, digest, signature))
    } else {
        None
    }
}

/// An RSA private key.
#[verifier::external_type_specification]
#[verifier::external_body]
pub struct ExRsaPrivateKey(rsa::RsaPrivateKey);

/// Calls `sha1_checked::Sha1::digest`, the one-shot form of the hasher through its `Digest`
/// trait. The contract names the result and claims its length: the hasher's output size is
/// 20 bytes.
#[verifier::external_body]
fn sha1_digest(data: &[u8]) -> (digest: Vec<u8>)
    ensures
        digest@ == spec_sha1(data@),
        digest@.len() == DIGEST_SIZE,
{
    <sha1_checked::Sha1 as sha1_checked::Digest>::digest(data).to_vec()
}

/// Calls `rsa::pkcs8::DecodePublicKey::from_public_key_pem` for `rsa::RsaPublicKey` and, on
/// the key that it gives, `rsa::RsaPublicKey::verify` with `rsa::Pkcs1v15Sign::new` for
/// SHA-1. The contract names both results: the call gives `None` exactly where the key does
/// not parse, and else whether the verification returned without an error.
#[verifier::external_body]
fn rsa_verify(public_key_pem: &str, digest: &[u8], signature: &[u8]) -> (r: Option<bool>)
    ensures
        r is Some == spec_pem_holds_key(public_key_pem@),
        r is Some ==> r->Some_0 == spec_rsa_valid(public_key_pem@, digest@, signature@),
{
    match <rsa::RsaPublicKey as rsa::pkcs8::DecodePublicKey>::from_public_key_pem(public_key_pem) {
        Ok(key) => {
            let scheme = rsa::Pkcs1v15Sign::new::<sha1_checked::Sha1>();
            Some(key.verify(scheme, digest, signature).is_ok())
        },
        Err(_) => None,
    }
}

/// Calls `rsa::RsaPrivateKey::sign_with_rng` with the system's random numbers and
/// `rsa::Pkcs1v15Sign::new` for SHA-1. Nothing is claimed of the result: `None` stands for
/// the outside error.
#[verifier::external_body]
fn rsa_sign(private_key: &rsa::RsaPrivateKey, digest: &[u8]) -> (r: Option<Vec<u8>>)
{
    let scheme = rsa::Pkcs1v15Sign::new::<sha1_checked::Sha1>();
    private_key.sign_with_rng(&mut rsa::rand_core::OsRng, scheme, digest).ok()
}

/// The digest of the body of a container.
pub fn hash_data(data: &[u8]) -> (digest: Vec<u8>)
    ensures
        digest@ == spec_sha1(data@),
        digest@.len() == DIGEST_SIZE,
{
    sha1_digest(data)
}

/// Whether `signature` signs `digest` under the public key in `public_key_pem`. A signature
/// that does not match is `Ok(false)`; `Crypto` is for a text that holds no public key.
pub fn verify(digest: &[u8], signature: &[u8], public_key_pem: &str) -> (r: Result<bool, PpmError>)
    ensures
        spec_pem_holds_key(public_key_pem@) ==> r == Ok::<bool, PpmError>(
            spec_rsa_valid(public_key_pem@, digest@, signature@),
        ),
        !spec_pem_holds_key(public_key_pem@) ==> r == Err::<bool, PpmError>(PpmError::Crypto),
        match spec_rsa_verify(public_key_pem@, digest@, signature@) {
            Some(valid) => r == Ok::<bool, PpmError>(valid),
            None => r == Err::<bool, PpmError>(PpmError::Crypto),
        },
{
    match rsa_verify(public_key_pem, digest, signature) {
        Some(valid) => Ok(valid),
        None => Err(PpmError::Crypto),
    }
}

/// What `sign` makes of what the signer handed back: the signature where there is one of
/// 0x80 bytes, else `Crypto`.
pub fn accept_signature(signed: Option<Vec<u8>>) -> (r: Result<Vec<u8>, PpmError>)
    ensures
        signed is Some && signed->Some_0@.len() == SIGNATURE_SIZE ==> r is Ok && r->Ok_0@
            == signed->Some_0@,
        !(signed is Some && signed->Some_0@.len() == SIGNATURE_SIZE) ==> r == Err::<
            Vec<u8>,
            PpmError,
        >(PpmError::Crypto),
{
    match signed {
        Some(signature) => {
            if signature.len() == SIGNATURE_SIZE {
                Ok(signature)
            } else {
                Err(PpmError::Crypto)
            }
        },
        None => Err(PpmError::Crypto),
    }
}

/// Signs `digest` with `private_key`. The signature is 0x80 bytes long; `Crypto` where the
/// signer fails or gives another length.
pub fn sign(digest: &[u8], private_key: &rsa::RsaPrivateKey) -> (r: Result<Vec<u8>, PpmError>)
    ensures
        r is Ok ==> r->Ok_0@.len() == SIGNATURE_SIZE,
        r is Err ==> r->Err_0 == PpmError::Crypto,
{
    accept_signature(rsa_sign(private_key, digest))
}

} // verus!
