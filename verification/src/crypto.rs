//! The calls into `sodiumoxide`. Nothing in this file is proved: each function
//! states what its outside function is taken to do.

use vstd::prelude::*;

verus! {

/// What `box_::precompute` derives from a public and a secret key.
pub uninterp spec fn shared_key(public_key: Seq<u8>, secret_key: Seq<u8>) -> Seq<u8>;

/// What `box_::seal_precomputed` makes of a message under a nonce and a key.
pub uninterp spec fn sealed(message: Seq<u8>, nonce: Seq<u8>, key: Seq<u8>) -> Seq<u8>;

/// What `box_::open_precomputed` recovers from a sealed message, if it accepts it.
pub uninterp spec fn opened(sealed: Seq<u8>, nonce: Seq<u8>, key: Seq<u8>) -> Option<Seq<u8>>;

/// The digest that `hash::sha512::hash` gives a message.
pub uninterp spec fn sha512_digest(message: Seq<u8>) -> Seq<u8>;

/// The signature that `sign::sign_detached` gives a message under a secret key.
pub uninterp spec fn signature_of(message: Seq<u8>, secret_key: Seq<u8>) -> Seq<u8>;

/// The public key that `sign::SecretKey::public_key` reads out of a secret signing key.
pub uninterp spec fn verifying_key(secret_key: Seq<u8>) -> Seq<u8>;

/// What was sealed under a nonce and a key opens under them to what it was.
/// Nothing in this library claims that it does; the laws that need it say so.
pub open spec fn unseals(message: Seq<u8>, nonce: Seq<u8>, key: Seq<u8>) -> bool {
    opened(sealed(message, nonce, key), nonce, key) == Some(message)
}

/// Calls `box_::gen_keypair`, which draws a fresh key pair at random: public key
/// first. Nothing is claimed of the keys but their sizes, which the types give.
#[verifier::external_body]
pub(crate) fn gen_keypair() -> (pair: ([u8; 32], [u8; 32])) {
    let (public_key, secret_key) = sodiumoxide::crypto::box_::gen_keypair();
    (public_key.0, secret_key.0)
}

/// Calls `box_::gen_nonce`, which draws a nonce at random. Nothing is claimed of it
/// but its size, which the type gives.
#[verifier::external_body]
pub(crate) fn gen_nonce() -> (nonce: [u8; 24]) {
    sodiumoxide::crypto::box_::gen_nonce().0
}

/// Calls `box_::precompute`. The claim: the key is a function of the two
/// arguments. (Where libsodium refuses the public key, the call returns the
/// zeroed buffer that it started with.)
#[verifier::external_body]
pub(crate) fn precompute(public_key: &[u8; 32], secret_key: &[u8; 32]) -> (key: [u8; 32])
    ensures
        key@ == shared_key(public_key@, secret_key@),
{
    let public_key = sodiumoxide::crypto::box_::PublicKey(*public_key);
    let secret_key = sodiumoxide::crypto::box_::SecretKey(*secret_key);
    sodiumoxide::crypto::box_::precompute(&public_key, &secret_key).0
}

/// Calls `box_::seal_precomputed`. The claims: the result is a function of the three
/// arguments, and it is 16 bytes, the authenticator, longer than the message.
#[verifier::external_body]
pub(crate) fn seal_precomputed(
    message: &Vec<u8>,
    nonce: &[u8; 24],
    key: &[u8; 32],
) -> (out: Vec<u8>)
    ensures
        out@ == sealed(message@, nonce@, key@),
        out@.len() == message@.len() + 16,
{
    let nonce = sodiumoxide::crypto::box_::Nonce(*nonce);
    let key = sodiumoxide::crypto::box_::PrecomputedKey(*key);
    sodiumoxide::crypto::box_::seal_precomputed(message, &nonce, &key)
}

/// Calls `box_::open_precomputed`. The claims: whether it accepts, and what it then
/// returns, is a function of the three arguments; what it returns is 16 bytes
/// shorter than what it was given.
#[verifier::external_body]
pub(crate) fn open_precomputed(
    sealed: &Vec<u8>,
    nonce: &[u8; 24],
    key: &[u8; 32],
) -> (out: Result<Vec<u8>, ()>)
    ensures
        out matches Ok(message) ==> opened(sealed@, nonce@, key@) == Some(message@)
            && message@.len() + 16 == sealed@.len(),
        out is Err ==> opened(sealed@, nonce@, key@) is None,
{
    let nonce = sodiumoxide::crypto::box_::Nonce(*nonce);
    let key = sodiumoxide::crypto::box_::PrecomputedKey(*key);
    sodiumoxide::crypto::box_::open_precomputed(sealed, &nonce, &key)
}

/// Calls `hash::sha512::hash`. The claim: the digest is a function of the message.
#[verifier::external_body]
pub(crate) fn sha512(message: &Vec<u8>) -> (digest: [u8; 64])
    ensures
        digest@ == sha512_digest(message@),
{
    sodiumoxide::crypto::hash::sha512::hash(message).0
}

/// Calls `sign::sign_detached`. The claim: the signature is a function of the
/// message and the secret key. The call panics where libsodium reports another
/// length than 64 bytes or leaves one of the three highest bits of the last byte
/// set; libsodium does neither, whatever the key: it writes 64 bytes, the last 32
/// of them a scalar that it has reduced.
#[verifier::external_body]
pub(crate) fn sign_detached(message: &Vec<u8>, secret_key: &[u8; 64]) -> (signature: [u8; 64])
    ensures
        signature@ == signature_of(message@, secret_key@),
{
    let secret_key = sodiumoxide::crypto::sign::SecretKey(*secret_key);
    sodiumoxide::crypto::sign::sign_detached(message, &secret_key).to_bytes()
}

/// Calls `sign::SecretKey::public_key`. The claim: the public key is a function of
/// the secret key.
#[verifier::external_body]
pub(crate) fn public_signing_key(secret_key: &[u8; 64]) -> (public_key: [u8; 32])
    ensures
        public_key@ == verifying_key(secret_key@),
{
    sodiumoxide::crypto::sign::SecretKey(*secret_key).public_key().0
}

} // verus!
