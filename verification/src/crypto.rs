//! The outside primitives: names for what they compute, and the calls themselves.
//!
//! Everything in this file is believed, not proved. Each call hands its arguments to one
//! function of an outside crate and hands back what came out.

use aes_gcm::aead::{Aead, KeyInit, Payload};
use aes_gcm::{Aes256Gcm, Nonce};
use hmac::{Hmac, Mac};
use ml_dsa::{EncodedVerifyingKey, Keypair, MlDsa87, SignatureEncoding, Signer, Verifier};
use ml_kem::kem::{Decapsulate, Encapsulate};
use ml_kem::{EncodedSizeUser, KemCore, MlKem1024};
use crate::ratchet::{KEM_CT_LEN, KEM_PK_LEN, KEM_SK_LEN};
use crate::signing::{PUBLIC_KEY_LEN, SIGNATURE_LEN};
use rand::RngCore;
use sha2::{Digest, Sha256};
use vstd::prelude::*;

verus! {

/// Longest message, and longest associated data, that AES-GCM seals.
pub const GCM_MAX: u64 = 0x10_0000_0000;

/// Bytes of a GCM authentication tag.
pub const GCM_TAG_LEN: usize = 16;

/// Where the public key stands inside an ML-KEM-1024 secret key.
pub const KEM_PK_OFFSET: usize = 1536;

/// SHA-256 of `data`.
pub uninterp spec fn sha256_of(data: Seq<u8>) -> Seq<u8>;

/// HMAC-SHA256 of `data` under `key`.
pub uninterp spec fn hmac_of(key: Seq<u8>, data: Seq<u8>) -> Seq<u8>;

/// Whether HMAC-SHA256 gives one value for two different inputs.
pub open spec fn hmac_coincides(key: Seq<u8>, data: Seq<u8>, key2: Seq<u8>, data2: Seq<u8>) -> bool {
    (key != key2 || data != data2) && hmac_of(key, data) == hmac_of(key2, data2)
}

/// PBKDF2-HMAC-SHA256 with a 32-byte output.
pub uninterp spec fn pbkdf2_of(password: Seq<u8>, salt: Seq<u8>, rounds: u32) -> Seq<u8>;

/// AES-256-GCM ciphertext with its tag at the end.
pub uninterp spec fn aes_gcm_seal(key: Seq<u8>, nonce: Seq<u8>, aad: Seq<u8>, msg: Seq<u8>) -> Seq<u8>;

/// What AES-256-GCM opens a ciphertext to, if its tag is right.
pub uninterp spec fn aes_gcm_open(key: Seq<u8>, nonce: Seq<u8>, aad: Seq<u8>, ct: Seq<u8>) -> Option<Seq<u8>>;

/// The X25519 public key of a secret key.
pub uninterp spec fn x25519_public(sk: Seq<u8>) -> Seq<u8>;

/// The X25519 shared secret of a secret and a public key.
pub uninterp spec fn x25519_dh(sk: Seq<u8>, pk: Seq<u8>) -> Seq<u8>;

/// The ML-KEM-1024 key pair (public, secret) grown from two 32-byte seeds.
pub uninterp spec fn ml_kem_keypair(d: Seq<u8>, z: Seq<u8>) -> (Seq<u8>, Seq<u8>);

/// The ML-KEM-1024 encapsulation (ciphertext, secret) to `pk` with 32 bytes of randomness `m`.
pub uninterp spec fn ml_kem_encaps(pk: Seq<u8>, m: Seq<u8>) -> (Seq<u8>, Seq<u8>);

/// What ML-KEM-1024 decapsulates a ciphertext to.
pub uninterp spec fn ml_kem_decaps(sk: Seq<u8>, ct: Seq<u8>) -> Seq<u8>;

/// The ML-DSA-87 verifying key of a 32-byte seed.
pub uninterp spec fn ml_dsa_public(seed: Seq<u8>) -> Seq<u8>;

/// The deterministic ML-DSA-87 signature of `msg`, if rejection sampling finds one.
pub uninterp spec fn ml_dsa_sign(seed: Seq<u8>, msg: Seq<u8>) -> Option<Seq<u8>>;

/// Whether `sig` is an ML-DSA-87 signature of `msg` under the verifying key `pk`.
pub uninterp spec fn ml_dsa_verifies(pk: Seq<u8>, msg: Seq<u8>, sig: Seq<u8>) -> bool;

/// `rand::rngs::OsRng` (`RngCore::fill_bytes`): overwrites the buffer with bytes of the
/// operating system's generator. Nothing is said of the bytes, only that their number stays.
#[verifier::external_body]
pub(crate) fn random_fill(buf: &mut [u8])
    ensures
        final(buf)@.len() == old(buf)@.len(),
{
    rand::rngs::OsRng.fill_bytes(buf);
}

/// `sha2::Sha256` (`Digest::digest`): the SHA-256 hash.
#[verifier::external_body]
pub(crate) fn sha256(data: &[u8]) -> (r: [u8; 32])
    ensures
        r@ == sha256_of(data@),
{
    Sha256::digest(data).into()
}

/// `hmac::Hmac<Sha256>`: the MAC of `data`. A key of any length is accepted.
#[verifier::external_body]
pub(crate) fn hmac256(key: &[u8], data: &[u8]) -> (r: [u8; 32])
    ensures
        r@ == hmac_of(key@, data@),
{
    let mut mac = <Hmac<Sha256> as Mac>::new_from_slice(key).expect("hmac accepts any key");
    mac.update(data);
    mac.finalize().into_bytes().into()
}

/// `pbkdf2::pbkdf2_hmac_array::<Sha256, 32>`: the derived key.
#[verifier::external_body]
pub(crate) fn pbkdf2(password: &[u8], salt: &[u8], rounds: u32) -> (r: [u8; 32])
    ensures
        r@ == pbkdf2_of(password@, salt@, rounds),
{
    pbkdf2::pbkdf2_hmac_array::<Sha256, 32>(password, salt, rounds)
}

/// `aes_gcm::Aes256Gcm` (`Aead::encrypt`): fails exactly on a message or associated data longer
/// than the crate's limit. The ciphertext is the message's length and a 16-byte tag longer, and
/// opens to the message again.
#[verifier::external_body]
pub(crate) fn aes_gcm_encrypt(key: &[u8; 32], nonce: &[u8; 12], aad: &[u8], msg: &[u8]) -> (r: Option<Vec<u8>>)
    ensures
        (r is Some) == (msg@.len() <= GCM_MAX && aad@.len() <= GCM_MAX),
        r matches Some(c) ==> c@ == aes_gcm_seal(key@, nonce@, aad@, msg@),
        r matches Some(c) ==> c@.len() == msg@.len() + GCM_TAG_LEN,
        r matches Some(c) ==> aes_gcm_open(key@, nonce@, aad@, c@) == Some(msg@),
{
    let cipher = Aes256Gcm::new(aes_gcm::Key::<Aes256Gcm>::from_slice(key));
    cipher.encrypt(Nonce::from_slice(nonce), Payload { msg, aad }).ok()
}

/// `aes_gcm::Aes256Gcm` (`Aead::decrypt`): the plaintext where the tag is right, which is the
/// ciphertext's length without the tag.
#[verifier::external_body]
pub(crate) fn aes_gcm_decrypt(key: &[u8; 32], nonce: &[u8; 12], aad: &[u8], ct: &[u8]) -> (r: Option<Vec<u8>>)
    ensures
        r is Some <==> aes_gcm_open(key@, nonce@, aad@, ct@) is Some,
        r matches Some(m) ==> aes_gcm_open(key@, nonce@, aad@, ct@) == Some(m@),
        r matches Some(m) ==> m@.len() + GCM_TAG_LEN == ct@.len(),
{
    let cipher = Aes256Gcm::new(aes_gcm::Key::<Aes256Gcm>::from_slice(key));
    cipher.decrypt(Nonce::from_slice(nonce), Payload { msg: ct, aad }).ok()
}

/// `x25519_dalek::StaticSecret::random_from_rng` and `PublicKey::from`: a fresh pair
/// (public, secret). Nothing is said of the secret, only that the public key is its own.
#[verifier::external_body]
pub(crate) fn x25519_generate() -> (r: ([u8; 32], [u8; 32]))
    ensures
        r.0@ == x25519_public(r.1@),
{
    let sk = x25519_dalek::StaticSecret::random_from_rng(rand::rngs::OsRng);
    (x25519_dalek::PublicKey::from(&sk).to_bytes(), sk.to_bytes())
}

/// `x25519_dalek::StaticSecret::diffie_hellman`: the shared secret. Where `pk` is the public key
/// of a secret key, that key and our public key give the same secret (Diffie-Hellman commutes).
#[verifier::external_body]
pub(crate) fn x25519(sk: &[u8; 32], pk: &[u8; 32]) -> (r: [u8; 32])
    ensures
        r@ == x25519_dh(sk@, pk@),
        forall|other: Seq<u8>|
            other.len() == 32 && pk@ == #[trigger] x25519_public(other) ==> r@ == x25519_dh(
                other,
                x25519_public(sk@),
            ),
{
    x25519_dalek::StaticSecret::from(*sk).diffie_hellman(&x25519_dalek::PublicKey::from(*pk)).to_bytes()
}

/// `ml_kem::MlKem1024` (`KemCore::generate`): a fresh pair (public, secret), grown from two random
/// seeds of 32 bytes. The secret key holds the public key as its part from byte 1536 on.
#[verifier::external_body]
pub(crate) fn kem_generate() -> (r: (Vec<u8>, Vec<u8>))
    ensures
        exists|d: [u8; 32], z: [u8; 32]| #[trigger] ml_kem_keypair(d@, z@) == (r.0@, r.1@),
        r.0@.len() == KEM_PK_LEN,
        r.1@.len() == KEM_SK_LEN,
        r.0@ == r.1@.subrange(KEM_PK_OFFSET as int, KEM_PK_OFFSET + KEM_PK_LEN),
{
    let (dk, ek) = MlKem1024::generate(&mut rand::rngs::OsRng);
    (ek.as_bytes().as_slice().to_vec(), dk.as_bytes().as_slice().to_vec())
}

/// `ml_kem::kem::EncapsulationKey<MlKem1024Params>` (`Encapsulate::encapsulate`): a ciphertext and
/// the secret in it, made with 32 random bytes. It never fails on a key of the right length.
/// Whether decapsulation gives the secret back is not said: it does but for a failure chance that
/// ML-KEM bounds.
#[verifier::external_body]
pub(crate) fn kem_encaps(pk: &[u8]) -> (r: (Vec<u8>, Vec<u8>))
    requires
        pk@.len() == KEM_PK_LEN,
    ensures
        exists|m: [u8; 32]| #[trigger] ml_kem_encaps(pk@, m@) == (r.0@, r.1@),
        r.0@.len() == KEM_CT_LEN,
        r.1@.len() == 32,
{
    let enc = ml_kem::Encoded::<ml_kem::kem::EncapsulationKey<ml_kem::MlKem1024Params>>::try_from(pk);
    let ek = ml_kem::kem::EncapsulationKey::<ml_kem::MlKem1024Params>::from_bytes(&enc.expect("key length"));
    let (ct, ss) = ek.encapsulate(&mut rand::rngs::OsRng).expect("encapsulation");
    (ct.as_slice().to_vec(), ss.as_slice().to_vec())
}

/// `ml_kem::kem::DecapsulationKey<MlKem1024Params>` (`Decapsulate::decapsulate`): the secret. It
/// never fails on a key and a ciphertext of the right lengths.
#[verifier::external_body]
pub(crate) fn kem_decaps(sk: &[u8], ct: &[u8]) -> (r: Vec<u8>)
    requires
        sk@.len() == KEM_SK_LEN,
        ct@.len() == KEM_CT_LEN,
    ensures
        r@ == ml_kem_decaps(sk@, ct@),
        r@.len() == 32,
{
    let enc = ml_kem::Encoded::<ml_kem::kem::DecapsulationKey<ml_kem::MlKem1024Params>>::try_from(sk);
    let dk = ml_kem::kem::DecapsulationKey::<ml_kem::MlKem1024Params>::from_bytes(&enc.expect("key length"));
    let ct = ml_kem::Ciphertext::<MlKem1024>::try_from(ct).expect("ciphertext length");
    dk.decapsulate(&ct).expect("decapsulation").as_slice().to_vec()
}

/// `ml_dsa::SigningKey::<MlDsa87>::from_seed` and `VerifyingKey::encode`: the verifying key.
#[verifier::external_body]
pub(crate) fn dsa_public(seed: &[u8; 32]) -> (r: Vec<u8>)
    ensures
        r@ == ml_dsa_public(seed@),
        r@.len() == PUBLIC_KEY_LEN,
{
    let key = ml_dsa::SigningKey::<MlDsa87>::from_seed(&ml_dsa::Seed::from(*seed));
    key.verifying_key().encode().as_slice().to_vec()
}

/// `ml_dsa::SigningKey::<MlDsa87>` (`Signer::try_sign`): the deterministic signature, which the
/// seed's own verifying key accepts. It fails only where rejection sampling runs out of attempts.
#[verifier::external_body]
pub(crate) fn dsa_sign(seed: &[u8; 32], msg: &[u8]) -> (r: Option<Vec<u8>>)
    ensures
        r is Some <==> ml_dsa_sign(seed@, msg@) is Some,
        r matches Some(s) ==> ml_dsa_sign(seed@, msg@) == Some(s@),
        r matches Some(s) ==> s@.len() == SIGNATURE_LEN,
        r matches Some(s) ==> ml_dsa_verifies(ml_dsa_public(seed@), msg@, s@),
{
    let key = ml_dsa::SigningKey::<MlDsa87>::from_seed(&ml_dsa::Seed::from(*seed));
    Some(key.try_sign(msg).ok()?.to_bytes().as_slice().to_vec())
}

/// `ml_dsa::VerifyingKey::<MlDsa87>` (`Verifier::verify`), on a decoded key and signature: whether
/// the signature decodes and is right.
#[verifier::external_body]
pub(crate) fn dsa_verify(pk: &[u8], msg: &[u8], sig: &[u8]) -> (r: bool)
    requires
        pk@.len() == PUBLIC_KEY_LEN,
        sig@.len() == SIGNATURE_LEN,
    ensures
        r == ml_dsa_verifies(pk@, msg@, sig@),
{
    let key = EncodedVerifyingKey::<MlDsa87>::try_from(pk).expect("key length");
    match ml_dsa::Signature::<MlDsa87>::try_from(sig) {
        Ok(s) => ml_dsa::VerifyingKey::<MlDsa87>::decode(&key).verify(msg, &s).is_ok(),
        Err(_) => false,
    }
}

} // verus!
