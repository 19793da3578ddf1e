//! Key derivation: the labelled HMAC steps, X25519 and ML-KEM.

use crate::crypto::{
    aes_gcm_decrypt, aes_gcm_encrypt, hmac256, kem_decaps, kem_encaps, kem_generate, x25519, x25519_generate,
};
use crate::ratchet::{DecryptError, KEM_CT_LEN, KEM_PK_LEN, KEM_SK_LEN};
use crate::{bytes, crypto};
use vstd::prelude::*;

verus! {

broadcast use vstd::array::group_array_axioms;

/// Label of a message key.
pub const LBL_MK: u8 = 0x01;

/// Label of the next chain key.
pub const LBL_CK: u8 = 0x02;

/// Label of the next root key.
pub const LBL_RK: u8 = 0x03;

/// Label of a new chain's seed.
pub const LBL_CK_SEED: u8 = 0x04;

/// Label of the KEM secret's mixing.
pub const LBL_KEM_MIX: u8 = 0x05;

/// Label of the AEAD key.
pub const LBL_EK: u8 = 0x06;

/// Label of the AEAD nonce.
pub const LBL_NONCE: u8 = 0x07;

/// The message key that a chain key gives.
pub open spec fn message_key(ck: Seq<u8>) -> Seq<u8> {
    crypto::hmac_of(ck, seq![LBL_MK])
}

/// The chain key after `ck`.
pub open spec fn next_chain(ck: Seq<u8>) -> Seq<u8> {
    crypto::hmac_of(ck, seq![LBL_CK])
}

/// The chain key `k` steps after `ck`.
pub open spec fn chain_after(ck: Seq<u8>, k: nat) -> Seq<u8>
    decreases k,
{
    if k == 0 {
        ck
    } else {
        next_chain(chain_after(ck, (k - 1) as nat))
    }
}

/// The root key after a Diffie-Hellman step.
pub open spec fn next_root(rk: Seq<u8>, dh: Seq<u8>) -> Seq<u8> {
    crypto::hmac_of(rk, seq![LBL_RK] + dh)
}

/// The chain key that a Diffie-Hellman step seeds.
pub open spec fn chain_seed(rk: Seq<u8>, dh: Seq<u8>) -> Seq<u8> {
    crypto::hmac_of(rk, seq![LBL_CK_SEED] + dh)
}

/// A message key with the message's KEM secret mixed in, if it has one.
pub open spec fn mixed(mk: Seq<u8>, ss: Option<Seq<u8>>) -> Seq<u8> {
    match ss {
        Some(s) => crypto::hmac_of(mk, seq![LBL_KEM_MIX] + s),
        None => mk,
    }
}

/// The AEAD key of a message key.
pub open spec fn seal_key(mk: Seq<u8>) -> Seq<u8> {
    crypto::hmac_of(mk, seq![LBL_EK])
}

/// The AEAD nonce of a message key.
pub open spec fn seal_nonce(mk: Seq<u8>) -> Seq<u8> {
    crypto::hmac_of(mk, seq![LBL_NONCE]).subrange(0, 12)
}

/// A plaintext sealed under a message key, bound to the session and the header.
pub open spec fn sealed(session_id: Seq<u8>, header: Seq<u8>, mk: Seq<u8>, plaintext: Seq<u8>) -> Seq<u8> {
    crypto::aes_gcm_seal(seal_key(mk), seal_nonce(mk), session_id + header, plaintext)
}

/// What a ciphertext opens to under a message key.
pub open spec fn unsealed(session_id: Seq<u8>, header: Seq<u8>, mk: Seq<u8>, ct: Seq<u8>) -> Option<Seq<u8>> {
    crypto::aes_gcm_open(seal_key(mk), seal_nonce(mk), session_id + header, ct)
}

/// The plain contents of an optional byte string.
pub open spec fn opt_bytes(o: Option<Vec<u8>>) -> Option<Seq<u8>> {
    match o {
        Some(v) => Some(v@),
        None => None,
    }
}

/// The plain contents of an optional key.
pub open spec fn opt_key(o: Option<[u8; 32]>) -> Option<Seq<u8>> {
    match o {
        Some(v) => Some(v@),
        None => None,
    }
}

/// Every derived key is an HMAC of its inputs under a label of its own.
pub proof fn derived_keys_are_labelled(k: Seq<u8>, d: Seq<u8>)
    ensures
        message_key(k) == crypto::hmac_of(k, seq![1u8]),
        next_chain(k) == crypto::hmac_of(k, seq![2u8]),
        next_root(k, d) == crypto::hmac_of(k, seq![3u8] + d),
        chain_seed(k, d) == crypto::hmac_of(k, seq![4u8] + d),
        mixed(k, Some(d)) == crypto::hmac_of(k, seq![5u8] + d),
        mixed(k, None) == k,
        seal_key(k) == crypto::hmac_of(k, seq![6u8]),
        seal_nonce(k) == crypto::hmac_of(k, seq![7u8]).subrange(0, 12),
{
}

/// A derived key is decided by all that it is derived from: two are equal exactly where HMAC-SHA256 is
/// on the key and on the label with what follows it.
pub proof fn derived_keys_bind_their_inputs(k: Seq<u8>, d: Seq<u8>, k2: Seq<u8>, d2: Seq<u8>)
    ensures
        message_key(k) == message_key(k2) <==> crypto::hmac_of(k, seq![1u8]) == crypto::hmac_of(k2, seq![1u8]),
        next_chain(k) == next_chain(k2) <==> crypto::hmac_of(k, seq![2u8]) == crypto::hmac_of(k2, seq![2u8]),
        next_root(k, d) == next_root(k2, d2) <==> crypto::hmac_of(k, seq![3u8] + d) == crypto::hmac_of(k2, seq![3u8] + d2),
        chain_seed(k, d) == chain_seed(k2, d2) <==> crypto::hmac_of(k, seq![4u8] + d) == crypto::hmac_of(
            k2,
            seq![4u8] + d2,
        ),
        mixed(k, Some(d)) == mixed(k2, Some(d2)) <==> crypto::hmac_of(k, seq![5u8] + d) == crypto::hmac_of(
            k2,
            seq![5u8] + d2,
        ),
        mixed(k, None) == k,
        seal_key(k) == seal_key(k2) <==> crypto::hmac_of(k, seq![6u8]) == crypto::hmac_of(k2, seq![6u8]),
        seal_nonce(k) == seal_nonce(k2) <==> crypto::hmac_of(k, seq![7u8]).subrange(0, 12) == crypto::hmac_of(
            k2,
            seq![7u8],
        ).subrange(0, 12),
{
}

/// No key serves two purposes: keys derived under different labels are equal only where HMAC-SHA256
/// coincides on the labels.
pub proof fn labels_keep_keys_apart(k: Seq<u8>, d: Seq<u8>)
    ensures
        message_key(k) == next_chain(k) ==> crypto::hmac_of(k, seq![1u8]) == crypto::hmac_of(k, seq![2u8]),
        next_root(k, d) == chain_seed(k, d) ==> crypto::hmac_of(k, seq![3u8] + d) == crypto::hmac_of(k, seq![4u8] + d),
        seal_key(k) == message_key(k) ==> crypto::hmac_of(k, seq![6u8]) == crypto::hmac_of(k, seq![1u8]),
        mixed(k, Some(d)) == seal_key(k) ==> crypto::hmac_of(k, seq![5u8] + d) == crypto::hmac_of(k, seq![6u8]),
        (seq![3u8] + d) != (seq![4u8] + d),
        seq![1u8] != seq![2u8],
{
    assert((seq![3u8] + d)[0] != (seq![4u8] + d)[0]);
    assert(seq![1u8][0] != seq![2u8][0]);
}

/// A ciphertext is bound to its session and to its header: under a message key it opens to what
/// AES-256-GCM opens it to with exactly the session identifier and the header as associated data.
pub proof fn ciphertext_is_bound(session_id: Seq<u8>, header: Seq<u8>, mk: Seq<u8>, plaintext: Seq<u8>, ct: Seq<u8>)
    ensures
        unsealed(session_id, header, mk, ct) == crypto::aes_gcm_open(
            crypto::hmac_of(mk, seq![6u8]),
            crypto::hmac_of(mk, seq![7u8]).subrange(0, 12),
            session_id + header,
            ct,
        ),
        sealed(session_id, header, mk, plaintext) == crypto::aes_gcm_seal(
            crypto::hmac_of(mk, seq![6u8]),
            crypto::hmac_of(mk, seq![7u8]).subrange(0, 12),
            session_id + header,
            plaintext,
        ),
{
}

/// A chain starts at its key, and each step is one step further.
pub proof fn chain_goes_step_by_step(ck: Seq<u8>, k: nat)
    ensures
        chain_after(ck, 0) == ck,
        chain_after(ck, k + 1) == next_chain(chain_after(ck, k)),
{
}

/// A KEM key pair is one that ML-KEM-1024 grows from two seeds of 32 bytes, and an encapsulation is one
/// that it makes with 32 random bytes; each part has its length.
pub proof fn kem_parts_are_genuine(pk: Seq<u8>, sk: Seq<u8>, ct: Seq<u8>, ss: Seq<u8>)
    ensures
        is_kem_pair(pk, sk) ==> {
            &&& pk.len() == 1568
            &&& sk.len() == 3168
            &&& pk == sk.subrange(1536, 3104)
            &&& exists|d: [u8; 32], z: [u8; 32]| #[trigger] crypto::ml_kem_keypair(d@, z@) == (pk, sk)
        },
        is_encapsulation(pk, ct, ss) ==> {
            &&& ct.len() == 1568
            &&& ss.len() == 32
            &&& exists|m: [u8; 32]| #[trigger] crypto::ml_kem_encaps(pk, m@) == (ct, ss)
        },
{
}

/// Chain steps add up.
pub proof fn chain_after_adds(ck: Seq<u8>, a: nat, b: nat)
    ensures
        chain_after(chain_after(ck, a), b) == chain_after(ck, a + b),
    decreases b,
{
    if b > 0 {
        chain_after_adds(ck, a, (b - 1) as nat);
    }
}

fn labelled(label: u8, data: &[u8]) -> (r: Vec<u8>)
    ensures
        r@ == seq![label] + data@,
{
    let mut r: Vec<u8> = Vec::new();
    r.push(label);
    r.extend_from_slice(data);
    assert(r@ =~= seq![label] + data@);
    r
}

fn label_only(label: u8) -> (r: Vec<u8>)
    ensures
        r@ == seq![label],
{
    let mut r: Vec<u8> = Vec::new();
    r.push(label);
    assert(r@ =~= seq![label]);
    r
}

/// One step of a message chain: the message key and the advanced chain key.
pub fn chain_step(ck: &[u8; 32]) -> (r: ([u8; 32], [u8; 32]))
    ensures
        r.0@ == message_key(ck@),
        r.1@ == next_chain(ck@),
{
    let mk = hmac256(ck, &label_only(LBL_MK));
    let next = hmac256(ck, &label_only(LBL_CK));
    (mk, next)
}

/// Root step: the advanced root key and a fresh chain seed.
pub fn root_step(rk: &[u8; 32], dh_out: &[u8; 32]) -> (r: ([u8; 32], [u8; 32]))
    ensures
        r.0@ == next_root(rk@, dh_out@),
        r.1@ == chain_seed(rk@, dh_out@),
{
    let new_rk = hmac256(rk, &labelled(LBL_RK, dh_out));
    let ck = hmac256(rk, &labelled(LBL_CK_SEED, dh_out));
    (new_rk, ck)
}

/// Mixes a message's KEM secret into its key.
pub fn mix_kem(dh_mk: &[u8; 32], kem_ss: &Option<Vec<u8>>) -> (r: [u8; 32])
    ensures
        r@ == mixed(dh_mk@, opt_bytes(*kem_ss)),
{
    match kem_ss {
        Some(ss) => hmac256(dh_mk, &labelled(LBL_KEM_MIX, ss)),
        None => *dh_mk,
    }
}

/// The AEAD key and nonce of a message key.
pub fn aead_key(final_mk: &[u8; 32]) -> (r: ([u8; 32], [u8; 12]))
    ensures
        r.0@ == seal_key(final_mk@),
        r.1@ == seal_nonce(final_mk@),
{
    let ek = hmac256(final_mk, &label_only(LBL_EK));
    let n = hmac256(final_mk, &label_only(LBL_NONCE));
    let nonce = bytes::to_array12(vstd::slice::slice_subrange(&n, 0, 12));
    (ek, nonce)
}

/// Seals a plaintext under a message key, bound to the session and the header.
pub fn aead_encrypt(session_id: &[u8; 32], header: &[u8], final_mk: &[u8; 32], plaintext: &[u8]) -> (r: Result<
    Vec<u8>,
    DecryptError,
>)
    ensures
        match r {
            Ok(c) => {
                &&& plaintext@.len() <= crypto::GCM_MAX
                &&& 32 + header@.len() <= crypto::GCM_MAX
                &&& c@ == sealed(session_id@, header@, final_mk@, plaintext@)
                &&& c@.len() == plaintext@.len() + 16
                &&& unsealed(session_id@, header@, final_mk@, c@) == Some(plaintext@)
            },
            Err(e) => {
                &&& e == DecryptError::AuthFailed
                &&& plaintext@.len() > crypto::GCM_MAX || 32 + header@.len() > crypto::GCM_MAX
            },
        },
{
    let (ek, nonce) = aead_key(final_mk);
    let aad = bytes::concat(session_id, header);
    match aes_gcm_encrypt(&ek, &nonce, &aad, plaintext) {
        Some(c) => Ok(c),
        None => Err(DecryptError::AuthFailed),
    }
}

/// Opens a ciphertext under a message key.
pub fn aead_decrypt(session_id: &[u8; 32], header: &[u8], final_mk: &[u8; 32], ct: &[u8]) -> (r: Result<
    Vec<u8>,
    DecryptError,
>)
    ensures
        match r {
            Ok(m) => unsealed(session_id@, header@, final_mk@, ct@) == Some(m@),
            Err(e) => e == DecryptError::AuthFailed && unsealed(session_id@, header@, final_mk@, ct@) is None,
        },
{
    let (ek, nonce) = aead_key(final_mk);
    let aad = bytes::concat(session_id, header);
    match aes_gcm_decrypt(&ek, &nonce, &aad, ct) {
        Some(m) => Ok(m),
        None => Err(DecryptError::AuthFailed),
    }
}

/// X25519 shared secret (RFC 7748). It never fails, and the holder of the other secret key
/// computes the same one.
pub fn x25519_shared(sk: &[u8; 32], pk: &[u8; 32]) -> (r: Result<[u8; 32], DecryptError>)
    ensures
        r is Ok,
        r->Ok_0@ == crypto::x25519_dh(sk@, pk@),
        forall|other: Seq<u8>|
            other.len() == 32 && pk@ == #[trigger] crypto::x25519_public(other) ==> r->Ok_0@
                == crypto::x25519_dh(other, crypto::x25519_public(sk@)),
{
    Ok(x25519(sk, pk))
}

/// A fresh X25519 ratchet key pair as raw `(public, secret)` bytes.
pub fn x25519_keypair() -> (r: ([u8; 32], [u8; 32]))
    ensures
        r.0@ == crypto::x25519_public(r.1@),
{
    x25519_generate()
}

/// Whether two byte strings are the halves of an ML-KEM-1024 key pair.
pub open spec fn is_kem_pair(pk: Seq<u8>, sk: Seq<u8>) -> bool {
    &&& pk.len() == KEM_PK_LEN
    &&& sk.len() == KEM_SK_LEN
    &&& pk == sk.subrange(crypto::KEM_PK_OFFSET as int, crypto::KEM_PK_OFFSET + KEM_PK_LEN)
    &&& exists|d: [u8; 32], z: [u8; 32]| #[trigger] crypto::ml_kem_keypair(d@, z@) == (pk, sk)
}

/// Whether a ciphertext and a secret come from an encapsulation to a public key.
pub open spec fn is_encapsulation(pk: Seq<u8>, ct: Seq<u8>, ss: Seq<u8>) -> bool {
    &&& ct.len() == KEM_CT_LEN
    &&& ss.len() == 32
    &&& exists|m: [u8; 32]| #[trigger] crypto::ml_kem_encaps(pk, m@) == (ct, ss)
}

/// A fresh ML-KEM-1024 key pair `(public, secret)`.
pub fn kem_keypair() -> (r: (Vec<u8>, Vec<u8>))
    ensures
        is_kem_pair(r.0@, r.1@),
{
    kem_generate()
}

/// ML-KEM-1024 encapsulation to a public key: `(ciphertext, secret)`.
pub fn kem_encapsulate(pk: &[u8]) -> (r: Result<(Vec<u8>, Vec<u8>), DecryptError>)
    ensures
        match r {
            Ok(p) => pk@.len() == KEM_PK_LEN && is_encapsulation(pk@, p.0@, p.1@),
            Err(e) => pk@.len() != KEM_PK_LEN && e == DecryptError::Malformed,
        },
{
    if pk.len() != KEM_PK_LEN {
        return Err(DecryptError::Malformed);
    }
    Ok(kem_encaps(pk))
}

/// ML-KEM-1024 decapsulation with a secret key.
pub fn kem_decapsulate(sk: &[u8], ct: &[u8]) -> (r: Result<Vec<u8>, DecryptError>)
    ensures
        match r {
            Ok(ss) => {
                &&& sk@.len() == KEM_SK_LEN && ct@.len() == KEM_CT_LEN
                &&& ss@ == crypto::ml_kem_decaps(sk@, ct@)
                &&& ss@.len() == 32
            },
            Err(e) => {
                &&& sk@.len() != KEM_SK_LEN || ct@.len() != KEM_CT_LEN
                &&& e == DecryptError::Malformed
            },
        },
{
    if sk.len() != KEM_SK_LEN || ct.len() != KEM_CT_LEN {
        return Err(DecryptError::Malformed);
    }
    Ok(kem_decaps(sk, ct))
}

} // verus!
