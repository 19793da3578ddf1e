//! # Session bootstrap
//!
//! Establishes the shared root key and session identifier of a ratchet session from the peer's
//! identity bundle, with no server-side state. The initiator mixes three X25519 values and two fresh
//! ML-KEM encapsulations into the root:
//!
//! ```text
//! dh1  = X25519(ik_x_A, spk_x_B)   (static → signed prekey)
//! dh2  = X25519(ek_x_A, ik_x_B)    (ephemeral → static)
//! dh3  = X25519(ek_x_A, spk_x_B)   (ephemeral → signed prekey)
//! kem1 = KEM.Encaps(spk_kem_B)
//! kem2 = KEM.Encaps(ik_kem_B)
//! root = HKDF-SHA256(dh1 ‖ dh2 ‖ dh3 ‖ kem1 ‖ kem2, info = "vurn-init")
//! ```
//!
//! The responder reproduces it with its secret keys and the ciphertexts of the init envelope:
//!
//! ```text
//! [2B bundle_len][bundle][1568B ct_spk][1568B ct_ik][ratchet package]
//! ```

use crate::bytes::{concat, less, push_le16, read_le16, slice_of, to_array32};
use crate::crypto::{hmac256, sha256};
use crate::identity::IdentityBundle;
use crate::ratchet::{kem_decapsulate, kem_encapsulate, x25519_shared, KEM_CT_LEN, KEM_PK_LEN, KEM_SK_LEN};
use crate::{bytes, crypto, identity, ratchet};
use vstd::prelude::*;

verus! {

broadcast use vstd::array::group_array_axioms;

/// HKDF info string of the bootstrap root.
pub const INIT_INFO: &'static str = "vurn-init";

/// HKDF-SHA256 (RFC 5869) with an empty salt and one 32-byte output block.
pub open spec fn hkdf(ikm: Seq<u8>, info: Seq<u8>) -> Seq<u8> {
    crypto::hmac_of(crypto::hmac_of(Seq::empty(), ikm), info.push(1))
}

/// The bootstrap root of three Diffie-Hellman values and two KEM secrets.
pub open spec fn root_of(dh1: Seq<u8>, dh2: Seq<u8>, dh3: Seq<u8>, ss_spk: Seq<u8>, ss_ik: Seq<u8>) -> Seq<u8> {
    hkdf(dh1 + dh2 + dh3 + ss_spk + ss_ik, vstd::utf8::encode_utf8(INIT_INFO@))
}

/// The session identifier of two static X25519 keys: the hash of the keys in ascending order.
pub open spec fn session_id_of(a: Seq<u8>, b: Seq<u8>) -> Seq<u8> {
    crypto::sha256_of(
        if bytes::precedes(b, a) {
            b + a
        } else {
            a + b
        },
    )
}

/// The session identifier does not depend on who initiates.
pub proof fn session_id_is_symmetric(a: Seq<u8>, b: Seq<u8>)
    ensures
        session_id_of(a, b) == session_id_of(b, a),
{
    bytes::precedes_total(a, b);
}

/// The root that the initiator computes: its static and ephemeral secret keys, the peer's prekey
/// and static key, and the two encapsulated secrets.
pub open spec fn initiator_root(
    ik_sk: Seq<u8>,
    ek_sk: Seq<u8>,
    spk_x: Seq<u8>,
    ik_x: Seq<u8>,
    ss_spk: Seq<u8>,
    ss_ik: Seq<u8>,
) -> Seq<u8> {
    root_of(
        crypto::x25519_dh(ik_sk, spk_x),
        crypto::x25519_dh(ek_sk, ik_x),
        crypto::x25519_dh(ek_sk, spk_x),
        ss_spk,
        ss_ik,
    )
}

/// The secret keys of a responder: of its static and prekey X25519 keys, and of its static and
/// prekey ML-KEM keys.
pub struct ResponderSecrets {
    pub ik_x: Seq<u8>,
    pub spk_x: Seq<u8>,
    pub ik_kem: Seq<u8>,
    pub spk_kem: Seq<u8>,
}

/// The root that the responder computes: its secret keys, the sender's static and ephemeral keys,
/// and the two ciphertexts.
pub open spec fn responder_root(
    k: ResponderSecrets,
    peer_ik_x: Seq<u8>,
    ek_x: Seq<u8>,
    ct_spk: Seq<u8>,
    ct_ik: Seq<u8>,
) -> Seq<u8> {
    root_of(
        crypto::x25519_dh(k.spk_x, peer_ik_x),
        crypto::x25519_dh(k.ik_x, ek_x),
        crypto::x25519_dh(k.spk_x, ek_x),
        crypto::ml_kem_decaps(k.spk_kem, ct_spk),
        crypto::ml_kem_decaps(k.ik_kem, ct_ik),
    )
}

/// Whether secret keys belong to a bundle's X25519 keys and give two ciphertexts' secrets back.
pub open spec fn answers(
    k: ResponderSecrets,
    peer: identity::BundleView,
    ct_spk: Seq<u8>,
    ss_spk: Seq<u8>,
    ct_ik: Seq<u8>,
    ss_ik: Seq<u8>,
) -> bool {
    &&& k.ik_x.len() == 32
    &&& k.spk_x.len() == 32
    &&& peer.ik_x == crypto::x25519_public(k.ik_x)
    &&& peer.spk_x == crypto::x25519_public(k.spk_x)
    &&& crypto::ml_kem_decaps(k.spk_kem, ct_spk) == ss_spk
    &&& crypto::ml_kem_decaps(k.ik_kem, ct_ik) == ss_ik
}

/// Every input decides the root: two roots are equal only where all five inputs are, or where HMAC-SHA256
/// coincides, either on the inputs one after the other or on what is made of them.
pub proof fn root_binds_every_input(
    dhs: (Seq<u8>, Seq<u8>, Seq<u8>),
    sss: (Seq<u8>, Seq<u8>),
    dhs2: (Seq<u8>, Seq<u8>, Seq<u8>),
    sss2: (Seq<u8>, Seq<u8>),
)
    requires
        dhs.0.len() == 32 && dhs.1.len() == 32 && dhs.2.len() == 32 && sss.0.len() == 32,
        dhs2.0.len() == 32 && dhs2.1.len() == 32 && dhs2.2.len() == 32 && sss2.0.len() == 32,
        root_of(dhs.0, dhs.1, dhs.2, sss.0, sss.1) == root_of(dhs2.0, dhs2.1, dhs2.2, sss2.0, sss2.1),
    ensures
        ({
            let ikm = dhs.0 + dhs.1 + dhs.2 + sss.0 + sss.1;
            let ikm2 = dhs2.0 + dhs2.1 + dhs2.2 + sss2.0 + sss2.1;
            let (prk, prk2) = (crypto::hmac_of(Seq::empty(), ikm), crypto::hmac_of(Seq::empty(), ikm2));
            let info = vstd::utf8::encode_utf8("vurn-init"@) + seq![1u8];
            ||| dhs == dhs2 && sss == sss2
            ||| ikm != ikm2 && prk == prk2
            ||| prk != prk2 && crypto::hmac_of(prk, info) == crypto::hmac_of(prk2, info)
        }),
{
    let ikm = dhs.0 + dhs.1 + dhs.2 + sss.0 + sss.1;
    let ikm2 = dhs2.0 + dhs2.1 + dhs2.2 + sss2.0 + sss2.1;
    let info = vstd::utf8::encode_utf8("vurn-init"@);
    assert(info.push(1u8) =~= info + seq![1u8]);
    if ikm == ikm2 {
        assert(ikm.subrange(0, 32) =~= dhs.0 && ikm2.subrange(0, 32) =~= dhs2.0);
        assert(ikm.subrange(32, 64) =~= dhs.1 && ikm2.subrange(32, 64) =~= dhs2.1);
        assert(ikm.subrange(64, 96) =~= dhs.2 && ikm2.subrange(64, 96) =~= dhs2.2);
        assert(ikm.subrange(96, 128) =~= sss.0 && ikm2.subrange(96, 128) =~= sss2.0);
        assert(ikm.subrange(128, ikm.len() as int) =~= sss.1 && ikm2.subrange(128, ikm2.len() as int) =~= sss2.1);
    }
}

/// One root comes of both sides' keys: the initiator's static key with the prekey, its ephemeral key
/// with the static key, its ephemeral key with the prekey, and the two KEM secrets. Where these five
/// agree on both sides, so does the root.
pub proof fn roots_agree_by_their_inputs(
    ik_sk: Seq<u8>,
    ek_sk: Seq<u8>,
    spk_x: Seq<u8>,
    ik_x: Seq<u8>,
    k: ResponderSecrets,
    peer_ik_x: Seq<u8>,
    ek_x: Seq<u8>,
    cts: (Seq<u8>, Seq<u8>),
    sss: (Seq<u8>, Seq<u8>),
)
    requires
        crypto::x25519_dh(ik_sk, spk_x) == crypto::x25519_dh(k.spk_x, peer_ik_x),
        crypto::x25519_dh(ek_sk, ik_x) == crypto::x25519_dh(k.ik_x, ek_x),
        crypto::x25519_dh(ek_sk, spk_x) == crypto::x25519_dh(k.spk_x, ek_x),
        crypto::ml_kem_decaps(k.spk_kem, cts.0) == sss.0,
        crypto::ml_kem_decaps(k.ik_kem, cts.1) == sss.1,
    ensures
        initiator_root(ik_sk, ek_sk, spk_x, ik_x, sss.0, sss.1) == responder_root(k, peer_ik_x, ek_x, cts.0, cts.1),
        initiator_root(ik_sk, ek_sk, spk_x, ik_x, sss.0, sss.1) == root_of(
            crypto::x25519_dh(ik_sk, spk_x),
            crypto::x25519_dh(ek_sk, ik_x),
            crypto::x25519_dh(ek_sk, spk_x),
            sss.0,
            sss.1,
        ),
{
}

/// Two sessions of different static keys have different identifiers, unless SHA-256 coincides on the
/// keys in ascending order.
pub proof fn session_id_names_both(a: Seq<u8>, b: Seq<u8>, c: Seq<u8>, d: Seq<u8>)
    requires
        a.len() == 32 && b.len() == 32 && c.len() == 32 && d.len() == 32,
        bytes::precedes(a, b) || a == b,
        bytes::precedes(c, d) || c == d,
        session_id_of(a, b) == session_id_of(c, d),
    ensures
        (a == c && b == d) || (a + b != c + d && crypto::sha256_of(a + b) == crypto::sha256_of(c + d)),
{
    bytes::precedes_total(a, b);
    bytes::precedes_total(c, d);
    if a + b == c + d {
        assert((a + b).subrange(0, 32) =~= a && (c + d).subrange(0, 32) =~= c);
        assert((a + b).subrange(32, 64) =~= b && (c + d).subrange(32, 64) =~= d);
    }
}

/// Why a peer's bundle cannot be bootstrapped from, if it cannot.
pub open spec fn initiator_fault(peer: identity::BundleView) -> Option<Seq<char>> {
    if !identity::has_prekey(peer) {
        Some("peer identity has no signed prekey — cannot bootstrap a ratchet"@)
    } else if !identity::prekey_is_signed(peer) {
        Some("signed prekey signature does not verify"@)
    } else if peer.spk_x.len() != 32 || peer.ik_x.len() != 32 {
        Some("expected 32-byte key"@)
    } else if peer.spk_kem.len() != KEM_PK_LEN {
        Some("kem1: Malformed"@)
    } else if peer.ik_kem.len() != KEM_PK_LEN {
        Some("kem2: Malformed"@)
    } else {
        None
    }
}

/// Why a sender's init cannot be answered, if it cannot.
pub open spec fn responder_fault(
    peer: identity::BundleView,
    ik_kem_sk: Seq<u8>,
    spk_kem_sk: Seq<u8>,
    ct_spk: Seq<u8>,
    ct_ik: Seq<u8>,
) -> Option<Seq<char>> {
    if !identity::has_prekey(peer) {
        Some("sender identity has no signed prekey"@)
    } else if !identity::prekey_is_signed(peer) {
        Some("signed prekey signature does not verify"@)
    } else if peer.ik_x.len() != 32 {
        Some("expected 32-byte key"@)
    } else if spk_kem_sk.len() != KEM_SK_LEN || ct_spk.len() != KEM_CT_LEN {
        Some("kem1: Malformed"@)
    } else if ik_kem_sk.len() != KEM_SK_LEN || ct_ik.len() != KEM_CT_LEN {
        Some("kem2: Malformed"@)
    } else {
        None
    }
}

/// A bundle can be bootstrapped from exactly where it has a prekey, ML-DSA-87 accepts the prekey's
/// signature, and every key has its length.
pub proof fn fit_bundle_bootstraps(peer: identity::BundleView)
    ensures
        initiator_fault(peer) is None <==> {
            &&& peer.spk_kem.len() == 1568
            &&& peer.ik_kem.len() == 1568
            &&& peer.spk_x.len() == 32
            &&& peer.ik_x.len() == 32
            &&& peer.sig_pk.len() == 2592
            &&& peer.spk_sig.len() == 4627
            &&& crypto::ml_dsa_verifies(peer.sig_pk, peer.spk_kem + peer.spk_x, peer.spk_sig)
        },
        !identity::has_prekey(peer) ==> initiator_fault(peer) == Some(
            "peer identity has no signed prekey — cannot bootstrap a ratchet"@,
        ),
        identity::has_prekey(peer) && !identity::prekey_is_signed(peer) ==> initiator_fault(peer) == Some(
            "signed prekey signature does not verify"@,
        ),
        identity::prekey_is_signed(peer) && (peer.spk_x.len() != 32 || peer.ik_x.len() != 32) ==> initiator_fault(peer) == Some(
            "expected 32-byte key"@,
        ),
        identity::prekey_is_signed(peer) && peer.spk_x.len() == 32 && peer.ik_x.len() == 32 && peer.spk_kem.len() != 1568
            ==> initiator_fault(peer) == Some("kem1: Malformed"@),
        identity::prekey_is_signed(peer) && peer.spk_x.len() == 32 && peer.ik_x.len() == 32 && peer.spk_kem.len() == 1568
            && peer.ik_kem.len() != 1568 ==> initiator_fault(peer) == Some("kem2: Malformed"@),
{
}

/// A sender's init can be answered exactly where the sender's bundle has a prekey that ML-DSA-87 finds
/// signed and a static key of 32 bytes, and the KEM secret keys and ciphertexts have their lengths.
pub proof fn fit_init_is_answered(
    peer: identity::BundleView,
    ik_kem_sk: Seq<u8>,
    spk_kem_sk: Seq<u8>,
    ct_spk: Seq<u8>,
    ct_ik: Seq<u8>,
)
    ensures
        responder_fault(peer, ik_kem_sk, spk_kem_sk, ct_spk, ct_ik) is None <==> {
            &&& peer.ik_x.len() == 32
            &&& peer.spk_kem.len() > 0
            &&& peer.spk_x.len() > 0
            &&& peer.sig_pk.len() == 2592
            &&& peer.spk_sig.len() == 4627
            &&& crypto::ml_dsa_verifies(peer.sig_pk, peer.spk_kem + peer.spk_x, peer.spk_sig)
            &&& spk_kem_sk.len() == 3168 && ct_spk.len() == 1568
            &&& ik_kem_sk.len() == 3168 && ct_ik.len() == 1568
        },
        !identity::has_prekey(peer) ==> responder_fault(peer, ik_kem_sk, spk_kem_sk, ct_spk, ct_ik) == Some(
            "sender identity has no signed prekey"@,
        ),
        identity::has_prekey(peer) && !identity::prekey_is_signed(peer) ==> responder_fault(
            peer,
            ik_kem_sk,
            spk_kem_sk,
            ct_spk,
            ct_ik,
        ) == Some("signed prekey signature does not verify"@),
        identity::prekey_is_signed(peer) && peer.ik_x.len() != 32 ==> responder_fault(
            peer,
            ik_kem_sk,
            spk_kem_sk,
            ct_spk,
            ct_ik,
        ) == Some("expected 32-byte key"@),
        identity::prekey_is_signed(peer) && peer.ik_x.len() == 32 && (spk_kem_sk.len() != 3168 || ct_spk.len() != 1568)
            ==> responder_fault(peer, ik_kem_sk, spk_kem_sk, ct_spk, ct_ik) == Some("kem1: Malformed"@),
        identity::prekey_is_signed(peer) && peer.ik_x.len() == 32 && spk_kem_sk.len() == 3168 && ct_spk.len() == 1568 && (
        ik_kem_sk.len() != 3168 || ct_ik.len() != 1568) ==> responder_fault(
            peer,
            ik_kem_sk,
            spk_kem_sk,
            ct_spk,
            ct_ik,
        ) == Some("kem2: Malformed"@),
{
}

/// HKDF-SHA256 with an empty salt and one output block.
pub fn hkdf_sha256(ikm: &[u8], info: &[u8]) -> (r: [u8; 32])
    ensures
        r@ == hkdf(ikm@, info@),
{
    let empty: Vec<u8> = Vec::new();
    assert(empty@ =~= Seq::<u8>::empty());
    let prk = hmac256(&empty, ikm);
    let mut data = vstd::slice::slice_to_vec(info);
    data.push(1);
    hmac256(&prk, &data)
}

/// The session identifier: SHA-256 of the two static X25519 keys in ascending order.
pub fn session_id_from(a_ik_x: &[u8], b_ik_x: &[u8]) -> (r: [u8; 32])
    ensures
        r@ == session_id_of(a_ik_x@, b_ik_x@),
{
    let both = if less(b_ik_x, a_ik_x) {
        concat(b_ik_x, a_ik_x)
    } else {
        concat(a_ik_x, b_ik_x)
    };
    sha256(&both)
}

/// A 32-byte key from a byte string.
pub fn arr32(v: &[u8]) -> (r: Result<[u8; 32], String>)
    ensures
        match r {
            Ok(k) => v@.len() == 32 && k@ == v@,
            Err(e) => v@.len() != 32 && e@ == "expected 32-byte key"@,
        },
{
    if v.len() != 32 {
        return Err("expected 32-byte key".to_owned());
    }
    Ok(to_array32(v))
}

/// The bootstrap root from its five inputs.
pub fn root_from(dh1: &[u8; 32], dh2: &[u8; 32], dh3: &[u8; 32], ss_spk: &[u8], ss_ik: &[u8]) -> (r: [u8; 32])
    ensures
        r@ == root_of(dh1@, dh2@, dh3@, ss_spk@, ss_ik@),
{
    let mut ikm: Vec<u8> = Vec::new();
    ikm.extend_from_slice(dh1);
    ikm.extend_from_slice(dh2);
    ikm.extend_from_slice(dh3);
    ikm.extend_from_slice(ss_spk);
    ikm.extend_from_slice(ss_ik);
    assert(ikm@ =~= dh1@ + dh2@ + dh3@ + ss_spk@ + ss_ik@);
    hkdf_sha256(&ikm, INIT_INFO.as_bytes())
}

/// What the initiator needs to start its session and to build the init envelope.
pub struct InitiatorOutput {
    /// Shared root key.
    pub root: [u8; 32],
    /// Shared session identifier.
    pub session_id: [u8; 32],
    /// Encapsulation to the peer's signed-prekey KEM key.
    pub ct_spk: Vec<u8>,
    /// Encapsulation to the peer's static KEM key.
    pub ct_ik: Vec<u8>,
}

/// Whether `out` is a bootstrap from the initiator's side with the KEM secrets `ss_spk` and
/// `ss_ik`: the root and identifier are the initiator's, the ciphertexts encapsulate the secrets,
/// and a responder that holds the bundle's secret keys computes the same root.
pub open spec fn bootstraps(
    out: InitiatorOutput,
    ik_x: ([u8; 32], [u8; 32]),
    ek_sk: Seq<u8>,
    peer: identity::BundleView,
    ss_spk: Seq<u8>,
    ss_ik: Seq<u8>,
) -> bool {
    &&& ratchet::kdf::is_encapsulation(peer.spk_kem, out.ct_spk@, ss_spk)
    &&& ratchet::kdf::is_encapsulation(peer.ik_kem, out.ct_ik@, ss_ik)
    &&& out.root@ == initiator_root(ik_x.1@, ek_sk, peer.spk_x, peer.ik_x, ss_spk, ss_ik)
    &&& out.session_id@ == session_id_of(ik_x.0@, peer.ik_x)
    &&& forall|k: ResponderSecrets| #[trigger]
        answers(k, peer, out.ct_spk@, ss_spk, out.ct_ik@, ss_ik) ==> responder_root(
            k,
            crypto::x25519_public(ik_x.1@),
            crypto::x25519_public(ek_sk),
            out.ct_spk@,
            out.ct_ik@,
        ) == out.root@
}

/// Whether `out` is a bootstrap from the initiator's side with some KEM secrets.
pub open spec fn is_bootstrap(
    out: InitiatorOutput,
    ik_x: ([u8; 32], [u8; 32]),
    ek_sk: Seq<u8>,
    peer: identity::BundleView,
) -> bool {
    exists|ss_spk: Seq<u8>, ss_ik: Seq<u8>| #[trigger] bootstraps(out, ik_x, ek_sk, peer, ss_spk, ss_ik)
}

/// Computes the bootstrap root and session identifier from the initiator's side: its static and its
/// ephemeral X25519 key pair (public, secret), and the responder's bundle, whose prekey signature is
/// verified here.
pub fn initiator_bootstrap(ik_x: ([u8; 32], [u8; 32]), ek_x: ([u8; 32], [u8; 32]), peer: &IdentityBundle) -> (r:
    Result<InitiatorOutput, String>)
    ensures
        match r {
            Ok(out) => initiator_fault(peer@) is None && is_bootstrap(out, ik_x, ek_x.1@, peer@),
            Err(e) => initiator_fault(peer@) == Some(e@),
        },
{
    if !peer.is_v9() {
        return Err("peer identity has no signed prekey — cannot bootstrap a ratchet".to_owned());
    }
    peer.verify_prekey()?;
    let spk_x = arr32(&peer.spk_x)?;
    let ik_x_peer = arr32(&peer.ik_x)?;
    let dh1 = x25519_shared(&ik_x.1, &spk_x).unwrap();
    let dh2 = x25519_shared(&ek_x.1, &ik_x_peer).unwrap();
    let dh3 = x25519_shared(&ek_x.1, &spk_x).unwrap();
    let (ct_spk, ss_spk) = match kem_encapsulate(&peer.spk_kem) {
        Ok(x) => x,
        Err(_) => {
            return Err("kem1: Malformed".to_owned());
        },
    };
    let (ct_ik, ss_ik) = match kem_encapsulate(&peer.ik_kem) {
        Ok(x) => x,
        Err(_) => {
            return Err("kem2: Malformed".to_owned());
        },
    };
    let root = root_from(&dh1, &dh2, &dh3, &ss_spk, &ss_ik);
    let session_id = session_id_from(&ik_x.0, &peer.ik_x);
    let out = InitiatorOutput { root, session_id, ct_spk, ct_ik };
    assert(bootstraps(out, ik_x, ek_x.1@, peer@, ss_spk@, ss_ik@));
    assert(is_bootstrap(out, ik_x, ek_x.1@, peer@));
    Ok(out)
}

/// Computes the bootstrap root and session identifier from the responder's side: its static and its
/// signed-prekey X25519 key pair (public, secret), its KEM secret keys, the sender's bundle, the
/// sender's ephemeral public key and the two ciphertexts.
pub fn responder_bootstrap(
    ik_x: ([u8; 32], [u8; 32]),
    spk_x: ([u8; 32], [u8; 32]),
    ik_kem_sk: &[u8],
    spk_kem_sk: &[u8],
    peer: &IdentityBundle,
    ek_x_pub: &[u8; 32],
    ct_spk: &[u8],
    ct_ik: &[u8],
) -> (r: Result<([u8; 32], [u8; 32]), String>)
    ensures
        match r {
            Ok(p) => {
                &&& responder_fault(peer@, ik_kem_sk@, spk_kem_sk@, ct_spk@, ct_ik@) is None
                &&& p.0@ == responder_root(
                    ResponderSecrets {
                        ik_x: ik_x.1@,
                        spk_x: spk_x.1@,
                        ik_kem: ik_kem_sk@,
                        spk_kem: spk_kem_sk@,
                    },
                    peer@.ik_x,
                    ek_x_pub@,
                    ct_spk@,
                    ct_ik@,
                )
                &&& p.1@ == session_id_of(peer@.ik_x, ik_x.0@)
            },
            Err(e) => responder_fault(peer@, ik_kem_sk@, spk_kem_sk@, ct_spk@, ct_ik@) == Some(e@),
        },
{
    if !peer.is_v9() {
        return Err("sender identity has no signed prekey".to_owned());
    }
    peer.verify_prekey()?;
    let peer_ik_x = arr32(&peer.ik_x)?;
    let dh1 = x25519_shared(&spk_x.1, &peer_ik_x).unwrap();
    let dh2 = x25519_shared(&ik_x.1, ek_x_pub).unwrap();
    let dh3 = x25519_shared(&spk_x.1, ek_x_pub).unwrap();
    let ss_spk = match kem_decapsulate(spk_kem_sk, ct_spk) {
        Ok(x) => x,
        Err(_) => {
            return Err("kem1: Malformed".to_owned());
        },
    };
    let ss_ik = match kem_decapsulate(ik_kem_sk, ct_ik) {
        Ok(x) => x,
        Err(_) => {
            return Err("kem2: Malformed".to_owned());
        },
    };
    let root = root_from(&dh1, &dh2, &dh3, &ss_spk, &ss_ik);
    let session_id = session_id_from(&peer.ik_x, &ik_x.0);
    Ok((root, session_id))
}

/// Both sides of a bootstrap arrive at one root and one session identifier: where the initiator's
/// public keys are its own and stand in its bundle, whose prekey is signed, and the responder holds
/// the bundle's secret keys, the responder, given the initiator's bundle, ephemeral key and
/// ciphertexts, has nothing to refuse and computes the initiator's root and identifier.
pub proof fn both_sides_agree(
    out: InitiatorOutput,
    ik_x: ([u8; 32], [u8; 32]),
    ek_x: ([u8; 32], [u8; 32]),
    sender: identity::BundleView,
    peer: identity::BundleView,
    ss_spk: Seq<u8>,
    ss_ik: Seq<u8>,
    k: ResponderSecrets,
)
    requires
        bootstraps(out, ik_x, ek_x.1@, peer, ss_spk, ss_ik),
        ik_x.0@ == crypto::x25519_public(ik_x.1@),
        ek_x.0@ == crypto::x25519_public(ek_x.1@),
        sender.ik_x == ik_x.0@,
        identity::prekey_is_signed(sender),
        k.ik_kem.len() == KEM_SK_LEN,
        k.spk_kem.len() == KEM_SK_LEN,
        answers(k, peer, out.ct_spk@, ss_spk, out.ct_ik@, ss_ik),
    ensures
        responder_fault(sender, k.ik_kem, k.spk_kem, out.ct_spk@, out.ct_ik@) is None,
        responder_root(k, sender.ik_x, ek_x.0@, out.ct_spk@, out.ct_ik@) == out.root@,
        session_id_of(sender.ik_x, peer.ik_x) == out.session_id@,
{
}

/// A bootstrap from the initiator's side encapsulates to the prekey and to the static KEM key of the
/// responder's bundle, and a responder who holds the secret halves of that bundle's keys, and whom
/// ML-KEM-1024 gives the two secrets back, computes its root.
pub proof fn holder_of_the_bundle_answers(
    out: InitiatorOutput,
    ik_x: ([u8; 32], [u8; 32]),
    ek_sk: Seq<u8>,
    peer: identity::BundleView,
    ss_spk: Seq<u8>,
    ss_ik: Seq<u8>,
    k: ResponderSecrets,
)
    requires
        bootstraps(out, ik_x, ek_sk, peer, ss_spk, ss_ik),
        k.ik_x.len() == 32 && peer.ik_x == crypto::x25519_public(k.ik_x),
        k.spk_x.len() == 32 && peer.spk_x == crypto::x25519_public(k.spk_x),
        crypto::ml_kem_decaps(k.spk_kem, out.ct_spk@) == ss_spk,
        crypto::ml_kem_decaps(k.ik_kem, out.ct_ik@) == ss_ik,
    ensures
        out.ct_spk@.len() == 1568 && ss_spk.len() == 32,
        exists|m: [u8; 32]| #[trigger] crypto::ml_kem_encaps(peer.spk_kem, m@) == (out.ct_spk@, ss_spk),
        out.ct_ik@.len() == 1568 && ss_ik.len() == 32,
        exists|m: [u8; 32]| #[trigger] crypto::ml_kem_encaps(peer.ik_kem, m@) == (out.ct_ik@, ss_ik),
        out.root@ == initiator_root(ik_x.1@, ek_sk, peer.spk_x, peer.ik_x, ss_spk, ss_ik),
        out.root@ == responder_root(
            k,
            crypto::x25519_public(ik_x.1@),
            crypto::x25519_public(ek_sk),
            out.ct_spk@,
            out.ct_ik@,
        ),
        out.session_id@ == session_id_of(ik_x.0@, peer.ik_x),
{
    assert(answers(k, peer, out.ct_spk@, ss_spk, out.ct_ik@, ss_ik));
}

/// A bootstrap has its two KEM secrets.
pub proof fn bootstrap_has_secrets(
    out: InitiatorOutput,
    ik_x: ([u8; 32], [u8; 32]),
    ek_sk: Seq<u8>,
    peer: identity::BundleView,
)
    requires
        is_bootstrap(out, ik_x, ek_sk, peer),
    ensures
        exists|m: [u8; 32], n: [u8; 32]|
            {
                let (ct_spk, ss_spk) = #[trigger] crypto::ml_kem_encaps(peer.spk_kem, m@);
                let (ct_ik, ss_ik) = #[trigger] crypto::ml_kem_encaps(peer.ik_kem, n@);
                &&& out.ct_spk@ == ct_spk
                &&& out.ct_ik@ == ct_ik
                &&& out.root@ == initiator_root(ik_x.1@, ek_sk, peer.spk_x, peer.ik_x, ss_spk, ss_ik)
            },
        out.session_id@ == session_id_of(ik_x.0@, peer.ik_x),
{
    let (ss_spk, ss_ik) = choose|ss_spk: Seq<u8>, ss_ik: Seq<u8>| #[trigger]
        bootstraps(out, ik_x, ek_sk, peer, ss_spk, ss_ik);
    let m = choose|m: [u8; 32]| #[trigger] crypto::ml_kem_encaps(peer.spk_kem, m@) == (out.ct_spk@, ss_spk);
    let n = choose|n: [u8; 32]| #[trigger] crypto::ml_kem_encaps(peer.ik_kem, n@) == (out.ct_ik@, ss_ik);
    assert(crypto::ml_kem_encaps(peer.spk_kem, m@) == (out.ct_spk@, ss_spk));
    assert(crypto::ml_kem_encaps(peer.ik_kem, n@) == (out.ct_ik@, ss_ik));
}

/// What a responder derives the root from: three Diffie-Hellman values and two KEM secrets.
pub open spec fn responder_input(
    k: ResponderSecrets,
    peer_ik_x: Seq<u8>,
    ek_x: Seq<u8>,
    cts: (Seq<u8>, Seq<u8>),
) -> Seq<u8> {
    crypto::x25519_dh(k.spk_x, peer_ik_x) + crypto::x25519_dh(k.ik_x, ek_x) + crypto::x25519_dh(k.spk_x, ek_x)
        + crypto::ml_kem_decaps(k.spk_kem, cts.0) + crypto::ml_kem_decaps(k.ik_kem, cts.1)
}

/// Other KEM ciphertexts give a responder another root, so that a changed ciphertext never leads to
/// the sender's root. That holds unless ML-KEM-1024 decapsulates both pairs of ciphertexts to the
/// same secrets, or one of the two HMACs of the key derivation coincides.
pub proof fn changed_ciphertext_changes_root(
    k: ResponderSecrets,
    peer_ik_x: Seq<u8>,
    ek_x: Seq<u8>,
    cts: (Seq<u8>, Seq<u8>),
    cts2: (Seq<u8>, Seq<u8>),
)
    requires
        crypto::ml_kem_decaps(k.spk_kem, cts.0).len() == 32,
        crypto::ml_kem_decaps(k.spk_kem, cts2.0).len() == 32,
        crypto::ml_kem_decaps(k.spk_kem, cts.0) != crypto::ml_kem_decaps(k.spk_kem, cts2.0) || crypto::ml_kem_decaps(
            k.ik_kem,
            cts.1,
        ) != crypto::ml_kem_decaps(k.ik_kem, cts2.1),
        ({
            let ikm = responder_input(k, peer_ik_x, ek_x, cts);
            let ikm2 = responder_input(k, peer_ik_x, ek_x, cts2);
            let info = vstd::utf8::encode_utf8(INIT_INFO@).push(1);
            &&& !crypto::hmac_coincides(Seq::empty(), ikm, Seq::empty(), ikm2)
            &&& !crypto::hmac_coincides(
                crypto::hmac_of(Seq::empty(), ikm),
                info,
                crypto::hmac_of(Seq::empty(), ikm2),
                info,
            )
        }),
    ensures
        responder_root(k, peer_ik_x, ek_x, cts.0, cts.1) != responder_root(k, peer_ik_x, ek_x, cts2.0, cts2.1),
{
    let ikm = responder_input(k, peer_ik_x, ek_x, cts);
    let ikm2 = responder_input(k, peer_ik_x, ek_x, cts2);
    let dhs = crypto::x25519_dh(k.spk_x, peer_ik_x) + crypto::x25519_dh(k.ik_x, ek_x) + crypto::x25519_dh(
        k.spk_x,
        ek_x,
    );
    let n = dhs.len() as int;
    if ikm == ikm2 {
        assert(ikm.subrange(n, n + 32) =~= crypto::ml_kem_decaps(k.spk_kem, cts.0));
        assert(ikm2.subrange(n, n + 32) =~= crypto::ml_kem_decaps(k.spk_kem, cts2.0));
        assert(ikm.subrange(n + 32, ikm.len() as int) =~= crypto::ml_kem_decaps(k.ik_kem, cts.1));
        assert(ikm2.subrange(n + 32, ikm2.len() as int) =~= crypto::ml_kem_decaps(k.ik_kem, cts2.1));
    }
}

// ── Init envelope ───────────────────────────────────────────────────

/// The bytes of an init envelope.
pub open spec fn envelope_bytes(bundle: Seq<u8>, ct_spk: Seq<u8>, ct_ik: Seq<u8>, package: Seq<u8>) -> Seq<u8> {
    bytes::le16(bundle.len() as int) + bundle + ct_spk + ct_ik + package
}

/// The parts of an init envelope (bundle, two ciphertexts, package), or why it has none.
pub open spec fn envelope_of(d: Seq<u8>) -> Result<(identity::BundleView, Seq<u8>, Seq<u8>, Seq<u8>), Seq<char>> {
    if d.len() < 2 {
        Err("init envelope truncated"@)
    } else {
        let end = 2 + bytes::le16_at(d, 0);
        if d.len() < end {
            Err("init envelope truncated (bundle)"@)
        } else {
            match identity::bundle_of(d.subrange(2, end)) {
                Err(e) => Err(e),
                Ok(b) => if d.len() < end + 3136 {
                    Err("init envelope truncated (kem ciphertexts)"@)
                } else if d.len() == end + 3136 {
                    Err("init envelope missing ratchet package"@)
                } else {
                    Ok(
                        (
                            b,
                            d.subrange(end, end + 1568),
                            d.subrange(end + 1568, end + 3136),
                            d.subrange(end + 3136, d.len() as int),
                        ),
                    )
                },
            }
        }
    }
}

/// An envelope is the bundle behind its length in two bytes, the low one first, then the two KEM
/// ciphertexts and the package, and nothing else.
pub proof fn envelope_layout(bundle: Seq<u8>, ct_spk: Seq<u8>, ct_ik: Seq<u8>, package: Seq<u8>)
    ensures
        ({
            let d = envelope_bytes(bundle, ct_spk, ct_ik, package);
            let p1 = 2 + bundle.len() as int;
            let p2 = p1 + ct_spk.len();
            let p3 = p2 + ct_ik.len();
            &&& d.len() == p3 + package.len()
            &&& d[0] as int + 256 * (d[1] as int) == bundle.len() % 65536
            &&& d.subrange(2, p1) == bundle
            &&& d.subrange(p1, p2) == ct_spk
            &&& d.subrange(p2, p3) == ct_ik
            &&& d.skip(p3) == package
        }),
{
    bytes::le16_is_little_endian(bundle.len() as int);
    let d = envelope_bytes(bundle, ct_spk, ct_ik, package);
    let p1 = 2 + bundle.len() as int;
    let p2 = p1 + ct_spk.len();
    let p3 = p2 + ct_ik.len();
    assert(d.subrange(2, p1) =~= bundle);
    assert(d.subrange(p1, p2) =~= ct_spk);
    assert(d.subrange(p2, p3) =~= ct_ik);
    assert(d.skip(p3) =~= package);
}

/// The root is HKDF-SHA256 without salt of the three Diffie-Hellman secrets and the two KEM secrets, with
/// the label `vurn-init`: extracted and expanded by HMAC to one block.
pub proof fn root_is_extracted_and_expanded(dhs: (Seq<u8>, Seq<u8>, Seq<u8>), sss: (Seq<u8>, Seq<u8>), info: Seq<u8>)
    ensures
        root_of(dhs.0, dhs.1, dhs.2, sss.0, sss.1) == crypto::hmac_of(
            crypto::hmac_of(Seq::empty(), dhs.0 + dhs.1 + dhs.2 + sss.0 + sss.1),
            vstd::utf8::encode_utf8("vurn-init"@) + seq![1u8],
        ),
        hkdf(sss.0, info) == crypto::hmac_of(crypto::hmac_of(Seq::empty(), sss.0), info + seq![1u8]),
{
    let label = vstd::utf8::encode_utf8("vurn-init"@);
    assert(label.push(1u8) =~= label + seq![1u8]);
    assert(info.push(1u8) =~= info + seq![1u8]);
}

/// The session identifier is the SHA-256 hash of the two keys, the smaller one first, on whichever side it
/// is computed.
pub proof fn session_id_hashes_both(a: Seq<u8>, b: Seq<u8>)
    requires
        bytes::precedes(a, b) || a == b,
    ensures
        session_id_of(a, b) == crypto::sha256_of(a + b),
        session_id_of(b, a) == crypto::sha256_of(a + b),
{
    bytes::precedes_total(a, b);
}

/// Bytes are an envelope exactly where the bundle, whose length the first two bytes give, decodes, and
/// two ciphertexts and a package follow; the parts are then all of it. What is missing is said
/// otherwise, the bundle first.
pub proof fn envelope_is_all_of_it(d: Seq<u8>)
    ensures
        envelope_of(d) matches Ok((b, ct_spk, ct_ik, package)) ==> {
            let end = 2 + d[0] as int + 256 * (d[1] as int);
            &&& identity::bundle_of(d.subrange(2, end)) == Ok::<identity::BundleView, Seq<char>>(b)
            &&& ct_spk.len() == 1568
            &&& ct_ik.len() == 1568
            &&& package.len() > 0
            &&& d.take(end) + ct_spk + ct_ik + package == d
        },
        d.len() < 2 ==> envelope_of(d) is Err && envelope_of(d)->Err_0 == "init envelope truncated"@,
        d.len() >= 2 ==> ({
            let end = 2 + d[0] as int + 256 * (d[1] as int);
            let r = envelope_of(d);
            &&& d.len() < end ==> r is Err && r->Err_0 == "init envelope truncated (bundle)"@
            &&& d.len() >= end ==> match identity::bundle_of(d.subrange(2, end)) {
                Err(e) => r is Err && r->Err_0 == e,
                Ok(_) => {
                    &&& d.len() < end + 3136 ==> r is Err && r->Err_0 == "init envelope truncated (kem ciphertexts)"@
                    &&& d.len() == end + 3136 ==> r is Err && r->Err_0 == "init envelope missing ratchet package"@
                    &&& d.len() > end + 3136 ==> r is Ok
                },
            }
        }),
{
    if let Ok((b, ct_spk, ct_ik, package)) = envelope_of(d) {
        let end = 2 + d[0] as int + 256 * (d[1] as int);
        assert(d.take(end) + ct_spk + ct_ik + package =~= d);
    }
}

/// An init envelope with a full bundle is taken apart into what it was made of.
pub proof fn envelope_reads_back(b: identity::BundleView, ct_spk: Seq<u8>, ct_ik: Seq<u8>, package: Seq<u8>)
    requires
        identity::full_bundle(b),
        ct_spk.len() == KEM_CT_LEN,
        ct_ik.len() == KEM_CT_LEN,
        package.len() > 0,
    ensures
        envelope_of(envelope_bytes(identity::bundle_bytes(b), ct_spk, ct_ik, package)) == Ok::<
            (identity::BundleView, Seq<u8>, Seq<u8>, Seq<u8>),
            Seq<char>,
        >((b, ct_spk, ct_ik, package)),
{
    let enc = identity::bundle_bytes(b);
    let d = envelope_bytes(enc, ct_spk, ct_ik, package);
    let end = 2 + enc.len() as int;
    identity::bundle_reads_back(b, Seq::empty());
    assert(enc + Seq::<u8>::empty() =~= enc);
    assert(enc.len() == 10420);
    envelope_parts(enc, ct_spk, ct_ik, package);
}

proof fn envelope_parts(enc: Seq<u8>, ct_spk: Seq<u8>, ct_ik: Seq<u8>, package: Seq<u8>)
    requires
        enc.len() < 65536,
        ct_spk.len() == 1568,
        ct_ik.len() == 1568,
    ensures
        ({
            let d = envelope_bytes(enc, ct_spk, ct_ik, package);
            let end = 2 + enc.len() as int;
            &&& d.len() == end + 3136 + package.len()
            &&& bytes::le16_at(d, 0) == enc.len()
            &&& d.subrange(2, end) == enc
            &&& d.subrange(end, end + 1568) == ct_spk
            &&& d.subrange(end + 1568, end + 3136) == ct_ik
            &&& d.subrange(end + 3136, d.len() as int) == package
        }),
{
    let d = envelope_bytes(enc, ct_spk, ct_ik, package);
    let end = 2 + enc.len() as int;
    assert(d.subrange(0, 2) =~= bytes::le16(enc.len() as int));
    bytes::le16_reads_back(d, 0, enc.len() as int);
    assert(d.subrange(2, end) =~= enc);
    assert(d.subrange(end, end + 1568) =~= ct_spk);
    assert(d.subrange(end + 1568, end + 3136) =~= ct_ik);
    assert(d.subrange(end + 3136, d.len() as int) =~= package);
}

/// Builds the init envelope: the sender's bundle, the two KEM ciphertexts, the first package.
pub fn build_init_envelope(bundle: &IdentityBundle, ct_spk: &[u8], ct_ik: &[u8], package: &[u8]) -> (r: Vec<u8>)
    ensures
        r@ == envelope_bytes(identity::bundle_bytes(bundle@), ct_spk@, ct_ik@, package@),
{
    let enc = bundle.encode();
    let mut out: Vec<u8> = Vec::new();
    push_le16(&mut out, enc.len());
    out.extend_from_slice(&enc);
    out.extend_from_slice(ct_spk);
    out.extend_from_slice(ct_ik);
    out.extend_from_slice(package);
    assert(out@ =~= envelope_bytes(enc@, ct_spk@, ct_ik@, package@));
    out
}

/// A parsed init envelope.
pub struct ParsedInit {
    /// The sender's identity bundle.
    pub bundle: IdentityBundle,
    /// Encapsulation to our signed-prekey KEM key.
    pub ct_spk: Vec<u8>,
    /// Encapsulation to our static KEM key.
    pub ct_ik: Vec<u8>,
    /// The first ratchet package.
    pub package: Vec<u8>,
}

/// Parses an init envelope.
pub fn parse_init_envelope(data: &[u8]) -> (r: Result<ParsedInit, String>)
    ensures
        match r {
            Ok(p) => envelope_of(data@) == Ok::<(identity::BundleView, Seq<u8>, Seq<u8>, Seq<u8>), Seq<char>>(
                (p.bundle@, p.ct_spk@, p.ct_ik@, p.package@),
            ),
            Err(e) => envelope_of(data@) == Err::<(identity::BundleView, Seq<u8>, Seq<u8>, Seq<u8>), Seq<char>>(e@),
        },
{
    if data.len() < 2 {
        return Err("init envelope truncated".to_owned());
    }
    let end: usize = 2 + read_le16(data, 0);
    if data.len() < end {
        return Err("init envelope truncated (bundle)".to_owned());
    }
    let bundle = IdentityBundle::decode(vstd::slice::slice_subrange(data, 2, end))?;
    if data.len() < end + KEM_CT_LEN * 2 {
        return Err("init envelope truncated (kem ciphertexts)".to_owned());
    }
    if data.len() == end + KEM_CT_LEN * 2 {
        return Err("init envelope missing ratchet package".to_owned());
    }
    Ok(
        ParsedInit {
            bundle,
            ct_spk: slice_of(data, end, end + 1568),
            ct_ik: slice_of(data, end + 1568, end + 3136),
            package: slice_of(data, end + 3136, data.len()),
        },
    )
}

} // verus!
