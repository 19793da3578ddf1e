//! Session bootstrap.

use vurnchat::bootstrap::{
    arr32, build_init_envelope, initiator_bootstrap, parse_init_envelope, responder_bootstrap, session_id_from,
};
use vurnchat::identity::IdentityBundle;
use vurnchat::ratchet::{
    package_sender_key, x25519_keypair, Session, SessionStart, KEM_CT_LEN, KEM_PK_LEN, KEM_SK_LEN,
};
use vurnchat::VurnCipher;

/// A full v0.9 identity for one party (public bundle + secret keys).
struct TestIdentity {
    bundle: IdentityBundle,
    ik_x: ([u8; 32], [u8; 32]),
    spk_x: ([u8; 32], [u8; 32]),
    spk_kem_sk: Vec<u8>,
    ik_kem_sk: Vec<u8>,
}

fn make_identity() -> TestIdentity {
    let (ik_kem_pk, ik_kem_sk) = VurnCipher::generate_keypair();
    let (ik_x_pub, ik_x_sk) = x25519_keypair();
    let (sig_pk, sig_sk) = vurnchat::signing::generate_signing_keypair();
    let (spk_kem_pk, spk_kem_sk) = VurnCipher::generate_keypair();
    let (spk_x_pub, spk_x_sk) = x25519_keypair();
    let mut to_sign = Vec::new();
    to_sign.extend_from_slice(&spk_kem_pk);
    to_sign.extend_from_slice(&spk_x_pub);
    let spk_sig = vurnchat::signing::sign_raw(&sig_sk, &to_sign).unwrap();
    let bundle = IdentityBundle {
        ik_kem: ik_kem_pk,
        ik_x: ik_x_pub.to_vec(),
        sig_pk,
        spk_kem: spk_kem_pk,
        spk_x: spk_x_pub.to_vec(),
        spk_sig,
    };
    TestIdentity {
        bundle,
        ik_x: (ik_x_pub, ik_x_sk),
        spk_x: (spk_x_pub, spk_x_sk),
        spk_kem_sk,
        ik_kem_sk,
    }
}

/// Full two-party flow: Alice bootstraps, starts the initiator session,
/// encrypts; Bob parses the envelope, bootstraps, starts the responder
/// session, decrypts; then ping-pong continues.
#[test]
fn test_two_party_bootstrap_and_session() {
    let alice = make_identity();
    let bob = make_identity();

    // Alice initiates.
    let ek_x = x25519_keypair();
    let (ek_kem_pk, ek_kem_sk) = VurnCipher::generate_keypair();
    let init = initiator_bootstrap(alice.ik_x, ek_x, &bob.bundle).unwrap();
    let mut a_sess = Session::start_alice(SessionStart {
        root: init.root,
        session_id: init.session_id,
        our_dh: ek_x,
        peer_dh: Some(arr32(&bob.bundle.spk_x).unwrap()),
        our_kem: Some((ek_kem_pk, ek_kem_sk)),
    });

    let m1_plain = b"hello bob, this is the first ratchet message".to_vec();
    let m1_pkg = a_sess.encrypt(&m1_plain).unwrap();

    // Envelope over the wire.
    let env = build_init_envelope(&alice.bundle, &init.ct_spk, &init.ct_ik, &m1_pkg);
    let parsed = parse_init_envelope(&env).unwrap();
    assert_eq!(parsed.bundle, alice.bundle);
    assert_eq!(parsed.package, m1_pkg);

    // Bob receives.
    let ek_x_pub = package_sender_key(&parsed.package).unwrap();
    let (root, session_id) = responder_bootstrap(
        bob.ik_x,
        bob.spk_x,
        &bob.ik_kem_sk,
        &bob.spk_kem_sk,
        &parsed.bundle,
        &ek_x_pub,
        &parsed.ct_spk,
        &parsed.ct_ik,
    )
    .unwrap();
    assert_eq!(root, init.root);
    assert_eq!(session_id, init.session_id);

    let mut b_sess = Session::start_bob(SessionStart {
        root,
        session_id,
        our_dh: bob.spk_x,
        peer_dh: None,
        our_kem: None,
    });
    let got = b_sess.decrypt(&parsed.package).unwrap();
    assert_eq!(got, m1_plain);

    // Bob replies; Alice decrypts (crossed to a new chain both ways).
    let m2_plain = b"got it alice!".to_vec();
    let m2_pkg = b_sess.encrypt(&m2_plain).unwrap();
    let got2 = a_sess.decrypt(&m2_pkg).unwrap();
    assert_eq!(got2, m2_plain);

    let m3_plain = b"and a third from alice".to_vec();
    let m3_pkg = a_sess.encrypt(&m3_plain).unwrap();
    let got3 = b_sess.decrypt(&m3_pkg).unwrap();
    assert_eq!(got3, m3_plain);

    // Sessions serialize/restore mid-flow.
    let a_bytes = a_sess.to_bytes();
    let mut a2 = Session::from_bytes(&a_bytes).unwrap();
    let m4_plain = b"after reload".to_vec();
    let m4_pkg = a2.encrypt(&m4_plain).unwrap();
    let got4 = b_sess.decrypt(&m4_pkg).unwrap();
    assert_eq!(got4, m4_plain);
}

/// A tampered KEM ciphertext must produce a different root → the AEAD
/// fails (an active MITM that swaps the envelope cannot decrypt without
/// the encapsulated secrets).
#[test]
fn test_tampered_init_fails() {
    let alice = make_identity();
    let bob = make_identity();

    let ek_x = x25519_keypair();
    let init = initiator_bootstrap(alice.ik_x, ek_x, &bob.bundle).unwrap();
    let (ek_kem_pk, ek_kem_sk) = VurnCipher::generate_keypair();
    let mut a_sess = Session::start_alice(SessionStart {
        root: init.root,
        session_id: init.session_id,
        our_dh: ek_x,
        peer_dh: Some(arr32(&bob.bundle.spk_x).unwrap()),
        our_kem: Some((ek_kem_pk, ek_kem_sk)),
    });
    let m1_pkg = a_sess.encrypt(b"first").unwrap();
    let mut env = build_init_envelope(&alice.bundle, &init.ct_spk, &init.ct_ik, &m1_pkg);
    // Flip one byte in the spk ciphertext.
    let n = env.len();
    env[n - m1_pkg.len() - KEM_CT_LEN] ^= 0x01;

    let parsed = parse_init_envelope(&env).unwrap();
    let ek_x_pub = package_sender_key(&parsed.package).unwrap();
    let (root, _sid) = responder_bootstrap(
        bob.ik_x,
        bob.spk_x,
        &bob.ik_kem_sk,
        &bob.spk_kem_sk,
        &parsed.bundle,
        &ek_x_pub,
        &parsed.ct_spk,
        &parsed.ct_ik,
    )
    .unwrap();
    assert_ne!(root, init.root);

    let mut b_sess = Session::start_bob(SessionStart {
        root,
        session_id: init.session_id,
        our_dh: bob.spk_x,
        peer_dh: None,
        our_kem: None,
    });
    assert!(b_sess.decrypt(&parsed.package).is_err());
}

/// Session id is independent of who initiates (both orders give the same
/// value for the same pair of identities).
#[test]
fn test_session_id_order_independent() {
    let alice = make_identity();
    let bob = make_identity();
    let a = session_id_from(&alice.ik_x.0, &bob.bundle.ik_x);
    let b = session_id_from(&bob.bundle.ik_x, &alice.ik_x.0);
    assert_eq!(a, b);
}

#[test]
fn test_kem_constants_consistency() {
    // The bootstrap relies on these sizes being exact.
    assert_eq!(KEM_CT_LEN, 1568);
    assert_eq!(KEM_PK_LEN, 1568);
    assert_eq!(KEM_SK_LEN, 3168);
    // Envelope layout sanity: bundle + 2 KEM ciphertexts + package.
    let alice = make_identity();
    let bob = make_identity();
    let ek_x = x25519_keypair();
    let init = initiator_bootstrap(alice.ik_x, ek_x, &bob.bundle).unwrap();
    let env = build_init_envelope(&alice.bundle, &init.ct_spk, &init.ct_ik, b"pkg");
    assert_eq!(env.len(), 2 + alice.bundle.encode().len() + KEM_CT_LEN * 2 + 3);
}
