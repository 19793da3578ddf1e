//! Sender signatures.

use vurnchat::signing::{
    generate_signing_keypair, sign_message, sign_raw, split_payload, verify_message, verify_raw, VerifyStatus,
    PUBLIC_KEY_LEN, SECRET_KEY_LEN, SIGNATURE_LEN,
};

#[test]
fn test_roundtrip_sign_verify() {
    let (pk, sk) = generate_signing_keypair();
    assert_eq!(pk.len(), PUBLIC_KEY_LEN);
    assert_eq!(sk.len(), SECRET_KEY_LEN);

    let text = b"Authenticated post-quantum message";
    let payload = sign_message(&sk, text).expect("sign");
    let recovered = verify_message(&pk, &payload).expect("verify");
    assert_eq!(recovered, text);
}

#[test]
fn test_empty_text_roundtrip() {
    let (pk, sk) = generate_signing_keypair();
    let payload = sign_message(&sk, b"").expect("sign");
    let recovered = verify_message(&pk, &payload).expect("verify");
    assert!(recovered.is_empty());
}

#[test]
fn test_raw_sign_verify() {
    let (pk, sk) = generate_signing_keypair();
    let data = b"signed prekey binding material";

    let sig = sign_raw(&sk, data).expect("raw sign");
    assert_eq!(sig.len(), SIGNATURE_LEN, "raw signature must be exactly 4627 bytes");
    assert!(verify_raw(&pk, data, &sig).is_ok());

    // Tampered message / signature must fail.
    assert!(verify_raw(&pk, b"tampered", &sig).is_err());
    let mut bad_sig = sig.clone();
    bad_sig[10] ^= 0x01;
    assert!(verify_raw(&pk, data, &bad_sig).is_err());

    // Wrong key must fail.
    let (other_pk, _) = generate_signing_keypair();
    assert!(verify_raw(&other_pk, data, &sig).is_err());

    // Size/format validation.
    assert!(verify_raw(&pk, data, &[]).is_err());
    assert!(verify_raw(&[], data, &sig).is_err());
    assert_eq!(verify_raw(&vec![1u8], data, &sig), Err(VerifyStatus::BadPublicKey));
}

#[test]
fn test_tampered_text_fails() {
    let (pk, sk) = generate_signing_keypair();
    let payload = sign_message(&sk, b"important message").expect("sign");

    // Flip a bit in the text portion (last byte)
    let mut tampered = payload.clone();
    let last = tampered.len() - 1;
    tampered[last] ^= 0xFF;

    assert_eq!(
        verify_message(&pk, &tampered),
        Err(VerifyStatus::BadSignature),
        "Tampered text must fail verification"
    );
}

#[test]
fn test_tampered_signature_fails() {
    let (pk, sk) = generate_signing_keypair();
    let payload = sign_message(&sk, b"important message").expect("sign");
    let (mut sig, _text) = split_payload(&payload).expect("split");
    sig[0] ^= 0x01; // corrupt the signature bytes

    let mut tampered = Vec::new();
    tampered.extend_from_slice(&(sig.len() as u16).to_le_bytes());
    tampered.extend_from_slice(&sig);
    tampered.extend_from_slice(b"important message");

    assert_eq!(
        verify_message(&pk, &tampered),
        Err(VerifyStatus::BadSignature),
        "Tampered signature must fail verification"
    );
}

#[test]
fn signing_test_wrong_key_fails() {
    let (pk_alice, sk_alice) = generate_signing_keypair();
    let (_pk_mallory, _sk_mallory) = generate_signing_keypair();
    // Mallory signs a message but claims it is from Alice.
    let payload = sign_message(&sk_alice, b"Hello Bob").expect("sign");
    let wrong_pk = generate_signing_keypair().0;

    assert_ne!(wrong_pk, pk_alice);
    assert_eq!(
        verify_message(&wrong_pk, &payload),
        Err(VerifyStatus::BadSignature),
        "Verification against a different sender key must fail"
    );
}

#[test]
fn test_no_key_and_no_signature_states() {
    let (pk, sk) = generate_signing_keypair();

    // Payload without signature framing → NoSignature
    assert_eq!(
        verify_message(&pk, b"legacy plain text"),
        Err(VerifyStatus::NoSignature)
    );

    // Signed payload but empty key → NoKey
    let payload = sign_message(&sk, b"hi").expect("sign");
    assert_eq!(verify_message(&[], &payload), Err(VerifyStatus::NoKey));

    // Wrong-length key → BadPublicKey
    assert_eq!(
        verify_message(&[1u8, 2, 3], &payload),
        Err(VerifyStatus::BadPublicKey)
    );
}

#[test]
fn test_deterministic_signature_same_text() {
    let (_pk, sk) = generate_signing_keypair();
    let p1 = sign_message(&sk, b"same").expect("s1");
    let p2 = sign_message(&sk, b"same").expect("s2");
    assert_eq!(p1, p2, "Deterministic signing must produce identical payloads");
}
