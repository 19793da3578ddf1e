//! Exact values: hashes, key derivation, encodings and formats.

use vurnchat::bootstrap::{arr32, hkdf_sha256, parse_init_envelope, root_from, session_id_from};
use vurnchat::cipher::{deserialize_package, serialize_package};
use vurnchat::encoding::decode_base64url;
use vurnchat::identity::{decode_identity, encode_identity, BlindProfileManager, IdentityBundle};
use vurnchat::ratchet::kdf::{aead_key, chain_step, mix_kem, root_step};
use vurnchat::ratchet::wire::{build_header, parse_header};
use vurnchat::ratchet::{package_sender_key, x25519_shared, DecryptError};
use vurnchat::signing::{
    frame_signature, generate_signing_keypair, sign_message, split_payload, verify_message, VerifyStatus,
};
use vurnchat::VurnCipher;

fn hex(bytes: &[u8]) -> String {
    bytes.iter().map(|b| format!("{:02x}", b)).collect()
}

fn unhex32(text: &str) -> [u8; 32] {
    let mut r = [0u8; 32];
    for i in 0..32 {
        r[i] = u8::from_str_radix(&text[2 * i..2 * i + 2], 16).unwrap();
    }
    r
}

fn counting() -> [u8; 32] {
    let mut r = [0u8; 32];
    for i in 0..32 {
        r[i] = i as u8;
    }
    r
}

#[test]
fn public_key_hash_is_sha256() {
    assert_eq!(
        hex(&VurnCipher::hash_public_key(b"abc")),
        "ba7816bf8f01cfea414140de5dae2223b00361a396177a9cb410ff61f20015ad"
    );
}

#[test]
fn password_keys_have_their_rounds() {
    assert_eq!(
        hex(&VurnCipher::derive_key("password", b"salt")),
        "669cfe52482116fda1aa2cbe409b2f56c8e4563752b7a28f6eaab614ee005178"
    );
    assert_eq!(
        hex(&VurnCipher::derive_key_browser("password", b"salt")),
        "0394a2ede332c9a13eb82e9b24631604c31df978b4e2f0fbd2c549944f9d79a5"
    );
}

#[test]
fn fingerprint_of_two_short_keys() {
    let want = "41256 29182 57872 64390 06441 07854 41364 22556 48421 12772 45623 22994";
    assert_eq!(VurnCipher::compute_fingerprint(&[1], &[2]), want);
    assert_eq!(VurnCipher::compute_fingerprint(&[2], &[1]), want);
}

#[test]
fn fingerprint_digits_are_padded() {
    let mut hash = [0u8; 32];
    hash[1] = 7;
    hash[2] = 0xff;
    hash[3] = 0xff;
    let digits = VurnCipher::fingerprint_digits(&hash);
    assert!(digits.starts_with("00007 65535 00000 "));
    assert_eq!(digits.len(), 71);
}

#[test]
fn chain_and_root_steps() {
    let (mk, next) = chain_step(&counting());
    assert_eq!(hex(&mk), "9b4c8120a4823a95f47cde17a244f4507244ee6e3957d1fab9fa29b44d3829b7");
    assert_eq!(hex(&next), "4304c22c84a53755ab08ead8d97a8d429be5efa480682d7ad1da27f73e1fbe1d");
    let (rk, seed) = root_step(&counting(), &[7u8; 32]);
    assert_eq!(hex(&rk), "36a4a077616fa415e990d9baf202b071b9eefa39be50f83fcaa0ca5d3839434b");
    assert_eq!(hex(&seed), "ad144d573cfc657d338b601217b8958a779f08a3d85ceb257c6705723fbe1a83");
}

#[test]
fn kem_secret_is_mixed_in() {
    assert_eq!(
        hex(&mix_kem(&counting(), &Some(b"ss".to_vec()))),
        "324db84aac23fdbec2f80c793ad7eb75481634158efee9c064629783ec3f195b"
    );
    assert_eq!(mix_kem(&counting(), &None), counting());
}

#[test]
fn sealing_key_and_nonce() {
    let (key, nonce) = aead_key(&counting());
    assert_eq!(hex(&key), "ac66ce660899d8a8055f4c69dfab30f42bf78899f8042d1ce6fd659224f846ef");
    assert_eq!(hex(&nonce), "f08f18519f42817d370076e6");
}

#[test]
fn hkdf_without_salt() {
    assert_eq!(
        hex(&hkdf_sha256(&[0x0b; 22], b"")),
        "8da4e775a563c18f715f802a063c5a31b8a11f5c5ee1879ec3454e5f3c738d2d"
    );
    assert_eq!(
        hex(&hkdf_sha256(b"ikm", b"info")),
        "253471d1d21137fd9a4016868ba773216954d4cc5ecb925eeacadfd7eeb208c3"
    );
}

#[test]
fn bootstrap_root_of_five_inputs() {
    assert_eq!(
        hex(&root_from(&[1; 32], &[2; 32], &[3; 32], b"kem1", b"kem2")),
        "e1af08f8bda411d69d472117a63e215edd50bf1dff9deba0f86ffe8246d78753"
    );
}

#[test]
fn session_id_hashes_keys_in_order() {
    let want = "a12871fee210fb8619291eaea194581cbd2531e4b23759d225f6806923f63222";
    assert_eq!(hex(&session_id_from(&[1], &[2])), want);
    assert_eq!(hex(&session_id_from(&[2], &[1])), want);
}

#[test]
fn x25519_of_rfc_7748() {
    let sk = unhex32("a546e36bf0527c9d3b16154b82465edd62144c0ac1fc5a18506a2244ba449ac4");
    let u = unhex32("e6db6867583030db3594c1a424b15f7c726624ec26b3353b10a903a6d0ab1c4c");
    assert_eq!(
        hex(&x25519_shared(&sk, &u).unwrap()),
        "c3da55379de9c6908e94ea4df28d084f32eccf03491c71f754b4075577a28552"
    );
}

#[test]
fn aes_gcm_of_zeros() {
    let sealed = VurnCipher::encrypt_symmetric_with(&[0; 32], &[0; 12], &[0; 16]);
    assert_eq!(
        hex(&sealed),
        "000000000000000000000000cea7403d4d606b6e074ec5d3baf39d18d0d1c8a799996bf0265b98b5d48ab919"
    );
    assert_eq!(VurnCipher::decrypt_symmetric(&[0; 32], &sealed).unwrap(), vec![0u8; 16]);
}

#[test]
fn symmetric_decryption_errors() {
    assert_eq!(VurnCipher::decrypt_symmetric(&[0; 32], &[0; 27]), Err("Ciphertext too short".to_string()));
    assert_eq!(
        VurnCipher::decrypt_symmetric(&[0; 32], &[0; 28]),
        Err("Decryption failed: aead::Error".to_string())
    );
}

#[test]
fn nonces_are_drawn_afresh() {
    let a = VurnCipher::encrypt_symmetric(&[9; 32], b"text");
    let b = VurnCipher::encrypt_symmetric(&[9; 32], b"text");
    assert_ne!(a, b);
    assert_ne!(&a[..12], &[0u8; 12]);
    assert_eq!(a.len(), 12 + 4 + 16);
    assert_eq!(VurnCipher::decrypt_symmetric(&[9; 32], &a).unwrap(), b"text");
    assert_eq!(VurnCipher::decrypt_symmetric(&[9; 32], &b).unwrap(), b"text");
}

#[test]
fn package_parts_and_errors() {
    let bytes = serialize_package(&[1, 2, 3], &[4; 12], &[5; 16]);
    assert_eq!(&bytes[..5], &[3, 0, 1, 2, 3]);
    assert_eq!(bytes.len(), 2 + 3 + 12 + 16);
    let package = deserialize_package(&bytes).unwrap_or_else(|e| panic!("{}", e));
    assert_eq!(package.kem_ct, vec![1, 2, 3]);
    assert_eq!(package.nonce, [4; 12]);
    assert_eq!(package.payload, vec![5; 16]);

    let error = |d: &[u8]| deserialize_package(d).err().unwrap();
    assert_eq!(error(&[0]), "Package too short: missing KEM ciphertext length");
    assert_eq!(error(&[1, 0, 9]), "Package too short: missing nonce");
    assert_eq!(
        error(&bytes[..bytes.len() - 1]),
        "Package too short: payload missing authentication tag"
    );
}

#[test]
fn encryption_errors() {
    assert_eq!(
        VurnCipher::encrypt(&[0; 9], b"x"),
        Err("Invalid public key: expected 1568 bytes, got 9".to_string())
    );
    let short_ct = serialize_package(&[1], &[0; 12], &[0; 16]);
    assert_eq!(
        VurnCipher::decrypt(&[0; 10], &short_ct),
        Err("Invalid secret key: expected 3168 bytes, got 10".to_string())
    );
    let (_, sk) = VurnCipher::generate_keypair();
    assert_eq!(VurnCipher::decrypt(&sk, &short_ct), Err("Invalid KEM ciphertext length".to_string()));
    let wrong = serialize_package(&[0; 1568], &[0; 12], &[0; 16]);
    assert_eq!(
        VurnCipher::decrypt(&sk, &wrong),
        Err("Decryption failed (wrong key or tampered data): aead::Error".to_string())
    );
}

#[test]
fn sealed_package_is_read_with_its_secret() {
    let (pk, sk) = VurnCipher::generate_keypair();
    let (ct, ss) = vurnchat::ratchet::kem_encapsulate(&pk).unwrap();
    let mut secret = [0u8; 32];
    secret.copy_from_slice(&ss);
    let package = VurnCipher::encrypt_with(&ct, &secret, &[3; 12], b"packed").unwrap();
    assert_eq!(VurnCipher::decrypt(&sk, &package).unwrap(), b"packed");
    assert_eq!(vurnchat::ratchet::kem_decapsulate(&sk, &ct).unwrap(), ss);
}

#[test]
fn packages_have_fresh_secrets_and_do_not_survive_changes() {
    let (pk, sk) = VurnCipher::generate_keypair();
    let (_, other_sk) = VurnCipher::generate_keypair();
    let a = VurnCipher::encrypt(&pk, b"same").unwrap();
    let b = VurnCipher::encrypt(&pk, b"same").unwrap();
    assert_ne!(deserialize_package(&a).unwrap().kem_ct, deserialize_package(&b).unwrap().kem_ct);
    assert_ne!(a, b);
    let failed = Err("Decryption failed (wrong key or tampered data): aead::Error".to_string());
    assert_eq!(VurnCipher::decrypt(&other_sk, &a), failed);
    for i in [2, 1569, 1570, 1581, 1582, a.len() - 1] {
        let mut changed = a.clone();
        changed[i] ^= 1;
        assert_eq!(VurnCipher::decrypt(&sk, &changed), failed);
    }
    let mut shorter = a.clone();
    shorter[0] ^= 0x20;
    assert_eq!(VurnCipher::decrypt(&sk, &shorter), Err("Invalid KEM ciphertext length".to_string()));
    let mut longer = a.clone();
    longer[1] ^= 0x80;
    assert_eq!(VurnCipher::decrypt(&sk, &longer), Err("Package too short: missing nonce".to_string()));
}

#[test]
fn signed_payloads_do_not_survive_changes() {
    let (pk, sk) = generate_signing_keypair();
    let (other_pk, _) = generate_signing_keypair();
    let payload = sign_message(&sk, b"text").unwrap();
    assert_eq!(verify_message(&pk, &payload), Ok(b"text".to_vec()));
    assert_eq!(verify_message(&other_pk, &payload), Err(VerifyStatus::BadSignature));
    for i in [0, 2, 4628, 4629, payload.len() - 1] {
        let mut changed = payload.clone();
        changed[i] ^= 1;
        assert_eq!(verify_message(&pk, &changed), Err(VerifyStatus::BadSignature));
    }
    let mut longer = payload.clone();
    longer[1] ^= 0x80;
    assert_eq!(verify_message(&pk, &longer), Err(VerifyStatus::NoSignature));
}

#[test]
fn other_names_find_nothing() {
    let (index, blob) = BlindProfileManager::prepare_registration("alice", &[1; 8], &[2; 8]).unwrap();
    let (other_index, _) = BlindProfileManager::prepare_registration("alicf", &[1; 8], &[2; 8]).unwrap();
    assert_ne!(index, other_index);
    let failed = Some("Decryption failed: aead::Error".to_string());
    assert_eq!(BlindProfileManager::resolve_profile("alicf", &blob).err(), failed);
    assert_eq!(BlindProfileManager::resolve_profile_v9("alicf", &blob).err(), failed);
    assert_eq!(BlindProfileManager::resolve_profile("ALICE", &blob).unwrap(), (vec![1; 8], vec![2; 8]));
}

#[test]
fn kem_lengths_are_checked() {
    assert_eq!(vurnchat::ratchet::kem_encapsulate(&[0; 1567]), Err(DecryptError::Malformed));
    assert_eq!(vurnchat::ratchet::kem_decapsulate(&[0; 3167], &[0; 1568]), Err(DecryptError::Malformed));
    assert_eq!(vurnchat::ratchet::kem_decapsulate(&[0; 3168], &[0; 1567]), Err(DecryptError::Malformed));
}

#[test]
fn header_layout() {
    let header = build_header(3, 258, &[9; 32], &None, &None);
    assert_eq!(header.len(), 42);
    assert_eq!(&header[..10], &[0x0A, 0x01, 3, 0, 0, 0, 2, 1, 0, 0]);
    let mut package = build_header(3, 258, &[9; 32], &Some(vec![1; 1568]), &Some(vec![2; 1568]));
    assert_eq!(package[1], 0x07);
    assert_eq!(package.len(), 42 + 2 * 1568);
    package.extend_from_slice(&[0; 16]);
    let h = parse_header(&package).unwrap_or_else(|e| panic!("{:?}", e));
    assert_eq!((h.flags, h.pn, h.n, h.dh_pub, h.len), (0x07, 3, 258, [9; 32], 42 + 2 * 1568));
    assert_eq!(h.kem_pk, Some(vec![1; 1568]));
    assert_eq!(h.kem_ct, Some(vec![2; 1568]));
    assert_eq!(package_sender_key(&package), Some([9; 32]));
}

#[test]
fn header_faults() {
    let fault = |p: &[u8]| parse_header(p).err();
    assert_eq!(fault(&[0x0A; 57]), Some(DecryptError::Malformed));
    let mut package = vec![0u8; 58];
    package[0] = 0x0B;
    package[1] = 0x01;
    assert_eq!(fault(&package), Some(DecryptError::Malformed));
    package[0] = 0x0A;
    package[1] = 0x06;
    assert_eq!(fault(&package), Some(DecryptError::Malformed));
    package[1] = 0x03;
    assert_eq!(fault(&package), Some(DecryptError::Malformed));
    package[1] = 0x05;
    assert_eq!(fault(&package), Some(DecryptError::Malformed));
    package[1] = 0x01;
    assert_eq!(fault(&package), None);
    assert_eq!(package_sender_key(&package[..57]), None);
}

#[test]
fn signature_frame() {
    let payload = frame_signature(&[7, 8], b"text");
    assert_eq!(payload, vec![2, 0, 7, 8, b't', b'e', b'x', b't']);
    assert_eq!(split_payload(&payload), Some((vec![7, 8], b"text".to_vec())));
    assert_eq!(split_payload(&[]), None);
    assert_eq!(split_payload(&[0, 0, 1]), None);
    assert_eq!(split_payload(&[2, 0, 1]), None);
    assert_eq!(split_payload(&[1, 0, 1]), Some((vec![1], vec![])));
}

#[test]
fn identity_faults() {
    let enc = encode_identity(&[1, 2], &[3]);
    assert_eq!(enc, vec![2, 0, 1, 2, 1, 0, 3]);
    assert_eq!(decode_identity(&enc), Ok((vec![1, 2], vec![3])));
    assert_eq!(decode_identity(&[0]), Err("Identity payload too short".to_string()));
    assert_eq!(
        decode_identity(&enc[..5]),
        Err("Identity payload truncated: missing signing key header".to_string())
    );
    assert_eq!(
        decode_identity(&enc[..6]),
        Err("Identity payload truncated: signing key cut short".to_string())
    );
    assert_eq!(
        IdentityBundle::decode(&[9, 0, 0]),
        Err("v0.9 identity truncated: expected 10420 bytes, got 3".to_string())
    );
    assert_eq!(
        IdentityBundle::decode(&enc).unwrap().verify_prekey(),
        Err("identity has no signed prekey".to_string())
    );
}

#[test]
fn bytes_behind_a_bundle_are_ignored() {
    let mut bytes = vec![1u8; 10425];
    bytes[0] = 9;
    bytes[10419] = 2;
    let bundle = IdentityBundle::decode(&bytes).unwrap();
    assert_eq!(bundle.encode(), &bytes[..10420]);
    assert_eq!(bundle.clone(), bundle);
    assert_eq!(bundle.verify_prekey(), Err("signed prekey signature does not verify".to_string()));
}

#[test]
fn invite_link_is_base64url() {
    let link = BlindProfileManager::generate_invite(&[0xfb, 0xff], &[1], &[2], "https://vurnchat.org//");
    assert_eq!(link, "https://vurnchat.org/?invite=AgD7_wEAAQEAAg");
    assert_eq!(BlindProfileManager::parse_invite(&link), Ok((vec![0xfb, 0xff], vec![1], vec![2])));
    let (hash, bundle) = BlindProfileManager::parse_invite_v9(&link).unwrap();
    assert_eq!((hash, bundle.ik_kem, bundle.sig_pk), (vec![0xfb, 0xff], vec![1], vec![2]));
}

#[test]
fn invite_faults() {
    assert_eq!(
        BlindProfileManager::parse_invite_raw("https://vurnchat.org/"),
        Err("Invalid invite URL: missing ?invite= parameter".to_string())
    );
    assert_eq!(
        BlindProfileManager::parse_invite_raw("x?invite=AA"),
        Err("Invite data too short: expected at least 4 header bytes".to_string())
    );
    assert_eq!(
        BlindProfileManager::split_invite(&[3, 0, 1, 2, 3]),
        Err("Invite data truncated: missing identity payload".to_string())
    );
    assert_eq!(BlindProfileManager::split_invite(&[1, 0, 7, 0, 0]), Ok((vec![7], vec![0, 0])));
    assert!(BlindProfileManager::parse_invite_raw("x?invite=A!AA").unwrap_err().starts_with("Base64 decode failed: "));
    // Stray bits and padding are no base64url here.
    assert!(decode_base64url("AB").is_err());
    assert!(decode_base64url("AA==").is_err());
    assert_eq!(decode_base64url("AA"), Ok(vec![0]));
    // Neither two keys nor one.
    assert_eq!(
        BlindProfileManager::parse_invite("x?invite=AAADAAE"),
        Err("Identity payload truncated: missing signing key header".to_string())
    );
}

#[test]
fn invite_with_one_key_has_no_signing_key() {
    // Session hash [7], then the key [1, 2, 3] alone.
    let link = "x?invite=AQAHAwABAgM";
    assert_eq!(BlindProfileManager::parse_invite(link), Ok((vec![7], vec![1, 2, 3], vec![])));
    let (hash, bundle) = BlindProfileManager::parse_invite_v9(link).unwrap();
    assert_eq!(hash, vec![7]);
    assert_eq!(bundle.ik_kem, vec![1, 2, 3]);
    assert!(bundle.sig_pk.is_empty());
    assert!(!bundle.is_v9());
}

#[test]
fn search_index_is_keyed_by_the_salt() {
    let (index, _) = BlindProfileManager::prepare_registration("Charlie", &[1], &[2]).unwrap();
    let (same, _) = BlindProfileManager::prepare_registration("CHARLIE", &[1], &[2]).unwrap();
    assert_eq!(hex(&index), "dcc12033b9a1438a5b7742175d023c3ca65c39b90a552ff7918788dcdfd442c8");
    assert_eq!(index, same);
    // Lower case is Unicode's.
    let (a, _) = BlindProfileManager::prepare_registration("\u{c0}da", &[1], &[2]).unwrap();
    let (b, _) = BlindProfileManager::prepare_registration("\u{e0}DA", &[1], &[2]).unwrap();
    assert_eq!(a, b);
}

#[test]
fn key_from_bytes() {
    assert_eq!(arr32(&[5; 32]), Ok([5; 32]));
    assert_eq!(arr32(&[5; 31]), Err("expected 32-byte key".to_string()));
}

#[test]
fn envelope_faults() {
    let fault = |d: &[u8]| parse_init_envelope(d).err().unwrap();
    assert_eq!(fault(&[0]), "init envelope truncated");
    assert_eq!(fault(&[5, 0, 1]), "init envelope truncated (bundle)");
    assert_eq!(fault(&[1, 0, 1]), "Identity payload too short");
    let mut d = vec![4, 0, 0, 0, 0, 0];
    assert_eq!(fault(&d), "init envelope truncated (kem ciphertexts)");
    d.extend_from_slice(&vec![1; 2 * 1568]);
    assert_eq!(fault(&d), "init envelope missing ratchet package");
    d.push(9);
    let parsed = parse_init_envelope(&d).unwrap_or_else(|e| panic!("{}", e));
    assert_eq!(parsed.package, vec![9]);
    assert_eq!(parsed.ct_spk, vec![1; 1568]);
    assert_eq!(parsed.ct_ik, vec![1; 1568]);
}
