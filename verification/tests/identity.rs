//! Identities, profiles and invites.

use base64::Engine;
use vurnchat::identity::{
    build_identity_bundle, decode_identity, encode_identity, rotate_signed_prekey, BlindProfileManager, IdentityBundle,
    KEM_PK_LEN,
};
use vurnchat::VurnCipher;

#[test]
fn test_roundtrip_registration_resolve() {
    let username = "Alice";
    let (pk, _sk) = VurnCipher::generate_keypair();
    let (sig_pk, _sig_sk) = vurnchat::signing::generate_signing_keypair();

    // Alice registers her username
    let (index, blob) = BlindProfileManager::prepare_registration(username, &pk, &sig_pk)
        .expect("prepare should succeed");

    // Search index is 32 bytes (SHA-256 output)
    assert_eq!(index.len(), 32, "Search index must be 32 bytes");

    // Bob resolves the username → gets BOTH public keys of Alice's identity
    let (resolved_pk, resolved_sig_pk) =
        BlindProfileManager::resolve_profile(username, &blob).expect("resolve should succeed");

    assert_eq!(resolved_pk, pk, "Resolved KEM key must match original");
    assert_eq!(
        resolved_sig_pk, sig_pk,
        "Resolved signing key must match original"
    );
}

#[test]
fn test_wrong_username_fails_resolve() {
    let (pk, _sk) = VurnCipher::generate_keypair();
    let (sig_pk, _) = vurnchat::signing::generate_signing_keypair();

    // Register under "Alice"
    let (_index, blob) =
        BlindProfileManager::prepare_registration("Alice", &pk, &sig_pk).expect("prepare");

    // Try to resolve with wrong username
    let result = BlindProfileManager::resolve_profile("Eve", &blob);
    assert!(
        result.is_err(),
        "Wrong username must fail AES-GCM authentication"
    );
}

#[test]
fn test_case_insensitive_resolve() {
    let (pk, _sk) = VurnCipher::generate_keypair();
    let (sig_pk, _) = vurnchat::signing::generate_signing_keypair();

    // Register as "Alice"
    let (_index, blob) =
        BlindProfileManager::prepare_registration("Alice", &pk, &sig_pk).expect("prepare");

    // Resolve as "alice" (lowercase)
    let (resolved, resolved_sig) =
        BlindProfileManager::resolve_profile("alice", &blob).expect("case-insensitive resolve");

    assert_eq!(resolved, pk, "Username lookup must be case-insensitive");
    assert_eq!(resolved_sig, sig_pk);
}

#[test]
fn test_different_usernames_different_indices() {
    let (pk, _sk) = VurnCipher::generate_keypair();
    let (sig_pk, _) = vurnchat::signing::generate_signing_keypair();

    let (index1, _) =
        BlindProfileManager::prepare_registration("Alice", &pk, &sig_pk).expect("prepare Alice");
    let (index2, _) =
        BlindProfileManager::prepare_registration("Bob", &pk, &sig_pk).expect("prepare Bob");

    assert_ne!(
        index1, index2,
        "Different usernames must produce different search indices"
    );
}

#[test]
fn test_search_index_is_hmac_not_hash() {
    // Same username must produce the same search index (deterministic)
    let (pk, _sk) = VurnCipher::generate_keypair();
    let (sig_pk, _) = vurnchat::signing::generate_signing_keypair();

    let (index1, _) =
        BlindProfileManager::prepare_registration("Charlie", &pk, &sig_pk).expect("1st");
    let (index2, _) =
        BlindProfileManager::prepare_registration("Charlie", &pk, &sig_pk).expect("2nd");

    assert_eq!(
        index1, index2,
        "Same username must produce the same search index"
    );
}

#[test]
fn test_invite_roundtrip() {
    let (pk_alice, _) = VurnCipher::generate_keypair();
    let (sig_pk_alice, _) = vurnchat::signing::generate_signing_keypair();
    let hash_alice = VurnCipher::hash_public_key(&pk_alice);
    let base = "https://vurnchat.org";

    // Generate invite
    let invite = BlindProfileManager::generate_invite(&hash_alice, &pk_alice, &sig_pk_alice, base);

    // Must be a valid URL
    assert!(
        invite.starts_with("https://vurnchat.org/?invite="),
        "Invite must be a proper URL"
    );
    assert!(invite.len() > 50, "Invite must contain encoded data");

    // Parse invite
    let (parsed_hash, parsed_pk, parsed_sig_pk) =
        BlindProfileManager::parse_invite(&invite).expect("parse should succeed");

    assert_eq!(parsed_hash, hash_alice, "Session hash must survive round-trip");
    assert_eq!(parsed_pk, pk_alice, "KEM public key must survive round-trip");
    assert_eq!(
        parsed_sig_pk, sig_pk_alice,
        "Signing public key must survive round-trip"
    );
}

#[test]
fn test_invite_tampered_fails() {
    let (pk, _) = VurnCipher::generate_keypair();
    let (sig_pk, _) = vurnchat::signing::generate_signing_keypair();
    let hash = VurnCipher::hash_public_key(&pk);
    let base = "https://vurnchat.org";

    let invite = BlindProfileManager::generate_invite(&hash, &pk, &sig_pk, base);

    // Parse original to get reference
    let (orig_hash, orig_pk, orig_sig_pk) =
        BlindProfileManager::parse_invite(&invite).expect("original should parse");

    // Replace a character with an INVALID base64 character (invalid URL char)
    // URL_SAFE_NO_PAD uses: A-Z, a-z, 0-9, -, _
    // '!' is not a valid base64 character, so decode will FAIL
    let tampered = invite.replacen('A', "!", 1);
    if tampered != invite {
        // If replace succeeded, expect parse error
        let result = BlindProfileManager::parse_invite(&tampered);
        assert!(result.is_err(), "Tampered invite with invalid base64 char must fail");
    } else {
        // No 'A' in the invite string, try with 'a'
        let tampered = invite.replacen('a', "!", 1);
        let result = BlindProfileManager::parse_invite(&tampered);
        assert!(result.is_err(), "Tampered invite with invalid base64 char must fail");
    }

    // Also verify that replacing a valid base64 char with another valid one
    // produces DIFFERENT data (not a parse error)
    let modified = invite.replacen('A', "B", 1);
    if modified != invite {
        if let Ok((mod_hash, mod_pk, mod_sig_pk)) = BlindProfileManager::parse_invite(&modified) {
            // If it parsed, the data must be different from the original
            assert!(
                mod_hash != orig_hash || mod_pk != orig_pk || mod_sig_pk != orig_sig_pk,
                "Modified invite must produce different data"
            );
        }
    }
}

#[test]
fn test_invite_without_server_roundtrip() {
    // This test verifies the key property: invite links contain everything
    // needed to add a contact WITHOUT a server request.
    let (pk_alice, sk_alice) = VurnCipher::generate_keypair();
    let (sig_pk_alice, _sig_sk_alice) = vurnchat::signing::generate_signing_keypair();
    let (sig_pk_bob, sig_sk_bob) = vurnchat::signing::generate_signing_keypair();
    let hash_alice = VurnCipher::hash_public_key(&pk_alice);

    // Alice sends invite → Bob receives (no server involved)
    let invite =
        BlindProfileManager::generate_invite(&hash_alice, &pk_alice, &sig_pk_alice, "https://vurnchat.org");

    // Bob gets the invite URL (e.g., scanned from QR or pasted in chat)
    let (received_hash, received_pk, received_sig_pk) =
        BlindProfileManager::parse_invite(&invite).expect("Bob parses invite");

    assert_eq!(received_hash, hash_alice, "Bob gets Alice's session hash");
    assert_eq!(received_pk, pk_alice, "Bob gets Alice's KEM key");
    assert_eq!(received_sig_pk, sig_pk_alice, "Bob gets Alice's signing key");

    // Bob sends an AUTHENTICATED message to Alice using both keys from the invite
    let msg = b"Hi Alice! No server needed to find you.";
    let payload = vurnchat::signing::sign_message(&sig_sk_bob, msg).expect("Bob signs");
    let encrypted = VurnCipher::encrypt(&received_pk, &payload)
        .expect("Bob encrypts for Alice");

    // Alice decrypts with her own secret key (received via invite)
    let decrypted = VurnCipher::decrypt(&sk_alice, &encrypted)
        .expect("Alice decrypts the message Bob sent");

    // Alice verifies Bob's sender signature using Bob's key from the invite
    let verified = vurnchat::signing::verify_message(&sig_pk_bob, &decrypted)
        .expect("Alice verifies Bob's signature");
    assert_eq!(verified, msg, "Alice gets the correct plaintext");
}

#[test]
fn test_legacy_invite_without_signing_key() {
    // Invites created before sender signatures carried only session hash + KEM key.
    // Parsing must succeed with an empty signing key so the contact can be
    // added as unauthenticated instead of failing outright.
    let (pk, _) = VurnCipher::generate_keypair();
    let hash = VurnCipher::hash_public_key(&pk);

    let mut data = Vec::new();
    data.extend_from_slice(&(hash.len() as u16).to_le_bytes());
    data.extend_from_slice(&hash);
    data.extend_from_slice(&(pk.len() as u16).to_le_bytes());
    data.extend_from_slice(&pk);
    let encoded = base64::engine::general_purpose::URL_SAFE_NO_PAD.encode(&data);
    let invite = format!("https://vurnchat.org/?invite={}", encoded);

    let (parsed_hash, parsed_pk, parsed_sig_pk) =
        BlindProfileManager::parse_invite(&invite).expect("legacy invite must parse");
    assert_eq!(parsed_hash, hash);
    assert_eq!(parsed_pk, pk);
    assert!(parsed_sig_pk.is_empty(), "Legacy invite has no signing key");
}

#[test]
fn test_identity_encode_decode_roundtrip() {
    let (pk, _) = VurnCipher::generate_keypair();
    let (sig_pk, _) = vurnchat::signing::generate_signing_keypair();

    let enc = encode_identity(&pk, &sig_pk);
    let (dec_pk, dec_sig) = decode_identity(&enc).expect("decode");
    assert_eq!(dec_pk, pk);
    assert_eq!(dec_sig, sig_pk);

    assert!(decode_identity(&pk).is_err(), "Bare KEM key is not a valid identity");
    assert!(decode_identity(&[]).is_err());
}

#[test]
fn test_invite_qr_small_payload_generates_svg() {
    // Real ML-DSA-87 + ML-KEM keys make the invite URL longer than a QR code
    // can hold, so generation fails gracefully. Small payloads must still work.
    let hash = vec![7u8; 32];
    let pk = vec![1u8, 2, 3];
    let sig_pk = vec![4u8, 5, 6];

    let svg = BlindProfileManager::generate_invite_qr(&hash, &pk, &sig_pk, "https://vurnchat.org")
        .expect("Small invite QR should succeed");
    assert!(svg.contains("<svg"), "QR must contain an SVG element");
    assert!(svg.contains("</svg>"), "SVG must close properly");
    assert!(svg.len() > 500);
}

#[test]
fn test_invite_qr_real_keys_too_long() {
    // Full-size identity (KEM 1568 B + ML-DSA-87 2592 B) cannot fit in a QR
    // code; the function must report an error rather than panic.
    let (pk, _) = VurnCipher::generate_keypair();
    let (sig_pk, _) = vurnchat::signing::generate_signing_keypair();
    let hash = VurnCipher::hash_public_key(&pk);

    let result = BlindProfileManager::generate_invite_qr(&hash, &pk, &sig_pk, "https://vurnchat.org");
    assert!(
        result.is_err(),
        "Full-size PQ identity must exceed QR capacity and report an error"
    );
}

#[test]
fn test_different_usernames_different_blobs_same_key() {
    let (pk, _sk) = VurnCipher::generate_keypair();
    let (sig_pk, _) = vurnchat::signing::generate_signing_keypair();

    // Same public key, different usernames → different blobs
    let (_, blob1) =
        BlindProfileManager::prepare_registration("Alice", &pk, &sig_pk).expect("Alice");
    let (_, blob2) =
        BlindProfileManager::prepare_registration("Bob", &pk, &sig_pk).expect("Bob");

    assert_ne!(
        blob1, blob2,
        "Different usernames must produce different encrypted blobs"
    );
}

#[test]
fn test_parse_invite_invalid_url() {
    let result = BlindProfileManager::parse_invite("not-a-url");
    assert!(
        result.is_err(),
        "Invalid URL must fail parsing"
    );

    let result = BlindProfileManager::parse_invite("https://vurnchat.org/");
    assert!(
        result.is_err(),
        "URL without ?invite= must fail"
    );

    let result = BlindProfileManager::parse_invite("https://vurnchat.org/?invite=");
    // Empty invite param → base64 decode of empty string
    // The base64 crate returns an empty Vec on decode(""), which fails
    // our length check (data.len() < 4)
    assert!(result.is_err(), "Empty invite must fail");
}

// ── v0.9 identity bundle ────────────────────────────────────────────

fn v9_bundle() -> (IdentityBundle, Vec<u8>) {
    // Returns the bundle plus the identity signing secret key.
    let (ik_kem, _) = VurnCipher::generate_keypair();
    let (ik_x, _) = vurnchat::ratchet::x25519_keypair();
    let (sig_pk, sig_sk) = vurnchat::signing::generate_signing_keypair();
    let bundle = build_identity_bundle(ik_kem, ik_x.to_vec(), sig_pk, &sig_sk).unwrap();
    (bundle, sig_sk)
}

#[test]
fn test_v9_bundle_encode_decode_roundtrip() {
    let (bundle, _sig_sk) = v9_bundle();
    assert!(bundle.is_v9(), "built bundle must be a full v0.9 identity");
    assert_eq!(bundle.ik_x.len(), 32, "X25519 identity key must be 32 bytes");
    assert_eq!(bundle.spk_kem.len(), KEM_PK_LEN);
    assert_eq!(bundle.spk_x.len(), 32);

    let bytes = bundle.encode();
    let decoded = IdentityBundle::decode(&bytes).expect("decode roundtrip");
    assert_eq!(decoded, bundle);
    assert!(decoded.is_v9());
    assert!(decoded.verify_prekey().is_ok(), "roundtripped prekey must verify");
}

#[test]
fn test_v9_bundle_prekey_signature_binds() {
    let (bundle, _) = v9_bundle();
    assert!(bundle.verify_prekey().is_ok());

    // Tampering with the prekey (e.g. an attacker swapping in their own
    // prekey in a profile) must break the signature check.
    let mut evil = bundle.clone();
    let (evil_kem, _) = VurnCipher::generate_keypair();
    evil.spk_kem = evil_kem;
    assert!(evil.verify_prekey().is_err(), "swapped prekey must fail verification");

    let mut evil_x = bundle.clone();
    let (evil_x_pk, _) = vurnchat::ratchet::x25519_keypair();
    evil_x.spk_x = evil_x_pk.to_vec();
    assert!(evil_x.verify_prekey().is_err(), "swapped X25519 prekey must fail");
}

#[test]
fn test_v9_bundle_rejects_truncation() {
    let (bundle, _) = v9_bundle();
    let bytes = bundle.encode();
    assert!(IdentityBundle::decode(&bytes[..bytes.len() - 1]).is_err());
    assert!(IdentityBundle::decode(&[]).is_err());
}

#[test]
fn test_v9_bundle_decodes_legacy_v07_payload() {
    // A v0.7 identity payload (KEM + ML-DSA key, no v0.9 magic) must
    // decode into a bundle with empty prekey fields.
    let (ik_kem, _) = VurnCipher::generate_keypair();
    let (sig_pk, _) = vurnchat::signing::generate_signing_keypair();
    let legacy = encode_identity(&ik_kem, &sig_pk);

    let bundle = IdentityBundle::decode(&legacy).expect("legacy payload must decode");
    assert_eq!(bundle.ik_kem, ik_kem);
    assert_eq!(bundle.sig_pk, sig_pk);
    assert!(!bundle.is_v9(), "legacy-derived bundle must be marked incomplete");
    assert!(bundle.verify_prekey().is_err());
}

#[test]
fn test_v9_registration_resolve_roundtrip() {
    let (bundle, _) = v9_bundle();
    let (index, blob) =
        BlindProfileManager::prepare_registration_v9("Bob", &bundle).expect("register v9");
    assert_eq!(index.len(), 32);

    let resolved =
        BlindProfileManager::resolve_profile_v9("bob", &blob).expect("resolve v9");
    assert_eq!(resolved, bundle);
    assert!(resolved.verify_prekey().is_ok());

    // Wrong username must fail (AES-GCM auth).
    assert!(BlindProfileManager::resolve_profile_v9("Eve", &blob).is_err());
}

#[test]
fn test_v9_resolve_legacy_blob() {
    // Blobs registered by a v0.7 client (plain KEM + sig keys) must
    // resolve through the v9 API into an incomplete bundle.
    let (pk, _) = VurnCipher::generate_keypair();
    let (sig_pk, _) = vurnchat::signing::generate_signing_keypair();
    let (_index, blob) =
        BlindProfileManager::prepare_registration("Carol", &pk, &sig_pk).expect("legacy register");

    let resolved =
        BlindProfileManager::resolve_profile_v9("Carol", &blob).expect("v9 resolve of legacy blob");
    assert_eq!(resolved.ik_kem, pk);
    assert_eq!(resolved.sig_pk, sig_pk);
    assert!(!resolved.is_v9());
}

#[test]
fn test_v9_invite_roundtrip() {
    let (bundle, _) = v9_bundle();
    let hash = vec![0x42u8; 32];
    let invite =
        BlindProfileManager::generate_invite_v9(&hash, &bundle, "https://vurnchat.org");
    assert!(invite.starts_with("https://vurnchat.org/?invite="));

    let (parsed_hash, parsed_bundle) =
        BlindProfileManager::parse_invite_v9(&invite).expect("parse v9 invite");
    assert_eq!(parsed_hash, hash);
    assert_eq!(parsed_bundle, bundle);
    assert!(parsed_bundle.verify_prekey().is_ok());
}

#[test]
fn test_v9_parse_legacy_invite() {
    // v0.7 invite (KEM + sig keys inside) must parse via the v9 API into
    // an incomplete bundle.
    let (pk, _) = VurnCipher::generate_keypair();
    let (sig_pk, _) = vurnchat::signing::generate_signing_keypair();
    let hash = VurnCipher::hash_public_key(&pk);
    let invite = BlindProfileManager::generate_invite(&hash, &pk, &sig_pk, "https://vurnchat.org");

    let (parsed_hash, bundle) =
        BlindProfileManager::parse_invite_v9(&invite).expect("v9 parse of legacy invite");
    assert_eq!(parsed_hash, hash);
    assert_eq!(bundle.ik_kem, pk);
    assert_eq!(bundle.sig_pk, sig_pk);
    assert!(!bundle.is_v9());
}

// ── Prekey rotation ────────────────────────────────────────────────

#[test]
fn test_rotate_prekey_keeps_identity_and_binds() {
    // Rotation replaces the prekey but keeps ik_kem/ik_x/sig_pk and the
    // new prekey is bound to the *same* identity signing key.
    let (bundle, sig_sk) = v9_bundle();
    let old_bundle = bundle.clone();

    let rotated = rotate_signed_prekey(
        bundle.ik_kem.clone(),
        bundle.ik_x.clone(),
        bundle.sig_pk.clone(),
        &sig_sk,
    )
    .expect("rotate");

    // Same identity, different prekey.
    assert!(bundle.same_identity(&rotated.bundle));
    assert_eq!(bundle.sig_pk, rotated.bundle.sig_pk);
    assert_eq!(bundle.ik_x, rotated.bundle.ik_x);
    assert_eq!(bundle.ik_kem, rotated.bundle.ik_kem);
    assert_ne!(bundle.spk_kem, rotated.bundle.spk_kem, "prekey must change");
    assert_ne!(bundle.spk_x, rotated.bundle.spk_x, "prekey must change");
    assert_ne!(bundle.spk_sig, rotated.bundle.spk_sig);

    // New prekey verifies against the unchanged identity key.
    assert!(rotated.bundle.verify_prekey().is_ok());
    assert!(rotated.bundle.is_v9());

    // Secret halves returned for responder persistence.
    assert_eq!(rotated.spk_kem_sk.len(), vurnchat::ratchet::KEM_SK_LEN);
    assert_eq!(rotated.spk_x_sk.len(), 32);

    // Old bundle's prekey still verifies (it was validly signed before),
    // and the two bundles are distinct encodings of the same identity.
    assert!(old_bundle.verify_prekey().is_ok());
    assert_ne!(bundle.encode(), rotated.bundle.encode());
}

#[test]
fn test_same_identity_ignores_prekey() {
    let (bundle, sig_sk) = v9_bundle();
    let rotated = rotate_signed_prekey(
        bundle.ik_kem.clone(),
        bundle.ik_x.clone(),
        bundle.sig_pk.clone(),
        &sig_sk,
    )
    .unwrap();

    assert!(bundle.same_identity(&rotated.bundle));

    // A different identity must NOT compare equal.
    let (other, _) = v9_bundle();
    assert!(!bundle.same_identity(&other));

    // Rotated bundle still routes to the same identity hash (ik_kem unchanged).
    assert_eq!(
        VurnCipher::hash_public_key(&bundle.ik_kem),
        VurnCipher::hash_public_key(&rotated.bundle.ik_kem)
    );
}

#[test]
fn test_rotated_bundle_resolves_under_same_username() {
    // The rotation flow re-publishes the *new* bundle under the same
    // username; a resolver must get the rotated prekey, still bound to
    // the same identity.
    let (bundle, sig_sk) = v9_bundle();
    let rotated = rotate_signed_prekey(
        bundle.ik_kem.clone(),
        bundle.ik_x.clone(),
        bundle.sig_pk.clone(),
        &sig_sk,
    )
    .unwrap();

    let (_idx1, _blob1) =
        BlindProfileManager::prepare_registration_v9("PrekeyBob", &bundle).unwrap();
    let (_idx2, blob2) =
        BlindProfileManager::prepare_registration_v9("PrekeyBob", &rotated.bundle).unwrap();
    // Same username → same search index, different blob.
    assert_eq!(idx_to_hex(&_idx1), idx_to_hex(&_idx2));

    let resolved =
        BlindProfileManager::resolve_profile_v9("PrekeyBob", &blob2).expect("resolve");
    assert_eq!(resolved, rotated.bundle);
    assert!(resolved.verify_prekey().is_ok());
    assert!(bundle.same_identity(&resolved));
}

fn idx_to_hex(idx: &[u8]) -> String {
    idx.iter().map(|b| format!("{:02x}", b)).collect()
}
