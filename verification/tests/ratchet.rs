//! The hybrid ratchet.

use rand::rngs::OsRng;
use rand::RngCore;
use vurnchat::ratchet::{
    kem_keypair, x25519_keypair, DecryptError, Session, SessionStart, MAX_SKIP, MAX_SKIPPED_TOTAL,
};

fn random32() -> [u8; 32] {
    let mut b = [0u8; 32];
    OsRng.fill_bytes(&mut b);
    b
}

/// Builds matching start material for both sides of a conversation.
/// Alice is the session initiator (has Bob's prekey, advertises her own
/// fresh KEM key); Bob is the responder (learns Alice's keys from the
/// first inbound message).
fn fixture() -> (Session, Session) {
    let root = random32();
    let session_id = random32();
    let (ek_a, sk_a) = x25519_keypair();
    let (spk_b_pk, spk_b_sk) = x25519_keypair();
    let (kem_a_pk, kem_a_sk) = kem_keypair();

    let alice = Session::start_alice(SessionStart {
        root,
        session_id,
        our_dh: (ek_a, sk_a),
        peer_dh: Some(spk_b_pk),
        our_kem: Some((kem_a_pk, kem_a_sk)),
    });
    let bob = Session::start_bob(SessionStart {
        root,
        session_id,
        our_dh: (spk_b_pk, spk_b_sk),
        peer_dh: None,
        our_kem: None,
    });
    (alice, bob)
}

#[test]
fn test_basic_ping_pong() {
    let (mut alice, mut bob) = fixture();

    // Alice sends 2 while Bob is "offline" (delivered together on connect).
    let a1 = alice.encrypt(b"hi bob 1").unwrap();
    let a2 = alice.encrypt(b"hi bob 2").unwrap();
    assert_eq!(bob.decrypt(&a1).unwrap(), b"hi bob 1");
    assert_eq!(bob.decrypt(&a2).unwrap(), b"hi bob 2");

    // Bob replies 3.
    let b1 = bob.encrypt(b"hi alice 1").unwrap();
    let b2 = bob.encrypt(b"hi alice 2").unwrap();
    let b3 = bob.encrypt(b"hi alice 3").unwrap();
    assert_eq!(alice.decrypt(&b1).unwrap(), b"hi alice 1");
    assert_eq!(alice.decrypt(&b2).unwrap(), b"hi alice 2");
    assert_eq!(alice.decrypt(&b3).unwrap(), b"hi alice 3");

    // Bob stays offline for a long burst from Alice.
    let burst: Vec<Vec<u8>> = (0..20)
        .map(|i| alice.encrypt(format!("a{}", i).as_bytes()).unwrap())
        .collect();
    for (i, m) in burst.iter().enumerate() {
        let want = format!("a{}", i);
        assert_eq!(bob.decrypt(m).unwrap(), want.as_bytes());
    }

    // Conversation continues both ways.
    let b4 = bob.encrypt(b"still here").unwrap();
    assert_eq!(alice.decrypt(&b4).unwrap(), b"still here");
    let a_final = alice.encrypt(b"me too").unwrap();
    assert_eq!(bob.decrypt(&a_final).unwrap(), b"me too");
}

#[test]
fn test_distinct_ciphertexts_and_no_replay() {
    let (mut alice, mut bob) = fixture();
    let m1 = alice.encrypt(b"same").unwrap();
    let m2 = alice.encrypt(b"same").unwrap();
    assert_ne!(m1, m2, "same plaintext must not produce identical packages");
    assert_eq!(bob.decrypt(&m1).unwrap(), b"same");
    assert_eq!(bob.decrypt(&m2).unwrap(), b"same");
    // Replay of an already-consumed package must be rejected.
    assert_eq!(bob.decrypt(&m1).unwrap_err(), DecryptError::OutOfOrder);
}

#[test]
fn test_tamper_fails() {
    let (mut alice, mut bob) = fixture();
    let mut m = alice.encrypt(b"important").unwrap();
    let last = m.len() - 1;
    m[last] ^= 0xFF;
    assert_eq!(bob.decrypt(&m).unwrap_err(), DecryptError::AuthFailed);

    // Tampering with the message number in the header must also fail
    // loudly. The second package carries n = 1; flipping the low byte
    // makes it n = 0, which is already behind the receiving chain — a
    // replay shape → OutOfOrder (and the AEAD would fail anyway).
    let mut m2 = alice.encrypt(b"header tamper").unwrap();
    let hdr_n = 6; // first byte of the `n` field
    m2[hdr_n] ^= 0x01;
    assert_eq!(bob.decrypt(&m2).unwrap_err(), DecryptError::OutOfOrder);
}

#[test]
fn test_replay_rejected_after_consumption() {
    let (mut alice, mut bob) = fixture();
    // Establish the session with a few alternations.
    for _ in 0..3 {
        let m = alice.encrypt(b"a").unwrap();
        assert_eq!(bob.decrypt(&m).unwrap(), b"a");
        let r = bob.encrypt(b"b").unwrap();
        assert_eq!(alice.decrypt(&r).unwrap(), b"b");
    }

    // A single multi-message turn from Alice (same DH key, n = 0, 1, 2).
    let m1 = alice.encrypt(b"first").unwrap();
    let m2 = alice.encrypt(b"second").unwrap();
    let m3 = alice.encrypt(b"third").unwrap();
    // In-order delivery always succeeds.
    assert_eq!(bob.decrypt(&m1).unwrap(), b"first");
    assert_eq!(bob.decrypt(&m2).unwrap(), b"second");
    assert_eq!(bob.decrypt(&m3).unwrap(), b"third");

    // Replays are rejected.
    assert_eq!(bob.decrypt(&m1).unwrap_err(), DecryptError::OutOfOrder);
    assert_eq!(bob.decrypt(&m2).unwrap_err(), DecryptError::OutOfOrder);
}

#[test]
fn test_persistence_roundtrip() {
    let (mut alice, mut bob) = fixture();
    let a1 = alice.encrypt(b"persist me").unwrap();
    assert_eq!(bob.decrypt(&a1).unwrap(), b"persist me");

    // Serialize both mid-conversation and restore (e.g. tab reload).
    let alice_bytes = alice.to_bytes();
    let bob_bytes = bob.to_bytes();
    let mut alice2 = Session::from_bytes(&alice_bytes).unwrap();
    let mut bob2 = Session::from_bytes(&bob_bytes).unwrap();

    let b1 = bob2.encrypt(b"reply after restore").unwrap();
    assert_eq!(alice2.decrypt(&b1).unwrap(), b"reply after restore");
    let a2 = alice2.encrypt(b"and again").unwrap();
    assert_eq!(bob2.decrypt(&a2).unwrap(), b"and again");

    // Tampered or truncated serialization must be rejected, not panic.
    assert!(Session::from_bytes(&alice_bytes[..alice_bytes.len() - 3]).is_err());
    let mut corrupt = alice_bytes.clone();
    corrupt[0] = 0xFF;
    assert!(Session::from_bytes(&corrupt).is_err());
}

#[test]
fn test_forward_secrecy_old_state_cannot_read_new() {
    let (mut alice, mut bob) = fixture();

    // A few full rounds so both sides are firmly mid-ratchet.
    for _ in 0..4 {
        let m = alice.encrypt(b"ping").unwrap();
        assert_eq!(bob.decrypt(&m).unwrap(), b"ping");
        let r = bob.encrypt(b"pong").unwrap();
        assert_eq!(alice.decrypt(&r).unwrap(), b"pong");
    }

    // Attacker captures Bob's *current* state.
    let stolen = bob.to_bytes();
    let mut attacker = Session::from_bytes(&stolen).unwrap();

    // The conversation continues normally: Alice speaks, Bob replies
    // (ratcheting his DH forward), Alice speaks again, Bob replies again.
    let m1 = alice.encrypt(b"post-theft a1 SECRET").unwrap();
    assert_eq!(bob.decrypt(&m1).unwrap(), b"post-theft a1 SECRET");
    let r1 = bob.encrypt(b"post-theft b1").unwrap();
    assert_eq!(alice.decrypt(&r1).unwrap(), b"post-theft b1");
    let m2 = alice.encrypt(b"post-theft a2 SECRET").unwrap();
    assert_eq!(bob.decrypt(&m2).unwrap(), b"post-theft a2 SECRET");
    let r2 = bob.encrypt(b"post-theft b2").unwrap();
    assert_eq!(alice.decrypt(&r2).unwrap(), b"post-theft b2");

    // What the stolen state can read: `m1` was sent before Bob rotated
    // his ratchet key, so it sits in the very chain the thief captured —
    // decryptable. That is inherent to the double ratchet (the key was
    // current at capture time); what matters for forward secrecy is what
    // comes after Bob advances.
    assert_eq!(attacker.decrypt(&m1).unwrap(), b"post-theft a1 SECRET");

    // `m2` is sent after Bob's reply rotated his DH ratchet key. Deriving
    // its chain requires the DH secret Bob generated after the capture;
    // the stolen state cannot follow, so this — and every later message
    // in the conversation — is sealed.
    assert!(
        attacker.decrypt(&m2).is_err(),
        "state stolen before Bob's ratchet advance cannot decrypt post-advance messages"
    );
}

/// Sustained pseudo-random two-way traffic with variable-length turns,
/// burst-style offline delivery, and a mid-conversation persistence
/// checkpoint on both sides. Any chain-state accounting bug (message
/// numbers, pn, DH/KEM rotation) surfaces here.
#[test]
fn test_sustained_traffic_stress() {
    let (mut alice, mut bob) = fixture();

    let step = |n: u64| -> Vec<u8> {
        // Deterministic pseudo-random bytes for message content.
        let mut b = Vec::with_capacity(48);
        let mut x = n.wrapping_mul(0x9E3779B97F4A7C15).wrapping_add(0xDEADBEEF);
        for _ in 0..48 {
            x = x
                .wrapping_mul(6364136223846793005)
                .wrapping_add(1442695040888963407);
            b.push(b'A' + ((x >> 33) % 89) as u8);
        }
        b
    };

    let mut n = 0u64;
    for round in 0..40u64 {
        let msgs = 1 + (round * 7 % 5) as usize; // 1..=5 messages per turn
        if round % 2 == 0 {
            for _ in 0..msgs {
                n += 1;
                let pt = step(n);
                let pkg = alice.encrypt(&pt).unwrap();
                assert_eq!(bob.decrypt(&pkg).unwrap(), pt, "round {} alice->bob", round);
            }
        } else {
            for _ in 0..msgs {
                n += 1;
                let pt = step(n);
                let pkg = bob.encrypt(&pt).unwrap();
                assert_eq!(alice.decrypt(&pkg).unwrap(), pt, "round {} bob->alice", round);
            }
        }

        // Persistence checkpoint mid-conversation (e.g. both tabs reload).
        if round == 20 {
            alice = Session::from_bytes(&alice.to_bytes()).unwrap();
            bob = Session::from_bytes(&bob.to_bytes()).unwrap();
        }
    }
}

// ── Skipped-message-key store (out-of-order / loss survival) ────────

/// A burst from Alice, delivered to Bob in scrambled order: every
/// message must decrypt, exactly once, regardless of arrival order.
#[test]
fn test_out_of_order_within_chain_recovers() {
    let (mut alice, mut bob) = fixture();
    let pkgs: Vec<Vec<u8>> = (0..6)
        .map(|i| alice.encrypt(format!("reorder-{}", i).as_bytes()).unwrap())
        .collect();
    let mut got = Vec::new();
    for i in [2usize, 0, 4, 1, 3, 5] {
        got.push(bob.decrypt(&pkgs[i]).unwrap());
    }
    for (i, pt) in got.iter().enumerate() {
        assert_eq!(*pt, format!("reorder-{}", [2usize, 0, 4, 1, 3, 5][i]).as_bytes());
    }
    // Everything was consumed exactly once: replays are all rejected.
    for (i, pkg) in pkgs.iter().enumerate() {
        assert_eq!(
            bob.decrypt(pkg).unwrap_err(),
            DecryptError::OutOfOrder,
            "replay of message {} must be rejected",
            i
        );
    }
    // The conversation continues normally afterwards.
    let a = alice.encrypt(b"after reorder").unwrap();
    assert_eq!(bob.decrypt(&a).unwrap(), b"after reorder");
}

/// A duplicate delivery of a message that we skipped over but have not
/// decrypted yet must not be confused with the genuine copy: only the
/// authentic ciphertext opens, and the store entry survives a failed
/// attempt so a later genuine copy still decrypts.
#[test]
fn test_store_entry_survives_failed_open() {
    let (mut alice, mut bob) = fixture();
    let m0 = alice.encrypt(b"zero").unwrap();
    let m1 = alice.encrypt(b"one").unwrap();
    // Deliver m1 first: the engine skips over message 0, retaining its
    // key. Then a FORGED attempt to burn message 0's key with garbage
    // ciphertext must fail without deleting the genuine key.
    assert_eq!(bob.decrypt(&m1).unwrap(), b"one");
    assert_eq!(bob.skipped.len(), 1);
    let mut forged = m0.clone();
    let last = forged.len() - 1;
    forged[last] ^= 0x01;
    assert_eq!(bob.decrypt(&forged).unwrap_err(), DecryptError::AuthFailed);
    // The genuine m0 still decrypts afterwards.
    assert_eq!(bob.decrypt(&m0).unwrap(), b"zero");
    assert!(bob.skipped.is_empty());
    // And a replay of the now-consumed m0 is rejected.
    assert_eq!(bob.decrypt(&m0).unwrap_err(), DecryptError::OutOfOrder);
}

/// Message keys retained by skipping must survive a serialize/restore
/// round-trip, and legacy 0x0A session bytes (written before the store
/// existed) must still load with an empty store.
#[test]
fn test_skipped_store_persists_across_restore() {
    let (mut alice, mut bob) = fixture();
    let m0 = alice.encrypt(b"persist-0").unwrap();
    let m1 = alice.encrypt(b"persist-1").unwrap();
    let m2 = alice.encrypt(b"persist-2").unwrap();
    // m0 in order; m2 arrives next, skipping (and storing the key for) m1.
    assert_eq!(bob.decrypt(&m0).unwrap(), b"persist-0");
    assert_eq!(bob.decrypt(&m2).unwrap(), b"persist-2");
    assert_eq!(bob.skipped.len(), 1);

    // Restore from bytes: the stored key must survive.
    let mut bob2 = Session::from_bytes(&bob.to_bytes()).unwrap();
    assert_eq!(bob2.skipped.len(), 1);
    assert_eq!(bob2.decrypt(&m1).unwrap(), b"persist-1");

    // Simulate a pre-0x0B session blob: same bytes, legacy version byte
    // and no trailing skipped section → loads with an empty store.
    let mut legacy = bob.to_bytes();
    let cut = legacy.len() - 4; // drop the 4-byte skipped count
    legacy.truncate(cut);
    legacy[0] = 0x0A;
    let bob_legacy = Session::from_bytes(&legacy).unwrap();
    assert!(bob_legacy.skipped.is_empty());

    // A legacy-restored session keeps working in order.
    let m3 = alice.encrypt(b"persist-3").unwrap();
    assert_eq!(bob2.decrypt(&m3).unwrap(), b"persist-3");
}

/// A gap wider than `MAX_SKIP` is a hard error and must not advance the
/// receiving chain or store keys — the next genuine in-order message
/// still decrypts.
#[test]
fn test_gap_beyond_max_skip_rejected_without_state_damage() {
    let (mut alice, mut bob) = fixture();
    // Encrypt MAX_SKIP + 3 messages on one chain (indices/message numbers
    // 0..=MAX_SKIP+2, so a package with number MAX_SKIP+2 exists).
    let pkgs: Vec<Vec<u8>> = (0..MAX_SKIP + 3)
        .map(|i| alice.encrypt(format!("bulk-{}", i).as_bytes()).unwrap())
        .collect();
    assert_eq!(bob.decrypt(&pkgs[0]).unwrap(), b"bulk-0");
    // n_r = 1; message MAX_SKIP+2 opens a gap of MAX_SKIP+1 > MAX_SKIP.
    let over = (MAX_SKIP + 2) as usize;
    assert_eq!(
        bob.decrypt(&pkgs[over]).unwrap_err(),
        DecryptError::OutOfOrder
    );
    // No keys were stored by the rejected jump and the chain was not
    // advanced: the very next message decrypts in order.
    assert!(bob.skipped.is_empty());
    assert_eq!(bob.decrypt(&pkgs[1]).unwrap(), b"bulk-1");
}

/// Loss + recovery across a chain switch: Alice sends three messages on
/// chain A1; Bob only receives the first (the other two are lost in
/// transit). Bob replies (opening his own chain), Alice replies, opening
/// chain A2 whose header reports `pn = 3` — larger than Bob's `n_r = 1`.
/// Bob must retain the keys for the two lost A1 messages, ratchet, and
/// decrypt Alice's A2 message; when the two lost A1 messages finally
/// arrive they decrypt from the store.
#[test]
fn test_lost_tail_across_chain_switch_recovers() {
    let (mut alice, mut bob) = fixture();

    // Alice sends 3 on chain A1; Bob receives only the first.
    let a0 = alice.encrypt(b"a0").unwrap();
    let a1 = alice.encrypt(b"a1").unwrap();
    let a2 = alice.encrypt(b"a2").unwrap();
    assert_eq!(bob.decrypt(&a0).unwrap(), b"a0"); // n_r = 1 on A1

    // Bob replies (chain B1); Alice receives it (ratchets).
    let b0 = bob.encrypt(b"b0").unwrap();
    assert_eq!(alice.decrypt(&b0).unwrap(), b"b0");

    // Alice replies → opens chain A2 (pn = 3, her A1 length).
    let a3 = alice.encrypt(b"a3 on A2").unwrap();
    // Bob: new chain, pn 3 > n_r 1 → retain A1 keys 1..2, ratchet, decrypt.
    assert_eq!(bob.decrypt(&a3).unwrap(), b"a3 on A2");
    assert_eq!(bob.skipped.len(), 2);

    // The two lost A1 messages finally arrive → decrypt from the store.
    assert_eq!(bob.decrypt(&a1).unwrap(), b"a1");
    assert_eq!(bob.decrypt(&a2).unwrap(), b"a2");
    assert!(bob.skipped.is_empty());

    // Replays of consumed messages are rejected.
    assert_eq!(bob.decrypt(&a0).unwrap_err(), DecryptError::OutOfOrder);
    assert_eq!(bob.decrypt(&a1).unwrap_err(), DecryptError::OutOfOrder);

    // The conversation continues on A2.
    let a4 = alice.encrypt(b"a4").unwrap();
    assert_eq!(bob.decrypt(&a4).unwrap(), b"a4");
}

/// Filling the skipped store to its cap must not corrupt chain state when
/// the *next* gap would overflow it: the whole gap is rejected up front
/// (no partial advance of `n_r`, no stray store entries, chain key
/// untouched), and the missing in-order message still decrypts.
#[test]
fn test_store_capacity_rejected_atomically() {
    let (mut alice, mut bob) = fixture();

    // Deliver messages 0, 2, 4, …, 3998: each even message opens a
    // one-message gap whose key is retained, so the store fills to
    // MAX_SKIPPED_TOTAL - 1 = 1999 keys and n_r = 3999.
    let total = MAX_SKIPPED_TOTAL - 1;
    let last_even = 2 * total; // 3998
    let pkgs: Vec<Vec<u8>> = (0..=last_even + 3)
        .map(|i| alice.encrypt(format!("cap-{}", i).as_bytes()).unwrap())
        .collect();
    assert_eq!(bob.decrypt(&pkgs[0]).unwrap(), b"cap-0");
    for k in 1..=total {
        let idx = 2 * k; // message number 2k
        assert_eq!(
            bob.decrypt(&pkgs[idx]).unwrap(),
            format!("cap-{}", idx).as_bytes()
        );
    }
    assert_eq!(bob.skipped.len(), total);
    assert_eq!(bob.n_r, last_even as u32 + 1);

    // Message 4001 opens a gap of 2: 2001 keys would be needed, over the
    // cap. Rejected with no state change at all.
    let (n_r_before, store_before, ck_before) = (bob.n_r, bob.skipped.len(), bob.ck_r);
    assert_eq!(
        bob.decrypt(&pkgs[last_even + 3]).unwrap_err(),
        DecryptError::OutOfOrder
    );
    assert_eq!((bob.n_r, bob.skipped.len()), (n_r_before, store_before));
    assert_eq!(bob.ck_r, ck_before);

    // The chain is consistent: the next in-order message (3999) decrypts,
    // and a retained straggler (3997) decrypts from the store and is
    // removed — the store was never damaged by the rejected gap.
    assert_eq!(
        bob.decrypt(&pkgs[last_even + 1]).unwrap(),
        format!("cap-{}", last_even + 1).as_bytes()
    );
    assert_eq!(
        bob.decrypt(&pkgs[last_even - 1]).unwrap(),
        format!("cap-{}", last_even - 1).as_bytes()
    );
    assert_eq!(bob.skipped.len(), total - 1);
}
