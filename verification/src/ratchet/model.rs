//! What a session is and what its operations do to it, in plain values.

use crate::ratchet::DecryptError;
use crate::crypto;
use crate::ratchet::{kdf, wire};
use vstd::prelude::*;

verus! {

/// The state of one side of a session.
#[verifier::ext_equal]
pub struct SessionState {
    pub session_id: Seq<u8>,
    pub rk: Seq<u8>,
    pub dh_pub: Seq<u8>,
    pub dh_sec: Seq<u8>,
    pub dh_r: Option<Seq<u8>>,
    pub ck_s: Option<Seq<u8>>,
    pub ck_r: Option<Seq<u8>>,
    pub n_s: u32,
    pub n_r: u32,
    pub pn: u32,
    pub kem_advertised: Seq<(Seq<u8>, Seq<u8>)>,
    pub kem_peer: Option<Seq<u8>>,
    pub advertise_kem_next: bool,
    pub skipped: Map<(Seq<u8>, u32), Seq<u8>>,
    pub initialized: bool,
}

/// What chance contributes to a sent message: a ratchet key pair (public, secret) for a chain that
/// is opened, a fresh KEM key pair (public, secret) that is advertised, and an encapsulation
/// (ciphertext, secret) to the peer's KEM key.
pub struct Fresh {
    pub dh: (Seq<u8>, Seq<u8>),
    pub kem: (Seq<u8>, Seq<u8>),
    pub encaps: (Seq<u8>, Seq<u8>),
}

// ── Starting ────────────────────────────────────────────────────────

/// The initiator's state: the first sending chain is derived from the peer's key at once.
pub open spec fn started_alice(
    root: Seq<u8>,
    session_id: Seq<u8>,
    dh_pub: Seq<u8>,
    dh_sec: Seq<u8>,
    peer_dh: Seq<u8>,
    kem: Option<(Seq<u8>, Seq<u8>)>,
) -> SessionState {
    let dh = crypto::x25519_dh(dh_sec, peer_dh);
    SessionState {
        session_id,
        rk: kdf::next_root(root, dh),
        dh_pub,
        dh_sec,
        dh_r: Some(peer_dh),
        ck_s: Some(kdf::chain_seed(root, dh)),
        ck_r: None,
        n_s: 0,
        n_r: 0,
        pn: 0,
        kem_advertised: match kem {
            Some(k) => seq![k],
            None => Seq::empty(),
        },
        kem_peer: None,
        advertise_kem_next: true,
        skipped: Map::empty(),
        initialized: true,
    }
}

/// The responder's state: no chain yet, one KEM key.
pub open spec fn started_bob(
    root: Seq<u8>,
    session_id: Seq<u8>,
    dh_pub: Seq<u8>,
    dh_sec: Seq<u8>,
    kem: (Seq<u8>, Seq<u8>),
) -> SessionState {
    SessionState {
        session_id,
        rk: root,
        dh_pub,
        dh_sec,
        dh_r: None,
        ck_s: None,
        ck_r: None,
        n_s: 0,
        n_r: 0,
        pn: 0,
        kem_advertised: seq![kem],
        kem_peer: None,
        advertise_kem_next: true,
        skipped: Map::empty(),
        initialized: false,
    }
}

// ── Sending ─────────────────────────────────────────────────────────

/// Whether the next send opens a chain.
pub open spec fn opens_chain(s: SessionState) -> bool {
    s.ck_s is None && s.dh_r is Some
}

/// The state with a sending chain, opened with the key pair `dh` where none is open and the peer's
/// key is known.
pub open spec fn opened(s: SessionState, dh: (Seq<u8>, Seq<u8>)) -> SessionState {
    if opens_chain(s) {
        let out = crypto::x25519_dh(dh.1, s.dh_r->Some_0);
        SessionState {
            dh_pub: dh.0,
            dh_sec: dh.1,
            advertise_kem_next: true,
            rk: kdf::next_root(s.rk, out),
            ck_s: Some(kdf::chain_seed(s.rk, out)),
            n_s: 0,
            ..s
        }
    } else {
        s
    }
}

/// The advertised keys after one more is advertised: newest first, at most two.
pub open spec fn advertised(kems: Seq<(Seq<u8>, Seq<u8>)>, kem: (Seq<u8>, Seq<u8>)) -> Seq<(Seq<u8>, Seq<u8>)> {
    let all = seq![kem] + kems;
    if all.len() <= 2 {
        all
    } else {
        all.subrange(0, 2)
    }
}

/// Whether the pair that a session was started with is still to be advertised: the first chain is
/// open, nothing was sent on it, and the public key has the length that a header carries.
pub open spec fn has_unsent_pair(s: SessionState) -> bool {
    s.ck_s is Some && s.advertise_kem_next && s.kem_advertised.len() > 0 && s.kem_advertised[0].0.len()
        == crate::ratchet::KEM_PK_LEN
}

/// Whether the next message advertises a fresh KEM key.
pub open spec fn draws_kem(s: SessionState) -> bool {
    opens_chain(s) || (s.ck_s is Some && s.advertise_kem_next && !has_unsent_pair(s))
}

/// The KEM key that the next message advertises: that of the pair the session was started with, or
/// else a fresh one.
pub open spec fn advertisement(s: SessionState, f: Fresh) -> Option<Seq<u8>> {
    if has_unsent_pair(s) {
        Some(s.kem_advertised[0].0)
    } else if draws_kem(s) {
        Some(f.kem.0)
    } else {
        None
    }
}

/// The state after a message was taken from the sending chain.
pub open spec fn stepped(s: SessionState, f: Fresh) -> SessionState {
    let o = opened(s, f.dh);
    SessionState {
        ck_s: Some(kdf::next_chain(o.ck_s->Some_0)),
        n_s: (o.n_s + 1) as u32,
        kem_advertised: if draws_kem(s) {
            advertised(o.kem_advertised, f.kem)
        } else {
            o.kem_advertised
        },
        advertise_kem_next: false,
        ..o
    }
}

/// The header of the next message.
pub open spec fn outgoing_header(s: SessionState, f: Fresh) -> Seq<u8> {
    let o = opened(s, f.dh);
    wire::header_bytes(
        o.pn,
        o.n_s,
        o.dh_pub,
        advertisement(s, f),
        if o.kem_peer is Some {
            Some(f.encaps.0)
        } else {
            None
        },
    )
}

/// The message key of the next message.
pub open spec fn outgoing_key(s: SessionState, f: Fresh) -> Seq<u8> {
    let o = opened(s, f.dh);
    kdf::mixed(
        kdf::message_key(o.ck_s->Some_0),
        if o.kem_peer is Some {
            Some(f.encaps.1)
        } else {
            None
        },
    )
}

/// What sending `plaintext` does: the state after it, and the package.
pub open spec fn sent(s: SessionState, f: Fresh, plaintext: Seq<u8>) -> (SessionState, Result<
    Seq<u8>,
    DecryptError,
>) {
    if opened(s, f.dh).ck_s is None {
        (s, Err(DecryptError::NoState))
    } else if s.kem_peer is Some && s.kem_peer->Some_0.len() != crate::ratchet::KEM_PK_LEN {
        (stepped(s, f), Err(DecryptError::Malformed))
    } else if plaintext.len() > crypto::GCM_MAX || 32 + outgoing_header(s, f).len()
        > crypto::GCM_MAX {
        (stepped(s, f), Err(DecryptError::AuthFailed))
    } else {
        (
            stepped(s, f),
            Ok(
                outgoing_header(s, f) + kdf::sealed(
                    s.session_id,
                    outgoing_header(s, f),
                    outgoing_key(s, f),
                    plaintext,
                ),
            ),
        )
    }
}

/// Whether `f` can be what chance contributes to the next message.
pub open spec fn can_be_drawn(s: SessionState, f: Fresh) -> bool {
    &&& opens_chain(s) ==> f.dh.0.len() == 32 && f.dh.1.len() == 32 && f.dh.0 == crypto::x25519_public(
        f.dh.1,
    )
    &&& draws_kem(s) ==> kdf::is_kem_pair(f.kem.0, f.kem.1)
    &&& opened(s, f.dh).ck_s is Some && s.kem_peer is Some && s.kem_peer->Some_0.len() == crate::ratchet::KEM_PK_LEN
        ==> kdf::is_encapsulation(s.kem_peer->Some_0, f.encaps.0, f.encaps.1)
}

// ── Receiving ───────────────────────────────────────────────────────

/// The responder's state once the first message shows the initiator's key.
pub open spec fn met(s: SessionState, peer_dh: Seq<u8>) -> SessionState {
    let dh = crypto::x25519_dh(s.dh_sec, peer_dh);
    SessionState {
        rk: kdf::next_root(s.rk, dh),
        ck_r: Some(kdf::chain_seed(s.rk, dh)),
        n_r: 0,
        dh_r: Some(peer_dh),
        initialized: true,
        ..s
    }
}

/// The state once the peer opened a chain with a new ratchet key: a new receiving chain, and the
/// sending chain closed.
pub open spec fn ratcheted(s: SessionState, peer_dh: Seq<u8>) -> SessionState {
    let dh = crypto::x25519_dh(s.dh_sec, peer_dh);
    SessionState {
        rk: kdf::next_root(s.rk, dh),
        ck_r: Some(kdf::chain_seed(s.rk, dh)),
        n_r: 0,
        dh_r: Some(peer_dh),
        pn: s.n_s,
        ck_s: None,
        ..s
    }
}

/// A store with the keys of `count` messages from number `from` on added, of the chain of `dh`
/// whose next chain key is `ck`.
pub open spec fn retained(
    m: Map<(Seq<u8>, u32), Seq<u8>>,
    dh: Seq<u8>,
    ck: Seq<u8>,
    from: u32,
    count: nat,
) -> Map<(Seq<u8>, u32), Seq<u8>>
    decreases count,
{
    if count == 0 {
        m
    } else {
        retained(m, dh, ck, from, (count - 1) as nat).insert(
            (dh, (from + count - 1) as u32),
            kdf::message_key(kdf::chain_after(ck, (count - 1) as nat)),
        )
    }
}

/// Whether the receiving chain may jump to message number `until`.
pub open spec fn gap_fits(s: SessionState, until: u32) -> bool {
    until <= s.n_r || (until - s.n_r <= crate::ratchet::MAX_SKIP && s.skipped.len() + (until - s.n_r)
        <= crate::ratchet::MAX_SKIPPED_TOTAL)
}

/// How many keys jumping to message number `until` retains.
pub open spec fn jump(s: SessionState, until: u32) -> nat {
    if until > s.n_r && s.dh_r is Some && s.ck_r is Some {
        (until - s.n_r) as nat
    } else {
        0
    }
}

/// The state with the receiving chain moved on to message number `until` and the keys of the
/// messages in between retained. Without a receiving chain there is nothing to move.
pub open spec fn jumped(s: SessionState, until: u32) -> SessionState {
    if jump(s, until) == 0 {
        s
    } else {
        SessionState {
            skipped: retained(s.skipped, s.dh_r->Some_0, s.ck_r->Some_0, s.n_r, jump(s, until)),
            ck_r: Some(kdf::chain_after(s.ck_r->Some_0, jump(s, until))),
            n_r: until,
            ..s
        }
    }
}

/// Whether the peer may turn to a new chain: its last chain had `pn` messages, no fewer than were
/// received, and what is missing of it and of the `n` first messages of the new chain can be
/// retained.
pub open spec fn turn_fits(s: SessionState, pn: u32, n: u32) -> bool {
    &&& pn >= s.n_r
    &&& gap_fits(s, pn)
    &&& n > 0 ==> n <= crate::ratchet::MAX_SKIP && s.skipped.len() + jump(s, pn) + n
        <= crate::ratchet::MAX_SKIPPED_TOTAL
}

/// The state whose receiving chain stands at the message with the header `h`, or why there is none.
pub open spec fn aligned(s: SessionState, h: wire::HeaderView) -> (SessionState, Option<
    DecryptError,
>) {
    let s1 = if s.initialized {
        s
    } else {
        met(s, h.dh_pub)
    };
    if s1.dh_r != Some(h.dh_pub) {
        if turn_fits(s1, h.pn, h.n) {
            (jumped(ratcheted(jumped(s1, h.pn), h.dh_pub), h.n), None)
        } else {
            (s1, Some(DecryptError::OutOfOrder))
        }
    } else if h.n < s1.n_r || !gap_fits(s1, h.n) {
        (s1, Some(DecryptError::OutOfOrder))
    } else {
        (jumped(s1, h.n), None)
    }
}

/// The KEM secrets that our advertised keys make of a ciphertext, newest key first.
pub open spec fn decapsulated(kems: Seq<(Seq<u8>, Seq<u8>)>, kem_ct: Seq<u8>) -> Seq<Option<Seq<u8>>>
    decreases kems.len(),
{
    if kems.len() == 0 {
        Seq::empty()
    } else {
        let front = decapsulated(kems.drop_last(), kem_ct);
        if kems.last().1.len() == crate::ratchet::KEM_SK_LEN && kem_ct.len() == crate::ratchet::KEM_CT_LEN {
            front.push(Some(crypto::ml_kem_decaps(kems.last().1, kem_ct)))
        } else {
            front
        }
    }
}

/// The KEM secrets to try on a message, in order; none at all for a message without a KEM
/// ciphertext, or where no key fits.
pub open spec fn candidates(kems: Seq<(Seq<u8>, Seq<u8>)>, kem_ct: Option<Seq<u8>>) -> Seq<Option<Seq<u8>>> {
    match kem_ct {
        Some(ct) => if decapsulated(kems, ct).len() == 0 {
            seq![None]
        } else {
            decapsulated(kems, ct)
        },
        None => seq![None],
    }
}

/// What the first candidate that opens a ciphertext opens it to.
pub open spec fn first_open(
    session_id: Seq<u8>,
    header: Seq<u8>,
    ct: Seq<u8>,
    mk: Seq<u8>,
    candidates: Seq<Option<Seq<u8>>>,
) -> Option<Seq<u8>>
    decreases candidates.len(),
{
    if candidates.len() == 0 {
        None
    } else {
        match kdf::unsealed(
            session_id,
            header,
            kdf::mixed(mk, candidates[0]),
            ct,
        ) {
            Some(m) => Some(m),
            None => first_open(session_id, header, ct, mk, candidates.drop_first()),
        }
    }
}

/// What a package opens to under a message key.
pub open spec fn opened_with(
    s: SessionState,
    pkg: Seq<u8>,
    h: wire::HeaderView,
    mk: Seq<u8>,
) -> Option<Seq<u8>> {
    first_open(
        s.session_id,
        pkg.subrange(0, h.len as int),
        pkg.subrange(h.len as int, pkg.len() as int),
        mk,
        candidates(s.kem_advertised, h.kem_ct),
    )
}

/// Whether a header is of a chain that is new to an initialized session.
pub open spec fn turns(s: SessionState, h: wire::HeaderView) -> bool {
    s.initialized && s.dh_r != Some(h.dh_pub)
}

/// What moving the receiving chain on to a package and opening it does: the state after it, and the
/// plaintext.
pub open spec fn advanced(s: SessionState, pkg: Seq<u8>, h: wire::HeaderView) -> (SessionState, Result<
    Seq<u8>,
    DecryptError,
>) {
    let (a, refused) = aligned(s, h);
    match (refused, a.ck_r) {
        (Some(e), _) => (a, Err(e)),
        (None, None) => (a, Err(DecryptError::NoState)),
        (None, Some(ck)) => {
            let t = SessionState { ck_r: Some(kdf::next_chain(ck)), n_r: (a.n_r + 1) as u32, ..a };
            match opened_with(t, pkg, h, kdf::message_key(ck)) {
                None => (t, Err(DecryptError::AuthFailed)),
                Some(m) => (
                    SessionState {
                        kem_peer: if h.kem_pk is Some {
                            h.kem_pk
                        } else {
                            t.kem_peer
                        },
                        ..t
                    },
                    Ok(m),
                ),
            }
        },
    }
}

/// What receiving a package does: the state after it, and the plaintext. A message whose key is in
/// the store decrypts from there. A new chain is turned to only by a message of it that opens; one
/// that does not is a message of a chain that is past, or no message of the peer, and changes
/// nothing.
pub open spec fn received(s: SessionState, pkg: Seq<u8>) -> (SessionState, Result<Seq<u8>, DecryptError>) {
    match wire::header_of(pkg) {
        None => (s, Err(DecryptError::Malformed)),
        Some(h) => if s.skipped.contains_key((h.dh_pub, h.n)) {
            match opened_with(s, pkg, h, s.skipped[(h.dh_pub, h.n)]) {
                Some(m) => (SessionState { skipped: s.skipped.remove((h.dh_pub, h.n)), ..s }, Ok(m)),
                None => (s, Err(DecryptError::AuthFailed)),
            }
        } else if turns(s, h) && advanced(s, pkg, h).1 is Err {
            (s, Err(DecryptError::OutOfOrder))
        } else {
            advanced(s, pkg, h)
        },
    }
}

/// Whether a package carries the last number of the current receiving chain, after which the
/// counter cannot move on.
pub open spec fn exhausts_chain(s: SessionState, pkg: Seq<u8>) -> bool {
    &&& wire::header_of(pkg) is Some
    &&& {
        let h = wire::header_of(pkg)->Some_0;
        &&& h.n == u32::MAX
        &&& s.initialized
        &&& s.dh_r == Some(h.dh_pub)
        &&& s.ck_r is Some
        &&& gap_fits(s, h.n)
        &&& !s.skipped.contains_key((h.dh_pub, h.n))
    }
}

} // verus!
