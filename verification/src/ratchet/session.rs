//! A session: its state and its operations.

use crate::ratchet::kdf::{
    aead_decrypt, aead_encrypt, chain_step, kem_decapsulate, kem_encapsulate, kem_keypair, mix_kem, root_step,
    x25519_keypair, x25519_shared,
};
use crate::ratchet::store::SkippedKeys;
use crate::ratchet::wire::{build_header, parse_header, Header};
use crate::ratchet::{DecryptError, KEM_PK_LEN, MAX_SKIP, MAX_SKIPPED_TOTAL};
use crate::ratchet::{kdf, laws, model, wire};
use crate::{bytes, crypto};
use vstd::prelude::*;

verus! {

broadcast use vstd::array::group_array_axioms;

/// An advertised ML-KEM ratchet key pair: the public half was sent to the peer, the secret half is
/// kept until it is rotated away.
#[derive(Debug)]
pub struct AdvertisedKem {
    pub pk: Vec<u8>,
    pub sk: Vec<u8>,
}

/// The hybrid ratchet session for one contact pair.
#[derive(Debug)]
pub struct Session {
    pub session_id: [u8; 32],
    pub rk: [u8; 32],
    /// Our current X25519 ratchet key pair (public, secret).
    pub dh_s: ([u8; 32], [u8; 32]),
    /// The peer's current X25519 ratchet public key.
    pub dh_r: Option<[u8; 32]>,
    pub ck_s: Option<[u8; 32]>,
    pub ck_r: Option<[u8; 32]>,
    pub n_s: u32,
    pub n_r: u32,
    /// Length of our previous sending chain.
    pub pn: u32,
    /// Our advertised ML-KEM ratchet keys, newest first.
    pub kem_advertised: Vec<AdvertisedKem>,
    /// The peer's latest advertised ML-KEM ratchet public key.
    pub kem_peer: Option<Vec<u8>>,
    /// Keys of messages that were jumped over.
    pub skipped: SkippedKeys,
    /// Whether the next send advertises a fresh ML-KEM key.
    pub advertise_kem_next: bool,
    /// Whether the receiving chain of the peer's first message has been derived.
    pub initialized: bool,
}

impl Clone for AdvertisedKem {
    fn clone(&self) -> (r: AdvertisedKem)
        ensures
            r.pk@ == self.pk@,
            r.sk@ == self.sk@,
    {
        AdvertisedKem { pk: vstd::slice::slice_to_vec(&self.pk), sk: vstd::slice::slice_to_vec(&self.sk) }
    }
}

impl Clone for Session {
    fn clone(&self) -> (r: Session)
        ensures
            r@ == self@,
    {
        let mut kem_advertised: Vec<AdvertisedKem> = Vec::new();
        let mut i: usize = 0;
        while i < self.kem_advertised.len()
            invariant
                i <= self.kem_advertised@.len(),
                kem_advertised@.len() == i,
                forall|j: int|
                    0 <= j < i ==> (#[trigger] kem_advertised@[j]).pk@ == self.kem_advertised@[j].pk@
                        && kem_advertised@[j].sk@ == self.kem_advertised@[j].sk@,
            decreases self.kem_advertised@.len() - i,
        {
            kem_advertised.push(self.kem_advertised[i].clone());
            i = i + 1;
        }
        assert(kem_pairs(kem_advertised@) =~= kem_pairs(self.kem_advertised@));
        let kem_peer = match &self.kem_peer {
            Some(pk) => Some(vstd::slice::slice_to_vec(pk)),
            None => None,
        };
        Session {
            session_id: self.session_id,
            rk: self.rk,
            dh_s: self.dh_s,
            dh_r: self.dh_r,
            ck_s: self.ck_s,
            ck_r: self.ck_r,
            n_s: self.n_s,
            n_r: self.n_r,
            pn: self.pn,
            kem_advertised,
            kem_peer,
            skipped: self.skipped.clone(),
            advertise_kem_next: self.advertise_kem_next,
            initialized: self.initialized,
        }
    }
}

/// Raw material to start one side of a session with.
pub struct SessionStart {
    /// Shared session root from the bootstrap.
    pub root: [u8; 32],
    /// Session identifier, the same on both sides: it is bound into every message.
    pub session_id: [u8; 32],
    /// Our initial X25519 ratchet key pair (public, secret): the initiator's ephemeral key, the
    /// responder's signed prekey.
    pub our_dh: ([u8; 32], [u8; 32]),
    /// The peer's initial X25519 ratchet public key. The responder learns it from the first
    /// message.
    pub peer_dh: Option<[u8; 32]>,
    /// Our initial advertised ML-KEM key pair (initiator only): its public key travels in the first
    /// message. Where it has not the length of one, a fresh one does.
    pub our_kem: Option<(Vec<u8>, Vec<u8>)>,
}

/// What chance contributes to one sent message: the parts that the message needs.
pub struct FreshKeys {
    /// A ratchet key pair (public, secret), where a chain is opened.
    pub dh: Option<([u8; 32], [u8; 32])>,
    /// A KEM key pair (public, secret), where a fresh one is advertised.
    pub kem: Option<(Vec<u8>, Vec<u8>)>,
    /// An encapsulation (ciphertext, secret) to the peer's KEM key, where that is known.
    pub encaps: Option<(Vec<u8>, Vec<u8>)>,
}

impl View for FreshKeys {
    type V = model::Fresh;

    open spec fn view(&self) -> model::Fresh {
        model::Fresh {
            dh: match self.dh {
                Some(p) => (p.0@, p.1@),
                None => (Seq::empty(), Seq::empty()),
            },
            kem: match self.kem {
                Some(p) => (p.0@, p.1@),
                None => (Seq::empty(), Seq::empty()),
            },
            encaps: match self.encaps {
                Some(p) => (p.0@, p.1@),
                None => (Seq::empty(), Seq::empty()),
            },
        }
    }
}

/// The plain contents of an optional key pair.
pub open spec fn opt_pair(o: Option<(Vec<u8>, Vec<u8>)>) -> Option<(Seq<u8>, Seq<u8>)> {
    match o {
        Some(p) => Some((p.0@, p.1@)),
        None => None,
    }
}

/// The plain contents of advertised keys.
pub open spec fn kem_pairs(kems: Seq<AdvertisedKem>) -> Seq<(Seq<u8>, Seq<u8>)> {
    Seq::new(kems.len(), |i: int| (kems[i].pk@, kems[i].sk@))
}

impl View for Session {
    type V = model::SessionState;

    open spec fn view(&self) -> model::SessionState {
        model::SessionState {
            session_id: self.session_id@,
            rk: self.rk@,
            dh_pub: self.dh_s.0@,
            dh_sec: self.dh_s.1@,
            dh_r: kdf::opt_key(self.dh_r),
            ck_s: kdf::opt_key(self.ck_s),
            ck_r: kdf::opt_key(self.ck_r),
            n_s: self.n_s,
            n_r: self.n_r,
            pn: self.pn,
            kem_advertised: kem_pairs(self.kem_advertised@),
            kem_peer: kdf::opt_bytes(self.kem_peer),
            advertise_kem_next: self.advertise_kem_next,
            skipped: self.skipped@,
            initialized: self.initialized,
        }
    }
}

/// The plain form of a session is its fields, the advertised keys each in its place.
pub proof fn session_is_faithful(s: Session)
    ensures
        s@.session_id == s.session_id@,
        s@.rk == s.rk@,
        s@.dh_pub == s.dh_s.0@,
        s@.dh_sec == s.dh_s.1@,
        s.dh_r matches Some(k) ==> s@.dh_r == Some(k@),
        s.dh_r is None ==> s@.dh_r is None,
        s.ck_s matches Some(k) ==> s@.ck_s == Some(k@),
        s.ck_s is None ==> s@.ck_s is None,
        s.ck_r matches Some(k) ==> s@.ck_r == Some(k@),
        s.ck_r is None ==> s@.ck_r is None,
        s@.n_s == s.n_s,
        s@.n_r == s.n_r,
        s@.pn == s.pn,
        s@.kem_advertised.len() == s.kem_advertised@.len(),
        forall|i: int|
            0 <= i < s.kem_advertised@.len() ==> #[trigger] s@.kem_advertised[i] == (
                s.kem_advertised@[i].pk@,
                s.kem_advertised@[i].sk@,
            ),
        s.kem_peer matches Some(k) ==> s@.kem_peer == Some(k@),
        s.kem_peer is None ==> s@.kem_peer is None,
        s@.advertise_kem_next == s.advertise_kem_next,
        s@.initialized == s.initialized,
        s@.skipped == s.skipped@,
{
}

/// The plain form of what chance contributes is its parts.
pub proof fn fresh_keys_are_faithful(f: FreshKeys)
    ensures
        f.dh matches Some(p) ==> f@.dh == (p.0@, p.1@),
        f.kem matches Some(p) ==> f@.kem == (p.0@, p.1@),
        f.encaps matches Some(p) ==> f@.encaps == (p.0@, p.1@),
{
}

/// The plain form of a pair that may be absent is the pair, whatever its parts are.
pub proof fn pair_is_faithful(o: Option<(Vec<u8>, Vec<u8>)>)
    ensures
        o is None <==> opt_pair(o) is None,
        o matches Some(p) ==> opt_pair(o) == Some((p.0@, p.1@)),
{
}

impl Session {
    /// Starts the initiator's side. The initiator knows the responder's signed prekey and derives
    /// the first sending chain at once; the responder derives the same chain on first decrypt. The
    /// initial KEM pair is advertised in the first message, and its secret kept for the first reply.
    pub fn start_alice(start: SessionStart) -> (r: Session)
        requires
            start.peer_dh is Some,
        ensures
            r@ == model::started_alice(
                start.root@,
                start.session_id@,
                start.our_dh.0@,
                start.our_dh.1@,
                start.peer_dh->Some_0@,
                opt_pair(start.our_kem),
            ),
            forall|peer: Seq<u8>|
                peer.len() == 32 && start.peer_dh->Some_0@ == #[trigger] crypto::x25519_public(peer)
                    ==> crypto::x25519_dh(start.our_dh.1@, start.peer_dh->Some_0@)
                    == crypto::x25519_dh(peer, crypto::x25519_public(start.our_dh.1@)),
    {
        let ghost want = model::started_alice(
            start.root@,
            start.session_id@,
            start.our_dh.0@,
            start.our_dh.1@,
            start.peer_dh->Some_0@,
            opt_pair(start.our_kem),
        );
        let peer = start.peer_dh.unwrap();
        let dh = x25519_shared(&start.our_dh.1, &peer).unwrap();
        let (rk, ck) = root_step(&start.root, &dh);
        let mut kem_advertised: Vec<AdvertisedKem> = Vec::new();
        if let Some((pk, sk)) = start.our_kem {
            kem_advertised.push(AdvertisedKem { pk, sk });
        }
        let sess = Session {
            session_id: start.session_id,
            rk,
            dh_s: start.our_dh,
            dh_r: Some(peer),
            ck_s: Some(ck),
            ck_r: None,
            n_s: 0,
            n_r: 0,
            pn: 0,
            kem_advertised,
            kem_peer: None,
            skipped: SkippedKeys::new(),
            advertise_kem_next: true,
            initialized: true,
        };
        assert(sess@.kem_advertised =~= want.kem_advertised);
        sess
    }

    /// Starts the responder's side. No chain can be derived before the first message shows the
    /// initiator's ephemeral key; sending before it is impossible. One KEM key is made at once.
    pub fn start_bob(start: SessionStart) -> (r: Session)
        ensures
            r@.kem_advertised.len() == 1,
            kdf::is_kem_pair(r@.kem_advertised[0].0, r@.kem_advertised[0].1),
            r@ == model::started_bob(
                start.root@,
                start.session_id@,
                start.our_dh.0@,
                start.our_dh.1@,
                r@.kem_advertised[0],
            ),
    {
        let (pk, sk) = kem_keypair();
        let mut kem_advertised: Vec<AdvertisedKem> = Vec::new();
        kem_advertised.push(AdvertisedKem { pk, sk });
        let sess = Session {
            session_id: start.session_id,
            rk: start.root,
            dh_s: start.our_dh,
            dh_r: None,
            ck_s: None,
            ck_r: None,
            n_s: 0,
            n_r: 0,
            pn: 0,
            kem_advertised,
            kem_peer: None,
            skipped: SkippedKeys::new(),
            advertise_kem_next: true,
            initialized: false,
        };
        assert(sess@.kem_advertised =~= seq![sess@.kem_advertised[0]]);
        sess
    }

    /// Derives the receiving chain of the peer's first message from the key in its header, as the
    /// initiator derived it.
    pub fn derive_initial_receive_chain(&mut self, peer_dh: [u8; 32]) -> (r: Result<(), DecryptError>)
        ensures
            r is Ok,
            final(self)@ == model::met(old(self)@, peer_dh@),
    {
        let dh = x25519_shared(&self.dh_s.1, &peer_dh).unwrap();
        let (rk, ck_r) = root_step(&self.rk, &dh);
        self.rk = rk;
        self.ck_r = Some(ck_r);
        self.n_r = 0;
        self.dh_r = Some(peer_dh);
        self.initialized = true;
        Ok(())
    }

    /// Opens a sending chain with a fresh ratchet key pair, if none is open and the peer's key is
    /// known.
    fn open_send_chain(&mut self, fresh: Option<([u8; 32], [u8; 32])>)
        requires
            model::opens_chain(old(self)@) ==> fresh is Some,
        ensures
            fresh matches Some(p) ==> final(self)@ == model::opened(old(self)@, (p.0@, p.1@)),
            fresh is None ==> final(self)@ == old(self)@,
            fresh matches Some(p) ==> forall|peer: Seq<u8>|
                model::opens_chain(old(self)@) && peer.len() == 32 && old(self)@.dh_r == Some(
                    #[trigger] crypto::x25519_public(peer),
                ) ==> crypto::x25519_dh(p.1@, old(self)@.dh_r->Some_0) == crypto::x25519_dh(
                    peer,
                    crypto::x25519_public(p.1@),
                ),
    {
        if self.ck_s.is_some() {
            return;
        }
        let peer_dh = match self.dh_r {
            Some(pk) => pk,
            None => {
                return;
            },
        };
        let pair = fresh.unwrap();
        self.dh_s = pair;
        self.advertise_kem_next = true;
        let dh = x25519_shared(&self.dh_s.1, &peer_dh).unwrap();
        let (rk, ck_s) = root_step(&self.rk, &dh);
        self.rk = rk;
        self.ck_s = Some(ck_s);
        self.n_s = 0;
    }

    /// Whether the next message advertises the pair that the session was started with.
    fn has_unsent_pair(&self) -> (r: bool)
        ensures
            r == model::has_unsent_pair(self@),
    {
        self.ck_s.is_some() && self.advertise_kem_next && self.kem_advertised.len() > 0
            && self.kem_advertised[0].pk.len() == KEM_PK_LEN
    }

    /// Encrypts `plaintext` with given fresh parts.
    pub fn encrypt_with(&mut self, fresh: FreshKeys, plaintext: &[u8]) -> (r: Result<Vec<u8>, DecryptError>)
        requires
            old(self)@.ck_s is Some ==> old(self)@.n_s < u32::MAX,
            model::opens_chain(old(self)@) ==> fresh.dh is Some,
            model::draws_kem(old(self)@) ==> fresh.kem is Some,
            (old(self)@.ck_s is Some || old(self)@.dh_r is Some) && old(self)@.kem_peer is Some
                && old(self)@.kem_peer->Some_0.len() == KEM_PK_LEN ==> fresh.encaps is Some,
        ensures
            match r {
                Ok(p) => {
                    &&& model::sent(old(self)@, fresh@, plaintext@) == (
                        final(self)@,
                        Ok::<Seq<u8>, DecryptError>(p@),
                    )
                    &&& laws::reopens(old(self)@, fresh@, plaintext@)
                    &&& laws::agrees(old(self)@, fresh@)
                },
                Err(e) => model::sent(old(self)@, fresh@, plaintext@) == (
                    final(self)@,
                    Err::<Seq<u8>, DecryptError>(e),
                ),
            },
    {
        let ghost s0 = self@;
        let ghost f = fresh@;
        let unsent = self.has_unsent_pair();
        self.open_send_chain(fresh.dh);
        let ghost o = self@;
        assert(o == model::opened(s0, f.dh));
        let ck = match self.ck_s {
            Some(ck) => ck,
            None => {
                return Err(DecryptError::NoState);
            },
        };
        let (mk, next) = chain_step(&ck);
        self.ck_s = Some(next);
        let n = self.n_s;
        self.n_s = self.n_s + 1;
        let pn = self.pn;

        let mut kem_pk: Option<Vec<u8>> = None;
        if self.advertise_kem_next {
            if unsent {
                let pk = vstd::slice::slice_to_vec(&self.kem_advertised[0].pk);
                kem_pk = Some(pk);
            } else {
                let (pk, sk) = fresh.kem.unwrap();
                let copy = bytes::slice_of(&pk, 0, pk.len());
                assert(copy@ =~= pk@);
                self.kem_advertised.insert(0, AdvertisedKem { pk: copy, sk });
                self.kem_advertised.truncate(2);
                kem_pk = Some(pk);
                assert(self@.kem_advertised =~= model::advertised(o.kem_advertised, f.kem));
            }
            self.advertise_kem_next = false;
        }
        assert(self@ =~= model::stepped(s0, f));

        let mut kem_ct: Option<Vec<u8>> = None;
        let mut kem_ss: Option<Vec<u8>> = None;
        if let Some(peer_pk) = &self.kem_peer {
            if peer_pk.len() != KEM_PK_LEN {
                return Err(DecryptError::Malformed);
            }
            let (ct, ss) = fresh.encaps.unwrap();
            kem_ct = Some(ct);
            kem_ss = Some(ss);
        }
        let header = build_header(pn, n, &self.dh_s.0, &kem_pk, &kem_ct);
        assert(header@ == model::outgoing_header(s0, f));
        let final_mk = mix_kem(&mk, &kem_ss);
        let ct = aead_encrypt(&self.session_id, &header, &final_mk, plaintext)?;
        let mut out = header;
        out.extend_from_slice(&ct);
        assert(out@ =~= model::outgoing_header(s0, f) + ct@);
        Ok(out)
    }

    /// Encrypts `plaintext` and returns a package for the wire. The fresh parts are drawn at
    /// random; whatever they are, the package and the new state are those of a send with them.
    pub fn encrypt(&mut self, plaintext: &[u8]) -> (r: Result<Vec<u8>, DecryptError>)
        requires
            old(self)@.ck_s is Some ==> old(self)@.n_s < u32::MAX,
        ensures
            match r {
                Ok(p) => exists|f: model::Fresh|
                    {
                        &&& model::can_be_drawn(old(self)@, f)
                        &&& #[trigger] model::sent(old(self)@, f, plaintext@) == (
                            final(self)@,
                            Ok::<Seq<u8>, DecryptError>(p@),
                        )
                        &&& laws::reopens(old(self)@, f, plaintext@)
                        &&& laws::agrees(old(self)@, f)
                    },
                Err(e) => exists|f: model::Fresh|
                    {
                        &&& model::can_be_drawn(old(self)@, f)
                        &&& #[trigger] model::sent(old(self)@, f, plaintext@) == (
                            final(self)@,
                            Err::<Seq<u8>, DecryptError>(e),
                        )
                    },
            },
    {
        let opening = self.ck_s.is_none() && self.dh_r.is_some();
        let sending = opening || self.ck_s.is_some();
        let dh = if opening {
            Some(x25519_keypair())
        } else {
            None
        };
        let kem = if opening || (sending && self.advertise_kem_next && !self.has_unsent_pair()) {
            Some(kem_keypair())
        } else {
            None
        };
        let mut encaps: Option<(Vec<u8>, Vec<u8>)> = None;
        if sending {
            if let Some(pk) = &self.kem_peer {
                if let Ok(pair) = kem_encapsulate(pk) {
                    encaps = Some(pair);
                }
            }
        }
        let fresh = FreshKeys { dh, kem, encaps };
        assert(model::can_be_drawn(self@, fresh@));
        self.encrypt_with(fresh, plaintext)
    }

    /// Whether the receiving chain may jump to message number `until`.
    fn can_skip_to(&self, until: u32) -> (r: bool)
        ensures
            r == model::gap_fits(self@, until),
    {
        if until <= self.n_r {
            return true;
        }
        if until - self.n_r > MAX_SKIP {
            return false;
        }
        self.skipped.len() <= MAX_SKIPPED_TOTAL - (until - self.n_r) as usize
    }

    /// Retains the keys of the messages of the receiving chain up to number `until`, and moves the
    /// chain there. Without a receiving chain nothing happens.
    fn retain_keys(&mut self, until: u32)
        ensures
            final(self)@ == model::jumped(old(self)@, until),
    {
        let dh = match self.dh_r {
            Some(d) => d,
            None => {
                return;
            },
        };
        let ck = match self.ck_r {
            Some(c) => c,
            None => {
                return;
            },
        };
        if until > self.n_r {
            let next = store_keys(&mut self.skipped, dh, ck, self.n_r, until);
            self.ck_r = Some(next);
            self.n_r = until;
        }
    }

    /// Derives and stores the message keys of `[n_r, until)` of the current receiving chain, so
    /// that messages which arrive late still decrypt. A gap wider than [`MAX_SKIP`], or one that
    /// would push the store past [`MAX_SKIPPED_TOTAL`], is refused before anything changes.
    pub fn skip_to(&mut self, until: u32) -> (r: Result<(), DecryptError>)
        ensures
            match r {
                Ok(_) => model::gap_fits(old(self)@, until) && final(self)@
                    == model::jumped(old(self)@, until),
                Err(e) => {
                    &&& !model::gap_fits(old(self)@, until)
                    &&& e == DecryptError::OutOfOrder
                    &&& final(self)@ == old(self)@
                },
            },
    {
        if !self.can_skip_to(until) {
            return Err(DecryptError::OutOfOrder);
        }
        self.retain_keys(until);
        Ok(())
    }

    /// Full ratchet step, when the peer opens a new sending chain: a new receiving chain from the
    /// peer's new key, and our sending chain closed. The next send opens a new one.
    fn ratchet(&mut self, peer_dh: [u8; 32])
        ensures
            final(self)@ == model::ratcheted(old(self)@, peer_dh@),
    {
        let dh = x25519_shared(&self.dh_s.1, &peer_dh).unwrap();
        let (rk, ck_r) = root_step(&self.rk, &dh);
        self.rk = rk;
        self.ck_r = Some(ck_r);
        self.n_r = 0;
        self.dh_r = Some(peer_dh);
        self.pn = self.n_s;
        self.ck_s = None;
    }

    /// The KEM secrets to try on a message.
    fn kem_candidates(&self, kem_ct: &Option<Vec<u8>>) -> (r: Vec<Option<Vec<u8>>>)
        ensures
            plain(r@) == model::candidates(self@.kem_advertised, kdf::opt_bytes(*kem_ct)),
    {
        let mut found: Vec<Option<Vec<u8>>> = Vec::new();
        if let Some(ct) = kem_ct {
            let mut i: usize = 0;
            let ghost kems = kem_pairs(self.kem_advertised@);
            assert(plain(found@) =~= Seq::<Option<Seq<u8>>>::empty());
            while i < self.kem_advertised.len()
                invariant
                    i <= self.kem_advertised@.len(),
                    kems == kem_pairs(self.kem_advertised@),
                    plain(found@) == model::decapsulated(kems.take(i as int), ct@),
                decreases self.kem_advertised@.len() - i,
            {
                let ghost before = found@;
                proof {
                    assert(kems.take(i + 1).drop_last() =~= kems.take(i as int));
                    assert(kems.take(i + 1).last() == kems[i as int]);
                }
                if let Ok(ss) = kem_decapsulate(&self.kem_advertised[i].sk, ct) {
                    found.push(Some(ss));
                    assert(plain(found@) =~= plain(before).push(Some(ss@)));
                }
                i = i + 1;
            }
            assert(kems.take(i as int) =~= kems);
        }
        if found.len() == 0 {
            found.push(None);
            assert(plain(found@) =~= seq![None::<Seq<u8>>]);
        }
        found
    }

    /// Tries to open a ciphertext with a message key and the KEM secrets our advertised keys give,
    /// newest key first.
    fn open_aead(&self, header: &[u8], ct: &[u8], kem_ct: &Option<Vec<u8>>, mk: &[u8; 32]) -> (r: Result<
        Vec<u8>,
        DecryptError,
    >)
        ensures
            ({
                let opened = model::first_open(
                    self@.session_id,
                    header@,
                    ct@,
                    mk@,
                    model::candidates(
                        self@.kem_advertised,
                        kdf::opt_bytes(*kem_ct),
                    ),
                );
                match r {
                    Ok(m) => opened == Some(m@),
                    Err(e) => opened is None && e == DecryptError::AuthFailed,
                }
            }),
    {
        let found = self.kem_candidates(kem_ct);
        let ghost all = plain(found@);
        let mut i: usize = 0;
        assert(all.skip(0) =~= all);
        while i < found.len()
            invariant
                i <= found@.len(),
                all == plain(found@),
                all == model::candidates(
                    self@.kem_advertised,
                    kdf::opt_bytes(*kem_ct),
                ),
                model::first_open(self@.session_id, header@, ct@, mk@, all)
                    == model::first_open(self@.session_id, header@, ct@, mk@, all.skip(i as int)),
            decreases found@.len() - i,
        {
            assert(all.skip(i as int)[0] == kdf::opt_bytes(found@[i as int]));
            assert(all.skip(i as int).drop_first() =~= all.skip(i + 1));
            let final_mk = mix_kem(mk, &found[i]);
            if let Ok(m) = aead_decrypt(&self.session_id, header, &final_mk, ct) {
                return Ok(m);
            }
            i = i + 1;
        }
        Err(DecryptError::AuthFailed)
    }

    /// Brings the receiving chain to the message with the given header, ratcheting where the peer
    /// opened a new chain and retaining the keys of messages that are jumped over. A message that
    /// lies behind, or too far ahead, is refused before the chain moves.
    fn align(&mut self, dh_pub: [u8; 32], pn: u32, n: u32) -> (r: Result<(), DecryptError>)
        ensures
            forall|h: wire::HeaderView|
                h.dh_pub == dh_pub@ && h.pn == pn && h.n == n ==> ({
                    let a = #[trigger] model::aligned(old(self)@, h);
                    &&& final(self)@ == a.0
                    &&& match r {
                        Ok(_) => a.1 is None,
                        Err(e) => a.1 == Some(e),
                    }
                }),
    {
        if !self.initialized {
            self.derive_initial_receive_chain(dh_pub)?;
        }
        let ghost s1 = self@;
        let same_chain = match &self.dh_r {
            Some(cur) => bytes::same(cur, &dh_pub),
            None => false,
        };
        assert(same_chain <==> s1.dh_r == Some(dh_pub@));
        if !same_chain {
            if pn < self.n_r || !self.can_skip_to(pn) {
                return Err(DecryptError::OutOfOrder);
            }
            if n > 0 {
                let tail: u32 = if self.dh_r.is_some() && self.ck_r.is_some() {
                    pn - self.n_r
                } else {
                    0
                };
                assert(tail as nat == model::jump(s1, pn));
                if n > MAX_SKIP || self.skipped.len() > MAX_SKIPPED_TOTAL || tail as usize + n as usize
                    > MAX_SKIPPED_TOTAL - self.skipped.len() {
                    return Err(DecryptError::OutOfOrder);
                }
            }
            self.retain_keys(pn);
            self.ratchet(dh_pub);
            self.retain_keys(n);
            return Ok(());
        }
        if n < self.n_r {
            return Err(DecryptError::OutOfOrder);
        }
        self.skip_to(n)
    }

    /// Brings the receiving chain to a package, takes the message's key from it and opens the
    /// package.
    fn advance(&mut self, package: &[u8], h: Header) -> (r: Result<Vec<u8>, DecryptError>)
        requires
            wire::header_of(package@) == Some(h@),
            !old(self)@.skipped.contains_key((h@.dh_pub, h@.n)),
            !model::exhausts_chain(old(self)@, package@),
        ensures
            match r {
                Ok(m) => model::advanced(old(self)@, package@, h@) == (final(self)@, Ok::<Seq<u8>, DecryptError>(m@)),
                Err(e) => model::advanced(old(self)@, package@, h@) == (final(self)@, Err::<Seq<u8>, DecryptError>(e)),
            },
    {
        let ghost s0 = self@;
        let header = vstd::slice::slice_subrange(package, 0, h.len);
        let ct = vstd::slice::slice_subrange(package, h.len, package.len());
        self.align(h.dh_pub, h.pn, h.n)?;
        let ghost a = self@;
        assert(a == model::aligned(s0, h@).0);
        let ck = match self.ck_r {
            Some(ck) => ck,
            None => {
                return Err(DecryptError::NoState);
            },
        };
        let (mk, next) = chain_step(&ck);
        self.ck_r = Some(next);
        assert(a.n_r < u32::MAX);
        self.n_r = self.n_r + 1;
        let m = self.open_aead(header, ct, &h.kem_ct, &mk)?;
        if let Some(kem_pk) = h.kem_pk {
            self.kem_peer = Some(kem_pk);
        }
        Ok(m)
    }

    /// Decrypts a package. Ratchets state forward on new peer ratchet keys.
    ///
    /// A message whose number is the expected next of its chain decrypts in place, after any gap
    /// is skipped over and its keys retained; a message whose key is in the store decrypts from the
    /// store, which forgets the key only on success; anything else is out of order. A new chain is
    /// tried on a copy of the session, which takes the session's place once the message opens: a
    /// message of a chain that is past cannot pass for the start of a new one.
    pub fn decrypt(&mut self, package: &[u8]) -> (r: Result<Vec<u8>, DecryptError>)
        requires
            !model::exhausts_chain(old(self)@, package@),
        ensures
            match r {
                Ok(m) => model::received(old(self)@, package@) == (
                    final(self)@,
                    Ok::<Seq<u8>, DecryptError>(m@),
                ),
                Err(e) => model::received(old(self)@, package@) == (
                    final(self)@,
                    Err::<Seq<u8>, DecryptError>(e),
                ),
            },
    {
        let h = parse_header(package)?;
        if let Some(mk) = self.skipped.get(&h.dh_pub, h.n) {
            let header = vstd::slice::slice_subrange(package, 0, h.len);
            let ct = vstd::slice::slice_subrange(package, h.len, package.len());
            let m = self.open_aead(header, ct, &h.kem_ct, &mk)?;
            self.skipped.remove(&h.dh_pub, h.n);
            return Ok(m);
        }
        let same_chain = match &self.dh_r {
            Some(cur) => bytes::same(cur, &h.dh_pub),
            None => false,
        };
        if self.initialized && !same_chain {
            let mut next = self.clone();
            return match next.advance(package, h) {
                Ok(m) => {
                    *self = next;
                    Ok(m)
                },
                Err(_) => Err(DecryptError::OutOfOrder),
            };
        }
        self.advance(package, h)
    }
}

/// The plain contents of KEM candidates.
spec fn plain(v: Seq<Option<Vec<u8>>>) -> Seq<Option<Seq<u8>>> {
    Seq::new(v.len(), |i: int| kdf::opt_bytes(v[i]))
}

/// Stores the keys of the messages `[from, until)` of the chain of `dh` whose next chain key is
/// `ck`, and returns the chain key at `until`.
fn store_keys(store: &mut SkippedKeys, dh: [u8; 32], ck: [u8; 32], from: u32, until: u32) -> (r: [u8; 32])
    requires
        from <= until,
    ensures
        final(store)@ == model::retained(old(store)@, dh@, ck@, from, (until - from) as nat),
        r@ == kdf::chain_after(ck@, (until - from) as nat),
{
    let mut ck_now = ck;
    let mut n: u32 = from;
    let ghost m0 = store@;
    while n < until
        invariant
            from <= n <= until,
            store@ == model::retained(m0, dh@, ck@, from, (n - from) as nat),
            ck_now@ == kdf::chain_after(ck@, (n - from) as nat),
        decreases until - n,
    {
        let (mk, next) = chain_step(&ck_now);
        store.insert(dh, n, mk);
        ck_now = next;
        n = n + 1;
    }
    ck_now
}

} // verus!
