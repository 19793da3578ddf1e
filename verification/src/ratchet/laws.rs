//! Laws of the ratchet: what a message does on its way from one side to the other.
//!
//! The sender is `s`, the receiver `b`. A sender whose chain is to be opened with the message is
//! taken with the chain open: `model::opened(s, f.dh)`.

use crate::crypto;
use crate::ratchet::model::{Fresh, SessionState};
use crate::ratchet::{kdf, model, persist, store, wire};
use crate::ratchet::{DecryptError, KEM_CT_LEN, KEM_PK_LEN, KEM_SK_LEN, MAX_SKIPPED_TOTAL};
use vstd::prelude::*;

verus! {

/// Whether the ciphertext of a sent message opens to its plaintext again under the message's own
/// key and header, and is as long as the plaintext and a tag.
pub open spec fn reopens(s: SessionState, f: Fresh, plaintext: Seq<u8>) -> bool {
    let header = model::outgoing_header(s, f);
    let mk = model::outgoing_key(s, f);
    let ct = kdf::sealed(s.session_id, header, mk, plaintext);
    kdf::unsealed(s.session_id, header, mk, ct) == Some(plaintext) && ct.len() == plaintext.len() + 16
}

/// Whether the peer, where it holds the secret half of the ratchet key that a chain is opened
/// against, computes the chain's Diffie-Hellman secret from the fresh public key.
pub open spec fn agrees(s: SessionState, f: Fresh) -> bool {
    model::opens_chain(s) ==> forall|peer: Seq<u8>|
        peer.len() == 32 && s.dh_r == Some(#[trigger] crypto::x25519_public(peer)) ==> crypto::x25519_dh(
            f.dh.1,
            s.dh_r->Some_0,
        ) == crypto::x25519_dh(peer, crypto::x25519_public(f.dh.1))
}

// ── Bounds ──────────────────────────────────────────────────────────

/// The store never outgrows its cap: receiving keeps it within [`MAX_SKIPPED_TOTAL`] keys.
pub proof fn store_stays_bounded(s: SessionState, pkg: Seq<u8>)
    requires
        s.skipped.dom().finite(),
        s.skipped.len() <= MAX_SKIPPED_TOTAL,
    ensures
        model::received(s, pkg).0.skipped.dom().finite(),
        model::received(s, pkg).0.skipped.len() <= MAX_SKIPPED_TOTAL,
{
    if let Some(h) = wire::header_of(pkg) {
        if !s.skipped.contains_key((h.dh_pub, h.n)) {
            let s1 = if s.initialized {
                s
            } else {
                model::met(s, h.dh_pub)
            };
            if s1.dh_r != Some(h.dh_pub) {
                if model::turn_fits(s1, h.pn, h.n) {
                    let s2 = model::jumped(s1, h.pn);
                    jumped_store(s1, h.pn);
                    jumped_store(model::ratcheted(s2, h.dh_pub), h.n);
                }
            } else {
                jumped_store(s1, h.n);
            }
        }
    }
}

/// Sending keeps the advertised KEM keys at two or fewer; receiving leaves them alone.
pub proof fn few_keys_stay_advertised(s: SessionState, f: Fresh, plaintext: Seq<u8>, pkg: Seq<u8>)
    requires
        s.kem_advertised.len() <= 2,
    ensures
        model::sent(s, f, plaintext).0.kem_advertised.len() <= 2,
        model::received(s, pkg).0.kem_advertised == s.kem_advertised,
{
}

proof fn retained_store(m: Map<(Seq<u8>, u32), Seq<u8>>, dh: Seq<u8>, ck: Seq<u8>, from: u32, count: nat)
    requires
        m.dom().finite(),
    ensures
        model::retained(m, dh, ck, from, count).dom().finite(),
        model::retained(m, dh, ck, from, count).len() <= m.len() + count,
    decreases count,
{
    if count > 0 {
        retained_store(m, dh, ck, from, (count - 1) as nat);
    }
}

proof fn jumped_store(s: SessionState, until: u32)
    requires
        s.skipped.dom().finite(),
    ensures
        model::jumped(s, until).skipped.dom().finite(),
        model::jumped(s, until).skipped.len() <= s.skipped.len() + model::jump(s, until),
{
    if model::jump(s, until) > 0 {
        retained_store(s.skipped, s.dh_r->Some_0, s.ck_r->Some_0, s.n_r, model::jump(s, until));
    }
}

// ── Refusals ────────────────────────────────────────────────────────

/// A message that is refused as out of order leaves an initialized session untouched, and so does
/// a package that is no message, whatever the session.
pub proof fn refusal_changes_nothing(s: SessionState, pkg: Seq<u8>)
    ensures
        model::received(s, pkg).1 == Err::<Seq<u8>, DecryptError>(DecryptError::OutOfOrder) && s.initialized ==> model::received(
            s,
            pkg,
        ).0 == s,
        model::received(s, pkg).1 == Err::<Seq<u8>, DecryptError>(DecryptError::Malformed) ==> model::received(s, pkg).0 == s,
{
}

/// A message whose key is in the store never touches ratchet state: a failed open keeps the whole
/// session, a successful one forgets exactly the message's key.
pub proof fn store_path_keeps_ratchet(s: SessionState, pkg: Seq<u8>)
    requires
        wire::header_of(pkg) is Some,
        s.skipped.contains_key((wire::header_of(pkg)->Some_0.dh_pub, wire::header_of(pkg)->Some_0.n)),
    ensures
        model::received(s, pkg).1 is Err ==> model::received(s, pkg).0 == s && model::received(s, pkg).1 == Err::<Seq<u8>, DecryptError>(
            DecryptError::AuthFailed,
        ),
        model::received(s, pkg).1 is Ok ==> model::received(s, pkg).0 == (SessionState {
            skipped: s.skipped.remove((wire::header_of(pkg)->Some_0.dh_pub, wire::header_of(pkg)->Some_0.n)),
            ..s
        }),
{
}

/// Whether the message of a header is used up: its key is not in the store, and its chain is the
/// current one and past it, or is not the current one.
pub open spec fn consumed(t: SessionState, h: wire::HeaderView) -> bool {
    &&& t.initialized
    &&& !t.skipped.contains_key((h.dh_pub, h.n))
    &&& t.dh_r == Some(h.dh_pub) ==> h.n < t.n_r
}

/// A message that is used up is refused when it comes again, at any time, and the session stays as
/// it is. A message of a chain that is not the current one must not open as the start of a new
/// chain: that it does not is what authentication is for.
pub proof fn replay_is_refused(t: SessionState, pkg: Seq<u8>)
    requires
        wire::header_of(pkg) is Some,
        consumed(t, wire::header_of(pkg)->Some_0),
        model::turns(t, wire::header_of(pkg)->Some_0) ==> model::advanced(t, pkg, wire::header_of(pkg)->Some_0).1 is Err,
    ensures
        model::received(t, pkg) == (t, Err::<Seq<u8>, DecryptError>(DecryptError::OutOfOrder)),
{
}

/// A message of another chain than the current one that does not open leaves an initialized session
/// untouched, and is out of order.
pub proof fn failed_turn_changes_nothing(t: SessionState, pkg: Seq<u8>)
    requires
        wire::header_of(pkg) is Some,
        model::turns(t, wire::header_of(pkg)->Some_0),
        !t.skipped.contains_key((wire::header_of(pkg)->Some_0.dh_pub, wire::header_of(pkg)->Some_0.n)),
        model::received(t, pkg).1 is Err,
    ensures
        model::received(t, pkg) == (t, Err::<Seq<u8>, DecryptError>(DecryptError::OutOfOrder)),
{
}

/// Whether every retained key is of a message that the session is past: of another chain than the
/// current one, or of an earlier number. So it is in a session that has just started.
pub open spec fn keys_lie_behind(s: SessionState) -> bool {
    forall|key: (Seq<u8>, u32)| #[trigger]
        s.skipped.contains_key(key) ==> s.initialized && (s.dh_r == Some(key.0) ==> key.1 < s.n_r)
}

/// A message that was decrypted is used up.
pub proof fn decrypted_is_consumed(s: SessionState, pkg: Seq<u8>)
    requires
        keys_lie_behind(s),
        !model::exhausts_chain(s, pkg),
        model::received(s, pkg).1 is Ok,
    ensures
        wire::header_of(pkg) is Some,
        consumed(model::received(s, pkg).0, wire::header_of(pkg)->Some_0),
{
    let h = wire::header_of(pkg)->Some_0;
    let key = (h.dh_pub, h.n);
    if !s.skipped.contains_key(key) {
        aligned_keys(s, h, key);
        assert(model::aligned(s, h).0.n_r == h.n);
    }
}

/// Which keys aligning to a message adds to the store: keys of a chain that is left, from the number
/// that was next on, and keys of the message's chain, up to the message.
proof fn aligned_keys(s: SessionState, h: wire::HeaderView, key: (Seq<u8>, u32))
    requires
        model::aligned(s, h).1 is None,
    ensures
        model::aligned(s, h).0.skipped.contains_key(key) ==> s.skipped.contains_key(key) || (s.dh_r == Some(key.0)
            && key.0 != h.dh_pub && key.1 >= s.n_r) || (key.0 == h.dh_pub && key.1 < h.n && (s.initialized && s.dh_r
            == Some(h.dh_pub) ==> key.1 >= s.n_r)),
        s.initialized && s.dh_r == Some(h.dh_pub) ==> h.n >= s.n_r,
        model::aligned(s, h).0.dh_r == Some(h.dh_pub),
        model::aligned(s, h).0.initialized,
        model::aligned(s, h).0.ck_r is Some ==> model::aligned(s, h).0.n_r == h.n,
{
    let s1 = if s.initialized {
        s
    } else {
        model::met(s, h.dh_pub)
    };
    if s1.dh_r != Some(h.dh_pub) {
        let s2 = model::jumped(s1, h.pn);
        if model::jump(s1, h.pn) > 0 {
            retained_keys(s1.skipped, s1.dh_r->Some_0, s1.ck_r->Some_0, s1.n_r, model::jump(s1, h.pn), key);
        }
        let s3 = model::ratcheted(s2, h.dh_pub);
        if model::jump(s3, h.n) > 0 {
            retained_keys(s3.skipped, h.dh_pub, s3.ck_r->Some_0, 0, model::jump(s3, h.n), key);
        }
    } else if model::jump(s1, h.n) > 0 {
        retained_keys(s1.skipped, h.dh_pub, s1.ck_r->Some_0, s1.n_r, model::jump(s1, h.n), key);
    }
}

/// Which keys a jump retains.
proof fn retained_keys(
    m: Map<(Seq<u8>, u32), Seq<u8>>,
    dh: Seq<u8>,
    ck: Seq<u8>,
    from: u32,
    count: nat,
    key: (Seq<u8>, u32),
)
    requires
        from + count <= u32::MAX,
    ensures
        model::retained(m, dh, ck, from, count).contains_key(key) <==> m.contains_key(key) || (key.0 == dh && from <= key.1
            < from + count),
        key.0 == dh && from <= key.1 < from + count ==> model::retained(m, dh, ck, from, count)[key] == kdf::message_key(
            kdf::chain_after(ck, (key.1 - from) as nat),
        ),
        m.contains_key(key) && !(key.0 == dh && from <= key.1 < from + count) ==> model::retained(m, dh, ck, from, count)[key]
            == m[key],
    decreases count,
{
    if count > 0 {
        retained_keys(m, dh, ck, from, (count - 1) as nat, key);
    }
}

// ── Delivery ────────────────────────────────────────────────────────

/// Whether `b` receives on the chain that `s` sends on, at most behind by messages that are still
/// under way.
pub open spec fn follows(b: SessionState, s: SessionState) -> bool {
    &&& b.initialized
    &&& b.session_id == s.session_id
    &&& b.rk == s.rk
    &&& b.dh_r == Some(s.dh_pub)
    &&& b.ck_r is Some
    &&& b.n_r <= s.n_s
    &&& s.ck_s == Some(kdf::chain_after(b.ck_r->Some_0, (s.n_s - b.n_r) as nat))
}

/// The receiver once it has turned to the chain that `s` sends on.
pub open spec fn turned(b: SessionState, s: SessionState) -> SessionState {
    if !b.initialized {
        model::met(b, s.dh_pub)
    } else if b.dh_r == Some(s.dh_pub) {
        b
    } else {
        model::ratcheted(model::jumped(b, s.pn), s.dh_pub)
    }
}

/// Whether the receiver may jump to the next message of `s`: at most 1000 messages before it are
/// missing of its chain, at most 1000 of the chain that is left for it, and the store has room for
/// their keys, 2000 in all.
pub open spec fn within_reach(b: SessionState, s: SessionState) -> bool {
    if b.initialized && b.dh_r != Some(s.dh_pub) {
        &&& b.n_r <= s.pn <= b.n_r + 1000
        &&& s.n_s <= 1000
        &&& s.pn > b.n_r ==> b.skipped.len() + (s.pn - b.n_r) <= 2000
        &&& s.n_s > 0 ==> b.skipped.len() + (if b.dh_r is Some && b.ck_r is Some {
            s.pn - b.n_r
        } else {
            0
        }) + s.n_s <= 2000
    } else {
        let next = if b.initialized {
            b.n_r as int
        } else {
            0
        };
        s.n_s <= next || (s.n_s - next <= 1000 && b.skipped.len() + (s.n_s - next) <= 2000)
    }
}

/// Whether the KEM secret of a message reaches the receiver: one of its advertised keys gives it
/// back, and no newer key gives a secret under which the ciphertext opens as well.
pub open spec fn kem_reaches(b: SessionState, s: SessionState, f: Fresh, plaintext: Seq<u8>) -> bool {
    let o = model::opened(s, f.dh);
    let found = model::decapsulated(b.kem_advertised, f.encaps.0);
    let header = model::outgoing_header(s, f);
    let ct = kdf::sealed(s.session_id, header, model::outgoing_key(s, f), plaintext);
    o.kem_peer is Some ==> exists|i: int|
        {
            &&& 0 <= i < found.len()
            &&& #[trigger] found[i] == Some(f.encaps.1)
            &&& forall|j: int|
                0 <= j < i ==> kdf::unsealed(
                    s.session_id,
                    header,
                    kdf::mixed(kdf::message_key(o.ck_s->Some_0), #[trigger] found[j]),
                    ct,
                ) is None
        }
}

/// Whether `x` encapsulates, if it does, to the newest key that `y` has advertised, of which `y` has
/// the secret half.
pub open spec fn holds_newest(x: SessionState, y: SessionState) -> bool {
    x.kem_peer matches Some(pk) ==> {
        &&& y.kem_advertised.len() > 0
        &&& y.kem_advertised[0].0 == pk
        &&& kdf::is_kem_pair(pk, y.kem_advertised[0].1)
    }
}

/// Whether ML-KEM-1024 gives the KEM secret of a message back: every secret half of the key that it
/// was encapsulated to decapsulates it.
pub open spec fn decapsulates(s: SessionState, f: Fresh) -> bool {
    s.kem_peer matches Some(pk) ==> forall|sk: Seq<u8>|
        kdf::is_kem_pair(pk, sk) ==> #[trigger] crypto::ml_kem_decaps(sk, f.encaps.0) == f.encaps.1
}

/// The KEM secret of a message reaches a receiver whose newest key it was encapsulated to, unless
/// ML-KEM-1024 fails to decapsulate it.
pub proof fn newest_key_is_reached(b: SessionState, s: SessionState, f: Fresh, plaintext: Seq<u8>)
    requires
        model::can_be_drawn(s, f),
        model::sent(s, f, plaintext).1 is Ok,
        holds_newest(s, b),
        decapsulates(s, f),
    ensures
        kem_reaches(b, s, f, plaintext),
{
    if s.kem_peer is Some {
        newest_is_tried_first(b.kem_advertised, f.encaps.0);
        let found = model::decapsulated(b.kem_advertised, f.encaps.0);
        assert(found[0] == Some(f.encaps.1));
    }
}

proof fn newest_is_tried_first(kems: Seq<(Seq<u8>, Seq<u8>)>, kem_ct: Seq<u8>)
    requires
        kems.len() > 0,
        kems[0].1.len() == KEM_SK_LEN,
        kem_ct.len() == KEM_CT_LEN,
    ensures
        model::decapsulated(kems, kem_ct).len() > 0,
        model::decapsulated(kems, kem_ct)[0] == Some(crypto::ml_kem_decaps(kems[0].1, kem_ct)),
    decreases kems.len(),
{
    if kems.len() > 1 {
        newest_is_tried_first(kems.drop_last(), kem_ct);
    } else {
        assert(model::decapsulated(kems.drop_last(), kem_ct) =~= Seq::empty());
    }
}

/// A message's header says to its receiver what it was sent with.
pub proof fn package_reads(s: SessionState, f: Fresh, plaintext: Seq<u8>)
    requires
        model::can_be_drawn(s, f),
        s.dh_pub.len() == 32,
        model::sent(s, f, plaintext).1 is Ok,
        reopens(s, f, plaintext),
    ensures
        ({
            let o = model::opened(s, f.dh);
            let p = model::sent(s, f, plaintext).1->Ok_0;
            let ct = kdf::sealed(s.session_id, model::outgoing_header(s, f), model::outgoing_key(s, f), plaintext);
            &&& wire::header_of(p) is Some
            &&& wire::header_of(p)->Some_0.n == o.n_s
            &&& wire::header_of(p)->Some_0.pn == o.pn
            &&& wire::header_of(p)->Some_0.dh_pub == o.dh_pub
            &&& wire::header_of(p)->Some_0.kem_pk == model::advertisement(s, f)
            &&& wire::header_of(p)->Some_0.kem_pk is Some <==> o.advertise_kem_next
            &&& wire::header_of(p)->Some_0.kem_ct == (if o.kem_peer is Some {
                Some(f.encaps.0)
            } else {
                None
            })
            &&& p.subrange(0, wire::header_of(p)->Some_0.len as int) == model::outgoing_header(s, f)
            &&& p.subrange(wire::header_of(p)->Some_0.len as int, p.len() as int) == ct
            &&& ct.len() == plaintext.len() + 16
        }),
{
    let o = model::opened(s, f.dh);
    let kem_ct = if o.kem_peer is Some {
        Some(f.encaps.0)
    } else {
        None
    };
    let header = model::outgoing_header(s, f);
    let ct = kdf::sealed(s.session_id, header, model::outgoing_key(s, f), plaintext);
    wire::header_reads_back(o.pn, o.n_s, o.dh_pub, model::advertisement(s, f), kem_ct, ct);
    let p = model::sent(s, f, plaintext).1->Ok_0;
    assert(p.subrange(0, header.len() as int) =~= header);
    assert(p.subrange(header.len() as int, p.len() as int) =~= ct);
}

/// A list of candidates opens a ciphertext to what its first fitting candidate opens it to.
proof fn first_fitting_opens(
    session_id: Seq<u8>,
    header: Seq<u8>,
    ct: Seq<u8>,
    mk: Seq<u8>,
    found: Seq<Option<Seq<u8>>>,
    i: int,
)
    requires
        0 <= i < found.len(),
        kdf::unsealed(session_id, header, kdf::mixed(mk, found[i]), ct) is Some,
        forall|j: int| 0 <= j < i ==> kdf::unsealed(session_id, header, kdf::mixed(mk, #[trigger] found[j]), ct) is None,
    ensures
        model::first_open(session_id, header, ct, mk, found) == kdf::unsealed(session_id, header, kdf::mixed(mk, found[i]), ct),
    decreases i,
{
    if i > 0 {
        let rest = found.drop_first();
        assert(rest[i - 1] == found[i]);
        assert forall|j: int| 0 <= j < i - 1 implies kdf::unsealed(
            session_id,
            header,
            kdf::mixed(mk, #[trigger] rest[j]),
            ct,
        ) is None by {
            assert(rest[j] == found[j + 1]);
        }
        assert(kdf::unsealed(session_id, header, kdf::mixed(mk, found[0]), ct) is None);
        first_fitting_opens(session_id, header, ct, mk, rest, i - 1);
    }
}

/// A message opens under its own message key at a receiver that its KEM secret reaches.
proof fn package_opens(s: SessionState, f: Fresh, plaintext: Seq<u8>, b: SessionState, t: SessionState)
    requires
        model::can_be_drawn(s, f),
        s.dh_pub.len() == 32,
        model::sent(s, f, plaintext).1 is Ok,
        reopens(s, f, plaintext),
        kem_reaches(b, s, f, plaintext),
        t.session_id == s.session_id,
        t.kem_advertised == b.kem_advertised,
    ensures
        ({
            let p = model::sent(s, f, plaintext).1->Ok_0;
            model::opened_with(t, p, wire::header_of(p)->Some_0, kdf::message_key(model::opened(s, f.dh).ck_s->Some_0)) == Some(plaintext)
        }),
{
    package_reads(s, f, plaintext);
    let o = model::opened(s, f.dh);
    let mk = kdf::message_key(o.ck_s->Some_0);
    let header = model::outgoing_header(s, f);
    let ct = kdf::sealed(s.session_id, header, model::outgoing_key(s, f), plaintext);
    if o.kem_peer is Some {
        let found = model::decapsulated(b.kem_advertised, f.encaps.0);
        let i = choose|i: int|
            {
                &&& 0 <= i < found.len()
                &&& #[trigger] found[i] == Some(f.encaps.1)
                &&& forall|j: int|
                    0 <= j < i ==> kdf::unsealed(s.session_id, header, kdf::mixed(mk, #[trigger] found[j]), ct) is None
            };
        first_fitting_opens(s.session_id, header, ct, mk, found, i);
    } else {
        let found = seq![None::<Seq<u8>>];
        assert(model::candidates(b.kem_advertised, None) == found);
        first_fitting_opens(s.session_id, header, ct, mk, found, 0);
    }
}

/// A message arrives: a receiver that follows the sender, or follows it once it has turned to the
/// sender's chain, decrypts the sender's next message, however many messages before it are missing
/// within the limits, and then follows the sender with nothing missing ahead. This holds for the
/// first message to a responder, for the next message of a chain, and for a message of a chain that
/// the receiver has not seen yet, be it the chain's first or not.
pub proof fn message_arrives(s: SessionState, f: Fresh, plaintext: Seq<u8>, b: SessionState)
    requires
        model::can_be_drawn(s, f),
        s.dh_pub.len() == 32,
        s.ck_s is Some ==> s.n_s < u32::MAX,
        model::sent(s, f, plaintext).1 is Ok,
        reopens(s, f, plaintext),
        follows(turned(b, model::opened(s, f.dh)), model::opened(s, f.dh)),
        within_reach(b, model::opened(s, f.dh)),
        !b.skipped.contains_key((model::opened(s, f.dh).dh_pub, model::opened(s, f.dh).n_s)),
        kem_reaches(b, s, f, plaintext),
    ensures
        model::received(b, model::sent(s, f, plaintext).1->Ok_0).1 == Ok::<Seq<u8>, DecryptError>(plaintext),
        follows(model::received(b, model::sent(s, f, plaintext).1->Ok_0).0, model::sent(s, f, plaintext).0),
        model::received(b, model::sent(s, f, plaintext).1->Ok_0).0.n_r == model::sent(s, f, plaintext).0.n_s,
{
    package_reads(s, f, plaintext);
    let o = model::opened(s, f.dh);
    let p = model::sent(s, f, plaintext).1->Ok_0;
    let h = wire::header_of(p)->Some_0;
    let b1 = turned(b, o);
    let a = model::aligned(b, h).0;
    assert(model::aligned(b, h).1 is None);
    assert(a == model::jumped(b1, o.n_s));
    assert(a.ck_r == o.ck_s);
    assert(a.n_r == o.n_s);
    assert(a.session_id == s.session_id);
    let t = SessionState { ck_r: Some(kdf::next_chain(a.ck_r->Some_0)), n_r: (a.n_r + 1) as u32, ..a };
    assert(t.kem_advertised == b.kem_advertised);
    package_opens(s, f, plaintext, b, t);
    assert(model::received(b, p) == model::advanced(b, p, h));
    let s2 = model::sent(s, f, plaintext).0;
    assert(kdf::chain_after(t.ck_r->Some_0, 0) == t.ck_r->Some_0);
    assert(s2.ck_s == t.ck_r);
}

/// A straggler arrives: a receiver whose store holds a message's key decrypts the message.
pub proof fn straggler_arrives(s: SessionState, f: Fresh, plaintext: Seq<u8>, b: SessionState)
    requires
        model::can_be_drawn(s, f),
        s.dh_pub.len() == 32,
        model::sent(s, f, plaintext).1 is Ok,
        reopens(s, f, plaintext),
        b.session_id == s.session_id,
        b.skipped.contains_key((model::opened(s, f.dh).dh_pub, model::opened(s, f.dh).n_s)),
        b.skipped[(model::opened(s, f.dh).dh_pub, model::opened(s, f.dh).n_s)] == kdf::message_key(model::opened(s, f.dh).ck_s->Some_0),
        kem_reaches(b, s, f, plaintext),
    ensures
        model::received(b, model::sent(s, f, plaintext).1->Ok_0).1 == Ok::<Seq<u8>, DecryptError>(plaintext),
{
    package_reads(s, f, plaintext);
    package_opens(s, f, plaintext, b, b);
}

/// A jump retains the right keys: where the receiver follows the sender and jumps past the sender's
/// next message, the store then holds that message's key.
pub proof fn jump_retains_key(b: SessionState, s: SessionState, until: u32)
    requires
        follows(b, s),
        s.n_s < until,
    ensures
        model::jumped(b, until).skipped.contains_key((s.dh_pub, s.n_s)),
        model::jumped(b, until).skipped[(s.dh_pub, s.n_s)] == kdf::message_key(s.ck_s->Some_0),
{
    retained_keys(b.skipped, s.dh_pub, b.ck_r->Some_0, b.n_r, model::jump(b, until), (s.dh_pub, s.n_s));
}

/// Two sides that start from the same root and session identifier, the initiator with the
/// responder's key, are in step: the responder follows the initiator once it meets it. Neither has
/// retained a key.
pub proof fn starts_in_step(
    root: Seq<u8>,
    session_id: Seq<u8>,
    a_dh: (Seq<u8>, Seq<u8>),
    b_dh: (Seq<u8>, Seq<u8>),
    a_kem: Option<(Seq<u8>, Seq<u8>)>,
    b_kem: (Seq<u8>, Seq<u8>),
)
    requires
        crypto::x25519_dh(a_dh.1, b_dh.0) == crypto::x25519_dh(b_dh.1, a_dh.0),
    ensures
        ({
            let a = model::started_alice(root, session_id, a_dh.0, a_dh.1, b_dh.0, a_kem);
            let b = model::started_bob(root, session_id, b_dh.0, b_dh.1, b_kem);
            follows(turned(b, a), a) && within_reach(b, a) && keys_lie_behind(a) && keys_lie_behind(b)
        }),
{
    let a = model::started_alice(root, session_id, a_dh.0, a_dh.1, b_dh.0, a_kem);
    let b = model::started_bob(root, session_id, b_dh.0, b_dh.1, b_kem);
    assert(kdf::chain_after(turned(b, a).ck_r->Some_0, 0) == turned(b, a).ck_r->Some_0);
    assert(b.skipped.len() == 0);
}

/// A reply is in step: a side that has the peer's current key and root and opens a sending chain
/// against it is followed by the peer once the peer turns to the new chain.
pub proof fn reply_is_in_step(s: SessionState, f: Fresh, b: SessionState)
    requires
        model::opens_chain(s),
        b.initialized,
        b.session_id == s.session_id,
        b.rk == s.rk,
        s.dh_r == Some(b.dh_pub),
        b.dh_r != Some(f.dh.0),
        crypto::x25519_dh(f.dh.1, b.dh_pub) == crypto::x25519_dh(b.dh_sec, f.dh.0),
    ensures
        follows(turned(b, model::opened(s, f.dh)), model::opened(s, f.dh)),
{
    let o = model::opened(s, f.dh);
    assert(kdf::chain_after(turned(b, o).ck_r->Some_0, 0) == turned(b, o).ck_r->Some_0);
}

// ── Single steps ────────────────────────────────────────────────────

/// What each side starts with: what it was given, the initiator with the first sending chain, derived
/// from its secret key and the responder's public key, the responder with no chain at all. Nothing is
/// counted or retained yet.
pub proof fn sides_start_with_what_they_are_given(
    root: Seq<u8>,
    session_id: Seq<u8>,
    dh: (Seq<u8>, Seq<u8>),
    peer_dh: Seq<u8>,
    a_kem: Option<(Seq<u8>, Seq<u8>)>,
    b_kem: (Seq<u8>, Seq<u8>),
)
    ensures
        ({
            let a = model::started_alice(root, session_id, dh.0, dh.1, peer_dh, a_kem);
            let secret = crypto::x25519_dh(dh.1, peer_dh);
            &&& a.session_id == session_id && a.dh_pub == dh.0 && a.dh_sec == dh.1 && a.dh_r == Some(peer_dh)
            &&& a.rk == crypto::hmac_of(root, seq![3u8] + secret)
            &&& a.ck_s == Some(crypto::hmac_of(root, seq![4u8] + secret))
            &&& a.ck_r is None && a.n_s == 0 && a.n_r == 0 && a.pn == 0
            &&& a_kem is None ==> a.kem_advertised.len() == 0
            &&& a_kem matches Some(k) ==> a.kem_advertised.len() == 1 && a.kem_advertised[0] == k
            &&& a.kem_peer is None && a.advertise_kem_next && a.initialized
            &&& a.skipped == Map::<(Seq<u8>, u32), Seq<u8>>::empty()
        }),
        ({
            let b = model::started_bob(root, session_id, dh.0, dh.1, b_kem);
            &&& b.session_id == session_id && b.dh_pub == dh.0 && b.dh_sec == dh.1 && b.dh_r is None
            &&& b.rk == root
            &&& b.ck_s is None && b.ck_r is None && b.n_s == 0 && b.n_r == 0 && b.pn == 0
            &&& b.kem_advertised.len() == 1 && b.kem_advertised[0] == b_kem
            &&& b.kem_peer is None && b.advertise_kem_next && !b.initialized
            &&& b.skipped == Map::<(Seq<u8>, u32), Seq<u8>>::empty()
        }),
{
}

/// What chance contributes is genuine: a ratchet key pair where a chain is opened, a KEM key pair where
/// one is opened or the first chain has no pair to advertise, and an encapsulation to the peer's KEM
/// key where that is known.
pub proof fn drawn_parts_are_genuine(s: SessionState, f: Fresh)
    requires
        model::can_be_drawn(s, f),
    ensures
        s.ck_s is None && s.dh_r is Some ==> {
            &&& f.dh.0.len() == 32 && f.dh.1.len() == 32 && f.dh.0 == crypto::x25519_public(f.dh.1)
            &&& kdf::is_kem_pair(f.kem.0, f.kem.1)
        },
        s.ck_s is Some && s.advertise_kem_next && (s.kem_advertised.len() == 0 || s.kem_advertised[0].0.len() != 1568)
            ==> kdf::is_kem_pair(f.kem.0, f.kem.1),
        (s.ck_s is Some || s.dh_r is Some) && (s.kem_peer matches Some(k) && k.len() == 1568) ==> kdf::is_encapsulation(
            s.kem_peer->Some_0,
            f.encaps.0,
            f.encaps.1,
        ),
{
}

/// Sending succeeds exactly where a chain is open or can be opened, the peer's KEM key, if known, is
/// one, and the plaintext is not too long for AES-GCM. Without a chain nothing changes.
pub proof fn sending_succeeds(s: SessionState, f: Fresh, plaintext: Seq<u8>)
    requires
        model::can_be_drawn(s, f),
        s.dh_pub.len() == 32,
    ensures
        model::sent(s, f, plaintext).1 is Ok <==> (s.ck_s is Some || s.dh_r is Some) && (s.kem_peer matches Some(k) ==> k.len()
            == 1568) && plaintext.len() <= 0x10_0000_0000,
        s.ck_s is None && s.dh_r is None ==> model::sent(s, f, plaintext) == (
            s,
            Err::<Seq<u8>, DecryptError>(DecryptError::NoState),
        ),
        (s.ck_s is Some || s.dh_r is Some) && (s.kem_peer matches Some(k) && k.len() != 1568) ==> model::sent(s, f, plaintext).1
            == Err::<Seq<u8>, DecryptError>(DecryptError::Malformed),
        (s.ck_s is Some || s.dh_r is Some) && (s.kem_peer matches Some(k) ==> k.len() == 1568) && plaintext.len()
            > 0x10_0000_0000 ==> model::sent(s, f, plaintext).1 == Err::<Seq<u8>, DecryptError>(DecryptError::AuthFailed),
{
    if s.ck_s is Some || s.dh_r is Some {
        let o = model::opened(s, f.dh);
        wire::header_layout(
            o.pn,
            o.n_s,
            o.dh_pub,
            model::advertisement(s, f),
            if o.kem_peer is Some {
                Some(f.encaps.0)
            } else {
                None
            },
        );
    }
}

/// A send that opens a chain advertises a fresh KEM key, whatever was advertised before: the header
/// carries the public half, and the pair comes first among the advertised ones.
pub proof fn opening_advertises_a_fresh_key(s: SessionState, f: Fresh, plaintext: Seq<u8>)
    requires
        s.ck_s is None,
        s.dh_r is Some,
        model::can_be_drawn(s, f),
        s.dh_pub.len() == 32,
        model::sent(s, f, plaintext).1 is Ok,
        reopens(s, f, plaintext),
    ensures
        wire::header_of(model::sent(s, f, plaintext).1->Ok_0) is Some,
        wire::header_of(model::sent(s, f, plaintext).1->Ok_0)->Some_0.kem_pk == Some(f.kem.0),
        wire::header_of(model::sent(s, f, plaintext).1->Ok_0)->Some_0.dh_pub == f.dh.0,
        wire::header_of(model::sent(s, f, plaintext).1->Ok_0)->Some_0.n == 0,
        model::sent(s, f, plaintext).0.kem_advertised.len() > 0,
        model::sent(s, f, plaintext).0.kem_advertised[0] == f.kem,
        s.kem_advertised.len() > 0 ==> model::sent(s, f, plaintext).0.kem_advertised.len() == 2,
        s.kem_advertised.len() > 0 ==> model::sent(s, f, plaintext).0.kem_advertised[1] == s.kem_advertised[0],
{
    package_reads(s, f, plaintext);
}

/// What a sent message says: its number and the length of the previous chain, the ratchet key, a KEM
/// key where a chain is opened or nothing was sent on the first one, and a KEM ciphertext wherever the
/// peer's KEM key is known. It is as long as these parts, the plaintext and a tag.
pub proof fn sent_message_says(s: SessionState, f: Fresh, plaintext: Seq<u8>)
    requires
        model::can_be_drawn(s, f),
        s.dh_pub.len() == 32,
        model::sent(s, f, plaintext).1 is Ok,
        reopens(s, f, plaintext),
    ensures
        ({
            let p = model::sent(s, f, plaintext).1->Ok_0;
            let h = wire::header_of(p)->Some_0;
            let opening = s.ck_s is None;
            let own = s.kem_advertised.len() > 0 && s.kem_advertised[0].0.len() == 1568;
            &&& wire::header_of(p) is Some
            &&& h.pn == s.pn
            &&& opening ==> h.n == 0 && h.dh_pub == f.dh.0 && h.kem_pk == Some(f.kem.0)
            &&& !opening ==> h.n == s.n_s && h.dh_pub == s.dh_pub
            &&& !opening && !s.advertise_kem_next ==> h.kem_pk is None
            &&& !opening && s.advertise_kem_next && own ==> h.kem_pk == Some(s.kem_advertised[0].0)
            &&& !opening && s.advertise_kem_next && !own ==> h.kem_pk == Some(f.kem.0)
            &&& s.kem_peer is Some ==> h.kem_ct == Some(f.encaps.0)
            &&& s.kem_peer is None ==> h.kem_ct is None
            &&& p.len() == 42 + (if h.kem_pk is Some {
                1568int
            } else {
                0
            }) + (if h.kem_ct is Some {
                1568int
            } else {
                0
            }) + plaintext.len() + 16
        }),
{
    package_reads(s, f, plaintext);
    wire::header_stands_in_front(model::sent(s, f, plaintext).1->Ok_0);
}

/// What sending does to a session: the number goes up by one, on a new chain from zero, with the new
/// ratchet key pair; a fresh KEM pair comes first among the advertised ones and the oldest of three
/// goes; nothing else changes but the sending keys. All that holds of a send that fails, too.
pub proof fn sending_moves_the_sender(s: SessionState, f: Fresh, plaintext: Seq<u8>)
    requires
        s.ck_s is Some || s.dh_r is Some,
        s.ck_s is Some ==> s.n_s < u32::MAX,
    ensures
        ({
            let t = model::sent(s, f, plaintext).0;
            let opening = s.ck_s is None;
            let own = s.kem_advertised.len() > 0 && s.kem_advertised[0].0.len() == 1568;
            let draws = opening || (s.advertise_kem_next && !own);
            &&& opening ==> t.n_s == 1 && t.dh_pub == f.dh.0 && t.dh_sec == f.dh.1
            &&& !opening ==> t.n_s == s.n_s + 1 && t.dh_pub == s.dh_pub && t.dh_sec == s.dh_sec
            &&& !t.advertise_kem_next
            &&& !draws ==> t.kem_advertised == s.kem_advertised
            &&& draws ==> t.kem_advertised.len() > 0 && t.kem_advertised[0] == f.kem
            &&& draws && s.kem_advertised.len() == 0 ==> t.kem_advertised.len() == 1
            &&& draws && s.kem_advertised.len() > 0 ==> t.kem_advertised.len() == 2 && t.kem_advertised[1]
                == s.kem_advertised[0]
            &&& t.session_id == s.session_id && t.dh_r == s.dh_r && t.ck_r == s.ck_r && t.n_r == s.n_r && t.pn == s.pn
            &&& t.kem_peer == s.kem_peer && t.skipped == s.skipped && t.initialized == s.initialized
        }),
{
}

/// Which keys seal a sent message. A chain that is opened takes the Diffie-Hellman secret of the new
/// ratchet key and the peer's into the root and into the chain; each message takes one step of the
/// chain; the KEM secret of the message, if it has one, enters its key; and the ciphertext is bound to
/// the session and to the whole header.
pub proof fn sent_message_is_sealed(s: SessionState, f: Fresh, plaintext: Seq<u8>)
    requires
        model::can_be_drawn(s, f),
        s.dh_pub.len() == 32,
        model::sent(s, f, plaintext).1 is Ok,
        reopens(s, f, plaintext),
    ensures
        ({
            let (t, r) = model::sent(s, f, plaintext);
            let p = r->Ok_0;
            let end = wire::header_of(p)->Some_0.len as int;
            let secret = crypto::x25519_dh(f.dh.1, s.dh_r->Some_0);
            let ck = match s.ck_s {
                Some(k) => k,
                None => crypto::hmac_of(s.rk, seq![4u8] + secret),
            };
            let mk = crypto::hmac_of(ck, seq![1u8]);
            let key = match s.kem_peer {
                Some(_) => crypto::hmac_of(mk, seq![5u8] + f.encaps.1),
                None => mk,
            };
            &&& s.ck_s is None ==> t.rk == crypto::hmac_of(s.rk, seq![3u8] + secret)
            &&& s.ck_s is Some ==> t.rk == s.rk
            &&& t.ck_s == Some(crypto::hmac_of(ck, seq![2u8]))
            &&& p.skip(end) == crypto::aes_gcm_seal(
                crypto::hmac_of(key, seq![6u8]),
                crypto::hmac_of(key, seq![7u8]).subrange(0, 12),
                s.session_id + p.take(end),
                plaintext,
            )
        }),
{
    package_reads(s, f, plaintext);
    let p = model::sent(s, f, plaintext).1->Ok_0;
    let end = wire::header_of(p)->Some_0.len as int;
    assert(p.take(end) =~= p.subrange(0, end));
    assert(p.skip(end) =~= p.subrange(end, p.len() as int));
}

/// What a jump over messages is allowed: 1000 messages, and 2000 keys in all. Turning to a new chain is
/// allowed where both the rest of the old one and the start of the new one are within that.
pub proof fn limits_of_a_jump(s: SessionState, until: u32, pn: u32, n: u32)
    ensures
        model::gap_fits(s, until) <==> until <= s.n_r || (until - s.n_r <= 1000 && s.skipped.len() + (until - s.n_r) <= 2000),
        s.dh_r is Some && s.ck_r is Some ==> (model::turn_fits(s, pn, n) <==> {
            &&& s.n_r <= pn <= s.n_r + 1000
            &&& n <= 1000
            &&& pn > s.n_r || n > 0 ==> s.skipped.len() + (pn - s.n_r) + n <= 2000
        }),
{
}

/// What a jump does: it brings the receiving chain to the given number, step by step, and retains the
/// key of every message in between; retained keys of other messages stay as they are, and so does
/// everything else. Without a receiving chain, or backwards, there is no jump.
pub proof fn jump_retains_every_key(s: SessionState, until: u32, x: u32, other: (Seq<u8>, u32))
    ensures
        s.dh_r is None || s.ck_r is None || until <= s.n_r ==> model::jumped(s, until) == s,
        s.dh_r is Some && s.ck_r is Some && until > s.n_r ==> ({
            let t = model::jumped(s, until);
            let dh = s.dh_r->Some_0;
            &&& t.n_r == until
            &&& t.ck_r == Some(kdf::chain_after(s.ck_r->Some_0, (until - s.n_r) as nat))
            &&& s.n_r <= x < until ==> t.skipped.contains_key((dh, x)) && t.skipped[(dh, x)] == crypto::hmac_of(
                kdf::chain_after(s.ck_r->Some_0, (x - s.n_r) as nat),
                seq![1u8],
            )
            &&& !(other.0 == dh && s.n_r <= other.1 < until) ==> (t.skipped.contains_key(other) <==> s.skipped.contains_key(
                other,
            )) && (s.skipped.contains_key(other) ==> t.skipped[other] == s.skipped[other])
            &&& t.session_id == s.session_id && t.rk == s.rk && t.dh_pub == s.dh_pub && t.dh_sec == s.dh_sec && t.dh_r == s.dh_r
            &&& t.ck_s == s.ck_s && t.n_s == s.n_s && t.pn == s.pn && t.kem_advertised == s.kem_advertised
            &&& t.kem_peer == s.kem_peer && t.advertise_kem_next == s.advertise_kem_next && t.initialized == s.initialized
        }),
{
    if s.dh_r is Some && s.ck_r is Some && until > s.n_r {
        let count = model::jump(s, until);
        retained_keys(s.skipped, s.dh_r->Some_0, s.ck_r->Some_0, s.n_r, count, (s.dh_r->Some_0, x));
        retained_keys(s.skipped, s.dh_r->Some_0, s.ck_r->Some_0, s.n_r, count, other);
    }
}

/// What decrypting does to a session, where the message's key was not in the store: the receiving chain
/// is the message's and stands behind it, and a KEM key that the message carries is the peer's from now
/// on. A message of a new chain takes the Diffie-Hellman secret of its ratchet key and ours into the
/// root, closes the sending chain and remembers its length. Nothing else changes but the store.
pub proof fn decrypting_moves_the_receiver(b: SessionState, pkg: Seq<u8>)
    requires
        model::received(b, pkg).1 is Ok,
        !model::exhausts_chain(b, pkg),
        !b.skipped.contains_key((wire::header_of(pkg)->Some_0.dh_pub, wire::header_of(pkg)->Some_0.n)),
    ensures
        ({
            let t = model::received(b, pkg).0;
            let h = wire::header_of(pkg)->Some_0;
            let turning = b.initialized && b.dh_r != Some(h.dh_pub);
            &&& wire::header_of(pkg) is Some
            &&& t.initialized && t.dh_r == Some(h.dh_pub) && t.n_r == h.n + 1 && t.ck_r is Some
            &&& h.kem_pk is Some ==> t.kem_peer == h.kem_pk
            &&& h.kem_pk is None ==> t.kem_peer == b.kem_peer
            &&& turning || !b.initialized ==> t.rk == crypto::hmac_of(b.rk, seq![3u8] + crypto::x25519_dh(b.dh_sec, h.dh_pub))
            &&& b.initialized && !turning ==> t.rk == b.rk
            &&& turning ==> t.ck_s is None && t.pn == b.n_s
            &&& !turning ==> t.ck_s == b.ck_s && t.pn == b.pn
            &&& t.session_id == b.session_id && t.dh_pub == b.dh_pub && t.dh_sec == b.dh_sec && t.n_s == b.n_s
            &&& t.kem_advertised == b.kem_advertised && t.advertise_kem_next == b.advertise_kem_next
        }),
{
    let h = wire::header_of(pkg)->Some_0;
    aligned_keys(b, h, (h.dh_pub, h.n));
}

/// Which chain key a receiving chain of a new ratchet key starts with, and where a chain stands after a
/// message: as many steps on as the message's number says, and one.
pub proof fn receiving_chain_is_derived(b: SessionState, pkg: Seq<u8>)
    requires
        model::received(b, pkg).1 is Ok,
        !b.skipped.contains_key((wire::header_of(pkg)->Some_0.dh_pub, wire::header_of(pkg)->Some_0.n)),
    ensures
        ({
            let t = model::received(b, pkg).0;
            let h = wire::header_of(pkg)->Some_0;
            let same_chain = b.initialized && b.dh_r == Some(h.dh_pub);
            &&& same_chain && b.ck_r is Some ==> h.n >= b.n_r && t.ck_r == Some(
                kdf::next_chain(kdf::chain_after(b.ck_r->Some_0, (h.n - b.n_r) as nat)),
            )
            &&& !same_chain ==> t.ck_r == Some(
                kdf::next_chain(
                    kdf::chain_after(
                        crypto::hmac_of(b.rk, seq![4u8] + crypto::x25519_dh(b.dh_sec, h.dh_pub)),
                        h.n as nat,
                    ),
                ),
            )
        }),
{
    let h = wire::header_of(pkg)->Some_0;
    let s1 = if b.initialized {
        b
    } else {
        model::met(b, h.dh_pub)
    };
    assert(kdf::chain_after(s1.ck_r->Some_0, 0) == s1.ck_r->Some_0);
    let seed = crypto::hmac_of(b.rk, seq![4u8] + crypto::x25519_dh(b.dh_sec, h.dh_pub));
    assert(kdf::chain_after(seed, 0) == seed);
}

/// A message that lies behind, or too far ahead on its chain, is out of order, and changes nothing.
pub proof fn message_out_of_reach_is_refused(b: SessionState, pkg: Seq<u8>)
    requires
        wire::header_of(pkg) is Some,
        b.initialized,
        b.dh_r == Some(wire::header_of(pkg)->Some_0.dh_pub),
        !b.skipped.contains_key((wire::header_of(pkg)->Some_0.dh_pub, wire::header_of(pkg)->Some_0.n)),
        ({
            let n = wire::header_of(pkg)->Some_0.n;
            n < b.n_r || n - b.n_r > 1000 || (n > b.n_r && b.skipped.len() + (n - b.n_r) > 2000)
        }),
    ensures
        model::received(b, pkg) == (b, Err::<Seq<u8>, DecryptError>(DecryptError::OutOfOrder)),
{
}

/// A package without a header, or too short to hold one and a tag, of another version or without a
/// ratchet key, is malformed, and changes nothing.
pub proof fn package_without_header_is_malformed(b: SessionState, pkg: Seq<u8>)
    requires
        wire::header_of(pkg) is None || pkg.len() < 58 || pkg[0] != 0x0A,
    ensures
        model::received(b, pkg) == (b, Err::<Seq<u8>, DecryptError>(DecryptError::Malformed)),
{
}

/// A message whose key is in the store is opened with that key, whatever the chains are.
pub proof fn retained_key_opens(b: SessionState, pkg: Seq<u8>)
    requires
        wire::header_of(pkg) is Some,
        b.skipped.contains_key((wire::header_of(pkg)->Some_0.dh_pub, wire::header_of(pkg)->Some_0.n)),
    ensures
        ({
            let h = wire::header_of(pkg)->Some_0;
            let k = (h.dh_pub, h.n);
            let (t, r) = model::received(b, pkg);
            match model::opened_with(b, pkg, h, b.skipped[k]) {
                Some(m) => r == Ok::<Seq<u8>, DecryptError>(m) && t == SessionState {
                    skipped: b.skipped.remove(k),
                    ..b
                },
                None => r == Err::<Seq<u8>, DecryptError>(DecryptError::AuthFailed) && t == b,
            }
        }),
{
}

/// A message within reach on the current chain is opened with the key of its number on it. If that does
/// not open it, its number is used up all the same, and the keys of the messages before it are retained.
/// Without a receiving chain there is nothing to open it with.
pub proof fn message_of_the_chain_is_opened(b: SessionState, pkg: Seq<u8>, x: u32)
    requires
        wire::header_of(pkg) is Some,
        b.initialized,
        b.dh_r == Some(wire::header_of(pkg)->Some_0.dh_pub),
        !b.skipped.contains_key((wire::header_of(pkg)->Some_0.dh_pub, wire::header_of(pkg)->Some_0.n)),
        ({
            let n = wire::header_of(pkg)->Some_0.n;
            &&& b.n_r <= n < u32::MAX
            &&& n > b.n_r ==> n - b.n_r <= 1000 && b.skipped.len() + (n - b.n_r) <= 2000
        }),
    ensures
        b.ck_r is None ==> model::received(b, pkg) == (b, Err::<Seq<u8>, DecryptError>(DecryptError::NoState)),
        b.ck_r is Some ==> ({
            let h = wire::header_of(pkg)->Some_0;
            let ck = kdf::chain_after(b.ck_r->Some_0, (h.n - b.n_r) as nat);
            let (t, r) = model::received(b, pkg);
            &&& r == (match model::opened_with(b, pkg, h, crypto::hmac_of(ck, seq![1u8])) {
                Some(m) => Ok::<Seq<u8>, DecryptError>(m),
                None => Err::<Seq<u8>, DecryptError>(DecryptError::AuthFailed),
            })
            &&& t.n_r == h.n + 1 && t.ck_r == Some(crypto::hmac_of(ck, seq![2u8]))
            &&& b.n_r <= x < h.n ==> t.skipped.contains_key((h.dh_pub, x))
            &&& r is Err ==> t.kem_peer == b.kem_peer
            &&& t.rk == b.rk && t.dh_r == b.dh_r && t.ck_s == b.ck_s && t.n_s == b.n_s && t.pn == b.pn && t.initialized
        }),
{
    let n = wire::header_of(pkg)->Some_0.n;
    if b.ck_r is Some {
        assert(kdf::chain_after(b.ck_r->Some_0, 0) == b.ck_r->Some_0);
        jump_retains_every_key(b, n, x, (b.dh_r->Some_0, x));
    }
}

/// A message of a new chain is opened with the key of its number on the chain that its ratchet key gives,
/// where what it skips on both chains is within the limits. If it lies outside of them, or does not open,
/// it is out of order, and changes nothing.
pub proof fn message_of_a_new_chain_is_opened(b: SessionState, pkg: Seq<u8>)
    requires
        wire::header_of(pkg) is Some,
        b.initialized,
        b.dh_r is Some,
        b.ck_r is Some,
        b.dh_r != Some(wire::header_of(pkg)->Some_0.dh_pub),
        !b.skipped.contains_key((wire::header_of(pkg)->Some_0.dh_pub, wire::header_of(pkg)->Some_0.n)),
    ensures
        ({
            let h = wire::header_of(pkg)->Some_0;
            let seed = crypto::hmac_of(b.rk, seq![4u8] + crypto::x25519_dh(b.dh_sec, h.dh_pub));
            let mk = crypto::hmac_of(kdf::chain_after(seed, h.n as nat), seq![1u8]);
            let found = model::opened_with(b, pkg, h, mk);
            let near = b.n_r <= h.pn <= b.n_r + 1000 && h.n <= 1000 && (h.pn > b.n_r || h.n > 0 ==> b.skipped.len() + (h.pn
                - b.n_r) + h.n <= 2000);
            let (t, r) = model::received(b, pkg);
            &&& near && found is Some ==> r == Ok::<Seq<u8>, DecryptError>(found->Some_0)
            &&& !(near && found is Some) ==> r == Err::<Seq<u8>, DecryptError>(DecryptError::OutOfOrder) && t == b
        }),
{
    let h = wire::header_of(pkg)->Some_0;
    let seed = crypto::hmac_of(b.rk, seq![4u8] + crypto::x25519_dh(b.dh_sec, h.dh_pub));
    assert(kdf::chain_after(seed, 0) == seed);
    limits_of_a_jump(b, h.n, h.pn, h.n);
}

/// The first message that a responder gets is opened with the key of its number on the chain that its
/// ratchet key gives, where it skips no more than the limits allow.
pub proof fn first_message_is_opened(b: SessionState, pkg: Seq<u8>)
    requires
        wire::header_of(pkg) is Some,
        !b.initialized,
        !b.skipped.contains_key((wire::header_of(pkg)->Some_0.dh_pub, wire::header_of(pkg)->Some_0.n)),
    ensures
        ({
            let h = wire::header_of(pkg)->Some_0;
            let seed = crypto::hmac_of(b.rk, seq![4u8] + crypto::x25519_dh(b.dh_sec, h.dh_pub));
            let mk = crypto::hmac_of(kdf::chain_after(seed, h.n as nat), seq![1u8]);
            let near = h.n == 0 || (h.n <= 1000 && b.skipped.len() + h.n <= 2000);
            let (t, r) = model::received(b, pkg);
            &&& near ==> r == (match model::opened_with(b, pkg, h, mk) {
                Some(m) => Ok::<Seq<u8>, DecryptError>(m),
                None => Err::<Seq<u8>, DecryptError>(DecryptError::AuthFailed),
            })
            &&& near ==> t.n_r == h.n + 1
            &&& !near ==> r == Err::<Seq<u8>, DecryptError>(DecryptError::OutOfOrder) && t.n_r == 0
            &&& t.initialized && t.dh_r == Some(h.dh_pub)
            &&& t.rk == crypto::hmac_of(b.rk, seq![3u8] + crypto::x25519_dh(b.dh_sec, h.dh_pub))
        }),
{
    let h = wire::header_of(pkg)->Some_0;
    let seed = crypto::hmac_of(b.rk, seq![4u8] + crypto::x25519_dh(b.dh_sec, h.dh_pub));
    assert(kdf::chain_after(seed, 0) == seed);
    limits_of_a_jump(model::met(b, h.dh_pub), h.n, 0, 0);
}

/// A receiving chain runs out only at its very last number, for a message within reach.
pub proof fn chain_runs_out_at_its_end(s: SessionState, pkg: Seq<u8>)
    requires
        model::exhausts_chain(s, pkg),
    ensures
        wire::header_of(pkg) is Some,
        wire::header_of(pkg)->Some_0.n == 0xFFFF_FFFF,
        s.n_r >= 0xFFFF_FFFF - 1000,
        s.initialized && s.ck_r is Some && s.dh_r == Some(wire::header_of(pkg)->Some_0.dh_pub),
{
}

/// Which secrets a message is opened with: without a KEM ciphertext the message key alone; with one, the
/// key with the secret that our newest advertised key gives mixed in, and then that of the one before.
pub proof fn advertised_keys_are_tried_in_turn(
    b: SessionState,
    pkg: Seq<u8>,
    h: wire::HeaderView,
    mk: Seq<u8>,
)
    requires
        h.kem_ct matches Some(c) ==> c.len() == 1568,
        forall|i: int| 0 <= i < b.kem_advertised.len() ==> (#[trigger] b.kem_advertised[i]).1.len() == 3168,
    ensures
        ({
            let header = pkg.subrange(0, h.len as int);
            let ct = pkg.subrange(h.len as int, pkg.len() as int);
            let with = |i: int|
                kdf::unsealed(
                    b.session_id,
                    header,
                    crypto::hmac_of(mk, seq![5u8] + crypto::ml_kem_decaps(b.kem_advertised[i].1, h.kem_ct->Some_0)),
                    ct,
                );
            let alone = kdf::unsealed(b.session_id, header, mk, ct);
            let found = model::opened_with(b, pkg, h, mk);
            &&& h.kem_ct is None ==> found == alone
            &&& h.kem_ct is Some && b.kem_advertised.len() == 0 ==> found == alone
            &&& h.kem_ct is Some && b.kem_advertised.len() == 1 ==> found == with(0)
            &&& h.kem_ct is Some && b.kem_advertised.len() == 2 ==> found == (match with(0) {
                Some(m) => Some(m),
                None => with(1),
            })
        }),
{
    let kems = b.kem_advertised;
    reveal_with_fuel(model::first_open, 3);
    if let Some(c) = h.kem_ct {
        if kems.len() == 0 {
            assert(model::decapsulated(kems, c) =~= Seq::empty());
        } else if kems.len() == 1 {
            assert(kems.last() == kems[0]);
            assert(model::decapsulated(kems.drop_last(), c) =~= Seq::empty());
            assert(model::decapsulated(kems, c) =~= seq![Some(crypto::ml_kem_decaps(kems[0].1, c))]);
        } else if kems.len() == 2 {
            let front = kems.drop_last();
            assert(kems.last() == kems[1] && front.last() == kems[0]);
            assert(model::decapsulated(front.drop_last(), c) =~= Seq::empty());
            assert(model::decapsulated(front, c) =~= seq![Some(crypto::ml_kem_decaps(kems[0].1, c))]);
            let all = model::decapsulated(kems, c);
            assert(all =~= seq![
                Some(crypto::ml_kem_decaps(kems[0].1, c)),
                Some(crypto::ml_kem_decaps(kems[1].1, c)),
            ]);
            assert(all.drop_first() =~= seq![Some(crypto::ml_kem_decaps(kems[1].1, c))]);
            assert(all.drop_first().drop_first() =~= Seq::empty());
        }
    }
    if h.kem_ct is None || kems.len() == 0 {
        assert(model::candidates(kems, h.kem_ct) == seq![None::<Seq<u8>>]);
        assert(seq![None::<Seq<u8>>].drop_first() =~= Seq::empty());
    } else if kems.len() == 1 {
        assert(model::candidates(kems, h.kem_ct).drop_first() =~= Seq::empty());
    }
}

/// A gap on a chain is bridged: a receiver that is on the sender's chain decrypts the next message where
/// at most 1000 messages before it are missing and the store has room for their keys, 2000 in all. The
/// key of every one that is missing is retained.
pub proof fn gap_is_bridged(s: SessionState, f: Fresh, plaintext: Seq<u8>, b: SessionState, x: u32)
    requires
        model::can_be_drawn(s, f),
        s.dh_pub.len() == 32,
        s.ck_s is Some,
        s.n_s < u32::MAX,
        model::sent(s, f, plaintext).1 is Ok,
        reopens(s, f, plaintext),
        b.initialized && b.session_id == s.session_id && b.rk == s.rk && b.dh_r == Some(s.dh_pub),
        b.ck_r is Some,
        b.n_r <= s.n_s,
        s.ck_s == Some(kdf::chain_after(b.ck_r->Some_0, (s.n_s - b.n_r) as nat)),
        s.n_s - b.n_r <= 1000,
        b.skipped.len() + (s.n_s - b.n_r) <= 2000,
        !b.skipped.contains_key((s.dh_pub, s.n_s)),
        kem_reaches(b, s, f, plaintext),
    ensures
        model::received(b, model::sent(s, f, plaintext).1->Ok_0).1 == Ok::<Seq<u8>, DecryptError>(plaintext),
        model::received(b, model::sent(s, f, plaintext).1->Ok_0).0.n_r == s.n_s + 1,
        b.n_r <= x < s.n_s ==> ({
            let kept = model::received(b, model::sent(s, f, plaintext).1->Ok_0).0.skipped;
            kept.contains_key((s.dh_pub, x)) && kept[(s.dh_pub, x)] == kdf::message_key(
                kdf::chain_after(b.ck_r->Some_0, (x - b.n_r) as nat),
            )
        }),
{
    message_arrives(s, f, plaintext, b);
    package_reads(s, f, plaintext);
    jump_retains_every_key(b, s.n_s, x, (s.dh_pub, x));
}

/// Losses around a new chain are bridged: a receiver that has followed the sender's last chain, and
/// turns to the new one, decrypts a message of it where at most 1000 messages are missing at the end of
/// the one and at most 1000 at the start of the other, and the store has room for the keys of all,
/// 2000 in all.
pub proof fn losses_around_a_turn_are_bridged(s: SessionState, f: Fresh, plaintext: Seq<u8>, b: SessionState)
    requires
        model::can_be_drawn(s, f),
        s.dh_pub.len() == 32,
        s.ck_s is Some ==> s.n_s < u32::MAX,
        model::sent(s, f, plaintext).1 is Ok,
        reopens(s, f, plaintext),
        ({
            let dh_pub = if s.ck_s is None {
                f.dh.0
            } else {
                s.dh_pub
            };
            let n = if s.ck_s is None {
                0
            } else {
                s.n_s as int
            };
            &&& b.initialized && b.dh_r != Some(dh_pub)
            &&& !b.skipped.contains_key((dh_pub, n as u32))
            &&& b.n_r <= s.pn <= b.n_r + 1000
            &&& n <= 1000
            &&& b.skipped.len() + (s.pn - b.n_r) + n <= 2000
        }),
        follows(turned(b, model::opened(s, f.dh)), model::opened(s, f.dh)),
        kem_reaches(b, s, f, plaintext),
    ensures
        model::received(b, model::sent(s, f, plaintext).1->Ok_0).1 == Ok::<Seq<u8>, DecryptError>(plaintext),
{
    message_arrives(s, f, plaintext, b);
}

// ── Conversation ────────────────────────────────────────────────────

/// Whether it is `b`'s turn: `b` has followed `s` and has no sending chain open, and what `s` has
/// received of `b`'s last chain is at most behind by messages that can still be bridged.
pub open spec fn facing(b: SessionState, s: SessionState) -> bool {
    &&& follows(b, s)
    &&& b.ck_s is None
    &&& s.initialized
    &&& s.dh_sec.len() == 32
    &&& s.dh_pub == crypto::x25519_public(s.dh_sec)
    &&& s.n_r <= b.pn <= s.n_r + 1000
    &&& s.n_r < b.pn ==> s.skipped.len() + (b.pn - s.n_r) <= 2000
}

/// A first message opens the conversation: once the responder has decrypted the initiator's first
/// message, it is the responder's turn.
pub proof fn first_message_arrives(
    root: Seq<u8>,
    session_id: Seq<u8>,
    a_dh: (Seq<u8>, Seq<u8>),
    b_dh: (Seq<u8>, Seq<u8>),
    a_kem: Option<(Seq<u8>, Seq<u8>)>,
    b_kem: (Seq<u8>, Seq<u8>),
    f: Fresh,
    plaintext: Seq<u8>,
)
    requires
        a_dh.0.len() == 32,
        a_dh.1.len() == 32,
        a_dh.0 == crypto::x25519_public(a_dh.1),
        crypto::x25519_dh(a_dh.1, b_dh.0) == crypto::x25519_dh(b_dh.1, a_dh.0),
        ({
            let a = model::started_alice(root, session_id, a_dh.0, a_dh.1, b_dh.0, a_kem);
            &&& model::can_be_drawn(a, f)
            &&& model::sent(a, f, plaintext).1 is Ok
            &&& reopens(a, f, plaintext)
        }),
    ensures
        ({
            let a = model::started_alice(root, session_id, a_dh.0, a_dh.1, b_dh.0, a_kem);
            let b = model::started_bob(root, session_id, b_dh.0, b_dh.1, b_kem);
            let (a2, p) = model::sent(a, f, plaintext);
            let (b2, m) = model::received(b, p->Ok_0);
            m == Ok::<Seq<u8>, DecryptError>(plaintext) && facing(b2, a2)
        }),
{
    let a = model::started_alice(root, session_id, a_dh.0, a_dh.1, b_dh.0, a_kem);
    let b = model::started_bob(root, session_id, b_dh.0, b_dh.1, b_kem);
    starts_in_step(root, session_id, a_dh, b_dh, a_kem, b_kem);
    message_arrives(a, f, plaintext, b);
    package_reads(a, f, plaintext);
}

/// A reply arrives, and the turn passes: where it is `b`'s turn, `s` decrypts the message with which
/// `b` opens its chain, and then it is `s`'s turn. The fresh ratchet key has to be one that `s` has
/// not seen, and what `b` has missed of `s`'s chain has to be within the limits.
pub proof fn reply_arrives(b: SessionState, f: Fresh, plaintext: Seq<u8>, s: SessionState)
    requires
        facing(b, s),
        model::can_be_drawn(b, f),
        b.initialized,
        b.dh_pub.len() == 32,
        model::sent(b, f, plaintext).1 is Ok,
        reopens(b, f, plaintext),
        agrees(b, f),
        s.dh_r != Some(f.dh.0),
        !s.skipped.contains_key((f.dh.0, 0)),
        kem_reaches(s, b, f, plaintext),
        s.n_s <= b.n_r || (s.n_s - b.n_r <= 1000 && b.skipped.len() + (s.n_s - b.n_r) <= 2000),
    ensures
        ({
            let (b2, p) = model::sent(b, f, plaintext);
            let (s2, m) = model::received(s, p->Ok_0);
            m == Ok::<Seq<u8>, DecryptError>(plaintext) && facing(s2, b2)
        }),
{
    reply_is_in_step(b, f, s);
    message_arrives(b, f, plaintext, s);
    package_reads(b, f, plaintext);
}

// ── Histories ───────────────────────────────────────────────────────

/// What can happen to a session.
pub enum Event {
    /// It sends a message, with what chance contributes.
    Send(Fresh, Seq<u8>),
    /// It receives a package.
    Receive(Seq<u8>),
}

/// The session after an event.
pub open spec fn after(s: SessionState, e: Event) -> SessionState {
    match e {
        Event::Send(f, plaintext) => model::sent(s, f, plaintext).0,
        Event::Receive(pkg) => model::received(s, pkg).0,
    }
}

/// Whether the counters have room for an event.
pub open spec fn has_room(s: SessionState, e: Event) -> bool {
    match e {
        Event::Send(_, _) => s.ck_s is Some ==> s.n_s < u32::MAX,
        Event::Receive(pkg) => !model::exhausts_chain(s, pkg),
    }
}

/// The session after the first `k` of some events.
pub open spec fn later(s: SessionState, events: Seq<Event>, k: nat) -> SessionState
    decreases k,
{
    if k == 0 {
        s
    } else {
        after(later(s, events, (k - 1) as nat), events[k - 1])
    }
}

/// Whether the counters have room for some events, one after the other.
pub open spec fn have_room(s: SessionState, events: Seq<Event>) -> bool {
    forall|i: int| 0 <= i < events.len() ==> has_room(#[trigger] later(s, events, i as nat), events[i])
}

/// Whether the receiving chain of a ratchet key is not turned to again once it was left. A turn
/// takes a message that opens, and none of a chain that was left does as the start of a new one.
pub open spec fn stays_left(s: SessionState, events: Seq<Event>, dh: Seq<u8>) -> bool {
    forall|i: int|
        0 <= i < events.len() && (#[trigger] later(s, events, i as nat)).dh_r != Some(dh) ==> later(
            s,
            events,
            (i + 1) as nat,
        ).dh_r != Some(dh)
}

/// A message that was decrypted is refused at any later time, whatever the session has sent and
/// received since: on its own chain, and when that chain has been left for others. The session
/// stays as it is.
pub proof fn replay_stays_refused(s: SessionState, pkg: Seq<u8>, events: Seq<Event>)
    requires
        keys_lie_behind(s),
        !model::exhausts_chain(s, pkg),
        model::received(s, pkg).1 is Ok,
        have_room(model::received(s, pkg).0, events),
        stays_left(model::received(s, pkg).0, events, wire::header_of(pkg)->Some_0.dh_pub),
        ({
            let t = later(model::received(s, pkg).0, events, events.len());
            let h = wire::header_of(pkg)->Some_0;
            model::turns(t, h) ==> model::advanced(t, pkg, h).1 is Err
        }),
    ensures
        ({
            let t = later(model::received(s, pkg).0, events, events.len());
            model::received(t, pkg) == (t, Err::<Seq<u8>, DecryptError>(DecryptError::OutOfOrder))
        }),
{
    decrypted_is_consumed(s, pkg);
    let h = wire::header_of(pkg)->Some_0;
    stays_consumed(model::received(s, pkg).0, events, h, events.len());
    replay_is_refused(later(model::received(s, pkg).0, events, events.len()), pkg);
}

proof fn stays_consumed(s: SessionState, events: Seq<Event>, h: wire::HeaderView, k: nat)
    requires
        consumed(s, h),
        have_room(s, events),
        stays_left(s, events, h.dh_pub),
        k <= events.len(),
    ensures
        consumed(later(s, events, k), h),
    decreases k,
{
    if k > 0 {
        stays_consumed(s, events, h, (k - 1) as nat);
        let t = later(s, events, (k - 1) as nat);
        assert(has_room(t, events[k - 1]));
        assert(t.dh_r != Some(h.dh_pub) ==> later(s, events, (k - 1 + 1) as nat).dh_r != Some(h.dh_pub));
        if let Event::Receive(pkg) = events[k - 1] {
            receiving_keeps_consumed(t, pkg, h);
        }
    }
}

/// Where a package that is not in the store moves the receiving chain, the chain stands behind it.
proof fn moved_on(t: SessionState, pkg: Seq<u8>)
    requires
        wire::header_of(pkg) is Some,
        !t.skipped.contains_key((wire::header_of(pkg)->Some_0.dh_pub, wire::header_of(pkg)->Some_0.n)),
        model::aligned(t, wire::header_of(pkg)->Some_0).1 is None,
        !model::exhausts_chain(t, pkg),
        model::received(t, pkg).0 != t,
    ensures
        ({
            let h = wire::header_of(pkg)->Some_0;
            let u = model::received(t, pkg).0;
            &&& u.dh_r == Some(h.dh_pub)
            &&& u.n_r == h.n + 1
            &&& u.initialized
            &&& u.skipped == model::aligned(t, h).0.skipped
        }),
{
    let h = wire::header_of(pkg)->Some_0;
    aligned_keys(t, h, (h.dh_pub, h.n));
    let a = model::aligned(t, h).0;
    if a.ck_r is None {
        assert(a == t);
    } else {
        assert(a.n_r < u32::MAX);
    }
}

proof fn receiving_keeps_consumed(t: SessionState, pkg: Seq<u8>, h: wire::HeaderView)
    requires
        consumed(t, h),
        !model::exhausts_chain(t, pkg),
        t.dh_r != Some(h.dh_pub) ==> model::received(t, pkg).0.dh_r != Some(h.dh_pub),
    ensures
        consumed(model::received(t, pkg).0, h),
{
    if let Some(g) = wire::header_of(pkg) {
        let u = model::received(t, pkg).0;
        if !t.skipped.contains_key((g.dh_pub, g.n)) && model::aligned(t, g).1 is None {
            aligned_keys(t, g, (h.dh_pub, h.n));
            if u != t {
                moved_on(t, pkg);
            }
        }
    }
}

/// Retained keys go on lying behind, whatever is received, as long as a turn is to a chain of which
/// no key is retained.
pub proof fn keys_go_on_lying_behind(s: SessionState, pkg: Seq<u8>)
    requires
        keys_lie_behind(s),
        !model::exhausts_chain(s, pkg),
        wire::header_of(pkg) matches Some(h) ==> model::turns(s, h) ==> forall|key: (Seq<u8>, u32)| #[trigger]
            s.skipped.contains_key(key) ==> key.0 != h.dh_pub,
    ensures
        keys_lie_behind(model::received(s, pkg).0),
{
    if let Some(h) = wire::header_of(pkg) {
        let u = model::received(s, pkg).0;
        if !s.skipped.contains_key((h.dh_pub, h.n)) && model::aligned(s, h).1 is None && u != s {
            moved_on(s, pkg);
            assert forall|key: (Seq<u8>, u32)| #[trigger] u.skipped.contains_key(key) implies u.initialized && (u.dh_r
                == Some(key.0) ==> key.1 < u.n_r) by {
                aligned_keys(s, h, key);
                assert(model::aligned(s, h).0.skipped.contains_key(key));
            }
        }
    }
}

/// Two messages of a session never carry the same ratchet key and number, whatever is sent and
/// received between them, and so are different packages, whatever they say. The ratchet keys that
/// are drawn in the meantime have to be other ones than that of the first message.
pub proof fn packages_differ(
    s: SessionState,
    f: Fresh,
    plaintext: Seq<u8>,
    events: Seq<Event>,
    f2: Fresh,
    plaintext2: Seq<u8>,
)
    requires
        model::can_be_drawn(s, f),
        s.dh_pub.len() == 32,
        s.ck_s is Some ==> s.n_s < u32::MAX,
        model::sent(s, f, plaintext).1 is Ok,
        reopens(s, f, plaintext),
        have_room(model::sent(s, f, plaintext).0, events),
        forall|i: int|
            0 <= i < events.len() ==> (#[trigger] events[i] matches Event::Send(g, _) ==> g.dh.0 != model::opened(
                s,
                f.dh,
            ).dh_pub),
        ({
            let t = later(model::sent(s, f, plaintext).0, events, events.len());
            &&& model::can_be_drawn(t, f2)
            &&& t.dh_pub.len() == 32
            &&& model::opens_chain(t) ==> f2.dh.0 != model::opened(s, f.dh).dh_pub
            &&& model::sent(t, f2, plaintext2).1 is Ok
            &&& reopens(t, f2, plaintext2)
        }),
    ensures
        ({
            let p = model::sent(s, f, plaintext).1->Ok_0;
            let t = later(model::sent(s, f, plaintext).0, events, events.len());
            let q = model::sent(t, f2, plaintext2).1->Ok_0;
            let (g, h) = (wire::header_of(p)->Some_0, wire::header_of(q)->Some_0);
            (g.dh_pub, g.n) != (h.dh_pub, h.n) && p != q
        }),
{
    let o = model::opened(s, f.dh);
    let s1 = model::sent(s, f, plaintext).0;
    numbers_go_on(s1, events, o.dh_pub, o.n_s, events.len());
    package_reads(s, f, plaintext);
    package_reads(later(s1, events, events.len()), f2, plaintext2);
}

proof fn numbers_go_on(s: SessionState, events: Seq<Event>, dh: Seq<u8>, n: u32, k: nat)
    requires
        s.dh_pub == dh ==> n < s.n_s,
        have_room(s, events),
        forall|i: int|
            0 <= i < events.len() ==> (#[trigger] events[i] matches Event::Send(g, _) ==> g.dh.0 != dh),
        k <= events.len(),
    ensures
        later(s, events, k).dh_pub == dh ==> n < later(s, events, k).n_s,
    decreases k,
{
    if k > 0 {
        numbers_go_on(s, events, dh, n, (k - 1) as nat);
        let t = later(s, events, (k - 1) as nat);
        assert(has_room(t, events[k - 1]));
    }
}

/// The sender's ratchet key in a package is the one that the sender goes on with; in the first
/// message of an initiator it is the key that the session was started with.
pub proof fn package_names_sender(s: SessionState, f: Fresh, plaintext: Seq<u8>)
    requires
        model::can_be_drawn(s, f),
        s.dh_pub.len() == 32,
        model::sent(s, f, plaintext).1 is Ok,
        reopens(s, f, plaintext),
    ensures
        wire::header_of(model::sent(s, f, plaintext).1->Ok_0) is Some,
        wire::header_of(model::sent(s, f, plaintext).1->Ok_0)->Some_0.dh_pub == model::sent(s, f, plaintext).0.dh_pub,
        s.ck_s is Some ==> model::sent(s, f, plaintext).0.dh_pub == s.dh_pub,
{
    package_reads(s, f, plaintext);
}

/// The first message of an initiator advertises the KEM key that the session was started with, and
/// the session keeps that pair alone.
pub proof fn initial_key_travels_first(
    root: Seq<u8>,
    session_id: Seq<u8>,
    dh: (Seq<u8>, Seq<u8>),
    peer_dh: Seq<u8>,
    kem: (Seq<u8>, Seq<u8>),
    f: Fresh,
    plaintext: Seq<u8>,
)
    requires
        dh.0.len() == 32,
        kem.0.len() == KEM_PK_LEN,
        ({
            let s = model::started_alice(root, session_id, dh.0, dh.1, peer_dh, Some(kem));
            model::sent(s, f, plaintext).1 is Ok && reopens(s, f, plaintext)
        }),
    ensures
        ({
            let s = model::started_alice(root, session_id, dh.0, dh.1, peer_dh, Some(kem));
            let (t, p) = model::sent(s, f, plaintext);
            &&& wire::header_of(p->Ok_0) is Some
            &&& wire::header_of(p->Ok_0)->Some_0.kem_pk == Some(kem.0)
            &&& t.kem_advertised == seq![kem]
        }),
{
    let s = model::started_alice(root, session_id, dh.0, dh.1, peer_dh, Some(kem));
    package_reads(s, f, plaintext);
}

/// A responder that meets the initiator arrives at the initiator's root and first chain, and changes
/// nothing else.
pub proof fn meeting_reproduces_chain(
    root: Seq<u8>,
    session_id: Seq<u8>,
    a_dh: (Seq<u8>, Seq<u8>),
    b_dh: (Seq<u8>, Seq<u8>),
    a_kem: Option<(Seq<u8>, Seq<u8>)>,
    b_kem: (Seq<u8>, Seq<u8>),
)
    requires
        crypto::x25519_dh(a_dh.1, b_dh.0) == crypto::x25519_dh(b_dh.1, a_dh.0),
    ensures
        ({
            let a = model::started_alice(root, session_id, a_dh.0, a_dh.1, b_dh.0, a_kem);
            let b = model::started_bob(root, session_id, b_dh.0, b_dh.1, b_kem);
            model::met(b, a_dh.0) == (SessionState {
                rk: a.rk,
                ck_r: a.ck_s,
                dh_r: Some(a_dh.0),
                n_r: 0,
                initialized: true,
                ..b
            })
        }),
{
}

// ── Whole conversations ─────────────────────────────────────────────

/// Whether `a` spoke last and everything arrived in order on both sides: it is `b`'s turn, nothing
/// is missing, no key is retained, and each side encapsulates to the other's newest KEM key.
pub open spec fn settled(a: SessionState, b: SessionState) -> bool {
    &&& facing(b, a)
    &&& b.n_r == a.n_s
    &&& a.n_r == b.pn
    &&& a.skipped == Map::<(Seq<u8>, u32), Seq<u8>>::empty()
    &&& b.skipped == Map::<(Seq<u8>, u32), Seq<u8>>::empty()
    &&& a.dh_pub.len() == 32
    &&& b.dh_pub.len() == 32
    &&& !a.advertise_kem_next
    &&& holds_newest(a, b)
    &&& holds_newest(b, a)
}

/// One line of a conversation between a first and a second side.
pub enum Line {
    /// A side says something, and the other receives it.
    Say { first: bool, f: Fresh, plaintext: Seq<u8> },
    /// A side is saved and restored.
    Reload { first: bool },
}

/// The speaker and the listener after something was said.
pub open spec fn said(x: SessionState, y: SessionState, f: Fresh, plaintext: Seq<u8>) -> (SessionState, SessionState) {
    (model::sent(x, f, plaintext).0, model::received(y, model::sent(x, f, plaintext).1->Ok_0).0)
}

/// A session whose store is empty, saved and restored.
pub open spec fn reloaded(s: SessionState) -> SessionState {
    persist::session_of(persist::session_bytes(s, Seq::empty()))->Ok_0
}

/// The two sides after a line.
#[verifier::opaque]
pub open spec fn after_line(sides: (SessionState, SessionState), line: Line) -> (SessionState, SessionState) {
    match line {
        Line::Say { first, f, plaintext } => if first {
            said(sides.0, sides.1, f, plaintext)
        } else {
            let (b, a) = said(sides.1, sides.0, f, plaintext);
            (a, b)
        },
        Line::Reload { first } => if first {
            (reloaded(sides.0), sides.1)
        } else {
            (sides.0, reloaded(sides.1))
        },
    }
}

/// Who has spoken last after a line.
pub open spec fn last_after(first_spoke: bool, line: Line) -> bool {
    match line {
        Line::Say { first, .. } => first,
        Line::Reload { .. } => first_spoke,
    }
}

/// Whether `x` can say something that reaches `y`: what is drawn can be drawn, the counter has room,
/// sealing succeeds and opens again, the Diffie-Hellman secret of a chain that is opened agrees, its
/// key is not the one `y` last saw, and ML-KEM decapsulates the KEM secret.
pub open spec fn can_say(x: SessionState, y: SessionState, f: Fresh, plaintext: Seq<u8>) -> bool {
    &&& model::can_be_drawn(x, f)
    &&& x.ck_s is Some ==> x.n_s < u32::MAX
    &&& model::sent(x, f, plaintext).1 is Ok
    &&& reopens(x, f, plaintext)
    &&& agrees(x, f)
    &&& model::opens_chain(x) ==> y.dh_r != Some(f.dh.0)
    &&& decapsulates(x, f)
}

/// Whether a line can be: a message that can be said, or a session that bytes can hold.
#[verifier::opaque]
pub open spec fn line_can_be(sides: (SessionState, SessionState), line: Line) -> bool {
    match line {
        Line::Say { first, f, plaintext } => if first {
            can_say(sides.0, sides.1, f, plaintext)
        } else {
            can_say(sides.1, sides.0, f, plaintext)
        },
        Line::Reload { first } => persist::storable(
            if first {
                sides.0
            } else {
                sides.1
            },
        ),
    }
}

/// Whether what a line says is decrypted by the other side.
#[verifier::opaque]
pub open spec fn line_is_heard(sides: (SessionState, SessionState), line: Line) -> bool {
    match line {
        Line::Say { first, f, plaintext } => {
            let (x, y) = if first {
                (sides.0, sides.1)
            } else {
                (sides.1, sides.0)
            };
            model::received(y, model::sent(x, f, plaintext).1->Ok_0).1 == Ok::<Seq<u8>, DecryptError>(plaintext)
        },
        Line::Reload { .. } => true,
    }
}

/// Whether two sides are settled, with the given one having spoken last.
#[verifier::opaque]
pub open spec fn in_conversation(sides: (SessionState, SessionState), first_spoke: bool) -> bool {
    if first_spoke {
        settled(sides.0, sides.1)
    } else {
        settled(sides.1, sides.0)
    }
}

/// The two sides after the first `k` lines.
pub open spec fn after_lines(sides: (SessionState, SessionState), lines: Seq<Line>, k: nat) -> (SessionState, SessionState)
    decreases k,
{
    if k == 0 {
        sides
    } else {
        after_line(after_lines(sides, lines, (k - 1) as nat), lines[k - 1])
    }
}

/// Who has spoken last after the first `k` lines.
pub open spec fn last_after_lines(first_spoke: bool, lines: Seq<Line>, k: nat) -> bool
    decreases k,
{
    if k == 0 {
        first_spoke
    } else {
        last_after(last_after_lines(first_spoke, lines, (k - 1) as nat), lines[k - 1])
    }
}

/// A conversation goes on: every message of two settled sides is decrypted by the other side, for
/// any number of messages in a turn and any number of turns, also where a side is saved and restored
/// in between.
pub proof fn conversation_goes_on(
    sides: (SessionState, SessionState),
    first_spoke: bool,
    lines: Seq<Line>,
    k: nat,
)
    requires
        in_conversation(sides, first_spoke),
        forall|i: int| 0 <= i < lines.len() ==> line_can_be(#[trigger] after_lines(sides, lines, i as nat), lines[i]),
        k <= lines.len(),
    ensures
        in_conversation(after_lines(sides, lines, k), last_after_lines(first_spoke, lines, k)),
        forall|i: int| 0 <= i < k ==> line_is_heard(#[trigger] after_lines(sides, lines, i as nat), lines[i]),
    decreases k,
{
    if k > 0 {
        let j = (k - 1) as nat;
        conversation_goes_on(sides, first_spoke, lines, j);
        let now = after_lines(sides, lines, j);
        assert(line_can_be(now, lines[j as int]));
        line_keeps_conversation(now, last_after_lines(first_spoke, lines, j), lines[j as int]);
        assert forall|i: int| 0 <= i < k implies line_is_heard(
            #[trigger] after_lines(sides, lines, i as nat),
            lines[i],
        ) by {}
    }
}

/// A conversation starts: once the responder has decrypted the initiator's first message, the two
/// sides are settled, and the conversation goes on from there. What the initiator was started with
/// as a KEM key pair has to be one, where its public key has the length to be sent.
pub proof fn conversation_starts(
    root: Seq<u8>,
    session_id: Seq<u8>,
    a_dh: (Seq<u8>, Seq<u8>),
    b_dh: (Seq<u8>, Seq<u8>),
    a_kem: Option<(Seq<u8>, Seq<u8>)>,
    b_kem: (Seq<u8>, Seq<u8>),
    f: Fresh,
    plaintext: Seq<u8>,
)
    requires
        a_dh.0.len() == 32,
        a_dh.1.len() == 32,
        b_dh.0.len() == 32,
        a_kem matches Some(k) ==> k.0.len() == KEM_PK_LEN ==> kdf::is_kem_pair(k.0, k.1),
        a_dh.0 == crypto::x25519_public(a_dh.1),
        crypto::x25519_dh(a_dh.1, b_dh.0) == crypto::x25519_dh(b_dh.1, a_dh.0),
        ({
            let a = model::started_alice(root, session_id, a_dh.0, a_dh.1, b_dh.0, a_kem);
            &&& model::can_be_drawn(a, f)
            &&& model::sent(a, f, plaintext).1 is Ok
            &&& reopens(a, f, plaintext)
        }),
    ensures
        ({
            let a = model::started_alice(root, session_id, a_dh.0, a_dh.1, b_dh.0, a_kem);
            let b = model::started_bob(root, session_id, b_dh.0, b_dh.1, b_kem);
            let line = Line::Say { first: true, f, plaintext };
            line_is_heard((a, b), line) && in_conversation(after_line((a, b), line), true)
        }),
{
    let a = model::started_alice(root, session_id, a_dh.0, a_dh.1, b_dh.0, a_kem);
    let b = model::started_bob(root, session_id, b_dh.0, b_dh.1, b_kem);
    reveal(after_line);
    reveal(line_is_heard);
    reveal(in_conversation);
    first_message_arrives(root, session_id, a_dh, b_dh, a_kem, b_kem, f, plaintext);
    starts_in_step(root, session_id, a_dh, b_dh, a_kem, b_kem);
    message_arrives(a, f, plaintext, b);
    package_reads(a, f, plaintext);
}

proof fn line_keeps_conversation(sides: (SessionState, SessionState), first_spoke: bool, line: Line)
    requires
        in_conversation(sides, first_spoke),
        line_can_be(sides, line),
    ensures
        line_is_heard(sides, line),
        in_conversation(after_line(sides, line), last_after(first_spoke, line)),
{
    reveal(after_line);
    reveal(line_can_be);
    reveal(line_is_heard);
    reveal(in_conversation);
    match line {
        Line::Say { first, f, plaintext } => {
            let (x, y) = if first {
                (sides.0, sides.1)
            } else {
                (sides.1, sides.0)
            };
            if first == first_spoke {
                turn_goes_on(x, y, f, plaintext);
            } else {
                turn_passes(x, y, f, plaintext);
            }
        },
        Line::Reload { first } => {
            let x = if first {
                sides.0
            } else {
                sides.1
            };
            let none = Seq::<store::Entry>::empty();
            assert(store::entries_map(none) =~= x.skipped);
            persist::restore_undoes_save(x, none, Seq::empty());
            assert(persist::session_bytes(x, none) + Seq::<u8>::empty() =~= persist::session_bytes(x, none));
        },
    }
}

/// One more message of the side that spoke last.
proof fn turn_goes_on(x: SessionState, y: SessionState, f: Fresh, plaintext: Seq<u8>)
    requires
        settled(x, y),
        can_say(x, y, f, plaintext),
    ensures
        model::received(y, model::sent(x, f, plaintext).1->Ok_0).1 == Ok::<Seq<u8>, DecryptError>(plaintext),
        settled(said(x, y, f, plaintext).0, said(x, y, f, plaintext).1),
{
    newest_key_is_reached(y, x, f, plaintext);
    message_arrives(x, f, plaintext, y);
    package_reads(x, f, plaintext);
}

/// The first message of the side whose turn it is.
proof fn turn_passes(x: SessionState, y: SessionState, f: Fresh, plaintext: Seq<u8>)
    requires
        settled(y, x),
        can_say(x, y, f, plaintext),
    ensures
        model::received(y, model::sent(x, f, plaintext).1->Ok_0).1 == Ok::<Seq<u8>, DecryptError>(plaintext),
        settled(said(x, y, f, plaintext).0, said(x, y, f, plaintext).1),
{
    newest_key_is_reached(y, x, f, plaintext);
    reply_arrives(x, f, plaintext, y);
    reply_is_in_step(x, f, y);
    message_arrives(x, f, plaintext, y);
    package_reads(x, f, plaintext);
}

} // verus!
