//! Sessions as bytes, for storage.

use crate::bytes::{push_le16, push_le32, read_le16, read_le32, slice_of, to_array32};
use crate::ratchet::session::{AdvertisedKem, Session};
use crate::ratchet::store::SkippedKeys;
use crate::ratchet::{MAX_SKIPPED_TOTAL, PKG_VERSION, SESSION_VERSION};
use crate::text::with_number;
use crate::ratchet::{kdf, model, session, store};
use crate::{bytes, text};
use vstd::prelude::*;

verus! {

broadcast use vstd::array::group_array_axioms;

/// Text of the error on bytes that end too early.
pub open spec fn truncated() -> Seq<char> {
    "session bytes truncated"@
}

// ── Writing ─────────────────────────────────────────────────────────

/// A key that may be absent: a mark, then the key.
pub open spec fn flagged_bytes(o: Option<Seq<u8>>) -> Seq<u8> {
    match o {
        Some(k) => seq![1u8] + k,
        None => seq![0u8],
    }
}

/// A byte string behind its length in 16 bits.
pub open spec fn blob_bytes(b: Seq<u8>) -> Seq<u8> {
    bytes::le16(b.len() as int) + b
}

/// A byte string that may be absent: a mark, then the string behind its length.
pub open spec fn flagged_blob_bytes(o: Option<Seq<u8>>) -> Seq<u8> {
    match o {
        Some(b) => seq![1u8] + blob_bytes(b),
        None => seq![0u8],
    }
}

/// Advertised keys, one after the other.
pub open spec fn kems_bytes(kems: Seq<(Seq<u8>, Seq<u8>)>) -> Seq<u8>
    decreases kems.len(),
{
    if kems.len() == 0 {
        Seq::empty()
    } else {
        kems_bytes(kems.drop_last()) + blob_bytes(kems.last().0) + blob_bytes(kems.last().1)
    }
}

/// Retained message keys, one after the other.
pub open spec fn keys_bytes(es: Seq<store::Entry>) -> Seq<u8>
    decreases es.len(),
{
    if es.len() == 0 {
        Seq::empty()
    } else {
        keys_bytes(es.drop_last()) + es.last().0.0 + bytes::le32(es.last().0.1 as int) + es.last().1
    }
}

/// A truth value as a byte.
pub open spec fn mark(b: bool) -> u8 {
    if b {
        1
    } else {
        0
    }
}

/// The first fields of a session, up to the keys that may be absent.
pub open spec fn head_bytes(version: u8, s: model::SessionState) -> Seq<u8> {
    seq![version] + s.session_id + s.rk + s.dh_pub + s.dh_sec
}

/// The three counters of a session.
pub open spec fn counter_bytes(s: model::SessionState) -> Seq<u8> {
    bytes::le32(s.n_s as int) + bytes::le32(s.n_r as int) + bytes::le32(s.pn as int)
}

/// All fields of a session but the store.
pub open spec fn fields_bytes(version: u8, s: model::SessionState) -> Seq<u8> {
    head_bytes(version, s) + flagged_bytes(s.dh_r) + flagged_bytes(s.ck_s) + flagged_bytes(s.ck_r) + counter_bytes(s)
        + flagged_blob_bytes(s.kem_peer) + seq![(s.kem_advertised.len() % 256) as u8] + kems_bytes(s.kem_advertised)
        + seq![mark(s.advertise_kem_next), mark(s.initialized)]
}

/// The bytes of a session whose store holds the entries `es`, in the order in which it keeps them.
pub open spec fn session_bytes(
    s: model::SessionState,
    es: Seq<store::Entry>,
) -> Seq<u8> {
    fields_bytes(SESSION_VERSION, s) + bytes::le32(es.len() as int) + keys_bytes(es)
}

// ── Reading ─────────────────────────────────────────────────────────

/// Reads a key that may be absent at `p`: the key and where reading goes on. Any mark but 1
/// (`strict`), or the mark 0, stands for no key.
pub open spec fn flagged_at(d: Seq<u8>, p: int, strict: bool) -> Option<(Option<Seq<u8>>, int)> {
    if d.len() < p + 1 {
        None
    } else if (strict && d[p] != 1) || d[p] == 0 {
        Some((None, p + 1))
    } else if d.len() < p + 33 {
        None
    } else {
        Some((Some(d.subrange(p + 1, p + 33)), p + 33))
    }
}

/// Reads a byte string behind its length at `p`.
pub open spec fn blob_at(d: Seq<u8>, p: int) -> Option<(Seq<u8>, int)> {
    if d.len() < p + 2 {
        None
    } else {
        let end = p + 2 + bytes::le16_at(d, p);
        if d.len() < end {
            None
        } else {
            Some((d.subrange(p + 2, end), end))
        }
    }
}

/// Reads a byte string that may be absent at `p`.
pub open spec fn flagged_blob_at(d: Seq<u8>, p: int) -> Option<(Option<Seq<u8>>, int)> {
    if d.len() < p + 1 {
        None
    } else if d[p] != 1 {
        Some((None, p + 1))
    } else {
        match blob_at(d, p + 1) {
            Some((b, q)) => Some((Some(b), q)),
            None => None,
        }
    }
}

/// Reads `count` advertised keys at `p`.
pub open spec fn kems_at(d: Seq<u8>, p: int, count: nat) -> Option<(Seq<(Seq<u8>, Seq<u8>)>, int)>
    decreases count,
{
    if count == 0 {
        Some((Seq::empty(), p))
    } else {
        match kems_at(d, p, (count - 1) as nat) {
            Some((front, q)) => match blob_at(d, q) {
                Some((pk, q2)) => match blob_at(d, q2) {
                    Some((sk, q3)) => Some((front.push((pk, sk)), q3)),
                    None => None,
                },
                None => None,
            },
            None => None,
        }
    }
}

/// The retained message key at `p`.
pub open spec fn key_at(d: Seq<u8>, p: int) -> store::Entry {
    ((d.subrange(p, p + 32), bytes::le32_at(d, p + 32) as u32), d.subrange(p + 36, p + 68))
}

/// The `count` retained message keys at `p`.
pub open spec fn keys_at(d: Seq<u8>, p: int, count: nat) -> Seq<store::Entry> {
    Seq::new(count, |i: int| key_at(d, p + 68 * i))
}

/// Reads the store at `p` of a session with the version byte `version`.
pub open spec fn store_at(d: Seq<u8>, p: int, version: u8) -> Result<
    Map<(Seq<u8>, u32), Seq<u8>>,
    Seq<char>,
> {
    if version != SESSION_VERSION {
        Ok(Map::empty())
    } else if d.len() < p + 4 {
        Err(truncated())
    } else if bytes::le32_at(d, p) > MAX_SKIPPED_TOTAL {
        Err("session skipped-key count out of bounds"@)
    } else if d.len() < p + 4 + 68 * bytes::le32_at(d, p) {
        Err(truncated())
    } else {
        Ok(store::entries_map(keys_at(d, p + 4, bytes::le32_at(d, p) as nat)))
    }
}

/// The fields behind the receiving chain key, read at `p`; the others are those of `s`.
pub open spec fn tail_at(d: Seq<u8>, p: int, s: model::SessionState) -> Result<
    model::SessionState,
    Seq<char>,
> {
    if d.len() < p + 12 {
        Err(truncated())
    } else {
        match flagged_blob_at(d, p + 12) {
            None => Err(truncated()),
            Some((kem_peer, p2)) => if d.len() < p2 + 1 {
                Err(truncated())
            } else {
                match kems_at(d, p2 + 1, d[p2] as nat) {
                    None => Err(truncated()),
                    Some((kem_advertised, p3)) => if d.len() < p3 + 2 {
                        Err(truncated())
                    } else {
                        match store_at(d, p3 + 2, d[0]) {
                            Err(e) => Err(e),
                            Ok(skipped) => Ok(
                                model::SessionState {
                                    n_s: bytes::le32_at(d, p) as u32,
                                    n_r: bytes::le32_at(d, p + 4) as u32,
                                    pn: bytes::le32_at(d, p + 8) as u32,
                                    kem_peer,
                                    kem_advertised,
                                    advertise_kem_next: d[p3] != 0,
                                    initialized: d[p3 + 1] != 0,
                                    skipped,
                                    ..s
                                },
                            ),
                        }
                    },
                }
            },
        }
    }
}

/// A session with the first fields that `d` holds, and nothing else yet.
pub open spec fn head_of(
    d: Seq<u8>,
    dh_r: Option<Seq<u8>>,
    ck_s: Option<Seq<u8>>,
    ck_r: Option<Seq<u8>>,
) -> model::SessionState {
    model::SessionState {
        session_id: d.subrange(1, 33),
        rk: d.subrange(33, 65),
        dh_pub: d.subrange(65, 97),
        dh_sec: d.subrange(97, 129),
        dh_r,
        ck_s,
        ck_r,
        n_s: 0,
        n_r: 0,
        pn: 0,
        kem_advertised: Seq::empty(),
        kem_peer: None,
        advertise_kem_next: false,
        skipped: Map::empty(),
        initialized: false,
    }
}

/// The session that `d` holds, or why it holds none. Bytes behind the last field are ignored.
pub open spec fn session_of(d: Seq<u8>) -> Result<model::SessionState, Seq<char>> {
    if d.len() < 1 {
        Err(truncated())
    } else if d[0] != SESSION_VERSION && d[0] != PKG_VERSION {
        Err("unsupported session version "@ + text::decimal(d[0] as nat))
    } else if d.len() < 129 {
        Err(truncated())
    } else {
        match flagged_at(d, 129, true) {
            None => Err(truncated()),
            Some((dh_r, p1)) => match flagged_at(d, p1, false) {
                None => Err(truncated()),
                Some((ck_s, p2)) => match flagged_at(d, p2, false) {
                    None => Err(truncated()),
                    Some((ck_r, p3)) => tail_at(d, p3, head_of(d, dh_r, ck_s, ck_r)),
                },
            },
        }
    }
}

/// Where the fields of a session end in `d`, if `d` holds them all.
#[verifier::opaque]
pub open spec fn fields_end(d: Seq<u8>) -> Option<int> {
    if d.len() < 129 {
        None
    } else {
        match flagged_at(d, 129, true) {
            None => None,
            Some((_, p1)) => match flagged_at(d, p1, false) {
                None => None,
                Some((_, p2)) => match flagged_at(d, p2, false) {
                    None => None,
                    Some((_, p3)) => tail_end(d, p3),
                },
            },
        }
    }
}

/// Where the fields behind the receiving chain key end, if `d` holds them all from `p` on.
pub open spec fn tail_end(d: Seq<u8>, p: int) -> Option<int> {
    if d.len() < p + 12 {
        None
    } else {
        match flagged_blob_at(d, p + 12) {
            None => None,
            Some((_, p2)) => if d.len() < p2 + 1 {
                None
            } else {
                match kems_at(d, p2 + 1, d[p2] as nat) {
                    None => None,
                    Some((_, p3)) => if d.len() < p3 + 2 {
                        None
                    } else {
                        Some(p3 + 2)
                    },
                }
            },
        }
    }
}

// ── Laws ────────────────────────────────────────────────────────────

/// A session state that bytes can hold: keys of 32 bytes, KEM keys whose length fits in 16 bits,
/// fewer than 256 advertised keys.
pub open spec fn storable(s: model::SessionState) -> bool {
    &&& s.session_id.len() == 32
    &&& s.rk.len() == 32
    &&& s.dh_pub.len() == 32
    &&& s.dh_sec.len() == 32
    &&& s.dh_r matches Some(k) ==> k.len() == 32
    &&& s.ck_s matches Some(k) ==> k.len() == 32
    &&& s.ck_r matches Some(k) ==> k.len() == 32
    &&& s.kem_peer matches Some(k) ==> k.len() < 65536
    &&& s.kem_advertised.len() < 256
    &&& forall|i: int|
        0 <= i < s.kem_advertised.len() ==> (#[trigger] s.kem_advertised[i]).0.len() < 65536
            && s.kem_advertised[i].1.len() < 65536
}

/// Entries of a store that bytes can hold.
pub open spec fn storable_keys(es: Seq<store::Entry>) -> bool {
    &&& es.len() <= MAX_SKIPPED_TOTAL
    &&& forall|i: int| 0 <= i < es.len() ==> (#[trigger] es[i]).0.0.len() == 32 && es[i].1.len() == 32
}

/// Saving and restoring a session gives the session back, whatever bytes follow.
pub proof fn restore_undoes_save(
    s: model::SessionState,
    es: Seq<store::Entry>,
    rest: Seq<u8>,
)
    requires
        storable(s),
        storable_keys(es),
        store::entries_map(es) == s.skipped,
    ensures
        session_of(session_bytes(s, es) + rest) == Ok::<model::SessionState, Seq<char>>(s),
{
    let fields = fields_bytes(SESSION_VERSION, s);
    let count = bytes::le32(es.len() as int);
    regroup(fields, count, keys_bytes(es));
    regroup(fields, count + keys_bytes(es), rest);
    store_reads_back(fields, es, rest);
    fields_read_back(SESSION_VERSION, s, count + keys_bytes(es) + rest);
}

/// Every session comes back from its bytes whole: whatever its chains, counters, KEM keys and marks are,
/// and up to 2000 retained keys.
#[verifier::spinoff_prover]
#[verifier::rlimit(60)]
pub proof fn saved_session_comes_back(s: model::SessionState, es: Seq<store::Entry>)
    requires
        s.session_id.len() == 32 && s.rk.len() == 32 && s.dh_pub.len() == 32 && s.dh_sec.len() == 32,
        s.dh_r matches Some(k) ==> k.len() == 32,
        s.ck_s matches Some(k) ==> k.len() == 32,
        s.ck_r matches Some(k) ==> k.len() == 32,
        s.kem_peer matches Some(k) ==> k.len() <= 65535,
        s.kem_advertised.len() <= 255,
        forall|i: int|
            0 <= i < s.kem_advertised.len() ==> (#[trigger] s.kem_advertised[i]).0.len() <= 65535
                && s.kem_advertised[i].1.len() <= 65535,
        es.len() <= 2000,
        forall|i: int| 0 <= i < es.len() ==> (#[trigger] es[i]).0.0.len() == 32 && es[i].1.len() == 32,
        store::entries_map(es) == s.skipped,
    ensures
        session_of(session_bytes(s, es)) == Ok::<model::SessionState, Seq<char>>(s),
{
    restore_undoes_save(s, es, Seq::empty());
    assert(session_bytes(s, es) + Seq::<u8>::empty() =~= session_bytes(s, es));
}

/// Where the parts of a session stand in its bytes: behind the version byte 0x0B, or 0x0A in the older
/// format, the session identifier, the root key and the ratchet key pair; then, each behind a mark, the
/// peer's ratchet key and the two chain keys; then the three counters of four bytes, the lowest first;
/// then, behind a mark and its length, the peer's KEM key; then the number of advertised keys.
#[verifier::spinoff_prover]
#[verifier::rlimit(60)]
pub proof fn session_layout(d: Seq<u8>)
    requires
        session_of(d) is Ok,
    ensures
        ({
            let s = session_of(d)->Ok_0;
            let p1 = 130 + if d[129] == 1 {
                32int
            } else {
                0
            };
            let p2 = p1 + 1 + if d[p1] != 0 {
                32int
            } else {
                0
            };
            let p3 = p2 + 1 + if d[p2] != 0 {
                32int
            } else {
                0
            };
            let p4 = p3 + 13;
            let len = d[p4] as int + 256 * (d[p4 + 1] as int);
            &&& d.len() >= 129
            &&& d[0] == 0x0A || d[0] == 0x0B
            &&& s.session_id == d.subrange(1, 33) && s.rk == d.subrange(33, 65)
            &&& s.dh_pub == d.subrange(65, 97) && s.dh_sec == d.subrange(97, 129)
            &&& d[129] == 1 ==> s.dh_r == Some(d.subrange(130, 162))
            &&& d[129] != 1 ==> s.dh_r is None
            &&& d[p1] != 0 ==> s.ck_s == Some(d.subrange(p1 + 1, p1 + 33))
            &&& d[p1] == 0 ==> s.ck_s is None
            &&& d[p2] != 0 ==> s.ck_r == Some(d.subrange(p2 + 1, p2 + 33))
            &&& d[p2] == 0 ==> s.ck_r is None
            &&& s.n_s == number_at(d, p3) && s.n_r == number_at(d, p3 + 4) && s.pn == number_at(d, p3 + 8)
            &&& d[p4 - 1] == 1 ==> s.kem_peer == Some(d.subrange(p4 + 2, p4 + 2 + len)) && s.kem_advertised.len() == d[p4 + 2
                + len]
            &&& d[p4 - 1] != 1 ==> s.kem_peer is None && s.kem_advertised.len() == d[p4]
            &&& d[0] == 0x0A ==> s.skipped == Map::<(Seq<u8>, u32), Seq<u8>>::empty()
        }),
{
    let p1 = flagged_at(d, 129, true)->Some_0.1;
    let p2 = flagged_at(d, p1, false)->Some_0.1;
    let p3 = flagged_at(d, p2, false)->Some_0.1;
    let p4 = flagged_blob_at(d, p3 + 12)->Some_0.1;
    bytes::le32_writes_back(d, p3);
    bytes::le32_writes_back(d, p3 + 4);
    bytes::le32_writes_back(d, p3 + 8);
    kems_are_counted(d, p4 + 1, d[p4] as nat);
}

/// The number that four bytes stand for, the lowest first.
pub open spec fn number_at(d: Seq<u8>, p: int) -> int {
    d[p] as int + 256 * (d[p + 1] as int) + 65536 * (d[p + 2] as int) + 16777216 * (d[p + 3] as int)
}

proof fn kems_are_counted(d: Seq<u8>, p: int, count: nat)
    requires
        kems_at(d, p, count) is Some,
    ensures
        kems_at(d, p, count)->Some_0.0.len() == count,
    decreases count,
{
    if count > 0 {
        kems_are_counted(d, p, (count - 1) as nat);
    }
}

/// A saved session starts with the version byte 0x0B.
pub proof fn saved_session_is_versioned(s: model::SessionState, es: Seq<store::Entry>)
    ensures
        session_bytes(s, es).len() >= 1,
        session_bytes(s, es)[0] == 0x0B,
{
    first_byte(SESSION_VERSION, s);
}

/// Each advertised key pair is written behind those before it, each half behind its length in two bytes,
/// and each retained key in 68 bytes: the ratchet key, the number and the key.
pub proof fn lists_are_written_one_by_one(
    kems: Seq<(Seq<u8>, Seq<u8>)>,
    kem: (Seq<u8>, Seq<u8>),
    es: Seq<store::Entry>,
    e: store::Entry,
)
    ensures
        kems_bytes(Seq::empty()) == Seq::<u8>::empty(),
        kems_bytes(kems.push(kem)) == kems_bytes(kems) + (bytes::le16(kem.0.len() as int) + kem.0) + (bytes::le16(
            kem.1.len() as int,
        ) + kem.1),
        keys_bytes(Seq::empty()) == Seq::<u8>::empty(),
        keys_bytes(es.push(e)) == keys_bytes(es) + e.0.0 + bytes::le32(e.0.1 as int) + e.1,
{
    assert(kems.push(kem).drop_last() =~= kems);
    assert(es.push(e).drop_last() =~= es);
}

/// Behind the other fields stand two marks, of which any but 0 is a yes, and in the newer format the number
/// of retained keys and the keys, each in 68 bytes: the ratchet key, the number and the key.
#[verifier::spinoff_prover]
#[verifier::rlimit(60)]
pub proof fn marks_and_keys_stand_last(d: Seq<u8>)
    requires
        session_of(d) is Ok,
    ensures
        ({
            let s = session_of(d)->Ok_0;
            let e = fields_end(d)->Some_0;
            &&& fields_end(d) is Some && 131 <= e <= d.len()
            &&& s.advertise_kem_next <==> d[e - 2] != 0
            &&& s.initialized <==> d[e - 1] != 0
            &&& d[0] == 0x0B ==> number_at(d, e) <= 2000 && d.len() >= e + 4 + 68 * number_at(d, e) && s.skipped
                == store::entries_map(
                Seq::new(
                    number_at(d, e) as nat,
                    |i: int|
                        (
                            (d.subrange(e + 4 + 68 * i, e + 36 + 68 * i), number_at(d, e + 36 + 68 * i) as u32),
                            d.subrange(e + 40 + 68 * i, e + 72 + 68 * i),
                        ),
                ),
            )
        }),
{
    reveal(fields_end);
    let e = fields_end(d)->Some_0;
    let p3 = flagged_at(d, flagged_at(d, flagged_at(d, 129, true)->Some_0.1, false)->Some_0.1, false)->Some_0.1;
    let p4 = flagged_blob_at(d, p3 + 12)->Some_0.1;
    kems_end_behind(d, p4 + 1, d[p4] as nat);
    if d[0] == 0x0B {
        let n = bytes::le32_at(d, e);
        assert(n == number_at(d, e));
        assert(keys_at(d, e + 4, n as nat) =~= Seq::new(
            n as nat,
            |i: int|
                (
                    (d.subrange(e + 4 + 68 * i, e + 36 + 68 * i), number_at(d, e + 36 + 68 * i) as u32),
                    d.subrange(e + 40 + 68 * i, e + 72 + 68 * i),
                ),
        ));
    }
}

proof fn kems_end_behind(d: Seq<u8>, p: int, count: nat)
    requires
        kems_at(d, p, count) is Some,
    ensures
        kems_at(d, p, count)->Some_0.1 >= p,
    decreases count,
{
    if count > 0 {
        kems_end_behind(d, p, (count - 1) as nat);
    }
}

/// A saved session with more than 2000 retained keys is not restored.
#[verifier::spinoff_prover]
#[verifier::rlimit(60)]
pub proof fn too_many_keys_are_refused(s: model::SessionState, es: Seq<store::Entry>)
    requires
        storable(s),
        2000 < es.len() <= u32::MAX,
    ensures
        session_of(session_bytes(s, es)) == Err::<model::SessionState, Seq<char>>(
            "session skipped-key count out of bounds"@,
        ),
{
    let fields = fields_bytes(SESSION_VERSION, s);
    regroup(fields, bytes::le32(es.len() as int), keys_bytes(es));
    overfull_store(fields, es.len() as int, keys_bytes(es));
    fields_read_back(SESSION_VERSION, s, bytes::le32(es.len() as int) + keys_bytes(es));
}

proof fn overfull_store(pre: Seq<u8>, n: int, rest: Seq<u8>)
    requires
        2000 < n <= u32::MAX,
    ensures
        store_at(pre + (bytes::le32(n) + rest), pre.len() as int, SESSION_VERSION) == Err::<
            Map<(Seq<u8>, u32), Seq<u8>>,
            Seq<char>,
        >("session skipped-key count out of bounds"@),
{
    let d = pre + (bytes::le32(n) + rest);
    let p = pre.len() as int;
    assert(d.subrange(p, p + 4) =~= bytes::le32(n));
    bytes::le32_reads_back(d, p, n);
}

/// What is said of bytes of a known version that hold no session: that they are cut short, or that they
/// count too many keys.
pub proof fn unfit_bytes_are_cut_or_overfull(d: Seq<u8>)
    requires
        d.len() > 0,
        d[0] == 0x0A || d[0] == 0x0B,
        session_of(d) is Err,
    ensures
        session_of(d)->Err_0 == "session bytes truncated"@ || (d[0] == 0x0B && session_of(d)->Err_0
            == "session skipped-key count out of bounds"@),
{
}

/// More than 2000 retained keys are not restored, and neither is another version.
#[verifier::spinoff_prover]
#[verifier::rlimit(60)]
pub proof fn unfit_sessions_are_refused(d: Seq<u8>)
    ensures
        d.len() >= 1 && d[0] != 0x0A && d[0] != 0x0B ==> session_of(d) == Err::<model::SessionState, Seq<char>>(
            "unsupported session version "@ + text::decimal(d[0] as nat),
        ),
        d.len() < 1 ==> session_of(d) == Err::<model::SessionState, Seq<char>>("session bytes truncated"@),
        1 <= d.len() < 129 && (d[0] == 0x0A || d[0] == 0x0B) ==> session_of(d) == Err::<model::SessionState, Seq<char>>(
            "session bytes truncated"@,
        ),
        session_of(d) matches Ok(s) ==> s.skipped.dom().finite() && s.skipped.len() <= 2000,
{
    if let Ok(s) = session_of(d) {
        reveal(fields_end);
        accepted_fields_end(d);
        let p = fields_end(d)->Some_0;
        if d[0] == 0x0B {
            let n = bytes::le32_at(d, p) as nat;
            few_entries(keys_at(d, p + 4, n));
        }
    }
}

proof fn few_entries(es: Seq<store::Entry>)
    ensures
        store::entries_map(es).dom().finite(),
        store::entries_map(es).len() <= es.len(),
    decreases es.len(),
{
    if es.len() > 0 {
        few_entries(es.drop_last());
    }
}

/// A session saved in the older format, without a store, is restored with an empty store, whatever
/// bytes follow.
pub proof fn older_format_restores(s: model::SessionState, rest: Seq<u8>)
    requires
        storable(s),
    ensures
        session_of(fields_bytes(PKG_VERSION, s) + rest) == Ok::<model::SessionState, Seq<char>>(
            model::SessionState { skipped: Map::empty(), ..s },
        ),
{
    fields_read_back(PKG_VERSION, s, rest);
}

/// A saved session that is cut short anywhere is refused.
#[verifier::spinoff_prover]
#[verifier::rlimit(60)]
pub proof fn cut_session_is_refused(s: model::SessionState, es: Seq<store::Entry>, k: int)
    requires
        storable(s),
        storable_keys(es),
        0 <= k < session_bytes(s, es).len(),
    ensures
        session_of(session_bytes(s, es).take(k)) is Err,
{
    let fields = fields_bytes(SESSION_VERSION, s);
    let count = bytes::le32(es.len() as int);
    assert(fields_end(fields + count + keys_bytes(es)) == Some(fields.len() as int)) by {
        regroup(fields, count, keys_bytes(es));
        fields_read_back(SESSION_VERSION, s, count + keys_bytes(es));
    }
    assert(fields.len() >= 1 && fields[0] == SESSION_VERSION) by {
        first_byte(SESSION_VERSION, s);
    }
    assert(keys_bytes(es).len() == 68 * es.len()) by {
        keys_read_back(Seq::empty(), es, Seq::empty());
    }
    cut_is_refused(fields, es.len(), keys_bytes(es), k);
}

/// Bytes with the given fields and a store behind them, cut short, hold no session.
proof fn cut_is_refused(fields: Seq<u8>, n: nat, keys: Seq<u8>, k: int)
    requires
        fields.len() >= 1,
        fields[0] == SESSION_VERSION,
        n <= MAX_SKIPPED_TOTAL,
        keys.len() == 68 * n,
        fields_end(fields + bytes::le32(n as int) + keys) == Some(fields.len() as int),
        0 <= k < fields.len() + 4 + keys.len(),
    ensures
        session_of((fields + bytes::le32(n as int) + keys).take(k)) is Err,
{
    let d = fields + bytes::le32(n as int) + keys;
    let e = d.take(k);
    let q = fields.len() as int;
    assert(d.subrange(q, q + 4) =~= bytes::le32(n as int));
    bytes::le32_reads_back(d, q, n as int);
    if session_of(e) is Ok {
        accepted_fields_end(e);
        prefix_fields_end(d, k);
        assert(e[0] == fields[0]);
        assert(e[q] == d[q] && e[q + 1] == d[q + 1] && e[q + 2] == d[q + 2] && e[q + 3] == d[q + 3]);
    }
}

/// A saved session with another version byte is refused, whatever else it holds.
pub proof fn other_version_is_refused(s: model::SessionState, es: Seq<store::Entry>, v: u8)
    requires
        v != SESSION_VERSION,
        v != PKG_VERSION,
    ensures
        session_of(session_bytes(s, es).update(0, v)) is Err,
{
    let d = session_bytes(s, es);
    assert(d.len() >= 1);
}

proof fn first_byte(version: u8, s: model::SessionState)
    ensures
        fields_bytes(version, s).len() >= 1,
        fields_bytes(version, s)[0] == version,
{
    let h = head_bytes(version, s);
    assert(h[0] == version);
    let a1 = h + flagged_bytes(s.dh_r);
    let a2 = a1 + flagged_bytes(s.ck_s);
    let a3 = a2 + flagged_bytes(s.ck_r);
    let a4 = a3 + counter_bytes(s);
    let a5 = a4 + flagged_blob_bytes(s.kem_peer);
    let a6 = a5 + seq![(s.kem_advertised.len() % 256) as u8];
    let a7 = a6 + kems_bytes(s.kem_advertised);
    assert(a1[0] == version && a2[0] == version && a3[0] == version && a4[0] == version);
    assert(a5[0] == version && a6[0] == version && a7[0] == version);
}

/// Bytes that hold a session hold its fields, and its store behind them.
proof fn accepted_fields_end(d: Seq<u8>)
    requires
        session_of(d) is Ok,
    ensures
        d.len() >= 129,
        fields_end(d) is Some,
        store_at(d, fields_end(d)->Some_0, d[0]) is Ok,
{
    reveal(fields_end);
}

/// What is read of a prefix is read of the whole.
proof fn prefix_fields_end(d: Seq<u8>, k: int)
    requires
        0 <= k <= d.len(),
        fields_end(d.take(k)) is Some,
    ensures
        fields_end(d) == fields_end(d.take(k)),
{
    reveal(fields_end);
    let e = d.take(k);
    prefix_flagged(d, k, 129, true);
    let p1 = flagged_at(e, 129, true)->Some_0.1;
    prefix_flagged(d, k, p1, false);
    let p2 = flagged_at(e, p1, false)->Some_0.1;
    prefix_flagged(d, k, p2, false);
    let p3 = flagged_at(e, p2, false)->Some_0.1;
    prefix_flagged_blob(d, k, p3 + 12);
    let p4 = flagged_blob_at(e, p3 + 12)->Some_0.1;
    assert(e[p4] == d[p4]);
    prefix_kems(d, k, p4 + 1, e[p4] as nat);
}

proof fn prefix_flagged(d: Seq<u8>, k: int, p: int, strict: bool)
    requires
        0 <= k <= d.len(),
        0 <= p,
        flagged_at(d.take(k), p, strict) is Some,
    ensures
        flagged_at(d, p, strict) == flagged_at(d.take(k), p, strict),
        p <= flagged_at(d, p, strict)->Some_0.1 <= k,
{
    let e = d.take(k);
    assert(e[p] == d[p]);
    if e.len() >= p + 33 {
        assert(e.subrange(p + 1, p + 33) =~= d.subrange(p + 1, p + 33));
    }
}

proof fn prefix_blob(d: Seq<u8>, k: int, p: int)
    requires
        0 <= k <= d.len(),
        0 <= p,
        blob_at(d.take(k), p) is Some,
    ensures
        blob_at(d, p) == blob_at(d.take(k), p),
        p <= blob_at(d, p)->Some_0.1 <= k,
{
    let e = d.take(k);
    assert(e[p] == d[p] && e[p + 1] == d[p + 1]);
    let end = p + 2 + bytes::le16_at(e, p);
    assert(e.subrange(p + 2, end) =~= d.subrange(p + 2, end));
}

proof fn prefix_flagged_blob(d: Seq<u8>, k: int, p: int)
    requires
        0 <= k <= d.len(),
        0 <= p,
        flagged_blob_at(d.take(k), p) is Some,
    ensures
        flagged_blob_at(d, p) == flagged_blob_at(d.take(k), p),
        p <= flagged_blob_at(d, p)->Some_0.1 <= k,
{
    let e = d.take(k);
    assert(e[p] == d[p]);
    if e[p] == 1 {
        prefix_blob(d, k, p + 1);
    }
}

proof fn prefix_kems(d: Seq<u8>, k: int, p: int, count: nat)
    requires
        0 <= k <= d.len(),
        0 <= p <= k,
        kems_at(d.take(k), p, count) is Some,
    ensures
        kems_at(d, p, count) == kems_at(d.take(k), p, count),
        p <= kems_at(d, p, count)->Some_0.1 <= k,
    decreases count,
{
    if count > 0 {
        let e = d.take(k);
        prefix_kems(d, k, p, (count - 1) as nat);
        let q = kems_at(e, p, (count - 1) as nat)->Some_0.1;
        prefix_blob(d, k, q);
        prefix_blob(d, k, blob_at(e, q)->Some_0.1);
    }
}

proof fn flagged_reads_back(pre: Seq<u8>, o: Option<Seq<u8>>, rest: Seq<u8>, strict: bool)
    requires
        o matches Some(k) ==> k.len() == 32,
    ensures
        flagged_at(pre + flagged_bytes(o) + rest, pre.len() as int, strict) == Some(
            (o, (pre + flagged_bytes(o)).len() as int),
        ),
{
    let d = pre + flagged_bytes(o) + rest;
    let p = pre.len() as int;
    assert(d[p] == flagged_bytes(o)[0]);
    if let Some(k) = o {
        assert(d.subrange(p + 1, p + 33) =~= k);
    }
}

proof fn blob_reads_back(pre: Seq<u8>, b: Seq<u8>, rest: Seq<u8>)
    requires
        b.len() < 65536,
    ensures
        blob_at(pre + blob_bytes(b) + rest, pre.len() as int) == Some((b, (pre + blob_bytes(b)).len() as int)),
{
    let d = pre + blob_bytes(b) + rest;
    let p = pre.len() as int;
    assert(d.subrange(p, p + 2) =~= bytes::le16(b.len() as int));
    bytes::le16_reads_back(d, p, b.len() as int);
    assert(d.subrange(p + 2, p + 2 + b.len()) =~= b);
}

proof fn flagged_blob_reads_back(pre: Seq<u8>, o: Option<Seq<u8>>, rest: Seq<u8>)
    requires
        o matches Some(b) ==> b.len() < 65536,
    ensures
        flagged_blob_at(pre + flagged_blob_bytes(o) + rest, pre.len() as int) == Some(
            (o, (pre + flagged_blob_bytes(o)).len() as int),
        ),
{
    let d = pre + flagged_blob_bytes(o) + rest;
    let p = pre.len() as int;
    assert(d[p] == flagged_blob_bytes(o)[0]);
    if let Some(b) = o {
        blob_reads_back(pre + seq![1u8], b, rest);
        assert(d =~= pre + seq![1u8] + blob_bytes(b) + rest);
    }
}

proof fn kems_read_back(pre: Seq<u8>, kems: Seq<(Seq<u8>, Seq<u8>)>, rest: Seq<u8>)
    requires
        forall|i: int|
            0 <= i < kems.len() ==> (#[trigger] kems[i]).0.len() < 65536 && kems[i].1.len() < 65536,
    ensures
        kems_at(pre + kems_bytes(kems) + rest, pre.len() as int, kems.len()) == Some(
            (kems, (pre + kems_bytes(kems)).len() as int),
        ),
    decreases kems.len(),
{
    if kems.len() == 0 {
        assert(kems =~= Seq::empty());
    } else {
        let front = kems.drop_last();
        let (pk, sk) = kems.last();
        assert(kems[kems.len() - 1] == (pk, sk));
        assert forall|i: int| 0 <= i < front.len() implies (#[trigger] front[i]).0.len() < 65536
            && front[i].1.len() < 65536 by {
            assert(front[i] == kems[i]);
        }
        let d = pre + kems_bytes(kems) + rest;
        kems_read_back(pre, front, blob_bytes(pk) + blob_bytes(sk) + rest);
        assert(d =~= pre + kems_bytes(front) + (blob_bytes(pk) + blob_bytes(sk) + rest));
        blob_reads_back(pre + kems_bytes(front), pk, blob_bytes(sk) + rest);
        assert(d =~= pre + kems_bytes(front) + blob_bytes(pk) + (blob_bytes(sk) + rest));
        blob_reads_back(pre + kems_bytes(front) + blob_bytes(pk), sk, rest);
        assert(d =~= pre + kems_bytes(front) + blob_bytes(pk) + blob_bytes(sk) + rest);
        assert(kems =~= front.push((pk, sk)));
    }
}

proof fn keys_read_back(pre: Seq<u8>, es: Seq<store::Entry>, rest: Seq<u8>)
    requires
        forall|i: int| 0 <= i < es.len() ==> (#[trigger] es[i]).0.0.len() == 32 && es[i].1.len() == 32,
    ensures
        keys_bytes(es).len() == 68 * es.len(),
        keys_at(pre + keys_bytes(es) + rest, pre.len() as int, es.len()) == es,
    decreases es.len(),
{
    if es.len() > 0 {
        let front = es.drop_last();
        let last = es.last();
        assert(es[es.len() - 1] == last);
        assert forall|i: int| 0 <= i < front.len() implies (#[trigger] front[i]).0.0.len() == 32
            && front[i].1.len() == 32 by {
            assert(front[i] == es[i]);
        }
        let tail = last.0.0 + bytes::le32(last.0.1 as int) + last.1;
        let d = pre + keys_bytes(es) + rest;
        keys_read_back(pre, front, tail + rest);
        assert(d =~= pre + keys_bytes(front) + (tail + rest));
        let q = (pre.len() + 68 * front.len()) as int;
        assert(d.subrange(q, q + 32) =~= last.0.0);
        assert(d.subrange(q + 32, q + 36) =~= bytes::le32(last.0.1 as int));
        bytes::le32_reads_back(d, q + 32, last.0.1 as int);
        assert(d.subrange(q + 36, q + 68) =~= last.1);
        assert forall|i: int| 0 <= i < es.len() implies #[trigger] keys_at(d, pre.len() as int, es.len())[i]
            == es[i] by {
            if i < front.len() {
                assert(keys_at(d, pre.len() as int, front.len())[i] == front[i]);
            }
        }
        assert(keys_at(d, pre.len() as int, es.len()) =~= es);
    } else {
        assert(keys_at(pre + keys_bytes(es) + rest, pre.len() as int, 0) =~= es);
    }
}

proof fn regroup(a: Seq<u8>, b: Seq<u8>, c: Seq<u8>)
    ensures
        a + b + c == a + (b + c),
{
    assert(a + b + c =~= a + (b + c));
}

proof fn store_reads_back(pre: Seq<u8>, es: Seq<store::Entry>, rest: Seq<u8>)
    requires
        storable_keys(es),
    ensures
        store_at(
            pre + (bytes::le32(es.len() as int) + keys_bytes(es) + rest),
            pre.len() as int,
            SESSION_VERSION,
        ) == Ok::<Map<(Seq<u8>, u32), Seq<u8>>, Seq<char>>(store::entries_map(es)),
{
    let count = bytes::le32(es.len() as int);
    let d = pre + (count + keys_bytes(es) + rest);
    let p = pre.len() as int;
    assert(d.subrange(p, p + 4) =~= count);
    bytes::le32_reads_back(d, p, es.len() as int);
    keys_read_back(pre + count, es, rest);
    assert(d =~= pre + count + keys_bytes(es) + rest);
}

proof fn head_reads_back(version: u8, s: model::SessionState, rest: Seq<u8>)
    requires
        storable(s),
    ensures
        head_bytes(version, s).len() == 129,
        (head_bytes(version, s) + rest)[0] == version,
        (head_bytes(version, s) + rest).subrange(1, 33) == s.session_id,
        (head_bytes(version, s) + rest).subrange(33, 65) == s.rk,
        (head_bytes(version, s) + rest).subrange(65, 97) == s.dh_pub,
        (head_bytes(version, s) + rest).subrange(97, 129) == s.dh_sec,
{
    let d = head_bytes(version, s) + rest;
    assert(d.subrange(1, 33) =~= s.session_id);
    assert(d.subrange(33, 65) =~= s.rk);
    assert(d.subrange(65, 97) =~= s.dh_pub);
    assert(d.subrange(97, 129) =~= s.dh_sec);
}

proof fn counters_read_back(pre: Seq<u8>, s: model::SessionState, rest: Seq<u8>)
    ensures
        counter_bytes(s).len() == 12,
        bytes::le32_at(pre + counter_bytes(s) + rest, pre.len() as int) == s.n_s,
        bytes::le32_at(pre + counter_bytes(s) + rest, pre.len() as int + 4) == s.n_r,
        bytes::le32_at(pre + counter_bytes(s) + rest, pre.len() as int + 8) == s.pn,
{
    let d = pre + counter_bytes(s) + rest;
    let p = pre.len() as int;
    assert(d.subrange(p, p + 4) =~= bytes::le32(s.n_s as int));
    assert(d.subrange(p + 4, p + 8) =~= bytes::le32(s.n_r as int));
    assert(d.subrange(p + 8, p + 12) =~= bytes::le32(s.pn as int));
    bytes::le32_reads_back(d, p, s.n_s as int);
    bytes::le32_reads_back(d, p + 4, s.n_r as int);
    bytes::le32_reads_back(d, p + 8, s.pn as int);
}

proof fn byte_reads_back(pre: Seq<u8>, x: Seq<u8>, rest: Seq<u8>)
    ensures
        (pre + x + rest).len() == pre.len() + x.len() + rest.len(),
        forall|i: int| 0 <= i < x.len() ==> (pre + x + rest)[pre.len() + i] == #[trigger] x[i],
        pre.len() > 0 ==> (pre + x + rest)[0] == pre[0],
{
}

/// The fields of a session read back; the store is what is read behind them.
#[verifier::spinoff_prover]
#[verifier::rlimit(60)]
proof fn fields_read_back(version: u8, s: model::SessionState, rest: Seq<u8>)
    requires
        storable(s),
        version == SESSION_VERSION || version == PKG_VERSION,
    ensures
        ({
            let d = fields_bytes(version, s) + rest;
            &&& session_of(d) == match store_at(d, fields_bytes(version, s).len() as int, version) {
                Err(e) => Err::<model::SessionState, Seq<char>>(e),
                Ok(m) => Ok(model::SessionState { skipped: m, ..s }),
            }
            &&& fields_end(d) == Some(fields_bytes(version, s).len() as int)
        }),
{
    let d = fields_bytes(version, s) + rest;
    let (f0, f1, f2) = (flagged_bytes(s.dh_r), flagged_bytes(s.ck_s), flagged_bytes(s.ck_r));
    let (f3, f4, f6) = (counter_bytes(s), flagged_blob_bytes(s.kem_peer), kems_bytes(s.kem_advertised));
    let f5 = seq![(s.kem_advertised.len() % 256) as u8];
    let f7 = seq![mark(s.advertise_kem_next), mark(s.initialized)];
    let a0 = head_bytes(version, s);
    let a1 = a0 + f0;
    let a2 = a1 + f1;
    let a3 = a2 + f2;
    let a4 = a3 + f3;
    let a5 = a4 + f4;
    let a6 = a5 + f5;
    let a7 = a6 + f6;
    regroup(a7, f7, rest);
    regroup(a6, f6, f7 + rest);
    regroup(a5, f5, f6 + (f7 + rest));
    regroup(a4, f4, f5 + (f6 + (f7 + rest)));
    regroup(a3, f3, f4 + (f5 + (f6 + (f7 + rest))));
    regroup(a2, f2, f3 + (f4 + (f5 + (f6 + (f7 + rest)))));
    regroup(a1, f1, f2 + (f3 + (f4 + (f5 + (f6 + (f7 + rest))))));
    regroup(a0, f0, f1 + (f2 + (f3 + (f4 + (f5 + (f6 + (f7 + rest)))))));
    head_reads_back(version, s, f0 + (f1 + (f2 + (f3 + (f4 + (f5 + (f6 + (f7 + rest))))))));
    flagged_reads_back(a0, s.dh_r, f1 + (f2 + (f3 + (f4 + (f5 + (f6 + (f7 + rest)))))), true);
    flagged_reads_back(a1, s.ck_s, f2 + (f3 + (f4 + (f5 + (f6 + (f7 + rest))))), false);
    flagged_reads_back(a2, s.ck_r, f3 + (f4 + (f5 + (f6 + (f7 + rest)))), false);
    counters_read_back(a3, s, f4 + (f5 + (f6 + (f7 + rest))));
    flagged_blob_reads_back(a4, s.kem_peer, f5 + (f6 + (f7 + rest)));
    byte_reads_back(a5, f5, f6 + (f7 + rest));
    assert(f5[0] == s.kem_advertised.len());
    kems_read_back(a6, s.kem_advertised, f7 + rest);
    byte_reads_back(a7, f7, rest);
    assert(f7[0] == mark(s.advertise_kem_next) && f7[1] == mark(s.initialized));
    assert(d == a7 + f7 + rest);
    assert(d.len() >= a7.len() + 2);
    assert(flagged_at(d, 129, true) == Some((s.dh_r, a1.len() as int)));
    assert(flagged_at(d, a1.len() as int, false) == Some((s.ck_s, a2.len() as int)));
    assert(flagged_at(d, a2.len() as int, false) == Some((s.ck_r, a3.len() as int)));
    assert(flagged_blob_at(d, a4.len() as int) == Some((s.kem_peer, a5.len() as int)));
    assert(kems_at(d, a6.len() as int, s.kem_advertised.len()) == Some((s.kem_advertised, a7.len() as int)));
    fields_assemble(d, version, s, a3.len() as int, a5.len() as int, a7.len() as int);
}

proof fn fields_assemble(
    d: Seq<u8>,
    version: u8,
    s: model::SessionState,
    p3: int,
    p5: int,
    p7: int,
)
    requires
        0 < p3,
        p3 + 12 <= p5 <= d.len(),
        p5 < p7,
        p7 + 2 <= d.len(),
        d.len() >= 129,
        version == SESSION_VERSION || version == PKG_VERSION,
        d[0] == version,
        d.subrange(1, 33) == s.session_id,
        d.subrange(33, 65) == s.rk,
        d.subrange(65, 97) == s.dh_pub,
        d.subrange(97, 129) == s.dh_sec,
        flagged_at(d, 129, true) is Some,
        flagged_at(d, 129, true)->Some_0.0 == s.dh_r,
        flagged_at(d, flagged_at(d, 129, true)->Some_0.1, false) is Some,
        flagged_at(d, flagged_at(d, 129, true)->Some_0.1, false)->Some_0.0 == s.ck_s,
        flagged_at(d, flagged_at(d, flagged_at(d, 129, true)->Some_0.1, false)->Some_0.1, false) == Some(
            (s.ck_r, p3),
        ),
        bytes::le32_at(d, p3) == s.n_s,
        bytes::le32_at(d, p3 + 4) == s.n_r,
        bytes::le32_at(d, p3 + 8) == s.pn,
        flagged_blob_at(d, p3 + 12) == Some((s.kem_peer, p5)),
        d[p5] == s.kem_advertised.len(),
        kems_at(d, p5 + 1, s.kem_advertised.len()) == Some((s.kem_advertised, p7)),
        d[p7] == mark(s.advertise_kem_next),
        d[p7 + 1] == mark(s.initialized),
    ensures
        session_of(d) == match store_at(d, p7 + 2, version) {
            Err(e) => Err::<model::SessionState, Seq<char>>(e),
            Ok(m) => Ok(model::SessionState { skipped: m, ..s }),
        },
        fields_end(d) == Some(p7 + 2),
{
    reveal(fields_end);
}

// ── Code ────────────────────────────────────────────────────────────

fn push_flagged(out: &mut Vec<u8>, key: &Option<[u8; 32]>)
    ensures
        final(out)@ == old(out)@ + flagged_bytes(kdf::opt_key(*key)),
{
    let ghost before = out@;
    match key {
        Some(v) => {
            out.push(1);
            out.extend_from_slice(v);
        },
        None => out.push(0),
    }
    assert(out@ =~= before + flagged_bytes(kdf::opt_key(*key)));
}

fn push_blob(out: &mut Vec<u8>, blob: &Vec<u8>)
    ensures
        final(out)@ == old(out)@ + blob_bytes(blob@),
{
    let ghost before = out@;
    push_le16(out, blob.len());
    out.extend_from_slice(blob);
    assert(out@ =~= before + blob_bytes(blob@));
}

fn read_flagged(d: &[u8], p: usize, strict: bool) -> (r: Option<(Option<[u8; 32]>, usize)>)
    requires
        p <= d@.len(),
    ensures
        match r {
            Some((k, q)) => flagged_at(d@, p as int, strict) == Some(
                (kdf::opt_key(k), q as int),
            ) && q <= d@.len(),
            None => flagged_at(d@, p as int, strict) is None,
        },
{
    if d.len() - p < 1 {
        return None;
    }
    if (strict && d[p] != 1) || d[p] == 0 {
        return Some((None, p + 1));
    }
    if d.len() - p < 33 {
        return None;
    }
    Some((Some(to_array32(vstd::slice::slice_subrange(d, p + 1, p + 33))), p + 33))
}

fn read_blob(d: &[u8], p: usize) -> (r: Option<(Vec<u8>, usize)>)
    requires
        p <= d@.len(),
    ensures
        match r {
            Some((b, q)) => blob_at(d@, p as int) == Some((b@, q as int)) && q <= d@.len(),
            None => blob_at(d@, p as int) is None,
        },
{
    if d.len() - p < 2 {
        return None;
    }
    let len = read_le16(d, p);
    if d.len() - p - 2 < len {
        return None;
    }
    Some((slice_of(d, p + 2, p + 2 + len), p + 2 + len))
}

fn read_flagged_blob(d: &[u8], p: usize) -> (r: Option<(Option<Vec<u8>>, usize)>)
    requires
        p <= d@.len(),
    ensures
        match r {
            Some((b, q)) => flagged_blob_at(d@, p as int) == Some(
                (kdf::opt_bytes(b), q as int),
            ) && q <= d@.len(),
            None => flagged_blob_at(d@, p as int) is None,
        },
{
    if d.len() - p < 1 {
        return None;
    }
    if d[p] != 1 {
        return Some((None, p + 1));
    }
    match read_blob(d, p + 1) {
        Some((b, q)) => Some((Some(b), q)),
        None => None,
    }
}

fn read_kems(d: &[u8], p: usize, count: usize) -> (r: Option<(Vec<AdvertisedKem>, usize)>)
    requires
        p <= d@.len(),
    ensures
        match r {
            Some((kems, q)) => kems_at(d@, p as int, count as nat) == Some(
                (session::kem_pairs(kems@), q as int),
            ) && q <= d@.len(),
            None => kems_at(d@, p as int, count as nat) is None,
        },
{
    let mut kems: Vec<AdvertisedKem> = Vec::new();
    let mut q: usize = p;
    let mut i: usize = 0;
    assert(session::kem_pairs(kems@) =~= Seq::<(Seq<u8>, Seq<u8>)>::empty());
    while i < count
        invariant
            i <= count,
            q <= d@.len(),
            kems_at(d@, p as int, i as nat) == Some((session::kem_pairs(kems@), q as int)),
        decreases count - i,
    {
        let ghost before = kems@;
        let (pk, q2) = match read_blob(d, q) {
            Some(x) => x,
            None => {
                proof {
                    kems_stay_cut(d@, p as int, (i + 1) as nat, count as nat);
                }
                return None;
            },
        };
        let (sk, q3) = match read_blob(d, q2) {
            Some(x) => x,
            None => {
                proof {
                    kems_stay_cut(d@, p as int, (i + 1) as nat, count as nat);
                }
                return None;
            },
        };
        let ghost pair = (pk@, sk@);
        kems.push(AdvertisedKem { pk, sk });
        assert(session::kem_pairs(kems@) =~= session::kem_pairs(before).push(pair));
        q = q3;
        i = i + 1;
    }
    Some((kems, q))
}

proof fn kems_stay_cut(d: Seq<u8>, p: int, a: nat, b: nat)
    requires
        a <= b,
        kems_at(d, p, a) is None,
    ensures
        kems_at(d, p, b) is None,
    decreases b,
{
    if a < b {
        kems_stay_cut(d, p, a, (b - 1) as nat);
    }
}

/// Reads `count` retained message keys at `p`.
fn read_keys(d: &[u8], p: usize, count: usize) -> (r: SkippedKeys)
    requires
        p + 68 * count <= d@.len(),
    ensures
        r@ == store::entries_map(keys_at(d@, p as int, count as nat)),
{
    let mut store = SkippedKeys::new();
    let total = d.len();
    let mut i: usize = 0;
    let mut q: usize = p;
    while i < count
        invariant
            total == d@.len(),
            i <= count,
            q == p + 68 * i,
            p + 68 * count <= d@.len(),
            store@ == store::entries_map(keys_at(d@, p as int, i as nat)),
        decreases count - i,
    {
        let dh = to_array32(vstd::slice::slice_subrange(d, q, q + 32));
        let n = read_le32(d, q + 32);
        let mk = to_array32(vstd::slice::slice_subrange(d, q + 36, q + 68));
        store.insert(dh, n, mk);
        proof {
            let next = keys_at(d@, p as int, (i + 1) as nat);
            assert(next.drop_last() =~= keys_at(d@, p as int, i as nat));
            assert(next.last() == key_at(d@, q as int));
        }
        i = i + 1;
        q = q + 68;
    }
    store
}

impl Session {
    /// Serializes the session for encrypted storage. The retained keys stand in ascending order.
    pub fn to_bytes(&self) -> (r: Vec<u8>)
        ensures
            r@ == session_bytes(self@, self.skipped.entries()),
            store::ascending(self.skipped.entries()),
            store::entries_map(self.skipped.entries()) == self@.skipped,
    {
        let ghost s = self@;
        let mut out: Vec<u8> = Vec::new();
        out.push(SESSION_VERSION);
        out.extend_from_slice(&self.session_id);
        out.extend_from_slice(&self.rk);
        out.extend_from_slice(&self.dh_s.0);
        out.extend_from_slice(&self.dh_s.1);
        assert(out@ =~= head_bytes(SESSION_VERSION, s));
        push_flagged(&mut out, &self.dh_r);
        push_flagged(&mut out, &self.ck_s);
        push_flagged(&mut out, &self.ck_r);
        let ghost b1 = out@;
        push_le32(&mut out, self.n_s);
        push_le32(&mut out, self.n_r);
        push_le32(&mut out, self.pn);
        assert(out@ =~= b1 + counter_bytes(s));
        let ghost b2 = out@;
        match &self.kem_peer {
            Some(v) => {
                out.push(1);
                push_blob(&mut out, v);
            },
            None => out.push(0),
        }
        assert(out@ =~= b2 + flagged_blob_bytes(s.kem_peer));
        let ghost b3 = out@;
        out.push((self.kem_advertised.len() % 256) as u8);
        assert(out@ =~= b3 + seq![(s.kem_advertised.len() % 256) as u8]);
        let ghost b4 = out@;
        let mut i: usize = 0;
        assert(s.kem_advertised.take(0) =~= Seq::<(Seq<u8>, Seq<u8>)>::empty());
        assert(out@ =~= b4 + kems_bytes(s.kem_advertised.take(0)));
        while i < self.kem_advertised.len()
            invariant
                s == self@,
                i <= self.kem_advertised@.len(),
                out@ == b4 + kems_bytes(s.kem_advertised.take(i as int)),
            decreases self.kem_advertised@.len() - i,
        {
            let ghost front = s.kem_advertised.take(i as int);
            let ghost next = s.kem_advertised.take(i + 1);
            assert(next.drop_last() =~= front);
            assert(next.last() == s.kem_advertised[i as int]);
            push_blob(&mut out, &self.kem_advertised[i].pk);
            push_blob(&mut out, &self.kem_advertised[i].sk);
            assert(out@ =~= b4 + kems_bytes(next));
            i = i + 1;
        }
        assert(s.kem_advertised.take(i as int) =~= s.kem_advertised);
        let ghost b5 = out@;
        out.push(if self.advertise_kem_next {
            1
        } else {
            0
        });
        out.push(if self.initialized {
            1
        } else {
            0
        });
        assert(out@ =~= b5 + seq![mark(s.advertise_kem_next), mark(s.initialized)]);
        let count = self.skipped.len();
        let ghost es = self.skipped.entries();
        let ghost b6 = out@;
        push_low32(&mut out, count);
        let ghost b7 = out@;
        let mut j: usize = 0;
        assert(es.take(0) =~= Seq::<store::Entry>::empty());
        assert(out@ =~= b7 + keys_bytes(es.take(0)));
        while j < count
            invariant
                j <= count,
                es == self.skipped.entries(),
                count == es.len(),
                out@ == b7 + keys_bytes(es.take(j as int)),
            decreases count - j,
        {
            let ghost next = es.take(j + 1);
            assert(next.drop_last() =~= es.take(j as int));
            assert(next.last() == es[j as int]);
            let (dh, n, mk) = self.skipped.entry_at(j);
            out.extend_from_slice(&dh);
            push_le32(&mut out, n);
            out.extend_from_slice(&mk);
            assert(out@ =~= b7 + keys_bytes(next));
            j = j + 1;
        }
        assert(es.take(j as int) =~= es);
        out
    }

    /// Restores a session from [`Session::to_bytes`], or from the older format without a store.
    pub fn from_bytes(data: &[u8]) -> (r: Result<Session, String>)
        ensures
            match r {
                Ok(s) => session_of(data@) == Ok::<model::SessionState, Seq<char>>(s@),
                Err(e) => session_of(data@) == Err::<model::SessionState, Seq<char>>(e@),
            },
    {
        if data.len() < 1 {
            return Err("session bytes truncated".to_owned());
        }
        let version: u8 = data[0];
        if version != SESSION_VERSION && version != PKG_VERSION {
            return Err(with_number("unsupported session version ", version as u64));
        }
        if data.len() < 129 {
            return Err("session bytes truncated".to_owned());
        }
        let session_id = to_array32(vstd::slice::slice_subrange(data, 1, 33));
        let rk = to_array32(vstd::slice::slice_subrange(data, 33, 65));
        let dh_pub = to_array32(vstd::slice::slice_subrange(data, 65, 97));
        let dh_sec = to_array32(vstd::slice::slice_subrange(data, 97, 129));
        let (dh_r, p1) = match read_flagged(data, 129, true) {
            Some(x) => x,
            None => {
                return Err("session bytes truncated".to_owned());
            },
        };
        let (ck_s, p2) = match read_flagged(data, p1, false) {
            Some(x) => x,
            None => {
                return Err("session bytes truncated".to_owned());
            },
        };
        let (ck_r, p3) = match read_flagged(data, p2, false) {
            Some(x) => x,
            None => {
                return Err("session bytes truncated".to_owned());
            },
        };
        if data.len() - p3 < 12 {
            return Err("session bytes truncated".to_owned());
        }
        let n_s = read_le32(data, p3);
        let n_r = read_le32(data, p3 + 4);
        let pn = read_le32(data, p3 + 8);
        let (kem_peer, p4) = match read_flagged_blob(data, p3 + 12) {
            Some(x) => x,
            None => {
                return Err("session bytes truncated".to_owned());
            },
        };
        if data.len() - p4 < 1 {
            return Err("session bytes truncated".to_owned());
        }
        let (kem_advertised, p5) = match read_kems(data, p4 + 1, data[p4] as usize) {
            Some(x) => x,
            None => {
                return Err("session bytes truncated".to_owned());
            },
        };
        if data.len() - p5 < 2 {
            return Err("session bytes truncated".to_owned());
        }
        let advertise_kem_next = data[p5] != 0;
        let initialized = data[p5 + 1] != 0;
        let mut skipped = SkippedKeys::new();
        if version == SESSION_VERSION {
            let p6: usize = p5 + 2;
            if data.len() - p6 < 4 {
                return Err("session bytes truncated".to_owned());
            }
            let count = read_le32(data, p6) as usize;
            if count > MAX_SKIPPED_TOTAL {
                return Err("session skipped-key count out of bounds".to_owned());
            }
            if data.len() - p6 - 4 < 68 * count {
                return Err("session bytes truncated".to_owned());
            }
            skipped = read_keys(data, p6 + 4, count);
        }
        Ok(
            Session {
                session_id,
                rk,
                dh_s: (dh_pub, dh_sec),
                dh_r,
                ck_s,
                ck_r,
                n_s,
                n_r,
                pn,
                kem_advertised,
                kem_peer,
                skipped,
                advertise_kem_next,
                initialized,
            },
        )
    }
}

/// Appends the low 32 bits of `x`.
fn push_low32(out: &mut Vec<u8>, x: usize)
    ensures
        final(out)@ == old(out)@ + bytes::le32(x as int),
{
    out.push((x % 256) as u8);
    out.push((x / 256 % 256) as u8);
    out.push((x / 65536 % 256) as u8);
    out.push((x / 16777216 % 256) as u8);
}

} // verus!
