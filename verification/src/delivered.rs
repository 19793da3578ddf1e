//! # Delivered messages
//!
//! Which payloads were already delivered to whom. A payload is known by a 64-bit hash of its bytes;
//! the hashes of a user are kept in the order in which they came, and the oldest go first when there
//! are too many. The sets outlive a connection in storage: together they make delivery exactly-once.

use crate::bytes::same;
use std::collections::hash_map::DefaultHasher;
use std::hash::Hasher;
use vstd::prelude::*;

verus! {

/// Number of hashes of a user in memory from which on the oldest half goes.
pub const MAX_DELIVERED_HASHES: usize = 4096;

/// Most hashes of a user in storage.
pub const MAX_PERSISTED_HASHES: usize = 8192;

/// The bytes of a number, least significant first: as many as are asked for.
pub open spec fn low_bytes(x: int, n: nat) -> Seq<u8>
    decreases n,
{
    if n == 0 {
        Seq::empty()
    } else {
        seq![(x % 256) as u8] + low_bytes(x / 256, (n - 1) as nat)
    }
}

/// The number whose bytes are given, least significant first.
pub open spec fn value_of(d: Seq<u8>) -> int
    decreases d.len(),
{
    if d.len() == 0 {
        0
    } else {
        d[0] + 256 * value_of(d.skip(1))
    }
}

/// Eight bytes of a number, least significant first.
pub open spec fn le64(x: int) -> Seq<u8> {
    low_bytes(x, 8)
}

/// The hash by which a payload is known: std's default hasher, fed the length and the bytes.
pub open spec fn hash_of(payload: Seq<u8>) -> u64 {
    <DefaultHasher as vstd::std_specs::hash::DefaultHasherAdditionalSpecFns>::spec_finish(
        seq![le64(payload.len() as int), payload],
    )
}

/// A user's hashes with one more: where there are too many, the oldest [`MAX_DELIVERED_HASHES`] / 2
/// go first.
pub open spec fn marked(hashes: Seq<u64>, h: u64) -> Seq<u64> {
    if hashes.len() >= MAX_DELIVERED_HASHES {
        hashes.skip((MAX_DELIVERED_HASHES / 2) as int).push(h)
    } else {
        hashes.push(h)
    }
}

/// The hashes of a user; none where nothing is known of the user.
pub open spec fn hashes_for(m: Map<Seq<u8>, Seq<u64>>, user: Seq<u8>) -> Seq<u64> {
    if m.contains_key(user) {
        m[user]
    } else {
        Seq::empty()
    }
}

/// Whether a payload was delivered to a user.
pub open spec fn was_delivered(m: Map<Seq<u8>, Seq<u64>>, user: Seq<u8>, payload: Seq<u8>) -> bool {
    hashes_for(m, user).contains(hash_of(payload))
}

/// The sets after a hash is marked for a user. One that is there already changes nothing.
pub open spec fn with_hash(m: Map<Seq<u8>, Seq<u64>>, user: Seq<u8>, h: u64) -> Map<Seq<u8>, Seq<u64>> {
    if hashes_for(m, user).contains(h) {
        m
    } else {
        m.insert(user, marked(hashes_for(m, user), h))
    }
}

/// The sets after a payload is marked as delivered to a user.
pub open spec fn with_mark(m: Map<Seq<u8>, Seq<u64>>, user: Seq<u8>, payload: Seq<u8>) -> Map<Seq<u8>, Seq<u64>> {
    with_hash(m, user, hash_of(payload))
}

/// A list without the values that it already has further ahead.
pub open spec fn deduplicated(s: Seq<u64>) -> Seq<u64>
    decreases s.len(),
{
    if s.len() == 0 {
        Seq::empty()
    } else {
        let front = deduplicated(s.drop_last());
        if front.contains(s.last()) {
            front
        } else {
            front.push(s.last())
        }
    }
}

/// The newest hashes, as many as storage takes.
pub open spec fn newest(hashes: Seq<u64>) -> Seq<u64> {
    if hashes.len() > MAX_PERSISTED_HASHES {
        hashes.skip(hashes.len() - MAX_PERSISTED_HASHES)
    } else {
        hashes
    }
}

// ── Laws ────────────────────────────────────────────────────────────

/// The length of a payload is fed to the hasher in eight bytes, the lowest one first.
pub proof fn le64_is_little_endian(x: int)
    requires
        0 <= x <= u64::MAX,
    ensures
        le64(x).len() == 8,
        le64(x)[0] as int + 0x100 * (le64(x)[1] as int) + 0x1_0000 * (le64(x)[2] as int) + 0x100_0000 * (le64(x)[3] as int)
            + 0x1_0000_0000 * (le64(x)[4] as int) + 0x100_0000_0000 * (le64(x)[5] as int) + 0x1_0000_0000_0000 * (
        le64(x)[6] as int) + 0x100_0000_0000_0000 * (le64(x)[7] as int) == x,
{
    reveal_with_fuel(low_bytes, 9);
    let d = le64(x);
    let x1 = x / 256;
    let x2 = x1 / 256;
    let x3 = x2 / 256;
    let x4 = x3 / 256;
    let x5 = x4 / 256;
    let x6 = x5 / 256;
    let x7 = x6 / 256;
    assert(d =~= seq![
        (x % 256) as u8,
        (x1 % 256) as u8,
        (x2 % 256) as u8,
        (x3 % 256) as u8,
        (x4 % 256) as u8,
        (x5 % 256) as u8,
        (x6 % 256) as u8,
        (x7 % 256) as u8,
    ]);
    assert(x7 < 256);
}

/// Two payloads are known by one hash only where std's default hasher finishes alike on both, having
/// been fed the length and then every byte.
pub proof fn hash_covers_payload(a: Seq<u8>, b: Seq<u8>)
    ensures
        hash_of(a) == hash_of(b) <==> <DefaultHasher as vstd::std_specs::hash::DefaultHasherAdditionalSpecFns>::spec_finish(seq![le64(a.len() as int), a])
            == <DefaultHasher as vstd::std_specs::hash::DefaultHasherAdditionalSpecFns>::spec_finish(seq![le64(b.len() as int), b]),
        hash_of(a) == <DefaultHasher as vstd::std_specs::hash::DefaultHasherAdditionalSpecFns>::spec_finish(
            seq![le64(a.len() as int), a],
        ),
{
}

/// A payload was delivered to a user exactly where something is known of the user and the payload's
/// hash is part of it.
pub proof fn delivery_is_in_the_set(m: Map<Seq<u8>, Seq<u64>>, user: Seq<u8>, payload: Seq<u8>)
    ensures
        was_delivered(m, user, payload) <==> m.contains_key(user) && m[user].contains(hash_of(payload)),
{
}

/// Marking one payload makes no other one known, but for one that the hasher finishes alike on.
pub proof fn mark_adds_no_other(m: Map<Seq<u8>, Seq<u64>>, user: Seq<u8>, marked_one: Seq<u8>, other: Seq<u8>)
    requires
        !was_delivered(m, user, other),
        <DefaultHasher as vstd::std_specs::hash::DefaultHasherAdditionalSpecFns>::spec_finish(seq![le64(marked_one.len() as int), marked_one])
            != <DefaultHasher as vstd::std_specs::hash::DefaultHasherAdditionalSpecFns>::spec_finish(seq![le64(other.len() as int), other]),
    ensures
        !was_delivered(with_mark(m, user, marked_one), user, other),
{
    let s = hashes_for(m, user);
    let h = hash_of(marked_one);
    if !s.contains(h) {
        let t = marked(s, h);
        if t.contains(hash_of(other)) {
            let i = choose|i: int| 0 <= i < t.len() && t[i] == hash_of(other);
            if i < t.len() - 1 {
                let k = t.len() - 1 - i;
                assert(t[i] == s[s.len() - k]);
            }
        }
    }
}

/// The sets after payloads are marked for a user, one after the other.
pub open spec fn with_marks(m: Map<Seq<u8>, Seq<u64>>, user: Seq<u8>, payloads: Seq<Seq<u8>>) -> Map<Seq<u8>, Seq<u64>>
    decreases payloads.len(),
{
    if payloads.len() == 0 {
        m
    } else {
        with_mark(with_marks(m, user, payloads.drop_last()), user, payloads.last())
    }
}

/// A payload that differs from all that were delivered to a user is not taken for a duplicate, unless
/// the hasher finishes alike on it and on one of them.
pub proof fn new_payload_is_no_duplicate(user: Seq<u8>, payloads: Seq<Seq<u8>>, payload: Seq<u8>)
    requires
        forall|i: int|
            0 <= i < payloads.len() ==> <DefaultHasher as vstd::std_specs::hash::DefaultHasherAdditionalSpecFns>::spec_finish(
                seq![le64(#[trigger] payloads[i].len() as int), payloads[i]],
            ) != <DefaultHasher as vstd::std_specs::hash::DefaultHasherAdditionalSpecFns>::spec_finish(seq![le64(payload.len() as int), payload]),
    ensures
        !was_delivered(with_marks(Map::empty(), user, payloads), user, payload),
    decreases payloads.len(),
{
    if payloads.len() > 0 {
        let front = payloads.drop_last();
        assert forall|i: int| 0 <= i < front.len() implies <DefaultHasher as vstd::std_specs::hash::DefaultHasherAdditionalSpecFns>::spec_finish(
            seq![le64(#[trigger] front[i].len() as int), front[i]],
        ) != <DefaultHasher as vstd::std_specs::hash::DefaultHasherAdditionalSpecFns>::spec_finish(seq![le64(payload.len() as int), payload]) by {
            assert(front[i] == payloads[i]);
        }
        new_payload_is_no_duplicate(user, front, payload);
        assert(payloads.last() == payloads[payloads.len() - 1]);
        mark_adds_no_other(with_marks(Map::empty(), user, front), user, payloads.last(), payload);
    }
}

/// What marking a new payload makes of a user's list: the payload's hash comes last, behind what was
/// there, of which the oldest 2048 go where there are 4096 or more. A payload that is known changes
/// nothing.
pub proof fn mark_comes_last(m: Map<Seq<u8>, Seq<u64>>, user: Seq<u8>, payload: Seq<u8>)
    ensures
        was_delivered(m, user, payload) ==> with_mark(m, user, payload) == m,
        !was_delivered(m, user, payload) ==> ({
            let old_list = if m.contains_key(user) {
                m[user]
            } else {
                Seq::<u64>::empty()
            };
            let kept = if old_list.len() >= 4096 {
                old_list.skip(2048)
            } else {
                old_list
            };
            with_mark(m, user, payload) == m.insert(user, kept.push(hash_of(payload)))
        }),
{
}

/// Storage takes the end of a user's list: all of it up to 8192 hashes, and the newest 8192 of a
/// longer one.
pub proof fn newest_are_stored(hashes: Seq<u64>)
    ensures
        newest(hashes).len() == if hashes.len() > 8192 {
            8192
        } else {
            hashes.len()
        },
        newest(hashes) == hashes.skip(hashes.len() - newest(hashes).len()),
{
    assert(hashes.skip(0) =~= hashes);
}

/// Taking over persisted hashes keeps each of them once and none besides, and changes nothing of a
/// list in which none is twice.
pub proof fn takeover_keeps_each_once(s: Seq<u64>)
    ensures
        deduplicated(s).no_duplicates(),
        forall|h: u64| deduplicated(s).contains(h) <==> s.contains(h),
        s.no_duplicates() ==> deduplicated(s) == s,
    decreases s.len(),
{
    deduplicated_is_set(s);
    if s.no_duplicates() && s.len() > 0 {
        let front = s.drop_last();
        assert(front.no_duplicates()) by {
            assert forall|i: int, j: int| 0 <= i < front.len() && 0 <= j < front.len() && i != j implies front[i]
                != front[j] by {
                assert(s[i] != s[j]);
            }
        }
        takeover_keeps_each_once(front);
        assert(!front.contains(s.last())) by {
            if front.contains(s.last()) {
                let i = choose|i: int| 0 <= i < front.len() && front[i] == s.last();
                assert(s[i] == s[s.len() - 1]);
            }
        }
        assert(deduplicated(s) =~= s);
    }
}

/// Hashes come in the order in which they are found first: what follows in a list changes nothing of
/// what came before it.
pub proof fn takeover_keeps_order(s: Seq<u64>, h: u64)
    ensures
        deduplicated(s.push(h)) == if s.contains(h) {
            deduplicated(s)
        } else {
            deduplicated(s).push(h)
        },
{
    deduplicated_is_set(s);
    assert(s.push(h).drop_last() =~= s);
}

/// A payload that was marked is known as delivered.
pub proof fn mark_is_remembered(m: Map<Seq<u8>, Seq<u64>>, user: Seq<u8>, payload: Seq<u8>)
    ensures
        was_delivered(with_mark(m, user, payload), user, payload),
{
    if !was_delivered(m, user, payload) {
        let s = marked(hashes_for(m, user), hash_of(payload));
        assert(s[s.len() - 1] == hash_of(payload));
    }
}

/// Marking a payload for one user says nothing of another.
pub proof fn marks_are_per_user(m: Map<Seq<u8>, Seq<u64>>, user: Seq<u8>, payload: Seq<u8>, other: Seq<u8>)
    requires
        other != user,
    ensures
        hashes_for(with_mark(m, user, payload), other) == hashes_for(m, other),
{
}

/// Marking forgets no delivery while there are fewer than [`MAX_DELIVERED_HASHES`], and otherwise at
/// most the oldest half of that number: the newest are kept.
pub proof fn mark_keeps_newest(m: Map<Seq<u8>, Seq<u64>>, user: Seq<u8>, payload: Seq<u8>, i: int)
    requires
        0 <= i < hashes_for(m, user).len(),
        hashes_for(m, user).len() >= MAX_DELIVERED_HASHES ==> i >= MAX_DELIVERED_HASHES / 2,
    ensures
        hashes_for(with_mark(m, user, payload), user).contains(hashes_for(m, user)[i]),
{
    let s = hashes_for(m, user);
    let t = marked(s, hash_of(payload));
    if was_delivered(m, user, payload) {
        assert(s.contains(s[i]));
    } else if s.len() >= MAX_DELIVERED_HASHES {
        assert(t[i - MAX_DELIVERED_HASHES / 2] == s[i]);
    } else {
        assert(t[i] == s[i]);
    }
}

/// A user's set that is within [`MAX_DELIVERED_HASHES`] stays within it.
pub proof fn marks_stay_bounded(m: Map<Seq<u8>, Seq<u64>>, user: Seq<u8>, payload: Seq<u8>, other: Seq<u8>)
    requires
        hashes_for(m, other).len() <= MAX_DELIVERED_HASHES,
    ensures
        hashes_for(with_mark(m, user, payload), other).len() <= MAX_DELIVERED_HASHES,
{
}

proof fn deduplicated_is_set(s: Seq<u64>)
    ensures
        deduplicated(s).no_duplicates(),
        forall|h: u64| deduplicated(s).contains(h) <==> s.contains(h),
    decreases s.len(),
{
    if s.len() > 0 {
        let front = s.drop_last();
        deduplicated_is_set(front);
        let d = deduplicated(front);
        assert forall|h: u64| deduplicated(s).contains(h) <==> s.contains(h) by {
            if s.contains(h) {
                let i = choose|i: int| 0 <= i < s.len() && s[i] == h;
                if i < front.len() {
                    assert(front[i] == h);
                    assert(front.contains(h));
                    assert(d.contains(h));
                    let j = choose|j: int| 0 <= j < d.len() && d[j] == h;
                    assert(deduplicated(s)[j] == h);
                } else if !d.contains(h) {
                    assert(deduplicated(s)[d.len() as int] == h);
                }
            }
            if deduplicated(s).contains(h) {
                let j = choose|j: int| 0 <= j < deduplicated(s).len() && deduplicated(s)[j] == h;
                if j < d.len() {
                    assert(d[j] == h);
                    assert(front.contains(h));
                    let i = choose|i: int| 0 <= i < front.len() && front[i] == h;
                    assert(s[i] == h);
                } else {
                    assert(s[s.len() - 1] == h);
                }
            }
        }
    }
}

// ── Code ────────────────────────────────────────────────────────────

/// The hash by which a payload is known.
pub fn payload_hash(data: &[u8]) -> (r: u64)
    ensures
        r == hash_of(data@),
{
    let mut h = DefaultHasher::new();
    let len = length_bytes(data.len());
    h.write(&len);
    h.write(data);
    assert(h@ =~= seq![le64(data@.len() as int), data@]);
    h.finish()
}

fn length_bytes(n: usize) -> (r: Vec<u8>)
    ensures
        r@ == le64(n as int),
{
    let mut r: Vec<u8> = Vec::new();
    let mut x: usize = n;
    let mut left: u32 = 8;
    assert(Seq::<u8>::empty() + low_bytes(n as int, 8) =~= le64(n as int));
    while left > 0
        invariant
            left <= 8,
            r@ + low_bytes(x as int, left as nat) == le64(n as int),
        decreases left,
    {
        let ghost before = r@;
        r.push((x % 256) as u8);
        assert(r@ + low_bytes(x as int / 256, (left - 1) as nat) =~= before + low_bytes(x as int, left as nat));
        x = x / 256;
        left = left - 1;
    }
    assert(r@ =~= le64(n as int));
    r
}

/// The delivered hashes of one user, oldest first.
#[derive(Debug)]
struct UserHashes {
    user: Vec<u8>,
    hashes: Vec<u64>,
}

/// The delivered hashes of every user.
#[derive(Debug)]
pub struct DeliveredSets {
    users: Vec<UserHashes>,
}

spec fn users_map(users: Seq<UserHashes>) -> Map<Seq<u8>, Seq<u64>>
    decreases users.len(),
{
    if users.len() == 0 {
        Map::empty()
    } else {
        users_map(users.drop_last()).insert(users.last().user@, users.last().hashes@)
    }
}

spec fn no_hash_twice(users: Seq<UserHashes>) -> bool {
    forall|i: int| 0 <= i < users.len() ==> (#[trigger] users[i]).hashes@.no_duplicates()
}

spec fn one_entry_each(users: Seq<UserHashes>) -> bool {
    forall|i: int, j: int|
        0 <= i < j < users.len() ==> (#[trigger] users[i]).user@ != (#[trigger] users[j]).user@
}

proof fn users_map_holds(users: Seq<UserHashes>)
    requires
        one_entry_each(users),
    ensures
        forall|i: int|
            0 <= i < users.len() ==> users_map(users).contains_key((#[trigger] users[i]).user@) && users_map(
                users,
            )[users[i].user@] == users[i].hashes@,
        forall|u: Seq<u8>| #[trigger]
            users_map(users).contains_key(u) ==> exists|i: int| 0 <= i < users.len() && (#[trigger] users[i]).user@ == u,
    decreases users.len(),
{
    if users.len() > 0 {
        let front = users.drop_last();
        assert(one_entry_each(front));
        users_map_holds(front);
        assert forall|i: int| 0 <= i < users.len() implies users_map(users).contains_key((#[trigger] users[i]).user@)
            && users_map(users)[users[i].user@] == users[i].hashes@ by {
            if i < front.len() {
                assert(front[i] == users[i]);
                assert(users[i].user@ != users[users.len() - 1].user@);
            }
        }
        assert forall|u: Seq<u8>| #[trigger] users_map(users).contains_key(u) implies exists|i: int|
            0 <= i < users.len() && (#[trigger] users[i]).user@ == u by {
            if u == users.last().user@ {
                assert(users[users.len() - 1].user@ == u);
            } else {
                assert(users_map(front).contains_key(u));
                let i = choose|i: int| 0 <= i < front.len() && (#[trigger] front[i]).user@ == u;
                assert(users[i].user@ == u);
            }
        }
    }
}

proof fn users_map_changes(a: Seq<UserHashes>, b: Seq<UserHashes>, p: int)
    requires
        one_entry_each(a),
        one_entry_each(b),
        a.len() == b.len(),
        0 <= p < a.len(),
        a[p].user@ == b[p].user@,
        forall|i: int| 0 <= i < a.len() && i != p ==> #[trigger] a[i] == b[i],
    ensures
        users_map(b) == users_map(a).insert(b[p].user@, b[p].hashes@),
{
    users_map_holds(a);
    users_map_holds(b);
    let (x, y) = (users_map(b), users_map(a).insert(b[p].user@, b[p].hashes@));
    assert forall|u: Seq<u8>| x.contains_key(u) <==> #[trigger] y.contains_key(u) by {
        if x.contains_key(u) {
            let i = choose|i: int| 0 <= i < b.len() && (#[trigger] b[i]).user@ == u;
            if i != p {
                assert(a[i].user@ == u);
            }
        }
        if y.contains_key(u) && u != b[p].user@ {
            let i = choose|i: int| 0 <= i < a.len() && (#[trigger] a[i]).user@ == u;
            assert(b[i].user@ == u);
        }
    }
    assert forall|u: Seq<u8>| #[trigger] x.contains_key(u) implies x[u] == y[u] by {
        let i = choose|i: int| 0 <= i < b.len() && (#[trigger] b[i]).user@ == u;
        assert(x[b[i].user@] == b[i].hashes@);
        if i != p {
            assert(a[i] == b[i]);
            assert(users_map(a)[a[i].user@] == a[i].hashes@);
            if i < p {
                assert(b[i].user@ != b[p].user@);
            } else {
                assert(b[p].user@ != b[i].user@);
            }
        }
    }
    assert(x =~= y);
}

proof fn users_map_loses(a: Seq<UserHashes>, p: int)
    requires
        one_entry_each(a),
        0 <= p < a.len(),
    ensures
        one_entry_each(a.remove(p)),
        users_map(a.remove(p)) == users_map(a).remove(a[p].user@),
{
    let b = a.remove(p);
    assert forall|i: int, j: int| 0 <= i < j < b.len() implies (#[trigger] b[i]).user@ != (#[trigger] b[j]).user@ by {
        let (k, l) = (if i < p { i } else { i + 1 }, if j < p { j } else { j + 1 });
        assert(a[k].user@ != a[l].user@);
    }
    users_map_holds(a);
    users_map_holds(b);
    let (x, y) = (users_map(b), users_map(a).remove(a[p].user@));
    assert forall|u: Seq<u8>| x.contains_key(u) <==> #[trigger] y.contains_key(u) by {
        if x.contains_key(u) {
            let i = choose|i: int| 0 <= i < b.len() && (#[trigger] b[i]).user@ == u;
            let k = if i < p { i } else { i + 1 };
            assert(a[k].user@ == u);
            if k < p {
                assert(a[k].user@ != a[p].user@);
            } else {
                assert(a[p].user@ != a[k].user@);
            }
        }
        if y.contains_key(u) {
            let i = choose|i: int| 0 <= i < a.len() && (#[trigger] a[i]).user@ == u;
            assert(b[if i < p { i } else { i - 1 }].user@ == u);
        }
    }
    assert forall|u: Seq<u8>| #[trigger] x.contains_key(u) implies x[u] == y[u] by {
        let i = choose|i: int| 0 <= i < b.len() && (#[trigger] b[i]).user@ == u;
        let k = if i < p { i } else { i + 1 };
        assert(a[k] == b[i]);
        assert(users_map(a)[a[k].user@] == a[k].hashes@);
        assert(x[b[i].user@] == b[i].hashes@);
    }
    assert(x =~= y);
}

impl View for DeliveredSets {
    type V = Map<Seq<u8>, Seq<u64>>;

    closed spec fn view(&self) -> Map<Seq<u8>, Seq<u64>> {
        users_map(self.users@)
    }
}

impl DeliveredSets {
    #[verifier::type_invariant]
    spec fn sound(self) -> bool {
        one_entry_each(self.users@) && no_hash_twice(self.users@)
    }

    /// Nothing delivered to anyone.
    pub fn new() -> (r: DeliveredSets)
        ensures
            r@ == Map::<Seq<u8>, Seq<u64>>::empty(),
    {
        DeliveredSets { users: Vec::new() }
    }

    fn position(&self, user: &[u8]) -> (r: Option<usize>)
        ensures
            match r {
                Some(i) => i < self.users@.len() && self.users@[i as int].user@ == user@ && self@.contains_key(user@)
                    && self@[user@] == self.users@[i as int].hashes@ && self@[user@].no_duplicates(),
                None => !self@.contains_key(user@),
            },
    {
        proof {
            use_type_invariant(self);
            users_map_holds(self.users@);
        }
        let mut i: usize = 0;
        while i < self.users.len()
            invariant
                i <= self.users@.len(),
                no_hash_twice(self.users@),
                forall|j: int| 0 <= j < i ==> (#[trigger] self.users@[j]).user@ != user@,
                forall|j: int|
                    0 <= j < self.users@.len() ==> self@.contains_key((#[trigger] self.users@[j]).user@)
                        && self@[self.users@[j].user@] == self.users@[j].hashes@,
            decreases self.users@.len() - i,
        {
            if same(&self.users[i].user, user) {
                return Some(i);
            }
            i = i + 1;
        }
        None
    }

    /// Whether a hash is among the delivered ones of a user.
    pub fn contains(&self, user: &[u8], h: u64) -> (r: bool)
        ensures
            r == hashes_for(self@, user@).contains(h),
    {
        match self.position(user) {
            None => false,
            Some(p) => {
                let mut i: usize = 0;
                let n = self.users[p].hashes.len();
                while i < n
                    invariant
                        i <= n,
                        p < self.users@.len(),
                        hashes_for(self@, user@) == self.users@[p as int].hashes@,
                        n == self.users@[p as int].hashes@.len(),
                        forall|j: int| 0 <= j < i ==> self.users@[p as int].hashes@[j] != h,
                    decreases n - i,
                {
                    if self.users[p].hashes[i] == h {
                        assert(self.users@[p as int].hashes@[i as int] == h);
                        return true;
                    }
                    i = i + 1;
                }
                false
            },
        }
    }

    /// The delivered hashes of a user, each once, oldest first, if anything is known of the user.
    pub fn get(&self, user: &[u8]) -> (r: Option<Vec<u64>>)
        ensures
            match r {
                Some(v) => self@.contains_key(user@) && self@[user@] == v@ && v@.no_duplicates(),
                None => !self@.contains_key(user@),
            },
    {
        match self.position(user) {
            None => None,
            Some(p) => Some(vstd::slice::slice_to_vec(&self.users[p].hashes)),
        }
    }

    fn put(&mut self, user: &[u8], hashes: Vec<u64>)
        requires
            hashes@.no_duplicates(),
        ensures
            final(self)@ == old(self)@.insert(user@, hashes@),
    {
        let p = self.position(user);
        proof {
            use_type_invariant(&*self);
            users_map_holds(self.users@);
        }
        let mut users: Vec<UserHashes> = Vec::new();
        std::mem::swap(&mut users, &mut self.users);
        let ghost before = users@;
        let entry = UserHashes { user: vstd::slice::slice_to_vec(user), hashes };
        match p {
            Some(i) => {
                users[i] = entry;
                proof {
                    assert forall|j: int, k: int| 0 <= j < k < users@.len() implies (#[trigger] users@[j]).user@ != (
                    #[trigger] users@[k]).user@ by {
                        assert(before[j].user@ != before[k].user@);
                    }
                    users_map_changes(before, users@, i as int);
                }
            },
            None => {
                users.push(entry);
                proof {
                    assert(users@.drop_last() =~= before);
                    assert forall|j: int, k: int| 0 <= j < k < users@.len() implies (#[trigger] users@[j]).user@ != (
                    #[trigger] users@[k]).user@ by {
                        if k == before.len() {
                            assert(users_map(before).contains_key(before[j].user@));
                        } else {
                            assert(before[j].user@ != before[k].user@);
                        }
                    }
                }
            },
        }
        self.users = users;
    }

    /// Takes the persisted hashes of a user over, each once.
    pub fn seed(&mut self, user: &[u8], persisted: &Vec<u64>)
        ensures
            final(self)@ == old(self)@.insert(user@, deduplicated(persisted@)),
    {
        let mut hashes: Vec<u64> = Vec::new();
        let mut i: usize = 0;
        assert(persisted@.take(0) =~= Seq::<u64>::empty());
        assert(hashes@ =~= deduplicated(persisted@.take(0)));
        while i < persisted.len()
            invariant
                i <= persisted@.len(),
                hashes@ == deduplicated(persisted@.take(i as int)),
            decreases persisted@.len() - i,
        {
            let h = persisted[i];
            assert(persisted@.take(i + 1).drop_last() =~= persisted@.take(i as int));
            assert(persisted@.take(i + 1).last() == h);
            if !among(&hashes, h) {
                hashes.push(h);
            }
            i = i + 1;
        }
        assert(persisted@.take(i as int) =~= persisted@);
        proof {
            deduplicated_is_set(persisted@);
        }
        self.put(user, hashes);
    }

    /// Marks a hash as delivered to a user.
    pub fn mark(&mut self, user: &[u8], h: u64)
        ensures
            final(self)@ == with_hash(old(self)@, user@, h),
    {
        if self.contains(user, h) {
            return;
        }
        let mut hashes = match self.get(user) {
            Some(v) => v,
            None => Vec::new(),
        };
        let ghost s = hashes@;
        assert(s =~= hashes_for(self@, user@));
        if hashes.len() >= MAX_DELIVERED_HASHES {
            hashes = last_of(&hashes, MAX_DELIVERED_HASHES / 2);
        }
        assert forall|i: int| 0 <= i < hashes@.len() implies hashes@[i] != h by {
            assert(s.contains(hashes@[i]));
        }
        hashes.push(h);
        assert(hashes@ =~= marked(s, h));
        self.put(user, hashes);
    }

    /// Forgets a user.
    pub fn remove(&mut self, user: &[u8])
        ensures
            final(self)@ == old(self)@.remove(user@),
    {
        let p = self.position(user);
        proof {
            use_type_invariant(&*self);
        }
        let mut users: Vec<UserHashes> = Vec::new();
        std::mem::swap(&mut users, &mut self.users);
        if let Some(i) = p {
            let ghost before = users@;
            let _gone = users.remove(i);
            proof {
                users_map_loses(before, i as int);
            }
        } else {
            assert(users_map(users@) =~= users_map(users@).remove(user@));
        }
        self.users = users;
    }
}

impl Default for DeliveredSets {
    fn default() -> (r: DeliveredSets)
        ensures
            r@ == Map::<Seq<u8>, Seq<u64>>::empty(),
    {
        DeliveredSets::new()
    }
}

fn among(hashes: &Vec<u64>, h: u64) -> (r: bool)
    ensures
        r == hashes@.contains(h),
{
    let mut i: usize = 0;
    while i < hashes.len()
        invariant
            i <= hashes@.len(),
            forall|j: int| 0 <= j < i ==> hashes@[j] != h,
        decreases hashes@.len() - i,
    {
        if hashes[i] == h {
            assert(hashes@[i as int] == h);
            return true;
        }
        i = i + 1;
    }
    false
}

fn last_of(hashes: &Vec<u64>, from: usize) -> (r: Vec<u64>)
    requires
        from <= hashes@.len(),
    ensures
        r@ == hashes@.skip(from as int),
{
    let r = vstd::slice::slice_to_vec(vstd::slice::slice_subrange(hashes, from, hashes.len()));
    assert(r@ =~= hashes@.skip(from as int));
    r
}

/// Whether a payload is new to a user, in which case it is marked as delivered. A duplicate changes
/// nothing.
pub fn check_and_mark_delivered(delivered: &mut DeliveredSets, user_hash: &[u8], payload: &[u8]) -> (r: bool)
    ensures
        r == !was_delivered(old(delivered)@, user_hash@, payload@),
        final(delivered)@ == with_mark(old(delivered)@, user_hash@, payload@),
{
    let h = payload_hash(payload);
    let known = delivered.contains(user_hash, h);
    delivered.mark(user_hash, h);
    !known
}

/// The hashes of a user that storage takes: the newest ones.
pub fn hashes_to_persist(hashes: &Vec<u64>) -> (r: Vec<u64>)
    ensures
        r@ == newest(hashes@),
        r@.len() <= MAX_PERSISTED_HASHES,
{
    let n = hashes.len();
    if n > MAX_PERSISTED_HASHES {
        last_of(hashes, n - MAX_PERSISTED_HASHES)
    } else {
        vstd::slice::slice_to_vec(hashes)
    }
}

// ── Storage ─────────────────────────────────────────────────────────

/// The eight bytes at `p` as a number, least significant first.
pub open spec fn le64_at(d: Seq<u8>, p: int) -> int {
    value_of(d.subrange(p, p + 8))
}

/// Numbers behind their count, eight bytes each.
pub open spec fn hashes_bytes(hashes: Seq<u64>) -> Seq<u8> {
    Seq::new(
        8 + 8 * hashes.len(),
        |i: int|
            if i < 8 {
                le64(hashes.len() as int)[i]
            } else {
                le64(hashes[i / 8 - 1] as int)[i % 8]
            },
    )
}

/// Whether bytes hold a list of numbers, with or without more behind it.
pub open spec fn holds_hashes(d: Seq<u8>) -> bool {
    d.len() >= 8 && 8 + 8 * le64_at(d, 0) <= d.len()
}

/// The numbers that bytes hold.
pub open spec fn hashes_in(d: Seq<u8>) -> Seq<u64> {
    Seq::new(le64_at(d, 0) as nat, |i: int| le64_at(d, 8 + 8 * i) as u64)
}

/// The hashes that storage holds of a user; none where it holds nothing or something else.
pub open spec fn stored_hashes(raw: Option<Vec<u8>>) -> Seq<u64> {
    match raw {
        Some(d) => if holds_hashes(d@) {
            hashes_in(d@)
        } else {
            Seq::empty()
        },
        None => Seq::empty(),
    }
}

/// Outside call: `bincode::serialize` of a `Vec<u64>`: the count and the numbers in eight bytes
/// each, least significant first.
#[verifier::external_body]
fn bincode_encode(hashes: &Vec<u64>) -> (r: Vec<u8>)
    ensures
        r@ == hashes_bytes(hashes@),
{
    bincode::serialize(hashes).expect("a list of numbers serializes")
}

/// Outside call: `bincode::deserialize` into a `Vec<u64>`: fails exactly where the bytes end before
/// the numbers that their first eight bytes count; what follows the numbers is ignored.
#[verifier::external_body]
fn bincode_decode(data: &[u8]) -> (r: Option<Vec<u64>>)
    ensures
        (r is Some) == holds_hashes(data@),
        r matches Some(v) ==> v@ == hashes_in(data@),
{
    bincode::deserialize::<Vec<u64>>(data).ok()
}

/// Whether a number fits in the given number of bytes.
spec fn fits(x: int, n: nat) -> bool
    decreases n,
{
    0 <= x && if n == 0 {
        x == 0
    } else {
        fits(x / 256, (n - 1) as nat)
    }
}

proof fn low_bytes_read_back(x: int, n: nat)
    requires
        fits(x, n),
    ensures
        low_bytes(x, n).len() == n,
        value_of(low_bytes(x, n)) == x,
    decreases n,
{
    if n > 0 {
        low_bytes_read_back(x / 256, (n - 1) as nat);
        assert(low_bytes(x, n).skip(1) =~= low_bytes(x / 256, (n - 1) as nat));
    }
}

proof fn le64_reads_back(d: Seq<u8>, p: int, x: u64)
    requires
        0 <= p,
        p + 8 <= d.len(),
        d.subrange(p, p + 8) == le64(x as int),
    ensures
        le64_at(d, p) == x,
{
    assert(fits(x as int, 8)) by {
        reveal_with_fuel(fits, 9);
    }
    low_bytes_read_back(x as int, 8);
}

proof fn le64_length(x: int)
    ensures
        le64(x).len() == 8,
{
    reveal_with_fuel(low_bytes, 9);
}

/// Hashes that were written to storage are read back.
pub proof fn hashes_read_back(hashes: Seq<u64>)
    requires
        hashes.len() <= u64::MAX,
    ensures
        holds_hashes(hashes_bytes(hashes)),
        hashes_in(hashes_bytes(hashes)) == hashes,
{
    let d = hashes_bytes(hashes);
    le64_length(hashes.len() as int);
    assert(d.subrange(0, 8) =~= le64(hashes.len() as int));
    le64_reads_back(d, 0, hashes.len() as u64);
    assert forall|i: int| 0 <= i < hashes.len() implies #[trigger] hashes_in(d)[i] == hashes[i] by {
        let p = 8 + 8 * i;
        le64_length(hashes[i] as int);
        assert forall|k: int| 0 <= k < 8 implies d.subrange(p, p + 8)[k] == #[trigger] le64(hashes[i] as int)[k] by {
            assert((p + k) / 8 - 1 == i);
            assert((p + k) % 8 == k);
        }
        assert(d.subrange(p, p + 8) =~= le64(hashes[i] as int));
        le64_reads_back(d, p, hashes[i]);
    }
    assert(hashes_in(d) =~= hashes);
}

/// Whatever bytes follow stored hashes, they are read all the same. Bytes that are fewer than they say hold
/// none, and neither does an empty place.
pub proof fn stored_hashes_come_back(hashes: Seq<u64>, rest: Seq<u8>, raw: Vec<u8>, cut: int)
    requires
        hashes.len() <= u64::MAX,
        0 <= cut < 8 + 8 * hashes.len(),
    ensures
        raw@ == hashes_bytes(hashes) + rest ==> stored_hashes(Some(raw)) == hashes,
        raw@ == hashes_bytes(hashes).take(cut) ==> stored_hashes(Some(raw)) == Seq::<u64>::empty(),
        stored_hashes(None) == Seq::<u64>::empty(),
{
    let d = hashes_bytes(hashes);
    hashes_read_back(hashes);
    le64_length(hashes.len() as int);
    assert(d.subrange(0, 8) =~= le64(hashes.len() as int));
    le64_reads_back(d, 0, hashes.len() as u64);
    if raw@ == d + rest {
        assert((d + rest).subrange(0, 8) =~= d.subrange(0, 8));
        assert forall|i: int| 0 <= i < hashes.len() implies hashes_in(raw@)[i] == hashes[i] by {
            assert((d + rest).subrange(8 + 8 * i, 16 + 8 * i) =~= d.subrange(8 + 8 * i, 16 + 8 * i));
            assert(hashes_in(d)[i] == hashes[i]);
        }
        assert(hashes_in(raw@) =~= hashes);
    }
    if raw@ == d.take(cut) && cut >= 8 {
        assert(d.take(cut).subrange(0, 8) =~= d.subrange(0, 8));
    }
}

/// What was delivered before a user left is known when the user is back: a payload whose hash is
/// among the newest [`MAX_PERSISTED_HASHES`] of the user is delivered again neither on the next
/// connection nor after a restart, whatever the sets of others hold by that time.
pub proof fn return_remembers(
    before: Map<Seq<u8>, Seq<u64>>,
    after: Map<Seq<u8>, Seq<u64>>,
    user: Seq<u8>,
    raw: Vec<u8>,
    payload: Seq<u8>,
)
    requires
        before.contains_key(user),
        newest(before[user]).contains(hash_of(payload)),
        raw@ == hashes_bytes(newest(before[user])),
    ensures
        was_delivered(after.insert(user, deduplicated(stored_hashes(Some(raw)))), user, payload),
{
    let kept = newest(before[user]);
    hashes_read_back(kept);
    deduplicated_is_set(kept);
}

/// The bytes under which storage keeps a user's hashes.
pub fn encode_hashes(hashes: &Vec<u64>) -> (r: Vec<u8>)
    ensures
        r@ == hashes_bytes(newest(hashes@)),
{
    let kept = hashes_to_persist(hashes);
    bincode_encode(&kept)
}

/// The hashes of a user that storage holds; none where it holds nothing or something else.
pub fn decode_hashes(raw: &Option<Vec<u8>>) -> (r: Vec<u64>)
    ensures
        r@ == stored_hashes(*raw),
{
    match raw {
        Some(d) => match bincode_decode(d) {
            Some(v) => v,
            None => Vec::new(),
        },
        None => Vec::new(),
    }
}

impl DeliveredSets {
    /// Takes over what storage holds of a user who connects.
    pub fn restore(&mut self, user: &[u8], raw: &Option<Vec<u8>>)
        ensures
            final(self)@ == old(self)@.insert(user@, deduplicated(stored_hashes(*raw))),
    {
        let persisted = decode_hashes(raw);
        self.seed(user, &persisted);
    }

    /// What storage is to hold of a user, if anything is known of the user.
    pub fn stored_form(&self, user: &[u8]) -> (r: Option<Vec<u8>>)
        ensures
            match r {
                Some(d) => self@.contains_key(user@) && d@ == hashes_bytes(newest(self@[user@])),
                None => !self@.contains_key(user@),
            },
    {
        match self.get(user) {
            Some(hashes) => Some(encode_hashes(&hashes)),
            None => None,
        }
    }

    /// Lets go of a user who disconnects: what storage is to hold of the user comes back, and the
    /// set is forgotten.
    pub fn release(&mut self, user: &[u8]) -> (r: Option<Vec<u8>>)
        ensures
            final(self)@ == old(self)@.remove(user@),
            match r {
                Some(d) => old(self)@.contains_key(user@) && d@ == hashes_bytes(newest(old(self)@[user@])),
                None => !old(self)@.contains_key(user@),
            },
    {
        let r = self.stored_form(user);
        self.remove(user);
        r
    }
}

} // verus!
