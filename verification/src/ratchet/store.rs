//! The skipped-message-key store: message keys of messages that were jumped over.

use crate::bytes::{less, same};
use crate::bytes;
use vstd::prelude::*;

verus! {

broadcast use vstd::array::group_array_axioms;

/// A stored key: the sending chain's ratchet key and the message number, then the message key.
pub type Entry = ((Seq<u8>, u32), Seq<u8>);

/// The map that results when `es` are inserted one after the other.
pub open spec fn entries_map(es: Seq<Entry>) -> Map<(Seq<u8>, u32), Seq<u8>>
    decreases es.len(),
{
    if es.len() == 0 {
        Map::empty()
    } else {
        entries_map(es.drop_last()).insert(es.last().0, es.last().1)
    }
}

/// Of several keys for one message the last one counts.
pub proof fn last_entry_counts(es: Seq<Entry>, e: Entry)
    ensures
        entries_map(Seq::empty()) == Map::<(Seq<u8>, u32), Seq<u8>>::empty(),
        entries_map(es.push(e)) == entries_map(es).insert(e.0, e.1),
{
    assert(es.push(e).drop_last() =~= es);
}

/// The order of keys: by ratchet key, then by message number.
pub open spec fn key_before(a: (Seq<u8>, u32), b: (Seq<u8>, u32)) -> bool {
    bytes::precedes(a.0, b.0) || (a.0 == b.0 && a.1 < b.1)
}

/// Entries in ascending order of their keys, no key twice.
pub open spec fn ascending(es: Seq<Entry>) -> bool {
    forall|i: int, j: int| 0 <= i < j < es.len() ==> key_before(#[trigger] es[i].0, #[trigger] es[j].0)
}

/// Entries in order are those of one ratchet key by their numbers, and of several by the ratchet keys.
pub proof fn order_is_by_key_and_number(es: Seq<Entry>, i: int, j: int)
    requires
        ascending(es),
        0 <= i < j < es.len(),
    ensures
        es[i].0.0 == es[j].0.0 ==> es[i].0.1 < es[j].0.1,
        es[i].0.0 != es[j].0.0 ==> bytes::precedes(es[i].0.0, es[j].0.0),
{
    assert(key_before(es[i].0, es[j].0));
    bytes::precedes_irreflexive(es[i].0.0);
}

proof fn key_before_transitive(a: (Seq<u8>, u32), b: (Seq<u8>, u32), c: (Seq<u8>, u32))
    requires
        key_before(a, b),
        key_before(b, c),
    ensures
        key_before(a, c),
{
    if bytes::precedes(a.0, b.0) && bytes::precedes(b.0, c.0) {
        bytes::precedes_transitive(a.0, b.0, c.0);
    }
}

proof fn key_before_total(a: (Seq<u8>, u32), b: (Seq<u8>, u32))
    ensures
        a == b ==> !key_before(a, b),
        a != b ==> (key_before(a, b) <==> !key_before(b, a)),
{
    bytes::precedes_total(a.0, b.0);
}

/// What a map of ascending entries holds.
pub proof fn ascending_map(es: Seq<Entry>)
    requires
        ascending(es),
    ensures
        entries_map(es).dom().finite(),
        entries_map(es).len() == es.len(),
        forall|i: int|
            0 <= i < es.len() ==> entries_map(es).contains_key((#[trigger] es[i]).0) && entries_map(
                es,
            )[es[i].0] == es[i].1,
        forall|k: (Seq<u8>, u32)| #[trigger]
            entries_map(es).contains_key(k) ==> exists|i: int| 0 <= i < es.len() && #[trigger] es[i].0 == k,
    decreases es.len(),
{
    if es.len() > 0 {
        let front = es.drop_last();
        assert forall|i: int, j: int| 0 <= i < j < front.len() implies key_before(
            #[trigger] front[i].0,
            #[trigger] front[j].0,
        ) by {
            assert(front[i] == es[i] && front[j] == es[j]);
        }
        ascending_map(front);
        let last = es.last();
        assert(!entries_map(front).contains_key(last.0)) by {
            if entries_map(front).contains_key(last.0) {
                let i = choose|i: int| 0 <= i < front.len() && #[trigger] front[i].0 == last.0;
                assert(front[i] == es[i]);
                assert(key_before(es[i].0, es[es.len() - 1].0));
                key_before_total(last.0, last.0);
            }
        }
        assert forall|i: int| 0 <= i < es.len() implies entries_map(es).contains_key((#[trigger] es[i]).0)
            && entries_map(es)[es[i].0] == es[i].1 by {
            if i < front.len() {
                assert(front[i] == es[i]);
                assert(entries_map(front).contains_key(front[i].0));
            }
        }
        assert forall|k: (Seq<u8>, u32)| #[trigger] entries_map(es).contains_key(k) implies exists|i: int|
            0 <= i < es.len() && #[trigger] es[i].0 == k by {
            if k == last.0 {
                assert(es[es.len() - 1].0 == k);
            } else {
                assert(entries_map(front).contains_key(k));
                let i = choose|i: int| 0 <= i < front.len() && #[trigger] front[i].0 == k;
                assert(es[i].0 == k);
            }
        }
    }
}

/// Two ascending lists of entries with the same map are the same list.
pub proof fn ascending_unique(a: Seq<Entry>, b: Seq<Entry>)
    requires
        ascending(a),
        ascending(b),
        entries_map(a) == entries_map(b),
    ensures
        a == b,
    decreases a.len(),
{
    ascending_map(a);
    ascending_map(b);
    if a.len() > 0 {
        let (la, lb) = (a.last(), b.last());
        let n = a.len() - 1;
        assert(a[n] == la && b[n] == lb);
        assert(la.0 == lb.0) by {
            assert(entries_map(b).contains_key(a[n].0));
            let i = choose|i: int| 0 <= i < b.len() && #[trigger] b[i].0 == la.0;
            assert(entries_map(a).contains_key(b[n].0));
            let j = choose|j: int| 0 <= j < a.len() && #[trigger] a[j].0 == lb.0;
            if i < n && j < n {
                assert(key_before(b[i].0, b[n].0));
                assert(key_before(a[j].0, a[n].0));
                key_before_total(la.0, lb.0);
            }
        }
        assert(la.1 == lb.1) by {
            assert(entries_map(a)[a[n].0] == la.1);
            assert(entries_map(b)[b[n].0] == lb.1);
        }
        let (fa, fb) = (a.drop_last(), b.drop_last());
        assert(ascending(fa)) by {
            assert forall|i: int, j: int| 0 <= i < j < fa.len() implies key_before(
                #[trigger] fa[i].0,
                #[trigger] fa[j].0,
            ) by {
                assert(fa[i] == a[i] && fa[j] == a[j]);
            }
        }
        assert(ascending(fb)) by {
            assert forall|i: int, j: int| 0 <= i < j < fb.len() implies key_before(
                #[trigger] fb[i].0,
                #[trigger] fb[j].0,
            ) by {
                assert(fb[i] == b[i] && fb[j] == b[j]);
            }
        }
        assert(entries_map(fa) =~= entries_map(a).remove(la.0)) by {
            last_is_new(a);
        }
        assert(entries_map(fb) =~= entries_map(b).remove(lb.0)) by {
            last_is_new(b);
        }
        ascending_unique(fa, fb);
        assert(a =~= fa.push(la));
        assert(b =~= fb.push(lb));
    } else {
        assert(a =~= b);
    }
}

proof fn last_is_new(es: Seq<Entry>)
    requires
        ascending(es),
        es.len() > 0,
    ensures
        !entries_map(es.drop_last()).contains_key(es.last().0),
{
    let front = es.drop_last();
    assert(ascending(front)) by {
        assert forall|i: int, j: int| 0 <= i < j < front.len() implies key_before(
            #[trigger] front[i].0,
            #[trigger] front[j].0,
        ) by {
            assert(front[i] == es[i] && front[j] == es[j]);
        }
    }
    ascending_map(front);
    if entries_map(front).contains_key(es.last().0) {
        let i = choose|i: int| 0 <= i < front.len() && #[trigger] front[i].0 == es.last().0;
        assert(front[i] == es[i]);
        assert(key_before(es[i].0, es[es.len() - 1].0));
        key_before_total(es.last().0, es.last().0);
    }
}

/// One retained message key.
#[derive(Clone, Copy, Debug)]
pub struct SkippedKey {
    dh: [u8; 32],
    n: u32,
    mk: [u8; 32],
}

impl SkippedKey {
    pub closed spec fn entry(self) -> Entry {
        ((self.dh@, self.n), self.mk@)
    }
}

/// The skipped-message-key store: message keys by the sending chain's ratchet key and the message
/// number, kept in ascending order of these.
#[derive(Debug)]
pub struct SkippedKeys {
    keys: Vec<SkippedKey>,
}

spec fn entries_of(keys: Seq<SkippedKey>) -> Seq<Entry> {
    Seq::new(keys.len(), |i: int| keys[i].entry())
}

impl View for SkippedKeys {
    type V = Map<(Seq<u8>, u32), Seq<u8>>;

    closed spec fn view(&self) -> Map<(Seq<u8>, u32), Seq<u8>> {
        entries_map(entries_of(self.keys@))
    }
}

impl Clone for SkippedKeys {
    fn clone(&self) -> (r: SkippedKeys)
        ensures
            r@ == self@,
            r.entries() == self.entries(),
    {
        proof {
            use_type_invariant(self);
        }
        let keys = self.keys.clone();
        assert(keys@ =~= self.keys@);
        SkippedKeys { keys }
    }
}

impl SkippedKeys {
    #[verifier::type_invariant]
    spec fn in_order(self) -> bool {
        ascending(entries_of(self.keys@))
    }

    /// The entries in the order in which they are kept.
    pub closed spec fn entries(self) -> Seq<Entry> {
        entries_of(self.keys@)
    }

    /// An empty store.
    pub fn new() -> (r: SkippedKeys)
        ensures
            r@ == Map::<(Seq<u8>, u32), Seq<u8>>::empty(),
    {
        SkippedKeys { keys: Vec::new() }
    }

    /// How many keys are retained.
    pub fn len(&self) -> (r: usize)
        ensures
            r == self@.len(),
            r == self.entries().len(),
            self@.dom().finite(),
            self@ == entries_map(self.entries()),
            ascending(self.entries()),
    {
        proof {
            use_type_invariant(self);
            ascending_map(entries_of(self.keys@));
        }
        self.keys.len()
    }

    /// Whether no key is retained.
    pub fn is_empty(&self) -> (r: bool)
        ensures
            r == (self@.len() == 0),
    {
        self.len() == 0
    }

    /// The entry at a position: ratchet key, message number, message key.
    pub fn entry_at(&self, i: usize) -> (r: ([u8; 32], u32, [u8; 32]))
        requires
            i < self.entries().len(),
        ensures
            self.entries()[i as int] == ((r.0@, r.1), r.2@),
    {
        let k = self.keys[i];
        (k.dh, k.n, k.mk)
    }

    /// Position of the first entry that is not before the key.
    fn position(&self, dh: &[u8; 32], n: u32) -> (r: usize)
        ensures
            r <= self.keys@.len(),
            forall|i: int| 0 <= i < r ==> key_before((#[trigger] self.keys@[i]).entry().0, (dh@, n)),
            r < self.keys@.len() ==> !key_before(self.keys@[r as int].entry().0, (dh@, n)),
    {
        let mut i: usize = 0;
        while i < self.keys.len()
            invariant
                i <= self.keys@.len(),
                forall|j: int| 0 <= j < i ==> key_before((#[trigger] self.keys@[j]).entry().0, (dh@, n)),
            decreases self.keys@.len() - i,
        {
            let k = self.keys[i];
            if !(less(&k.dh, dh) || (same(&k.dh, dh) && k.n < n)) {
                return i;
            }
            i = i + 1;
        }
        i
    }

    /// The key retained for a message.
    pub fn get(&self, dh: &[u8; 32], n: u32) -> (r: Option<[u8; 32]>)
        ensures
            match r {
                Some(mk) => self@.contains_key((dh@, n)) && self@[(dh@, n)] == mk@,
                None => !self@.contains_key((dh@, n)),
            },
    {
        proof {
            use_type_invariant(self);
            ascending_map(entries_of(self.keys@));
        }
        let ghost es = entries_of(self.keys@);
        let p = self.position(dh, n);
        if p < self.keys.len() && self.keys[p].n == n && same(&self.keys[p].dh, dh) {
            assert(es[p as int].0 == (dh@, n));
            return Some(self.keys[p].mk);
        }
        proof {
            if self@.contains_key((dh@, n)) {
                let i = choose|i: int| 0 <= i < es.len() && #[trigger] es[i].0 == (dh@, n);
                key_before_total((dh@, n), (dh@, n));
                if p < i {
                    assert(key_before(es[p as int].0, es[i].0));
                }
            }
        }
        None
    }

    /// Retains a key for a message; an earlier one for the same message is replaced.
    pub fn insert(&mut self, dh: [u8; 32], n: u32, mk: [u8; 32])
        ensures
            final(self)@ == old(self)@.insert((dh@, n), mk@),
    {
        proof {
            use_type_invariant(&*self);
            ascending_map(entries_of(self.keys@));
        }
        let ghost es = entries_of(self.keys@);
        let p = self.position(&dh, n);
        let mut keys: Vec<SkippedKey> = Vec::new();
        std::mem::swap(&mut keys, &mut self.keys);
        let k = SkippedKey { dh, n, mk };
        if p < keys.len() && keys[p].n == n && same(&keys[p].dh, &dh) {
            assert(es[p as int].0 == (dh@, n));
            keys[p] = k;
            proof {
                let now = entries_of(keys@);
                assert forall|i: int, j: int| 0 <= i < j < now.len() implies key_before(
                    #[trigger] now[i].0,
                    #[trigger] now[j].0,
                ) by {
                    assert(key_before(es[i].0, es[j].0));
                }
                ascending_map(now);
                assert(entries_map(now) =~= entries_map(es).insert((dh@, n), mk@)) by {
                    same_but_one(es, now, p as int);
                }
            }
        } else {
            keys.insert(p, k);
            proof {
                let now = entries_of(keys@);
                assert(now =~= es.insert(p as int, ((dh@, n), mk@)));
                if p < es.len() {
                    key_before_total(es[p as int].0, (dh@, n));
                }
                assert forall|i: int, j: int| 0 <= i < j < now.len() implies key_before(
                    #[trigger] now[i].0,
                    #[trigger] now[j].0,
                ) by {
                    if i < p && j < p {
                        assert(key_before(es[i].0, es[j].0));
                    } else if i < p && j > p {
                        assert(key_before(es[i].0, es[j - 1].0));
                    } else if i == p {
                        if j - 1 > p {
                            assert(key_before(es[p as int].0, es[j - 1].0));
                            key_before_transitive((dh@, n), es[p as int].0, es[j - 1].0);
                        }
                    } else if i > p {
                        assert(key_before(es[i - 1].0, es[j - 1].0));
                    }
                }
                ascending_map(now);
                assert(entries_map(now) =~= entries_map(es).insert((dh@, n), mk@)) by {
                    one_more(es, now, p as int);
                }
            }
        }
        self.keys = keys;
    }

    /// Forgets the key of a message.
    pub fn remove(&mut self, dh: &[u8; 32], n: u32)
        ensures
            final(self)@ == old(self)@.remove((dh@, n)),
    {
        proof {
            use_type_invariant(&*self);
            ascending_map(entries_of(self.keys@));
        }
        let ghost es = entries_of(self.keys@);
        let p = self.position(dh, n);
        let mut keys: Vec<SkippedKey> = Vec::new();
        std::mem::swap(&mut keys, &mut self.keys);
        if p < keys.len() && keys[p].n == n && same(&keys[p].dh, dh) {
            assert(es[p as int].0 == (dh@, n));
            let _gone = keys.remove(p);
            proof {
                let now = entries_of(keys@);
                assert(now =~= es.remove(p as int));
                assert forall|i: int, j: int| 0 <= i < j < now.len() implies key_before(
                    #[trigger] now[i].0,
                    #[trigger] now[j].0,
                ) by {
                    let (a, b) = (if i < p { i } else { i + 1 }, if j < p { j } else { j + 1 });
                    assert(key_before(es[a].0, es[b].0));
                }
                ascending_map(now);
                assert(entries_map(es) =~= entries_map(now).insert((dh@, n), es[p as int].1)) by {
                    one_more(now, es, p as int);
                }
                assert(!entries_map(now).contains_key((dh@, n))) by {
                    if entries_map(now).contains_key((dh@, n)) {
                        let i = choose|i: int| 0 <= i < now.len() && #[trigger] now[i].0 == (dh@, n);
                        key_before_total((dh@, n), (dh@, n));
                        if i < p {
                            assert(key_before(es[i].0, es[p as int].0));
                        } else {
                            assert(key_before(es[p as int].0, es[i + 1].0));
                        }
                    }
                }
                assert(entries_map(now) =~= entries_map(es).remove((dh@, n)));
            }
        } else {
            proof {
                if entries_map(es).contains_key((dh@, n)) {
                    let i = choose|i: int| 0 <= i < es.len() && #[trigger] es[i].0 == (dh@, n);
                    key_before_total((dh@, n), (dh@, n));
                    if p < i {
                        assert(key_before(es[p as int].0, es[i].0));
                    }
                }
                assert(entries_map(es) =~= entries_map(es).remove((dh@, n)));
            }
        }
        self.keys = keys;
    }
}

proof fn same_but_one(es: Seq<Entry>, now: Seq<Entry>, p: int)
    requires
        ascending(es),
        ascending(now),
        0 <= p < es.len(),
        now.len() == es.len(),
        now[p].0 == es[p].0,
        forall|i: int| 0 <= i < es.len() && i != p ==> #[trigger] now[i] == es[i],
    ensures
        entries_map(now) == entries_map(es).insert(now[p].0, now[p].1),
{
    ascending_map(es);
    ascending_map(now);
    let (a, b) = (entries_map(now), entries_map(es).insert(now[p].0, now[p].1));
    assert forall|k: (Seq<u8>, u32)| a.contains_key(k) <==> #[trigger] b.contains_key(k) by {
        if a.contains_key(k) {
            let i = choose|i: int| 0 <= i < now.len() && #[trigger] now[i].0 == k;
            if i != p {
                assert(es[i].0 == k);
            }
        }
        if b.contains_key(k) && k != now[p].0 {
            let i = choose|i: int| 0 <= i < es.len() && #[trigger] es[i].0 == k;
            assert(now[i].0 == k);
        }
    }
    assert forall|k: (Seq<u8>, u32)| #[trigger] a.contains_key(k) implies a[k] == b[k] by {
        let i = choose|i: int| 0 <= i < now.len() && #[trigger] now[i].0 == k;
        assert(a[now[i].0] == now[i].1);
        if i != p {
            assert(es[i].0 == k);
            assert(entries_map(es)[es[i].0] == es[i].1);
            if i < p {
                assert(key_before(now[i].0, now[p].0));
            } else {
                assert(key_before(now[p].0, now[i].0));
            }
            key_before_total(k, k);
        }
    }
    assert(a =~= b);
}

proof fn one_more(es: Seq<Entry>, now: Seq<Entry>, p: int)
    requires
        ascending(es),
        ascending(now),
        0 <= p < now.len(),
        es =~= now.remove(p),
    ensures
        entries_map(now) == entries_map(es).insert(now[p].0, now[p].1),
{
    ascending_map(es);
    ascending_map(now);
    let (a, b) = (entries_map(now), entries_map(es).insert(now[p].0, now[p].1));
    assert forall|k: (Seq<u8>, u32)| a.contains_key(k) <==> #[trigger] b.contains_key(k) by {
        if a.contains_key(k) {
            let i = choose|i: int| 0 <= i < now.len() && #[trigger] now[i].0 == k;
            if i < p {
                assert(es[i].0 == k);
            } else if i > p {
                assert(es[i - 1].0 == k);
            }
        }
        if b.contains_key(k) && k != now[p].0 {
            let i = choose|i: int| 0 <= i < es.len() && #[trigger] es[i].0 == k;
            if i < p {
                assert(now[i].0 == k);
            } else {
                assert(now[i + 1].0 == k);
            }
        }
    }
    assert forall|k: (Seq<u8>, u32)| #[trigger] a.contains_key(k) implies a[k] == b[k] by {
        let i = choose|i: int| 0 <= i < now.len() && #[trigger] now[i].0 == k;
        assert(a[now[i].0] == now[i].1);
        if i < p {
            assert(es[i].0 == k);
            assert(entries_map(es)[es[i].0] == es[i].1);
            assert(key_before(now[i].0, now[p].0));
        } else if i > p {
            assert(es[i - 1].0 == k);
            assert(entries_map(es)[es[i - 1].0] == es[i - 1].1);
            assert(key_before(now[p].0, now[i].0));
        }
        key_before_total(k, k);
    }
    assert(a =~= b);
}

} // verus!
