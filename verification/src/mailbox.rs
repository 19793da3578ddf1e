//! # Mailbox
//!
//! Offline messages: what is taken from the records that the peer network or the local storage
//! yields, and which records go once a client has been offered them.
//!
//! A record is removed only after a client took its payload, or where it is a duplicate of one that
//! was delivered before. A client that drops out in the middle loses nothing: the rest stays for its
//! next connection.

use crate::delivered;
use crate::delivered::{payload_hash, DeliveredSets};
use vstd::prelude::*;

verus! {

/// Storage tree of the offline messages.
pub const SLED_MAILBOX_TREE: &'static str = "mailbox";

/// Storage tree of each recipient's delivered hashes.
pub const SLED_DELIVERED_TREE: &'static str = "delivered_hashes";

// ── Envelopes ───────────────────────────────────────────────────────

/// What the envelope of a record turned out to be.
#[derive(Debug)]
pub enum EnvelopeCheck {
    /// An envelope in order, with this payload.
    Valid(Vec<u8>),
    /// An envelope that fails its check.
    Invalid,
    /// No envelope: the record itself is the payload.
    Legacy,
}

/// A record under its key, with what its envelope turned out to be.
#[derive(Debug)]
pub struct StoredRecord {
    pub key: Vec<u8>,
    pub value: Vec<u8>,
    pub check: EnvelopeCheck,
}

/// A payload under the key of its record.
#[derive(Debug)]
pub struct MailboxRecord {
    pub key: Vec<u8>,
    pub payload: Vec<u8>,
}

/// The contents of byte vectors.
pub open spec fn contents(v: Seq<Vec<u8>>) -> Seq<Seq<u8>> {
    v.map_values(|x: Vec<u8>| x@)
}

/// The keys and payloads of records.
pub open spec fn pairs(v: Seq<MailboxRecord>) -> Seq<(Seq<u8>, Seq<u8>)> {
    v.map_values(|x: MailboxRecord| (x.key@, x.payload@))
}

/// The payload of a record: none where the envelope fails its check.
pub open spec fn payload_of(r: StoredRecord) -> Option<Seq<u8>> {
    match r.check {
        EnvelopeCheck::Valid(p) => Some(p@),
        EnvelopeCheck::Invalid => None,
        EnvelopeCheck::Legacy => Some(r.value@),
    }
}

/// The records that have a payload, in order: their keys and payloads.
pub open spec fn readable(s: Seq<StoredRecord>) -> Seq<(Seq<u8>, Seq<u8>)>
    decreases s.len(),
{
    if s.len() == 0 {
        Seq::empty()
    } else {
        let front = readable(s.drop_last());
        match payload_of(s.last()) {
            Some(p) => front.push((s.last().key@, p)),
            None => front,
        }
    }
}

/// The keys of the records that have none, in order.
pub open spec fn corrupt(s: Seq<StoredRecord>) -> Seq<Seq<u8>>
    decreases s.len(),
{
    if s.len() == 0 {
        Seq::empty()
    } else {
        let front = corrupt(s.drop_last());
        match payload_of(s.last()) {
            Some(_) => front,
            None => front.push(s.last().key@),
        }
    }
}

/// The payload of a record is the one in its envelope, or the whole record where it has no envelope;
/// one whose envelope fails its check has none.
pub proof fn envelope_decides_payload(r: StoredRecord)
    ensures
        r.check matches EnvelopeCheck::Valid(p) ==> payload_of(r) == Some(p@),
        r.check is Legacy ==> payload_of(r) == Some(r.value@),
        r.check is Invalid ==> payload_of(r) is None,
{
}

/// Records are read one by one, in order: one more record adds its key and payload at the end, or its
/// key to the corrupt ones, and changes nothing else.
pub proof fn records_are_read_in_order(s: Seq<StoredRecord>, r: StoredRecord)
    ensures
        readable(Seq::empty()) == Seq::<(Seq<u8>, Seq<u8>)>::empty(),
        corrupt(Seq::empty()) == Seq::<Seq<u8>>::empty(),
        readable(s.push(r)) == match r.check {
            EnvelopeCheck::Valid(p) => readable(s).push((r.key@, p@)),
            EnvelopeCheck::Legacy => readable(s).push((r.key@, r.value@)),
            EnvelopeCheck::Invalid => readable(s),
        },
        corrupt(s.push(r)) == if r.check is Invalid {
            corrupt(s).push(r.key@)
        } else {
            corrupt(s)
        },
{
    assert(s.push(r).drop_last() =~= s);
}

/// Keys, payloads and byte strings are listed as they are, each in its place.
pub proof fn lists_are_faithful(records: Seq<MailboxRecord>, v: Seq<Vec<u8>>)
    ensures
        pairs(records).len() == records.len(),
        forall|i: int|
            0 <= i < records.len() ==> #[trigger] pairs(records)[i] == (records[i].key@, records[i].payload@),
        contents(v).len() == v.len(),
        forall|i: int| 0 <= i < v.len() ==> #[trigger] contents(v)[i] == v[i]@,
{
}

/// Every record is either readable or corrupt.
pub proof fn no_record_is_overlooked(s: Seq<StoredRecord>)
    ensures
        readable(s).len() + corrupt(s).len() == s.len(),
    decreases s.len(),
{
    if s.len() > 0 {
        no_record_is_overlooked(s.drop_last());
    }
}

/// Only a record whose envelope fails its check is withheld.
pub proof fn payload_is_passed_on(s: Seq<StoredRecord>, i: int)
    requires
        0 <= i < s.len(),
    ensures
        match payload_of(s[i]) {
            Some(p) => readable(s).contains((s[i].key@, p)),
            None => corrupt(s).contains(s[i].key@),
        },
    decreases s.len(),
{
    let front = s.drop_last();
    if i == s.len() - 1 {
        match payload_of(s[i]) {
            Some(p) => {
                assert(readable(s).last() == (s[i].key@, p));
            },
            None => {
                assert(corrupt(s).last() == s[i].key@);
            },
        }
    } else {
        payload_is_passed_on(front, i);
        assert(front[i] == s[i]);
        match payload_of(s[i]) {
            Some(p) => {
                let k = choose|k: int| 0 <= k < readable(front).len() && readable(front)[k] == (s[i].key@, p);
                assert(readable(s)[k] == (s[i].key@, p));
            },
            None => {
                let k = choose|k: int| 0 <= k < corrupt(front).len() && corrupt(front)[k] == s[i].key@;
                assert(corrupt(s)[k] == s[i].key@);
            },
        }
    }
}

fn take_payload(r: &StoredRecord) -> (p: Option<Vec<u8>>)
    ensures
        match p {
            Some(v) => payload_of(*r) == Some(v@),
            None => payload_of(*r) is None,
        },
{
    match &r.check {
        EnvelopeCheck::Valid(p) => Some(vstd::slice::slice_to_vec(p)),
        EnvelopeCheck::Invalid => None,
        EnvelopeCheck::Legacy => Some(vstd::slice::slice_to_vec(&r.value)),
    }
}

/// What the local storage holds for a recipient: the payloads under their keys, and the keys of the
/// corrupt records, which go.
pub fn read_sled_backup(found: &Vec<StoredRecord>) -> (r: (Vec<MailboxRecord>, Vec<Vec<u8>>))
    ensures
        pairs(r.0@) == readable(found@),
        contents(r.1@) == corrupt(found@),
{
    let mut records: Vec<MailboxRecord> = Vec::new();
    let mut bad: Vec<Vec<u8>> = Vec::new();
    let mut i: usize = 0;
    assert(found@.take(0) =~= Seq::<StoredRecord>::empty());
    assert(pairs(records@) =~= readable(found@.take(0)));
    assert(contents(bad@) =~= corrupt(found@.take(0)));
    while i < found.len()
        invariant
            i <= found@.len(),
            pairs(records@) == readable(found@.take(i as int)),
            contents(bad@) == corrupt(found@.take(i as int)),
        decreases found@.len() - i,
    {
        let ghost (before, bad_before) = (records@, bad@);
        proof {
            assert(found@.take(i + 1).drop_last() =~= found@.take(i as int));
            assert(found@.take(i + 1).last() == found@[i as int]);
        }
        match take_payload(&found[i]) {
            Some(payload) => {
                let record = MailboxRecord { key: vstd::slice::slice_to_vec(&found[i].key), payload };
                let ghost added = (record.key@, record.payload@);
                records.push(record);
                assert(pairs(records@) =~= pairs(before).push(added));
            },
            None => {
                let key = vstd::slice::slice_to_vec(&found[i].key);
                let ghost added = key@;
                bad.push(key);
                assert(contents(bad@) =~= contents(bad_before).push(added));
            },
        }
        i = i + 1;
    }
    assert(found@.take(i as int) =~= found@);
    (records, bad)
}

/// The payloads of the records that the peer network yields for a recipient, in order. Duplicates
/// are left in: see [`deliverable`].
pub fn handle_retrieval_result(found: &Vec<StoredRecord>) -> (r: Vec<Vec<u8>>)
    ensures
        contents(r@) == readable(found@).map_values(|p: (Seq<u8>, Seq<u8>)| p.1),
{
    let (records, _bad) = read_sled_backup(found);
    let mut r: Vec<Vec<u8>> = Vec::new();
    let mut i: usize = 0;
    while i < records.len()
        invariant
            i <= records@.len(),
            contents(r@) == pairs(records@).take(i as int).map_values(|p: (Seq<u8>, Seq<u8>)| p.1),
        decreases records@.len() - i,
    {
        let ghost before = r@;
        let payload = vstd::slice::slice_to_vec(&records[i].payload);
        let ghost added = payload@;
        r.push(payload);
        assert(contents(r@) =~= contents(before).push(added));
        i = i + 1;
        assert(pairs(records@).take(i as int).map_values(|p: (Seq<u8>, Seq<u8>)| p.1) =~= contents(r@));
    }
    assert(pairs(records@).take(i as int) =~= pairs(records@));
    r
}

/// Whether a payload that came from another node is offered to a recipient's clients: one that was
/// delivered before is not.
pub fn deliverable(delivered: &DeliveredSets, user_hash: &[u8], payload: &[u8]) -> (r: bool)
    ensures
        r == !delivered::was_delivered(delivered@, user_hash@, payload@),
{
    !delivered.contains(user_hash, payload_hash(payload))
}

// ── Drain ───────────────────────────────────────────────────────────

/// A drain under way: the records of a user, how many have been seen to, which of those go, and how
/// many of them a client took.
#[verifier::ext_equal]
pub struct DrainState {
    pub user: Seq<u8>,
    pub records: Seq<(Seq<u8>, Seq<u8>)>,
    pub gone: Seq<bool>,
    pub fresh: nat,
}

impl DrainState {
    /// How many records have been seen to.
    pub open spec fn at(self) -> int {
        self.gone.len() as int
    }

    /// Whether records are left.
    pub open spec fn is_open(self) -> bool {
        self.at() < self.records.len()
    }

    /// The payload of the record whose turn it is.
    pub open spec fn current(self) -> Seq<u8> {
        self.records[self.at()].1
    }
}

/// A drain after the duplicates whose turn it is: they go, up to the next record that is new.
pub open spec fn past_duplicates(s: DrainState, m: Map<Seq<u8>, Seq<u64>>) -> DrainState
    decreases s.records.len() - s.gone.len(),
{
    if s.is_open() && delivered::was_delivered(m, s.user, s.current()) {
        past_duplicates(DrainState { gone: s.gone.push(true), ..s }, m)
    } else {
        s
    }
}

/// A drain after an offer: the record goes if a client took it.
pub open spec fn after_offer(s: DrainState, accepted: bool) -> DrainState {
    DrainState {
        gone: s.gone.push(accepted),
        fresh: if accepted {
            s.fresh + 1
        } else {
            s.fresh
        },
        ..s
    }
}

/// The keys of the records that go.
pub open spec fn keys_gone(records: Seq<(Seq<u8>, Seq<u8>)>, gone: Seq<bool>) -> Seq<Seq<u8>>
    decreases gone.len(),
{
    if gone.len() == 0 {
        Seq::empty()
    } else {
        let front = keys_gone(records, gone.drop_last());
        if gone.last() {
            front.push(records[gone.len() - 1].0)
        } else {
            front
        }
    }
}

/// Passing over duplicates touches no other record: what goes was delivered before, and what had
/// been decided stays so.
pub proof fn only_duplicates_are_passed(s: DrainState, m: Map<Seq<u8>, Seq<u64>>, i: int)
    requires
        s.gone.len() <= s.records.len(),
        0 <= i < past_duplicates(s, m).at(),
    ensures
        past_duplicates(s, m).records == s.records,
        past_duplicates(s, m).fresh == s.fresh,
        s.at() <= past_duplicates(s, m).at() <= s.records.len(),
        if i < s.at() {
            past_duplicates(s, m).gone[i] == s.gone[i]
        } else {
            past_duplicates(s, m).gone[i] && delivered::was_delivered(m, s.user, s.records[i].1)
        },
    decreases s.records.len() - s.gone.len(),
{
    if s.is_open() && delivered::was_delivered(m, s.user, s.current()) {
        let t = DrainState { gone: s.gone.push(true), ..s };
        only_duplicates_are_passed(t, m, i);
    }
}

/// The record that is offered next is one that was not delivered before.
pub proof fn offer_is_new(s: DrainState, m: Map<Seq<u8>, Seq<u64>>)
    requires
        past_duplicates(s, m).is_open(),
    ensures
        !delivered::was_delivered(m, s.user, past_duplicates(s, m).current()),
        past_duplicates(s, m).user == s.user,
    decreases s.records.len() - s.gone.len(),
{
    if s.is_open() && delivered::was_delivered(m, s.user, s.current()) {
        offer_is_new(DrainState { gone: s.gone.push(true), ..s }, m);
    }
}

/// A record that no client took keeps its place in storage, and is not marked; one that a client
/// took goes, and is marked.
pub proof fn only_taken_records_go(s: DrainState, m: Map<Seq<u8>, Seq<u64>>, accepted: bool)
    requires
        s.is_open(),
    ensures
        keys_gone(s.records, after_offer(s, accepted).gone) == if accepted {
            keys_gone(s.records, s.gone).push(s.records[s.at()].0)
        } else {
            keys_gone(s.records, s.gone)
        },
        accepted ==> delivered::was_delivered(delivered::with_mark(m, s.user, s.current()), s.user, s.current()),
{
    assert(after_offer(s, accepted).gone.drop_last() =~= s.gone);
    delivered::mark_is_remembered(m, s.user, s.current());
}

/// A record's turn comes when all before it have been seen to, and its payload is then offered whole.
/// Settling the offer sees to that record alone, and counts it if a client took it.
pub proof fn one_record_at_a_time(s: DrainState, accepted: bool)
    ensures
        s.is_open() <==> s.gone.len() < s.records.len(),
        s.is_open() ==> s.current() == s.records[s.gone.len() as int].1,
        after_offer(s, accepted).user == s.user,
        after_offer(s, accepted).records == s.records,
        after_offer(s, accepted).gone == s.gone.push(accepted),
        after_offer(s, accepted).fresh == s.fresh + if accepted {
            1int
        } else {
            0
        },
{
}

/// A record that is marked goes with its key.
pub proof fn marked_record_goes(records: Seq<(Seq<u8>, Seq<u8>)>, gone: Seq<bool>, i: int)
    requires
        gone.len() <= records.len(),
        0 <= i < gone.len(),
        gone[i],
    ensures
        keys_gone(records, gone).contains(records[i].0),
    decreases gone.len(),
{
    let front = gone.drop_last();
    let (a, b) = (keys_gone(records, front), keys_gone(records, gone));
    if i < gone.len() - 1 {
        marked_record_goes(records, front, i);
        let k = choose|k: int| 0 <= k < a.len() && a[k] == records[i].0;
        assert(b[k] == records[i].0);
    } else {
        assert(b[b.len() - 1] == records[i].0);
    }
}

/// A key that goes is that of a record that is marked, and no more keys go than records are seen to.
pub proof fn only_marked_records_go(records: Seq<(Seq<u8>, Seq<u8>)>, gone: Seq<bool>, k: int)
    requires
        gone.len() <= records.len(),
        0 <= k < keys_gone(records, gone).len(),
    ensures
        keys_gone(records, gone).len() <= gone.len(),
        exists|i: int| 0 <= i < gone.len() && gone[i] && (#[trigger] records[i]).0 == keys_gone(records, gone)[k],
    decreases gone.len(),
{
    let front = gone.drop_last();
    let (a, b) = (keys_gone(records, front), keys_gone(records, gone));
    let n = gone.len() - 1;
    if k < a.len() {
        only_marked_records_go(records, front, k);
        let i = choose|i: int| 0 <= i < front.len() && front[i] && (#[trigger] records[i]).0 == a[k];
        assert(gone[i] && records[i].0 == b[k]);
    } else {
        assert(gone[n] && records[n].0 == b[k]);
        if a.len() > 0 {
            only_marked_records_go(records, front, 0);
        }
    }
}

/// A drain to its end, with the sets of delivered hashes, where `taken` says of each record whether a
/// client takes it when it is offered.
pub open spec fn drained(
    s: DrainState,
    m: Map<Seq<u8>, Seq<u64>>,
    taken: spec_fn(int) -> bool,
) -> (DrainState, Map<Seq<u8>, Seq<u64>>)
    decreases s.records.len() - s.gone.len(),
{
    let t = past_duplicates(s, m);
    if t.is_open() && t.records == s.records && t.at() >= s.at() {
        let marked = if taken(t.at()) {
            delivered::with_mark(m, t.user, t.current())
        } else {
            m
        };
        drained(after_offer(t, taken(t.at())), marked, taken)
    } else {
        (t, m)
    }
}

/// Whether a record is a duplicate of one that was delivered before the drain, or of one that was
/// taken earlier in it.
pub open spec fn is_duplicate(
    s: DrainState,
    m: Map<Seq<u8>, Seq<u64>>,
    taken: spec_fn(int) -> bool,
    i: int,
) -> bool {
    delivered::was_delivered(m, s.user, s.records[i].1) || exists|j: int|
        s.at() <= j < i && #[trigger] taken(j) && delivered::hash_of(s.records[j].1) == delivered::hash_of(
            s.records[i].1,
        )
}

proof fn passing_keeps_records(s: DrainState, m: Map<Seq<u8>, Seq<u64>>)
    requires
        s.gone.len() <= s.records.len(),
    ensures
        past_duplicates(s, m).records == s.records,
        past_duplicates(s, m).user == s.user,
        s.at() <= past_duplicates(s, m).at() <= s.records.len(),
    decreases s.records.len() - s.gone.len(),
{
    if s.is_open() && delivered::was_delivered(m, s.user, s.current()) {
        passing_keeps_records(DrainState { gone: s.gone.push(true), ..s }, m);
    }
}

proof fn mark_adds_one(m: Map<Seq<u8>, Seq<u64>>, user: Seq<u8>, a: Seq<u8>, b: Seq<u8>)
    requires
        delivered::was_delivered(delivered::with_mark(m, user, a), user, b),
    ensures
        delivered::was_delivered(m, user, b) || delivered::hash_of(a) == delivered::hash_of(b),
{
    delivered::hash_covers_payload(a, b);
    if !delivered::was_delivered(m, user, b) && delivered::hash_of(a) != delivered::hash_of(b) {
        delivered::mark_adds_no_other(m, user, a, b);
    }
}

/// A drain loses nothing, whichever records are taken: it sees to every one, a record that goes was
/// taken or is a duplicate, and one that stays was offered and not taken.
pub proof fn drain_loses_nothing(s: DrainState, m: Map<Seq<u8>, Seq<u64>>, taken: spec_fn(int) -> bool, i: int)
    requires
        s.at() <= i < s.records.len(),
    ensures
        drained(s, m, taken).0.at() == s.records.len(),
        drained(s, m, taken).0.gone[i] ==> taken(i) || is_duplicate(s, m, taken, i),
        !drained(s, m, taken).0.gone[i] ==> !taken(i),
    decreases s.records.len() - s.gone.len(),
{
    passing_keeps_records(s, m);
    let t = past_duplicates(s, m);
    if i < t.at() {
        only_duplicates_are_passed(s, m, i);
    }
    if t.is_open() {
        let accepted = taken(t.at());
        let u = after_offer(t, accepted);
        let n = if accepted {
            delivered::with_mark(m, t.user, t.current())
        } else {
            m
        };
        if u.at() <= i {
            drain_loses_nothing(u, n, taken, i);
            if is_duplicate(u, n, taken, i) {
                if delivered::was_delivered(n, u.user, u.records[i].1) {
                    if accepted {
                        mark_adds_one(m, t.user, t.current(), u.records[i].1);
                        if !delivered::was_delivered(m, s.user, s.records[i].1) {
                            assert(taken(t.at()));
                        }
                    }
                } else {
                    let j = choose|j: int|
                        u.at() <= j < i && #[trigger] taken(j) && delivered::hash_of(u.records[j].1)
                            == delivered::hash_of(u.records[i].1);
                    assert(s.at() <= j < i && taken(j));
                }
            }
        } else {
            drained_keeps_decisions(u, n, taken, i);
        }
    }
}

proof fn drained_keeps_decisions(s: DrainState, m: Map<Seq<u8>, Seq<u64>>, taken: spec_fn(int) -> bool, i: int)
    requires
        0 <= i < s.at() <= s.records.len(),
    ensures
        drained(s, m, taken).0.at() == s.records.len(),
        drained(s, m, taken).0.gone[i] == s.gone[i],
    decreases s.records.len() - s.gone.len(),
{
    passing_keeps_records(s, m);
    only_duplicates_are_passed(s, m, i);
    let t = past_duplicates(s, m);
    if t.is_open() {
        let n = if taken(t.at()) {
            delivered::with_mark(m, t.user, t.current())
        } else {
            m
        };
        drained_keeps_decisions(after_offer(t, taken(t.at())), n, taken, i);
    }
}

/// The offline messages of a user on their way to the user's clients.
#[derive(Debug)]
pub struct Drain {
    user: Vec<u8>,
    records: Vec<MailboxRecord>,
    gone: Vec<bool>,
    fresh: usize,
}

impl View for Drain {
    type V = DrainState;

    closed spec fn view(&self) -> DrainState {
        DrainState { user: self.user@, records: pairs(self.records@), gone: self.gone@, fresh: self.fresh as nat }
    }
}

impl Drain {
    #[verifier::type_invariant]
    spec fn sound(self) -> bool {
        self.fresh <= self.gone@.len() <= self.records@.len()
    }

    /// A drain of a user's records.
    pub fn start(user: &[u8], records: Vec<MailboxRecord>) -> (r: Drain)
        ensures
            r@ == (DrainState { user: user@, records: pairs(records@), gone: Seq::empty(), fresh: 0 }),
    {
        Drain { user: vstd::slice::slice_to_vec(user), records, gone: Vec::new(), fresh: 0 }
    }

    /// The next payload to offer to the user's clients, past the duplicates; none once every record
    /// has been seen to.
    pub fn next_offer(&mut self, delivered: &DeliveredSets) -> (r: Option<Vec<u8>>)
        ensures
            final(self)@ == past_duplicates(old(self)@, delivered@),
            match r {
                Some(p) => final(self)@.is_open() && p@ == final(self)@.current(),
                None => !final(self)@.is_open(),
            },
    {
        let ghost start = self@;
        proof {
            use_type_invariant(&*self);
        }
        let mut gone: Vec<bool> = Vec::new();
        let fresh = self.fresh;
        self.fresh = 0;
        std::mem::swap(&mut gone, &mut self.gone);
        while gone.len() < self.records.len()
            invariant
                fresh <= gone@.len() <= self.records@.len(),
                self.fresh == 0,
                start == old(self)@,
                past_duplicates(
                    DrainState {
                        user: self.user@,
                        records: pairs(self.records@),
                        gone: gone@,
                        fresh: fresh as nat,
                    },
                    delivered@,
                ) == past_duplicates(start, delivered@),
            decreases self.records@.len() - gone@.len(),
        {
            let i = gone.len();
            let ghost s = DrainState {
                user: self.user@,
                records: pairs(self.records@),
                gone: gone@,
                fresh: fresh as nat,
            };
            assert(s.current() == self.records@[i as int].payload@);
            if !delivered.contains(&self.user, payload_hash(&self.records[i].payload)) {
                let r = vstd::slice::slice_to_vec(&self.records[i].payload);
                self.gone = gone;
                self.fresh = fresh;
                assert(past_duplicates(s, delivered@) == s);
                assert(self@ =~= s);
                return Some(r);
            }
            gone.push(true);
        }
        self.gone = gone;
        self.fresh = fresh;
        None
    }

    /// Settles the offer of the record whose turn it is by whether a client took it: only then it is
    /// marked as delivered, and goes. Without such a record nothing changes.
    pub fn settle(&mut self, delivered: &mut DeliveredSets, accepted: bool)
        ensures
            final(self)@ == if old(self)@.is_open() {
                after_offer(old(self)@, accepted)
            } else {
                old(self)@
            },
            final(delivered)@ == if old(self)@.is_open() && accepted {
                delivered::with_mark(old(delivered)@, old(self)@.user, old(self)@.current())
            } else {
                old(delivered)@
            },
    {
        proof {
            use_type_invariant(&*self);
        }
        let i = self.gone.len();
        if i >= self.records.len() {
            return;
        }
        assert(self@.current() == self.records@[i as int].payload@);
        if accepted {
            delivered.mark(&self.user, payload_hash(&self.records[i].payload));
        }
        let mut gone: Vec<bool> = Vec::new();
        let fresh = self.fresh;
        self.fresh = 0;
        std::mem::swap(&mut gone, &mut self.gone);
        gone.push(accepted);
        self.gone = gone;
        if accepted {
            self.fresh = fresh + 1;
        } else {
            self.fresh = fresh;
        }
    }

    /// How many records a client took. Where there are any, the user's delivered set is stored.
    pub fn fresh_count(&self) -> (r: usize)
        ensures
            r == self@.fresh,
    {
        self.fresh
    }

    /// The keys of the records that go: those that a client took, and duplicates.
    pub fn removable(&self) -> (r: Vec<Vec<u8>>)
        ensures
            contents(r@) == keys_gone(self@.records, self@.gone),
    {
        proof {
            use_type_invariant(self);
        }
        let mut r: Vec<Vec<u8>> = Vec::new();
        let mut i: usize = 0;
        assert(self.gone@.take(0) =~= Seq::<bool>::empty());
        assert(contents(r@) =~= keys_gone(self@.records, self.gone@.take(0)));
        while i < self.gone.len()
            invariant
                i <= self.gone@.len() <= self.records@.len(),
                contents(r@) == keys_gone(self@.records, self.gone@.take(i as int)),
            decreases self.gone@.len() - i,
        {
            let ghost before = r@;
            proof {
                assert(self.gone@.take(i + 1).drop_last() =~= self.gone@.take(i as int));
                assert(self@.records[i as int].0 == self.records@[i as int].key@);
            }
            if self.gone[i] {
                let key = vstd::slice::slice_to_vec(&self.records[i].key);
                let ghost added = key@;
                r.push(key);
                assert(contents(r@) =~= contents(before).push(added));
            }
            i = i + 1;
        }
        assert(self.gone@.take(i as int) =~= self.gone@);
        r
    }
}

} // verus!
