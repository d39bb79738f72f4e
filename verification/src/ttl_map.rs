//! A small keyed store of values with absolute expiry times.
//!
//! Entries are kept as an association list with unique keys and a capacity
//! bound. A lookup returns a value only while its entry is live, that is,
//! while `expires_at` lies strictly in the future. When an insert of a new
//! key would exceed the capacity, the oldest entry (the front of the list)
//! is evicted; correctness of the callers never depends on which victim is
//! chosen, because expired entries are also pruned when a snapshot is taken.

use vstd::prelude::*;
use vstd::seq_lib::*;

verus! {

/// A cached value together with its absolute expiry time, in seconds since
/// the Unix epoch. An entry is live at time `now` iff `expires_at > now`.
/// The entry is immutable after insertion.
pub struct CachedEntry<T> {
    pub value: T,
    pub expires_at: u64,
}

/// Whether an entry is live at `now`.
pub open spec fn entry_live<T>(e: CachedEntry<T>, now: u64) -> bool {
    e.expires_at > now
}

/// No two list positions carry the same key.
pub open spec fn keys_unique<V>(s: Seq<(String, V)>) -> bool {
    forall|i: int, j: int| 0 <= i < j < s.len() ==> s[i].0@ != s[j].0@
}

/// The entry stored under `k`, scanning from the back of the list.
pub open spec fn seq_get<V>(s: Seq<(String, V)>, k: Seq<char>) -> Option<V>
    decreases s.len(),
{
    if s.len() == 0 {
        None
    } else if s.last().0@ == k {
        Some(s.last().1)
    } else {
        seq_get(s.drop_last(), k)
    }
}

/// A lookup succeeds exactly when some position carries the key.
pub proof fn lemma_seq_get_some_iff<V>(s: Seq<(String, V)>, k: Seq<char>)
    ensures
        (seq_get(s, k) is Some) <==> (exists|i: int| 0 <= i < s.len() && s[i].0@ == k),
    decreases s.len(),
{
    if s.len() > 0 {
        lemma_seq_get_some_iff(s.drop_last(), k);
        if s.last().0@ == k {
            assert(s[s.len() - 1].0@ == k);
        } else {
            if seq_get(s, k) is Some {
                let i = choose|i: int| 0 <= i < s.drop_last().len() && s.drop_last()[i].0@ == k;
                assert(s[i].0@ == k);
            }
            if exists|i: int| 0 <= i < s.len() && s[i].0@ == k {
                let i = choose|i: int| 0 <= i < s.len() && s[i].0@ == k;
                assert(i < s.len() - 1);
                assert(s.drop_last()[i].0@ == k);
            }
        }
    }
}

/// Appending a pair makes its key map to its entry and leaves other keys
/// unchanged.
pub proof fn lemma_seq_get_push<V>(
    s: Seq<(String, V)>,
    x: (String, V),
    k: Seq<char>,
)
    ensures
        seq_get(s.push(x), k) == if x.0@ == k {
            Some(x.1)
        } else {
            seq_get(s, k)
        },
{
    assert(s.push(x).drop_last() =~= s);
    assert(s.push(x).last() == x);
}

/// Removing position `i` erases exactly the key stored there, provided keys
/// are unique.
pub proof fn lemma_seq_get_remove<V>(s: Seq<(String, V)>, i: int, k: Seq<char>)
    requires
        0 <= i < s.len(),
        keys_unique(s),
    ensures
        seq_get(s.remove(i), k) == if s[i].0@ == k {
            None::<V>
        } else {
            seq_get(s, k)
        },
    decreases s.len(),
{
    s.remove_ensures(i);
    if i == s.len() - 1 {
        assert(s.remove(i) =~= s.drop_last());
        if s[i].0@ == k {
            lemma_seq_get_some_iff(s.drop_last(), k);
            assert forall|j: int| 0 <= j < s.drop_last().len() implies s.drop_last()[j].0@ != k by {
                assert(s[j].0@ == s.drop_last()[j].0@);
            }
        }
    } else {
        assert(s.remove(i).last() == s.last());
        assert(s.remove(i).drop_last() =~= s.drop_last().remove(i));
        assert(keys_unique(s.drop_last()));
        lemma_seq_get_remove(s.drop_last(), i, k);
        if s.last().0@ == k {
        } else {
            assert(s.drop_last()[i] == s[i]);
        }
    }
}

/// Uniqueness survives removal of a position.
pub proof fn lemma_keys_unique_remove<V>(s: Seq<(String, V)>, i: int)
    requires
        0 <= i < s.len(),
        keys_unique(s),
    ensures
        keys_unique(s.remove(i)),
{
    s.remove_ensures(i);
}

/// The keyed TTL store: an association list with unique keys, bounded by
/// `capacity`.
pub struct TtlMap<T> {
    entries: Vec<(String, CachedEntry<T>)>,
    capacity: usize,
}

impl<T> TtlMap<T> {
    /// The stored pairs, in insertion order.
    pub closed spec fn entries_seq(self) -> Seq<(String, CachedEntry<T>)> {
        self.entries@
    }

    /// The capacity bound.
    pub closed spec fn cap(self) -> usize {
        self.capacity
    }

    /// Well-formed: unique keys, within capacity.
    pub open spec fn wf(self) -> bool {
        &&& self.cap() >= 1
        &&& self.entries_seq().len() <= self.cap()
        &&& keys_unique(self.entries_seq())
    }

    /// The entry stored under key `k`, live or not.
    pub open spec fn spec_get(self, k: Seq<char>) -> Option<CachedEntry<T>> {
        seq_get(self.entries_seq(), k)
    }

    /// The value stored under key `k`, if its entry is live at `now`.
    pub open spec fn live_get(self, k: Seq<char>, now: u64) -> Option<T> {
        match self.spec_get(k) {
            Some(e) => if entry_live(e, now) {
                Some(e.value)
            } else {
                None
            },
            None => None,
        }
    }

    /// Whether inserting a fresh key `k` would evict the oldest entry.
    pub open spec fn would_evict(self, k: Seq<char>) -> bool {
        self.spec_get(k) is None && self.entries_seq().len() == self.cap()
    }

    pub fn new(capacity: usize) -> (r: Self)
        requires
            capacity >= 1,
        ensures
            r.wf(),
            r.cap() == capacity,
            r.entries_seq().len() == 0,
            forall|k: Seq<char>| #[trigger] r.spec_get(k) is None,
    {
        let r = TtlMap { entries: Vec::new(), capacity };
        proof {
            assert forall|k: Seq<char>| #[trigger] r.spec_get(k) is None by {
                lemma_seq_get_some_iff(r.entries_seq(), k);
            }
        }
        r
    }

    pub fn len(&self) -> (r: usize)
        ensures
            r == self.entries_seq().len(),
    {
        self.entries.len()
    }

    /// The pair at position `i`, for walking the store.
    pub fn entry_at(&self, i: usize) -> (r: &(String, CachedEntry<T>))
        requires
            i < self.entries_seq().len(),
        ensures
            *r == self.entries_seq()[i as int],
    {
        &self.entries[i]
    }

    /// The position holding `key`, if any.
    fn find_index(&self, key: &str) -> (r: Option<usize>)
        ensures
            match r {
                Some(i) => i < self.entries_seq().len() && self.entries_seq()[i as int].0@ == key@,
                None => forall|i: int|
                    0 <= i < self.entries_seq().len() ==> self.entries_seq()[i].0@ != key@,
            },
    {
        let needle = String::from_str(key);
        let n = self.entries.len();
        let mut i: usize = 0;
        while i < n
            invariant
                needle@ == key@,
                n == self.entries_seq().len(),
                i <= n,
                forall|j: int| 0 <= j < i ==> self.entries_seq()[j].0@ != key@,
            decreases n - i,
        {
            if self.entries[i].0 == needle {
                return Some(i);
            }
            i += 1;
        }
        None
    }

    /// A borrowed view of the entry under `key`, live or not.
    pub fn find(&self, key: &str) -> (r: Option<&CachedEntry<T>>)
        requires
            self.wf(),
        ensures
            match self.spec_get(key@) {
                Some(e) => r matches Some(er) && *er == e,
                None => r is None,
            },
    {
        proof {
            lemma_seq_get_some_iff(self.entries_seq(), key@);
        }
        match self.find_index(key) {
            Some(i) => {
                proof {
                    lemma_seq_get_at_index(self.entries_seq(), i as int, key@);
                }
                Some(&self.entries[i].1)
            },
            None => None,
        }
    }

    /// A borrowed view of the value under `key`, only while live at `now`.
    pub fn get<'a>(&'a self, key: &str, now: u64) -> (r: Option<&'a T>)
        requires
            self.wf(),
        ensures
            match self.live_get(key@, now) {
                Some(v) => r matches Some(rv) && *rv == v,
                None => r is None,
            },
    {
        match self.find(key) {
            Some(e) => {
                if e.expires_at > now {
                    Some(&e.value)
                } else {
                    None
                }
            },
            None => None,
        }
    }

    /// Inserts or replaces the entry under `key`. A fresh key beyond the
    /// capacity evicts the entry at the front of the list; the victim is
    /// never the key being inserted.
    pub fn insert(&mut self, key: String, entry: CachedEntry<T>)
        requires
            old(self).wf(),
        ensures
            final(self).wf(),
            final(self).cap() == old(self).cap(),
            final(self).spec_get(key@) == Some(entry),
            forall|k: Seq<char>|
                k != key@ ==> #[trigger] final(self).spec_get(k) == if old(self).would_evict(key@)
                    && k == old(self).entries_seq()[0].0@ {
                    None::<CachedEntry<T>>
                } else {
                    old(self).spec_get(k)
                },
            final(self).entries_seq().len() <= old(self).entries_seq().len() + 1,
    {
        let ghost s0 = self.entries@;
        proof {
            lemma_seq_get_some_iff(s0, key@);
        }
        match self.find_index(key.as_str()) {
            Some(i) => {
                proof {
                    lemma_seq_get_remove(s0, i as int, key@);
                    lemma_keys_unique_remove(s0, i as int);
                    assert forall|k: Seq<char>| k != key@ implies seq_get(s0.remove(i as int), k)
                        == seq_get(s0, k) by {
                        lemma_seq_get_remove(s0, i as int, k);
                    }
                }
                self.entries.remove(i);
            },
            None => {
                if self.entries.len() == self.capacity {
                    proof {
                        lemma_seq_get_remove(s0, 0, key@);
                        assert forall|k: Seq<char>| k != key@ implies seq_get(s0.remove(0), k)
                            == if k == s0[0].0@ {
                            None::<CachedEntry<T>>
                        } else {
                            seq_get(s0, k)
                        } by {
                            lemma_seq_get_remove(s0, 0, k);
                        }
                        lemma_keys_unique_remove(s0, 0);
                    }
                    self.entries.remove(0);
                }
            },
        }
        let ghost s1 = self.entries@;
        proof {
            assert forall|k: Seq<char>| #[trigger]
                seq_get(s1.push((key, entry)), k) == if key@ == k {
                    Some(entry)
                } else {
                    seq_get(s1, k)
                } by {
                lemma_seq_get_push(s1, (key, entry), k);
            }
            lemma_seq_get_some_iff(s1, key@);
            assert forall|i: int, j: int|
                0 <= i < j < s1.push((key, entry)).len() implies s1.push((key, entry))[i].0@ != s1.push(
                (key, entry),
            )[j].0@ by {
                if j == s1.len() as int {
                    assert(s1[i].0@ != key@);
                }
            }
        }
        self.entries.push((key, entry));
    }

    /// Removes the entry under `key`, if present.
    pub fn remove(&mut self, key: &str)
        requires
            old(self).wf(),
        ensures
            final(self).wf(),
            final(self).cap() == old(self).cap(),
            final(self).spec_get(key@) is None,
            forall|k: Seq<char>|
                k != key@ ==> #[trigger] final(self).spec_get(k) == old(self).spec_get(k),
            final(self).entries_seq().len() <= old(self).entries_seq().len(),
    {
        let ghost s0 = self.entries@;
        proof {
            lemma_seq_get_some_iff(s0, key@);
        }
        match self.find_index(key) {
            Some(i) => {
                proof {
                    lemma_keys_unique_remove(s0, i as int);
                    assert forall|k: Seq<char>| #[trigger]
                        seq_get(s0.remove(i as int), k) == if s0[i as int].0@ == k {
                            None::<CachedEntry<T>>
                        } else {
                            seq_get(s0, k)
                        } by {
                        lemma_seq_get_remove(s0, i as int, k);
                    }
                    lemma_seq_get_some_iff(s0.remove(i as int), key@);
                    assert forall|j: int|
                        0 <= j < s0.remove(i as int).len() implies s0.remove(i as int)[j].0@
                        != key@ by {
                        s0.remove_ensures(i as int);
                    }
                }
                self.entries.remove(i);
            },
            None => {},
        }
    }
}

/// The predicate a snapshot keeps: the entry is live at `now`.
pub open spec fn live_pred<T>(now: u64) -> spec_fn((String, CachedEntry<T>)) -> bool {
    |p: (String, CachedEntry<T>)| p.1.expires_at > now
}

/// What loading a snapshot sequence yields under key `k`: the stored entry,
/// but only while live at `now`.
pub open spec fn live_seq_get<T>(
    s: Seq<(String, CachedEntry<T>)>,
    k: Seq<char>,
    now: u64,
) -> Option<CachedEntry<T>> {
    match seq_get(s, k) {
        Some(e) => if entry_live(e, now) {
            Some(e)
        } else {
            None
        },
        None => None,
    }
}

/// Filtering by liveness commutes with lookup: the filtered sequence holds
/// `k` exactly when the original holds a live entry under `k`.
pub proof fn lemma_filter_live_get<T>(s: Seq<(String, CachedEntry<T>)>, now: u64, k: Seq<char>)
    requires
        keys_unique(s),
    ensures
        seq_get(s.filter(live_pred(now)), k) == live_seq_get(s, k, now),
    decreases s.len(),
{
    reveal(Seq::filter);
    if s.len() > 0 {
        let last = s.last();
        let d = s.drop_last();
        assert(keys_unique(d));
        lemma_filter_live_get(d, now, k);
        if live_pred::<T>(now)(last) {
            lemma_seq_get_push(d.filter(live_pred(now)), last, k);
        } else {
            if last.0@ == k {
                lemma_seq_get_some_iff(d, k);
                assert forall|j: int| 0 <= j < d.len() implies d[j].0@ != k by {
                    assert(s[j] == d[j]);
                }
            }
        }
    }
}

/// Filtering by liveness keeps keys unique.
pub proof fn lemma_filter_keys_unique<T>(s: Seq<(String, CachedEntry<T>)>, now: u64)
    requires
        keys_unique(s),
    ensures
        keys_unique(s.filter(live_pred(now))),
    decreases s.len(),
{
    reveal(Seq::filter);
    if s.len() > 0 {
        let last = s.last();
        let d = s.drop_last();
        assert(keys_unique(d));
        lemma_filter_keys_unique(d, now);
        if live_pred::<T>(now)(last) {
            let fd = d.filter(live_pred(now));
            assert(seq_get(fd, last.0@) is None) by {
                lemma_filter_live_get(d, now, last.0@);
                lemma_seq_get_some_iff(d, last.0@);
                assert forall|j: int| 0 <= j < d.len() implies d[j].0@ != last.0@ by {
                    assert(s[j] == d[j]);
                }
            }
            lemma_seq_get_some_iff(fd, last.0@);
            assert forall|i: int, j: int|
                0 <= i < j < fd.push(last).len() implies fd.push(last)[i].0@ != fd.push(
                last,
            )[j].0@ by {
                if j == fd.len() as int {
                    assert(fd[i].0@ != last.0@);
                }
            }
        }
    }
}

/// Snapshot round-trip: take a snapshot of the store at `t0` (keeping the
/// live entries), then load it at a later `t1` (keeping what is still
/// live). Under every key this yields exactly the entries of the original
/// store that are live at `t1`: the round trip loses nothing but entries
/// that expired in between.
pub proof fn lemma_snapshot_round_trip<T>(
    s: Seq<(String, CachedEntry<T>)>,
    t0: u64,
    t1: u64,
    k: Seq<char>,
)
    requires
        keys_unique(s),
        t0 <= t1,
    ensures
        live_seq_get(s.filter(live_pred(t0)), k, t1) == live_seq_get(s, k, t1),
{
    lemma_filter_live_get(s, t0, k);
}

impl<T> TtlMap<T> {
    /// The live entries at `now`, borrowed, in store order: what a snapshot
    /// writes out. The keys are pairwise distinct, so writing them into a
    /// keyed document loses nothing.
    pub fn live_entries(&self, now: u64) -> (out: Vec<(&String, &CachedEntry<T>)>)
        requires
            self.wf(),
        ensures
            out@.len() == self.entries_seq().filter(live_pred(now)).len(),
            forall|j: int|
                0 <= j < out@.len() ==> (*(#[trigger] out@[j]).0, *out@[j].1)
                    == self.entries_seq().filter(live_pred(now))[j],
            forall|i: int, j: int|
                0 <= i < j < out@.len() ==> (*(#[trigger] out@[i]).0)@ != (*(
                #[trigger] out@[j]).0)@,
    {
        proof {
            lemma_filter_keys_unique(self.entries_seq(), now);
        }
        proof {
            reveal(Seq::filter);
        }
        let ghost all = self.entries_seq();
        let n = self.len();
        let mut out: Vec<(&String, &CachedEntry<T>)> = Vec::new();
        let mut i: usize = 0;
        proof {
            assert(all.take(0) =~= Seq::empty());
        }
        while i < n
            invariant
                n == self.entries_seq().len(),
                all == self.entries_seq(),
                i <= n,
                out@.len() == all.take(i as int).filter(live_pred(now)).len(),
                forall|j: int|
                    0 <= j < out@.len() ==> (*(#[trigger] out@[j]).0, *out@[j].1) == all.take(
                        i as int,
                    ).filter(live_pred(now))[j],
            decreases n - i,
        {
            let pair = self.entry_at(i);
            proof {
                reveal(Seq::filter);
                assert(all.take(i as int + 1).drop_last() =~= all.take(i as int));
                assert(all.take(i as int + 1).last() == all[i as int]);
            }
            if pair.1.expires_at > now {
                out.push((&pair.0, &pair.1));
            }
            i += 1;
        }
        proof {
            assert(all.take(n as int) =~= all);
        }
        out
    }
}

/// If position `i` carries `k` and keys are unique, the lookup returns that
/// position's entry.
pub proof fn lemma_seq_get_at_index<V>(s: Seq<(String, V)>, i: int, k: Seq<char>)
    requires
        0 <= i < s.len(),
        s[i].0@ == k,
        keys_unique(s),
    ensures
        seq_get(s, k) == Some(s[i].1),
    decreases s.len(),
{
    if i == s.len() - 1 {
        assert(s.last().0@ == k);
    } else {
        assert(s.last().0@ != k);
        assert(s.drop_last()[i] == s[i]);
        assert(keys_unique(s.drop_last()));
        lemma_seq_get_at_index(s.drop_last(), i, k);
    }
}

} // verus!
