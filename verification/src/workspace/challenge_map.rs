//! The challenge records of a workspace, keyed by lower-cased challenge name.
use vstd::prelude::*;

use crate::workspace::state::{ChallengeState, ChallengeStateView};

verus! {

/// No key occurs twice in `s`.
pub open spec fn keys_distinct<V>(s: Seq<(Seq<char>, V)>) -> bool {
    forall|i: int, j: int| 0 <= i < j < s.len() ==> #[trigger] s[i].0 != #[trigger] s[j].0
}

/// The map whose keys are the keys of `s`, each mapped to the value beside it.
pub open spec fn entries_map<V>(s: Seq<(Seq<char>, V)>) -> Map<Seq<char>, V> {
    Map::new(
        |k: Seq<char>| exists|i: int| 0 <= i < s.len() && #[trigger] s[i].0 == k,
        |k: Seq<char>| s[choose|i: int| 0 <= i < s.len() && #[trigger] s[i].0 == k].1,
    )
}

pub proof fn lemma_entries_map_at<V>(s: Seq<(Seq<char>, V)>, i: int)
    requires
        keys_distinct(s),
        0 <= i < s.len(),
    ensures
        entries_map(s).contains_key(s[i].0),
        entries_map(s)[s[i].0] == s[i].1,
{
    let k = s[i].0;
    assert(exists|j: int| 0 <= j < s.len() && #[trigger] s[j].0 == k);
    let j = choose|j: int| 0 <= j < s.len() && #[trigger] s[j].0 == k;
    if j != i {
        if j < i {
            assert(s[j].0 != s[i].0);
        } else {
            assert(s[i].0 != s[j].0);
        }
    }
}

pub proof fn lemma_entries_map_len<V>(s: Seq<(Seq<char>, V)>)
    requires
        keys_distinct(s),
    ensures
        entries_map(s).dom().finite(),
        entries_map(s).len() == s.len(),
    decreases s.len(),
{
    let keys = s.map_values(|e: (Seq<char>, V)| e.0);
    assert(keys.no_duplicates()) by {
        assert forall|i: int, j: int| 0 <= i < keys.len() && 0 <= j < keys.len() && i != j implies keys[i]
            != keys[j] by {
            if i < j {
                assert(s[i].0 != s[j].0);
            } else {
                assert(s[j].0 != s[i].0);
            }
        }
    }
    keys.unique_seq_to_set();
    assert(entries_map(s).dom() =~= keys.to_set()) by {
        assert forall|k: Seq<char>| entries_map(s).dom().contains(k) <==> keys.to_set().contains(k) by {
            if keys.to_set().contains(k) {
                let i = choose|i: int| 0 <= i < keys.len() && keys[i] == k;
                assert(s[i].0 == k);
            }
            if entries_map(s).dom().contains(k) {
                let i = choose|i: int| 0 <= i < s.len() && #[trigger] s[i].0 == k;
                assert(keys[i] == k);
            }
        }
    }
}

/// The challenge records, each under its key (the lower-cased challenge name).
/// Iteration visits them in `entry_seq` order, which callers should treat as
/// arbitrary, as with a hash map.
pub struct ChallengeMap {
    entries: Vec<(String, ChallengeState)>,
}

impl ChallengeMap {
    #[verifier::type_invariant]
    spec fn inv(self) -> bool {
        keys_distinct(self.entry_seq())
    }

    /// The entries in iteration order, by content.
    pub closed spec fn entry_seq(&self) -> Seq<(Seq<char>, ChallengeStateView)> {
        self.entries@.map_values(|e: (String, ChallengeState)| (e.0@, e.1@))
    }

    /// The records in iteration order.
    pub open spec fn values(&self) -> Seq<ChallengeStateView> {
        self.entry_seq().map_values(|e: (Seq<char>, ChallengeStateView)| e.1)
    }

    pub fn new() -> (m: Self)
        ensures
            m@ == Map::<Seq<char>, ChallengeStateView>::empty(),
            m.entry_seq() == Seq::<(Seq<char>, ChallengeStateView)>::empty(),
    {
        let m = ChallengeMap { entries: Vec::new() };
        assert(m.entry_seq() =~= Seq::<(Seq<char>, ChallengeStateView)>::empty());
        assert(m@ =~= Map::<Seq<char>, ChallengeStateView>::empty());
        m
    }

    /// The number of challenges.
    pub fn len(&self) -> (r: usize)
        ensures
            r == self@.len(),
            r == self.entry_seq().len(),
            self@.dom().finite(),
    {
        proof {
            use_type_invariant(self);
            lemma_entries_map_len(self.entry_seq());
        }
        self.entries.len()
    }

    pub fn is_empty(&self) -> (r: bool)
        ensures
            r == (self@.len() == 0),
            r == (self@ == Map::<Seq<char>, ChallengeStateView>::empty()),
    {
        proof {
            use_type_invariant(self);
            lemma_entries_map_len(self.entry_seq());
            if self.entries.len() == 0 {
                assert(self@ =~= Map::<Seq<char>, ChallengeStateView>::empty());
            } else {
                lemma_entries_map_at(self.entry_seq(), 0);
            }
        }
        self.entries.len() == 0
    }

    /// The position of `key` in iteration order, if present.
    pub fn find(&self, key: &str) -> (r: Option<usize>)
        ensures
            match r {
                Some(i) => i < self.entry_seq().len() && self.entry_seq()[i as int].0 == key@
                    && self@.contains_key(key@) && self@[key@] == self.entry_seq()[i as int].1,
                None => !self@.contains_key(key@),
            },
    {
        proof {
            use_type_invariant(self);
        }
        let mut i: usize = 0;
        while i < self.entries.len()
            invariant
                i <= self.entries@.len(),
                keys_distinct(self.entry_seq()),
                forall|j: int| 0 <= j < i ==> self.entry_seq()[j].0 != key@,
            decreases self.entries@.len() - i,
        {
            if crate::text::str_eq(self.entries[i].0.as_str(), key) {
                proof {
                    lemma_entries_map_at(self.entry_seq(), i as int);
                }
                return Some(i);
            }
            i = i + 1;
        }
        proof {
            if self@.contains_key(key@) {
                let j = choose|j: int|
                    0 <= j < self.entry_seq().len() && #[trigger] self.entry_seq()[j].0 == key@;
                assert(self.entry_seq()[j].0 != key@);
            }
        }
        None
    }

    /// The record under `key`, if any.
    pub fn get(&self, key: &str) -> (r: Option<&ChallengeState>)
        ensures
            match r {
                Some(v) => self@.contains_key(key@) && v@ == self@[key@],
                None => !self@.contains_key(key@),
            },
    {
        match self.find(key) {
            Some(i) => Some(&self.entries[i].1),
            None => None,
        }
    }

    /// The key at position `i` of iteration order.
    pub fn key_at(&self, i: usize) -> (r: &String)
        requires
            i < self.entry_seq().len(),
        ensures
            r@ == self.entry_seq()[i as int].0,
    {
        &self.entries[i].0
    }

    /// The record at position `i` of iteration order.
    pub fn value_at(&self, i: usize) -> (r: &ChallengeState)
        requires
            i < self.entry_seq().len(),
        ensures
            r@ == self.entry_seq()[i as int].1,
            r@ == self.values()[i as int],
            self@.contains_key(self.entry_seq()[i as int].0),
            self@[self.entry_seq()[i as int].0] == r@,
    {
        proof {
            use_type_invariant(self);
            lemma_entries_map_at(self.entry_seq(), i as int);
        }
        &self.entries[i].1
    }

    /// Replaces the record at position `i`, keeping its key and position, and
    /// hands back the record it held.
    pub fn replace_at(&mut self, i: usize, value: ChallengeState) -> (prev: ChallengeState)
        requires
            i < old(self).entry_seq().len(),
        ensures
            prev@ == old(self).entry_seq()[i as int].1,
            final(self).entry_seq() == old(self).entry_seq().update(
                i as int,
                (old(self).entry_seq()[i as int].0, value@),
            ),
            final(self)@ == old(self)@.insert(old(self).entry_seq()[i as int].0, value@),
    {
        proof {
            use_type_invariant(&*self);
        }
        let ghost before = self.entry_seq();
        let ghost v = value@;
        let mut entries: Vec<(String, ChallengeState)> = Vec::new();
        std::mem::swap(&mut entries, &mut self.entries);
        let (key, prev) = entries.remove(i);
        entries.insert(i, (key, value));
        proof {
            lemma_update_entries_map(before, i as int, v);
            assert(entries@.map_values(|e: (String, ChallengeState)| (e.0@, e.1@)) =~= before.update(
                i as int,
                (before[i as int].0, v),
            ));
        }
        self.entries = entries;
        prev
    }

    /// Adds a record under a key that is not present, at the end of iteration order.
    fn push_new(&mut self, key: String, value: ChallengeState)
        requires
            !old(self)@.contains_key(key@),
        ensures
            final(self).entry_seq() == old(self).entry_seq().push((key@, value@)),
            final(self)@ == old(self)@.insert(key@, value@),
    {
        proof {
            use_type_invariant(&*self);
        }
        let ghost before = self.entry_seq();
        proof {
            assert forall|j: int| 0 <= j < before.len() implies before[j].0 != key@ by {
                if before[j].0 == key@ {
                    assert(entries_map(before).contains_key(key@));
                }
            }
        }
        let ghost k = key@;
        let ghost v = value@;
        let mut entries: Vec<(String, ChallengeState)> = Vec::new();
        std::mem::swap(&mut entries, &mut self.entries);
        entries.push((key, value));
        proof {
            lemma_push_entries_map(before, k, v);
            assert(entries@.map_values(|e: (String, ChallengeState)| (e.0@, e.1@)) =~= before.push(
                (k, v),
            ));
        }
        self.entries = entries;
    }

    /// Sets the record under `key`, replacing any record there.
    pub fn insert(&mut self, key: String, value: ChallengeState)
        ensures
            final(self)@ == old(self)@.insert(key@, value@),
    {
        match self.find(key.as_str()) {
            Some(i) => {
                self.replace_at(i, value);
            },
            None => {
                self.push_new(key, value);
            },
        }
    }

    /// The position of `key`, adding `fresh` under it at the end first if the
    /// key is not present.
    pub fn find_or_insert(&mut self, key: String, fresh: ChallengeState) -> (i: usize)
        ensures
            i < final(self).entry_seq().len(),
            final(self).entry_seq()[i as int].0 == key@,
            final(self)@ == (if old(self)@.contains_key(key@) {
                old(self)@
            } else {
                old(self)@.insert(key@, fresh@)
            }),
            final(self)@.contains_key(key@),
            final(self)@[key@] == final(self).entry_seq()[i as int].1,
    {
        match self.find(key.as_str()) {
            Some(i) => i,
            None => {
                self.push_new(key, fresh);
                let i = self.entries.len() - 1;
                proof {
                    use_type_invariant(&*self);
                    lemma_entries_map_at(self.entry_seq(), i as int);
                }
                i
            },
        }
    }
}

proof fn lemma_update_entries_map<V>(s: Seq<(Seq<char>, V)>, i: int, v: V)
    requires
        keys_distinct(s),
        0 <= i < s.len(),
    ensures
        keys_distinct(s.update(i, (s[i].0, v))),
        entries_map(s.update(i, (s[i].0, v))) == entries_map(s).insert(s[i].0, v),
{
    let t = s.update(i, (s[i].0, v));
    assert(keys_distinct(t)) by {
        assert forall|a: int, b: int| 0 <= a < b < t.len() implies #[trigger] t[a].0 != #[trigger] t[b].0 by {
            assert(s[a].0 != s[b].0);
        }
    }
    assert forall|k: Seq<char>| #[trigger] entries_map(t).contains_key(k) <==> entries_map(s).insert(s[i].0, v).contains_key(k) by {
        if entries_map(s).contains_key(k) {
            let j = choose|j: int| 0 <= j < s.len() && #[trigger] s[j].0 == k;
            assert(t[j].0 == k);
        }
        if entries_map(t).contains_key(k) {
            let j = choose|j: int| 0 <= j < t.len() && #[trigger] t[j].0 == k;
            assert(s[j].0 == k);
        }
        if k == s[i].0 {
            assert(t[i].0 == k);
        }
    }
    assert forall|k: Seq<char>| #[trigger] entries_map(t).contains_key(k) implies entries_map(t)[k] == entries_map(s).insert(s[i].0, v)[k] by {
        let j = choose|j: int| 0 <= j < t.len() && #[trigger] t[j].0 == k;
        lemma_entries_map_at(t, j);
        if j != i {
            lemma_entries_map_at(s, j);
        }
    }
    assert(entries_map(t) =~= entries_map(s).insert(s[i].0, v));
}

proof fn lemma_push_entries_map<V>(s: Seq<(Seq<char>, V)>, k: Seq<char>, v: V)
    requires
        keys_distinct(s),
        forall|j: int| 0 <= j < s.len() ==> s[j].0 != k,
    ensures
        keys_distinct(s.push((k, v))),
        entries_map(s.push((k, v))) == entries_map(s).insert(k, v),
{
    let t = s.push((k, v));
    assert(keys_distinct(t)) by {
        assert forall|a: int, b: int| 0 <= a < b < t.len() implies #[trigger] t[a].0 != #[trigger] t[b].0 by {
            if b < s.len() {
                assert(s[a].0 != s[b].0);
            }
        }
    }
    assert forall|q: Seq<char>| #[trigger] entries_map(t).contains_key(q) <==> entries_map(s).insert(k, v).contains_key(q) by {
        if entries_map(s).contains_key(q) {
            let j = choose|j: int| 0 <= j < s.len() && #[trigger] s[j].0 == q;
            assert(t[j].0 == q);
        }
        if entries_map(t).contains_key(q) {
            let j = choose|j: int| 0 <= j < t.len() && #[trigger] t[j].0 == q;
            if j < s.len() {
                assert(s[j].0 == q);
            }
        }
        if q == k {
            assert(t[s.len() as int].0 == k);
        }
    }
    assert forall|q: Seq<char>| #[trigger] entries_map(t).contains_key(q) implies entries_map(t)[q] == entries_map(s).insert(k, v)[q] by {
        let j = choose|j: int| 0 <= j < t.len() && #[trigger] t[j].0 == q;
        lemma_entries_map_at(t, j);
        if j < s.len() {
            lemma_entries_map_at(s, j);
        }
    }
    assert(entries_map(t) =~= entries_map(s).insert(k, v));
}

impl View for ChallengeMap {
    type V = Map<Seq<char>, ChallengeStateView>;

    open spec fn view(&self) -> Map<Seq<char>, ChallengeStateView> {
        entries_map(self.entry_seq())
    }
}

} // verus!
