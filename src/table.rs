//! A keyed table that remembers insertion order.
//!
//! Every map of the ledger (balances, bets, totals, earnings, metadata,
//! whitelist) is one of these: point lookups, upserts, deletions and
//! enumeration in a fixed, deterministic order.
use vstd::prelude::*;

verus! {

/// No key occurs twice.
pub open spec fn keys_distinct<V>(s: Seq<(String, V)>) -> bool {
    forall|i: int, j: int|
        0 <= i < s.len() && 0 <= j < s.len() && i != j ==> #[trigger] s[i].0@ != #[trigger] s[j].0@
}

pub open spec fn has_key<V>(s: Seq<(String, V)>, k: Seq<char>) -> bool {
    exists|i: int| 0 <= i < s.len() && #[trigger] s[i].0@ == k
}

/// The position of key `k` (meaningful when `has_key(s, k)`).
pub open spec fn key_pos<V>(s: Seq<(String, V)>, k: Seq<char>) -> int {
    choose|i: int| 0 <= i < s.len() && #[trigger] s[i].0@ == k
}

/// The value stored under `k`, if any.
pub open spec fn lookup<V>(s: Seq<(String, V)>, k: Seq<char>) -> Option<V> {
    if has_key(s, k) {
        Some(s[key_pos(s, k)].1)
    } else {
        None
    }
}

/// The value stored under `k`, or 0 when absent.
pub open spec fn amount_of(s: Seq<(String, u64)>, k: Seq<char>) -> u64 {
    match lookup(s, k) {
        Some(v) => v,
        None => 0,
    }
}

/// `s` after writing `v` under `k`: in place when `k` is present, appended otherwise.
pub open spec fn upsert<V>(s: Seq<(String, V)>, k: String, v: V) -> Seq<(String, V)> {
    if has_key(s, k@) {
        s.update(key_pos(s, k@), (k, v))
    } else {
        s.push((k, v))
    }
}

/// `s` without the entry under `k`; the other entries keep their order.
pub open spec fn without<V>(s: Seq<(String, V)>, k: Seq<char>) -> Seq<(String, V)> {
    if has_key(s, k) {
        s.remove(key_pos(s, k))
    } else {
        s
    }
}

pub proof fn lemma_lookup_at<V>(s: Seq<(String, V)>, i: int)
    requires
        keys_distinct(s),
        0 <= i < s.len(),
    ensures
        has_key(s, s[i].0@),
        key_pos(s, s[i].0@) == i,
        lookup(s, s[i].0@) == Some(s[i].1),
{
    assert(has_key(s, s[i].0@));
}

pub proof fn lemma_upsert_lookup<V>(s: Seq<(String, V)>, k: String, v: V, q: Seq<char>)
    requires
        keys_distinct(s),
    ensures
        keys_distinct(upsert(s, k, v)),
        lookup(upsert(s, k, v), q) == if q == k@ {
            Some(v)
        } else {
            lookup(s, q)
        },
{
    let t = upsert(s, k, v);
    if has_key(s, k@) {
        let p = key_pos(s, k@);
        assert(forall|i: int| 0 <= i < s.len() ==> #[trigger] t[i].0@ == s[i].0@);
        assert(keys_distinct(t)) by {
            assert forall|i: int, j: int|
                0 <= i < t.len() && 0 <= j < t.len() && i != j implies #[trigger] t[i].0@
                != #[trigger] t[j].0@ by {
                assert(t[i].0@ == s[i].0@);
                assert(t[j].0@ == s[j].0@);
            }
        }
        if q == k@ {
            lemma_lookup_at(t, p);
        } else if has_key(s, q) {
            let j = key_pos(s, q);
            lemma_lookup_at(s, j);
            lemma_lookup_at(t, j);
        } else {
            assert(!has_key(t, q)) by {
                if has_key(t, q) {
                    let j = key_pos(t, q);
                    assert(s[j].0@ == q);
                }
            }
        }
    } else {
        let n = s.len() as int;
        assert(keys_distinct(t)) by {
            assert forall|i: int, j: int|
                0 <= i < t.len() && 0 <= j < t.len() && i != j implies #[trigger] t[i].0@
                != #[trigger] t[j].0@ by {
                if i < n && j < n {
                    assert(t[i] == s[i]);
                    assert(t[j] == s[j]);
                } else if i < n {
                    assert(t[i] == s[i]);
                } else {
                    assert(t[j] == s[j]);
                }
            }
        }
        if q == k@ {
            lemma_lookup_at(t, n);
        } else if has_key(s, q) {
            let j = key_pos(s, q);
            lemma_lookup_at(s, j);
            assert(t[j] == s[j]);
            lemma_lookup_at(t, j);
        } else {
            assert(!has_key(t, q)) by {
                if has_key(t, q) {
                    let j = key_pos(t, q);
                    assert(j < n);
                    assert(t[j] == s[j]);
                }
            }
        }
    }
}

pub proof fn lemma_without_lookup<V>(s: Seq<(String, V)>, k: Seq<char>, q: Seq<char>)
    requires
        keys_distinct(s),
    ensures
        keys_distinct(without(s, k)),
        lookup(without(s, k), q) == if q == k {
            None
        } else {
            lookup(s, q)
        },
{
    let t = without(s, k);
    if has_key(s, k) {
        let p = key_pos(s, k);
        assert(keys_distinct(t)) by {
            assert forall|i: int, j: int|
                0 <= i < t.len() && 0 <= j < t.len() && i != j implies #[trigger] t[i].0@
                != #[trigger] t[j].0@ by {
                let a = if i < p { i } else { i + 1 };
                let b = if j < p { j } else { j + 1 };
                assert(t[i] == s[a]);
                assert(t[j] == s[b]);
            }
        }
        if has_key(t, q) {
            let j = key_pos(t, q);
            lemma_lookup_at(t, j);
            let b = if j < p { j } else { j + 1 };
            assert(t[j] == s[b]);
            lemma_lookup_at(s, b);
        } else if has_key(s, q) && q != k {
            let b = key_pos(s, q);
            let j = if b < p { b } else { b - 1 };
            assert(t[j] == s[b]);
        }
    }
}

/// A table from string keys to values, kept in insertion order.
pub struct Table<V> {
    entries: Vec<(String, V)>,
}

impl<V> View for Table<V> {
    type V = Seq<(String, V)>;

    closed spec fn view(&self) -> Seq<(String, V)> {
        self.entries@
    }
}

impl<V> Table<V> {
    /// No key occurs twice.
    pub open spec fn wf(&self) -> bool {
        keys_distinct(self@)
    }

    pub fn new() -> (t: Self)
        ensures
            t@ == Seq::<(String, V)>::empty(),
            t.wf(),
    {
        Table { entries: Vec::new() }
    }

    pub fn len(&self) -> (n: usize)
        ensures
            n == self@.len(),
    {
        self.entries.len()
    }

    pub fn key_at(&self, i: usize) -> (k: &String)
        requires
            i < self@.len(),
        ensures
            *k == self@[i as int].0,
    {
        &self.entries[i].0
    }

    pub fn value_at(&self, i: usize) -> (v: &V)
        requires
            i < self@.len(),
        ensures
            *v == self@[i as int].1,
    {
        &self.entries[i].1
    }

    /// The position of `k`, if present.
    pub fn find(&self, k: &String) -> (r: Option<usize>)
        requires
            self.wf(),
        ensures
            match r {
                Some(i) => i < self@.len() && self@[i as int].0@ == k@ && has_key(self@, k@)
                    && key_pos(self@, k@) == i,
                None => !has_key(self@, k@),
            },
    {
        let mut i: usize = 0;
        while i < self.entries.len()
            invariant
                i <= self.entries@.len(),
                self.wf(),
                forall|j: int| 0 <= j < i ==> #[trigger] self.entries@[j].0@ != k@,
            decreases self.entries@.len() - i,
        {
            if self.entries[i].0 == *k {
                proof {
                    lemma_lookup_at(self@, i as int);
                }
                return Some(i);
            }
            i = i + 1;
        }
        None
    }

    pub fn get(&self, k: &String) -> (r: Option<&V>)
        requires
            self.wf(),
        ensures
            match r {
                Some(v) => lookup(self@, k@) == Some(*v),
                None => lookup(self@, k@) is None,
            },
    {
        match self.find(k) {
            Some(i) => Some(&self.entries[i].1),
            None => None,
        }
    }

    pub fn contains_key(&self, k: &String) -> (b: bool)
        requires
            self.wf(),
        ensures
            b == has_key(self@, k@),
    {
        self.find(k).is_some()
    }

    pub fn insert(&mut self, k: String, v: V)
        requires
            old(self).wf(),
        ensures
            final(self)@ == upsert(old(self)@, k, v),
            final(self).wf(),
    {
        proof {
            lemma_upsert_lookup(self@, k, v, k@);
        }
        match self.find(&k) {
            Some(i) => {
                self.entries.set(i, (k, v));
            },
            None => {
                self.entries.push((k, v));
            },
        }
    }

    pub fn remove(&mut self, k: &String)
        requires
            old(self).wf(),
        ensures
            final(self)@ == without(old(self)@, k@),
            final(self).wf(),
    {
        proof {
            lemma_without_lookup(self@, k@, k@);
        }
        match self.find(k) {
            Some(i) => {
                self.entries.remove(i);
            },
            None => {},
        }
    }

    pub fn clear(&mut self)
        ensures
            final(self)@ == Seq::<(String, V)>::empty(),
            final(self).wf(),
    {
        self.entries.clear();
    }
}

} // verus!
