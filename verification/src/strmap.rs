//! A map keyed by strings, kept as a list of entries with distinct keys.

use vstd::prelude::*;

use crate::text::{lemma_str_before_order, str_before, str_eq, str_lt};

verus! {

/// Whether no two entries share a key.
pub open spec fn keys_distinct<V>(s: Seq<(String, V)>) -> bool {
    forall|i: int, j: int|
        0 <= i < s.len() && 0 <= j < s.len() && i != j ==> #[trigger] s[i].0@ != #[trigger] s[j].0@
}

/// Whether some entry has key `k`.
pub open spec fn has_key<V>(s: Seq<(String, V)>, k: Seq<char>) -> bool {
    exists|i: int| 0 <= i < s.len() && #[trigger] s[i].0@ == k
}

/// The map that a list of entries stands for.
pub open spec fn alist_map<V>(s: Seq<(String, V)>) -> Map<Seq<char>, V> {
    Map::new(
        |k: Seq<char>| has_key(s, k),
        |k: Seq<char>| s[choose|i: int| 0 <= i < s.len() && #[trigger] s[i].0@ == k].1,
    )
}

/// With distinct keys, the map holds every entry.
pub proof fn lemma_alist_entry<V>(s: Seq<(String, V)>, i: int)
    requires
        keys_distinct(s),
        0 <= i < s.len(),
    ensures
        alist_map(s).dom().contains(s[i].0@),
        alist_map(s)[s[i].0@] == s[i].1,
{
    let k = s[i].0@;
    assert(has_key(s, k));
    let j = choose|j: int| 0 <= j < s.len() && #[trigger] s[j].0@ == k;
    assert(j == i);
}

/// With distinct keys, the map holds every entry (all indices at once).
pub proof fn lemma_alist_entries<V>(s: Seq<(String, V)>)
    requires
        keys_distinct(s),
    ensures
        forall|i: int|
            0 <= i < s.len() ==> #[trigger] alist_map(s).dom().contains(s[i].0@) && alist_map(
                s,
            )[s[i].0@] == s[i].1,
{
    assert forall|i: int| 0 <= i < s.len() implies #[trigger] alist_map(s).dom().contains(s[i].0@)
        && alist_map(s)[s[i].0@] == s[i].1 by {
        lemma_alist_entry(s, i);
    }
}

/// Appending an entry with a fresh key inserts it into the map.
pub proof fn lemma_alist_push<V>(s: Seq<(String, V)>, k: String, v: V)
    requires
        keys_distinct(s),
        !has_key(s, k@),
    ensures
        keys_distinct(s.push((k, v))),
        alist_map(s.push((k, v))) == alist_map(s).insert(k@, v),
{
    let t = s.push((k, v));
    assert forall|i: int, j: int|
        0 <= i < t.len() && 0 <= j < t.len() && i != j implies #[trigger] t[i].0@ != #[trigger] t[j].0@ by {
        if i < s.len() && j < s.len() {
            assert(t[i] == s[i] && t[j] == s[j]);
        } else if i < s.len() {
            assert(t[i] == s[i]);
        } else {
            assert(t[j] == s[j]);
        }
    }
    lemma_alist_entries(s);
    lemma_alist_entries(t);
    assert(alist_map(t) =~= alist_map(s).insert(k@, v)) by {
        assert forall|key: Seq<char>| #[trigger] alist_map(t).dom().contains(key) <==> alist_map(
            s,
        ).insert(k@, v).dom().contains(key) by {
            if alist_map(t).dom().contains(key) {
                let i = choose|i: int| 0 <= i < t.len() && #[trigger] t[i].0@ == key;
                if i < s.len() {
                    assert(t[i] == s[i]);
                }
            }
            if alist_map(s).dom().contains(key) {
                let i = choose|i: int| 0 <= i < s.len() && #[trigger] s[i].0@ == key;
                assert(t[i] == s[i]);
            }
            if key == k@ {
                assert(t[s.len() as int].0@ == key);
            }
        }
        assert forall|key: Seq<char>| #[trigger] alist_map(t).dom().contains(key) implies alist_map(
            t,
        )[key] == alist_map(s).insert(k@, v)[key] by {
            let i = choose|i: int| 0 <= i < t.len() && #[trigger] t[i].0@ == key;
            if i < s.len() {
                assert(t[i] == s[i]);
            }
        }
    }
}

/// Replacing the value of an entry updates the map at that key.
pub proof fn lemma_alist_update<V>(s: Seq<(String, V)>, i: int, k: String, v: V)
    requires
        keys_distinct(s),
        0 <= i < s.len(),
        k@ == s[i].0@,
    ensures
        keys_distinct(s.update(i, (k, v))),
        alist_map(s.update(i, (k, v))) == alist_map(s).insert(s[i].0@, v),
{
    let t = s.update(i, (k, v));
    assert forall|a: int, b: int|
        0 <= a < t.len() && 0 <= b < t.len() && a != b implies #[trigger] t[a].0@ != #[trigger] t[b].0@ by {
        assert(t[a].0@ == s[a].0@ && t[b].0@ == s[b].0@);
    }
    lemma_alist_entries(s);
    lemma_alist_entries(t);
    assert(alist_map(t) =~= alist_map(s).insert(s[i].0@, v)) by {
        assert forall|key: Seq<char>| #[trigger] alist_map(t).dom().contains(key) <==> alist_map(
            s,
        ).insert(s[i].0@, v).dom().contains(key) by {
            if alist_map(t).dom().contains(key) {
                let j = choose|j: int| 0 <= j < t.len() && #[trigger] t[j].0@ == key;
                assert(t[j].0@ == s[j].0@);
            }
            if alist_map(s).dom().contains(key) {
                let j = choose|j: int| 0 <= j < s.len() && #[trigger] s[j].0@ == key;
                assert(t[j].0@ == s[j].0@);
            }
        }
        assert forall|key: Seq<char>| #[trigger] alist_map(t).dom().contains(key) implies alist_map(
            t,
        )[key] == alist_map(s).insert(s[i].0@, v)[key] by {
            let j = choose|j: int| 0 <= j < t.len() && #[trigger] t[j].0@ == key;
            assert(t[j].0@ == s[j].0@);
        }
    }
}

/// Removing an entry removes its key from the map.
pub proof fn lemma_alist_remove<V>(s: Seq<(String, V)>, i: int)
    requires
        keys_distinct(s),
        0 <= i < s.len(),
    ensures
        keys_distinct(s.remove(i)),
        alist_map(s.remove(i)) == alist_map(s).remove(s[i].0@),
{
    let t = s.remove(i);
    assert forall|a: int, b: int|
        0 <= a < t.len() && 0 <= b < t.len() && a != b implies #[trigger] t[a].0@ != #[trigger] t[b].0@ by {
        let a2 = if a < i { a } else { a + 1 };
        let b2 = if b < i { b } else { b + 1 };
        assert(t[a] == s[a2] && t[b] == s[b2]);
    }
    lemma_alist_entries(s);
    lemma_alist_entries(t);
    assert(alist_map(t) =~= alist_map(s).remove(s[i].0@)) by {
        assert forall|key: Seq<char>| #[trigger] alist_map(t).dom().contains(key) <==> alist_map(
            s,
        ).remove(s[i].0@).dom().contains(key) by {
            if alist_map(t).dom().contains(key) {
                let j = choose|j: int| 0 <= j < t.len() && #[trigger] t[j].0@ == key;
                let j2 = if j < i { j } else { j + 1 };
                assert(t[j] == s[j2]);
            }
            if alist_map(s).dom().contains(key) && key != s[i].0@ {
                let j = choose|j: int| 0 <= j < s.len() && #[trigger] s[j].0@ == key;
                if j < i {
                    assert(t[j] == s[j]);
                } else {
                    assert(t[j - 1] == s[j]);
                }
            }
        }
        assert forall|key: Seq<char>| #[trigger] alist_map(t).dom().contains(key) implies alist_map(
            t,
        )[key] == alist_map(s).remove(s[i].0@)[key] by {
            let j = choose|j: int| 0 <= j < t.len() && #[trigger] t[j].0@ == key;
            let j2 = if j < i { j } else { j + 1 };
            assert(t[j] == s[j2]);
        }
    }
}

/// Adding the next entry of a list with distinct keys to the map of its prefix.
pub proof fn lemma_alist_prefix<V>(s: Seq<(String, V)>, k: int)
    requires
        keys_distinct(s),
        0 <= k < s.len(),
    ensures
        keys_distinct(s.take(k)),
        alist_map(s.take(k + 1)) == alist_map(s.take(k)).insert(s[k].0@, s[k].1),
{
    let p = s.take(k);
    assert forall|i: int, j: int|
        0 <= i < p.len() && 0 <= j < p.len() && i != j implies #[trigger] p[i].0@ != #[trigger] p[j].0@ by {
        assert(p[i] == s[i] && p[j] == s[j]);
    }
    assert(!has_key(p, s[k].0@)) by {
        if has_key(p, s[k].0@) {
            let i = choose|i: int| 0 <= i < p.len() && #[trigger] p[i].0@ == s[k].0@;
            assert(p[i] == s[i]);
        }
    }
    lemma_alist_push(p, s[k].0, s[k].1);
    assert(p.push((s[k].0, s[k].1)) =~= s.take(k + 1));
}

/// A map from strings to values.
#[derive(Debug, PartialEq, Eq)]
pub struct StrMap<V> {
    entries: Vec<(String, V)>,
}

impl<V> StrMap<V> {
    /// The entries, in the order in which their keys were first inserted.
    pub closed spec fn entries(self) -> Seq<(String, V)> {
        self.entries@
    }

    /// The keys are distinct.
    pub open spec fn wf(self) -> bool {
        keys_distinct(self.entries())
    }

    /// The map this value stands for.
    pub open spec fn map(self) -> Map<Seq<char>, V> {
        alist_map(self.entries())
    }

    /// An empty map.
    pub fn new() -> (r: Self)
        ensures
            r.wf(),
            r.entries() == Seq::<(String, V)>::empty(),
            r.map() == Map::<Seq<char>, V>::empty(),
    {
        let r = StrMap { entries: Vec::new() };
        assert(r.map() =~= Map::<Seq<char>, V>::empty());
        r
    }

    /// Gives up the map for its entries.
    pub fn into_entries(self) -> (r: Vec<(String, V)>)
        ensures
            r@ == self.entries(),
    {
        self.entries
    }

    /// The number of entries.
    pub fn len(&self) -> (n: usize)
        ensures
            n == self.entries().len(),
    {
        self.entries.len()
    }

    /// The key of the entry at position `i`.
    pub fn key_at(&self, i: usize) -> (k: &String)
        requires
            i < self.entries().len(),
        ensures
            *k == self.entries()[i as int].0,
    {
        &self.entries[i].0
    }

    /// The value of the entry at position `i`.
    pub fn value_at(&self, i: usize) -> (v: &V)
        requires
            i < self.entries().len(),
        ensures
            *v == self.entries()[i as int].1,
    {
        &self.entries[i].1
    }

    /// The position of the entry with key `key`, if there is one.
    pub fn index_of(&self, key: &str) -> (r: Option<usize>)
        requires
            self.wf(),
        ensures
            match r {
                Some(i) => i < self.entries().len() && self.entries()[i as int].0@ == key@,
                None => !self.map().dom().contains(key@),
            },
    {
        let n = self.entries.len();
        let mut i: usize = 0;
        while i < n
            invariant
                n == self.entries().len(),
                i <= n,
                forall|j: int| 0 <= j < i ==> #[trigger] self.entries()[j].0@ != key@,
            decreases n - i,
        {
            if str_eq(self.entries[i].0.as_str(), key) {
                return Some(i);
            }
            i = i + 1;
        }
        None
    }

    /// Whether `key` is in the map.
    pub fn contains_key(&self, key: &str) -> (r: bool)
        requires
            self.wf(),
        ensures
            r == self.map().dom().contains(key@),
    {
        proof {
            lemma_alist_entries(self.entries());
        }
        match self.index_of(key) {
            Some(_) => true,
            None => false,
        }
    }

    /// The value stored under `key`, if there is one.
    pub fn get(&self, key: &str) -> (r: Option<&V>)
        requires
            self.wf(),
        ensures
            match r {
                Some(v) => self.map().dom().contains(key@) && *v == self.map()[key@],
                None => !self.map().dom().contains(key@),
            },
    {
        proof {
            lemma_alist_entries(self.entries());
        }
        match self.index_of(key) {
            Some(i) => Some(&self.entries[i].1),
            None => None,
        }
    }

    /// Stores `value` under `key`, replacing what was there.
    pub fn insert(&mut self, key: String, value: V)
        requires
            old(self).wf(),
        ensures
            final(self).wf(),
            final(self).map() == old(self).map().insert(key@, value),
    {
        proof {
            lemma_alist_entries(self.entries());
        }
        match self.index_of(key.as_str()) {
            Some(i) => {
                proof {
                    lemma_alist_update(self.entries(), i as int, key, value);
                }
                self.entries.set(i, (key, value));
            },
            None => {
                proof {
                    lemma_alist_push(self.entries(), key, value);
                }
                self.entries.push((key, value));
            },
        }
    }

    /// Removes the entry under `key` and returns its value, if there was one.
    pub fn remove(&mut self, key: &str) -> (r: Option<V>)
        requires
            old(self).wf(),
        ensures
            final(self).wf(),
            final(self).map() == old(self).map().remove(key@),
            match r {
                Some(v) => old(self).map().dom().contains(key@) && v == old(self).map()[key@],
                None => !old(self).map().dom().contains(key@),
            },
    {
        proof {
            lemma_alist_entries(self.entries());
        }
        match self.index_of(key) {
            Some(i) => {
                proof {
                    lemma_alist_remove(self.entries(), i as int);
                }
                let (_k, v) = self.entries.remove(i);
                Some(v)
            },
            None => {
                assert(old(self).map().remove(key@) =~= old(self).map());
                None
            },
        }
    }
}


/// Whether some string of `v` is `k`.
pub open spec fn holds_string(v: Seq<String>, k: Seq<char>) -> bool {
    exists|a: int| 0 <= a < v.len() && #[trigger] v[a]@ == k
}

/// Whether one of the first `i` entries has key `k`.
pub open spec fn key_before<V>(s: Seq<(String, V)>, i: int, k: Seq<char>) -> bool {
    exists|t: int| 0 <= t < i && #[trigger] s[t].0@ == k
}

impl<V> StrMap<V> {
    /// The keys, in the order of their UTF-8 bytes.
    pub fn sorted_keys(&self) -> (r: Vec<String>)
        requires
            self.wf(),
        ensures
            forall|i: int, j: int| 0 <= i < j < r@.len() ==> str_before(#[trigger] r@[i]@, #[trigger] r@[j]@),
            forall|k: Seq<char>| self.map().dom().contains(k) <==> #[trigger] holds_string(r@, k),
    {
        let ghost s = self.entries();
        let mut out: Vec<String> = Vec::new();
        let n = self.len();
        let mut i: usize = 0;
        while i < n
            invariant
                s == self.entries(),
                keys_distinct(s),
                n == s.len(),
                i <= n,
                forall|a: int, b: int| 0 <= a < b < out@.len() ==> str_before(#[trigger] out@[a]@, #[trigger] out@[b]@),
                forall|k: Seq<char>| #[trigger] holds_string(out@, k) <==> key_before(s, i as int, k),
            decreases n - i,
        {
            let key = self.key_at(i).clone();
            let ghost kv = key@;
            assert(kv == s[i as int].0@);
            let len = out.len();
            let mut j: usize = 0;
            while j < len && str_lt(out[j].as_str(), key.as_str())
                invariant
                    len == out@.len(),
                    kv == key@,
                    j <= len,
                    forall|a: int| 0 <= a < j ==> str_before(#[trigger] out@[a]@, kv),
                decreases len - j,
            {
                j = j + 1;
            }
            proof {
                if j < len {
                    assert(out@[j as int]@ != kv) by {
                        assert(holds_string(out@, out@[j as int]@));
                        let t = choose|t: int| 0 <= t < i && #[trigger] s[t].0@ == out@[j as int]@;
                        assert(s[t].0@ != s[i as int].0@);
                    }
                    lemma_str_before_order(out@[j as int]@, kv, kv);
                }
            }
            let ghost old_out = out@;
            out.insert(j, key);
            proof {
                assert forall|a: int, b: int| 0 <= a < b < out@.len() implies str_before(
                    #[trigger] out@[a]@,
                    #[trigger] out@[b]@,
                ) by {
                    if b < j {
                        assert(out@[a] == old_out[a] && out@[b] == old_out[b]);
                    } else if b == j {
                        assert(out@[a] == old_out[a]);
                    } else if a < j {
                        assert(out@[a] == old_out[a] && out@[b] == old_out[b - 1]);
                        if a < b - 1 {
                        } else {
                            lemma_str_before_order(out@[a]@, kv, old_out[b - 1]@);
                        }
                    } else if a == j {
                        assert(out@[b] == old_out[b - 1]);
                        if b - 1 > j {
                            lemma_str_before_order(kv, old_out[j as int]@, old_out[b - 1]@);
                        }
                    } else {
                        assert(out@[a] == old_out[a - 1] && out@[b] == old_out[b - 1]);
                    }
                }
                assert forall|k: Seq<char>| #[trigger] holds_string(out@, k) <==> key_before(s, i + 1, k) by {
                    if holds_string(out@, k) {
                        let a = choose|a: int| 0 <= a < out@.len() && #[trigger] out@[a]@ == k;
                        if a < j {
                            assert(out@[a] == old_out[a]);
                            assert(holds_string(old_out, k));
                        } else if a == j {
                            assert(s[i as int].0@ == k);
                        } else {
                            assert(out@[a] == old_out[a - 1]);
                            assert(holds_string(old_out, k));
                        }
                    }
                    if key_before(s, i + 1, k) {
                        let t = choose|t: int| 0 <= t < i + 1 && #[trigger] s[t].0@ == k;
                        if t == i {
                            assert(out@[j as int]@ == k);
                        } else {
                            assert(key_before(s, i as int, k));
                            assert(holds_string(old_out, k));
                            let a2 = choose|a2: int| 0 <= a2 < old_out.len() && #[trigger] old_out[a2]@ == k;
                            if a2 < j {
                                assert(out@[a2] == old_out[a2]);
                            } else {
                                assert(out@[a2 + 1] == old_out[a2]);
                            }
                        }
                    }
                }
            }
            i = i + 1;
        }
        proof {
            assert forall|k: Seq<char>| self.map().dom().contains(k) <==> #[trigger] holds_string(out@, k) by {
                if key_before(s, n as int, k) {
                    let t = choose|t: int| 0 <= t < n && #[trigger] s[t].0@ == k;
                    assert(has_key(s, k));
                }
                if has_key(s, k) {
                    let t = choose|t: int| 0 <= t < s.len() && #[trigger] s[t].0@ == k;
                    assert(key_before(s, n as int, k));
                }
            }
        }
        out
    }
}

} // verus!
