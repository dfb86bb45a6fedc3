//! Sequences of key/value pairs with distinct keys, seen as maps.
//!
//! Several stores of the library keep their records in a vector of
//! `(key, record)` pairs; this module relates such a sequence to the map it
//! represents and proves how the map changes when the sequence does.
use vstd::prelude::*;
use vstd::string::*;

verus! {

/// No two pairs share a key.
pub open spec fn keys_distinct<K, T>(s: Seq<(K, T)>) -> bool {
    forall|i: int, j: int| 0 <= i < s.len() && 0 <= j < s.len() && i != j ==> s[i].0 != s[j].0
}

/// Whether some pair has key `k`.
pub open spec fn has_key<K, T>(s: Seq<(K, T)>, k: K) -> bool {
    exists|i: int| 0 <= i < s.len() && s[i].0 == k
}

/// The map from each key to the value paired with it.
pub open spec fn pair_map<K, T>(s: Seq<(K, T)>) -> Map<K, T> {
    Map::new(|k: K| has_key(s, k), |k: K| s[choose|i: int| 0 <= i < s.len() && s[i].0 == k].1)
}

/// The pair at `i` is what the map holds for its key.
pub proof fn lemma_pair_map_index<K, T>(s: Seq<(K, T)>, i: int)
    requires
        keys_distinct(s),
        0 <= i < s.len(),
    ensures
        pair_map(s).contains_key(s[i].0),
        pair_map(s)[s[i].0] == s[i].1,
{
    assert(has_key(s, s[i].0));
    let j = choose|j: int| 0 <= j < s.len() && s[j].0 == s[i].0;
    assert(i == j);
}

/// The map holds exactly the keys of the pairs.
pub proof fn lemma_pair_map_keys<K, T>(s: Seq<(K, T)>)
    requires
        keys_distinct(s),
    ensures
        forall|k: K| #[trigger] pair_map(s).contains_key(k) <==> has_key(s, k),
        forall|i: int| 0 <= i < s.len() ==> pair_map(s)[#[trigger] s[i].0] == s[i].1,
{
    assert forall|i: int| 0 <= i < s.len() implies pair_map(s)[#[trigger] s[i].0] == s[i].1 by {
        lemma_pair_map_index(s, i);
    }
}

/// Appending a pair with a fresh key inserts it into the map.
pub proof fn lemma_pair_map_push<K, T>(s: Seq<(K, T)>, k: K, v: T)
    requires
        keys_distinct(s),
        !has_key(s, k),
    ensures
        keys_distinct(s.push((k, v))),
        pair_map(s.push((k, v))) == pair_map(s).insert(k, v),
{
    let t = s.push((k, v));
    assert(keys_distinct(t)) by {
        assert forall|i: int, j: int| 0 <= i < t.len() && 0 <= j < t.len() && i != j implies t[i].0
            != t[j].0 by {
            if i < s.len() && j < s.len() {
                assert(t[i] == s[i] && t[j] == s[j]);
            } else if i < s.len() {
                assert(t[i] == s[i]);
            } else {
                assert(t[j] == s[j]);
            }
        }
    }
    lemma_pair_map_keys(s);
    lemma_pair_map_keys(t);
    assert forall|q: K| #[trigger] pair_map(t).contains_key(q) <==> pair_map(s).insert(
        k,
        v,
    ).contains_key(q) by {
        if has_key(s, q) {
            let i = choose|i: int| 0 <= i < s.len() && s[i].0 == q;
            assert(t[i] == s[i]);
        }
        if has_key(t, q) && q != k {
            let i = choose|i: int| 0 <= i < t.len() && t[i].0 == q;
            assert(i < s.len());
            assert(t[i] == s[i]);
        }
        if q == k {
            assert(t[s.len() as int].0 == k);
        }
    }
    assert forall|q: K| pair_map(t).contains_key(q) implies pair_map(t)[q] == pair_map(s).insert(
        k,
        v,
    )[q] by {
        let i = choose|i: int| 0 <= i < t.len() && t[i].0 == q;
        assert(pair_map(t)[t[i].0] == t[i].1);
        if i < s.len() {
            assert(t[i] == s[i]);
            assert(pair_map(s)[s[i].0] == s[i].1);
        }
    }
    assert(pair_map(t) =~= pair_map(s).insert(k, v));
}

/// Replacing the value at `i` updates the map at its key.
pub proof fn lemma_pair_map_update<K, T>(s: Seq<(K, T)>, i: int, v: T)
    requires
        keys_distinct(s),
        0 <= i < s.len(),
    ensures
        keys_distinct(s.update(i, (s[i].0, v))),
        pair_map(s.update(i, (s[i].0, v))) == pair_map(s).insert(s[i].0, v),
{
    let t = s.update(i, (s[i].0, v));
    assert forall|a: int| 0 <= a < t.len() implies (#[trigger] t[a]).0 == s[a].0 by {}
    assert(keys_distinct(t)) by {
        assert forall|a: int, b: int| 0 <= a < t.len() && 0 <= b < t.len() && a != b implies t[a].0
            != t[b].0 by {
            assert(t[a].0 == s[a].0 && t[b].0 == s[b].0);
        }
    }
    lemma_pair_map_keys(s);
    lemma_pair_map_keys(t);
    assert forall|q: K| #[trigger] pair_map(t).contains_key(q) <==> pair_map(s).insert(
        s[i].0,
        v,
    ).contains_key(q) by {
        if has_key(s, q) {
            let a = choose|a: int| 0 <= a < s.len() && s[a].0 == q;
            assert(t[a].0 == q);
        }
        if has_key(t, q) {
            let a = choose|a: int| 0 <= a < t.len() && t[a].0 == q;
            assert(s[a].0 == q);
        }
    }
    assert forall|q: K| pair_map(t).contains_key(q) implies pair_map(t)[q] == pair_map(s).insert(
        s[i].0,
        v,
    )[q] by {
        let a = choose|a: int| 0 <= a < t.len() && t[a].0 == q;
        assert(pair_map(t)[t[a].0] == t[a].1);
        if a != i {
            assert(t[a] == s[a]);
            assert(pair_map(s)[s[a].0] == s[a].1);
        }
    }
    assert(pair_map(t) =~= pair_map(s).insert(s[i].0, v));
}

/// Removing the pair at `i` removes its key from the map.
pub proof fn lemma_pair_map_remove<K, T>(s: Seq<(K, T)>, i: int)
    requires
        keys_distinct(s),
        0 <= i < s.len(),
    ensures
        keys_distinct(s.remove(i)),
        pair_map(s.remove(i)) == pair_map(s).remove(s[i].0),
{
    let t = s.remove(i);
    assert forall|a: int| 0 <= a < t.len() implies #[trigger] t[a] == s[if a < i {
        a
    } else {
        a + 1
    }] by {}
    assert(keys_distinct(t)) by {
        assert forall|a: int, b: int| 0 <= a < t.len() && 0 <= b < t.len() && a != b implies t[a].0
            != t[b].0 by {
            let a0 = if a < i {
                a
            } else {
                a + 1
            };
            let b0 = if b < i {
                b
            } else {
                b + 1
            };
            assert(t[a] == s[a0] && t[b] == s[b0]);
        }
    }
    lemma_pair_map_keys(s);
    lemma_pair_map_keys(t);
    assert forall|q: K| #[trigger] pair_map(t).contains_key(q) <==> pair_map(s).remove(
        s[i].0,
    ).contains_key(q) by {
        if has_key(s, q) && q != s[i].0 {
            let a = choose|a: int| 0 <= a < s.len() && s[a].0 == q;
            let a1 = if a < i {
                a
            } else {
                a - 1
            };
            assert(t[a1] == s[a]);
        }
        if has_key(t, q) {
            let a = choose|a: int| 0 <= a < t.len() && t[a].0 == q;
            let a0 = if a < i {
                a
            } else {
                a + 1
            };
            assert(t[a] == s[a0]);
        }
    }
    assert forall|q: K| pair_map(t).contains_key(q) implies pair_map(t)[q] == pair_map(s).remove(
        s[i].0,
    )[q] by {
        let a = choose|a: int| 0 <= a < t.len() && t[a].0 == q;
        let a0 = if a < i {
            a
        } else {
            a + 1
        };
        assert(t[a] == s[a0]);
        assert(pair_map(t)[t[a].0] == t[a].1);
        assert(pair_map(s)[s[a0].0] == s[a0].1);
    }
    assert(pair_map(t) =~= pair_map(s).remove(s[i].0));
}

/// The map has as many keys as there are pairs.
pub proof fn lemma_pair_map_len<K, T>(s: Seq<(K, T)>)
    requires
        keys_distinct(s),
    ensures
        pair_map(s).dom().finite(),
        pair_map(s).len() == s.len(),
{
    let ks = s.map_values(|p: (K, T)| p.0);
    assert(ks.no_duplicates()) by {
        assert forall|a: int, b: int| 0 <= a < ks.len() && 0 <= b < ks.len() && a != b implies ks[a]
            != ks[b] by {}
    }
    ks.unique_seq_to_set();
    assert(pair_map(s).dom() =~= ks.to_set()) by {
        assert forall|q: K| pair_map(s).dom().contains(q) <==> ks.to_set().contains(q) by {
            if has_key(s, q) {
                let a = choose|a: int| 0 <= a < s.len() && s[a].0 == q;
                assert(ks[a] == q);
            }
            if ks.contains(q) {
                let a = choose|a: int| 0 <= a < ks.len() && ks[a] == q;
                assert(s[a].0 == q);
            }
        }
    }
}


/// The view of a string-keyed pair sequence: keys as character sequences.
pub open spec fn key_views<V>(s: Seq<(String, V)>) -> Seq<(Seq<char>, V)> {
    s.map_values(|p: (String, V)| (p.0@, p.1))
}

/// Replacing a value leaves the key views' keys alone.
pub proof fn lemma_key_views_update<V>(s: Seq<(String, V)>, i: int, v: V)
    requires
        0 <= i < s.len(),
    ensures
        key_views(s.update(i, (s[i].0, v))) == key_views(s).update(i, (key_views(s)[i].0, v)),
{
    assert(key_views(s.update(i, (s[i].0, v))) =~= key_views(s).update(i, (key_views(s)[i].0, v)));
}

/// A map from strings to values, kept as pairs in insertion order.
#[derive(Debug, Clone)]
pub struct StrMap<V> {
    entries: Vec<(String, V)>,
}

impl<V> View for StrMap<V> {
    type V = Map<Seq<char>, V>;

    open spec fn view(&self) -> Map<Seq<char>, V> {
        pair_map(key_views(self.entries()))
    }
}

impl<V> StrMap<V> {
    /// Keys are distinct.
    pub open spec fn wf(&self) -> bool {
        keys_distinct(key_views(self.entries()))
    }

    /// The pairs in insertion order.
    pub closed spec fn entries(&self) -> Seq<(String, V)> {
        self.entries@
    }

    /// An empty map.
    pub fn new() -> (m: Self)
        ensures
            m.wf(),
            m@ == Map::<Seq<char>, V>::empty(),
            m.entries() == Seq::<(String, V)>::empty(),
    {
        let m = StrMap { entries: Vec::new() };
        assert(m@ =~= Map::<Seq<char>, V>::empty());
        m
    }

    /// Position of `key`, if present.
    pub fn find(&self, key: &str) -> (r: Option<usize>)
        ensures
            match r {
                Some(i) => i < self.entries().len() && self.entries()[i as int].0@ == key@,
                None => forall|i: int| 0 <= i < self.entries().len() ==> (#[trigger] self.entries()[i]).0@ != key@,
            },
    {
        let k = String::from_str(key);
        let mut i: usize = 0;
        while i < self.entries.len()
            invariant
                k@ == key@,
                i <= self.entries@.len(),
                forall|j: int| 0 <= j < i ==> (#[trigger] self.entries@[j]).0@ != key@,
            decreases self.entries@.len() - i,
        {
            if self.entries[i].0 == k {
                return Some(i);
            }
            i = i + 1;
        }
        None
    }

    /// Whether `key` is present.
    pub fn contains_key(&self, key: &str) -> (b: bool)
        requires
            self.wf(),
        ensures
            b == self@.contains_key(key@),
    {
        let ghost kv = key_views(self.entries@);
        proof {
            lemma_pair_map_keys(kv);
        }
        match self.find(key) {
            Some(i) => {
                assert(kv[i as int].0 == key@);
                true
            },
            None => {
                proof {
                    if has_key(kv, key@) {
                        let j = choose|j: int| 0 <= j < kv.len() && kv[j].0 == key@;
                        assert(self.entries@[j].0@ == key@);
                    }
                }
                false
            },
        }
    }

    /// Insert `value` under `key`, replacing any previous value; a new key
    /// goes last.
    pub fn insert(&mut self, key: String, value: V)
        requires
            old(self).wf(),
        ensures
            final(self).wf(),
            final(self)@ == old(self)@.insert(key@, value),
    {
        let ghost old_kv = key_views(self.entries@);
        match self.find(key.as_str()) {
            Some(i) => {
                self.entries[i].1 = value;
                proof {
                    assert(key_views(self.entries@) =~= old_kv.update(i as int, (old_kv[i as int].0, value)));
                    lemma_pair_map_update(old_kv, i as int, value);
                }
            },
            None => {
                let ghost kv = key@;
                self.entries.push((key, value));
                proof {
                    assert(!has_key(old_kv, kv)) by {
                        if has_key(old_kv, kv) {
                            let j = choose|j: int| 0 <= j < old_kv.len() && old_kv[j].0 == kv;
                            assert(self.entries@[j] == old(self).entries@[j]);
                        }
                    }
                    assert(key_views(self.entries@) =~= old_kv.push((kv, value)));
                    lemma_pair_map_push(old_kv, kv, value);
                }
            },
        }
    }

    /// The value under `key`, if any.
    pub fn get(&self, key: &str) -> (r: Option<&V>)
        requires
            self.wf(),
        ensures
            match r {
                Some(v) => self@.contains_key(key@) && *v == self@[key@],
                None => !self@.contains_key(key@),
            },
    {
        let ghost kv = key_views(self.entries@);
        proof {
            lemma_pair_map_keys(kv);
        }
        match self.find(key) {
            Some(i) => {
                proof {
                    assert(kv[i as int].0 == key@);
                }
                Some(&self.entries[i].1)
            },
            None => {
                proof {
                    if has_key(kv, key@) {
                        let j = choose|j: int| 0 <= j < kv.len() && kv[j].0 == key@;
                        assert(self.entries@[j].0@ == key@);
                    }
                }
                None
            },
        }
    }

    /// Mutable access to the value under `key`, if any.
    pub fn get_mut(&mut self, key: &str) -> (r: Option<&mut V>)
        requires
            old(self).wf(),
        ensures
            final(self).wf(),
            match r {
                Some(v) => old(self)@.contains_key(key@) && *v == old(self)@[key@] && final(self)@
                    == old(self)@.insert(key@, *final(v)),
                None => !old(self)@.contains_key(key@) && final(self)@ == old(self)@,
            },
    {
        let ghost kv = key_views(self.entries@);
        proof {
            lemma_pair_map_keys(kv);
        }
        match self.find(key) {
            Some(i) => {
                proof {
                    assert(kv[i as int].0 == key@);
                }
                let r = &mut self.entries[i].1;
                proof {
                    lemma_key_views_update(old(self).entries@, i as int, *final(r));
                    lemma_pair_map_update(kv, i as int, *final(r));
                }
                Some(r)
            },
            None => {
                proof {
                    if has_key(kv, key@) {
                        let j = choose|j: int| 0 <= j < kv.len() && kv[j].0 == key@;
                        assert(self.entries@[j].0@ == key@);
                    }
                }
                None
            },
        }
    }

    /// A well-formed map has finitely many keys.
    pub proof fn lemma_finite(&self)
        requires
            self.wf(),
        ensures
            self@.dom().finite(),
    {
        lemma_pair_map_len(key_views(self.entries@));
    }

    /// Number of keys.
    pub fn len(&self) -> (n: usize)
        requires
            self.wf(),
        ensures
            n == self@.len(),
            self@.dom().finite(),
    {
        proof {
            lemma_pair_map_len(key_views(self.entries@));
        }
        self.entries.len()
    }

    /// `true` when empty.
    pub fn is_empty(&self) -> (b: bool)
        requires
            self.wf(),
        ensures
            b == (self@.len() == 0),
    {
        proof {
            lemma_pair_map_len(key_views(self.entries@));
        }
        self.entries.len() == 0
    }

    /// The pairs, in insertion order.
    pub fn iter(&self) -> (s: &[(String, V)])
        requires
            self.wf(),
        ensures
            s@ == self.entries(),
            keys_distinct(key_views(s@)),
            pair_map(key_views(s@)) == self@,
    {
        self.entries.as_slice()
    }
}

} // verus!
