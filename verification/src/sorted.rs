//! A map from `u64` ids to records, kept sorted by id for deterministic,
//! id-ordered traversal and binary-search lookup.
use vstd::prelude::*;

use crate::keyed::{has_key, keys_distinct, lemma_pair_map_keys, lemma_pair_map_len, lemma_pair_map_push, pair_map};

verus! {

/// Ids strictly increase along the sequence.
pub open spec fn ids_sorted<T>(s: Seq<(u64, T)>) -> bool {
    forall|i: int, j: int| 0 <= i < j < s.len() ==> s[i].0 < s[j].0
}

/// Records kept in strictly increasing id order.
#[derive(Debug, Clone)]
pub struct SortedIdMap<T> {
    items: Vec<(u64, T)>,
}

impl<T> View for SortedIdMap<T> {
    type V = Map<u64, T>;

    open spec fn view(&self) -> Map<u64, T> {
        pair_map(self.entries())
    }
}

/// Sorted ids are distinct.
pub proof fn lemma_sorted_distinct<T>(s: Seq<(u64, T)>)
    requires
        ids_sorted(s),
    ensures
        keys_distinct(s),
{
    assert forall|i: int, j: int| 0 <= i < s.len() && 0 <= j < s.len() && i != j implies s[i].0 != s[j].0 by {
        if i < j {
            assert(s[i].0 < s[j].0);
        } else {
            assert(s[j].0 < s[i].0);
        }
    }
}

impl<T> SortedIdMap<T> {
    /// The records, in increasing id order.
    pub closed spec fn entries(&self) -> Seq<(u64, T)> {
        self.items@
    }

    /// Ids strictly increase.
    pub open spec fn wf(&self) -> bool {
        ids_sorted(self.entries())
    }

    /// An empty map.
    pub fn new() -> (m: Self)
        ensures
            m.wf(),
            m@ == Map::<u64, T>::empty(),
            m.entries() == Seq::<(u64, T)>::empty(),
    {
        let m = SortedIdMap { items: Vec::new() };
        assert(m@ =~= Map::<u64, T>::empty());
        m
    }

    /// The first position whose id is not below `id` (the length when every
    /// id is below it).
    fn lower_bound(&self, id: u64) -> (p: usize)
        requires
            self.wf(),
        ensures
            p <= self.items@.len(),
            forall|j: int| 0 <= j < p ==> (#[trigger] self.items@[j]).0 < id,
            forall|j: int| p <= j < self.items@.len() ==> (#[trigger] self.items@[j]).0 >= id,
    {
        let mut lo: usize = 0;
        let mut hi: usize = self.items.len();
        while lo < hi
            invariant
                lo <= hi <= self.items@.len(),
                ids_sorted(self.items@),
                forall|j: int| 0 <= j < lo ==> (#[trigger] self.items@[j]).0 < id,
                forall|j: int| hi <= j < self.items@.len() ==> (#[trigger] self.items@[j]).0 >= id,
            decreases hi - lo,
        {
            let mid = lo + (hi - lo) / 2;
            if self.items[mid].0 < id {
                assert forall|j: int| 0 <= j < mid + 1 implies (#[trigger] self.items@[j]).0 < id by {
                    if j < mid {
                        assert(self.items@[j].0 < self.items@[mid as int].0);
                    }
                }
                lo = mid + 1;
            } else {
                assert forall|j: int| mid <= j < self.items@.len() implies (#[trigger] self.items@[j]).0 >= id by {
                    if j > mid {
                        assert(self.items@[mid as int].0 < self.items@[j].0);
                    }
                }
                hi = mid;
            }
        }
        lo
    }

    /// Position of the record with id `id`, found by binary search.
    pub fn position(&self, id: u64) -> (r: Option<usize>)
        requires
            self.wf(),
        ensures
            match r {
                Some(i) => i < self.entries().len() && self.entries()[i as int].0 == id,
                None => !has_key(self.entries(), id),
            },
    {
        let p = self.lower_bound(id);
        if p < self.items.len() && self.items[p].0 == id {
            Some(p)
        } else {
            proof {
                if has_key(self.items@, id) {
                    let j = choose|j: int| 0 <= j < self.items@.len() && self.items@[j].0 == id;
                    if j > p {
                        assert(self.items@[p as int].0 < self.items@[j].0);
                    }
                }
            }
            None
        }
    }

    /// Whether a record has id `id`.
    pub fn contains(&self, id: u64) -> (b: bool)
        requires
            self.wf(),
        ensures
            b == self@.contains_key(id),
    {
        proof {
            lemma_sorted_distinct(self.items@);
            lemma_pair_map_keys(self.items@);
        }
        self.position(id).is_some()
    }

    /// Insert a record under an id that is not yet present, keeping the
    /// order.
    pub fn insert(&mut self, id: u64, value: T)
        requires
            old(self).wf(),
            !old(self)@.contains_key(id),
        ensures
            final(self).wf(),
            final(self)@ == old(self)@.insert(id, value),
    {
        let ghost old_s = self.items@;
        proof {
            lemma_sorted_distinct(old_s);
            lemma_pair_map_keys(old_s);
        }
        let p = self.lower_bound(id);
        proof {
            if p < old_s.len() {
                assert(old_s[p as int].0 != id) by {
                    if old_s[p as int].0 == id {
                        assert(has_key(old_s, id));
                    }
                }
            }
        }
        self.items.insert(p, (id, value));
        let ghost new_s = self.items@;
        assert forall|i: int, j: int| 0 <= i < j < new_s.len() implies new_s[i].0 < new_s[j].0 by {
            let i0 = if i < p { i } else { i - 1 };
            let j0 = if j < p { j } else { j - 1 };
            if i < p && j < p {
                assert(new_s[i] == old_s[i] && new_s[j] == old_s[j]);
            } else if i < p && j == p {
                assert(new_s[i] == old_s[i]);
            } else if i < p {
                assert(new_s[i] == old_s[i] && new_s[j] == old_s[j - 1]);
            } else if i == p {
                assert(new_s[j] == old_s[j - 1]);
            } else {
                assert(new_s[i] == old_s[i - 1] && new_s[j] == old_s[j - 1]);
            }
        }
        proof {
            lemma_sorted_distinct(new_s);
            lemma_pair_map_keys(new_s);
            assert(!has_key(old_s, id));
            lemma_pair_map_push(old_s, id, value);
            let pushed = old_s.push((id, value));
            lemma_pair_map_keys(pushed);
            assert forall|q: u64| #[trigger] pair_map(new_s).contains_key(q) <==> pair_map(pushed).contains_key(q) by {
                if has_key(new_s, q) {
                    let k = choose|k: int| 0 <= k < new_s.len() && new_s[k].0 == q;
                    if k < p {
                        assert(pushed[k] == new_s[k]);
                    } else if k == p {
                        assert(pushed[old_s.len() as int] == new_s[k]);
                    } else {
                        assert(pushed[k - 1] == new_s[k]);
                    }
                }
                if has_key(pushed, q) {
                    let k = choose|k: int| 0 <= k < pushed.len() && pushed[k].0 == q;
                    if k < p {
                        assert(pushed[k] == new_s[k]);
                    } else if k == old_s.len() {
                        assert(new_s[p as int] == pushed[k]);
                    } else {
                        assert(new_s[k + 1] == pushed[k]);
                    }
                }
            }
            assert forall|q: u64| pair_map(new_s).contains_key(q) implies pair_map(new_s)[q] == pair_map(pushed)[q] by {
                let k = choose|k: int| 0 <= k < new_s.len() && new_s[k].0 == q;
                assert(pair_map(new_s)[new_s[k].0] == new_s[k].1);
                if k < p {
                    assert(pushed[k] == new_s[k]);
                    assert(pair_map(pushed)[pushed[k].0] == pushed[k].1);
                } else if k == p {
                    assert(pushed[old_s.len() as int] == new_s[k]);
                    assert(pair_map(pushed)[pushed[old_s.len() as int].0] == pushed[old_s.len() as int].1);
                } else {
                    assert(pushed[k - 1] == new_s[k]);
                    assert(pair_map(pushed)[pushed[k - 1].0] == pushed[k - 1].1);
                }
            }
            assert(pair_map(new_s) =~= pair_map(pushed));
        }
    }

    /// The record with id `id`.
    pub fn get(&self, id: u64) -> (r: Option<&T>)
        requires
            self.wf(),
        ensures
            match r {
                Some(v) => self@.contains_key(id) && *v == self@[id],
                None => !self@.contains_key(id),
            },
    {
        proof {
            lemma_sorted_distinct(self.items@);
            lemma_pair_map_keys(self.items@);
        }
        match self.position(id) {
            Some(i) => Some(&self.items[i].1),
            None => None,
        }
    }

    /// Mutable access to the record with id `id`.
    pub fn get_mut(&mut self, id: u64) -> (r: Option<&mut T>)
        requires
            old(self).wf(),
        ensures
            final(self).wf(),
            match r {
                Some(v) => old(self)@.contains_key(id) && *v == old(self)@[id] && final(self)@ == old(
                    self,
                )@.insert(id, *final(v)),
                None => !old(self)@.contains_key(id) && final(self)@ == old(self)@,
            },
    {
        let ghost old_s = self.items@;
        proof {
            lemma_sorted_distinct(old_s);
            lemma_pair_map_keys(old_s);
        }
        match self.position(id) {
            Some(i) => {
                let r = &mut self.items[i].1;
                proof {
                    crate::keyed::lemma_pair_map_update(old_s, i as int, *final(r));
                }
                Some(r)
            },
            None => None,
        }
    }

    /// Mutable access to the record at position `i` in id order; its id
    /// stays.
    pub fn at_mut(&mut self, i: usize) -> (r: &mut T)
        requires
            old(self).wf(),
            i < old(self).entries().len(),
        ensures
            final(self).wf(),
            *r == old(self).entries()[i as int].1,
            final(self).entries() == old(self).entries().update(i as int, (old(self).entries()[i as int].0, *final(r))),
    {
        &mut self.items[i].1
    }

    /// Number of records.
    pub fn len(&self) -> (n: usize)
        requires
            self.wf(),
        ensures
            n == self@.len(),
            n == self.entries().len(),
    {
        proof {
            lemma_sorted_distinct(self.items@);
            lemma_pair_map_len(self.items@);
        }
        self.items.len()
    }

    /// Whether the map is empty.
    pub fn is_empty(&self) -> (b: bool)
        requires
            self.wf(),
        ensures
            b == (self@.len() == 0),
    {
        proof {
            lemma_sorted_distinct(self.items@);
            lemma_pair_map_len(self.items@);
        }
        self.items.len() == 0
    }

    /// The records, in increasing id order.
    pub fn iter(&self) -> (s: &[(u64, T)])
        ensures
            s@ == self.entries(),
    {
        self.items.as_slice()
    }
}

} // verus!
