//! A map from 128-bit identifiers to records, stored as a duplicate-free
//! association list and viewed as a `Map<u128, V>`.  Both broker caches are
//! instances of this type.

use vstd::prelude::*;
use vstd::set_lib::lemma_len_subset;

verus! {

/// The map denoted by an association list.
pub open spec fn map_of<V>(entries: Seq<(u128, V)>) -> Map<u128, V>
    decreases entries.len(),
{
    if entries.len() == 0 {
        Map::empty()
    } else {
        map_of(entries.drop_last()).insert(entries.last().0, entries.last().1)
    }
}

/// True when no key occurs twice in the list.
pub open spec fn distinct_keys<V>(entries: Seq<(u128, V)>) -> bool {
    forall|i: int, j: int|
        0 <= i < j < entries.len() ==> (#[trigger] entries[i]).0 != (#[trigger] entries[j]).0
}

/// True when some entry of the list carries the key.
pub open spec fn has_key<V>(entries: Seq<(u128, V)>, k: u128) -> bool {
    exists|i: int| 0 <= i < entries.len() && (#[trigger] entries[i]).0 == k
}

proof fn lemma_map_of_contains<V>(entries: Seq<(u128, V)>, k: u128)
    ensures
        map_of(entries).contains_key(k) <==> has_key(entries, k),
    decreases entries.len(),
{
    if entries.len() > 0 {
        lemma_map_of_contains(entries.drop_last(), k);
        if entries.last().0 == k {
            assert((#[trigger] entries[entries.len() - 1]).0 == k);
        } else if has_key(entries.drop_last(), k) {
            let i = choose|i: int|
                0 <= i < entries.drop_last().len() && (#[trigger] entries.drop_last()[i]).0 == k;
            assert((#[trigger] entries[i]).0 == k);
        } else if has_key(entries, k) {
            let i = choose|i: int| 0 <= i < entries.len() && (#[trigger] entries[i]).0 == k;
            assert(i < entries.len() - 1 ==> entries.drop_last()[i] == entries[i]);
        }
    }
}

proof fn lemma_map_of_index<V>(entries: Seq<(u128, V)>, i: int)
    requires
        distinct_keys(entries),
        0 <= i < entries.len(),
    ensures
        map_of(entries).contains_key(entries[i].0),
        map_of(entries)[entries[i].0] == entries[i].1,
    decreases entries.len(),
{
    if i == entries.len() - 1 {
    } else {
        assert(entries.drop_last()[i] == entries[i]);
        lemma_map_of_index(entries.drop_last(), i);
        assert(entries.last().0 != entries[i].0);
    }
}

proof fn lemma_map_of_dom_len<V>(entries: Seq<(u128, V)>)
    requires
        distinct_keys(entries),
    ensures
        map_of(entries).dom().finite(),
        map_of(entries).dom().len() == entries.len(),
    decreases entries.len(),
{
    if entries.len() > 0 {
        let head = entries.drop_last();
        lemma_map_of_dom_len(head);
        lemma_map_of_contains(head, entries.last().0);
        assert(!has_key(head, entries.last().0)) by {
            if has_key(head, entries.last().0) {
                let i = choose|i: int|
                    0 <= i < head.len() && (#[trigger] head[i]).0 == entries.last().0;
                assert(entries[i] == head[i]);
                assert((#[trigger] entries[entries.len() - 1]).0 == entries.last().0);
            }
        }
        assert(map_of(entries).dom() =~= map_of(head).dom().insert(entries.last().0));
    }
}

proof fn lemma_map_of_remove<V>(entries: Seq<(u128, V)>, i: int)
    requires
        distinct_keys(entries),
        0 <= i < entries.len(),
    ensures
        map_of(entries.remove(i)) == map_of(entries).remove(entries[i].0),
        distinct_keys(entries.remove(i)),
    decreases entries.len(),
{
    let k = entries[i].0;
    entries.remove_ensures(i);
    assert(distinct_keys(entries.remove(i))) by {
        assert forall|a: int, b: int| 0 <= a < b < entries.remove(i).len() implies (
        #[trigger] entries.remove(i)[a]).0 != (#[trigger] entries.remove(i)[b]).0 by {
            let a0 = if a < i {
                a
            } else {
                a + 1
            };
            let b0 = if b < i {
                b
            } else {
                b + 1
            };
            assert(entries.remove(i)[a] == entries[a0]);
            assert(entries.remove(i)[b] == entries[b0]);
        }
    }
    if i == entries.len() - 1 {
        assert(entries.remove(i) =~= entries.drop_last());
        lemma_map_of_contains(entries.drop_last(), k);
        assert(!has_key(entries.drop_last(), k)) by {
            if has_key(entries.drop_last(), k) {
                let j = choose|j: int|
                    0 <= j < entries.drop_last().len() && (#[trigger] entries.drop_last()[j]).0
                        == k;
                assert(entries[j] == entries.drop_last()[j]);
                assert((#[trigger] entries[i]).0 == k);
            }
        }
        assert(map_of(entries.drop_last()) =~= map_of(entries).remove(k));
    } else {
        let head = entries.drop_last();
        assert(entries.remove(i).drop_last() =~= head.remove(i));
        assert(entries.remove(i).last() == entries.last());
        assert(head[i] == entries[i]);
        lemma_map_of_remove(head, i);
        assert(entries.last().0 != k) by {
            assert((#[trigger] entries[i]).0 == k);
            assert((#[trigger] entries[entries.len() - 1]).0 == entries.last().0);
        }
        assert(map_of(entries.remove(i)) == map_of(head.remove(i)).insert(
            entries.last().0,
            entries.last().1,
        ));
        assert(map_of(head).remove(k).insert(entries.last().0, entries.last().1) =~= map_of(
            head,
        ).insert(entries.last().0, entries.last().1).remove(k));
    }
}

/// A map keyed by 128-bit identifiers.
pub struct IdMap<V> {
    entries: Vec<(u128, V)>,
}

impl<V> View for IdMap<V> {
    type V = Map<u128, V>;

    closed spec fn view(&self) -> Map<u128, V> {
        map_of(self.entries@)
    }
}

impl<V> IdMap<V> {
    /// Internal well-formedness: the association list holds each key once.
    pub closed spec fn wf(&self) -> bool {
        distinct_keys(self.entries@)
    }

    /// Creates an empty map.
    pub fn new() -> (r: Self)
        ensures
            r.wf(),
            r@ == Map::<u128, V>::empty(),
    {
        IdMap { entries: Vec::new() }
    }

    /// Number of live entries.
    pub fn len(&self) -> (r: usize)
        requires
            self.wf(),
        ensures
            self@.dom().finite(),
            r == self@.dom().len(),
    {
        proof {
            lemma_map_of_dom_len(self.entries@);
        }
        self.entries.len()
    }

    fn index_of(&self, k: u128) -> (r: Option<usize>)
        requires
            self.wf(),
        ensures
            match r {
                Some(i) => i < self.entries@.len() && self.entries@[i as int].0 == k
                    && self@.contains_key(k),
                None => !self@.contains_key(k),
            },
    {
        proof {
            lemma_map_of_contains(self.entries@, k);
        }
        let n = self.entries.len();
        for i in 0..n
            invariant
                self.wf(),
                n == self.entries@.len(),
                forall|j: int| 0 <= j < i ==> (#[trigger] self.entries@[j]).0 != k,
        {
            if self.entries[i].0 == k {
                proof {
                    lemma_map_of_index(self.entries@, i as int);
                }
                return Some(i);
            }
        }
        None
    }

    /// True when the key is live.
    pub fn contains_key(&self, k: u128) -> (r: bool)
        requires
            self.wf(),
        ensures
            r == self@.contains_key(k),
    {
        self.index_of(k).is_some()
    }

    /// Looks the key up without touching the entry.
    pub fn get(&self, k: u128) -> (r: Option<&V>)
        requires
            self.wf(),
        ensures
            match r {
                Some(v) => self@.contains_key(k) && *v == self@[k],
                None => !self@.contains_key(k),
            },
    {
        match self.index_of(k) {
            Some(i) => {
                proof {
                    lemma_map_of_index(self.entries@, i as int);
                }
                Some(&self.entries[i].1)
            },
            None => None,
        }
    }

    /// Binds the key to the value, replacing any earlier binding.
    pub fn insert(&mut self, k: u128, v: V)
        requires
            old(self).wf(),
        ensures
            final(self).wf(),
            final(self)@ == old(self)@.insert(k, v),
    {
        let ghost pre = self.entries@;
        match self.index_of(k) {
            Some(i) => {
                proof {
                    lemma_map_of_remove(pre, i as int);
                }
                self.entries.remove(i);
                let ghost mid = self.entries@;
                self.entries.push((k, v));
                proof {
                    assert(self.entries@.drop_last() =~= mid);
                    assert(distinct_keys(self.entries@)) by {
                        lemma_map_of_contains(mid, k);
                        assert forall|a: int, b: int|
                            0 <= a < b < self.entries@.len() implies (
                        #[trigger] self.entries@[a]).0 != (#[trigger] self.entries@[b]).0 by {
                            if b == self.entries@.len() - 1 {
                                assert(self.entries@[a] == mid[a]);
                                assert(!has_key(mid, k));
                            } else {
                                assert(self.entries@[a] == mid[a]);
                                assert(self.entries@[b] == mid[b]);
                            }
                        }
                    }
                    assert(map_of(self.entries@) =~= old(self)@.insert(k, v));
                }
            },
            None => {
                self.entries.push((k, v));
                proof {
                    assert(self.entries@.drop_last() =~= pre);
                    assert(distinct_keys(self.entries@)) by {
                        lemma_map_of_contains(pre, k);
                        assert forall|a: int, b: int|
                            0 <= a < b < self.entries@.len() implies (
                        #[trigger] self.entries@[a]).0 != (#[trigger] self.entries@[b]).0 by {
                            if b == self.entries@.len() - 1 {
                                assert(self.entries@[a] == pre[a]);
                                assert(!has_key(pre, k));
                            } else {
                                assert(self.entries@[a] == pre[a]);
                                assert(self.entries@[b] == pre[b]);
                            }
                        }
                    }
                }
            },
        }
    }

    /// Removes the key's entry and hands it back, if it is live.
    pub fn remove(&mut self, k: u128) -> (r: Option<V>)
        requires
            old(self).wf(),
        ensures
            final(self).wf(),
            final(self)@ == old(self)@.remove(k),
            match r {
                Some(v) => old(self)@.contains_key(k) && v == old(self)@[k],
                None => !old(self)@.contains_key(k),
            },
    {
        let ghost pre = self.entries@;
        match self.index_of(k) {
            Some(i) => {
                proof {
                    lemma_map_of_remove(pre, i as int);
                    lemma_map_of_index(pre, i as int);
                }
                let p = self.entries.remove(i);
                Some(p.1)
            },
            None => {
                proof {
                    assert(old(self)@.remove(k) =~= old(self)@);
                }
                None
            },
        }
    }

    /// The live keys, in some order, each once.
    pub fn keys(&self) -> (r: Vec<u128>)
        requires
            self.wf(),
        ensures
            r@.no_duplicates(),
            forall|k: u128| #[trigger] r@.contains(k) <==> self@.contains_key(k),
    {
        let n = self.entries.len();
        let mut r: Vec<u128> = Vec::new();
        for i in 0..n
            invariant
                n == self.entries@.len(),
                distinct_keys(self.entries@),
                r@.len() == i,
                forall|j: int| 0 <= j < i ==> r@[j] == (#[trigger] self.entries@[j]).0,
        {
            r.push(self.entries[i].0);
        }
        proof {
            assert(r@.no_duplicates()) by {
                assert forall|a: int, b: int|
                    0 <= a < b < r@.len() implies r@[a] != r@[b] by {
                    assert(r@[a] == (#[trigger] self.entries@[a]).0);
                    assert(r@[b] == (#[trigger] self.entries@[b]).0);
                }
            }
            assert forall|k: u128| #[trigger] r@.contains(k) <==> self@.contains_key(k) by {
                lemma_map_of_contains(self.entries@, k);
                if r@.contains(k) {
                    let j = choose|j: int| 0 <= j < r@.len() && r@[j] == k;
                    assert((#[trigger] self.entries@[j]).0 == k);
                }
                if has_key(self.entries@, k) {
                    let j = choose|j: int|
                        0 <= j < self.entries@.len() && (#[trigger] self.entries@[j]).0 == k;
                    assert(r@[j] == k);
                }
            }
        }
        r
    }
}

/// Every map over fewer keys than a candidate range leaves some candidate
/// free: the number of 128-bit values below `c` is `c` itself.
pub proof fn lemma_range_card(c: int)
    requires
        0 <= c <= u128::MAX as int + 1,
    ensures
        Set::new(|k: u128| (k as int) < c).finite(),
        Set::new(|k: u128| (k as int) < c).len() == c,
    decreases c,
{
    let s = Set::new(|k: u128| (k as int) < c);
    if c == 0 {
        assert(s =~= Set::<u128>::empty());
    } else {
        lemma_range_card(c - 1);
        let t = Set::new(|k: u128| (k as int) < c - 1);
        assert(s =~= t.insert((c - 1) as u128));
        assert(!t.contains((c - 1) as u128));
    }
}

/// Pigeonhole step used to mint fresh identifiers: if every value below
/// `c` is a key of `m`, the map has at least `c` keys.
pub proof fn lemma_full_range_in_dom<V>(m: Map<u128, V>, c: int)
    requires
        0 <= c <= u128::MAX as int + 1,
        m.dom().finite(),
        forall|k: u128| (k as int) < c ==> m.contains_key(k),
    ensures
        m.dom().len() >= c,
{
    let s = Set::new(|k: u128| (k as int) < c);
    lemma_range_card(c);
    assert(s.subset_of(m.dom()));
    lemma_len_subset(s, m.dom());
}

} // verus!
