//! A map from names to values, kept as a list of entries and seen as a
//! mathematical map.
use vstd::prelude::*;
use crate::assoc::{assoc_lookup, assoc_find, lemma_assoc_update, lemma_assoc_push, lemma_assoc_found, lemma_assoc_absent};

verus! {

/// A map from names to values.
pub struct StrMap<V> {
    entries: Vec<(String, V)>,
}

/// The map that a list of entries denotes: each name maps to the value of
/// its first entry.
pub open spec fn entries_map<V>(t: Seq<(String, V)>) -> Map<Seq<char>, V> {
    Map::new(|k: Seq<char>| assoc_lookup(t, k) is Some, |k: Seq<char>| assoc_lookup(t, k)->Some_0)
}

/// Removing an entry whose name differs from `n` does not change what `n`
/// maps to; removing the first entry named `n` exposes the next one.
proof fn lemma_assoc_remove<V>(t: Seq<(String, V)>, i: int, n: Seq<char>)
    requires
        0 <= i < t.len(),
        t[i].0@ != n,
    ensures
        assoc_lookup(t.remove(i), n) == assoc_lookup(t, n),
    decreases t.len(),
{
    if i > 0 {
        assert(t.remove(i).drop_first() =~= t.drop_first().remove(i - 1));
        assert(t.remove(i)[0] == t[0]);
        lemma_assoc_remove(t.drop_first(), i - 1, n);
    } else {
        assert(t.remove(0) =~= t.drop_first());
    }
}

impl<V> View for StrMap<V> {
    type V = Map<Seq<char>, V>;

    closed spec fn view(&self) -> Map<Seq<char>, V> {
        entries_map(self.entries@)
    }
}

impl<V> StrMap<V> {
    /// The entries, in order.
    pub closed spec fn entries(&self) -> Seq<(String, V)> {
        self.entries@
    }

    /// The map is the one its entries denote.
    pub proof fn lemma_view(&self)
        ensures
            self@ == entries_map(self.entries()),
    {
    }

    /// An empty map.
    pub fn new() -> (r: StrMap<V>)
        ensures
            r@ == Map::<Seq<char>, V>::empty(),
    {
        let r = StrMap { entries: Vec::new() };
        assert(r@ =~= Map::<Seq<char>, V>::empty());
        r
    }

    /// Removes every entry.
    pub fn clear(&mut self)
        ensures
            final(self)@ == Map::<Seq<char>, V>::empty(),
    {
        self.entries = Vec::new();
        assert(self@ =~= Map::<Seq<char>, V>::empty());
    }

    /// Maps `k` to `v`.
    pub fn insert(&mut self, k: String, v: V)
        ensures
            final(self)@ == old(self)@.insert(k@, v),
    {
        let ghost t = self.entries@;
        let ghost kv = k@;
        match assoc_find(&self.entries, &k) {
            Some(i) => {
                let ghost vv = v;
                self.entries.set(i, (k, v));
                proof {
                    let u = self.entries@;
                    assert forall|n: Seq<char>| #[trigger] assoc_lookup(u, n) == if n == kv {
                        Some(vv)
                    } else {
                        assoc_lookup(t, n)
                    } by {
                        lemma_assoc_update(t, i as int, vv, n);
                        lemma_lookup_same_names(u, t.update(i as int, (t[i as int].0, vv)), n);
                    }
                    assert(self@ =~= old(self)@.insert(kv, vv));
                }
            },
            None => {
                let ghost e = (k, v);
                self.entries.push((k, v));
                proof {
                    assert forall|n: Seq<char>| #[trigger] assoc_lookup(self.entries@, n) == if n == kv {
                        Some(e.1)
                    } else {
                        assoc_lookup(t, n)
                    } by {
                        lemma_assoc_push(t, e, n);
                    }
                    assert(self@ =~= old(self)@.insert(kv, e.1));
                }
            },
        }
    }

    /// Removes what `k` maps to.
    pub fn remove(&mut self, k: &str)
        ensures
            final(self)@ == old(self)@.remove(k@),
    {
        let ghost t0 = self.entries@;
        let ghost kv = k@;
        let key = k.to_string();
        loop
            invariant
                key@ == kv,
                forall|n: Seq<char>| n != kv ==> #[trigger] assoc_lookup(self.entries@, n) == assoc_lookup(t0, n),
            ensures
                forall|n: Seq<char>| n != kv ==> #[trigger] assoc_lookup(self.entries@, n) == assoc_lookup(t0, n),
                assoc_lookup(self.entries@, kv) is None,
            decreases self.entries@.len(),
        {
            match assoc_find(&self.entries, &key) {
                Some(i) => {
                    let ghost t = self.entries@;
                    self.entries.remove(i);
                    proof {
                        assert forall|n: Seq<char>| n != kv implies #[trigger] assoc_lookup(self.entries@, n) == assoc_lookup(t0, n) by {
                            lemma_assoc_remove(t, i as int, n);
                        }
                    }
                },
                None => {
                    proof {
                        lemma_assoc_absent(self.entries@, kv);
                    }
                    break;
                },
            }
        }
        assert(self@ =~= old(self)@.remove(kv));
    }

    /// What `k` maps to.
    pub fn get(&self, k: &str) -> (r: Option<&V>)
        ensures
            match r {
                Some(v) => self@.contains_key(k@) && *v == self@[k@],
                None => !self@.contains_key(k@),
            },
    {
        let key = k.to_string();
        match assoc_find(&self.entries, &key) {
            Some(i) => {
                proof {
                    lemma_assoc_found(self.entries@, i as int);
                }
                Some(&self.entries[i].1)
            },
            None => {
                proof {
                    lemma_assoc_absent(self.entries@, k@);
                }
                None
            },
        }
    }

    /// Whether `k` maps to something.
    pub fn contains_key(&self, k: &str) -> (r: bool)
        ensures
            r == self@.contains_key(k@),
    {
        self.get(k).is_some()
    }

    /// The number of entries.
    pub fn entry_count(&self) -> (r: usize)
        ensures
            r == self.entries().len(),
    {
        self.entries.len()
    }

    /// The entry at `i`.
    pub fn entry_at(&self, i: usize) -> (r: &(String, V))
        requires
            i < self.entries().len(),
        ensures
            *r == self.entries()[i as int],
    {
        &self.entries[i]
    }
}

impl StrMap<String> {
    /// Removes every name that maps to `d`.
    pub fn remove_where_value(&mut self, d: &str)
        ensures
            final(self)@ == old(self)@.restrict(Set::new(|k: Seq<char>| old(self)@.contains_key(k) && old(self)@[k]@ != d@)),
    {
        let ghost m0 = self@;
        let mut doomed: Vec<String> = Vec::new();
        let mut i: usize = 0;
        while i < self.entries.len()
            invariant
                self@ == m0,
                i <= self.entries@.len(),
                forall|j: int| 0 <= j < doomed@.len() ==> m0.contains_key(#[trigger] doomed@[j]@) && m0[doomed@[j]@]@ == d@,
                forall|j: int| 0 <= j < i ==> (m0.contains_key(#[trigger] self.entries@[j].0@) && m0[self.entries@[j].0@]@ == d@)
                    ==> exists|q: int| 0 <= q < doomed@.len() && doomed@[q]@ == self.entries@[j].0@,
            decreases self.entries@.len() - i,
        {
            let key = self.entries[i].0.clone();
            let hit = match self.get(key.as_str()) {
                Some(v) => crate::text::str_eq(v.as_str(), d),
                None => false,
            };
            let ghost old_doomed = doomed@;
            if hit {
                doomed.push(key);
                assert(doomed@[doomed@.len() - 1]@ == self.entries@[i as int].0@);
            }
            proof {
                assert forall|j: int| 0 <= j < i + 1 implies ((m0.contains_key(#[trigger] self.entries@[j].0@) && m0[self.entries@[j].0@]@ == d@)
                    ==> exists|q: int| 0 <= q < doomed@.len() && doomed@[q]@ == self.entries@[j].0@) by {
                    if j < i && m0.contains_key(self.entries@[j].0@) && m0[self.entries@[j].0@]@ == d@ {
                        let q = choose|q: int| 0 <= q < old_doomed.len() && old_doomed[q]@ == self.entries@[j].0@;
                        assert(doomed@[q] == old_doomed[q]);
                    }
                    if j == i && m0.contains_key(self.entries@[j].0@) && m0[self.entries@[j].0@]@ == d@ {
                        assert(hit);
                        assert(doomed@[doomed@.len() - 1]@ == self.entries@[j].0@);
                    }
                }
            }
            i = i + 1;
        }
        let ghost t = self.entries@;
        let mut k: usize = 0;
        while k < doomed.len()
            invariant
                k <= doomed@.len(),
                forall|j: int| 0 <= j < doomed@.len() ==> m0.contains_key(#[trigger] doomed@[j]@) && m0[doomed@[j]@]@ == d@,
                forall|n: Seq<char>| #[trigger] self@.contains_key(n) <==> (m0.contains_key(n) && !exists|q: int| 0 <= q < k && doomed@[q]@ == n),
                forall|n: Seq<char>| #[trigger] self@.contains_key(n) ==> self@[n] == m0[n],
            decreases doomed@.len() - k,
        {
            let ghost before = self@;
            self.remove(doomed[k].as_str());
            proof {
                assert forall|n: Seq<char>| #[trigger] self@.contains_key(n) <==> (m0.contains_key(n) && !exists|q: int| 0 <= q < k + 1 && doomed@[q]@ == n) by {
                    if exists|q: int| 0 <= q < k + 1 && doomed@[q]@ == n {
                        let q = choose|q: int| 0 <= q < k + 1 && doomed@[q]@ == n;
                        if q < k {
                            assert(exists|qq: int| 0 <= qq < k && doomed@[qq]@ == n);
                        }
                    }
                }
            }
            k = k + 1;
        }
        proof {
            let target = m0.restrict(Set::new(|kk: Seq<char>| m0.contains_key(kk) && m0[kk]@ != d@));
            assert forall|n: Seq<char>| #[trigger] self@.contains_key(n) <==> target.contains_key(n) by {
                if m0.contains_key(n) && m0[n]@ == d@ {
                    lemma_entries_cover(t, n);
                    let j = choose|j: int| 0 <= j < t.len() && t[j].0@ == n && entries_map(t)[n] == t[j].1;
                    assert(m0.contains_key(t[j].0@) && m0[t[j].0@]@ == d@);
                }
                if exists|q: int| 0 <= q < doomed@.len() && doomed@[q]@ == n {
                    let q = choose|q: int| 0 <= q < doomed@.len() && doomed@[q]@ == n;
                    assert(m0.contains_key(doomed@[q]@));
                }
            }
            assert(self@ =~= target);
        }
    }
}

/// Lookups depend on the names and values of the entries alone.
proof fn lemma_lookup_same_names<V>(a: Seq<(String, V)>, b: Seq<(String, V)>, n: Seq<char>)
    requires
        a.len() == b.len(),
        forall|i: int| 0 <= i < a.len() ==> #[trigger] a[i].0@ == b[i].0@ && a[i].1 == b[i].1,
    ensures
        assoc_lookup(a, n) == assoc_lookup(b, n),
    decreases a.len(),
{
    if a.len() > 0 {
        assert(a[0].0@ == b[0].0@);
        lemma_lookup_same_names(a.drop_first(), b.drop_first(), n);
    }
}

/// The name of every entry is a key of the map.
pub proof fn lemma_entry_key<V>(t: Seq<(String, V)>, i: int)
    requires
        0 <= i < t.len(),
    ensures
        entries_map(t).contains_key(t[i].0@),
    decreases t.len(),
{
    if i > 0 && t[0].0@ != t[i].0@ {
        assert(t.drop_first()[i - 1] == t[i]);
        lemma_entry_key(t.drop_first(), i - 1);
    }
}

/// Every key of the map is the name of an entry, and the first entry with
/// that name holds its value.
pub proof fn lemma_entries_cover<V>(t: Seq<(String, V)>, k: Seq<char>)
    requires
        entries_map(t).contains_key(k),
    ensures
        exists|i: int| 0 <= i < t.len() && t[i].0@ == k && entries_map(t)[k] == t[i].1,
    decreases t.len(),
{
    if t[0].0@ != k {
        assert(entries_map(t.drop_first()).contains_key(k));
        lemma_entries_cover(t.drop_first(), k);
        let i = choose|i: int| 0 <= i < t.drop_first().len() && t.drop_first()[i].0@ == k && entries_map(t.drop_first())[k] == t.drop_first()[i].1;
        assert(t[i + 1] == t.drop_first()[i]);
    } else {
        assert(t[0].0@ == k);
    }
}

} // verus!
