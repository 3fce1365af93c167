//! Association lists: entries of a name and a value, looked up by the first
//! entry with the name.
use vstd::prelude::*;
use crate::text::str_eq;

verus! {

/// The value of the first entry named `name`.
pub open spec fn assoc_lookup<V>(t: Seq<(String, V)>, name: Seq<char>) -> Option<V>
    decreases t.len(),
{
    if t.len() == 0 {
        None
    } else if t[0].0@ == name {
        Some(t[0].1)
    } else {
        assoc_lookup(t.drop_first(), name)
    }
}

/// Replacing the value of the first entry with a given name changes only
/// what that name maps to.
pub proof fn lemma_assoc_update<V>(t: Seq<(String, V)>, i: int, v: V, n: Seq<char>)
    requires
        0 <= i < t.len(),
        forall|j: int| 0 <= j < i ==> t[j].0@ != t[i].0@,
    ensures
        assoc_lookup(t.update(i, (t[i].0, v)), n) == if n == t[i].0@ {
            Some(v)
        } else {
            assoc_lookup(t, n)
        },
    decreases t.len(),
{
    let u = t.update(i, (t[i].0, v));
    if i == 0 {
        assert(u.drop_first() =~= t.drop_first());
    } else {
        assert(u.drop_first() =~= t.drop_first().update(i - 1, (t[i].0, v)));
        assert(t[0].0@ != t[i].0@);
        lemma_assoc_update(t.drop_first(), i - 1, v, n);
    }
}

/// Appending an entry under a new name adds exactly that name.
pub proof fn lemma_assoc_push<V>(t: Seq<(String, V)>, e: (String, V), n: Seq<char>)
    requires
        forall|j: int| 0 <= j < t.len() ==> t[j].0@ != e.0@,
    ensures
        assoc_lookup(t.push(e), n) == if n == e.0@ {
            Some(e.1)
        } else {
            assoc_lookup(t, n)
        },
    decreases t.len(),
{
    if t.len() > 0 {
        assert(t.push(e).drop_first() =~= t.drop_first().push(e));
        assert(t.push(e)[0] == t[0]);
        assert(t[0].0@ != e.0@);
        lemma_assoc_push(t.drop_first(), e, n);
    } else {
        assert(t.push(e).drop_first() =~= Seq::<(String, V)>::empty());
        assert(t.push(e)[0] == e);
        assert(assoc_lookup(Seq::<(String, V)>::empty(), n) is None);
    }
}

/// Position of the first entry named `name`.
pub fn assoc_find<V>(t: &Vec<(String, V)>, name: &String) -> (r: Option<usize>)
    ensures
        match r {
            Some(i) => i < t@.len() && t@[i as int].0@ == name@ && forall|j: int| 0 <= j < i ==> t@[j].0@ != name@,
            None => forall|j: int| 0 <= j < t@.len() ==> t@[j].0@ != name@,
        },
{
    let mut i: usize = 0;
    while i < t.len()
        invariant
            i <= t@.len(),
            forall|j: int| 0 <= j < i ==> t@[j].0@ != name@,
        decreases t@.len() - i,
    {
        if str_eq(t[i].0.as_str(), name.as_str()) {
            return Some(i);
        }
        i = i + 1;
    }
    None
}

/// The first entry named `name` answers a lookup of that name.
pub proof fn lemma_assoc_found<V>(t: Seq<(String, V)>, i: int)
    requires
        0 <= i < t.len(),
        forall|j: int| 0 <= j < i ==> t[j].0@ != t[i].0@,
    ensures
        assoc_lookup(t, t[i].0@) == Some(t[i].1),
    decreases t.len(),
{
    if i > 0 {
        assert(t[0].0@ != t[i].0@);
        lemma_assoc_found(t.drop_first(), i - 1);
    }
}

/// A name that no entry has is not found.
pub proof fn lemma_assoc_absent<V>(t: Seq<(String, V)>, n: Seq<char>)
    requires
        forall|j: int| 0 <= j < t.len() ==> t[j].0@ != n,
    ensures
        assoc_lookup(t, n) is None,
    decreases t.len(),
{
    if t.len() > 0 {
        lemma_assoc_absent(t.drop_first(), n);
    }
}

} // verus!
