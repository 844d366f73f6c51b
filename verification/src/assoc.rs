//! A small association list from `u64` keys to values, with unique keys.
//!
//! The batch engine accumulates per-address balance deltas and per-address
//! token-list edits in such lists and flushes each entry once at the end, so
//! the list must expose both keyed lookup and in-order draining, with a
//! spec-level account of each.

use vstd::prelude::*;

verus! {

/// First-match lookup over a sequence of key-value pairs.
pub open spec fn seq_assoc_get<V>(s: Seq<(u64, V)>, k: u64) -> Option<V>
    decreases s.len(),
{
    if s.len() == 0 {
        None
    } else if s[0].0 == k {
        Some(s[0].1)
    } else {
        seq_assoc_get(s.drop_first(), k)
    }
}

/// No two pairs share a key.
pub open spec fn seq_keys_unique<V>(s: Seq<(u64, V)>) -> bool {
    forall|i: int, j: int|
        0 <= i < j < s.len() ==> (#[trigger] s[i]).0 != (#[trigger] s[j]).0
}

/// With unique keys, lookup finds the pair at any matching index.
pub proof fn lemma_assoc_get_match<V>(s: Seq<(u64, V)>, k: u64, i: int)
    requires
        seq_keys_unique(s),
        0 <= i < s.len(),
        s[i].0 == k,
    ensures
        seq_assoc_get(s, k) == Some(s[i].1),
    decreases s.len(),
{
    if i > 0 {
        assert(s[0].0 != k);
        assert(s.drop_first()[i - 1] == s[i]);
        lemma_assoc_get_match(s.drop_first(), k, i - 1);
    }
}

/// Lookup of a key no pair carries yields `None`.
pub proof fn lemma_assoc_get_absent<V>(s: Seq<(u64, V)>, k: u64)
    requires
        forall|i: int| 0 <= i < s.len() ==> (#[trigger] s[i]).0 != k,
    ensures
        seq_assoc_get(s, k) is None,
    decreases s.len(),
{
    if s.len() > 0 {
        lemma_assoc_get_absent(s.drop_first(), k);
    }
}

/// Overwriting the value at a key's index leaves every other lookup as it
/// was.
pub proof fn lemma_assoc_get_update_other<V>(s: Seq<(u64, V)>, i: int, v: V, k2: u64)
    requires
        0 <= i < s.len(),
        s[i].0 != k2,
    ensures
        seq_assoc_get(s.update(i, (s[i].0, v)), k2) == seq_assoc_get(s, k2),
    decreases s.len(),
{
    let s2 = s.update(i, (s[i].0, v));
    if i == 0 {
        assert(s2.drop_first() =~= s.drop_first());
    } else {
        assert(s2.drop_first() =~= s.drop_first().update(i - 1, (s[i].0, v)));
        assert(s.drop_first()[i - 1] == s[i]);
        lemma_assoc_get_update_other(s.drop_first(), i - 1, v, k2);
    }
}

/// Appending a pair with a fresh key changes only that key's lookup.
pub proof fn lemma_assoc_get_push<V>(s: Seq<(u64, V)>, k: u64, v: V, k2: u64)
    requires
        seq_assoc_get(s, k) is None,
    ensures
        seq_assoc_get(s.push((k, v)), k2) == if k2 == k {
            Some(v)
        } else {
            seq_assoc_get(s, k2)
        },
    decreases s.len(),
{
    let s2 = s.push((k, v));
    if s.len() == 0 {
        assert(s2.drop_first() =~= Seq::<(u64, V)>::empty());
    } else {
        assert(s2.drop_first() =~= s.drop_first().push((k, v)));
        lemma_assoc_get_push(s.drop_first(), k, v, k2);
    }
}

/// Dropping the last pair removes exactly its key's binding (keys unique).
pub proof fn lemma_assoc_get_drop_last<V>(s: Seq<(u64, V)>, k2: u64)
    requires
        seq_keys_unique(s),
        s.len() > 0,
    ensures
        k2 == s.last().0 ==> seq_assoc_get(s.drop_last(), k2) is None,
        k2 != s.last().0 ==> seq_assoc_get(s.drop_last(), k2) == seq_assoc_get(s, k2),
{
    let dl = s.drop_last();
    assert(seq_keys_unique(dl)) by {
        assert forall|i: int, j: int|
            0 <= i < j < dl.len() implies (#[trigger] dl[i]).0 != (#[trigger] dl[j]).0 by {
            assert(dl[i] == s[i]);
            assert(dl[j] == s[j]);
        }
    }
    if k2 == s.last().0 {
        assert forall|i: int| 0 <= i < dl.len() implies (#[trigger] dl[i]).0 != k2 by {
            assert(dl[i] == s[i]);
            assert(s[i].0 != s[s.len() - 1].0);
        }
        lemma_assoc_get_absent(dl, k2);
    } else {
        if exists|i: int| 0 <= i < dl.len() && (#[trigger] dl[i]).0 == k2 {
            let i = choose|i: int| 0 <= i < dl.len() && (#[trigger] dl[i]).0 == k2;
            assert(dl[i] == s[i]);
            lemma_assoc_get_match(dl, k2, i);
            lemma_assoc_get_match(s, k2, i);
        } else {
            assert forall|i: int| 0 <= i < s.len() implies (#[trigger] s[i]).0 != k2 by {
                if i < s.len() - 1 {
                    assert(dl[i] == s[i]);
                }
            }
            lemma_assoc_get_absent(s, k2);
            lemma_assoc_get_absent(dl, k2);
        }
    }
}

/// Association list with unique `u64` keys, used as a write-back cache.
pub struct KvCache<V> {
    entries: Vec<(u64, V)>,
}

impl<V> KvCache<V> {
    /// The underlying sequence of pairs, oldest first.
    pub closed spec fn entries_seq(self) -> Seq<(u64, V)> {
        self.entries@
    }

    /// Well-formedness: no two pairs share a key.
    pub open spec fn keys_unique(self) -> bool {
        seq_keys_unique(self.entries_seq())
    }

    /// The value bound to `k`, if any.
    pub open spec fn spec_get(self, k: u64) -> Option<V> {
        seq_assoc_get(self.entries_seq(), k)
    }

    /// Whether `k` is bound.
    pub open spec fn spec_contains(self, k: u64) -> bool {
        self.spec_get(k) is Some
    }

    /// An empty cache.
    pub fn new() -> (c: KvCache<V>)
        ensures
            c.keys_unique(),
            c.entries_seq() == Seq::<(u64, V)>::empty(),
            forall|k: u64| c.spec_get(k) is None,
    {
        let c = KvCache { entries: Vec::new() };
        proof {
            assert(forall|k: u64| seq_assoc_get(c.entries@, k) is None);
        }
        c
    }

    /// Number of bindings.
    pub fn len(&self) -> (n: usize)
        ensures
            n == self.entries_seq().len(),
    {
        self.entries.len()
    }

    /// Look `k` up.
    pub fn get(&self, k: u64) -> (r: Option<&V>)
        requires
            self.keys_unique(),
        ensures
            match r {
                Some(v) => self.spec_get(k) == Some(*v),
                None => self.spec_get(k) is None,
            },
    {
        let n = self.entries.len();
        let mut i: usize = 0;
        while i < n
            invariant
                n == self.entries@.len(),
                i <= n,
                self.keys_unique(),
                forall|j: int| 0 <= j < i ==> (#[trigger] self.entries@[j]).0 != k,
            decreases n - i,
        {
            if self.entries[i].0 == k {
                proof {
                    lemma_assoc_get_match(self.entries@, k, i as int);
                }
                return Some(&self.entries[i].1);
            }
            i += 1;
        }
        proof {
            lemma_assoc_get_absent(self.entries@, k);
        }
        None
    }

    /// Bind `k` to `v`, replacing any previous binding.
    pub fn set(&mut self, k: u64, v: V)
        requires
            old(self).keys_unique(),
        ensures
            final(self).keys_unique(),
            final(self).spec_get(k) == Some(v),
            forall|k2: u64| k2 != k ==> final(self).spec_get(k2) == old(self).spec_get(k2),
            final(self).entries_seq().len() <= old(self).entries_seq().len() + 1,
    {
        let n = self.entries.len();
        let mut i: usize = 0;
        while i < n
            invariant
                *self == *old(self),
                n == self.entries@.len(),
                i <= n,
                self.keys_unique(),
                forall|j: int| 0 <= j < i ==> (#[trigger] self.entries@[j]).0 != k,
            decreases n - i,
        {
            if self.entries[i].0 == k {
                let ghost s_old = self.entries@;
                self.entries.set(i, (k, v));
                proof {
                    assert(self.entries@ =~= s_old.update(i as int, (s_old[i as int].0, v)));
                    lemma_assoc_get_match(self.entries@, k, i as int);
                    assert forall|k2: u64| k2 != k implies seq_assoc_get(
                        self.entries@,
                        k2,
                    ) == seq_assoc_get(s_old, k2) by {
                        lemma_assoc_get_update_other(s_old, i as int, v, k2);
                    }
                }
                return ;
            }
            i += 1;
        }
        let ghost s_old = self.entries@;
        proof {
            lemma_assoc_get_absent(s_old, k);
        }
        self.entries.push((k, v));
        proof {
            assert(self.entries@ =~= s_old.push((k, v)));
            assert forall|k2: u64| true implies seq_assoc_get(self.entries@, k2) == (if k2 == k {
                Some(v)
            } else {
                seq_assoc_get(s_old, k2)
            }) by {
                lemma_assoc_get_push(s_old, k, v, k2);
            }
        }
    }

    /// Remove and return the most recently appended binding.
    pub fn pop(&mut self) -> (r: Option<(u64, V)>)
        requires
            old(self).keys_unique(),
        ensures
            final(self).keys_unique(),
            match r {
                Some(e) => {
                    &&& old(self).entries_seq().len() > 0
                    &&& e == old(self).entries_seq().last()
                    &&& final(self).entries_seq() == old(self).entries_seq().drop_last()
                    &&& old(self).spec_get(e.0) == Some(e.1)
                    &&& final(self).spec_get(e.0) is None
                    &&& forall|k2: u64|
                        k2 != e.0 ==> final(self).spec_get(k2) == old(self).spec_get(k2)
                },
                None => {
                    &&& old(self).entries_seq().len() == 0
                    &&& final(self).entries_seq() == old(self).entries_seq()
                },
            },
    {
        let ghost s_old = self.entries@;
        let r = self.entries.pop();
        match r {
            Some(e) => {
                proof {
                    lemma_assoc_get_match(s_old, e.0, s_old.len() - 1);
                    assert forall|k2: u64| k2 != e.0 implies seq_assoc_get(
                        self.entries@,
                        k2,
                    ) == seq_assoc_get(s_old, k2) by {
                        lemma_assoc_get_drop_last(s_old, k2);
                    }
                    assert(seq_assoc_get(self.entries@, e.0) is None) by {
                        lemma_assoc_get_drop_last(s_old, e.0);
                    }
                }
                Some(e)
            },
            None => None,
        }
    }
}

} // verus!
