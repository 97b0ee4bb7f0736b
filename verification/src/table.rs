//! A small verified association table keyed by 128-bit identifiers.
//!
//! Every map the runtime keeps — local dispatchers, the remote directory
//! cache, per-connection waiters, links, global handlers — is one of these.
//! The table is a vector of pairs with distinct keys; its specification is
//! the finite map the pairs describe.

use vstd::prelude::*;

verus! {

/// No key occurs twice in the pair list.
pub open spec fn nodup_keys<V>(s: Seq<(u128, V)>) -> bool {
    forall|i: int, j: int| 0 <= i < j < s.len() ==> s[i].0 != s[j].0
}

/// The finite map a pair list describes (later pairs win, though the table
/// never stores a key twice).
pub open spec fn map_of<V>(s: Seq<(u128, V)>) -> Map<u128, V>
    decreases s.len(),
{
    if s.len() == 0 {
        Map::empty()
    } else {
        map_of(s.drop_last()).insert(s.last().0, s.last().1)
    }
}

/// A key is in the map exactly when some pair carries it.
pub proof fn lemma_map_of_contains<V>(s: Seq<(u128, V)>, k: u128)
    ensures
        map_of(s).contains_key(k) <==> (exists|i: int| 0 <= i < s.len() && s[i].0 == k),
    decreases s.len(),
{
    if s.len() > 0 {
        lemma_map_of_contains(s.drop_last(), k);
        if map_of(s).contains_key(k) {
            if s.last().0 == k {
                assert(s[s.len() - 1].0 == k);
            } else {
                let i = choose|i: int| 0 <= i < s.drop_last().len() && s.drop_last()[i].0 == k;
                assert(s[i].0 == k);
            }
        }
        if exists|i: int| 0 <= i < s.len() && s[i].0 == k {
            let i = choose|i: int| 0 <= i < s.len() && s[i].0 == k;
            if i < s.len() - 1 {
                assert(s.drop_last()[i].0 == k);
            }
        }
    }
}

/// With distinct keys, the pair at any index gives the map's value there.
pub proof fn lemma_map_of_index<V>(s: Seq<(u128, V)>, i: int)
    requires
        nodup_keys(s),
        0 <= i < s.len(),
    ensures
        map_of(s).contains_key(s[i].0),
        map_of(s)[s[i].0] == s[i].1,
    decreases s.len(),
{
    assert(nodup_keys(s.drop_last())) by {
        assert(forall|a: int, b: int|
            0 <= a < b < s.drop_last().len() ==> s.drop_last()[a] == s[a] && s.drop_last()[b]
                == s[b]);
    }
    if i < s.len() - 1 {
        lemma_map_of_index(s.drop_last(), i);
        assert(s[i].0 != s[s.len() - 1].0);
    }
}

/// With distinct keys, the map has exactly as many entries as the list.
pub proof fn lemma_map_of_len<V>(s: Seq<(u128, V)>)
    requires
        nodup_keys(s),
    ensures
        map_of(s).dom().finite(),
        map_of(s).dom().len() == s.len(),
    decreases s.len(),
{
    if s.len() > 0 {
        assert(nodup_keys(s.drop_last())) by {
            assert(forall|a: int, b: int|
                0 <= a < b < s.drop_last().len() ==> s.drop_last()[a] == s[a] && s.drop_last()[b]
                    == s[b]);
        }
        lemma_map_of_len(s.drop_last());
        lemma_map_of_contains(s.drop_last(), s.last().0);
        assert(forall|i: int| 0 <= i < s.drop_last().len() ==> s.drop_last()[i] == s[i]);
        assert(!map_of(s.drop_last()).contains_key(s.last().0));
    }
}

/// An association table: a finite map from identifiers to values.
pub struct Table<V> {
    entries: Vec<(u128, V)>,
}

impl<V> Table<V> {
    /// The map this table holds.
    pub closed spec fn view(&self) -> Map<u128, V> {
        map_of(self.entries@)
    }

    /// The pair list itself, oldest entry first; the order in which
    /// [`Table::keys`] and [`Table::take_entries`] walk the table.
    pub closed spec fn entry_seq(&self) -> Seq<(u128, V)> {
        self.entries@
    }

    #[verifier::type_invariant]
    spec fn wf(&self) -> bool {
        nodup_keys(self.entries@)
    }

    pub fn new() -> (r: Self)
        ensures
            r@ == Map::<u128, V>::empty(),
            r.entry_seq() == Seq::<(u128, V)>::empty(),
    {
        Table { entries: Vec::new() }
    }

    /// The index holding `k`, if any.
    fn find(&self, k: u128) -> (r: Option<usize>)
        ensures
            match r {
                Some(i) => i < self.entries@.len() && self.entries@[i as int].0 == k,
                None => forall|i: int| 0 <= i < self.entries@.len() ==> self.entries@[i].0 != k,
            },
    {
        let mut i: usize = 0;
        while i < self.entries.len()
            invariant
                i <= self.entries@.len(),
                forall|j: int| 0 <= j < i ==> self.entries@[j].0 != k,
            decreases self.entries@.len() - i,
        {
            if self.entries[i].0 == k {
                return Some(i);
            }
            i += 1;
        }
        None
    }

    /// True exactly when `k` is present.
    pub fn contains_key(&self, k: u128) -> (r: bool)
        ensures
            r == self@.contains_key(k),
    {
        proof {
            lemma_map_of_contains(self.entries@, k);
        }
        self.find(k).is_some()
    }

    /// The value under `k`, if any.
    pub fn get(&self, k: u128) -> (r: Option<&V>)
        ensures
            match r {
                Some(v) => self@.contains_key(k) && *v == self@[k],
                None => !self@.contains_key(k),
            },
    {
        proof {
            use_type_invariant(&*self);
            lemma_map_of_contains(self.entries@, k);
        }
        match self.find(k) {
            Some(i) => {
                proof {
                    lemma_map_of_index(self.entries@, i as int);
                }
                Some(&self.entries[i].1)
            },
            None => None,
        }
    }

    /// Binds `k` to `v`, replacing any earlier binding.
    pub fn insert(&mut self, k: u128, v: V)
        ensures
            final(self)@ == old(self)@.insert(k, v),
    {
        self.remove(k);
        let ghost s1 = self.entries@;
        proof {
            use_type_invariant(&*self);
        }
        let mut es: Vec<(u128, V)> = Vec::new();
        core::mem::swap(&mut es, &mut self.entries);
        es.push((k, v));
        proof {
            lemma_map_of_contains(s1, k);
            assert(forall|i: int, j: int|
                0 <= i < j < es@.len() ==> es@[i].0 != es@[j].0);
        }
        core::mem::swap(&mut self.entries, &mut es);
        proof {
            assert(s1.push((k, v)).drop_last() =~= s1);
            assert(map_of(self.entries@) == map_of(s1).insert(k, v));
            assert(map_of(s1).insert(k, v) =~= old(self)@.insert(k, v));
        }
    }

    /// Drops the binding of `k`, if any.
    pub fn remove(&mut self, k: u128)
        ensures
            final(self)@ == old(self)@.remove(k),
    {
        proof {
            use_type_invariant(&*self);
        }
        let ghost s = self.entries@;
        match self.find(k) {
            Some(i) => {
                let mut es: Vec<(u128, V)> = Vec::new();
                core::mem::swap(&mut es, &mut self.entries);
                es.remove(i);
                proof {
                    let t = es@;
                    assert(t =~= s.remove(i as int));
                    assert(nodup_keys(t)) by {
                        assert(forall|a: int|
                            0 <= a < t.len() ==> t[a] == (if a < i { s[a] } else { s[a + 1] }));
                    }
                }
                core::mem::swap(&mut self.entries, &mut es);
                proof {
                    let t = self.entries@;
                    assert forall|q: u128| #[trigger] map_of(t).contains_key(q)
                        == old(self)@.remove(k).contains_key(q) && (map_of(t).contains_key(q)
                        ==> map_of(t)[q] == old(self)@.remove(k)[q]) by {
                        lemma_map_of_contains(t, q);
                        lemma_map_of_contains(s, q);
                        if map_of(t).contains_key(q) {
                            let a = choose|a: int| 0 <= a < t.len() && t[a].0 == q;
                            lemma_map_of_index(t, a);
                            let b = if a < i { a } else { a + 1 };
                            assert(s[b] == t[a]);
                            lemma_map_of_index(s, b);
                        } else if old(self)@.remove(k).contains_key(q) {
                            let b = choose|b: int| 0 <= b < s.len() && s[b].0 == q;
                            let a = if b < i { b } else { b - 1 };
                            assert(t[a] == s[b]);
                        }
                    }
                    assert(map_of(t) =~= old(self)@.remove(k));
                }
            },
            None => {
                proof {
                    lemma_map_of_contains(s, k);
                    assert(map_of(s) =~= old(self)@.remove(k));
                }
            },
        }
    }

    /// True exactly when the table holds nothing.
    pub fn is_empty(&self) -> (r: bool)
        ensures
            r == (self@ == Map::<u128, V>::empty()),
    {
        proof {
            use_type_invariant(&*self);
            if self.entries@.len() > 0 {
                lemma_map_of_index(self.entries@, 0);
                assert(self@ != Map::<u128, V>::empty());
            } else {
                assert(self@ =~= Map::<u128, V>::empty());
            }
        }
        self.entries.is_empty()
    }

    /// The number of bindings.
    pub fn len(&self) -> (r: usize)
        ensures
            self@.dom().finite(),
            r == self@.dom().len(),
    {
        proof {
            use_type_invariant(&*self);
            lemma_map_of_len(self.entries@);
        }
        self.entries.len()
    }

    /// Every key, each exactly once, in table order.
    pub fn keys(&self) -> (r: Vec<u128>)
        ensures
            r@.len() == self.entry_seq().len(),
            forall|i: int| 0 <= i < r@.len() ==> r@[i] == self.entry_seq()[i].0,
            forall|i: int| 0 <= i < r@.len() ==> self@.contains_key(r@[i]),
            forall|k: u128| self@.contains_key(k) ==> r@.contains(k),
            forall|i: int, j: int| 0 <= i < j < r@.len() ==> r@[i] != r@[j],
    {
        proof {
            use_type_invariant(&*self);
        }
        let mut out: Vec<u128> = Vec::new();
        let mut i: usize = 0;
        while i < self.entries.len()
            invariant
                i <= self.entries@.len(),
                out@.len() == i,
                forall|j: int| 0 <= j < i ==> out@[j] == self.entries@[j].0,
            decreases self.entries@.len() - i,
        {
            out.push(self.entries[i].0);
            i += 1;
        }
        proof {
            assert forall|j: int| 0 <= j < out@.len() implies self@.contains_key(out@[j]) by {
                lemma_map_of_index(self.entries@, j);
            }
            assert forall|k: u128| self@.contains_key(k) implies out@.contains(k) by {
                lemma_map_of_contains(self.entries@, k);
                let j = choose|j: int| 0 <= j < self.entries@.len() && self.entries@[j].0 == k;
                assert(out@[j] == k);
            }
        }
        out
    }

    /// Empties the table, handing back every pair in table order.
    pub fn take_entries(&mut self) -> (r: Vec<(u128, V)>)
        ensures
            final(self)@ == Map::<u128, V>::empty(),
            r@ == old(self).entry_seq(),
            nodup_keys(r@),
            map_of(r@) == old(self)@,
    {
        proof {
            use_type_invariant(&*self);
        }
        let mut taken: Vec<(u128, V)> = Vec::new();
        core::mem::swap(&mut taken, &mut self.entries);
        proof {
            assert(final(self)@ =~= Map::<u128, V>::empty());
        }
        taken
    }
}

impl<V: Copy> Table<V> {
    /// A snapshot of every pair, in table order.
    pub fn entries(&self) -> (r: Vec<(u128, V)>)
        ensures
            r@ == self.entry_seq(),
            nodup_keys(r@),
            map_of(r@) == self@,
    {
        proof {
            use_type_invariant(&*self);
        }
        let mut out: Vec<(u128, V)> = Vec::new();
        let mut i: usize = 0;
        while i < self.entries.len()
            invariant
                i <= self.entries@.len(),
                out@ == self.entries@.take(i as int),
            decreases self.entries@.len() - i,
        {
            out.push(self.entries[i]);
            proof {
                assert(out@ =~= self.entries@.take(i + 1));
            }
            i += 1;
        }
        proof {
            assert(self.entries@.take(self.entries@.len() as int) =~= self.entries@);
        }
        out
    }
}

} // verus!
