//! A finite map keyed by accounts, held as a list of distinct entries.

use vstd::prelude::*;

use crate::account::{Account, AccountModel};

verus! {

/// The map that a list of entries denotes: later entries win.
pub open spec fn entries_map<V>(s: Seq<(Account, V)>) -> Map<AccountModel, V>
    decreases s.len(),
{
    if s.len() == 0 {
        Map::empty()
    } else {
        entries_map(s.drop_last()).insert(s.last().0@, s.last().1)
    }
}

/// No account occurs twice among the entries.
pub open spec fn keys_distinct<V>(s: Seq<(Account, V)>) -> bool {
    forall|i: int, j: int|
        0 <= i < s.len() && 0 <= j < s.len() && i != j ==> #[trigger] s[i].0@ != #[trigger] s[j].0@
}

/// What the map of a list of distinct entries holds, entry by entry.
proof fn lemma_entries_map<V>(s: Seq<(Account, V)>)
    requires
        keys_distinct(s),
    ensures
        entries_map(s).dom().finite(),
        forall|i: int|
            0 <= i < s.len() ==> #[trigger] entries_map(s).contains_key(s[i].0@) && entries_map(
                s,
            )[s[i].0@] == s[i].1,
        forall|k: AccountModel|
            #[trigger] entries_map(s).contains_key(k) ==> exists|i: int|
                0 <= i < s.len() && #[trigger] s[i].0@ == k,
    decreases s.len(),
{
    if s.len() > 0 {
        let t = s.drop_last();
        assert(keys_distinct(t)) by {
            assert forall|i: int, j: int|
                0 <= i < t.len() && 0 <= j < t.len() && i != j implies #[trigger] t[i].0@
                != #[trigger] t[j].0@ by {
                assert(t[i] == s[i] && t[j] == s[j]);
            }
        }
        lemma_entries_map(t);
        let last = s.len() - 1;
        assert forall|i: int| 0 <= i < s.len() implies #[trigger] entries_map(s).contains_key(
            s[i].0@,
        ) && entries_map(s)[s[i].0@] == s[i].1 by {
            if i < last {
                assert(t[i] == s[i]);
                assert(s[i].0@ != s[last].0@);
            }
        }
        assert forall|k: AccountModel| #[trigger] entries_map(s).contains_key(k) implies exists|
            i: int,
        | 0 <= i < s.len() && #[trigger] s[i].0@ == k by {
            if k != s[last].0@ {
                assert(entries_map(t).contains_key(k));
                let i = choose|i: int| 0 <= i < t.len() && #[trigger] t[i].0@ == k;
                assert(s[i] == t[i]);
            } else {
                assert(s[last].0@ == k);
            }
        }
    }
}

/// A finite map from accounts to values, held as a list of entries in which
/// no account occurs twice.
pub struct AccountMap<V> {
    entries: Vec<(Account, V)>,
}

impl<V> AccountMap<V> {
    /// The list of entries is free of duplicate accounts.
    pub closed spec fn wf(&self) -> bool {
        keys_distinct(self.entries@)
    }

    /// The map that this value holds.
    pub closed spec fn model(&self) -> Map<AccountModel, V> {
        entries_map(self.entries@)
    }

    /// The held map is finite.
    pub proof fn lemma_finite(&self)
        requires
            self.wf(),
        ensures
            self.model().dom().finite(),
    {
        lemma_entries_map(self.entries@);
    }

    /// An empty map.
    pub fn new() -> (m: Self)
        ensures
            m.wf(),
            m.model() == Map::<AccountModel, V>::empty(),
    {
        AccountMap { entries: Vec::new() }
    }

    /// The position of `k` among the entries, if it is there.
    fn find(&self, k: &Account) -> (r: Option<usize>)
        requires
            self.wf(),
        ensures
            match r {
                Some(i) => i < self.entries@.len() && self.entries@[i as int].0@ == k@,
                None => forall|i: int|
                    0 <= i < self.entries@.len() ==> #[trigger] self.entries@[i].0@ != k@,
            },
            r is Some <==> self.model().contains_key(k@),
    {
        proof {
            lemma_entries_map(self.entries@);
        }
        let n = self.entries.len();
        let mut i: usize = 0;
        while i < n
            invariant
                n == self.entries@.len(),
                self.wf(),
                0 <= i <= n,
                forall|j: int| 0 <= j < i ==> #[trigger] self.entries@[j].0@ != k@,
            decreases n - i,
        {
            if self.entries[i].0.same_as(k) {
                proof {
                    lemma_entries_map(self.entries@);
                    assert(self.model().contains_key(self.entries@[i as int].0@));
                }
                return Some(i);
            }
            i = i + 1;
        }
        proof {
            if self.model().contains_key(k@) {
                let j = choose|j: int| 0 <= j < self.entries@.len() && #[trigger] self.entries@[j].0@ == k@;
                assert(self.entries@[j].0@ != k@);
            }
        }
        None
    }

    /// The value held for `k`, if any.
    pub fn get(&self, k: &Account) -> (r: Option<&V>)
        requires
            self.wf(),
        ensures
            r is Some <==> self.model().contains_key(k@),
            r matches Some(v) ==> *v == self.model()[k@],
    {
        proof {
            lemma_entries_map(self.entries@);
        }
        match self.find(k) {
            Some(i) => Some(&self.entries[i].1),
            None => None,
        }
    }

    /// Holds `v` for `k`, replacing what was held for `k` before.
    pub fn insert(&mut self, k: Account, v: V)
        requires
            old(self).wf(),
        ensures
            final(self).wf(),
            final(self).model() == old(self).model().insert(k@, v),
    {
        proof {
            lemma_entries_map(self.entries@);
        }
        match self.find(&k) {
            Some(i) => {
                let ghost s0 = self.entries@;
                self.entries.set(i, (k, v));
                let ghost s1 = self.entries@;
                proof {
                    assert(keys_distinct(s1)) by {
                        assert forall|a: int, b: int|
                            0 <= a < s1.len() && 0 <= b < s1.len() && a != b implies #[trigger] s1[a].0@
                            != #[trigger] s1[b].0@ by {
                            assert(s0[a].0@ != s0[b].0@);
                        }
                    }
                    lemma_entries_map(s1);
                    let m = old(self).model().insert(k@, v);
                    assert forall|key: AccountModel| #[trigger] m.contains_key(key) implies entries_map(s1).contains_key(key) && entries_map(s1)[key] == m[key] by {
                        if key == k@ {
                            assert(s1[i as int].0@ == k@);
                        } else {
                            let j = choose|j: int| 0 <= j < s0.len() && #[trigger] s0[j].0@ == key;
                            assert(s1[j] == s0[j]);
                        }
                    }
                    assert forall|key: AccountModel| #[trigger] entries_map(s1).contains_key(key) implies m.contains_key(key) by {
                        let j = choose|j: int| 0 <= j < s1.len() && #[trigger] s1[j].0@ == key;
                        if j != i {
                            assert(s1[j] == s0[j]);
                        }
                    }
                    assert(entries_map(s1) =~= m);
                }
            },
            None => {
                let ghost s0 = self.entries@;
                self.entries.push((k, v));
                proof {
                    let s1 = self.entries@;
                    assert(s1.drop_last() =~= s0);
                    assert(keys_distinct(s1)) by {
                        assert forall|a: int, b: int|
                            0 <= a < s1.len() && 0 <= b < s1.len() && a != b implies #[trigger] s1[a].0@
                            != #[trigger] s1[b].0@ by {
                            if a < s0.len() && b < s0.len() {
                                assert(s0[a].0@ != s0[b].0@);
                            } else if a < s0.len() {
                                assert(s0[a].0@ != k@);
                            } else {
                                assert(s0[b].0@ != k@);
                            }
                        }
                    }
                }
            },
        }
    }

    /// Stops holding anything for `k`; returns what was held for it.
    pub fn remove(&mut self, k: &Account) -> (r: Option<V>)
        requires
            old(self).wf(),
        ensures
            final(self).wf(),
            final(self).model() == old(self).model().remove(k@),
            r is Some <==> old(self).model().contains_key(k@),
            r matches Some(v) ==> v == old(self).model()[k@],
    {
        proof {
            lemma_entries_map(self.entries@);
        }
        match self.find(k) {
            Some(i) => {
                let ghost s0 = self.entries@;
                let (_, v) = self.entries.remove(i);
                let ghost s1 = self.entries@;
                proof {
                    assert(keys_distinct(s1)) by {
                        assert forall|a: int, b: int|
                            0 <= a < s1.len() && 0 <= b < s1.len() && a != b implies #[trigger] s1[a].0@
                            != #[trigger] s1[b].0@ by {
                            let a0 = if a < i { a } else { a + 1 };
                            let b0 = if b < i { b } else { b + 1 };
                            assert(s1[a] == s0[a0] && s1[b] == s0[b0]);
                            assert(s0[a0].0@ != s0[b0].0@);
                        }
                    }
                    lemma_entries_map(s1);
                    let m = old(self).model().remove(k@);
                    assert forall|key: AccountModel| #[trigger] m.contains_key(key) implies entries_map(s1).contains_key(key) && entries_map(s1)[key] == m[key] by {
                        assert(old(self).model().contains_key(key));
                        let j = choose|j: int| 0 <= j < s0.len() && #[trigger] s0[j].0@ == key;
                        assert(entries_map(s0).contains_key(s0[j].0@));
                        assert(entries_map(s0)[key] == s0[j].1);
                        let j1 = if j < i { j } else { j - 1 };
                        assert(j != i);
                        assert(s1[j1] == s0[j]);
                        assert(entries_map(s1).contains_key(s1[j1].0@));
                    }
                    assert forall|key: AccountModel| #[trigger] entries_map(s1).contains_key(key) implies m.contains_key(key) by {
                        let j = choose|j: int| 0 <= j < s1.len() && #[trigger] s1[j].0@ == key;
                        let j0 = if j < i { j } else { j + 1 };
                        assert(s1[j] == s0[j0]);
                        assert(s0[j0].0@ != s0[i as int].0@);
                    }
                    assert(entries_map(s1) =~= m);
                }
                Some(v)
            },
            None => {
                proof {
                    assert(old(self).model().remove(k@) =~= old(self).model());
                }
                None
            },
        }
    }
}

} // verus!
