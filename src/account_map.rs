use vstd::prelude::*;

use crate::account::AccountId;

verus! {

/// The map that a sequence of entries denotes: a later entry for a key overrides an
/// earlier one.
pub open spec fn entries_map<V>(s: Seq<(AccountId, V)>) -> Map<AccountId, V>
    decreases s.len(),
{
    if s.len() == 0 {
        Map::empty()
    } else {
        entries_map(s.drop_last()).insert(s.last().0, s.last().1)
    }
}

/// No account occurs twice among the entries.
pub open spec fn unique_keys<V>(s: Seq<(AccountId, V)>) -> bool {
    forall|i: int, j: int| 0 <= i < s.len() && 0 <= j < s.len() && i != j ==> s[i].0 != s[j].0
}

/// An account has an entry in the map exactly when some entry carries it.
pub proof fn lemma_entries_map_dom<V>(s: Seq<(AccountId, V)>, a: AccountId)
    ensures
        entries_map(s).dom().contains(a) <==> exists|i: int| 0 <= i < s.len() && s[i].0 == a,
    decreases s.len(),
{
    if s.len() > 0 {
        lemma_entries_map_dom(s.drop_last(), a);
        if entries_map(s.drop_last()).dom().contains(a) {
            let i = choose|i: int| 0 <= i < s.drop_last().len() && s.drop_last()[i].0 == a;
            assert(s[i].0 == a);
        }
        if exists|i: int| 0 <= i < s.len() && s[i].0 == a {
            let i = choose|i: int| 0 <= i < s.len() && s[i].0 == a;
            if i < s.len() - 1 {
                assert(s.drop_last()[i].0 == a);
            }
        }
    }
}

/// With distinct keys, the map holds each entry's value.
pub proof fn lemma_entries_map_at<V>(s: Seq<(AccountId, V)>, i: int)
    requires
        unique_keys(s),
        0 <= i < s.len(),
    ensures
        entries_map(s).dom().contains(s[i].0),
        entries_map(s)[s[i].0] == s[i].1,
    decreases s.len(),
{
    if i < s.len() - 1 {
        lemma_entries_map_at(s.drop_last(), i);
    }
}

/// Replacing an entry's value replaces the key's value in the map.
pub proof fn lemma_entries_map_update<V>(s: Seq<(AccountId, V)>, k: int, v: V)
    requires
        unique_keys(s),
        0 <= k < s.len(),
    ensures
        entries_map(s.update(k, (s[k].0, v))) == entries_map(s).insert(s[k].0, v),
    decreases s.len(),
{
    let t = s.update(k, (s[k].0, v));
    if k == s.len() - 1 {
        assert(t.drop_last() =~= s.drop_last());
        assert(entries_map(t) =~= entries_map(s).insert(s[k].0, v));
    } else {
        assert(t.drop_last() =~= s.drop_last().update(k, (s[k].0, v)));
        lemma_entries_map_update(s.drop_last(), k, v);
        assert(s[k].0 != s.last().0);
        assert(entries_map(t) =~= entries_map(s).insert(s[k].0, v));
    }
}

/// Dropping an entry drops its key from the map, and keys stay distinct.
pub proof fn lemma_entries_map_remove<V>(s: Seq<(AccountId, V)>, k: int)
    requires
        unique_keys(s),
        0 <= k < s.len(),
    ensures
        entries_map(s.remove(k)) == entries_map(s).remove(s[k].0),
        unique_keys(s.remove(k)),
    decreases s.len(),
{
    let t = s.remove(k);
    assert(unique_keys(t)) by {
        assert forall|i: int, j: int| 0 <= i < t.len() && 0 <= j < t.len() && i != j implies t[i].0
            != t[j].0 by {
            let ii = if i < k { i } else { i + 1 };
            let jj = if j < k { j } else { j + 1 };
            assert(t[i] == s[ii] && t[j] == s[jj]);
        }
    }
    if k == s.len() - 1 {
        assert(t =~= s.drop_last());
        lemma_entries_map_dom(s.drop_last(), s[k].0);
        assert(entries_map(t) =~= entries_map(s).remove(s[k].0));
    } else {
        assert(t.drop_last() =~= s.drop_last().remove(k));
        assert(t.last() == s.last());
        lemma_entries_map_remove(s.drop_last(), k);
        assert(s[k].0 != s.last().0);
        assert(entries_map(t) =~= entries_map(s).remove(s[k].0));
    }
}

/// A finite map from accounts to values, kept as a list of entries with distinct keys.
pub struct AccountMap<V> {
    entries: Vec<(AccountId, V)>,
}

impl<V> View for AccountMap<V> {
    type V = Map<AccountId, V>;

    closed spec fn view(&self) -> Map<AccountId, V> {
        entries_map(self.entries@)
    }
}

impl<V> AccountMap<V> {
    /// Distinct keys: each account has at most one entry.
    pub closed spec fn wf(&self) -> bool {
        unique_keys(self.entries@)
    }

    pub fn new() -> (r: Self)
        ensures
            r.wf(),
            r@ == Map::<AccountId, V>::empty(),
    {
        AccountMap { entries: Vec::new() }
    }

    /// The position of the entry for `a`, if there is one.
    fn find(&self, a: &AccountId) -> (r: Option<usize>)
        requires
            self.wf(),
        ensures
            r is None ==> !self@.dom().contains(*a),
            r matches Some(i) ==> i < self.entries@.len() && self.entries@[i as int].0 == *a,
    {
        let mut i: usize = 0;
        while i < self.entries.len()
            invariant
                i <= self.entries@.len(),
                forall|j: int| 0 <= j < i ==> self.entries@[j].0 != *a,
            decreases self.entries@.len() - i,
        {
            if self.entries[i].0 == *a {
                return Some(i);
            }
            i = i + 1;
        }
        proof {
            lemma_entries_map_dom(self.entries@, *a);
        }
        None
    }

    pub fn contains_key(&self, a: &AccountId) -> (r: bool)
        requires
            self.wf(),
        ensures
            r == self@.dom().contains(*a),
    {
        match self.find(a) {
            Some(i) => {
                proof {
                    lemma_entries_map_at(self.entries@, i as int);
                }
                true
            },
            None => false,
        }
    }

    pub fn get(&self, a: &AccountId) -> (r: Option<&V>)
        requires
            self.wf(),
        ensures
            r is None <==> !self@.dom().contains(*a),
            r matches Some(v) ==> *v == self@[*a],
    {
        match self.find(a) {
            Some(i) => {
                proof {
                    lemma_entries_map_at(self.entries@, i as int);
                }
                Some(&self.entries[i].1)
            },
            None => None,
        }
    }

    pub fn insert(&mut self, a: AccountId, v: V)
        requires
            old(self).wf(),
        ensures
            final(self).wf(),
            final(self)@ == old(self)@.insert(a, v),
    {
        match self.find(&a) {
            Some(i) => {
                proof {
                    lemma_entries_map_update(self.entries@, i as int, v);
                }
                self.entries.set(i, (a, v));
            },
            None => {
                proof {
                    lemma_entries_map_dom(self.entries@, a);
                }
                let ghost before = self.entries@;
                self.entries.push((a, v));
                assert(self.entries@.drop_last() =~= before);
                assert forall|j: int| 0 <= j < before.len() implies before[j].0 != a by {
                    if before[j].0 == a {
                        assert(entries_map(before).dom().contains(a));
                    }
                }
            },
        }
    }

    pub fn remove(&mut self, a: &AccountId)
        requires
            old(self).wf(),
        ensures
            final(self).wf(),
            final(self)@ == old(self)@.remove(*a),
    {
        match self.find(a) {
            Some(i) => {
                proof {
                    lemma_entries_map_remove(self.entries@, i as int);
                }
                self.entries.remove(i);
            },
            None => {
                assert(self@.remove(*a) =~= self@);
            },
        }
    }

    pub fn len(&self) -> (r: usize)
        requires
            self.wf(),
        ensures
            r == self@.len(),
    {
        proof {
            self.lemma_len();
        }
        self.entries.len()
    }

    proof fn lemma_len(&self)
        requires
            self.wf(),
        ensures
            self@.dom().finite(),
            self@.len() == self.entries@.len(),
        decreases self.entries@.len(),
    {
        lemma_entries_len(self.entries@);
    }
}

proof fn lemma_entries_len<V>(s: Seq<(AccountId, V)>)
    requires
        unique_keys(s),
    ensures
        entries_map(s).dom().finite(),
        entries_map(s).len() == s.len(),
    decreases s.len(),
{
    if s.len() > 0 {
        let t = s.drop_last();
        assert(unique_keys(t));
        lemma_entries_len(t);
        lemma_entries_map_dom(t, s.last().0);
        assert(!entries_map(t).dom().contains(s.last().0)) by {
            if entries_map(t).dom().contains(s.last().0) {
                let i = choose|i: int| 0 <= i < t.len() && t[i].0 == s.last().0;
                assert(s[i].0 == s[s.len() - 1].0);
            }
        }
    }
}

impl<V: Copy> AccountMap<V> {
    /// An independent copy of the map.
    pub fn duplicate(&self) -> (r: Self)
        requires
            self.wf(),
        ensures
            r.wf(),
            r@ == self@,
    {
        let mut entries: Vec<(AccountId, V)> = Vec::new();
        let mut i: usize = 0;
        while i < self.entries.len()
            invariant
                i <= self.entries@.len(),
                entries@ == self.entries@.subrange(0, i as int),
            decreases self.entries@.len() - i,
        {
            let e = self.entries[i];
            entries.push(e);
            i = i + 1;
        }
        assert(entries@ =~= self.entries@);
        AccountMap { entries }
    }
}

} // verus!
