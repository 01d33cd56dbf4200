//! A small table keyed by account, kept as a list of entries with distinct
//! keys and read as a map.

use vstd::prelude::*;
use crate::account::AccountId;

verus! {

/// No key occurs twice.
pub open spec fn keys_unique<T>(s: Seq<(AccountId, T)>) -> bool {
    forall|i: int, j: int| 0 <= i < j < s.len() ==> (#[trigger] s[i]).0 != (#[trigger] s[j]).0
}

/// Some entry has the key.
pub open spec fn has_key<T>(s: Seq<(AccountId, T)>, key: AccountId) -> bool {
    exists|i: int| 0 <= i < s.len() && (#[trigger] s[i]).0 == key
}

/// A position at which the key stands, where it stands anywhere.
pub open spec fn position<T>(s: Seq<(AccountId, T)>, key: AccountId) -> int {
    choose|i: int| 0 <= i < s.len() && (#[trigger] s[i]).0 == key
}

/// The map that a list of entries stands for.
pub open spec fn as_map<T>(s: Seq<(AccountId, T)>) -> Map<AccountId, T> {
    Map::new(|key: AccountId| has_key(s, key), |key: AccountId| s[position(s, key)].1)
}

/// An entry of a list with distinct keys is the map's entry for its key.
pub proof fn lemma_entry<T>(s: Seq<(AccountId, T)>, i: int)
    requires
        keys_unique(s),
        0 <= i < s.len(),
    ensures
        has_key(s, s[i].0),
        position(s, s[i].0) == i,
        as_map(s).contains_key(s[i].0),
        as_map(s)[s[i].0] == s[i].1,
{
    let key = s[i].0;
    assert(has_key(s, key));
    let p = position(s, key);
    assert(0 <= p < s.len() && s[p].0 == key);
    if p < i {
        assert(s[p].0 != s[i].0);
    } else if i < p {
        assert(s[i].0 != s[p].0);
    }
}

/// Appending an entry under a new key inserts it into the map.
proof fn lemma_push<T>(s: Seq<(AccountId, T)>, key: AccountId, value: T)
    requires
        keys_unique(s),
        !has_key(s, key),
    ensures
        keys_unique(s.push((key, value))),
        as_map(s.push((key, value))) == as_map(s).insert(key, value),
{
    let t = s.push((key, value));
    assert forall|i: int, j: int| 0 <= i < j < t.len() implies (#[trigger] t[i]).0 != (
    #[trigger] t[j]).0 by {
        if j < s.len() {
            assert(s[i].0 != s[j].0);
        } else {
            assert(t[i] == s[i]);
            assert(s[i].0 != key);
        }
    }
    assert forall|k: AccountId| #[trigger] has_key(t, k) <==> (has_key(s, k) || k == key) by {
        if has_key(t, k) {
            let i = position(t, k);
            if i < s.len() {
                assert(s[i].0 == k);
            }
        }
        if has_key(s, k) {
            let i = position(s, k);
            assert(t[i].0 == k);
        }
        if k == key {
            assert(t[s.len() as int].0 == k);
        }
    }
    assert forall|k: AccountId| has_key(t, k) implies #[trigger] as_map(t)[k] == as_map(
        s,
    ).insert(key, value)[k] by {
        let i = position(t, k);
        lemma_entry(t, i);
        if i < s.len() {
            assert(t[i] == s[i]);
            lemma_entry(s, i);
        }
    }
    assert(as_map(t) =~= as_map(s).insert(key, value));
}

/// Replacing the value of an entry replaces it in the map.
proof fn lemma_update<T>(s: Seq<(AccountId, T)>, i: int, value: T)
    requires
        keys_unique(s),
        0 <= i < s.len(),
    ensures
        keys_unique(s.update(i, (s[i].0, value))),
        as_map(s.update(i, (s[i].0, value))) == as_map(s).insert(s[i].0, value),
{
    let key = s[i].0;
    let t = s.update(i, (key, value));
    assert forall|a: int, b: int| 0 <= a < b < t.len() implies (#[trigger] t[a]).0 != (
    #[trigger] t[b]).0 by {
        assert(t[a].0 == s[a].0);
        assert(t[b].0 == s[b].0);
    }
    assert forall|k: AccountId| #[trigger] has_key(t, k) <==> (has_key(s, k) || k == key) by {
        if has_key(t, k) {
            let a = position(t, k);
            assert(s[a].0 == k);
        }
        if has_key(s, k) {
            let a = position(s, k);
            assert(t[a].0 == k);
        }
        if k == key {
            assert(t[i].0 == k);
        }
    }
    assert forall|k: AccountId| has_key(t, k) implies #[trigger] as_map(t)[k] == as_map(
        s,
    ).insert(key, value)[k] by {
        let a = position(t, k);
        lemma_entry(t, a);
        if a != i {
            assert(t[a] == s[a]);
            lemma_entry(s, a);
            lemma_entry(s, i);
        }
    }
    assert(as_map(t) =~= as_map(s).insert(key, value));
}

/// Taking an entry out of the list takes its key out of the map.
proof fn lemma_remove<T>(s: Seq<(AccountId, T)>, i: int)
    requires
        keys_unique(s),
        0 <= i < s.len(),
    ensures
        keys_unique(s.remove(i)),
        as_map(s.remove(i)) == as_map(s).remove(s[i].0),
{
    let key = s[i].0;
    let t = s.remove(i);
    assert forall|a: int, b: int| 0 <= a < b < t.len() implies (#[trigger] t[a]).0 != (
    #[trigger] t[b]).0 by {
        let a0 = if a < i { a } else { a + 1 };
        let b0 = if b < i { b } else { b + 1 };
        assert(t[a] == s[a0]);
        assert(t[b] == s[b0]);
        assert(s[a0].0 != s[b0].0);
    }
    assert forall|k: AccountId| #[trigger] has_key(t, k) <==> (has_key(s, k) && k != key) by {
        if has_key(t, k) {
            let a = position(t, k);
            let a0 = if a < i { a } else { a + 1 };
            assert(t[a] == s[a0]);
            assert(s[a0].0 == k);
            if a0 < i {
                assert(s[a0].0 != s[i].0);
            } else {
                assert(s[i].0 != s[a0].0);
            }
        }
        if has_key(s, k) && k != key {
            let a0 = position(s, k);
            let a = if a0 < i { a0 } else { a0 - 1 };
            assert(t[a] == s[a0]);
            assert(t[a].0 == k);
        }
    }
    assert forall|k: AccountId| has_key(t, k) implies #[trigger] as_map(t)[k] == as_map(s).remove(
        key,
    )[k] by {
        let a = position(t, k);
        let a0 = if a < i { a } else { a + 1 };
        assert(t[a] == s[a0]);
        lemma_entry(t, a);
        lemma_entry(s, a0);
    }
    assert(as_map(t) =~= as_map(s).remove(key));
}

/// A table from accounts to values.
pub struct AccountMap<T> {
    entries: Vec<(AccountId, T)>,
}

impl<T: Copy> View for AccountMap<T> {
    type V = Map<AccountId, T>;

    closed spec fn view(&self) -> Map<AccountId, T> {
        as_map(self.entries@)
    }
}

impl<T: Copy> AccountMap<T> {
    /// The table holds each key once.
    pub closed spec fn wf(&self) -> bool {
        keys_unique(self.entries@)
    }

    /// The empty table.
    pub fn new() -> (m: Self)
        ensures
            m.wf(),
            m@ == Map::<AccountId, T>::empty(),
    {
        let m = AccountMap { entries: Vec::new() };
        assert(m@ =~= Map::<AccountId, T>::empty());
        m
    }

    fn find(&self, key: AccountId) -> (r: Option<usize>)
        requires
            self.wf(),
        ensures
            match r {
                Some(i) => i < self.entries@.len() && self.entries@[i as int].0 == key,
                None => !has_key(self.entries@, key),
            },
    {
        let mut i: usize = 0;
        while i < self.entries.len()
            invariant
                i <= self.entries@.len(),
                forall|j: int| 0 <= j < i ==> (#[trigger] self.entries@[j]).0 != key,
            decreases self.entries@.len() - i,
        {
            if self.entries[i].0 == key {
                return Some(i);
            }
            i = i + 1;
        }
        None
    }

    /// Whether the table has an entry for the key.
    pub fn contains(&self, key: AccountId) -> (r: bool)
        requires
            self.wf(),
        ensures
            r == self@.contains_key(key),
    {
        self.find(key).is_some()
    }

    /// The value held for the key, if any.
    pub fn get(&self, key: AccountId) -> (r: Option<T>)
        requires
            self.wf(),
        ensures
            r == (if self@.contains_key(key) {
                Some(self@[key])
            } else {
                None
            }),
    {
        match self.find(key) {
            Some(i) => {
                proof {
                    lemma_entry(self.entries@, i as int);
                }
                Some(self.entries[i].1)
            },
            None => None,
        }
    }

    /// Sets the value for the key, whether or not it had one.
    pub fn insert(&mut self, key: AccountId, value: T)
        requires
            old(self).wf(),
        ensures
            final(self).wf(),
            final(self)@ == old(self)@.insert(key, value),
    {
        match self.find(key) {
            Some(i) => {
                proof {
                    lemma_update(self.entries@, i as int, value);
                }
                self.entries.set(i, (key, value));
            },
            None => {
                proof {
                    lemma_push(self.entries@, key, value);
                }
                self.entries.push((key, value));
            },
        }
    }

    /// Takes the key's entry out and returns its value, if it had one.
    pub fn remove(&mut self, key: AccountId) -> (r: Option<T>)
        requires
            old(self).wf(),
        ensures
            final(self).wf(),
            final(self)@ == old(self)@.remove(key),
            r == (if old(self)@.contains_key(key) {
                Some(old(self)@[key])
            } else {
                None
            }),
    {
        match self.find(key) {
            Some(i) => {
                proof {
                    lemma_entry(self.entries@, i as int);
                    lemma_remove(self.entries@, i as int);
                }
                let entry = self.entries.remove(i);
                Some(entry.1)
            },
            None => {
                assert(self@ =~= self@.remove(key));
                None
            },
        }
    }

    /// The table that a list of entries stands for, where no key occurs
    /// twice in it.
    pub fn from_entries(entries: Vec<(AccountId, T)>) -> (r: Option<Self>)
        ensures
            r is Some <==> keys_unique(entries@),
            r is Some ==> r->0.wf() && r->0@ == as_map(entries@),
    {
        let mut i: usize = 0;
        while i < entries.len()
            invariant
                i <= entries@.len(),
                forall|a: int, b: int|
                    0 <= a < b < i ==> (#[trigger] entries@[a]).0 != (#[trigger] entries@[b]).0,
            decreases entries@.len() - i,
        {
            let mut j: usize = 0;
            while j < i
                invariant
                    j <= i < entries@.len(),
                    forall|a: int| 0 <= a < j ==> (#[trigger] entries@[a]).0 != entries@[i as int].0,
                decreases i - j,
            {
                if entries[j].0 == entries[i].0 {
                    return None;
                }
                j = j + 1;
            }
            i = i + 1;
        }
        Some(AccountMap { entries })
    }

    /// The entries, copied out: a list with each key once that stands for
    /// the table.
    pub fn entries(&self) -> (out: Vec<(AccountId, T)>)
        requires
            self.wf(),
        ensures
            keys_unique(out@),
            as_map(out@) == self@,
    {
        let mut out: Vec<(AccountId, T)> = Vec::new();
        let mut i: usize = 0;
        while i < self.entries.len()
            invariant
                i <= self.entries@.len(),
                out@ == self.entries@.subrange(0, i as int),
            decreases self.entries@.len() - i,
        {
            out.push(self.entries[i]);
            assert(out@ =~= self.entries@.subrange(0, i + 1));
            i = i + 1;
        }
        assert(out@ =~= self.entries@);
        out
    }
}

} // verus!
