//! A small keyed store with string keys, used for the vehicle state's two
//! tables and for the switchboard's per-board records.
//!
//! Entries are kept in a vector with pairwise-distinct keys; the abstract
//! view is the finite map from key characters to stored value.
use vstd::map::*;
use vstd::prelude::*;

verus! {

/// The abstract contents of an entry vector: later entries win, though the
/// well-formedness invariant keeps keys distinct so the order never matters.
pub open spec fn entries_as_map<V>(s: Seq<(String, V)>) -> Map<Seq<char>, V>
    decreases s.len(),
{
    if s.len() == 0 {
        Map::empty()
    } else {
        entries_as_map(s.drop_last()).insert(s.last().0@, s.last().1)
    }
}

/// Pairwise-distinct keys.
pub open spec fn keys_distinct<V>(s: Seq<(String, V)>) -> bool {
    forall|i: int, j: int|
        0 <= i < j < s.len() ==> (#[trigger] s[i]).0@ != (#[trigger] s[j]).0@
}

/// A map from `String` keys to values, backed by a vector of entries.
pub struct StringMap<V> {
    entries: Vec<(String, V)>,
}

impl<V> View for StringMap<V> {
    type V = Map<Seq<char>, V>;

    closed spec fn view(&self) -> Map<Seq<char>, V> {
        entries_as_map(self.entries@)
    }
}

proof fn lemma_as_map_contains_at<V>(s: Seq<(String, V)>, i: int)
    requires
        0 <= i < s.len(),
        keys_distinct(s),
    ensures
        entries_as_map(s).contains_key(s[i].0@),
        entries_as_map(s)[s[i].0@] == s[i].1,
    decreases s.len(),
{
    if i < s.len() - 1 {
        assert(s.drop_last()[i] == s[i]);
        assert(keys_distinct(s.drop_last()));
        lemma_as_map_contains_at(s.drop_last(), i);
        assert(s[i].0@ != s.last().0@);
    }
}

proof fn lemma_as_map_absent<V>(s: Seq<(String, V)>, k: Seq<char>)
    requires
        forall|i: int| 0 <= i < s.len() ==> (#[trigger] s[i]).0@ != k,
    ensures
        !entries_as_map(s).contains_key(k),
    decreases s.len(),
{
    if s.len() > 0 {
        assert(forall|i: int|
            0 <= i < s.drop_last().len() ==> (#[trigger] s.drop_last()[i]).0@ != k);
        lemma_as_map_absent(s.drop_last(), k);
        assert(s.last().0@ != k);
    }
}

proof fn lemma_as_map_update<V>(s: Seq<(String, V)>, i: int, kv: (String, V))
    requires
        0 <= i < s.len(),
        keys_distinct(s),
        s[i].0@ == kv.0@,
    ensures
        entries_as_map(s.update(i, kv)) == entries_as_map(s).insert(kv.0@, kv.1),
    decreases s.len(),
{
    let t = s.update(i, kv);
    if i == s.len() - 1 {
        assert(t.drop_last() =~= s.drop_last());
        assert(t.last() == kv);
        assert(entries_as_map(t) =~= entries_as_map(s).insert(kv.0@, kv.1));
    } else {
        assert(t.drop_last() =~= s.drop_last().update(i, kv));
        assert(s.drop_last()[i] == s[i]);
        assert(keys_distinct(s.drop_last()));
        lemma_as_map_update(s.drop_last(), i, kv);
        assert(t.last() == s.last());
        assert(s[i].0@ != s.last().0@);
        assert(entries_as_map(t) =~= entries_as_map(s).insert(kv.0@, kv.1));
    }
}

proof fn lemma_as_map_remove<V>(s: Seq<(String, V)>, i: int)
    requires
        0 <= i < s.len(),
        keys_distinct(s),
    ensures
        entries_as_map(s.remove(i)) == entries_as_map(s).remove(s[i].0@),
    decreases s.len(),
{
    let t = s.remove(i);
    if i == s.len() - 1 {
        assert(t =~= s.drop_last());
        assert(forall|j: int|
            0 <= j < s.drop_last().len() ==> (#[trigger] s.drop_last()[j]).0@ != s[i].0@);
        lemma_as_map_absent(s.drop_last(), s[i].0@);
        assert(entries_as_map(t) =~= entries_as_map(s).remove(s[i].0@));
    } else {
        assert(t.drop_last() =~= s.drop_last().remove(i));
        assert(s.drop_last()[i] == s[i]);
        assert(keys_distinct(s.drop_last()));
        lemma_as_map_remove(s.drop_last(), i);
        assert(t.last() == s.last());
        assert(s[i].0@ != s.last().0@);
        assert(entries_as_map(t) =~= entries_as_map(s).remove(s[i].0@));
    }
}

impl<V> StringMap<V> {
    /// Well-formedness: keys are pairwise distinct.
    pub closed spec fn wf(&self) -> bool {
        keys_distinct(self.entries@)
    }

    pub fn new() -> (r: StringMap<V>)
        ensures
            r.wf(),
            r@ == Map::<Seq<char>, V>::empty(),
    {
        StringMap { entries: Vec::new() }
    }

    /// Find the index holding the given key, if any.
    fn index_of(&self, key: &String) -> (r: Option<usize>)
        requires
            self.wf(),
        ensures
            match r {
                Some(i) => i < self.entries@.len() && self.entries@[i as int].0@ == key@,
                None => !self@.contains_key(key@) && forall|j: int|
                    0 <= j < self.entries@.len() ==> (#[trigger] self.entries@[j]).0@ != key@,
            },
    {
        let mut i: usize = 0;
        while i < self.entries.len()
            invariant
                i <= self.entries@.len(),
                self.wf(),
                forall|j: int| 0 <= j < i ==> (#[trigger] self.entries@[j]).0@ != key@,
            decreases self.entries@.len() - i,
        {
            if self.entries[i].0 == *key {
                return Some(i);
            }
            i = i + 1;
        }
        proof {
            lemma_as_map_absent(self.entries@, key@);
        }
        None
    }

    /// Look up a key.
    pub fn get(&self, key: &String) -> (r: Option<&V>)
        requires
            self.wf(),
        ensures
            match r {
                Some(v) => self@.contains_key(key@) && self@[key@] == *v,
                None => !self@.contains_key(key@),
            },
    {
        match self.index_of(key) {
            Some(i) => {
                proof {
                    lemma_as_map_contains_at(self.entries@, i as int);
                }
                Some(&self.entries[i].1)
            },
            None => None,
        }
    }

    /// Whether a key is present.
    pub fn contains_key(&self, key: &String) -> (r: bool)
        requires
            self.wf(),
        ensures
            r == self@.contains_key(key@),
    {
        self.get(key).is_some()
    }

    /// Insert a key, replacing any existing entry for it.
    pub fn insert(&mut self, key: String, value: V)
        requires
            old(self).wf(),
        ensures
            final(self).wf(),
            final(self)@ == old(self)@.insert(key@, value),
    {
        match self.index_of(&key) {
            Some(i) => {
                proof {
                    lemma_as_map_update(self.entries@, i as int, (key, value));
                }
                let ghost before = self.entries@;
                self.entries.set(i, (key, value));
                proof {
                    assert(forall|a: int, b: int|
                        0 <= a < b < self.entries@.len()
                            ==> (#[trigger] self.entries@[a]).0@
                            != (#[trigger] self.entries@[b]).0@) by {
                        assert(forall|a: int|
                            0 <= a < self.entries@.len() && a != i
                                ==> (#[trigger] self.entries@[a]).0@ == before[a].0@);
                        assert(self.entries@[i as int].0@ == before[i as int].0@);
                    }
                }
            },
            None => {
                proof {
                    lemma_as_map_absent(self.entries@, key@);
                }
                self.entries.push((key, value));
                proof {
                    assert(self.entries@.drop_last() =~= old(self).entries@);
                }
            },
        }
    }

    /// Remove a key, if present.
    pub fn remove(&mut self, key: &String)
        requires
            old(self).wf(),
        ensures
            final(self).wf(),
            final(self)@ == old(self)@.remove(key@),
    {
        match self.index_of(key) {
            Some(i) => {
                proof {
                    lemma_as_map_remove(self.entries@, i as int);
                    assert(forall|a: int, b: int|
                        0 <= a < b < self.entries@.remove(i as int).len()
                            ==> (#[trigger] self.entries@.remove(i as int)[a]).0@
                            != (#[trigger] self.entries@.remove(i as int)[b]).0@);
                }
                self.entries.remove(i);
            },
            None => {
                proof {
                    assert(old(self)@ =~= old(self)@.remove(key@));
                }
            },
        }
    }

    /// Borrow the underlying entries; each pair is bound in the view.
    pub fn pairs(&self) -> (r: &Vec<(String, V)>)
        requires
            self.wf(),
        ensures
            keys_distinct(r@),
            forall|i: int|
                0 <= i < r@.len() ==> self@.contains_key((#[trigger] r@[i]).0@)
                    && self@[r@[i].0@] == r@[i].1,
            forall|k: Seq<char>|
                self@.contains_key(k) ==> exists|i: int|
                    0 <= i < r@.len() && (#[trigger] r@[i]).0@ == k,
    {
        proof {
            assert forall|i: int| 0 <= i < self.entries@.len() implies
                self@.contains_key((#[trigger] self.entries@[i]).0@)
                    && self@[self.entries@[i].0@] == self.entries@[i].1 by {
                lemma_as_map_contains_at(self.entries@, i);
            }
            assert forall|k: Seq<char>| self@.contains_key(k) implies exists|i: int|
                0 <= i < self.entries@.len() && (#[trigger] self.entries@[i]).0@ == k by {
                if forall|i: int|
                    0 <= i < self.entries@.len() ==> (#[trigger] self.entries@[i]).0@ != k {
                    lemma_as_map_absent(self.entries@, k);
                }
            }
        }
        &self.entries
    }
}

} // verus!
