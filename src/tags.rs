//! The tags of an OpenStreetMap way: a dictionary from keys to values.

use vstd::prelude::*;

verus! {

/// Whether the tags `t` set key `k` to exactly `v`.
pub open spec fn has_tag(t: Map<Seq<char>, Seq<char>>, k: Seq<char>, v: Seq<char>) -> bool {
    t.contains_key(k) && t[k] == v
}

/// The mathematical dictionary that a list of entries with distinct keys
/// stands for.
pub open spec fn entries_map(e: Seq<(String, String)>) -> Map<Seq<char>, Seq<char>>
    decreases e.len(),
{
    if e.len() == 0 {
        Map::empty()
    } else {
        entries_map(e.drop_last()).insert(e.last().0@, e.last().1@)
    }
}

pub open spec fn keys_distinct(e: Seq<(String, String)>) -> bool {
    forall|i: int, j: int|
        0 <= i < e.len() && 0 <= j < e.len() && i != j
            ==> (#[trigger] e[i]).0@ != (#[trigger] e[j]).0@
}

/// The value of an entry is what its key maps to.
proof fn lemma_entry_lookup(e: Seq<(String, String)>, i: int)
    requires
        keys_distinct(e),
        0 <= i < e.len(),
    ensures
        entries_map(e).contains_key(e[i].0@),
        entries_map(e)[e[i].0@] == e[i].1@,
    decreases e.len(),
{
    if i < e.len() - 1 {
        assert(e.drop_last()[i] == e[i]);
        assert(keys_distinct(e.drop_last()));
        lemma_entry_lookup(e.drop_last(), i);
        assert(e[i].0@ != e[e.len() - 1].0@);
    }
}

/// A key held by no entry is absent.
proof fn lemma_missing_key(e: Seq<(String, String)>, k: Seq<char>)
    requires
        forall|j: int| 0 <= j < e.len() ==> (#[trigger] e[j]).0@ != k,
    ensures
        !entries_map(e).contains_key(k),
    decreases e.len(),
{
    if e.len() > 0 {
        assert forall|j: int| 0 <= j < e.drop_last().len() implies (#[trigger] e.drop_last()[j]).0@
            != k by {
            assert(e.drop_last()[j] == e[j]);
        }
        lemma_missing_key(e.drop_last(), k);
    }
}

/// Replacing the value of an entry updates what its key maps to.
proof fn lemma_entry_update(e: Seq<(String, String)>, i: int, v: String)
    requires
        keys_distinct(e),
        0 <= i < e.len(),
    ensures
        entries_map(e.update(i, (e[i].0, v))) == entries_map(e).insert(e[i].0@, v@),
    decreases e.len(),
{
    let u = e.update(i, (e[i].0, v));
    if i == e.len() - 1 {
        assert(u.drop_last() =~= e.drop_last());
        assert(entries_map(e).insert(e[i].0@, v@)
            =~= entries_map(e.drop_last()).insert(e[i].0@, v@));
    } else {
        assert(u.drop_last() =~= e.drop_last().update(i, (e[i].0, v)));
        assert(e.drop_last()[i] == e[i]);
        assert(keys_distinct(e.drop_last()));
        lemma_entry_update(e.drop_last(), i, v);
        assert(e[i].0@ != e.last().0@);
        assert(entries_map(u) =~= entries_map(e).insert(e[i].0@, v@));
    }
}

/// The tags of a way. Each key occurs at most once.
#[derive(Debug)]
pub struct Tags {
    entries: Vec<(String, String)>,
}

impl View for Tags {
    type V = Map<Seq<char>, Seq<char>>;

    closed spec fn view(&self) -> Map<Seq<char>, Seq<char>> {
        entries_map(self.entries@)
    }
}

impl Tags {
    /// Each key occurs in one entry at most.
    pub closed spec fn wf(&self) -> bool {
        keys_distinct(self.entries@)
    }

    /// No tags at all.
    pub fn new() -> (r: Tags)
        ensures
            r.wf(),
            r@ == Map::<Seq<char>, Seq<char>>::empty(),
    {
        Tags { entries: Vec::new() }
    }

    /// A separate copy of these tags.
    pub fn copied(&self) -> (r: Tags)
        requires
            self.wf(),
        ensures
            r.wf(),
            r@ == self@,
    {
        let mut entries: Vec<(String, String)> = Vec::new();
        let mut i: usize = 0;
        while i < self.entries.len()
            invariant
                i <= self.entries@.len(),
                entries@ == self.entries@.take(i as int),
            decreases self.entries@.len() - i,
        {
            let k = self.entries[i].0.clone();
            let v = self.entries[i].1.clone();
            entries.push((k, v));
            assert(entries@ =~= self.entries@.take(i + 1));
            i += 1;
        }
        assert(entries@ =~= self.entries@);
        Tags { entries }
    }

    /// The position of the entry for `key`, if there is one.
    fn find(&self, key: &String) -> (r: Option<usize>)
        ensures
            r matches Some(i) ==> i < self.entries@.len() && self.entries@[i as int].0@ == key@,
            r is None ==> forall|j: int|
                0 <= j < self.entries@.len() ==> (#[trigger] self.entries@[j]).0@ != key@,
    {
        let mut i: usize = 0;
        while i < self.entries.len()
            invariant
                i <= self.entries@.len(),
                forall|j: int| 0 <= j < i ==> (#[trigger] self.entries@[j]).0@ != key@,
            decreases self.entries@.len() - i,
        {
            if self.entries[i].0 == *key {
                return Some(i);
            }
            i += 1;
        }
        None
    }

    /// The value of `k`, if it is set.
    pub fn get(&self, k: &str) -> (r: Option<&String>)
        requires
            self.wf(),
        ensures
            r is Some <==> self@.contains_key(k@),
            r matches Some(v) ==> v@ == self@[k@],
    {
        let key = k.to_owned();
        match self.find(&key) {
            Some(i) => {
                proof {
                    lemma_entry_lookup(self.entries@, i as int);
                }
                Some(&self.entries[i].1)
            },
            None => {
                proof {
                    lemma_missing_key(self.entries@, k@);
                }
                None
            },
        }
    }

    /// Whether `k` is set.
    pub fn contains_key(&self, k: &str) -> (r: bool)
        requires
            self.wf(),
        ensures
            r == self@.contains_key(k@),
    {
        self.get(k).is_some()
    }

    /// Whether `k` is set to exactly `v`.
    pub fn is(&self, k: &str, v: &str) -> (r: bool)
        requires
            self.wf(),
        ensures
            r == has_tag(self@, k@, v@),
    {
        match self.get(k) {
            Some(x) => {
                let want = v.to_owned();
                *x == want
            },
            None => false,
        }
    }

    /// Sets `k` to `v`, replacing any earlier value.
    pub fn insert(&mut self, k: &str, v: &str)
        requires
            old(self).wf(),
        ensures
            final(self).wf(),
            final(self)@ == old(self)@.insert(k@, v@),
    {
        let key = k.to_owned();
        let value = v.to_owned();
        match self.find(&key) {
            Some(i) => {
                proof {
                    lemma_entry_update(self.entries@, i as int, value);
                }
                let ghost e = self.entries@;
                let old_key = self.entries[i].0.clone();
                self.entries.set(i, (old_key, value));
                assert(self.entries@ == e.update(i as int, (e[i as int].0, value)));
            },
            None => {
                let ghost e = self.entries@;
                self.entries.push((key, value));
                proof {
                    assert(self.entries@.drop_last() =~= e);
                    assert(keys_distinct(self.entries@)) by {
                        assert forall|a: int, b: int|
                            0 <= a < self.entries@.len() && 0 <= b < self.entries@.len() && a
                                != b implies (#[trigger] self.entries@[a]).0@ != (
                        #[trigger] self.entries@[b]).0@ by {
                            if a < e.len() && b < e.len() {
                                assert(self.entries@[a] == e[a]);
                                assert(self.entries@[b] == e[b]);
                            } else if a < e.len() {
                                assert(self.entries@[a] == e[a]);
                            } else {
                                assert(self.entries@[b] == e[b]);
                            }
                        }
                    }
                }
            },
        }
    }
}

} // verus!
