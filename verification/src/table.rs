//! An association table from string keys to string values: the in-memory
//! model of a directory of note files, and of the documents of a search
//! index.

use vstd::prelude::*;
use crate::string_utils::str_eq;

verus! {

/// The map denoted by a sequence of key-value entries; a later entry
/// overrides an earlier one with the same key.
pub open spec fn entries_map(s: Seq<(String, String)>) -> Map<Seq<char>, Seq<char>>
    decreases s.len(),
{
    if s.len() == 0 {
        Map::empty()
    } else {
        entries_map(s.drop_last()).insert(s.last().0@, s.last().1@)
    }
}

/// No two entries share a key.
pub open spec fn distinct_keys(s: Seq<(String, String)>) -> bool {
    forall|i: int, j: int|
        0 <= i < j < s.len() ==> (#[trigger] s[i]).0@ != (#[trigger] s[j]).0@
}

/// A key is in the map exactly when some entry holds it.
proof fn lemma_entries_map_key(s: Seq<(String, String)>, k: Seq<char>)
    ensures
        entries_map(s).contains_key(k) <==> exists|i: int|
            0 <= i < s.len() && (#[trigger] s[i]).0@ == k,
    decreases s.len(),
{
    if s.len() > 0 {
        lemma_entries_map_key(s.drop_last(), k);
        if s.last().0@ == k {
            assert((s[s.len() - 1]).0@ == k);
        } else {
            assert forall|i: int| 0 <= i < s.len() && (#[trigger] s[i]).0@ == k implies
                entries_map(s).contains_key(k) by {
                assert(i < s.len() - 1);
                assert(s.drop_last()[i] == s[i]);
            }
            if entries_map(s).contains_key(k) {
                let i = choose|i: int| 0 <= i < s.drop_last().len() && (#[trigger] s.drop_last()[i]).0@
                    == k;
                assert(s[i] == s.drop_last()[i]);
            }
        }
    }
}

/// In a table with distinct keys, the entry at `i` gives the map's value
/// at its key.
proof fn lemma_entries_map_at(s: Seq<(String, String)>, i: int)
    requires
        distinct_keys(s),
        0 <= i < s.len(),
    ensures
        entries_map(s).contains_key(s[i].0@),
        entries_map(s)[s[i].0@] == s[i].1@,
    decreases s.len(),
{
    if i < s.len() - 1 {
        assert forall|x: int, y: int|
            0 <= x < y < s.drop_last().len() implies (#[trigger] s.drop_last()[x]).0@ != (
        #[trigger] s.drop_last()[y]).0@ by {
            assert(s.drop_last()[x] == s[x]);
            assert(s.drop_last()[y] == s[y]);
        }
        lemma_entries_map_at(s.drop_last(), i);
        assert(s.drop_last()[i] == s[i]);
        assert(s[i].0@ != s[s.len() - 1].0@);
    }
}

/// Appending an entry inserts its pair into the map.
proof fn lemma_entries_map_push(s: Seq<(String, String)>, e: (String, String))
    ensures
        entries_map(s.push(e)) == entries_map(s).insert(e.0@, e.1@),
{
    assert(s.push(e).drop_last() =~= s);
    assert(s.push(e).last() == e);
}

/// Removing the entry at `i` removes its key from the map, when keys are
/// distinct.
proof fn lemma_entries_map_remove(s: Seq<(String, String)>, i: int)
    requires
        distinct_keys(s),
        0 <= i < s.len(),
    ensures
        entries_map(s.remove(i)) == entries_map(s).remove(s[i].0@),
    decreases s.len(),
{
    let k = s[i].0@;
    assert forall|x: int, y: int|
        0 <= x < y < s.drop_last().len() implies (#[trigger] s.drop_last()[x]).0@ != (
    #[trigger] s.drop_last()[y]).0@ by {
        assert(s.drop_last()[x] == s[x]);
        assert(s.drop_last()[y] == s[y]);
    }
    if i == s.len() - 1 {
        assert(s.remove(i) =~= s.drop_last());
        lemma_entries_map_key(s.drop_last(), k);
        if entries_map(s.drop_last()).contains_key(k) {
            let j = choose|j: int|
                0 <= j < s.drop_last().len() && (#[trigger] s.drop_last()[j]).0@ == k;
            assert(s[j] == s.drop_last()[j]);
        }
        assert(entries_map(s).remove(k) =~= entries_map(s.drop_last()));
    } else {
        lemma_entries_map_remove(s.drop_last(), i);
        assert(s.remove(i).drop_last() =~= s.drop_last().remove(i));
        assert(s.remove(i).last() == s.last());
        assert(s.drop_last()[i] == s[i]);
        assert(s.last().0@ != k);
        assert(entries_map(s.remove(i)) == entries_map(s.drop_last()).remove(k).insert(
            s.last().0@,
            s.last().1@,
        ));
        assert(entries_map(s.drop_last()).remove(k).insert(s.last().0@, s.last().1@)
            =~= entries_map(s.drop_last()).insert(s.last().0@, s.last().1@).remove(k));
    }
}

/// With distinct keys the map has exactly one key per entry.
proof fn lemma_entries_map_dom_len(s: Seq<(String, String)>)
    requires
        distinct_keys(s),
    ensures
        entries_map(s).dom().finite(),
        entries_map(s).dom().len() == s.len(),
    decreases s.len(),
{
    if s.len() > 0 {
        assert forall|x: int, y: int|
            0 <= x < y < s.drop_last().len() implies (#[trigger] s.drop_last()[x]).0@ != (
        #[trigger] s.drop_last()[y]).0@ by {
            assert(s.drop_last()[x] == s[x]);
            assert(s.drop_last()[y] == s[y]);
        }
        lemma_entries_map_dom_len(s.drop_last());
        lemma_entries_map_key(s.drop_last(), s.last().0@);
        if entries_map(s.drop_last()).contains_key(s.last().0@) {
            let j = choose|j: int|
                0 <= j < s.drop_last().len() && (#[trigger] s.drop_last()[j]).0@ == s.last().0@;
            assert(s[j] == s.drop_last()[j]);
            assert(s[j].0@ == s[s.len() - 1].0@);
        }
        assert(entries_map(s).dom() =~= entries_map(s.drop_last()).dom().insert(s.last().0@));
    }
}

/// An association table from string keys to string values.
pub struct Table {
    entries: Vec<(String, String)>,
}

impl View for Table {
    type V = Map<Seq<char>, Seq<char>>;

    closed spec fn view(&self) -> Map<Seq<char>, Seq<char>> {
        entries_map(self.entries@)
    }
}

impl Table {
    /// No two entries of the table share a key.
    pub closed spec fn wf(&self) -> bool {
        distinct_keys(self.entries@)
    }

    /// Builds an empty table.
    pub fn new() -> (r: Table)
        ensures
            r@ == Map::<Seq<char>, Seq<char>>::empty(),
            r.wf(),
    {
        Table { entries: Vec::new() }
    }

    /// Finds the position of the entry holding `key`, if any.
    fn position(&self, key: &str) -> (r: Option<usize>)
        ensures
            r is Some <==> self@.contains_key(key@),
            r matches Some(i) ==> i < self.entries@.len() && self.entries@[i as int].0@ == key@,
    {
        let n = self.entries.len();
        let mut i: usize = 0;
        while i < n
            invariant
                i <= n,
                n == self.entries@.len(),
                forall|k: int| 0 <= k < i ==> (#[trigger] self.entries@[k]).0@ != key@,
            decreases n - i,
        {
            if str_eq(self.entries[i].0.as_str(), key) {
                proof {
                    lemma_entries_map_key(self.entries@, key@);
                }
                return Some(i);
            }
            i += 1;
        }
        proof {
            lemma_entries_map_key(self.entries@, key@);
        }
        None
    }

    /// Whether the table holds `key`.
    pub fn contains_key(&self, key: &str) -> (r: bool)
        ensures
            r == self@.contains_key(key@),
    {
        self.position(key).is_some()
    }

    /// The value stored under `key`, if any.
    pub fn get(&self, key: &str) -> (r: Option<&String>)
        requires
            self.wf(),
        ensures
            match r {
                Some(v) => self@.contains_key(key@) && v@ == self@[key@],
                None => !self@.contains_key(key@),
            },
    {
        match self.position(key) {
            Some(i) => {
                proof {
                    lemma_entries_map_at(self.entries@, i as int);
                }
                Some(&self.entries[i].1)
            },
            None => None,
        }
    }

    /// Stores `value` under `key`, replacing any earlier value.
    pub fn insert(&mut self, key: String, value: String)
        requires
            old(self).wf(),
        ensures
            final(self).wf(),
            final(self)@ == old(self)@.insert(key@, value@),
    {
        let pos = self.position(key.as_str());
        match pos {
            Some(i) => {
                proof {
                    lemma_entries_map_remove(self.entries@, i as int);
                }
                let ghost pre = self.entries@;
                self.entries.remove(i);
                proof {
                    assert forall|x: int, y: int|
                        0 <= x < y < self.entries@.len() implies (#[trigger] self.entries@[x]).0@
                        != (#[trigger] self.entries@[y]).0@ by {
                        assert(self.entries@[x] == pre.remove(i as int)[x]);
                        assert(self.entries@[y] == pre.remove(i as int)[y]);
                        if y < i {
                            assert(pre.remove(i as int)[x] == pre[x]);
                            assert(pre.remove(i as int)[y] == pre[y]);
                        } else if x < i {
                            assert(pre.remove(i as int)[x] == pre[x]);
                            assert(pre.remove(i as int)[y] == pre[y + 1]);
                        } else {
                            assert(pre.remove(i as int)[x] == pre[x + 1]);
                            assert(pre.remove(i as int)[y] == pre[y + 1]);
                        }
                    }
                    assert forall|j: int|
                        0 <= j < self.entries@.len() implies (#[trigger] self.entries@[j]).0@
                        != key@ by {
                        if j < i {
                            assert(self.entries@[j] == pre[j]);
                        } else {
                            assert(self.entries@[j] == pre[j + 1]);
                        }
                    }
                    lemma_entries_map_push(self.entries@, (key, value));
                }
                self.entries.push((key, value));
                proof {
                    assert(entries_map(pre).remove(key@).insert(key@, value@) =~= entries_map(
                        pre,
                    ).insert(key@, value@));
                }
            },
            None => {
                proof {
                    lemma_entries_map_push(self.entries@, (key, value));
                    lemma_entries_map_key(self.entries@, key@);
                }
                self.entries.push((key, value));
            },
        }
    }

    /// Removes `key` and its value; absence is a no-op.
    pub fn remove(&mut self, key: &str)
        requires
            old(self).wf(),
        ensures
            final(self).wf(),
            final(self)@ == old(self)@.remove(key@),
    {
        let pos = self.position(key);
        match pos {
            Some(i) => {
                proof {
                    lemma_entries_map_remove(self.entries@, i as int);
                }
                let ghost pre = self.entries@;
                self.entries.remove(i);
                proof {
                    assert forall|x: int, y: int|
                        0 <= x < y < self.entries@.len() implies (#[trigger] self.entries@[x]).0@
                        != (#[trigger] self.entries@[y]).0@ by {
                        if y < i {
                            assert(pre.remove(i as int)[x] == pre[x]);
                            assert(pre.remove(i as int)[y] == pre[y]);
                        } else if x < i {
                            assert(pre.remove(i as int)[x] == pre[x]);
                            assert(pre.remove(i as int)[y] == pre[y + 1]);
                        } else {
                            assert(pre.remove(i as int)[x] == pre[x + 1]);
                            assert(pre.remove(i as int)[y] == pre[y + 1]);
                        }
                    }
                }
            },
            None => {
                proof {
                    assert(old(self)@.remove(key@) =~= old(self)@);
                }
            },
        }
    }

    /// The number of keys in the table.
    pub fn len(&self) -> (r: usize)
        requires
            self.wf(),
        ensures
            r == self@.dom().len(),
    {
        proof {
            lemma_entries_map_dom_len(self.entries@);
        }
        self.entries.len()
    }

    /// Every key of the table, each exactly once, in storage order.
    pub fn keys(&self) -> (r: Vec<String>)
        requires
            self.wf(),
        ensures
            r.deep_view().no_duplicates(),
            forall|k: Seq<char>| self@.contains_key(k) <==> r.deep_view().contains(k),
            r.deep_view().len() == self@.dom().len(),
    {
        let n = self.entries.len();
        let mut r: Vec<String> = Vec::new();
        let mut i: usize = 0;
        while i < n
            invariant
                i <= n,
                n == self.entries@.len(),
                r.deep_view().len() == i,
                forall|k: int| 0 <= k < i ==> r.deep_view()[k] == (#[trigger] self.entries@[k]).0@,
            decreases n - i,
        {
            let ghost pre = r.deep_view();
            r.push(self.entries[i].0.clone());
            proof {
                assert(r.deep_view() =~= pre.push(r@[r@.len() - 1].deep_view()));
            }
            i += 1;
        }
        proof {
            lemma_entries_map_dom_len(self.entries@);
            assert forall|x: int, y: int|
                0 <= x < r.deep_view().len() && 0 <= y < r.deep_view().len() && x
                    != y implies r.deep_view()[x] != r.deep_view()[y] by {
                if x < y {
                    assert((self.entries@[x]).0@ != (self.entries@[y]).0@);
                } else {
                    assert((self.entries@[y]).0@ != (self.entries@[x]).0@);
                }
            }
            assert forall|k: Seq<char>| self@.contains_key(k) implies r.deep_view().contains(k) by {
                lemma_entries_map_key(self.entries@, k);
                let j = choose|j: int| 0 <= j < self.entries@.len() && (#[trigger] self.entries@[j]).0@
                    == k;
                assert(r.deep_view()[j] == k);
            }
            assert forall|k: Seq<char>| r.deep_view().contains(k) implies self@.contains_key(k) by {
                let j = choose|j: int| 0 <= j < r.deep_view().len() && r.deep_view()[j] == k;
                lemma_entries_map_key(self.entries@, k);
                assert((self.entries@[j]).0@ == k);
            }
        }
        r
    }

    /// Removes every entry.
    pub fn clear(&mut self)
        ensures
            final(self).wf(),
            final(self)@ == Map::<Seq<char>, Seq<char>>::empty(),
    {
        self.entries.clear();
    }
}

} // verus!
