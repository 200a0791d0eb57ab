//! Tables: values by key, each key once.

use vstd::prelude::*;
use crate::text;

verus! {

/// Whether no key appears twice.
pub open spec fn distinct_keys<K, V>(entries: Seq<(K, V)>) -> bool {
    forall|i: int, j: int|
        0 <= i < j < entries.len() ==> (#[trigger] entries[i]).0 != (#[trigger] entries[j]).0
}

/// Whether a key has an entry.
pub open spec fn has_key<K, V>(entries: Seq<(K, V)>, key: K) -> bool {
    exists|i: int| 0 <= i < entries.len() && (#[trigger] entries[i]).0 == key
}

/// Where a key's entry is.
pub open spec fn index_of<K, V>(entries: Seq<(K, V)>, key: K) -> int {
    choose|i: int| 0 <= i < entries.len() && (#[trigger] entries[i]).0 == key
}

/// The entries as a map.
pub open spec fn as_map<K, V>(entries: Seq<(K, V)>) -> Map<K, V> {
    Map::new(|k: K| has_key(entries, k), |k: K| entries[index_of(entries, k)].1)
}

/// Where keys are distinct, an entry is its key's value.
pub proof fn lemma_entry<K, V>(entries: Seq<(K, V)>, i: int)
    requires
        distinct_keys(entries),
        0 <= i < entries.len(),
    ensures
        has_key(entries, entries[i].0),
        index_of(entries, entries[i].0) == i,
        as_map(entries).dom().contains(entries[i].0),
        as_map(entries)[entries[i].0] == entries[i].1,
{
    let k = entries[i].0;
    assert(entries[i].0 == k);
    let j = index_of(entries, k);
    assert(0 <= j < entries.len() && entries[j].0 == k);
    if j < i {
        assert(entries[j].0 != entries[i].0);
    } else if i < j {
        assert(entries[i].0 != entries[j].0);
    }
}

/// A new key's entry goes to the end.
pub proof fn lemma_push<K, V>(entries: Seq<(K, V)>, key: K, value: V)
    requires
        distinct_keys(entries),
        !has_key(entries, key),
    ensures
        distinct_keys(entries.push((key, value))),
        as_map(entries.push((key, value))) == as_map(entries).insert(key, value),
{
    let more = entries.push((key, value));
    assert forall|i: int, j: int| 0 <= i < j < more.len() implies (#[trigger] more[i]).0 != (
    #[trigger] more[j]).0 by {
        assert(more[i] == entries[i]);
        if j < entries.len() {
            assert(more[j] == entries[j]);
        }
    }
    let a = as_map(more);
    let b = as_map(entries).insert(key, value);
    assert forall|k: K| a.dom().contains(k) == b.dom().contains(k) by {
        if has_key(entries, k) {
            let i = index_of(entries, k);
            assert(more[i].0 == k);
        }
        if has_key(more, k) {
            let i = index_of(more, k);
            if i < entries.len() {
                assert(entries[i].0 == k);
            }
        }
        if k == key {
            assert(more[entries.len() as int].0 == key);
        }
    }
    assert forall|k: K| a.dom().contains(k) implies a[k] == b[k] by {
        let i = index_of(more, k);
        lemma_entry(more, i);
        if i < entries.len() {
            assert(more[i] == entries[i]);
            lemma_entry(entries, i);
        }
    }
    assert(a =~= b);
}

/// A known key's entry is replaced.
pub proof fn lemma_update<K, V>(entries: Seq<(K, V)>, i: int, value: V)
    requires
        distinct_keys(entries),
        0 <= i < entries.len(),
    ensures
        distinct_keys(entries.update(i, (entries[i].0, value))),
        as_map(entries.update(i, (entries[i].0, value))) == as_map(entries).insert(
            entries[i].0,
            value,
        ),
{
    let key = entries[i].0;
    let more = entries.update(i, (key, value));
    assert forall|a: int, b: int| 0 <= a < b < more.len() implies (#[trigger] more[a]).0 != (
    #[trigger] more[b]).0 by {
        assert(more[a].0 == entries[a].0 && more[b].0 == entries[b].0);
    }
    let a = as_map(more);
    let b = as_map(entries).insert(key, value);
    assert forall|k: K| a.dom().contains(k) == b.dom().contains(k) by {
        if has_key(entries, k) {
            let j = index_of(entries, k);
            assert(more[j].0 == k);
        }
        if has_key(more, k) {
            let j = index_of(more, k);
            assert(entries[j].0 == k);
        }
        assert(more[i].0 == key);
    }
    assert forall|k: K| a.dom().contains(k) implies a[k] == b[k] by {
        let j = index_of(more, k);
        lemma_entry(more, j);
        lemma_entry(entries, j);
        if j == i {
            assert(a[k] == value);
        } else {
            assert(more[j] == entries[j]);
            assert(entries[j].0 != entries[i].0) by {
                if j < i {
                    assert(entries[j].0 != entries[i].0);
                } else {
                    assert(entries[i].0 != entries[j].0);
                }
            }
        }
    }
    assert(a =~= b);
}

/// A key's entry goes.
pub proof fn lemma_remove<K, V>(entries: Seq<(K, V)>, i: int)
    requires
        distinct_keys(entries),
        0 <= i < entries.len(),
    ensures
        distinct_keys(entries.remove(i)),
        as_map(entries.remove(i)) == as_map(entries).remove(entries[i].0),
{
    let key = entries[i].0;
    let less = entries.remove(i);
    assert forall|a: int, b: int| 0 <= a < b < less.len() implies (#[trigger] less[a]).0 != (
    #[trigger] less[b]).0 by {
        let x = if a < i { a } else { a + 1 };
        let y = if b < i { b } else { b + 1 };
        assert(less[a] == entries[x] && less[b] == entries[y]);
    }
    let a = as_map(less);
    let b = as_map(entries).remove(key);
    assert forall|k: K| a.dom().contains(k) == b.dom().contains(k) by {
        if has_key(less, k) {
            let j = index_of(less, k);
            let x = if j < i { j } else { j + 1 };
            assert(less[j] == entries[x]);
            assert(entries[x].0 == k);
            if x < i {
                assert(entries[x].0 != entries[i].0);
            } else {
                assert(entries[i].0 != entries[x].0);
            }
        }
        if has_key(entries, k) && k != key {
            let j = index_of(entries, k);
            assert(j != i);
            let x = if j < i { j } else { j - 1 };
            assert(less[x] == entries[j]);
            assert(less[x].0 == k);
        }
    }
    assert forall|k: K| a.dom().contains(k) implies a[k] == b[k] by {
        let j = index_of(less, k);
        let x = if j < i { j } else { j + 1 };
        assert(less[j] == entries[x]);
        lemma_entry(less, j);
        lemma_entry(entries, x);
    }
    assert(a =~= b);
}

// --- texts by text -----------------------------------------------------------

/// Texts by text.
#[derive(Debug)]
pub struct TextMap {
    pub entries: Vec<(String, String)>,
}

/// The views of entries.
pub open spec fn entry_views(v: Seq<(String, String)>) -> Seq<(Seq<char>, Seq<char>)> {
    v.map_values(|e: (String, String)| (e.0@, e.1@))
}

impl View for TextMap {
    type V = Map<Seq<char>, Seq<char>>;

    open spec fn view(&self) -> Map<Seq<char>, Seq<char>> {
        as_map(entry_views(self.entries@))
    }
}

impl TextMap {
    /// Each key has one entry.
    pub open spec fn wf(self) -> bool {
        distinct_keys(entry_views(self.entries@))
    }

    pub fn new() -> (r: TextMap)
        ensures
            r.wf(),
            r@ == Map::<Seq<char>, Seq<char>>::empty(),
    {
        let r = TextMap { entries: Vec::new() };
        assert(r@ =~= Map::<Seq<char>, Seq<char>>::empty());
        r
    }

    fn find(&self, key: &str) -> (r: Option<usize>)
        ensures
            match r {
                Some(i) => i < self.entries@.len() && self.entries@[i as int].0@ == key@,
                None => !has_key(entry_views(self.entries@), key@),
            },
    {
        let ghost all = entry_views(self.entries@);
        let mut i: usize = 0;
        while i < self.entries.len()
            invariant
                i <= self.entries.len(),
                all == entry_views(self.entries@),
                forall|j: int| 0 <= j < i ==> (#[trigger] all[j]).0 != key@,
            decreases self.entries.len() - i,
        {
            assert(all[i as int].0 == self.entries@[i as int].0@);
            if text::same(self.entries[i].0.as_str(), key) {
                return Some(i);
            }
            i += 1;
        }
        None
    }

    /// The text of a key.
    pub fn get(&self, key: &str) -> (r: Option<&String>)
        requires
            self.wf(),
        ensures
            match r {
                Some(v) => self@.dom().contains(key@) && self@[key@] == v@,
                None => !self@.dom().contains(key@),
            },
    {
        match self.find(key) {
            Some(i) => {
                proof {
                    lemma_entry(entry_views(self.entries@), i as int);
                }
                Some(&self.entries[i].1)
            },
            None => None,
        }
    }

    /// Sets the text of a key.
    pub fn insert(&mut self, key: &str, value: String)
        requires
            old(self).wf(),
        ensures
            final(self).wf(),
            final(self)@ == old(self)@.insert(key@, value@),
    {
        let ghost all = entry_views(self.entries@);
        match self.find(key) {
            Some(i) => {
                proof {
                    lemma_update(all, i as int, value@);
                }
                let again = text::copy(key);
                self.entries[i] = (again, value);
                assert(entry_views(self.entries@) =~= all.update(i as int, (key@, value@)));
            },
            None => {
                proof {
                    lemma_push(all, key@, value@);
                }
                self.entries.push((text::copy(key), value));
                assert(entry_views(self.entries@) =~= all.push((key@, value@)));
            },
        }
    }
}

impl Clone for TextMap {
    fn clone(&self) -> (r: Self)
        ensures
            r@ == self@,
            self.wf() ==> r.wf(),
    {
        let mut out: Vec<(String, String)> = Vec::new();
        let mut i: usize = 0;
        while i < self.entries.len()
            invariant
                i <= self.entries.len(),
                out.len() == i,
                forall|j: int|
                    0 <= j < i ==> (#[trigger] out@[j]).0@ == self.entries@[j].0@ && out@[j].1@
                        == self.entries@[j].1@,
            decreases self.entries.len() - i,
        {
            out.push((self.entries[i].0.clone(), self.entries[i].1.clone()));
            i += 1;
        }
        assert(entry_views(out@) =~= entry_views(self.entries@));
        TextMap { entries: out }
    }
}

} // verus!
