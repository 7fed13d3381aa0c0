//! A small table from keys to values, kept as a list of entries in which no
//! key occurs twice.

use vstd::prelude::*;

verus! {

/// A key that can be told from another by its model.
pub trait Key: View + Sized {
    /// Whether this key and `other` have the same model.
    fn same(&self, other: &Self) -> (r: bool)
        ensures
            r == (self@ == other@),
    ;
}

impl Key for String {
    fn same(&self, other: &Self) -> (r: bool) {
        *self == *other
    }
}

/// Whether a walk over a table goes on or ends with a value.
#[derive(Debug)]
pub enum Control<B> {
    Continue,
    Break(B),
}

impl<B> Default for Control<B> {
    fn default() -> (r: Self)
        ensures
            r is Continue,
    {
        Control::Continue
    }
}

/// Whether one of `entries` stands under `key`.
pub open spec fn has_key<K: View, T>(entries: Seq<(K, T)>, key: K::V) -> bool {
    exists|i: int| 0 <= i < entries.len() && (#[trigger] entries[i]).0@ == key
}

/// The index of an entry that stands under `key`.
pub open spec fn key_index<K: View, T>(entries: Seq<(K, T)>, key: K::V) -> int {
    choose|i: int| 0 <= i < entries.len() && (#[trigger] entries[i]).0@ == key
}

/// Whether no two of `entries` stand under the same key.
pub open spec fn distinct_keys<K: View, T>(entries: Seq<(K, T)>) -> bool {
    forall|i: int, j: int|
        #![trigger entries[i], entries[j]]
        0 <= i < entries.len() && 0 <= j < entries.len() && i != j ==> entries[i].0@
            != entries[j].0@
}

/// The mapping that `entries` list.
pub open spec fn table<K: View, T>(entries: Seq<(K, T)>) -> Map<K::V, T> {
    Map::new(
        |k: K::V| has_key(entries, k),
        |k: K::V| entries[key_index(entries, k)].1,
    )
}

/// Where keys are distinct, each entry is what the table holds under its
/// key.
pub proof fn lemma_table_entry<K: View, T>(entries: Seq<(K, T)>, index: int)
    requires
        distinct_keys(entries),
        0 <= index < entries.len(),
    ensures
        table(entries).contains_key(entries[index].0@),
        table(entries)[entries[index].0@] == entries[index].1,
{
    let found = key_index(entries, entries[index].0@);
    assert(entries[found].0@ == entries[index].0@);
}

/// Where keys are distinct, the entries from `from - 1` on list what those
/// from `from` on list and, under a key of its own, the entry before
/// them.
pub proof fn lemma_table_skip<K: View, T>(entries: Seq<(K, T)>, from: int)
    requires
        distinct_keys(entries),
        0 < from <= entries.len(),
    ensures
        !table(entries.skip(from)).contains_key(entries[from - 1].0@),
        table(entries.skip(from - 1)) == table(entries.skip(from)).insert(
            entries[from - 1].0@,
            entries[from - 1].1,
        ),
        distinct_keys(entries.skip(from)),
{
    let more = entries.skip(from - 1);
    let fewer = entries.skip(from);
    let key = entries[from - 1].0@;
    if has_key(fewer, key) {
        let i = key_index(fewer, key);
        assert(fewer[i] == entries[i + from]);
    }
    assert forall|m: K::V|
        table(more).contains_key(m) == table(fewer).insert(key, entries[from - 1].1).contains_key(
            m,
        ) by {
        if has_key(more, m) {
            let i = key_index(more, m);
            if i > 0 {
                assert(fewer[i - 1] == more[i]);
            }
        }
        if has_key(fewer, m) {
            let i = key_index(fewer, m);
            assert(more[i + 1] == fewer[i]);
        }
        assert(more[0] == entries[from - 1]);
    }
}

/// Where keys are distinct, the table has as many keys as there are
/// entries.
pub proof fn lemma_table_len<K: View, T>(entries: Seq<(K, T)>)
    requires
        distinct_keys(entries),
    ensures
        table(entries).dom().finite(),
        table(entries).dom().len() == entries.len(),
    decreases entries.len(),
{
    if entries.len() == 0 {
        assert(table(entries).dom() =~= Set::empty());
    } else {
        assert(entries.skip(0) =~= entries);
        lemma_table_skip(entries, 1);
        lemma_table_len(entries.skip(1));
    }
}

/// A table with at most one value for each key.
pub struct Table<K, T> {
    entries: Vec<(K, T)>,
}

impl<K: View, T> View for Table<K, T> {
    type V = Map<K::V, T>;

    closed spec fn view(&self) -> Map<K::V, T> {
        table(self.entries@)
    }
}

impl<K: Key, T> Table<K, T> {
    /// The invariant of a table: no key is listed twice.
    pub closed spec fn wf(&self) -> bool {
        distinct_keys(self.entries@)
    }

    /// The table that holds nothing.
    pub fn new() -> (r: Self)
        ensures
            r.wf(),
            r@ == Map::<K::V, T>::empty(),
    {
        let r = Table { entries: Vec::new() };
        r
    }

    /// The index of the entry under `key`, if there is one.
    fn find(&self, key: &K) -> (r: Option<usize>)
        requires
            self.wf(),
        ensures
            match r {
                Some(i) => i < self.entries@.len() && self.entries@[i as int].0@ == key@
                    && self@.contains_key(key@) && self@[key@] == self.entries@[i as int].1,
                None => !self@.contains_key(key@),
            },
    {
        let mut i: usize = 0;
        while i < self.entries.len()
            invariant
                self.wf(),
                i <= self.entries.len(),
                forall|j: int| 0 <= j < i ==> (#[trigger] self.entries@[j]).0@ != key@,
            decreases self.entries.len() - i,
        {
            if self.entries[i].0.same(key) {
                return Some(i);
            }
            i = i + 1;
        }
        None
    }

    /// Whether the table holds a value under `key`.
    pub fn contains_key(&self, key: &K) -> (r: bool)
        requires
            self.wf(),
        ensures
            r == self@.contains_key(key@),
    {
        self.find(key).is_some()
    }

    /// The value under `key`, if there is one.
    pub fn get(&self, key: &K) -> (r: Option<&T>)
        requires
            self.wf(),
        ensures
            match r {
                Some(value) => self@.contains_key(key@) && *value == self@[key@],
                None => !self@.contains_key(key@),
            },
    {
        match self.find(key) {
            Some(i) => Some(&self.entries[i].1),
            None => None,
        }
    }

    /// Puts `value` under `key` and returns what stood there before.
    pub fn insert(&mut self, key: K, value: T) -> (r: Option<T>)
        requires
            old(self).wf(),
        ensures
            final(self).wf(),
            final(self)@ == old(self)@.insert(key@, value),
            match r {
                Some(before) => old(self)@.contains_key(key@) && before == old(self)@[key@],
                None => !old(self)@.contains_key(key@),
            },
    {
        let ghost before = self.entries@;
        let ghost at = key@;
        match self.find(&key) {
            Some(i) => {
                self.entries.push((key, value));
                let replaced = self.entries.swap_remove(i);
                proof {
                    let after = self.entries@;
                    assert forall|m: K::V|
                        table(after).contains_key(m) == table(before).insert(
                            at,
                            value,
                        ).contains_key(m) by {
                        if has_key(before, m) {
                            let j = key_index(before, m);
                            assert(after[j].0@ == m);
                        }
                        if has_key(after, m) {
                            let j = key_index(after, m);
                            assert(before[j].0@ == m);
                        }
                    }
                }
                Some(replaced.1)
            },
            None => {
                self.entries.push((key, value));
                proof {
                    let after = self.entries@;
                    assert forall|m: K::V|
                        table(after).contains_key(m) == table(before).insert(
                            at,
                            value,
                        ).contains_key(m) by {
                        if has_key(before, m) {
                            let j = key_index(before, m);
                            assert(after[j].0@ == m);
                        }
                        if has_key(after, m) {
                            let j = key_index(after, m);
                            assert(j < before.len() ==> before[j].0@ == m);
                        }
                        assert(after[before.len() as int].0@ == at);
                    }
                }
                None
            },
        }
    }

    /// Takes the value under `key` out of the table.
    pub fn remove(&mut self, key: &K) -> (r: Option<T>)
        requires
            old(self).wf(),
        ensures
            final(self).wf(),
            final(self)@ == old(self)@.remove(key@),
            match r {
                Some(before) => old(self)@.contains_key(key@) && before == old(self)@[key@],
                None => !old(self)@.contains_key(key@),
            },
    {
        let ghost before = self.entries@;
        let ghost at = key@;
        match self.find(key) {
            Some(i) => {
                let removed = self.entries.remove(i);
                proof {
                    let after = self.entries@;
                    assert forall|m: K::V|
                        table(after).contains_key(m) == table(before).remove(at).contains_key(
                            m,
                        ) by {
                        if has_key(before, m) && m != at {
                            let j = key_index(before, m);
                            let x = if j < i { j } else { j - 1 };
                            assert(after[x] == before[j]);
                        }
                        if has_key(after, m) {
                            let j = key_index(after, m);
                            let x = if j < i { j } else { j + 1 };
                            assert(after[j] == before[x]);
                        }
                    }
                }
                Some(removed.1)
            },
            None => {
                None
            },
        }
    }

    /// The number of keys under which a value stands.
    pub fn len(&self) -> (n: usize)
        requires
            self.wf(),
        ensures
            n == self@.len(),
            n == self.entries().len(),
            self@.dom().finite(),
    {
        proof {
            lemma_table_len(self.entries@);
        }
        self.entries.len()
    }

    /// The entries of the table, in no particular order.
    pub closed spec fn entries(&self) -> Seq<(K, T)> {
        self.entries@
    }

    /// What `entries` says of a table: each key of the table stands in it
    /// once, with its value.
    pub proof fn lemma_entries(&self)
        requires
            self.wf(),
        ensures
            distinct_keys(self.entries()),
            self@ == table(self.entries()),
    {
    }

    /// Calls `f` on one entry after another until it breaks, and returns the
    /// value that it broke with.
    pub fn for_each<B, F: Fn(&K, &T) -> Control<B>>(&self, f: F) -> (r: Option<B>)
        requires
            self.wf(),
            forall|i: int|
                0 <= i < self.entries().len() ==> call_requires(
                    f,
                    (&(#[trigger] self.entries()[i]).0, &self.entries()[i].1),
                ),
        ensures
            match r {
                Some(value) => exists|i: int|
                    {
                        &&& 0 <= i < self.entries().len()
                        &&& call_ensures(
                            f,
                            (&(#[trigger] self.entries()[i]).0, &self.entries()[i].1),
                            Control::Break(value),
                        )
                        &&& forall|j: int|
                            0 <= j < i ==> call_ensures(
                                f,
                                (&(#[trigger] self.entries()[j]).0, &self.entries()[j].1),
                                Control::Continue,
                            )
                    },
                None => forall|j: int|
                    0 <= j < self.entries().len() ==> call_ensures(
                        f,
                        (&(#[trigger] self.entries()[j]).0, &self.entries()[j].1),
                        Control::Continue,
                    ),
            },
    {
        let mut i: usize = 0;
        while i < self.entries.len()
            invariant
                i <= self.entries.len(),
                forall|k: int|
                    0 <= k < self.entries().len() ==> call_requires(
                        f,
                        (&(#[trigger] self.entries()[k]).0, &self.entries()[k].1),
                    ),
                forall|j: int|
                    0 <= j < i ==> call_ensures(
                        f,
                        (&(#[trigger] self.entries()[j]).0, &self.entries()[j].1),
                        Control::Continue,
                    ),
            decreases self.entries.len() - i,
        {
            assert(self.entries()[i as int] == self.entries@[i as int]);
            match f(&self.entries[i].0, &self.entries[i].1) {
                Control::Continue => {},
                Control::Break(value) => {
                    return Some(value);
                },
            }
            i = i + 1;
        }
        None
    }

    /// Takes the table apart into its entries.
    pub fn into_entries(self) -> (r: Vec<(K, T)>)
        requires
            self.wf(),
        ensures
            r@ == self.entries(),
            distinct_keys(r@),
            self@ == table(r@),
    {
        self.entries
    }

    /// The entry at `index`.
    pub fn entry(&self, index: usize) -> (r: (&K, &T))
        requires
            self.wf(),
            index < self.entries().len(),
        ensures
            *r.0 == self.entries()[index as int].0,
            *r.1 == self.entries()[index as int].1,
    {
        (&self.entries[index].0, &self.entries[index].1)
    }
}

} // verus!
