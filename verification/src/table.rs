//! Tables that hold one value for each key.

use vstd::prelude::*;
use crate::package::FileId;

verus! {

/// A type whose values can serve as keys of a table.
pub trait Key: View + Sized {
    fn same_key(&self, other: &Self) -> (same: bool)
        ensures
            same == (self@ == other@),
    ;
}

impl Key for String {
    fn same_key(&self, other: &Self) -> (same: bool) {
        self.eq(other)
    }
}

impl Key for FileId {
    fn same_key(&self, other: &Self) -> (same: bool) {
        self.same(other)
    }
}

/// Whether no key occurs twice.
pub open spec fn keys_differ<K: Key, V>(entries: Seq<(K, V)>) -> bool {
    forall|i: int, j: int|
        0 <= i < entries.len() && 0 <= j < entries.len() && i != j ==> #[trigger] entries[i].0@
            != #[trigger] entries[j].0@
}

/// The values by key.
pub open spec fn entry_map<K: Key, V>(entries: Seq<(K, V)>) -> Map<K::V, V>
    decreases entries.len(),
{
    if entries.len() == 0 {
        Map::empty()
    } else {
        entry_map(entries.drop_last()).insert(entries.last().0@, entries.last().1)
    }
}

pub proof fn lemma_entry_map<K: Key, V>(entries: Seq<(K, V)>)
    requires
        keys_differ(entries),
    ensures
        forall|i: int|
            0 <= i < entries.len() ==> entry_map(entries).contains_key(#[trigger] entries[i].0@)
                && entry_map(entries)[entries[i].0@] == entries[i].1,
        forall|k: K::V|
            entry_map(entries).contains_key(k) ==> exists|i: int|
                0 <= i < entries.len() && #[trigger] entries[i].0@ == k,
    decreases entries.len(),
{
    if entries.len() > 0 {
        let init = entries.drop_last();
        assert forall|i: int, j: int|
            0 <= i < init.len() && 0 <= j < init.len() && i != j implies #[trigger] init[i].0@
            != #[trigger] init[j].0@ by {
            assert(entries[i].0@ != entries[j].0@);
        }
        lemma_entry_map(init);
        assert forall|i: int| 0 <= i < entries.len() implies entry_map(entries).contains_key(
            #[trigger] entries[i].0@,
        ) && entry_map(entries)[entries[i].0@] == entries[i].1 by {
            if i < init.len() {
                assert(init[i] == entries[i]);
                assert(entries[i].0@ != entries[entries.len() - 1].0@);
            }
        }
        assert forall|k: K::V| entry_map(entries).contains_key(k) implies exists|i: int|
            0 <= i < entries.len() && #[trigger] entries[i].0@ == k by {
            let n = entries.len() - 1;
            if k == entries.last().0@ {
                assert(0 <= n < entries.len() && entries[n].0@ == k);
            } else {
                assert(entry_map(init).contains_key(k));
                let i = choose|i: int| 0 <= i < init.len() && #[trigger] init[i].0@ == k;
                assert(init[i] == entries[i]);
                assert(0 <= i < entries.len() && entries[i].0@ == k);
            }
        }
    }
}

pub proof fn lemma_entry_map_remove<K: Key, V>(entries: Seq<(K, V)>, at: int)
    requires
        keys_differ(entries),
        0 <= at < entries.len(),
    ensures
        keys_differ(entries.remove(at)),
        entry_map(entries.remove(at)) == entry_map(entries).remove(entries[at].0@),
{
    let rest = entries.remove(at);
    assert forall|i: int, j: int|
        0 <= i < rest.len() && 0 <= j < rest.len() && i != j implies #[trigger] rest[i].0@
        != #[trigger] rest[j].0@ by {
        let a = if i < at { i } else { i + 1 };
        let b = if j < at { j } else { j + 1 };
        assert(entries[a].0@ != entries[b].0@);
    }
    lemma_entry_map(entries);
    lemma_entry_map(rest);
    let less = entry_map(entries).remove(entries[at].0@);
    assert forall|k: K::V| entry_map(rest).contains_key(k) <==> less.contains_key(k) by {
        if entry_map(rest).contains_key(k) {
            let i = choose|i: int| 0 <= i < rest.len() && #[trigger] rest[i].0@ == k;
            let a = if i < at { i } else { i + 1 };
            assert(entries[a].0@ == k);
            assert(entries[a].0@ != entries[at].0@);
        }
        if less.contains_key(k) {
            let i = choose|i: int| 0 <= i < entries.len() && #[trigger] entries[i].0@ == k;
            let a = if i < at { i } else { i - 1 };
            assert(rest[a].0@ == k);
        }
    }
    assert forall|k: K::V| entry_map(rest).contains_key(k) implies entry_map(rest)[k] == less[k] by {
        let i = choose|i: int| 0 <= i < rest.len() && #[trigger] rest[i].0@ == k;
        let a = if i < at { i } else { i + 1 };
        assert(entries[a].0@ == k);
    }
    assert(entry_map(rest) =~= less);
}

/// The values of a finite map, in some order.
pub open spec fn values_of<K, V>(m: Map<K, V>) -> Seq<V>
    decreases m.dom().len(),
    when m.dom().finite()
{
    if m.dom().len() == 0 {
        Seq::empty()
    } else {
        let k = m.dom().choose();
        values_of(m.remove(k)).push(m[k])
    }
}

pub proof fn lemma_entries_finite<K: Key, V>(entries: Seq<(K, V)>)
    ensures
        entry_map(entries).dom().finite(),
    decreases entries.len(),
{
    if entries.len() > 0 {
        lemma_entries_finite(entries.drop_last());
    }
}

/// Whatever order the entries stand in, their values are those of the map.
pub proof fn lemma_entry_values<K: Key, V, W>(entries: Seq<(K, V)>, f: spec_fn(V) -> W)
    requires
        keys_differ(entries),
    ensures
        entry_map(entries).map_values(f).dom().finite(),
        entries.map_values(|entry: (K, V)| f(entry.1)).to_multiset() == values_of(
            entry_map(entries).map_values(f),
        ).to_multiset(),
    decreases entries.len(),
{
    broadcast use vstd::seq_lib::group_to_multiset_ensures;
    broadcast use vstd::multiset::group_multiset_axioms;

    let g = |entry: (K, V)| f(entry.1);
    let m = entry_map(entries).map_values(f);
    lemma_entries_finite(entries);
    lemma_entry_map(entries);
    assert(m.dom() =~= entry_map(entries).dom());
    if entries.len() == 0 {
        assert(m.dom() =~= Set::empty());
        assert(entries.map_values(g) =~= Seq::empty());
    } else {
        assert(m.dom().contains(entries[0].0@));
        assert(m.dom().len() != 0) by {
            if m.dom().len() == 0 {
                m.dom().lemma_len0_is_empty();
            }
        }
        let k = m.dom().choose();
        assert(m.dom().contains(k));
        let at = choose|i: int| 0 <= i < entries.len() && #[trigger] entries[i].0@ == k;
        lemma_entry_map_remove(entries, at);
        lemma_entry_values(entries.remove(at), f);
        assert(entry_map(entries.remove(at)).map_values(f) =~= m.remove(k));
        assert(entries.remove(at).map_values(g) =~= entries.map_values(g).remove(at));
        let all = entries.map_values(g);
        assert(all[at] == m[k]);
        assert(all.remove(at).to_multiset() == all.to_multiset().remove(all[at]));
        assert(all.to_multiset().contains(all[at])) by {
            assert(all.contains(all[at]));
        }
        assert(all.to_multiset() =~= all.remove(at).to_multiset().insert(m[k]));
    }
}

/// A table that holds one value for each key.
#[derive(Debug)]
pub struct Table<K: Key, V> {
    entries: Vec<(K, V)>,
}

impl<K: Key, V> View for Table<K, V> {
    type V = Map<K::V, V>;

    closed spec fn view(&self) -> Map<K::V, V> {
        entry_map(self.entries@)
    }
}

impl<K: Key, V> Table<K, V> {
    #[verifier::type_invariant]
    spec fn well_formed(self) -> bool {
        keys_differ(self.entries@)
    }

    /// An empty table.
    pub fn new() -> (table: Self)
        ensures
            table@ == Map::<K::V, V>::empty(),
    {
        let entries: Vec<(K, V)> = Vec::new();
        assert(entry_map(entries@) =~= Map::<K::V, V>::empty());
        Table { entries }
    }

    fn position(entries: &Vec<(K, V)>, key: &K) -> (at: Option<usize>)
        requires
            keys_differ(entries@),
        ensures
            match at {
                Some(i) => i < entries@.len() && entries@[i as int].0@ == key@
                    && entry_map(entries@).contains_key(key@) && entry_map(entries@)[key@]
                    == entries@[i as int].1,
                None => !entry_map(entries@).contains_key(key@),
            },
    {
        proof {
            lemma_entry_map(entries@);
        }
        let mut i: usize = 0;
        while i < entries.len()
            invariant
                i <= entries.len(),
                forall|j: int| 0 <= j < i ==> #[trigger] entries@[j].0@ != key@,
                forall|j: int|
                    0 <= j < entries@.len() ==> entry_map(entries@).contains_key(
                        #[trigger] entries@[j].0@,
                    ) && entry_map(entries@)[entries@[j].0@] == entries@[j].1,
            decreases entries.len() - i,
        {
            if entries[i].0.same_key(key) {
                assert(entry_map(entries@).contains_key(entries@[i as int].0@));
                return Some(i);
            }
            i = i + 1;
        }
        None
    }

    /// The value of a key.
    pub fn get(&self, key: &K) -> (value: Option<&V>)
        ensures
            match value {
                Some(v) => self@.contains_key(key@) && *v == self@[key@],
                None => !self@.contains_key(key@),
            },
    {
        proof {
            use_type_invariant(self);
        }
        match Self::position(&self.entries, key) {
            Some(i) => Some(&self.entries[i].1),
            None => None,
        }
    }

    /// Takes the value of a key out of the table.
    pub fn take(&mut self, key: &K) -> (value: Option<V>)
        ensures
            final(self)@ == old(self)@.remove(key@),
            match value {
                Some(v) => old(self)@.contains_key(key@) && v == old(self)@[key@],
                None => !old(self)@.contains_key(key@),
            },
    {
        proof {
            use_type_invariant(&*self);
        }
        let mut entries: Vec<(K, V)> = Vec::new();
        std::mem::swap(&mut entries, &mut self.entries);
        let ghost before = entries@;
        let value: Option<V> = match Self::position(&entries, key) {
            Some(i) => {
                proof {
                    lemma_entry_map_remove(before, i as int);
                }
                let (_, value) = entries.remove(i);
                Some(value)
            },
            None => {
                assert(entry_map(before).remove(key@) =~= entry_map(before));
                None
            },
        };
        self.entries = entries;
        value
    }

    /// Sets the value of a key.
    pub fn insert(&mut self, key: K, value: V)
        ensures
            final(self)@ == old(self)@.insert(key@, value),
    {
        let _ = self.take(&key);
        proof {
            use_type_invariant(&*self);
        }
        let mut entries: Vec<(K, V)> = Vec::new();
        std::mem::swap(&mut entries, &mut self.entries);
        let ghost before = entries@;
        entries.push((key, value));
        proof {
            lemma_entry_map(before);
            assert(entries@.drop_last() =~= before);
            assert forall|i: int, j: int|
                0 <= i < entries@.len() && 0 <= j < entries@.len() && i
                    != j implies #[trigger] entries@[i].0@ != #[trigger] entries@[j].0@ by {
                if i < before.len() && j < before.len() {
                    assert(before[i].0@ != before[j].0@);
                } else if i < before.len() {
                    assert(entry_map(before).contains_key(before[i].0@));
                } else {
                    assert(entry_map(before).contains_key(before[j].0@));
                }
            }
        }
        self.entries = entries;
        assert(self@ =~= old(self)@.insert(key@, value));
    }

    /// The entries of the table, in no particular order.
    pub fn into_entries(self) -> (entries: Vec<(K, V)>)
        ensures
            keys_differ(entries@),
            entry_map(entries@) == self@,
    {
        proof {
            use_type_invariant(&self);
        }
        self.entries
    }

    /// The entries of the table, in no particular order.
    pub fn entries(&self) -> (entries: &Vec<(K, V)>)
        ensures
            keys_differ(entries@),
            entry_map(entries@) == self@,
    {
        proof {
            use_type_invariant(self);
        }
        &self.entries
    }
}

} // verus!
