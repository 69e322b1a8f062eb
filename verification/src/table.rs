//! A table of values by name.

use vstd::prelude::*;

verus! {

/// Values by name, each name at most once.
#[derive(Debug)]
pub struct Table<V> {
    entries: Vec<(String, V)>,
}

/// Whether entry `i` is the one named `key`.
spec fn names<V>(entries: Seq<(String, V)>, key: Seq<char>, i: int) -> bool {
    0 <= i < entries.len() && entries[i].0@ == key
}

/// Whether no two entries share a name.
spec fn distinct<V>(entries: Seq<(String, V)>) -> bool {
    forall|i: int, j: int|
        0 <= i < entries.len() && 0 <= j < entries.len() && i != j ==> #[trigger] entries[i].0@
            != #[trigger] entries[j].0@
}

/// The entries as a map from names to values.
spec fn as_map<V>(entries: Seq<(String, V)>) -> Map<Seq<char>, V> {
    Map::new(
        |key: Seq<char>| exists|i: int| names(entries, key, i),
        |key: Seq<char>| entries[choose|i: int| names(entries, key, i)].1,
    )
}

impl<V> View for Table<V> {
    type V = Map<Seq<char>, V>;

    closed spec fn view(&self) -> Map<Seq<char>, V> {
        as_map(self.entries@)
    }
}

impl<V> Table<V> {
    /// What holds of every table: no two entries share a name.
    pub closed spec fn wf(&self) -> bool {
        distinct(self.entries@)
    }

    /// An empty table.
    pub fn new() -> (r: Table<V>)
        ensures
            r.wf(),
            r@ == Map::<Seq<char>, V>::empty(),
    {
        Table { entries: Vec::new() }
    }

    /// The position of the entry named `key`.
    fn position(&self, key: &str) -> (r: Option<usize>)
        ensures
            match r {
                Some(i) => names(self.entries@, key@, i as int),
                None => !self@.contains_key(key@),
            },
    {
        let wanted = key.to_owned();
        let n = self.entries.len();
        let mut i: usize = 0;
        while i < n
            invariant
                n == self.entries.len(),
                i <= n,
                wanted@ == key@,
                forall|j: int| 0 <= j < i ==> !names(self.entries@, key@, j),
            decreases n - i,
        {
            if self.entries[i].0 == wanted {
                return Some(i);
            }
            i += 1;
        }
        None
    }

    /// Stores `value` under `key`, in place of what was there.
    pub fn put(&mut self, key: &str, value: V)
        requires
            old(self).wf(),
        ensures
            final(self).wf(),
            final(self)@ == old(self)@.insert(key@, value),
    {
        let entry = (key.to_owned(), value);
        match self.position(key) {
            Some(i) => {
                proof {
                    lemma_replaced(old(self).entries@, i as int, entry);
                }
                self.entries.set(i, entry);
            },
            None => {
                proof {
                    lemma_pushed(old(self).entries@, entry);
                }
                self.entries.push(entry);
            },
        }
    }

    /// Takes `key` out of the table, and returns what it held.
    pub fn take(&mut self, key: &str) -> (r: Option<V>)
        requires
            old(self).wf(),
        ensures
            final(self).wf(),
            final(self)@ == old(self)@.remove(key@),
            r == if old(self)@.contains_key(key@) {
                Some(old(self)@[key@])
            } else {
                None
            },
    {
        match self.position(key) {
            Some(i) => {
                proof {
                    lemma_removed(old(self).entries@, i as int);
                }
                let entry = self.entries.remove(i);
                Some(entry.1)
            },
            None => None,
        }
    }

    /// What `key` holds.
    pub fn get(&self, key: &str) -> (r: Option<&V>)
        requires
            self.wf(),
        ensures
            r == if self@.contains_key(key@) {
                Some(&self@[key@])
            } else {
                None
            },
    {
        match self.position(key) {
            Some(i) => {
                Some(&self.entries[i].1)
            },
            None => None,
        }
    }
}

/// The entry at a position is what the map holds under its name.
proof fn lemma_named<V>(entries: Seq<(String, V)>, i: int)
    requires
        distinct(entries),
        0 <= i < entries.len(),
    ensures
        as_map(entries).contains_key(entries[i].0@),
        as_map(entries)[entries[i].0@] == entries[i].1,
{
    let key = entries[i].0@;
    assert(names(entries, key, i));
}

/// Taking an entry out keeps the names distinct and removes its name.
proof fn lemma_removed<V>(entries: Seq<(String, V)>, i: int)
    requires
        distinct(entries),
        0 <= i < entries.len(),
    ensures
        distinct(entries.remove(i)),
        as_map(entries.remove(i)) == as_map(entries).remove(entries[i].0@),
        as_map(entries).contains_key(entries[i].0@),
        as_map(entries)[entries[i].0@] == entries[i].1,
{
    lemma_named(entries, i);
    let after = entries.remove(i);
    let gone = entries[i].0@;
    assert forall|key: Seq<char>| #[trigger]
        as_map(after).contains_key(key) == as_map(entries).remove(gone).contains_key(key) by {
        if exists|j: int| names(after, key, j) {
            let j = choose|j: int| names(after, key, j);
            let j0 = if j < i { j } else { j + 1 };
            assert(names(entries, key, j0));
        }
        if key != gone && exists|j: int| names(entries, key, j) {
            let j = choose|j: int| names(entries, key, j);
            let j1 = if j < i { j } else { j - 1 };
            assert(names(after, key, j1));
        }
    }
}

/// Replacing the entry of a name by one of the same name keeps the names
/// distinct and changes the value under that name only.
proof fn lemma_replaced<V>(entries: Seq<(String, V)>, i: int, entry: (String, V))
    requires
        distinct(entries),
        0 <= i < entries.len(),
        entries[i].0@ == entry.0@,
    ensures
        distinct(entries.update(i, entry)),
        as_map(entries.update(i, entry)) == as_map(entries).insert(entry.0@, entry.1),
{
    let after = entries.update(i, entry);
    assert forall|key: Seq<char>| #[trigger]
        as_map(after).contains_key(key) == as_map(entries).insert(entry.0@, entry.1).contains_key(
            key,
        ) by {
        if exists|j: int| names(after, key, j) {
            let j = choose|j: int| names(after, key, j);
            assert(names(entries, key, j));
        }
        if exists|j: int| names(entries, key, j) {
            let j = choose|j: int| names(entries, key, j);
            assert(names(after, key, j));
        }
        if key == entry.0@ {
            assert(names(after, key, i));
        }
    }
}

/// Appending an entry with a new name keeps the names distinct and adds
/// that name with its value.
proof fn lemma_pushed<V>(entries: Seq<(String, V)>, entry: (String, V))
    requires
        distinct(entries),
        !as_map(entries).contains_key(entry.0@),
    ensures
        distinct(entries.push(entry)),
        as_map(entries.push(entry)) == as_map(entries).insert(entry.0@, entry.1),
{
    let after = entries.push(entry);
    let n = entries.len() as int;
    assert forall|i: int, j: int|
        0 <= i < after.len() && 0 <= j < after.len() && i != j implies #[trigger] after[i].0@
        != #[trigger] after[j].0@ by {
        if i < n && j < n {
        } else if i < n {
            assert(names(entries, entries[i].0@, i));
        } else {
            assert(names(entries, entries[j].0@, j));
        }
    }
    assert forall|key: Seq<char>| #[trigger]
        as_map(after).contains_key(key) == as_map(entries).insert(entry.0@, entry.1).contains_key(
            key,
        ) by {
        if exists|j: int| names(after, key, j) {
            let j = choose|j: int| names(after, key, j);
            if j < n {
                assert(names(entries, key, j));
            }
        }
        if exists|j: int| names(entries, key, j) {
            let j = choose|j: int| names(entries, key, j);
            assert(names(after, key, j));
        }
        if key == entry.0@ {
            assert(names(after, key, n));
        }
    }
    assert forall|key: Seq<char>| #[trigger] as_map(after).contains_key(key) implies as_map(
        after,
    )[key] == as_map(entries).insert(entry.0@, entry.1)[key] by {
        if key == entry.0@ {
            assert(names(after, key, n));
        }
    }
}

} // verus!
