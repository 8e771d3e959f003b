//! A small map from names to values, kept as a list of entries.

use crate::chars::same_text;
use vstd::prelude::*;

verus! {

/// A name and the value bound to it.
#[derive(Debug)]
pub struct Entry<V> {
    pub name: String,
    pub value: V,
}

/// The map that a sequence of entries stands for; of two entries with one
/// name the later one counts.
pub open spec fn bindings<V: View>(entries: Seq<Entry<V>>) -> Map<Seq<char>, V::V>
    decreases entries.len(),
{
    if entries.len() == 0 {
        Map::empty()
    } else {
        bindings(entries.drop_last()).insert(entries.last().name@, entries.last().value@)
    }
}

/// No entry from `from` on has the name `name`.
pub open spec fn absent_from<V>(entries: Seq<Entry<V>>, from: int, name: Seq<char>) -> bool {
    forall|j: int| from <= j < entries.len() ==> (#[trigger] entries[j]).name@ != name
}

proof fn lemma_bindings_absent<V: View>(entries: Seq<Entry<V>>, name: Seq<char>)
    requires
        absent_from(entries, 0, name),
    ensures
        !bindings(entries).contains_key(name),
    decreases entries.len(),
{
    if entries.len() > 0 {
        lemma_bindings_absent(entries.drop_last(), name);
    }
}

proof fn lemma_bindings_present<V: View>(entries: Seq<Entry<V>>, i: int)
    requires
        0 <= i < entries.len(),
        absent_from(entries, i + 1, entries[i].name@),
    ensures
        bindings(entries).contains_key(entries[i].name@),
        bindings(entries)[entries[i].name@] == entries[i].value@,
    decreases entries.len(),
{
    if i < entries.len() - 1 {
        lemma_bindings_present(entries.drop_last(), i);
    }
}

proof fn lemma_bindings_update<V: View>(entries: Seq<Entry<V>>, i: int, entry: Entry<V>)
    requires
        0 <= i < entries.len(),
        absent_from(entries, i + 1, entry.name@),
        entry.name@ == entries[i].name@,
    ensures
        bindings(entries.update(i, entry)) == bindings(entries).insert(entry.name@, entry.value@),
    decreases entries.len(),
{
    let updated = entries.update(i, entry);
    if i == entries.len() - 1 {
        assert(updated.drop_last() =~= entries.drop_last());
        assert(bindings(updated) =~= bindings(entries).insert(entry.name@, entry.value@));
    } else {
        lemma_bindings_update(entries.drop_last(), i, entry);
        assert(updated.drop_last() =~= entries.drop_last().update(i, entry));
        assert(updated.last() == entries.last());
        assert(entries.last().name@ != entry.name@);
        assert(bindings(updated) =~= bindings(entries).insert(entry.name@, entry.value@));
    }
}

/// A map from names to values. Its view is the map itself.
#[derive(Debug)]
pub struct Dictionary<V> {
    entries: Vec<Entry<V>>,
}

impl<V: View> View for Dictionary<V> {
    type V = Map<Seq<char>, V::V>;

    closed spec fn view(&self) -> Map<Seq<char>, V::V> {
        bindings(self.entries@)
    }
}

impl<V: View> Dictionary<V> {
    /// A dictionary without entries.
    pub fn new() -> (r: Self)
        ensures
            r@ == Map::<Seq<char>, V::V>::empty(),
    {
        Dictionary { entries: Vec::new() }
    }

    /// Finds the last entry named `name`.
    fn find(&self, name: &str) -> (r: Option<usize>)
        ensures
            r matches Some(i) ==> i < self.entries.len() && self.entries[i as int].name@ == name@
                && absent_from(self.entries@, i + 1, name@),
            r is None ==> absent_from(self.entries@, 0, name@),
    {
        let mut i: usize = self.entries.len();
        while i > 0
            invariant
                i <= self.entries.len(),
                absent_from(self.entries@, i as int, name@),
            decreases i,
        {
            i -= 1;
            if same_text(self.entries[i].name.as_str(), name) {
                return Some(i);
            }
        }
        None
    }

    /// Binds `name` to `value`, in place of what `name` was bound to before.
    pub fn insert(&mut self, name: String, value: V)
        ensures
            final(self)@ == old(self)@.insert(name@, value@),
    {
        match self.find(name.as_str()) {
            Some(i) => {
                proof {
                    lemma_bindings_update(self.entries@, i as int, Entry { name, value });
                }
                self.entries[i] = Entry { name, value };
            },
            None => {
                proof {
                    assert(self.entries@.push(Entry { name, value }).drop_last() =~= self.entries@);
                }
                self.entries.push(Entry { name, value });
            },
        }
    }

    /// The value that `name` is bound to.
    pub fn get(&self, name: &str) -> (r: Option<&V>)
        ensures
            r is Some <==> self@.contains_key(name@),
            r matches Some(value) ==> value@ == self@[name@],
    {
        match self.find(name) {
            Some(i) => {
                proof {
                    lemma_bindings_present(self.entries@, i as int);
                }
                Some(&self.entries[i].value)
            },
            None => {
                proof {
                    lemma_bindings_absent(self.entries@, name@);
                }
                None
            },
        }
    }

    /// The entries that make up the dictionary: read in their order, they
    /// give its bindings.
    pub fn entries(&self) -> (r: &Vec<Entry<V>>)
        ensures
            bindings(r@) == self@,
    {
        &self.entries
    }
}

} // verus!
