//! Entries by name, where the last entry of a name wins.

use vstd::prelude::*;

verus! {

/// What stands under a name in a run of entries.
pub trait Entry {
    /// What an entry holds for its name.
    type Value;

    /// The name of the entry, and what it holds.
    spec fn entry(&self) -> (Seq<char>, Self::Value);

    /// Whether `name` is the name of the entry.
    fn has_name(&self, name: &str) -> (r: bool)
        ensures
            r == (self.entry().0 == name@),
    ;
}

/// The names and values of a run of entries, in order.
pub open spec fn entries_of<T: Entry>(items: Seq<T>) -> Seq<(Seq<char>, T::Value)> {
    items.map_values(|item: T| item.entry())
}

/// What a run of entries comes to: a later entry of a name replaces an
/// earlier one.
pub open spec fn last_wins<V>(entries: Seq<(Seq<char>, V)>) -> Map<Seq<char>, V>
    decreases entries.len(),
{
    if entries.len() == 0 {
        Map::empty()
    } else {
        last_wins(entries.drop_last()).insert(entries.last().0, entries.last().1)
    }
}

/// The entry at `at` is the last of its name.
pub open spec fn last_of_its_name<V>(entries: Seq<(Seq<char>, V)>, at: int) -> bool {
    &&& 0 <= at < entries.len()
    &&& forall|i: int| at < i < entries.len() ==> entries[i].0 != entries[at].0
}

/// A name that no entry has stands for nothing.
pub proof fn lemma_absent<V>(entries: Seq<(Seq<char>, V)>, name: Seq<char>)
    requires
        forall|i: int| 0 <= i < entries.len() ==> entries[i].0 != name,
    ensures
        !last_wins(entries).contains_key(name),
    decreases entries.len(),
{
    if entries.len() > 0 {
        lemma_absent(entries.drop_last(), name);
    }
}

/// A name stands for what its last entry holds.
pub proof fn lemma_found<V>(entries: Seq<(Seq<char>, V)>, at: int)
    requires
        last_of_its_name(entries, at),
    ensures
        last_wins(entries).contains_key(entries[at].0),
        last_wins(entries)[entries[at].0] == entries[at].1,
    decreases entries.len(),
{
    if at < entries.len() - 1 {
        lemma_found(entries.drop_last(), at);
    }
}

/// A new value in the last entry of a name is a new value for the name,
/// and changes nothing else.
pub proof fn lemma_update<V>(entries: Seq<(Seq<char>, V)>, at: int, value: V)
    requires
        last_of_its_name(entries, at),
    ensures
        last_wins(entries.update(at, (entries[at].0, value))) == last_wins(entries).insert(
            entries[at].0,
            value,
        ),
    decreases entries.len(),
{
    let updated = entries.update(at, (entries[at].0, value));
    if at < entries.len() - 1 {
        lemma_update(entries.drop_last(), at, value);
        assert(updated.drop_last() =~= entries.drop_last().update(at, (entries[at].0, value)));
    } else {
        assert(updated.drop_last() =~= entries.drop_last());
    }
    assert(last_wins(updated) =~= last_wins(entries).insert(entries[at].0, value));
}

/// One more entry is a new value for its name, and changes nothing else.
pub proof fn lemma_push<V>(entries: Seq<(Seq<char>, V)>, entry: (Seq<char>, V))
    ensures
        last_wins(entries.push(entry)) == last_wins(entries).insert(entry.0, entry.1),
{
    assert(entries.push(entry).drop_last() =~= entries);
}

/// The index of the last entry of `name`, if there is one.
pub fn last_position<T: Entry>(items: &Vec<T>, name: &str) -> (r: Option<usize>)
    ensures
        match r {
            Some(at) => {
                &&& last_of_its_name(entries_of(items@), at as int)
                &&& items[at as int].entry().0 == name@
                &&& last_wins(entries_of(items@)).contains_key(name@)
                &&& last_wins(entries_of(items@))[name@] == items[at as int].entry().1
            },
            None => !last_wins(entries_of(items@)).contains_key(name@),
        },
{
    let mut at: usize = items.len();
    while at > 0
        invariant
            at <= items.len(),
            forall|i: int| at <= i < items.len() ==> entries_of(items@)[i].0 != name@,
        decreases at,
    {
        at = at - 1;
        if items[at].has_name(name) {
            proof {
                lemma_found(entries_of(items@), at as int);
            }
            return Some(at);
        }
    }
    proof {
        lemma_absent(entries_of(items@), name@);
    }
    None
}

} // verus!
