use vstd::prelude::*;
use crate::live_ptr::LiveModuleId;

verus! {

/// The first index at or after `from` whose entry is keyed by the module.
pub open spec fn position_from<V>(entries: Seq<(LiveModuleId, V)>, key: LiveModuleId, from: int) -> Option<int>
    decreases entries.len() - from,
{
    if from < 0 || from >= entries.len() {
        None
    } else if entries[from].0 == key {
        Some(from)
    } else {
        position_from(entries, key, from + 1)
    }
}

/// The first index whose entry is keyed by the module.
pub open spec fn position<V>(entries: Seq<(LiveModuleId, V)>, key: LiveModuleId) -> Option<int> {
    position_from(entries, key, 0)
}

/// Whether some entry is keyed by the module.
pub open spec fn has_module<V>(entries: Seq<(LiveModuleId, V)>, key: LiveModuleId) -> bool {
    position(entries, key) is Some
}

/// What the first entry keyed by the module holds.
pub open spec fn lookup<V>(entries: Seq<(LiveModuleId, V)>, key: LiveModuleId) -> Option<V> {
    match position(entries, key) {
        Some(index) => Some(entries[index].1),
        None => None,
    }
}

/// The table with `value` as what the module holds: in place of the first
/// entry keyed by the module, or as a new last entry.
pub open spec fn table_put<V>(entries: Seq<(LiveModuleId, V)>, key: LiveModuleId, value: V) -> Seq<
    (LiveModuleId, V),
> {
    match position(entries, key) {
        Some(index) => entries.update(index, (key, value)),
        None => entries.push((key, value)),
    }
}

/// Whether no two entries are keyed by the same module.
pub open spec fn distinct_modules<V>(entries: Seq<(LiveModuleId, V)>) -> bool {
    forall|i: int, j: int| 0 <= i < j < entries.len() ==> (#[trigger] entries[i]).0 != (#[trigger] entries[j]).0
}

/// `position_from` gives the first index from `from` on that is keyed by the
/// module, and nothing exactly when no entry from there on is keyed by it.
pub proof fn lemma_position_from<V>(entries: Seq<(LiveModuleId, V)>, key: LiveModuleId, from: int)
    requires
        0 <= from,
    ensures
        match position_from(entries, key, from) {
            Some(index) => {
                &&& from <= index < entries.len()
                &&& entries[index].0 == key
                &&& forall|j: int| from <= j < index ==> (#[trigger] entries[j]).0 != key
            },
            None => forall|j: int| from <= j < entries.len() ==> (#[trigger] entries[j]).0 != key,
        },
    decreases entries.len() - from,
{
    if from < entries.len() && entries[from].0 != key {
        lemma_position_from(entries, key, from + 1);
    }
}

/// `position` gives the first index keyed by the module, and nothing exactly
/// when no entry is keyed by it.
pub proof fn lemma_position<V>(entries: Seq<(LiveModuleId, V)>, key: LiveModuleId)
    ensures
        match position(entries, key) {
            Some(index) => {
                &&& 0 <= index < entries.len()
                &&& entries[index].0 == key
                &&& forall|j: int| 0 <= j < index ==> (#[trigger] entries[j]).0 != key
            },
            None => forall|j: int| 0 <= j < entries.len() ==> (#[trigger] entries[j]).0 != key,
        },
{
    lemma_position_from(entries, key, 0);
}

/// An index that is keyed by the module, with none before it keyed so, is
/// the module's position.
pub proof fn lemma_position_is<V>(entries: Seq<(LiveModuleId, V)>, key: LiveModuleId, index: int)
    requires
        0 <= index < entries.len(),
        entries[index].0 == key,
        forall|j: int| 0 <= j < index ==> (#[trigger] entries[j]).0 != key,
    ensures
        position(entries, key) == Some(index),
{
    lemma_position(entries, key);
}

/// Where no entry is keyed by the module, it has no position.
pub proof fn lemma_position_none<V>(entries: Seq<(LiveModuleId, V)>, key: LiveModuleId)
    requires
        forall|j: int| 0 <= j < entries.len() ==> (#[trigger] entries[j]).0 != key,
    ensures
        position(entries, key) is None,
{
    lemma_position(entries, key);
}

/// Finds the first entry keyed by a module.
pub fn find_module<V>(entries: &Vec<(LiveModuleId, V)>, key: LiveModuleId) -> (r: Option<usize>)
    ensures
        match r {
            Some(index) => position(entries@, key) == Some(index as int) && index < entries@.len(),
            None => position(entries@, key) is None,
        },
{
    let mut i: usize = 0;
    while i < entries.len()
        invariant
            i <= entries@.len(),
            position_from(entries@, key, i as int) == position(entries@, key),
        decreases entries@.len() - i,
    {
        if entries[i].0 == key {
            return Some(i);
        }
        i += 1;
    }
    None
}

/// Whether a list of modules holds a module.
pub fn holds_module(modules: &Vec<LiveModuleId>, key: LiveModuleId) -> (r: bool)
    ensures
        r == modules@.contains(key),
{
    let mut i: usize = 0;
    while i < modules.len()
        invariant
            i <= modules@.len(),
            forall|j: int| 0 <= j < i ==> modules@[j] != key,
        decreases modules@.len() - i,
    {
        if modules[i] == key {
            return true;
        }
        i += 1;
    }
    false
}

/// What a new last entry does to the positions: every module that had one
/// keeps it, and the new entry's module, if it had none, stands last.
pub proof fn lemma_position_push<V>(entries: Seq<(LiveModuleId, V)>, entry: (LiveModuleId, V), key: LiveModuleId)
    ensures
        position(entries.push(entry), key) == match position(entries, key) {
            Some(index) => Some(index),
            None => if entry.0 == key {
                Some(entries.len() as int)
            } else {
                None
            },
        },
{
    let after = entries.push(entry);
    lemma_position(entries, key);
    lemma_position(after, key);
    match position(entries, key) {
        Some(index) => {
            assert(after[index] == entries[index]);
            assert forall|j: int| 0 <= j < index implies (#[trigger] after[j]).0 != key by {
                assert(after[j] == entries[j]);
            }
            lemma_position_is(after, key, index);
        },
        None => {
            assert forall|j: int| 0 <= j < entries.len() implies (#[trigger] after[j]).0 != key by {
                assert(after[j] == entries[j]);
            }
            if entry.0 == key {
                lemma_position_is(after, key, entries.len() as int);
            } else {
                lemma_position_none(after, key);
            }
        },
    }
}

/// What a new value for a module does to the positions: none of them
/// changes, but that the module has one afterwards.
pub proof fn lemma_position_put<V>(entries: Seq<(LiveModuleId, V)>, key: LiveModuleId, value: V, other: LiveModuleId)
    ensures
        position(table_put(entries, key, value), other) == match position(entries, other) {
            Some(index) => Some(index),
            None => if key == other {
                Some(entries.len() as int)
            } else {
                None
            },
        },
        lookup(table_put(entries, key, value), other) == if key == other {
            Some(value)
        } else {
            lookup(entries, other)
        },
{
    let after = table_put(entries, key, value);
    lemma_position(entries, key);
    lemma_position(entries, other);
    match position(entries, key) {
        Some(at) => {
            match position(entries, other) {
                Some(index) => {
                    assert(after[index].0 == other);
                    assert forall|j: int| 0 <= j < index implies (#[trigger] after[j]).0 != other by {
                        assert(entries[j].0 != other);
                    }
                    lemma_position_is(after, other, index);
                },
                None => {
                    assert forall|j: int| 0 <= j < after.len() implies (#[trigger] after[j]).0 != other by {
                        assert(entries[j].0 != other);
                    }
                    lemma_position_none(after, other);
                },
            }
        },
        None => {
            lemma_position_push(entries, (key, value), other);
        },
    }
}

/// Giving a module the same value a second time changes nothing.
pub proof fn lemma_put_twice<V>(entries: Seq<(LiveModuleId, V)>, key: LiveModuleId, value: V)
    ensures
        table_put(table_put(entries, key, value), key, value) == table_put(entries, key, value),
{
    let once = table_put(entries, key, value);
    lemma_position(entries, key);
    lemma_position_put(entries, key, value, key);
    assert(table_put(once, key, value) =~= once);
}

/// A new value for a module keeps a table in which every module has one
/// entry such a table.
pub proof fn lemma_put_distinct<V>(entries: Seq<(LiveModuleId, V)>, key: LiveModuleId, value: V)
    requires
        distinct_modules(entries),
    ensures
        distinct_modules(table_put(entries, key, value)),
{
    let after = table_put(entries, key, value);
    lemma_position(entries, key);
    assert forall|i: int, j: int| 0 <= i < j < after.len() implies (#[trigger] after[i]).0 != (
    #[trigger] after[j]).0 by {
        match position(entries, key) {
            Some(at) => {
                assert(after[i].0 == entries[i].0 && after[j].0 == entries[j].0);
            },
            None => {
                assert(after[i] == entries[i]);
                if j < entries.len() {
                    assert(after[j] == entries[j]);
                }
            },
        }
    }
}

/// Gives a module a new value: in place of the first entry keyed by it, or
/// as a new last entry.
pub fn put_entry<V>(entries: &mut Vec<(LiveModuleId, V)>, key: LiveModuleId, value: V)
    ensures
        final(entries)@ == table_put(old(entries)@, key, value),
        distinct_modules(old(entries)@) ==> distinct_modules(final(entries)@),
{
    proof {
        if distinct_modules(entries@) {
            lemma_put_distinct(entries@, key, value);
        }
    }
    match find_module(entries, key) {
        Some(index) => {
            entries.set(index, (key, value));
        },
        None => {
            entries.push((key, value));
        },
    }
}

} // verus!
