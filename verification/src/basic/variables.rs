//! The variables of a run: a list of names with their values, read as a map
//! in which a later entry for a name hides the earlier ones.
use vstd::prelude::*;
use crate::text::same_text;

verus! {

/// The map that a list of bindings stands for.
pub open spec fn bindings(list: Seq<(String, u16)>) -> Map<Seq<char>, u16>
    decreases list.len(),
{
    if list.len() == 0 {
        Map::empty()
    } else {
        bindings(list.drop_last()).insert(list.last().0@, list.last().1)
    }
}

/// Whether `at` is the last entry of `list` for `name`.
pub open spec fn is_last_entry(list: Seq<(String, u16)>, name: Seq<char>, at: int) -> bool {
    &&& 0 <= at < list.len()
    &&& list[at].0@ == name
    &&& forall|k: int| at < k < list.len() ==> (#[trigger] list[k]).0@ != name
}

/// A name without an entry has no value.
pub proof fn lemma_unbound(list: Seq<(String, u16)>, name: Seq<char>)
    requires
        forall|k: int| 0 <= k < list.len() ==> (#[trigger] list[k]).0@ != name,
    ensures
        !bindings(list).contains_key(name),
    decreases list.len(),
{
    if list.len() > 0 {
        lemma_unbound(list.drop_last(), name);
    }
}

/// The value of a name is that of its last entry.
pub proof fn lemma_bound(list: Seq<(String, u16)>, name: Seq<char>, at: int)
    requires
        is_last_entry(list, name, at),
    ensures
        bindings(list).contains_key(name),
        bindings(list)[name] == list[at].1,
    decreases list.len(),
{
    if at < list.len() - 1 {
        lemma_bound(list.drop_last(), name, at);
    }
}

/// Changing the value in the last entry for a name changes the value of that
/// name and of no other.
pub proof fn lemma_rebound(list: Seq<(String, u16)>, at: int, entry: (String, u16))
    requires
        is_last_entry(list, entry.0@, at),
    ensures
        bindings(list.update(at, entry)) == bindings(list).insert(entry.0@, entry.1),
    decreases list.len(),
{
    let changed = list.update(at, entry);
    if at < list.len() - 1 {
        lemma_rebound(list.drop_last(), at, entry);
        assert(changed.drop_last() =~= list.drop_last().update(at, entry));
    } else {
        assert(changed.drop_last() =~= list.drop_last());
    }
}

/// The index of the last entry for `name`, if it has one.
pub fn find(list: &Vec<(String, u16)>, name: &str) -> (found: Option<usize>)
    ensures
        match found {
            Some(at) => is_last_entry(list@, name@, at as int),
            None => forall|k: int| 0 <= k < list@.len() ==> (#[trigger] list@[k]).0@ != name@,
        },
{
    let mut i: usize = list.len();
    while i > 0
        invariant
            i <= list.len(),
            forall|k: int| i <= k < list@.len() ==> (#[trigger] list@[k]).0@ != name@,
        decreases i,
    {
        i -= 1;
        if same_text(list[i].0.as_str(), name) {
            return Some(i);
        }
    }
    None
}

/// The value of `name`, if it has one.
pub fn lookup(list: &Vec<(String, u16)>, name: &str) -> (value: Option<u16>)
    ensures
        value == if bindings(list@).contains_key(name@) {
            Some(bindings(list@)[name@])
        } else {
            None
        },
{
    match find(list, name) {
        Some(at) => {
            proof {
                lemma_bound(list@, name@, at as int);
            }
            Some(list[at].1)
        },
        None => {
            proof {
                lemma_unbound(list@, name@);
            }
            None
        },
    }
}

/// Gives `name` the value `value`.
pub fn assign(list: &mut Vec<(String, u16)>, name: &str, value: u16)
    ensures
        bindings(final(list)@) == bindings(old(list)@).insert(name@, value),
{
    match find(list, name) {
        Some(at) => {
            let entry = (name.to_owned(), value);
            proof {
                lemma_rebound(list@, at as int, entry);
            }
            list.set(at, entry);
        },
        None => {
            list.push((name.to_owned(), value));
            assert(list@.drop_last() =~= old(list)@);
        },
    }
}

} // verus!
