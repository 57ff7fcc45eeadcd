//! A small table from names to values, kept in the order of the names.

use crate::order::{before, lemma_before_chains, lemma_one_of_three, precedes};
use crate::text::same_text;
use vstd::prelude::*;

verus! {

/// What a list of bindings says when it is read from first to last: a later
/// binding of a name replaces an earlier one.
pub open spec fn bindings<V: View>(entries: Seq<(String, V)>) -> Map<Seq<char>, V::V>
    decreases entries.len(),
{
    if entries.len() == 0 {
        Map::empty()
    } else {
        bindings(entries.drop_last()).insert(entries.last().0@, entries.last().1@)
    }
}

/// The table that is left when the lines are read in order, starting from
/// `table`: each line that `entry` accepts binds a name, in place of what the
/// name was bound to; every other line is passed over.
pub open spec fn fill<V>(
    table: Map<Seq<char>, V>,
    lines: Seq<Seq<char>>,
    entry: spec_fn(Seq<char>) -> Option<(Seq<char>, V)>,
) -> Map<Seq<char>, V>
    decreases lines.len(),
{
    if lines.len() == 0 {
        table
    } else {
        let next = match entry(lines[0]) {
            Some((name, value)) => table.insert(name, value),
            None => table,
        };
        fill(next, lines.drop_first(), entry)
    }
}

/// What a lookup owes: the value of the name, where the table binds it.
pub open spec fn found_in(
    table: Map<Seq<char>, Seq<char>>,
    name: Seq<char>,
    value: Option<&str>,
) -> bool {
    match value {
        Some(v) => table.dom().contains(name) && table[name] == v@,
        None => !table.dom().contains(name),
    }
}

/// True when no name is bound twice.
pub open spec fn distinct<V>(entries: Seq<(String, V)>) -> bool {
    forall|i: int, j: int|
        #![trigger entries[i], entries[j]]
        0 <= i < j < entries.len() ==> entries[i].0@ != entries[j].0@
}

/// True when each name comes before the names that follow it.
pub open spec fn rising<V>(entries: Seq<(String, V)>) -> bool {
    forall|i: int, j: int|
        #![trigger entries[i], entries[j]]
        0 <= i < j < entries.len() ==> before(entries[i].0@, entries[j].0@)
}

proof fn lemma_rising_is_distinct<V>(entries: Seq<(String, V)>)
    requires
        rising(entries),
    ensures
        distinct(entries),
{
    assert forall|i: int, j: int|
        #![trigger entries[i], entries[j]]
        0 <= i < j < entries.len() implies entries[i].0@ != entries[j].0@ by {
        lemma_one_of_three(entries[i].0@, entries[j].0@);
    }
}

proof fn lemma_unbound<V: View>(entries: Seq<(String, V)>, name: Seq<char>)
    requires
        forall|i: int| 0 <= i < entries.len() ==> (#[trigger] entries[i]).0@ != name,
    ensures
        !bindings(entries).dom().contains(name),
    decreases entries.len(),
{
    if entries.len() > 0 {
        let init = entries.drop_last();
        assert forall|i: int| 0 <= i < init.len() implies (#[trigger] init[i]).0@ != name by {
            assert(init[i] == entries[i]);
        }
        lemma_unbound(init, name);
        assert(entries.last() == entries[entries.len() - 1]);
    }
}

proof fn lemma_bound<V: View>(entries: Seq<(String, V)>, at: int)
    requires
        distinct(entries),
        0 <= at < entries.len(),
    ensures
        bindings(entries).dom().contains(entries[at].0@),
        bindings(entries)[entries[at].0@] == entries[at].1@,
    decreases entries.len(),
{
    let init = entries.drop_last();
    if at < entries.len() - 1 {
        assert forall|i: int, j: int|
            #![trigger init[i], init[j]]
            0 <= i < j < init.len() implies init[i].0@ != init[j].0@ by {
            assert(init[i] == entries[i] && init[j] == entries[j]);
        }
        lemma_bound(init, at);
        assert(init[at] == entries[at]);
        assert(entries[at].0@ != entries[entries.len() - 1].0@);
    }
}

proof fn lemma_rebound<V: View>(entries: Seq<(String, V)>, at: int, entry: (String, V))
    requires
        distinct(entries),
        0 <= at < entries.len(),
        entry.0@ == entries[at].0@,
    ensures
        distinct(entries.update(at, entry)),
        rising(entries) ==> rising(entries.update(at, entry)),
        bindings(entries.update(at, entry)) == bindings(entries).insert(entry.0@, entry.1@),
    decreases entries.len(),
{
    let after = entries.update(at, entry);
    if rising(entries) {
        assert forall|i: int, j: int|
            #![trigger after[i], after[j]]
            0 <= i < j < after.len() implies before(after[i].0@, after[j].0@) by {
            assert(after[i].0@ == entries[i].0@);
            assert(after[j].0@ == entries[j].0@);
        }
    }
    assert forall|i: int, j: int|
        #![trigger after[i], after[j]]
        0 <= i < j < after.len() implies after[i].0@ != after[j].0@ by {
        assert(after[i].0@ == entries[i].0@);
        assert(after[j].0@ == entries[j].0@);
    }
    let init = entries.drop_last();
    let last = entries.last();
    if at == entries.len() - 1 {
        assert(after.drop_last() =~= init);
        assert(bindings(after) =~= bindings(entries).insert(entry.0@, entry.1@));
    } else {
        assert forall|i: int, j: int|
            #![trigger init[i], init[j]]
            0 <= i < j < init.len() implies init[i].0@ != init[j].0@ by {
            assert(init[i] == entries[i] && init[j] == entries[j]);
        }
        assert(init[at] == entries[at]);
        lemma_rebound(init, at, entry);
        assert(after.drop_last() =~= init.update(at, entry));
        assert(after.last() == last);
        assert(entries[at].0@ != entries[entries.len() - 1].0@);
        assert(bindings(after) =~= bindings(entries).insert(entry.0@, entry.1@));
    }
}

proof fn lemma_placed<V: View>(entries: Seq<(String, V)>, at: int, entry: (String, V))
    requires
        rising(entries),
        0 <= at <= entries.len(),
        forall|j: int| 0 <= j < at ==> before((#[trigger] entries[j]).0@, entry.0@),
        at < entries.len() ==> before(entry.0@, entries[at].0@),
    ensures
        rising(entries.insert(at, entry)),
        forall|j: int| 0 <= j < entries.len() ==> (#[trigger] entries[j]).0@ != entry.0@,
{
    let after = entries.insert(at, entry);
    assert forall|j: int| at <= j < entries.len() implies before(
        entry.0@,
        (#[trigger] entries[j]).0@,
    ) by {
        if j > at {
            lemma_before_chains(entry.0@, entries[at].0@, entries[j].0@);
        }
    }
    assert forall|j: int| 0 <= j < entries.len() implies (#[trigger] entries[j]).0@
        != entry.0@ by {
        lemma_one_of_three(entries[j].0@, entry.0@);
    }
    assert forall|i: int, j: int|
        #![trigger after[i], after[j]]
        0 <= i < j < after.len() implies before(after[i].0@, after[j].0@) by {
        let a = if i < at {
            i
        } else {
            i - 1
        };
        let b = if j < at {
            j
        } else {
            j - 1
        };
        if i != at {
            assert(after[i] == entries[a]);
        }
        if j != at {
            assert(after[j] == entries[b]);
        }
        if i != at && j != at {
            assert(before(entries[a].0@, entries[b].0@));
        }
    }
}

proof fn lemma_inserted<V: View>(entries: Seq<(String, V)>, at: int, entry: (String, V))
    requires
        0 <= at <= entries.len(),
        forall|j: int| 0 <= j < entries.len() ==> (#[trigger] entries[j]).0@ != entry.0@,
    ensures
        bindings(entries.insert(at, entry)) == bindings(entries).insert(entry.0@, entry.1@),
    decreases entries.len(),
{
    let after = entries.insert(at, entry);
    if at == entries.len() {
        assert(after.drop_last() =~= entries);
    } else {
        let init = entries.drop_last();
        let last = entries.last();
        assert forall|j: int| 0 <= j < init.len() implies (#[trigger] init[j]).0@ != entry.0@ by {
            assert(init[j] == entries[j]);
        }
        lemma_inserted(init, at, entry);
        assert(after.drop_last() =~= init.insert(at, entry));
        assert(after.last() == last);
        assert(entries[entries.len() - 1].0@ != entry.0@);
        assert(bindings(after) =~= bindings(entries).insert(entry.0@, entry.1@));
    }
}

/// A table from names to values. The names stand in rising order, so no
/// name is bound twice.
#[derive(Debug)]
pub struct Table<V> {
    entries: Vec<(String, V)>,
}

impl<V: View> View for Table<V> {
    type V = Map<Seq<char>, V::V>;

    closed spec fn view(&self) -> Self::V {
        bindings(self.entries@)
    }
}

impl<V> Table<V> {
    #[verifier::type_invariant]
    spec fn names_rising(&self) -> bool {
        rising(self.entries@)
    }
}

impl<V: View> Table<V> {
    /// The table that binds nothing.
    pub fn new() -> (table: Self)
        ensures
            table@ == Map::<Seq<char>, V::V>::empty(),
    {
        Table { entries: Vec::new() }
    }

    fn position(&self, name: &str) -> (at: Option<usize>)
        ensures
            match at {
                Some(i) => i < self.entries@.len() && self.entries@[i as int].0@ == name@,
                None => forall|i: int|
                    0 <= i < self.entries@.len() ==> (#[trigger] self.entries@[i]).0@ != name@,
            },
    {
        let mut i: usize = 0;
        while i < self.entries.len()
            invariant
                i <= self.entries@.len(),
                forall|j: int| 0 <= j < i ==> (#[trigger] self.entries@[j]).0@ != name@,
            decreases self.entries@.len() - i,
        {
            if same_text(self.entries[i].0.as_str(), name) {
                return Some(i);
            }
            i += 1;
        }
        None
    }

    /// The value that the name is bound to, if it is bound.
    pub fn get(&self, name: &str) -> (value: Option<&V>)
        ensures
            match value {
                Some(v) => self@.dom().contains(name@) && self@[name@] == v@,
                None => !self@.dom().contains(name@),
            },
    {
        proof {
            use_type_invariant(self);
            lemma_rising_is_distinct(self.entries@);
        }
        match self.position(name) {
            Some(i) => {
                proof {
                    lemma_bound(self.entries@, i as int);
                }
                Some(&self.entries[i].1)
            },
            None => {
                proof {
                    lemma_unbound(self.entries@, name@);
                }
                None
            },
        }
    }

    /// The table that binds the name to the value, in place of what it was
    /// bound to, and binds every other name as before.
    pub fn insert(self, name: String, value: V) -> (after: Self)
        ensures
            after@ == self@.insert(name@, value@),
    {
        proof {
            use_type_invariant(&self);
        }
        let mut entries = self.entries;
        let ghost old_entries = entries@;
        let ghost entry = (name, value);
        let mut at: usize = 0;
        while at < entries.len() && precedes(entries[at].0.as_str(), name.as_str())
            invariant
                at <= entries@.len(),
                entries@ == old_entries,
                forall|j: int| 0 <= j < at ==> before((#[trigger] entries@[j]).0@, name@),
            decreases entries@.len() - at,
        {
            at += 1;
        }
        if at < entries.len() && same_text(entries[at].0.as_str(), name.as_str()) {
            proof {
                lemma_rising_is_distinct(old_entries);
                lemma_rebound(old_entries, at as int, entry);
            }
            entries.set(at, (name, value));
        } else {
            proof {
                if at < old_entries.len() {
                    lemma_one_of_three(old_entries[at as int].0@, name@);
                }
                lemma_placed(old_entries, at as int, entry);
                lemma_inserted(old_entries, at as int, entry);
            }
            entries.insert(at, (name, value));
        }
        Table { entries }
    }
}

} // verus!
