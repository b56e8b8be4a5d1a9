use vstd::prelude::*;

use crate::text::str_equals;

verus! {

/// The level of one poker hand, as the game's API reports it.
#[derive(Clone, Copy, PartialEq, Eq, Structural, Debug)]
pub struct HandData {
    pub order: u64,
    pub level: u64,
    pub chips: u64,
    pub mult: u64,
    pub played: u64,
    pub played_this_round: u64,
}

/// The levels of the poker hands, keyed by the hand's name in the game's API.
/// No name occurs twice.
#[derive(Debug)]
pub struct ScoreTable {
    entries: Vec<(String, HandData)>,
}

/// Whether the name `k` is the key of some entry.
pub open spec fn has_key(entries: Seq<(String, HandData)>, k: Seq<char>) -> bool {
    exists|i: int| 0 <= i < entries.len() && #[trigger] entries[i].0@ == k
}

/// No two entries share a name.
pub open spec fn keys_distinct(entries: Seq<(String, HandData)>) -> bool {
    forall|i: int, j: int|
        0 <= i < entries.len() && 0 <= j < entries.len() && i != j ==> #[trigger] entries[i].0@
            != #[trigger] entries[j].0@
}

/// The map from names to levels that a list of entries stands for.
pub open spec fn entries_map(entries: Seq<(String, HandData)>) -> Map<Seq<char>, HandData> {
    Map::new(
        |k: Seq<char>| has_key(entries, k),
        |k: Seq<char>|
            entries[choose|i: int| 0 <= i < entries.len() && #[trigger] entries[i].0@ == k].1,
    )
}

/// With distinct names, the entry at `i` is what the map gives for its name.
proof fn lemma_entry_in_map(entries: Seq<(String, HandData)>, i: int)
    requires
        keys_distinct(entries),
        0 <= i < entries.len(),
    ensures
        entries_map(entries).contains_key(entries[i].0@),
        entries_map(entries)[entries[i].0@] == entries[i].1,
{
    let k = entries[i].0@;
    assert(has_key(entries, k));
    let j = choose|j: int| 0 <= j < entries.len() && #[trigger] entries[j].0@ == k;
    assert(j == i);
}

impl View for ScoreTable {
    type V = Map<Seq<char>, HandData>;

    closed spec fn view(&self) -> Map<Seq<char>, HandData> {
        entries_map(self.entries@)
    }
}

impl ScoreTable {
    #[verifier::type_invariant]
    spec fn names_distinct(self) -> bool {
        keys_distinct(self.entries@)
    }

    /// An empty table.
    pub fn new() -> (table: ScoreTable)
        ensures
            table@ == Map::<Seq<char>, HandData>::empty(),
    {
        let table = ScoreTable { entries: Vec::new() };
        assert(table@ =~= Map::<Seq<char>, HandData>::empty());
        table
    }

    /// The entries of the table, each name once.
    pub fn entries(&self) -> (entries: &[(String, HandData)])
        ensures
            keys_distinct(entries@),
            entries_map(entries@) == self@,
    {
        proof {
            use_type_invariant(self);
        }
        self.entries.as_slice()
    }

    /// The position of the entry named `name`, if there is one.
    fn position(&self, name: &str) -> (pos: Option<usize>)
        ensures
            match pos {
                Some(i) => i < self.entries.len() && self.entries@[i as int].0@ == name@,
                None => !has_key(self.entries@, name@),
            },
    {
        let mut i: usize = 0;
        while i < self.entries.len()
            invariant
                i <= self.entries.len(),
                forall|j: int| 0 <= j < i ==> self.entries@[j].0@ != name@,
            decreases self.entries.len() - i,
        {
            if str_equals(self.entries[i].0.as_str(), name) {
                return Some(i);
            }
            i = i + 1;
        }
        None
    }

    /// The level stored under `name`.
    pub fn get(&self, name: &str) -> (data: Option<&HandData>)
        ensures
            match data {
                Some(d) => self@.contains_key(name@) && *d == self@[name@],
                None => !self@.contains_key(name@),
            },
    {
        proof {
            use_type_invariant(self);
        }
        match self.position(name) {
            Some(i) => {
                proof {
                    lemma_entry_in_map(self.entries@, i as int);
                }
                Some(&self.entries[i].1)
            },
            None => None,
        }
    }

    /// Stores `data` under `name`, replacing what was stored there.
    pub fn insert(&mut self, name: String, data: HandData)
        ensures
            final(self)@ == old(self)@.insert(name@, data),
    {
        proof {
            use_type_invariant(&*self);
        }
        let ghost before = self.entries@;
        let ghost entry = (name, data);
        let found = self.position(name.as_str());
        let mut entries: Vec<(String, HandData)> = Vec::new();
        std::mem::swap(&mut entries, &mut self.entries);
        match found {
            Some(i) => {
                proof {
                    lemma_map_update(before, i as int, entry);
                }
                entries.set(i, (name, data));
            },
            None => {
                proof {
                    lemma_map_push(before, entry);
                }
                entries.push((name, data));
            },
        }
        self.entries = entries;
    }
}

/// Overwriting an entry with one of the same name keeps the names distinct
/// and stores the new level under that name.
proof fn lemma_map_update(before: Seq<(String, HandData)>, i: int, e: (String, HandData))
    requires
        keys_distinct(before),
        0 <= i < before.len(),
        e.0@ == before[i].0@,
    ensures
        keys_distinct(before.update(i, e)),
        entries_map(before.update(i, e)) == entries_map(before).insert(e.0@, e.1),
{
    let after = before.update(i, e);
    assert forall|j: int| 0 <= j < after.len() implies #[trigger] after[j].0@ == before[j].0@ by {}
    assert forall|k: Seq<char>| has_key(after, k) == has_key(before, k) by {
        if has_key(before, k) {
            let j = choose|j: int| 0 <= j < before.len() && #[trigger] before[j].0@ == k;
            assert(after[j].0@ == k);
        }
        if has_key(after, k) {
            let j = choose|j: int| 0 <= j < after.len() && #[trigger] after[j].0@ == k;
            assert(before[j].0@ == k);
        }
    }
    assert(keys_distinct(after));
    lemma_entry_in_map(before, i);
    assert forall|k: Seq<char>| #[trigger] has_key(after, k) implies entries_map(after)[k]
        == entries_map(before).insert(e.0@, e.1)[k] by {
        let j = choose|j: int| 0 <= j < after.len() && #[trigger] after[j].0@ == k;
        lemma_entry_in_map(after, j);
        lemma_entry_in_map(before, j);
    }
    assert(entries_map(after) =~= entries_map(before).insert(e.0@, e.1));
}

/// Appending an entry under a new name keeps the names distinct and adds
/// that name to the map.
proof fn lemma_map_push(before: Seq<(String, HandData)>, e: (String, HandData))
    requires
        keys_distinct(before),
        !has_key(before, e.0@),
    ensures
        keys_distinct(before.push(e)),
        entries_map(before.push(e)) == entries_map(before).insert(e.0@, e.1),
{
    let after = before.push(e);
    let n = before.len() as int;
    assert forall|j: int| 0 <= j < n implies #[trigger] after[j] == before[j] by {}
    assert(after[n] == e);
    assert forall|i: int, j: int|
        0 <= i < after.len() && 0 <= j < after.len() && i != j implies #[trigger] after[i].0@
        != #[trigger] after[j].0@ by {
        if i == n {
            assert(before[j].0@ != e.0@);
        } else if j == n {
            assert(before[i].0@ != e.0@);
        }
    }
    assert forall|k: Seq<char>| has_key(after, k) == (has_key(before, k) || k == e.0@) by {
        if has_key(before, k) {
            let j = choose|j: int| 0 <= j < before.len() && #[trigger] before[j].0@ == k;
            assert(after[j].0@ == k);
        }
        if has_key(after, k) {
            let j = choose|j: int| 0 <= j < after.len() && #[trigger] after[j].0@ == k;
            if j < n {
                assert(before[j].0@ == k);
            }
        }
        if k == e.0@ {
            assert(after[n].0@ == k);
        }
    }
    assert forall|k: Seq<char>| #[trigger] has_key(after, k) implies entries_map(after)[k]
        == entries_map(before).insert(e.0@, e.1)[k] by {
        let j = choose|j: int| 0 <= j < after.len() && #[trigger] after[j].0@ == k;
        lemma_entry_in_map(after, j);
        if j < n {
            lemma_entry_in_map(before, j);
        }
    }
    assert(entries_map(after) =~= entries_map(before).insert(e.0@, e.1));
}

} // verus!
