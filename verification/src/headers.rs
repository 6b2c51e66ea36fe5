//! The headers of a request: a map from names to values in which a name
//! occurs once and the value set last is the one that stays.

use vstd::prelude::*;
use vstd::string::*;

use crate::text::same_text;

verus! {

/// The map that the first `n` entries spell, a later entry replacing an
/// earlier one of the same name.
pub open spec fn entries_map(entries: Seq<(String, String)>, n: int) -> Map<Seq<char>, Seq<char>>
    decreases n,
{
    if n <= 0 {
        Map::empty()
    } else {
        entries_map(entries, n - 1).insert(entries[n - 1].0@, entries[n - 1].1@)
    }
}

/// Whether no two entries have the same name.
pub open spec fn distinct_names(entries: Seq<(String, String)>) -> bool {
    forall|i: int, j: int|
        0 <= i < j < entries.len() ==> (#[trigger] entries[i]).0@ != (#[trigger] entries[j]).0@
}

/// A map from header names to header values.
#[derive(Debug)]
pub struct Headers {
    entries: Vec<(String, String)>,
}

impl View for Headers {
    type V = Map<Seq<char>, Seq<char>>;

    closed spec fn view(&self) -> Map<Seq<char>, Seq<char>> {
        entries_map(self.entries@, self.entries@.len() as int)
    }
}

/// The map of some entries has exactly their names as its keys.
proof fn lemma_keys(entries: Seq<(String, String)>, n: int, name: Seq<char>)
    requires
        0 <= n <= entries.len(),
    ensures
        entries_map(entries, n).contains_key(name) <==> exists|i: int|
            0 <= i < n && (#[trigger] entries[i]).0@ == name,
    decreases n,
{
    if n > 0 {
        lemma_keys(entries, n - 1, name);
        if entries[n - 1].0@ == name {
            assert(entries[n - 1].0@ == name);
        }
    }
}

/// Where names are distinct, the map gives each name the value of its entry.
proof fn lemma_value(entries: Seq<(String, String)>, n: int, i: int)
    requires
        0 <= i < n <= entries.len(),
        distinct_names(entries),
    ensures
        entries_map(entries, n).contains_key(entries[i].0@),
        entries_map(entries, n)[entries[i].0@] == entries[i].1@,
    decreases n,
{
    if i < n - 1 {
        lemma_value(entries, n - 1, i);
        assert(entries[i].0@ != entries[n - 1].0@);
    }
}

/// Entries that agree on their first `n` places spell the same map there.
proof fn lemma_same_prefix(a: Seq<(String, String)>, b: Seq<(String, String)>, n: int)
    requires
        0 <= n <= a.len(),
        n <= b.len(),
        forall|i: int| 0 <= i < n ==> a[i] == b[i],
    ensures
        entries_map(a, n) == entries_map(b, n),
    decreases n,
{
    if n > 0 {
        lemma_same_prefix(a, b, n - 1);
    }
}

/// Where names are distinct, giving the entry at `i` a new value is an
/// insertion under its name.
proof fn lemma_replace(entries: Seq<(String, String)>, n: int, i: int, entry: (String, String))
    requires
        0 <= i < entries.len(),
        0 <= n <= entries.len(),
        distinct_names(entries),
        entry.0@ == entries[i].0@,
    ensures
        entries_map(entries.update(i, entry), n) == if i < n {
            entries_map(entries, n).insert(entry.0@, entry.1@)
        } else {
            entries_map(entries, n)
        },
    decreases n,
{
    let updated = entries.update(i, entry);
    if n > 0 {
        lemma_replace(entries, n - 1, i, entry);
        if i == n - 1 {
            assert(entries_map(updated, n) =~= entries_map(entries, n).insert(entry.0@, entry.1@));
        } else if i < n - 1 {
            assert(entries[i].0@ != entries[n - 1].0@);
            assert(entries_map(updated, n) =~= entries_map(entries, n).insert(entry.0@, entry.1@));
        }
    }
}

impl Headers {
    #[verifier::type_invariant]
    spec fn names_are_distinct(&self) -> bool {
        distinct_names(self.entries@)
    }

    /// An empty map.
    pub fn new() -> (headers: Headers)
        ensures
            headers@ == Map::<Seq<char>, Seq<char>>::empty(),
    {
        Headers { entries: Vec::new() }
    }

    /// Whether the map holds no header.
    pub fn is_empty(&self) -> (r: bool)
        ensures
            r == (self@ == Map::<Seq<char>, Seq<char>>::empty()),
    {
        proof {
            if self.entries@.len() > 0 {
                assert(self@.contains_key(self.entries@[self.entries@.len() - 1].0@));
            }
        }
        self.entries.len() == 0
    }

    /// The index of the entry named `name`.
    fn find(&self, name: &str) -> (r: Option<usize>)
        ensures
            match r {
                Some(i) => i < self.entries@.len() && self.entries@[i as int].0@ == name@,
                None => forall|i: int|
                    0 <= i < self.entries@.len() ==> (#[trigger] self.entries@[i]).0@ != name@,
            },
    {
        let mut i: usize = 0;
        while i < self.entries.len()
            invariant
                i <= self.entries@.len(),
                forall|j: int| 0 <= j < i ==> (#[trigger] self.entries@[j]).0@ != name@,
            decreases self.entries@.len() - i,
        {
            if same_text(self.entries[i].0.as_str(), name) {
                return Some(i);
            }
            i += 1;
        }
        None
    }

    /// The value of the header named `name`.
    pub fn get(&self, name: &str) -> (r: Option<&String>)
        ensures
            match r {
                Some(value) => self@.contains_key(name@) && self@[name@] == value@,
                None => !self@.contains_key(name@),
            },
    {
        proof {
            use_type_invariant(self);
            lemma_keys(self.entries@, self.entries@.len() as int, name@);
        }
        match self.find(name) {
            Some(i) => {
                proof {
                    lemma_value(self.entries@, self.entries@.len() as int, i as int);
                }
                Some(&self.entries[i].1)
            },
            None => None,
        }
    }

    /// Sets the header named `name` to `value`, replacing the value it had.
    pub fn insert(&mut self, name: String, value: String)
        ensures
            final(self)@ == old(self)@.insert(name@, value@),
    {
        proof {
            use_type_invariant(&*self);
        }
        let ghost before = self.entries@;
        let found: Option<usize> = self.find(name.as_str());
        let mut entries: Vec<(String, String)> = Vec::new();
        core::mem::swap(&mut self.entries, &mut entries);
        match found {
            Some(i) => {
                proof {
                    lemma_replace(before, before.len() as int, i as int, (name, value));
                }
                entries.set(i, (name, value));
            },
            None => {
                entries.push((name, value));
                proof {
                    lemma_same_prefix(before, entries@, before.len() as int);
                }
            },
        }
        assert forall|a: int, b: int| 0 <= a < b < entries@.len() implies (
        #[trigger] entries@[a]).0@ != (#[trigger] entries@[b]).0@ by {
            if b < before.len() {
                assert(before[a].0@ != before[b].0@);
            } else {
                assert(before[a].0@ != name@);
            }
        }
        self.entries = entries;
    }
}

} // verus!
