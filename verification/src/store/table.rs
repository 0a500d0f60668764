use vstd::prelude::*;

verus! {

/// Whether no two of `entries` have the same name.
pub open spec fn distinct_names<V>(entries: Seq<(String, V)>) -> bool {
    forall|i: int, j: int| 0 <= i < j < entries.len() ==> entries[i].0@ != entries[j].0@
}

/// Whether `entries` has an entry named `name`.
pub open spec fn names<V>(entries: Seq<(String, V)>, name: Seq<char>) -> bool {
    exists|i: int| 0 <= i < entries.len() && (#[trigger] entries[i]).0@ == name
}

/// Where in `entries` the entry named `name` stands.
pub open spec fn place<V>(entries: Seq<(String, V)>, name: Seq<char>) -> int {
    choose|i: int| 0 <= i < entries.len() && (#[trigger] entries[i]).0@ == name
}

/// The map from each name in `entries` to the value that stands with it.
pub open spec fn as_map<V>(entries: Seq<(String, V)>) -> Map<Seq<char>, V> {
    Map::new(|name: Seq<char>| names(entries, name), |name: Seq<char>| entries[place(entries, name)].1)
}

/// Among entries with distinct names, a name is found where it stands.
pub proof fn lemma_place<V>(entries: Seq<(String, V)>, at: int)
    requires
        distinct_names(entries),
        0 <= at < entries.len(),
    ensures
        names(entries, entries[at].0@),
        place(entries, entries[at].0@) == at,
        as_map(entries).contains_key(entries[at].0@),
        as_map(entries)[entries[at].0@] == entries[at].1,
{
    let name = entries[at].0@;
    assert((#[trigger] entries[at]).0@ == name);
    let found = place(entries, name);
    assert(0 <= found < entries.len() && entries[found].0@ == name);
    if found < at {
        assert(entries[found].0@ != entries[at].0@);
    } else if at < found {
        assert(entries[at].0@ != entries[found].0@);
    }
}

/// A table of values by name. No name stands in it twice.
pub struct Table<V> {
    entries: Vec<(String, V)>,
}

impl<V> View for Table<V> {
    type V = Map<Seq<char>, V>;

    closed spec fn view(&self) -> Map<Seq<char>, V> {
        as_map(self.entries@)
    }
}

/// Where in `entries` the entry named `name` stands, or the length of
/// `entries` where none is.
fn find<V>(entries: &Vec<(String, V)>, name: &str) -> (at: usize)
    ensures
        at <= entries@.len(),
        at < entries@.len() ==> entries@[at as int].0@ == name@,
        at == entries@.len() ==> !names(entries@, name@),
{
    let wanted: String = name.to_owned();
    let mut i: usize = 0;
    while i < entries.len()
        invariant
            i <= entries@.len(),
            wanted@ == name@,
            forall|j: int| 0 <= j < i ==> (#[trigger] entries@[j]).0@ != name@,
        decreases entries@.len() - i,
    {
        if entries[i].0 == wanted {
            return i;
        }
        i += 1;
    }
    i
}

impl<V> Table<V> {
    #[verifier::type_invariant]
    spec fn distinct(&self) -> bool {
        distinct_names(self.entries@)
    }

    /// A table without entries.
    pub fn new() -> (table: Self)
        ensures
            table@ == Map::<Seq<char>, V>::empty(),
    {
        let table = Table { entries: Vec::new() };
        assert(table@ =~= Map::<Seq<char>, V>::empty());
        table
    }

    /// Puts `value` under `name`, in place of what stood there.
    pub fn insert(&mut self, name: String, value: V)
        ensures
            final(self)@ == old(self)@.insert(name@, value),
    {
        proof {
            use_type_invariant(&*self);
        }
        let mut entries: Vec<(String, V)> = Vec::new();
        std::mem::swap(&mut entries, &mut self.entries);
        let ghost before = entries@;
        let ghost key = name@;
        let at = find(&entries, name.as_str());
        if at < entries.len() {
            entries.set(at, (name, value));
        } else {
            entries.push((name, value));
        }
        proof {
            let after = entries@;
            let spot = at as int;
            assert(after[spot].0@ == key && after[spot].1 == value);
            assert(forall|j: int| 0 <= j < before.len() && j != spot ==> after[j] == before[j]);
            assert(forall|j: int| 0 <= j < before.len() ==> after[j].0@ == before[j].0@);
            assert(distinct_names(after)) by {
                assert forall|i: int, j: int| 0 <= i < j < after.len() implies after[i].0@
                    != after[j].0@ by {
                    if j == before.len() {
                        assert((#[trigger] before[i]).0@ != key);
                    }
                }
            }
            assert(as_map(after) =~= as_map(before).insert(key, value)) by {
                assert forall|k: Seq<char>| as_map(after).contains_key(k) <==> as_map(
                    before,
                ).insert(key, value).contains_key(k) by {
                    if names(after, k) {
                        let j = place(after, k);
                        if j != spot {
                            assert((#[trigger] before[j]).0@ == k);
                        }
                    }
                    if names(before, k) {
                        let j = place(before, k);
                        assert((#[trigger] after[j]).0@ == k);
                    }
                    if k == key {
                        assert((#[trigger] after[spot]).0@ == k);
                    }
                }
                assert forall|k: Seq<char>| as_map(after).contains_key(k) implies as_map(after)[k]
                    == as_map(before).insert(key, value)[k] by {
                    let j = place(after, k);
                    lemma_place(after, j);
                    if k != key {
                        lemma_place(before, j);
                    }
                }
            }
        }
        std::mem::swap(&mut entries, &mut self.entries);
    }

    /// The value under `name`, if there is one.
    pub fn get(&self, name: &str) -> (out: Option<&V>)
        ensures
            match out {
                Some(value) => self@.contains_key(name@) && *value == self@[name@],
                None => !self@.contains_key(name@),
            },
    {
        proof {
            use_type_invariant(self);
        }
        let at = find(&self.entries, name);
        if at < self.entries.len() {
            proof {
                lemma_place(self.entries@, at as int);
            }
            Some(&self.entries[at].1)
        } else {
            None
        }
    }

    /// Takes out what stands under `name`, if anything does.
    pub fn remove(&mut self, name: &str)
        ensures
            final(self)@ == old(self)@.remove(name@),
    {
        proof {
            use_type_invariant(&*self);
        }
        let mut entries: Vec<(String, V)> = Vec::new();
        std::mem::swap(&mut entries, &mut self.entries);
        let ghost before = entries@;
        let ghost key = name@;
        let at = find(&entries, name);
        if at < entries.len() {
            let _ = entries.remove(at);
        }
        proof {
            let after = entries@;
            let spot = at as int;
            assert(distinct_names(after));
            assert(as_map(after) =~= as_map(before).remove(key)) by {
                assert forall|k: Seq<char>| as_map(after).contains_key(k) <==> as_map(
                    before,
                ).remove(key).contains_key(k) by {
                    if names(after, k) {
                        let j = place(after, k);
                        if spot < before.len() && j >= spot {
                            assert((#[trigger] before[j + 1]).0@ == k);
                            assert(before[spot].0@ != before[j + 1].0@);
                        } else {
                            assert((#[trigger] before[j]).0@ == k);
                            if spot < before.len() {
                                assert(before[j].0@ != before[spot].0@);
                            }
                        }
                    }
                    if names(before, k) && k != key {
                        let j = place(before, k);
                        if spot < before.len() && j > spot {
                            assert((#[trigger] after[j - 1]).0@ == k);
                        } else {
                            assert((#[trigger] after[j]).0@ == k);
                        }
                    }
                }
                assert forall|k: Seq<char>| as_map(after).contains_key(k) implies as_map(after)[k]
                    == as_map(before).remove(key)[k] by {
                    let j = place(after, k);
                    lemma_place(after, j);
                    if spot < before.len() && j >= spot {
                        lemma_place(before, j + 1);
                    } else {
                        lemma_place(before, j);
                    }
                }
            }
        }
        std::mem::swap(&mut entries, &mut self.entries);
    }

    /// Takes out every entry.
    pub fn clear(&mut self)
        ensures
            final(self)@ == Map::<Seq<char>, V>::empty(),
    {
        self.entries = Vec::new();
        assert(self@ =~= Map::<Seq<char>, V>::empty());
    }

    /// The names in the table, each once, in the order in which they first
    /// came in.
    pub fn names(&self) -> (out: Vec<String>)
        ensures
            forall|name: Seq<char>|
                self@.contains_key(name) <==> exists|i: int|
                    0 <= i < out@.len() && (#[trigger] out@[i])@ == name,
            forall|i: int, j: int| 0 <= i < j < out@.len() ==> out@[i]@ != out@[j]@,
    {
        proof {
            use_type_invariant(self);
        }
        let mut out: Vec<String> = Vec::new();
        let mut i: usize = 0;
        while i < self.entries.len()
            invariant
                i <= self.entries@.len(),
                out@.len() == i,
                forall|j: int| 0 <= j < i ==> (#[trigger] out@[j])@ == self.entries@[j].0@,
            decreases self.entries@.len() - i,
        {
            out.push(self.entries[i].0.clone());
            i += 1;
        }
        proof {
            let entries = self.entries@;
            assert forall|name: Seq<char>| self@.contains_key(name) <==> exists|i: int|
                0 <= i < out@.len() && (#[trigger] out@[i])@ == name by {
                if names(entries, name) {
                    let j = place(entries, name);
                    assert((#[trigger] out@[j])@ == name);
                }
                if exists|i: int| 0 <= i < out@.len() && (#[trigger] out@[i])@ == name {
                    let j = choose|i: int| 0 <= i < out@.len() && (#[trigger] out@[i])@ == name;
                    assert((#[trigger] entries[j]).0@ == name);
                }
            }
            assert forall|i: int, j: int| 0 <= i < j < out@.len() implies out@[i]@ != out@[j]@ by {
                assert(entries[i].0@ != entries[j].0@);
            }
        }
        out
    }
}

} // verus!
