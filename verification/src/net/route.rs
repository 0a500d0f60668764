use std::sync::Arc;
use vstd::prelude::*;
use crate::base::error::Error;
use crate::base::link::{Linkable, Settings};
use crate::base::state::{Measure, Mode, State, StateView};
use crate::store::table::Table;

verus! {

/// Where a name leads.
#[derive(Debug, Clone)]
pub struct Entry {
    /// The address of the destination.
    pub addr: String,
    /// The weight of the route.
    pub weight: u32,
}

/// Whether `listed` holds the entries of `table` with their names: every
/// pair of it is an entry of the table, every name of the table stands in
/// it, and none stands in it twice.
pub open spec fn lists(listed: Seq<(String, Entry)>, table: Map<Seq<char>, Entry>) -> bool {
    &&& forall|i: int|
        0 <= i < listed.len() ==> table.contains_key((#[trigger] listed[i]).0@) && listed[i].1
            == table[listed[i].0@]
    &&& forall|name: Seq<char>|
        table.contains_key(name) ==> exists|i: int|
            0 <= i < listed.len() && (#[trigger] listed[i]).0@ == name
    &&& forall|i: int, j: int| 0 <= i < j < listed.len() ==> listed[i].0@ != listed[j].0@
}

/// A table from names to the addresses that they lead to.
pub struct Route {
    table: Table<Entry>,
    settings: Arc<Settings>,
    state: State,
}

impl Route {
    /// The entries by name.
    pub closed spec fn table(&self) -> Map<Seq<char>, Entry> {
        self.table@
    }

    /// The table's mode and counters.
    pub closed spec fn status(&self) -> StateView {
        self.state@
    }

    /// The settings that the table was made with, for the connections that
    /// are made to where its names lead.
    pub closed spec fn config(&self) -> Settings {
        *self.settings
    }

    /// An empty table in mode `Init`, which keeps `settings`.
    pub fn new(settings: Settings) -> (route: Route)
        ensures
            route.table() == Map::<Seq<char>, Entry>::empty(),
            route.status() == (StateView { mode: Mode::Init, measure: Measure::zero() }),
            route.config() == settings,
    {
        Route { table: Table::new(), settings: Arc::new(settings), state: State::new() }
    }

    /// The settings that the table was made with.
    pub fn settings(&self) -> (settings: &Settings)
        ensures
            *settings == self.config(),
    {
        &self.settings
    }

    /// Puts `entry` under `name`, in place of what stood there.
    pub fn add(&mut self, name: String, entry: Entry) -> (out: Result<(), Error>)
        ensures
            out is Ok,
            final(self).table() == old(self).table().insert(name@, entry),
            final(self).status() == old(self).status(),
            final(self).config() == old(self).config(),
    {
        self.table.insert(name, entry);
        Ok(())
    }

    /// Takes out the entry under `name`, if there is one.
    pub fn remove(&mut self, name: &str) -> (out: Result<(), Error>)
        ensures
            out is Ok,
            final(self).table() == old(self).table().remove(name@),
            final(self).status() == old(self).status(),
            final(self).config() == old(self).config(),
    {
        self.table.remove(name);
        Ok(())
    }

    /// A copy of the entry under `name`. Without one this is a transport
    /// error.
    pub fn get(&self, name: &str) -> (out: Result<Entry, Error>)
        ensures
            match out {
                Ok(entry) => self.table().contains_key(name@) && entry == self.table()[name@],
                Err(e) => {
                    &&& !self.table().contains_key(name@)
                    &&& e matches Error::Net(m)
                    &&& m@ == "route not found"@
                },
            },
    {
        match self.table.get(name) {
            Some(entry) => Ok(Entry { addr: entry.addr.clone(), weight: entry.weight }),
            None => Err(Error::Net("route not found".to_string())),
        }
    }

    /// All the entries with their names: each name of the table once, with a
    /// copy of its entry.
    pub fn list(&self) -> (out: Result<Vec<(String, Entry)>, Error>)
        ensures
            out matches Ok(listed) && lists(listed@, self.table()),
    {
        let names = self.table.names();
        let mut listed: Vec<(String, Entry)> = Vec::new();
        let mut i: usize = 0;
        while i < names.len()
            invariant
                i <= names@.len(),
                listed@.len() == i,
                forall|name: Seq<char>|
                    self.table@.contains_key(name) <==> exists|j: int|
                        0 <= j < names@.len() && (#[trigger] names@[j])@ == name,
                forall|j: int, k: int| 0 <= j < k < names@.len() ==> names@[j]@ != names@[k]@,
                forall|j: int|
                    0 <= j < i ==> (#[trigger] listed@[j]).0@ == names@[j]@
                        && self.table@.contains_key(names@[j]@) && listed@[j].1
                        == self.table@[names@[j]@],
            decreases names@.len() - i,
        {
            assert(self.table@.contains_key((#[trigger] names@[i as int])@));
            match self.table.get(names[i].as_str()) {
                Some(entry) => {
                    let copy = Entry { addr: entry.addr.clone(), weight: entry.weight };
                    listed.push((names[i].clone(), copy));
                },
                None => {
                    assert(false);
                },
            }
            i += 1;
        }
        proof {
            assert forall|name: Seq<char>| self.table().contains_key(name) implies exists|i: int|
                0 <= i < listed@.len() && (#[trigger] listed@[i]).0@ == name by {
                let j = choose|j: int| 0 <= j < names@.len() && (#[trigger] names@[j])@ == name;
                assert((#[trigger] listed@[j]).0@ == name);
            }
            assert forall|i: int, j: int| 0 <= i < j < listed@.len() implies listed@[i].0@
                != listed@[j].0@ by {
                assert((#[trigger] listed@[i]).0@ == names@[i]@);
                assert((#[trigger] listed@[j]).0@ == names@[j]@);
            }
            assert forall|i: int| 0 <= i < listed@.len() implies self.table().contains_key(
                (#[trigger] listed@[i]).0@,
            ) && listed@[i].1 == self.table()[listed@[i].0@] by {
                assert((#[trigger] listed@[i]).0@ == names@[i]@);
            }
            assert(lists(listed@, self.table()));
        }
        Ok(listed)
    }
}

impl Linkable for Route {
    /// Puts the table in mode `Ready`. Nothing else changes.
    fn start(&mut self) -> (out: Result<(), Error>)
        ensures
            out is Ok,
            final(self).table() == old(self).table(),
            final(self).config() == old(self).config(),
            final(self).status() == (StateView {
                mode: Mode::Ready,
                measure: old(self).status().measure,
            }),
    {
        self.state.set_mode(Mode::Ready)
    }

    /// Puts the table in mode `Close`. Nothing else changes.
    fn stop(&mut self) -> (out: Result<(), Error>)
        ensures
            out is Ok,
            final(self).table() == old(self).table(),
            final(self).config() == old(self).config(),
            final(self).status() == (StateView {
                mode: Mode::Close,
                measure: old(self).status().measure,
            }),
    {
        self.state.set_mode(Mode::Close)
    }

    /// The table's current mode.
    fn state(&self) -> (out: Result<Mode, Error>)
        ensures
            out == Ok::<Mode, Error>(self.status().mode),
    {
        self.state.mode()
    }
}

} // verus!
