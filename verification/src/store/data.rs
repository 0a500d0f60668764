use vstd::prelude::*;
use crate::base::error::Error;
use crate::store::table::Table;

verus! {

/// A store of byte values by name, kept in memory and never full.
pub struct Data {
    store: Table<Vec<u8>>,
}

impl View for Data {
    type V = Map<Seq<char>, Seq<u8>>;

    closed spec fn view(&self) -> Map<Seq<char>, Seq<u8>> {
        self.store@.map_values(|value: Vec<u8>| value@)
    }
}

impl Data {
    /// An empty store.
    pub fn new() -> (data: Data)
        ensures
            data@ == Map::<Seq<char>, Seq<u8>>::empty(),
    {
        let data = Data { store: Table::new() };
        assert(data@ =~= Map::<Seq<char>, Seq<u8>>::empty());
        data
    }

    /// Puts `value` under `key`, in place of what stood there.
    pub fn set(&mut self, key: &str, value: Vec<u8>) -> (out: Result<(), Error>)
        ensures
            out is Ok,
            final(self)@ == old(self)@.insert(key@, value@),
    {
        self.store.insert(key.to_owned(), value);
        assert(self@ =~= old(self)@.insert(key@, value@));
        Ok(())
    }

    /// A copy of the value under `key`, if there is one.
    pub fn get(&self, key: &str) -> (out: Result<Option<Vec<u8>>, Error>)
        ensures
            out matches Ok(found) && match found {
                Some(value) => self@.contains_key(key@) && value@ == self@[key@],
                None => !self@.contains_key(key@),
            },
    {
        match self.store.get(key) {
            Some(value) => Ok(Some(vstd::slice::slice_to_vec(value.as_slice()))),
            None => Ok(None),
        }
    }

    /// Takes out what stands under `key`, if anything does.
    pub fn remove(&mut self, key: &str) -> (out: Result<(), Error>)
        ensures
            out is Ok,
            final(self)@ == old(self)@.remove(key@),
    {
        self.store.remove(key);
        assert(self@ =~= old(self)@.remove(key@));
        Ok(())
    }

    /// Takes out every value.
    pub fn clear(&mut self) -> (out: Result<(), Error>)
        ensures
            out is Ok,
            final(self)@ == Map::<Seq<char>, Seq<u8>>::empty(),
    {
        self.store.clear();
        assert(self@ =~= Map::<Seq<char>, Seq<u8>>::empty());
        Ok(())
    }
}

} // verus!
