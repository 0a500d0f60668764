use vstd::prelude::*;
use crate::base::error::Error;
use crate::store::table::Table;

verus! {

/// How long the value stored at the time `at` has been kept at the time
/// `now`, on a clock that counts up. A clock that went back counts as no
/// time.
pub open spec fn age(at: u64, now: u64) -> int {
    if now >= at {
        now - at
    } else {
        0
    }
}

/// Whether a value stored at `at` is still kept at `now`: its age is not
/// above the time to live.
pub open spec fn fresh(at: u64, now: u64, ttl: u64) -> bool {
    age(at, now) <= ttl
}

/// What a cache holds.
pub struct CacheView {
    /// The values by name, each with the time at which it was stored.
    pub entries: Map<Seq<char>, (Seq<u8>, u64)>,
    /// The time that a value is kept for.
    pub ttl: u64,
}

impl CacheView {
    /// The cache without the values that are no longer fresh at `now`.
    pub open spec fn swept(self, now: u64) -> CacheView {
        CacheView {
            entries: Map::new(
                |key: Seq<char>|
                    self.entries.contains_key(key) && fresh(self.entries[key].1, now, self.ttl),
                |key: Seq<char>| self.entries[key],
            ),
            ttl: self.ttl,
        }
    }
}

/// A store of byte values by name that keeps each value for a time to live.
/// Times are readings of one clock that counts up, in the unit of the time
/// to live; the caller reads the clock.
pub struct Cache {
    store: Table<(Vec<u8>, u64)>,
    ttl: u64,
}

impl View for Cache {
    type V = CacheView;

    closed spec fn view(&self) -> CacheView {
        CacheView {
            entries: self.store@.map_values(|stored: (Vec<u8>, u64)| (stored.0@, stored.1)),
            ttl: self.ttl,
        }
    }
}

/// Whether a value stored at `at` is no longer kept at `now`.
fn stale(at: u64, now: u64, ttl: u64) -> (gone: bool)
    ensures
        gone == !fresh(at, now, ttl),
{
    let kept: u64 = if now >= at {
        now - at
    } else {
        0
    };
    kept > ttl
}

impl Cache {
    /// An empty cache that keeps each value for `ttl`.
    pub fn new(ttl: u64) -> (cache: Cache)
        ensures
            cache@ == (CacheView { entries: Map::<Seq<char>, (Seq<u8>, u64)>::empty(), ttl }),
    {
        let cache = Cache { store: Table::new(), ttl };
        assert(cache@.entries =~= Map::<Seq<char>, (Seq<u8>, u64)>::empty());
        cache
    }

    /// Puts `value` under `key` at the time `now`, in place of what stood
    /// there.
    pub fn set(&mut self, key: &str, value: Vec<u8>, now: u64) -> (out: Result<(), Error>)
        ensures
            out is Ok,
            final(self)@ == (CacheView {
                entries: old(self)@.entries.insert(key@, (value@, now)),
                ttl: old(self)@.ttl,
            }),
    {
        self.store.insert(key.to_owned(), (value, now));
        assert(self@.entries =~= old(self)@.entries.insert(key@, (value@, now)));
        Ok(())
    }

    /// A copy of the value under `key` at the time `now`. A value that is no
    /// longer fresh is not given, and leaves the cache.
    pub fn get(&mut self, key: &str, now: u64) -> (out: Result<Option<Vec<u8>>, Error>)
        ensures
            out matches Ok(found) && if !old(self)@.entries.contains_key(key@) {
                &&& found is None
                &&& final(self)@ == old(self)@
            } else if fresh(old(self)@.entries[key@].1, now, old(self)@.ttl) {
                &&& found matches Some(value)
                &&& value@ == old(self)@.entries[key@].0
                &&& final(self)@ == old(self)@
            } else {
                &&& found is None
                &&& final(self)@ == (CacheView {
                    entries: old(self)@.entries.remove(key@),
                    ttl: old(self)@.ttl,
                })
            },
    {
        let found: Option<Vec<u8>> = match self.store.get(key) {
            Some(stored) => {
                if stale(stored.1, now, self.ttl) {
                    None
                } else {
                    Some(vstd::slice::slice_to_vec(stored.0.as_slice()))
                }
            },
            None => { return Ok(None); },
        };
        if found.is_none() {
            self.store.remove(key);
            assert(self@.entries =~= old(self)@.entries.remove(key@));
        }
        Ok(found)
    }

    /// Takes out what stands under `key`, if anything does.
    pub fn remove(&mut self, key: &str) -> (out: Result<(), Error>)
        ensures
            out is Ok,
            final(self)@ == (CacheView {
                entries: old(self)@.entries.remove(key@),
                ttl: old(self)@.ttl,
            }),
    {
        self.store.remove(key);
        assert(self@.entries =~= old(self)@.entries.remove(key@));
        Ok(())
    }

    /// Takes out every value.
    pub fn clear(&mut self) -> (out: Result<(), Error>)
        ensures
            out is Ok,
            final(self)@ == (CacheView {
                entries: Map::<Seq<char>, (Seq<u8>, u64)>::empty(),
                ttl: old(self)@.ttl,
            }),
    {
        self.store.clear();
        assert(self@.entries =~= Map::<Seq<char>, (Seq<u8>, u64)>::empty());
        Ok(())
    }

    /// Takes out every value that is no longer fresh at the time `now`.
    pub fn cleanup(&mut self, now: u64) -> (out: Result<(), Error>)
        ensures
            out is Ok,
            final(self)@ == old(self)@.swept(now),
    {
        let names = self.store.names();
        let mut i: usize = 0;
        while i < names.len()
            invariant
                i <= names@.len(),
                self.ttl == old(self).ttl,
                forall|key: Seq<char>|
                    old(self)@.entries.contains_key(key) <==> listed(names@, names@.len() as int, key),
                forall|key: Seq<char>|
                    self@.entries.contains_key(key) <==> old(self)@.entries.contains_key(key) && (
                    fresh(old(self)@.entries[key].1, now, self.ttl) || !listed(
                        names@,
                        i as int,
                        key,
                    )),
                forall|key: Seq<char>|
                    self@.entries.contains_key(key) ==> self@.entries[key] == old(
                        self,
                    )@.entries[key],
            decreases names@.len() - i,
        {
            let ghost before = self@;
            let ghost name = names@[i as int]@;
            let stale = match self.store.get(names[i].as_str()) {
                Some(stored) => stale(stored.1, now, self.ttl),
                None => false,
            };
            assert(stale <==> before.entries.contains_key(name) && !fresh(
                before.entries[name].1,
                now,
                self.ttl,
            ));
            if stale {
                self.store.remove(names[i].as_str());
                assert(self@.entries =~= before.entries.remove(name));
            }
            proof {
                assert forall|key: Seq<char>|
                    self@.entries.contains_key(key) <==> old(self)@.entries.contains_key(key) && (
                    fresh(old(self)@.entries[key].1, now, self.ttl) || !listed(
                        names@,
                        i + 1,
                        key,
                    )) by {
                    lemma_listed_next(names@, i as int, key);
                }
            }
            i += 1;
        }
        assert(self@.entries =~= old(self)@.swept(now).entries);
        Ok(())
    }
}

/// Whether `key` is among the first `upto` of `names`.
pub open spec fn listed(names: Seq<String>, upto: int, key: Seq<char>) -> bool {
    exists|j: int| 0 <= j < upto && (#[trigger] names[j])@ == key
}

/// A name is among the first `upto + 1` where it is among the first `upto`
/// or is the next one.
pub proof fn lemma_listed_next(names: Seq<String>, upto: int, key: Seq<char>)
    requires
        0 <= upto < names.len(),
    ensures
        listed(names, upto + 1, key) <==> listed(names, upto, key) || names[upto]@ == key,
{
    if listed(names, upto + 1, key) {
        let j = choose|j: int| 0 <= j < upto + 1 && (#[trigger] names[j])@ == key;
        if j < upto {
            assert(0 <= j < upto && (#[trigger] names[j])@ == key);
        }
    }
    if listed(names, upto, key) {
        let j = choose|j: int| 0 <= j < upto && (#[trigger] names[j])@ == key;
        assert(0 <= j < upto + 1 && (#[trigger] names[j])@ == key);
    }
    if names[upto]@ == key {
        assert(0 <= upto < upto + 1 && (#[trigger] names[upto])@ == key);
    }
}

/// A value is given back while it is fresh and not after: right after it was
/// stored it is fresh, it stays fresh as long as the clock has not gone on by
/// more than the time to live, and it is not fresh from then on.
pub proof fn lemma_fresh_until_ttl(at: u64, now: u64, ttl: u64)
    ensures
        fresh(at, at, ttl),
        now <= at ==> fresh(at, now, ttl),
        now >= at ==> (fresh(at, now, ttl) <==> now - at <= ttl),
{
}

/// To sweep the cache keeps exactly what `get` would still give, and a
/// second sweep at the same time changes nothing.
pub proof fn lemma_sweep_keeps_fresh(cache: CacheView, now: u64, key: Seq<char>)
    ensures
        cache.swept(now).entries.contains_key(key) <==> cache.entries.contains_key(key) && fresh(
            cache.entries[key].1,
            now,
            cache.ttl,
        ),
        cache.swept(now).entries.contains_key(key) ==> cache.swept(now).entries[key]
            == cache.entries[key],
        cache.swept(now).swept(now) == cache.swept(now),
{
    assert(cache.swept(now).swept(now).entries =~= cache.swept(now).entries);
}

} // verus!
