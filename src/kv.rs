//! An ordered key-value store held in memory: string keys, byte values.
//! Writes are appended to a log; the newest write of a key decides its value.
use vstd::prelude::*;
use vstd::slice::slice_to_vec;

verus! {

/// The map that a log of writes denotes: `Some` sets a key, `None` removes it.
pub open spec fn map_of(log: Seq<(String, Option<Vec<u8>>)>) -> Map<Seq<char>, Seq<u8>>
    decreases log.len(),
{
    if log.len() == 0 {
        Map::empty()
    } else {
        let prev = map_of(log.drop_last());
        let last = log.last();
        match last.1 {
            Some(v) => prev.insert(last.0@, v@),
            None => prev.remove(last.0@),
        }
    }
}

/// A point get/put store of byte values under string keys.
pub struct MemStore {
    log: Vec<(String, Option<Vec<u8>>)>,
}

impl View for MemStore {
    type V = Map<Seq<char>, Seq<u8>>;

    closed spec fn view(&self) -> Map<Seq<char>, Seq<u8>> {
        map_of(self.log@)
    }
}

impl MemStore {
    /// An empty store.
    pub fn new() -> (r: MemStore)
        ensures
            r@ == Map::<Seq<char>, Seq<u8>>::empty(),
    {
        MemStore { log: Vec::new() }
    }

    /// The value stored under `key`, if any.
    pub fn get(&self, key: &String) -> (r: Option<Vec<u8>>)
        ensures
            match r {
                Some(v) => self@.contains_key(key@) && v@ == self@[key@],
                None => !self@.contains_key(key@),
            },
    {
        let mut i: usize = self.log.len();
        assert(self.log@.take(i as int) =~= self.log@);
        while i > 0
            invariant
                i <= self.log@.len(),
                map_of(self.log@).contains_key(key@) == map_of(self.log@.take(i as int)).contains_key(key@),
                map_of(self.log@).contains_key(key@) ==> map_of(self.log@)[key@] == map_of(self.log@.take(i as int))[key@],
            decreases i,
        {
            let ghost before = self.log@.take(i as int);
            assert(before.drop_last() =~= self.log@.take(i - 1));
            let entry = &self.log[i - 1];
            if entry.0 == *key {
                return match &entry.1 {
                    Some(v) => Some(slice_to_vec(v.as_slice())),
                    None => None,
                };
            }
            i = i - 1;
        }
        assert(self.log@.take(0) =~= Seq::<(String, Option<Vec<u8>>)>::empty());
        None
    }

    /// Stores `value` under `key`, replacing what was there.
    pub fn put(&mut self, key: String, value: Vec<u8>)
        ensures
            final(self)@ == old(self)@.insert(key@, value@),
    {
        let ghost k = key@;
        let ghost v = value@;
        self.log.push((key, Some(value)));
        assert(self.log@.drop_last() =~= old(self).log@);
    }

    /// Removes whatever is stored under `key`.
    pub fn delete(&mut self, key: String)
        ensures
            final(self)@ == old(self)@.remove(key@),
    {
        self.log.push((key, None));
        assert(self.log@.drop_last() =~= old(self).log@);
    }
}

} // verus!
