//! The join state store: per join side, a map from a row's 64-bit key to
//! the full record last seen for that key. The incremental join only
//! carries keys; full rows are reconstructed from here, both to build
//! output records and to refill deletions that arrive as bare keys.

use std::collections::HashMap;
use vstd::prelude::*;

use crate::record::{DBRecord, RecView};

verus! {

broadcast use vstd::std_specs::hash::group_hash_axioms;

/// One stored row: its foreign key, when its table is the foreign side of
/// the join, and its full record.
#[derive(Debug)]
pub struct StateEntry {
    pub foreign: Option<u64>,
    pub record: DBRecord,
}

/// Mathematical view of a stored row.
#[verifier::ext_equal]
pub struct EntryV {
    pub foreign: Option<u64>,
    pub record: RecView,
}

impl View for StateEntry {
    type V = EntryV;

    open spec fn view(&self) -> EntryV {
        EntryV { foreign: self.foreign, record: self.record@ }
    }
}

impl Clone for StateEntry {
    /// Clones the entry, keeping its view.
    fn clone(&self) -> (r: Self)
        ensures
            r@ == self@,
    {
        let r = StateEntry { foreign: self.foreign, record: self.record.clone() };
        proof {
            assert(r@ == self@);
        }
        r
    }
}

/// A take or lookup missed a key that the upstream ordering contract says
/// must be present: either a delete preceded its insert, or the key was
/// never tracked.
#[derive(Debug, Clone, Copy, PartialEq, Eq, Structural)]
pub struct StateIntegrityFault {
    pub key: u64,
}

/// A map from row key to the row last seen for that key, for one join side.
#[derive(Debug)]
pub struct JoinStateStore {
    map: HashMap<u64, StateEntry>,
}

impl JoinStateStore {
    /// The stored rows, as a mathematical map.
    pub closed spec fn view(&self) -> Map<u64, EntryV> {
        Map::new(|k: u64| self.map@.contains_key(k), |k: u64| self.map@[k]@)
    }

    /// An empty store.
    pub fn new() -> (r: Self)
        ensures
            r@ == Map::<u64, EntryV>::empty(),
    {
        let r = JoinStateStore { map: HashMap::new() };
        proof {
            assert(r@ =~= Map::<u64, EntryV>::empty());
        }
        r
    }

    /// Stores a row under its key, replacing any row already there.
    pub fn put(&mut self, key: u64, foreign: Option<u64>, record: DBRecord)
        ensures
            final(self)@ == old(self)@.insert(key, EntryV { foreign, record: record@ }),
    {
        let ghost rv = record@;
        self.map.insert(key, StateEntry { foreign, record });
        proof {
            assert(final(self)@ =~= old(self)@.insert(key, EntryV { foreign, record: rv }));
        }
    }

    /// Whether a row is stored under the given key.
    pub fn contains(&self, key: u64) -> (r: bool)
        ensures
            r == self@.contains_key(key),
    {
        self.map.contains_key(&key)
    }

    /// The row stored under the given key, if any.
    pub fn get(&self, key: u64) -> (r: Option<StateEntry>)
        ensures
            match r {
                Some(e) => self@.contains_key(key) && e@ == self@[key],
                None => !self@.contains_key(key),
            },
    {
        match self.map.get(&key) {
            Some(e) => Some(e.clone()),
            None => None,
        }
    }

    /// Removes and returns the row stored under the given key.
    ///
    /// A take on a missing key is a data-integrity fault: it means the
    /// upstream ordering contract was violated, and is reported rather
    /// than absorbed.
    pub fn take(&mut self, key: u64) -> (r: Result<StateEntry, StateIntegrityFault>)
        ensures
            match r {
                Ok(e) => old(self)@.contains_key(key) && e@ == old(self)@[key] && final(self)@
                    == old(self)@.remove(key),
                Err(f) => !old(self)@.contains_key(key) && final(self)@ == old(self)@ && f.key
                    == key,
            },
    {
        match self.map.remove(&key) {
            Some(e) => {
                proof {
                    assert(final(self)@ =~= old(self)@.remove(key));
                }
                Ok(e)
            },
            None => {
                proof {
                    assert(final(self)@ =~= old(self)@);
                }
                Err(StateIntegrityFault { key })
            },
        }
    }
}

} // verus!
