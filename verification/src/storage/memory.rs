//! The engine that keeps the table in memory.
use super::{Storage, StorageError, StorageOptions};
use vstd::hash_map::StringHashMap;
use vstd::prelude::*;

verus! {

/// A table in memory. Nothing is written anywhere, and nothing fails.
pub struct InMemStorage {
    db: StringHashMap<String>,
}

/// The table of views that a map of strings stands for.
spec fn views_of(db: Map<Seq<char>, String>) -> Map<Seq<char>, Seq<char>> {
    db.map_values(|value: String| value@)
}

impl Storage for InMemStorage {
    closed spec fn table(&self) -> Map<Seq<char>, Seq<char>> {
        views_of(self.db@)
    }

    open spec fn reliable(&self) -> bool {
        true
    }

    /// Does nothing: there is nothing to open.
    fn open(&mut self, _dir: String, _options: StorageOptions) -> (r: Result<(), StorageError>)
        ensures
            final(self).table() == old(self).table(),
    {
        Ok(())
    }

    fn set(&mut self, key: String, value: String) -> (r: Result<(), StorageError>) {
        let ghost (k, v) = (key@, value@);
        self.db.insert(key, value);
        assert(self.table() =~= old(self).table().insert(k, v));
        Ok(())
    }

    fn get(&self, key: &String) -> (r: Result<Option<&String>, StorageError>) {
        Ok(self.db.get(key.as_str()))
    }

    fn unset(&mut self, key: &String) -> (r: Result<Option<String>, StorageError>) {
        let removed = match self.db.get(key.as_str()) {
            Some(value) => Some(value.clone()),
            None => None,
        };
        self.db.remove(key.as_str());
        assert(self.table() =~= old(self).table().remove(key@));
        Ok(removed)
    }

    /// Drops the table.
    fn close(self) -> (r: Result<(), StorageError>) {
        Ok(())
    }
}

impl InMemStorage {
    /// An engine with an empty table.
    pub fn new() -> (storage: Self)
        ensures
            storage.table() == Map::<Seq<char>, Seq<char>>::empty(),
    {
        let storage = InMemStorage { db: StringHashMap::new() };
        assert(storage.table() =~= Map::<Seq<char>, Seq<char>>::empty());
        storage
    }
}

} // verus!
