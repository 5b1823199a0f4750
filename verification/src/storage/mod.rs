//! The storage engine: what the key-value store asks of one, and the engine
//! that keeps everything in memory.
use vstd::prelude::*;

pub mod memory;

pub use memory::InMemStorage;

verus! {

/// Groups the options that an engine is opened with. None is recognised yet.
pub struct StorageOptions {}

/// The failure of a storage operation.
#[derive(Debug)]
pub struct StorageError {
    pub reason: String,
}

/// The operations of a storage engine.
///
/// An engine stands for a table from keys to values, its `table`. What an
/// operation does to the table is fixed here for the case that it succeeds.
/// Whether it may fail is the engine's affair: one that is `reliable` never
/// does. Opening and closing are left to the engine but for that.
pub trait Storage {
    /// The table that the engine holds.
    spec fn table(&self) -> Map<Seq<char>, Seq<char>>;

    /// Whether no operation of this engine ever fails.
    spec fn reliable(&self) -> bool;

    /// Opens the underlying storage and initialises what the engine needs.
    /// Meant to be the first call on a new engine.
    fn open(&mut self, dir: String, options: StorageOptions) -> (r: Result<(), StorageError>)
        ensures
            final(self).reliable() == old(self).reliable(),
            old(self).reliable() ==> r is Ok,
    ;

    /// Binds the key to the value, replacing what it was bound to.
    fn set(&mut self, key: String, value: String) -> (r: Result<(), StorageError>)
        ensures
            final(self).reliable() == old(self).reliable(),
            old(self).reliable() ==> r is Ok,
            r is Ok ==> final(self).table() == old(self).table().insert(key@, value@),
    ;

    /// The value that the key is bound to, if it is bound.
    fn get(&self, key: &String) -> (r: Result<Option<&String>, StorageError>)
        ensures
            self.reliable() ==> r is Ok,
            r matches Ok(found) ==> match found {
                Some(value) => self.table().contains_key(key@) && value@ == self.table()[key@],
                None => !self.table().contains_key(key@),
            },
    ;

    /// Removes the key and gives the value that it was bound to, if it was
    /// bound.
    fn unset(&mut self, key: &String) -> (r: Result<Option<String>, StorageError>)
        ensures
            final(self).reliable() == old(self).reliable(),
            old(self).reliable() ==> r is Ok,
            r matches Ok(removed) ==> {
                &&& final(self).table() == old(self).table().remove(key@)
                &&& match removed {
                    Some(value) => old(self).table().contains_key(key@) && value@ == old(
                        self,
                    ).table()[key@],
                    None => !old(self).table().contains_key(key@),
                }
            },
    ;

    /// Flushes what is pending and gives the engine up.
    fn close(self) -> (r: Result<(), StorageError>)
        ensures
            self.reliable() ==> r is Ok,
    ;
}

} // verus!
