use vstd::prelude::*;

verus! {

/// Supplies storage handles backed by the store's default database file.
pub struct SqliteConnectionFactory;

impl SqliteConnectionFactory {
    /// Opens a handle to the file-backed database at the store's default
    /// path, creating the file when it is missing. Nothing is promised of
    /// the rows such a handle already holds.
    ///
    /// Relies on rusqlite's `Connection::open`.
    #[verifier::external_body]
    pub fn open(&self) -> Result<rusqlite::Connection, rusqlite::Error> {
        rusqlite::Connection::open("./tasks.db")
    }
}

} // verus!
