//! Notes, folders and accounts, their encryption between devices, and the
//! decisions that storage and synchronisation make.
pub mod crypto;
pub mod models;
pub mod requests;
pub mod responses;
pub mod accounts;
pub mod storage;

use vstd::prelude::*;

verus! {

/// Errors of the note library.
#[derive(Debug)]
pub enum Error {
    Mavinote(accounts::mavinote::Error),
    Storage(StorageError),
    Database(String),
    Crypto(crypto::Error),
    /// A state that the storage's own invariants rule out was met.
    Unreachable(String),
}

/// Errors that local storage reports.
#[derive(Debug)]
pub enum StorageError {
    InvalidState(String),
    NotMavinoteAccount,
    AccountNotFound,
    AccountEmailUsed,
    FolderNotFound,
    NoteNotFound,
}

impl From<accounts::mavinote::Error> for Error {
    fn from(e: accounts::mavinote::Error) -> (r: Error) {
        Error::Mavinote(e)
    }
}

impl vstd::std_specs::convert::FromSpecImpl<accounts::mavinote::Error> for Error {
    open spec fn obeys_from_spec() -> bool {
        true
    }

    open spec fn from_spec(e: accounts::mavinote::Error) -> Error {
        Error::Mavinote(e)
    }
}

impl From<StorageError> for Error {
    fn from(e: StorageError) -> (r: Error) {
        Error::Storage(e)
    }
}

impl vstd::std_specs::convert::FromSpecImpl<StorageError> for Error {
    open spec fn obeys_from_spec() -> bool {
        true
    }

    open spec fn from_spec(e: StorageError) -> Error {
        Error::Storage(e)
    }
}

impl From<crypto::Error> for Error {
    fn from(e: crypto::Error) -> (r: Error) {
        Error::Crypto(e)
    }
}

impl vstd::std_specs::convert::FromSpecImpl<crypto::Error> for Error {
    open spec fn obeys_from_spec() -> bool {
        true
    }

    open spec fn from_spec(e: crypto::Error) -> Error {
        Error::Crypto(e)
    }
}

} // verus!
pub mod sync;
pub mod laws;
pub mod notifications;
