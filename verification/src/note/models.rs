//! The rows that local storage keeps: accounts, devices, folders and notes.
use vstd::prelude::*;

verus! {

/// The id of a folder or note in local storage.
#[derive(Clone, Copy, Debug, PartialEq, Eq, Structural)]
pub struct LocalId(pub i32);

/// The id of a folder or note on the Mavinote server.
#[derive(Clone, Copy, Debug, PartialEq, Eq, Structural)]
pub struct RemoteId(pub i32);

/// The keys of the application's key-value store.
#[derive(Clone, Copy, Debug, PartialEq, Eq, Structural)]
pub enum StoreKey {
    Version,
    IdentityPrivKey,
    IdentityPubKey,
    Password,
    WelcomeShown,
    NonceId,
}

/// One entry of the key-value store.
pub struct StoreValue {
    pub key: StoreKey,
    pub value: String,
}

/// An account: a local one, or one backed by the Mavinote server.
pub struct Account {
    pub id: i32,
    pub name: String,
    pub kind: AccountKind,
}

/// Where an account's folders live.
#[derive(Clone, Copy, Debug, PartialEq, Eq, Structural)]
pub enum AccountKind {
    Mavinote,
    Local,
}

/// Another device of a Mavinote account. `created_at` is in seconds since the Unix epoch.
pub struct Device {
    pub id: i32,
    pub account_id: i32,
    pub pubkey: String,
    pub created_at: i64,
}

/// The credentials of a Mavinote account.
pub struct Mavinote {
    pub email: String,
    pub token: String,
}

/// A folder in local storage.
pub struct Folder {
    pub id: i32,
    pub account_id: i32,
    pub remote_id: Option<i32>,
    pub name: String,
    pub state: State,
}

impl Folder {
    pub fn local_id(&self) -> (id: LocalId)
        ensures
            id == LocalId(self.id),
    {
        LocalId(self.id)
    }

    pub fn remote_id(&self) -> (id: Option<RemoteId>)
        ensures
            id == match self.remote_id {
                Some(r) => Some(RemoteId(r)),
                None => None::<RemoteId>,
            },
    {
        match self.remote_id {
            Some(r) => Some(RemoteId(r)),
            None => None,
        }
    }
}

/// A note in local storage.
pub struct Note {
    pub id: i32,
    pub folder_id: i32,
    pub remote_id: Option<i32>,
    pub commit: i32,
    pub name: String,
    pub text: String,
    pub state: State,
}

impl Note {
    pub fn local_id(&self) -> (id: LocalId)
        ensures
            id == LocalId(self.id),
    {
        LocalId(self.id)
    }

    pub fn remote_id(&self) -> (id: Option<RemoteId>)
        ensures
            id == match self.remote_id {
                Some(r) => Some(RemoteId(r)),
                None => None::<RemoteId>,
            },
    {
        match self.remote_id {
            Some(r) => Some(RemoteId(r)),
            None => None,
        }
    }
}

/// How a folder or note stands with respect to the server.
#[derive(Clone, Copy, Debug, PartialEq, Eq, Structural)]
pub enum State {
    Clean,
    Modified,
    Deleted,
}

} // verus!
