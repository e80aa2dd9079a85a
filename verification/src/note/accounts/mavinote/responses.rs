//! Response bodies of the Mavinote server.
use vstd::prelude::*;
use crate::note::models::{RemoteId, State};

verus! {

pub struct CreatedFolder {
    pub id: i32,
}

impl CreatedFolder {
    pub fn id(&self) -> (id: RemoteId)
        ensures
            id == RemoteId(self.id),
    {
        RemoteId(self.id)
    }
}

/// A device of the account as the server lists it. `created_at` is in
/// seconds since the Unix epoch.
pub struct Device {
    pub id: i32,
    pub pubkey: String,
    pub created_at: i64,
}

pub struct Folder {
    pub id: i32,
    pub state: State,
    pub device_folder: Option<DeviceFolder>,
}

impl Folder {
    pub fn id(&self) -> (id: RemoteId)
        ensures
            id == RemoteId(self.id),
    {
        RemoteId(self.id)
    }
}

/// A folder's name as some device sealed it for this one.
pub struct DeviceFolder {
    pub sender_device_id: i32,
    pub name: String,
}

pub struct CreatedNote {
    pub id: i32,
    pub commit: i32,
}

impl CreatedNote {
    pub fn id(&self) -> (id: RemoteId)
        ensures
            id == RemoteId(self.id),
    {
        RemoteId(self.id)
    }
}

pub struct Note {
    pub id: i32,
    pub commit: i32,
    pub state: State,
    pub device_note: Option<DeviceNote>,
}

impl Note {
    pub fn id(&self) -> (id: RemoteId)
        ensures
            id == RemoteId(self.id),
    {
        RemoteId(self.id)
    }
}

/// A note's name and text as some device sealed them for this one.
pub struct DeviceNote {
    pub sender_device_id: i32,
    pub name: String,
    pub text: String,
}

pub struct Commit {
    pub note_id: i32,
    pub commit: i32,
    pub state: State,
}

impl Commit {
    pub fn note_id(&self) -> (id: RemoteId)
        ensures
            id == RemoteId(self.note_id),
    {
        RemoteId(self.note_id)
    }
}

/// Requests of other devices for copies sealed for them.
pub struct Requests {
    pub folder_requests: Vec<FolderRequest>,
    pub note_requests: Vec<NoteRequest>,
}

pub struct FolderRequest {
    pub folder_id: i32,
    pub device_id: i32,
}

pub struct NoteRequest {
    pub note_id: i32,
    pub device_id: i32,
}

} // verus!
