//! Response bodies of the note endpoints.
use vstd::prelude::*;
use crate::note::models::{RemoteId, State};

verus! {

pub struct Folder {
    pub id: i32,
    pub name: String,
    pub state: State,
}

impl Folder {
    pub fn id(&self) -> (id: RemoteId)
        ensures
            id == RemoteId(self.id),
    {
        RemoteId(self.id)
    }
}

pub struct Note {
    pub id: i32,
    pub folder_id: i32,
    pub title: Option<String>,
    pub text: String,
    pub commit_id: i32,
    pub state: State,
}

impl Note {
    pub fn id(&self) -> (id: RemoteId)
        ensures
            id == RemoteId(self.id),
    {
        RemoteId(self.id)
    }
}

pub struct Commit {
    pub commit_id: i32,
    pub note_id: i32,
    pub state: State,
}

impl Commit {
    pub fn note_id(&self) -> (id: RemoteId)
        ensures
            id == RemoteId(self.note_id),
    {
        RemoteId(self.note_id)
    }
}

} // verus!
