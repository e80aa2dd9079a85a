//! Request bodies of the note endpoints.
use vstd::prelude::*;

verus! {

pub struct CreateFolderRequest {
    pub name: String,
}

pub struct CreateNoteRequest {
    pub folder_id: i32,
    pub title: Option<String>,
    pub text: String,
}

pub struct UpdateNoteRequest {
    pub title: Option<String>,
    pub text: String,
}

} // verus!
