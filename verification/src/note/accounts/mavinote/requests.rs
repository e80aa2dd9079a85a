//! Request bodies of the Mavinote server.
use vstd::prelude::*;

verus! {

pub struct Login {
    pub email: String,
    pub pubkey: String,
    pub password: String,
}

pub struct CloseAccount {
    pub code: String,
}

/// A folder's name sealed for one device.
pub struct CreateFolderRequest {
    pub name: String,
    pub device_id: i32,
}

/// A note's name and text, sealed (or not) for one device.
pub struct CreateNoteRequest {
    pub name: String,
    pub text: String,
    pub device_id: i32,
}

pub struct UpdateNoteRequest {
    pub commit: i32,
    pub device_notes: Vec<CreateNoteRequest>,
}

pub struct SignUp {
    pub email: String,
    pub code: String,
    pub pubkey: String,
    pub password: String,
}

pub struct RequestVerification {
    pub email: String,
    pub pubkey: String,
    pub password: String,
}

pub struct SendCode {
    pub email: String,
}

pub struct AddDevice {
    pub pubkey: String,
}

/// What this device answers to the folder and note requests of one other device.
pub struct RespondRequests {
    pub device_id: i32,
    pub folders: Vec<RespondFolderRequest>,
    pub notes: Vec<RespondNoteRequest>,
}

pub struct RespondFolderRequest {
    pub folder_id: i32,
    pub name: String,
}

pub struct RespondNoteRequest {
    pub note_id: i32,
    pub name: String,
    pub text: String,
}

/// Remote folders and notes for which this device asks the other devices to
/// seal a copy for it.
pub struct CreateRequests {
    pub folder_ids: Vec<i32>,
    pub note_ids: Vec<i32>,
}

} // verus!

verus! {

/// The content of an answer to one device: folder copies (id, sealed name)
/// and note copies (id, sealed name, sealed text).
pub struct ResponseView {
    pub device_id: i32,
    pub folders: Seq<(i32, Seq<char>)>,
    pub notes: Seq<(i32, Seq<char>, Seq<char>)>,
}

impl View for RespondFolderRequest {
    type V = (i32, Seq<char>);

    open spec fn view(&self) -> (i32, Seq<char>) {
        (self.folder_id, self.name@)
    }
}

impl View for RespondNoteRequest {
    type V = (i32, Seq<char>, Seq<char>);

    open spec fn view(&self) -> (i32, Seq<char>, Seq<char>) {
        (self.note_id, self.name@, self.text@)
    }
}

impl View for RespondRequests {
    type V = ResponseView;

    open spec fn view(&self) -> ResponseView {
        ResponseView {
            device_id: self.device_id,
            folders: self.folders@.map_values(|f: RespondFolderRequest| f@),
            notes: self.notes@.map_values(|n: RespondNoteRequest| n@),
        }
    }
}

} // verus!
