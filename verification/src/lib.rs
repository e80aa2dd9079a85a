//! Verified core of the reax note-taking library: models, sealing of notes
//! between devices, and the decisions that storage and synchronisation make.
pub mod auth;
pub mod base;
pub mod text;

pub mod note;
pub mod notify;
pub mod util;
