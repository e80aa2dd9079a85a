//! Logging in and signing up: what is sent to the server.
pub mod requests;
