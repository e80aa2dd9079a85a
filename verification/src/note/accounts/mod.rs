//! Remote accounts.
pub mod mavinote;
