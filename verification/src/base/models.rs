//! Models shared by the frontends.
use vstd::prelude::*;

verus! {

/// A session token handed out by the server.
pub struct Token {
    pub token: String,
}

} // verus!
