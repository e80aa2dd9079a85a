//! Shared building blocks: the loading state of observed values, and configuration.
pub mod models;
pub mod observable_map;

use vstd::prelude::*;

verus! {

/// The state of a value that is loaded in the background and observed.
pub enum State<T, E> {
    /// The value was loaded.
    Loaded(T),
    /// Loading failed.
    Failed(E),
    Loading,
    Initial,
}

impl<T, E> Default for State<T, E> {
    fn default() -> (s: Self)
        ensures
            s is Initial,
    {
        State::Initial
    }
}

impl<T, E> From<Result<T, E>> for State<T, E> {
    fn from(res: Result<T, E>) -> (s: Self) {
        match res {
            Ok(ok) => State::Loaded(ok),
            Err(e) => State::Failed(e),
        }
    }
}

impl<T, E> vstd::std_specs::convert::FromSpecImpl<Result<T, E>> for State<T, E> {
    open spec fn obeys_from_spec() -> bool {
        true
    }

    open spec fn from_spec(res: Result<T, E>) -> State<T, E> {
        match res {
            Ok(ok) => State::Loaded(ok),
            Err(e) => State::Failed(e),
        }
    }
}

/// Where the server and the local storage are.
pub struct Config {
    pub api_url: String,
    pub ws_url: String,
    pub storage_dir: String,
}

} // verus!
