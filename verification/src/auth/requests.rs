//! Request bodies of logging in and signing up.
use vstd::prelude::*;
use crate::text::{trim, trim_spec};

verus! {

pub struct Login {
    pub email: String,
    pub password: String,
}

pub struct SignUp {
    pub name: String,
    pub email: String,
    pub password: String,
}

impl Login {
    /// The login request for what the user typed, without surrounding whitespace.
    pub fn from_input(email: &str, password: &str) -> (r: Login)
        ensures
            r.email@ == trim_spec(email@),
            r.password@ == trim_spec(password@),
    {
        Login { email: trim(email), password: trim(password) }
    }
}

impl SignUp {
    /// The sign-up request for what the user typed, without surrounding whitespace.
    pub fn from_input(name: &str, email: &str, password: &str) -> (r: SignUp)
        ensures
            r.name@ == trim_spec(name@),
            r.email@ == trim_spec(email@),
            r.password@ == trim_spec(password@),
    {
        SignUp { name: trim(name), email: trim(email), password: trim(password) }
    }
}

} // verus!
