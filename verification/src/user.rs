//! Users of the service.

use vstd::prelude::*;

verus! {

/// A user.
#[derive(Debug)]
pub struct User {
    pub idu: u32,
    pub name: String,
}

/// Request payload for creating a user.
#[derive(Debug)]
pub struct CreateUser {
    pub name: String,
}

} // verus!
