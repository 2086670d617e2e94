//! Bodies of the requests the presentation layer hands to the core.

use vstd::prelude::*;

verus! {

/// Body of a site-registration request.
#[derive(Debug)]
pub struct CreateWebsiteInput {
    pub url: String,
}

/// Body of an account-creation request.
#[derive(Debug)]
pub struct CreateUserInput {
    pub username: String,
    pub password: String,
    pub email: String,
}

/// Body of a signin request.
#[derive(Debug)]
pub struct SignInInput {
    pub username: String,
    pub password: String,
}

} // verus!
