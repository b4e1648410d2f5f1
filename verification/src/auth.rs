//! Authentication: personal access token.
use vstd::prelude::*;
use crate::text::{is_blank, str_is_blank};

verus! {

/// GitHub authentication: a personal access token.
#[derive(Debug, Clone, PartialEq, Eq)]
pub struct Auth {
    /// The raw PAT.
    pub pat: String,
}

/// Errors when constructing an [`Auth`].
#[derive(Debug, Clone, Copy, PartialEq, Eq, Structural)]
pub enum AuthError {
    /// The token is empty or only whitespace.
    Empty,
}

impl AuthError {
    /// The error's message, as its `Display` writes it.
    pub fn message(&self) -> (r: &'static str)
        ensures
            r@ == "personal access token is empty"@,
    {
        "personal access token is empty"
    }
}

impl Auth {
    /// Create a new Auth from a raw PAT. Validates that it's non-empty.
    pub fn new(pat: &str) -> (r: Result<Self, AuthError>)
        ensures
            match r {
                Ok(a) => !is_blank(pat@) && a.pat@ == pat@,
                Err(e) => is_blank(pat@) && e == AuthError::Empty,
            },
    {
        if str_is_blank(pat) {
            return Err(AuthError::Empty);
        }
        Ok(Auth { pat: String::from_str(pat) })
    }

    /// The Authorization header value to send to GitHub.
    pub fn header_value(&self) -> (r: String)
        ensures
            r@ == "Bearer "@ + self.pat@,
    {
        String::from_str("Bearer ").concat(self.pat.as_str())
    }
}

} // verus!
