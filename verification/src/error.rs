//! The error type shared by the response writer and the dispatcher: a status
//! code, its reason phrase, and a free-form message.

use vstd::prelude::*;
use crate::util::{lookup_status_str, spec_status_str};

verus! {

/// An HTTP error that can be converted into a response.
#[derive(Debug)]
pub struct Error {
    /// The HTTP status code.
    pub code: u16,
    /// The HTTP status code name.
    pub status: &'static str,
    /// The error message.
    pub message: String,
}

impl Error {
    /// Returns an error with the given properties; the reason phrase is
    /// looked up from the status registry.
    pub fn new(code: u16, message: &str) -> (r: Error)
        ensures
            r.code == code,
            r.status@ == spec_status_str(code),
            r.message@ == message@,
    {
        Error { code, status: lookup_status_str(code), message: String::from_str(message) }
    }

    /// Returns a boxed error with the given properties.
    pub fn boxed(code: u16, message: &str) -> (r: Box<Error>)
        ensures
            r.code == code,
            r.status@ == spec_status_str(code),
            r.message@ == message@,
    {
        Box::new(Self::new(code, message))
    }

    /// The error message, for display purposes.
    pub fn text(&self) -> (r: String)
        ensures
            r@ == self.message@,
    {
        self.message.clone()
    }
}

} // verus!
