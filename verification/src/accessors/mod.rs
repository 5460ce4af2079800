//! Accessors provide access to external resources.

pub mod http;

use vstd::prelude::*;

verus! {

/// Why an object could not be had from its URI.
#[derive(Debug)]
pub enum AccessorError {
    /// The resource could not be reached or read; the text says why.
    Io(String),
    /// The request could not be carried out; the text says why.
    Ureq(String),
    /// Received a non-200 http response.
    Non200Response { status: u16 },
    /// No Content-Length header in response.
    NoContentLength,
    /// The Content-Length header does not hold a length.
    InvalidContentLength,
    /// The body is not as long as the Content-Length header says.
    LengthMismatch { expected: usize, received: usize },
}

/// `FromURI` represents something that is able to return an object from a URI.
pub trait FromURI {
    /// Returns the object as a byte vector.  If the method cannot succeed for
    /// for any reason an `AccessorError` must be returned.  It is not
    /// necessarily this method's responsibility to validate the returned object.
    /// Consumers of objects that implement this trait should consider whether or
    /// not they need to validate the  resulting byte vector.
    fn get(&self, uri: String) -> Result<Vec<u8>, AccessorError>;
}

} // verus!
