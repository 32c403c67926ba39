//! A request and a response as plain values.
use vstd::prelude::*;

verus! {

/// An HTTP request: its URI and its body.
#[derive(Debug, Clone)]
pub struct Request<'a> {
    pub uri: String,
    pub body: &'a [u8],
}

/// An HTTP response: its body and its status.
#[derive(Debug, Clone)]
pub struct Response<'a> {
    pub body: &'a [u8],
    pub status: u16,
}

} // verus!
