//! Request wrapper.
//!
//! A request pairs the raw body bytes of the underlying HTTP request with a
//! parsed parameters value, exposed to handlers by reference and consumable
//! once. Reading and deserializing the body from the wire belongs to the
//! transport around the library.

use vstd::prelude::*;

pub mod params;
pub mod url_parser;

pub use params::Params;

verus! {

/// Request wrapper.
pub struct Request<P> {
    body: Vec<u8>,
    params: Option<P>,
}

impl<P> Request<P> {
    /// The parameters, while not yet consumed.
    pub closed spec fn spec_params(&self) -> Option<P> {
        self.params
    }

    /// The raw body bytes.
    pub closed spec fn spec_body(&self) -> Seq<u8> {
        self.body@
    }

    /// Creates a new instance of request from its raw body and parsed
    /// parameters.
    pub fn new(body: Vec<u8>, params: P) -> (r: Self)
        ensures
            r.spec_params() == Some(params),
            r.spec_body() == body@,
    {
        Request { body, params: Some(params) }
    }

    /// Returns params reference.
    pub fn params(&self) -> (r: &P)
        requires
            self.spec_params() is Some,
        ensures
            self.spec_params() == Some(*r),
    {
        self.params.as_ref().unwrap()
    }

    /// Consumes params.
    pub fn take_params(&mut self) -> (r: P)
        requires
            old(self).spec_params() is Some,
        ensures
            old(self).spec_params() == Some(r),
            final(self).spec_params() is None,
            final(self).spec_body() == old(self).spec_body(),
    {
        self.params.take().unwrap()
    }

    /// A reference to the raw body bytes.
    pub fn body(&self) -> (r: &Vec<u8>)
        ensures
            r@ == self.spec_body(),
    {
        &self.body
    }
}

} // verus!
