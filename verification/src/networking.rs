//! Where the node is, and what its answers mean.
//!
//! Sending and receiving is not done here. This module holds the base URL of
//! the provider, forms the URL of a request, and tells a good answer from a
//! bad one.

use vstd::prelude::*;
use vstd::string::*;

verus! {

/// The status with which the node sends what was asked for.
pub const STATUS_OK: u16 = 200;

/// The base URL of the node that requests go to.
pub struct Provider {
    url: String,
}

impl View for Provider {
    type V = Seq<char>;

    closed spec fn view(&self) -> Seq<char> {
        self.url@
    }
}

/// The URL of a request: the base URL, a slash, and the path of the endpoint.
pub open spec fn request_url(provider: Seq<char>, path: Seq<char>) -> Seq<char> {
    provider + "/"@ + path
}

impl Provider {
    /// A provider at the given base URL.
    pub fn new(provider: String) -> (r: Self)
        ensures
            r@ == provider@,
    {
        Provider { url: provider }
    }

    /// Moves to another base URL.
    pub fn set_provider(&mut self, url: &str)
        ensures
            final(self)@ == url@,
    {
        self.url = url.to_owned();
    }

    /// The base URL.
    pub fn get_provider(&self) -> (r: String)
        ensures
            r@ == self@,
    {
        self.url.clone()
    }

    /// The URL of a request to the endpoint at `path`.
    pub fn url_of(&self, path: &str) -> (r: String)
        ensures
            r@ == request_url(self@, path@),
    {
        let mut out = self.url.clone();
        out.append("/");
        out.append(path);
        out
    }
}

/// Whether an answer of this status carries what was asked for. Under any
/// other status the body is the text of an error.
pub fn is_success(status: u16) -> (r: bool)
    ensures
        r == (status == STATUS_OK),
{
    status == STATUS_OK
}

} // verus!
