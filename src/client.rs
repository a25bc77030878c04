//! What a spreadsheet client holds: the API key and where downloads are
//! cached. Fetching is done by the caller.
use vstd::prelude::*;

verus! {

/// The settings of a client of the spreadsheet API.
#[derive(Clone, Debug)]
pub struct Client {
    api_key: String,
    cache_dir: String,
}

impl Client {
    pub closed spec fn api_key_view(&self) -> Seq<char> {
        self.api_key@
    }

    pub closed spec fn cache_dir_view(&self) -> Seq<char> {
        self.cache_dir@
    }

    pub fn new(api_key: String, cache_dir: String) -> (r: Client)
        ensures
            r.api_key_view() == api_key@,
            r.cache_dir_view() == cache_dir@,
    {
        Client { api_key, cache_dir }
    }

    pub fn api_key(&self) -> (r: &str)
        ensures
            r@ == self.api_key_view(),
    {
        self.api_key.as_str()
    }

    /// The directory that downloaded spreadsheets are cached in.
    pub fn cache_dir(&self) -> (r: &str)
        ensures
            r@ == self.cache_dir_view(),
    {
        self.cache_dir.as_str()
    }
}

/// Hooks that a download reports its progress to.
pub trait Instrument {
    fn starting_request(&self);

    fn received_bytes(&self, amount: usize);

    fn request_finished(&self);
}

} // verus!
