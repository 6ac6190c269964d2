//! The client's stored settings.

use vstd::prelude::*;

verus! {

/// Address of the server and the key that authenticates the user there.
#[derive(Clone, Debug, PartialEq, Eq)]
pub struct Config {
    pub url: Option<String>,
    pub api_key: Option<String>,
}

impl Config {
    /// Settings with no server and no key.
    pub fn empty() -> (r: Config)
        ensures
            r.url is None,
            r.api_key is None,
    {
        Config { url: None, api_key: None }
    }

    /// Remembers the server at `url` and the key that logging in there gave.
    pub fn log_in(&mut self, url: String, api_key: String)
        ensures
            final(self).url == Some(url),
            final(self).api_key == Some(api_key),
    {
        self.url = Some(url);
        self.api_key = Some(api_key);
    }

    /// Forgets the server and the key.
    pub fn log_out(&mut self)
        ensures
            final(self).url is None,
            final(self).api_key is None,
    {
        self.url = None;
        self.api_key = None;
    }
}

} // verus!
