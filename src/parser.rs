//! The arguments of the single-URL downloader.
use vstd::prelude::*;

use crate::http::error::HttpError;
use crate::http::http::DEFAULT_CONCURRENCY;
use crate::strings::clone_opt;

verus! {

/// The URL to fetch, the directory to save into and the number of
/// concurrent requests.
pub struct CommandArgument {
    pub url: Option<String>,
    pub output_path: Option<String>,
    pub concurrency: Option<u16>,
}

impl CommandArgument {
    pub fn new() -> (r: CommandArgument)
        ensures
            r.url is None,
            r.output_path is None,
            r.concurrency is None,
    {
        CommandArgument { url: None, output_path: None, concurrency: None }
    }

    /// Takes the values given on the command line. The URL is required; the
    /// output directory defaults to `.` and the concurrency to eight.
    pub fn apply(
        &mut self,
        url: Option<String>,
        output: Option<String>,
        concurrency: Option<u16>,
    ) -> (r: Result<(), HttpError>)
        ensures
            r is Ok <==> url is Some,
            r is Err ==> *final(self) == *old(self),
            r matches Err(e) ==> e == HttpError::UserInput,
            r is Ok ==> {
                &&& final(self).url == url
                &&& match output {
                    Some(o) => final(self).output_path == Some(o),
                    None => final(self).output_path matches Some(p) && p@ == "."@,
                }
                &&& final(self).concurrency == match concurrency {
                    Some(c) => Some(c),
                    None => Some(DEFAULT_CONCURRENCY),
                }
            },
    {
        if url.is_none() {
            return Err(HttpError::UserInput);
        }
        self.url = url;
        self.output_path = match output {
            Some(o) => Some(o),
            None => Some(".".to_owned()),
        };
        self.concurrency = match concurrency {
            Some(c) => Some(c),
            None => Some(DEFAULT_CONCURRENCY),
        };
        Ok(())
    }

    pub fn get_url(&self) -> (r: Option<String>)
        ensures
            r == self.url,
    {
        clone_opt(&self.url)
    }

    pub fn get_concurrency(&self) -> (r: Option<u16>)
        ensures
            r == self.concurrency,
    {
        self.concurrency
    }

    pub fn get_output_path(&self) -> (r: Option<String>)
        ensures
            r == self.output_path,
    {
        clone_opt(&self.output_path)
    }
}

} // verus!
