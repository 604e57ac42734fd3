use vstd::prelude::*;

use crate::http::error::HttpError;
use crate::http::http::DEFAULT_CONCURRENCY;
use crate::http::pattern::{expand_url_pattern, pattern_urls, views};
use crate::strings::{bytes_of, clone_all, clone_opt, utf8_string};
use vstd::string::StringSliceAdditionalSpecFns;
use vstd::utf8::{decode_utf8, valid_utf8};

verus! {

/// The pattern of a `[[a-b]]` group: the shortest run of at least three
/// characters between `[[` and `]]`.
pub const GROUP_PATTERN: &'static str = "(\\[\\[.{3,}?\\]\\])";

/// Whether `pattern` is a valid regular expression.
pub uninterp spec fn regex_valid(pattern: Seq<char>) -> bool;

/// The byte spans of the successive non-overlapping matches of `pattern`
/// in `text`.
pub uninterp spec fn regex_spans(pattern: Seq<char>, text: Seq<char>) -> Seq<(usize, usize)>;

/// Relies on `regex::Regex::new`, which fails exactly on an invalid pattern,
/// and on `Regex::find_iter` with `Match::start`/`Match::end`: the successive
/// non-overlapping matches in `text`, as byte offsets with the start at most
/// the end.
#[verifier::external_body]
fn match_spans(pattern: &str, text: &str) -> (r: Option<Vec<(usize, usize)>>)
    ensures
        r is Some <==> regex_valid(pattern@),
        r matches Some(v) ==> v@ == regex_spans(pattern@, text@),
        r matches Some(v) ==> forall|i: int|
            0 <= i < v@.len() ==> (#[trigger] v@[i]).0 <= v@[i].1 <= text.spec_bytes().len(),
{
    let re = regex::Regex::new(pattern).ok()?;
    Some(re.find_iter(text).map(|m| (m.start(), m.end())).collect())
}

/// Whether every byte sequence of `v` is valid UTF-8.
pub open spec fn all_utf8(v: Seq<Seq<u8>>) -> bool {
    forall|i: int| 0 <= i < v.len() ==> valid_utf8(#[trigger] v[i])
}

/// The URLs that `url` expands to, as the library computes them from the
/// groups the regular expression finds.
pub open spec fn expanded_urls(url: &str) -> Option<Seq<Seq<u8>>> {
    if regex_valid(GROUP_PATTERN@) {
        pattern_urls(url.spec_bytes(), regex_spans(GROUP_PATTERN@, url@))
    } else {
        None
    }
}

/// The arguments of the segmented downloader: the URLs to fetch, the
/// directory to save into and the number of concurrent requests.
pub struct CommandArgument {
    pub url: Vec<String>,
    pub out_path: Option<String>,
    pub concurrency: Option<u16>,
}

impl CommandArgument {
    pub fn new() -> (r: CommandArgument)
        ensures
            r.url@.len() == 0,
            r.out_path is None,
            r.concurrency is None,
    {
        CommandArgument { url: Vec::new(), out_path: None, concurrency: None }
    }

    /// Takes the values given on the command line, the URLs already
    /// expanded: they are added to those held, the output directory defaults
    /// to `.` and the concurrency to eight, which must not be zero. At least
    /// one URL must be held afterwards.
    pub fn apply(
        &mut self,
        urls: Vec<String>,
        output: Option<String>,
        concurrency: Option<u16>,
    ) -> (r: Result<(), HttpError>)
        ensures
            r is Ok <==> (old(self).url@.len() + urls@.len() > 0 && concurrency != Some(0u16)),
            r is Err ==> *final(self) == *old(self),
            r matches Err(e) ==> e == HttpError::UserInput,
            r is Ok ==> {
                &&& final(self).url@ == old(self).url@ + urls@
                &&& match output {
                    Some(o) => final(self).out_path == Some(o),
                    None => final(self).out_path matches Some(p) && p@ == "."@,
                }
                &&& final(self).concurrency == match concurrency {
                    Some(c) => Some(c),
                    None => Some(DEFAULT_CONCURRENCY),
                }
            },
    {
        if (self.url.len() == 0 && urls.len() == 0) || concurrency == Some(0u16) {
            return Err(HttpError::UserInput);
        }
        let mut i: usize = 0;
        let ghost before = self.url@;
        while i < urls.len()
            invariant
                i <= urls@.len(),
                self.url@ == before + urls@.subrange(0, i as int),
                self.out_path == old(self).out_path,
                self.concurrency == old(self).concurrency,
            decreases urls@.len() - i,
        {
            self.url.push(urls[i].clone());
            i += 1;
            assert(self.url@ =~= before + urls@.subrange(0, i as int));
        }
        assert(urls@.subrange(0, i as int) =~= urls@);
        self.out_path = match output {
            Some(o) => Some(o),
            None => Some(".".to_owned()),
        };
        self.concurrency = match concurrency {
            Some(c) => Some(c),
            None => Some(DEFAULT_CONCURRENCY),
        };
        Ok(())
    }

    /// Expands the `[[a-b]]` groups of a URL, found as the shortest runs of
    /// at least three characters between `[[` and `]]`: one URL per number
    /// or letter of each range, or the URL itself when it has no group.
    pub fn re_for_url(&self, url: &str) -> (r: Result<Vec<String>, HttpError>)
        ensures
            match expanded_urls(url) {
                Some(v) => if all_utf8(v) {
                    r matches Ok(out) && out@.len() == v.len() && forall|i: int|
                        0 <= i < v.len() ==> (#[trigger] out@[i])@ == decode_utf8(v[i])
                } else {
                    r == Err::<Vec<String>, HttpError>(HttpError::UserInput)
                },
                None => r == Err::<Vec<String>, HttpError>(HttpError::UserInput),
            },
    {
        let spans = match match_spans(GROUP_PATTERN, url) {
            Some(s) => s,
            None => return Err(HttpError::UserInput),
        };
        let bytes = bytes_of(url);
        let expanded = match expand_url_pattern(&bytes, &spans) {
            Ok(e) => e,
            Err(e) => return Err(e),
        };
        let ghost v = views(expanded@);
        let mut urls: Vec<String> = Vec::new();
        let mut i: usize = 0;
        while i < expanded.len()
            invariant
                i <= expanded@.len(),
                v == views(expanded@),
                expanded_urls(url) == Some(v),
                urls@.len() == i,
                forall|j: int| 0 <= j < i ==> valid_utf8(#[trigger] v[j]),
                forall|j: int| 0 <= j < i ==> (#[trigger] urls@[j])@ == decode_utf8(v[j]),
            decreases expanded@.len() - i,
        {
            let b = crate::bytes::copy_range(&expanded[i], 0, expanded[i].len());
            assert(b@ =~= v[i as int]);
            match utf8_string(b) {
                Some(s) => urls.push(s),
                None => {
                    assert(!valid_utf8(v[i as int]));
                    assert(expanded_urls(url) == Some(v));
                    assert(!all_utf8(v));
                    return Err(HttpError::UserInput);
                },
            }
            i += 1;
        }
        Ok(urls)
    }

    pub fn get_url(&self) -> (r: Vec<String>)
        ensures
            r@ == self.url@,
    {
        clone_all(&self.url)
    }

    pub fn get_concurrency(&self) -> (r: Option<u16>)
        ensures
            r == self.concurrency,
    {
        self.concurrency
    }

    pub fn get_output_path(&self) -> (r: Option<String>)
        ensures
            r == self.out_path,
    {
        clone_opt(&self.out_path)
    }
}

} // verus!
