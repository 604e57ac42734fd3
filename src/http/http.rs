use vstd::prelude::*;

use crate::bittorrent::piece::min_int;
use crate::bittorrent::torrent::{lemma_piece_lengths, num_pieces, piece_len};
use crate::http::error::HttpError;

verus! {

/// Number of concurrent ranged requests when none is given.
pub const DEFAULT_CONCURRENCY: u16 = 8;

/// Size of each segment when `length` bytes are shared among `concurrency`
/// requests: the length divided by the concurrency, rounded up.
pub open spec fn segment_size(length: int, concurrency: int) -> int {
    (length + concurrency - 1) / concurrency
}

/// Number of non-empty segments of the plan.
pub open spec fn segment_count(length: int, concurrency: int) -> int {
    if length == 0 {
        0
    } else {
        num_pieces(length, segment_size(length, concurrency))
    }
}

/// Half-open byte range of segment `i` of the plan.
pub open spec fn segment(length: int, concurrency: int, i: int) -> (int, int) {
    let q = segment_size(length, concurrency);
    (i * q, i * q + piece_len(length, q, i))
}

/// Plans the ranged requests of a download: `[0, filesize)` cut into
/// segments of `ceil(filesize / concurrency)` bytes, the last one clamped to
/// the end, with empty segments left out.
pub fn split_ranges(filesize: u64, concurrency: u16) -> (r: Vec<(u64, u64)>)
    requires
        concurrency >= 1,
    ensures
        r@.len() == segment_count(filesize as int, concurrency as int),
        forall|i: int|
            0 <= i < r@.len() ==> (#[trigger] r@[i]).0 == segment(
                filesize as int,
                concurrency as int,
                i,
            ).0 && r@[i].1 == segment(filesize as int, concurrency as int, i).1,
{
    let mut partition: Vec<(u64, u64)> = Vec::new();
    if filesize == 0 {
        return partition;
    }
    let c = concurrency as u64;
    proof {
        let l = filesize as int;
        let ci = c as int;
        vstd::arithmetic::div_mod::lemma_fundamental_div_mod(l, ci);
        vstd::arithmetic::div_mod::lemma_mod_bound(l, ci);
        assert(l % ci != 0 ==> l / ci < u64::MAX) by (nonlinear_arith)
            requires
                l == ci * (l / ci) + l % ci,
                0 <= l % ci < ci,
                l <= u64::MAX,
                ci >= 1,
        ;
    }
    let part: u64 = filesize / c + if filesize % c != 0 {
        1
    } else {
        0
    };
    proof {
        let l = filesize as int;
        let ci = c as int;
        vstd::arithmetic::div_mod::lemma_fundamental_div_mod(l, ci);
        vstd::arithmetic::div_mod::lemma_fundamental_div_mod(l + ci - 1, ci);
        vstd::arithmetic::div_mod::lemma_mod_bound(l, ci);
        vstd::arithmetic::div_mod::lemma_mod_bound(l + ci - 1, ci);
        assert(part == segment_size(l, ci)) by (nonlinear_arith)
            requires
                l == ci * (l / ci) + l % ci,
                l + ci - 1 == ci * ((l + ci - 1) / ci) + (l + ci - 1) % ci,
                0 <= l % ci < ci,
                0 <= (l + ci - 1) % ci < ci,
                part == l / ci + if l % ci != 0 {
                    1int
                } else {
                    0int
                },
                ci >= 1,
        ;
        assert(part >= 1) by (nonlinear_arith)
            requires
                l == ci * (l / ci) + l % ci,
                0 <= l % ci < ci,
                l >= 1,
                part == l / ci + if l % ci != 0 {
                    1int
                } else {
                    0int
                },
        ;
    }
    let ghost q = part as int;
    let mut start: u64 = 0;
    let mut i: u64 = 0;
    while start < filesize
        invariant
            q == part,
            part >= 1,
            q == segment_size(filesize as int, concurrency as int),
            start == min_int(filesize as int, i * q),
            start <= filesize,
            partition@.len() == i,
            i <= num_pieces(filesize as int, q),
            forall|j: int|
                0 <= j < i ==> (#[trigger] partition@[j]).0 == j * q && partition@[j].1 == j * q
                    + piece_len(filesize as int, q, j),
        decreases filesize - start,
    {
        proof {
            lemma_piece_lengths(filesize as int, q, i as int);
            assert(i <= i * q) by (nonlinear_arith)
                requires
                    q >= 1,
                    i >= 0,
            ;
        }
        let end: u64 = if filesize - start < part {
            filesize
        } else {
            start + part
        };
        partition.push((start, end));
        proof {
            assert((i + 1) * q == i * q + q) by (nonlinear_arith);
            lemma_piece_lengths(filesize as int, q, i + 1);
        }
        start = end;
        i = i + 1;
    }
    proof {
        lemma_piece_lengths(filesize as int, q, i as int);
    }
    partition
}

/// Range-plan law: for any length and any concurrency of at least one, the
/// segments are non-empty, the first starts at zero, each ends where the next
/// starts, the last ends at the length, and there are no more of them than
/// the concurrency. They partition `[0, length)` exactly.
pub proof fn lemma_plan_partition(length: int, concurrency: int)
    requires
        length >= 0,
        concurrency >= 1,
    ensures
        ({
            let n = segment_count(length, concurrency);
            &&& 0 <= n <= concurrency
            &&& length == 0 <==> n == 0
            &&& n > 0 ==> segment(length, concurrency, 0).0 == 0
            &&& n > 0 ==> segment(length, concurrency, n - 1).1 == length
            &&& forall|i: int|
                0 <= i < n ==> #[trigger] segment(length, concurrency, i).0 < segment(
                    length,
                    concurrency,
                    i,
                ).1
            &&& forall|i: int|
                0 <= i < n - 1 ==> #[trigger] segment(length, concurrency, i).1 == segment(
                    length,
                    concurrency,
                    i + 1,
                ).0
        }),
{
    let n = segment_count(length, concurrency);
    if length > 0 {
        let q = segment_size(length, concurrency);
        let x = length + concurrency - 1;
        vstd::arithmetic::div_mod::lemma_fundamental_div_mod(x, concurrency);
        vstd::arithmetic::div_mod::lemma_mod_bound(x, concurrency);
        assert(q >= 1 && q * concurrency >= length) by (nonlinear_arith)
            requires
                x == concurrency * q + x % concurrency,
                0 <= x % concurrency < concurrency,
                x == length + concurrency - 1,
                length >= 1,
        ;
        lemma_piece_lengths(length, q, n - 1);
        lemma_piece_lengths(length, q, 0);
        lemma_piece_lengths(length, q, concurrency);
        assert(concurrency * q == q * concurrency) by (nonlinear_arith);
        assert(n >= 1) by {
            lemma_piece_lengths(length, q, 0);
        }
        assert forall|i: int| 0 <= i < n implies #[trigger] segment(length, concurrency, i).0
            < segment(length, concurrency, i).1 by {
            lemma_piece_lengths(length, q, i);
        }
        assert forall|i: int| 0 <= i < n - 1 implies #[trigger] segment(length, concurrency, i).1
            == segment(length, concurrency, i + 1).0 by {
            lemma_piece_lengths(length, q, i);
            assert((i + 1) * q == i * q + q) by (nonlinear_arith);
        }
    }
}

/// Whether `s` is a non-empty run of ASCII decimal digits.
pub open spec fn all_digits(s: Seq<u8>) -> bool {
    &&& s.len() > 0
    &&& forall|i: int| 0 <= i < s.len() ==> 48 <= #[trigger] s[i] <= 57
}

/// The number that the decimal digits of `s` write.
pub open spec fn decimal_value(s: Seq<u8>) -> int
    decreases s.len(),
{
    if s.len() == 0 {
        0
    } else {
        decimal_value(s.drop_last()) * 10 + (s.last() - 48)
    }
}

pub proof fn lemma_decimal_nonneg(s: Seq<u8>)
    requires
        forall|i: int| 0 <= i < s.len() ==> 48 <= #[trigger] s[i] <= 57,
    ensures
        decimal_value(s) >= 0,
    decreases s.len(),
{
    if s.len() > 0 {
        lemma_decimal_nonneg(s.drop_last());
    }
}

/// Reads a header value written in decimal digits, as `Content-Length` is.
pub fn parse_decimal(value: &Vec<u8>) -> (r: Option<u64>)
    ensures
        r is Some <==> all_digits(value@) && decimal_value(value@) <= u64::MAX,
        r matches Some(n) ==> n == decimal_value(value@),
{
    if value.len() == 0 {
        return None;
    }
    let mut n: u64 = 0;
    let mut i: usize = 0;
    while i < value.len()
        invariant
            i <= value@.len(),
            forall|j: int| 0 <= j < i ==> 48 <= #[trigger] value@[j] <= 57,
            n == decimal_value(value@.subrange(0, i as int)),
        decreases value@.len() - i,
    {
        let c = value[i];
        assert(value@.subrange(0, i + 1).drop_last() =~= value@.subrange(0, i as int));
        if c < 48 || c > 57 {
            return None;
        }
        let d = (c - 48) as u64;
        if n > (u64::MAX - d) / 10 {
            proof {
                lemma_decimal_prefix_bound(value@, i + 1);
            }
            return None;
        }
        n = n * 10 + d;
        i += 1;
    }
    assert(value@.subrange(0, i as int) =~= value@);
    Some(n)
}

/// A longer run of digits never writes a smaller number.
proof fn lemma_decimal_prefix_bound(s: Seq<u8>, k: int)
    requires
        0 <= k <= s.len(),
        forall|j: int| 0 <= j < k ==> 48 <= #[trigger] s[j] <= 57,
    ensures
        all_digits(s) ==> decimal_value(s) >= decimal_value(s.subrange(0, k)),
    decreases s.len() - k,
{
    if all_digits(s) && k < s.len() {
        lemma_decimal_prefix_bound(s, k + 1);
        assert(s.subrange(0, k + 1).drop_last() =~= s.subrange(0, k));
        lemma_decimal_nonneg(s.subrange(0, k));
    } else if all_digits(s) {
        assert(s.subrange(0, k) =~= s);
    }
}

/// Whether `value` is exactly the token `bytes`.
pub open spec fn is_bytes_token(value: Seq<u8>) -> bool {
    value == seq![98u8, 121, 116, 101, 115]
}

/// Reads the probe's headers: the resource's length, which must be present,
/// decimal and more than zero, and whether ranged requests are supported,
/// which they are when `Accept-Ranges` is exactly `bytes`.
pub fn makesure_support_download(
    content_length: Option<&Vec<u8>>,
    accept_ranges: Option<&Vec<u8>>,
) -> (r: Result<(bool, u64), HttpError>)
    ensures
        r is Ok <==> (content_length matches Some(v) && all_digits(v@) && 0 < decimal_value(v@)
            <= u64::MAX),
        r matches Ok(p) ==> (p.0 == (accept_ranges matches Some(a) && is_bytes_token(a@))),
        r matches Ok(p) ==> (content_length matches Some(v) && p.1 == decimal_value(v@)),
        r matches Err(e) ==> e == HttpError::Probe,
{
    let ranges_flag = match accept_ranges {
        None => false,
        Some(val) => {
            let token: Vec<u8> = vec![98u8, 121, 116, 101, 115];
            assert(token@ =~= seq![98u8, 121, 116, 101, 115]);
            crate::bytes::bytes_equal(val, &token)
        },
    };
    match content_length {
        None => Err(HttpError::Probe),
        Some(val) => match parse_decimal(val) {
            None => Err(HttpError::Probe),
            Some(n) => {
                if n == 0 {
                    Err(HttpError::Probe)
                } else {
                    Ok((ranges_flag, n))
                }
            },
        },
    }
}

} // verus!

verus! {

/// First position at or after `from` where `v` holds `b`, or its length.
pub open spec fn index_of(v: Seq<u8>, b: u8, from: int) -> int
    decreases v.len() - from,
{
    if from >= v.len() || from < 0 {
        v.len() as int
    } else if v[from] == b {
        from
    } else {
        index_of(v, b, from + 1)
    }
}

/// First position at or after `from` that holds no space, or the length.
pub open spec fn skip_spaces(v: Seq<u8>, from: int) -> int
    decreases v.len() - from,
{
    if from >= v.len() || from < 0 {
        v.len() as int
    } else if v[from] != 32 {
        from
    } else {
        skip_spaces(v, from + 1)
    }
}

/// An ASCII letter folded to lower case; other bytes unchanged.
pub open spec fn ascii_lower(c: u8) -> u8 {
    if 65 <= c <= 90 {
        (c + 32) as u8
    } else {
        c
    }
}

/// The bytes of `filename=`.
pub open spec fn filename_key() -> Seq<u8> {
    seq![102u8, 105, 108, 101, 110, 97, 109, 101, 61]
}

/// Whether `filename=`, in any case, stands at `start`.
pub open spec fn key_at(v: Seq<u8>, start: int) -> bool {
    forall|k: int| 0 <= k < 9 ==> ascii_lower(#[trigger] v[start + k]) == filename_key()[k]
}

/// Whether the part of `v` from `start` to `end` is `filename=` in any
/// case followed by a double-quoted value.
pub open spec fn quoted_filename_at(v: Seq<u8>, start: int, end: int) -> bool {
    &&& 0 <= start
    &&& start + 11 <= end <= v.len()
    &&& key_at(v, start)
    &&& v[start + 9] == 34
    &&& v[end - 1] == 34
}

/// The name given by the first `filename="..."` attribute among the
/// `;`-separated parts of `v` from `from` on, each taken after its leading
/// spaces: what stands inside the quotes.
pub open spec fn name_from(v: Seq<u8>, from: int) -> Option<Seq<u8>>
    decreases v.len() - from,
{
    let start = skip_spaces(v, from);
    let end = index_of(v, 59, from);
    if from < 0 || from > v.len() {
        None
    } else if quoted_filename_at(v, start, end) {
        Some(v.subrange(start + 10, end - 1))
    } else if from <= end < v.len() {
        name_from(v, end + 1)
    } else {
        None
    }
}

/// The file name that a `Content-Disposition` value gives: the quoted
/// value of its first `filename=` attribute, wherever it stands.
pub open spec fn disposition_name(v: Seq<u8>) -> Option<Seq<u8>> {
    name_from(v, 0)
}

pub proof fn lemma_index_of_bounds(v: Seq<u8>, b: u8, from: int)
    requires
        0 <= from,
    ensures
        from <= index_of(v, b, from) <= v.len() || (from > v.len() && index_of(v, b, from)
            == v.len()),
        index_of(v, b, from) < v.len() ==> v[index_of(v, b, from)] == b,
    decreases v.len() - from,
{
    if from < v.len() && v[from] != b {
        lemma_index_of_bounds(v, b, from + 1);
    }
}

/// Finds the first `b` at or after `from`.
pub fn find_byte(v: &Vec<u8>, b: u8, from: usize) -> (r: usize)
    ensures
        r == index_of(v@, b, from as int),
{
    let mut i = from;
    if i >= v.len() {
        return v.len();
    }
    while i < v.len()
        invariant
            from <= i <= v@.len(),
            index_of(v@, b, from as int) == index_of(v@, b, i as int),
        decreases v@.len() - i,
    {
        if v[i] == b {
            return i;
        }
        i += 1;
    }
    i
}

/// Skips the spaces from `from`.
fn skip_space_bytes(v: &Vec<u8>, from: usize) -> (r: usize)
    ensures
        r == skip_spaces(v@, from as int),
{
    let mut i = from;
    if i >= v.len() {
        return v.len();
    }
    while i < v.len()
        invariant
            from <= i <= v@.len(),
            skip_spaces(v@, from as int) == skip_spaces(v@, i as int),
        decreases v@.len() - i,
    {
        if v[i] != 32 {
            return i;
        }
        i += 1;
    }
    i
}

proof fn lemma_skip_spaces_bounds(v: Seq<u8>, from: int)
    requires
        0 <= from,
    ensures
        skip_spaces(v, from) >= from || (from > v.len() && skip_spaces(v, from) == v.len()),
        skip_spaces(v, from) <= v.len() || from > v.len(),
        skip_spaces(v, from) <= index_of(v, 59, from),
    decreases v.len() - from,
{
    lemma_index_of_bounds(v, 59, from);
    if from < v.len() && v[from] == 32 {
        lemma_skip_spaces_bounds(v, from + 1);
    }
}

/// Whether `filename=`, in any case, stands at `start`.
fn key_matches(v: &Vec<u8>, start: usize) -> (r: bool)
    requires
        start + 9 <= v@.len(),
    ensures
        r == key_at(v@, start as int),
{
    let key: Vec<u8> = vec![102u8, 105, 108, 101, 110, 97, 109, 101, 61];
    assert(key@ =~= filename_key());
    let n = v.len();
    let mut k: usize = 0;
    while k < 9
        invariant
            k <= 9,
            n == v@.len(),
            start + 9 <= v@.len(),
            key@ == filename_key(),
            forall|j: int| 0 <= j < k ==> ascii_lower(#[trigger] v@[start + j]) == filename_key()[j],
        decreases 9 - k,
    {
        let c = v[start + k];
        let lower = if 65 <= c && c <= 90 {
            c + 32
        } else {
            c
        };
        if lower != key[k] {
            assert(ascii_lower(v@[start + k]) != filename_key()[k as int]);
            return false;
        }
        k += 1;
    }
    true
}

/// Reads the file name out of a `Content-Disposition` value.
pub fn filename_from_disposition(value: &Vec<u8>) -> (r: Option<Vec<u8>>)
    ensures
        match disposition_name(value@) {
            Some(n) => r matches Some(b) && b@ == n,
            None => r is None,
        },
{
    let mut from: usize = 0;
    while from <= value.len()
        invariant
            name_from(value@, 0) == name_from(value@, from as int),
        decreases value@.len() + 1 - from,
    {
        let start = skip_space_bytes(value, from);
        let end = find_byte(value, 59, from);
        proof {
            lemma_index_of_bounds(value@, 59, from as int);
            lemma_skip_spaces_bounds(value@, from as int);
        }
        if start <= end && end - start >= 11 && key_matches(value, start) && value[start + 9] == 34
            && value[end - 1] == 34 {
            return Some(crate::bytes::copy_range(value, start + 10, end - 1));
        }
        if end >= value.len() {
            return None;
        }
        from = end + 1;
    }
    None
}

/// Where a download is saved: the name the server gave, or a numbered
/// `download<k>.bin`.
#[derive(Debug, Clone, PartialEq, Eq)]
pub enum FileName {
    Given(Vec<u8>),
    Numbered(usize),
}

/// The settings of a segmented download.
#[derive(Debug, Clone)]
pub struct HttpDownloader {
    pub url: Option<String>,
    pub concurrency: u16,
    pub output_path: Option<String>,
    /// Downloads that have been named so far; numbers the next default name.
    pub count: usize,
}

impl HttpDownloader {
    pub fn new() -> (r: HttpDownloader)
        ensures
            r.url is None,
            r.concurrency == DEFAULT_CONCURRENCY,
            r.output_path matches Some(p) && p@ == "."@,
            r.count == 0,
    {
        HttpDownloader {
            url: None,
            concurrency: DEFAULT_CONCURRENCY,
            output_path: Some(".".to_owned()),
            count: 0,
        }
    }

    pub fn set_url(self, url: String) -> (r: HttpDownloader)
        ensures
            r.url matches Some(u) && u@ == url@,
            r.concurrency == self.concurrency,
            r.output_path == self.output_path,
            r.count == self.count,
    {
        HttpDownloader { url: Some(url), ..self }
    }

    pub fn set_output_path(self, output_path: String) -> (r: HttpDownloader)
        ensures
            r.output_path matches Some(p) && p@ == output_path@,
            r.url == self.url,
            r.concurrency == self.concurrency,
            r.count == self.count,
    {
        HttpDownloader { output_path: Some(output_path), ..self }
    }

    /// Sets the number of concurrent ranged requests, which is at least one.
    pub fn set_concurrency(self, concurrency: u16) -> (r: HttpDownloader)
        requires
            concurrency >= 1,
        ensures
            r.concurrency == concurrency,
            r.url == self.url,
            r.output_path == self.output_path,
            r.count == self.count,
    {
        HttpDownloader { concurrency, ..self }
    }

    /// Names the next download from its `Content-Disposition` value, if
    /// any; each call takes the next number of the default names.
    pub fn parse_filename(&mut self, disposition: Option<&Vec<u8>>) -> (r: FileName)
        requires
            old(self).count < usize::MAX,
        ensures
            final(self).count == old(self).count + 1,
            final(self).url == old(self).url,
            final(self).concurrency == old(self).concurrency,
            final(self).output_path == old(self).output_path,
            match disposition {
                Some(v) => match disposition_name(v@) {
                    Some(n) => r matches FileName::Given(b) && b@ == n,
                    None => r == FileName::Numbered(old(self).count as usize),
                },
                None => r == FileName::Numbered(old(self).count as usize),
            },
    {
        let k = self.count;
        self.count = self.count + 1;
        match disposition {
            Some(v) => match filename_from_disposition(v) {
                Some(b) => FileName::Given(b),
                None => FileName::Numbered(k),
            },
            None => FileName::Numbered(k),
        }
    }

    /// The byte ranges to fetch for a resource of `filesize` bytes.
    pub fn split(&self, filesize: u64) -> (r: Vec<(u64, u64)>)
        requires
            self.concurrency >= 1,
        ensures
            r@.len() == segment_count(filesize as int, self.concurrency as int),
            forall|i: int|
                0 <= i < r@.len() ==> (#[trigger] r@[i]).0 == segment(
                    filesize as int,
                    self.concurrency as int,
                    i,
                ).0 && r@[i].1 == segment(filesize as int, self.concurrency as int, i).1,
    {
        split_ranges(filesize, self.concurrency)
    }
}

} // verus!
