//! Expansion of `[[a-b]]` groups in download URLs.
use vstd::prelude::*;

use crate::bytes::copy_range;
use crate::bittorrent::tracker::{decimal_of, write_decimal};
use crate::http::error::HttpError;
use crate::http::http::{all_digits, decimal_value, index_of, parse_decimal};

verus! {

/// `s` with each occurrence of `pat`, found left to right without overlap,
/// replaced by `rep`.
pub open spec fn replace_all(s: Seq<u8>, pat: Seq<u8>, rep: Seq<u8>) -> Seq<u8>
    decreases s.len(),
{
    if pat.len() == 0 || s.len() < pat.len() {
        s
    } else if s.subrange(0, pat.len() as int) == pat {
        rep + replace_all(s.subrange(pat.len() as int, s.len() as int), pat, rep)
    } else {
        seq![s[0]] + replace_all(s.subrange(1, s.len() as int), pat, rep)
    }
}

/// The number an unsigned integer literal writes: decimal digits after an
/// optional `+`, within the range of `usize`.
pub open spec fn usize_text(s: Seq<u8>) -> Option<nat> {
    let digits = if s.len() > 0 && s[0] == 43 {
        s.subrange(1, s.len() as int)
    } else {
        s
    };
    if all_digits(digits) && decimal_value(digits) <= usize::MAX {
        Some(decimal_value(digits) as nat)
    } else {
        None
    }
}

/// The URLs that one group `[[first-second]]` of `url` stands for: `url`
/// with the group replaced by each number from `first` to `second`, or by
/// each character from `first` to `second` when both are single characters
/// that are not numbers. A group with no `-`, or with bounds that are
/// neither, is invalid.
pub open spec fn group_urls(url: Seq<u8>, group: Seq<u8>) -> Option<Seq<Seq<u8>>> {
    let inner = group.subrange(2, group.len() - 2);
    let d = index_of(inner, 45, 0);
    let first = inner.subrange(0, d);
    let second = inner.subrange(d + 1, inner.len() as int);
    if d >= inner.len() {
        None
    } else {
        match usize_text(first) {
            Some(a) => match usize_text(second) {
                Some(b) => if a <= b {
                    Some(
                        Seq::new(
                            (b - a + 1) as nat,
                            |k: int| replace_all(url, group, decimal_of((a + k) as nat)),
                        ),
                    )
                } else {
                    Some(Seq::empty())
                },
                None => Some(Seq::empty()),
            },
            None => if first.len() == 1 && second.len() == 1 && first[0] <= second[0] {
                Some(
                    Seq::new(
                        (second[0] - first[0] + 1) as nat,
                        |k: int| replace_all(url, group, seq![(first[0] + k) as u8]),
                    ),
                )
            } else {
                None
            },
        }
    }
}

/// The URLs of all groups at `spans`, in order; invalid when any group is.
pub open spec fn expand_spans(url: Seq<u8>, spans: Seq<(usize, usize)>) -> Option<Seq<Seq<u8>>>
    decreases spans.len(),
{
    if spans.len() == 0 {
        Some(Seq::empty())
    } else {
        let s = spans.last().0 as int;
        let e = spans.last().1 as int;
        match expand_spans(url, spans.drop_last()) {
            None => None,
            Some(prev) => if s + 4 <= e <= url.len() {
                match group_urls(url, url.subrange(s, e)) {
                    None => None,
                    Some(g) => Some(prev + g),
                }
            } else {
                None
            },
        }
    }
}

/// The URLs that `url` stands for, given the spans of its groups: the URL
/// itself when it has none.
pub open spec fn pattern_urls(url: Seq<u8>, spans: Seq<(usize, usize)>) -> Option<Seq<Seq<u8>>> {
    if spans.len() == 0 {
        Some(seq![url])
    } else {
        expand_spans(url, spans)
    }
}

/// The views of a list of byte vectors.
pub open spec fn views(v: Seq<Vec<u8>>) -> Seq<Seq<u8>> {
    v.map_values(|b: Vec<u8>| b@)
}

proof fn lemma_views_push(v: Seq<Vec<u8>>, x: Vec<u8>)
    ensures
        views(v.push(x)) == views(v).push(x@),
{
    assert(views(v.push(x)) =~= views(v).push(x@));
}

/// Whether `pat` stands in `s` at `at`.
fn matches_at(s: &Vec<u8>, at: usize, pat: &Vec<u8>) -> (r: bool)
    requires
        at + pat@.len() <= s@.len(),
    ensures
        r == (s@.subrange(at as int, at + pat@.len()) == pat@),
{
    let n = s.len();
    let mut k: usize = 0;
    while k < pat.len()
        invariant
            n == s@.len(),
            k <= pat@.len(),
            at + pat@.len() <= s@.len(),
            forall|j: int| 0 <= j < k ==> s@[at + j] == pat@[j],
        decreases pat@.len() - k,
    {
        if s[at + k] != pat[k] {
            assert(s@.subrange(at as int, at + pat@.len())[k as int] != pat@[k as int]);
            return false;
        }
        k += 1;
    }
    assert(s@.subrange(at as int, at + pat@.len()) =~= pat@);
    true
}

/// `s` with every `pat` replaced by `rep`.
pub fn replace_bytes(s: &Vec<u8>, pat: &Vec<u8>, rep: &Vec<u8>) -> (r: Vec<u8>)
    requires
        pat@.len() > 0,
    ensures
        r@ == replace_all(s@, pat@, rep@),
{
    let mut out: Vec<u8> = Vec::new();
    let mut i: usize = 0;
    let n = s.len();
    let plen = pat.len();
    assert(s@.subrange(0, n as int) =~= s@);
    assert(out@ + s@ =~= s@);
    while i < n
        invariant
            n == s@.len(),
            plen == pat@.len() > 0,
            i <= n,
            out@ + replace_all(s@.subrange(i as int, n as int), pat@, rep@) == replace_all(
                s@,
                pat@,
                rep@,
            ),
        decreases n - i,
    {
        let ghost rest = s@.subrange(i as int, n as int);
        if plen <= n - i && matches_at(s, i, pat) {
            assert(rest.subrange(0, plen as int) =~= s@.subrange(i as int, i + plen));
            assert(rest.subrange(plen as int, rest.len() as int) =~= s@.subrange(
                i + plen,
                n as int,
            ));
            crate::bytes::append_all(&mut out, rep);
            i += plen;
        } else {
            if plen <= n - i {
                assert(rest.subrange(0, plen as int) =~= s@.subrange(i as int, i + plen));
                assert(rest.subrange(1, rest.len() as int) =~= s@.subrange(i + 1, n as int));
                out.push(s[i]);
                i += 1;
            } else {
                assert(replace_all(rest, pat@, rep@) == rest);
                let tail = copy_range(s, i, n);
                crate::bytes::append_all(&mut out, &tail);
                i = n;
                assert(out@ + replace_all(s@.subrange(i as int, n as int), pat@, rep@) =~= out@);
            }
        }
    }
    assert(s@.subrange(n as int, n as int) =~= Seq::<u8>::empty());
    assert(out@ + Seq::<u8>::empty() =~= out@);
    out
}

/// Reads an unsigned integer literal.
fn parse_usize(s: &Vec<u8>) -> (r: Option<usize>)
    ensures
        r is None <==> usize_text(s@) is None,
        r matches Some(x) ==> usize_text(s@) == Some(x as nat),
{
    let digits = if s.len() > 0 && s[0] == 43 {
        copy_range(s, 1, s.len())
    } else {
        copy_range(s, 0, s.len())
    };
    assert(s@.subrange(0, s@.len() as int) =~= s@);
    match parse_decimal(&digits) {
        Some(n) => {
            if n > usize::MAX as u64 {
                None
            } else {
                Some(n as usize)
            }
        },
        None => None,
    }
}

/// The URLs that one group of `url`, at `start..end`, stands for.
fn expand_group(url: &Vec<u8>, start: usize, end: usize) -> (r: Result<Vec<Vec<u8>>, HttpError>)
    requires
        start + 4 <= end <= url@.len(),
    ensures
        match group_urls(url@, url@.subrange(start as int, end as int)) {
            Some(v) => r matches Ok(out) && views(out@) == v,
            None => r == Err::<Vec<Vec<u8>>, HttpError>(HttpError::UserInput),
        },
{
    let group = copy_range(url, start, end);
    let inner = copy_range(&group, 2, group.len() - 2);
    let d = crate::http::http::find_byte(&inner, 45, 0);
    if d >= inner.len() {
        return Err(HttpError::UserInput);
    }
    let first = copy_range(&inner, 0, d);
    let second = copy_range(&inner, d + 1, inner.len());
    let mut out: Vec<Vec<u8>> = Vec::new();
    match parse_usize(&first) {
        Some(a) => match parse_usize(&second) {
            Some(b) => {
                if a <= b {
                    let mut i: usize = a;
                    loop
                        invariant_except_break
                            a <= i <= b,
                            group@.len() > 0,
                            views(out@) == Seq::new(
                                (i - a) as nat,
                                |k: int| replace_all(url@, group@, decimal_of((a + k) as nat)),
                            ),
                        ensures
                            views(out@) == Seq::new(
                                (b - a + 1) as nat,
                                |k: int| replace_all(url@, group@, decimal_of((a + k) as nat)),
                            ),
                        decreases b - i,
                    {
                        let mut digits: Vec<u8> = Vec::new();
                        write_decimal(&mut digits, i as u64);
                        assert(digits@ =~= decimal_of(i as nat));
                        let replaced = replace_bytes(url, &group, &digits);
                        let ghost prev = out@;
                        out.push(replaced);
                        proof {
                            lemma_views_push(prev, replaced);
                            assert(((a + (i - a)) as nat) == i as nat);
                        }
                        assert(views(out@) =~= Seq::new(
                            (i - a + 1) as nat,
                            |k: int| replace_all(url@, group@, decimal_of((a + k) as nat)),
                        ));
                        if i == b {
                            break;
                        }
                        i += 1;
                    }
                }
                proof {
                    assert(inner@ == group@.subrange(2, group@.len() - 2));
                    assert(usize_text(first@) == Some(a as nat));
                    assert(usize_text(second@) == Some(b as nat));
                    if a <= b {
                        assert(group_urls(url@, group@) == Some(
                            Seq::new(
                                (b - a + 1) as nat,
                                |k: int| replace_all(url@, group@, decimal_of((a + k) as nat)),
                            ),
                        ));
                    } else {
                        assert(views(out@) =~= Seq::empty());
                        assert(group_urls(url@, group@) == Some(Seq::<Seq<u8>>::empty()));
                    }
                }
                Ok(out)
            },
            None => {
                assert(views(out@) =~= Seq::empty());
                Ok(out)
            },
        },
        None => {
            if first.len() != 1 || second.len() != 1 || first[0] > second[0] {
                return Err(HttpError::UserInput);
            }
            let lo = first[0];
            let hi = second[0];
            let mut c: u8 = lo;
            loop
                invariant_except_break
                    lo <= c <= hi,
                    group@.len() > 0,
                    views(out@) == Seq::new(
                        (c - lo) as nat,
                        |k: int| replace_all(url@, group@, seq![(lo + k) as u8]),
                    ),
                ensures
                    views(out@) == Seq::new(
                        (hi - lo + 1) as nat,
                        |k: int| replace_all(url@, group@, seq![(lo + k) as u8]),
                    ),
                decreases hi - c,
            {
                let one: Vec<u8> = vec![c];
                assert(one@ =~= seq![(lo + (c - lo)) as u8]);
                let replaced = replace_bytes(url, &group, &one);
                let ghost prev = out@;
                out.push(replaced);
                proof {
                    lemma_views_push(prev, replaced);
                }
                assert(views(out@) =~= Seq::new(
                    (c - lo + 1) as nat,
                    |k: int| replace_all(url@, group@, seq![(lo + k) as u8]),
                ));
                if c == hi {
                    break;
                }
                c += 1;
            }
            Ok(out)
        },
    }
}

/// Expands the groups of `url` found at `spans`, in order. Without groups
/// the URL stands for itself; an invalid group makes the whole pattern
/// invalid.
pub fn expand_url_pattern(url: &Vec<u8>, spans: &Vec<(usize, usize)>) -> (r: Result<
    Vec<Vec<u8>>,
    HttpError,
>)
    ensures
        match pattern_urls(url@, spans@) {
            Some(v) => r matches Ok(out) && views(out@) == v,
            None => r == Err::<Vec<Vec<u8>>, HttpError>(HttpError::UserInput),
        },
{
    let mut urls: Vec<Vec<u8>> = Vec::new();
    if spans.len() == 0 {
        urls.push(copy_range(url, 0, url.len()));
        assert(url@.subrange(0, url@.len() as int) =~= url@);
        assert(views(urls@) =~= seq![url@]);
        return Ok(urls);
    }
    let mut i: usize = 0;
    while i < spans.len()
        invariant
            i <= spans@.len(),
            expand_spans(url@, spans@.subrange(0, i as int)) == Some(views(urls@)),
        decreases spans@.len() - i,
    {
        let (s, e) = spans[i];
        assert(spans@.subrange(0, i + 1).drop_last() =~= spans@.subrange(0, i as int));
        if s > e || e - s < 4 || e > url.len() {
            assert(expand_spans(url@, spans@.subrange(0, i + 1)) is None);
            proof {
                lemma_expand_none_extends(url@, spans@, i + 1);
            }
            assert(spans@.subrange(0, spans@.len() as int) =~= spans@);
            return Err(HttpError::UserInput);
        }
        match expand_group(url, s, e) {
            Ok(group) => {
                let ghost before = urls@;
                let mut k: usize = 0;
                while k < group.len()
                    invariant
                        k <= group@.len(),
                        views(urls@) == views(before) + views(group@.subrange(0, k as int)),
                    decreases group@.len() - k,
                {
                    let item = copy_range(&group[k], 0, group[k].len());
                    assert(group@[k as int]@.subrange(0, group@[k as int]@.len() as int)
                        =~= group@[k as int]@);
                    let ghost prev = urls@;
                    urls.push(item);
                    proof {
                        lemma_views_push(prev, item);
                        lemma_views_push(group@.subrange(0, k as int), group@[k as int]);
                        assert(group@.subrange(0, k + 1) =~= group@.subrange(0, k as int).push(
                            group@[k as int],
                        ));
                    }
                    k += 1;
                    assert(views(urls@) =~= views(before) + views(group@.subrange(0, k as int)));
                }
                assert(group@.subrange(0, k as int) =~= group@);
                i += 1;
            },
            Err(err) => {
                assert(expand_spans(url@, spans@.subrange(0, i + 1)) is None);
                proof {
                    lemma_expand_none_extends(url@, spans@, i + 1);
                }
                assert(spans@.subrange(0, spans@.len() as int) =~= spans@);
                return Err(err);
            },
        }
    }
    assert(spans@.subrange(0, i as int) =~= spans@);
    Ok(urls)
}

/// Once a prefix of the spans is invalid, so is every longer prefix.
proof fn lemma_expand_none_extends(url: Seq<u8>, spans: Seq<(usize, usize)>, k: int)
    requires
        0 <= k <= spans.len(),
        expand_spans(url, spans.subrange(0, k)) is None,
    ensures
        expand_spans(url, spans.subrange(0, spans.len() as int)) is None,
    decreases spans.len() - k,
{
    if k < spans.len() {
        assert(spans.subrange(0, k + 1).drop_last() =~= spans.subrange(0, k));
        lemma_expand_none_extends(url, spans, k + 1);
    }
}

} // verus!
