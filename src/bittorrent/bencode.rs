//! Locating values in bencoded data, so that the `info` dictionary of a
//! metainfo file can be hashed in exactly the bytes it was received in.
use vstd::prelude::*;

use crate::http::http::{decimal_value, find_byte, index_of, parse_decimal};

verus! {

/// The end of the run of ASCII digits that starts at `pos`.
pub open spec fn digits_end(b: Seq<u8>, pos: int) -> int
    decreases b.len() - pos,
{
    if 0 <= pos < b.len() && 48 <= b[pos] <= 57 {
        digits_end(b, pos + 1)
    } else {
        pos
    }
}

/// Where the bencoded value that starts at `pos` ends: an integer runs to
/// its `e`, a string is its digit length, `:` and that many bytes, and a
/// list or dictionary runs to the `e` after its items.
pub open spec fn value_end(b: Seq<u8>, pos: int) -> Option<int>
    decreases b.len() - pos, 0int,
{
    if pos < 0 || pos >= b.len() {
        None
    } else if b[pos] == 105 {
        let e = index_of(b, 101, pos + 1);
        if e < b.len() {
            Some(e + 1)
        } else {
            None
        }
    } else if 48 <= b[pos] <= 57 {
        let c = digits_end(b, pos);
        let n = decimal_value(b.subrange(pos, c));
        if c < b.len() && b[c] == 58 && c + 1 + n <= b.len() {
            Some(c + 1 + n)
        } else {
            None
        }
    } else if b[pos] == 108 || b[pos] == 100 {
        items_end(b, pos + 1)
    } else {
        None
    }
}

/// Where the items that start at `p` end, with the closing `e`.
pub open spec fn items_end(b: Seq<u8>, p: int) -> Option<int>
    decreases b.len() - p, 1int,
{
    if p < 0 || p >= b.len() {
        None
    } else if b[p] == 101 {
        Some(p + 1)
    } else {
        match value_end(b, p) {
            Some(q) => if p < q <= b.len() {
                items_end(b, q)
            } else {
                None
            },
            None => None,
        }
    }
}

/// The bytes of the bencoded key `4:info`.
pub open spec fn info_key() -> Seq<u8> {
    seq![52u8, 58, 105, 110, 102, 111]
}

/// The span of the value of key `info` among the dictionary items from `p`.
pub open spec fn info_from(b: Seq<u8>, p: int) -> Option<(int, int)>
    decreases b.len() - p,
{
    if p < 0 || p >= b.len() || b[p] == 101 {
        None
    } else {
        match value_end(b, p) {
            None => None,
            Some(k) => if k <= p || k > b.len() {
                None
            } else {
                match value_end(b, k) {
                    None => None,
                    Some(e) => if b.subrange(p, k) == info_key() {
                        Some((k, e))
                    } else if k < e <= b.len() {
                        info_from(b, e)
                    } else {
                        None
                    },
                }
            },
        }
    }
}

/// The span of the `info` value of a bencoded top-level dictionary.
pub open spec fn info_span(b: Seq<u8>) -> Option<(int, int)> {
    if b.len() > 0 && b[0] == 100 {
        info_from(b, 1)
    } else {
        None
    }
}

proof fn lemma_digits_end(b: Seq<u8>, pos: int)
    requires
        0 <= pos,
    ensures
        pos <= digits_end(b, pos),
        pos <= b.len() ==> digits_end(b, pos) <= b.len(),
        forall|i: int| pos <= i < digits_end(b, pos) ==> 48 <= #[trigger] b[i] <= 57,
    decreases b.len() - pos,
{
    if 0 <= pos < b.len() && 48 <= b[pos] <= 57 {
        lemma_digits_end(b, pos + 1);
    }
}

proof fn lemma_value_end_after(b: Seq<u8>, pos: int)
    requires
        0 <= pos,
    ensures
        value_end(b, pos) matches Some(e) ==> pos < e <= b.len(),
    decreases b.len() - pos, 0int,
{
    if 0 <= pos < b.len() {
        if b[pos] == 105 {
            crate::http::http::lemma_index_of_bounds(b, 101, pos + 1);
        } else if 48 <= b[pos] <= 57 {
            lemma_digits_end(b, pos);
            let c = digits_end(b, pos);
            crate::http::http::lemma_decimal_nonneg(b.subrange(pos, c));
        } else if b[pos] == 108 || b[pos] == 100 {
            lemma_items_end_after(b, pos + 1);
        }
    }
}

proof fn lemma_items_end_after(b: Seq<u8>, p: int)
    requires
        0 <= p,
    ensures
        items_end(b, p) matches Some(e) ==> p < e <= b.len(),
    decreases b.len() - p, 1int,
{
    if 0 <= p < b.len() && b[p] != 101 {
        lemma_value_end_after(b, p);
        if let Some(q) = value_end(b, p) {
            if p < q <= b.len() {
                lemma_items_end_after(b, q);
            }
        }
    }
}

/// The end of the digits from `pos`.
fn digits_end_at(b: &Vec<u8>, pos: usize) -> (r: usize)
    requires
        pos <= b@.len(),
    ensures
        r == digits_end(b@, pos as int),
{
    let mut i = pos;
    while i < b.len() && 48 <= b[i] && b[i] <= 57
        invariant
            pos <= i <= b@.len(),
            digits_end(b@, pos as int) == digits_end(b@, i as int),
        decreases b@.len() - i,
    {
        i += 1;
    }
    i
}

/// Where the value that starts at `pos` ends.
pub fn value_end_at(b: &Vec<u8>, pos: usize) -> (r: Option<usize>)
    ensures
        match value_end(b@, pos as int) {
            Some(e) => r == Some(e as usize),
            None => r is None,
        },
    decreases b@.len() - pos, 0int,
{
    proof {
        lemma_value_end_after(b@, pos as int);
    }
    if pos >= b.len() {
        return None;
    }
    let c0 = b[pos];
    if c0 == 105 {
        let e = find_byte(b, 101, pos + 1);
        proof {
            crate::http::http::lemma_index_of_bounds(b@, 101, pos + 1);
        }
        if e < b.len() {
            Some(e + 1)
        } else {
            None
        }
    } else if 48 <= c0 && c0 <= 57 {
        let c = digits_end_at(b, pos);
        proof {
            lemma_digits_end(b@, pos as int);
        }
        if c >= b.len() || b[c] != 58 {
            return None;
        }
        let digits = crate::bytes::copy_range(b, pos, c);
        match parse_decimal(&digits) {
            Some(n) => {
                if n > (b.len() - c - 1) as u64 {
                    None
                } else {
                    Some(c + 1 + n as usize)
                }
            },
            None => {
                assert(crate::http::http::all_digits(digits@));
                None
            },
        }
    } else if c0 == 108 || c0 == 100 {
        items_end_at(b, pos + 1)
    } else {
        None
    }
}

/// Where the items that start at `p` end.
fn items_end_at(b: &Vec<u8>, p: usize) -> (r: Option<usize>)
    ensures
        match items_end(b@, p as int) {
            Some(e) => r == Some(e as usize),
            None => r is None,
        },
    decreases b@.len() - p, 1int,
{
    proof {
        lemma_value_end_after(b@, p as int);
        lemma_items_end_after(b@, p as int);
    }
    if p >= b.len() {
        return None;
    }
    if b[p] == 101 {
        return Some(p + 1);
    }
    match value_end_at(b, p) {
        Some(q) => {
            if p < q && q <= b.len() {
                items_end_at(b, q)
            } else {
                None
            }
        },
        None => None,
    }
}

/// Whether the bytes from `p` to `k` are the key `4:info`.
fn is_info_key(b: &Vec<u8>, p: usize, k: usize) -> (r: bool)
    requires
        p <= k <= b@.len(),
    ensures
        r == (b@.subrange(p as int, k as int) == info_key()),
{
    if k - p != 6 {
        assert(b@.subrange(p as int, k as int).len() != info_key().len());
        return false;
    }
    let key: Vec<u8> = vec![52u8, 58, 105, 110, 102, 111];
    assert(key@ =~= info_key());
    let part = crate::bytes::copy_range(b, p, k);
    crate::bytes::bytes_equal(&part, &key)
}

/// The span of the value of key `info` in a bencoded top-level
/// dictionary: the exact bytes the info hash is computed over.
pub fn info_span_of(b: &Vec<u8>) -> (r: Option<(usize, usize)>)
    ensures
        match info_span(b@) {
            Some(s) => r == Some((s.0 as usize, s.1 as usize)),
            None => r is None,
        },
        r matches Some(s) ==> s.0 < s.1 <= b@.len(),
{
    if b.len() == 0 || b[0] != 100 {
        return None;
    }
    let mut p: usize = 1;
    while p < b.len()
        invariant
            1 <= p <= b@.len(),
            info_span(b@) == info_from(b@, p as int),
        decreases b@.len() - p,
    {
        if b[p] == 101 {
            return None;
        }
        let k = match value_end_at(b, p) {
            Some(k) => k,
            None => return None,
        };
        proof {
            lemma_value_end_after(b@, p as int);
            lemma_value_end_after(b@, k as int);
        }
        if k <= p || k > b.len() {
            return None;
        }
        let e = match value_end_at(b, k) {
            Some(e) => e,
            None => return None,
        };
        if is_info_key(b, p, k) {
            return Some((k, e));
        }
        if e <= k || e > b.len() {
            return None;
        }
        p = e;
    }
    None
}

} // verus!
