//! The query that announces us to the tracker.
use vstd::prelude::*;

use crate::bittorrent::torrent::Torrent;
use crate::bytes::append_all;

verus! {

/// Whether `b` is in the unreserved set that percent-encoding leaves as
/// it is: ASCII letters and digits and `-`, `.`, `_`, `~`.
pub open spec fn unreserved(b: u8) -> bool {
    (48 <= b <= 57) || (65 <= b <= 90) || (97 <= b <= 122) || b == 45 || b == 46 || b == 95 || b
        == 126
}

/// The upper-case hex digit of `d < 16`.
pub open spec fn hex_upper(d: int) -> u8 {
    if d < 10 {
        (48 + d) as u8
    } else {
        (55 + d) as u8
    }
}

/// The percent-encoding of one byte: itself when unreserved, else `%XX`.
pub open spec fn pct_byte(b: u8) -> Seq<u8> {
    if unreserved(b) {
        seq![b]
    } else {
        seq![37u8, hex_upper(b as int / 16), hex_upper(b as int % 16)]
    }
}

/// The percent-encoding of `s`, byte by byte.
pub open spec fn percent_encoded(s: Seq<u8>) -> Seq<u8>
    decreases s.len(),
{
    if s.len() == 0 {
        Seq::empty()
    } else {
        percent_encoded(s.drop_last()) + pct_byte(s.last())
    }
}

/// The decimal digits of `n`, without leading zeros.
pub open spec fn decimal_of(n: nat) -> Seq<u8>
    decreases n,
{
    if n < 10 {
        seq![(48 + n) as u8]
    } else {
        decimal_of(n / 10) + seq![(48 + n % 10) as u8]
    }
}

/// The bytes of `info_hash=`.
pub open spec fn info_hash_key() -> Seq<u8> {
    seq![105u8, 110, 102, 111, 95, 104, 97, 115, 104, 61]
}

/// The bytes of `&peer_id=`.
pub open spec fn peer_id_key() -> Seq<u8> {
    seq![38u8, 112, 101, 101, 114, 95, 105, 100, 61]
}

/// The bytes of `&port=`.
pub open spec fn port_key() -> Seq<u8> {
    seq![38u8, 112, 111, 114, 116, 61]
}

/// The bytes of `&uploaded=0&downloaded=0&compact=1&left=`.
pub open spec fn fixed_pairs() -> Seq<u8> {
    seq![
        38u8, 117, 112, 108, 111, 97, 100, 101, 100, 61, 48, 38, 100, 111, 119, 110, 108, 111, 97,
        100, 101, 100, 61, 48, 38, 99, 111, 109, 112, 97, 99, 116, 61, 49, 38, 108, 101, 102, 116,
        61,
    ]
}

/// The announce query: the info hash and our peer id percent-encoded from their
/// raw bytes, our port, nothing uploaded or downloaded yet, compact peers,
/// and the bytes left to fetch.
pub open spec fn announce_query(info_hash: Seq<u8>, peer_id: Seq<u8>, port: nat, left: nat) -> Seq<
    u8,
> {
    info_hash_key() + percent_encoded(info_hash) + peer_id_key() + percent_encoded(peer_id) + port_key()
        + decimal_of(port) + fixed_pairs() + decimal_of(left)
}

/// The upper-case hex digit of `d`.
fn hex_digit(d: u8) -> (r: u8)
    requires
        d < 16,
    ensures
        r == hex_upper(d as int),
{
    if d < 10 {
        48 + d
    } else {
        55 + d
    }
}

/// Percent-encodes `bytes`.
pub fn percent_encode(bytes: &Vec<u8>) -> (r: Vec<u8>)
    ensures
        r@ == percent_encoded(bytes@),
{
    let mut out: Vec<u8> = Vec::new();
    let mut i: usize = 0;
    while i < bytes.len()
        invariant
            i <= bytes@.len(),
            out@ == percent_encoded(bytes@.subrange(0, i as int)),
        decreases bytes@.len() - i,
    {
        let b = bytes[i];
        if (48 <= b && b <= 57) || (65 <= b && b <= 90) || (97 <= b && b <= 122) || b == 45 || b
            == 46 || b == 95 || b == 126 {
            out.push(b);
        } else {
            out.push(37u8);
            out.push(hex_digit(b / 16));
            out.push(hex_digit(b % 16));
        }
        assert(bytes@.subrange(0, i + 1).drop_last() =~= bytes@.subrange(0, i as int));
        i += 1;
        assert(out@ =~= percent_encoded(bytes@.subrange(0, i as int)));
    }
    assert(bytes@.subrange(0, i as int) =~= bytes@);
    out
}

/// Appends the decimal digits of `n`.
pub fn write_decimal(out: &mut Vec<u8>, n: u64)
    ensures
        final(out)@ == old(out)@ + decimal_of(n as nat),
    decreases n,
{
    if n >= 10 {
        write_decimal(out, n / 10);
    }
    out.push(48u8 + (n % 10) as u8);
    assert(out@ =~= old(out)@ + decimal_of(n as nat));
}

/// Appends `bytes` to `out`.
fn push_all(out: &mut Vec<u8>, bytes: Vec<u8>)
    ensures
        final(out)@ == old(out)@ + bytes@,
{
    append_all(out, &bytes);
}

impl Torrent {
    /// The query string of the announce request for this torrent, to be
    /// appended to the announce URL's own query.
    pub fn tracker_query(&self, peer_id: &Vec<u8>, port: u16) -> (r: Vec<u8>)
        ensures
            r@ == announce_query(self.info_hash@, peer_id@, port as nat, self.length as nat),
    {
        let mut query: Vec<u8> = Vec::new();
        let k1: Vec<u8> = vec![105u8, 110, 102, 111, 95, 104, 97, 115, 104, 61];
        assert(k1@ =~= info_hash_key());
        push_all(&mut query, k1);
        push_all(&mut query, percent_encode(&self.info_hash));
        let k2: Vec<u8> = vec![38u8, 112, 101, 101, 114, 95, 105, 100, 61];
        assert(k2@ =~= peer_id_key());
        push_all(&mut query, k2);
        push_all(&mut query, percent_encode(peer_id));
        let k3: Vec<u8> = vec![38u8, 112, 111, 114, 116, 61];
        assert(k3@ =~= port_key());
        push_all(&mut query, k3);
        write_decimal(&mut query, port as u64);
        let k4: Vec<u8> = vec![
            38u8,
            117,
            112,
            108,
            111,
            97,
            100,
            101,
            100,
            61,
            48,
            38,
            100,
            111,
            119,
            110,
            108,
            111,
            97,
            100,
            101,
            100,
            61,
            48,
            38,
            99,
            111,
            109,
            112,
            97,
            99,
            116,
            61,
            49,
            38,
            108,
            101,
            102,
            116,
            61,
        ];
        assert(k4@ =~= fixed_pairs());
        push_all(&mut query, k4);
        write_decimal(&mut query, self.length as u64);
        query
    }
}

} // verus!
