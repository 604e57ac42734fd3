//! Reassembly of verified pieces into the downloaded file.
use vstd::prelude::*;

use crate::bittorrent::client::splice;
use crate::bittorrent::error::TorrentError;
use crate::bittorrent::piece::PieceResult;
use crate::bittorrent::torrent::{lemma_piece_lengths, num_pieces, piece_len};

verus! {

/// How many entries of `s` are true.
pub open spec fn count_true(s: Seq<bool>) -> nat
    decreases s.len(),
{
    if s.len() == 0 {
        0
    } else {
        count_true(s.drop_last()) + if s.last() {
            1nat
        } else {
            0nat
        }
    }
}

proof fn lemma_count_update(s: Seq<bool>, i: int)
    requires
        0 <= i < s.len(),
        !s[i],
    ensures
        count_true(s.update(i, true)) == count_true(s) + 1,
    decreases s.len(),
{
    if i == s.len() - 1 {
        assert(s.update(i, true).drop_last() =~= s.drop_last());
    } else {
        lemma_count_update(s.drop_last(), i);
        assert(s.update(i, true).drop_last() =~= s.drop_last().update(i, true));
    }
}

proof fn lemma_count_full(s: Seq<bool>)
    ensures
        count_true(s) <= s.len(),
        count_true(s) == s.len() ==> forall|i: int| 0 <= i < s.len() ==> #[trigger] s[i],
    decreases s.len(),
{
    if s.len() > 0 {
        lemma_count_full(s.drop_last());
        if count_true(s) == s.len() {
            assert forall|i: int| 0 <= i < s.len() implies #[trigger] s[i] by {
                if i < s.len() - 1 {
                    assert(s.drop_last()[i] == s[i]);
                }
            }
        }
    }
}

proof fn lemma_count_all_false(n: nat)
    ensures
        count_true(Seq::new(n, |i: int| false)) == 0,
    decreases n,
{
    if n > 0 {
        lemma_count_all_false((n - 1) as nat);
        assert(Seq::new(n, |i: int| false).drop_last() =~= Seq::new((n - 1) as nat, |i: int| false));
    }
}

/// Pieces `i < j` occupy disjoint ranges, in order.
proof fn lemma_ranges_ordered(piece_length: int, i: int, j: int)
    requires
        piece_length > 0,
        0 <= i < j,
    ensures
        i * piece_length + piece_length <= j * piece_length,
{
    assert(i * piece_length + piece_length <= j * piece_length) by (nonlinear_arith)
        requires
            piece_length > 0,
            i + 1 <= j,
    ;
}

/// The output buffer of a torrent download, filled piece by piece in any
/// order. `parts` records the bytes accepted for each index.
pub struct Assembler {
    pub piece_length: u32,
    pub length: u32,
    pub num_pieces: u32,
    pub data: Vec<u8>,
    pub received: Vec<bool>,
    pub count: u32,
    pub parts: Ghost<Map<int, Seq<u8>>>,
}

impl Assembler {
    /// The buffer covers the file, one flag per piece, `count` counts the
    /// pieces received, and each received piece's bytes stand at its offset.
    pub open spec fn well_formed(self) -> bool {
        &&& self.piece_length > 0
        &&& self.num_pieces == num_pieces(self.length as int, self.piece_length as int)
        &&& self.data@.len() == self.length
        &&& self.received@.len() == self.num_pieces
        &&& self.count == count_true(self.received@)
        &&& forall|i: int|
            0 <= i < self.num_pieces && #[trigger] self.received@[i] ==> {
                let start = i * self.piece_length;
                let len = piece_len(self.length as int, self.piece_length as int, i);
                &&& self.parts@.contains_key(i)
                &&& self.parts@[i].len() == len
                &&& self.data@.subrange(start, start + len) == self.parts@[i]
            }
    }

    /// An empty buffer of `length` bytes, cut in pieces of `piece_length`.
    pub fn new(piece_length: u32, length: u32) -> (r: Assembler)
        requires
            piece_length > 0,
        ensures
            r.well_formed(),
            r.piece_length == piece_length,
            r.length == length,
            r.count == 0,
            r.data@ == Seq::new(length as nat, |i: int| 0u8),
    {
        let n64: u64 = ((length as u64) + (piece_length as u64) - 1) / (piece_length as u64);
        assert(n64 <= length) by (nonlinear_arith)
            requires
                n64 == (length + piece_length - 1) / (piece_length as int),
                piece_length > 0,
        ;
        let num_pieces: u32 = n64 as u32;
        let mut data: Vec<u8> = Vec::new();
        let mut i: u32 = 0;
        while i < length
            invariant
                i <= length,
                data@ == Seq::new(i as nat, |k: int| 0u8),
            decreases length - i,
        {
            data.push(0u8);
            i += 1;
            assert(data@ =~= Seq::new(i as nat, |k: int| 0u8));
        }
        let mut received: Vec<bool> = Vec::new();
        let mut j: u32 = 0;
        while j < num_pieces
            invariant
                j <= num_pieces,
                received@ == Seq::new(j as nat, |k: int| false),
            decreases num_pieces - j,
        {
            received.push(false);
            j += 1;
            assert(received@ =~= Seq::new(j as nat, |k: int| false));
        }
        proof {
            lemma_count_all_false(num_pieces as nat);
        }
        Assembler {
            piece_length,
            length,
            num_pieces,
            data,
            received,
            count: 0,
            parts: Ghost(Map::empty()),
        }
    }

    /// Places a verified piece at its offset. A result is rejected when its
    /// index is past the last piece or its length is not that piece's
    /// length. Returns whether the piece was new; a piece received before
    /// changes nothing.
    pub fn accept(&mut self, result: PieceResult) -> (r: Result<bool, TorrentError>)
        requires
            old(self).well_formed(),
        ensures
            final(self).well_formed(),
            r is Ok <==> {
                &&& result.index < old(self).num_pieces
                &&& result.length == piece_len(
                    old(self).length as int,
                    old(self).piece_length as int,
                    result.index as int,
                )
                &&& result.data@.len() == result.length
            },
            r matches Ok(fresh) ==> fresh == !old(self).received@[result.index as int],
            r == Ok::<bool, TorrentError>(true) ==> {
                &&& final(self).data@ == splice(
                    old(self).data@,
                    result.index * old(self).piece_length,
                    result.data@,
                )
                &&& final(self).received@ == old(self).received@.update(result.index as int, true)
                &&& final(self).count == old(self).count + 1
                &&& final(self).parts@ == old(self).parts@.insert(
                    result.index as int,
                    result.data@,
                )
                &&& final(self).piece_length == old(self).piece_length
                &&& final(self).length == old(self).length
                &&& final(self).num_pieces == old(self).num_pieces
            },
            r != Ok::<bool, TorrentError>(true) ==> *final(self) == *old(self),
            r matches Err(e) ==> e == TorrentError::Protocol,
    {
        if result.index >= self.num_pieces {
            return Err(TorrentError::Protocol);
        }
        proof {
            lemma_piece_lengths(self.length as int, self.piece_length as int, result.index as int);
        }
        let start64: u64 = result.index as u64 * self.piece_length as u64;
        let expected: u64 = if self.length as u64 - start64 < self.piece_length as u64 {
            self.length as u64 - start64
        } else {
            self.piece_length as u64
        };
        if result.length as u64 != expected || result.data.len() != result.length as usize {
            return Err(TorrentError::Protocol);
        }
        let index = result.index as usize;
        if self.received[index] {
            return Ok(false);
        }
        let ghost old_self = *self;
        let start: usize = start64 as usize;
        let len: usize = result.data.len();
        let mut k: usize = 0;
        while k < len
            invariant
                len == result.data@.len(),
                start + len <= old_self.data@.len(),
                old_self.data@.len() == old_self.length,
                k <= len,
                self.data@ == old_self.data@.subrange(0, start as int) + result.data@.subrange(
                    0,
                    k as int,
                ) + old_self.data@.subrange(start + k, old_self.data@.len() as int),
                self.piece_length == old_self.piece_length,
                self.length == old_self.length,
                self.num_pieces == old_self.num_pieces,
                self.received == old_self.received,
                self.count == old_self.count,
                self.parts == old_self.parts,
            decreases len - k,
        {
            self.data.set(start + k, result.data[k]);
            k += 1;
            assert(self.data@ =~= old_self.data@.subrange(0, start as int)
                + result.data@.subrange(0, k as int) + old_self.data@.subrange(
                start + k,
                old_self.data@.len() as int,
            ));
        }
        assert(result.data@.subrange(0, k as int) =~= result.data@);
        proof {
            lemma_count_update(self.received@, index as int);
            lemma_count_full(self.received@.update(index as int, true));
        }
        self.received.set(index, true);
        self.count = self.count + 1;
        self.parts = Ghost(self.parts@.insert(index as int, result.data@));
        proof {
            let pl = self.piece_length as int;
            let ln = self.length as int;
            assert forall|i: int|
                0 <= i < self.num_pieces && #[trigger] self.received@[i] implies {
                let s = i * pl;
                let l = piece_len(ln, pl, i);
                &&& self.parts@.contains_key(i)
                &&& self.parts@[i].len() == l
                &&& self.data@.subrange(s, s + l) == self.parts@[i]
            } by {
                let s = i * pl;
                let l = piece_len(ln, pl, i);
                lemma_piece_lengths(ln, pl, i);
                if i == index {
                    assert(self.data@.subrange(s, s + l) =~= result.data@);
                } else {
                    assert(old_self.received@[i]);
                    if i < index {
                        lemma_ranges_ordered(pl, i, index as int);
                    } else {
                        lemma_ranges_ordered(pl, index as int, i);
                    }
                    assert(self.data@.subrange(s, s + l) =~= old_self.data@.subrange(s, s + l));
                }
            }
        }
        Ok(true)
    }

    /// Whether every piece has been received.
    pub fn is_complete(&self) -> (r: bool)
        requires
            self.well_formed(),
        ensures
            r == (self.count == self.num_pieces),
            r ==> forall|i: int| 0 <= i < self.num_pieces ==> #[trigger] self.received@[i],
    {
        proof {
            lemma_count_full(self.received@);
        }
        self.count == self.num_pieces
    }

    /// The assembled bytes.
    pub fn into_data(self) -> (r: Vec<u8>)
        ensures
            r@ == self.data@,
    {
        self.data
    }
}

/// Reassembly law: once every piece is in, and each accepted piece is the
/// matching slice of some original byte stream of the torrent's length, the
/// buffer is that stream, whatever order the pieces came in.
pub proof fn lemma_reassembly(a: Assembler, original: Seq<u8>)
    requires
        a.well_formed(),
        a.count == a.num_pieces,
        original.len() == a.length,
        forall|i: int|
            0 <= i < a.num_pieces ==> #[trigger] a.parts@[i] == original.subrange(
                i * a.piece_length,
                i * a.piece_length + piece_len(a.length as int, a.piece_length as int, i),
            ),
    ensures
        a.data@ == original,
{
    lemma_count_full(a.received@);
    let pl = a.piece_length as int;
    let ln = a.length as int;
    assert forall|p: int| 0 <= p < ln implies a.data@[p] == original[p] by {
        let i = p / pl;
        let off = p % pl;
        vstd::arithmetic::div_mod::lemma_fundamental_div_mod(p, pl);
        vstd::arithmetic::div_mod::lemma_mod_bound(p, pl);
        assert(i >= 0) by (nonlinear_arith)
            requires
                p >= 0,
                pl > 0,
                i == p / pl,
        ;
        assert(i * pl <= p) by (nonlinear_arith)
            requires
                p == pl * i + off,
                off >= 0,
        ;
        lemma_piece_lengths(ln, pl, i);
        assert(a.received@[i]);
        let l = piece_len(ln, pl, i);
        assert(off < l);
        assert(a.data@.subrange(i * pl, i * pl + l)[off] == a.data@[p]);
        assert(original.subrange(i * pl, i * pl + l)[off] == original[p]);
    }
    assert(a.data@ =~= original);
}

} // verus!
