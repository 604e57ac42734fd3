use vstd::prelude::*;

use crate::bittorrent::digest::{sha1_digest, sha1_of, SHA1_INPUT_MAX};
use crate::bittorrent::error::TorrentError;
use crate::bittorrent::peer::{Peer, PEER_SIZE};
use crate::bittorrent::piece::{min_int, PieceWork};
use crate::bytes::{bytes_equal, copy_range};

verus! {

/// Port we announce to the tracker.
pub const PORT: u16 = 6881;

/// Bytes of one SHA-1 piece hash.
pub const SHA1_HASH_SIZE: usize = 20;

/// Number of pieces of `piece_length` bytes that cover `length` bytes.
pub open spec fn num_pieces(length: int, piece_length: int) -> int {
    (length + piece_length - 1) / piece_length
}

/// Length of piece `index`: the nominal length, or what is left for the last.
pub open spec fn piece_len(length: int, piece_length: int, index: int) -> int {
    min_int(piece_length, length - index * piece_length)
}

/// The 20-byte hashes that `pieces` holds, in order.
pub open spec fn hashes_of(pieces: Seq<u8>, hashes: Seq<Vec<u8>>) -> bool {
    &&& hashes.len() * 20 == pieces.len()
    &&& forall|i: int|
        0 <= i < hashes.len() ==> (#[trigger] hashes[i])@ == pieces.subrange(20 * i, 20 * i + 20)
}

/// The peer described by the six bytes of `blob` from `6 * i`.
pub open spec fn peer_at(blob: Seq<u8>, i: int, p: Peer) -> bool {
    &&& p.id == i
    &&& p.ip@ == blob.subrange(6 * i, 6 * i + 4)
    &&& p.port == blob[6 * i + 4] * 256 + blob[6 * i + 5]
}

/// A torrent: where its tracker is, what identifies it, how it is cut into
/// pieces, and the peers found for it.
#[derive(Default, Debug, Clone)]
pub struct Torrent {
    pub announce: String,
    pub info_hash: Vec<u8>,
    pub pieces_hashes: Vec<Vec<u8>>,
    pub piece_length: u32,
    pub length: u32,
    pub name: String,
    pub peer_id: Vec<u8>,
    pub peers: Vec<Peer>,
}

/// Cuts the concatenated piece hashes into 20-byte hashes.
pub fn split_pieces_hashes(pieces: &Vec<u8>) -> (r: Result<Vec<Vec<u8>>, TorrentError>)
    ensures
        r is Ok <==> pieces@.len() % 20 == 0,
        r matches Ok(h) ==> hashes_of(pieces@, h@),
        r matches Err(e) ==> e == TorrentError::InvalidMetainfo,
{
    let nb_pieces = pieces.len();
    if nb_pieces % SHA1_HASH_SIZE != 0 {
        return Err(TorrentError::InvalidMetainfo);
    }
    let nb_hashes = nb_pieces / SHA1_HASH_SIZE;
    let mut hashes: Vec<Vec<u8>> = Vec::new();
    let mut i: usize = 0;
    while i < nb_hashes
        invariant
            nb_hashes * 20 == pieces@.len(),
            nb_pieces == pieces@.len(),
            i <= nb_hashes,
            hashes@.len() == i,
            forall|j: int|
                0 <= j < i ==> (#[trigger] hashes@[j])@ == pieces@.subrange(20 * j, 20 * j + 20),
        decreases nb_hashes - i,
    {
        assert((i + 1) * 20 <= nb_pieces) by (nonlinear_arith)
            requires
                i < nb_hashes,
                nb_hashes * 20 == nb_pieces,
        ;
        let h = copy_range(pieces, i * SHA1_HASH_SIZE, (i + 1) * SHA1_HASH_SIZE);
        hashes.push(h);
        i += 1;
    }
    Ok(hashes)
}

/// The piece-length law: every piece but the last has the nominal length;
/// the last has what remains, which is more than nothing and at most the
/// nominal length. An index names a piece exactly when it starts before the
/// end of the data.
pub proof fn lemma_piece_lengths(length: int, piece_length: int, index: int)
    requires
        length >= 0,
        piece_length > 0,
    ensures
        (0 <= index < num_pieces(length, piece_length)) <==> (0 <= index && index * piece_length
            < length),
        0 <= index < num_pieces(length, piece_length) - 1 ==> piece_len(
            length,
            piece_length,
            index,
        ) == piece_length,
        index == num_pieces(length, piece_length) - 1 >= 0 ==> {
            let last = piece_len(length, piece_length, index);
            &&& last == length - index * piece_length
            &&& 0 < last <= piece_length
        },
{
    let n = num_pieces(length, piece_length);
    let x = length + piece_length - 1;
    vstd::arithmetic::div_mod::lemma_fundamental_div_mod(x, piece_length);
    let rem = x % piece_length;
    assert(0 <= rem < piece_length) by {
        vstd::arithmetic::div_mod::lemma_mod_bound(x, piece_length);
    }
    assert(n * piece_length >= length && (n - 1) * piece_length < length) by (nonlinear_arith)
        requires
            x == piece_length * n + rem,
            0 <= rem < piece_length,
            x == length + piece_length - 1,
    ;
    if 0 <= index {
        if index < n {
            assert(index * piece_length <= (n - 1) * piece_length) by (nonlinear_arith)
                requires
                    index <= n - 1,
                    piece_length > 0,
            ;
        } else {
            assert(index * piece_length >= n * piece_length) by (nonlinear_arith)
                requires
                    index >= n,
                    piece_length > 0,
            ;
        }
        if index < n - 1 {
            assert((index + 1) * piece_length <= (n - 1) * piece_length) by (nonlinear_arith)
                requires
                    index + 1 <= n - 1,
                    piece_length > 0,
            ;
            assert((index + 1) * piece_length == index * piece_length + piece_length)
                by (nonlinear_arith);
        }
        if index == n - 1 {
            assert(n * piece_length == index * piece_length + piece_length) by (nonlinear_arith)
                requires
                    index == n - 1,
            ;
        }
    }
}

impl Torrent {
    pub fn new() -> (r: Torrent)
        ensures
            r.announce@ == Seq::<char>::empty(),
            r.info_hash@ == Seq::<u8>::empty(),
            r.pieces_hashes@ == Seq::<Vec<u8>>::empty(),
            r.piece_length == 0,
            r.length == 0,
            r.name@ == Seq::<char>::empty(),
            r.peer_id@ == Seq::<u8>::empty(),
            r.peers@ == Seq::<Peer>::empty(),
    {
        Torrent {
            announce: String::new(),
            info_hash: Vec::new(),
            pieces_hashes: Vec::new(),
            piece_length: 0,
            length: 0,
            name: String::new(),
            peer_id: Vec::new(),
            peers: Vec::new(),
        }
    }

    /// The metainfo invariant: pieces have a positive length, there is one
    /// 20-byte hash per piece, and the pieces cover the data.
    pub open spec fn well_formed(self) -> bool {
        &&& self.piece_length > 0
        &&& self.pieces_hashes@.len() == num_pieces(self.length as int, self.piece_length as int)
        &&& forall|i: int|
            0 <= i < self.pieces_hashes@.len() ==> (#[trigger] self.pieces_hashes@[i])@.len() == 20
    }

    /// Builds a torrent from the fields of a decoded metainfo file: the
    /// announce URL, the bencoded `info` dictionary as it appeared in the file
    /// (its SHA-1 digest is the info hash), the concatenated piece hashes, the
    /// piece length, the total length and the name. Fails when the piece
    /// hashes are not a whole number of 20-byte hashes, when the piece length
    /// is zero, or when the number of hashes is not the number of pieces.
    pub fn from_metainfo(
        announce: String,
        info: &Vec<u8>,
        pieces: &Vec<u8>,
        piece_length: u32,
        length: u32,
        name: String,
        peer_id: Vec<u8>,
    ) -> (r: Result<Torrent, TorrentError>)
        ensures
            r is Ok <==> {
                &&& pieces@.len() % 20 == 0
                &&& piece_length > 0
                &&& pieces@.len() / 20 == num_pieces(length as int, piece_length as int)
                &&& info@.len() <= SHA1_INPUT_MAX
            },
            r matches Ok(t) ==> {
                &&& t.well_formed()
                &&& t.announce@ == announce@
                &&& t.info_hash@ == sha1_of(info@)
                &&& hashes_of(pieces@, t.pieces_hashes@)
                &&& t.pieces_hashes@.len() * 20 == pieces@.len()
                &&& t.piece_length == piece_length
                &&& t.length == length
                &&& t.name@ == name@
                &&& t.peer_id@ == peer_id@
                &&& t.peers@.len() == 0
            },
            r matches Err(e) ==> e == TorrentError::InvalidMetainfo,
    {
        if piece_length == 0 || info.len() as u64 > SHA1_INPUT_MAX {
            return Err(TorrentError::InvalidMetainfo);
        }
        let pieces_hashes = match split_pieces_hashes(pieces) {
            Ok(h) => h,
            Err(e) => return Err(e),
        };
        let count: u64 = ((length as u64) + (piece_length as u64) - 1) / (piece_length as u64);
        if pieces_hashes.len() as u64 != count {
            return Err(TorrentError::InvalidMetainfo);
        }
        let info_hash = sha1_digest(info);
        let t = Torrent {
            announce,
            info_hash,
            pieces_hashes,
            piece_length,
            length,
            name,
            peer_id,
            peers: Vec::new(),
        };
        assert forall|i: int| 0 <= i < t.pieces_hashes@.len() implies (
        #[trigger] t.pieces_hashes@[i])@.len() == 20 by {
            assert(t.pieces_hashes@[i]@ == pieces@.subrange(20 * i, 20 * i + 20));
        }
        Ok(t)
    }

    /// Length of piece `index`; the last piece may be shorter. Fails for an
    /// index past the last piece.
    pub fn get_piece_length(&self, index: u32) -> (r: Result<u32, TorrentError>)
        ensures
            r is Ok <==> index * self.piece_length < self.length,
            r matches Ok(n) ==> n == piece_len(
                self.length as int,
                self.piece_length as int,
                index as int,
            ),
            r matches Err(e) ==> e == TorrentError::Protocol,
    {
        assert(index * self.piece_length <= u32::MAX * u32::MAX) by (nonlinear_arith)
            requires
                index <= u32::MAX,
                self.piece_length <= u32::MAX,
        ;
        let begin: u64 = index as u64 * self.piece_length as u64;
        if begin >= self.length as u64 {
            return Err(TorrentError::Protocol);
        }
        let mut end: u64 = begin + self.piece_length as u64;
        if end > self.length as u64 {
            end = self.length as u64;
        }
        Ok((end - begin) as u32)
    }

    /// One job per piece, in index order, each with its expected hash and its
    /// length, the last piece being possibly shorter.
    pub fn piece_works(&self) -> (r: Vec<PieceWork>)
        requires
            self.well_formed(),
        ensures
            r@.len() == self.pieces_hashes@.len(),
            forall|i: int|
                0 <= i < r@.len() ==> {
                    let w = #[trigger] r@[i];
                    &&& w.well_formed()
                    &&& w.index == i
                    &&& w.hash@ == self.pieces_hashes@[i]@
                    &&& w.length == piece_len(self.length as int, self.piece_length as int, i)
                    &&& w.data@ == Seq::new(w.length as nat, |k: int| 0u8)
                    &&& w.requests == 0 && w.requested == 0 && w.downloaded == 0
                },
    {
        let n = self.pieces_hashes.len();
        let mut works: Vec<PieceWork> = Vec::new();
        let mut i: usize = 0;
        while i < n
            invariant
                self.well_formed(),
                n == self.pieces_hashes@.len(),
                i <= n,
                works@.len() == i,
                forall|j: int|
                    0 <= j < i ==> {
                        let w = #[trigger] works@[j];
                        &&& w.well_formed()
                        &&& w.index == j
                        &&& w.hash@ == self.pieces_hashes@[j]@
                        &&& w.length == piece_len(
                            self.length as int,
                            self.piece_length as int,
                            j,
                        )
                        &&& w.data@ == Seq::new(w.length as nat, |k: int| 0u8)
                        &&& w.requests == 0 && w.requested == 0 && w.downloaded == 0
                    },
            decreases n - i,
        {
            proof {
                lemma_piece_lengths(self.length as int, self.piece_length as int, i as int);
                assert(i <= i * self.piece_length) by (nonlinear_arith)
                    requires
                        self.piece_length > 0,
                ;
            }
            let index = i as u32;
            let length = match self.get_piece_length(index) {
                Ok(l) => l,
                Err(_) => {
                    assert(false);
                    0
                },
            };
            let hash = copy_range(&self.pieces_hashes[i], 0, self.pieces_hashes[i].len());
            assert(hash@ =~= self.pieces_hashes@[i as int]@);
            works.push(PieceWork::new(index, hash, length));
            i += 1;
        }
        works
    }

    /// The peers of the tracker's compact list: six bytes each, four of IPv4
    /// address and two of big-endian port, numbered from zero in order.
    pub fn build_peers(&self, tracker_peers: Vec<u8>) -> (r: Result<Vec<Peer>, TorrentError>)
        ensures
            r is Ok <==> tracker_peers@.len() % 6 == 0,
            r matches Ok(peers) ==> {
                &&& peers@.len() * 6 == tracker_peers@.len()
                &&& forall|i: int|
                    0 <= i < peers@.len() ==> peer_at(tracker_peers@, i, #[trigger] peers@[i])
            },
            r matches Err(e) ==> e == TorrentError::InvalidPeers,
    {
        let blob_len = tracker_peers.len();
        if blob_len % PEER_SIZE != 0 {
            return Err(TorrentError::InvalidPeers);
        }
        let nb_peers = blob_len / PEER_SIZE;
        let mut peers: Vec<Peer> = Vec::new();
        let mut i: usize = 0;
        while i < nb_peers
            invariant
                nb_peers * 6 == tracker_peers@.len(),
                blob_len == tracker_peers@.len(),
                i <= nb_peers,
                peers@.len() == i,
                forall|j: int| 0 <= j < i ==> peer_at(tracker_peers@, j, #[trigger] peers@[j]),
            decreases nb_peers - i,
        {
            assert(i * 6 + 6 <= blob_len) by (nonlinear_arith)
                requires
                    i < nb_peers,
                    nb_peers * 6 == blob_len,
            ;
            let offset = i * PEER_SIZE;
            let ip: [u8; 4] = [
                tracker_peers[offset],
                tracker_peers[offset + 1],
                tracker_peers[offset + 2],
                tracker_peers[offset + 3],
            ];
            assert(ip@ =~= tracker_peers@.subrange(6 * i, 6 * i + 4));
            let port: u16 = (tracker_peers[offset + 4] as u16) * 256 + (tracker_peers[offset
                + 5] as u16);
            let peer = Peer { id: i, ip, port };
            assert(peer_at(tracker_peers@, i as int, peer));
            peers.push(peer);
            i += 1;
        }
        Ok(peers)
    }
}

} // verus!
