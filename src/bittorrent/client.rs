use vstd::prelude::*;

use crate::bittorrent::error::TorrentError;
use crate::bittorrent::message::{
    read_u32_be, u32_at, Message, MESSAGE_BITFIELD, MESSAGE_CHOKE, MESSAGE_HAVE, MESSAGE_PIECE,
    MESSAGE_UNCHOKE,
};
use crate::bittorrent::peer::Peer;
use crate::bittorrent::piece::PieceWork;

verus! {

/// Whether bit `index` of `bitfield` is set, counting from the high bit of
/// the first byte. Bits past the end are clear.
pub open spec fn bit_set(bitfield: Seq<u8>, index: u32) -> bool {
    &&& (index / 8) < bitfield.len()
    &&& (bitfield[(index / 8) as int] >> ((7 - index % 8) as u8)) & 1u8 == 1u8
}

/// The mask of bit `index` within its byte.
pub open spec fn bit_mask(index: u32) -> u8 {
    1u8 << ((7 - index % 8) as u8)
}

/// Whether `bitfield` fits a torrent of `num_pieces` pieces: it has
/// `ceil(num_pieces / 8)` bytes and no bit set past the last piece.
pub open spec fn bitfield_fits(bitfield: Seq<u8>, num_pieces: u32) -> bool {
    &&& bitfield.len() == (num_pieces + 7) / 8
    &&& forall|i: u32| num_pieces <= i ==> !#[trigger] bit_set(bitfield, i)
}

/// `bitfield` with bit `index` set; unchanged when the index is not that of
/// a piece or is past the bitfield's end.
pub open spec fn with_piece(bitfield: Seq<u8>, index: u32, num_pieces: u32) -> Seq<u8> {
    if index < num_pieces && (index / 8) < bitfield.len() {
        bitfield.update((index / 8) as int, bitfield[(index / 8) as int] | bit_mask(index))
    } else {
        bitfield
    }
}

/// Whether a `piece` message fits the job: it is a piece message for this
/// job's index, and its block lies inside the piece without overflowing the
/// byte count.
pub open spec fn piece_fits(message: Message, work: PieceWork) -> bool {
    &&& message.id == MESSAGE_PIECE
    &&& message.payload@.len() >= 8
    &&& u32_at(message.payload@, 0) == work.index
    &&& u32_at(message.payload@, 4) + (message.payload@.len() - 8) <= work.length
    &&& work.downloaded + (message.payload@.len() - 8) <= u32::MAX
}

/// The job after a fitting `piece` message: the block written at its
/// offset, the bytes counted, and one request fewer in flight.
pub open spec fn piece_written(old_work: PieceWork, message: Message, new_work: PieceWork) -> bool {
    let begin = u32_at(message.payload@, 4) as int;
    let block = message.payload@.subrange(8, message.payload@.len() as int);
    &&& new_work == (PieceWork {
        data: new_work.data,
        downloaded: (old_work.downloaded + block.len()) as u32,
        requests: if old_work.requests > 0 {
            (old_work.requests - 1) as u32
        } else {
            0
        },
        ..old_work
    })
    &&& new_work.data@ == splice(old_work.data@, begin, block)
}

/// `s` with `block` written over it from offset `at`.
pub open spec fn splice(s: Seq<u8>, at: int, block: Seq<u8>) -> Seq<u8> {
    s.subrange(0, at) + block + s.subrange(at + block.len(), s.len() as int)
}

proof fn lemma_or_bit(b: u8, s: u8, t: u8)
    requires
        s < 8,
        t < 8,
    ensures
        ((b | (1u8 << s)) >> t) & 1u8 == 1u8 <==> (((b >> t) & 1u8 == 1u8) || s == t),
{
    assert(((b | (1u8 << s)) >> t) & 1u8 == 1u8 <==> (((b >> t) & 1u8 == 1u8) || s == t))
        by (bit_vector)
        requires
            s < 8,
            t < 8,
    ;
}

/// What we know of one connected peer: who it is, which pieces it has, and
/// whether it is choking us.
#[derive(Debug, Clone)]
pub struct Client {
    pub peer: Peer,
    pub peer_id: Vec<u8>,
    pub info_hash: Vec<u8>,
    /// The remote bitfield.
    pub bitfield: Vec<u8>,
    /// Whether the remote chokes us; we may not request while it does.
    pub choked: bool,
    /// Number of pieces of the torrent, known once the bitfield arrived.
    pub num_pieces: u32,
}

impl Client {
    /// The state of a new session: an empty bitfield and choked.
    pub fn new(peer: Peer, peer_id: Vec<u8>, info_hash: Vec<u8>) -> (r: Client)
        ensures
            r.peer == peer,
            r.peer_id@ == peer_id@,
            r.info_hash@ == info_hash@,
            r.bitfield@ == Seq::<u8>::empty(),
            r.choked,
            r.num_pieces == 0,
    {
        Client { peer, peer_id, info_hash, bitfield: Vec::new(), choked: true, num_pieces: 0 }
    }

    pub fn is_choked(&self) -> (r: bool)
        ensures
            r == self.choked,
    {
        self.choked
    }

    /// Whether the remote holds piece `index`.
    pub fn has_piece(&self, index: u32) -> (r: bool)
        ensures
            r == bit_set(self.bitfield@, index),
            bitfield_fits(self.bitfield@, self.num_pieces) && index >= self.num_pieces ==> !r,
    {
        proof {
            if bitfield_fits(self.bitfield@, self.num_pieces) && index >= self.num_pieces {
                assert(!bit_set(self.bitfield@, index));
            }
        }
        let byte_index = index / 8;
        let offset = index % 8;
        if (byte_index as usize) < self.bitfield.len() {
            return (self.bitfield[byte_index as usize] >> ((7 - offset) as u8)) & 1u8 == 1u8;
        }
        false
    }

    /// Records that the remote holds piece `index`; an index that is not a
    /// piece's, or past the end of the bitfield, changes nothing.
    pub fn set_piece(&mut self, index: u32)
        ensures
            final(self).bitfield@ == with_piece(old(self).bitfield@, index, old(self).num_pieces),
            *final(self) == (Client { bitfield: final(self).bitfield, ..*old(self) }),
            forall|j: u32|
                #[trigger] bit_set(final(self).bitfield@, j) == (bit_set(old(self).bitfield@, j) || (
                j == index && index < old(self).num_pieces && (index / 8)
                < old(self).bitfield@.len())),
            bitfield_fits(old(self).bitfield@, old(self).num_pieces) ==> bitfield_fits(
                final(self).bitfield@,
                final(self).num_pieces,
            ),
    {
        let byte_index = index / 8;
        let offset = index % 8;
        if index < self.num_pieces && (byte_index as usize) < self.bitfield.len() {
            let bi = byte_index as usize;
            let b = self.bitfield[bi];
            self.bitfield.set(bi, b | (1u8 << ((7 - offset) as u8)));
            assert forall|j: u32|
                #[trigger] bit_set(self.bitfield@, j) == (bit_set(old(self).bitfield@, j) || j
                    == index) by {
                if j / 8 == index / 8 {
                    lemma_or_bit(b, (7 - index % 8) as u8, (7 - j % 8) as u8);
                    assert(j == index <==> j % 8 == index % 8) by (nonlinear_arith)
                        requires
                            j / 8 == index / 8,
                    ;
                }
            }
        }
    }

    /// The remote choked us.
    pub fn read_choke(&mut self)
        ensures
            *final(self) == (Client { choked: true, ..*old(self) }),
    {
        self.choked = true;
    }

    /// The remote unchoked us.
    pub fn read_unchoke(&mut self)
        ensures
            *final(self) == (Client { choked: false, ..*old(self) }),
    {
        self.choked = false;
    }

    /// Applies a `have` message: its four-byte payload names a piece the
    /// remote now holds.
    pub fn read_have(&mut self, message: Message) -> (r: Result<(), TorrentError>)
        ensures
            r is Ok <==> (message.id == MESSAGE_HAVE && message.payload@.len() == 4),
            r is Ok ==> final(self).bitfield@ == with_piece(
                old(self).bitfield@,
                u32_at(message.payload@, 0),
                old(self).num_pieces,
            ),
            r is Err ==> *final(self) == *old(self),
            r matches Err(e) ==> e == TorrentError::Protocol,
            *final(self) == (Client { bitfield: final(self).bitfield, ..*old(self) }),
    {
        if message.id != MESSAGE_HAVE || message.payload.len() != 4 {
            return Err(TorrentError::Protocol);
        }
        let index = read_u32_be(&message.payload, 0);
        self.set_piece(index);
        Ok(())
    }

    /// Takes the first message of the session, which must be a bitfield
    /// that fits a torrent of `num_pieces` pieces, as the remote's bitfield.
    pub fn read_bitfield(&mut self, message: Message, num_pieces: u32) -> (r: Result<
        (),
        TorrentError,
    >)
        ensures
            r is Ok <==> message.id == MESSAGE_BITFIELD && bitfield_fits(
                message.payload@,
                num_pieces,
            ),
            r is Ok ==> *final(self) == (Client {
                bitfield: message.payload,
                num_pieces,
                ..*old(self)
            }),
            r is Err ==> *final(self) == *old(self),
            r matches Err(e) ==> e == TorrentError::Protocol,
    {
        if message.id != MESSAGE_BITFIELD {
            return Err(TorrentError::Protocol);
        }
        let len = message.payload.len();
        if (num_pieces as u64 + 7) / 8 != len as u64 {
            return Err(TorrentError::Protocol);
        }
        let end: u64 = 8 * len as u64;
        let mut j: u64 = num_pieces as u64;
        while j < end && j <= u32::MAX as u64
            invariant
                num_pieces <= j,
                len == message.payload@.len(),
                end == 8 * len,
                forall|i: u32| num_pieces <= i < j ==> !#[trigger] bit_set(message.payload@, i),
            decreases end - j,
        {
            let ju = j as u32;
            let bi = ju / 8;
            let off = ju % 8;
            assert(bi < len) by (nonlinear_arith)
                requires
                    bi == ju / 8,
                    ju < 8 * len,
            ;
            if (message.payload[bi as usize] >> ((7 - off) as u8)) & 1u8 == 1u8 {
                assert(bit_set(message.payload@, ju));
                return Err(TorrentError::Protocol);
            }
            j += 1;
        }
        proof {
            assert forall|i: u32| num_pieces <= i implies !#[trigger] bit_set(message.payload@, i) by {
                if i >= j {
                    assert(i / 8 >= len) by (nonlinear_arith)
                        requires
                            i >= j,
                            j >= 8 * len || j > u32::MAX,
                            i <= u32::MAX,
                    ;
                }
            }
        }
        self.bitfield = message.payload;
        self.num_pieces = num_pieces;
        Ok(())
    }

    /// Writes the block of a `piece` message into the job's buffer. The
    /// payload is the piece index, the offset, then the block; the message is
    /// rejected when it is not a piece, names another piece, or overruns the
    /// piece.
    pub fn read_piece(&self, message: Message, piece_work: &mut PieceWork) -> (r: Result<
        (),
        TorrentError,
    >)
        requires
            old(piece_work).well_formed(),
        ensures
            final(piece_work).well_formed(),
            r is Ok <==> piece_fits(message, *old(piece_work)),
            r is Ok ==> piece_written(*old(piece_work), message, *final(piece_work)),
            r is Err ==> *final(piece_work) == *old(piece_work),
            r matches Err(e) ==> e == TorrentError::Protocol,
    {
        if message.id != MESSAGE_PIECE || message.payload.len() < 8 {
            return Err(TorrentError::Protocol);
        }
        let index = read_u32_be(&message.payload, 0);
        if index != piece_work.index {
            return Err(TorrentError::Protocol);
        }
        let begin = read_u32_be(&message.payload, 4);
        let block_len: usize = message.payload.len() - 8;
        if block_len > piece_work.length as usize || (block_len as u64) + (begin as u64)
            > piece_work.length as u64 {
            return Err(TorrentError::Protocol);
        }
        if block_len as u64 + piece_work.downloaded as u64 > u32::MAX as u64 {
            return Err(TorrentError::Protocol);
        }
        let ghost old_data = piece_work.data@;
        let ghost block = message.payload@.subrange(8, message.payload@.len() as int);
        let start: usize = begin as usize;
        let plen: usize = message.payload.len();
        let mut i: usize = 0;
        while i < block_len
            invariant
                block_len == block.len(),
                message.payload@.len() == block_len + 8,
                plen == block_len + 8,
                start + block_len <= piece_work.length,
                block == message.payload@.subrange(8, message.payload@.len() as int),
                start + block_len <= old_data.len(),
                i <= block_len,
                old_data == old(piece_work).data@,
                *piece_work == (PieceWork { data: piece_work.data, ..*old(piece_work) }),
                piece_work.data@ == old_data.subrange(0, start as int) + block.subrange(0, i as int)
                    + old_data.subrange(start + i, old_data.len() as int),
            decreases block_len - i,
        {
            piece_work.data.set(start + i, message.payload[8 + i]);
            i += 1;
            assert(piece_work.data@ =~= old_data.subrange(0, start as int) + block.subrange(
                0,
                i as int,
            ) + old_data.subrange(start + i, old_data.len() as int));
        }
        assert(block.subrange(0, i as int) =~= block);
        piece_work.downloaded = piece_work.downloaded + block_len as u32;
        if piece_work.requests > 0 {
            piece_work.requests = piece_work.requests - 1;
        }
        Ok(())
    }

    /// Acts on one message received while downloading a piece: choke and
    /// unchoke set the choke flag, `have` updates the bitfield, `piece` fills
    /// the job, and any other message is ignored.
    pub fn handle_message(&mut self, message: Message, piece_work: &mut PieceWork) -> (r: Result<
        (),
        TorrentError,
    >)
        requires
            old(piece_work).well_formed(),
        ensures
            final(piece_work).well_formed(),
            message.id == MESSAGE_CHOKE ==> r is Ok && *final(self) == (Client {
                choked: true,
                ..*old(self)
            }) && *final(piece_work) == *old(piece_work),
            message.id == MESSAGE_UNCHOKE ==> r is Ok && *final(self) == (Client {
                choked: false,
                ..*old(self)
            }) && *final(piece_work) == *old(piece_work),
            message.id == MESSAGE_HAVE ==> {
                &&& r is Ok <==> message.payload@.len() == 4
                &&& r is Ok ==> *final(self) == (Client {
                    bitfield: final(self).bitfield,
                    ..*old(self)
                }) && final(self).bitfield@ == with_piece(
                    old(self).bitfield@,
                    u32_at(message.payload@, 0),
                    old(self).num_pieces,
                )
                &&& r is Err ==> *final(self) == *old(self)
                &&& *final(piece_work) == *old(piece_work)
            },
            message.id == MESSAGE_PIECE ==> {
                &&& *final(self) == *old(self)
                &&& r is Ok <==> piece_fits(message, *old(piece_work))
                &&& r is Ok ==> piece_written(*old(piece_work), message, *final(piece_work))
                &&& r is Err ==> *final(piece_work) == *old(piece_work)
            },
            r matches Err(e) ==> e == TorrentError::Protocol,
            message.id != MESSAGE_CHOKE && message.id != MESSAGE_UNCHOKE && message.id
                != MESSAGE_HAVE && message.id != MESSAGE_PIECE ==> r is Ok && *final(self)
                == *old(self) && *final(piece_work) == *old(piece_work),
    {
        if message.id == MESSAGE_CHOKE {
            self.read_choke();
            Ok(())
        } else if message.id == MESSAGE_UNCHOKE {
            self.read_unchoke();
            Ok(())
        } else if message.id == MESSAGE_HAVE {
            self.read_have(message)
        } else if message.id == MESSAGE_PIECE {
            self.read_piece(message, piece_work)
        } else {
            Ok(())
        }
    }
}

} // verus!
