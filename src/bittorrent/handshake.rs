use vstd::prelude::*;

use crate::bittorrent::error::TorrentError;
use crate::bytes::{append_all, bytes_equal, copy_range};

verus! {

/// The bytes of the literal `BitTorrent protocol`.
pub open spec fn protocol_id() -> Seq<u8> {
    seq![66u8, 105, 116, 84, 111, 114, 114, 101, 110, 116, 32, 112, 114, 111, 116, 111, 99, 111, 108]
}

/// The opening message of a peer-wire session.
#[derive(Debug, Clone, PartialEq, Eq)]
pub struct Handshake {
    /// Length of the protocol identifier.
    pub pstrlen: usize,
    /// The protocol identifier.
    pub pstr: Vec<u8>,
    /// Eight reserved bytes, all zero when we send them.
    pub reserved: Vec<u8>,
    /// The info hash of the torrent.
    pub info_hash: Vec<u8>,
    /// The sender's peer id.
    pub peer_id: Vec<u8>,
}

/// The wire form of a handshake: the identifier's length as one byte, then
/// identifier, reserved bytes, info hash and peer id.
pub open spec fn handshake_bytes(h: Handshake) -> Seq<u8> {
    seq![h.pstrlen as u8] + h.pstr@ + h.reserved@ + h.info_hash@ + h.peer_id@
}

impl Handshake {
    /// Whether the handshake has the shape the wire format fixes: a
    /// non-empty identifier that fits its one-byte length, eight reserved
    /// bytes, a 20-byte info hash and a 20-byte peer id.
    pub open spec fn well_formed(self) -> bool {
        &&& self.pstrlen == self.pstr@.len()
        &&& 1 <= self.pstrlen <= 255
        &&& self.reserved@.len() == 8
        &&& self.info_hash@.len() == 20
        &&& self.peer_id@.len() == 20
    }

    pub fn new(peer_id: Vec<u8>, info_hash: Vec<u8>) -> (r: Handshake)
        ensures
            r.pstrlen == 19,
            r.pstr@ == protocol_id(),
            r.reserved@ == seq![0u8; 8],
            r.info_hash@ == info_hash@,
            r.peer_id@ == peer_id@,
    {
        let pstr: Vec<u8> = vec![
            66u8,
            105,
            116,
            84,
            111,
            114,
            114,
            101,
            110,
            116,
            32,
            112,
            114,
            111,
            116,
            111,
            99,
            111,
            108,
        ];
        assert(pstr@ =~= protocol_id());
        let reserved: Vec<u8> = vec![0u8, 0, 0, 0, 0, 0, 0, 0];
        assert(reserved@ =~= seq![0u8; 8]);
        Handshake { pstrlen: 19, pstr, reserved, info_hash, peer_id }
    }

    /// The wire form of this handshake.
    pub fn serialize(&self) -> (r: Result<Vec<u8>, TorrentError>)
        ensures
            r matches Ok(b) && b@ == handshake_bytes(*self),
    {
        let mut serialized: Vec<u8> = Vec::new();
        serialized.push(self.pstrlen as u8);
        append_all(&mut serialized, &self.pstr);
        append_all(&mut serialized, &self.reserved);
        append_all(&mut serialized, &self.info_hash);
        append_all(&mut serialized, &self.peer_id);
        assert(serialized@ =~= handshake_bytes(*self));
        Ok(serialized)
    }
}

/// Decodes a handshake from the `48 + pstrlen` bytes that follow its length
/// byte, given the identifier length `pstrlen` that byte held. A zero length
/// or a short buffer is rejected; bytes past the peer id are not read.
pub fn deserialize_handshake(buf: &Vec<u8>, pstrlen: usize) -> (r: Result<
    Handshake,
    TorrentError,
>)
    ensures
        r is Ok <==> 1 <= pstrlen && pstrlen + 48 <= buf@.len(),
        r matches Ok(h) ==> {
            &&& h.pstrlen == pstrlen
            &&& h.pstr@ == buf@.subrange(0, pstrlen as int)
            &&& h.reserved@ == buf@.subrange(pstrlen as int, pstrlen + 8)
            &&& h.info_hash@ == buf@.subrange(pstrlen + 8, pstrlen + 28)
            &&& h.peer_id@ == buf@.subrange(pstrlen + 28, pstrlen + 48)
        },
        r matches Err(e) ==> e == TorrentError::Handshake,
{
    if pstrlen == 0 || pstrlen > buf.len() || buf.len() - pstrlen < 48 {
        return Err(TorrentError::Handshake);
    }
    let pstr = copy_range(buf, 0, pstrlen);
    let reserved = copy_range(buf, pstrlen, pstrlen + 8);
    let info_hash = copy_range(buf, pstrlen + 8, pstrlen + 28);
    let peer_id = copy_range(buf, pstrlen + 28, pstrlen + 48);
    Ok(Handshake { pstrlen, pstr, reserved, info_hash, peer_id })
}

/// Checks a received handshake frame, length byte included, against the
/// info hash we expect. The frame is the length byte `L` and the `48 + L`
/// bytes after it; it is rejected when `L` is zero, when it is short, or when
/// its info hash differs.
pub fn accept_handshake(frame: &Vec<u8>, expected_info_hash: &Vec<u8>) -> (r: Result<
    Handshake,
    TorrentError,
>)
    ensures
        r is Ok <==> {
            &&& frame@.len() >= 1
            &&& frame@[0] != 0
            &&& frame@.len() >= 49 + frame@[0]
            &&& frame@.subrange(frame@[0] + 9, frame@[0] + 29) == expected_info_hash@
        },
        r matches Ok(h) ==> {
            let l = frame@[0] as int;
            &&& h.pstrlen == l
            &&& h.pstr@ == frame@.subrange(1, l + 1)
            &&& h.reserved@ == frame@.subrange(l + 1, l + 9)
            &&& h.info_hash@ == expected_info_hash@
            &&& h.peer_id@ == frame@.subrange(l + 29, l + 49)
        },
        r matches Err(e) ==> e == TorrentError::Handshake,
{
    if frame.len() == 0 || frame[0] == 0 {
        return Err(TorrentError::Handshake);
    }
    let pstrlen: usize = frame[0] as usize;
    if frame.len() < 49 + pstrlen {
        return Err(TorrentError::Handshake);
    }
    let body = copy_range(frame, 1, 49 + pstrlen);
    let decoded = deserialize_handshake(&body, pstrlen);
    match decoded {
        Ok(h) => {
            assert(h.info_hash@ =~= frame@.subrange(frame@[0] + 9, frame@[0] + 29));
            assert(h.pstr@ =~= frame@.subrange(1, pstrlen + 1));
            assert(h.reserved@ =~= frame@.subrange(pstrlen + 1, pstrlen + 9));
            assert(h.peer_id@ =~= frame@.subrange(pstrlen + 29, pstrlen + 49));
            if !bytes_equal(&h.info_hash, expected_info_hash) {
                return Err(TorrentError::Handshake);
            }
            Ok(h)
        },
        Err(e) => Err(e),
    }
}

/// Decoding a serialized well-formed handshake gives it back: the first
/// byte is the identifier length, and the fields stand at the offsets the
/// decoder reads them from.
pub proof fn lemma_handshake_round_trip(h: Handshake)
    requires
        h.well_formed(),
    ensures
        ({
            let b = handshake_bytes(h);
            let l = b[0] as int;
            let body = b.subrange(1, b.len() as int);
            &&& l == h.pstrlen
            &&& 1 <= l && l + 48 == body.len()
            &&& body.subrange(0, l) == h.pstr@
            &&& body.subrange(l, l + 8) == h.reserved@
            &&& body.subrange(l + 8, l + 28) == h.info_hash@
            &&& body.subrange(l + 28, l + 48) == h.peer_id@
        }),
{
    let b = handshake_bytes(h);
    let l = h.pstrlen as int;
    assert((h.pstrlen as u8) as int == l);
    let body = b.subrange(1, b.len() as int);
    assert(body =~= h.pstr@ + h.reserved@ + h.info_hash@ + h.peer_id@);
    assert(body.subrange(0, l) =~= h.pstr@);
    assert(body.subrange(l, l + 8) =~= h.reserved@);
    assert(body.subrange(l + 8, l + 28) =~= h.info_hash@);
    assert(body.subrange(l + 28, l + 48) =~= h.peer_id@);
}

} // verus!
