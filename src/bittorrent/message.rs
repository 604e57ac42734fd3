use vstd::prelude::*;

use crate::bittorrent::error::TorrentError;

verus! {

pub const MESSAGE_CHOKE: u8 = 0;
pub const MESSAGE_UNCHOKE: u8 = 1;
pub const MESSAGE_INTERESTED: u8 = 2;
pub const MESSAGE_NOT_INTERESTED: u8 = 3;
pub const MESSAGE_HAVE: u8 = 4;
pub const MESSAGE_BITFIELD: u8 = 5;
pub const MESSAGE_REQUEST: u8 = 6;
pub const MESSAGE_PIECE: u8 = 7;
pub const MESSAGE_CANCEL: u8 = 8;

/// The four big-endian bytes of `n`.
pub open spec fn u32_be_bytes(n: u32) -> Seq<u8> {
    seq![
        ((n >> 24u32) & 0xffu32) as u8,
        ((n >> 16u32) & 0xffu32) as u8,
        ((n >> 8u32) & 0xffu32) as u8,
        (n & 0xffu32) as u8,
    ]
}

/// The integer that four big-endian bytes stand for.
pub open spec fn u32_from_be(b0: u8, b1: u8, b2: u8, b3: u8) -> u32 {
    ((b0 as u32) << 24u32) | ((b1 as u32) << 16u32) | ((b2 as u32) << 8u32) | (b3 as u32)
}

/// The integer held by the four bytes of `b` from offset `at`.
pub open spec fn u32_at(b: Seq<u8>, at: int) -> u32 {
    u32_from_be(b[at], b[at + 1], b[at + 2], b[at + 3])
}

/// A length-prefixed frame: the length of id and payload, the id, the payload.
pub open spec fn frame_bytes(id: u8, payload: Seq<u8>) -> Seq<u8> {
    u32_be_bytes((payload.len() + 1) as u32) + seq![id] + payload
}

pub proof fn lemma_u32_be_round_trip(n: u32)
    ensures
        u32_from_be(u32_be_bytes(n)[0], u32_be_bytes(n)[1], u32_be_bytes(n)[2], u32_be_bytes(n)[3])
            == n,
{
    assert(u32_from_be(
        ((n >> 24u32) & 0xffu32) as u8,
        ((n >> 16u32) & 0xffu32) as u8,
        ((n >> 8u32) & 0xffu32) as u8,
        (n & 0xffu32) as u8,
    ) == n) by (bit_vector);
}

/// Appends the big-endian bytes of `n` to `out`.
pub fn write_u32_be(out: &mut Vec<u8>, n: u32)
    ensures
        final(out)@ == old(out)@ + u32_be_bytes(n),
{
    out.push(((n >> 24u32) & 0xffu32) as u8);
    out.push(((n >> 16u32) & 0xffu32) as u8);
    out.push(((n >> 8u32) & 0xffu32) as u8);
    out.push((n & 0xffu32) as u8);
    assert(out@ =~= old(out)@ + u32_be_bytes(n));
}

/// Reads the big-endian integer at `at`.
pub fn read_u32_be(bytes: &Vec<u8>, at: usize) -> (r: u32)
    requires
        at + 4 <= bytes@.len(),
    ensures
        r == u32_at(bytes@, at as int),
{
    let len = bytes.len();
    assert(at + 3 < len);
    ((bytes[at] as u32) << 24u32) | ((bytes[at + 1] as u32) << 16u32) | ((bytes[at + 2] as u32)
        << 8u32) | (bytes[at + 3] as u32)
}

/// A peer-wire message: its id and its payload.
#[derive(Default, Debug, Clone, PartialEq, Eq)]
pub struct Message {
    pub id: u8,
    pub payload: Vec<u8>,
}

impl Message {
    pub fn new(id: u8) -> (r: Message)
        ensures
            r.id == id,
            r.payload@ == Seq::<u8>::empty(),
    {
        Message { id, payload: vec![] }
    }

    pub fn new_with_payload(id: u8, payload: Vec<u8>) -> (r: Message)
        ensures
            r.id == id,
            r.payload@ == payload@,
    {
        Message { id, payload }
    }

    /// A `have` announcing piece `index`.
    pub fn have(index: u32) -> (r: Message)
        ensures
            r.id == MESSAGE_HAVE,
            r.payload@ == u32_be_bytes(index),
    {
        let mut payload: Vec<u8> = Vec::new();
        write_u32_be(&mut payload, index);
        assert(payload@ =~= u32_be_bytes(index));
        Message { id: MESSAGE_HAVE, payload }
    }

    /// A `request` for `length` bytes at `begin` within piece `index`.
    pub fn request(index: u32, begin: u32, length: u32) -> (r: Message)
        ensures
            r.id == MESSAGE_REQUEST,
            r.payload@ == u32_be_bytes(index) + u32_be_bytes(begin) + u32_be_bytes(length),
    {
        let mut payload: Vec<u8> = Vec::new();
        write_u32_be(&mut payload, index);
        write_u32_be(&mut payload, begin);
        write_u32_be(&mut payload, length);
        assert(payload@ =~= u32_be_bytes(index) + u32_be_bytes(begin) + u32_be_bytes(length));
        Message { id: MESSAGE_REQUEST, payload }
    }

    /// The frame of this message: a four-byte big-endian length, the id and
    /// the payload. Fails when the length does not fit in four bytes.
    pub fn serialize(&self) -> (r: Result<Vec<u8>, TorrentError>)
        ensures
            r is Ok <==> self.payload@.len() + 1 <= u32::MAX,
            r matches Ok(b) ==> b@ == frame_bytes(self.id, self.payload@),
            r matches Err(e) ==> e == TorrentError::Protocol,
    {
        if self.payload.len() >= u32::MAX as usize {
            return Err(TorrentError::Protocol);
        }
        let message_len: u32 = (self.payload.len() + 1) as u32;
        let mut serialized: Vec<u8> = Vec::new();
        write_u32_be(&mut serialized, message_len);
        serialized.push(self.id);
        let mut i: usize = 0;
        while i < self.payload.len()
            invariant
                i <= self.payload@.len(),
                serialized@ == u32_be_bytes(message_len) + seq![self.id] + self.payload@.subrange(
                    0,
                    i as int,
                ),
            decreases self.payload@.len() - i,
        {
            serialized.push(self.payload[i]);
            i += 1;
            assert(self.payload@.subrange(0, i as int) =~= self.payload@.subrange(0, i - 1)
                + seq![self.payload@[i - 1]]);
        }
        assert(self.payload@.subrange(0, i as int) =~= self.payload@);
        Ok(serialized)
    }
}

/// Decodes the body of a frame whose length prefix read `message_len`: the
/// first byte is the id, the next `message_len - 1` bytes the payload.
pub fn deserialize_message(message_buf: &Vec<u8>, message_len: usize) -> (r: Result<
    Message,
    TorrentError,
>)
    ensures
        r is Ok <==> 1 <= message_len <= message_buf@.len(),
        r matches Ok(m) ==> m.id == message_buf@[0] && m.payload@ == message_buf@.subrange(
            1,
            message_len as int,
        ),
        r matches Err(e) ==> e == TorrentError::Protocol,
{
    if message_len == 0 || message_len > message_buf.len() {
        return Err(TorrentError::Protocol);
    }
    let id: u8 = message_buf[0];
    let mut payload: Vec<u8> = Vec::new();
    let mut i: usize = 1;
    while i < message_len
        invariant
            1 <= i <= message_len <= message_buf@.len(),
            payload@ == message_buf@.subrange(1, i as int),
        decreases message_len - i,
    {
        payload.push(message_buf[i]);
        i += 1;
        assert(payload@ =~= message_buf@.subrange(1, i as int));
    }
    Ok(Message::new_with_payload(id, payload))
}

/// Decoding a serialized message gives the message back: the length prefix
/// reads one more than the payload's length, and the body that follows holds
/// the id and the payload.
pub proof fn lemma_message_round_trip(id: u8, payload: Seq<u8>)
    requires
        payload.len() + 1 <= u32::MAX,
    ensures
        ({
            let frame = frame_bytes(id, payload);
            let len = u32_at(frame, 0);
            let body = frame.subrange(4, frame.len() as int);
            &&& len == payload.len() + 1
            &&& 1 <= len <= body.len()
            &&& body[0] == id
            &&& body.subrange(1, len as int) == payload
        }),
{
    let frame = frame_bytes(id, payload);
    let n = (payload.len() + 1) as u32;
    lemma_u32_be_round_trip(n);
    let body = frame.subrange(4, frame.len() as int);
    assert(body =~= seq![id] + payload);
    assert(body.subrange(1, n as int) =~= payload);
}

} // verus!
