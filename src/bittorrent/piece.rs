use vstd::prelude::*;

verus! {

/// Most block requests a piece keeps in flight with one peer.
pub const NB_REQUESTS_MAX: u32 = 5;

/// Largest block asked for in one request.
pub const BLOCK_SIZE_MAX: u32 = 16384;

/// A piece being downloaded: what it should hash to, its buffer, and how
/// far the requests and the received blocks have come.
#[derive(Default, Debug, Clone)]
pub struct PieceWork {
    pub index: u32,
    pub hash: Vec<u8>,
    pub length: u32,
    pub data: Vec<u8>,
    /// Block requests in flight.
    pub requests: u32,
    /// Bytes requested so far, from the start of the piece.
    pub requested: u32,
    /// Bytes received so far.
    pub downloaded: u32,
}

/// A verified piece, ready to be placed in the output.
#[derive(Default, Debug, Clone)]
pub struct PieceResult {
    pub index: u32,
    pub length: u32,
    pub data: Vec<u8>,
}

/// The size of the block that starts at `begin` in a piece of `length` bytes.
pub open spec fn block_size(begin: int, length: int) -> int {
    if length - begin < BLOCK_SIZE_MAX {
        length - begin
    } else {
        BLOCK_SIZE_MAX as int
    }
}

/// Whether `block` is the request for the block starting at `begin`, inside a
/// piece of `length` bytes.
pub open spec fn block_at(block: (u32, u32), begin: int, length: int) -> bool {
    &&& begin < length
    &&& block.0 == begin
    &&& block.1 == block_size(begin, length)
}

/// The smaller of two integers.
pub open spec fn min_int(a: int, b: int) -> int {
    if a <= b {
        a
    } else {
        b
    }
}

impl PieceWork {
    /// The buffer has the piece's length and no more bytes were asked for
    /// than the piece holds.
    pub open spec fn well_formed(self) -> bool {
        &&& self.data@.len() == self.length
        &&& self.requested <= self.length
    }

    /// A fresh job: a zeroed buffer of `length` bytes and all counters zero.
    pub fn new(index: u32, hash: Vec<u8>, length: u32) -> (r: PieceWork)
        requires
            length <= usize::MAX,
        ensures
            r.index == index,
            r.hash@ == hash@,
            r.length == length,
            r.data@ == Seq::new(length as nat, |i: int| 0u8),
            r.requests == 0,
            r.requested == 0,
            r.downloaded == 0,
            r.well_formed(),
    {
        let mut data: Vec<u8> = Vec::new();
        let mut i: usize = 0;
        while i < length as usize
            invariant
                i <= length,
                data@ == Seq::new(i as nat, |j: int| 0u8),
            decreases length - i,
        {
            data.push(0u8);
            i += 1;
            assert(data@ =~= Seq::new(i as nat, |j: int| 0u8));
        }
        PieceWork { index, hash, length, data, requests: 0, requested: 0, downloaded: 0 }
    }

    /// Clears the counters before a new attempt at the piece.
    pub fn reset(&mut self)
        ensures
            *final(self) == (PieceWork { requests: 0, requested: 0, downloaded: 0, ..*old(self) }),
    {
        self.requests = 0;
        self.requested = 0;
        self.downloaded = 0;
    }

    /// Whether every byte of the piece has arrived.
    pub fn is_downloaded(&self) -> (r: bool)
        ensures
            r == (self.downloaded >= self.length),
    {
        self.downloaded >= self.length
    }

    /// Tops up the pipeline: while fewer than `NB_REQUESTS_MAX` requests are in
    /// flight and bytes remain unrequested, takes the next block of at most
    /// `BLOCK_SIZE_MAX` bytes. Returns the `(begin, length)` of each block to
    /// ask for, in order.
    pub fn top_up(&mut self) -> (r: Vec<(u32, u32)>)
        requires
            old(self).well_formed(),
        ensures
            final(self).well_formed(),
            *final(self) == (PieceWork {
                requests: final(self).requests,
                requested: final(self).requested,
                ..*old(self)
            }),
            final(self).requests == old(self).requests + r@.len(),
            final(self).requested == min_int(
                old(self).length as int,
                old(self).requested + BLOCK_SIZE_MAX * r@.len(),
            ),
            final(self).requests >= NB_REQUESTS_MAX || final(self).requested == old(self).length,
            old(self).requests >= NB_REQUESTS_MAX ==> r@.len() == 0,
            old(self).requests <= NB_REQUESTS_MAX ==> final(self).requests <= NB_REQUESTS_MAX,
            forall|j: int|
                0 <= j < r@.len() ==> block_at(#[trigger] r@[j], old(self).requested + BLOCK_SIZE_MAX * j, old(self).length as int),
    {
        let mut blocks: Vec<(u32, u32)> = Vec::new();
        let ghost r0 = self.requested as int;
        let ghost q0 = self.requests as int;
        while self.requests < NB_REQUESTS_MAX && self.requested < self.length
            invariant
                self.well_formed(),
                *self == (PieceWork {
                    requests: self.requests,
                    requested: self.requested,
                    ..*old(self)
                }),
                r0 == old(self).requested,
                q0 == old(self).requests,
                self.requests == q0 + blocks@.len(),
                self.requested == min_int(self.length as int, r0 + BLOCK_SIZE_MAX * blocks@.len()),
                blocks@.len() > 0 ==> q0 < NB_REQUESTS_MAX,
                q0 <= NB_REQUESTS_MAX ==> self.requests <= NB_REQUESTS_MAX,
                forall|j: int|
                    0 <= j < blocks@.len() ==> block_at(#[trigger] blocks@[j], r0 + BLOCK_SIZE_MAX * j, self.length as int),
            decreases self.length - self.requested,
        {
            let remaining = self.length - self.requested;
            let size = if remaining < BLOCK_SIZE_MAX {
                remaining
            } else {
                BLOCK_SIZE_MAX
            };
            let ghost k = blocks@.len() as int;
            assert(self.requested == r0 + BLOCK_SIZE_MAX * k) by (nonlinear_arith)
                requires
                    self.requested == min_int(self.length as int, r0 + BLOCK_SIZE_MAX * k),
                    self.requested < self.length,
            ;
            blocks.push((self.requested, size));
            self.requests = self.requests + 1;
            self.requested = self.requested + size;
            assert(r0 + BLOCK_SIZE_MAX * (k + 1) == r0 + BLOCK_SIZE_MAX * k + BLOCK_SIZE_MAX)
                by (nonlinear_arith);
        }
        blocks
    }
}

impl PieceResult {
    pub fn new(index: u32, length: u32, data: Vec<u8>) -> (r: PieceResult)
        ensures
            r.index == index,
            r.length == length,
            r.data@ == data@,
    {
        PieceResult { index, length, data }
    }
}

} // verus!
