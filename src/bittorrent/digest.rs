//! The SHA-1 digest that names a torrent and checks each piece.
use vstd::prelude::*;

verus! {

/// The SHA-1 digest of `data`.
pub uninterp spec fn sha1_of(data: Seq<u8>) -> Seq<u8>;

/// Largest input the digest accepts: its bit count must fit in 64 bits.
pub const SHA1_INPUT_MAX: u64 = 0x1fff_ffff_ffff_ffff;

/// Relies on rust-crypto's `Sha1` (`Digest::input`, then `Digest::result`
/// into a 20-byte buffer): the digest of the bytes fed in. `input` panics
/// when the input's length in bits overflows 64 bits.
#[verifier::external_body]
pub fn sha1_digest(data: &Vec<u8>) -> (r: Vec<u8>)
    requires
        data@.len() <= SHA1_INPUT_MAX,
    ensures
        r@ == sha1_of(data@),
        r@.len() == 20,
{
    let mut hasher = crypto::sha1::Sha1::new();
    crypto::digest::Digest::input(&mut hasher, data.as_slice());
    let mut out: Vec<u8> = vec![0u8; 20];
    crypto::digest::Digest::result(&mut hasher, out.as_mut_slice());
    out
}

} // verus!
