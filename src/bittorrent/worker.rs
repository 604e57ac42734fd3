use vstd::prelude::*;

use crate::bittorrent::digest::{sha1_digest, sha1_of};
use crate::bittorrent::error::TorrentError;
use crate::bittorrent::piece::{PieceResult, PieceWork};
use crate::bytes::bytes_equal;

verus! {

/// What becomes of a job after an attempt to download it.
#[derive(Debug)]
pub enum JobOutcome {
    /// Put the job back and take the next one.
    Retry(PieceWork),
    /// Put the job back and end the session with this peer.
    Abandon(PieceWork),
    /// The piece is verified: announce it and publish it.
    Done(PieceResult),
}

/// Checks the downloaded bytes of a job against its expected SHA-1 hash.
pub fn verify_piece_integrity(piece_work: &PieceWork) -> (r: Result<(), TorrentError>)
    requires
        piece_work.well_formed(),
    ensures
        r is Ok <==> sha1_of(piece_work.data@) == piece_work.hash@,
        r matches Err(e) ==> e == TorrentError::HashMismatch,
{
    let digest = sha1_digest(&piece_work.data);
    if !bytes_equal(&digest, &piece_work.hash) {
        return Err(TorrentError::HashMismatch);
    }
    Ok(())
}

/// Settles a job after an attempt at it: a failed transfer gives the job
/// back and ends the session; a piece that does not hash as expected gives
/// the job back with its counters cleared; a good piece becomes a result.
pub fn settle_job(piece_work: PieceWork, download: Result<(), TorrentError>) -> (r: JobOutcome)
    requires
        piece_work.well_formed(),
    ensures
        download is Err ==> r == JobOutcome::Abandon(piece_work),
        download is Ok && sha1_of(piece_work.data@) != piece_work.hash@ ==> r == JobOutcome::Retry(
            PieceWork { requests: 0, requested: 0, downloaded: 0, ..piece_work },
        ),
        download is Ok && sha1_of(piece_work.data@) == piece_work.hash@ ==> (r matches JobOutcome::Done(
            res,
        ) && res.index == piece_work.index && res.length == piece_work.length && res.data@
            == piece_work.data@),
{
    if download.is_err() {
        return JobOutcome::Abandon(piece_work);
    }
    match verify_piece_integrity(&piece_work) {
        Ok(()) => JobOutcome::Done(
            PieceResult::new(piece_work.index, piece_work.length, piece_work.data),
        ),
        Err(_) => {
            let mut work = piece_work;
            work.reset();
            JobOutcome::Retry(work)
        },
    }
}

} // verus!
