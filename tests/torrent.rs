use xerus::bittorrent::bencode::{info_span_of, value_end_at};
use xerus::bittorrent::digest::sha1_digest;
use xerus::bittorrent::error::TorrentError;
use xerus::bittorrent::piece::PieceWork;
use xerus::bittorrent::torrent::{split_pieces_hashes, Torrent};
use xerus::bittorrent::worker::{settle_job, verify_piece_integrity, JobOutcome};

fn hex(bytes: &[u8]) -> String {
    bytes.iter().map(|b| format!("{:02x}", b)).collect()
}

fn torrent(piece_length: u32, length: u32) -> Torrent {
    let n = ((length as u64 + piece_length as u64 - 1) / piece_length as u64) as usize;
    let pieces: Vec<u8> = (0..n * 20).map(|i| i as u8).collect();
    Torrent::from_metainfo(
        "http://tracker/announce".to_string(),
        &b"d6:lengthi1ee".to_vec(),
        &pieces,
        piece_length,
        length,
        "file".to_string(),
        vec![3u8; 20],
    )
    .unwrap()
}

#[test]
fn sha1_of_known_inputs() {
    assert_eq!(hex(&sha1_digest(&b"abc".to_vec())), "a9993e364706816aba3e25717850c26c9cd0d89d");
    assert_eq!(hex(&sha1_digest(&vec![])), "da39a3ee5e6b4b0d3255bfef95601890afd80709");
}

#[test]
fn four_pieces_with_short_last() {
    let t = torrent(32768, 100000);
    assert_eq!(t.pieces_hashes.len(), 4);
    assert_eq!(t.get_piece_length(0), Ok(32768));
    assert_eq!(t.get_piece_length(1), Ok(32768));
    assert_eq!(t.get_piece_length(2), Ok(32768));
    assert_eq!(t.get_piece_length(3), Ok(1696));
    assert_eq!(t.get_piece_length(4), Err(TorrentError::Protocol));
    let works = t.piece_works();
    assert_eq!(works.len(), 4);
    assert_eq!(works[3].length, 1696);
    assert_eq!(works[3].data.len(), 1696);
    assert_eq!(works[2].hash, (40u8..60).collect::<Vec<u8>>());
}

#[test]
fn info_hash_is_sha1_of_info() {
    let t = torrent(10, 10);
    assert_eq!(t.info_hash, sha1_digest(&b"d6:lengthi1ee".to_vec()));
    assert_eq!(t.info_hash.len(), 20);
    assert_eq!(t.name, "file");
    assert_eq!(t.announce, "http://tracker/announce");
}

#[test]
fn metainfo_invariants_are_checked() {
    let info = b"d4:infoe".to_vec();
    let bad_blob = vec![0u8; 21];
    assert_eq!(
        Torrent::from_metainfo(String::new(), &info, &bad_blob, 10, 10, String::new(), vec![])
            .unwrap_err(),
        TorrentError::InvalidMetainfo
    );
    let two = vec![0u8; 40];
    assert_eq!(
        Torrent::from_metainfo(String::new(), &info, &two, 10, 10, String::new(), vec![])
            .unwrap_err(),
        TorrentError::InvalidMetainfo
    );
    assert_eq!(
        Torrent::from_metainfo(String::new(), &info, &two, 0, 10, String::new(), vec![])
            .unwrap_err(),
        TorrentError::InvalidMetainfo
    );
    assert!(Torrent::from_metainfo(String::new(), &info, &two, 10, 11, String::new(), vec![]).is_ok());
}

#[test]
fn piece_hashes_are_split() {
    let blob: Vec<u8> = (0u8..40).collect();
    let hashes = split_pieces_hashes(&blob).unwrap();
    assert_eq!(hashes, vec![(0u8..20).collect::<Vec<u8>>(), (20u8..40).collect::<Vec<u8>>()]);
    assert_eq!(split_pieces_hashes(&vec![0u8; 19]), Err(TorrentError::InvalidMetainfo));
}

#[test]
fn piece_integrity() {
    let data = b"hello piece".to_vec();
    let mut work = PieceWork::new(0, sha1_digest(&data), data.len() as u32);
    assert_eq!(verify_piece_integrity(&work), Err(TorrentError::HashMismatch));
    work.data = data.clone();
    assert_eq!(verify_piece_integrity(&work), Ok(()));
}

#[test]
fn settled_jobs() {
    let data = b"abc".to_vec();
    let mut good = PieceWork::new(2, sha1_digest(&data), 3);
    good.data = data.clone();
    good.downloaded = 3;
    match settle_job(good.clone(), Ok(())) {
        JobOutcome::Done(r) => {
            assert_eq!(r.index, 2);
            assert_eq!(r.length, 3);
            assert_eq!(r.data, data);
        }
        other => panic!("unexpected {:?}", other),
    }
    match settle_job(good, Err(TorrentError::Protocol)) {
        JobOutcome::Abandon(w) => assert_eq!(w.downloaded, 3),
        other => panic!("unexpected {:?}", other),
    }
    let mut bad = PieceWork::new(1, vec![0u8; 20], 3);
    bad.downloaded = 3;
    bad.requested = 3;
    match settle_job(bad, Ok(())) {
        JobOutcome::Retry(w) => {
            assert_eq!(w.downloaded, 0);
            assert_eq!(w.requested, 0);
            assert_eq!(w.index, 1);
        }
        other => panic!("unexpected {:?}", other),
    }
}

#[test]
fn tracker_query_encodes_raw_bytes() {
    let mut t = torrent(10, 25);
    t.info_hash = vec![0x12, b'a', b' ', 0xff, b'~', b'-'];
    let q = t.tracker_query(&b"ab.*_Z09".to_vec(), 6881);
    assert_eq!(
        String::from_utf8(q).unwrap(),
        "info_hash=%12a%20%FF~-&peer_id=ab.%2A_Z09&port=6881&uploaded=0&downloaded=0&compact=1&left=25"
    );
}

#[test]
fn info_bytes_are_found_as_received() {
    let file = b"d8:announce3:url4:infod6:lengthi5e4:name1:x6:pieces0:e3:zzzi1ee".to_vec();
    let (s, e) = info_span_of(&file).unwrap();
    assert_eq!(&file[s..e], &b"d6:lengthi5e4:name1:x6:pieces0:e"[..]);
    assert_eq!(info_span_of(&b"d3:abci1ee".to_vec()), None);
    assert_eq!(info_span_of(&b"l4:infoe".to_vec()), None);
    assert_eq!(info_span_of(&b"d4:info3:ab".to_vec()), None);
    assert_eq!(value_end_at(&b"li1e3:abce".to_vec(), 0), Some(10));
    assert_eq!(value_end_at(&b"5:ab".to_vec(), 0), None);
}
