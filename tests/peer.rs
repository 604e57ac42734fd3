use xerus::bittorrent::error::TorrentError;
use xerus::bittorrent::peer::Peer;
use xerus::bittorrent::torrent::Torrent;

#[test]
fn test_build_peer_success() {
    let torrent = Torrent::new();
    let peerinfo = vec![192, 165, 1, 21, 0, 1];
    let answer = torrent.build_peers(peerinfo).unwrap();
    assert_eq!(answer.len(), 1);
}

#[test]
#[should_panic]
fn test_build_peer_fail() {
    let torrent = Torrent::new();
    let peerinfo = vec![192, 165, 1, 21, 12];
    let _ = torrent.build_peers(peerinfo).unwrap();
}

#[test]
fn compact_peer_is_decoded() {
    let torrent = Torrent::new();
    let peers = torrent.build_peers(vec![192, 168, 1, 21, 0x1A, 0xE1]).unwrap();
    assert_eq!(peers.len(), 1);
    assert_eq!(peers[0].id, 0);
    assert_eq!(peers[0].ip, [192, 168, 1, 21]);
    assert_eq!(peers[0].port, 6881);
}

#[test]
fn short_peer_blob_is_invalid() {
    let torrent = Torrent::new();
    assert_eq!(torrent.build_peers(vec![1, 2, 3, 4, 5]).unwrap_err(), TorrentError::InvalidPeers);
}

#[test]
fn peers_are_numbered_in_order() {
    let torrent = Torrent::new();
    let peers = torrent
        .build_peers(vec![10, 0, 0, 1, 0, 80, 10, 0, 0, 2, 1, 0])
        .unwrap();
    assert_eq!(peers.len(), 2);
    assert_eq!(peers[1].id, 1);
    assert_eq!(peers[1].ip, [10, 0, 0, 2]);
    assert_eq!(peers[1].port, 256);
    assert!(torrent.build_peers(vec![]).unwrap().is_empty());
}

#[test]
fn default_peer() {
    let p = Peer::new();
    assert_eq!(p.id, 0);
    assert_eq!(p.ip, [1, 1, 1, 1]);
    assert_eq!(p.port, 0);
}
