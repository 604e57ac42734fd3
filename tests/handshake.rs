use xerus::bittorrent::error::TorrentError;
use xerus::bittorrent::handshake::{accept_handshake, deserialize_handshake, Handshake};

fn frame(info_hash: &[u8], peer_id: &[u8]) -> Vec<u8> {
    let mut f = vec![19u8];
    f.extend_from_slice(b"BitTorrent protocol");
    f.extend_from_slice(&[0u8; 8]);
    f.extend_from_slice(info_hash);
    f.extend_from_slice(peer_id);
    f
}

#[test]
fn handshake_serializes_to_its_frame() {
    let h = Handshake::new(vec![2u8; 20], vec![1u8; 20]);
    assert_eq!(h.pstrlen, 19);
    let bytes = h.serialize().unwrap();
    assert_eq!(bytes.len(), 68);
    assert_eq!(bytes, frame(&[1u8; 20], &[2u8; 20]));
}

#[test]
fn handshake_round_trip() {
    let h = Handshake::new((0u8..20).collect(), (100u8..120).collect());
    let bytes = h.serialize().unwrap();
    let back = deserialize_handshake(&bytes[1..].to_vec(), bytes[0] as usize).unwrap();
    assert_eq!(back, h);
}

#[test]
fn matching_handshake_is_accepted() {
    let expected = vec![7u8; 20];
    let f = frame(&expected, &[9u8; 20]);
    let h = accept_handshake(&f, &expected).unwrap();
    assert_eq!(h.info_hash, expected);
    assert_eq!(h.peer_id, vec![9u8; 20]);
    assert_eq!(h.pstr, b"BitTorrent protocol".to_vec());
}

#[test]
fn handshake_for_another_torrent_is_rejected() {
    let expected = vec![7u8; 20];
    let f = frame(&[0u8; 20], &[9u8; 20]);
    assert_eq!(accept_handshake(&f, &expected), Err(TorrentError::Handshake));
}

#[test]
fn short_or_empty_handshakes_are_rejected() {
    let expected = vec![7u8; 20];
    let mut f = frame(&expected, &[9u8; 20]);
    f.pop();
    assert_eq!(accept_handshake(&f, &expected), Err(TorrentError::Handshake));
    assert_eq!(accept_handshake(&vec![], &expected), Err(TorrentError::Handshake));
    let mut zero = frame(&expected, &[9u8; 20]);
    zero[0] = 0;
    assert_eq!(accept_handshake(&zero, &expected), Err(TorrentError::Handshake));
}

#[test]
fn deserialize_needs_a_length_and_a_whole_frame() {
    assert_eq!(deserialize_handshake(&vec![0u8; 50], 3), Err(TorrentError::Handshake));
    assert_eq!(deserialize_handshake(&vec![0u8; 28], 0), Err(TorrentError::Handshake));
    assert_eq!(deserialize_handshake(&vec![0u8; 48], 0), Err(TorrentError::Handshake));
    let h = deserialize_handshake(&vec![5u8; 60], 3).unwrap();
    assert_eq!(h.pstr.len(), 3);
    assert_eq!(h.reserved.len(), 8);
    assert_eq!(h.info_hash.len(), 20);
    assert_eq!(h.peer_id.len(), 20);
}
