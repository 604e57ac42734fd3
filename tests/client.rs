use xerus::bittorrent::client::Client;
use xerus::bittorrent::error::TorrentError;
use xerus::bittorrent::message::Message;
use xerus::bittorrent::peer::Peer;
use xerus::bittorrent::piece::PieceWork;

fn client_with(bitfield: Vec<u8>) -> Client {
    let mut c = Client::new(Peer::new(), vec![1u8; 20], vec![2u8; 20]);
    let n = bitfield.len() as u32 * 8;
    c.read_bitfield(Message::new_with_payload(5, bitfield), n).unwrap();
    c
}

#[test]
fn bit_access_follows_msb_first_order() {
    let c = client_with(vec![0b1010_0000, 0b0000_0001]);
    for i in 0u32..16 {
        let byte = c.bitfield[(i / 8) as usize];
        assert_eq!(c.has_piece(i), (byte >> (7 - i % 8)) & 1 == 1);
    }
    assert!(c.has_piece(0));
    assert!(!c.has_piece(1));
    assert!(c.has_piece(2));
    assert!(c.has_piece(15));
    assert!(!c.has_piece(16));
    assert!(!c.has_piece(1000));
}

#[test]
fn set_piece_sets_one_bit() {
    let mut c = client_with(vec![0, 0]);
    c.set_piece(9);
    assert_eq!(c.bitfield, vec![0, 0b0100_0000]);
    assert!(c.has_piece(9));
    c.set_piece(16);
    assert_eq!(c.bitfield, vec![0, 0b0100_0000]);
}

#[test]
fn session_starts_choked_with_no_pieces() {
    let mut c = Client::new(Peer::new(), vec![], vec![]);
    assert!(c.is_choked());
    assert!(!c.has_piece(0));
    c.read_unchoke();
    assert!(!c.is_choked());
    c.read_choke();
    assert!(c.is_choked());
}

#[test]
fn first_message_must_be_a_bitfield() {
    let mut c = Client::new(Peer::new(), vec![], vec![]);
    assert_eq!(c.read_bitfield(Message::new(1), 0), Err(TorrentError::Protocol));
    assert!(c.bitfield.is_empty());
}

#[test]
fn bitfield_must_fit_the_piece_count() {
    let mut c = Client::new(Peer::new(), vec![], vec![]);
    assert_eq!(c.read_bitfield(Message::new_with_payload(5, vec![0xff]), 10), Err(TorrentError::Protocol));
    assert_eq!(c.read_bitfield(Message::new_with_payload(5, vec![0xff, 0b1010_0000]), 10), Err(TorrentError::Protocol));
    c.read_bitfield(Message::new_with_payload(5, vec![0xff, 0b1100_0000]), 10).unwrap();
    assert!(c.has_piece(9));
    assert!(!c.has_piece(10));
    c.set_piece(12);
    assert_eq!(c.bitfield, vec![0xff, 0b1100_0000]);
}

#[test]
fn have_updates_the_bitfield() {
    let mut c = client_with(vec![0, 0]);
    c.read_have(Message::have(3)).unwrap();
    assert!(c.has_piece(3));
    assert_eq!(c.read_have(Message::new_with_payload(4, vec![0, 0, 3])), Err(TorrentError::Protocol));
    assert_eq!(c.read_have(Message::new_with_payload(5, vec![0, 0, 0, 3])), Err(TorrentError::Protocol));
}

fn piece_message(index: u32, begin: u32, block: &[u8]) -> Message {
    let mut payload = Vec::new();
    payload.extend_from_slice(&index.to_be_bytes());
    payload.extend_from_slice(&begin.to_be_bytes());
    payload.extend_from_slice(block);
    Message::new_with_payload(7, payload)
}

#[test]
fn piece_block_lands_at_its_offset() {
    let c = client_with(vec![0xff]);
    let mut work = PieceWork::new(3, vec![0u8; 20], 6);
    work.requests = 2;
    c.read_piece(piece_message(3, 2, &[7, 8, 9]), &mut work).unwrap();
    assert_eq!(work.data, vec![0, 0, 7, 8, 9, 0]);
    assert_eq!(work.downloaded, 3);
    assert_eq!(work.requests, 1);
}

#[test]
fn bad_piece_messages_are_rejected() {
    let c = client_with(vec![0xff]);
    let mut work = PieceWork::new(3, vec![0u8; 20], 6);
    assert_eq!(c.read_piece(piece_message(2, 0, &[1]), &mut work), Err(TorrentError::Protocol));
    assert_eq!(c.read_piece(piece_message(3, 4, &[1, 2, 3]), &mut work), Err(TorrentError::Protocol));
    assert_eq!(c.read_piece(Message::new_with_payload(7, vec![0, 0, 0, 3]), &mut work), Err(TorrentError::Protocol));
    assert_eq!(work.data, vec![0u8; 6]);
    assert_eq!(work.downloaded, 0);
}

#[test]
fn messages_drive_the_session() {
    let mut c = client_with(vec![0]);
    let mut work = PieceWork::new(0, vec![0u8; 20], 4);
    c.handle_message(Message::new(1), &mut work).unwrap();
    assert!(!c.is_choked());
    c.handle_message(Message::have(5), &mut work).unwrap();
    assert!(c.has_piece(5));
    c.handle_message(piece_message(0, 0, &[1, 2, 3, 4]), &mut work).unwrap();
    assert!(work.is_downloaded());
    c.handle_message(Message::new(2), &mut work).unwrap();
    c.handle_message(Message::new(0), &mut work).unwrap();
    assert!(c.is_choked());
}

#[test]
fn top_up_pipelines_five_blocks() {
    let mut work = PieceWork::new(0, vec![0u8; 20], 16384 * 6 + 100);
    let blocks = work.top_up();
    assert_eq!(blocks, vec![(0, 16384), (16384, 16384), (32768, 16384), (49152, 16384), (65536, 16384)]);
    assert_eq!(work.requests, 5);
    assert_eq!(work.requested, 81920);
    assert!(work.top_up().is_empty());
    work.requests = 3;
    assert_eq!(work.top_up(), vec![(81920, 16384), (98304, 100)]);
    assert_eq!(work.requested, work.length);
    assert_eq!(work.requests, 5);
}

#[test]
fn reset_clears_counters() {
    let mut work = PieceWork::new(1, vec![], 10);
    work.top_up();
    work.downloaded = 4;
    work.reset();
    assert_eq!((work.requests, work.requested, work.downloaded), (0, 0, 0));
    assert_eq!(work.length, 10);
}
