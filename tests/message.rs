use xerus::bittorrent::error::TorrentError;
use xerus::bittorrent::message::{
    deserialize_message, read_u32_be, write_u32_be, Message, MESSAGE_HAVE, MESSAGE_REQUEST,
};

#[test]
fn test_serialize_and_deserialize_correct() {
    let message = Message::new_with_payload(7, vec![1, 2, 4, 4, 5]);
    let serialized = message.serialize().unwrap();
    let deserialized = deserialize_message(&vec![7, 1, 2, 4, 4, 5], 6).unwrap();
    assert_eq!(message, deserialized);
    assert_eq!(serialized, vec![0, 0, 0, 6, 7, 1, 2, 4, 4, 5]);
}

#[test]
fn message_round_trip_through_frame() {
    for id in 0u8..=8 {
        let message = Message::new_with_payload(id, vec![9, 8, 7]);
        let frame = message.serialize().unwrap();
        let len = read_u32_be(&frame, 0) as usize;
        assert_eq!(len, 4);
        let body = frame[4..].to_vec();
        assert_eq!(deserialize_message(&body, len).unwrap(), message);
    }
}

#[test]
fn message_without_payload_serializes_to_five_bytes() {
    assert_eq!(Message::new(1).serialize().unwrap(), vec![0, 0, 0, 1, 1]);
}

#[test]
fn deserialize_rejects_zero_and_overlong_lengths() {
    assert_eq!(deserialize_message(&vec![7, 1], 0), Err(TorrentError::Protocol));
    assert_eq!(deserialize_message(&vec![7, 1], 3), Err(TorrentError::Protocol));
}

#[test]
fn deserialize_ignores_bytes_past_the_length() {
    let m = deserialize_message(&vec![4, 0, 0, 0, 9, 99, 99], 5).unwrap();
    assert_eq!(m.id, 4);
    assert_eq!(m.payload, vec![0, 0, 0, 9]);
}

#[test]
fn have_and_request_payloads_are_big_endian() {
    let have = Message::have(0x01020304);
    assert_eq!(have.id, MESSAGE_HAVE);
    assert_eq!(have.payload, vec![1, 2, 3, 4]);
    let request = Message::request(1, 16384, 300);
    assert_eq!(request.id, MESSAGE_REQUEST);
    assert_eq!(request.payload, vec![0, 0, 0, 1, 0, 0, 0x40, 0, 0, 0, 1, 0x2c]);
}

#[test]
fn u32_big_endian_round_trip() {
    let mut out = vec![0xaa];
    write_u32_be(&mut out, 0xdeadbeef);
    assert_eq!(out, vec![0xaa, 0xde, 0xad, 0xbe, 0xef]);
    assert_eq!(read_u32_be(&out, 1), 0xdeadbeef);
}
