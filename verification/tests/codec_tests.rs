use pingpong_sync::codec::{decode, CodecError, Message};
use pingpong_sync::digest::digest_of;

#[test]
fn encode_exact_bytes() {
    let m = Message { version: 1, messages: vec![vec![b'a']] };
    let enc = m.encode();
    assert_eq!(
        enc,
        vec![1u8, 0, 0, 0, 1, 0, 0, 0, 0, 0, 0, 0, b'a']
    );
}

#[test]
fn encode_empty_message_list() {
    let m = Message { version: 7, messages: vec![] };
    let enc = m.encode();
    assert_eq!(enc, vec![7u8, 0, 0, 0]);
}

#[test]
fn round_trip_simple() {
    let m = Message { version: 2, messages: vec![b"hello".to_vec(), b"world".to_vec()] };
    let enc = m.encode();
    let back = decode(&enc).unwrap();
    assert_eq!(back.version, 2);
    assert_eq!(back.messages, vec![b"hello".to_vec(), b"world".to_vec()]);
}

#[test]
fn round_trip_empty_collections() {
    let m = Message { version: 0, messages: vec![] };
    let back = decode(&m.encode()).unwrap();
    assert_eq!(back.version, 0);
    assert!(back.messages.is_empty());

    let m2 = Message { version: 9, messages: vec![vec![], vec![], vec![]] };
    let back2 = decode(&m2.encode()).unwrap();
    assert_eq!(back2.version, 9);
    assert_eq!(back2.messages, vec![Vec::<u8>::new(), Vec::new(), Vec::new()]);
}

#[test]
fn round_trip_large_payload() {
    let messages: Vec<Vec<u8>> = (0..1000)
        .map(|i| format!("Message {}", i).into_bytes())
        .collect();
    let m = Message { version: 1, messages: messages.clone() };
    let back = decode(&m.encode()).unwrap();
    assert_eq!(back.version, 1);
    assert_eq!(back.messages, messages);
}

#[test]
fn decode_rejects_short_header() {
    assert_eq!(decode(&vec![1u8, 2]), Err(CodecError::DecodeError));
    assert_eq!(decode(&vec![]), Err(CodecError::DecodeError));
}

#[test]
fn decode_rejects_truncated_item() {
    // claims a 5-byte item but carries none
    let bytes = vec![1u8, 0, 0, 0, 5, 0, 0, 0, 0, 0, 0, 0];
    assert_eq!(decode(&bytes), Err(CodecError::DecodeError));
    // length prefix itself cut short
    let bytes2 = vec![1u8, 0, 0, 0, 5, 0];
    assert_eq!(decode(&bytes2), Err(CodecError::DecodeError));
}

#[test]
fn digest_known_values() {
    // 64-bit FNV-1a of the empty input is the offset basis
    assert_eq!(digest_of(&vec![]), 0xcbf29ce484222325);
    // ... and of the single byte "a"
    assert_eq!(digest_of(&vec![b'a']), 0xaf63dc4c8601ec8c);
}
