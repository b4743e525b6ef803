use lanlink::codec::{decode, encode, DecodeError};
use lanlink::message::Message;

#[test]
fn round_trip_discovery() {
    let m = Message::Discovery { name: String::from("laptop"), port: 1716 };
    assert_eq!(decode(&encode(&m)).unwrap(), m);
}

#[test]
fn round_trip_pair_request() {
    let m = Message::PairRequest { pin: 4242 };
    assert_eq!(decode(&encode(&m)).unwrap(), m);
}

#[test]
fn round_trip_pair_confirm() {
    let m = Message::PairConfirm { pin: 9998 };
    assert_eq!(decode(&encode(&m)).unwrap(), m);
}

#[test]
fn round_trip_file_transfer() {
    let m = Message::FileTransfer {
        filename: String::from("notes.txt"),
        data: vec![0u8, 1, 2, 255, 254],
    };
    assert_eq!(decode(&encode(&m)).unwrap(), m);
}

#[test]
fn round_trip_clipboard_share() {
    let m = Message::ClipboardShare { content: String::from("copied text") };
    assert_eq!(decode(&encode(&m)).unwrap(), m);
}

#[test]
fn round_trip_chat_message() {
    let m = Message::ChatMessage { from: String::from("alice"), content: String::from("hello") };
    assert_eq!(decode(&encode(&m)).unwrap(), m);
}

#[test]
fn round_trip_disconnect() {
    assert_eq!(decode(&encode(&Message::Disconnect)).unwrap(), Message::Disconnect);
}

#[test]
fn round_trip_empty_strings_and_data() {
    let m = Message::FileTransfer { filename: String::new(), data: Vec::new() };
    assert_eq!(decode(&encode(&m)).unwrap(), m);
    let m = Message::ChatMessage { from: String::new(), content: String::new() };
    assert_eq!(decode(&encode(&m)).unwrap(), m);
}

#[test]
fn round_trip_non_ascii_name() {
    let m = Message::Discovery { name: String::from("téléphone 📱"), port: 65535 };
    assert_eq!(decode(&encode(&m)).unwrap(), m);
}

#[test]
fn encode_pair_request_exact_bytes() {
    // tag 1, then 4242 = 0x1092 little-endian
    let bytes = encode(&Message::PairRequest { pin: 4242 });
    assert_eq!(bytes, vec![1u8, 0x92, 0x10, 0x00, 0x00]);
}

#[test]
fn encode_discovery_exact_bytes() {
    // tag 0, length 2, "ab" in UTF-8, then 1716 = 0x06B4 little-endian
    let bytes = encode(&Message::Discovery { name: String::from("ab"), port: 1716 });
    assert_eq!(bytes, vec![0u8, 2, 0, 0, 0, b'a', b'b', 0xB4, 0x06]);
}

#[test]
fn encode_disconnect_exact_bytes() {
    assert_eq!(encode(&Message::Disconnect), vec![6u8]);
}

#[test]
fn decode_rejects_empty_buffer() {
    assert_eq!(decode(&[]), Err(DecodeError::Malformed));
}

#[test]
fn decode_rejects_unknown_tag() {
    assert_eq!(decode(&[7u8]), Err(DecodeError::Malformed));
    assert_eq!(decode(&[200u8, 1, 2, 3]), Err(DecodeError::Malformed));
}

#[test]
fn decode_rejects_truncated_message() {
    let mut bytes = encode(&Message::ChatMessage {
        from: String::from("bob"),
        content: String::from("hi"),
    });
    bytes.pop();
    assert_eq!(decode(&bytes), Err(DecodeError::Malformed));
}

#[test]
fn decode_rejects_trailing_bytes() {
    let mut bytes = encode(&Message::PairConfirm { pin: 1000 });
    bytes.push(0);
    assert_eq!(decode(&bytes), Err(DecodeError::Malformed));
}

#[test]
fn decode_rejects_invalid_utf8() {
    // tag 4 (clipboard share), length 1, lone continuation byte
    assert_eq!(decode(&[4u8, 1, 0, 0, 0, 0x80]), Err(DecodeError::Malformed));
}

#[test]
fn decode_rejects_out_of_range_pin() {
    // tag 1, pin 999 (three digits) and pin 9999 (one past the range)
    assert_eq!(decode(&[1u8, 0xE7, 0x03, 0x00, 0x00]), Err(DecodeError::Malformed));
    assert_eq!(decode(&[1u8, 0x0F, 0x27, 0x00, 0x00]), Err(DecodeError::Malformed));
}

#[test]
fn decode_rejects_overlong_length_prefix() {
    // tag 4, claimed length 100, but only 2 payload bytes follow
    assert_eq!(decode(&[4u8, 100, 0, 0, 0, b'h', b'i']), Err(DecodeError::Malformed));
}
