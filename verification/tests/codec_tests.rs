use zmq_broadcast::codec::{decode, encode, DecodeError};
use zmq_broadcast::message::BroadcastMessage;

fn msg(sender: &[u8], body: &[u8], timestamp: u64) -> BroadcastMessage {
    BroadcastMessage { sender: sender.to_vec(), body: body.to_vec(), timestamp }
}

fn round_trips(m: BroadcastMessage) {
    let frame = encode(&m);
    let back = decode(&frame).expect("a frame the library encoded must decode");
    assert_eq!(back.sender, m.sender);
    assert_eq!(back.body, m.body);
    assert_eq!(back.timestamp, m.timestamp);
}

#[test]
fn round_trip_plain() {
    round_trips(msg(b"zmq_srv", b"hello", 1431648000));
}

#[test]
fn round_trip_empty_body() {
    round_trips(msg(b"zmq_srv", b"", 7));
}

#[test]
fn round_trip_empty_sender() {
    round_trips(msg(b"", b"payload", 7));
}

#[test]
fn round_trip_zero_timestamp() {
    round_trips(msg(b"someone", b"late note", 0));
}

#[test]
fn round_trip_max_timestamp() {
    round_trips(msg(b"s", b"b", u64::MAX));
}

#[test]
fn round_trip_all_defaults() {
    round_trips(msg(b"", b"", 0));
}

#[test]
fn round_trip_long_body() {
    // A body longer than 127 bytes forces a two-byte length varint.
    let body: Vec<u8> = (0..300u32).map(|i| (i % 251) as u8).collect();
    round_trips(msg(b"zmq_srv", &body, 123456789));
}

#[test]
fn golden_frame() {
    let frame = encode(&msg(b"zmq_srv", b"hello", 1431648000));
    let expected: Vec<u8> = vec![
        0x0a, 0x07, 0x7a, 0x6d, 0x71, 0x5f, 0x73, 0x72, 0x76, 0x12, 0x05, 0x68, 0x65, 0x6c,
        0x6c, 0x6f, 0x18, 0x80, 0xee, 0xd4, 0xaa, 0x05,
    ];
    assert_eq!(frame, expected);
}

#[test]
fn empty_buffer_is_the_default_message() {
    let m = decode(&Vec::new()).expect("the empty frame carries the all-default message");
    assert!(m.sender.is_empty());
    assert!(m.body.is_empty());
    assert_eq!(m.timestamp, 0);
}

#[test]
fn truncated_frame_never_reproduces_the_message() {
    let frame = encode(&msg(b"zmq_srv", b"hello", 1431648000));
    for cut in 0..frame.len() {
        let truncated: Vec<u8> = frame[..cut].to_vec();
        // A cut mid-field is rejected outright; a cut at a field border
        // leaves a frame of some other, shorter message — never this one.
        if let Ok(m) = decode(&truncated) {
            assert!(
                (m.sender.as_slice(), m.body.as_slice(), m.timestamp)
                    != (b"zmq_srv".as_slice(), b"hello".as_slice(), 1431648000),
                "cut at {cut} must not reproduce the message"
            );
        }
    }
}

#[test]
fn truncation_mid_field_is_rejected() {
    let frame = encode(&msg(b"zmq_srv", b"hello", 1431648000));
    // Inside the sender bytes, inside the body bytes, inside the timestamp
    // varint: each leaves no decodable frame.
    for cut in [1, 5, 12, frame.len() - 1] {
        let truncated: Vec<u8> = frame[..cut].to_vec();
        assert!(decode(&truncated).is_err(), "cut at {cut} should not decode");
    }
}

#[test]
fn truncated_varint_gives_bad_varint() {
    // A body key whose length varint never ends.
    let buf: Vec<u8> = vec![0x12, 0x80];
    assert!(matches!(decode(&buf), Err(DecodeError::BadVarint)));
}

#[test]
fn overlong_varint_is_rejected() {
    // 0x80 0x00 spells zero in two bytes; the canonical spelling is one.
    let buf: Vec<u8> = vec![0x18, 0x80, 0x00];
    assert!(decode(&buf).is_err());
}

#[test]
fn length_past_end_gives_bad_length() {
    // Sender field claiming five bytes with only two present.
    let buf: Vec<u8> = vec![0x0a, 0x05, 0x61, 0x62];
    assert!(matches!(decode(&buf), Err(DecodeError::BadLength)));
}

#[test]
fn zero_length_field_gives_bad_length() {
    let buf: Vec<u8> = vec![0x0a, 0x00];
    assert!(matches!(decode(&buf), Err(DecodeError::BadLength)));
}

#[test]
fn trailing_bytes_give_unexpected_byte() {
    let mut frame = encode(&msg(b"s", b"b", 1));
    frame.push(0x00);
    assert!(matches!(decode(&frame), Err(DecodeError::UnexpectedByte)));
}

#[test]
fn zero_timestamp_field_is_not_canonical() {
    // An explicit timestamp field carrying zero: the canonical frame omits it.
    let buf: Vec<u8> = vec![0x18, 0x00];
    assert!(matches!(decode(&buf), Err(DecodeError::UnexpectedByte)));
}

#[test]
fn corrupted_key_is_rejected() {
    let mut frame = encode(&msg(b"zmq_srv", b"hello", 1431648000));
    frame[0] = 0x3a;
    assert!(decode(&frame).is_err());
}

#[test]
fn fields_out_of_order_are_rejected() {
    // Body before sender never comes out of the canonical encoder.
    let buf: Vec<u8> = vec![0x12, 0x01, 0x62, 0x0a, 0x01, 0x61];
    assert!(decode(&buf).is_err());
}
