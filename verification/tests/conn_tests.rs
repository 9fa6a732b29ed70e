use leafish_protocol::is_ipv4_literal;
use leafish_protocol::read_raw_packet_from;
use leafish_protocol::try_parse_packet;
use leafish_protocol::Conn;
use leafish_protocol::Direction;
use leafish_protocol::Error;
use leafish_protocol::FieldValue;
use leafish_protocol::Packet;
use leafish_protocol::Reader;
use leafish_protocol::State;
use leafish_protocol::VarInt;
use leafish_protocol::PLUGIN_MESSAGE_SERVERBOUND;
use leafish_protocol::STATUS_PING;

fn status_ping(marker: i64) -> Packet {
    Packet {
        internal_id: STATUS_PING,
        fields: vec![FieldValue::I64(marker)],
    }
}

#[test]
fn frame_without_compression() {
    let mut conn = Conn::new("example.com".to_string(), 25565, 754);
    conn.set_state(State::Status);
    let frame = conn.write_packet(&status_ping(42)).unwrap();
    // VarInt(9): id byte + eight marker bytes.
    assert_eq!(frame[0], 9);
    assert_eq!(frame[1], 0x01);
    let mut r = Reader::new(frame);
    let (id, fields) = read_raw_packet_from(&mut r, -1).unwrap();
    assert_eq!(id, 0x01);
    assert_eq!(fields.len(), 8);
    assert_eq!(r.remaining_len(), 0);
}

#[test]
fn frame_round_trip_through_connection() {
    let mut server_side = Conn::new("example.com".to_string(), 25565, 754);
    server_side.set_state(State::Status);
    let frame = server_side.write_packet(&status_ping(7)).unwrap();
    // A peer reading serverbound traffic: its own role is clientbound.
    let mut reader_conn = Conn::new("example.com".to_string(), 25565, 754);
    reader_conn.set_state(State::Status);
    reader_conn.direction = Direction::Clientbound;
    let mut r = Reader::new(frame);
    let packet = reader_conn.read_packet(&mut r).unwrap();
    assert_eq!(packet.internal_id, STATUS_PING);
    assert_eq!(packet.fields, vec![FieldValue::I64(7)]);
}

#[test]
fn compressed_frame_small_body_keeps_zero_prefix() {
    // A body at or below the threshold is sent uncompressed but still
    // carries the zero-valued size prefix, keeping framing uniform.
    let mut conn = Conn::new("example.com".to_string(), 25565, 754);
    conn.set_state(State::Status);
    conn.set_compression(1000);
    let frame = conn.write_packet(&status_ping(1)).unwrap();
    // VarInt(10) outer length: size prefix byte + 9 body bytes.
    assert_eq!(frame[0], 10);
    assert_eq!(frame[1], 0, "uncompressed bodies carry a zero size prefix");
    let mut r = Reader::new(frame);
    let (id, fields) = read_raw_packet_from(&mut r, 1000).unwrap();
    assert_eq!(id, 0x01);
    assert_eq!(fields.len(), 8);
}

#[test]
fn compressed_frame_two_byte_body_over_zero_threshold() {
    // End-to-end scenario: compression threshold 0, a two-byte packet body
    // (plugin message with empty channel and payload). The frame must begin
    // with a non-zero uncompressed-size VarInt.
    let mut conn = Conn::new("example.com".to_string(), 25565, 754);
    conn.set_state(State::Login);
    conn.set_state(State::Play);
    conn.set_compression(0);
    let frame = conn
        .write_plugin_message(&"".to_string(), &Vec::new())
        .unwrap();
    // frame[0] is the outer length; frame[1] is the uncompressed size (2).
    assert_eq!(frame[1], 2, "uncompressed-size VarInt must be non-zero");
    let mut r = Reader::new(frame);
    let (id, fields) = read_raw_packet_from(&mut r, 0).unwrap();
    assert_eq!(id, 0x0B);
    assert_eq!(fields, vec![0x00], "empty channel string, empty payload");
}

#[test]
fn mismatched_uncompressed_size_is_rejected() {
    // A crafted frame whose decompressed body length disagrees with its
    // declared uncompressed-size VarInt is rejected.
    let mut conn = Conn::new("example.com".to_string(), 25565, 754);
    conn.set_state(State::Login);
    conn.set_state(State::Play);
    conn.set_compression(0);
    let frame = conn
        .write_plugin_message(&"".to_string(), &Vec::new())
        .unwrap();
    // Corrupt the declared uncompressed size (2 -> 3).
    let mut crafted = frame.clone();
    assert_eq!(crafted[1], 2);
    crafted[1] = 3;
    let mut r = Reader::new(crafted);
    let res = read_raw_packet_from(&mut r, 0);
    assert_eq!(
        res,
        Err(Error::MalformedFrame {
            packet_id: -1,
            leftover: 0
        })
    );
}

#[test]
fn leftover_bytes_reported_exactly() {
    // A frame whose packet decode consumes fewer bytes than the body length
    // is rejected with the exact leftover count.
    let mut body = Vec::new();
    VarInt(0x01).write_varint(&mut body); // status pong wire id
    for b in [0u8, 0, 0, 0, 0, 0, 0, 42, 0xAA, 0xBB, 0xCC] {
        body.push(b);
    }
    let mut frame = Vec::new();
    VarInt(body.len() as i32).write_varint(&mut frame);
    frame.extend_from_slice(&body);
    let conn = Conn::new("example.com".to_string(), 25565, 754);
    let mut status_conn = conn;
    status_conn.set_state(State::Status);
    let mut r = Reader::new(frame);
    let res = status_conn.read_packet(&mut r);
    assert_eq!(
        res,
        Err(Error::MalformedFrame {
            packet_id: 0x01,
            leftover: 3
        })
    );
}

#[test]
fn oversized_frame_length_is_fatal() {
    let mut frame = Vec::new();
    VarInt(1000000001).write_varint(&mut frame);
    frame.push(0);
    let mut r = Reader::new(frame);
    assert_eq!(
        read_raw_packet_from(&mut r, -1),
        Err(Error::EncodingLimitExceeded)
    );
}

#[test]
fn unknown_wire_id_read_is_unknown_packet_error() {
    let mut body = Vec::new();
    VarInt(0x55).write_varint(&mut body);
    let mut frame = Vec::new();
    VarInt(body.len() as i32).write_varint(&mut frame);
    frame.extend_from_slice(&body);
    let mut conn = Conn::new("example.com".to_string(), 25565, 754);
    conn.set_state(State::Status);
    let mut r = Reader::new(frame);
    assert_eq!(
        conn.read_packet(&mut r),
        Err(Error::UnknownPacket { wire_id: 0x55 })
    );
}

#[test]
fn encryption_round_trips_and_preserves_sizes() {
    let key: Vec<u8> = (0u8..16).collect();
    let mut alice = Conn::new("example.com".to_string(), 25565, 754);
    alice.enable_encyption(&key);
    let mut bob = Conn::new("example.com".to_string(), 25565, 754);
    bob.enable_encyption(&key);

    let plain = b"one full frame of data".to_vec();
    let mut transported = plain.clone();
    alice.encrypt_bytes(&mut transported);
    assert_eq!(transported.len(), plain.len(), "encryption never changes sizes");
    assert_ne!(transported, plain);
    bob.decrypt_bytes(&mut transported);
    assert_eq!(transported, plain);

    // Stream state advances: a second chunk still lines up.
    let plain2 = b"second chunk".to_vec();
    let mut transported2 = plain2.clone();
    alice.encrypt_bytes(&mut transported2);
    bob.decrypt_bytes(&mut transported2);
    assert_eq!(transported2, plain2);
}

#[test]
fn plugin_message_legacy_shape_before_protocol_47() {
    let mut conn = Conn::new("example.com".to_string(), 25565, 5);
    conn.set_state(State::Login);
    conn.set_state(State::Play);
    let data = vec![1u8, 2, 3];
    let frame = conn.write_plugin_message(&"reg".to_string(), &data).unwrap();
    let mut r = Reader::new(frame);
    let (id, fields) = read_raw_packet_from(&mut r, -1).unwrap();
    assert_eq!(id, 0x17, "legacy plugin message wire id");
    // channel "reg" + VarShort(3) + payload
    assert_eq!(fields, vec![3, b'r', b'e', b'g', 0, 3, 1, 2, 3]);
}

#[test]
fn login_plugin_response_frame() {
    let mut conn = Conn::new("example.com".to_string(), 25565, 754);
    conn.set_state(State::Login);
    let frame = conn
        .write_login_plugin_response(VarInt(5), true, &vec![9, 9])
        .unwrap();
    let mut r = Reader::new(frame);
    let (id, fields) = read_raw_packet_from(&mut r, -1).unwrap();
    assert_eq!(id, 0x02);
    assert_eq!(fields, vec![5, 1, 9, 9]);
}

#[test]
fn fml2_handshake_wraps_payload() {
    let mut conn = Conn::new("example.com".to_string(), 25565, 754);
    conn.set_state(State::Login);
    let inner = vec![7u8, 8];
    let frame = conn
        .write_fml2_handshake_plugin_message(VarInt(1), Some(&inner))
        .unwrap();
    let mut r = Reader::new(frame);
    let (id, fields) = read_raw_packet_from(&mut r, -1).unwrap();
    assert_eq!(id, 0x02);
    // message id 1, successful, then "fml:handshake" + VarInt(2) + payload.
    let mut expected = vec![1u8, 1, 13];
    expected.extend_from_slice(b"fml:handshake");
    expected.extend_from_slice(&[2, 7, 8]);
    assert_eq!(fields, expected);
}

#[test]
fn try_parse_packet_reports_unknown_and_leftover() {
    // A clientbound play-state body with an unknown id parses to nothing.
    let mut body = Vec::new();
    VarInt(0x42).write_varint(&mut body);
    body.push(1);
    assert_eq!(try_parse_packet(body, 754), Ok(None));
}

#[test]
fn ipv4_literal_check() {
    assert!(is_ipv4_literal("127.0.0.1"));
    assert!(is_ipv4_literal("255.255.255.255"));
    assert!(is_ipv4_literal("0.0.0.0"));
    assert!(is_ipv4_literal("010.1.1.1"));
    assert!(!is_ipv4_literal("256.1.1.1"));
    assert!(!is_ipv4_literal("1.2.3"));
    assert!(!is_ipv4_literal("1.2.3.4.5"));
    assert!(!is_ipv4_literal("example.com"));
    assert!(!is_ipv4_literal(""));
    assert!(!is_ipv4_literal("1..2.3"));
}

#[test]
fn compressed_frame_reads_back_through_connection() {
    // A frame written over the threshold is compressed; deframing inverts
    // the compression sub-frame and yields the same packet.
    let mut writer = Conn::new("example.com".to_string(), 25565, 754);
    writer.set_state(State::Login);
    writer.set_state(State::Play);
    writer.set_compression(0);
    let payload: Vec<u8> = (0u8..40).collect();
    let frame = writer
        .write_plugin_message(&"chan".to_string(), &payload)
        .unwrap();
    let mut reader_conn = Conn::new("example.com".to_string(), 25565, 754);
    reader_conn.set_state(State::Login);
    reader_conn.set_state(State::Play);
    reader_conn.set_compression(0);
    reader_conn.direction = Direction::Clientbound;
    let mut r = Reader::new(frame);
    let packet = reader_conn.read_packet(&mut r).unwrap();
    assert_eq!(packet.internal_id, PLUGIN_MESSAGE_SERVERBOUND);
    assert_eq!(
        packet.fields,
        vec![
            FieldValue::Str("chan".to_string()),
            FieldValue::Bytes(payload)
        ]
    );
    assert_eq!(r.remaining_len(), 0);
}
