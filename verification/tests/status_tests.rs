use leafish_protocol::check_protocol_supported;
use leafish_protocol::expect_status_pong;
use leafish_protocol::remote_disconnect_error;
use leafish_protocol::LOGIN_DISCONNECT;
use leafish_protocol::Version;
use leafish_protocol::expect_status_response;
use leafish_protocol::parse_status;
use leafish_protocol::ping_duration;
use leafish_protocol::status_ping_packet;
use leafish_protocol::status_request_packet;
use leafish_protocol::Conn;
use leafish_protocol::Direction;
use leafish_protocol::Error;
use leafish_protocol::FieldValue;
use leafish_protocol::Packet;
use leafish_protocol::Reader;
use leafish_protocol::State;
use leafish_protocol::VarInt;
use leafish_protocol::HANDSHAKE;
use leafish_protocol::STATUS_PONG;
use leafish_protocol::STATUS_RESPONSE;

#[test]
fn parse_status_minimal() {
    let json = r#"{"version":{"name":"1.16.5","protocol":754},
        "players":{"max":20,"online":3},
        "description":{"text":"hi"}}"#;
    let st = parse_status(json).unwrap();
    assert_eq!(st.version.name, "1.16.5");
    assert_eq!(st.version.protocol, 754);
    assert_eq!(st.players.max, 20);
    assert_eq!(st.players.online, 3);
    assert!(st.favicon.is_none());
    assert!(st.forge_mods.is_empty());
    assert!(st.fml_network_version.is_none());
}

#[test]
fn parse_status_missing_required_field_fails() {
    let json = r#"{"players":{"max":20,"online":3},"description":"d"}"#;
    assert_eq!(parse_status(json), Err(Error::FieldDecodeFailure));
    let json2 = r#"{"version":{"name":"x","protocol":5},"description":"d"}"#;
    assert_eq!(parse_status(json2), Err(Error::FieldDecodeFailure));
    assert_eq!(parse_status("not json"), Err(Error::FieldDecodeFailure));
}

#[test]
fn parse_status_with_favicon_and_modinfo() {
    let json = r#"{"version":{"name":"1.12.2","protocol":340},
        "players":{"max":10,"online":1},
        "description":"modded",
        "favicon":"data:image/png;base64,AAAA",
        "modinfo":{"type":"FML","modList":[
            {"modid":"examplemod","version":"1.0"},
            {"modid":"othermod","version":"2.3"}]}}"#;
    let st = parse_status(json).unwrap();
    assert_eq!(st.favicon.as_deref(), Some("data:image/png;base64,AAAA"));
    assert_eq!(st.forge_mods.len(), 2);
    assert_eq!(st.forge_mods[0].modid, "examplemod");
    assert_eq!(st.forge_mods[1].version, "2.3");
    assert_eq!(st.fml_network_version, Some(1));
}

#[test]
fn parse_status_with_forge_data() {
    let json = r#"{"version":{"name":"1.16.5","protocol":754},
        "players":{"max":10,"online":0},
        "description":"forge",
        "forgeData":{"mods":[{"modId":"m1","modmarker":"7.1"}],"fmlNetworkVersion":2}}"#;
    let st = parse_status(json).unwrap();
    assert_eq!(st.forge_mods.len(), 1);
    assert_eq!(st.forge_mods[0].modid, "m1");
    assert_eq!(st.forge_mods[0].version, "7.1");
    assert_eq!(st.fml_network_version, Some(2));
}

#[test]
fn parse_status_forge_data_without_network_version_fails() {
    let json = r#"{"version":{"name":"x","protocol":754},
        "players":{"max":1,"online":0},
        "description":"d",
        "forgeData":{"mods":[]}}"#;
    assert_eq!(parse_status(json), Err(Error::FieldDecodeFailure));
}

#[test]
fn status_sequence_end_to_end() {
    // End-to-end scenario: send the handshake and status request, inject a
    // status response with minimal valid JSON, send ping(42), inject the
    // matching pong; the parsed player counts must match the injected
    // document and the ping duration is well defined.
    let mut conn = Conn::new("example.com".to_string(), 25565, 754);

    // Handshake while still in the handshaking state, then move to status.
    let hs = conn.handshake_packet(1);
    assert_eq!(hs.internal_id, HANDSHAKE);
    let hs_frame = conn.write_packet(&hs).unwrap();
    assert!(!hs_frame.is_empty());
    conn.set_state(State::Status);

    let req_frame = conn.write_packet(&status_request_packet()).unwrap();
    assert_eq!(req_frame, vec![1, 0x00], "an empty status request body");

    // The injected status response, framed as the server would.
    let json = r#"{"version":{"name":"1.16.5","protocol":754},"players":{"max":64,"online":17},"description":"A server"}"#;
    let response = Packet {
        internal_id: STATUS_RESPONSE,
        fields: vec![FieldValue::Str(json.to_string())],
    };
    let mut body = Vec::new();
    leafish_protocol::encode_packet(&response, 754, State::Status, Direction::Clientbound, &mut body)
        .unwrap();
    let mut frame = Vec::new();
    VarInt(body.len() as i32).write_varint(&mut frame);
    frame.extend_from_slice(&body);

    let mut r = Reader::new(frame);
    let received = conn.read_packet(&mut r).unwrap();
    let doc = expect_status_response(&received).unwrap();
    let status = parse_status(&doc).unwrap();
    assert_eq!(status.players.max, 64);
    assert_eq!(status.players.online, 17);

    // Ping with an arbitrary marker; inject the matching pong.
    let sent_at: u64 = 1000;
    let ping_frame = conn.write_packet(&status_ping_packet(42)).unwrap();
    assert!(!ping_frame.is_empty());
    let pong = Packet {
        internal_id: STATUS_PONG,
        fields: vec![FieldValue::I64(42)],
    };
    let mut pong_body = Vec::new();
    leafish_protocol::encode_packet(&pong, 754, State::Status, Direction::Clientbound, &mut pong_body)
        .unwrap();
    let mut pong_frame = Vec::new();
    VarInt(pong_body.len() as i32).write_varint(&mut pong_frame);
    pong_frame.extend_from_slice(&pong_body);
    let mut r2 = Reader::new(pong_frame);
    let received_pong = conn.read_packet(&mut r2).unwrap();
    expect_status_pong(&received_pong, 42).unwrap();
    let received_at: u64 = 1007;
    let rtt = ping_duration(sent_at, received_at);
    assert_eq!(rtt, 7);
}

#[test]
fn wrong_packet_in_status_sequence_is_error() {
    let pong = Packet {
        internal_id: STATUS_PONG,
        fields: vec![FieldValue::I64(1)],
    };
    assert!(expect_status_response(&pong).is_err());
    let resp = Packet {
        internal_id: STATUS_RESPONSE,
        fields: vec![FieldValue::Str("{}".to_string())],
    };
    // In the status clientbound group the response and the pong share the
    // catalog; a response is not a pong.
    assert!(expect_status_pong(&resp, 1).is_err());
    // A pong with a different marker does not match.
    assert!(expect_status_pong(&pong, 2).is_err());
}

#[test]
fn version_registry() {
    assert_eq!(Version::from_id(754), Version::V1_16);
    assert_eq!(Version::from_id(47), Version::V1_8);
    assert_eq!(Version::from_id(4), Version::Old);
    assert_eq!(Version::from_id(755), Version::New);
    assert_eq!(Version::from_id(60), Version::Other);
    assert!(Version::from_id(754).is_supported());
    assert!(!Version::from_id(4).is_supported());
    assert!(!Version::from_id(755).is_supported());
    assert!(!Version::from_id(60).is_supported());
    assert!(Version::V1_13.index() < Version::V1_14.index());
}

#[test]
fn supported_protocol_list_shape() {
    let list = leafish_protocol::supported_protocols();
    assert_eq!(list[0], 754);
    assert_eq!(leafish_protocol::default_protocol_version(), 754);
    for w in list.windows(2) {
        assert!(w[0] > w[1], "the whitelist is sorted descending");
    }
}

#[test]
fn error_kind_names() {
    assert_eq!(Error::EncodingLimitExceeded.kind_name(), "encoding limit exceeded");
    assert_eq!(
        Error::RemoteDisconnect("bye".to_string()).kind_name(),
        "remote disconnect"
    );
}

#[test]
fn protocol_support_check() {
    assert_eq!(check_protocol_supported(754), Ok(()));
    assert_eq!(check_protocol_supported(47), Ok(()));
    assert_eq!(
        check_protocol_supported(4),
        Err(Error::UnsupportedVersion {
            protocol_version: 4
        })
    );
    assert_eq!(
        check_protocol_supported(755),
        Err(Error::UnsupportedVersion {
            protocol_version: 755
        })
    );
    assert_eq!(
        check_protocol_supported(-1),
        Err(Error::UnsupportedVersion {
            protocol_version: -1
        })
    );
}

#[test]
fn remote_disconnect_preserves_reason() {
    let p = Packet {
        internal_id: LOGIN_DISCONNECT,
        fields: vec![FieldValue::Str("server closing".to_string())],
    };
    assert_eq!(
        remote_disconnect_error(&p),
        Some(Error::RemoteDisconnect("server closing".to_string()))
    );
    let pong = Packet {
        internal_id: STATUS_PONG,
        fields: vec![FieldValue::I64(1)],
    };
    assert_eq!(remote_disconnect_error(&pong), None);
}

#[test]
fn login_disconnect_decodes_from_wire() {
    let p = Packet {
        internal_id: leafish_protocol::LOGIN_DISCONNECT,
        fields: vec![FieldValue::Str("bye".to_string())],
    };
    let mut body = Vec::new();
    leafish_protocol::encode_packet(&p, 754, State::Login, Direction::Clientbound, &mut body)
        .unwrap();
    let mut r = Reader::new(body[1..].to_vec());
    let back = leafish_protocol::decode_packet(754, State::Login, Direction::Clientbound, 0x00, &mut r)
        .unwrap()
        .unwrap();
    assert_eq!(back.fields, p.fields);
}
