use leafish_protocol::decode_fields;
use leafish_protocol::decode_packet;
use leafish_protocol::encode_packet;
use leafish_protocol::internal_to_wire;
use leafish_protocol::id_table;
use leafish_protocol::shape_fields;
use leafish_protocol::wire_to_internal;
use leafish_protocol::Direction;
use leafish_protocol::Error;
use leafish_protocol::FieldType;
use leafish_protocol::FieldValue;
use leafish_protocol::Packet;
use leafish_protocol::PacketField;
use leafish_protocol::Presence;
use leafish_protocol::Reader;
use leafish_protocol::State;
use leafish_protocol::VarInt;
use leafish_protocol::HANDSHAKE;
use leafish_protocol::PLUGIN_MESSAGE_SERVERBOUND;
use leafish_protocol::PLUGIN_MESSAGE_SERVERBOUND_I16;
use leafish_protocol::STATUS_PING;

#[test]
fn id_translation_round_trip_for_all_declared() {
    // For every declared (state, direction, version, internal id), mapping
    // to the wire id and back is the identity.
    for e in id_table() {
        for v in [e.min_version, e.max_version.min(e.min_version.saturating_add(100))] {
            let wire = internal_to_wire(v, e.state, e.direction, e.internal_id)
                .expect("declared mapping must translate");
            let back = wire_to_internal(v, e.state, e.direction, wire)
                .expect("wire id of a declared mapping must translate back");
            assert_eq!(back, e.internal_id);
        }
    }
}

#[test]
fn id_translation_unknown_id_fails() {
    // An id outside any declared version range fails, never aliases.
    assert_eq!(
        internal_to_wire(754, State::Handshaking, Direction::Serverbound, 99),
        Err(Error::UnknownPacket { wire_id: 99 })
    );
    assert_eq!(
        wire_to_internal(754, State::Status, Direction::Clientbound, 0x55),
        Err(Error::UnknownPacket { wire_id: 0x55 })
    );
    // The legacy plugin-message shape exists only before protocol 47.
    assert_eq!(
        internal_to_wire(754, State::Play, Direction::Serverbound, PLUGIN_MESSAGE_SERVERBOUND_I16),
        Err(Error::UnknownPacket {
            wire_id: PLUGIN_MESSAGE_SERVERBOUND_I16
        })
    );
}

#[test]
fn plugin_message_wire_id_depends_on_version() {
    let old = internal_to_wire(340, State::Play, Direction::Serverbound, PLUGIN_MESSAGE_SERVERBOUND)
        .unwrap();
    let new = internal_to_wire(754, State::Play, Direction::Serverbound, PLUGIN_MESSAGE_SERVERBOUND)
        .unwrap();
    assert_eq!(old, 0x09);
    assert_eq!(new, 0x0B);
}

#[test]
fn handshake_packet_round_trip() {
    // End-to-end scenario: a handshake with protocol 754, host
    // "example.com", port 25565, next state 1, serialized then deserialized
    // with the matching schema.
    let packet = Packet {
        internal_id: HANDSHAKE,
        fields: vec![
            FieldValue::VInt(VarInt(754)),
            FieldValue::Str("example.com".to_string()),
            FieldValue::U16(25565),
            FieldValue::VInt(VarInt(1)),
        ],
    };
    let mut body = Vec::new();
    encode_packet(&packet, 754, State::Handshaking, Direction::Serverbound, &mut body).unwrap();
    assert_eq!(body[0], 0x00, "handshake wire id");
    let mut r = Reader::new(body[1..].to_vec());
    let back = decode_packet(754, State::Handshaking, Direction::Serverbound, 0x00, &mut r)
        .unwrap()
        .expect("handshake shape must be known");
    assert_eq!(back.internal_id, HANDSHAKE);
    assert_eq!(back.fields, packet.fields);
    assert_eq!(r.remaining_len(), 0);
}

#[test]
fn decode_unknown_wire_id_gives_none() {
    let mut r = Reader::new(vec![1, 2, 3]);
    let res = decode_packet(754, State::Handshaking, Direction::Serverbound, 0x42, &mut r).unwrap();
    assert!(res.is_none());
}

#[test]
fn status_ping_round_trip() {
    let packet = Packet {
        internal_id: STATUS_PING,
        fields: vec![FieldValue::I64(42)],
    };
    let mut body = Vec::new();
    encode_packet(&packet, 754, State::Status, Direction::Serverbound, &mut body).unwrap();
    assert_eq!(body[0], 0x01);
    let mut r = Reader::new(body[1..].to_vec());
    let back = decode_packet(754, State::Status, Direction::Serverbound, 0x01, &mut r)
        .unwrap()
        .unwrap();
    assert_eq!(back.fields, vec![FieldValue::I64(42)]);
}

#[test]
fn conditional_field_skipped_takes_default() {
    // A field present only when a prior boolean is true: with the flag
    // false it consumes no bytes and decodes to its default.
    let descs = vec![
        PacketField {
            ty: FieldType::Bool,
            when: Presence::Always,
        },
        PacketField {
            ty: FieldType::U16,
            when: Presence::IfBool(0),
        },
    ];
    let mut r = Reader::new(vec![0x00]);
    let vals = decode_fields(&descs, 754, &mut r).unwrap();
    assert_eq!(vals, vec![FieldValue::Bool(false), FieldValue::U16(0)]);
    assert_eq!(r.remaining_len(), 0);

    let mut r2 = Reader::new(vec![0x01, 0x12, 0x34]);
    let vals2 = decode_fields(&descs, 754, &mut r2).unwrap();
    assert_eq!(vals2, vec![FieldValue::Bool(true), FieldValue::U16(0x1234)]);
}

#[test]
fn conditional_field_on_varint_value() {
    let descs = vec![
        PacketField {
            ty: FieldType::VarInt,
            when: Presence::Always,
        },
        PacketField {
            ty: FieldType::U16,
            when: Presence::IfVarIntEq(0, 7),
        },
    ];
    let mut r = Reader::new(vec![0x07, 0xab, 0xcd]);
    let vals = decode_fields(&descs, 754, &mut r).unwrap();
    assert_eq!(
        vals,
        vec![FieldValue::VInt(VarInt(7)), FieldValue::U16(0xabcd)]
    );
}

#[test]
fn shape_catalog_has_declared_packets() {
    assert!(shape_fields(State::Handshaking, Direction::Serverbound, HANDSHAKE).is_some());
    assert!(shape_fields(State::Status, Direction::Serverbound, STATUS_PING).is_some());
    assert!(shape_fields(State::Play, Direction::Serverbound, PLUGIN_MESSAGE_SERVERBOUND).is_some());
    assert!(shape_fields(State::Handshaking, Direction::Serverbound, 99).is_none());
}

#[test]
fn encode_unknown_internal_id_fails() {
    let packet = Packet {
        internal_id: 99,
        fields: vec![],
    };
    let mut body = Vec::new();
    assert_eq!(
        encode_packet(&packet, 754, State::Handshaking, Direction::Serverbound, &mut body),
        Err(Error::UnknownPacket { wire_id: 99 })
    );
}
