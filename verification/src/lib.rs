//! A multi-version binary network protocol engine for game-server clients.
//!
//! The library frames and deframes messages over a byte stream, applies
//! optional compression and encryption, encodes and decodes variable-length
//! integers and structured packets, and remaps packet identifiers across
//! protocol versions. All byte-level codecs are specified over `Seq<u8>`
//! models and verified against those specifications.

pub mod conn;
pub mod error;
pub mod packet;
pub mod position;
pub mod prefixed;
pub mod reader;
pub mod serialize;
pub mod status;
pub mod strings;
pub mod uuid;
pub mod varint;
pub mod versions;

pub use conn::is_ipv4_literal;
pub use conn::read_raw_packet_from;
pub use conn::try_parse_packet;
pub use conn::Conn;
pub use conn::StreamCipher;
pub use conn::MAX_FRAME_LEN;
pub use error::Error;
pub use packet::FieldType;
pub use packet::FieldValue;
pub use packet::PacketField;
pub use packet::decode_fields;
pub use packet::decode_packet;
pub use packet::encode_packet;
pub use packet::field_default;
pub use packet::id_table;
pub use packet::internal_to_wire;
pub use packet::shape_fields;
pub use packet::wire_to_internal;
pub use packet::write_fields;
pub use packet::IdMapping;
pub use packet::Packet;
pub use packet::Presence;
pub use packet::HANDSHAKE;
pub use packet::LOGIN_DISCONNECT;
pub use packet::LOGIN_PLUGIN_RESPONSE;
pub use packet::PLUGIN_MESSAGE_SERVERBOUND;
pub use packet::PLUGIN_MESSAGE_SERVERBOUND_I16;
pub use packet::STATUS_PING;
pub use packet::STATUS_PONG;
pub use packet::STATUS_REQUEST;
pub use packet::STATUS_RESPONSE;
pub use position::Position;
pub use prefixed::Biomes3D;
pub use prefixed::FixedPoint12;
pub use prefixed::FixedPoint5;
pub use prefixed::LenPrefixed;
pub use prefixed::LenPrefixedBytes;
pub use prefixed::Lengthable;
pub use reader::Reader;
pub use serialize::read_document_tag;
pub use serialize::write_tagged_document;
pub use serialize::LosslessCodec;
pub use status::remote_disconnect_error;
pub use status::expect_status_pong;
pub use status::expect_status_response;
pub use status::parse_status;
pub use status::ping_duration;
pub use status::status_ping_packet;
pub use status::status_request_packet;
pub use status::ForgeMod;
pub use status::Status;
pub use status::StatusPlayer;
pub use status::StatusPlayers;
pub use status::StatusVersion;
pub use serialize::Serializable;
pub use uuid::UUID;
pub use uuid::UUIDParseError;
pub use varint::VarInt;
pub use varint::VarLong;
pub use varint::VarShort;
pub use versions::check_protocol_supported;
pub use versions::default_protocol_version;
pub use versions::supported_protocols;
pub use versions::Version;

use vstd::prelude::*;

verus! {

/// Direction is used to define whether packets are going to the
/// server or the client.
#[derive(Clone, Copy, Debug, PartialEq, Eq, Structural)]
pub enum Direction {
    Serverbound,
    Clientbound,
}

/// The protocol has multiple 'sub-protocols' or states which control which
/// packet an id points to.
#[derive(Clone, Copy, Debug, PartialEq, Eq, Structural)]
pub enum State {
    Handshaking,
    Play,
    Status,
    Login,
}

} // verus!
