//! A packed three-dimensional integer coordinate, encoded into a single
//! 64-bit big-endian word. The bit layout changed at the V1_14 boundary (the
//! 12-bit Y field moved from the middle to the low bits), so this is the one
//! wire structure whose codec takes the protocol version as an explicit
//! parameter.

use vstd::prelude::*;

use crate::error::Error;
use crate::reader::Reader;
use crate::serialize::be_u64;
use crate::serialize::read_u64_be;
use crate::serialize::u32_of_i32;
use crate::serialize::u64_from_be_8;
use crate::serialize::write_u64_be;
use crate::versions::spec_version_from_id;
use crate::versions::spec_version_index;
use crate::versions::Version;

verus! {

/// A three-dimensional integer coordinate. X and Z carry 26 significant
/// bits on the wire, Y carries 12; coordinates outside those ranges wrap.
#[derive(Clone, Copy, Debug, PartialEq, Eq, Structural, Hash)]
pub struct Position {
    /// The east-west coordinate.
    pub x: i32,
    /// The vertical coordinate.
    pub y: i32,
    /// The north-south coordinate.
    pub z: i32,
}

impl Position {
    /// A coordinate from its three components.
    pub fn new(x: i32, y: i32, z: i32) -> (r: Position)
        ensures
            r == (Position { x, y, z }),
    {
        Position { x, y, z }
    }
}

/// The packed word in the layout used before V1_14: X in bits 38..64,
/// Y in bits 26..38, Z in bits 0..26.
pub open spec fn pack_pre_bits(x: i32, y: i32, z: i32) -> u64 {
    (((x as u64) & 0x3FFFFFF) << 38) | (((y as u64) & 0xFFF) << 26) | ((z as u64) & 0x3FFFFFF)
}

/// The packed word in the layout used from V1_14 on: X in bits 38..64,
/// Z in bits 12..38, Y in bits 0..12.
pub open spec fn pack_post_bits(x: i32, y: i32, z: i32) -> u64 {
    (((x as u64) & 0x3FFFFFF) << 38) | ((y as u64) & 0xFFF) | (((z as u64) & 0x3FFFFFF) << 12)
}

/// The X field of a packed word: the top 26 bits, sign-extended.
pub open spec fn unpack_x(p: u64) -> i32 {
    (((p as i64)) >> 38) as i32
}

/// The Y field in the pre-V1_14 layout: bits 26..38, zero-extended.
pub open spec fn unpack_y_pre(p: u64) -> i32 {
    (((p as i64) >> 26) & 0xFFF) as i32
}

/// The Z field in the pre-V1_14 layout: the low 26 bits, sign-extended.
pub open spec fn unpack_z_pre(p: u64) -> i32 {
    (((p as i64) << 38) >> 38) as i32
}

/// The Y field in the post-V1_14 layout: the low 12 bits, sign-extended.
pub open spec fn unpack_y_post(p: u64) -> i32 {
    (((p as i64) << 52) >> 52) as i32
}

/// The Z field in the post-V1_14 layout: bits 12..38, sign-extended.
pub open spec fn unpack_z_post(p: u64) -> i32 {
    (((p as i64) << 26) >> 38) as i32
}

/// Whether a numeric protocol version uses the pre-V1_14 bit layout.
pub open spec fn spec_uses_pre_v1_14_layout(protocol_version: i32) -> bool {
    spec_version_index(spec_version_from_id(u32_of_i32(protocol_version))) < spec_version_index(
        Version::V1_14,
    )
}

/// Whether a numeric protocol version uses the pre-V1_14 bit layout.
pub fn uses_pre_v1_14_layout(protocol_version: i32) -> (r: bool)
    ensures
        r == spec_uses_pre_v1_14_layout(protocol_version),
{
    let pv: u32 = if protocol_version >= 0 {
        protocol_version as u32
    } else {
        (protocol_version as i64 + 0x100000000) as u32
    };
    let v = Version::from_id(pv);
    let boundary = Version::V1_14;
    v.index() < boundary.index()
}

/// The packed word of a coordinate at a protocol version.
pub open spec fn position_packed(protocol_version: i32, p: Position) -> u64 {
    if spec_uses_pre_v1_14_layout(protocol_version) {
        pack_pre_bits(p.x, p.y, p.z)
    } else {
        pack_post_bits(p.x, p.y, p.z)
    }
}

/// The coordinate a packed word unpacks to at a protocol version.
pub open spec fn position_unpacked(protocol_version: i32, w: u64) -> Position {
    if spec_uses_pre_v1_14_layout(protocol_version) {
        Position { x: unpack_x(w), y: unpack_y_pre(w), z: unpack_z_pre(w) }
    } else {
        Position { x: unpack_x(w), y: unpack_y_post(w), z: unpack_z_post(w) }
    }
}

/// The wire bytes of a coordinate at a protocol version: its packed word,
/// big-endian.
pub open spec fn position_encoding(protocol_version: i32, p: Position) -> Seq<u8> {
    be_u64(position_packed(protocol_version, p))
}

/// What a stream decodes to as a coordinate at a protocol version.
pub open spec fn position_decoded(protocol_version: i32, s: Seq<u8>) -> Option<(Position, int)> {
    if s.len() >= 8 {
        Some((position_unpacked(protocol_version, u64_from_be_8(s[0], s[1], s[2], s[3], s[4], s[5], s[6], s[7])), 8))
    } else {
        None
    }
}

impl Position {
    /// Reads a packed coordinate in the layout of the given protocol
    /// version.
    pub fn read_from(r: &mut Reader, protocol_version: i32) -> (res: Result<Position, Error>)
        requires
            old(r).wf(),
        ensures
            final(r).wf(),
            final(r).data_seq() == old(r).data_seq(),
            final(r).position() >= old(r).position(),
            match position_decoded(protocol_version, old(r).remaining_bytes()) {
                Some((p, n)) => res == Ok::<Position, Error>(p) && final(r).position() == old(
                    r,
                ).position() + n,
                None => res == Err::<Position, Error>(Error::FieldDecodeFailure),
            },
    {
        let ghost s = old(r).remaining_bytes();
        let w = match read_u64_be(r) {
            Ok(w) => w,
            Err(_) => {
                return Err(Error::FieldDecodeFailure);
            },
        };
        proof {
            if s.len() >= 8 {
                crate::serialize::lemma_be_u64_unique(w, s[0], s[1], s[2], s[3], s[4], s[5], s[6], s[7]);
            }
        }
        if uses_pre_v1_14_layout(protocol_version) {
            Ok(
                Position {
                    x: ((w as i64) >> 38) as i32,
                    y: (((w as i64) >> 26) & 0xFFF) as i32,
                    z: (((w as i64) << 38) >> 38) as i32,
                },
            )
        } else {
            Ok(
                Position {
                    x: ((w as i64) >> 38) as i32,
                    y: (((w as i64) << 52) >> 52) as i32,
                    z: (((w as i64) << 26) >> 38) as i32,
                },
            )
        }
    }

    /// Writes this coordinate packed in the layout of the given protocol
    /// version. Packing never fails; out-of-range components wrap into
    /// their fields.
    pub fn write_to(&self, w: &mut Vec<u8>, protocol_version: i32) -> (res: Result<(), Error>)
        ensures
            res is Ok,
            final(w)@ == old(w)@ + position_encoding(protocol_version, *self),
    {
        let word: u64 = if uses_pre_v1_14_layout(protocol_version) {
            (((self.x as u64) & 0x3FFFFFF) << 38) | (((self.y as u64) & 0xFFF) << 26) | ((
            self.z as u64) & 0x3FFFFFF)
        } else {
            (((self.x as u64) & 0x3FFFFFF) << 38) | ((self.y as u64) & 0xFFF) | (((
            self.z as u64) & 0x3FFFFFF) << 12)
        };
        write_u64_be(word, w);
        Ok(())
    }
}

/// Pre-V1_14 round trip: packing a coordinate whose components fit their
/// fields (with a non-negative Y, which that layout zero-extends) and
/// unpacking gives the coordinate back.
pub proof fn lemma_position_round_trip_pre(protocol_version: i32, p: Position, rest: Seq<u8>)
    requires
        spec_uses_pre_v1_14_layout(protocol_version),
        -0x2000000 <= p.x < 0x2000000,
        0 <= p.y < 0x1000,
        -0x2000000 <= p.z < 0x2000000,
    ensures
        position_decoded(protocol_version, position_encoding(protocol_version, p) + rest) == Some(
            (p, 8int),
        ),
{
    let x = p.x;
    let y = p.y;
    let z = p.z;
    let word = pack_pre_bits(x, y, z);
    assert(unpack_x(word) == x && unpack_y_pre(word) == y && unpack_z_pre(word) == z)
        by (bit_vector)
        requires
            word == pack_pre_bits(x, y, z),
            -0x2000000 <= x < 0x2000000,
            0 <= y < 0x1000,
            -0x2000000 <= z < 0x2000000,
    ;
    let all = position_encoding(protocol_version, p) + rest;
    assert(all.take(8) =~= be_u64(word));
    crate::serialize::lemma_be_u64_unique(
        word,
        all[0],
        all[1],
        all[2],
        all[3],
        all[4],
        all[5],
        all[6],
        all[7],
    );
    assert(be_u64(word)[0] == all[0] && be_u64(word)[1] == all[1] && be_u64(word)[2] == all[2]
        && be_u64(word)[3] == all[3] && be_u64(word)[4] == all[4] && be_u64(word)[5] == all[5]
        && be_u64(word)[6] == all[6] && be_u64(word)[7] == all[7]);
}

/// Post-V1_14 round trip: packing a coordinate whose components fit their
/// fields (Y sign-extended in this layout) and unpacking gives the
/// coordinate back.
pub proof fn lemma_position_round_trip_post(protocol_version: i32, p: Position, rest: Seq<u8>)
    requires
        !spec_uses_pre_v1_14_layout(protocol_version),
        -0x2000000 <= p.x < 0x2000000,
        -0x800 <= p.y < 0x800,
        -0x2000000 <= p.z < 0x2000000,
    ensures
        position_decoded(protocol_version, position_encoding(protocol_version, p) + rest) == Some(
            (p, 8int),
        ),
{
    let x = p.x;
    let y = p.y;
    let z = p.z;
    let word = pack_post_bits(x, y, z);
    assert(unpack_x(word) == x && unpack_y_post(word) == y && unpack_z_post(word) == z)
        by (bit_vector)
        requires
            word == pack_post_bits(x, y, z),
            -0x2000000 <= x < 0x2000000,
            -0x800 <= y < 0x800,
            -0x2000000 <= z < 0x2000000,
    ;
    let all = position_encoding(protocol_version, p) + rest;
    assert(all.take(8) =~= be_u64(word));
    crate::serialize::lemma_be_u64_unique(
        word,
        all[0],
        all[1],
        all[2],
        all[3],
        all[4],
        all[5],
        all[6],
        all[7],
    );
    assert(be_u64(word)[0] == all[0] && be_u64(word)[1] == all[1] && be_u64(word)[2] == all[2]
        && be_u64(word)[3] == all[3] && be_u64(word)[4] == all[4] && be_u64(word)[5] == all[5]
        && be_u64(word)[6] == all[6] && be_u64(word)[7] == all[7]);
}

/// The two layouts really differ: a coordinate with a non-zero Y and a zero
/// Z packs to different words in the two layouts.
pub proof fn lemma_position_layouts_differ(p: Position)
    requires
        0 < p.y < 0x1000,
        p.z == 0,
    ensures
        pack_pre_bits(p.x, p.y, p.z) != pack_post_bits(p.x, p.y, p.z),
{
    let x = p.x;
    let y = p.y;
    assert(pack_pre_bits(x, y, 0i32) != pack_post_bits(x, y, 0i32)) by (bit_vector)
        requires
            0 < y < 0x1000,
    ;
}

} // verus!
