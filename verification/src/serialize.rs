//! The primitive codec: every wire type exposes `read_from` and `write_to`,
//! specified against a byte-sequence model. Numeric types use big-endian
//! fixed width; the variable-width encodings live in the varint module.

use vstd::prelude::*;

use crate::error::Error;
use crate::reader::Reader;

verus! {

/// A wire type: a value that can be written to and read from a byte stream.
///
/// `decoded(s)` is the prefix-decode relation of the type: the (deep) value
/// encoded at the front of `s` together with the number of bytes it
/// occupies, or `None` when no well-formed value starts `s`. `encoding` is
/// the exact byte string `write_to` appends, defined whenever `encodable`
/// holds.
pub trait Serializable: Sized + DeepView {
    /// Whether this value can be written at all.
    spec fn encodable(&self) -> bool;

    /// The bytes `write_to` appends on success.
    spec fn encoding(&self) -> Seq<u8>;

    /// Prefix decode: the decoded value (as its deep view) and the number of
    /// bytes consumed, or `None` when the prefix of `s` is not a well-formed
    /// encoding.
    spec fn decoded(s: Seq<u8>) -> Option<(Self::V, int)>;

    /// A successful decode consumes between zero and all of the input.
    proof fn lemma_decoded_len(s: Seq<u8>)
        ensures
            Self::decoded(s) matches Some((v, n)) ==> 0 <= n <= s.len(),
    ;

    /// Reads one value from the front of the reader, consuming exactly the
    /// bytes of its encoding, or fails without touching the buffer contents.
    fn read_from(r: &mut Reader) -> (res: Result<Self, Error>)
        requires
            old(r).wf(),
        ensures
            final(r).wf(),
            final(r).data_seq() == old(r).data_seq(),
            final(r).position() >= old(r).position(),
            match Self::decoded(old(r).remaining_bytes()) {
                Some((v, n)) => res matches Ok(x) && x.deep_view() == v && final(r).position()
                    == old(r).position() + n,
                None => res matches Err(e) && e.is_decode_error(),
            },
    ;

    /// Appends the value's encoding to `w`; on failure a prefix of the
    /// encoding may have been appended.
    fn write_to(&self, w: &mut Vec<u8>) -> (res: Result<(), Error>)
        ensures
            self.encodable() ==> res is Ok && final(w)@ == old(w)@ + self.encoding(),
            !self.encodable() ==> res is Err,
    ;
}

/// A wire type whose decode inverts its encode even when further bytes
/// follow: decoding `encoding(v) + rest` yields `v` back and consumes
/// exactly `encoding(v)`. The generic optional wrapper and the read-to-end
/// byte blob deliberately do not satisfy this.
pub trait LosslessCodec: Serializable {
    /// Round trip: what `write_to` produced, `read_from` decodes back,
    /// whatever bytes follow.
    proof fn lemma_round_trip(v: Self, rest: Seq<u8>)
        requires
            v.encodable(),
        ensures
            Self::decoded(v.encoding() + rest) == Some(
                (v.deep_view(), v.encoding().len() as int),
            ),
    ;
}

/// Big-endian bytes of a 16-bit value.
pub open spec fn be_u16(v: u16) -> Seq<u8> {
    seq![(v / 0x100) as u8, (v % 0x100) as u8]
}

/// The 16-bit value of two big-endian bytes.
pub open spec fn u16_from_be(b0: u8, b1: u8) -> u16 {
    (b0 * 0x100 + b1) as u16
}

/// Big-endian bytes of a 32-bit value.
pub open spec fn be_u32(v: u32) -> Seq<u8> {
    seq![
        (v / 0x1000000) as u8,
        ((v / 0x10000) % 0x100) as u8,
        ((v / 0x100) % 0x100) as u8,
        (v % 0x100) as u8,
    ]
}

/// Big-endian bytes of a 64-bit value.
pub open spec fn be_u64(v: u64) -> Seq<u8> {
    seq![
        (v / 0x100000000000000) as u8,
        ((v / 0x1000000000000) % 0x100) as u8,
        ((v / 0x10000000000) % 0x100) as u8,
        ((v / 0x100000000) % 0x100) as u8,
        ((v / 0x1000000) % 0x100) as u8,
        ((v / 0x10000) % 0x100) as u8,
        ((v / 0x100) % 0x100) as u8,
        (v % 0x100) as u8,
    ]
}

/// The unsigned 16-bit reinterpretation of a signed 16-bit value.
pub open spec fn u16_of_i16(x: i16) -> u16 {
    if x < 0 {
        (x + 0x10000) as u16
    } else {
        x as u16
    }
}

/// The signed 16-bit reinterpretation of an unsigned 16-bit value.
pub open spec fn i16_of_u16(u: u16) -> i16 {
    if u >= 0x8000 {
        (u - 0x10000) as i16
    } else {
        u as i16
    }
}

/// The unsigned 32-bit reinterpretation of a signed 32-bit value.
pub open spec fn u32_of_i32(x: i32) -> u32 {
    if x < 0 {
        (x + 0x100000000) as u32
    } else {
        x as u32
    }
}

/// The signed 32-bit reinterpretation of an unsigned 32-bit value.
pub open spec fn i32_of_u32(u: u32) -> i32 {
    if u >= 0x80000000 {
        (u - 0x100000000) as i32
    } else {
        u as i32
    }
}

/// The unsigned 64-bit reinterpretation of a signed 64-bit value.
pub open spec fn u64_of_i64(x: i64) -> u64 {
    if x < 0 {
        (x + 0x10000000000000000) as u64
    } else {
        x as u64
    }
}

/// The signed 64-bit reinterpretation of an unsigned 64-bit value.
pub open spec fn i64_of_u64(u: u64) -> i64 {
    if u >= 0x8000000000000000 {
        (u - 0x10000000000000000) as i64
    } else {
        u as i64
    }
}

/// The unsigned 8-bit reinterpretation of a signed 8-bit value.
pub open spec fn u8_of_i8(x: i8) -> u8 {
    if x < 0 {
        (x + 0x100) as u8
    } else {
        x as u8
    }
}

/// The signed 8-bit reinterpretation of an unsigned 8-bit value.
pub open spec fn i8_of_u8(u: u8) -> i8 {
    if u >= 0x80 {
        (u - 0x100) as i8
    } else {
        u as i8
    }
}

/// Reads two bytes and assembles them big-endian.
pub fn read_u16_be(r: &mut Reader) -> (res: Result<u16, Error>)
    requires
        old(r).wf(),
    ensures
        final(r).wf(),
        final(r).data_seq() == old(r).data_seq(),
        final(r).position() >= old(r).position(),
        old(r).remaining_bytes().len() >= 2 ==> res == Ok::<u16, Error>(
            u16_from_be(old(r).remaining_bytes()[0], old(r).remaining_bytes()[1]),
        ) && final(r).position() == old(r).position() + 2,
        old(r).remaining_bytes().len() < 2 ==> res == Err::<u16, Error>(Error::FieldDecodeFailure),
{
    let b0 = match r.read_u8() {
        Some(b) => b,
        None => {
            return Err(Error::FieldDecodeFailure);
        },
    };
    let b1 = match r.read_u8() {
        Some(b) => b,
        None => {
            return Err(Error::FieldDecodeFailure);
        },
    };
    Ok((b0 as u16) * 0x100 + (b1 as u16))
}

/// Reads eight bytes and assembles them big-endian.
pub fn read_u64_be(r: &mut Reader) -> (res: Result<u64, Error>)
    requires
        old(r).wf(),
    ensures
        final(r).wf(),
        final(r).data_seq() == old(r).data_seq(),
        final(r).position() >= old(r).position(),
        old(r).remaining_bytes().len() >= 8 ==> (res matches Ok(v) && be_u64(v) == old(
            r,
        ).remaining_bytes().take(8) && final(r).position() == old(r).position() + 8),
        old(r).remaining_bytes().len() < 8 ==> res == Err::<u64, Error>(Error::FieldDecodeFailure),
{
    let ghost s = old(r).remaining_bytes();
    let bytes = match r.read_exact(8) {
        Some(v) => v,
        None => {
            return Err(Error::FieldDecodeFailure);
        },
    };
    let v: u64 = (bytes[0] as u64) * 0x100000000000000 + (bytes[1] as u64) * 0x1000000000000 + (
    bytes[2] as u64) * 0x10000000000 + (bytes[3] as u64) * 0x100000000 + (bytes[4] as u64)
        * 0x1000000 + (bytes[5] as u64) * 0x10000 + (bytes[6] as u64) * 0x100 + (bytes[7] as u64);
    proof {
        lemma_be_u64_reassemble(v, s[0], s[1], s[2], s[3], s[4], s[5], s[6], s[7]);
        assert(be_u64(v) =~= s.take(8));
    }
    Ok(v)
}

/// Reassembling eight big-endian bytes and re-serializing gives the bytes
/// back.
proof fn lemma_be_u64_reassemble(v: u64, b0: u8, b1: u8, b2: u8, b3: u8, b4: u8, b5: u8, b6: u8, b7: u8)
    requires
        v == (b0 as u64) * 0x100000000000000 + (b1 as u64) * 0x1000000000000 + (b2 as u64)
            * 0x10000000000 + (b3 as u64) * 0x100000000 + (b4 as u64) * 0x1000000 + (b5 as u64)
            * 0x10000 + (b6 as u64) * 0x100 + (b7 as u64),
    ensures
        be_u64(v) == seq![b0, b1, b2, b3, b4, b5, b6, b7],
{
    assert(v / 0x100000000000000 == b0 && (v / 0x1000000000000) % 0x100 == b1 && (v
        / 0x10000000000) % 0x100 == b2 && (v / 0x100000000) % 0x100 == b3 && (v / 0x1000000)
        % 0x100 == b4 && (v / 0x10000) % 0x100 == b5 && (v / 0x100) % 0x100 == b6 && v % 0x100
        == b7) by (bit_vector)
        requires
            v == (b0 as u64) * 0x100000000000000 + (b1 as u64) * 0x1000000000000 + (b2 as u64)
                * 0x10000000000 + (b3 as u64) * 0x100000000 + (b4 as u64) * 0x1000000 + (
            b5 as u64) * 0x10000 + (b6 as u64) * 0x100 + (b7 as u64),
    ;
    assert(be_u64(v) =~= seq![b0, b1, b2, b3, b4, b5, b6, b7]);
}

/// Writes a 16-bit value as two big-endian bytes.
pub fn write_u16_be(v: u16, w: &mut Vec<u8>)
    ensures
        final(w)@ == old(w)@ + be_u16(v),
{
    w.push((v / 0x100) as u8);
    w.push((v % 0x100) as u8);
    assert(w@ =~= old(w)@ + be_u16(v));
}

/// Writes a 64-bit value as eight big-endian bytes.
pub fn write_u64_be(v: u64, w: &mut Vec<u8>)
    ensures
        final(w)@ == old(w)@ + be_u64(v),
{
    w.push((v / 0x100000000000000) as u8);
    w.push(((v / 0x1000000000000) % 0x100) as u8);
    w.push(((v / 0x10000000000) % 0x100) as u8);
    w.push(((v / 0x100000000) % 0x100) as u8);
    w.push(((v / 0x1000000) % 0x100) as u8);
    w.push(((v / 0x10000) % 0x100) as u8);
    w.push(((v / 0x100) % 0x100) as u8);
    w.push((v % 0x100) as u8);
    assert(w@ =~= old(w)@ + be_u64(v));
}


/// Reads four bytes and assembles them big-endian.
pub fn read_u32_be(r: &mut Reader) -> (res: Result<u32, Error>)
    requires
        old(r).wf(),
    ensures
        final(r).wf(),
        final(r).data_seq() == old(r).data_seq(),
        final(r).position() >= old(r).position(),
        old(r).remaining_bytes().len() >= 4 ==> (res matches Ok(v) && be_u32(v) == old(
            r,
        ).remaining_bytes().take(4) && final(r).position() == old(r).position() + 4),
        old(r).remaining_bytes().len() < 4 ==> res == Err::<u32, Error>(Error::FieldDecodeFailure),
{
    let ghost s = old(r).remaining_bytes();
    let bytes = match r.read_exact(4) {
        Some(v) => v,
        None => {
            return Err(Error::FieldDecodeFailure);
        },
    };
    let v: u32 = (bytes[0] as u32) * 0x1000000 + (bytes[1] as u32) * 0x10000 + (bytes[2] as u32)
        * 0x100 + (bytes[3] as u32);
    proof {
        lemma_be_u32_reassemble(v, s[0], s[1], s[2], s[3]);
        assert(be_u32(v) =~= s.take(4));
    }
    Ok(v)
}

/// Reassembling four big-endian bytes and re-serializing gives the bytes
/// back.
proof fn lemma_be_u32_reassemble(v: u32, b0: u8, b1: u8, b2: u8, b3: u8)
    requires
        v == (b0 as u32) * 0x1000000 + (b1 as u32) * 0x10000 + (b2 as u32) * 0x100 + (b3 as u32),
    ensures
        be_u32(v) == seq![b0, b1, b2, b3],
{
    assert(v / 0x1000000 == b0 && (v / 0x10000) % 0x100 == b1 && (v / 0x100) % 0x100 == b2 && v
        % 0x100 == b3) by (bit_vector)
        requires
            v == (b0 as u32) * 0x1000000 + (b1 as u32) * 0x10000 + (b2 as u32) * 0x100 + (
            b3 as u32),
    ;
    assert(be_u32(v) =~= seq![b0, b1, b2, b3]);
}

/// Writes a 32-bit value as four big-endian bytes.
pub fn write_u32_be(v: u32, w: &mut Vec<u8>)
    ensures
        final(w)@ == old(w)@ + be_u32(v),
{
    w.push((v / 0x1000000) as u8);
    w.push(((v / 0x10000) % 0x100) as u8);
    w.push(((v / 0x100) % 0x100) as u8);
    w.push((v % 0x100) as u8);
    assert(w@ =~= old(w)@ + be_u32(v));
}

impl Serializable for bool {
    open spec fn encodable(&self) -> bool {
        true
    }

    open spec fn encoding(&self) -> Seq<u8> {
        seq![if *self { 1u8 } else { 0u8 }]
    }

    open spec fn decoded(s: Seq<u8>) -> Option<(bool, int)> {
        if s.len() >= 1 {
            Some((s[0] != 0, 1))
        } else {
            None
        }
    }

    proof fn lemma_decoded_len(s: Seq<u8>) {
    }

    fn read_from(r: &mut Reader) -> (res: Result<bool, Error>) {
        match r.read_u8() {
            Some(b) => Ok(b != 0),
            None => Err(Error::FieldDecodeFailure),
        }
    }

    fn write_to(&self, w: &mut Vec<u8>) -> (res: Result<(), Error>) {
        w.push(if *self { 1 } else { 0 });
        proof {
            assert(w@ =~= old(w)@ + self.encoding());
        }
        Ok(())
    }
}

impl LosslessCodec for bool {
    proof fn lemma_round_trip(v: bool, rest: Seq<u8>) {
        assert((v.encoding() + rest)[0] == if v { 1u8 } else { 0u8 });
    }
}

impl Serializable for u8 {
    open spec fn encodable(&self) -> bool {
        true
    }

    open spec fn encoding(&self) -> Seq<u8> {
        seq![*self]
    }

    open spec fn decoded(s: Seq<u8>) -> Option<(u8, int)> {
        if s.len() >= 1 {
            Some((s[0], 1))
        } else {
            None
        }
    }

    proof fn lemma_decoded_len(s: Seq<u8>) {
    }

    fn read_from(r: &mut Reader) -> (res: Result<u8, Error>) {
        match r.read_u8() {
            Some(b) => Ok(b),
            None => Err(Error::FieldDecodeFailure),
        }
    }

    fn write_to(&self, w: &mut Vec<u8>) -> (res: Result<(), Error>) {
        w.push(*self);
        proof {
            assert(w@ =~= old(w)@ + self.encoding());
        }
        Ok(())
    }
}

impl LosslessCodec for u8 {
    proof fn lemma_round_trip(v: u8, rest: Seq<u8>) {
        assert((v.encoding() + rest)[0] == v);
    }
}

impl Serializable for i8 {
    open spec fn encodable(&self) -> bool {
        true
    }

    open spec fn encoding(&self) -> Seq<u8> {
        seq![u8_of_i8(*self)]
    }

    open spec fn decoded(s: Seq<u8>) -> Option<(i8, int)> {
        if s.len() >= 1 {
            Some((i8_of_u8(s[0]), 1))
        } else {
            None
        }
    }

    proof fn lemma_decoded_len(s: Seq<u8>) {
    }

    fn read_from(r: &mut Reader) -> (res: Result<i8, Error>) {
        match r.read_u8() {
            Some(b) => if b >= 0x80 {
                Ok((b as i16 - 0x100) as i8)
            } else {
                Ok(b as i8)
            },
            None => Err(Error::FieldDecodeFailure),
        }
    }

    fn write_to(&self, w: &mut Vec<u8>) -> (res: Result<(), Error>) {
        let b: u8 = if *self < 0 {
            (*self as i16 + 0x100) as u8
        } else {
            *self as u8
        };
        w.push(b);
        proof {
            assert(w@ =~= old(w)@ + self.encoding());
        }
        Ok(())
    }
}

impl LosslessCodec for i8 {
    proof fn lemma_round_trip(v: i8, rest: Seq<u8>) {
        assert((v.encoding() + rest)[0] == u8_of_i8(v));
    }
}

impl Serializable for u16 {
    open spec fn encodable(&self) -> bool {
        true
    }

    open spec fn encoding(&self) -> Seq<u8> {
        be_u16(*self)
    }

    open spec fn decoded(s: Seq<u8>) -> Option<(u16, int)> {
        if s.len() >= 2 {
            Some((u16_from_be(s[0], s[1]), 2))
        } else {
            None
        }
    }

    proof fn lemma_decoded_len(s: Seq<u8>) {
    }

    fn read_from(r: &mut Reader) -> (res: Result<u16, Error>) {
        read_u16_be(r)
    }

    fn write_to(&self, w: &mut Vec<u8>) -> (res: Result<(), Error>) {
        write_u16_be(*self, w);
        Ok(())
    }
}

impl LosslessCodec for u16 {
    proof fn lemma_round_trip(v: u16, rest: Seq<u8>) {
        let s = v.encoding() + rest;
        assert(u16_from_be(s[0], s[1]) == v) by {
            vstd::arithmetic::div_mod::lemma_fundamental_div_mod(v as int, 0x100);
        }
    }
}

impl Serializable for i16 {
    open spec fn encodable(&self) -> bool {
        true
    }

    open spec fn encoding(&self) -> Seq<u8> {
        be_u16(u16_of_i16(*self))
    }

    open spec fn decoded(s: Seq<u8>) -> Option<(i16, int)> {
        if s.len() >= 2 {
            Some((i16_of_u16(u16_from_be(s[0], s[1])), 2))
        } else {
            None
        }
    }

    proof fn lemma_decoded_len(s: Seq<u8>) {
    }

    fn read_from(r: &mut Reader) -> (res: Result<i16, Error>) {
        let u = match read_u16_be(r) {
            Ok(u) => u,
            Err(e) => {
                return Err(e);
            },
        };
        if u >= 0x8000 {
            Ok((u as i32 - 0x10000) as i16)
        } else {
            Ok(u as i16)
        }
    }

    fn write_to(&self, w: &mut Vec<u8>) -> (res: Result<(), Error>) {
        let u: u16 = if *self < 0 {
            (*self as i32 + 0x10000) as u16
        } else {
            *self as u16
        };
        write_u16_be(u, w);
        Ok(())
    }
}

impl LosslessCodec for i16 {
    proof fn lemma_round_trip(v: i16, rest: Seq<u8>) {
        let u = u16_of_i16(v);
        let s = v.encoding() + rest;
        assert(u16_from_be(s[0], s[1]) == u) by {
            vstd::arithmetic::div_mod::lemma_fundamental_div_mod(u as int, 0x100);
        }
    }
}

impl Serializable for i32 {
    open spec fn encodable(&self) -> bool {
        true
    }

    open spec fn encoding(&self) -> Seq<u8> {
        be_u32(u32_of_i32(*self))
    }

    open spec fn decoded(s: Seq<u8>) -> Option<(i32, int)> {
        if s.len() >= 4 {
            Some((i32_of_u32(u32_from_be_4(s[0], s[1], s[2], s[3])), 4))
        } else {
            None
        }
    }

    proof fn lemma_decoded_len(s: Seq<u8>) {
    }

    fn read_from(r: &mut Reader) -> (res: Result<i32, Error>) {
        let ghost s = old(r).remaining_bytes();
        let u = match read_u32_be(r) {
            Ok(u) => u,
            Err(e) => {
                return Err(e);
            },
        };
        proof {
            if s.len() >= 4 {
                lemma_be_u32_unique(u, s[0], s[1], s[2], s[3]);
            }
        }
        if u >= 0x80000000 {
            Ok((u as i64 - 0x100000000) as i32)
        } else {
            Ok(u as i32)
        }
    }

    fn write_to(&self, w: &mut Vec<u8>) -> (res: Result<(), Error>) {
        let u: u32 = if *self < 0 {
            (*self as i64 + 0x100000000) as u32
        } else {
            *self as u32
        };
        write_u32_be(u, w);
        Ok(())
    }
}

/// The 32-bit value of four big-endian bytes.
pub open spec fn u32_from_be_4(b0: u8, b1: u8, b2: u8, b3: u8) -> u32 {
    (b0 * 0x1000000 + b1 * 0x10000 + b2 * 0x100 + b3) as u32
}

/// A value whose big-endian bytes are known is the assembly of those bytes.
proof fn lemma_be_u32_unique(v: u32, b0: u8, b1: u8, b2: u8, b3: u8)
    requires
        be_u32(v) == seq![b0, b1, b2, b3],
    ensures
        v == u32_from_be_4(b0, b1, b2, b3),
{
    assert(be_u32(v)[0] == b0 && be_u32(v)[1] == b1 && be_u32(v)[2] == b2 && be_u32(v)[3] == b3);
    assert(v == (v / 0x1000000) * 0x1000000 + ((v / 0x10000) % 0x100) * 0x10000 + ((v / 0x100)
        % 0x100) * 0x100 + v % 0x100) by (bit_vector);
}

impl LosslessCodec for i32 {
    proof fn lemma_round_trip(v: i32, rest: Seq<u8>) {
        let u = u32_of_i32(v);
        let s = v.encoding() + rest;
        assert(s.take(4) =~= be_u32(u));
        lemma_be_u32_unique(u, s[0], s[1], s[2], s[3]);
        assert(be_u32(u)[0] == s[0] && be_u32(u)[1] == s[1] && be_u32(u)[2] == s[2] && be_u32(u)[3]
            == s[3]);
    }
}

/// The 64-bit value of eight big-endian bytes.
pub open spec fn u64_from_be_8(b0: u8, b1: u8, b2: u8, b3: u8, b4: u8, b5: u8, b6: u8, b7: u8) -> u64 {
    (b0 * 0x100000000000000 + b1 * 0x1000000000000 + b2 * 0x10000000000 + b3 * 0x100000000 + b4
        * 0x1000000 + b5 * 0x10000 + b6 * 0x100 + b7) as u64
}

/// A value whose big-endian bytes are known is the assembly of those bytes.
pub proof fn lemma_be_u64_unique(v: u64, b0: u8, b1: u8, b2: u8, b3: u8, b4: u8, b5: u8, b6: u8, b7: u8)
    requires
        be_u64(v) == seq![b0, b1, b2, b3, b4, b5, b6, b7],
    ensures
        v == u64_from_be_8(b0, b1, b2, b3, b4, b5, b6, b7),
{
    assert(be_u64(v)[0] == b0 && be_u64(v)[1] == b1 && be_u64(v)[2] == b2 && be_u64(v)[3] == b3
        && be_u64(v)[4] == b4 && be_u64(v)[5] == b5 && be_u64(v)[6] == b6 && be_u64(v)[7] == b7);
    assert(v == (v / 0x100000000000000) * 0x100000000000000 + ((v / 0x1000000000000) % 0x100)
        * 0x1000000000000 + ((v / 0x10000000000) % 0x100) * 0x10000000000 + ((v / 0x100000000)
        % 0x100) * 0x100000000 + ((v / 0x1000000) % 0x100) * 0x1000000 + ((v / 0x10000) % 0x100)
        * 0x10000 + ((v / 0x100) % 0x100) * 0x100 + v % 0x100) by (bit_vector);
}

impl Serializable for u64 {
    open spec fn encodable(&self) -> bool {
        true
    }

    open spec fn encoding(&self) -> Seq<u8> {
        be_u64(*self)
    }

    open spec fn decoded(s: Seq<u8>) -> Option<(u64, int)> {
        if s.len() >= 8 {
            Some((u64_from_be_8(s[0], s[1], s[2], s[3], s[4], s[5], s[6], s[7]), 8))
        } else {
            None
        }
    }

    proof fn lemma_decoded_len(s: Seq<u8>) {
    }

    fn read_from(r: &mut Reader) -> (res: Result<u64, Error>) {
        let ghost s = old(r).remaining_bytes();
        let u = match read_u64_be(r) {
            Ok(u) => u,
            Err(e) => {
                return Err(e);
            },
        };
        proof {
            if s.len() >= 8 {
                lemma_be_u64_unique(u, s[0], s[1], s[2], s[3], s[4], s[5], s[6], s[7]);
            }
        }
        Ok(u)
    }

    fn write_to(&self, w: &mut Vec<u8>) -> (res: Result<(), Error>) {
        write_u64_be(*self, w);
        Ok(())
    }
}

impl LosslessCodec for u64 {
    proof fn lemma_round_trip(v: u64, rest: Seq<u8>) {
        let s = v.encoding() + rest;
        assert(s.take(8) =~= be_u64(v));
        lemma_be_u64_unique(v, s[0], s[1], s[2], s[3], s[4], s[5], s[6], s[7]);
        assert(be_u64(v)[0] == s[0] && be_u64(v)[1] == s[1] && be_u64(v)[2] == s[2] && be_u64(v)[3]
            == s[3] && be_u64(v)[4] == s[4] && be_u64(v)[5] == s[5] && be_u64(v)[6] == s[6]
            && be_u64(v)[7] == s[7]);
    }
}

impl Serializable for i64 {
    open spec fn encodable(&self) -> bool {
        true
    }

    open spec fn encoding(&self) -> Seq<u8> {
        be_u64(u64_of_i64(*self))
    }

    open spec fn decoded(s: Seq<u8>) -> Option<(i64, int)> {
        if s.len() >= 8 {
            Some((i64_of_u64(u64_from_be_8(s[0], s[1], s[2], s[3], s[4], s[5], s[6], s[7])), 8))
        } else {
            None
        }
    }

    proof fn lemma_decoded_len(s: Seq<u8>) {
    }

    fn read_from(r: &mut Reader) -> (res: Result<i64, Error>) {
        let ghost s = old(r).remaining_bytes();
        let u = match read_u64_be(r) {
            Ok(u) => u,
            Err(e) => {
                return Err(e);
            },
        };
        proof {
            if s.len() >= 8 {
                lemma_be_u64_unique(u, s[0], s[1], s[2], s[3], s[4], s[5], s[6], s[7]);
            }
        }
        if u >= 0x8000000000000000 {
            Ok((u - 0x8000000000000000) as i64 + i64::MIN)
        } else {
            Ok(u as i64)
        }
    }

    fn write_to(&self, w: &mut Vec<u8>) -> (res: Result<(), Error>) {
        let u: u64 = if *self < 0 {
            ((*self - i64::MIN) as u64) + 0x8000000000000000
        } else {
            *self as u64
        };
        write_u64_be(u, w);
        Ok(())
    }
}

impl LosslessCodec for i64 {
    proof fn lemma_round_trip(v: i64, rest: Seq<u8>) {
        let u = u64_of_i64(v);
        let s = v.encoding() + rest;
        assert(s.take(8) =~= be_u64(u));
        lemma_be_u64_unique(u, s[0], s[1], s[2], s[3], s[4], s[5], s[6], s[7]);
        assert(be_u64(u)[0] == s[0] && be_u64(u)[1] == s[1] && be_u64(u)[2] == s[2] && be_u64(u)[3]
            == s[3] && be_u64(u)[4] == s[4] && be_u64(u)[5] == s[5] && be_u64(u)[6] == s[6]
            && be_u64(u)[7] == s[7]);
    }
}

impl Serializable for () {
    open spec fn encodable(&self) -> bool {
        true
    }

    open spec fn encoding(&self) -> Seq<u8> {
        Seq::empty()
    }

    open spec fn decoded(s: Seq<u8>) -> Option<((), int)> {
        Some(((), 0))
    }

    proof fn lemma_decoded_len(s: Seq<u8>) {
    }

    fn read_from(r: &mut Reader) -> (res: Result<(), Error>) {
        Ok(())
    }

    fn write_to(&self, w: &mut Vec<u8>) -> (res: Result<(), Error>) {
        proof {
            assert(w@ =~= old(w)@ + self.encoding());
        }
        Ok(())
    }
}

impl LosslessCodec for () {
    proof fn lemma_round_trip(v: (), rest: Seq<u8>) {
    }
}

impl Serializable for Vec<u8> {
    open spec fn encodable(&self) -> bool {
        true
    }

    open spec fn encoding(&self) -> Seq<u8> {
        self@
    }

    /// A raw byte blob has no framing of its own: reading takes everything
    /// to the end of the input.
    open spec fn decoded(s: Seq<u8>) -> Option<(Seq<u8>, int)> {
        Some((s, s.len() as int))
    }

    proof fn lemma_decoded_len(s: Seq<u8>) {
    }

    fn read_from(r: &mut Reader) -> (res: Result<Vec<u8>, Error>) {
        let v = r.read_to_end();
        proof {
            assert(v.deep_view() =~= v@);
        }
        Ok(v)
    }

    fn write_to(&self, w: &mut Vec<u8>) -> (res: Result<(), Error>) {
        w.extend_from_slice(self.as_slice());
        Ok(())
    }
}

/// The generic optional wrapper: a `Some` value is written as the bare
/// value and `None` writes nothing; reading always attempts a decode and
/// wraps it in `Some`. Presence is decided externally, by the packet
/// field's predicate, not by an in-band tag, so encode and decode are
/// deliberately asymmetric for `None`.
impl<T: Serializable> Serializable for Option<T> {
    open spec fn encodable(&self) -> bool {
        match self {
            Some(v) => v.encodable(),
            None => true,
        }
    }

    open spec fn encoding(&self) -> Seq<u8> {
        match self {
            Some(v) => v.encoding(),
            None => Seq::empty(),
        }
    }

    open spec fn decoded(s: Seq<u8>) -> Option<(Option<T::V>, int)> {
        match T::decoded(s) {
            Some((v, n)) => Some((Some(v), n)),
            None => None,
        }
    }

    proof fn lemma_decoded_len(s: Seq<u8>) {
        T::lemma_decoded_len(s);
    }

    fn read_from(r: &mut Reader) -> (res: Result<Option<T>, Error>) {
        match T::read_from(r) {
            Ok(v) => Ok(Some(v)),
            Err(e) => Err(e),
        }
    }

    fn write_to(&self, w: &mut Vec<u8>) -> (res: Result<(), Error>) {
        match self {
            Some(v) => v.write_to(w),
            None => {
                proof {
                    assert(w@ =~= old(w)@ + self.encoding());
                }
                Ok(())
            },
        }
    }
}


/// The in-band tag of an absent structured document.
pub const DOCUMENT_ABSENT_TAG: u8 = 0;

/// The in-band tag opening a present structured document.
pub const DOCUMENT_PRESENT_TAG: u8 = 10;

/// The wire bytes of an optional structured document: unlike the generic
/// optional wrapper, this one carries its own one-byte in-band presence/type
/// tag (the two optional contracts deliberately diverge). The document bytes
/// themselves come from the external tag-tree codec, which is also what
/// delimits them on the way back in; only the tag byte is this library's.
pub open spec fn tagged_document_encoding(doc: Option<Seq<u8>>) -> Seq<u8> {
    match doc {
        None => seq![DOCUMENT_ABSENT_TAG],
        Some(b) => seq![DOCUMENT_PRESENT_TAG] + b,
    }
}

/// Writes an optional structured document with its one-byte in-band
/// presence/type tag; the document bytes must already be encoded by the
/// external tag-tree codec.
pub fn write_tagged_document(doc: Option<&Vec<u8>>, w: &mut Vec<u8>)
    ensures
        final(w)@ == old(w)@ + tagged_document_encoding(
            match doc {
                None => None,
                Some(b) => Some(b@),
            },
        ),
{
    match doc {
        None => {
            w.push(DOCUMENT_ABSENT_TAG);
            proof {
                assert(w@ =~= old(w)@ + tagged_document_encoding(None));
            }
        },
        Some(b) => {
            w.push(DOCUMENT_PRESENT_TAG);
            w.extend_from_slice(b.as_slice());
            proof {
                assert(w@ =~= old(w)@ + tagged_document_encoding(Some(b@)));
            }
        },
    }
}

/// Reads the one-byte in-band presence tag of an optional structured
/// document: `None` when the document is absent, and the tag byte otherwise,
/// leaving the reader at the document's first byte for the external
/// tag-tree codec to consume.
pub fn read_document_tag(r: &mut Reader) -> (res: Result<Option<u8>, Error>)
    requires
        old(r).wf(),
    ensures
        final(r).wf(),
        final(r).data_seq() == old(r).data_seq(),
        old(r).remaining_bytes().len() == 0 ==> res == Err::<Option<u8>, Error>(
            Error::FieldDecodeFailure,
        ),
        old(r).remaining_bytes().len() > 0 ==> final(r).position() == old(r).position() + 1 && (
        if old(r).remaining_bytes()[0] == DOCUMENT_ABSENT_TAG {
            res == Ok::<Option<u8>, Error>(None)
        } else {
            res == Ok::<Option<u8>, Error>(Some(old(r).remaining_bytes()[0]))
        }),
{
    match r.read_u8() {
        None => Err(Error::FieldDecodeFailure),
        Some(b) => {
            if b == DOCUMENT_ABSENT_TAG {
                Ok(None)
            } else {
                Ok(Some(b))
            }
        },
    }
}

} // verus!
