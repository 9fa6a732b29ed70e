//! Variable-width integer encodings: `VarInt` (1..=5 bytes), `VarLong`
//! (1..=10 bytes) and `VarShort` (2 or 3 bytes, backwards-compatible with a
//! fixed 16-bit short for small values).
//!
//! `VarInt` and `VarLong` carry 7 data bits per byte, least-significant
//! group first, with a continuation flag in the most-significant bit of each
//! byte. The shared mathematical model works on unbounded naturals;
//! the two widths truncate the assembled value to 32 or 64 bits exactly as
//! the executable code does.

use vstd::prelude::*;

use crate::error::Error;
use crate::reader::Reader;
use crate::serialize::be_u16;
use crate::serialize::i32_of_u32;
use crate::serialize::i64_of_u64;
use crate::serialize::read_u16_be;
use crate::serialize::u16_from_be;
use crate::serialize::u32_of_i32;
use crate::serialize::u64_of_i64;
use crate::serialize::write_u16_be;
use crate::serialize::LosslessCodec;
use crate::serialize::Serializable;

verus! {

/// The 7-bits-per-byte little-group-first encoding of a natural number.
pub open spec fn varnum_enc(v: nat) -> Seq<u8>
    decreases v,
{
    if v < 0x80 {
        seq![v as u8]
    } else {
        seq![(v % 0x80 + 0x80) as u8] + varnum_enc(v / 0x80)
    }
}

/// Decodes up to `fuel` bytes of 7-bit groups from the front of `s`: the
/// assembled (untruncated) natural and the bytes consumed. `None` when the
/// input ends inside a value or when `fuel` bytes were consumed without a
/// terminating byte.
pub open spec fn varnum_dec(s: Seq<u8>, fuel: nat) -> Option<(nat, int)>
    decreases fuel,
{
    if fuel == 0 || s.len() == 0 {
        None
    } else if s[0] < 0x80 {
        Some((s[0] as nat, 1))
    } else {
        match varnum_dec(s.skip(1), (fuel - 1) as nat) {
            None => None,
            Some((v, n)) => Some((((s[0] - 0x80) + 0x80 * v) as nat, n + 1)),
        }
    }
}

/// True when decoding fails because `fuel` bytes all carried the
/// continuation flag (as opposed to failing because the input ran out).
pub open spec fn varnum_over_limit(s: Seq<u8>, fuel: nat) -> bool
    decreases fuel,
{
    if fuel == 0 {
        true
    } else if s.len() == 0 {
        false
    } else if s[0] < 0x80 {
        false
    } else {
        varnum_over_limit(s.skip(1), (fuel - 1) as nat)
    }
}

/// 128 to the `k`-th power: the number of values encodable in `k` groups.
pub open spec fn pow128(k: nat) -> nat
    decreases k,
{
    if k == 0 {
        1nat
    } else {
        0x80 * pow128((k - 1) as nat)
    }
}

/// The encoding always takes at least one byte.
pub proof fn lemma_varnum_enc_len_min(v: nat)
    ensures
        varnum_enc(v).len() >= 1,
{
}

/// A natural below `128^k` encodes in at most `k` bytes: the encoding never
/// exceeds the documented maximum byte count of its width.
pub proof fn lemma_varnum_enc_len(v: nat, k: nat)
    requires
        k >= 1,
        v < pow128(k),
    ensures
        varnum_enc(v).len() <= k,
    decreases k,
{
    if v < 0x80 {
    } else {
        assert(pow128(k) == 0x80 * pow128((k - 1) as nat));
        assert(v / 0x80 < pow128((k - 1) as nat)) by (nonlinear_arith)
            requires
                v < 0x80 * pow128((k - 1) as nat),
        ;
        assert(k >= 2) by {
            if k == 1 {
                assert(pow128(1nat) == 0x80 * pow128(0nat));
                assert(pow128(0nat) == 1nat);
            }
        }
        lemma_varnum_enc_len(v / 0x80, (k - 1) as nat);
    }
}

/// Any value below 2^35 encodes in at most five bytes: the frame and string
/// length prefixes, which are 31-bit values, always fit a five-byte VarInt.
pub proof fn lemma_varnum_enc_len5(v: nat)
    requires
        v < 0x800000000,
    ensures
        varnum_enc(v).len() <= 5,
{
    assert(pow128(5) == 0x800000000) by {
        assert(pow128(0) == 1);
        assert(pow128(1) == 0x80);
        assert(pow128(2) == 0x4000);
        assert(pow128(3) == 0x200000);
        assert(pow128(4) == 0x10000000);
    }
    lemma_varnum_enc_len(v, 5);
}

/// Decoding an encoding gives the value back and consumes exactly the
/// encoding, whatever bytes follow, as long as the decoder's byte budget
/// covers the encoding's length.
pub proof fn lemma_varnum_round_trip(v: nat, rest: Seq<u8>, fuel: nat)
    requires
        varnum_enc(v).len() <= fuel,
    ensures
        varnum_dec(varnum_enc(v) + rest, fuel) == Some((v, varnum_enc(v).len() as int)),
    decreases v,
{
    let s = varnum_enc(v) + rest;
    if v < 0x80 {
        assert(s[0] == v as u8);
    } else {
        assert(s[0] == (v % 0x80 + 0x80) as u8);
        assert(s[0] >= 0x80);
        lemma_varnum_enc_len_min(v / 0x80);
        lemma_varnum_round_trip(v / 0x80, rest, (fuel - 1) as nat);
        assert(s.skip(1) =~= varnum_enc(v / 0x80) + rest);
        vstd::arithmetic::div_mod::lemma_fundamental_div_mod(v as int, 0x80);
    }
}

/// A stream whose first `fuel` bytes all carry the continuation flag makes
/// the decoder fail with the size limit exceeded.
pub proof fn lemma_varnum_dec_over_limit(s: Seq<u8>, fuel: nat)
    requires
        s.len() >= fuel,
        forall|i: int| 0 <= i < fuel ==> s[i] >= 0x80,
    ensures
        varnum_dec(s, fuel) == None::<(nat, int)>,
        varnum_over_limit(s, fuel),
    decreases fuel,
{
    if fuel > 0 {
        assert(s[0] >= 0x80);
        lemma_varnum_dec_over_limit(s.skip(1), (fuel - 1) as nat);
    }
}

/// A successful decode consumes at least one and at most `s.len()` bytes,
/// and at most `fuel` of them.
pub proof fn lemma_varnum_dec_len(s: Seq<u8>, fuel: nat)
    ensures
        varnum_dec(s, fuel) matches Some((v, n)) ==> 1 <= n <= s.len() && n <= fuel,
    decreases fuel,
{
    if fuel > 0 && s.len() > 0 && s[0] >= 0x80 {
        lemma_varnum_dec_len(s.skip(1), (fuel - 1) as nat);
    }
}

/// Reads one 7-bit group per byte, at most `fuel` bytes, assembling the
/// value truncated to 32 bits.
pub fn read_varnum_u32(r: &mut Reader, fuel: u8) -> (res: Result<u32, Error>)
    requires
        old(r).wf(),
    ensures
        final(r).wf(),
        final(r).data_seq() == old(r).data_seq(),
        final(r).position() >= old(r).position(),
        match varnum_dec(old(r).remaining_bytes(), fuel as nat) {
            Some((v, n)) => res matches Ok(x) && x == v % 0x100000000 && final(r).position()
                == old(r).position() + n,
            None => res == Err::<u32, Error>(
                if varnum_over_limit(old(r).remaining_bytes(), fuel as nat) {
                    Error::EncodingLimitExceeded
                } else {
                    Error::FieldDecodeFailure
                },
            ),
        },
    decreases fuel,
{
    if fuel == 0 {
        return Err(Error::EncodingLimitExceeded);
    }
    let b = match r.read_u8() {
        Some(b) => b,
        None => {
            return Err(Error::FieldDecodeFailure);
        },
    };
    if b < 0x80 {
        Ok(b as u32)
    } else {
        match read_varnum_u32(r, fuel - 1) {
            Err(e) => Err(e),
            Ok(v) => {
                let x = v.wrapping_mul(0x80).wrapping_add((b - 0x80) as u32);
                proof {
                    let m = 0x100000000int;
                    match varnum_dec(old(r).remaining_bytes().skip(1), (fuel - 1) as nat) {
                        Some((vfull, n)) => {
                            vstd::arithmetic::div_mod::lemma_mul_mod_noop_left(
                                vfull as int,
                                0x80,
                                m,
                            );
                            vstd::arithmetic::div_mod::lemma_add_mod_noop(
                                0x80 * (vfull as int),
                                (b - 0x80) as int,
                                m,
                            );
                            vstd::arithmetic::div_mod::lemma_small_mod((b - 0x80) as nat, m as nat);
                        },
                        None => {},
                    }
                }
                Ok(x)
            },
        }
    }
}

/// Reads one 7-bit group per byte, at most `fuel` bytes, assembling the
/// value truncated to 64 bits.
pub fn read_varnum_u64(r: &mut Reader, fuel: u8) -> (res: Result<u64, Error>)
    requires
        old(r).wf(),
    ensures
        final(r).wf(),
        final(r).data_seq() == old(r).data_seq(),
        final(r).position() >= old(r).position(),
        match varnum_dec(old(r).remaining_bytes(), fuel as nat) {
            Some((v, n)) => res matches Ok(x) && x == v % 0x10000000000000000
                && final(r).position() == old(r).position() + n,
            None => res == Err::<u64, Error>(
                if varnum_over_limit(old(r).remaining_bytes(), fuel as nat) {
                    Error::EncodingLimitExceeded
                } else {
                    Error::FieldDecodeFailure
                },
            ),
        },
    decreases fuel,
{
    if fuel == 0 {
        return Err(Error::EncodingLimitExceeded);
    }
    let b = match r.read_u8() {
        Some(b) => b,
        None => {
            return Err(Error::FieldDecodeFailure);
        },
    };
    if b < 0x80 {
        Ok(b as u64)
    } else {
        match read_varnum_u64(r, fuel - 1) {
            Err(e) => Err(e),
            Ok(v) => {
                let x = v.wrapping_mul(0x80).wrapping_add((b - 0x80) as u64);
                proof {
                    let m = 0x10000000000000000int;
                    match varnum_dec(old(r).remaining_bytes().skip(1), (fuel - 1) as nat) {
                        Some((vfull, n)) => {
                            vstd::arithmetic::div_mod::lemma_mul_mod_noop_left(
                                vfull as int,
                                0x80,
                                m,
                            );
                            vstd::arithmetic::div_mod::lemma_add_mod_noop(
                                0x80 * (vfull as int),
                                (b - 0x80) as int,
                                m,
                            );
                            vstd::arithmetic::div_mod::lemma_small_mod((b - 0x80) as nat, m as nat);
                        },
                        None => {},
                    }
                }
                Ok(x)
            },
        }
    }
}

/// Writes the value's 7-bit groups, least significant first, flagging every
/// byte but the last.
pub fn write_varnum_u32(v: u32, w: &mut Vec<u8>)
    ensures
        final(w)@ == old(w)@ + varnum_enc(v as nat),
{
    let mut val: u32 = v;
    while val >= 0x80
        invariant
            w@ + varnum_enc(val as nat) == old(w)@ + varnum_enc(v as nat),
        decreases val,
    {
        let ghost before = w@;
        w.push((val % 0x80 + 0x80) as u8);
        proof {
            assert(varnum_enc(val as nat) == seq![(val as nat % 0x80 + 0x80) as u8] + varnum_enc(
                val as nat / 0x80,
            ));
            assert(w@ + varnum_enc((val / 0x80) as nat) =~= before + varnum_enc(val as nat));
        }
        val = val / 0x80;
    }
    w.push(val as u8);
    proof {
        assert(varnum_enc(val as nat) == seq![val as u8]);
        assert(w@ =~= old(w)@ + varnum_enc(v as nat));
    }
}

/// Writes the value's 7-bit groups, least significant first, flagging every
/// byte but the last.
pub fn write_varnum_u64(v: u64, w: &mut Vec<u8>)
    ensures
        final(w)@ == old(w)@ + varnum_enc(v as nat),
{
    let mut val: u64 = v;
    while val >= 0x80
        invariant
            w@ + varnum_enc(val as nat) == old(w)@ + varnum_enc(v as nat),
        decreases val,
    {
        let ghost before = w@;
        w.push((val % 0x80 + 0x80) as u8);
        proof {
            assert(varnum_enc(val as nat) == seq![(val as nat % 0x80 + 0x80) as u8] + varnum_enc(
                val as nat / 0x80,
            ));
            assert(w@ + varnum_enc((val / 0x80) as nat) =~= before + varnum_enc(val as nat));
        }
        val = val / 0x80;
    }
    w.push(val as u8);
    proof {
        assert(varnum_enc(val as nat) == seq![val as u8]);
        assert(w@ =~= old(w)@ + varnum_enc(v as nat));
    }
}

/// A 32-bit signed integer with a variable encoded size of 1 to 5 bytes.
#[derive(Clone, Copy, Debug, PartialEq, Eq, Structural, Hash)]
pub struct VarInt(pub i32);

impl View for VarInt {
    type V = VarInt;

    open spec fn view(&self) -> VarInt {
        *self
    }
}

impl DeepView for VarInt {
    type V = VarInt;

    open spec fn deep_view(&self) -> VarInt {
        *self
    }
}

impl Default for VarInt {
    /// The zero value.
    fn default() -> (r: VarInt)
        ensures
            r == VarInt(0),
    {
        VarInt(0)
    }
}

/// What a stream decodes to as a `VarInt`: the assembled value truncated to
/// 32 bits and reinterpreted as signed.
pub open spec fn varint_decoded(s: Seq<u8>) -> Option<(VarInt, int)> {
    match varnum_dec(s, 5) {
        None => None,
        Some((v, n)) => Some((VarInt(i32_of_u32((v % 0x100000000) as u32)), n)),
    }
}

impl VarInt {
    /// Decodes a `VarInt` from the reader. Fails with a size-limit error
    /// when five bytes were consumed without a terminating byte, and with a
    /// field-decode error when the input ends inside the value.
    pub fn read_varint(r: &mut Reader) -> (res: Result<VarInt, Error>)
        requires
            old(r).wf(),
        ensures
            final(r).wf(),
            final(r).data_seq() == old(r).data_seq(),
            final(r).position() >= old(r).position(),
            match varint_decoded(old(r).remaining_bytes()) {
                Some((v, n)) => res == Ok::<VarInt, Error>(v) && final(r).position() == old(
                    r,
                ).position() + n,
                None => res == Err::<VarInt, Error>(
                    if varnum_over_limit(old(r).remaining_bytes(), 5) {
                        Error::EncodingLimitExceeded
                    } else {
                        Error::FieldDecodeFailure
                    },
                ),
            },
    {
        match read_varnum_u32(r, 5) {
            Err(e) => Err(e),
            Ok(u) => {
                if u >= 0x80000000 {
                    Ok(VarInt((u as i64 - 0x100000000) as i32))
                } else {
                    Ok(VarInt(u as i32))
                }
            },
        }
    }

    /// Encodes this `VarInt` into the writer; its 32 bits are treated as
    /// unsigned.
    pub fn write_varint(&self, w: &mut Vec<u8>)
        ensures
            final(w)@ == old(w)@ + varnum_enc(u32_of_i32(self.0) as nat),
    {
        let u: u32 = if self.0 >= 0 {
            self.0 as u32
        } else {
            (self.0 as i64 + 0x100000000) as u32
        };
        write_varnum_u32(u, w);
    }
}

impl Serializable for VarInt {
    open spec fn encodable(&self) -> bool {
        true
    }

    open spec fn encoding(&self) -> Seq<u8> {
        varnum_enc(u32_of_i32(self.0) as nat)
    }

    open spec fn decoded(s: Seq<u8>) -> Option<(VarInt, int)> {
        varint_decoded(s)
    }

    proof fn lemma_decoded_len(s: Seq<u8>) {
        lemma_varnum_dec_len(s, 5);
    }

    fn read_from(r: &mut Reader) -> (res: Result<VarInt, Error>) {
        VarInt::read_varint(r)
    }

    fn write_to(&self, w: &mut Vec<u8>) -> (res: Result<(), Error>) {
        self.write_varint(w);
        Ok(())
    }
}

impl LosslessCodec for VarInt {
    proof fn lemma_round_trip(v: VarInt, rest: Seq<u8>) {
        let u = u32_of_i32(v.0) as nat;
        assert(pow128(5) == 0x800000000) by {
            assert(pow128(0) == 1);
            assert(pow128(1) == 0x80);
            assert(pow128(2) == 0x4000);
            assert(pow128(3) == 0x200000);
            assert(pow128(4) == 0x10000000);
        }
        lemma_varnum_enc_len(u, 5);
        lemma_varnum_round_trip(u, rest, 5);
    }
}

/// A 64-bit signed integer with a variable encoded size of 1 to 10 bytes.
#[derive(Clone, Copy, Debug, PartialEq, Eq, Structural, Hash)]
pub struct VarLong(pub i64);

impl View for VarLong {
    type V = VarLong;

    open spec fn view(&self) -> VarLong {
        *self
    }
}

impl DeepView for VarLong {
    type V = VarLong;

    open spec fn deep_view(&self) -> VarLong {
        *self
    }
}

impl Default for VarLong {
    /// The zero value.
    fn default() -> (r: VarLong)
        ensures
            r == VarLong(0),
    {
        VarLong(0)
    }
}

/// What a stream decodes to as a `VarLong`: the assembled value truncated to
/// 64 bits and reinterpreted as signed.
pub open spec fn varlong_decoded(s: Seq<u8>) -> Option<(VarLong, int)> {
    match varnum_dec(s, 10) {
        None => None,
        Some((v, n)) => Some((VarLong(i64_of_u64((v % 0x10000000000000000) as u64)), n)),
    }
}

impl VarLong {
    /// Decodes a `VarLong` from the reader. Fails with a size-limit error
    /// when ten bytes were consumed without a terminating byte, and with a
    /// field-decode error when the input ends inside the value.
    pub fn read_varlong(r: &mut Reader) -> (res: Result<VarLong, Error>)
        requires
            old(r).wf(),
        ensures
            final(r).wf(),
            final(r).data_seq() == old(r).data_seq(),
            final(r).position() >= old(r).position(),
            match varlong_decoded(old(r).remaining_bytes()) {
                Some((v, n)) => res == Ok::<VarLong, Error>(v) && final(r).position() == old(
                    r,
                ).position() + n,
                None => res == Err::<VarLong, Error>(
                    if varnum_over_limit(old(r).remaining_bytes(), 10) {
                        Error::EncodingLimitExceeded
                    } else {
                        Error::FieldDecodeFailure
                    },
                ),
            },
    {
        match read_varnum_u64(r, 10) {
            Err(e) => Err(e),
            Ok(u) => {
                if u >= 0x8000000000000000 {
                    Ok(VarLong((u - 0x8000000000000000) as i64 + i64::MIN))
                } else {
                    Ok(VarLong(u as i64))
                }
            },
        }
    }

    /// Encodes this `VarLong` into the writer; its 64 bits are treated as
    /// unsigned.
    pub fn write_varlong(&self, w: &mut Vec<u8>)
        ensures
            final(w)@ == old(w)@ + varnum_enc(u64_of_i64(self.0) as nat),
    {
        let u: u64 = if self.0 >= 0 {
            self.0 as u64
        } else {
            ((self.0 - i64::MIN) as u64) + 0x8000000000000000
        };
        write_varnum_u64(u, w);
    }
}

impl Serializable for VarLong {
    open spec fn encodable(&self) -> bool {
        true
    }

    open spec fn encoding(&self) -> Seq<u8> {
        varnum_enc(u64_of_i64(self.0) as nat)
    }

    open spec fn decoded(s: Seq<u8>) -> Option<(VarLong, int)> {
        varlong_decoded(s)
    }

    proof fn lemma_decoded_len(s: Seq<u8>) {
        lemma_varnum_dec_len(s, 10);
    }

    fn read_from(r: &mut Reader) -> (res: Result<VarLong, Error>) {
        VarLong::read_varlong(r)
    }

    fn write_to(&self, w: &mut Vec<u8>) -> (res: Result<(), Error>) {
        self.write_varlong(w);
        Ok(())
    }
}

impl LosslessCodec for VarLong {
    proof fn lemma_round_trip(v: VarLong, rest: Seq<u8>) {
        let u = u64_of_i64(v.0) as nat;
        assert(pow128(10) == 0x400000000000000000) by {
            assert(pow128(0) == 1);
            assert(pow128(1) == 0x80);
            assert(pow128(2) == 0x4000);
            assert(pow128(3) == 0x200000);
            assert(pow128(4) == 0x10000000);
            assert(pow128(5) == 0x800000000);
            assert(pow128(6) == 0x40000000000);
            assert(pow128(7) == 0x2000000000000);
            assert(pow128(8) == 0x100000000000000);
            assert(pow128(9) == 0x8000000000000000);
        }
        lemma_varnum_enc_len(u, 10);
        lemma_varnum_round_trip(u, rest, 10);
    }
}

/// A non-negative 23-bit integer with a variable encoded size of 2 or 3
/// bytes, backwards-compatible with a plain big-endian 16-bit short for
/// values up to `0x7fff`.
#[derive(Clone, Copy, Debug, PartialEq, Eq, Structural, Hash)]
pub struct VarShort(pub i32);

impl View for VarShort {
    type V = VarShort;

    open spec fn view(&self) -> VarShort {
        *self
    }
}

impl DeepView for VarShort {
    type V = VarShort;

    open spec fn deep_view(&self) -> VarShort {
        *self
    }
}

impl Default for VarShort {
    /// The zero value.
    fn default() -> (r: VarShort)
        ensures
            r == VarShort(0),
    {
        VarShort(0)
    }
}

/// What a stream decodes to as a `VarShort`: a big-endian 16-bit value, plus
/// an extension byte for the high bits when the 16-bit value's top bit is
/// set.
pub open spec fn varshort_decoded(s: Seq<u8>) -> Option<(VarShort, int)> {
    if s.len() < 2 {
        None
    } else {
        let low = u16_from_be(s[0], s[1]);
        if low < 0x8000 {
            Some((VarShort(low as i32), 2))
        } else if s.len() < 3 {
            None
        } else {
            Some((VarShort((s[2] * 0x8000 + (low - 0x8000)) as i32), 3))
        }
    }
}

impl VarShort {
    /// True when the logical value fits the 23 bits the encoding can carry.
    pub open spec fn in_range(&self) -> bool {
        0 <= self.0 <= 0x7fffff
    }

    /// Decodes a `VarShort` from the reader.
    pub fn read_varshort(r: &mut Reader) -> (res: Result<VarShort, Error>)
        requires
            old(r).wf(),
        ensures
            final(r).wf(),
            final(r).data_seq() == old(r).data_seq(),
            final(r).position() >= old(r).position(),
            match varshort_decoded(old(r).remaining_bytes()) {
                Some((v, n)) => res == Ok::<VarShort, Error>(v) && final(r).position() == old(
                    r,
                ).position() + n,
                None => res == Err::<VarShort, Error>(Error::FieldDecodeFailure),
            },
    {
        let low = match read_u16_be(r) {
            Ok(v) => v,
            Err(_) => {
                return Err(Error::FieldDecodeFailure);
            },
        };
        if low < 0x8000 {
            Ok(VarShort(low as i32))
        } else {
            let high = match r.read_u8() {
                Some(b) => b,
                None => {
                    return Err(Error::FieldDecodeFailure);
                },
            };
            Ok(VarShort((high as i32) * 0x8000 + (low as i32 - 0x8000)))
        }
    }

    /// Encodes this `VarShort` into the writer; values outside the 23-bit
    /// range fail with the size limit exceeded and write nothing.
    pub fn write_varshort(&self, w: &mut Vec<u8>) -> (res: Result<(), Error>)
        ensures
            self.in_range() ==> res is Ok && final(w)@ == old(w)@ + self.encoding(),
            !self.in_range() ==> res == Err::<(), Error>(Error::EncodingLimitExceeded)
                && final(w)@ == old(w)@,
    {
        if self.0 < 0 || self.0 > 0x7fffff {
            return Err(Error::EncodingLimitExceeded);
        }
        if self.0 <= 0x7fff {
            write_u16_be(self.0 as u16, w);
        } else {
            write_u16_be((0x8000 + self.0 % 0x8000) as u16, w);
            w.push((self.0 / 0x8000) as u8);
            assert(w@ =~= old(w)@ + self.encoding());
        }
        Ok(())
    }
}

impl Serializable for VarShort {
    open spec fn encodable(&self) -> bool {
        self.in_range()
    }

    open spec fn encoding(&self) -> Seq<u8> {
        if self.0 <= 0x7fff {
            be_u16(self.0 as u16)
        } else {
            be_u16((0x8000 + self.0 % 0x8000) as u16) + seq![(self.0 / 0x8000) as u8]
        }
    }

    open spec fn decoded(s: Seq<u8>) -> Option<(VarShort, int)> {
        varshort_decoded(s)
    }

    proof fn lemma_decoded_len(s: Seq<u8>) {
    }

    fn read_from(r: &mut Reader) -> (res: Result<VarShort, Error>) {
        VarShort::read_varshort(r)
    }

    fn write_to(&self, w: &mut Vec<u8>) -> (res: Result<(), Error>) {
        self.write_varshort(w)
    }
}

impl LosslessCodec for VarShort {
    proof fn lemma_round_trip(v: VarShort, rest: Seq<u8>) {
        let s = v.encoding() + rest;
        if v.0 <= 0x7fff {
            assert(u16_from_be(s[0], s[1]) == v.0) by {
                vstd::arithmetic::div_mod::lemma_fundamental_div_mod(v.0 as u16 as int, 0x100);
            }
        } else {
            let first = (0x8000 + v.0 % 0x8000) as u16;
            assert(u16_from_be(s[0], s[1]) == first) by {
                vstd::arithmetic::div_mod::lemma_fundamental_div_mod(first as int, 0x100);
            }
            assert(s[2] == (v.0 / 0x8000) as u8);
            assert(s[2] * 0x8000 + (first - 0x8000) == v.0) by {
                vstd::arithmetic::div_mod::lemma_fundamental_div_mod(v.0 as int, 0x8000);
            }
        }
    }
}

} // verus!
