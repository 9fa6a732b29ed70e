//! A 128-bit identifier, carried on the wire as two big-endian 64-bit words
//! and parsed from the canonical 36-character hyphenated hexadecimal form.

use vstd::prelude::*;
use vstd::utf8::encode_utf8;

use crate::error::Error;
use crate::reader::Reader;
use crate::serialize::be_u64;
use crate::serialize::read_u64_be;
use crate::serialize::u64_from_be_8;
use crate::serialize::write_u64_be;
use crate::serialize::LosslessCodec;
use crate::serialize::Serializable;

verus! {

/// A 128-bit identifier: the high and the low 64-bit word.
#[derive(Debug, PartialEq, Eq, Structural, Hash, Clone)]
pub struct UUID(pub u64, pub u64);

/// The error returned when a string is not a canonical identifier.
#[derive(Debug, PartialEq, Eq, Structural, Clone)]
pub struct UUIDParseError;

impl Default for UUID {
    /// The all-zero identifier.
    fn default() -> (r: UUID)
        ensures
            r == UUID(0, 0),
    {
        UUID(0, 0)
    }
}

/// The value of one hexadecimal digit byte, upper or lower case.
pub open spec fn spec_hex_val(b: u8) -> Option<u8> {
    if 0x30 <= b <= 0x39 {
        Some((b - 0x30) as u8)
    } else if 0x61 <= b <= 0x66 {
        Some((b - 0x61 + 10) as u8)
    } else if 0x41 <= b <= 0x46 {
        Some((b - 0x41 + 10) as u8)
    } else {
        None
    }
}

/// The byte position of hexadecimal digit `i` within the 36-byte canonical
/// form, skipping the four hyphen slots.
pub open spec fn uuid_digit_pos(i: int) -> int {
    if i < 8 {
        i
    } else if i < 12 {
        i + 1
    } else if i < 16 {
        i + 2
    } else if i < 20 {
        i + 3
    } else {
        i + 4
    }
}

/// The value of `count` hexadecimal digits starting at digit index `start`
/// of a canonical identifier string, most significant digit first, or `None`
/// when some byte is not a hexadecimal digit.
pub open spec fn spec_nibbles(bytes: Seq<u8>, start: int, count: nat) -> Option<nat>
    decreases count,
{
    if count == 0 {
        Some(0)
    } else {
        match spec_nibbles(bytes, start, (count - 1) as nat) {
            None => None,
            Some(acc) => match spec_hex_val(bytes[uuid_digit_pos(start + count - 1)]) {
                None => None,
                Some(d) => Some((acc * 16 + d) as nat),
            },
        }
    }
}

/// Sixteen to the `k`-th power: the number of values of `k` hexadecimal
/// digits.
pub open spec fn pow16(k: nat) -> nat
    decreases k,
{
    if k == 0 {
        1nat
    } else {
        16 * pow16((k - 1) as nat)
    }
}

/// Powers of sixteen are positive.
proof fn lemma_pow16_pos(k: nat)
    ensures
        pow16(k) >= 1,
    decreases k,
{
    if k > 0 {
        lemma_pow16_pos((k - 1) as nat);
    }
}

/// Powers of sixteen grow with the exponent.
proof fn lemma_pow16_mono(a: nat, b: nat)
    requires
        a <= b,
    ensures
        pow16(a) <= pow16(b),
    decreases b,
{
    if a < b {
        lemma_pow16_mono(a, (b - 1) as nat);
        lemma_pow16_pos((b - 1) as nat);
    }
}

/// Sixteen hexadecimal digits fill exactly a 64-bit word.
proof fn lemma_pow16_16()
    ensures
        pow16(16) == 0x10000000000000000,
{
    assert(pow16(0) == 1);
    assert(pow16(1) == 0x10);
    assert(pow16(2) == 0x100);
    assert(pow16(3) == 0x1000);
    assert(pow16(4) == 0x10000);
    assert(pow16(5) == 0x100000);
    assert(pow16(6) == 0x1000000);
    assert(pow16(7) == 0x10000000);
    assert(pow16(8) == 0x100000000);
    assert(pow16(9) == 0x1000000000);
    assert(pow16(10) == 0x10000000000);
    assert(pow16(11) == 0x100000000000);
    assert(pow16(12) == 0x1000000000000);
    assert(pow16(13) == 0x10000000000000);
    assert(pow16(14) == 0x100000000000000);
    assert(pow16(15) == 0x1000000000000000);
}

/// A digit-group value fits in four bits per digit.
pub proof fn lemma_nibbles_bound(bytes: Seq<u8>, start: int, count: nat)
    ensures
        spec_nibbles(bytes, start, count) matches Some(v) ==> v < pow16(count),
    decreases count,
{
    if count > 0 {
        lemma_nibbles_bound(bytes, start, (count - 1) as nat);
    }
}

/// What a 36-byte string parses to: `None` unless it has exactly 36 bytes
/// and all 32 digit positions hold hexadecimal digits. The four separator
/// positions are not inspected: the accepted format is deliberately lenient.
pub open spec fn uuid_parsed(bytes: Seq<u8>) -> Option<UUID> {
    if bytes.len() != 36 {
        None
    } else {
        match (spec_nibbles(bytes, 0, 16), spec_nibbles(bytes, 16, 16)) {
            (Some(h), Some(l)) => Some(UUID(h as u64, l as u64)),
            _ => None,
        }
    }
}

/// The value of one hexadecimal digit byte, upper or lower case.
pub fn hex_val(b: u8) -> (r: Option<u8>)
    ensures
        r == spec_hex_val(b),
{
    if 0x30 <= b && b <= 0x39 {
        Some(b - 0x30)
    } else if 0x61 <= b && b <= 0x66 {
        Some(b - 0x61 + 10)
    } else if 0x41 <= b && b <= 0x46 {
        Some(b - 0x41 + 10)
    } else {
        None
    }
}

/// Reads `count` hexadecimal digits starting at digit index `start` of a
/// canonical identifier string.
fn read_nibbles(bytes: &[u8], start: usize, count: usize) -> (res: Option<u64>)
    requires
        bytes@.len() == 36,
        start + count <= 32,
        count <= 16,
    ensures
        match spec_nibbles(bytes@, start as int, count as nat) {
            Some(v) => res == Some(v as u64) && v < 0x10000000000000000,
            None => res is None,
        },
{
    let mut acc: u64 = 0;
    let mut i: usize = 0;
    proof {
        lemma_pow16_16();
    }
    while i < count
        invariant
            bytes@.len() == 36,
            start + count <= 32,
            count <= 16,
            i <= count,
            spec_nibbles(bytes@, start as int, i as nat) == Some(acc as nat),
            acc < pow16(i as nat),
            pow16(16) == 0x10000000000000000,
        decreases count - i,
    {
        let pos: usize = {
            let d = start + i;
            if d < 8 {
                d
            } else if d < 12 {
                d + 1
            } else if d < 16 {
                d + 2
            } else if d < 20 {
                d + 3
            } else {
                d + 4
            }
        };
        let b = bytes[pos];
        let d = match hex_val(b) {
            Some(d) => d,
            None => {
                proof {
                    lemma_nibbles_fail(bytes@, start as int, (i + 1) as nat, count as nat);
                }
                return None;
            },
        };
        proof {
            lemma_pow16_mono((i + 1) as nat, 16);
            assert(pow16((i + 1) as nat) == 16 * pow16(i as nat));
        }
        acc = acc * 16 + (d as u64);
        i = i + 1;
    }
    proof {
        lemma_nibbles_bound(bytes@, start as int, count as nat);
        lemma_pow16_mono(count as nat, 16);
    }
    Some(acc)
}

/// A non-digit byte inside a group makes every longer group fail too.
proof fn lemma_nibbles_fail(bytes: Seq<u8>, start: int, bad: nat, count: nat)
    requires
        bad <= count,
        spec_nibbles(bytes, start, bad) is None,
    ensures
        spec_nibbles(bytes, start, count) is None,
    decreases count,
{
    if count > bad {
        lemma_nibbles_fail(bytes, start, bad, (count - 1) as nat);
    }
}

impl UUID {
    /// Parses the canonical 36-character hyphenated hexadecimal form. The
    /// string must be exactly 36 bytes with hexadecimal digits in all 32
    /// digit positions; the four separator positions are not inspected.
    pub fn parse(s: &str) -> (res: Result<UUID, UUIDParseError>)
        ensures
            match uuid_parsed(encode_utf8(s@)) {
                Some(u) => res == Ok::<UUID, UUIDParseError>(u),
                None => res == Err::<UUID, UUIDParseError>(UUIDParseError),
            },
    {
        let bytes = s.as_bytes();
        if bytes.len() != 36 {
            return Err(UUIDParseError);
        }
        let high = match read_nibbles(bytes, 0, 16) {
            Some(h) => h,
            None => {
                return Err(UUIDParseError);
            },
        };
        let low = match read_nibbles(bytes, 16, 16) {
            Some(l) => l,
            None => {
                return Err(UUIDParseError);
            },
        };
        Ok(UUID(high, low))
    }
}

impl View for UUID {
    type V = UUID;

    open spec fn view(&self) -> UUID {
        *self
    }
}

impl DeepView for UUID {
    type V = UUID;

    open spec fn deep_view(&self) -> UUID {
        *self
    }
}

impl Serializable for UUID {
    open spec fn encodable(&self) -> bool {
        true
    }

    open spec fn encoding(&self) -> Seq<u8> {
        be_u64(self.0) + be_u64(self.1)
    }

    open spec fn decoded(s: Seq<u8>) -> Option<(UUID, int)> {
        if s.len() >= 16 {
            Some(
                (
                    UUID(
                        u64_from_be_8(s[0], s[1], s[2], s[3], s[4], s[5], s[6], s[7]),
                        u64_from_be_8(s[8], s[9], s[10], s[11], s[12], s[13], s[14], s[15]),
                    ),
                    16,
                ),
            )
        } else {
            None
        }
    }

    proof fn lemma_decoded_len(s: Seq<u8>) {
    }

    fn read_from(r: &mut Reader) -> (res: Result<UUID, Error>) {
        let ghost s = old(r).remaining_bytes();
        let hi = match read_u64_be(r) {
            Ok(v) => v,
            Err(e) => {
                return Err(e);
            },
        };
        let ghost s2 = r.remaining_bytes();
        let lo = match read_u64_be(r) {
            Ok(v) => v,
            Err(e) => {
                return Err(e);
            },
        };
        proof {
            if s.len() >= 16 {
                assert(s2 =~= s.skip(8));
                crate::serialize::lemma_be_u64_unique(
                    hi,
                    s[0],
                    s[1],
                    s[2],
                    s[3],
                    s[4],
                    s[5],
                    s[6],
                    s[7],
                );
                crate::serialize::lemma_be_u64_unique(
                    lo,
                    s[8],
                    s[9],
                    s[10],
                    s[11],
                    s[12],
                    s[13],
                    s[14],
                    s[15],
                );
            }
        }
        Ok(UUID(hi, lo))
    }

    fn write_to(&self, w: &mut Vec<u8>) -> (res: Result<(), Error>) {
        write_u64_be(self.0, w);
        write_u64_be(self.1, w);
        proof {
            assert(w@ =~= old(w)@ + self.encoding());
        }
        Ok(())
    }
}

impl LosslessCodec for UUID {
    proof fn lemma_round_trip(v: UUID, rest: Seq<u8>) {
        let s = v.encoding() + rest;
        assert(s.take(8) =~= be_u64(v.0));
        crate::serialize::lemma_be_u64_unique(v.0, s[0], s[1], s[2], s[3], s[4], s[5], s[6], s[7]);
        assert(be_u64(v.0)[0] == s[0] && be_u64(v.0)[1] == s[1] && be_u64(v.0)[2] == s[2] && be_u64(
            v.0,
        )[3] == s[3] && be_u64(v.0)[4] == s[4] && be_u64(v.0)[5] == s[5] && be_u64(v.0)[6] == s[6]
            && be_u64(v.0)[7] == s[7]);
        assert(s.subrange(8, 16) =~= be_u64(v.1));
        crate::serialize::lemma_be_u64_unique(
            v.1,
            s[8],
            s[9],
            s[10],
            s[11],
            s[12],
            s[13],
            s[14],
            s[15],
        );
        assert(be_u64(v.1)[0] == s[8] && be_u64(v.1)[1] == s[9] && be_u64(v.1)[2] == s[10]
            && be_u64(v.1)[3] == s[11] && be_u64(v.1)[4] == s[12] && be_u64(v.1)[5] == s[13]
            && be_u64(v.1)[6] == s[14] && be_u64(v.1)[7] == s[15]);
    }
}


impl core::str::FromStr for UUID {
    type Err = UUIDParseError;

    /// Parses the canonical hyphenated form, as [`UUID::parse`] does.
    fn from_str(s: &str) -> Result<UUID, UUIDParseError> {
        UUID::parse(s)
    }
}

} // verus!
