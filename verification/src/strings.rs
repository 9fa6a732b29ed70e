//! The string codec: length-prefixed (VarInt byte length) UTF-8. Decoding
//! an invalid byte length or invalid UTF-8 is a decode error, never a silent
//! truncation. The byte-level model uses vstd's UTF-8 specification.

use vstd::prelude::*;
use vstd::string::StrSliceExecFns;
use vstd::utf8::decode_utf8;
use vstd::utf8::encode_utf8;
use vstd::utf8::valid_utf8;

use crate::error::Error;
use crate::reader::Reader;
use crate::serialize::i32_of_u32;
use crate::serialize::Serializable;
use crate::varint::lemma_varnum_dec_len;
use crate::varint::lemma_varnum_enc_len;
use crate::varint::lemma_varnum_round_trip;
use crate::varint::pow128;
use crate::varint::varnum_dec;
use crate::varint::varnum_enc;
use crate::varint::VarInt;

verus! {

/// The longest byte length a string field may declare when decoded.
pub const MAX_STRING_BYTES: usize = 65536;

/// Relies on `String::from_utf8`: it succeeds exactly on valid UTF-8 input
/// (in the sense of vstd's UTF-8 specification) and returns the string those
/// bytes encode.
#[verifier::external_body]
fn bytes_to_string(v: Vec<u8>) -> (r: Option<String>)
    ensures
        match r {
            Some(s) => valid_utf8(v@) && s@ == decode_utf8(v@),
            None => !valid_utf8(v@),
        },
{
    String::from_utf8(v).ok()
}

/// What a stream decodes to as a string: a VarInt byte length that must be
/// non-negative and at most [`MAX_STRING_BYTES`], followed by that many
/// bytes of valid UTF-8.
pub open spec fn string_decoded(s: Seq<u8>) -> Option<(Seq<char>, int)> {
    match varnum_dec(s, 5) {
        None => None,
        Some((v, k)) => {
            let len = i32_of_u32((v % 0x100000000) as u32);
            if len < 0 || len > MAX_STRING_BYTES {
                None
            } else if s.len() < k + len {
                None
            } else {
                let bytes = s.subrange(k, k + len);
                if valid_utf8(bytes) {
                    Some((decode_utf8(bytes), k + len))
                } else {
                    None
                }
            }
        },
    }
}

impl Serializable for String {
    /// The UTF-8 byte length must fit the 31 bits of a non-negative VarInt.
    open spec fn encodable(&self) -> bool {
        encode_utf8(self@).len() <= 0x7fffffff
    }

    open spec fn encoding(&self) -> Seq<u8> {
        varnum_enc(encode_utf8(self@).len()) + encode_utf8(self@)
    }

    open spec fn decoded(s: Seq<u8>) -> Option<(Seq<char>, int)> {
        string_decoded(s)
    }

    proof fn lemma_decoded_len(s: Seq<u8>) {
        lemma_varnum_dec_len(s, 5);
    }

    fn read_from(r: &mut Reader) -> (res: Result<String, Error>) {
        let len = match VarInt::read_varint(r) {
            Ok(v) => v,
            Err(e) => {
                return Err(e);
            },
        };
        if len.0 < 0 {
            return Err(Error::FieldDecodeFailure);
        }
        let n = len.0 as usize;
        if n > MAX_STRING_BYTES {
            return Err(Error::FieldDecodeFailure);
        }
        let ghost mid = r.remaining_bytes();
        let bytes = match r.read_exact(n) {
            Some(b) => b,
            None => {
                return Err(Error::FieldDecodeFailure);
            },
        };
        proof {
            let s0 = old(r).remaining_bytes();
            match varnum_dec(s0, 5) {
                Some((v, k)) => {
                    assert(mid =~= s0.skip(k));
                    assert(bytes@ =~= s0.subrange(k, k + n as int));
                },
                None => {},
            }
        }
        match bytes_to_string(bytes) {
            Some(s) => Ok(s),
            None => Err(Error::FieldDecodeFailure),
        }
    }

    fn write_to(&self, w: &mut Vec<u8>) -> (res: Result<(), Error>) {
        let bytes = self.as_str().as_bytes_vec();
        if bytes.len() > 0x7fffffff {
            return Err(Error::EncodingLimitExceeded);
        }
        let len = VarInt(bytes.len() as i32);
        len.write_varint(w);
        w.extend_from_slice(bytes.as_slice());
        proof {
            assert(w@ =~= old(w)@ + self.encoding());
        }
        Ok(())
    }
}

/// The wire bytes of a character sequence: its UTF-8 byte length as a
/// VarInt, then its UTF-8 bytes.
pub open spec fn string_encoding(cs: Seq<char>) -> Seq<u8> {
    varnum_enc(encode_utf8(cs).len()) + encode_utf8(cs)
}

/// String round trip: a character sequence of at most [`MAX_STRING_BYTES`]
/// UTF-8 bytes decodes from its own encoding, whatever bytes follow, back to
/// the same sequence, consuming exactly the encoding.
pub proof fn lemma_string_seq_round_trip(cs: Seq<char>, rest: Seq<u8>)
    requires
        encode_utf8(cs).len() <= MAX_STRING_BYTES,
    ensures
        string_decoded(string_encoding(cs) + rest) == Some(
            (cs, string_encoding(cs).len() as int),
        ),
{
    let bytes = encode_utf8(cs);
    let len = bytes.len();
    assert(pow128(5) == 0x800000000) by {
        assert(pow128(0) == 1);
        assert(pow128(1) == 0x80);
        assert(pow128(2) == 0x4000);
        assert(pow128(3) == 0x200000);
        assert(pow128(4) == 0x10000000);
    }
    lemma_varnum_enc_len(len, 5);
    lemma_varnum_round_trip(len, bytes + rest, 5);
    let all = string_encoding(cs) + rest;
    let k = varnum_enc(len).len() as int;
    assert(all =~= varnum_enc(len) + (bytes + rest));
    assert(all.subrange(k, k + len as int) =~= bytes);
    vstd::utf8::encode_utf8_valid_utf8(cs);
    vstd::utf8::encode_utf8_decode_utf8(cs);
}

/// String round trip, stated of a `String` value and its codec.
pub proof fn lemma_string_round_trip(s: &String, rest: Seq<u8>)
    requires
        encode_utf8(s@).len() <= MAX_STRING_BYTES,
    ensures
        String::decoded(s.encoding() + rest) == Some((s@, s.encoding().len() as int)),
{
    lemma_string_seq_round_trip(s@, rest);
}

} // verus!
