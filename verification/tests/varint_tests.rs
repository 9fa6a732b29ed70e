use leafish_protocol::Error;
use leafish_protocol::Reader;
use leafish_protocol::Serializable;
use leafish_protocol::VarInt;
use leafish_protocol::VarLong;
use leafish_protocol::VarShort;

fn varint_bytes(v: i32) -> Vec<u8> {
    let mut w = Vec::new();
    VarInt(v).write_varint(&mut w);
    w
}

#[test]
fn varint_round_trip_values() {
    for &v in &[
        0i32,
        1,
        2,
        127,
        128,
        255,
        300,
        25565,
        2097151,
        2147483647,
        -1,
        -2147483648,
        754,
    ] {
        let bytes = varint_bytes(v);
        assert!(bytes.len() <= 5, "VarInt encoding exceeded 5 bytes for {}", v);
        let mut r = Reader::new(bytes);
        let back = VarInt::read_varint(&mut r).expect("decode of encode must succeed");
        assert_eq!(back.0, v);
        assert_eq!(r.remaining_len(), 0);
    }
}

#[test]
fn varint_known_encodings() {
    assert_eq!(varint_bytes(0), vec![0x00]);
    assert_eq!(varint_bytes(1), vec![0x01]);
    assert_eq!(varint_bytes(127), vec![0x7f]);
    assert_eq!(varint_bytes(128), vec![0x80, 0x01]);
    assert_eq!(varint_bytes(255), vec![0xff, 0x01]);
    assert_eq!(varint_bytes(25565), vec![0xdd, 0xc7, 0x01]);
    assert_eq!(varint_bytes(-1), vec![0xff, 0xff, 0xff, 0xff, 0x0f]);
}

#[test]
fn varint_size_limit_error() {
    // Five bytes all carrying the continuation flag: size-limit error.
    let mut r = Reader::new(vec![0x80, 0x80, 0x80, 0x80, 0x80, 0x01]);
    let res = VarInt::read_varint(&mut r);
    assert_eq!(res, Err(Error::EncodingLimitExceeded));
}

#[test]
fn varint_truncated_input_error() {
    let mut r = Reader::new(vec![0x80, 0x80]);
    let res = VarInt::read_varint(&mut r);
    assert_eq!(res, Err(Error::FieldDecodeFailure));
}

#[test]
fn varlong_round_trip_values() {
    for &v in &[
        0i64,
        1,
        127,
        128,
        300,
        9223372036854775807,
        -1,
        -9223372036854775808,
    ] {
        let mut w = Vec::new();
        VarLong(v).write_varlong(&mut w);
        assert!(w.len() <= 10, "VarLong encoding exceeded 10 bytes for {}", v);
        let mut r = Reader::new(w);
        let back = VarLong::read_varlong(&mut r).expect("decode of encode must succeed");
        assert_eq!(back.0, v);
        assert_eq!(r.remaining_len(), 0);
    }
}

#[test]
fn varlong_size_limit_error() {
    // Ten bytes all carrying the continuation flag: size-limit error.
    let bytes = vec![0x80u8; 10];
    let mut r = Reader::new(bytes);
    let res = VarLong::read_varlong(&mut r);
    assert_eq!(res, Err(Error::EncodingLimitExceeded));
}

#[test]
fn varshort_round_trip_small_is_two_bytes() {
    for &v in &[0i32, 1, 255, 0x7fff] {
        let mut w = Vec::new();
        VarShort(v).write_varshort(&mut w).expect("in-range value must encode");
        assert_eq!(w.len(), 2, "small VarShort must stay a plain short");
        let mut r = Reader::new(w);
        let back = VarShort::read_varshort(&mut r).expect("decode of encode must succeed");
        assert_eq!(back.0, v);
    }
}

#[test]
fn varshort_round_trip_large_is_three_bytes() {
    for &v in &[0x8000i32, 0x12345, 0x7fffff] {
        let mut w = Vec::new();
        VarShort(v).write_varshort(&mut w).expect("in-range value must encode");
        assert_eq!(w.len(), 3, "large VarShort must carry the extension byte");
        let mut r = Reader::new(w);
        let back = VarShort::read_varshort(&mut r).expect("decode of encode must succeed");
        assert_eq!(back.0, v);
    }
}

#[test]
fn varshort_out_of_range_write_fails() {
    let mut w = Vec::new();
    assert_eq!(
        VarShort(0x800000).write_varshort(&mut w),
        Err(Error::EncodingLimitExceeded)
    );
    assert_eq!(
        VarShort(-1).write_varshort(&mut w),
        Err(Error::EncodingLimitExceeded)
    );
    assert!(w.is_empty());
}

#[test]
fn varshort_backward_compatible_with_plain_short() {
    // A plain big-endian 16-bit short with the top bit clear reads as
    // itself.
    let mut r = Reader::new(vec![0x12, 0x34]);
    let v = VarShort::read_varshort(&mut r).unwrap();
    assert_eq!(v.0, 0x1234);
}

#[test]
fn varint_trait_read_write_agree_with_inherent() {
    let mut w = Vec::new();
    Serializable::write_to(&VarInt(300), &mut w).unwrap();
    assert_eq!(w, varint_bytes(300));
    let mut r = Reader::new(w);
    let v: VarInt = Serializable::read_from(&mut r).unwrap();
    assert_eq!(v, VarInt(300));
}
