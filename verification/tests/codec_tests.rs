use leafish_protocol::read_document_tag;
use leafish_protocol::write_tagged_document;
use leafish_protocol::Biomes3D;
use leafish_protocol::Error;
use leafish_protocol::FixedPoint12;
use leafish_protocol::FixedPoint5;
use leafish_protocol::LenPrefixed;
use leafish_protocol::LenPrefixedBytes;
use leafish_protocol::Position;
use leafish_protocol::Reader;
use leafish_protocol::Serializable;
use leafish_protocol::VarInt;
use leafish_protocol::VarShort;
use leafish_protocol::UUID;

fn encode<T: Serializable>(v: &T) -> Vec<u8> {
    let mut w = Vec::new();
    v.write_to(&mut w).expect("encodable value must encode");
    w
}

#[test]
fn string_round_trip() {
    for s in ["", "A", "hello world", "héllo wörld ✓", "example.com"] {
        let owned = s.to_string();
        let bytes = encode(&owned);
        let mut r = Reader::new(bytes);
        let back: String = Serializable::read_from(&mut r).unwrap();
        assert_eq!(back, owned);
        assert_eq!(r.remaining_len(), 0);
    }
}

#[test]
fn string_length_claims_more_than_available_fails() {
    // Length prefix of 5 but only 2 bytes follow: an error, not a panic.
    let mut r = Reader::new(vec![0x05, b'h', b'i']);
    let res: Result<String, Error> = Serializable::read_from(&mut r);
    assert_eq!(res, Err(Error::FieldDecodeFailure));
}

#[test]
fn string_negative_length_fails() {
    // A negative VarInt length prefix is an invalid byte length.
    let mut r = Reader::new(vec![0xff, 0xff, 0xff, 0xff, 0x0f]);
    let res: Result<String, Error> = Serializable::read_from(&mut r);
    assert_eq!(res, Err(Error::FieldDecodeFailure));
}

#[test]
fn string_invalid_utf8_fails() {
    let mut r = Reader::new(vec![0x02, 0xc3, 0x28]);
    let res: Result<String, Error> = Serializable::read_from(&mut r);
    assert_eq!(res, Err(Error::FieldDecodeFailure));
}

#[test]
fn primitive_round_trips() {
    let mut w = Vec::new();
    Serializable::write_to(&true, &mut w).unwrap();
    Serializable::write_to(&0x7fu8, &mut w).unwrap();
    Serializable::write_to(&(-5i8), &mut w).unwrap();
    Serializable::write_to(&0xbeefu16, &mut w).unwrap();
    Serializable::write_to(&(-2i16), &mut w).unwrap();
    Serializable::write_to(&(-100000i32), &mut w).unwrap();
    Serializable::write_to(&(-1234567890123i64), &mut w).unwrap();
    Serializable::write_to(&0xdeadbeefcafef00du64, &mut w).unwrap();
    let mut r = Reader::new(w);
    assert_eq!(<bool as Serializable>::read_from(&mut r).unwrap(), true);
    assert_eq!(<u8 as Serializable>::read_from(&mut r).unwrap(), 0x7f);
    assert_eq!(<i8 as Serializable>::read_from(&mut r).unwrap(), -5);
    assert_eq!(<u16 as Serializable>::read_from(&mut r).unwrap(), 0xbeef);
    assert_eq!(<i16 as Serializable>::read_from(&mut r).unwrap(), -2);
    assert_eq!(<i32 as Serializable>::read_from(&mut r).unwrap(), -100000);
    assert_eq!(
        <i64 as Serializable>::read_from(&mut r).unwrap(),
        -1234567890123
    );
    assert_eq!(
        <u64 as Serializable>::read_from(&mut r).unwrap(),
        0xdeadbeefcafef00d
    );
    assert_eq!(r.remaining_len(), 0);
}

#[test]
fn i16_big_endian_layout() {
    let mut w = Vec::new();
    Serializable::write_to(&0x1234i16, &mut w).unwrap();
    assert_eq!(w, vec![0x12, 0x34]);
}

#[test]
fn uuid_wire_round_trip() {
    let u = UUID(0x0011223344556677, 0x8899aabbccddeeff);
    let bytes = encode(&u);
    assert_eq!(bytes.len(), 16);
    let mut r = Reader::new(bytes);
    let back: UUID = Serializable::read_from(&mut r).unwrap();
    assert_eq!(back, u);
}

#[test]
fn uuid_parse_canonical() {
    let u = UUID::parse("00112233-4455-6677-8899-aabbccddeeff").unwrap();
    assert_eq!(u, UUID(0x0011223344556677, 0x8899aabbccddeeff));
    let upper = UUID::parse("00112233-4455-6677-8899-AABBCCDDEEFF").unwrap();
    assert_eq!(upper, u);
}

#[test]
fn uuid_parse_rejects_bad_input() {
    assert!(UUID::parse("too short").is_err());
    assert!(UUID::parse("00112233-4455-6677-8899-aabbccddeefg").is_err());
    assert!(UUID::parse("00112233-4455-6677-8899-aabbccddeeff0").is_err());
}

#[test]
fn uuid_from_str_trait() {
    let u: UUID = "00112233-4455-6677-8899-aabbccddeeff".parse().unwrap();
    assert_eq!(u, UUID(0x0011223344556677, 0x8899aabbccddeeff));
}

#[test]
fn len_prefixed_varint_round_trip() {
    let values: Vec<u16> = vec![10, 20, 30];
    let lp: LenPrefixed<VarInt, u16> = LenPrefixed::new(values.clone());
    let bytes = encode(&lp);
    assert_eq!(bytes[0], 3);
    let mut r = Reader::new(bytes);
    let back: LenPrefixed<VarInt, u16> = Serializable::read_from(&mut r).unwrap();
    assert_eq!(back.data, values);
}

#[test]
fn len_prefixed_negative_length_fails() {
    // A VarInt length of -1 cannot denote a collection size.
    let mut bytes = Vec::new();
    VarInt(-1).write_varint(&mut bytes);
    let mut r = Reader::new(bytes);
    let res: Result<LenPrefixed<VarInt, u16>, Error> = Serializable::read_from(&mut r);
    assert_eq!(res, Err(Error::FieldDecodeFailure));
}

#[test]
fn len_prefixed_bytes_varshort_round_trip() {
    let blob: Vec<u8> = (0u8..50).collect();
    let lp: LenPrefixedBytes<VarShort> = LenPrefixedBytes::new(blob.clone());
    let bytes = encode(&lp);
    let mut r = Reader::new(bytes);
    let back: LenPrefixedBytes<VarShort> = Serializable::read_from(&mut r).unwrap();
    assert_eq!(back.data, blob);
}

#[test]
fn optional_wrapper_is_asymmetric() {
    // `None` writes nothing; reading always attempts a decode and wraps in
    // `Some`: the asymmetry is part of the wire format.
    let none: Option<u16> = None;
    let mut w = Vec::new();
    Serializable::write_to(&none, &mut w).unwrap();
    assert!(w.is_empty());
    let some: Option<u16> = Some(7);
    Serializable::write_to(&some, &mut w).unwrap();
    assert_eq!(w, vec![0, 7]);
    let mut r = Reader::new(w);
    let back: Option<u16> = Serializable::read_from(&mut r).unwrap();
    assert_eq!(back, Some(7));
}

#[test]
fn fixed_point_pass_through() {
    let fp5: FixedPoint5<i32> = FixedPoint5::new(3 * 32 + 16);
    let bytes5 = encode(&fp5);
    let mut r5 = Reader::new(bytes5);
    let back5: FixedPoint5<i32> = Serializable::read_from(&mut r5).unwrap();
    assert_eq!(*back5.raw(), 3 * 32 + 16);

    let fp12: FixedPoint12<i16> = FixedPoint12::new(4096 + 2048);
    let bytes12 = encode(&fp12);
    assert_eq!(bytes12.len(), 2);
    let mut r12 = Reader::new(bytes12);
    let back12: FixedPoint12<i16> = Serializable::read_from(&mut r12).unwrap();
    assert_eq!(*back12.raw(), 4096 + 2048);
}

#[test]
fn biomes_reads_full_table() {
    let mut bytes = Vec::new();
    for i in 0..1024i32 {
        Serializable::write_to(&i, &mut bytes).unwrap();
    }
    let mut r = Reader::new(bytes);
    let b = Biomes3D::read_from(&mut r).unwrap();
    assert_eq!(b.data.len(), 1024);
    assert_eq!(b.data[0], 0);
    assert_eq!(b.data[1023], 1023);
    assert_eq!(r.remaining_len(), 0);
}

#[test]
fn biomes_short_input_fails() {
    let bytes = vec![0u8; 100];
    let mut r = Reader::new(bytes);
    assert!(Biomes3D::read_from(&mut r).is_err());
}

#[test]
fn position_round_trip_both_layouts() {
    let cases = [(100, 64, -100), (-12345, 255, 12345), (0, 1, 0), (-1, 0, -1)];
    for &(x, y, z) in &cases {
        let p = Position::new(x, y, z);
        // Pre-V1_14 layout (protocol 340).
        let mut w1 = Vec::new();
        p.write_to(&mut w1, 340).unwrap();
        assert_eq!(w1.len(), 8);
        let mut r1 = Reader::new(w1);
        assert_eq!(Position::read_from(&mut r1, 340).unwrap(), p);
        // Post-V1_14 layout (protocol 754).
        let mut w2 = Vec::new();
        p.write_to(&mut w2, 754).unwrap();
        assert_eq!(w2.len(), 8);
        let mut r2 = Reader::new(w2);
        assert_eq!(Position::read_from(&mut r2, 754).unwrap(), p);
    }
}

#[test]
fn position_layouts_differ_in_bits() {
    let p = Position::new(100, 64, -100);
    let mut w1 = Vec::new();
    p.write_to(&mut w1, 340).unwrap();
    let mut w2 = Vec::new();
    p.write_to(&mut w2, 754).unwrap();
    assert_ne!(w1, w2, "the two layouts must produce different bit patterns");
}

#[test]
fn tagged_document_optional_has_in_band_tag() {
    // The structured-document optional carries its own presence byte,
    // unlike the generic optional wrapper.
    let mut w = Vec::new();
    write_tagged_document(None, &mut w);
    assert_eq!(w, vec![0]);
    let mut w2 = Vec::new();
    write_tagged_document(Some(&vec![0xAA, 0xBB]), &mut w2);
    assert_eq!(w2, vec![10, 0xAA, 0xBB]);
    let mut r = Reader::new(w2);
    assert_eq!(read_document_tag(&mut r), Ok(Some(10)));
    let mut r2 = Reader::new(vec![0]);
    assert_eq!(read_document_tag(&mut r2), Ok(None));
    let mut r3 = Reader::new(vec![]);
    assert_eq!(read_document_tag(&mut r3), Err(Error::FieldDecodeFailure));
}
