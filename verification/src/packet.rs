//! The packet schema: data-driven field tables per (connection state,
//! direction), stable internal identifiers, per-version wire identifiers,
//! and the translation and codec logic over them.
//!
//! A packet shape is an ordered sequence of typed fields; a field may be
//! conditionally present based on a predicate over the fields before it.
//! Each shape has a stable internal id and, per protocol version range, a
//! wire id; within one (state, direction) the wire mapping is a
//! version-scoped bijection, so decoding an unmapped wire id is an error,
//! never a silent alias.

use vstd::prelude::*;
use vstd::utf8::encode_utf8;

use crate::error::Error;
use crate::position::position_decoded;
use crate::position::position_encoding;
use crate::position::spec_uses_pre_v1_14_layout;
use crate::position::Position;
use crate::prefixed::Lengthable;
use crate::prefixed::LenPrefixedBytes;
use crate::reader::Reader;
use crate::serialize::LosslessCodec;
use crate::serialize::Serializable;
use crate::strings::string_decoded;
use crate::strings::MAX_STRING_BYTES;
use crate::uuid::UUID;
use crate::varint::varint_decoded;
use crate::varint::varlong_decoded;
use crate::varint::varshort_decoded;
use crate::varint::varnum_enc;
use crate::varint::VarInt;
use crate::varint::VarLong;
use crate::varint::VarShort;
use crate::serialize::u32_of_i32;
use crate::serialize::u64_of_i64;
use crate::serialize::be_u16;
use crate::serialize::be_u64;
use crate::State;
use crate::Direction;

verus! {

/// The wire type of one packet field.
#[derive(Clone, Copy, Debug, PartialEq, Eq, Structural)]
pub enum FieldType {
    /// A one-byte boolean.
    Bool,
    /// A big-endian unsigned 16-bit integer.
    U16,
    /// A big-endian signed 64-bit integer.
    I64,
    /// A variable-width 32-bit integer.
    VarInt,
    /// A variable-width 64-bit integer.
    VarLong,
    /// A variable-width 23-bit integer.
    VarShort,
    /// A length-prefixed UTF-8 string.
    Str,
    /// A 128-bit identifier.
    Uuid,
    /// A packed coordinate (layout depends on the protocol version).
    Pos,
    /// A raw byte blob covering the rest of the packet body.
    RemainingBytes,
    /// A byte blob with a `VarShort` length prefix.
    ShortBytes,
    /// A zero-byte placeholder for an empty packet.
    Unit,
}

/// A presence predicate: whether a field occupies bytes, decided from the
/// fields declared before it.
#[derive(Clone, Copy, Debug, PartialEq, Eq, Structural)]
pub enum Presence {
    /// The field is always present.
    Always,
    /// Present exactly when the boolean field at the given index is true.
    IfBool(usize),
    /// Present exactly when the `VarInt` field at the given index holds the
    /// given value.
    IfVarIntEq(usize, i32),
}

/// One field of a packet shape: its wire type and its presence predicate.
#[derive(Clone, Copy, Debug, PartialEq, Eq, Structural)]
pub struct PacketField {
    /// The field's wire type.
    pub ty: FieldType,
    /// When the field is present.
    pub when: Presence,
}

/// A decoded field value.
#[derive(Clone, Debug, PartialEq)]
pub enum FieldValue {
    /// A boolean.
    Bool(bool),
    /// An unsigned 16-bit integer.
    U16(u16),
    /// A signed 64-bit integer.
    I64(i64),
    /// A variable-width 32-bit integer.
    VInt(VarInt),
    /// A variable-width 64-bit integer.
    VLong(VarLong),
    /// A variable-width 23-bit integer.
    VShort(VarShort),
    /// A string.
    Str(String),
    /// A 128-bit identifier.
    Id(UUID),
    /// A packed coordinate.
    Pos(Position),
    /// A raw byte blob covering the rest of the packet body.
    Bytes(Vec<u8>),
    /// A byte blob with a `VarShort` length prefix.
    ShortBytes(Vec<u8>),
    /// The zero-byte placeholder.
    Unit,
}

/// The mathematical model of a field value: strings and blobs as sequences.
pub enum FieldModel {
    /// A boolean.
    Bool(bool),
    /// An unsigned 16-bit integer.
    U16(u16),
    /// A signed 64-bit integer.
    I64(i64),
    /// A variable-width 32-bit integer.
    VInt(VarInt),
    /// A variable-width 64-bit integer.
    VLong(VarLong),
    /// A variable-width 23-bit integer.
    VShort(VarShort),
    /// A string, as its character sequence.
    Str(Seq<char>),
    /// A 128-bit identifier.
    Id(UUID),
    /// A packed coordinate.
    Pos(Position),
    /// A raw byte blob covering the rest of the packet body.
    Bytes(Seq<u8>),
    /// A byte blob with a `VarShort` length prefix.
    ShortBytes(Seq<u8>),
    /// The zero-byte placeholder.
    Unit,
}

impl View for FieldValue {
    type V = FieldModel;

    open spec fn view(&self) -> FieldModel {
        match self {
            FieldValue::Bool(b) => FieldModel::Bool(*b),
            FieldValue::U16(v) => FieldModel::U16(*v),
            FieldValue::I64(v) => FieldModel::I64(*v),
            FieldValue::VInt(v) => FieldModel::VInt(*v),
            FieldValue::VLong(v) => FieldModel::VLong(*v),
            FieldValue::VShort(v) => FieldModel::VShort(*v),
            FieldValue::Str(s) => FieldModel::Str(s@),
            FieldValue::Id(u) => FieldModel::Id(*u),
            FieldValue::Pos(p) => FieldModel::Pos(*p),
            FieldValue::Bytes(b) => FieldModel::Bytes(b@),
            FieldValue::ShortBytes(b) => FieldModel::ShortBytes(b@),
            FieldValue::Unit => FieldModel::Unit,
        }
    }
}

/// The models of a sequence of field values.
pub open spec fn models_of(s: Seq<FieldValue>) -> Seq<FieldModel> {
    s.map_values(|v: FieldValue| v@)
}

/// Whether a model value carries the given wire type.
pub open spec fn model_has_type(v: FieldModel, ty: FieldType) -> bool {
    match v {
        FieldModel::Bool(_) => ty is Bool,
        FieldModel::U16(_) => ty is U16,
        FieldModel::I64(_) => ty is I64,
        FieldModel::VInt(_) => ty is VarInt,
        FieldModel::VLong(_) => ty is VarLong,
        FieldModel::VShort(_) => ty is VarShort,
        FieldModel::Str(_) => ty is Str,
        FieldModel::Id(_) => ty is Uuid,
        FieldModel::Pos(_) => ty is Pos,
        FieldModel::Bytes(_) => ty is RemainingBytes,
        FieldModel::ShortBytes(_) => ty is ShortBytes,
        FieldModel::Unit => ty is Unit,
    }
}

/// The default model value a skipped field takes on decode.
pub open spec fn field_default_model(ty: FieldType) -> FieldModel {
    match ty {
        FieldType::Bool => FieldModel::Bool(false),
        FieldType::U16 => FieldModel::U16(0),
        FieldType::I64 => FieldModel::I64(0),
        FieldType::VarInt => FieldModel::VInt(VarInt(0)),
        FieldType::VarLong => FieldModel::VLong(VarLong(0)),
        FieldType::VarShort => FieldModel::VShort(VarShort(0)),
        FieldType::Str => FieldModel::Str(Seq::empty()),
        FieldType::Uuid => FieldModel::Id(UUID(0, 0)),
        FieldType::Pos => FieldModel::Pos(Position { x: 0, y: 0, z: 0 }),
        FieldType::RemainingBytes => FieldModel::Bytes(Seq::empty()),
        FieldType::ShortBytes => FieldModel::ShortBytes(Seq::empty()),
        FieldType::Unit => FieldModel::Unit,
    }
}

/// The default value a skipped field takes on decode.
pub fn field_default(ty: FieldType) -> (r: FieldValue)
    ensures
        r@ == field_default_model(ty),
{
    match ty {
        FieldType::Bool => FieldValue::Bool(false),
        FieldType::U16 => FieldValue::U16(0),
        FieldType::I64 => FieldValue::I64(0),
        FieldType::VarInt => FieldValue::VInt(VarInt(0)),
        FieldType::VarLong => FieldValue::VLong(VarLong(0)),
        FieldType::VarShort => FieldValue::VShort(VarShort(0)),
        FieldType::Str => FieldValue::Str(String::new()),
        FieldType::Uuid => FieldValue::Id(UUID(0, 0)),
        FieldType::Pos => FieldValue::Pos(Position { x: 0, y: 0, z: 0 }),
        FieldType::RemainingBytes => FieldValue::Bytes(Vec::new()),
        FieldType::ShortBytes => FieldValue::ShortBytes(Vec::new()),
        FieldType::Unit => FieldValue::Unit,
    }
}

/// Whether a presence predicate holds over the fields before this one.
/// An out-of-range or differently-typed reference makes the field absent.
pub open spec fn presence_holds(p: Presence, prior: Seq<FieldModel>) -> bool {
    match p {
        Presence::Always => true,
        Presence::IfBool(j) => j < prior.len() && prior[j as int] == FieldModel::Bool(true),
        Presence::IfVarIntEq(j, x) => j < prior.len() && prior[j as int] == FieldModel::VInt(
            VarInt(x),
        ),
    }
}

/// Evaluates a presence predicate over already-decoded fields.
pub fn presence_eval(p: &Presence, prior: &Vec<FieldValue>) -> (r: bool)
    ensures
        r == presence_holds(*p, models_of(prior@)),
{
    match p {
        Presence::Always => true,
        Presence::IfBool(j) => {
            if *j < prior.len() {
                match &prior[*j] {
                    FieldValue::Bool(b) => *b,
                    _ => false,
                }
            } else {
                false
            }
        },
        Presence::IfVarIntEq(j, x) => {
            if *j < prior.len() {
                match &prior[*j] {
                    FieldValue::VInt(v) => v.0 == *x,
                    _ => false,
                }
            } else {
                false
            }
        },
    }
}

/// What a stream decodes to as one field of the given type at the given
/// protocol version.
pub open spec fn field_decoded(ty: FieldType, protocol_version: i32, s: Seq<u8>) -> Option<
    (FieldModel, int),
> {
    match ty {
        FieldType::Bool => match <bool as Serializable>::decoded(s) {
            Some((v, n)) => Some((FieldModel::Bool(v), n)),
            None => None,
        },
        FieldType::U16 => match <u16 as Serializable>::decoded(s) {
            Some((v, n)) => Some((FieldModel::U16(v), n)),
            None => None,
        },
        FieldType::I64 => match <i64 as Serializable>::decoded(s) {
            Some((v, n)) => Some((FieldModel::I64(v), n)),
            None => None,
        },
        FieldType::VarInt => match varint_decoded(s) {
            Some((v, n)) => Some((FieldModel::VInt(v), n)),
            None => None,
        },
        FieldType::VarLong => match varlong_decoded(s) {
            Some((v, n)) => Some((FieldModel::VLong(v), n)),
            None => None,
        },
        FieldType::VarShort => match varshort_decoded(s) {
            Some((v, n)) => Some((FieldModel::VShort(v), n)),
            None => None,
        },
        FieldType::Str => match string_decoded(s) {
            Some((v, n)) => Some((FieldModel::Str(v), n)),
            None => None,
        },
        FieldType::Uuid => match <UUID as Serializable>::decoded(s) {
            Some((v, n)) => Some((FieldModel::Id(v), n)),
            None => None,
        },
        FieldType::Pos => match position_decoded(protocol_version, s) {
            Some((v, n)) => Some((FieldModel::Pos(v), n)),
            None => None,
        },
        FieldType::RemainingBytes => Some((FieldModel::Bytes(s), s.len() as int)),
        FieldType::ShortBytes => match <LenPrefixedBytes<VarShort> as Serializable>::decoded(s) {
            Some((v, n)) => Some((FieldModel::ShortBytes(v), n)),
            None => None,
        },
        FieldType::Unit => Some((FieldModel::Unit, 0)),
    }
}

/// Whether a model value can be written at all.
pub open spec fn field_model_encodable(v: FieldModel) -> bool {
    match v {
        FieldModel::Str(cs) => encode_utf8(cs).len() <= 0x7fffffff,
        FieldModel::VShort(x) => 0 <= x.0 <= 0x7fffff,
        FieldModel::ShortBytes(b) => 0 <= VarShort::spec_from_len(b.len() as int).0 <= 0x7fffff,
        _ => true,
    }
}

/// The wire bytes of a model value at a protocol version.
pub open spec fn field_model_encoding(v: FieldModel, protocol_version: i32) -> Seq<u8> {
    match v {
        FieldModel::Bool(b) => seq![if b { 1u8 } else { 0u8 }],
        FieldModel::U16(x) => be_u16(x),
        FieldModel::I64(x) => be_u64(u64_of_i64(x)),
        FieldModel::VInt(x) => varnum_enc(u32_of_i32(x.0) as nat),
        FieldModel::VLong(x) => varnum_enc(u64_of_i64(x.0) as nat),
        FieldModel::VShort(x) => x.encoding(),
        FieldModel::Str(cs) => varnum_enc(encode_utf8(cs).len()) + encode_utf8(cs),
        FieldModel::Id(u) => u.encoding(),
        FieldModel::Pos(p) => position_encoding(protocol_version, p),
        FieldModel::Bytes(b) => b,
        FieldModel::ShortBytes(b) => VarShort::spec_from_len(b.len() as int).encoding() + b,
        FieldModel::Unit => Seq::empty(),
    }
}

/// Reads one field of the given type.
pub fn read_field(ty: FieldType, protocol_version: i32, r: &mut Reader) -> (res: Result<
    FieldValue,
    Error,
>)
    requires
        old(r).wf(),
    ensures
        final(r).wf(),
        final(r).data_seq() == old(r).data_seq(),
        final(r).position() >= old(r).position(),
        match field_decoded(ty, protocol_version, old(r).remaining_bytes()) {
            Some((v, n)) => res matches Ok(x) && x@ == v && final(r).position() == old(
                r,
            ).position() + n,
            None => res matches Err(e) && e.is_decode_error(),
        },
{
    match ty {
        FieldType::Bool => match <bool as Serializable>::read_from(r) {
            Ok(v) => Ok(FieldValue::Bool(v)),
            Err(e) => Err(e),
        },
        FieldType::U16 => match <u16 as Serializable>::read_from(r) {
            Ok(v) => Ok(FieldValue::U16(v)),
            Err(e) => Err(e),
        },
        FieldType::I64 => match <i64 as Serializable>::read_from(r) {
            Ok(v) => Ok(FieldValue::I64(v)),
            Err(e) => Err(e),
        },
        FieldType::VarInt => match VarInt::read_varint(r) {
            Ok(v) => Ok(FieldValue::VInt(v)),
            Err(e) => Err(e),
        },
        FieldType::VarLong => match VarLong::read_varlong(r) {
            Ok(v) => Ok(FieldValue::VLong(v)),
            Err(e) => Err(e),
        },
        FieldType::VarShort => match VarShort::read_varshort(r) {
            Ok(v) => Ok(FieldValue::VShort(v)),
            Err(e) => Err(e),
        },
        FieldType::Str => match <String as Serializable>::read_from(r) {
            Ok(v) => Ok(FieldValue::Str(v)),
            Err(e) => Err(e),
        },
        FieldType::Uuid => match <UUID as Serializable>::read_from(r) {
            Ok(v) => Ok(FieldValue::Id(v)),
            Err(e) => Err(e),
        },
        FieldType::Pos => match Position::read_from(r, protocol_version) {
            Ok(v) => Ok(FieldValue::Pos(v)),
            Err(e) => Err(e),
        },
        FieldType::RemainingBytes => {
            let v = r.read_to_end();
            Ok(FieldValue::Bytes(v))
        },
        FieldType::ShortBytes => match <LenPrefixedBytes<VarShort> as Serializable>::read_from(r) {
            Ok(v) => Ok(FieldValue::ShortBytes(v.data)),
            Err(e) => Err(e),
        },
        FieldType::Unit => Ok(FieldValue::Unit),
    }
}

/// Writes one field value.
pub fn write_field(v: &FieldValue, protocol_version: i32, w: &mut Vec<u8>) -> (res: Result<
    (),
    Error,
>)
    ensures
        field_model_encodable(v@) ==> res is Ok && final(w)@ == old(w)@ + field_model_encoding(
            v@,
            protocol_version,
        ),
        !field_model_encodable(v@) ==> res is Err,
{
    match v {
        FieldValue::Bool(b) => <bool as Serializable>::write_to(b, w),
        FieldValue::U16(x) => <u16 as Serializable>::write_to(x, w),
        FieldValue::I64(x) => <i64 as Serializable>::write_to(x, w),
        FieldValue::VInt(x) => {
            x.write_varint(w);
            Ok(())
        },
        FieldValue::VLong(x) => {
            x.write_varlong(w);
            Ok(())
        },
        FieldValue::VShort(x) => x.write_varshort(w),
        FieldValue::Str(s) => <String as Serializable>::write_to(s, w),
        FieldValue::Id(u) => <UUID as Serializable>::write_to(u, w),
        FieldValue::Pos(p) => p.write_to(w, protocol_version),
        FieldValue::Bytes(b) => {
            w.extend_from_slice(b.as_slice());
            proof {
                assert(w@ =~= old(w)@ + field_model_encoding(v@, protocol_version));
            }
            Ok(())
        },
        FieldValue::ShortBytes(b) => {
            let blob: LenPrefixedBytes<VarShort> = LenPrefixedBytes::new(b.clone());
            match blob.write_to(w) {
                Ok(()) => Ok(()),
                Err(e) => Err(e),
            }
        },
        FieldValue::Unit => {
            proof {
                assert(w@ =~= old(w)@ + field_model_encoding(v@, protocol_version));
            }
            Ok(())
        },
    }
}


/// Whether a value carries the given wire type.
pub fn value_has_type(v: &FieldValue, ty: FieldType) -> (r: bool)
    ensures
        r == model_has_type(v@, ty),
{
    match v {
        FieldValue::Bool(_) => matches!(ty, FieldType::Bool),
        FieldValue::U16(_) => matches!(ty, FieldType::U16),
        FieldValue::I64(_) => matches!(ty, FieldType::I64),
        FieldValue::VInt(_) => matches!(ty, FieldType::VarInt),
        FieldValue::VLong(_) => matches!(ty, FieldType::VarLong),
        FieldValue::VShort(_) => matches!(ty, FieldType::VarShort),
        FieldValue::Str(_) => matches!(ty, FieldType::Str),
        FieldValue::Id(_) => matches!(ty, FieldType::Uuid),
        FieldValue::Pos(_) => matches!(ty, FieldType::Pos),
        FieldValue::Bytes(_) => matches!(ty, FieldType::RemainingBytes),
        FieldValue::ShortBytes(_) => matches!(ty, FieldType::ShortBytes),
        FieldValue::Unit => matches!(ty, FieldType::Unit),
    }
}

/// Decodes a shape's fields in declared order, evaluating each field's
/// presence predicate against the fields decoded so far (`prior`); a skipped
/// field takes its type's default value and consumes no bytes.
pub open spec fn fields_decoded(
    descs: Seq<PacketField>,
    protocol_version: i32,
    s: Seq<u8>,
    prior: Seq<FieldModel>,
) -> Option<(Seq<FieldModel>, int)>
    decreases descs.len(),
{
    if descs.len() == 0 {
        Some((Seq::empty(), 0))
    } else {
        let d = descs[0];
        if presence_holds(d.when, prior) {
            match field_decoded(d.ty, protocol_version, s) {
                None => None,
                Some((v, k)) => match fields_decoded(
                    descs.drop_first(),
                    protocol_version,
                    s.skip(k),
                    prior.push(v),
                ) {
                    None => None,
                    Some((rest, m)) => Some((seq![v] + rest, k + m)),
                },
            }
        } else {
            let v = field_default_model(d.ty);
            match fields_decoded(descs.drop_first(), protocol_version, s, prior.push(v)) {
                None => None,
                Some((rest, m)) => Some((seq![v] + rest, m)),
            }
        }
    }
}

/// A successful field decode consumes between zero and all of the input.
pub proof fn lemma_field_decoded_len(ty: FieldType, protocol_version: i32, s: Seq<u8>)
    ensures
        field_decoded(ty, protocol_version, s) matches Some((v, n)) ==> 0 <= n <= s.len(),
{
    match ty {
        FieldType::Bool => {},
        FieldType::U16 => {},
        FieldType::I64 => {},
        FieldType::VarInt => {
            crate::varint::lemma_varnum_dec_len(s, 5);
        },
        FieldType::VarLong => {
            crate::varint::lemma_varnum_dec_len(s, 10);
        },
        FieldType::VarShort => {},
        FieldType::Str => {
            crate::varint::lemma_varnum_dec_len(s, 5);
        },
        FieldType::Uuid => {},
        FieldType::Pos => {},
        FieldType::RemainingBytes => {},
        FieldType::ShortBytes => {
            <LenPrefixedBytes<VarShort> as Serializable>::lemma_decoded_len(s);
        },
        FieldType::Unit => {},
    }
}

/// A successful shape decode consumes between zero and all of the input and
/// yields one value per declared field.
pub proof fn lemma_fields_decoded_len(
    descs: Seq<PacketField>,
    protocol_version: i32,
    s: Seq<u8>,
    prior: Seq<FieldModel>,
)
    ensures
        fields_decoded(descs, protocol_version, s, prior) matches Some((es, m)) ==> 0 <= m
            <= s.len() && es.len() == descs.len(),
    decreases descs.len(),
{
    if descs.len() > 0 {
        let d = descs[0];
        lemma_field_decoded_len(d.ty, protocol_version, s);
        if presence_holds(d.when, prior) {
            match field_decoded(d.ty, protocol_version, s) {
                None => {},
                Some((v, k)) => {
                    lemma_fields_decoded_len(
                        descs.drop_first(),
                        protocol_version,
                        s.skip(k),
                        prior.push(v),
                    );
                },
            }
        } else {
            lemma_fields_decoded_len(
                descs.drop_first(),
                protocol_version,
                s,
                prior.push(field_default_model(d.ty)),
            );
        }
    }
}

/// The wire bytes of a shape's fields from index `i` on, at the given
/// protocol version: each present field's encoding, in declared order.
/// Presence is evaluated over the complete value list, as the writer sees
/// the whole packet.
pub open spec fn fields_encoding(
    descs: Seq<PacketField>,
    protocol_version: i32,
    values: Seq<FieldModel>,
    i: int,
) -> Seq<u8>
    decreases descs.len() - i,
{
    if i < 0 || i >= descs.len() {
        Seq::empty()
    } else {
        (if presence_holds(descs[i].when, values) {
            field_model_encoding(values[i], protocol_version)
        } else {
            Seq::empty()
        }) + fields_encoding(descs, protocol_version, values, i + 1)
    }
}

/// Whether a value list can be written for a shape: one value per field, of
/// the declared types, every present value encodable.
pub open spec fn fields_encodable(descs: Seq<PacketField>, values: Seq<FieldModel>) -> bool {
    &&& values.len() == descs.len()
    &&& forall|i: int|
        0 <= i < descs.len() ==> model_has_type(#[trigger] values[i], descs[i].ty)
    &&& forall|i: int|
        0 <= i < descs.len() && presence_holds(descs[i].when, values) ==> field_model_encodable(
            #[trigger] values[i],
        )
}

/// Reads a shape's fields in declared order.
pub fn decode_fields(descs: &Vec<PacketField>, protocol_version: i32, r: &mut Reader) -> (res:
    Result<Vec<FieldValue>, Error>)
    requires
        old(r).wf(),
    ensures
        final(r).wf(),
        final(r).data_seq() == old(r).data_seq(),
        final(r).position() >= old(r).position(),
        match fields_decoded(descs@, protocol_version, old(r).remaining_bytes(), Seq::empty()) {
            Some((es, m)) => res matches Ok(vs) && models_of(vs@) == es && final(r).position()
                == old(r).position() + m,
            None => res matches Err(e) && e.is_decode_error(),
        },
{
    let mut vs: Vec<FieldValue> = Vec::new();
    let mut i: usize = 0;
    proof {
        assert(models_of(vs@) =~= Seq::<FieldModel>::empty());
        assert(descs@.skip(0) =~= descs@);
        match fields_decoded(descs@, protocol_version, r.remaining_bytes(), Seq::empty()) {
            Some((es, m)) => {
                assert(models_of(vs@) + es =~= es);
            },
            None => {},
        }
    }
    while i < descs.len()
        invariant
            r.wf(),
            r.data_seq() == old(r).data_seq(),
            r.position() >= old(r).position(),
            i <= descs@.len(),
            vs@.len() == i,
            match fields_decoded(descs@.skip(i as int), protocol_version, r.remaining_bytes(),
                models_of(vs@)) {
                Some((es, m)) => fields_decoded(
                    descs@,
                    protocol_version,
                    old(r).remaining_bytes(),
                    Seq::empty(),
                ) == Some((models_of(vs@) + es, (r.position() - old(r).position()) + m)),
                None => fields_decoded(
                    descs@,
                    protocol_version,
                    old(r).remaining_bytes(),
                    Seq::empty(),
                ) is None,
            },
        decreases descs@.len() - i,
    {
        let d = descs[i];
        let ghost rem = r.remaining_bytes();
        let ghost before = models_of(vs@);
        proof {
            assert(descs@.skip(i as int)[0] == descs@[i as int]);
            assert(descs@.skip(i as int).drop_first() =~= descs@.skip(i as int + 1));
        }
        if presence_eval(&d.when, &vs) {
            let x = match read_field(d.ty, protocol_version, r) {
                Ok(x) => x,
                Err(e) => {
                    return Err(e);
                },
            };
            vs.push(x);
            i = i + 1;
            proof {
                match field_decoded(d.ty, protocol_version, rem) {
                    Some((v, k)) => {
                        assert(r.remaining_bytes() =~= rem.skip(k));
                        assert(models_of(vs@) =~= before.push(v));
                        match fields_decoded(descs@.skip(i as int), protocol_version,
                            r.remaining_bytes(), models_of(vs@)) {
                            Some((es, m)) => {
                                assert(before.push(v) + es =~= before + (seq![v] + es));
                            },
                            None => {},
                        }
                    },
                    None => {},
                }
            }
        } else {
            let x = field_default(d.ty);
            vs.push(x);
            i = i + 1;
            proof {
                let v = field_default_model(d.ty);
                assert(models_of(vs@) =~= before.push(v));
                match fields_decoded(descs@.skip(i as int), protocol_version, r.remaining_bytes(),
                    models_of(vs@)) {
                    Some((es, m)) => {
                        assert(before.push(v) + es =~= before + (seq![v] + es));
                    },
                    None => {},
                }
            }
        }
    }
    proof {
        assert(descs@.skip(i as int) =~= Seq::<PacketField>::empty());
        match fields_decoded(descs@.skip(i as int), protocol_version, r.remaining_bytes(),
            models_of(vs@)) {
            Some((es, m)) => {
                assert(models_of(vs@) + es =~= models_of(vs@));
            },
            None => {},
        }
    }
    Ok(vs)
}

/// Writes a shape's fields in declared order, each present field's value
/// under its predicate; fails when a value is missing, of the wrong type, or
/// not encodable.
pub fn write_fields(
    descs: &Vec<PacketField>,
    protocol_version: i32,
    values: &Vec<FieldValue>,
    w: &mut Vec<u8>,
) -> (res: Result<(), Error>)
    ensures
        fields_encodable(descs@, models_of(values@)) ==> res is Ok && final(w)@ == old(w)@
            + fields_encoding(descs@, protocol_version, models_of(values@), 0),
        !fields_encodable(descs@, models_of(values@)) ==> res is Err,
{
    if values.len() != descs.len() {
        return Err(Error::FieldDecodeFailure);
    }
    let ghost models = models_of(values@);
    let mut i: usize = 0;
    while i < descs.len()
        invariant
            values@.len() == descs@.len(),
            models == models_of(values@),
            i <= descs@.len(),
            forall|j: int|
                0 <= j < i ==> model_has_type(#[trigger] models[j], descs@[j].ty),
            forall|j: int|
                0 <= j < i && presence_holds(descs@[j].when, models) ==> field_model_encodable(
                    #[trigger] models[j],
                ),
            old(w)@ + fields_encoding(descs@, protocol_version, models, 0) == w@
                + fields_encoding(descs@, protocol_version, models, i as int),
        decreases descs@.len() - i,
    {
        let d = descs[i];
        proof {
            assert(models[i as int] == values@[i as int]@);
        }
        if !value_has_type(&values[i], d.ty) {
            return Err(Error::FieldDecodeFailure);
        }
        let ghost before = w@;
        if presence_eval(&d.when, values) {
            match write_field(&values[i], protocol_version, w) {
                Ok(()) => {},
                Err(e) => {
                    return Err(e);
                },
            }
            proof {
                assert(w@ + fields_encoding(descs@, protocol_version, models, i as int + 1)
                    =~= before + fields_encoding(descs@, protocol_version, models, i as int));
            }
        } else {
            proof {
                assert(w@ + fields_encoding(descs@, protocol_version, models, i as int + 1)
                    =~= before + fields_encoding(descs@, protocol_version, models, i as int));
            }
        }
        i = i + 1;
    }
    proof {
        assert(fields_encoding(descs@, protocol_version, models, i as int)
            =~= Seq::<u8>::empty());
        assert(w@ =~= old(w)@ + fields_encoding(descs@, protocol_version, models, 0));
    }
    Ok(())
}


/// A decoded or to-be-encoded packet: its stable internal identifier within
/// its (state, direction) group, and its field values in declared order.
#[derive(Clone, Debug, PartialEq)]
pub struct Packet {
    /// The version-independent identifier of the packet's shape.
    pub internal_id: i32,
    /// The field values, one per declared field.
    pub fields: Vec<FieldValue>,
}

impl View for Packet {
    type V = (i32, Seq<FieldModel>);

    open spec fn view(&self) -> (i32, Seq<FieldModel>) {
        (self.internal_id, models_of(self.fields@))
    }
}

/// Internal id of the handshake packet (handshaking, serverbound).
pub const HANDSHAKE: i32 = 0;

/// Internal id of the status request packet (status, serverbound).
pub const STATUS_REQUEST: i32 = 0;

/// Internal id of the status ping packet (status, serverbound).
pub const STATUS_PING: i32 = 1;

/// Internal id of the status response packet (status, clientbound).
pub const STATUS_RESPONSE: i32 = 0;

/// Internal id of the status pong packet (status, clientbound).
pub const STATUS_PONG: i32 = 1;

/// Internal id of the login plugin response packet (login, serverbound).
pub const LOGIN_PLUGIN_RESPONSE: i32 = 0;

/// Internal id of the disconnect packet (login, clientbound), carrying the
/// server's formatted reason.
pub const LOGIN_DISCONNECT: i32 = 0;

/// Internal id of the plugin message packet (play, serverbound).
pub const PLUGIN_MESSAGE_SERVERBOUND: i32 = 0;

/// Internal id of the legacy plugin message packet with a `VarShort` length
/// prefix (play, serverbound).
pub const PLUGIN_MESSAGE_SERVERBOUND_I16: i32 = 1;

/// An always-present field of the given type.
pub open spec fn spec_field(ty: FieldType) -> PacketField {
    PacketField { ty, when: Presence::Always }
}

/// The declared field table of a shape: the ordered field descriptors of the
/// packet with the given internal id in the given (state, direction) group,
/// or `None` when the catalog has no such shape.
pub open spec fn spec_shape_fields(state: State, dir: Direction, internal_id: i32) -> Option<
    Seq<PacketField>,
> {
    match (state, dir) {
        (State::Handshaking, Direction::Serverbound) => if internal_id == HANDSHAKE {
            // protocol version, host, port, next state
            Some(
                seq![
                    spec_field(FieldType::VarInt),
                    spec_field(FieldType::Str),
                    spec_field(FieldType::U16),
                    spec_field(FieldType::VarInt),
                ],
            )
        } else {
            None
        },
        (State::Status, Direction::Serverbound) => if internal_id == STATUS_REQUEST {
            Some(seq![spec_field(FieldType::Unit)])
        } else if internal_id == STATUS_PING {
            // ping marker
            Some(seq![spec_field(FieldType::I64)])
        } else {
            None
        },
        (State::Status, Direction::Clientbound) => if internal_id == STATUS_RESPONSE {
            // status JSON document
            Some(seq![spec_field(FieldType::Str)])
        } else if internal_id == STATUS_PONG {
            // pong marker
            Some(seq![spec_field(FieldType::I64)])
        } else {
            None
        },
        (State::Login, Direction::Serverbound) => if internal_id == LOGIN_PLUGIN_RESPONSE {
            // message id, successful, raw payload
            Some(
                seq![
                    spec_field(FieldType::VarInt),
                    spec_field(FieldType::Bool),
                    spec_field(FieldType::RemainingBytes),
                ],
            )
        } else {
            None
        },
        (State::Login, Direction::Clientbound) => if internal_id == LOGIN_DISCONNECT {
            // the server's formatted reason
            Some(seq![spec_field(FieldType::Str)])
        } else {
            None
        },
        (State::Play, Direction::Serverbound) => if internal_id == PLUGIN_MESSAGE_SERVERBOUND {
            // channel, raw payload
            Some(seq![spec_field(FieldType::Str), spec_field(FieldType::RemainingBytes)])
        } else if internal_id == PLUGIN_MESSAGE_SERVERBOUND_I16 {
            // channel, length-prefixed payload
            Some(seq![spec_field(FieldType::Str), spec_field(FieldType::ShortBytes)])
        } else {
            None
        },
        _ => None,
    }
}

/// An always-present field of the given type.
pub fn field_always(ty: FieldType) -> (r: PacketField)
    ensures
        r == spec_field(ty),
{
    PacketField { ty, when: Presence::Always }
}

/// The declared field table of a shape.
pub fn shape_fields(state: State, dir: Direction, internal_id: i32) -> (res: Option<
    Vec<PacketField>,
>)
    ensures
        match spec_shape_fields(state, dir, internal_id) {
            Some(fs) => res matches Some(v) && v@ == fs,
            None => res is None,
        },
{
    let fs: Vec<PacketField> = match (state, dir) {
        (State::Handshaking, Direction::Serverbound) => {
            if internal_id == HANDSHAKE {
                vec![
                    field_always(FieldType::VarInt),
                    field_always(FieldType::Str),
                    field_always(FieldType::U16),
                    field_always(FieldType::VarInt),
                ]
            } else {
                return None;
            }
        },
        (State::Status, Direction::Serverbound) => {
            if internal_id == STATUS_REQUEST {
                vec![field_always(FieldType::Unit)]
            } else if internal_id == STATUS_PING {
                vec![field_always(FieldType::I64)]
            } else {
                return None;
            }
        },
        (State::Status, Direction::Clientbound) => {
            if internal_id == STATUS_RESPONSE {
                vec![field_always(FieldType::Str)]
            } else if internal_id == STATUS_PONG {
                vec![field_always(FieldType::I64)]
            } else {
                return None;
            }
        },
        (State::Login, Direction::Serverbound) => {
            if internal_id == LOGIN_PLUGIN_RESPONSE {
                vec![
                    field_always(FieldType::VarInt),
                    field_always(FieldType::Bool),
                    field_always(FieldType::RemainingBytes),
                ]
            } else {
                return None;
            }
        },
        (State::Login, Direction::Clientbound) => {
            if internal_id == LOGIN_DISCONNECT {
                vec![field_always(FieldType::Str)]
            } else {
                return None;
            }
        },
        (State::Play, Direction::Serverbound) => {
            if internal_id == PLUGIN_MESSAGE_SERVERBOUND {
                vec![field_always(FieldType::Str), field_always(FieldType::RemainingBytes)]
            } else if internal_id == PLUGIN_MESSAGE_SERVERBOUND_I16 {
                vec![field_always(FieldType::Str), field_always(FieldType::ShortBytes)]
            } else {
                return None;
            }
        },
        _ => {
            return None;
        },
    };
    proof {
        assert(fs@ =~= spec_shape_fields(state, dir, internal_id).unwrap());
    }
    Some(fs)
}

/// One row of the wire-id translation table: within the given (state,
/// direction) and the inclusive protocol version range, the shape with the
/// given internal id is sent with the given wire id.
#[derive(Clone, Copy, Debug, PartialEq, Eq, Structural)]
pub struct IdMapping {
    /// The connection state the row applies to.
    pub state: State,
    /// The direction the row applies to.
    pub direction: Direction,
    /// The first protocol version of the row's range.
    pub min_version: i32,
    /// The last protocol version of the row's range.
    pub max_version: i32,
    /// The version-independent identifier.
    pub internal_id: i32,
    /// The on-wire identifier within the row's range.
    pub wire_id: i32,
}

/// The declared wire-id translation table.
pub open spec fn spec_id_table() -> Seq<IdMapping> {
    seq![
        IdMapping {
            state: State::Handshaking,
            direction: Direction::Serverbound,
            min_version: 0,
            max_version: i32::MAX,
            internal_id: HANDSHAKE,
            wire_id: 0x00,
        },
        IdMapping {
            state: State::Status,
            direction: Direction::Serverbound,
            min_version: 0,
            max_version: i32::MAX,
            internal_id: STATUS_REQUEST,
            wire_id: 0x00,
        },
        IdMapping {
            state: State::Status,
            direction: Direction::Serverbound,
            min_version: 0,
            max_version: i32::MAX,
            internal_id: STATUS_PING,
            wire_id: 0x01,
        },
        IdMapping {
            state: State::Status,
            direction: Direction::Clientbound,
            min_version: 0,
            max_version: i32::MAX,
            internal_id: STATUS_RESPONSE,
            wire_id: 0x00,
        },
        IdMapping {
            state: State::Status,
            direction: Direction::Clientbound,
            min_version: 0,
            max_version: i32::MAX,
            internal_id: STATUS_PONG,
            wire_id: 0x01,
        },
        IdMapping {
            state: State::Login,
            direction: Direction::Serverbound,
            min_version: 393,
            max_version: i32::MAX,
            internal_id: LOGIN_PLUGIN_RESPONSE,
            wire_id: 0x02,
        },
        IdMapping {
            state: State::Login,
            direction: Direction::Clientbound,
            min_version: 0,
            max_version: i32::MAX,
            internal_id: LOGIN_DISCONNECT,
            wire_id: 0x00,
        },
        IdMapping {
            state: State::Play,
            direction: Direction::Serverbound,
            min_version: 47,
            max_version: 404,
            internal_id: PLUGIN_MESSAGE_SERVERBOUND,
            wire_id: 0x09,
        },
        IdMapping {
            state: State::Play,
            direction: Direction::Serverbound,
            min_version: 405,
            max_version: i32::MAX,
            internal_id: PLUGIN_MESSAGE_SERVERBOUND,
            wire_id: 0x0B,
        },
        IdMapping {
            state: State::Play,
            direction: Direction::Serverbound,
            min_version: 0,
            max_version: 46,
            internal_id: PLUGIN_MESSAGE_SERVERBOUND_I16,
            wire_id: 0x17,
        },
    ]
}

/// The declared wire-id translation table.
pub fn id_table() -> (r: Vec<IdMapping>)
    ensures
        r@ == spec_id_table(),
{
    let r: Vec<IdMapping> = vec![
        IdMapping {
            state: State::Handshaking,
            direction: Direction::Serverbound,
            min_version: 0,
            max_version: i32::MAX,
            internal_id: HANDSHAKE,
            wire_id: 0x00,
        },
        IdMapping {
            state: State::Status,
            direction: Direction::Serverbound,
            min_version: 0,
            max_version: i32::MAX,
            internal_id: STATUS_REQUEST,
            wire_id: 0x00,
        },
        IdMapping {
            state: State::Status,
            direction: Direction::Serverbound,
            min_version: 0,
            max_version: i32::MAX,
            internal_id: STATUS_PING,
            wire_id: 0x01,
        },
        IdMapping {
            state: State::Status,
            direction: Direction::Clientbound,
            min_version: 0,
            max_version: i32::MAX,
            internal_id: STATUS_RESPONSE,
            wire_id: 0x00,
        },
        IdMapping {
            state: State::Status,
            direction: Direction::Clientbound,
            min_version: 0,
            max_version: i32::MAX,
            internal_id: STATUS_PONG,
            wire_id: 0x01,
        },
        IdMapping {
            state: State::Login,
            direction: Direction::Serverbound,
            min_version: 393,
            max_version: i32::MAX,
            internal_id: LOGIN_PLUGIN_RESPONSE,
            wire_id: 0x02,
        },
        IdMapping {
            state: State::Login,
            direction: Direction::Clientbound,
            min_version: 0,
            max_version: i32::MAX,
            internal_id: LOGIN_DISCONNECT,
            wire_id: 0x00,
        },
        IdMapping {
            state: State::Play,
            direction: Direction::Serverbound,
            min_version: 47,
            max_version: 404,
            internal_id: PLUGIN_MESSAGE_SERVERBOUND,
            wire_id: 0x09,
        },
        IdMapping {
            state: State::Play,
            direction: Direction::Serverbound,
            min_version: 405,
            max_version: i32::MAX,
            internal_id: PLUGIN_MESSAGE_SERVERBOUND,
            wire_id: 0x0B,
        },
        IdMapping {
            state: State::Play,
            direction: Direction::Serverbound,
            min_version: 0,
            max_version: 46,
            internal_id: PLUGIN_MESSAGE_SERVERBOUND_I16,
            wire_id: 0x17,
        },
    ];
    proof {
        assert(r@ =~= spec_id_table());
    }
    r
}

/// Whether a table row applies to the given version, state and direction.
pub open spec fn entry_applies(e: IdMapping, version: i32, state: State, dir: Direction) -> bool {
    e.state == state && e.direction == dir && e.min_version <= version <= e.max_version
}

/// The wire id of an internal id: the first applicable row that declares it.
pub open spec fn spec_lookup_wire(
    table: Seq<IdMapping>,
    version: i32,
    state: State,
    dir: Direction,
    internal_id: i32,
    i: int,
) -> Option<i32>
    decreases table.len() - i,
{
    if i < 0 || i >= table.len() {
        None
    } else if entry_applies(table[i], version, state, dir) && table[i].internal_id
        == internal_id {
        Some(table[i].wire_id)
    } else {
        spec_lookup_wire(table, version, state, dir, internal_id, i + 1)
    }
}

/// The internal id of a wire id: the first applicable row that declares it.
pub open spec fn spec_lookup_internal(
    table: Seq<IdMapping>,
    version: i32,
    state: State,
    dir: Direction,
    wire_id: i32,
    i: int,
) -> Option<i32>
    decreases table.len() - i,
{
    if i < 0 || i >= table.len() {
        None
    } else if entry_applies(table[i], version, state, dir) && table[i].wire_id == wire_id {
        Some(table[i].internal_id)
    } else {
        spec_lookup_internal(table, version, state, dir, wire_id, i + 1)
    }
}

/// Translates an internal id to the wire id of the given protocol version.
/// An id with no mapping for the requested version is an error, never a
/// silent alias.
pub fn internal_to_wire(version: i32, state: State, dir: Direction, internal_id: i32) -> (res:
    Result<i32, Error>)
    ensures
        match spec_lookup_wire(spec_id_table(), version, state, dir, internal_id, 0) {
            Some(w) => res == Ok::<i32, Error>(w),
            None => res == Err::<i32, Error>(Error::UnknownPacket { wire_id: internal_id }),
        },
{
    let table = id_table();
    let mut i: usize = 0;
    while i < table.len()
        invariant
            table@ == spec_id_table(),
            i <= table@.len(),
            spec_lookup_wire(spec_id_table(), version, state, dir, internal_id, 0)
                == spec_lookup_wire(spec_id_table(), version, state, dir, internal_id, i as int),
        decreases table@.len() - i,
    {
        let e = table[i];
        if e.min_version <= version && version <= e.max_version && state_eq(e.state, state)
            && direction_eq(e.direction, dir) && e.internal_id == internal_id {
            return Ok(e.wire_id);
        }
        i = i + 1;
    }
    Err(Error::UnknownPacket { wire_id: internal_id })
}

/// Translates a wire id of the given protocol version to its internal id.
/// An id with no mapping for the requested version is an error, never a
/// silent alias.
pub fn wire_to_internal(version: i32, state: State, dir: Direction, wire_id: i32) -> (res: Result<
    i32,
    Error,
>)
    ensures
        match spec_lookup_internal(spec_id_table(), version, state, dir, wire_id, 0) {
            Some(iid) => res == Ok::<i32, Error>(iid),
            None => res == Err::<i32, Error>(Error::UnknownPacket { wire_id }),
        },
{
    let table = id_table();
    let mut i: usize = 0;
    while i < table.len()
        invariant
            table@ == spec_id_table(),
            i <= table@.len(),
            spec_lookup_internal(spec_id_table(), version, state, dir, wire_id, 0)
                == spec_lookup_internal(spec_id_table(), version, state, dir, wire_id, i as int),
        decreases table@.len() - i,
    {
        let e = table[i];
        if e.min_version <= version && version <= e.max_version && state_eq(e.state, state)
            && direction_eq(e.direction, dir) && e.wire_id == wire_id {
            return Ok(e.internal_id);
        }
        i = i + 1;
    }
    Err(Error::UnknownPacket { wire_id })
}

/// Whether two states are the same.
pub fn state_eq(a: State, b: State) -> (r: bool)
    ensures
        r == (a == b),
{
    match (a, b) {
        (State::Handshaking, State::Handshaking) => true,
        (State::Play, State::Play) => true,
        (State::Status, State::Status) => true,
        (State::Login, State::Login) => true,
        _ => false,
    }
}

/// Whether two directions are the same.
pub fn direction_eq(a: Direction, b: Direction) -> (r: bool)
    ensures
        r == (a == b),
{
    match (a, b) {
        (Direction::Serverbound, Direction::Serverbound) => true,
        (Direction::Clientbound, Direction::Clientbound) => true,
        _ => false,
    }
}

/// Packet id translation round trip: for every (state, direction, version,
/// internal id) the declared table maps, translating to the wire id and back
/// gives the internal id again; the table is a version-scoped bijection.
pub proof fn lemma_id_translation_round_trip(
    version: i32,
    state: State,
    dir: Direction,
    internal_id: i32,
)
    requires
        spec_lookup_wire(spec_id_table(), version, state, dir, internal_id, 0) is Some,
    ensures
        spec_lookup_internal(
            spec_id_table(),
            version,
            state,
            dir,
            spec_lookup_wire(spec_id_table(), version, state, dir, internal_id, 0).unwrap(),
            0,
        ) == Some(internal_id),
{
    reveal_with_fuel(spec_lookup_wire, 12);
    reveal_with_fuel(spec_lookup_internal, 12);
}


/// What a packet body (after the id) decodes to: the internal id the wire id
/// translates to and the decoded field models with the bytes consumed;
/// `Ok(None)` when the wire id or its shape is not in the catalog
/// (an unrecognized packet, distinct from malformed bytes of a known one).
pub open spec fn spec_packet_decoded(
    protocol_version: i32,
    state: State,
    dir: Direction,
    wire_id: i32,
    s: Seq<u8>,
) -> Result<Option<(i32, Seq<FieldModel>, int)>, ()> {
    match spec_lookup_internal(spec_id_table(), protocol_version, state, dir, wire_id, 0) {
        None => Ok(None),
        Some(iid) => match spec_shape_fields(state, dir, iid) {
            None => Ok(None),
            Some(descs) => match fields_decoded(descs, protocol_version, s, Seq::empty()) {
                None => Err(()),
                Some((es, m)) => Ok(Some((iid, es, m))),
            },
        },
    }
}

/// Resolves the internal id of a wire id and reads each field in declared
/// order under its presence predicate. Returns `Ok(None)` for a wire id or
/// shape the catalog does not know (the caller may skip such a packet);
/// malformed bytes for a known shape are an error.
pub fn decode_packet(
    protocol_version: i32,
    state: State,
    dir: Direction,
    wire_id: i32,
    r: &mut Reader,
) -> (res: Result<Option<Packet>, Error>)
    requires
        old(r).wf(),
    ensures
        final(r).wf(),
        final(r).data_seq() == old(r).data_seq(),
        final(r).position() >= old(r).position(),
        match spec_packet_decoded(protocol_version, state, dir, wire_id, old(
            r,
        ).remaining_bytes()) {
            Ok(None) => res == Ok::<Option<Packet>, Error>(None) && *final(r) == *old(r),
            Ok(Some((iid, es, m))) => res matches Ok(Some(p)) && p.internal_id == iid
                && models_of(p.fields@) == es && final(r).position() == old(r).position() + m,
            Err(()) => res matches Err(e) && e.is_decode_error(),
        },
{
    let iid = match wire_to_internal(protocol_version, state, dir, wire_id) {
        Ok(iid) => iid,
        Err(_) => {
            return Ok(None);
        },
    };
    let descs = match shape_fields(state, dir, iid) {
        Some(d) => d,
        None => {
            return Ok(None);
        },
    };
    let fields = match decode_fields(&descs, protocol_version, r) {
        Ok(fs) => fs,
        Err(e) => {
            return Err(e);
        },
    };
    Ok(Some(Packet { internal_id: iid, fields }))
}

/// The wire bytes of a whole packet body: the wire id as a VarInt, then the
/// encoded fields.
pub open spec fn spec_packet_body(
    protocol_version: i32,
    wire_id: i32,
    descs: Seq<PacketField>,
    values: Seq<FieldModel>,
) -> Seq<u8> {
    varnum_enc(u32_of_i32(wire_id) as nat) + fields_encoding(descs, protocol_version, values, 0)
}

/// Resolves the wire id for the packet's internal id at this version and
/// appends the packet body: the wire id, then the fields in declared order
/// under their presence predicates. An internal id or shape the catalog does
/// not know at this version is an error.
pub fn encode_packet(
    packet: &Packet,
    protocol_version: i32,
    state: State,
    dir: Direction,
    w: &mut Vec<u8>,
) -> (res: Result<(), Error>)
    ensures
        match spec_lookup_wire(spec_id_table(), protocol_version, state, dir, packet.internal_id,
            0) {
            None => res == Err::<(), Error>(
                Error::UnknownPacket { wire_id: packet.internal_id },
            ) && final(w)@ == old(w)@,
            Some(wire_id) => match spec_shape_fields(state, dir, packet.internal_id) {
                None => res == Err::<(), Error>(
                    Error::UnknownPacket { wire_id: packet.internal_id },
                ) && final(w)@ == old(w)@,
                Some(descs) => {
                    &&& fields_encodable(descs, models_of(packet.fields@)) ==> res is Ok
                        && final(w)@ == old(w)@ + spec_packet_body(
                        protocol_version,
                        wire_id,
                        descs,
                        models_of(packet.fields@),
                    )
                    &&& !fields_encodable(descs, models_of(packet.fields@)) ==> res is Err
                },
            },
        },
{
    let wire_id = match internal_to_wire(protocol_version, state, dir, packet.internal_id) {
        Ok(wid) => wid,
        Err(e) => {
            return Err(e);
        },
    };
    let descs = match shape_fields(state, dir, packet.internal_id) {
        Some(d) => d,
        None => {
            return Err(Error::UnknownPacket { wire_id: packet.internal_id });
        },
    };
    let vid = VarInt(wire_id);
    vid.write_varint(w);
    match write_fields(&descs, protocol_version, &packet.fields, w) {
        Ok(()) => {
            proof {
                assert(w@ =~= old(w)@ + spec_packet_body(
                    protocol_version,
                    wire_id,
                    descs@,
                    models_of(packet.fields@),
                ));
            }
            Ok(())
        },
        Err(e) => Err(e),
    }
}


/// A successful packet decode consumes between zero and all of the body.
pub proof fn lemma_packet_decoded_len(
    protocol_version: i32,
    state: State,
    dir: Direction,
    wire_id: i32,
    s: Seq<u8>,
)
    ensures
        spec_packet_decoded(protocol_version, state, dir, wire_id, s) matches Ok(Some((iid, es, m)))
            ==> 0 <= m <= s.len(),
{
    match spec_lookup_internal(spec_id_table(), protocol_version, state, dir, wire_id, 0) {
        None => {},
        Some(iid) => match spec_shape_fields(state, dir, iid) {
            None => {},
            Some(descs) => {
                lemma_fields_decoded_len(descs, protocol_version, s, Seq::empty());
            },
        },
    }
}


/// Conditions under which one field value decodes back from its own
/// encoding: strings within the decoder's byte cap, short-prefixed blobs and
/// short integers within their 23-bit range, and coordinates whose
/// components fit their fields under the version's layout.
pub open spec fn field_round_trips(v: FieldModel, protocol_version: i32) -> bool {
    match v {
        FieldModel::Str(cs) => encode_utf8(cs).len() <= MAX_STRING_BYTES,
        FieldModel::VShort(x) => 0 <= x.0 <= 0x7fffff,
        FieldModel::ShortBytes(b) => b.len() <= 0x7fffff,
        FieldModel::Pos(p) => if spec_uses_pre_v1_14_layout(protocol_version) {
            -0x2000000 <= p.x < 0x2000000 && 0 <= p.y < 0x1000 && -0x2000000 <= p.z < 0x2000000
        } else {
            -0x2000000 <= p.x < 0x2000000 && -0x800 <= p.y < 0x800 && -0x2000000 <= p.z
                < 0x2000000
        },
        _ => true,
    }
}

/// One present field decodes back from its own encoding, whatever bytes
/// follow (a rest-of-body blob demands that nothing follows).
proof fn lemma_field_round_trip(v: FieldModel, ty: FieldType, protocol_version: i32, rest: Seq<u8>)
    requires
        model_has_type(v, ty),
        field_round_trips(v, protocol_version),
        ty is RemainingBytes ==> rest == Seq::<u8>::empty(),
    ensures
        field_decoded(ty, protocol_version, field_model_encoding(v, protocol_version) + rest)
            == Some((v, field_model_encoding(v, protocol_version).len() as int)),
{
    match v {
        FieldModel::Bool(b) => {
            <bool as LosslessCodec>::lemma_round_trip(b, rest);
        },
        FieldModel::U16(x) => {
            <u16 as LosslessCodec>::lemma_round_trip(x, rest);
        },
        FieldModel::I64(x) => {
            <i64 as LosslessCodec>::lemma_round_trip(x, rest);
        },
        FieldModel::VInt(x) => {
            <VarInt as LosslessCodec>::lemma_round_trip(x, rest);
        },
        FieldModel::VLong(x) => {
            <VarLong as LosslessCodec>::lemma_round_trip(x, rest);
        },
        FieldModel::VShort(x) => {
            <VarShort as LosslessCodec>::lemma_round_trip(x, rest);
        },
        FieldModel::Str(cs) => {
            crate::strings::lemma_string_seq_round_trip(cs, rest);
        },
        FieldModel::Id(u) => {
            <UUID as LosslessCodec>::lemma_round_trip(u, rest);
        },
        FieldModel::Pos(p) => {
            if spec_uses_pre_v1_14_layout(protocol_version) {
                crate::position::lemma_position_round_trip_pre(protocol_version, p, rest);
            } else {
                crate::position::lemma_position_round_trip_post(protocol_version, p, rest);
            }
        },
        FieldModel::Bytes(b) => {
            assert(b + rest =~= b);
        },
        FieldModel::ShortBytes(b) => {
            crate::prefixed::lemma_len_prefixed_bytes_seq_round_trip::<VarShort>(b, rest);
            assert(field_model_encoding(v, protocol_version)
                =~= crate::prefixed::len_prefixed_bytes_encoding::<VarShort>(b));
        },
        FieldModel::Unit => {},
    }
}

/// Whether a presence predicate only references fields before index `i`, as
/// a well-formed shape's predicates do.
pub open spec fn presence_prior_only(p: Presence, i: int) -> bool {
    match p {
        Presence::Always => true,
        Presence::IfBool(j) => j < i,
        Presence::IfVarIntEq(j, _) => j < i,
    }
}

/// A predicate over prior fields evaluates the same on the prior prefix as
/// on the whole value list.
proof fn lemma_presence_take(p: Presence, values: Seq<FieldModel>, i: int)
    requires
        presence_prior_only(p, i),
        0 <= i <= values.len(),
    ensures
        presence_holds(p, values.take(i)) == presence_holds(p, values),
{
}

/// The conditions under which a whole value list survives an encode-decode
/// round trip: one value per field of the declared type, every present value
/// round-trippable, every predicate over prior fields only, every skipped
/// value its type's default (what decode fills in), and a rest-of-body blob
/// only in the last position.
pub open spec fn fields_round_trip_ready(
    descs: Seq<PacketField>,
    values: Seq<FieldModel>,
    protocol_version: i32,
) -> bool {
    &&& values.len() == descs.len()
    &&& forall|i: int|
        0 <= i < descs.len() ==> model_has_type(#[trigger] values[i], descs[i].ty)
    &&& forall|i: int|
        0 <= i < descs.len() && presence_holds(descs[i].when, values) ==> field_round_trips(
            #[trigger] values[i],
            protocol_version,
        )
    &&& forall|i: int| 0 <= i < descs.len() ==> presence_prior_only(#[trigger] descs[i].when, i)
    &&& forall|i: int|
        0 <= i < descs.len() && !presence_holds(#[trigger] descs[i].when, values) ==> values[i]
            == field_default_model(descs[i].ty)
    &&& forall|i: int|
        0 <= i < descs.len() && (#[trigger] descs[i].ty) is RemainingBytes ==> i == descs.len()
            - 1
}

/// The inductive step of the shape round trip, from field `i` on: decoding
/// the encoding of the remaining fields, with the first `i` values as the
/// decoded prior, gives the remaining values back.
proof fn lemma_fields_round_trip_from(
    descs: Seq<PacketField>,
    protocol_version: i32,
    values: Seq<FieldModel>,
    i: int,
)
    requires
        fields_round_trip_ready(descs, values, protocol_version),
        0 <= i <= descs.len(),
    ensures
        fields_decoded(
            descs.skip(i),
            protocol_version,
            fields_encoding(descs, protocol_version, values, i),
            values.take(i),
        ) == Some(
            (values.skip(i), fields_encoding(descs, protocol_version, values, i).len() as int),
        ),
    decreases descs.len() - i,
{
    let enc_i = fields_encoding(descs, protocol_version, values, i);
    if i == descs.len() {
        assert(descs.skip(i) =~= Seq::<PacketField>::empty());
        assert(values.skip(i) =~= Seq::<FieldModel>::empty());
    } else {
        let d = descs[i];
        assert(descs.skip(i)[0] == d);
        assert(descs.skip(i).drop_first() =~= descs.skip(i + 1));
        lemma_presence_take(d.when, values, i);
        assert(values.take(i).push(values[i]) =~= values.take(i + 1));
        lemma_fields_round_trip_from(descs, protocol_version, values, i + 1);
        let rest_enc = fields_encoding(descs, protocol_version, values, i + 1);
        if presence_holds(d.when, values) {
            let chunk = field_model_encoding(values[i], protocol_version);
            assert(enc_i =~= chunk + rest_enc);
            if d.ty is RemainingBytes {
                assert(i + 1 == descs.len());
                assert(rest_enc =~= Seq::<u8>::empty());
            }
            lemma_field_round_trip(values[i], d.ty, protocol_version, rest_enc);
            assert(enc_i.skip(chunk.len() as int) =~= rest_enc);
            assert(seq![values[i]] + values.skip(i + 1) =~= values.skip(i));
        } else {
            assert(values[i] == field_default_model(d.ty));
            assert(enc_i =~= rest_enc);
            assert(seq![values[i]] + values.skip(i + 1) =~= values.skip(i));
        }
    }
}

/// Shape round trip: decoding the encoding of a ready value list under its
/// shape gives the same values back and consumes exactly the encoding.
pub proof fn lemma_fields_round_trip(
    descs: Seq<PacketField>,
    protocol_version: i32,
    values: Seq<FieldModel>,
)
    requires
        fields_round_trip_ready(descs, values, protocol_version),
    ensures
        fields_decoded(
            descs,
            protocol_version,
            fields_encoding(descs, protocol_version, values, 0),
            Seq::empty(),
        ) == Some(
            (values, fields_encoding(descs, protocol_version, values, 0).len() as int),
        ),
{
    lemma_fields_round_trip_from(descs, protocol_version, values, 0);
    assert(descs.skip(0) =~= descs);
    assert(values.take(0) =~= Seq::<FieldModel>::empty());
    assert(values.skip(0) =~= values);
}

/// Packet round trip: for a packet the catalog declares at this version,
/// translating its internal id to the wire id and decoding the encoded
/// fields under that wire id gives the internal id and the values back, and
/// consumes the whole body.
pub proof fn lemma_packet_round_trip(
    protocol_version: i32,
    state: State,
    dir: Direction,
    internal_id: i32,
    values: Seq<FieldModel>,
)
    requires
        spec_lookup_wire(spec_id_table(), protocol_version, state, dir, internal_id, 0) is Some,
        spec_shape_fields(state, dir, internal_id) is Some,
        fields_round_trip_ready(
            spec_shape_fields(state, dir, internal_id).unwrap(),
            values,
            protocol_version,
        ),
    ensures
        ({
            let wire_id = spec_lookup_wire(
                spec_id_table(),
                protocol_version,
                state,
                dir,
                internal_id,
                0,
            ).unwrap();
            let descs = spec_shape_fields(state, dir, internal_id).unwrap();
            let body = fields_encoding(descs, protocol_version, values, 0);
            spec_packet_decoded(protocol_version, state, dir, wire_id, body) == Ok::<
                Option<(i32, Seq<FieldModel>, int)>,
                (),
            >(Some((internal_id, values, body.len() as int)))
        }),
{
    lemma_id_translation_round_trip(protocol_version, state, dir, internal_id);
    let descs = spec_shape_fields(state, dir, internal_id).unwrap();
    lemma_fields_round_trip(descs, protocol_version, values);
}

} // verus!
