//! Length-prefixed collections and the length-carrier trait, plus the
//! remaining structured wire types: fixed-point numbers (stored as their
//! underlying integer) and the three-dimensional biome table.

use vstd::prelude::*;

use crate::error::Error;
use crate::reader::Reader;
use crate::serialize::LosslessCodec;
use crate::serialize::Serializable;
use crate::serialize::i16_of_u16;
use crate::serialize::i32_of_u32;
use crate::serialize::i64_of_u64;
use crate::varint::VarInt;
use crate::varint::VarLong;
use crate::varint::VarShort;

verus! {

/// A wire type that can carry a collection length: it converts to and from
/// `usize`. `spec_len` is the length a value denotes; `spec_from_len` is the
/// value a length converts to (wrapping, as a narrowing cast would);
/// `len_fits` says which lengths survive that conversion unchanged.
pub trait Lengthable: Serializable + Copy + DeepView<V = Self> {
    /// The length this value denotes.
    spec fn spec_len(self) -> int;

    /// The value a length converts to (wrapping when it does not fit).
    spec fn spec_from_len(n: int) -> Self;

    /// Whether a length converts without wrapping.
    spec fn len_fits(n: int) -> bool;

    /// A fitting length converts and comes back unchanged.
    proof fn lemma_from_len_fits(n: int)
        requires
            Self::len_fits(n),
            0 <= n,
        ensures
            Self::spec_from_len(n).spec_len() == n,
    ;

    /// Values of a length carrier are their own deep views.
    proof fn lemma_deep_view_id(v: Self)
        ensures
            v.deep_view() == v,
    ;

    /// The denoted length as a `usize`, or `None` when it is negative or too
    /// large for this machine.
    fn try_into_len(self) -> (r: Option<usize>)
        ensures
            match r {
                Some(n) => n as int == self.spec_len(),
                None => !(0 <= self.spec_len() <= usize::MAX),
            },
    ;

    /// The denoted length as a `usize`.
    fn into_len(self) -> (r: usize)
        requires
            0 <= self.spec_len() <= usize::MAX,
        ensures
            r as int == self.spec_len(),
    ;

    /// The value a `usize` length converts to.
    fn from_len(n: usize) -> (r: Self)
        ensures
            r == Self::spec_from_len(n as int),
    ;
}

impl Lengthable for bool {
    open spec fn spec_len(self) -> int {
        if self {
            1
        } else {
            0
        }
    }

    open spec fn spec_from_len(n: int) -> bool {
        n != 0
    }

    open spec fn len_fits(n: int) -> bool {
        n == 0 || n == 1
    }

    proof fn lemma_from_len_fits(n: int) {
    }

    proof fn lemma_deep_view_id(v: bool) {
    }

    fn try_into_len(self) -> (r: Option<usize>) {
        Some(if self { 1 } else { 0 })
    }

    fn into_len(self) -> (r: usize) {
        if self { 1 } else { 0 }
    }

    fn from_len(n: usize) -> (r: bool) {
        n != 0
    }
}

impl Lengthable for u8 {
    open spec fn spec_len(self) -> int {
        self as int
    }

    open spec fn spec_from_len(n: int) -> u8 {
        (n % 0x100) as u8
    }

    open spec fn len_fits(n: int) -> bool {
        0 <= n < 0x100
    }

    proof fn lemma_from_len_fits(n: int) {
    }

    proof fn lemma_deep_view_id(v: u8) {
    }

    fn try_into_len(self) -> (r: Option<usize>) {
        Some(self as usize)
    }

    fn into_len(self) -> (r: usize) {
        self as usize
    }

    fn from_len(n: usize) -> (r: u8) {
        (n % 0x100) as u8
    }
}

impl Lengthable for i16 {
    open spec fn spec_len(self) -> int {
        self as int
    }

    open spec fn spec_from_len(n: int) -> i16 {
        i16_of_u16((n % 0x10000) as u16)
    }

    open spec fn len_fits(n: int) -> bool {
        0 <= n <= 0x7fff
    }

    proof fn lemma_from_len_fits(n: int) {
    }

    proof fn lemma_deep_view_id(v: i16) {
    }

    fn try_into_len(self) -> (r: Option<usize>) {
        if self >= 0 {
            Some(self as usize)
        } else {
            None
        }
    }

    fn into_len(self) -> (r: usize) {
        self as usize
    }

    fn from_len(n: usize) -> (r: i16) {
        let m: usize = n % 0x10000;
        if m >= 0x8000 {
            (m as i32 - 0x10000) as i16
        } else {
            m as i16
        }
    }
}

impl Lengthable for i32 {
    open spec fn spec_len(self) -> int {
        self as int
    }

    open spec fn spec_from_len(n: int) -> i32 {
        i32_of_u32((n % 0x100000000) as u32)
    }

    open spec fn len_fits(n: int) -> bool {
        0 <= n <= 0x7fffffff
    }

    proof fn lemma_from_len_fits(n: int) {
    }

    proof fn lemma_deep_view_id(v: i32) {
    }

    fn try_into_len(self) -> (r: Option<usize>) {
        if self >= 0 {
            Some(self as usize)
        } else {
            None
        }
    }

    fn into_len(self) -> (r: usize) {
        self as usize
    }

    fn from_len(n: usize) -> (r: i32) {
        let m: u64 = (n as u64) % 0x100000000;
        if m >= 0x80000000 {
            (m as i64 - 0x100000000) as i32
        } else {
            m as i32
        }
    }
}

impl Lengthable for VarInt {
    open spec fn spec_len(self) -> int {
        self.0 as int
    }

    open spec fn spec_from_len(n: int) -> VarInt {
        VarInt(i32_of_u32((n % 0x100000000) as u32))
    }

    open spec fn len_fits(n: int) -> bool {
        0 <= n <= 0x7fffffff
    }

    proof fn lemma_from_len_fits(n: int) {
    }

    proof fn lemma_deep_view_id(v: VarInt) {
    }

    fn try_into_len(self) -> (r: Option<usize>) {
        if self.0 >= 0 {
            Some(self.0 as usize)
        } else {
            None
        }
    }

    fn into_len(self) -> (r: usize) {
        self.0 as usize
    }

    fn from_len(n: usize) -> (r: VarInt) {
        let m: u64 = (n as u64) % 0x100000000;
        if m >= 0x80000000 {
            VarInt((m as i64 - 0x100000000) as i32)
        } else {
            VarInt(m as i32)
        }
    }
}

impl Lengthable for VarShort {
    open spec fn spec_len(self) -> int {
        self.0 as int
    }

    open spec fn spec_from_len(n: int) -> VarShort {
        VarShort(i32_of_u32((n % 0x100000000) as u32))
    }

    open spec fn len_fits(n: int) -> bool {
        0 <= n <= 0x7fffffff
    }

    proof fn lemma_from_len_fits(n: int) {
    }

    proof fn lemma_deep_view_id(v: VarShort) {
    }

    fn try_into_len(self) -> (r: Option<usize>) {
        if self.0 >= 0 {
            Some(self.0 as usize)
        } else {
            None
        }
    }

    fn into_len(self) -> (r: usize) {
        self.0 as usize
    }

    fn from_len(n: usize) -> (r: VarShort) {
        let m: u64 = (n as u64) % 0x100000000;
        if m >= 0x80000000 {
            VarShort((m as i64 - 0x100000000) as i32)
        } else {
            VarShort(m as i32)
        }
    }
}

impl Lengthable for VarLong {
    open spec fn spec_len(self) -> int {
        self.0 as int
    }

    open spec fn spec_from_len(n: int) -> VarLong {
        VarLong(i64_of_u64((n % 0x10000000000000000) as u64))
    }

    open spec fn len_fits(n: int) -> bool {
        0 <= n <= 0x7fffffffffffffff
    }

    proof fn lemma_from_len_fits(n: int) {
    }

    proof fn lemma_deep_view_id(v: VarLong) {
    }

    fn try_into_len(self) -> (r: Option<usize>) {
        if self.0 >= 0 && self.0 as u64 <= usize::MAX as u64 {
            Some(self.0 as usize)
        } else {
            None
        }
    }

    fn into_len(self) -> (r: usize) {
        self.0 as usize
    }

    fn from_len(n: usize) -> (r: VarLong) {
        let m: u64 = n as u64;
        if m >= 0x8000000000000000 {
            VarLong((m - 0x8000000000000000) as i64 + i64::MIN)
        } else {
            VarLong(m as i64)
        }
    }
}

/// The concatenated encodings of a sequence of values, in order.
pub open spec fn elems_encoding<T: Serializable>(s: Seq<T>) -> Seq<u8>
    decreases s.len(),
{
    if s.len() == 0 {
        Seq::empty()
    } else {
        s[0].encoding() + elems_encoding(s.drop_first())
    }
}

/// Decodes exactly `n` consecutive values from the front of `s`: their deep
/// views and the total bytes consumed.
pub open spec fn elems_decoded<T: Serializable>(s: Seq<u8>, n: nat) -> Option<
    (Seq<<T as DeepView>::V>, int),
>
    decreases n,
{
    if n == 0 {
        Some((Seq::empty(), 0))
    } else {
        match T::decoded(s) {
            None => None,
            Some((v, k)) => match elems_decoded::<T>(s.skip(k), (n - 1) as nat) {
                None => None,
                Some((rest, m)) => Some((seq![v] + rest, k + m)),
            },
        }
    }
}

/// A successful element-sequence decode consumes between zero and all of
/// the input and yields exactly `n` values.
pub proof fn lemma_elems_decoded_len<T: Serializable>(s: Seq<u8>, n: nat)
    ensures
        elems_decoded::<T>(s, n) matches Some((es, m)) ==> 0 <= m <= s.len() && es.len() == n,
    decreases n,
{
    if n > 0 {
        T::lemma_decoded_len(s);
        match T::decoded(s) {
            None => {},
            Some((v, k)) => {
                lemma_elems_decoded_len::<T>(s.skip(k), (n - 1) as nat);
            },
        }
    }
}

/// Appending one value to a sequence appends its encoding.
pub proof fn lemma_elems_encoding_push<T: Serializable>(s: Seq<T>, v: T)
    ensures
        elems_encoding(s.push(v)) == elems_encoding(s) + v.encoding(),
    decreases s.len(),
{
    if s.len() == 0 {
        assert(s.push(v)[0] == v);
        assert(s.push(v).drop_first() =~= Seq::<T>::empty());
        assert(elems_encoding(Seq::<T>::empty()) =~= Seq::<u8>::empty());
        assert(elems_encoding(s) =~= Seq::<u8>::empty());
        assert(elems_encoding(s.push(v)) =~= elems_encoding(s) + v.encoding());
    } else {
        assert(s.push(v)[0] == s[0]);
        assert(s.push(v).drop_first() =~= s.drop_first().push(v));
        lemma_elems_encoding_push(s.drop_first(), v);
        assert(elems_encoding(s.push(v)) =~= s[0].encoding() + (elems_encoding(s.drop_first())
            + v.encoding()));
        assert(s[0].encoding() + (elems_encoding(s.drop_first()) + v.encoding()) =~= (
        s[0].encoding() + elems_encoding(s.drop_first())) + v.encoding());
        assert(elems_encoding(s.push(v)) =~= elems_encoding(s) + v.encoding());
    }
}

/// Reads exactly `n` values in order.
pub fn read_elems<T: Serializable>(r: &mut Reader, n: usize) -> (res: Result<Vec<T>, Error>)
    requires
        old(r).wf(),
    ensures
        final(r).wf(),
        final(r).data_seq() == old(r).data_seq(),
        final(r).position() >= old(r).position(),
        match elems_decoded::<T>(old(r).remaining_bytes(), n as nat) {
            Some((es, m)) => res matches Ok(v) && v.deep_view() == es && final(r).position()
                == old(r).position() + m,
            None => res matches Err(e) && e.is_decode_error(),
        },
{
    let mut data: Vec<T> = Vec::new();
    let mut i: usize = 0;
    proof {
        assert(data.deep_view() =~= Seq::<<T as DeepView>::V>::empty());
        match elems_decoded::<T>(r.remaining_bytes(), n as nat) {
            Some((es, m)) => {
                assert(data.deep_view() + es =~= es);
            },
            None => {},
        }
    }
    while i < n
        invariant
            r.wf(),
            r.data_seq() == old(r).data_seq(),
            r.position() >= old(r).position(),
            i <= n,
            data.deep_view().len() == i,
            match elems_decoded::<T>(r.remaining_bytes(), (n - i) as nat) {
                Some((es, m)) => elems_decoded::<T>(old(r).remaining_bytes(), n as nat) == Some(
                    (data.deep_view() + es, (r.position() - old(r).position()) + m),
                ),
                None => elems_decoded::<T>(old(r).remaining_bytes(), n as nat) is None,
            },
        decreases n - i,
    {
        let ghost rem = r.remaining_bytes();
        let ghost before = data.deep_view();
        let x = match T::read_from(r) {
            Ok(x) => x,
            Err(e) => {
                return Err(e);
            },
        };
        data.push(x);
        i = i + 1;
        proof {
            match T::decoded(rem) {
                Some((v, k)) => {
                    assert(r.remaining_bytes() =~= rem.skip(k));
                    assert(data.deep_view() =~= before.push(x.deep_view()));
                    match elems_decoded::<T>(r.remaining_bytes(), (n - i) as nat) {
                        Some((es, m)) => {
                            assert(before.push(v) + es =~= before + (seq![v] + es));
                        },
                        None => {},
                    }
                },
                None => {},
            }
        }
    }
    proof {
        match elems_decoded::<T>(r.remaining_bytes(), 0) {
            Some((es, m)) => {
                assert(data.deep_view() + es =~= data.deep_view());
            },
            None => {},
        }
    }
    Ok(data)
}

/// Writes all values in order; fails (leaving a prefix written) when some
/// value cannot be encoded.
pub fn write_elems<T: Serializable>(elems: &Vec<T>, w: &mut Vec<u8>) -> (res: Result<(), Error>)
    ensures
        (forall|i: int| 0 <= i < elems@.len() ==> elems@[i].encodable()) ==> res is Ok
            && final(w)@ == old(w)@ + elems_encoding(elems@),
        !(forall|i: int| 0 <= i < elems@.len() ==> elems@[i].encodable()) ==> res is Err,
{
    let mut i: usize = 0;
    proof {
        assert(elems@.take(0) =~= Seq::<T>::empty());
        assert(w@ =~= w@ + elems_encoding(elems@.take(0)));
    }
    while i < elems.len()
        invariant
            i <= elems@.len(),
            forall|j: int| 0 <= j < i ==> elems@[j].encodable(),
            w@ == old(w)@ + elems_encoding(elems@.take(i as int)),
        decreases elems@.len() - i,
    {
        let ghost before = w@;
        match elems[i].write_to(w) {
            Ok(()) => {},
            Err(e) => {
                return Err(e);
            },
        }
        proof {
            lemma_elems_encoding_push(elems@.take(i as int), elems@[i as int]);
            assert(elems@.take(i as int + 1) =~= elems@.take(i as int).push(elems@[i as int]));
            assert(w@ =~= old(w)@ + elems_encoding(elems@.take(i as int + 1)));
        }
        i = i + 1;
    }
    proof {
        assert(elems@.take(elems@.len() as int) =~= elems@);
    }
    Ok(())
}

/// Element-sequence round trip: the concatenation of the encodings of
/// `n` encodable values decodes back to those `n` values, whatever bytes
/// follow.
pub proof fn lemma_elems_round_trip<T: LosslessCodec>(s: Seq<T>, rest: Seq<u8>)
    requires
        forall|i: int| 0 <= i < s.len() ==> s[i].encodable(),
    ensures
        elems_decoded::<T>(elems_encoding(s) + rest, s.len()) == Some(
            (s.map_values(|t: T| t.deep_view()), elems_encoding(s).len() as int),
        ),
    decreases s.len(),
{
    if s.len() == 0 {
        assert(elems_encoding(s) + rest =~= rest);
        assert(s.map_values(|t: T| t.deep_view()) =~= Seq::<<T as DeepView>::V>::empty());
    } else {
        let all = elems_encoding(s) + rest;
        let tail_bytes = elems_encoding(s.drop_first()) + rest;
        T::lemma_round_trip(s[0], tail_bytes);
        assert(all =~= s[0].encoding() + tail_bytes);
        let k = s[0].encoding().len() as int;
        assert(all.skip(k) =~= tail_bytes);
        lemma_elems_round_trip(s.drop_first(), rest);
        assert(seq![s[0].deep_view()] + s.drop_first().map_values(|t: T| t.deep_view()) =~= s.map_values(
            |t: T| t.deep_view(),
        ));
    }
}

/// A length-prefixed collection: a length carrier `L` followed by that many
/// values of `T`, back to back.
#[derive(Debug, PartialEq)]
pub struct LenPrefixed<L: Lengthable, T> {
    /// The length carrier as decoded, or a placeholder before writing; the
    /// encoder derives the written length from `data` alone.
    pub len: L,
    /// The collection's values.
    pub data: Vec<T>,
}

impl<L: Lengthable, T: Serializable> LenPrefixed<L, T> {
    /// Wraps values for writing; the stored length carrier is filled in at
    /// encode time from the collection's actual length.
    pub fn new(data: Vec<T>) -> (r: LenPrefixed<L, T>)
        ensures
            r.data == data,
    {
        LenPrefixed { len: L::from_len(0), data }
    }
}

impl<L: Lengthable, T: DeepView> DeepView for LenPrefixed<L, T> {
    type V = Seq<<T as DeepView>::V>;

    open spec fn deep_view(&self) -> Seq<<T as DeepView>::V> {
        self.data.deep_view()
    }
}

impl<L: Lengthable, T: Serializable> Serializable for LenPrefixed<L, T> {
    open spec fn encodable(&self) -> bool {
        &&& L::spec_from_len(self.data@.len() as int).encodable()
        &&& forall|i: int| 0 <= i < self.data@.len() ==> self.data@[i].encodable()
    }

    open spec fn encoding(&self) -> Seq<u8> {
        L::spec_from_len(self.data@.len() as int).encoding() + elems_encoding(self.data@)
    }

    open spec fn decoded(s: Seq<u8>) -> Option<(Seq<<T as DeepView>::V>, int)> {
        match L::decoded(s) {
            None => None,
            Some((lv, k)) => {
                let n = lv.spec_len();
                if !(0 <= n <= usize::MAX) {
                    None
                } else {
                    match elems_decoded::<T>(s.skip(k), n as nat) {
                        None => None,
                        Some((es, m)) => Some((es, k + m)),
                    }
                }
            },
        }
    }

    proof fn lemma_decoded_len(s: Seq<u8>) {
        L::lemma_decoded_len(s);
        match L::decoded(s) {
            None => {},
            Some((lv, k)) => {
                let n = lv.spec_len();
                if 0 <= n <= usize::MAX {
                    lemma_elems_decoded_len::<T>(s.skip(k), n as nat);
                }
            },
        }
    }

    fn read_from(r: &mut Reader) -> (res: Result<LenPrefixed<L, T>, Error>) {
        let lv = match L::read_from(r) {
            Ok(v) => v,
            Err(e) => {
                return Err(e);
            },
        };
        proof {
            L::lemma_deep_view_id(lv);
        }
        let n = match lv.try_into_len() {
            Some(n) => n,
            None => {
                return Err(Error::FieldDecodeFailure);
            },
        };
        proof {
            let s0 = old(r).remaining_bytes();
            match L::decoded(s0) {
                Some((lvd, k)) => {
                    assert(r.remaining_bytes() =~= s0.skip(k));
                },
                None => {},
            }
        }
        let data = match read_elems::<T>(r, n) {
            Ok(d) => d,
            Err(e) => {
                return Err(e);
            },
        };
        Ok(LenPrefixed { len: lv, data })
    }

    fn write_to(&self, w: &mut Vec<u8>) -> (res: Result<(), Error>) {
        let lv = L::from_len(self.data.len());
        match lv.write_to(w) {
            Ok(()) => {},
            Err(e) => {
                return Err(e);
            },
        }
        match write_elems(&self.data, w) {
            Ok(()) => {},
            Err(e) => {
                return Err(e);
            },
        }
        Ok(())
    }
}

/// Length-prefixed collection round trip: when the collection's length fits
/// its carrier and every value is encodable, decoding the encoding gives the
/// same values back, whatever bytes follow.
pub proof fn lemma_len_prefixed_round_trip<L: Lengthable + LosslessCodec, T: LosslessCodec>(
    v: &LenPrefixed<L, T>,
    rest: Seq<u8>,
)
    requires
        v.encodable(),
        L::len_fits(v.data@.len() as int),
        v.data@.len() <= usize::MAX,
    ensures
        LenPrefixed::<L, T>::decoded(v.encoding() + rest) == Some(
            (v.deep_view(), v.encoding().len() as int),
        ),
{
    let n = v.data@.len() as int;
    let lv = L::spec_from_len(n);
    let tail_bytes = elems_encoding(v.data@) + rest;
    L::lemma_round_trip(lv, tail_bytes);
    L::lemma_deep_view_id(lv);
    L::lemma_from_len_fits(n);
    let all = v.encoding() + rest;
    let k = lv.encoding().len() as int;
    assert(all =~= lv.encoding() + tail_bytes);
    assert(all.skip(k) =~= tail_bytes);
    lemma_elems_round_trip(v.data@, rest);
    assert(v.data.deep_view() =~= v.data@.map_values(|t: T| t.deep_view()));
}

/// A length-prefixed raw byte blob: a length carrier `L` followed by that
/// many opaque bytes.
#[derive(Debug, PartialEq)]
pub struct LenPrefixedBytes<L: Lengthable> {
    /// The length carrier as decoded, or a placeholder before writing; the
    /// encoder derives the written length from `data` alone.
    pub len: L,
    /// The blob's bytes.
    pub data: Vec<u8>,
}

impl<L: Lengthable> LenPrefixedBytes<L> {
    /// Wraps bytes for writing; the stored length carrier is filled in at
    /// encode time from the blob's actual length.
    pub fn new(data: Vec<u8>) -> (r: LenPrefixedBytes<L>)
        ensures
            r.data == data,
    {
        LenPrefixedBytes { len: L::from_len(0), data }
    }
}

impl<L: Lengthable> DeepView for LenPrefixedBytes<L> {
    type V = Seq<u8>;

    open spec fn deep_view(&self) -> Seq<u8> {
        self.data@
    }
}

impl<L: Lengthable> Serializable for LenPrefixedBytes<L> {
    open spec fn encodable(&self) -> bool {
        L::spec_from_len(self.data@.len() as int).encodable()
    }

    open spec fn encoding(&self) -> Seq<u8> {
        L::spec_from_len(self.data@.len() as int).encoding() + self.data@
    }

    open spec fn decoded(s: Seq<u8>) -> Option<(Seq<u8>, int)> {
        match L::decoded(s) {
            None => None,
            Some((lv, k)) => {
                let n = lv.spec_len();
                if !(0 <= n <= usize::MAX) {
                    None
                } else if s.len() < k + n {
                    None
                } else {
                    Some((s.subrange(k, k + n), k + n))
                }
            },
        }
    }

    proof fn lemma_decoded_len(s: Seq<u8>) {
        L::lemma_decoded_len(s);
    }

    fn read_from(r: &mut Reader) -> (res: Result<LenPrefixedBytes<L>, Error>) {
        let lv = match L::read_from(r) {
            Ok(v) => v,
            Err(e) => {
                return Err(e);
            },
        };
        proof {
            L::lemma_deep_view_id(lv);
        }
        let n = match lv.try_into_len() {
            Some(n) => n,
            None => {
                return Err(Error::FieldDecodeFailure);
            },
        };
        proof {
            let s0 = old(r).remaining_bytes();
            match L::decoded(s0) {
                Some((lvd, k)) => {
                    assert(r.remaining_bytes() =~= s0.skip(k));
                },
                None => {},
            }
        }
        let ghost mid = r.remaining_bytes();
        let data = match r.read_exact(n) {
            Some(d) => d,
            None => {
                return Err(Error::FieldDecodeFailure);
            },
        };
        proof {
            let s0 = old(r).remaining_bytes();
            match L::decoded(s0) {
                Some((lvd, k)) => {
                    assert(data@ =~= s0.subrange(k, k + n as int));
                },
                None => {},
            }
        }
        Ok(LenPrefixedBytes { len: lv, data })
    }

    fn write_to(&self, w: &mut Vec<u8>) -> (res: Result<(), Error>) {
        let lv = L::from_len(self.data.len());
        match lv.write_to(w) {
            Ok(()) => {},
            Err(e) => {
                return Err(e);
            },
        }
        w.extend_from_slice(self.data.as_slice());
        proof {
            assert(w@ =~= old(w)@ + self.encoding());
        }
        Ok(())
    }
}

/// The wire bytes of a length-prefixed blob of the given contents.
pub open spec fn len_prefixed_bytes_encoding<L: Lengthable>(b: Seq<u8>) -> Seq<u8> {
    L::spec_from_len(b.len() as int).encoding() + b
}

/// Length-prefixed blob round trip over the contents: when the blob's length
/// fits its carrier, decoding the encoding gives the same bytes back,
/// whatever bytes follow.
pub proof fn lemma_len_prefixed_bytes_seq_round_trip<L: Lengthable + LosslessCodec>(
    b: Seq<u8>,
    rest: Seq<u8>,
)
    requires
        L::spec_from_len(b.len() as int).encodable(),
        L::len_fits(b.len() as int),
        b.len() <= usize::MAX,
    ensures
        LenPrefixedBytes::<L>::decoded(len_prefixed_bytes_encoding::<L>(b) + rest) == Some(
            (b, len_prefixed_bytes_encoding::<L>(b).len() as int),
        ),
{
    let n = b.len() as int;
    let lv = L::spec_from_len(n);
    let tail_bytes = b + rest;
    L::lemma_round_trip(lv, tail_bytes);
    L::lemma_deep_view_id(lv);
    L::lemma_from_len_fits(n);
    let all = len_prefixed_bytes_encoding::<L>(b) + rest;
    let k = lv.encoding().len() as int;
    assert(all =~= lv.encoding() + tail_bytes);
    assert(all.subrange(k, k + n) =~= b);
}

/// Length-prefixed blob round trip, stated of the wrapper value.
pub proof fn lemma_len_prefixed_bytes_round_trip<L: Lengthable + LosslessCodec>(
    v: &LenPrefixedBytes<L>,
    rest: Seq<u8>,
)
    requires
        v.encodable(),
        L::len_fits(v.data@.len() as int),
        v.data@.len() <= usize::MAX,
    ensures
        LenPrefixedBytes::<L>::decoded(v.encoding() + rest) == Some(
            (v.deep_view(), v.encoding().len() as int),
        ),
{
    lemma_len_prefixed_bytes_seq_round_trip::<L>(v.data@, rest);
    assert(v.encoding() =~= len_prefixed_bytes_encoding::<L>(v.data@));
}

/// A signed fixed-point number with a 5-bit fraction: the underlying integer
/// is the value scaled by 32. On the wire it is exactly its underlying
/// integer.
#[derive(Clone, Copy, Debug, PartialEq, Eq)]
pub struct FixedPoint5<T>(pub T);

impl<T> FixedPoint5<T> {
    /// Wraps a raw scaled integer.
    pub fn new(raw: T) -> (r: FixedPoint5<T>)
        ensures
            r.0 == raw,
    {
        FixedPoint5(raw)
    }

    /// The raw scaled integer.
    pub fn raw(&self) -> (r: &T)
        ensures
            r == &self.0,
    {
        &self.0
    }
}

impl<T: DeepView> DeepView for FixedPoint5<T> {
    type V = <T as DeepView>::V;

    open spec fn deep_view(&self) -> <T as DeepView>::V {
        self.0.deep_view()
    }
}

impl<T: Serializable> Serializable for FixedPoint5<T> {
    open spec fn encodable(&self) -> bool {
        self.0.encodable()
    }

    open spec fn encoding(&self) -> Seq<u8> {
        self.0.encoding()
    }

    open spec fn decoded(s: Seq<u8>) -> Option<(<T as DeepView>::V, int)> {
        T::decoded(s)
    }

    proof fn lemma_decoded_len(s: Seq<u8>) {
        T::lemma_decoded_len(s);
    }

    fn read_from(r: &mut Reader) -> (res: Result<FixedPoint5<T>, Error>) {
        match T::read_from(r) {
            Ok(v) => Ok(FixedPoint5(v)),
            Err(e) => Err(e),
        }
    }

    fn write_to(&self, w: &mut Vec<u8>) -> (res: Result<(), Error>) {
        self.0.write_to(w)
    }
}

impl<T: LosslessCodec> LosslessCodec for FixedPoint5<T> {
    proof fn lemma_round_trip(v: FixedPoint5<T>, rest: Seq<u8>) {
        T::lemma_round_trip(v.0, rest);
    }
}

/// A signed fixed-point number with a 12-bit fraction: the underlying
/// integer is the value scaled by 4096. On the wire it is exactly its
/// underlying integer.
#[derive(Clone, Copy, Debug, PartialEq, Eq)]
pub struct FixedPoint12<T>(pub T);

impl<T> FixedPoint12<T> {
    /// Wraps a raw scaled integer.
    pub fn new(raw: T) -> (r: FixedPoint12<T>)
        ensures
            r.0 == raw,
    {
        FixedPoint12(raw)
    }

    /// The raw scaled integer.
    pub fn raw(&self) -> (r: &T)
        ensures
            r == &self.0,
    {
        &self.0
    }
}

impl<T: DeepView> DeepView for FixedPoint12<T> {
    type V = <T as DeepView>::V;

    open spec fn deep_view(&self) -> <T as DeepView>::V {
        self.0.deep_view()
    }
}

impl<T: Serializable> Serializable for FixedPoint12<T> {
    open spec fn encodable(&self) -> bool {
        self.0.encodable()
    }

    open spec fn encoding(&self) -> Seq<u8> {
        self.0.encoding()
    }

    open spec fn decoded(s: Seq<u8>) -> Option<(<T as DeepView>::V, int)> {
        T::decoded(s)
    }

    proof fn lemma_decoded_len(s: Seq<u8>) {
        T::lemma_decoded_len(s);
    }

    fn read_from(r: &mut Reader) -> (res: Result<FixedPoint12<T>, Error>) {
        match T::read_from(r) {
            Ok(v) => Ok(FixedPoint12(v)),
            Err(e) => Err(e),
        }
    }

    fn write_to(&self, w: &mut Vec<u8>) -> (res: Result<(), Error>) {
        self.0.write_to(w)
    }
}

impl<T: LosslessCodec> LosslessCodec for FixedPoint12<T> {
    proof fn lemma_round_trip(v: FixedPoint12<T>, rest: Seq<u8>) {
        T::lemma_round_trip(v.0, rest);
    }
}

/// The number of entries in a three-dimensional biome table.
pub const BIOMES_3D_LEN: usize = 1024;

/// Non-length-prefixed three-dimensional biome data: exactly
/// [`BIOMES_3D_LEN`] big-endian 32-bit values.
#[derive(Debug, Clone, PartialEq, Eq)]
pub struct Biomes3D {
    /// The biome entries.
    pub data: Vec<i32>,
}

impl Biomes3D {
    /// Structural invariant: the table always holds its full entry count.
    pub open spec fn wf(&self) -> bool {
        self.data@.len() == BIOMES_3D_LEN
    }

    /// An all-zero table.
    pub fn new_zeroed() -> (r: Biomes3D)
        ensures
            r.wf(),
            forall|i: int| 0 <= i < BIOMES_3D_LEN ==> r.data@[i] == 0,
    {
        let data: Vec<i32> = vec![0; BIOMES_3D_LEN];
        Biomes3D { data }
    }

    /// Reads the table: exactly [`BIOMES_3D_LEN`] consecutive 32-bit values,
    /// with no length prefix of its own.
    pub fn read_from(r: &mut Reader) -> (res: Result<Biomes3D, Error>)
        requires
            old(r).wf(),
        ensures
            final(r).wf(),
            final(r).data_seq() == old(r).data_seq(),
            match elems_decoded::<i32>(old(r).remaining_bytes(), BIOMES_3D_LEN as nat) {
                Some((es, m)) => res matches Ok(b) && b.wf() && b.data.deep_view() == es
                    && final(r).position() == old(r).position() + m,
                None => res matches Err(e) && e.is_decode_error(),
            },
    {
        let data = match read_elems::<i32>(r, BIOMES_3D_LEN) {
            Ok(d) => d,
            Err(e) => {
                return Err(e);
            },
        };
        proof {
            lemma_elems_decoded_len::<i32>(old(r).remaining_bytes(), BIOMES_3D_LEN as nat);
            assert(data.deep_view() =~= data@);
        }
        Ok(Biomes3D { data })
    }
}

} // verus!
