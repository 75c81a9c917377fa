//! The binary record encoding: fields in declaration order, each a fixed-size
//! array of fixed-width little-endian integers, with no length prefixes and no
//! padding. Scalars are written and read by bincode, configured for
//! fixed-width integers.
use crate::bytes::{
    byte_range, fits_signed, int_bytes, le_bytes, le_value, lemma_byte_range_pos,
    lemma_byte_range_small, lemma_bytes_of_le_value, lemma_le_bytes_len, lemma_le_value_of_bytes,
    lemma_signed_fits, lemma_signed_wrap, signed, wrap,
};
use vstd::prelude::*;

verus! {

#[verifier::external_type_specification]
#[verifier::external_body]
pub struct ExBincodeDecodeError(bincode::error::DecodeError);

#[verifier::external_type_specification]
#[verifier::external_body]
pub struct ExBincodeEncodeError(bincode::error::EncodeError);

/// Relies on bincode::encode_to_vec (standard configuration, fixed-width
/// integers): an `i8` is written as its one byte, into a `Vec`, which never fails.
#[verifier::external_body]
fn encode_i8(v: i8) -> (r: Result<Vec<u8>, bincode::error::EncodeError>)
    ensures
        r is Ok,
        r matches Ok(b) ==> b@ == int_bytes(v as int, 1),
{
    bincode::encode_to_vec(v, bincode::config::standard().with_fixed_int_encoding())
}

/// Relies on bincode::encode_to_vec (standard configuration, fixed-width
/// integers): an `i16` is written as its two little-endian bytes, into a
/// `Vec`, which never fails.
#[verifier::external_body]
fn encode_i16(v: i16) -> (r: Result<Vec<u8>, bincode::error::EncodeError>)
    ensures
        r is Ok,
        r matches Ok(b) ==> b@ == int_bytes(v as int, 2),
{
    bincode::encode_to_vec(v, bincode::config::standard().with_fixed_int_encoding())
}

/// Relies on bincode::encode_to_vec (standard configuration, fixed-width
/// integers): an `i32` is written as its four little-endian bytes, into a
/// `Vec`, which never fails.
#[verifier::external_body]
fn encode_i32(v: i32) -> (r: Result<Vec<u8>, bincode::error::EncodeError>)
    ensures
        r is Ok,
        r matches Ok(b) ==> b@ == int_bytes(v as int, 4),
{
    bincode::encode_to_vec(v, bincode::config::standard().with_fixed_int_encoding())
}

/// Relies on bincode::encode_to_vec (standard configuration, fixed-width
/// integers): a `u32` is written as its four little-endian bytes, into a
/// `Vec`, which never fails.
#[verifier::external_body]
fn encode_u32(v: u32) -> (r: Result<Vec<u8>, bincode::error::EncodeError>)
    ensures
        r is Ok,
        r matches Ok(b) ==> b@ == le_bytes(v as nat, 4),
{
    bincode::encode_to_vec(v, bincode::config::standard().with_fixed_int_encoding())
}

/// Relies on bincode::decode_from_slice (standard configuration, fixed-width
/// integers): an `i8` is the first byte, one byte is consumed, and an empty
/// slice is an unexpected end.
#[verifier::external_body]
fn decode_i8(src: &[u8]) -> (r: Result<(i8, usize), bincode::error::DecodeError>)
    ensures
        r is Ok <==> src@.len() >= 1,
        r matches Ok((v, n)) ==> n == 1 && v as int == signed(le_value(src@.subrange(0, 1)), 1),
{
    bincode::decode_from_slice(src, bincode::config::standard().with_fixed_int_encoding())
}

/// Relies on bincode::decode_from_slice (standard configuration, fixed-width
/// integers): an `i16` is the first two bytes, little-endian, two bytes are
/// consumed, and a shorter slice is an unexpected end.
#[verifier::external_body]
fn decode_i16(src: &[u8]) -> (r: Result<(i16, usize), bincode::error::DecodeError>)
    ensures
        r is Ok <==> src@.len() >= 2,
        r matches Ok((v, n)) ==> n == 2 && v as int == signed(le_value(src@.subrange(0, 2)), 2),
{
    bincode::decode_from_slice(src, bincode::config::standard().with_fixed_int_encoding())
}

/// Relies on bincode::decode_from_slice (standard configuration, fixed-width
/// integers): an `i32` is the first four bytes, little-endian, four bytes are
/// consumed, and a shorter slice is an unexpected end.
#[verifier::external_body]
fn decode_i32(src: &[u8]) -> (r: Result<(i32, usize), bincode::error::DecodeError>)
    ensures
        r is Ok <==> src@.len() >= 4,
        r matches Ok((v, n)) ==> n == 4 && v as int == signed(le_value(src@.subrange(0, 4)), 4),
{
    bincode::decode_from_slice(src, bincode::config::standard().with_fixed_int_encoding())
}

/// Relies on bincode::decode_from_slice (standard configuration, fixed-width
/// integers): a `u32` is the first four bytes, little-endian, four bytes are
/// consumed, and a shorter slice is an unexpected end.
#[verifier::external_body]
fn decode_u32(src: &[u8]) -> (r: Result<(u32, usize), bincode::error::DecodeError>)
    ensures
        r is Ok <==> src@.len() >= 4,
        r matches Ok((v, n)) ==> n == 4 && v as nat == le_value(src@.subrange(0, 4)),
{
    bincode::decode_from_slice(src, bincode::config::standard().with_fixed_int_encoding())
}

/// The scalar types a record field may be an array of. `U32` also carries
/// `f32` fields, as their bit patterns, which bincode writes the same way.
#[derive(Clone, Copy, Debug, PartialEq, Eq, Structural)]
pub enum ScalarKind {
    I8,
    I16,
    I32,
    U32,
}

impl ScalarKind {
    pub open spec fn spec_width(self) -> nat {
        match self {
            ScalarKind::I8 => 1,
            ScalarKind::I16 => 2,
            ScalarKind::I32 => 4,
            ScalarKind::U32 => 4,
        }
    }

    /// Whether `v` is a value of this scalar type.
    pub open spec fn holds(self, v: int) -> bool {
        match self {
            ScalarKind::U32 => 0 <= v < byte_range(4),
            _ => fits_signed(v, self.spec_width()),
        }
    }

    pub fn width(self) -> (r: usize)
        ensures
            r == self.spec_width(),
    {
        match self {
            ScalarKind::I8 => 1,
            ScalarKind::I16 => 2,
            ScalarKind::I32 => 4,
            ScalarKind::U32 => 4,
        }
    }
}

/// The encoding of one scalar.
pub open spec fn scalar_bytes(k: ScalarKind, v: int) -> Seq<u8> {
    le_bytes(wrap(v, k.spec_width()), k.spec_width())
}

/// The scalar that the bytes `b` of one scalar encode.
pub open spec fn scalar_value(k: ScalarKind, b: Seq<u8>) -> int {
    match k {
        ScalarKind::U32 => le_value(b) as int,
        _ => signed(le_value(b), k.spec_width()),
    }
}

/// The encoding of an array of scalars.
pub open spec fn values_bytes(k: ScalarKind, vs: Seq<int>) -> Seq<u8>
    decreases vs.len(),
{
    if vs.len() == 0 {
        Seq::empty()
    } else {
        values_bytes(k, vs.drop_last()) + scalar_bytes(k, vs.last())
    }
}

/// The `count` scalars that the bytes `b` hold, one after the other.
pub open spec fn decode_values(k: ScalarKind, b: Seq<u8>, count: nat) -> Seq<int> {
    let w = k.spec_width() as int;
    Seq::new(count, |i: int| scalar_value(k, b.subrange(i * w, i * w + w)))
}

/// One field of a record type: a fixed-size array of `count` scalars. A
/// nested array field such as `[[i8; 4]; 8]` is one field of 32 `I8`s.
#[derive(Clone, Copy, Debug, PartialEq, Eq, Structural)]
pub struct FieldLayout {
    pub kind: ScalarKind,
    pub count: usize,
}

/// A record type: its fields in declaration order.
#[derive(Clone, Debug)]
pub struct RecordLayout {
    pub fields: Vec<FieldLayout>,
}

/// The encoded size of a record type.
pub open spec fn layout_size(ls: Seq<FieldLayout>) -> nat
    decreases ls.len(),
{
    if ls.len() == 0 {
        0
    } else {
        layout_size(ls.drop_last()) + (ls.last().count as nat) * ls.last().kind.spec_width()
    }
}

/// One field of a record value.
pub struct FieldValue {
    pub kind: ScalarKind,
    pub values: Seq<int>,
}

/// The encoding of a record value.
pub open spec fn record_bytes(fs: Seq<FieldValue>) -> Seq<u8>
    decreases fs.len(),
{
    if fs.len() == 0 {
        Seq::empty()
    } else {
        record_bytes(fs.drop_last()) + values_bytes(fs.last().kind, fs.last().values)
    }
}

/// The record value of type `ls` that the start of `b` encodes.
pub open spec fn decode_record(ls: Seq<FieldLayout>, b: Seq<u8>) -> Seq<FieldValue>
    decreases ls.len(),
{
    if ls.len() == 0 {
        Seq::empty()
    } else {
        let front = ls.drop_last();
        let f = ls.last();
        decode_record(front, b).push(
            FieldValue {
                kind: f.kind,
                values: decode_values(
                    f.kind,
                    b.subrange(layout_size(front) as int, layout_size(ls) as int),
                    f.count as nat,
                ),
            },
        )
    }
}

/// A record value is of type `ls`: same fields, same array lengths, and
/// every value of its scalar type.
pub open spec fn conforms(fs: Seq<FieldValue>, ls: Seq<FieldLayout>) -> bool {
    &&& fs.len() == ls.len()
    &&& forall|i: int|
        #![trigger fs[i]]
        0 <= i < fs.len() ==> {
            &&& fs[i].kind == ls[i].kind
            &&& fs[i].values.len() == ls[i].count
            &&& forall|j: int| 0 <= j < fs[i].values.len() ==> fs[i].kind.holds(#[trigger] fs[i].values[j])
        }
}

/// A field of a decoded record.
#[derive(Clone, Debug, PartialEq, Eq)]
pub enum Field {
    I8(Vec<i8>),
    I16(Vec<i16>),
    I32(Vec<i32>),
    U32(Vec<u32>),
}

impl View for Field {
    type V = FieldValue;

    open spec fn view(&self) -> FieldValue {
        match self {
            Field::I8(v) => FieldValue { kind: ScalarKind::I8, values: v@.map_values(|x: i8| x as int) },
            Field::I16(v) => FieldValue {
                kind: ScalarKind::I16,
                values: v@.map_values(|x: i16| x as int),
            },
            Field::I32(v) => FieldValue {
                kind: ScalarKind::I32,
                values: v@.map_values(|x: i32| x as int),
            },
            Field::U32(v) => FieldValue {
                kind: ScalarKind::U32,
                values: v@.map_values(|x: u32| x as int),
            },
        }
    }
}

/// A decoded record: plain owned data, independent of any arena.
#[derive(Clone, Debug, PartialEq, Eq)]
pub struct Record {
    pub fields: Vec<Field>,
}

impl View for Record {
    type V = Seq<FieldValue>;

    open spec fn view(&self) -> Seq<FieldValue> {
        self.fields@.map_values(|f: Field| f@)
    }
}

impl RecordLayout {
    pub open spec fn spec_fields(&self) -> Seq<FieldLayout> {
        self.fields@
    }
}


proof fn lemma_scalar_bytes_len(k: ScalarKind, v: int)
    ensures
        #[trigger] scalar_bytes(k, v).len() == k.spec_width(),
{
    lemma_le_bytes_len(wrap(v, k.spec_width()), k.spec_width());
}

proof fn lemma_values_bytes_len(k: ScalarKind, vs: Seq<int>)
    ensures
        values_bytes(k, vs).len() == vs.len() * k.spec_width(),
    decreases vs.len(),
{
    if vs.len() > 0 {
        lemma_values_bytes_len(k, vs.drop_last());
        lemma_scalar_bytes_len(k, vs.last());
        let n = vs.len() as int;
        let w = k.spec_width() as int;
        assert((n - 1) * w + w == n * w) by (nonlinear_arith);
    }
}

/// Scalar `i` of an encoded array sits at bytes `i * w .. i * w + w`.
proof fn lemma_values_bytes_at(k: ScalarKind, vs: Seq<int>, i: int)
    requires
        0 <= i < vs.len(),
    ensures
        0 <= i * k.spec_width(),
        i * k.spec_width() + k.spec_width() <= vs.len() * k.spec_width(),
        values_bytes(k, vs).subrange(i * k.spec_width(), i * k.spec_width() + k.spec_width())
            == scalar_bytes(k, vs[i]),
    decreases vs.len(),
{
    let n = vs.len() as int;
    let w = k.spec_width() as int;
    let front = vs.drop_last();
    lemma_values_bytes_len(k, front);
    lemma_values_bytes_len(k, vs);
    lemma_scalar_bytes_len(k, vs.last());
    assert(0 <= i * w && i * w + w <= n * w) by (nonlinear_arith)
        requires
            0 <= i < n,
            0 <= w,
    ;
    if i == n - 1 {
        assert(i * w == (n - 1) * w);
        assert(values_bytes(k, vs).subrange(i * w, i * w + w) =~= scalar_bytes(k, vs[i]));
    } else {
        lemma_values_bytes_at(k, front, i);
        assert(values_bytes(k, vs).subrange(i * w, i * w + w) =~= values_bytes(k, front).subrange(
            i * w,
            i * w + w,
        ));
    }
}

/// Reading back the encoding of a scalar gives the scalar.
proof fn lemma_scalar_round_trip(k: ScalarKind, v: int)
    requires
        k.holds(v),
    ensures
        scalar_value(k, scalar_bytes(k, v)) == v,
{
    let w = k.spec_width();
    lemma_byte_range_small();
    lemma_byte_range_pos(w);
    lemma_le_value_of_bytes(wrap(v, w), w);
    vstd::arithmetic::div_mod::lemma_mod_twice(v, byte_range(w) as int);
    match k {
        ScalarKind::U32 => {
            vstd::arithmetic::div_mod::lemma_small_mod(v as nat, byte_range(4));
        },
        _ => {
            lemma_signed_wrap(v, w);
        },
    }
}

/// Decoding an encoded array of scalars gives the array back.
proof fn lemma_decode_values_of_bytes(k: ScalarKind, vs: Seq<int>)
    requires
        forall|j: int| 0 <= j < vs.len() ==> k.holds(#[trigger] vs[j]),
    ensures
        decode_values(k, values_bytes(k, vs), vs.len()) == vs,
{
    assert forall|i: int| 0 <= i < vs.len() implies #[trigger] decode_values(
        k,
        values_bytes(k, vs),
        vs.len(),
    )[i] == vs[i] by {
        lemma_values_bytes_at(k, vs, i);
        lemma_scalar_round_trip(k, vs[i]);
    }
    assert(decode_values(k, values_bytes(k, vs), vs.len()) =~= vs);
}

proof fn lemma_conforms_front(fs: Seq<FieldValue>, ls: Seq<FieldLayout>)
    requires
        conforms(fs, ls),
        fs.len() > 0,
    ensures
        conforms(fs.drop_last(), ls.drop_last()),
{
    assert forall|i: int| 0 <= i < fs.len() - 1 implies #[trigger] fs.drop_last()[i] == fs[i] by {}
    let ff = fs.drop_last();
    assert forall|i: int| #![trigger ff[i]] 0 <= i < ff.len() implies {
        &&& ff[i].kind == ls.drop_last()[i].kind
        &&& ff[i].values.len() == ls.drop_last()[i].count
        &&& forall|j: int| 0 <= j < ff[i].values.len() ==> ff[i].kind.holds(#[trigger] ff[i].values[j])
    } by {
        assert(fs[i] == ff[i]);
    }
}

/// The encoding of a record value is as long as its type's size.
proof fn lemma_record_bytes_len(fs: Seq<FieldValue>, ls: Seq<FieldLayout>)
    requires
        conforms(fs, ls),
    ensures
        record_bytes(fs).len() == layout_size(ls),
    decreases fs.len(),
{
    if fs.len() > 0 {
        lemma_conforms_front(fs, ls);
        lemma_record_bytes_len(fs.drop_last(), ls.drop_last());
        assert(fs[fs.len() - 1].kind == ls[ls.len() - 1].kind);
        lemma_values_bytes_len(fs.last().kind, fs.last().values);
    }
}

/// The size of a record type grows with each field.
proof fn lemma_layout_size_mono(ls: Seq<FieldLayout>, i: int, j: int)
    requires
        0 <= i <= j <= ls.len(),
    ensures
        layout_size(ls.take(i)) <= layout_size(ls.take(j)),
    decreases j - i,
{
    if i < j {
        lemma_layout_size_mono(ls, i, j - 1);
        assert(ls.take(j).drop_last() =~= ls.take(j - 1));
    }
}

/// Decoding a record of type `ls` reads only the first `layout_size(ls)` bytes.
proof fn lemma_decode_record_prefix(ls: Seq<FieldLayout>, b1: Seq<u8>, b2: Seq<u8>)
    requires
        b1.len() >= layout_size(ls),
        b2.len() >= layout_size(ls),
        b1.subrange(0, layout_size(ls) as int) == b2.subrange(0, layout_size(ls) as int),
    ensures
        decode_record(ls, b1) == decode_record(ls, b2),
    decreases ls.len(),
{
    if ls.len() > 0 {
        let front = ls.drop_last();
        let s = layout_size(ls) as int;
        let sf = layout_size(front) as int;
        assert(b1.subrange(0, sf) =~= b1.subrange(0, s).subrange(0, sf));
        assert(b2.subrange(0, sf) =~= b2.subrange(0, s).subrange(0, sf));
        lemma_decode_record_prefix(front, b1, b2);
        assert(b1.subrange(sf, s) =~= b1.subrange(0, s).subrange(sf, s));
        assert(b2.subrange(sf, s) =~= b2.subrange(0, s).subrange(sf, s));
    }
}

/// Decoding the encoding of a record value gives that value back: the
/// encoding is a bijection between the values of a record type and the byte
/// strings of its size.
pub proof fn law_record_round_trip(fs: Seq<FieldValue>, ls: Seq<FieldLayout>)
    requires
        conforms(fs, ls),
    ensures
        record_bytes(fs).len() == layout_size(ls),
        decode_record(ls, record_bytes(fs)) == fs,
    decreases fs.len(),
{
    lemma_record_bytes_len(fs, ls);
    if fs.len() > 0 {
        let front = fs.drop_last();
        let lf = ls.drop_last();
        let last = fs.last();
        lemma_conforms_front(fs, ls);
        law_record_round_trip(front, lf);
        let b = record_bytes(fs);
        let bf = record_bytes(front);
        lemma_record_bytes_len(front, lf);
        assert(b.subrange(0, layout_size(lf) as int) =~= bf.subrange(0, layout_size(lf) as int));
        lemma_decode_record_prefix(lf, b, bf);
        assert(fs[fs.len() - 1] == last);
        assert(last.kind == ls.last().kind);
        assert(b.subrange(layout_size(lf) as int, layout_size(ls) as int) =~= values_bytes(
            last.kind,
            last.values,
        ));
        assert forall|j: int| 0 <= j < last.values.len() implies last.kind.holds(
            #[trigger] last.values[j],
        ) by {
            assert(fs[fs.len() - 1].kind.holds(fs[fs.len() - 1].values[j]));
        }
        lemma_decode_values_of_bytes(last.kind, last.values);
        assert(decode_record(ls, b) =~= fs);
    }
}


/// The encoding of one scalar of kind `k`.
fn encode_scalar(k: ScalarKind, v: i64) -> (r: Vec<u8>)
    requires
        k.holds(v as int),
    ensures
        r@ == scalar_bytes(k, v as int),
{
    proof {
        lemma_byte_range_small();
    }
    let r = match k {
        ScalarKind::I8 => encode_i8(v as i8),
        ScalarKind::I16 => encode_i16(v as i16),
        ScalarKind::I32 => encode_i32(v as i32),
        ScalarKind::U32 => {
            proof {
                vstd::arithmetic::div_mod::lemma_small_mod(v as nat, byte_range(4));
            }
            encode_u32(v as u32)
        },
    };
    match r {
        Ok(b) => b,
        Err(_) => {
            assert(false);
            Vec::new()
        },
    }
}

/// The scalar of kind `k` at the start of `src`, if `src` holds one.
fn decode_scalar(k: ScalarKind, src: &[u8]) -> (r: Option<i64>)
    ensures
        r is Some <==> src@.len() >= k.spec_width(),
        r matches Some(v) ==> v == scalar_value(k, src@.subrange(0, k.spec_width() as int))
            && k.holds(v as int),
{
    proof {
        lemma_byte_range_small();
        lemma_bytes_of_le_value(src@.subrange(0, k.spec_width() as int));
    }
    match k {
        ScalarKind::I8 => match decode_i8(src) {
            Ok((v, _)) => {
                proof {
                    lemma_signed_fits(le_value(src@.subrange(0, 1)), 1);
                }
                Some(v as i64)
            },
            Err(_) => None,
        },
        ScalarKind::I16 => match decode_i16(src) {
            Ok((v, _)) => {
                proof {
                    lemma_signed_fits(le_value(src@.subrange(0, 2)), 2);
                }
                Some(v as i64)
            },
            Err(_) => None,
        },
        ScalarKind::I32 => match decode_i32(src) {
            Ok((v, _)) => {
                proof {
                    lemma_signed_fits(le_value(src@.subrange(0, 4)), 4);
                }
                Some(v as i64)
            },
            Err(_) => None,
        },
        ScalarKind::U32 => match decode_u32(src) {
            Ok((v, _)) => Some(v as i64),
            Err(_) => None,
        },
    }
}

impl Field {
    /// An empty array of kind `k`.
    pub fn empty(k: ScalarKind) -> (r: Field)
        ensures
            r@.kind == k,
            r@.values == Seq::<int>::empty(),
    {
        let r = match k {
            ScalarKind::I8 => Field::I8(Vec::new()),
            ScalarKind::I16 => Field::I16(Vec::new()),
            ScalarKind::I32 => Field::I32(Vec::new()),
            ScalarKind::U32 => Field::U32(Vec::new()),
        };
        assert(r@.values =~= Seq::<int>::empty());
        r
    }

    pub fn kind(&self) -> (r: ScalarKind)
        ensures
            r == self@.kind,
    {
        match self {
            Field::I8(_) => ScalarKind::I8,
            Field::I16(_) => ScalarKind::I16,
            Field::I32(_) => ScalarKind::I32,
            Field::U32(_) => ScalarKind::U32,
        }
    }

    pub fn len(&self) -> (r: usize)
        ensures
            r == self@.values.len(),
    {
        match self {
            Field::I8(v) => v.len(),
            Field::I16(v) => v.len(),
            Field::I32(v) => v.len(),
            Field::U32(v) => v.len(),
        }
    }

    /// Every value of a field is of the field's scalar type.
    pub proof fn lemma_values_hold(&self)
        ensures
            forall|j: int| 0 <= j < self@.values.len() ==> self@.kind.holds(#[trigger] self@.values[j]),
    {
        lemma_byte_range_small();
        reveal_with_fuel(byte_range, 5);
    }

    /// Scalar `j` of the field.
    pub fn get(&self, j: usize) -> (r: i64)
        requires
            j < self@.values.len(),
        ensures
            r == self@.values[j as int],
    {
        match self {
            Field::I8(v) => v[j] as i64,
            Field::I16(v) => v[j] as i64,
            Field::I32(v) => v[j] as i64,
            Field::U32(v) => v[j] as i64,
        }
    }

    /// Appends a scalar of the field's type.
    pub fn push(&mut self, x: i64)
        requires
            old(self)@.kind.holds(x as int),
        ensures
            final(self)@.kind == old(self)@.kind,
            final(self)@.values == old(self)@.values.push(x as int),
    {
        proof {
            lemma_byte_range_small();
            reveal_with_fuel(byte_range, 5);
        }
        match self {
            Field::I8(v) => {
                v.push(x as i8);
                assert(v@.map_values(|y: i8| y as int) =~= old(self)@.values.push(x as int));
            },
            Field::I16(v) => {
                v.push(x as i16);
                assert(v@.map_values(|y: i16| y as int) =~= old(self)@.values.push(x as int));
            },
            Field::I32(v) => {
                v.push(x as i32);
                assert(v@.map_values(|y: i32| y as int) =~= old(self)@.values.push(x as int));
            },
            Field::U32(v) => {
                v.push(x as u32);
                assert(v@.map_values(|y: u32| y as int) =~= old(self)@.values.push(x as int));
            },
        }
    }
}

/// Appends the encoding of `f` to `out`.
fn encode_field(f: &Field, out: &mut Vec<u8>)
    ensures
        final(out)@ == old(out)@ + values_bytes(f@.kind, f@.values),
{
    let k = f.kind();
    let n = f.len();
    proof {
        f.lemma_values_hold();
    }
    let mut j: usize = 0;
    while j < n
        invariant
            j <= n,
            n == f@.values.len(),
            k == f@.kind,
            forall|i: int| 0 <= i < f@.values.len() ==> f@.kind.holds(#[trigger] f@.values[i]),
            out@ == old(out)@ + values_bytes(k, f@.values.take(j as int)),
        decreases n - j,
    {
        let x = f.get(j);
        let mut b = encode_scalar(k, x);
        let ghost before = out@;
        out.append(&mut b);
        proof {
            assert(f@.values.take(j + 1).drop_last() =~= f@.values.take(j as int));
            assert(out@ =~= old(out)@ + values_bytes(k, f@.values.take(j + 1)));
        }
        j = j + 1;
    }
    assert(f@.values.take(n as int) =~= f@.values);
}

/// Reads `count` scalars of kind `k` from `src`, starting at byte `pos`.
fn decode_field(k: ScalarKind, count: usize, src: &[u8], pos: usize) -> (r: Option<Field>)
    requires
        pos <= src@.len(),
    ensures
        r is Some <==> pos + count * k.spec_width() <= src@.len(),
        r matches Some(f) ==> f@ == (FieldValue {
            kind: k,
            values: decode_values(
                k,
                src@.subrange(pos as int, pos + count * k.spec_width()),
                count as nat,
            ),
        }),
{
    let w = k.width();
    let mut f = Field::empty(k);
    let mut p = pos;
    let mut j: usize = 0;
    while j < count
        invariant
            j <= count,
            w == k.spec_width(),
            p == pos + j * w,
            p <= src@.len(),
            f@.kind == k,
            f@.values =~= Seq::new(
                j as nat,
                |i: int| scalar_value(k, src@.subrange(pos + i * w, pos + i * w + w)),
            ),
        decreases count - j,
    {
        let rest = &src[p..src.len()];
        match decode_scalar(k, rest) {
            Some(x) => {
                assert(rest@.subrange(0, w as int) =~= src@.subrange(p as int, p + w));
                f.push(x);
                p = p + w;
                j = j + 1;
                assert(p == pos + j * w) by (nonlinear_arith)
                    requires
                        p == pos + (j - 1) * w + w,
                ;
            },
            None => {
                assert(pos + count * w >= p + w) by (nonlinear_arith)
                    requires
                        p == pos + j * w,
                        j + 1 <= count,
                        w >= 0,
                ;
                return None;
            },
        }
    }
    let ghost sub = src@.subrange(pos as int, pos + count * w);
    assert forall|i: int| 0 <= i < count implies #[trigger] sub.subrange(i * w, i * w + w)
        == src@.subrange(pos + i * w, pos + i * w + w) by {
        assert(0 <= i * w && i * w + w <= count * w) by (nonlinear_arith)
            requires
                0 <= i < count,
                0 <= w,
        ;
        assert(sub.subrange(i * w, i * w + w) =~= src@.subrange(pos + i * w, pos + i * w + w));
    }
    assert(f@.values =~= decode_values(k, sub, count as nat));
    Some(f)
}

/// Why a record could not be decoded.
#[derive(Clone, Copy, Debug, PartialEq, Eq, Structural)]
pub enum DecodeFailure {
    /// The bytes ran out before the record did.
    UnexpectedEnd,
}

impl Record {
    /// The record's encoding.
    pub fn encode(&self) -> (r: Vec<u8>)
        ensures
            r@ == record_bytes(self@),
    {
        let mut out: Vec<u8> = Vec::new();
        let n = self.fields.len();
        let mut i: usize = 0;
        while i < n
            invariant
                i <= n,
                n == self@.len(),
                out@ == record_bytes(self@.take(i as int)),
            decreases n - i,
        {
            encode_field(&self.fields[i], &mut out);
            proof {
                assert(self@.take(i + 1).drop_last() =~= self@.take(i as int));
            }
            i = i + 1;
        }
        assert(self@.take(n as int) =~= self@);
        out
    }

    /// Decodes a record of type `layout` from the start of `src`; returns it
    /// with the number of bytes it took, which is the type's size.
    pub fn decode(layout: &RecordLayout, src: &[u8]) -> (r: Result<(Record, usize), DecodeFailure>)
        ensures
            r is Ok <==> layout_size(layout.spec_fields()) <= src@.len(),
            r matches Ok((rec, n)) ==> n == layout_size(layout.spec_fields()) && rec@ == decode_record(
                layout.spec_fields(),
                src@,
            ),
    {
        let ghost ls = layout.spec_fields();
        let n = layout.fields.len();
        let src_len = src.len();
        let mut fields: Vec<Field> = Vec::new();
        let mut pos: usize = 0;
        let mut i: usize = 0;
        while i < n
            invariant
                i <= n,
                n == ls.len(),
                ls == layout.spec_fields(),
                pos == layout_size(ls.take(i as int)),
                pos <= src@.len(),
                src_len == src@.len(),
                fields@.map_values(|f: Field| f@) == decode_record(ls.take(i as int), src@),
            decreases n - i,
        {
            let fl = layout.fields[i];
            proof {
                assert(ls.take(i + 1).drop_last() =~= ls.take(i as int));
                assert(ls.take(i + 1).last() == fl);
            }
            match decode_field(fl.kind, fl.count, src, pos) {
                Some(f) => {
                    let ghost before = fields@;
                    fields.push(f);
                    pos = pos + fl.count * fl.kind.width();
                    i = i + 1;
                    proof {
                        assert(fields@.map_values(|f: Field| f@) =~= before.map_values(
                            |f: Field| f@,
                        ).push(f@));
                    }
                },
                None => {
                    proof {
                        lemma_layout_size_mono(ls, i + 1, n as int);
                        assert(ls.take(n as int) =~= ls);
                    }
                    return Err(DecodeFailure::UnexpectedEnd);
                },
            }
        }
        proof {
            assert(ls.take(n as int) =~= ls);
        }
        Ok((Record { fields }, pos))
    }
}

impl RecordLayout {
    /// The encoded size of a record of this type, if it fits in a `usize`.
    pub fn encoded_len(&self) -> (r: Option<usize>)
        ensures
            r matches Some(n) ==> n == layout_size(self.spec_fields()),
            r is None ==> layout_size(self.spec_fields()) > usize::MAX,
    {
        let ghost ls = self.spec_fields();
        let n = self.fields.len();
        let mut total: usize = 0;
        let mut i: usize = 0;
        while i < n
            invariant
                i <= n,
                n == ls.len(),
                ls == self.spec_fields(),
                total == layout_size(ls.take(i as int)),
            decreases n - i,
        {
            let fl = self.fields[i];
            proof {
                assert(ls.take(i + 1).drop_last() =~= ls.take(i as int));
                assert(ls.take(i + 1).last() == fl);
                lemma_layout_size_mono(ls, i + 1, n as int);
                assert(ls.take(n as int) =~= ls);
            }
            let part = match fl.count.checked_mul(fl.kind.width()) {
                Some(x) => x,
                None => {
                    return None;
                },
            };
            total = match total.checked_add(part) {
                Some(x) => x,
                None => {
                    return None;
                },
            };
            i = i + 1;
        }
        proof {
            assert(ls.take(n as int) =~= ls);
        }
        Some(total)
    }
}


/// Re-encoding one decoded scalar gives back its bytes.
proof fn lemma_scalar_bytes_of_value(k: ScalarKind, x: Seq<u8>)
    requires
        x.len() == k.spec_width(),
    ensures
        scalar_bytes(k, scalar_value(k, x)) == x,
        k.holds(scalar_value(k, x)),
{
    let w = k.spec_width();
    lemma_byte_range_small();
    lemma_bytes_of_le_value(x);
    match k {
        ScalarKind::U32 => {
            vstd::arithmetic::div_mod::lemma_small_mod(le_value(x), byte_range(4));
        },
        _ => {
            lemma_signed_fits(le_value(x), w);
        },
    }
}

/// Re-encoding the scalars decoded from `b` gives back `b`.
proof fn lemma_values_bytes_of_decode(k: ScalarKind, b: Seq<u8>, count: nat)
    requires
        b.len() == count * k.spec_width(),
    ensures
        values_bytes(k, decode_values(k, b, count)) == b,
        forall|j: int| 0 <= j < count ==> k.holds(#[trigger] decode_values(k, b, count)[j]),
    decreases count,
{
    let w = k.spec_width() as int;
    let vs = decode_values(k, b, count);
    assert forall|j: int| 0 <= j < count implies k.holds(#[trigger] vs[j]) by {
        assert(0 <= j * w && j * w + w <= count * w) by (nonlinear_arith)
            requires
                0 <= j < count,
                0 <= w,
        ;
        lemma_scalar_bytes_of_value(k, b.subrange(j * w, j * w + w));
    }
    if count > 0 {
        let m = (count - 1) as nat;
        assert(m * w + w == count * w) by (nonlinear_arith)
            requires
                m == count - 1,
        ;
        let front = b.subrange(0, m * w);
        assert forall|i: int| 0 <= i < m implies front.subrange(i * w, i * w + w) == #[trigger] b.subrange(
            i * w,
            i * w + w,
        ) by {
            assert(0 <= i * w && i * w + w <= m * w) by (nonlinear_arith)
                requires
                    0 <= i < m,
                    0 <= w,
            ;
            assert(front.subrange(i * w, i * w + w) =~= b.subrange(i * w, i * w + w));
        }
        assert(vs.drop_last() =~= decode_values(k, front, m));
        lemma_values_bytes_of_decode(k, front, m);
        lemma_scalar_bytes_of_value(k, b.subrange(m * w, m * w + w));
        assert(b =~= front + b.subrange(m * w, m * w + w));
    } else {
        assert(b =~= Seq::<u8>::empty());
    }
}

/// A decoded record is of its type, and re-encoding it gives back the bytes
/// it was decoded from.
pub proof fn lemma_record_bytes_of_decode(ls: Seq<FieldLayout>, b: Seq<u8>)
    requires
        layout_size(ls) <= b.len(),
    ensures
        conforms(decode_record(ls, b), ls),
        record_bytes(decode_record(ls, b)) == b.subrange(0, layout_size(ls) as int),
    decreases ls.len(),
{
    if ls.len() == 0 {
        assert(b.subrange(0, 0) =~= Seq::<u8>::empty());
    } else {
        let front = ls.drop_last();
        let f = ls.last();
        let sf = layout_size(front) as int;
        let s = layout_size(ls) as int;
        lemma_record_bytes_of_decode(front, b);
        let sub = b.subrange(sf, s);
        lemma_values_bytes_of_decode(f.kind, sub, f.count as nat);
        let d = decode_record(ls, b);
        assert(d.drop_last() == decode_record(front, b));
        assert(b.subrange(0, s) =~= b.subrange(0, sf) + sub);
        let df = decode_record(front, b);
        assert forall|i: int| #![trigger d[i]] 0 <= i < d.len() implies {
            &&& d[i].kind == ls[i].kind
            &&& d[i].values.len() == ls[i].count
            &&& forall|j: int| 0 <= j < d[i].values.len() ==> d[i].kind.holds(#[trigger] d[i].values[j])
        } by {
            if i < d.len() - 1 {
                assert(d[i] == df[i]);
                assert(ls[i] == front[i]);
            }
        }
    }
}

} // verus!
