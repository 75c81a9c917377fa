//! Decoding records from a byte stream and materializing them as tensors: a
//! record is re-encoded, the tensor's extents are resolved against the
//! encoding's length, a tensor of that shape is allocated, and the bytes are
//! copied in.
use crate::codec::{
    decode_record, layout_size, lemma_record_bytes_of_decode, record_bytes,
    DecodeFailure, FieldLayout, Record, RecordLayout,
};
use crate::context::{Context, ContextModel, Tensor, TensorInfo};
use crate::params::{params_of_terms, TensorParams};
use crate::tensor_type::{ConfigError, DataType, Dimension};
use vstd::prelude::*;

verus! {

/// Why a record could not be read or materialized.
#[derive(Clone, Copy, Debug, PartialEq, Eq, Structural)]
pub enum ModelIOError {
    /// The stream ended before the record did.
    Decode(DecodeFailure),
    /// The shape has not one extent per axis of the declared rank.
    ShapeMismatch,
    /// The record's encoding is longer than the tensor it resolves to.
    OutOfBounds,
    /// The declared datatype is the `COUNT` sentinel, which holds no data.
    UnsupportedDatatype,
}

/// Bytes read front to back, one record at a time.
pub struct ByteStream {
    bytes: Vec<u8>,
    pos: usize,
}

pub struct StreamModel {
    pub bytes: Seq<u8>,
    pub pos: nat,
}

impl StreamModel {
    pub open spec fn wf(self) -> bool {
        self.pos <= self.bytes.len()
    }

    /// The bytes not yet read.
    pub open spec fn rest(self) -> Seq<u8> {
        self.bytes.subrange(self.pos as int, self.bytes.len() as int)
    }
}

impl View for ByteStream {
    type V = StreamModel;

    closed spec fn view(&self) -> StreamModel {
        StreamModel { bytes: self.bytes@, pos: self.pos as nat }
    }
}

impl ByteStream {
    /// A stream positioned at the start of `bytes`.
    pub fn new(bytes: Vec<u8>) -> (r: ByteStream)
        ensures
            r@.wf(),
            r@.bytes == bytes@,
            r@.pos == 0,
    {
        ByteStream { bytes, pos: 0 }
    }

    /// Bytes read so far.
    pub fn position(&self) -> (r: usize)
        ensures
            r == self@.pos,
    {
        self.pos
    }

    /// Bytes not yet read.
    pub fn remaining(&self) -> (r: usize)
        requires
            self@.wf(),
        ensures
            r == self@.bytes.len() - self@.pos,
    {
        self.bytes.len() - self.pos
    }
}

/// A record of type `ls` can be read from stream state `s`.
pub open spec fn can_read(ls: Seq<FieldLayout>, s: StreamModel) -> bool {
    s.pos + layout_size(ls) <= s.bytes.len()
}

/// The stream state after one record of type `ls` is read from `s`.
pub open spec fn after_read(ls: Seq<FieldLayout>, s: StreamModel) -> StreamModel {
    StreamModel { bytes: s.bytes, pos: s.pos + layout_size(ls) }
}

/// The stream state after `k` records of type `ls` are read from `s`.
pub open spec fn after_reads(ls: Seq<FieldLayout>, s: StreamModel, k: nat) -> StreamModel
    decreases k,
{
    if k == 0 {
        s
    } else {
        after_read(ls, after_reads(ls, s, (k - 1) as nat))
    }
}

/// The datatype, rank and extents of a tensor to allocate.
#[derive(Clone, Copy, Debug, PartialEq, Eq, Structural)]
pub struct TensorPlan {
    pub datatype: DataType,
    pub dim: Dimension,
    pub ne0: usize,
    pub ne1: usize,
    pub ne2: usize,
}

impl TensorPlan {
    pub open spec fn spec_nbytes(self) -> nat {
        self.ne0 as nat * self.ne1 as nat * self.ne2 as nat * self.datatype.spec_size()
    }
}

/// A given extent, or the default `d` where the extent is unspecified.
pub open spec fn extent_or(e: Option<usize>, d: usize) -> usize {
    match e {
        Some(x) => x,
        None => d,
    }
}

/// The tensor that a record whose encoding is `len` bytes long becomes,
/// under the declared `params` and the caller's `shape`. An unspecified
/// first extent spans the whole encoding (its length over the element size);
/// an unspecified second or third extent is 1. A `Scalar` record becomes a
/// one-element `F32` tensor.
pub open spec fn spec_plan(params: TensorParams, len: usize, shape: Seq<Option<usize>>) -> Result<
    TensorPlan,
    ModelIOError,
> {
    if !params.datatype.is_data() {
        Err(ModelIOError::UnsupportedDatatype)
    } else if shape.len() != params.dim.spec_rank() {
        Err(ModelIOError::ShapeMismatch)
    } else {
        let whole = (len as nat / params.datatype.spec_size()) as usize;
        let p = match params.dim {
            Dimension::Scalar => TensorPlan {
                datatype: DataType::F32,
                dim: Dimension::Scalar,
                ne0: 1,
                ne1: 1,
                ne2: 1,
            },
            Dimension::D1 => TensorPlan {
                datatype: params.datatype,
                dim: Dimension::D1,
                ne0: extent_or(shape[0], whole),
                ne1: 1,
                ne2: 1,
            },
            Dimension::D2 => TensorPlan {
                datatype: params.datatype,
                dim: Dimension::D2,
                ne0: extent_or(shape[0], whole),
                ne1: extent_or(shape[1], 1),
                ne2: 1,
            },
            Dimension::D3 => TensorPlan {
                datatype: params.datatype,
                dim: Dimension::D3,
                ne0: extent_or(shape[0], whole),
                ne1: extent_or(shape[1], 1),
                ne2: extent_or(shape[2], 1),
            },
        };
        if len > p.spec_nbytes() {
            Err(ModelIOError::OutOfBounds)
        } else {
            Ok(p)
        }
    }
}

/// How records of one type are read and materialized: their layout, and the
/// datatype and rank of the tensors they become.
#[derive(Clone, Debug)]
pub struct ModelIO {
    pub layout: RecordLayout,
    pub params: TensorParams,
}

impl ModelIO {
    pub open spec fn spec_layout(&self) -> Seq<FieldLayout> {
        self.layout.spec_fields()
    }

    pub fn new(layout: RecordLayout, params: TensorParams) -> (r: ModelIO)
        ensures
            r.layout == layout,
            r.params == params,
    {
        ModelIO { layout, params }
    }

    /// Registers a record type under a declaration given as its terms, such
    /// as `ggml_datatype = i32 , ggml_dim = D2`; an undeclared datatype is
    /// `i8`, an undeclared rank `D1`, and an unknown token is refused.
    pub fn from_terms(layout: RecordLayout, attr_terms: &Vec<String>) -> (r: Result<
        ModelIO,
        ConfigError,
    >)
        ensures
            r matches Ok(m) ==> m.layout == layout && params_of_terms(attr_terms@) == Ok::<
                TensorParams,
                ConfigError,
            >(m.params),
            r matches Err(e) ==> params_of_terms(attr_terms@) == Err::<TensorParams, ConfigError>(e),
    {
        match TensorParams::from_terms(attr_terms) {
            Ok(params) => Ok(ModelIO { layout, params }),
            Err(e) => Err(e),
        }
    }

    /// Resolves the tensor that a record whose encoding is `len` bytes long becomes.
    pub fn plan(&self, len: usize, shape: &Vec<Option<usize>>) -> (r: Result<TensorPlan, ModelIOError>)
        ensures
            r == spec_plan(self.params, len, shape@),
    {
        let dt = self.params.datatype;
        if dt == DataType::COUNT {
            return Err(ModelIOError::UnsupportedDatatype);
        }
        if shape.len() != self.params.dim.rank() {
            return Err(ModelIOError::ShapeMismatch);
        }
        let whole = len / dt.size();
        let p = match self.params.dim {
            Dimension::Scalar => TensorPlan {
                datatype: DataType::F32,
                dim: Dimension::Scalar,
                ne0: 1,
                ne1: 1,
                ne2: 1,
            },
            Dimension::D1 => TensorPlan {
                datatype: dt,
                dim: Dimension::D1,
                ne0: shape[0].unwrap_or(whole),
                ne1: 1,
                ne2: 1,
            },
            Dimension::D2 => TensorPlan {
                datatype: dt,
                dim: Dimension::D2,
                ne0: shape[0].unwrap_or(whole),
                ne1: shape[1].unwrap_or(1),
                ne2: 1,
            },
            Dimension::D3 => TensorPlan {
                datatype: dt,
                dim: Dimension::D3,
                ne0: shape[0].unwrap_or(whole),
                ne1: shape[1].unwrap_or(1),
                ne2: shape[2].unwrap_or(1),
            },
        };
        match Context::tensor_nbytes(p.datatype, p.ne0, p.ne1, p.ne2) {
            Some(n) => {
                if len > n {
                    Err(ModelIOError::OutOfBounds)
                } else {
                    Ok(p)
                }
            },
            None => Ok(p),
        }
    }
}


/// What materializing a record whose encoding is `bytes` does to an arena in
/// state `before`, given the resolved plan: on a plan error, the error and an
/// untouched arena; otherwise a new tensor of the planned datatype and shape,
/// allocated after every earlier one, whose first bytes are `bytes`, with
/// every earlier tensor left as it was.
pub open spec fn materializes(
    before: ContextModel,
    after: ContextModel,
    plan: Result<TensorPlan, ModelIOError>,
    bytes: Seq<u8>,
    r: Result<Tensor, ModelIOError>,
) -> bool {
    match plan {
        Err(e) => r == Err::<Tensor, ModelIOError>(e) && after == before,
        Ok(p) => match r {
            Err(_) => false,
            Ok(t) => {
                &&& after.owns(t)
                &&& t.spec_slot() == before.slots.len()
                &&& after.slots.drop_last() == before.slots
                &&& after.generation == before.generation
                &&& after.capacity() == before.capacity()
                &&& after.used == before.used + p.spec_nbytes()
                &&& after.info(t) == (TensorInfo {
                    datatype: p.datatype,
                    dim: p.dim,
                    ne0: p.ne0,
                    ne1: p.ne1,
                    ne2: p.ne2,
                    nelements: (p.ne0 * p.ne1 * p.ne2) as usize,
                    nbytes: p.spec_nbytes() as usize,
                    offset: before.used as usize,
                })
                &&& after.data(t).subrange(0, bytes.len() as int) == bytes
                &&& after.others_unchanged(before, t)
            },
        },
    }
}

/// A tensor appended to an arena and then written leaves every earlier
/// tensor as it was.
proof fn lemma_append_then_write(before: ContextModel, mid: ContextModel, after: ContextModel, t: Tensor)
    requires
        mid.others_unchanged(before, t),
        mid.slots.drop_last() == before.slots,
        mid.slots.len() == before.slots.len() + 1,
        t.spec_slot() == before.slots.len(),
        after.same_layout(mid),
        after.others_unchanged(mid, t),
    ensures
        after.others_unchanged(before, t),
{
    assert forall|u: Tensor|
        #![trigger after.data(u)]
        after.owns(u) && u.spec_slot() != t.spec_slot() implies after.data(u) == before.data(u) by {
        assert(after.data(u) == mid.data(u));
        assert(mid.data(u) == before.data(u));
    }
}

impl ModelIO {
    /// Whether reading a record from stream state `s` and materializing it
    /// with `shape` succeeds.
    pub open spec fn reads_tensor(&self, s: StreamModel, shape: Seq<Option<usize>>) -> bool {
        &&& can_read(self.spec_layout(), s)
        &&& spec_plan(self.params, layout_size(self.spec_layout()) as usize, shape) is Ok
    }

    /// Materializes a record: re-encodes it, resolves the tensor's extents
    /// against the encoding's length, allocates the tensor and copies the
    /// encoding in. On an error the arena is left untouched.
    pub fn to_tensor(&self, record: Record, ctx: &mut Context, shape: Vec<Option<usize>>) -> (r:
        Result<Tensor, ModelIOError>)
        requires
            old(ctx).wf(),
            spec_plan(self.params, record_bytes(record@).len() as usize, shape@) matches Ok(p)
                ==> p.spec_nbytes() <= old(ctx)@.free(),
        ensures
            final(ctx).wf(),
            materializes(
                old(ctx)@,
                final(ctx)@,
                spec_plan(self.params, record_bytes(record@).len() as usize, shape@),
                record_bytes(record@),
                r,
            ),
    {
        let buf = record.encode();
        self.materialize(buf.as_slice(), ctx, &shape)
    }

    /// Allocates the tensor that the encoding `buf` resolves to and copies
    /// `buf` into it.
    fn materialize(&self, buf: &[u8], ctx: &mut Context, shape: &Vec<Option<usize>>) -> (r: Result<
        Tensor,
        ModelIOError,
    >)
        requires
            old(ctx).wf(),
            spec_plan(self.params, buf@.len() as usize, shape@) matches Ok(p) ==> p.spec_nbytes()
                <= old(ctx)@.free(),
        ensures
            final(ctx).wf(),
            materializes(
                old(ctx)@,
                final(ctx)@,
                spec_plan(self.params, buf@.len() as usize, shape@),
                buf@,
                r,
            ),
    {
        let p = match self.plan(buf.len(), shape) {
            Ok(p) => p,
            Err(e) => {
                return Err(e);
            },
        };
        let t = match p.dim {
            Dimension::Scalar => {
                assert(p.ne0 == 1 && p.ne1 == 1 && p.ne2 == 1 && p.datatype == DataType::F32);
                assert(p.spec_nbytes() == 4) by (nonlinear_arith)
                    requires
                        p.ne0 == 1 && p.ne1 == 1 && p.ne2 == 1,
                        p.datatype.spec_size() == 4,
                        p.spec_nbytes() == p.ne0 as nat * p.ne1 as nat * p.ne2 as nat
                            * p.datatype.spec_size(),
                ;
                ctx.new_f32_from_bits(0)
            },
            Dimension::D1 => {
                assert(p.spec_nbytes() == p.ne0 * p.datatype.spec_size()) by (nonlinear_arith)
                    requires
                        p.ne1 == 1,
                        p.ne2 == 1,
                        p.spec_nbytes() == p.ne0 as nat * p.ne1 as nat * p.ne2 as nat
                            * p.datatype.spec_size(),
                ;
                ctx.new_tensor_1d(p.datatype, p.ne0)
            },
            Dimension::D2 => {
                assert(p.spec_nbytes() == p.ne0 * p.ne1 * p.datatype.spec_size()) by (nonlinear_arith)
                    requires
                        p.ne2 == 1,
                        p.spec_nbytes() == p.ne0 as nat * p.ne1 as nat * p.ne2 as nat
                            * p.datatype.spec_size(),
                ;
                ctx.new_tensor_2d(p.datatype, p.ne0, p.ne1)
            },
            Dimension::D3 => ctx.new_tensor_3d(p.datatype, p.ne0, p.ne1, p.ne2),
        };
        let ghost mid = ctx@;
        proof {
            assert(mid.info(t).nbytes == p.spec_nbytes());
        }
        match t.write_bytes(ctx, buf) {
            Ok(()) => {
                proof {
                    lemma_append_then_write(old(ctx)@, mid, ctx@, t);
                    assert(ctx@.data(t).subrange(0, buf@.len() as int) =~= buf@);
                }
                Ok(t)
            },
            Err(()) => {
                assert(false);
                Err(ModelIOError::OutOfBounds)
            },
        }
    }

    /// Decodes the next record of this type from the stream, which moves on
    /// by exactly the record's size; where the stream ends first, nothing is
    /// consumed.
    pub fn read(&self, stream: &mut ByteStream) -> (r: Result<Record, ModelIOError>)
        requires
            old(stream)@.wf(),
        ensures
            final(stream)@.wf(),
            r is Ok <==> can_read(self.spec_layout(), old(stream)@),
            r matches Ok(rec) ==> final(stream)@ == after_read(self.spec_layout(), old(stream)@)
                && rec@ == decode_record(self.spec_layout(), old(stream)@.rest()),
            r matches Err(e) ==> final(stream)@ == old(stream)@ && e == ModelIOError::Decode(
                DecodeFailure::UnexpectedEnd,
            ),
    {
        let rest = &stream.bytes[stream.pos..stream.bytes.len()];
        match Record::decode(&self.layout, rest) {
            Ok((rec, n)) => {
                stream.pos = stream.pos + n;
                Ok(rec)
            },
            Err(e) => Err(ModelIOError::Decode(e)),
        }
    }

    /// Reads the next record and materializes it. Where the stream ends
    /// before the record, the arena is left untouched and nothing is consumed;
    /// otherwise the record is consumed whether or not it can be materialized.
    pub fn read_to_tensor(&self, ctx: &mut Context, stream: &mut ByteStream, shape: Vec<
        Option<usize>,
    >) -> (r: Result<Tensor, ModelIOError>)
        requires
            old(ctx).wf(),
            old(stream)@.wf(),
            spec_plan(self.params, layout_size(self.spec_layout()) as usize, shape@) matches Ok(p)
                ==> p.spec_nbytes() <= old(ctx)@.free(),
        ensures
            final(ctx).wf(),
            final(stream)@.wf(),
            r is Ok <==> self.reads_tensor(old(stream)@, shape@),
            !can_read(self.spec_layout(), old(stream)@) ==> r == Err::<Tensor, ModelIOError>(
                ModelIOError::Decode(DecodeFailure::UnexpectedEnd),
            ) && final(ctx)@ == old(ctx)@ && final(stream)@ == old(stream)@,
            can_read(self.spec_layout(), old(stream)@) ==> final(stream)@ == after_read(
                self.spec_layout(),
                old(stream)@,
            ) && materializes(
                old(ctx)@,
                final(ctx)@,
                spec_plan(self.params, layout_size(self.spec_layout()) as usize, shape@),
                old(stream)@.rest().subrange(0, layout_size(self.spec_layout()) as int),
                r,
            ),
    {
        match self.read(stream) {
            Ok(rec) => {
                proof {
                    lemma_record_bytes_of_decode(self.spec_layout(), old(stream)@.rest());
                }
                self.to_tensor(rec, ctx, shape)
            },
            Err(e) => Err(e),
        }
    }
}

/// The stream state after `k` reads from the start of `bytes` stands at `k`
/// records in.
proof fn lemma_after_reads(ls: Seq<FieldLayout>, bytes: Seq<u8>, k: nat)
    ensures
        after_reads(ls, StreamModel { bytes, pos: 0 }, k) == (StreamModel {
            bytes,
            pos: k * layout_size(ls),
        }),
    decreases k,
{
    if k > 0 {
        let j = (k - 1) as nat;
        lemma_after_reads(ls, bytes, j);
        let s = layout_size(ls);
        assert(j * s + s == k * s) by (nonlinear_arith)
            requires
                j + 1 == k,
        ;
        let prev = after_reads(ls, StreamModel { bytes, pos: 0 }, j);
        assert(after_reads(ls, StreamModel { bytes, pos: 0 }, k) == after_read(ls, prev));
        assert(prev.pos == j * s && prev.bytes == bytes);
        assert(after_read(ls, prev).pos == k * s);
    } else {
        assert(k * layout_size(ls) == 0) by (nonlinear_arith)
            requires
                k == 0,
        ;
    }
}

/// Over a stream of `n` records of one type laid end to end, reading and
/// materializing succeeds `n` times, each time taking exactly one record, and
/// fails the next time; this holds for a type of nonzero size and a shape
/// that the type's records resolve under.
pub proof fn law_sequential_reads(io: ModelIO, bytes: Seq<u8>, n: nat, shape: Seq<Option<usize>>)
    requires
        layout_size(io.spec_layout()) > 0,
        bytes.len() == n * layout_size(io.spec_layout()),
        spec_plan(io.params, layout_size(io.spec_layout()) as usize, shape) is Ok,
    ensures
        forall|k: nat|
            k < n ==> #[trigger] io.reads_tensor(
                after_reads(io.spec_layout(), StreamModel { bytes, pos: 0 }, k),
                shape,
            ) && after_reads(io.spec_layout(), StreamModel { bytes, pos: 0 }, k).pos == k
                * layout_size(io.spec_layout()),
        !io.reads_tensor(after_reads(io.spec_layout(), StreamModel { bytes, pos: 0 }, n), shape),
{
    let ls = io.spec_layout();
    let s = layout_size(ls) as int;
    assert forall|k: nat| k < n implies #[trigger] io.reads_tensor(
        after_reads(ls, StreamModel { bytes, pos: 0 }, k),
        shape,
    ) && after_reads(ls, StreamModel { bytes, pos: 0 }, k).pos == k * s by {
        lemma_after_reads(ls, bytes, k);
        assert(k * s + s <= n * s) by (nonlinear_arith)
            requires
                k + 1 <= n,
                s > 0,
        ;
    }
    lemma_after_reads(ls, bytes, n);
}

/// A record materialized at rank 1 with an unspecified extent becomes a
/// tensor exactly as long as its encoding, for every datatype that holds
/// data, where the encoding is a whole number of elements.
pub proof fn law_rank1_spans_record(datatype: DataType, len: usize)
    requires
        datatype.is_data(),
        len as nat % datatype.spec_size() == 0,
    ensures
        spec_plan(TensorParams { datatype, dim: Dimension::D1 }, len, seq![None::<usize>]) matches Ok(
            p,
        ) && p.spec_nbytes() == len,
{
    let sz = datatype.spec_size() as int;
    let whole = len as int / sz;
    assert(whole * sz == len) by {
        vstd::arithmetic::div_mod::lemma_fundamental_div_mod(len as int, sz);
    }
    assert(0 <= whole <= len) by {
        vstd::arithmetic::div_mod::lemma_div_pos_is_pos(len as int, sz);
        vstd::arithmetic::div_mod::lemma_div_is_ordered_by_denominator(len as int, 1, sz);
    }
    let p = TensorPlan {
        datatype,
        dim: Dimension::D1,
        ne0: whole as usize,
        ne1: 1,
        ne2: 1,
    };
    assert(p.spec_nbytes() == whole * sz) by (nonlinear_arith)
        requires
            p.ne0 == whole,
            p.ne1 == 1,
            p.ne2 == 1,
            p.spec_nbytes() == p.ne0 as nat * p.ne1 as nat * p.ne2 as nat * datatype.spec_size(),
            sz == datatype.spec_size(),
    ;
    assert(spec_plan(TensorParams { datatype, dim: Dimension::D1 }, len, seq![None::<usize>])
        == Ok::<TensorPlan, ModelIOError>(p));
}

} // verus!
