//! The arena: one fixed-capacity block of bytes from which tensors are carved
//! by bump allocation and freed all at once. Tensors are handles that carry a
//! slot and the generation they were issued under; a handle is live while the
//! arena still has its slot in that generation.
use crate::bytes::{
    byte_range, fits_signed, le_bytes, le_value, lemma_byte_range_small, lemma_bytes_of_le_value,
    lemma_byte_range_pos, lemma_le_bytes_len, lemma_le_value_of_bytes, lemma_signed_wrap, signed,
    wrap,
};
use crate::tensor_type::{DataType, Dimension};
use vstd::prelude::*;

verus! {

/// `s` with the bytes at `p .. p + x.len()` replaced by `x`.
pub open spec fn splice(s: Seq<u8>, p: int, x: Seq<u8>) -> Seq<u8> {
    Seq::new(s.len(), |i: int| if p <= i < p + x.len() { x[i - p] } else { s[i] })
}

/// Where one tensor lives in the arena and how it is shaped.
#[derive(Clone, Copy, Debug, PartialEq, Eq, Structural)]
pub struct TensorInfo {
    pub datatype: DataType,
    pub dim: Dimension,
    pub ne0: usize,
    pub ne1: usize,
    pub ne2: usize,
    pub nelements: usize,
    pub nbytes: usize,
    pub offset: usize,
}

impl TensorInfo {
    pub open spec fn end(self) -> int {
        self.offset + self.nbytes
    }

    pub open spec fn wf(self) -> bool {
        &&& self.datatype.is_data()
        &&& self.nelements == self.ne0 * self.ne1 * self.ne2
        &&& self.nbytes == self.nelements * self.datatype.spec_size()
    }
}

/// A handle on one tensor of an arena. Copies of a handle share the tensor.
#[derive(Clone, Copy, Debug)]
pub struct Tensor {
    slot: usize,
    generation: u64,
}

impl Tensor {
    pub closed spec fn spec_slot(self) -> nat {
        self.slot as nat
    }

    pub closed spec fn spec_generation(self) -> u64 {
        self.generation
    }
}

/// What an arena holds: its bytes, how many are handed out, the tensors of
/// the current generation in allocation order, and the generation.
pub struct ContextModel {
    pub mem: Seq<u8>,
    pub used: nat,
    pub slots: Seq<TensorInfo>,
    pub generation: u64,
}

impl ContextModel {
    pub open spec fn capacity(self) -> nat {
        self.mem.len()
    }

    pub open spec fn free(self) -> int {
        self.mem.len() - self.used
    }

    /// Tensors lie inside the used prefix, in allocation order, without overlap.
    pub open spec fn wf(self) -> bool {
        &&& self.mem.len() <= usize::MAX
        &&& self.used <= self.mem.len()
        &&& forall|i: int| 0 <= i < self.slots.len() ==> #[trigger] self.slots[i].wf()
        &&& forall|i: int| 0 <= i < self.slots.len() ==> #[trigger] self.slots[i].end() <= self.used
        &&& forall|i: int, j: int|
            0 <= i < j < self.slots.len() ==> #[trigger] self.slots[i].end()
                <= #[trigger] self.slots[j].offset
    }

    /// The handle names a tensor of this arena's current generation.
    pub open spec fn owns(self, t: Tensor) -> bool {
        t.spec_generation() == self.generation && t.spec_slot() < self.slots.len()
    }

    pub open spec fn info(self, t: Tensor) -> TensorInfo {
        self.slots[t.spec_slot() as int]
    }

    /// The bytes of a tensor.
    pub open spec fn data(self, t: Tensor) -> Seq<u8> {
        self.mem.subrange(self.info(t).offset as int, self.info(t).end())
    }

    /// The unsigned value of element `i` of a tensor.
    pub open spec fn element(self, t: Tensor, i: int) -> nat {
        let sz = self.info(t).datatype.spec_size() as int;
        le_value(self.data(t).subrange(i * sz, i * sz + sz))
    }

    /// The arena after `x` is copied to the start of tensor `t`.
    pub open spec fn with_bytes(self, t: Tensor, x: Seq<u8>) -> ContextModel {
        ContextModel { mem: splice(self.mem, self.info(t).offset as int, x), ..self }
    }

    /// The arena after element `i` of tensor `t` is set to the low bytes of `u`.
    pub open spec fn with_element(self, t: Tensor, i: int, u: nat) -> ContextModel {
        let sz = self.info(t).datatype.spec_size();
        self.with_bytes_at(self.info(t).offset + i * sz, le_bytes(u, sz))
    }

    pub open spec fn with_bytes_at(self, p: int, x: Seq<u8>) -> ContextModel {
        ContextModel { mem: splice(self.mem, p, x), ..self }
    }

    /// Everything but the bytes is as in `other`.
    pub open spec fn same_layout(self, other: ContextModel) -> bool {
        &&& self.mem.len() == other.mem.len()
        &&& self.used == other.used
        &&& self.slots == other.slots
        &&& self.generation == other.generation
    }

    /// Every tensor of the arena other than `t` holds the bytes it held in `other`.
    pub open spec fn others_unchanged(self, other: ContextModel, t: Tensor) -> bool {
        forall|u: Tensor|
            #![trigger self.data(u)]
            self.owns(u) && u.spec_slot() != t.spec_slot() ==> self.data(u) == other.data(u)
    }
}

/// The arena. Every tensor drawn from it is freed at once, by `reset` or by
/// dropping the arena.
pub struct Context {
    mem: Vec<u8>,
    used: usize,
    slots: Vec<TensorInfo>,
    generation: u64,
}

impl View for Context {
    type V = ContextModel;

    closed spec fn view(&self) -> ContextModel {
        ContextModel {
            mem: self.mem@,
            used: self.used as nat,
            slots: self.slots@,
            generation: self.generation,
        }
    }
}

/// Appending a tensor leaves the bytes of every earlier one as they were.
proof fn lemma_append_keeps_others(before: ContextModel, after: ContextModel, t: Tensor)
    requires
        after.mem == before.mem,
        after.slots.drop_last() == before.slots,
        t.spec_slot() == before.slots.len(),
    ensures
        after.others_unchanged(before, t),
{
    assert forall|u: Tensor|
        #![trigger after.data(u)]
        after.owns(u) && u.spec_slot() != t.spec_slot() implies after.data(u) == before.data(u) by {
        assert(after.slots[u.spec_slot() as int] == after.slots.drop_last()[u.spec_slot() as int]);
    }
}

/// `i * sz + sz <= n * sz` for an index `i < n`.
proof fn lemma_element_in_bounds(i: int, n: int, sz: int)
    requires
        0 <= i < n,
        0 <= sz,
    ensures
        0 <= i * sz,
        i * sz + sz <= n * sz,
{
    assert(0 <= i * sz) by (nonlinear_arith)
        requires
            0 <= i,
            0 <= sz,
    ;
    assert(i * sz + sz <= n * sz) by (nonlinear_arith)
        requires
            i + 1 <= n,
            0 <= sz,
    ;
}

impl Context {
    pub open spec fn wf(&self) -> bool {
        self@.wf()
    }

    fn with_memory(mem: Vec<u8>) -> (r: Context)
        ensures
            r.wf(),
            r@.mem == mem@,
            r@.used == 0,
            r@.slots.len() == 0,
            r@.generation == 0,
    {
        let _ = mem.len();
        Context { mem, used: 0, slots: Vec::new(), generation: 0 }
    }

    /// An arena over a block of `mem_size` zeroed bytes of its own.
    pub fn init(mem_size: usize) -> (r: Context)
        ensures
            r.wf(),
            r@.capacity() == mem_size,
            r@.mem == Seq::new(mem_size as nat, |i: int| 0u8),
            r@.used == 0,
            r@.slots.len() == 0,
            r@.generation == 0,
    {
        let mem = vec![0u8; mem_size];
        assert(mem@ =~= Seq::new(mem_size as nat, |i: int| 0u8));
        Self::with_memory(mem)
    }

    /// An arena over a caller-supplied buffer, which it keeps until
    /// `into_buffer` hands it back.
    pub fn init_managed(mem: Vec<u8>) -> (r: Context)
        ensures
            r.wf(),
            r@.mem == mem@,
            r@.used == 0,
            r@.slots.len() == 0,
            r@.generation == 0,
    {
        Self::with_memory(mem)
    }

    /// Ends the arena and returns its bytes.
    pub fn into_buffer(self) -> (r: Vec<u8>)
        ensures
            r@ == self@.mem,
    {
        self.mem
    }

    /// Bytes handed out to tensors so far.
    pub fn used_mem(&self) -> (r: usize)
        ensures
            r == self@.used,
    {
        self.used
    }

    pub fn capacity(&self) -> (r: usize)
        ensures
            r == self@.capacity(),
    {
        self.mem.len()
    }

    /// Bytes still free for tensors.
    pub fn free_mem(&self) -> (r: usize)
        requires
            self.wf(),
        ensures
            r == self@.free(),
    {
        self.mem.len() - self.used
    }

    /// Whether a handle is live in this arena.
    pub fn is_live(&self, t: &Tensor) -> (r: bool)
        ensures
            r == self@.owns(*t),
    {
        t.generation == self.generation && t.slot < self.slots.len()
    }

    /// Frees every tensor at once. Handles issued before become dead.
    pub fn reset(&mut self)
        requires
            old(self).wf(),
            old(self)@.generation < u64::MAX,
        ensures
            final(self).wf(),
            final(self)@.mem == old(self)@.mem,
            final(self)@.used == 0,
            final(self)@.slots.len() == 0,
            final(self)@.generation == old(self)@.generation + 1,
    {
        self.used = 0;
        self.slots = Vec::new();
        self.generation = self.generation + 1;
    }

    /// Bytes that a tensor of this datatype and shape takes, if that fits in a `usize`.
    pub fn tensor_nbytes(datatype: DataType, ne0: usize, ne1: usize, ne2: usize) -> (r: Option<
        usize,
    >)
        ensures
            r matches Some(n) ==> n == ne0 * ne1 * ne2 * datatype.spec_size(),
            r is None ==> ne0 * ne1 * ne2 * datatype.spec_size() > usize::MAX,
    {
        let size = datatype.size();
        if ne0 == 0 || ne1 == 0 || ne2 == 0 || size == 0 {
            assert(ne0 * ne1 * ne2 * size == 0) by (nonlinear_arith)
                requires
                    ne0 == 0 || ne1 == 0 || ne2 == 0 || size == 0,
            ;
            return Some(0);
        }
        let a = match ne0.checked_mul(ne1) {
            Some(a) => a,
            None => {
                assert(ne0 * ne1 * ne2 * size >= ne0 * ne1) by (nonlinear_arith)
                    requires
                        ne2 >= 1,
                        size >= 1,
                        ne0 >= 1,
                        ne1 >= 1,
                ;
                return None;
            },
        };
        let b = match a.checked_mul(ne2) {
            Some(b) => b,
            None => {
                assert(a * ne2 * size >= a * ne2) by (nonlinear_arith)
                    requires
                        size >= 1,
                        a >= 1,
                        ne2 >= 1,
                ;
                return None;
            },
        };
        b.checked_mul(size)
    }

    fn carve(
        &mut self,
        datatype: DataType,
        dim: Dimension,
        ne0: usize,
        ne1: usize,
        ne2: usize,
        nelements: usize,
        nbytes: usize,
    ) -> (t: Tensor)
        requires
            old(self).wf(),
            datatype.is_data(),
            nelements == ne0 * ne1 * ne2,
            nbytes == nelements * datatype.spec_size(),
            nbytes <= old(self)@.free(),
        ensures
            final(self).wf(),
            final(self)@.mem == old(self)@.mem,
            final(self)@.used == old(self)@.used + nbytes,
            final(self)@.generation == old(self)@.generation,
            final(self)@.slots == old(self)@.slots.push(
                (TensorInfo {
                    datatype,
                    dim,
                    ne0,
                    ne1,
                    ne2,
                    nelements,
                    nbytes,
                    offset: old(self)@.used as usize,
                }),
            ),
            t.spec_slot() == old(self)@.slots.len(),
            t.spec_generation() == old(self)@.generation,
    {
        let info = TensorInfo {
            datatype,
            dim,
            ne0,
            ne1,
            ne2,
            nelements,
            nbytes,
            offset: self.used,
        };
        let slot = self.slots.len();
        self.slots.push(info);
        self.used = self.used + nbytes;
        Tensor { slot, generation: self.generation }
    }

    /// Allocates a tensor of rank 1.
    pub fn new_tensor_1d(&mut self, dtype: DataType, ne0: usize) -> (t: Tensor)
        requires
            old(self).wf(),
            dtype.is_data(),
            ne0 * dtype.spec_size() <= old(self)@.free(),
        ensures
            final(self).wf(),
            final(self)@.mem == old(self)@.mem,
            final(self)@.generation == old(self)@.generation,
            final(self)@.used == old(self)@.used + ne0 * dtype.spec_size(),
            final(self)@.slots.drop_last() == old(self)@.slots,
            final(self)@.owns(t),
            t.spec_slot() == old(self)@.slots.len(),
            final(self)@.others_unchanged(old(self)@, t),
            final(self)@.info(t) == (TensorInfo {
                datatype: dtype,
                dim: Dimension::D1,
                ne0,
                ne1: 1,
                ne2: 1,
                nelements: ne0,
                nbytes: (ne0 * dtype.spec_size()) as usize,
                offset: old(self)@.used as usize,
            }),
    {
        let nbytes = ne0 * dtype.size();
        let t = self.carve(dtype, Dimension::D1, ne0, 1, 1, ne0, nbytes);
        assert(self@.slots.drop_last() =~= old(self)@.slots);
        proof {
            lemma_append_keeps_others(old(self)@, self@, t);
        }
        t
    }

    /// Allocates a tensor of rank 2.
    pub fn new_tensor_2d(&mut self, dtype: DataType, ne0: usize, ne1: usize) -> (t: Tensor)
        requires
            old(self).wf(),
            dtype.is_data(),
            ne0 * ne1 * dtype.spec_size() <= old(self)@.free(),
        ensures
            final(self).wf(),
            final(self)@.mem == old(self)@.mem,
            final(self)@.generation == old(self)@.generation,
            final(self)@.used == old(self)@.used + ne0 * ne1 * dtype.spec_size(),
            final(self)@.slots.drop_last() == old(self)@.slots,
            final(self)@.owns(t),
            t.spec_slot() == old(self)@.slots.len(),
            final(self)@.others_unchanged(old(self)@, t),
            final(self)@.info(t) == (TensorInfo {
                datatype: dtype,
                dim: Dimension::D2,
                ne0,
                ne1,
                ne2: 1,
                nelements: (ne0 * ne1) as usize,
                nbytes: (ne0 * ne1 * dtype.spec_size()) as usize,
                offset: old(self)@.used as usize,
            }),
    {
        let nbytes = match Self::tensor_nbytes(dtype, ne0, ne1, 1) {
            Some(n) => n,
            None => {
                assert(false);
                0
            },
        };
        let nelements = if dtype.size() == 1 {
            nbytes
        } else {
            proof {
                assert(ne0 * ne1 <= ne0 * ne1 * dtype.spec_size()) by (nonlinear_arith)
                    requires
                        dtype.spec_size() >= 1,
                        ne0 * ne1 >= 0,
                ;
            }
            ne0 * ne1
        };
        let t = self.carve(dtype, Dimension::D2, ne0, ne1, 1, nelements, nbytes);
        assert(self@.slots.drop_last() =~= old(self)@.slots);
        proof {
            lemma_append_keeps_others(old(self)@, self@, t);
        }
        t
    }

    /// Allocates a tensor of rank 3.
    pub fn new_tensor_3d(&mut self, dtype: DataType, ne0: usize, ne1: usize, ne2: usize) -> (t:
        Tensor)
        requires
            old(self).wf(),
            dtype.is_data(),
            ne0 * ne1 * ne2 * dtype.spec_size() <= old(self)@.free(),
        ensures
            final(self).wf(),
            final(self)@.mem == old(self)@.mem,
            final(self)@.generation == old(self)@.generation,
            final(self)@.used == old(self)@.used + ne0 * ne1 * ne2 * dtype.spec_size(),
            final(self)@.slots.drop_last() == old(self)@.slots,
            final(self)@.owns(t),
            t.spec_slot() == old(self)@.slots.len(),
            final(self)@.others_unchanged(old(self)@, t),
            final(self)@.info(t) == (TensorInfo {
                datatype: dtype,
                dim: Dimension::D3,
                ne0,
                ne1,
                ne2,
                nelements: (ne0 * ne1 * ne2) as usize,
                nbytes: (ne0 * ne1 * ne2 * dtype.spec_size()) as usize,
                offset: old(self)@.used as usize,
            }),
    {
        let nbytes = match Self::tensor_nbytes(dtype, ne0, ne1, ne2) {
            Some(n) => n,
            None => {
                assert(false);
                0
            },
        };
        let nelements = if ne0 == 0 || ne1 == 0 || ne2 == 0 {
            assert(ne0 * ne1 * ne2 == 0) by (nonlinear_arith)
                requires
                    ne0 == 0 || ne1 == 0 || ne2 == 0,
            ;
            0
        } else {
            proof {
                assert(ne0 * ne1 <= ne0 * ne1 * ne2 && ne0 * ne1 * ne2 <= ne0 * ne1 * ne2
                    * dtype.spec_size()) by (nonlinear_arith)
                    requires
                        dtype.spec_size() >= 1,
                        ne0 >= 1,
                        ne1 >= 1,
                        ne2 >= 1,
                ;
            }
            ne0 * ne1 * ne2
        };
        let t = self.carve(dtype, Dimension::D3, ne0, ne1, ne2, nelements, nbytes);
        assert(self@.slots.drop_last() =~= old(self)@.slots);
        proof {
            lemma_append_keeps_others(old(self)@, self@, t);
        }
        t
    }
}


/// Splicing bytes inside one tensor changes that tensor's bytes in place and
/// no other tensor's.
proof fn lemma_splice_region(old_m: ContextModel, new_m: ContextModel, t: Tensor, p: int, x: Seq<u8>)
    requires
        old_m.wf(),
        old_m.owns(t),
        old_m.info(t).offset <= p,
        p + x.len() <= old_m.info(t).end(),
        new_m.same_layout(old_m),
        new_m.mem == splice(old_m.mem, p, x),
    ensures
        new_m.wf(),
        new_m.owns(t),
        new_m.data(t) == splice(old_m.data(t), p - old_m.info(t).offset, x),
        new_m.others_unchanged(old_m, t),
{
    let off = old_m.info(t).offset as int;
    assert(new_m.data(t) =~= splice(old_m.data(t), p - off, x));
    assert forall|u: Tensor|
        #![trigger new_m.data(u)]
        new_m.owns(u) && u.spec_slot() != t.spec_slot() implies new_m.data(u) == old_m.data(u) by {
        let a = u.spec_slot() as int;
        let b = t.spec_slot() as int;
        if a < b {
            assert(old_m.slots[a].end() <= old_m.slots[b].offset);
        } else {
            assert(old_m.slots[b].end() <= old_m.slots[a].offset);
        }
        assert(new_m.data(u) =~= old_m.data(u));
    }
}

/// Storing the bytes `x` of one element changes that element to `le_value(x)`
/// and leaves the tensor's other elements, and every other tensor, as they were.
proof fn lemma_store_element(old_m: ContextModel, new_m: ContextModel, t: Tensor, idx: int, x: Seq<u8>)
    requires
        old_m.wf(),
        old_m.owns(t),
        0 <= idx < old_m.info(t).nelements,
        x.len() == old_m.info(t).datatype.spec_size(),
        new_m.same_layout(old_m),
        new_m.mem == splice(
            old_m.mem,
            old_m.info(t).offset + idx * old_m.info(t).datatype.spec_size(),
            x,
        ),
    ensures
        new_m.wf(),
        new_m.owns(t),
        new_m.element(t, idx) == le_value(x),
        forall|j: int|
            0 <= j < old_m.info(t).nelements && j != idx ==> #[trigger] new_m.element(t, j)
                == old_m.element(t, j),
        new_m.others_unchanged(old_m, t),
{
    let info = old_m.info(t);
    let sz = info.datatype.spec_size() as int;
    let n = info.nelements as int;
    assert(old_m.slots[t.spec_slot() as int].wf());
    assert(old_m.slots[t.spec_slot() as int].end() <= old_m.used);
    lemma_element_in_bounds(idx, n, sz);
    lemma_splice_region(old_m, new_m, t, info.offset + idx * sz, x);
    let d_old = old_m.data(t);
    let d_new = new_m.data(t);
    assert(d_new.subrange(idx * sz, idx * sz + sz) =~= x);
    assert forall|j: int| 0 <= j < n && j != idx implies #[trigger] new_m.element(t, j)
        == old_m.element(t, j) by {
        lemma_element_in_bounds(j, n, sz);
        if j < idx {
            assert(j * sz + sz <= idx * sz) by (nonlinear_arith)
                requires
                    j + 1 <= idx,
                    0 <= sz,
            ;
        } else {
            assert(idx * sz + sz <= j * sz) by (nonlinear_arith)
                requires
                    idx + 1 <= j,
                    0 <= sz,
            ;
        }
        assert(d_new.subrange(j * sz, j * sz + sz) =~= d_old.subrange(j * sz, j * sz + sz));
    }
}

/// The `n` little-endian bytes of `u`.
fn le_encode(u: u32, n: usize) -> (r: Vec<u8>)
    ensures
        r@ == le_bytes(u as nat, n as nat),
{
    let mut out: Vec<u8> = Vec::new();
    let mut cur: u32 = u;
    let mut k: usize = 0;
    while k < n
        invariant
            k <= n,
            out@ + le_bytes(cur as nat, (n - k) as nat) == le_bytes(u as nat, n as nat),
        decreases n - k,
    {
        let ghost before = out@;
        out.push((cur % 256) as u8);
        proof {
            let rest = le_bytes((cur / 256) as nat, (n - k - 1) as nat);
            assert(le_bytes(cur as nat, (n - k) as nat) == seq![(cur % 256) as u8] + rest);
            assert(out@ + rest =~= before + (seq![(cur % 256) as u8] + rest));
        }
        cur = cur / 256;
        k = k + 1;
    }
    assert(out@ + le_bytes(cur as nat, 0) =~= out@);
    out
}

impl Context {
    /// Copies `src` into the arena's bytes at `p`.
    fn write_region(&mut self, p: usize, src: &[u8])
        requires
            old(self).wf(),
            p + src@.len() <= old(self)@.mem.len(),
        ensures
            final(self)@.same_layout(old(self)@),
            final(self)@.mem == splice(old(self)@.mem, p as int, src@),
    {
        let n = src.len();
        let mut k: usize = 0;
        while k < n
            invariant
                n == src@.len(),
                k <= n,
                p + n <= self.mem@.len(),
                self.mem@.len() <= usize::MAX,
                self@.same_layout(old(self)@),
                forall|i: int|
                    0 <= i < self.mem@.len() ==> #[trigger] self.mem@[i] == if p <= i < p + k {
                        src@[i - p]
                    } else {
                        old(self).mem@[i]
                    },
            decreases n - k,
        {
            self.mem[p + k] = src[k];
            k = k + 1;
        }
        assert(self.mem@ =~= splice(old(self)@.mem, p as int, src@));
    }

    /// Stores the low bytes of `u` as element `idx` of `t`.
    fn store_element(&mut self, t: Tensor, idx: usize, u: u32)
        requires
            old(self).wf(),
            old(self)@.owns(t),
            idx < old(self)@.info(t).nelements,
        ensures
            final(self).wf(),
            final(self)@.same_layout(old(self)@),
            final(self)@ == old(self)@.with_element(t, idx as int, u as nat),
            final(self)@.element(t, idx as int) == (u as nat) % byte_range(
                old(self)@.info(t).datatype.spec_size(),
            ),
            forall|j: int|
                0 <= j < old(self)@.info(t).nelements && j != idx
                    ==> #[trigger] final(self)@.element(t, j) == old(self)@.element(t, j),
            final(self)@.others_unchanged(old(self)@, t),
    {
        let info = self.slots[t.slot];
        let sz = info.datatype.size();
        proof {
            lemma_element_in_bounds(idx as int, info.nelements as int, sz as int);
            assert(self@.slots[t.slot as int].wf());
            assert(self@.slots[t.slot as int].end() <= self@.used);
        }
        let bytes = le_encode(u, sz);
        proof {
            lemma_le_bytes_len(u as nat, sz as nat);
        }
        let p = info.offset + idx * sz;
        self.write_region(p, bytes.as_slice());
        proof {
            lemma_store_element(old(self)@, self@, t, idx as int, bytes@);
            lemma_le_value_of_bytes(u as nat, sz as nat);
            assert(self@ == old(self)@.with_element(t, idx as int, u as nat));
        }
    }

    /// The value of element `idx` of `t`.
    fn load_element(&self, t: Tensor, idx: usize) -> (r: u32)
        requires
            self.wf(),
            self@.owns(t),
            idx < self@.info(t).nelements,
        ensures
            r == self@.element(t, idx as int),
    {
        let info = self.slots[t.slot];
        let sz = info.datatype.size();
        proof {
            lemma_element_in_bounds(idx as int, info.nelements as int, sz as int);
            assert(self@.slots[t.slot as int].wf());
            assert(self@.slots[t.slot as int].end() <= self@.used);
            lemma_byte_range_small();
        }
        let p = info.offset + idx * sz;
        let ghost bytes = self@.data(t).subrange(idx * sz, idx * sz + sz);
        assert(bytes =~= self.mem@.subrange(p as int, p + sz));
        let mut v: u32 = 0;
        let mut k: usize = sz;
        while k > 0
            invariant
                k <= sz <= 4,
                p + sz <= self.mem@.len(),
                self.mem@.len() <= usize::MAX,
                bytes == self.mem@.subrange(p as int, p + sz),
                v == le_value(bytes.subrange(k as int, sz as int)),
            decreases k,
        {
            proof {
                lemma_bytes_of_le_value(bytes.subrange(k as int, sz as int));
                lemma_byte_range_small();
                reveal_with_fuel(byte_range, 5);
            }
            k = k - 1;
            let b = self.mem[p + k];
            proof {
                let s = bytes.subrange(k as int, sz as int);
                assert(s.drop_first() =~= bytes.subrange(k + 1, sz as int));
                assert(s[0] == b);
            }
            v = v * 256 + b as u32;
        }
        assert(bytes.subrange(0, sz as int) =~= bytes);
        v
    }
}

impl Tensor {
    /// A second handle on the same tensor.
    pub fn share(&self) -> (r: Tensor)
        ensures
            r == *self,
    {
        Tensor { slot: self.slot, generation: self.generation }
    }

    /// Bytes that the tensor spans.
    pub fn nbytes(&self, ctx: &Context) -> (r: usize)
        requires
            ctx@.owns(*self),
        ensures
            r == ctx@.info(*self).nbytes,
    {
        ctx.slots[self.slot].nbytes
    }

    pub fn nelements(&self, ctx: &Context) -> (r: usize)
        requires
            ctx@.owns(*self),
        ensures
            r == ctx@.info(*self).nelements,
    {
        ctx.slots[self.slot].nelements
    }

    pub fn element_size(&self, ctx: &Context) -> (r: usize)
        requires
            ctx@.owns(*self),
        ensures
            r == ctx@.info(*self).datatype.spec_size(),
    {
        ctx.slots[self.slot].datatype.size()
    }

    pub fn get_type(&self, ctx: &Context) -> (r: DataType)
        requires
            ctx@.owns(*self),
        ensures
            r == ctx@.info(*self).datatype,
    {
        ctx.slots[self.slot].datatype
    }

    pub fn get_dim(&self, ctx: &Context) -> (r: Dimension)
        requires
            ctx@.owns(*self),
        ensures
            r == ctx@.info(*self).dim,
    {
        ctx.slots[self.slot].dim
    }

    /// Extent of each of the four axes; unused axes have extent 1.
    pub fn get_ne(&self, ctx: &Context) -> (r: [usize; 4])
        requires
            ctx@.owns(*self),
        ensures
            r@ == seq![ctx@.info(*self).ne0, ctx@.info(*self).ne1, ctx@.info(*self).ne2, 1usize],
    {
        let info = ctx.slots[self.slot];
        let r = [info.ne0, info.ne1, info.ne2, 1];
        assert(r@ =~= seq![info.ne0, info.ne1, info.ne2, 1usize]);
        r
    }

    /// Byte stride of each of the four axes.
    pub fn get_nb(&self, ctx: &Context) -> (r: [usize; 4])
        requires
            ctx.wf(),
            ctx@.owns(*self),
            ctx@.info(*self).datatype.spec_size() * ctx@.info(*self).ne0 <= usize::MAX,
            ctx@.info(*self).datatype.spec_size() * ctx@.info(*self).ne0 * ctx@.info(*self).ne1
                <= usize::MAX,
        ensures
            ({
                let i = ctx@.info(*self);
                let sz = i.datatype.spec_size();
                r@ == seq![
                    sz as usize,
                    (sz * i.ne0) as usize,
                    (sz * i.ne0 * i.ne1) as usize,
                    i.nbytes,
                ]
            }),
    {
        let info = ctx.slots[self.slot];
        let sz = info.datatype.size();
        proof {
            assert(ctx@.slots[self.slot as int].wf());
            assert(info.nbytes == sz * info.ne0 * info.ne1 * info.ne2) by (nonlinear_arith)
                requires
                    info.nbytes == info.nelements * sz,
                    info.nelements == info.ne0 * info.ne1 * info.ne2,
            ;
        }
        let r = [sz, sz * info.ne0, sz * info.ne0 * info.ne1, info.nbytes];
        assert(r@ =~= seq![
            sz,
            (sz * info.ne0) as usize,
            (sz * info.ne0 * info.ne1) as usize,
            info.nbytes,
        ]);
        r
    }
}


/// Only the low `8 * n` bits of a value reach its `n` bytes.
proof fn lemma_le_bytes_mod(u: nat, n: nat)
    ensures
        le_bytes(u, n) == le_bytes(u % byte_range(n), n),
{
    lemma_le_bytes_len(u, n);
    lemma_bytes_of_le_value(le_bytes(u, n));
    lemma_le_value_of_bytes(u, n);
}

/// `v` modulo `2^32`, as the bits of a `u32`.
fn bits_of_i32(v: i32) -> (r: u32)
    ensures
        r as int == v as int % 0x1_0000_0000,
        forall|n: nat| 1 <= n <= 4 && n != 3 ==> #[trigger] wrap(v as int, n) == (r as nat) % byte_range(n),
{
    let r: u32 = if v < 0 {
        (v as i64 + 0x1_0000_0000i64) as u32
    } else {
        v as u32
    };
    proof {
        lemma_byte_range_small();
        let x = v as int;
        if x < 0 {
            vstd::arithmetic::div_mod::lemma_mod_add_multiples_vanish(x, 0x1_0000_0000);
            vstd::arithmetic::div_mod::lemma_small_mod((x + 0x1_0000_0000) as nat, 0x1_0000_0000);
        } else {
            vstd::arithmetic::div_mod::lemma_small_mod(x as nat, 0x1_0000_0000);
        }
        assert forall|n: nat| 1 <= n <= 4 && n != 3 implies #[trigger] wrap(v as int, n) == (r as nat)
            % byte_range(n) by {
            if n == 1 {
                vstd::arithmetic::div_mod::lemma_mod_mod(x, 0x100, 0x100_0000);
            } else if n == 2 {
                vstd::arithmetic::div_mod::lemma_mod_mod(x, 0x1_0000, 0x1_0000);
            } else {
                vstd::arithmetic::div_mod::lemma_mod_mod(x, 0x1_0000_0000, 1);
            }
        }
    }
    r
}

/// The element bits `e` of an `sz`-byte element read as two's complement.
fn signed_of_bits(e: u32, sz: usize) -> (r: i32)
    requires
        sz == 1 || sz == 2 || sz == 4,
        e < byte_range(sz as nat),
    ensures
        r == signed(e as nat, sz as nat),
{
    proof {
        lemma_byte_range_small();
    }
    let range: u64 = if sz == 1 {
        0x100
    } else if sz == 2 {
        0x1_0000
    } else {
        0x1_0000_0000
    };
    if 2 * (e as u64) >= range {
        (e as i64 - range as i64) as i32
    } else {
        e as i32
    }
}

impl Context {
    /// Allocates a one-element `F32` scalar whose element holds the bits `bits`.
    pub fn new_f32_from_bits(&mut self, bits: u32) -> (t: Tensor)
        requires
            old(self).wf(),
            4 <= old(self)@.free(),
        ensures
            final(self).wf(),
            final(self)@.capacity() == old(self)@.capacity(),
            final(self)@.generation == old(self)@.generation,
            final(self)@.used == old(self)@.used + 4,
            final(self)@.slots.drop_last() == old(self)@.slots,
            final(self)@.owns(t),
            t.spec_slot() == old(self)@.slots.len(),
            final(self)@.info(t) == (TensorInfo {
                datatype: DataType::F32,
                dim: Dimension::Scalar,
                ne0: 1,
                ne1: 1,
                ne2: 1,
                nelements: 1,
                nbytes: 4,
                offset: old(self)@.used as usize,
            }),
            final(self)@.element(t, 0) == bits,
            final(self)@.others_unchanged(old(self)@, t),
    {
        let t = self.carve(DataType::F32, Dimension::Scalar, 1, 1, 1, 1, 4);
        let ghost mid = self@;
        proof {
            assert(self@.slots.drop_last() =~= old(self)@.slots);
            lemma_byte_range_small();
            vstd::arithmetic::div_mod::lemma_small_mod(bits as nat, 0x1_0000_0000);
            assert forall|u: Tensor|
                #![trigger mid.data(u)]
                mid.owns(u) && u.spec_slot() != t.spec_slot() implies mid.data(u) == old(self)@.data(u) by {
                assert(mid.slots[u.spec_slot() as int] == old(self)@.slots[u.spec_slot() as int]);
            }
        }
        self.store_element(t, 0, bits);
        t
    }
}

impl Tensor {
    /// Copies `src` to the start of the tensor and leaves the rest of it as it
    /// was; a source longer than the tensor is refused and nothing changes.
    pub fn write_bytes(&self, ctx: &mut Context, src: &[u8]) -> (r: Result<(), ()>)
        requires
            old(ctx).wf(),
            old(ctx)@.owns(*self),
        ensures
            final(ctx).wf(),
            r is Ok <==> src@.len() <= old(ctx)@.info(*self).nbytes,
            r is Ok ==> final(ctx)@ == old(ctx)@.with_bytes(*self, src@),
            r is Ok ==> final(ctx)@.data(*self) == src@ + old(ctx)@.data(*self).subrange(
                src@.len() as int,
                old(ctx)@.info(*self).nbytes as int,
            ),
            r is Ok ==> final(ctx)@.others_unchanged(old(ctx)@, *self),
            r is Err ==> final(ctx)@ == old(ctx)@,
    {
        let info = ctx.slots[self.slot];
        if info.nbytes < src.len() {
            return Err(());
        }
        proof {
            assert(ctx@.slots[self.slot as int].end() <= ctx@.used);
        }
        ctx.write_region(info.offset, src);
        proof {
            lemma_splice_region(old(ctx)@, ctx@, *self, info.offset as int, src@);
            assert(ctx@.data(*self) =~= src@ + old(ctx)@.data(*self).subrange(
                src@.len() as int,
                info.nbytes as int,
            ));
        }
        Ok(())
    }

    /// The bytes of `count` elements of `elem_size` bytes each, starting at
    /// element `offset`; refused where they would run past the tensor's end.
    pub fn read_elements(&self, ctx: &Context, elem_size: usize, offset: usize, count: usize) -> (r:
        Result<Vec<u8>, ()>)
        requires
            ctx.wf(),
            ctx@.owns(*self),
        ensures
            r is Ok <==> (offset + count) * elem_size <= ctx@.info(*self).nbytes,
            r matches Ok(v) ==> v@ == ctx@.data(*self).subrange(
                offset * elem_size,
                (offset + count) * elem_size,
            ),
    {
        let info = ctx.slots[self.slot];
        proof {
            assert(ctx@.slots[self.slot as int].end() <= ctx@.used);
            assert((offset + count) * elem_size == offset * elem_size + count * elem_size)
                by (nonlinear_arith);
        }
        let start = match offset.checked_mul(elem_size) {
            Some(x) => x,
            None => {
                assert(offset * elem_size <= (offset + count) * elem_size) by (nonlinear_arith)
                    requires
                        count * elem_size >= 0,
                        (offset + count) * elem_size == offset * elem_size + count * elem_size,
                ;
                return Err(());
            },
        };
        let len = match count.checked_mul(elem_size) {
            Some(x) => x,
            None => {
                return Err(());
            },
        };
        if start > info.nbytes || len > info.nbytes - start {
            return Err(());
        }
        let mut out: Vec<u8> = Vec::new();
        let mut k: usize = 0;
        while k < len
            invariant
                k <= len,
                info == ctx@.slots[self.slot as int],
                start + len <= info.nbytes,
                info.offset + info.nbytes <= ctx.mem@.len(),
                ctx.wf(),
                out@ == ctx.mem@.subrange(info.offset + start, info.offset + start + k),
            decreases len - k,
        {
            out.push(ctx.mem[info.offset + start + k]);
            k = k + 1;
            assert(out@ =~= ctx.mem@.subrange(info.offset + start, info.offset + start + k));
        }
        assert(out@ =~= ctx@.data(*self).subrange(start as int, start + len));
        Ok(out)
    }

    /// All bytes of the tensor.
    pub fn read_data(&self, ctx: &Context) -> (r: Vec<u8>)
        requires
            ctx.wf(),
            ctx@.owns(*self),
        ensures
            r@ == ctx@.data(*self),
    {
        let n = self.nbytes(ctx);
        proof {
            assert(ctx@.slots[self.slot as int].end() <= ctx@.used);
        }
        match self.read_elements(ctx, 1, 0, n) {
            Ok(v) => {
                assert(ctx@.data(*self).subrange(0, n as int) =~= ctx@.data(*self));
                v
            },
            Err(_) => {
                assert(false);
                Vec::new()
            },
        }
    }

    /// Sets element `idx` to the low bytes of `bits`: the raw pattern, for
    /// any datatype. An index past the last element is refused and nothing changes.
    pub fn set_bits_1d(&self, ctx: &mut Context, idx: usize, bits: u32) -> (r: Result<(), ()>)
        requires
            old(ctx).wf(),
            old(ctx)@.owns(*self),
        ensures
            final(ctx).wf(),
            r is Ok <==> idx < old(ctx)@.info(*self).nelements,
            r is Ok ==> final(ctx)@ == old(ctx)@.with_element(*self, idx as int, bits as nat),
            r is Ok ==> final(ctx)@.element(*self, idx as int) == (bits as nat) % byte_range(
                old(ctx)@.info(*self).datatype.spec_size(),
            ),
            r is Ok ==> forall|j: int|
                0 <= j < old(ctx)@.info(*self).nelements && j != idx
                    ==> #[trigger] final(ctx)@.element(*self, j) == old(ctx)@.element(*self, j),
            r is Ok ==> final(ctx)@.others_unchanged(old(ctx)@, *self),
            r is Err ==> final(ctx)@ == old(ctx)@,
    {
        if idx >= ctx.slots[self.slot].nelements {
            return Err(());
        }
        ctx.store_element(*self, idx, bits);
        Ok(())
    }

    /// The raw pattern of element `idx`; an index past the last element is refused.
    pub fn get_bits_1d(&self, ctx: &Context, idx: usize) -> (r: Result<u32, ()>)
        requires
            ctx.wf(),
            ctx@.owns(*self),
        ensures
            r is Ok <==> idx < ctx@.info(*self).nelements,
            r matches Ok(x) ==> x == ctx@.element(*self, idx as int),
    {
        if idx >= ctx.slots[self.slot].nelements {
            return Err(());
        }
        Ok(ctx.load_element(*self, idx))
    }

    /// Sets element `idx` of an integer tensor to `value`, narrowed to the
    /// element width by keeping its low bytes. An index past the last element
    /// is refused and nothing changes.
    pub fn set_i32_1d(&self, ctx: &mut Context, idx: usize, value: i32) -> (r: Result<(), ()>)
        requires
            old(ctx).wf(),
            old(ctx)@.owns(*self),
            old(ctx)@.info(*self).datatype.is_integer(),
        ensures
            final(ctx).wf(),
            r is Ok <==> idx < old(ctx)@.info(*self).nelements,
            r is Ok ==> final(ctx)@ == old(ctx)@.with_element(
                *self,
                idx as int,
                wrap(value as int, old(ctx)@.info(*self).datatype.spec_size()),
            ),
            r is Ok ==> final(ctx)@.element(*self, idx as int) == wrap(
                value as int,
                old(ctx)@.info(*self).datatype.spec_size(),
            ),
            r is Ok ==> forall|j: int|
                0 <= j < old(ctx)@.info(*self).nelements && j != idx
                    ==> #[trigger] final(ctx)@.element(*self, j) == old(ctx)@.element(*self, j),
            r is Ok ==> final(ctx)@.others_unchanged(old(ctx)@, *self),
            r is Err ==> final(ctx)@ == old(ctx)@,
    {
        let bits = bits_of_i32(value);
        let ghost sz = old(ctx)@.info(*self).datatype.spec_size();
        let r = self.set_bits_1d(ctx, idx, bits);
        proof {
            assert(wrap(value as int, sz) == (bits as nat) % byte_range(sz));
            lemma_le_bytes_mod(bits as nat, sz);
            lemma_le_bytes_mod(wrap(value as int, sz), sz);
            lemma_byte_range_pos(sz);
            vstd::arithmetic::div_mod::lemma_mod_twice(bits as int, byte_range(sz) as int);
        }
        r
    }

    /// Element `idx` of an integer tensor, sign-extended; an index past the
    /// last element is refused.
    pub fn get_i32_1d(&self, ctx: &Context, idx: usize) -> (r: Result<i32, ()>)
        requires
            ctx.wf(),
            ctx@.owns(*self),
            ctx@.info(*self).datatype.is_integer(),
        ensures
            r is Ok <==> idx < ctx@.info(*self).nelements,
            r matches Ok(x) ==> x == signed(
                ctx@.element(*self, idx as int),
                ctx@.info(*self).datatype.spec_size(),
            ),
    {
        let e = self.get_bits_1d(ctx, idx)?;
        let sz = ctx.slots[self.slot].datatype.size();
        proof {
            lemma_element_value_bound(ctx@, *self, idx as int);
        }
        Ok(signed_of_bits(e, sz))
    }

    /// Sets every element to the low bytes of `bits`.
    pub fn set_bits(&self, ctx: &mut Context, bits: u32)
        requires
            old(ctx).wf(),
            old(ctx)@.owns(*self),
        ensures
            final(ctx).wf(),
            final(ctx)@.same_layout(old(ctx)@),
            forall|j: int|
                0 <= j < old(ctx)@.info(*self).nelements ==> #[trigger] final(ctx)@.element(*self, j)
                    == (bits as nat) % byte_range(old(ctx)@.info(*self).datatype.spec_size()),
            final(ctx)@.others_unchanged(old(ctx)@, *self),
    {
        let n = ctx.slots[self.slot].nelements;
        let ghost w = (bits as nat) % byte_range(old(ctx)@.info(*self).datatype.spec_size());
        let mut k: usize = 0;
        while k < n
            invariant
                k <= n,
                n == old(ctx)@.info(*self).nelements,
                w == (bits as nat) % byte_range(old(ctx)@.info(*self).datatype.spec_size()),
                ctx.wf(),
                ctx@.owns(*self),
                ctx@.same_layout(old(ctx)@),
                forall|j: int| 0 <= j < k ==> #[trigger] ctx@.element(*self, j) == w,
                forall|j: int| k <= j < n ==> #[trigger] ctx@.element(*self, j) == old(ctx)@.element(*self, j),
                ctx@.others_unchanged(old(ctx)@, *self),
            decreases n - k,
        {
            let ghost before = ctx@;
            ctx.store_element(*self, k, bits);
            assert(ctx@.element(*self, k as int) == w);
            assert forall|j: int| 0 <= j < k + 1 implies #[trigger] ctx@.element(*self, j) == w by {
                if j < k {
                    assert(before.element(*self, j) == w);
                }
            }
            assert(ctx@.others_unchanged(old(ctx)@, *self)) by {
                assert forall|u: Tensor|
                    #![trigger ctx@.data(u)]
                    ctx@.owns(u) && u.spec_slot() != self.spec_slot() implies ctx@.data(u) == old(ctx)@.data(u) by {
                    assert(before.data(u) == old(ctx)@.data(u));
                }
            }
            k = k + 1;
        }
    }

    /// Sets every element of an integer tensor to `value`, narrowed to the
    /// element width by keeping its low bytes.
    pub fn set_i32(&self, ctx: &mut Context, value: i32)
        requires
            old(ctx).wf(),
            old(ctx)@.owns(*self),
            old(ctx)@.info(*self).datatype.is_integer(),
        ensures
            final(ctx).wf(),
            final(ctx)@.same_layout(old(ctx)@),
            forall|j: int|
                0 <= j < old(ctx)@.info(*self).nelements ==> #[trigger] final(ctx)@.element(*self, j)
                    == wrap(value as int, old(ctx)@.info(*self).datatype.spec_size()),
            final(ctx)@.others_unchanged(old(ctx)@, *self),
    {
        let bits = bits_of_i32(value);
        self.set_bits(ctx, bits);
    }
}

/// An element's value fits its width.
proof fn lemma_element_value_bound(m: ContextModel, t: Tensor, i: int)
    requires
        m.wf(),
        m.owns(t),
        0 <= i < m.info(t).nelements,
    ensures
        m.element(t, i) < byte_range(m.info(t).datatype.spec_size()),
{
    let info = m.info(t);
    let sz = info.datatype.spec_size() as int;
    assert(m.slots[t.spec_slot() as int].wf());
    assert(m.slots[t.spec_slot() as int].end() <= m.used);
    lemma_element_in_bounds(i, info.nelements as int, sz);
    lemma_bytes_of_le_value(m.data(t).subrange(i * sz, i * sz + sz));
}

/// Setting an element of an integer tensor to a value its width can hold and
/// reading it back gives that value; every other element, and every other
/// tensor, keeps what it held.
pub proof fn law_set_then_get_i32(m: ContextModel, t: Tensor, idx: int, v: i32)
    requires
        m.wf(),
        m.owns(t),
        m.info(t).datatype.is_integer(),
        0 <= idx < m.info(t).nelements,
        fits_signed(v as int, m.info(t).datatype.spec_size()),
    ensures
        ({
            let sz = m.info(t).datatype.spec_size();
            let after = m.with_element(t, idx, wrap(v as int, sz));
            &&& after.wf()
            &&& after.owns(t)
            &&& signed(after.element(t, idx), sz) == v
            &&& forall|j: int|
                0 <= j < m.info(t).nelements && j != idx ==> #[trigger] after.element(t, j)
                    == m.element(t, j)
            &&& after.others_unchanged(m, t)
        }),
{
    let sz = m.info(t).datatype.spec_size();
    let w = wrap(v as int, sz);
    lemma_le_bytes_len(w, sz);
    lemma_store_element(m, m.with_element(t, idx, w), t, idx, le_bytes(w, sz));
    lemma_le_value_of_bytes(w, sz);
    lemma_byte_range_pos(sz);
    vstd::arithmetic::div_mod::lemma_mod_twice(v as int, byte_range(sz) as int);
    lemma_signed_wrap(v as int, sz);
}

} // verus!
