//! Vertex-array objects: recorded attribute layouts.
//!
//! A [`VertexArray`] owns one vertex-array handle and records how bytes in a
//! bound buffer map to shader input attributes: one binding per attribute,
//! each a `(location, buffer, components, element type, stride, offset)`
//! tuple.  A binding whose field footprint does not fit inside one record
//! is rejected before any driver-level effect.  [`VertexArray::fetch_attribute`]
//! spells out what a draw call sourcing a binding reads, which ties the
//! recorded layout to the uploaded bytes.

use vstd::bytes::{spec_u32_from_le_bytes, spec_u32_to_le_bytes, u32_from_le_bytes};
use vstd::prelude::*;
use vstd::slice::slice_subrange;

use crate::buffer::{
    comps_bytes, lemma_comps_bytes_index, lemma_records_bytes_index_uniform,
    lemma_records_bytes_len_uniform, records_bytes, Buffer,
};
use crate::context::{allocates, releases, same_live, Context};
use crate::layout::{
    comps_sum, fields_wf, lemma_comps_sum_nonneg, lemma_comps_sum_take_le,
    lemma_comps_sum_take_succ, spec_offset, VertexField, COMPONENT_BYTES,
};

verus! {

/// The element type of one attribute's components; each is 4 bytes wide.
#[derive(Clone, Copy, PartialEq, Eq, Structural, Debug)]
pub enum ElemType {
    Float,
    UnsignedInt,
}

/// One recorded attribute binding.
#[derive(Clone, Copy, PartialEq, Eq, Structural, Debug)]
pub struct AttributeBinding {
    pub location: usize,
    pub buffer: u32,
    pub components: u32,
    pub elem: ElemType,
    pub stride: u32,
    pub offset: u32,
}

/// Why a requested binding is rejected.
#[derive(Clone, Copy, PartialEq, Eq, Structural, Debug)]
pub enum BindingError {
    NoComponents,
    FootprintExceedsStride,
    StrideMismatch,
}

/// A valid attribute shape: at least one component, and the field's byte
/// footprint lies inside one record, so offsets lie in `[0, stride)`.
pub open spec fn binding_valid(components: u32, stride: u32, offset: u32) -> bool {
    &&& components >= 1
    &&& offset + components * (COMPONENT_BYTES as int) <= stride
}

/// All recorded bindings stride through the same interleaved record type.
pub open spec fn strides_agree(bs: Seq<AttributeBinding>, stride: u32) -> bool {
    forall|i: int| 0 <= i < bs.len() ==> (#[trigger] bs[i]).stride == stride
}

/// What a draw call reads for one vertex through one binding: the
/// attribute's components, each decoded little-endian from the buffer
/// bytes at `vertex * stride + offset`.
pub open spec fn attr_read(data: Seq<u8>, b: AttributeBinding, vertex: int) -> Seq<u32> {
    Seq::new(
        b.components as nat,
        |c: int|
            spec_u32_from_le_bytes(
                data.subrange(
                    vertex * b.stride + b.offset + 4 * c,
                    vertex * b.stride + b.offset + 4 * c + 4,
                ),
            ),
    )
}

/// One vertex-array object: a handle and its recorded attribute bindings.
#[derive(Debug)]
pub struct VertexArray {
    handle: u32,
    bindings: Vec<AttributeBinding>,
}

impl VertexArray {
    /// The vertex-array handle this wrapper owns.
    pub closed spec fn spec_handle(&self) -> u32 {
        self.handle
    }

    /// The recorded bindings, in the order they were made.
    pub closed spec fn spec_bindings(&self) -> Seq<AttributeBinding> {
        self.bindings@
    }

    /// A vertex array is usable exactly while its handle is live.
    pub open spec fn wf(&self, ctx: Context) -> bool {
        ctx.is_live(self.spec_handle())
    }

    /// Creates a vertex array with no bindings yet.
    pub fn new(ctx: &mut Context) -> (r: VertexArray)
        requires
            old(ctx).wf(),
            old(ctx).can_alloc(),
        ensures
            final(ctx).wf(),
            allocates(*old(ctx), *final(ctx), r.spec_handle()),
            r.wf(*final(ctx)),
            r.spec_bindings() == Seq::<AttributeBinding>::empty(),
    {
        let handle = ctx.allocate();
        VertexArray { handle, bindings: Vec::new() }
    }

    /// Binds this vertex array as the context's current one.
    pub fn bind(&self, ctx: &mut Context)
        requires
            old(ctx).wf(),
            self.wf(*old(ctx)),
        ensures
            final(ctx).wf(),
            same_live(*old(ctx), *final(ctx)),
            final(ctx).spec_next_handle() == old(ctx).spec_next_handle(),
            final(ctx).spec_bound_vertex_array() == self.spec_handle(),
            final(ctx).spec_active_program() == old(ctx).spec_active_program(),
            final(ctx).spec_bound_array_buffer() == old(ctx).spec_bound_array_buffer(),
            final(ctx).spec_bound_element_buffer() == old(ctx).spec_bound_element_buffer(),
    {
        ctx.bind_vertex_array(self.handle);
    }

    /// The vertex array's handle, as the driver names it.
    pub fn get_id(&self) -> (r: u32)
        ensures
            r == self.spec_handle(),
    {
        self.handle
    }

    /// Registers one interleaved-attribute binding: binds the vertex-data
    /// buffer, and records how the attribute strides through it.
    ///
    /// Rejected — leaving the layout and the context exactly as they were —
    /// if and only if the attribute has no components, its byte footprint
    /// `offset + components * 4` exceeds `stride`, or `stride` disagrees
    /// with a binding already recorded on this layout.
    pub fn set_attribute(
        &mut self,
        ctx: &mut Context,
        buffer: &Buffer,
        location: usize,
        components: u32,
        stride: u32,
        offset: u32,
        elem: ElemType,
    ) -> (r: Result<(), BindingError>)
        requires
            old(ctx).wf(),
            old(self).wf(*old(ctx)),
            buffer.wf(*old(ctx)),
            buffer.spec_target() == crate::buffer::BufferTarget::Array,
        ensures
            final(ctx).wf(),
            final(self).spec_handle() == old(self).spec_handle(),
            final(self).wf(*final(ctx)),
            r is Ok <==> binding_valid(components, stride, offset) && strides_agree(
                old(self).spec_bindings(),
                stride,
            ),
            r matches Err(e) ==> {
                &&& *final(self) == *old(self)
                &&& *final(ctx) == *old(ctx)
                &&& e == (if components < 1 {
                    BindingError::NoComponents
                } else if offset + components * (COMPONENT_BYTES as int) > stride {
                    BindingError::FootprintExceedsStride
                } else {
                    BindingError::StrideMismatch
                })
            },
            r is Ok ==> {
                &&& final(self).spec_bindings() == old(self).spec_bindings().push(
                    AttributeBinding {
                        location,
                        buffer: buffer.spec_handle(),
                        components,
                        elem,
                        stride,
                        offset,
                    },
                )
                &&& same_live(*old(ctx), *final(ctx))
                &&& final(ctx).spec_next_handle() == old(ctx).spec_next_handle()
                &&& final(ctx).spec_bound_array_buffer() == buffer.spec_handle()
                &&& final(ctx).spec_active_program() == old(ctx).spec_active_program()
                &&& final(ctx).spec_bound_vertex_array() == old(ctx).spec_bound_vertex_array()
                &&& final(ctx).spec_bound_element_buffer() == old(
                    ctx,
                ).spec_bound_element_buffer()
            },
    {
        if components < 1 {
            return Err(BindingError::NoComponents);
        }
        let footprint: u64 = (offset as u64) + (components as u64) * (COMPONENT_BYTES as u64);
        if footprint > stride as u64 {
            return Err(BindingError::FootprintExceedsStride);
        }
        let n = self.bindings.len();
        let mut i: usize = 0;
        while i < n
            invariant
                n == self.bindings@.len(),
                i <= n,
                *self == *old(self),
                *ctx == *old(ctx),
                old(ctx).wf(),
                old(self).wf(*old(ctx)),
                binding_valid(components, stride, offset),
                forall|k: int| 0 <= k < i ==> (#[trigger] self.bindings@[k]).stride == stride,
            decreases n - i,
        {
            if self.bindings[i].stride != stride {
                return Err(BindingError::StrideMismatch);
            }
            i += 1;
        }
        self.bindings.push(
            AttributeBinding {
                location,
                buffer: buffer.id(),
                components,
                elem,
                stride,
                offset,
            },
        );
        buffer.bind(ctx);
        Ok(())
    }

    /// The number of bindings recorded so far.
    pub fn binding_count(&self) -> (r: usize)
        ensures
            r == self.spec_bindings().len(),
    {
        self.bindings.len()
    }

    /// The binding recorded at `slot`.
    pub fn binding_at(&self, slot: usize) -> (r: AttributeBinding)
        requires
            slot < self.spec_bindings().len(),
        ensures
            r == self.spec_bindings()[slot as int],
    {
        self.bindings[slot]
    }

    /// What a draw call sourcing binding `slot` from `buffer` reads for
    /// vertex `vertex`: the decoded components of that attribute.
    pub fn fetch_attribute(&self, slot: usize, buffer: &Buffer, vertex: usize) -> (r: Vec<u32>)
        requires
            slot < self.spec_bindings().len(),
            self.spec_bindings()[slot as int].buffer == buffer.spec_handle(),
            binding_valid(
                self.spec_bindings()[slot as int].components,
                self.spec_bindings()[slot as int].stride,
                self.spec_bindings()[slot as int].offset,
            ),
            (vertex + 1) * self.spec_bindings()[slot as int].stride <= buffer.spec_data().len(),
        ensures
            r@ == attr_read(buffer.spec_data(), self.spec_bindings()[slot as int], vertex as int),
    {
        let b = self.bindings[slot];
        let ghost gb = self.spec_bindings()[slot as int];
        let data = buffer.bytes();
        let dlen = data.len();
        let stride = b.stride as usize;
        let offset = b.offset as usize;
        let m = b.components as usize;
        proof {
            assert((vertex as int) * (stride as int) + (stride as int) == (vertex + 1) * (
            stride as int)) by (nonlinear_arith);
            assert(0 <= (vertex as int) * (stride as int)) by (nonlinear_arith)
                requires
                    0 <= vertex,
                    0 <= stride,
            ;
        }
        let base = vertex * stride + offset;
        let mut r: Vec<u32> = Vec::new();
        let mut c: usize = 0;
        while c < m
            invariant
                b == gb,
                m == b.components as int,
                stride == b.stride as int,
                offset == b.offset as int,
                base == vertex * stride + offset,
                base + 4 * m <= vertex * stride + stride,
                (vertex + 1) * stride <= data@.len(),
                dlen == data@.len(),
                (vertex * stride + stride) == (vertex + 1) * stride,
                data@ == buffer.spec_data(),
                c <= m,
                r@.len() == c,
                forall|k: int|
                    0 <= k < c ==> #[trigger] r@[k] == attr_read(data@, b, vertex as int)[k],
            decreases m - c,
        {
            let chunk = slice_subrange(data.as_slice(), base + 4 * c, base + 4 * c + 4);
            let x = u32_from_le_bytes(chunk);
            r.push(x);
            proof {
                assert(r@[c as int] == attr_read(data@, b, vertex as int)[c as int]);
            }
            c += 1;
        }
        proof {
            assert(r@ =~= attr_read(data@, b, vertex as int));
        }
        r
    }

    /// Destroys the vertex array, releasing its handle exactly once.
    pub fn destroy(self, ctx: &mut Context)
        requires
            old(ctx).wf(),
            self.wf(*old(ctx)),
        ensures
            final(ctx).wf(),
            releases(*old(ctx), *final(ctx), self.spec_handle()),
    {
        ctx.release(self.handle);
    }
}

/// What a bound layout reads is exactly what was uploaded.
///
/// Take any record list uniform with a field list (each record holds
/// exactly the record type's component count) and any binding whose stride,
/// byte offset and component count are derived from field `f` of that list
/// — as [`crate::layout::RecordLayout`] derives them.  Reading vertex `v`
/// through that binding from the records' packed bytes yields exactly
/// record `v`'s components for field `f`.  Since an upload replaces a
/// buffer's whole contents with those packed bytes, a layout bound before
/// any number of uploads reads exactly the records of the most recent one.
pub proof fn lemma_bound_layout_reads_upload(
    fields: Seq<VertexField>,
    rs: Seq<Seq<u32>>,
    b: AttributeBinding,
    f: int,
    v: int,
)
    requires
        fields_wf(fields),
        0 <= f < fields.len(),
        0 <= v < rs.len(),
        forall|i: int| 0 <= i < rs.len() ==> (#[trigger] rs[i]).len() == comps_sum(fields),
        b.stride == (COMPONENT_BYTES as int) * comps_sum(fields),
        b.offset == spec_offset(fields, f),
        b.components == fields[f].components,
    ensures
        attr_read(records_bytes(rs), b, v) == rs[v].subrange(
            comps_sum(fields.take(f)),
            comps_sum(fields.take(f)) + fields[f].components,
        ),
{
    let n = comps_sum(fields);
    let base_c = comps_sum(fields.take(f));
    lemma_comps_sum_nonneg(fields.take(f));
    lemma_comps_sum_take_le(fields, f);
    lemma_comps_sum_take_succ(fields, f);
    lemma_comps_sum_take_le(fields, f + 1);
    lemma_records_bytes_len_uniform(rs, n);
    vstd::bytes::lemma_auto_spec_u32_to_from_le_bytes();
    let data = records_bytes(rs);
    let lhs = attr_read(data, b, v);
    let rhs = rs[v].subrange(base_c, base_c + fields[f].components as int);
    assert((v + 1) * b.stride <= rs.len() * (4 * n)) by (nonlinear_arith)
        requires
            0 <= v < rs.len(),
            b.stride == 4 * n,
            n >= 0,
    ;
    assert(v * b.stride + b.stride == (v + 1) * b.stride) by (nonlinear_arith);
    assert(0 <= v * b.stride) by (nonlinear_arith)
        requires
            0 <= v,
            0 <= b.stride,
    ;
    assert(v * b.stride == v * (4 * n));
    assert forall|c: int| 0 <= c < b.components implies lhs[c] == rhs[c] by {
        let x = rs[v][base_c + c];
        let lo = v * b.stride + b.offset + 4 * c;
        assert forall|k: int| 0 <= k < 4 implies data.subrange(lo, lo + 4)[k]
            == spec_u32_to_le_bytes(x)[k] by {
            lemma_records_bytes_index_uniform(rs, n, v, 4 * (base_c + c) + k);
            lemma_comps_bytes_index(rs[v], base_c + c, k);
            assert(lo + k == v * (4 * n) + (4 * (base_c + c) + k));
            assert(data[lo + k] == comps_bytes(rs[v])[4 * (base_c + c) + k]);
        }
        assert(data.subrange(lo, lo + 4) =~= spec_u32_to_le_bytes(x));
        assert(lhs[c] == spec_u32_from_le_bytes(spec_u32_to_le_bytes(x)));
    }
    assert(lhs =~= rhs);
}

} // verus!
