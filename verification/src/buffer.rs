//! GPU buffer objects.
//!
//! A [`Buffer`] owns one buffer handle and models the buffer's GPU-resident
//! storage as the byte sequence last uploaded into it.  Uploading
//! reinterprets a sequence of tightly packed records as raw bytes — each
//! 32-bit component in little-endian order — and always replaces the whole
//! contents; there is no partial update.  Allocation failure is not
//! reported synchronously, as under the driver this models.

use vstd::bytes::{spec_u32_to_le_bytes, u32_to_le_bytes};
use vstd::prelude::*;

use crate::context::{allocates, releases, same_live, Context};

verus! {

/// The two buffer binding points: vertex data and index data.
#[derive(Clone, Copy, PartialEq, Eq, Structural, Debug)]
pub enum BufferTarget {
    Array,
    ElementArray,
}

/// Expected access pattern for uploaded data, a hint to the driver.
#[derive(Clone, Copy, PartialEq, Eq, Structural, Debug)]
pub enum UsageHint {
    StaticDraw,
    DynamicDraw,
}

/// One interleaved vertex record as uploaded: its numeric components in
/// declaration order, each the bit pattern of one 32-bit scalar.
#[derive(Debug)]
pub struct VertexRecord {
    pub comps: Vec<u32>,
}

impl View for VertexRecord {
    type V = Seq<u32>;

    open spec fn view(&self) -> Seq<u32> {
        self.comps@
    }
}

/// The component views of a record vector.
pub open spec fn records_view(rs: Seq<VertexRecord>) -> Seq<Seq<u32>> {
    rs.map_values(|r: VertexRecord| r@)
}

/// The bytes of one record: its components in order, each little-endian.
pub open spec fn comps_bytes(cs: Seq<u32>) -> Seq<u8>
    decreases cs.len(),
{
    if cs.len() == 0 {
        Seq::empty()
    } else {
        comps_bytes(cs.drop_last()) + spec_u32_to_le_bytes(cs.last())
    }
}

/// The bytes of a record sequence, tightly packed in order.
pub open spec fn records_bytes(rs: Seq<Seq<u32>>) -> Seq<u8>
    decreases rs.len(),
{
    if rs.len() == 0 {
        Seq::empty()
    } else {
        records_bytes(rs.drop_last()) + comps_bytes(rs.last())
    }
}

/// One record's bytes are four per component.
pub proof fn lemma_comps_bytes_len(cs: Seq<u32>)
    ensures
        comps_bytes(cs).len() == 4 * cs.len(),
    decreases cs.len(),
{
    vstd::bytes::lemma_auto_spec_u32_to_from_le_bytes();
    if cs.len() > 0 {
        lemma_comps_bytes_len(cs.drop_last());
    }
}

/// Byte `4 * c + k` of a record is byte `k` of component `c`.
pub proof fn lemma_comps_bytes_index(cs: Seq<u32>, c: int, k: int)
    requires
        0 <= c < cs.len(),
        0 <= k < 4,
    ensures
        comps_bytes(cs)[4 * c + k] == spec_u32_to_le_bytes(cs[c])[k],
    decreases cs.len(),
{
    vstd::bytes::lemma_auto_spec_u32_to_from_le_bytes();
    lemma_comps_bytes_len(cs.drop_last());
    if c == cs.len() - 1 {
        assert(comps_bytes(cs)[4 * c + k] == spec_u32_to_le_bytes(cs.last())[k]);
    } else {
        lemma_comps_bytes_index(cs.drop_last(), c, k);
        assert(cs.drop_last()[c] == cs[c]);
    }
}

/// A prefix of the components contributes a prefix of the bytes.
pub proof fn lemma_comps_bytes_take_succ(cs: Seq<u32>, i: int)
    requires
        0 <= i < cs.len(),
    ensures
        comps_bytes(cs.take(i + 1)) == comps_bytes(cs.take(i)) + spec_u32_to_le_bytes(cs[i]),
{
    assert(cs.take(i + 1).drop_last() =~= cs.take(i));
    assert(cs.take(i + 1).last() == cs[i]);
}

/// A prefix of the records contributes a prefix of the bytes.
pub proof fn lemma_records_bytes_take_succ(rs: Seq<Seq<u32>>, i: int)
    requires
        0 <= i < rs.len(),
    ensures
        records_bytes(rs.take(i + 1)) == records_bytes(rs.take(i)) + comps_bytes(rs[i]),
{
    assert(rs.take(i + 1).drop_last() =~= rs.take(i));
    assert(rs.take(i + 1).last() == rs[i]);
}

/// Records of `n` components each pack to `4 * n` bytes per record.
pub proof fn lemma_records_bytes_len_uniform(rs: Seq<Seq<u32>>, n: int)
    requires
        forall|i: int| 0 <= i < rs.len() ==> (#[trigger] rs[i]).len() == n,
    ensures
        records_bytes(rs).len() == rs.len() * (4 * n),
    decreases rs.len(),
{
    if rs.len() == 0 {
    } else {
        lemma_records_bytes_len_uniform(rs.drop_last(), n);
        lemma_comps_bytes_len(rs.last());
        assert(rs.len() * (4 * n) == (rs.len() - 1) * (4 * n) + 4 * n) by (nonlinear_arith);
    }
}

/// Byte `v * (4 * n) + j` of a uniform record sequence is byte `j` of
/// record `v`.
pub proof fn lemma_records_bytes_index_uniform(rs: Seq<Seq<u32>>, n: int, v: int, j: int)
    requires
        forall|i: int| 0 <= i < rs.len() ==> (#[trigger] rs[i]).len() == n,
        0 <= v < rs.len(),
        0 <= j < 4 * n,
    ensures
        records_bytes(rs)[v * (4 * n) + j] == comps_bytes(rs[v])[j],
    decreases rs.len(),
{
    lemma_records_bytes_len_uniform(rs.drop_last(), n);
    lemma_comps_bytes_len(rs.last());
    if v == rs.len() - 1 {
        assert(v * (4 * n) + j - records_bytes(rs.drop_last()).len() == j);
        assert(records_bytes(rs)[v * (4 * n) + j] == comps_bytes(rs.last())[j]);
    } else {
        lemma_records_bytes_index_uniform(rs.drop_last(), n, v, j);
        assert(rs.drop_last()[v] == rs[v]);
        assert(v * (4 * n) + j < (rs.len() - 1) * (4 * n)) by (nonlinear_arith)
            requires
                0 <= v < rs.len() - 1,
                0 <= j < 4 * n,
        ;
    }
}

/// One GPU buffer object: a handle, the fixed target it was created for,
/// its modeled GPU-side bytes, and the usage hint of the last upload.
#[derive(Debug)]
pub struct Buffer {
    handle: u32,
    target: BufferTarget,
    data: Vec<u8>,
    usage: UsageHint,
}

impl Buffer {
    /// The buffer handle this wrapper owns.
    pub closed spec fn spec_handle(&self) -> u32 {
        self.handle
    }

    /// The binding point fixed at creation.
    pub closed spec fn spec_target(&self) -> BufferTarget {
        self.target
    }

    /// The buffer's GPU-side bytes: whatever the last upload put there.
    pub closed spec fn spec_data(&self) -> Seq<u8> {
        self.data@
    }

    /// The usage hint of the last upload.
    pub closed spec fn spec_usage(&self) -> UsageHint {
        self.usage
    }

    /// A buffer is usable exactly while its handle is live.
    pub open spec fn wf(&self, ctx: Context) -> bool {
        ctx.is_live(self.spec_handle())
    }

    /// Creates an empty buffer for a fixed target; no data yet.
    pub fn new(ctx: &mut Context, target: BufferTarget) -> (r: Buffer)
        requires
            old(ctx).wf(),
            old(ctx).can_alloc(),
        ensures
            final(ctx).wf(),
            allocates(*old(ctx), *final(ctx), r.spec_handle()),
            r.wf(*final(ctx)),
            r.spec_target() == target,
            r.spec_data() == Seq::<u8>::empty(),
            r.spec_usage() == UsageHint::StaticDraw,
    {
        let handle = ctx.allocate();
        Buffer { handle, target, data: Vec::new(), usage: UsageHint::StaticDraw }
    }

    /// Binds the buffer to its target's register.
    pub fn bind(&self, ctx: &mut Context)
        requires
            old(ctx).wf(),
            self.wf(*old(ctx)),
        ensures
            final(ctx).wf(),
            same_live(*old(ctx), *final(ctx)),
            final(ctx).spec_next_handle() == old(ctx).spec_next_handle(),
            final(ctx).spec_active_program() == old(ctx).spec_active_program(),
            final(ctx).spec_bound_vertex_array() == old(ctx).spec_bound_vertex_array(),
            self.spec_target() == BufferTarget::Array ==> final(ctx).spec_bound_array_buffer()
                == self.spec_handle() && final(ctx).spec_bound_element_buffer() == old(ctx).spec_bound_element_buffer(),
            self.spec_target() == BufferTarget::ElementArray ==> final(ctx).spec_bound_element_buffer() == self.spec_handle() && final(ctx).spec_bound_array_buffer() == old(ctx).spec_bound_array_buffer(),
    {
        match self.target {
            BufferTarget::Array => ctx.bind_array_buffer(self.handle),
            BufferTarget::ElementArray => ctx.bind_element_buffer(self.handle),
        }
    }

    /// Uploads a record sequence, replacing the buffer's whole contents
    /// with the records' tightly packed bytes under the given usage hint.
    /// The buffer is bound to its target first, as an upload must be.
    pub fn set_data(&mut self, ctx: &mut Context, records: &Vec<VertexRecord>, usage: UsageHint)
        requires
            old(ctx).wf(),
            old(self).wf(*old(ctx)),
        ensures
            final(ctx).wf(),
            final(self).spec_handle() == old(self).spec_handle(),
            final(self).spec_target() == old(self).spec_target(),
            final(self).wf(*final(ctx)),
            final(self).spec_data() == records_bytes(records_view(records@)),
            final(self).spec_usage() == usage,
            same_live(*old(ctx), *final(ctx)),
            final(ctx).spec_next_handle() == old(ctx).spec_next_handle(),
            final(ctx).spec_active_program() == old(ctx).spec_active_program(),
            final(ctx).spec_bound_vertex_array() == old(ctx).spec_bound_vertex_array(),
            old(self).spec_target() == BufferTarget::Array ==> final(ctx).spec_bound_array_buffer() == old(self).spec_handle() && final(ctx).spec_bound_element_buffer() == old(ctx).spec_bound_element_buffer(),
            old(self).spec_target() == BufferTarget::ElementArray ==> final(ctx).spec_bound_element_buffer() == old(self).spec_handle() && final(ctx).spec_bound_array_buffer() == old(ctx).spec_bound_array_buffer(),
    {
        self.bind(ctx);
        let ghost rv = records_view(records@);
        let n = records.len();
        let mut data: Vec<u8> = Vec::new();
        let mut i: usize = 0;
        while i < n
            invariant
                n == records@.len(),
                i <= n,
                rv == records_view(records@),
                data@ == records_bytes(rv.take(i as int)),
            decreases n - i,
        {
            proof {
                assert(rv[i as int] == records@[i as int]@);
                lemma_records_bytes_take_succ(rv, i as int);
            }
            let cs = &records[i].comps;
            let m = cs.len();
            let mut j: usize = 0;
            while j < m
                invariant
                    m == cs@.len(),
                    j <= m,
                    i < n,
                    n == records@.len(),
                    rv == records_view(records@),
                    rv[i as int] == cs@,
                    data@ == records_bytes(rv.take(i as int)) + comps_bytes(cs@.take(j as int)),
                decreases m - j,
            {
                proof {
                    lemma_comps_bytes_take_succ(cs@, j as int);
                }
                let mut chunk = u32_to_le_bytes(cs[j]);
                data.append(&mut chunk);
                proof {
                    assert(data@ =~= records_bytes(rv.take(i as int)) + comps_bytes(
                        cs@.take(j as int + 1),
                    ));
                }
                j += 1;
            }
            proof {
                assert(cs@.take(m as int) =~= cs@);
                assert(data@ =~= records_bytes(rv.take(i as int + 1)));
            }
            i += 1;
        }
        proof {
            assert(rv.take(n as int) =~= rv);
        }
        self.data = data;
        self.usage = usage;
    }

    /// Uploads a flat sequence of 32-bit values — index data — replacing
    /// the buffer's whole contents with their little-endian bytes.
    pub fn set_index_data(&mut self, ctx: &mut Context, values: &Vec<u32>, usage: UsageHint)
        requires
            old(ctx).wf(),
            old(self).wf(*old(ctx)),
        ensures
            final(ctx).wf(),
            final(self).spec_handle() == old(self).spec_handle(),
            final(self).spec_target() == old(self).spec_target(),
            final(self).wf(*final(ctx)),
            final(self).spec_data() == comps_bytes(values@),
            final(self).spec_usage() == usage,
            same_live(*old(ctx), *final(ctx)),
            final(ctx).spec_next_handle() == old(ctx).spec_next_handle(),
            final(ctx).spec_active_program() == old(ctx).spec_active_program(),
            final(ctx).spec_bound_vertex_array() == old(ctx).spec_bound_vertex_array(),
            old(self).spec_target() == BufferTarget::Array ==> final(ctx).spec_bound_array_buffer() == old(self).spec_handle() && final(ctx).spec_bound_element_buffer() == old(ctx).spec_bound_element_buffer(),
            old(self).spec_target() == BufferTarget::ElementArray ==> final(ctx).spec_bound_element_buffer() == old(self).spec_handle() && final(ctx).spec_bound_array_buffer() == old(ctx).spec_bound_array_buffer(),
    {
        self.bind(ctx);
        let n = values.len();
        let mut data: Vec<u8> = Vec::new();
        let mut j: usize = 0;
        while j < n
            invariant
                n == values@.len(),
                j <= n,
                data@ == comps_bytes(values@.take(j as int)),
            decreases n - j,
        {
            proof {
                lemma_comps_bytes_take_succ(values@, j as int);
            }
            let mut chunk = u32_to_le_bytes(values[j]);
            data.append(&mut chunk);
            proof {
                assert(data@ =~= comps_bytes(values@.take(j as int + 1)));
            }
            j += 1;
        }
        proof {
            assert(values@.take(n as int) =~= values@);
        }
        self.data = data;
        self.usage = usage;
    }

    /// The buffer's handle, as the driver names it.
    pub fn id(&self) -> (r: u32)
        ensures
            r == self.spec_handle(),
    {
        self.handle
    }

    /// The binding point fixed at creation.
    pub fn target(&self) -> (r: BufferTarget)
        ensures
            r == self.spec_target(),
    {
        self.target
    }

    /// The usage hint of the last upload.
    pub fn usage(&self) -> (r: UsageHint)
        ensures
            r == self.spec_usage(),
    {
        self.usage
    }

    /// The buffer's GPU-side bytes.
    pub fn bytes(&self) -> (r: &Vec<u8>)
        ensures
            r@ == self.spec_data(),
    {
        &self.data
    }

    /// Destroys the buffer, releasing its handle exactly once.
    pub fn destroy(self, ctx: &mut Context)
        requires
            old(ctx).wf(),
            self.wf(*old(ctx)),
        ensures
            final(ctx).wf(),
            releases(*old(ctx), *final(ctx), self.spec_handle()),
    {
        ctx.release(self.handle);
    }
}

} // verus!
