//! GPU backend bookkeeping: buffer and shader handles.
use vstd::prelude::*;

verus! {

/// A GPU buffer handle.
#[derive(Debug, Clone, Copy, PartialEq, Eq, Structural)]
pub struct GpuBufferId(pub u64);

/// A shader program handle.
#[derive(Debug, Clone, Copy, PartialEq, Eq, Structural)]
pub struct GpuShaderId(pub u64);

/// Bytes per vertex: eight 4-byte floats.
pub const VERTEX_STRIDE_BYTES: usize = 32;

/// A vertex buffer.
#[derive(Debug, Clone)]
pub struct VertexBuffer {
    pub id: GpuBufferId,
    pub vertex_count: usize,
    pub stride_bytes: usize,
}

/// GPU backend with buffer and shader handle management.
#[derive(Debug)]
pub struct GpuBackend {
    buffers: Vec<GpuBufferId>,
    shaders: Vec<GpuShaderId>,
    next_buffer_id: u64,
    next_shader_id: u64,
}

impl Default for GpuBackend {
    fn default() -> (b: Self)
        ensures
            b.buffers() == Seq::<GpuBufferId>::empty(),
            b.shaders() == Seq::<GpuShaderId>::empty(),
            b.next_buffer_id() == 0,
            b.next_shader_id() == 0,
            b.wf(),
    {
        GpuBackend { buffers: Vec::new(), shaders: Vec::new(), next_buffer_id: 0, next_shader_id: 0 }
    }
}

/// The handles `ids` were given out one after another, the last just below
/// `next`.
pub open spec fn consecutive(ids: Seq<u64>, next: u64) -> bool {
    &&& ids.len() <= next
    &&& forall|i: int| 0 <= i < ids.len() ==> #[trigger] ids[i] + ids.len() == next + i
}

impl GpuBackend {
    /// The backend's invariant: buffer handles, and shader handles, were
    /// given out consecutively up to the next id; so each handle is fresh,
    /// and from `init` the `k`-th buffer (or shader) has id `k`.
    pub open spec fn wf(&self) -> bool {
        &&& consecutive(self.buffers().map_values(|b: GpuBufferId| b.0), self.next_buffer_id())
        &&& consecutive(self.shaders().map_values(|s: GpuShaderId| s.0), self.next_shader_id())
    }

    /// Buffers allocated so far, in order.
    pub closed spec fn buffers(&self) -> Seq<GpuBufferId> {
        self.buffers@
    }

    /// Shaders compiled so far, in order.
    pub closed spec fn shaders(&self) -> Seq<GpuShaderId> {
        self.shaders@
    }

    /// The id the next buffer gets.
    pub closed spec fn next_buffer_id(&self) -> u64 {
        self.next_buffer_id
    }

    /// The id the next shader gets.
    pub closed spec fn next_shader_id(&self) -> u64 {
        self.next_shader_id
    }

    /// Initialize the backend; it always succeeds.
    pub fn init() -> (r: Result<Self, &'static str>)
        ensures
            r matches Ok(b) && b.buffers() == Seq::<GpuBufferId>::empty() && b.shaders()
                == Seq::<GpuShaderId>::empty() && b.next_buffer_id() == 1 && b.next_shader_id() == 1 && b.wf(),
    {
        Ok(GpuBackend { buffers: Vec::new(), shaders: Vec::new(), next_buffer_id: 1, next_shader_id: 1 })
    }

    /// Allocate a vertex buffer for `vertex_count` vertices.
    pub fn create_vertex_buffer(&mut self, vertex_count: usize) -> (vb: VertexBuffer)
        requires
            old(self).wf(),
            old(self).next_buffer_id() < u64::MAX,
        ensures
            final(self).wf(),
            forall|i: int| 0 <= i < old(self).buffers().len() ==> #[trigger] old(self).buffers()[i].0 < vb.id.0,
            vb.id == GpuBufferId(old(self).next_buffer_id()),
            vb.vertex_count == vertex_count,
            vb.stride_bytes == VERTEX_STRIDE_BYTES,
            final(self).buffers() == old(self).buffers().push(vb.id),
            final(self).next_buffer_id() == old(self).next_buffer_id() + 1,
            final(self).shaders() == old(self).shaders(),
            final(self).next_shader_id() == old(self).next_shader_id(),
    {
        let id = GpuBufferId(self.next_buffer_id);
        self.next_buffer_id = self.next_buffer_id + 1;
        self.buffers.push(id);
        proof {
            let f = |b: GpuBufferId| b.0;
            assert(self.buffers@.map_values(f) =~= old(self).buffers@.map_values(f).push(id.0));
            assert(self.shaders@.map_values(|s: GpuShaderId| s.0) =~= old(self).shaders@.map_values(|s: GpuShaderId| s.0));
            assert forall|i: int| 0 <= i < old(self).buffers@.len() implies #[trigger] old(self).buffers@[i].0 < id.0 by {
                assert(old(self).buffers@.map_values(f)[i] == old(self).buffers@[i].0);
            }
        }
        VertexBuffer { id, vertex_count, stride_bytes: VERTEX_STRIDE_BYTES }
    }

    /// Compile a shader program; it always succeeds with a fresh handle.
    pub fn compile_shader(&mut self, _source: &str) -> (r: Result<GpuShaderId, &'static str>)
        requires
            old(self).wf(),
            old(self).next_shader_id() < u64::MAX,
        ensures
            final(self).wf(),
            forall|i: int| 0 <= i < old(self).shaders().len() ==> #[trigger] old(self).shaders()[i].0 < old(self).next_shader_id(),
            r == Ok::<GpuShaderId, &'static str>(GpuShaderId(old(self).next_shader_id())),
            final(self).shaders() == old(self).shaders().push(GpuShaderId(old(self).next_shader_id())),
            final(self).next_shader_id() == old(self).next_shader_id() + 1,
            final(self).buffers() == old(self).buffers(),
            final(self).next_buffer_id() == old(self).next_buffer_id(),
    {
        let id = GpuShaderId(self.next_shader_id);
        self.next_shader_id = self.next_shader_id + 1;
        self.shaders.push(id);
        proof {
            let f = |s: GpuShaderId| s.0;
            assert(self.shaders@.map_values(f) =~= old(self).shaders@.map_values(f).push(id.0));
            assert(self.buffers@.map_values(|b: GpuBufferId| b.0) =~= old(self).buffers@.map_values(|b: GpuBufferId| b.0));
            assert forall|i: int| 0 <= i < old(self).shaders@.len() implies #[trigger] old(self).shaders@[i].0 < id.0 by {
                assert(old(self).shaders@.map_values(f)[i] == old(self).shaders@[i].0);
            }
        }
        Ok(id)
    }

    /// Submit a draw command; nothing is submitted yet.
    pub fn draw(&self, _buffer: &VertexBuffer, _shader: &GpuShaderId) {
    }

    /// Number of buffers allocated.
    pub fn buffer_count(&self) -> (n: usize)
        ensures
            n == self.buffers().len(),
    {
        self.buffers.len()
    }

    /// Number of shaders compiled.
    pub fn shader_count(&self) -> (n: usize)
        ensures
            n == self.shaders().len(),
    {
        self.shaders.len()
    }
}

} // verus!
