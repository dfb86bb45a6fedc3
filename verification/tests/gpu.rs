use rebit::gpu::{GpuBackend, GpuBufferId, GpuShaderId};

#[test]
fn init_succeeds() {
    assert!(GpuBackend::init().is_ok());
}

#[test]
fn create_vertex_buffer() {
    let mut backend = GpuBackend::init().unwrap();
    let vb = backend.create_vertex_buffer(100);
    assert_eq!(backend.buffer_count(), 1);
    assert_eq!(vb.vertex_count, 100);
}

#[test]
fn compile_shader_allocates_id() {
    let mut backend = GpuBackend::init().unwrap();
    let _sid = backend.compile_shader("void main() {}").unwrap();
    assert_eq!(backend.shader_count(), 1);
}

#[test]
fn handles_count_up_from_one() {
    let mut backend = GpuBackend::init().unwrap();
    let a = backend.create_vertex_buffer(3);
    let b = backend.create_vertex_buffer(6);
    assert_eq!(a.id, GpuBufferId(1));
    assert_eq!(b.id, GpuBufferId(2));
    assert_eq!(a.stride_bytes, 32);
    let s = backend.compile_shader("x").unwrap();
    assert_eq!(s, GpuShaderId(1));
    backend.draw(&a, &s);
    assert_eq!(backend.buffer_count(), 2);
    assert_eq!(backend.shader_count(), 1);
}

#[test]
fn buffer_ids_count_up_from_one() {
    let mut backend = GpuBackend::init().unwrap();
    let a = backend.create_vertex_buffer(3);
    let _ = backend.compile_shader("s");
    let b = backend.create_vertex_buffer(6);
    let c = backend.create_vertex_buffer(9);
    assert_eq!((a.id, b.id, c.id), (GpuBufferId(1), GpuBufferId(2), GpuBufferId(3)));
    assert_eq!(backend.buffer_count(), 3);
    assert_eq!(backend.shader_count(), 1);
}
