use glcore::{
    BindingError, Buffer, BufferTarget, Context, ElemType, VertexArray,
};

#[test]
fn binding_within_the_stride_is_accepted_and_recorded() {
    let mut ctx = Context::new();
    let buffer = Buffer::new(&mut ctx, BufferTarget::Array);
    let mut vao = VertexArray::new(&mut ctx);
    assert_eq!(vao.binding_count(), 0);
    vao.set_attribute(&mut ctx, &buffer, 3, 2, 20, 12, ElemType::Float).unwrap();
    assert_eq!(vao.binding_count(), 1);
    let b = vao.binding_at(0);
    assert_eq!(b.location, 3);
    assert_eq!(b.buffer, buffer.id());
    assert_eq!(b.components, 2);
    assert_eq!(b.stride, 20);
    assert_eq!(b.offset, 12);
    assert_eq!(b.elem, ElemType::Float);
    // registering a binding binds the buffer to the vertex-data target
    assert_eq!(ctx.bound_array_buffer(), buffer.id());
}

#[test]
fn footprint_past_the_stride_is_rejected_before_any_effect() {
    let mut ctx = Context::new();
    let buffer = Buffer::new(&mut ctx, BufferTarget::Array);
    let mut vao = VertexArray::new(&mut ctx);
    // offset 12 + 3 components of 4 bytes = 24 > stride 20
    let r = vao.set_attribute(&mut ctx, &buffer, 1, 3, 20, 12, ElemType::Float);
    assert_eq!(r, Err(BindingError::FootprintExceedsStride));
    assert_eq!(vao.binding_count(), 0);
    assert_eq!(ctx.bound_array_buffer(), 0);
}

#[test]
fn footprint_exactly_at_the_stride_is_accepted() {
    let mut ctx = Context::new();
    let buffer = Buffer::new(&mut ctx, BufferTarget::Array);
    let mut vao = VertexArray::new(&mut ctx);
    // offset 8 + 3 components of 4 bytes = 20 == stride
    vao.set_attribute(&mut ctx, &buffer, 1, 3, 20, 8, ElemType::Float).unwrap();
    assert_eq!(vao.binding_count(), 1);
}

#[test]
fn zero_components_are_rejected() {
    let mut ctx = Context::new();
    let buffer = Buffer::new(&mut ctx, BufferTarget::Array);
    let mut vao = VertexArray::new(&mut ctx);
    let r = vao.set_attribute(&mut ctx, &buffer, 0, 0, 20, 0, ElemType::Float);
    assert_eq!(r, Err(BindingError::NoComponents));
    assert_eq!(vao.binding_count(), 0);
}

#[test]
fn bindings_on_one_layout_must_agree_on_stride() {
    let mut ctx = Context::new();
    let buffer = Buffer::new(&mut ctx, BufferTarget::Array);
    let mut vao = VertexArray::new(&mut ctx);
    vao.set_attribute(&mut ctx, &buffer, 0, 2, 20, 0, ElemType::Float).unwrap();
    let r = vao.set_attribute(&mut ctx, &buffer, 1, 3, 24, 8, ElemType::Float);
    assert_eq!(r, Err(BindingError::StrideMismatch));
    assert_eq!(vao.binding_count(), 1);
}

#[test]
fn binding_a_vertex_array_sets_the_register() {
    let mut ctx = Context::new();
    let vao = VertexArray::new(&mut ctx);
    assert_eq!(ctx.bound_vertex_array(), 0);
    vao.bind(&mut ctx);
    assert_eq!(ctx.bound_vertex_array(), vao.get_id());
}

#[test]
fn destroying_a_vertex_array_releases_its_handle() {
    let mut ctx = Context::new();
    let vao = VertexArray::new(&mut ctx);
    let id = vao.get_id();
    vao.destroy(&mut ctx);
    assert!(!ctx.is_live_handle(id));
}

#[test]
fn unsigned_index_components_may_be_bound() {
    let mut ctx = Context::new();
    let buffer = Buffer::new(&mut ctx, BufferTarget::Array);
    let mut vao = VertexArray::new(&mut ctx);
    vao.set_attribute(&mut ctx, &buffer, 0, 1, 4, 0, ElemType::UnsignedInt).unwrap();
    assert_eq!(vao.binding_at(0).elem, ElemType::UnsignedInt);
}
