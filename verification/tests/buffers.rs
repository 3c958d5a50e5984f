use glcore::{
    Buffer, BufferTarget, Context, ElemType, RecordLayout, UsageHint, VertexArray, VertexField,
    VertexRecord,
};

fn field(name: &str, components: u32) -> VertexField {
    VertexField { name: String::from(name), components }
}

fn record(comps: &[u32]) -> VertexRecord {
    VertexRecord { comps: comps.to_vec() }
}

#[test]
fn new_buffer_is_empty_and_fixed_to_its_target() {
    let mut ctx = Context::new();
    let buffer = Buffer::new(&mut ctx, BufferTarget::Array);
    assert!(ctx.is_live_handle(buffer.id()));
    assert_eq!(buffer.target(), BufferTarget::Array);
    assert!(buffer.bytes().is_empty());
    assert_eq!(buffer.usage(), UsageHint::StaticDraw);
}

#[test]
fn binding_sets_the_target_register() {
    let mut ctx = Context::new();
    let vbo = Buffer::new(&mut ctx, BufferTarget::Array);
    let ebo = Buffer::new(&mut ctx, BufferTarget::ElementArray);
    assert_eq!(ctx.bound_array_buffer(), 0);
    assert_eq!(ctx.bound_element_buffer(), 0);
    vbo.bind(&mut ctx);
    assert_eq!(ctx.bound_array_buffer(), vbo.id());
    assert_eq!(ctx.bound_element_buffer(), 0);
    ebo.bind(&mut ctx);
    assert_eq!(ctx.bound_element_buffer(), ebo.id());
    assert_eq!(ctx.bound_array_buffer(), vbo.id());
}

#[test]
fn upload_packs_components_little_endian() {
    let mut ctx = Context::new();
    let mut buffer = Buffer::new(&mut ctx, BufferTarget::Array);
    buffer.set_data(
        &mut ctx,
        &vec![record(&[0x0403_0201]), record(&[0x0807_0605])],
        UsageHint::StaticDraw,
    );
    assert_eq!(buffer.bytes(), &vec![1u8, 2, 3, 4, 5, 6, 7, 8]);
}

#[test]
fn index_upload_packs_values_little_endian() {
    let mut ctx = Context::new();
    let mut buffer = Buffer::new(&mut ctx, BufferTarget::ElementArray);
    buffer.set_index_data(&mut ctx, &vec![0x0403_0201, 0x0807_0605], UsageHint::StaticDraw);
    assert_eq!(buffer.bytes(), &vec![1u8, 2, 3, 4, 5, 6, 7, 8]);
    assert_eq!(ctx.bound_element_buffer(), buffer.id());
}

#[test]
fn upload_records_the_usage_hint() {
    let mut ctx = Context::new();
    let mut buffer = Buffer::new(&mut ctx, BufferTarget::Array);
    buffer.set_data(&mut ctx, &vec![record(&[7])], UsageHint::DynamicDraw);
    assert_eq!(buffer.usage(), UsageHint::DynamicDraw);
}

#[test]
fn reupload_fully_replaces_contents() {
    let mut ctx = Context::new();
    let mut buffer = Buffer::new(&mut ctx, BufferTarget::Array);
    let first = vec![record(&[1, 2]), record(&[3, 4]), record(&[5, 6])];
    buffer.set_data(&mut ctx, &first, UsageHint::StaticDraw);
    assert_eq!(buffer.bytes().len(), 3 * 8);
    let second = vec![record(&[9, 10]), record(&[11, 12])];
    buffer.set_data(&mut ctx, &second, UsageHint::StaticDraw);
    assert_eq!(buffer.bytes().len(), 2 * 8);
    assert_eq!(
        buffer.bytes(),
        &vec![9u8, 0, 0, 0, 10, 0, 0, 0, 11, 0, 0, 0, 12, 0, 0, 0]
    );
}

#[test]
fn bound_layout_reads_the_most_recent_upload() {
    let mut ctx = Context::new();
    let mut buffer = Buffer::new(&mut ctx, BufferTarget::Array);
    let mut vao = VertexArray::new(&mut ctx);
    let layout = RecordLayout::new(vec![field("position", 2), field("color", 3)]).unwrap();
    let stride = layout.stride();
    let pos_off = layout.offset_of("position").unwrap();
    let pos_n = layout.components_of("position").unwrap();
    let col_off = layout.offset_of("color").unwrap();
    let col_n = layout.components_of("color").unwrap();
    vao.set_attribute(&mut ctx, &buffer, 0, pos_n, stride, pos_off, ElemType::Float)
        .unwrap();
    vao.set_attribute(&mut ctx, &buffer, 1, col_n, stride, col_off, ElemType::Float)
        .unwrap();

    // three records of five components each
    let first = vec![
        record(&[10, 11, 12, 13, 14]),
        record(&[20, 21, 22, 23, 24]),
        record(&[30, 31, 32, 33, 34]),
    ];
    buffer.set_data(&mut ctx, &first, UsageHint::StaticDraw);
    assert_eq!(vao.fetch_attribute(0, &buffer, 2), vec![30, 31]);
    assert_eq!(vao.fetch_attribute(1, &buffer, 1), vec![22, 23, 24]);

    // a re-upload of two records fully replaces the three
    let second = vec![record(&[40, 41, 42, 43, 44]), record(&[50, 51, 52, 53, 54])];
    buffer.set_data(&mut ctx, &second, UsageHint::StaticDraw);
    assert_eq!(buffer.bytes().len(), 2 * stride as usize);
    assert_eq!(vao.fetch_attribute(0, &buffer, 0), vec![40, 41]);
    assert_eq!(vao.fetch_attribute(1, &buffer, 0), vec![42, 43, 44]);
    assert_eq!(vao.fetch_attribute(0, &buffer, 1), vec![50, 51]);
    assert_eq!(vao.fetch_attribute(1, &buffer, 1), vec![52, 53, 54]);
}

#[test]
fn float_bit_patterns_survive_the_round_trip() {
    let mut ctx = Context::new();
    let mut buffer = Buffer::new(&mut ctx, BufferTarget::Array);
    let mut vao = VertexArray::new(&mut ctx);
    let layout = RecordLayout::new(vec![field("position", 2)]).unwrap();
    vao.set_attribute(&mut ctx, &buffer, 0, 2, layout.stride(), 0, ElemType::Float)
        .unwrap();
    let xs: f32 = 0.25;
    let ys: f32 = -3.5;
    buffer.set_data(
        &mut ctx,
        &vec![record(&[xs.to_bits(), ys.to_bits()])],
        UsageHint::StaticDraw,
    );
    let got = vao.fetch_attribute(0, &buffer, 0);
    assert_eq!(f32::from_bits(got[0]), 0.25);
    assert_eq!(f32::from_bits(got[1]), -3.5);
}

#[test]
fn destroying_a_buffer_releases_its_handle() {
    let mut ctx = Context::new();
    let buffer = Buffer::new(&mut ctx, BufferTarget::Array);
    let id = buffer.id();
    buffer.destroy(&mut ctx);
    assert!(!ctx.is_live_handle(id));
}

#[test]
fn every_resource_gets_a_distinct_handle() {
    let mut ctx = Context::new();
    let a = Buffer::new(&mut ctx, BufferTarget::Array);
    let b = Buffer::new(&mut ctx, BufferTarget::Array);
    let v = VertexArray::new(&mut ctx);
    assert_ne!(a.id(), b.id());
    assert_ne!(a.id(), v.get_id());
    assert_ne!(b.id(), v.get_id());
}
