use glcore::{RecordLayout, VertexField};

fn field(name: &str, components: u32) -> VertexField {
    VertexField { name: String::from(name), components }
}

#[test]
fn second_field_starts_after_the_first() {
    let layout = RecordLayout::new(vec![field("position", 2), field("color", 3)]).unwrap();
    assert_eq!(layout.offset_of("position"), Some(0));
    // the second field's offset equals the first field's byte size
    assert_eq!(layout.offset_of("color"), Some(2 * 4));
    assert_eq!(layout.components_of("color"), Some(3));
    assert_eq!(layout.components_of("position"), Some(2));
    assert_eq!(layout.stride(), 5 * 4);
    assert_eq!(layout.total_components(), 5);
}

#[test]
fn offsets_follow_a_changed_declaration_order() {
    let layout = RecordLayout::new(vec![field("color", 3), field("position", 2)]).unwrap();
    assert_eq!(layout.offset_of("color"), Some(0));
    assert_eq!(layout.offset_of("position"), Some(3 * 4));
    assert_eq!(layout.components_of("color"), Some(3));
    assert_eq!(layout.stride(), 5 * 4);
}

#[test]
fn unknown_field_has_no_offset() {
    let layout = RecordLayout::new(vec![field("position", 2)]).unwrap();
    assert_eq!(layout.offset_of("normal"), None);
    assert_eq!(layout.components_of("normal"), None);
}

#[test]
fn three_fields_pack_tightly() {
    let layout =
        RecordLayout::new(vec![field("position", 3), field("normal", 3), field("uv", 2)]).unwrap();
    assert_eq!(layout.offset_of("position"), Some(0));
    assert_eq!(layout.offset_of("normal"), Some(12));
    assert_eq!(layout.offset_of("uv"), Some(24));
    assert_eq!(layout.stride(), 32);
}

#[test]
fn duplicate_field_names_are_rejected() {
    assert!(RecordLayout::new(vec![field("position", 2), field("position", 3)]).is_none());
}

#[test]
fn zero_component_field_is_rejected() {
    assert!(RecordLayout::new(vec![field("position", 0)]).is_none());
}

#[test]
fn empty_field_name_is_rejected() {
    assert!(RecordLayout::new(vec![field("", 2)]).is_none());
}
