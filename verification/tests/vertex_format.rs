use gpu_layout::type_tag::{Dim, ElementType, ScalarKind, TypeTag};
use gpu_layout::vertex::{build_bindings, FieldDescriptor, VertexField, BY_NAME};

fn vec2() -> ElementType {
    ElementType::Array(ScalarKind::F32, Dim::Two)
}

fn vec3() -> ElementType {
    ElementType::Array(ScalarKind::F32, Dim::Three)
}

fn descriptor(name: &str, offset: usize, location: i32, tag: TypeTag, normalize: bool) -> FieldDescriptor {
    FieldDescriptor {
        name: name.to_string(),
        byte_offset: offset,
        location,
        type_tag: tag,
        normalize,
    }
}

#[test]
fn trailing_comma_impl_vertex() {
    // struct Foo { pos: [f32; 2] }
    let fields = vec![VertexField::new("pos".to_string(), 0, vec2())];
    let format = build_bindings(&fields);
    assert_eq!(format.len(), 1);
    assert_eq!(
        format.get(0),
        Some(&descriptor("pos", 0, -1, TypeTag::Vector(ScalarKind::F32, Dim::Two), false))
    );
}

#[test]
fn position_then_color() {
    let fields = vec![
        VertexField::new("position".to_string(), 0, vec2()),
        VertexField::new("color".to_string(), 8, vec3()),
    ];
    let format = build_bindings(&fields);
    let expected = vec![
        descriptor("position", 0, -1, TypeTag::Vector(ScalarKind::F32, Dim::Two), false),
        descriptor("color", 8, -1, TypeTag::Vector(ScalarKind::F32, Dim::Three), false),
    ];
    assert_eq!(format.descriptors(), &expected);
}

#[test]
fn building_twice_gives_the_same_format() {
    let fields = vec![
        VertexField::new("position".to_string(), 0, vec3()),
        VertexField::new("tex_coords".to_string(), 12, vec2()).with_location(3),
        VertexField::new("tint".to_string(), 20, ElementType::Array(ScalarKind::U8, Dim::Four))
            .with_normalize(true),
    ];
    let first = build_bindings(&fields);
    let second = build_bindings(&fields);
    assert_eq!(first, second);
    assert_eq!(first.len(), 3);
}

#[test]
fn empty_field_list_gives_empty_format() {
    let format = build_bindings(&Vec::new());
    assert_eq!(format.len(), 0);
    assert_eq!(format.get(0), None);
    assert!(format.descriptors().is_empty());
}

#[test]
fn explicit_location_replaces_by_name() {
    let fields = vec![
        VertexField::new("position".to_string(), 0, vec2()).with_location(0),
        VertexField::new("tex_coords".to_string(), 8, vec2()).with_location(1),
    ];
    let format = build_bindings(&fields);
    assert_eq!(format.get(0).unwrap().location, 0);
    assert_eq!(format.get(1).unwrap().location, 1);
    assert_eq!(format.get(1).unwrap().name, "tex_coords");
    assert!(!format.get(0).unwrap().normalize);
}

#[test]
fn normalize_override_is_kept() {
    let fields = vec![
        VertexField::new("position".to_string(), 0, vec2()).with_normalize(false),
        VertexField::new("color".to_string(), 8, ElementType::Tuple(ScalarKind::U8, Dim::Four))
            .with_normalize(true),
    ];
    let format = build_bindings(&fields);
    assert_eq!(format.get(0).unwrap().normalize, false);
    assert_eq!(format.get(1).unwrap().normalize, true);
    assert_eq!(format.get(0).unwrap().location, BY_NAME);
    assert_eq!(format.get(1).unwrap().location, -1);
}

#[test]
fn get_past_the_end_is_none() {
    let fields = vec![VertexField::new("pos".to_string(), 0, vec2())];
    let format = build_bindings(&fields);
    assert!(format.get(1).is_none());
    assert!(format.get(usize::MAX).is_none());
}

#[test]
fn offsets_are_taken_as_given() {
    // Neither sorted nor packed: the builder does not reposition fields.
    let fields = vec![
        VertexField::new("b".to_string(), 64, vec3()),
        VertexField::new("a".to_string(), 4, vec2()),
    ];
    let format = build_bindings(&fields);
    assert_eq!(format.get(0).unwrap().byte_offset, 64);
    assert_eq!(format.get(0).unwrap().name, "b");
    assert_eq!(format.get(1).unwrap().byte_offset, 4);
}

#[test]
fn element_types_map_to_tags() {
    assert_eq!(ElementType::Scalar(ScalarKind::F32).type_tag(), TypeTag::Scalar(ScalarKind::F32));
    assert_eq!(
        ElementType::Array(ScalarKind::F32, Dim::Two).type_tag(),
        TypeTag::Vector(ScalarKind::F32, Dim::Two)
    );
    assert_eq!(
        ElementType::Tuple(ScalarKind::I16, Dim::Three).type_tag(),
        TypeTag::Vector(ScalarKind::I16, Dim::Three)
    );
    assert_eq!(
        ElementType::Matrix(ScalarKind::F64, Dim::Four, Dim::Two).type_tag(),
        TypeTag::Matrix(ScalarKind::F64, Dim::Four, Dim::Two)
    );
}

#[test]
fn field_descriptor_of_one_field() {
    let field = VertexField::new("normal".to_string(), 12, vec3()).with_location(2).with_normalize(true);
    assert_eq!(
        field.descriptor(),
        descriptor("normal", 12, 2, TypeTag::Vector(ScalarKind::F32, Dim::Three), true)
    );
}
