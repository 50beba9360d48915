use render_assets::{
    extract_primitive, AccessorDescriptor, BufferStore, BufferViewRef, ComponentType, DecodeError,
    DecodedValue, ElementType, PrimitiveAccessors,
};

fn f32_bytes(values: &[f32]) -> Vec<u8> {
    let mut bytes = Vec::new();
    for v in values {
        bytes.extend_from_slice(&v.to_le_bytes());
    }
    bytes
}

fn accessor_in_buffer(
    buffer_id: u32,
    component_type: ComponentType,
    element_type: ElementType,
    count: u32,
    byte_length: u32,
) -> AccessorDescriptor {
    AccessorDescriptor {
        component_type,
        element_type,
        count,
        byte_offset: 0,
        byte_stride: 0,
        normalized: false,
        sparse: None,
        buffer_view: BufferViewRef { buffer_id, byte_offset: 0, byte_length },
    }
}

fn empty_primitive() -> PrimitiveAccessors {
    PrimitiveAccessors { position: None, normal: None, texcoord: None, indices: None }
}

#[test]
fn missing_position_is_reported() {
    let store = BufferStore::new();
    let prim = empty_primitive();
    assert!(matches!(
        extract_primitive(&prim, &store),
        Err(DecodeError::MissingRequiredAttribute)
    ));
}

#[test]
fn vertex_count_mismatch_is_reported() {
    let mut store = BufferStore::new();
    store.push_loaded(vec![0u8; 120]);
    store.push_loaded(vec![0u8; 96]);
    let mut prim = empty_primitive();
    prim.position = Some(accessor_in_buffer(0, ComponentType::Float32, ElementType::Vec3, 10, 120));
    prim.normal = Some(accessor_in_buffer(1, ComponentType::Float32, ElementType::Vec3, 8, 96));
    assert!(matches!(
        extract_primitive(&prim, &store),
        Err(DecodeError::VertexCountMismatch)
    ));
}

#[test]
fn uv_count_mismatch_is_reported() {
    let mut store = BufferStore::new();
    store.push_loaded(vec![0u8; 24]);
    store.push_loaded(vec![0u8; 8]);
    let mut prim = empty_primitive();
    prim.position = Some(accessor_in_buffer(0, ComponentType::Float32, ElementType::Vec3, 2, 24));
    prim.texcoord = Some(accessor_in_buffer(1, ComponentType::Float32, ElementType::Vec2, 1, 8));
    assert!(matches!(
        extract_primitive(&prim, &store),
        Err(DecodeError::VertexCountMismatch)
    ));
}

#[test]
fn position_with_wrong_arity_is_a_shape_error() {
    let mut store = BufferStore::new();
    store.push_loaded(vec![0u8; 8]);
    let mut prim = empty_primitive();
    prim.position = Some(accessor_in_buffer(0, ComponentType::Float32, ElementType::Scalar, 2, 8));
    assert!(matches!(extract_primitive(&prim, &store), Err(DecodeError::ShapeMismatch)));
}

#[test]
fn optional_attributes_stay_absent() {
    let mut store = BufferStore::new();
    store.push_loaded(f32_bytes(&[1.0, 2.0, 3.0]));
    let mut prim = empty_primitive();
    prim.position = Some(accessor_in_buffer(0, ComponentType::Float32, ElementType::Vec3, 1, 12));
    let bundle = extract_primitive(&prim, &store).unwrap();
    assert_eq!(bundle.positions.len(), 1);
    assert!(bundle.normals.is_none());
    assert!(bundle.uvs.is_none());
    assert!(bundle.indices.is_none());
}

#[test]
fn full_primitive_assembles_every_attribute() {
    let positions = [0.0f32, 0.0, 0.0, 1.0, 0.0, 0.0, 0.0, 1.0, 0.0];
    let normals = [0.0f32, 0.0, 1.0, 0.0, 0.0, 1.0, 0.0, 0.0, 1.0];
    let uvs = [0.0f32, 0.0, 1.0, 0.0, 0.0, 1.0];
    let index_bytes: Vec<u8> = [0u16, 1, 2].iter().flat_map(|v| v.to_le_bytes()).collect();

    let mut store = BufferStore::new();
    store.push_loaded(f32_bytes(&positions));
    store.push_loaded(f32_bytes(&normals));
    store.push_loaded(f32_bytes(&uvs));
    store.push_loaded(index_bytes);

    let prim = PrimitiveAccessors {
        position: Some(accessor_in_buffer(0, ComponentType::Float32, ElementType::Vec3, 3, 36)),
        normal: Some(accessor_in_buffer(1, ComponentType::Float32, ElementType::Vec3, 3, 36)),
        texcoord: Some(accessor_in_buffer(2, ComponentType::Float32, ElementType::Vec2, 3, 24)),
        indices: Some(accessor_in_buffer(3, ComponentType::UInt16, ElementType::Scalar, 3, 6)),
    };
    let bundle = extract_primitive(&prim, &store).unwrap();

    assert_eq!(bundle.positions.len(), 3);
    assert_eq!(bundle.positions[1].x, DecodedValue::Float32Bits(1.0f32.to_bits()));
    assert_eq!(bundle.positions[1].y, DecodedValue::Float32Bits(0.0f32.to_bits()));
    assert_eq!(bundle.positions[2].y, DecodedValue::Float32Bits(1.0f32.to_bits()));

    let normals_got = bundle.normals.unwrap();
    assert_eq!(normals_got.len(), 3);
    for n in &normals_got {
        assert_eq!(n.z, DecodedValue::Float32Bits(1.0f32.to_bits()));
    }

    let uvs_got = bundle.uvs.unwrap();
    assert_eq!(uvs_got.len(), 3);
    assert_eq!(uvs_got[1].x, DecodedValue::Float32Bits(1.0f32.to_bits()));
    assert_eq!(uvs_got[2].y, DecodedValue::Float32Bits(1.0f32.to_bits()));

    assert_eq!(bundle.indices.unwrap(), vec![0, 1, 2]);
}

#[test]
fn bad_index_accessor_fails_the_primitive() {
    let mut store = BufferStore::new();
    store.push_loaded(f32_bytes(&[0.0, 0.0, 0.0]));
    store.push_loaded(vec![0xff]);
    let mut prim = empty_primitive();
    prim.position = Some(accessor_in_buffer(0, ComponentType::Float32, ElementType::Vec3, 1, 12));
    prim.indices = Some(accessor_in_buffer(1, ComponentType::Int8, ElementType::Scalar, 1, 1));
    assert!(matches!(extract_primitive(&prim, &store), Err(DecodeError::IndexOverflow)));
}

#[test]
fn position_decode_error_wins_over_later_stages() {
    let mut store = BufferStore::new();
    store.push_unreadable();
    let mut prim = empty_primitive();
    prim.position = Some(accessor_in_buffer(0, ComponentType::Float32, ElementType::Vec3, 1, 12));
    assert!(matches!(extract_primitive(&prim, &store), Err(DecodeError::BufferReadError)));
}
