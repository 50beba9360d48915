use render_assets::{
    decode_accessor, AccessorDescriptor, BufferStore, BufferViewRef, ComponentType, DecodeError,
    DecodedValue, ElementType, SparseOverride,
};

fn store_with(bytes: Vec<u8>) -> BufferStore {
    let mut store = BufferStore::new();
    store.push_loaded(bytes);
    store
}

fn tight_accessor(
    component_type: ComponentType,
    element_type: ElementType,
    count: u32,
    normalized: bool,
    byte_length: u32,
) -> AccessorDescriptor {
    AccessorDescriptor {
        component_type,
        element_type,
        count,
        byte_offset: 0,
        byte_stride: 0,
        normalized,
        sparse: None,
        buffer_view: BufferViewRef { buffer_id: 0, byte_offset: 0, byte_length },
    }
}

fn f32_bytes(values: &[f32]) -> Vec<u8> {
    let mut bytes = Vec::new();
    for v in values {
        bytes.extend_from_slice(&v.to_le_bytes());
    }
    bytes
}

fn as_f32(v: &DecodedValue) -> f32 {
    match v {
        DecodedValue::Float32Bits(b) => f32::from_bits(*b),
        DecodedValue::Integer(n) => *n as f32,
        DecodedValue::Normalized(n, d) => *n as f32 / *d as f32,
    }
}

#[test]
fn stream_length_is_count_times_arity() {
    let store = store_with(vec![1, 2, 3, 4, 5, 6]);
    let desc = tight_accessor(ComponentType::UInt8, ElementType::Vec3, 2, false, 6);
    let stream = decode_accessor(&desc, &store).unwrap();
    assert_eq!(stream.len(), 6);

    let scalar = tight_accessor(ComponentType::UInt8, ElementType::Scalar, 5, false, 6);
    assert_eq!(decode_accessor(&scalar, &store).unwrap().len(), 5);

    let pairs = tight_accessor(ComponentType::UInt16, ElementType::Vec2, 1, false, 6);
    assert_eq!(decode_accessor(&pairs, &store).unwrap().len(), 2);
}

#[test]
fn zero_count_decodes_to_empty_stream() {
    let store = store_with(vec![]);
    let desc = tight_accessor(ComponentType::Float32, ElementType::Vec3, 0, false, 0);
    let stream = decode_accessor(&desc, &store).unwrap();
    assert!(stream.is_empty());
}

#[test]
fn float32_round_trip_is_exact() {
    let original = [1.0f32, -2.5, 0.25, 1.0e-7, 123456.78, -0.0];
    let store = store_with(f32_bytes(&original));
    let desc = tight_accessor(ComponentType::Float32, ElementType::Vec3, 2, false, 24);
    let stream = decode_accessor(&desc, &store).unwrap();
    assert_eq!(stream.len(), 6);
    for (got, expect) in stream.iter().zip(original.iter()) {
        assert_eq!(*got, DecodedValue::Float32Bits(expect.to_bits()));
        assert_eq!(as_f32(got).to_bits(), expect.to_bits());
    }
}

#[test]
fn normalized_u16_round_trip_within_tolerance() {
    let raw: [u16; 4] = [0, 1, 32768, 65535];
    let mut bytes = Vec::new();
    for v in &raw {
        bytes.extend_from_slice(&v.to_le_bytes());
    }
    let store = store_with(bytes);
    let desc = tight_accessor(ComponentType::UInt16, ElementType::Vec2, 2, true, 8);
    let stream = decode_accessor(&desc, &store).unwrap();
    for (got, r) in stream.iter().zip(raw.iter()) {
        assert_eq!(*got, DecodedValue::Normalized(*r as i64, 65535));
        let expect = *r as f32 / 65535.0;
        assert!((as_f32(got) - expect).abs() <= 1.0 / 65535.0);
    }
}

#[test]
fn stride_zero_and_explicit_tight_stride_agree() {
    let raw: [u16; 6] = [10, 20, 30, 40, 50, 60];
    let mut bytes = Vec::new();
    for v in &raw {
        bytes.extend_from_slice(&v.to_le_bytes());
    }
    let store = store_with(bytes);
    let tight = tight_accessor(ComponentType::UInt16, ElementType::Vec3, 2, false, 12);
    let mut explicit = tight.clone();
    explicit.byte_stride = 6;
    let a = decode_accessor(&tight, &store).unwrap();
    let b = decode_accessor(&explicit, &store).unwrap();
    assert_eq!(a, b);
}

#[test]
fn wide_stride_skips_padding() {
    // two u8 scalars, each followed by three bytes of padding
    let store = store_with(vec![7, 0xaa, 0xbb, 0xcc, 9, 0xdd, 0xee, 0xff]);
    let mut desc = tight_accessor(ComponentType::UInt8, ElementType::Scalar, 2, false, 8);
    desc.byte_stride = 4;
    let stream = decode_accessor(&desc, &store).unwrap();
    assert_eq!(stream, vec![DecodedValue::Integer(7), DecodedValue::Integer(9)]);
}

#[test]
fn normalization_hits_the_extremes() {
    let store = store_with(vec![0xff, 0xff, 0x00, 0x00]);
    let desc = tight_accessor(ComponentType::UInt16, ElementType::Scalar, 2, true, 4);
    let stream = decode_accessor(&desc, &store).unwrap();
    assert_eq!(stream[0], DecodedValue::Normalized(65535, 65535));
    assert_eq!(as_f32(&stream[0]), 1.0);
    assert_eq!(stream[1], DecodedValue::Normalized(0, 65535));
    assert_eq!(as_f32(&stream[1]), 0.0);

    // -128 clamps to the type minimum -127/127 == -1.0
    let store = store_with(vec![0x80, 0x81, 0x7f]);
    let desc = tight_accessor(ComponentType::Int8, ElementType::Vec3, 1, true, 3);
    let stream = decode_accessor(&desc, &store).unwrap();
    assert_eq!(stream[0], DecodedValue::Normalized(-127, 127));
    assert_eq!(as_f32(&stream[0]), -1.0);
    assert_eq!(stream[1], DecodedValue::Normalized(-127, 127));
    assert_eq!(stream[2], DecodedValue::Normalized(127, 127));
    assert_eq!(as_f32(&stream[2]), 1.0);
}

#[test]
fn signed_components_widen_without_normalization() {
    let store = store_with(vec![0x80, 0xff, 0x7f]);
    let desc = tight_accessor(ComponentType::Int8, ElementType::Vec3, 1, false, 3);
    let stream = decode_accessor(&desc, &store).unwrap();
    assert_eq!(
        stream,
        vec![
            DecodedValue::Integer(-128),
            DecodedValue::Integer(-1),
            DecodedValue::Integer(127)
        ]
    );

    let store = store_with(vec![0x00, 0x80, 0xff, 0xff]);
    let desc = tight_accessor(ComponentType::Int16, ElementType::Vec2, 1, false, 4);
    let stream = decode_accessor(&desc, &store).unwrap();
    assert_eq!(
        stream,
        vec![DecodedValue::Integer(-32768), DecodedValue::Integer(-1)]
    );
}

#[test]
fn little_endian_reads_span_all_bytes() {
    let store = store_with(vec![0x78, 0x56, 0x34, 0x12]);
    let desc = tight_accessor(ComponentType::UInt32, ElementType::Scalar, 1, false, 4);
    let stream = decode_accessor(&desc, &store).unwrap();
    assert_eq!(stream, vec![DecodedValue::Integer(0x12345678)]);
}

#[test]
fn sparse_override_touches_only_listed_elements() {
    // ten zero 3-vectors; the sparse substitution rewrites elements 3 and 7
    let base = vec![0u8; 120];
    let store = store_with(base);
    let replacement = f32_bytes(&[1.0, 2.0, 3.0, 4.0, 5.0, 6.0]);
    let mut desc = tight_accessor(ComponentType::Float32, ElementType::Vec3, 10, false, 120);
    desc.sparse = Some(SparseOverride { indices: vec![3, 7], values: replacement });
    let stream = decode_accessor(&desc, &store).unwrap();
    assert_eq!(stream.len(), 30);
    for element in 0..10 {
        for c in 0..3 {
            let got = &stream[element * 3 + c];
            let expect = match element {
                3 => [1.0f32, 2.0, 3.0][c],
                7 => [4.0f32, 5.0, 6.0][c],
                _ => 0.0,
            };
            assert_eq!(*got, DecodedValue::Float32Bits(expect.to_bits()));
            if element == 3 || element == 7 {
                assert!(!got.is_zero());
            } else {
                assert!(got.is_zero());
            }
        }
    }
}

#[test]
fn sparse_with_unordered_indices_is_invalid() {
    let store = store_with(vec![0u8; 16]);
    let mut desc = tight_accessor(ComponentType::UInt8, ElementType::Scalar, 16, false, 16);
    desc.sparse = Some(SparseOverride { indices: vec![5, 3], values: vec![1, 2] });
    assert_eq!(decode_accessor(&desc, &store), Err(DecodeError::InvalidAccessor));
}

#[test]
fn sparse_index_out_of_range_is_invalid() {
    let store = store_with(vec![0u8; 16]);
    let mut desc = tight_accessor(ComponentType::UInt8, ElementType::Scalar, 16, false, 16);
    desc.sparse = Some(SparseOverride { indices: vec![16], values: vec![1] });
    assert_eq!(decode_accessor(&desc, &store), Err(DecodeError::InvalidAccessor));
}

#[test]
fn sparse_with_short_values_is_invalid() {
    let store = store_with(vec![0u8; 16]);
    let mut desc = tight_accessor(ComponentType::UInt8, ElementType::Scalar, 16, false, 16);
    desc.sparse = Some(SparseOverride { indices: vec![1, 2, 3], values: vec![1, 2] });
    assert_eq!(decode_accessor(&desc, &store), Err(DecodeError::InvalidAccessor));
}

#[test]
fn range_past_view_end_is_invalid() {
    let store = store_with(vec![0u8; 8]);
    let desc = tight_accessor(ComponentType::UInt32, ElementType::Vec3, 1, false, 8);
    assert_eq!(decode_accessor(&desc, &store), Err(DecodeError::InvalidAccessor));
}

#[test]
fn view_past_buffer_end_is_invalid() {
    let store = store_with(vec![0u8; 4]);
    let mut desc = tight_accessor(ComponentType::UInt8, ElementType::Scalar, 1, false, 8);
    desc.buffer_view.byte_length = 8;
    assert_eq!(decode_accessor(&desc, &store), Err(DecodeError::InvalidAccessor));
}

#[test]
fn overlapping_stride_is_invalid() {
    let store = store_with(vec![0u8; 16]);
    let mut desc = tight_accessor(ComponentType::UInt8, ElementType::Vec3, 2, false, 16);
    desc.byte_stride = 2;
    assert_eq!(decode_accessor(&desc, &store), Err(DecodeError::InvalidAccessor));
}

#[test]
fn matrix_elements_are_unsupported() {
    let store = store_with(vec![0u8; 64]);
    let desc = tight_accessor(ComponentType::Float32, ElementType::Mat4, 1, false, 64);
    assert_eq!(decode_accessor(&desc, &store), Err(DecodeError::InvalidAccessor));
    let desc = tight_accessor(ComponentType::Float32, ElementType::Vec4, 1, false, 64);
    assert_eq!(decode_accessor(&desc, &store), Err(DecodeError::InvalidAccessor));
}

#[test]
fn unknown_buffer_id_is_reported() {
    let store = store_with(vec![0u8; 4]);
    let mut desc = tight_accessor(ComponentType::UInt8, ElementType::Scalar, 1, false, 1);
    desc.buffer_view.buffer_id = 5;
    assert_eq!(decode_accessor(&desc, &store), Err(DecodeError::BufferNotFound));
}

#[test]
fn unreadable_buffer_is_reported() {
    let mut store = BufferStore::new();
    store.push_unreadable();
    let desc = tight_accessor(ComponentType::UInt8, ElementType::Scalar, 1, false, 1);
    assert_eq!(decode_accessor(&desc, &store), Err(DecodeError::BufferReadError));
}

#[test]
fn accessor_offset_within_view_is_honored() {
    let store = store_with(vec![0xaa, 0xbb, 5, 6]);
    let mut desc = tight_accessor(ComponentType::UInt8, ElementType::Vec2, 1, false, 4);
    desc.byte_offset = 2;
    let stream = decode_accessor(&desc, &store).unwrap();
    assert_eq!(stream, vec![DecodedValue::Integer(5), DecodedValue::Integer(6)]);
}

#[test]
fn view_offset_within_buffer_is_honored() {
    let store = store_with(vec![0xaa, 0xbb, 0xcc, 5, 6, 7]);
    let mut desc = tight_accessor(ComponentType::UInt8, ElementType::Vec3, 1, false, 3);
    desc.buffer_view.byte_offset = 3;
    let stream = decode_accessor(&desc, &store).unwrap();
    assert_eq!(
        stream,
        vec![
            DecodedValue::Integer(5),
            DecodedValue::Integer(6),
            DecodedValue::Integer(7)
        ]
    );
}
