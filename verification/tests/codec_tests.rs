use gltf_core::codec::{
    component_as_integer, decode_component, decode_element, element_byte_span, encode_component,
    encode_element, normalized_component, padded_element_byte_size,
};
use gltf_core::component::{ComponentEncoding, ElementShape, IndexType};

#[test]
fn index_type_sizes() {
    assert_eq!(IndexType::U8.size(), 1);
    assert_eq!(IndexType::U16.size(), 2);
    assert_eq!(IndexType::U32.size(), 4);
}

#[test]
fn component_byte_sizes() {
    assert_eq!(ComponentEncoding::Byte.component_byte_size(), 1);
    assert_eq!(ComponentEncoding::UnsignedByte.component_byte_size(), 1);
    assert_eq!(ComponentEncoding::Short.component_byte_size(), 2);
    assert_eq!(ComponentEncoding::UnsignedShort.component_byte_size(), 2);
    assert_eq!(ComponentEncoding::UnsignedInt.component_byte_size(), 4);
    assert_eq!(ComponentEncoding::Float.component_byte_size(), 4);
}

#[test]
fn wire_codes_map_both_ways() {
    for (code, enc) in [
        (5120u32, ComponentEncoding::Byte),
        (5121, ComponentEncoding::UnsignedByte),
        (5122, ComponentEncoding::Short),
        (5123, ComponentEncoding::UnsignedShort),
        (5125, ComponentEncoding::UnsignedInt),
        (5126, ComponentEncoding::Float),
    ] {
        assert_eq!(ComponentEncoding::from_wire_code(code), Some(enc));
        assert_eq!(enc.wire_code(), code);
    }
    assert_eq!(ComponentEncoding::from_wire_code(5124), None);
    assert_eq!(ComponentEncoding::from_wire_code(0), None);
    assert_eq!(IndexType::from_wire_code(5121), Some(IndexType::U8));
    assert_eq!(IndexType::from_wire_code(5123), Some(IndexType::U16));
    assert_eq!(IndexType::from_wire_code(5125), Some(IndexType::U32));
    // signed and float codes are not index encodings
    assert_eq!(IndexType::from_wire_code(5120), None);
    assert_eq!(IndexType::from_wire_code(5126), None);
}

#[test]
fn component_counts() {
    assert_eq!(ElementShape::Scalar.component_count(), 1);
    assert_eq!(ElementShape::Vec2.component_count(), 2);
    assert_eq!(ElementShape::Vec3.component_count(), 3);
    assert_eq!(ElementShape::Vec4.component_count(), 4);
    assert_eq!(ElementShape::Mat2.component_count(), 4);
    assert_eq!(ElementShape::Mat3.component_count(), 9);
    assert_eq!(ElementShape::Mat4.component_count(), 16);
}

#[test]
fn padded_sizes_honor_matrix_column_alignment() {
    // one-byte components: each matrix column pads to a 4-byte boundary
    assert_eq!(
        padded_element_byte_size(ComponentEncoding::UnsignedByte, ElementShape::Mat2),
        8
    );
    assert_eq!(
        padded_element_byte_size(ComponentEncoding::UnsignedByte, ElementShape::Mat3),
        12
    );
    assert_eq!(
        padded_element_byte_size(ComponentEncoding::Short, ElementShape::Mat3),
        24
    );
    // four-byte components need no padding
    assert_eq!(
        padded_element_byte_size(ComponentEncoding::Float, ElementShape::Mat4),
        64
    );
    // non-matrix shapes are tightly packed
    assert_eq!(
        padded_element_byte_size(ComponentEncoding::Float, ElementShape::Vec3),
        12
    );
    assert_eq!(
        padded_element_byte_size(ComponentEncoding::UnsignedByte, ElementShape::Vec3),
        3
    );
}

#[test]
fn element_span_excludes_trailing_padding() {
    // Mat3 of bytes: columns at 0, 4, 8; last data byte at 10
    assert_eq!(
        element_byte_span(ComponentEncoding::UnsignedByte, ElementShape::Mat3),
        11
    );
    assert_eq!(element_byte_span(ComponentEncoding::Float, ElementShape::Vec3), 12);
}

#[test]
fn component_round_trip_exact_bytes() {
    let bytes: Vec<u8> = vec![0x78, 0x56, 0x34, 0x12];
    let v = decode_component(&bytes, 0, ComponentEncoding::UnsignedInt);
    assert_eq!(v, 0x1234_5678);
    assert_eq!(encode_component(v, ComponentEncoding::UnsignedInt), bytes);

    let two: Vec<u8> = vec![0x01, 0x00];
    assert_eq!(decode_component(&two, 0, ComponentEncoding::UnsignedShort), 1);
    assert_eq!(encode_component(1, ComponentEncoding::UnsignedShort), two);
}

#[test]
fn element_round_trip_with_matrix_padding() {
    // a 2x2 matrix of unsigned bytes: data at 0,1 and 4,5, padding at 2,3,6,7
    let bytes: Vec<u8> = vec![1, 2, 0, 0, 3, 4, 0, 0];
    let elem = decode_element(&bytes, 0, ComponentEncoding::UnsignedByte, ElementShape::Mat2);
    assert_eq!(elem, vec![1, 2, 3, 4]);
    let back = encode_element(&elem, ComponentEncoding::UnsignedByte, ElementShape::Mat2);
    assert_eq!(back, bytes);
}

#[test]
fn signed_interpretation_is_twos_complement() {
    assert_eq!(component_as_integer(ComponentEncoding::Byte, 0xFF), -1);
    assert_eq!(component_as_integer(ComponentEncoding::Byte, 0x80), -128);
    assert_eq!(component_as_integer(ComponentEncoding::Byte, 0x7F), 127);
    assert_eq!(component_as_integer(ComponentEncoding::Short, 0xFFFF), -1);
    assert_eq!(component_as_integer(ComponentEncoding::Short, 0x8000), -32768);
    assert_eq!(component_as_integer(ComponentEncoding::UnsignedInt, 0xFFFF_FFFF), 4294967295);
}

#[test]
fn normalized_unsigned_byte_scalars() {
    // raw 255 scales to exactly 1.0
    let full = normalized_component(ComponentEncoding::UnsignedByte, 255);
    assert_eq!(full.numerator, 255);
    assert_eq!(full.denominator, 255);
    assert_eq!(full.numerator as f32 / full.denominator as f32, 1.0);
    // raw 128 scales to about 0.50196
    let half = normalized_component(ComponentEncoding::UnsignedByte, 128);
    let scaled = half.numerator as f32 / half.denominator as f32;
    assert!((scaled - 0.50196).abs() < 1e-4);
}

#[test]
fn normalized_signed_byte_clamps_to_minus_one() {
    // raw -128 (bit pattern 0x80) clamps to exactly -1.0
    let min = normalized_component(ComponentEncoding::Byte, 0x80);
    assert_eq!(min.numerator, -127);
    assert_eq!(min.denominator, 127);
    assert_eq!(min.numerator as f32 / min.denominator as f32, -1.0);
    let max = normalized_component(ComponentEncoding::Byte, 0x7F);
    assert_eq!(max.numerator as f32 / max.denominator as f32, 1.0);
    // every signed normalized scalar stays within [-1, 1]
    for raw in 0..=255u32 {
        let n = normalized_component(ComponentEncoding::Byte, raw);
        let scaled = n.numerator as f32 / n.denominator as f32;
        assert!((-1.0..=1.0).contains(&scaled));
    }
    // every unsigned normalized scalar stays within [0, 1]
    for raw in 0..=255u32 {
        let n = normalized_component(ComponentEncoding::UnsignedByte, raw);
        let scaled = n.numerator as f32 / n.denominator as f32;
        assert!((0.0..=1.0).contains(&scaled));
    }
}

#[test]
fn float_components_pass_through_as_bits() {
    let bytes = 1.5f32.to_le_bytes();
    let v = decode_component(&bytes, 0, ComponentEncoding::Float);
    assert_eq!(f32::from_bits(v), 1.5);
}
