use gltf_core::accessor::Accessor;
use gltf_core::buffer::{resolve, Buffer, BufferView};
use gltf_core::component::{ComponentEncoding, ElementShape, IndexType};
use gltf_core::error::Error;
use gltf_core::read::{
    baseline_element, decode_sparse, dense_element, read_accessor, read_all, read_element,
};
use gltf_core::sparse::{Indices, Sparse, Values};

fn float_bytes(values: &[f32]) -> Vec<u8> {
    let mut bytes = Vec::new();
    for v in values {
        bytes.extend_from_slice(&v.to_le_bytes());
    }
    bytes
}

fn view_over(len: u32) -> BufferView {
    BufferView { buffer: 0, byte_offset: 0, byte_length: len, byte_stride: None }
}

fn vec3_float_accessor(count: u32, view: Option<BufferView>) -> Accessor {
    Accessor {
        view,
        byte_offset: 0,
        component_encoding: ComponentEncoding::Float,
        element_shape: ElementShape::Vec3,
        normalized: false,
        count,
        sparse: None,
    }
}

fn as_floats(element: &[u32]) -> Vec<f32> {
    element.iter().map(|&bits| f32::from_bits(bits)).collect()
}

#[test]
fn dense_vec3_float_sequence() {
    let data = float_bytes(&[
        1.0, 0.0, 0.0, 0.0, 1.0, 0.0, 0.0, 0.0, 1.0, 1.0, 1.0, 1.0,
    ]);
    assert_eq!(data.len(), 48);
    let acc = vec3_float_accessor(4, Some(view_over(48)));
    let window = resolve(acc.view.as_ref().unwrap(), Some(&data)).unwrap();
    let out = read_all(&acc, Some(window), None).unwrap();
    let floats: Vec<Vec<f32>> = out.iter().map(|e| as_floats(e)).collect();
    assert_eq!(
        floats,
        vec![
            vec![1.0, 0.0, 0.0],
            vec![0.0, 1.0, 0.0],
            vec![0.0, 0.0, 1.0],
            vec![1.0, 1.0, 1.0],
        ]
    );
}

#[test]
fn sparse_overlay_over_zero_baseline() {
    // no base view: the baseline is zero-filled, the overlay patches 1 and 3
    let index_bytes: Vec<u8> = vec![1, 3];
    let value_bytes = float_bytes(&[1.0, 0.0, 0.0, 0.0, 1.0, 0.0]);
    let mut acc = vec3_float_accessor(5, None);
    acc.sparse = Some(Sparse {
        count: 2,
        indices: Indices {
            view: view_over(2),
            byte_offset: 0,
            index_type: IndexType::U8,
        },
        values: Values { view: view_over(24), byte_offset: 0 },
    });
    let overlay = decode_sparse(&acc, &index_bytes, &value_bytes).unwrap();
    let out = read_all(&acc, None, Some(&overlay)).unwrap();
    let floats: Vec<Vec<f32>> = out.iter().map(|e| as_floats(e)).collect();
    assert_eq!(
        floats,
        vec![
            vec![0.0, 0.0, 0.0],
            vec![1.0, 0.0, 0.0],
            vec![0.0, 0.0, 0.0],
            vec![0.0, 1.0, 0.0],
            vec![0.0, 0.0, 0.0],
        ]
    );
}

#[test]
fn sparse_overlay_patches_dense_baseline() {
    let data = float_bytes(&[9.0, 9.0, 9.0, 9.0]);
    let index_bytes: Vec<u8> = vec![2];
    let value_bytes = float_bytes(&[5.0]);
    let mut acc = Accessor {
        view: Some(view_over(16)),
        byte_offset: 0,
        component_encoding: ComponentEncoding::Float,
        element_shape: ElementShape::Scalar,
        normalized: false,
        count: 4,
        sparse: None,
    };
    acc.sparse = Some(Sparse {
        count: 1,
        indices: Indices {
            view: view_over(1),
            byte_offset: 0,
            index_type: IndexType::U8,
        },
        values: Values { view: view_over(4), byte_offset: 0 },
    });
    let overlay = decode_sparse(&acc, &index_bytes, &value_bytes).unwrap();
    let out = read_all(&acc, Some(&data), Some(&overlay)).unwrap();
    let floats: Vec<f32> = out.iter().map(|e| f32::from_bits(e[0])).collect();
    assert_eq!(floats, vec![9.0, 9.0, 5.0, 9.0]);
    // per-element reads agree with the whole pass
    for i in 0..4 {
        let e = read_element(&acc, Some(&data), Some(&overlay), i).unwrap();
        assert_eq!(e, out[i as usize]);
    }
}

#[test]
fn sparse_indices_decode_little_endian_unsigned_short() {
    let index_bytes: Vec<u8> = vec![0x01, 0x00];
    let value_bytes = float_bytes(&[7.0]);
    let mut acc = vec3_float_accessor(5, None);
    acc.element_shape = ElementShape::Scalar;
    acc.sparse = Some(Sparse {
        count: 1,
        indices: Indices {
            view: view_over(2),
            byte_offset: 0,
            index_type: IndexType::U16,
        },
        values: Values { view: view_over(4), byte_offset: 0 },
    });
    let overlay = decode_sparse(&acc, &index_bytes, &value_bytes).unwrap();
    assert_eq!(overlay.indices, vec![1]);
}

#[test]
fn bounds_failure_on_truncated_view() {
    // the view supplies 40 bytes, but 4 VEC3 floats need 48
    let data = vec![0u8; 40];
    let acc = vec3_float_accessor(4, Some(view_over(40)));
    let window = resolve(acc.view.as_ref().unwrap(), Some(&data)).unwrap();
    // the first three elements still decode individually
    for i in 0..3 {
        assert!(dense_element(&acc, window, i).is_ok());
    }
    // the fourth element's read fails, without a panic or an overrun
    assert_eq!(dense_element(&acc, window, 3), Err(Error::OutOfBounds));
    assert_eq!(read_all(&acc, Some(window), None), Err(Error::OutOfBounds));
}

#[test]
fn resolve_distinguishes_unavailable_from_bounds() {
    let view = BufferView { buffer: 0, byte_offset: 4, byte_length: 8, byte_stride: None };
    assert_eq!(resolve(&view, None), Err(Error::Unavailable));
    let short = vec![0u8; 5];
    assert_eq!(resolve(&view, Some(&short)), Err(Error::OutOfBounds));
    let data: Vec<u8> = (0..16).collect();
    let window = resolve(&view, Some(&data)).unwrap();
    assert_eq!(window, &data[4..12]);
}

#[test]
fn stride_defaulting_matches_explicit_padded_stride() {
    let data = float_bytes(&[1.0, 2.0, 3.0, 4.0, 5.0, 6.0]);
    let implicit = vec3_float_accessor(2, Some(view_over(24)));
    let mut explicit = implicit;
    explicit.view = Some(BufferView { byte_stride: Some(12), ..view_over(24) });
    let a = read_all(&implicit, Some(&data), None).unwrap();
    let b = read_all(&explicit, Some(&data), None).unwrap();
    assert_eq!(a, b);
    assert_eq!(implicit.stride(), 12);
    assert_eq!(explicit.stride(), 12);
}

#[test]
fn interleaved_stride_skips_gap_bytes() {
    // two scalars of four bytes each, eight bytes apart
    let data = float_bytes(&[1.0, -1.0, 2.0, -2.0]);
    let acc = Accessor {
        view: Some(BufferView {
            buffer: 0,
            byte_offset: 0,
            byte_length: 16,
            byte_stride: Some(8),
        }),
        byte_offset: 0,
        component_encoding: ComponentEncoding::Float,
        element_shape: ElementShape::Scalar,
        normalized: false,
        count: 2,
        sparse: None,
    };
    let out = read_all(&acc, Some(&data), None).unwrap();
    let floats: Vec<f32> = out.iter().map(|e| f32::from_bits(e[0])).collect();
    assert_eq!(floats, vec![1.0, 2.0]);
}

#[test]
fn accessor_well_formedness_rejects_short_stride() {
    let mut acc = vec3_float_accessor(2, Some(view_over(24)));
    assert!(acc.well_formed());
    acc.view = Some(BufferView { byte_stride: Some(8), ..view_over(24) });
    assert!(!acc.well_formed());
    acc.view = Some(BufferView { byte_stride: Some(12), ..view_over(24) });
    assert!(acc.well_formed());
}

#[test]
fn format_mismatch_fails_fast() {
    let acc = vec3_float_accessor(2, Some(view_over(24)));
    assert!(acc
        .check_format(ComponentEncoding::Float, ElementShape::Vec3, false)
        .is_ok());
    assert_eq!(
        acc.check_format(ComponentEncoding::Float, ElementShape::Vec4, false),
        Err(Error::Mismatch)
    );
    assert_eq!(
        acc.check_format(ComponentEncoding::UnsignedByte, ElementShape::Vec3, false),
        Err(Error::Mismatch)
    );
    assert_eq!(
        acc.check_format(ComponentEncoding::Float, ElementShape::Vec3, true),
        Err(Error::Mismatch)
    );
}

#[test]
fn malformed_sparse_rejected_before_any_element() {
    let value_bytes = float_bytes(&[1.0, 2.0]);
    let make = |count: u32, index_view_len: u32| {
        let mut acc = vec3_float_accessor(5, None);
        acc.element_shape = ElementShape::Scalar;
        acc.sparse = Some(Sparse {
            count,
            indices: Indices {
                view: view_over(index_view_len),
                byte_offset: 0,
                index_type: IndexType::U8,
            },
            values: Values { view: view_over(8), byte_offset: 0 },
        });
        acc
    };
    // indices not strictly increasing
    let acc = make(2, 2);
    assert_eq!(decode_sparse(&acc, &[3u8, 1], &value_bytes).unwrap_err(), Error::MalformedSparse);
    // duplicate indices count as non-increasing
    assert_eq!(decode_sparse(&acc, &[2u8, 2], &value_bytes).unwrap_err(), Error::MalformedSparse);
    // an index at or past the accessor's count
    assert_eq!(decode_sparse(&acc, &[1u8, 5], &value_bytes).unwrap_err(), Error::MalformedSparse);
    // more overrides than elements
    let too_many = make(6, 6);
    assert_eq!(decode_sparse(&too_many, &[0u8, 1, 2, 3, 4, 5], &value_bytes).unwrap_err(), Error::MalformedSparse);
    // a truncated index array is a bounds error, not a sparse error
    assert_eq!(decode_sparse(&acc, &[1u8], &value_bytes).unwrap_err(), Error::OutOfBounds);
    // a truncated value array likewise
    assert_eq!(decode_sparse(&acc, &[1u8, 2], &value_bytes[0..4]).unwrap_err(), Error::OutOfBounds);
}

#[test]
fn zero_baseline_without_view() {
    let acc = Accessor {
        view: None,
        byte_offset: 0,
        component_encoding: ComponentEncoding::UnsignedShort,
        element_shape: ElementShape::Mat2,
        normalized: false,
        count: 3,
        sparse: None,
    };
    for i in 0..3 {
        let e = baseline_element(&acc, None, i).unwrap();
        assert_eq!(e, vec![0, 0, 0, 0]);
    }
    let out = read_all(&acc, None, None).unwrap();
    assert_eq!(out.len(), 3);
}

#[test]
fn accessor_byte_offset_shifts_reads() {
    let data = float_bytes(&[1.0, 2.0, 3.0]);
    let acc = Accessor {
        view: Some(view_over(12)),
        byte_offset: 4,
        component_encoding: ComponentEncoding::Float,
        element_shape: ElementShape::Scalar,
        normalized: false,
        count: 2,
        sparse: None,
    };
    let out = read_all(&acc, Some(&data), None).unwrap();
    let floats: Vec<f32> = out.iter().map(|e| f32::from_bits(e[0])).collect();
    assert_eq!(floats, vec![2.0, 3.0]);
}

#[test]
fn full_read_resolves_views_and_overlays() {
    // base data lives at an offset inside a larger buffer
    let mut buffer = vec![0u8; 4];
    buffer.extend_from_slice(&float_bytes(&[1.0, 2.0, 3.0]));
    let index_buffer: Vec<u8> = vec![0xAA, 2]; // index array starts past one stray byte
    let value_buffer = float_bytes(&[8.0]);
    let acc = Accessor {
        view: Some(BufferView { buffer: 0, byte_offset: 4, byte_length: 12, byte_stride: None }),
        byte_offset: 0,
        component_encoding: ComponentEncoding::Float,
        element_shape: ElementShape::Scalar,
        normalized: false,
        count: 3,
        sparse: Some(Sparse {
            count: 1,
            indices: Indices {
                view: BufferView { buffer: 1, byte_offset: 1, byte_length: 1, byte_stride: None },
                byte_offset: 0,
                index_type: IndexType::U8,
            },
            values: Values { view: view_over(4), byte_offset: 0 },
        }),
    };
    let out = read_accessor(&acc, Some(&buffer), Some(&index_buffer), Some(&value_buffer)).unwrap();
    let floats: Vec<f32> = out.iter().map(|e| f32::from_bits(e[0])).collect();
    assert_eq!(floats, vec![1.0, 2.0, 8.0]);
    // a missing base buffer is reported as unavailable, not as a bounds error
    assert_eq!(
        read_accessor(&acc, None, Some(&index_buffer), Some(&value_buffer)).unwrap_err(),
        Error::Unavailable
    );
    // a base buffer too short for the declared view is a bounds error
    let short = vec![0u8; 8];
    assert_eq!(
        read_accessor(&acc, Some(&short), Some(&index_buffer), Some(&value_buffer)).unwrap_err(),
        Error::OutOfBounds
    );
}

#[test]
fn view_fits_its_declared_buffer() {
    let buffer = Buffer { index: 2, byte_length: 16 };
    let view = BufferView { buffer: 2, byte_offset: 4, byte_length: 12, byte_stride: None };
    assert!(view.fits_buffer(&buffer));
    let too_long = BufferView { buffer: 2, byte_offset: 8, byte_length: 12, byte_stride: None };
    assert!(!too_long.fits_buffer(&buffer));
    let other_buffer = BufferView { buffer: 3, byte_offset: 0, byte_length: 4, byte_stride: None };
    assert!(!other_buffer.fits_buffer(&buffer));
}

#[test]
fn sparse_descriptor_getters() {
    let sp = Sparse {
        count: 2,
        indices: Indices {
            view: view_over(4),
            byte_offset: 8,
            index_type: IndexType::U16,
        },
        values: Values { view: view_over(24), byte_offset: 16 },
    };
    assert_eq!(sp.count(), 2);
    assert_eq!(sp.indices().offset(), 8);
    assert_eq!(sp.indices().index_type(), IndexType::U16);
    assert_eq!(sp.indices().view().byte_length, 4);
    assert_eq!(sp.values().offset(), 16);
    assert_eq!(sp.values().view().byte_length, 24);
}
