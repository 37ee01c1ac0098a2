use anim3d::filer::{read_model, u32_to_u8, u8_to3_u32, u8_to_u32, write_model, ModelError, ObjData};

#[test]
fn reads_big_endian_u32() {
    assert_eq!(u8_to_u32(&[0x12, 0x34, 0x56, 0x78]), 0x1234_5678);
    assert_eq!(u8_to_u32(&[0xff, 0xff, 0xff, 0xff, 0x01]), u32::MAX);
    assert_eq!(u8_to_u32(&[0, 0, 1, 0]), 256);
}

#[test]
fn reads_three_big_endian_u32() {
    let bytes = [0, 0, 0, 1, 0, 0, 0, 2, 0x80, 0, 0, 3];
    assert_eq!(u8_to3_u32(&bytes), (1, 2, 0x8000_0003));
}

#[test]
fn splits_u32_into_bytes() {
    assert_eq!(u32_to_u8(0x1234_5678), [0x12, 0x34, 0x56, 0x78]);
    assert_eq!(u32_to_u8(1.0f32.to_bits()), [0x3f, 0x80, 0, 0]);
    assert_eq!(u32_to_u8(0), [0, 0, 0, 0]);
}

#[test]
fn bytes_roundtrip() {
    for x in [0u32, 1, 255, 256, 0xdead_beef, u32::MAX, (-2.5f32).to_bits()] {
        assert_eq!(u8_to_u32(&u32_to_u8(x)), x);
    }
}

fn sample_model() -> ObjData {
    ObjData {
        pos: (1.0f32.to_bits(), 2.0f32.to_bits(), 3.0f32.to_bits()),
        points: vec![(1, 2, 3), (4, 5, 6), (0x7fff_ffff, 0, 9)],
        refs: vec![(0, 1, 2), (2, 1, 0)],
    }
}

#[test]
fn writes_model_layout() {
    let bytes = write_model(&sample_model());
    assert_eq!(bytes.len(), 4 + 12 * 4 + 12 * 2);
    assert_eq!(&bytes[0..4], &[0, 0, 0, 4]);
    assert_eq!(&bytes[4..8], &[0x3f, 0x80, 0, 0]);
    assert_eq!(&bytes[16..20], &[0, 0, 0, 1]);
    assert_eq!(&bytes[52..64], &[0, 0, 0, 0, 0, 0, 0, 1, 0, 0, 0, 2]);
}

#[test]
fn model_roundtrip() {
    let m = sample_model();
    assert_eq!(read_model(&write_model(&m)), Ok(m));
    let empty = ObjData { pos: (7, 8, 9), points: vec![], refs: vec![] };
    assert_eq!(read_model(&write_model(&empty)), Ok(empty));
}

#[test]
fn model_without_entries_sits_at_origin() {
    let bytes = [0, 0, 0, 0, 0, 0, 0, 5, 0, 0, 0, 6, 0, 0, 0, 7];
    let m = read_model(&bytes).unwrap();
    assert_eq!(m.pos, (0, 0, 0));
    assert!(m.points.is_empty());
    assert_eq!(m.refs, vec![(5, 6, 7)]);
}

#[test]
fn model_errors() {
    assert_eq!(read_model(&[0, 0, 1]), Err(ModelError::MissingCount));
    assert_eq!(read_model(&[]), Err(ModelError::MissingCount));
    // two entries announced, one given
    let mut one = vec![0, 0, 0, 2];
    one.extend_from_slice(&[0; 12]);
    assert_eq!(read_model(&one), Err(ModelError::MissingPoints));
    assert_eq!(read_model(&[0xff, 0xff, 0xff, 0xff]), Err(ModelError::MissingPoints));
    let mut partial = vec![0, 0, 0, 1];
    partial.extend_from_slice(&[0; 12]);
    partial.extend_from_slice(&[0; 5]);
    assert_eq!(read_model(&partial), Err(ModelError::PartialPolygon));
}

#[test]
fn model_truncates_polygon_indices_to_u32() {
    let m = ObjData { pos: (0, 0, 0), points: vec![], refs: vec![(1usize << 32 | 5, 0, 1)] };
    let back = read_model(&write_model(&m)).unwrap();
    assert_eq!(back.refs, vec![(5, 0, 1)]);
}
