use bebytes::codec::BeBytesError;
use bebytes::schema::{CountSpec, FieldKind, PrimitiveType, Schema, SizeSpec};
use bebytes::size_expr::FieldPath;
use bebytes::value::Value;

fn p(t: PrimitiveType) -> FieldKind {
    FieldKind::Primitive(t)
}

fn num(x: u128) -> Value {
    Value::Num(x)
}

fn st(fields: Vec<Value>) -> Value {
    Value::Struct(fields)
}

fn bytes_v(b: &[u8]) -> Value {
    Value::Bytes(b.to_vec())
}

fn segs(s: &[&[u8]]) -> Value {
    Value::Segments(s.iter().map(|x| x.to_vec()).collect())
}

fn field(v: &Value, i: usize) -> &Value {
    match v {
        Value::Struct(fs) => &fs[i],
        _ => panic!("not a struct"),
    }
}

fn from_field(i: usize) -> CountSpec {
    CountSpec::FromField(FieldPath { segments: vec![i] })
}

fn coap_message() -> Schema {
    Schema {
        fields: vec![
            p(PrimitiveType::U8),
            p(PrimitiveType::U8),
            FieldKind::Bytes(SizeSpec::UntilMarker(0xFF)),
            FieldKind::Bytes(SizeSpec::AfterMarker(0xFF)),
        ],
    }
}

#[test]
fn test_until_marker_field() {
    let s = coap_message();
    let msg = || st(vec![num(0x45), num(4), bytes_v(&[0x11, 0x22, 0x33]), bytes_v(&[0xAA, 0xBB, 0xCC])]);
    let bytes = s.to_be_bytes(&msg());
    assert_eq!(bytes, vec![0x45, 4, 0x11, 0x22, 0x33, 0xFF, 0xFF, 0xAA, 0xBB, 0xCC]);
    let (parsed, consumed) = s.try_from_be_bytes(&bytes).unwrap();
    assert_eq!(consumed, 10);
    assert_eq!(parsed, msg());
}

#[test]
fn test_empty_marker_fields() {
    let s = coap_message();
    let msg = || st(vec![num(0x40), num(0), bytes_v(&[]), bytes_v(&[])]);
    let bytes = s.to_be_bytes(&msg());
    assert_eq!(bytes, vec![0x40, 0, 0xFF, 0xFF]);
    let (parsed, consumed) = s.try_from_be_bytes(&bytes).unwrap();
    assert_eq!(consumed, 4);
    assert_eq!(parsed, msg());
}

#[test]
fn test_after_marker_without_marker() {
    let s = coap_message();
    let (msg, consumed) = s.try_from_be_bytes(&[0x40, 0x00]).unwrap();
    assert_eq!(consumed, 2);
    assert_eq!(msg, st(vec![num(0x40), num(0), bytes_v(&[]), bytes_v(&[])]));
}

#[test]
fn test_null_marker() {
    let s = Schema {
        fields: vec![
            p(PrimitiveType::U8),
            FieldKind::Bytes(SizeSpec::UntilMarker(0x00)),
            FieldKind::Bytes(SizeSpec::AfterMarker(0x00)),
        ],
    };
    let msg = || st(vec![num(0x42), bytes_v(&[0x01, 0x02, 0x03]), bytes_v(&[0xAA, 0xBB])]);
    let bytes = s.to_be_bytes(&msg());
    assert_eq!(bytes, vec![0x42, 0x01, 0x02, 0x03, 0x00, 0x00, 0xAA, 0xBB]);
    let (parsed, consumed) = s.try_from_be_bytes(&bytes).unwrap();
    assert_eq!(consumed, 8);
    assert_eq!(parsed, msg());
}

#[test]
fn test_multiple_until_markers() {
    let s = Schema {
        fields: vec![
            FieldKind::Bytes(SizeSpec::UntilMarker(0x7F)),
            FieldKind::Bytes(SizeSpec::UntilMarker(0xFF)),
            p(PrimitiveType::U8),
        ],
    };
    let msg = || st(vec![bytes_v(&[0x10, 0x20]), bytes_v(&[0x30, 0x40, 0x50]), num(0x99)]);
    let bytes = s.to_be_bytes(&msg());
    assert_eq!(bytes.len(), 8);
    let (parsed, consumed) = s.try_from_be_bytes(&bytes).unwrap();
    assert_eq!(consumed, bytes.len());
    assert_eq!(parsed, msg());
}

#[test]
fn test_marker_byte_in_data() {
    let s = Schema { fields: vec![FieldKind::Bytes(SizeSpec::UntilMarker(0xAB)), p(PrimitiveType::U8)] };
    let (parsed, consumed) = s.try_from_be_bytes(&[0x11, 0x22, 0xAB, 0x33]).unwrap();
    assert_eq!(consumed, 4);
    assert_eq!(field(&parsed, 0), &bytes_v(&[0x11, 0x22]));
    assert_eq!(field(&parsed, 1), &num(0x33));
}

#[test]
fn test_immediate_marker() {
    let s = Schema {
        fields: vec![
            p(PrimitiveType::U8),
            FieldKind::Bytes(SizeSpec::UntilMarker(0xDD)),
            p(PrimitiveType::U8),
            FieldKind::Bytes(SizeSpec::AfterMarker(0xEE)),
        ],
    };
    let (parsed, consumed) = s.try_from_be_bytes(&[0x01, 0xDD, 0x02, 0xEE]).unwrap();
    assert_eq!(consumed, 4);
    assert_eq!(parsed, st(vec![num(0x01), bytes_v(&[]), num(0x02), bytes_v(&[])]));
}

#[test]
fn test_after_marker_consumes_remaining() {
    let s = Schema { fields: vec![p(PrimitiveType::U16), FieldKind::Bytes(SizeSpec::AfterMarker(0xFE))] };
    let msg = || st(vec![num(0x1234), bytes_v(&[0x01, 0x02, 0x03, 0x04, 0x05])]);
    let bytes = s.to_be_bytes(&msg());
    assert_eq!(bytes[0], 0x12);
    assert_eq!(bytes[1], 0x34);
    assert_eq!(bytes[2], 0xFE);
    assert_eq!(bytes[3], 0x01);
    assert_eq!(bytes[7], 0x05);
    let (parsed, consumed) = s.try_from_be_bytes(&bytes).unwrap();
    assert_eq!(consumed, 8);
    assert_eq!(parsed, msg());
}

#[test]
fn test_marker_round_trip_consistency() {
    let s = Schema {
        fields: vec![
            p(PrimitiveType::U8),
            p(PrimitiveType::U8),
            FieldKind::Bytes(SizeSpec::UntilMarker(0xFD)),
            FieldKind::Bytes(SizeSpec::UntilMarker(0xFE)),
            FieldKind::Bytes(SizeSpec::AfterMarker(0xFF)),
        ],
    };
    let sample = || {
        st(vec![
            num(1),
            num(0b10101010),
            bytes_v(&[0x11, 0x22, 0x33]),
            bytes_v(&[0x44, 0x55]),
            bytes_v(&[0xAA, 0xBB, 0xCC, 0xDD]),
        ])
    };
    let bytes = s.to_be_bytes(&sample());
    let (parsed, _) = s.try_from_be_bytes(&bytes).unwrap();
    assert_eq!(parsed, sample());
    assert_eq!(s.to_be_bytes(&parsed), bytes);
}

#[test]
fn test_no_marker_in_stream() {
    let s = Schema { fields: vec![FieldKind::Bytes(SizeSpec::UntilMarker(0xCC)), p(PrimitiveType::U8)] };
    // Without the marker the vector takes every byte, and no byte is left
    // for the number after it.
    let result = s.try_from_be_bytes(&[0x11, 0x22, 0x33, 0x44, 0x55]);
    assert_eq!(result, Err(BeBytesError::InsufficientData { expected: 1, actual: 0 }));
}

// ----- segment lists -----

#[test]
fn test_fixed_size_segments() {
    let s = Schema {
        fields: vec![
            p(PrimitiveType::U8),
            FieldKind::Segments(CountSpec::Fixed(3), 0xFF),
            p(PrimitiveType::U8),
        ],
    };
    let msg = || st(vec![num(0x42), segs(&[&[0x01, 0x02], &[0x03, 0x04, 0x05], &[0x06]]), num(0x99)]);
    let bytes = s.to_be_bytes(&msg());
    assert_eq!(bytes, vec![0x42, 0x01, 0x02, 0xFF, 0x03, 0x04, 0x05, 0xFF, 0x06, 0xFF, 0x99]);
    let (parsed, consumed) = s.try_from_be_bytes(&bytes).unwrap();
    assert_eq!(consumed, bytes.len());
    assert_eq!(parsed, msg());
}

#[test]
fn test_variable_size_segments() {
    let s = Schema {
        fields: vec![
            p(PrimitiveType::U8),
            p(PrimitiveType::U8),
            FieldKind::Segments(from_field(1), 0xAA),
            p(PrimitiveType::U16),
        ],
    };
    let msg = || st(vec![num(1), num(2), segs(&[&[0x11, 0x22, 0x33], &[0x44, 0x55]]), num(0x1234)]);
    let bytes = s.to_be_bytes(&msg());
    assert_eq!(bytes, vec![1, 2, 0x11, 0x22, 0x33, 0xAA, 0x44, 0x55, 0xAA, 0x12, 0x34]);
    let (parsed, consumed) = s.try_from_be_bytes(&bytes).unwrap();
    assert_eq!(consumed, bytes.len());
    assert_eq!(parsed, msg());
}

#[test]
fn test_empty_segments() {
    let s = Schema { fields: vec![p(PrimitiveType::U8), FieldKind::Segments(from_field(0), 0x00)] };
    let msg = || st(vec![num(3), segs(&[&[0x01], &[], &[0x02, 0x03]])]);
    let bytes = s.to_be_bytes(&msg());
    assert_eq!(bytes, vec![3, 0x01, 0x00, 0x00, 0x02, 0x03, 0x00]);
    let (parsed, consumed) = s.try_from_be_bytes(&bytes).unwrap();
    assert_eq!(consumed, bytes.len());
    assert_eq!(parsed, msg());
}

#[test]
fn test_complex_protocol_round_trip() {
    let s = Schema {
        fields: vec![
            p(PrimitiveType::U32),
            p(PrimitiveType::U8),
            p(PrimitiveType::U8),
            FieldKind::Segments(from_field(2), 0xFE),
            p(PrimitiveType::U16),
            FieldKind::Bytes(SizeSpec::FromField(FieldPath { segments: vec![4] })),
        ],
    };
    let sample = || {
        st(vec![
            num(0x12345678),
            num(2),
            num(3),
            segs(&[&[0x01, 0x02], &[0x03, 0x04, 0x05], &[0x06]]),
            num(4),
            bytes_v(&[0xAA, 0xBB, 0xCC, 0xDD]),
        ])
    };
    let bytes = s.to_be_bytes(&sample());
    let (parsed, consumed) = s.try_from_be_bytes(&bytes).unwrap();
    assert_eq!(consumed, bytes.len());
    assert_eq!(parsed, sample());
    assert_eq!(s.to_be_bytes(&parsed), bytes);
}

#[test]
fn test_insufficient_data() {
    let s = Schema { fields: vec![p(PrimitiveType::U8), FieldKind::Segments(from_field(0), 0xAA)] };
    let result = s.try_from_be_bytes(&[3, 0x01, 0x02, 0xAA, 0x03, 0x04, 0xAA]);
    assert_eq!(result, Err(BeBytesError::MarkerNotFound { marker: 0xAA }));
}

#[test]
fn test_missing_markers() {
    let s = Schema { fields: vec![p(PrimitiveType::U8), FieldKind::Segments(from_field(0), 0xBB)] };
    let result = s.try_from_be_bytes(&[2, 0x11, 0x22, 0x33, 0x44]);
    assert_eq!(result, Err(BeBytesError::MarkerNotFound { marker: 0xBB }));
}

#[test]
fn test_zero_segments() {
    let s = Schema {
        fields: vec![p(PrimitiveType::U8), FieldKind::Segments(from_field(0), 0xCC), p(PrimitiveType::U8)],
    };
    let msg = || st(vec![num(0), segs(&[]), num(0x99)]);
    let bytes = s.to_be_bytes(&msg());
    assert_eq!(bytes, vec![0, 0x99]);
    let (parsed, consumed) = s.try_from_be_bytes(&bytes).unwrap();
    assert_eq!(consumed, bytes.len());
    assert_eq!(parsed, msg());
}

#[test]
fn test_all_empty_segments() {
    let s = Schema { fields: vec![FieldKind::Segments(CountSpec::Fixed(3), 0xEE)] };
    let msg = || st(vec![segs(&[&[], &[], &[]])]);
    let bytes = s.to_be_bytes(&msg());
    assert_eq!(bytes, vec![0xEE, 0xEE, 0xEE]);
    let (parsed, consumed) = s.try_from_be_bytes(&bytes).unwrap();
    assert_eq!(consumed, bytes.len());
    assert_eq!(parsed, msg());
}

#[test]
fn test_marker_in_data_terminates_segment() {
    let s = Schema { fields: vec![FieldKind::Segments(CountSpec::Fixed(2), 0xFF)] };
    let (parsed, consumed) = s.try_from_be_bytes(&[0x01, 0xFF, 0x02, 0xFF, 0x33]).unwrap();
    assert_eq!(consumed, 4);
    assert_eq!(parsed, st(vec![segs(&[&[0x01], &[0x02]])]));
}

#[test]
fn test_large_segment_count() {
    let s = Schema { fields: vec![p(PrimitiveType::U8), FieldKind::Segments(from_field(0), 0x00)] };
    let mut expected = vec![255u8];
    let mut list = Vec::new();
    for i in 1..=255u32 {
        list.push(vec![i as u8]);
        expected.push(i as u8);
        expected.push(0x00);
    }
    let msg = || st(vec![num(255), Value::Segments(list.clone())]);
    let bytes = s.to_be_bytes(&msg());
    assert_eq!(bytes, expected);
    assert_eq!(bytes.len(), 1 + 255 * 2);
    let (parsed, consumed) = s.try_from_be_bytes(&bytes).unwrap();
    assert_eq!(consumed, bytes.len());
    assert_eq!(parsed, msg());
}
