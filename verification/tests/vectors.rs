use bebytes::schema::{CountSpec, FieldKind, PrimitiveType, Schema, SizeSpec};
use bebytes::size_expr::FieldPath;
use bebytes::value::Value;

fn p(t: PrimitiveType) -> FieldKind {
    FieldKind::Primitive(t)
}

fn num(x: u128) -> Value {
    Value::Num(x)
}

fn st(fields: Vec<Value>) -> Value {
    Value::Struct(fields)
}

fn bytes_v(b: &[u8]) -> Value {
    Value::Bytes(b.to_vec())
}

fn path(segments: &[usize]) -> FieldPath {
    FieldPath { segments: segments.to_vec() }
}

fn field(v: &Value, i: usize) -> &Value {
    match v {
        Value::Struct(fs) => &fs[i],
        _ => panic!("not a struct"),
    }
}

#[test]
fn test_fixed_size_vector() {
    let s = Schema { fields: vec![p(PrimitiveType::U32), FieldKind::Bytes(SizeSpec::Fixed(16)), p(PrimitiveType::U16)] };
    let v = || st(vec![num(0xDEADBEEF), bytes_v(&(1..=16).collect::<Vec<u8>>()), num(0xCAFE)]);
    let bytes = s.to_be_bytes(&v());
    assert_eq!(bytes.len(), 4 + 16 + 2);
    let (decoded, consumed) = s.try_from_be_bytes(&bytes).unwrap();
    assert_eq!(consumed, bytes.len());
    assert_eq!(decoded, v());
}

#[test]
fn test_multiple_fixed_vectors() {
    let s = Schema {
        fields: vec![
            FieldKind::Bytes(SizeSpec::Fixed(4)),
            p(PrimitiveType::U16),
            FieldKind::Bytes(SizeSpec::Fixed(8)),
        ],
    };
    let v = || st(vec![bytes_v(&[0xAA, 0xBB, 0xCC, 0xDD]), num(0x1234), bytes_v(&[1, 2, 3, 4, 5, 6, 7, 8])]);
    let bytes = s.to_be_bytes(&v());
    assert_eq!(bytes.len(), 4 + 2 + 8);
    let (decoded, _) = s.try_from_be_bytes(&bytes).unwrap();
    assert_eq!(decoded, v());
}

fn dynamic_vector_packet() -> Schema {
    Schema {
        fields: vec![
            p(PrimitiveType::U16),
            FieldKind::Bytes(SizeSpec::FromField(path(&[0]))),
            p(PrimitiveType::U32),
        ],
    }
}

#[test]
fn test_dynamic_size_from_field() {
    let s = dynamic_vector_packet();
    let data = [0x01u8, 0x02, 0x03, 0x04, 0x05];
    let v = || st(vec![num(5), bytes_v(&data), num(0x12345678)]);
    let bytes = s.to_be_bytes(&v());
    assert_eq!(bytes.len(), 2 + 5 + 4);
    let (decoded, consumed) = s.try_from_be_bytes(&bytes).unwrap();
    assert_eq!(consumed, bytes.len());
    assert_eq!(field(&decoded, 0), &num(5));
    assert_eq!(field(&decoded, 1), &bytes_v(&data));
    assert_eq!(field(&decoded, 2), &num(0x12345678));
}

#[test]
fn test_zero_length_dynamic_vector() {
    let s = dynamic_vector_packet();
    let bytes = s.to_be_bytes(&st(vec![num(0), bytes_v(&[]), num(0xDEADBEEF)]));
    assert_eq!(bytes.len(), 2 + 4);
    let (decoded, _) = s.try_from_be_bytes(&bytes).unwrap();
    assert_eq!(field(&decoded, 0), &num(0));
    assert_eq!(field(&decoded, 1), &bytes_v(&[]));
}

#[test]
fn test_nested_field_vector_size() {
    let header = Schema { fields: vec![p(PrimitiveType::U32), p(PrimitiveType::U16), p(PrimitiveType::U8)] };
    let s = Schema {
        fields: vec![
            FieldKind::Nested(header),
            p(PrimitiveType::U32),
            FieldKind::Bytes(SizeSpec::FromField(path(&[0, 1]))),
        ],
    };
    let payload = [0xAAu8, 0xBB, 0xCC, 0xDD, 0xEE];
    let v = || {
        st(vec![st(vec![num(0xDEADBEEF), num(5), num(0xFF)]), num(0x12345678), bytes_v(&payload)])
    };
    let bytes = s.to_be_bytes(&v());
    let (decoded, _) = s.try_from_be_bytes(&bytes).unwrap();
    assert_eq!(field(field(&decoded, 0), 1), &num(5));
    assert_eq!(field(&decoded, 2), &bytes_v(&payload));
}

#[test]
fn test_deeply_nested_field_access() {
    let inner_most = Schema { fields: vec![p(PrimitiveType::U8)] };
    let middle = Schema { fields: vec![FieldKind::Nested(inner_most), p(PrimitiveType::U16)] };
    let s = Schema {
        fields: vec![FieldKind::Nested(middle), FieldKind::Bytes(SizeSpec::FromField(path(&[0, 0, 0])))],
    };
    let v = || st(vec![st(vec![st(vec![num(4)]), num(0x1234)]), bytes_v(&[1, 2, 3, 4])]);
    let bytes = s.to_be_bytes(&v());
    let (decoded, _) = s.try_from_be_bytes(&bytes).unwrap();
    assert_eq!(decoded, v());
}

fn packet_with_padding() -> Schema {
    Schema { fields: vec![p(PrimitiveType::U32), p(PrimitiveType::U8), FieldKind::Bytes(SizeSpec::Rest)] }
}

#[test]
fn test_vector_as_padding() {
    let s = packet_with_padding();
    let v = || st(vec![num(0x12345678), num(0xAB), bytes_v(&[0xFF, 0xEE, 0xDD, 0xCC, 0xBB])]);
    let bytes = s.to_be_bytes(&v());
    assert_eq!(bytes.len(), 4 + 1 + 5);
    let (decoded, consumed) = s.try_from_be_bytes(&bytes).unwrap();
    assert_eq!(consumed, bytes.len());
    assert_eq!(decoded, v());
}

#[test]
fn test_empty_padding_vector() {
    let s = packet_with_padding();
    let bytes = vec![0x12, 0x34, 0x56, 0x78, 0xAB];
    let (decoded, consumed) = s.try_from_be_bytes(&bytes).unwrap();
    assert_eq!(consumed, 5);
    assert_eq!(field(&decoded, 0), &num(0x12345678));
    assert_eq!(field(&decoded, 1), &num(0xAB));
    assert_eq!(field(&decoded, 2), &bytes_v(&[]));
}

fn item() -> Schema {
    Schema { fields: vec![p(PrimitiveType::U16), p(PrimitiveType::U32)] }
}

#[test]
fn test_custom_type_vector() {
    let s = Schema {
        fields: vec![p(PrimitiveType::U8), FieldKind::List(item(), Some(CountSpec::FromField(path(&[0]))))],
    };
    let items = || {
        Value::List(vec![
            st(vec![num(1), num(0xAABBCCDD)]),
            st(vec![num(2), num(0x11223344)]),
            st(vec![num(3), num(0xDEADBEEF)]),
        ])
    };
    let v = || st(vec![num(3), items()]);
    let bytes = s.to_be_bytes(&v());
    assert_eq!(bytes.len(), 1 + 3 * 6);
    let (decoded, _) = s.try_from_be_bytes(&bytes).unwrap();
    assert_eq!(field(&decoded, 0), &num(3));
    assert_eq!(field(&decoded, 1), &items());
}

#[test]
fn test_counted_last_vector_reads_exactly_count() {
    let s = Schema {
        fields: vec![p(PrimitiveType::U8), FieldKind::List(item(), Some(CountSpec::FromField(path(&[0]))))],
    };
    let v = || {
        st(vec![
            num(3),
            Value::List(vec![
                st(vec![num(1), num(0xAABBCCDD)]),
                st(vec![num(2), num(0x11223344)]),
                st(vec![num(3), num(0xDEADBEEF)]),
            ]),
        ])
    };
    let mut bytes = s.to_be_bytes(&v());
    assert_eq!(bytes.len(), 19);
    assert_eq!(s.try_from_be_bytes(&bytes), Ok((v(), 19)));
    bytes.extend_from_slice(&[0u8; 6]);
    assert_eq!(s.try_from_be_bytes(&bytes), Ok((v(), 19)));
}

#[test]
fn test_fixed_size_custom_vector() {
    let s = Schema {
        fields: vec![
            p(PrimitiveType::U16),
            FieldKind::List(item(), Some(CountSpec::Fixed(2))),
            p(PrimitiveType::U16),
        ],
    };
    let v = || {
        st(vec![
            num(0x1234),
            Value::List(vec![st(vec![num(10), num(0xAAAAAAAA)]), st(vec![num(20), num(0xBBBBBBBB)])]),
            num(0x5678),
        ])
    };
    let bytes = s.to_be_bytes(&v());
    let (decoded, _) = s.try_from_be_bytes(&bytes).unwrap();
    assert_eq!(decoded, v());
}

#[test]
fn test_vector_field_sizes() {
    // A fixed vector adds its bytes; a vector sized by a field sets the count to 4096 bytes.
    let fixed = Schema { fields: vec![p(PrimitiveType::U32), FieldKind::Bytes(SizeSpec::Fixed(16)), p(PrimitiveType::U16)] };
    assert_eq!(fixed.field_size(), 22);
    assert_eq!(dynamic_vector_packet().field_size(), 4096 + 4);
    assert_eq!(packet_with_padding().field_size(), 4096);
}
