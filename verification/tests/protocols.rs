use bebytes::codec::BeBytesError;
use bebytes::enums::{flag_and, flag_or, EnumDef};
use bebytes::schema::{CountSpec, FieldKind, PrimitiveType, Schema, SizeSpec};
use bebytes::size_expr::{BinaryOperator, FieldPath, SizeExpression};
use bebytes::value::Value;

fn p(t: PrimitiveType) -> FieldKind {
    FieldKind::Primitive(t)
}

fn num(x: u128) -> Value {
    Value::Num(x)
}

fn st(fields: Vec<Value>) -> Value {
    Value::Struct(fields)
}

fn bytes_v(b: &[u8]) -> Value {
    Value::Bytes(b.to_vec())
}

fn segs(s: &[&[u8]]) -> Value {
    Value::Segments(s.iter().map(|x| x.to_vec()).collect())
}

fn path(segments: &[usize]) -> FieldPath {
    FieldPath { segments: segments.to_vec() }
}

fn field_ref(i: usize) -> SizeExpression {
    SizeExpression::FieldRef(path(&[i]))
}

fn lit(n: u64) -> SizeExpression {
    SizeExpression::Literal(n)
}

fn bin(l: SizeExpression, op: BinaryOperator, r: SizeExpression) -> SizeExpression {
    SizeExpression::BinaryOp { left: Box::new(l), op, right: Box::new(r) }
}

fn field(v: &Value, i: usize) -> &Value {
    match v {
        Value::Struct(fs) => &fs[i],
        _ => panic!("not a struct"),
    }
}

// ----- a packet with a header, flags and a payload -----

fn packet_header() -> Schema {
    let packet_type = EnumDef { discriminants: vec![0, 1, 2, 3], flags: false };
    let w = packet_type.min_bits();
    Schema {
        fields: vec![
            FieldKind::Bits(PrimitiveType::U8, 4),
            FieldKind::EnumBits(packet_type, w),
            FieldKind::Bits(PrimitiveType::U8, 2),
            p(PrimitiveType::U8),
            p(PrimitiveType::U16),
            p(PrimitiveType::U16),
        ],
    }
}

#[test]
fn test_complete_packet_workflow() {
    let s = Schema {
        fields: vec![
            FieldKind::Nested(packet_header()),
            p(PrimitiveType::U16),
            FieldKind::Bytes(SizeSpec::FromField(path(&[1]))),
            p(PrimitiveType::U32),
        ],
    };
    let encrypted = 2u8;
    let compressed = 4u8;
    let flags = flag_or(encrypted, compressed);
    let payload = [0xDE, 0xAD, 0xBE, 0xEF, 0xCA, 0xFE, 0xBA, 0xBE, 0x00, 0xFF];
    let packet = || {
        st(vec![
            st(vec![num(1), num(0), num(0), num(flags as u128), num(12345), num(10)]),
            num(10),
            bytes_v(&payload),
            num(0x12345678),
        ])
    };
    let bytes = s.to_be_bytes(&packet());
    assert_eq!(bytes.len(), 22);
    assert_eq!(bytes[0] & 0xF0, 0x10);
    assert_eq!(bytes[0] & 0x0C, 0x00);
    assert_eq!(bytes[0] & 0x03, 0x00);
    assert_eq!(bytes[1], 6);

    let (decoded, consumed) = s.try_from_be_bytes(&bytes).unwrap();
    assert_eq!(consumed, 22);
    assert_eq!(decoded, packet());
    let header = field(&decoded, 0);
    assert_eq!(field(header, 0), &num(1));
    assert_eq!(field(header, 1), &num(0));
    match field(header, 3) {
        Value::Num(f) => {
            assert_eq!(flag_and(*f as u8, encrypted), encrypted);
            assert_eq!(flag_and(*f as u8, compressed), compressed);
        },
        _ => panic!("not a number"),
    }
    assert_eq!(field(header, 4), &num(12345));
    assert_eq!(field(&decoded, 1), &num(10));
    assert_eq!(field(&decoded, 2), &bytes_v(&payload));
    assert_eq!(field(&decoded, 3), &num(0x12345678));
}

#[test]
fn test_tlv_field_structure() {
    let s = Schema {
        fields: vec![p(PrimitiveType::U8), p(PrimitiveType::U8), FieldKind::Bytes(SizeSpec::FromField(path(&[1])))],
    };
    let v = || st(vec![num(1), num(4), bytes_v(&[0x01, 0x02, 0x03, 0x04])]);
    let bytes = s.to_be_bytes(&v());
    assert_eq!(bytes, vec![1, 4, 0x01, 0x02, 0x03, 0x04]);
    let (decoded, consumed) = s.try_from_be_bytes(&bytes).unwrap();
    assert_eq!(consumed, 6);
    assert_eq!(decoded, v());
}

// ----- a CoAP-like protocol -----

#[test]
fn test_coap_like_protocol() {
    let s = Schema {
        fields: vec![
            p(PrimitiveType::U8),
            p(PrimitiveType::U8),
            p(PrimitiveType::U8),
            p(PrimitiveType::U8),
            p(PrimitiveType::U16),
            FieldKind::Bytes(SizeSpec::FromField(path(&[2]))),
            p(PrimitiveType::U8),
            FieldKind::Segments(CountSpec::FromField(path(&[6])), 0xFF),
            p(PrimitiveType::U8),
            FieldKind::Bytes(SizeSpec::Rest),
        ],
    };
    let msg = || {
        st(vec![
            num(1),
            num(0),
            num(4),
            num(69),
            num(0x1234),
            bytes_v(&[0xAA, 0xBB, 0xCC, 0xDD]),
            num(3),
            segs(&[&[0x11, 0x22], &[0x33, 0x44, 0x55], &[0x66]]),
            num(0xFF),
            bytes_v(b"Hello"),
        ])
    };
    let bytes = s.to_be_bytes(&msg());
    let (parsed, consumed) = s.try_from_be_bytes(&bytes).unwrap();
    assert_eq!(consumed, bytes.len());
    assert_eq!(parsed, msg());
    assert_eq!(s.to_be_bytes(&parsed), bytes);
}

#[test]
fn test_old_vs_new_pattern() {
    let old = Schema {
        fields: vec![
            p(PrimitiveType::U8),
            FieldKind::Bytes(SizeSpec::UntilMarker(0xAA)),
            FieldKind::Bytes(SizeSpec::UntilMarker(0xAA)),
            FieldKind::Bytes(SizeSpec::UntilMarker(0xAA)),
        ],
    };
    let new = Schema { fields: vec![p(PrimitiveType::U8), FieldKind::Segments(CountSpec::FromField(path(&[0])), 0xAA)] };
    let old_bytes = old.to_be_bytes(&st(vec![
        num(3),
        bytes_v(&[0x01, 0x02]),
        bytes_v(&[0x03, 0x04]),
        bytes_v(&[0x05, 0x06]),
    ]));
    let new_bytes = new.to_be_bytes(&st(vec![num(3), segs(&[&[0x01, 0x02], &[0x03, 0x04], &[0x05, 0x06]])]));
    assert_eq!(old_bytes, new_bytes);

    let variable = || st(vec![num(5), segs(&[&[0x01], &[0x02, 0x03], &[0x04], &[0x05, 0x06, 0x07], &[0x08]])]);
    let var_bytes = new.to_be_bytes(&variable());
    let (parsed, _) = new.try_from_be_bytes(&var_bytes).unwrap();
    assert_eq!(parsed, variable());
}

#[test]
fn test_compile_time_checks_enforced() {
    let s = Schema { fields: vec![FieldKind::Segments(CountSpec::Fixed(2), 0xBB)] };
    let v = || st(vec![segs(&[&[1, 2], &[3, 4]])]);
    let bytes = s.to_be_bytes(&v());
    let (parsed, _) = s.try_from_be_bytes(&bytes).unwrap();
    assert_eq!(parsed, v());
}

#[test]
fn test_performance_characteristics() {
    let s = Schema { fields: vec![p(PrimitiveType::U8), FieldKind::Segments(CountSpec::FromField(path(&[0])), 0x00)] };
    let mut list = Vec::new();
    for i in 0..100u32 {
        list.push(vec![(i + 1) as u8; (i % 10 + 1) as usize]);
    }
    let msg = || st(vec![num(100), Value::Segments(list.clone())]);
    let bytes = s.to_be_bytes(&msg());
    let (parsed, _) = s.try_from_be_bytes(&bytes).unwrap();
    assert_eq!(parsed, msg());
}

#[test]
fn test_integration_with_other_features() {
    let s = Schema {
        fields: vec![
            FieldKind::Bits(PrimitiveType::U8, 4),
            FieldKind::Bits(PrimitiveType::U8, 4),
            p(PrimitiveType::U8),
            FieldKind::Text(SizeSpec::FromField(path(&[2]))),
            p(PrimitiveType::U8),
            FieldKind::Segments(CountSpec::FromField(path(&[4])), 0xEE),
            p(PrimitiveType::U32),
        ],
    };
    let msg = || {
        st(vec![
            num(2),
            num(0b1010),
            num(5),
            bytes_v(b"Hello"),
            num(2),
            segs(&[&[0x11, 0x22], &[0x33, 0x44, 0x55]]),
            num(0x12345678),
        ])
    };
    let bytes = s.to_be_bytes(&msg());
    let (parsed, consumed) = s.try_from_be_bytes(&bytes).unwrap();
    assert_eq!(consumed, bytes.len());
    assert_eq!(field(&parsed, 0), &num(2));
    assert_eq!(field(&parsed, 1), &num(0b1010));
    assert_eq!(field(&parsed, 3), &bytes_v(b"Hello"));
    assert_eq!(field(&parsed, 6), &num(0x12345678));
    assert_eq!(parsed, msg());
}

#[test]
fn test_invalid_utf8_is_refused() {
    let s = Schema { fields: vec![p(PrimitiveType::U8), FieldKind::Text(SizeSpec::FromField(path(&[0])))] };
    assert_eq!(s.try_from_be_bytes(&[2, 0xC3, 0x28]), Err(BeBytesError::InvalidUtf8));
    let (ok, _) = s.try_from_be_bytes(&[2, 0xC3, 0xA9]).unwrap();
    assert_eq!(ok, st(vec![num(2), bytes_v("é".as_bytes())]));
}

// ----- size expressions -----

fn math_expressions() -> Schema {
    Schema {
        fields: vec![
            p(PrimitiveType::U8),
            FieldKind::Bytes(SizeSpec::Expr(bin(field_ref(0), BinaryOperator::Multiply, lit(4)))),
            p(PrimitiveType::U8),
            FieldKind::Bytes(SizeSpec::Expr(bin(field_ref(2), BinaryOperator::Add, lit(2)))),
            p(PrimitiveType::U8),
            FieldKind::Bytes(SizeSpec::Expr(bin(lit(12), BinaryOperator::Divide, field_ref(4)))),
        ],
    }
}

#[test]
fn test_serialization_deserialization_consistency() {
    let s = math_expressions();
    let sample = || {
        st(vec![
            num(2),
            bytes_v(&[10, 20, 30, 40, 50, 60, 70, 80]),
            num(3),
            bytes_v(&[1, 2, 3, 4, 5]),
            num(3),
            bytes_v(&[100, 101, 102, 103]),
        ])
    };
    let be_bytes = s.to_be_bytes(&sample());
    let (be_parsed, be_size) = s.try_from_be_bytes(&be_bytes).unwrap();
    assert_eq!(be_parsed, sample());
    assert_eq!(be_size, be_bytes.len());
    let le_bytes = s.to_le_bytes(&sample());
    let (le_parsed, le_size) = s.try_from_le_bytes(&le_bytes).unwrap();
    assert_eq!(le_parsed, sample());
    assert_eq!(le_size, le_bytes.len());
}

#[test]
fn test_mathematical_expressions() {
    let s = math_expressions();
    let msg = || {
        st(vec![
            num(3),
            bytes_v(&[1, 2, 3, 4, 5, 6, 7, 8, 9, 10, 11, 12]),
            num(5),
            bytes_v(&[20, 21, 22, 23, 24, 25, 26]),
            num(4),
            bytes_v(&[30, 31, 32]),
        ])
    };
    let bytes = s.to_be_bytes(&msg());
    let (parsed, _) = s.try_from_be_bytes(&bytes).unwrap();
    assert_eq!(parsed, msg());
}

#[test]
fn test_field_references() {
    let s = Schema {
        fields: vec![
            p(PrimitiveType::U8),
            FieldKind::Text(SizeSpec::Expr(field_ref(0))),
            p(PrimitiveType::U16),
            FieldKind::Bytes(SizeSpec::Expr(field_ref(2))),
        ],
    };
    let msg = || st(vec![num(6), bytes_v(b"Hello!"), num(4), bytes_v(&[100, 101, 102, 103])]);
    let bytes = s.to_be_bytes(&msg());
    let (parsed, _) = s.try_from_be_bytes(&bytes).unwrap();
    assert_eq!(parsed, msg());
}

#[test]
fn test_nested_expressions() {
    let s = Schema {
        fields: vec![
            p(PrimitiveType::U8),
            p(PrimitiveType::U8),
            FieldKind::Bytes(SizeSpec::Expr(bin(
                bin(field_ref(0), BinaryOperator::Multiply, field_ref(1)),
                BinaryOperator::Add,
                lit(1),
            ))),
        ],
    };
    let msg = || st(vec![num(3), num(2), bytes_v(&[1, 2, 3, 4, 5, 6, 7])]);
    let bytes = s.to_be_bytes(&msg());
    let (parsed, _) = s.try_from_be_bytes(&bytes).unwrap();
    assert_eq!(parsed, msg());
}

#[test]
fn test_zero_size_expression() {
    let s = Schema {
        fields: vec![
            p(PrimitiveType::U8),
            FieldKind::Bytes(SizeSpec::Expr(bin(field_ref(0), BinaryOperator::Multiply, lit(0)))),
        ],
    };
    let msg = || st(vec![num(5), bytes_v(&[])]);
    let bytes = s.to_be_bytes(&msg());
    let (parsed, _) = s.try_from_be_bytes(&bytes).unwrap();
    assert_eq!(parsed, msg());
}

#[test]
fn test_string_expressions() {
    let s = Schema {
        fields: vec![
            p(PrimitiveType::U8),
            FieldKind::Text(SizeSpec::Expr(field_ref(0))),
            p(PrimitiveType::U8),
            FieldKind::Text(SizeSpec::Expr(bin(field_ref(0), BinaryOperator::Add, field_ref(2)))),
        ],
    };
    let msg = || st(vec![num(5), bytes_v(b"Hello"), num(3), bytes_v(b"Hello   ")]);
    let bytes = s.to_be_bytes(&msg());
    let (parsed, _) = s.try_from_be_bytes(&bytes).unwrap();
    assert_eq!(parsed, msg());
}

#[test]
fn test_insufficient_data_error() {
    let result = math_expressions().try_from_be_bytes(&[1, 2]);
    match result {
        Err(BeBytesError::InsufficientData { expected, actual }) => assert!(expected > actual),
        other => panic!("Expected InsufficientData error, got {:?}", other),
    }
}

#[test]
fn test_size_expression_errors() {
    // Dividing by a zero field cannot give a size.
    let s = Schema {
        fields: vec![
            p(PrimitiveType::U8),
            FieldKind::Bytes(SizeSpec::Expr(bin(lit(12), BinaryOperator::Divide, field_ref(0)))),
        ],
    };
    assert_eq!(s.try_from_be_bytes(&[0, 1, 2]), Err(BeBytesError::InvalidSizeExpression));
    // A path to a field that does not exist.
    let t = Schema { fields: vec![p(PrimitiveType::U8), FieldKind::Bytes(SizeSpec::FromField(path(&[5])))] };
    assert_eq!(t.try_from_be_bytes(&[3, 1, 2, 3]), Err(BeBytesError::InvalidFieldReference));
}
