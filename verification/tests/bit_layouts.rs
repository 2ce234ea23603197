use bebytes::codec::BeBytesError;
use bebytes::enums::EnumDef;
use bebytes::schema::{CountSpec, FieldKind, PrimitiveType, Schema};
use bebytes::size_expr::FieldPath;
use bebytes::value::Value;

fn p(t: PrimitiveType) -> FieldKind {
    FieldKind::Primitive(t)
}

fn bits(t: PrimitiveType, w: usize) -> FieldKind {
    FieldKind::Bits(t, w)
}

fn enum_def(discriminants: &[u8]) -> EnumDef {
    EnumDef { discriminants: discriminants.to_vec(), flags: false }
}

/// An enum field under `#[bits()]`: as wide as its largest discriminant needs.
fn auto_enum(discriminants: &[u8]) -> FieldKind {
    let d = enum_def(discriminants);
    let w = d.min_bits();
    FieldKind::EnumBits(d, w)
}

fn num(x: u128) -> Value {
    Value::Num(x)
}

fn st(fields: Vec<Value>) -> Value {
    Value::Struct(fields)
}

fn bytes_v(b: &[u8]) -> Value {
    Value::Bytes(b.to_vec())
}

fn round_trip_be(s: &Schema, v: Value, len: usize) -> Vec<u8> {
    let bytes = s.to_be_bytes(&v);
    assert_eq!(bytes.len(), len);
    let (decoded, consumed) = s.try_from_be_bytes(&bytes).unwrap();
    assert_eq!(consumed, len);
    assert_eq!(decoded, v);
    bytes
}

fn error_estimate() -> Schema {
    Schema {
        fields: vec![
            bits(PrimitiveType::U8, 1),
            bits(PrimitiveType::U8, 1),
            bits(PrimitiveType::U8, 6),
            p(PrimitiveType::U32),
        ],
    }
}

// ----- position tracking -----

#[test]
fn test_no_auto_sized_optimizations() {
    let s = Schema {
        fields: vec![
            p(PrimitiveType::U32),
            bits(PrimitiveType::U16, 16),
            bits(PrimitiveType::U8, 8),
            p(PrimitiveType::U16),
        ],
    };
    let v = || st(vec![num(0x12345678), num(0xABCD), num(0xEF), num(0x9876)]);
    let bytes = round_trip_be(&s, v(), 9);
    assert_eq!(&bytes[0..4], &[0x12, 0x34, 0x56, 0x78]);
    assert_eq!(&bytes[4..6], &[0xAB, 0xCD]);
    assert_eq!(bytes[6], 0xEF);
    assert_eq!(&bytes[7..9], &[0x98, 0x76]);
}

#[test]
fn test_with_auto_sized() {
    let s = Schema {
        fields: vec![
            p(PrimitiveType::U32),
            auto_enum(&[0, 1]),
            bits(PrimitiveType::U8, 7),
            bits(PrimitiveType::U16, 16),
            p(PrimitiveType::U32),
        ],
    };
    let v = || st(vec![num(0xDEADBEEF), num(1), num(0x55), num(0x1234), num(0xCAFEBABE)]);
    let bytes = round_trip_be(&s, v(), 11);
    assert_eq!(&bytes[0..4], &[0xDE, 0xAD, 0xBE, 0xEF]);
    assert_eq!(bytes[4], 0xD5);
    assert_eq!(&bytes[5..7], &[0x12, 0x34]);
    assert_eq!(&bytes[7..11], &[0xCA, 0xFE, 0xBA, 0xBE]);
}

#[test]
fn test_multiple_auto_sized() {
    let s = Schema {
        fields: vec![
            bits(PrimitiveType::U8, 8),
            auto_enum(&[0, 1]),
            bits(PrimitiveType::U8, 3),
            auto_enum(&[0, 1, 2]),
            bits(PrimitiveType::U8, 2),
            p(PrimitiveType::U16),
        ],
    };
    let v = || st(vec![num(0xFF), num(0), num(5), num(2), num(3), num(0xABCD)]);
    let bytes = round_trip_be(&s, v(), 4);
    assert_eq!(bytes[0], 0xFF);
    assert_eq!(bytes[1], 0x5B);
    assert_eq!(&bytes[2..4], &[0xAB, 0xCD]);
}

#[test]
fn test_auto_sized_first() {
    let s = Schema {
        fields: vec![
            auto_enum(&[0, 1, 2]),
            bits(PrimitiveType::U8, 6),
            bits(PrimitiveType::U16, 16),
        ],
    };
    let v = || st(vec![num(1), num(0x2A), num(0x9876)]);
    let bytes = round_trip_be(&s, v(), 3);
    assert_eq!(bytes[0], 0x6A);
    assert_eq!(&bytes[1..3], &[0x98, 0x76]);
}

#[test]
fn test_optimization_behavior() {
    let s = Schema {
        fields: vec![
            p(PrimitiveType::U64),
            bits(PrimitiveType::U16, 16),
            auto_enum(&[0, 1]),
            bits(PrimitiveType::U8, 7),
            bits(PrimitiveType::U16, 16),
        ],
    };
    let v = || st(vec![num(0x0102030405060708), num(0x1234), num(1), num(0x55), num(0x5678)]);
    round_trip_be(&s, v(), 13);
}

#[test]
fn test_all_auto_sized() {
    let mut fields = Vec::new();
    for _ in 0..8 {
        fields.push(auto_enum(&[0, 1]));
    }
    let s = Schema { fields };
    let v = || st(vec![num(1), num(0), num(1), num(1), num(0), num(1), num(0), num(1)]);
    let bytes = round_trip_be(&s, v(), 1);
    assert_eq!(bytes[0], 0xB5);
}

// ----- optimization verification -----

#[test]
fn test_verify_optimization_behavior() {
    let before = Schema { fields: vec![FieldKind::Array(8), bits(PrimitiveType::U16, 16)] };
    let bytes = before.to_be_bytes(&st(vec![bytes_v(&[0; 8]), num(0xABCD)]));
    assert_eq!(bytes.len(), 10);
    assert_eq!(&bytes[8..10], &[0xAB, 0xCD]);

    let after = Schema {
        fields: vec![
            FieldKind::Array(8),
            auto_enum(&[0, 1]),
            bits(PrimitiveType::U16, 15),
            bits(PrimitiveType::U16, 16),
        ],
    };
    let bytes = after.to_be_bytes(&st(vec![bytes_v(&[0; 8]), num(1), num(0x7FFF), num(0x1234)]));
    assert_eq!(bytes.len(), 12);
    assert_eq!(&bytes[8..10], &[0xFF, 0xFF]);
    assert_eq!(&bytes[10..12], &[0x12, 0x34]);
}

#[test]
fn test_optimization_conditions() {
    // Aligned full-width bit fields before and after an automatic width
    // encode exactly as their primitives would.
    let before = Schema { fields: vec![FieldKind::Array(8), bits(PrimitiveType::U16, 16)] };
    let plain = Schema { fields: vec![FieldKind::Array(8), p(PrimitiveType::U16)] };
    let v = || st(vec![bytes_v(&[1, 2, 3, 4, 5, 6, 7, 8]), num(0xBEEF)]);
    assert_eq!(before.to_be_bytes(&v()), plain.to_be_bytes(&v()));
    assert_eq!(before.to_le_bytes(&v()), plain.to_le_bytes(&v()));
    round_trip_be(&before, v(), 10);
}

// ----- plain structs -----

fn simple_struct() -> Schema {
    Schema { fields: vec![p(PrimitiveType::U8), p(PrimitiveType::U16), p(PrimitiveType::U32)] }
}

#[test]
fn test_simple_struct_no_std() {
    round_trip_be(&simple_struct(), st(vec![num(0x42), num(0x1234), num(0xDEADBEEF)]), 7);
}

#[test]
fn test_bitfield_struct_no_std() {
    let s = Schema {
        fields: vec![bits(PrimitiveType::U8, 3), bits(PrimitiveType::U8, 5), p(PrimitiveType::U16)],
    };
    round_trip_be(&s, st(vec![num(0b101), num(0b11010), num(0xABCD)]), 3);
}

#[test]
fn test_enum_no_std() {
    let s = Schema {
        fields: vec![
            p(PrimitiveType::U8),
            FieldKind::Enum(enum_def(&[0, 1, 2])),
            p(PrimitiveType::U16),
        ],
    };
    let v = || st(vec![num(0xFF), num(1), num(0x5678)]);
    let bytes = s.to_be_bytes(&v());
    let (decoded, _) = s.try_from_be_bytes(&bytes).unwrap();
    assert_eq!(decoded, v());
}

#[test]
fn test_vector_no_std() {
    let s = Schema {
        fields: vec![FieldKind::Bytes(bebytes::schema::SizeSpec::Fixed(4)), p(PrimitiveType::U16)],
    };
    let bytes = s.to_be_bytes(&st(vec![bytes_v(&[0xAA, 0xBB, 0xCC, 0xDD]), num(0x9999)]));
    assert_eq!(bytes.len(), 6);
}

#[test]
fn test_little_endian_no_std() {
    let s = simple_struct();
    let v = || st(vec![num(0x42), num(0x1234), num(0xDEADBEEF)]);
    let le_bytes = s.to_le_bytes(&v());
    let be_bytes = s.to_be_bytes(&v());
    assert_ne!(le_bytes[1..3], be_bytes[1..3]);
    assert_ne!(le_bytes[3..7], be_bytes[3..7]);
    let (decoded, _) = s.try_from_le_bytes(&le_bytes).unwrap();
    assert_eq!(decoded, v());
}

#[test]
fn test_array_no_std() {
    let s = Schema { fields: vec![FieldKind::Array(4), p(PrimitiveType::U32)] };
    let v = || st(vec![bytes_v(&[0x01, 0x02, 0x03, 0x04]), num(0x12345678)]);
    let bytes = s.to_be_bytes(&v());
    assert_eq!(bytes.len(), 8);
    let (decoded, _) = s.try_from_be_bytes(&bytes).unwrap();
    assert_eq!(decoded, v());
}

#[test]
fn test_error_handling_no_std() {
    let s = simple_struct();
    assert_eq!(s.try_from_be_bytes(&[]), Err(BeBytesError::EmptyBuffer));
    assert_eq!(
        s.try_from_be_bytes(&[0x42, 0x12]),
        Err(BeBytesError::InsufficientData { expected: 2, actual: 1 })
    );
}

// ----- bit fields -----

#[test]
fn test_size() {
    assert_eq!(error_estimate().field_size(), 5);
}

#[test]
fn test_endianness_round_trip() {
    let s = error_estimate();
    let v = || st(vec![num(1), num(0), num(63), num(16777215)]);
    let be_bytes = s.to_be_bytes(&v());
    let (be_result, _) = s.try_from_be_bytes(&be_bytes).unwrap();
    assert_eq!(be_result, v());
    let le_bytes = s.to_le_bytes(&v());
    let (le_result, _) = s.try_from_le_bytes(&le_bytes).unwrap();
    assert_eq!(le_result, v());
}

#[test]
fn test_error_estimate_exact_bytes() {
    let s = error_estimate();
    let a = || st(vec![num(0), num(1), num(0), num(1)]);
    let b = || st(vec![num(1), num(0), num(63), num(100)]);
    assert_eq!(s.to_be_bytes(&a()), vec![0b01000000, 0, 0, 0, 1]);
    assert_eq!(s.to_be_bytes(&b()), vec![0b10111111, 0, 0, 0, 100]);
    assert_eq!(s.to_le_bytes(&a()), vec![2, 1, 0, 0, 0]);
    assert_eq!(s.to_le_bytes(&b()), vec![253, 100, 0, 0, 0]);
    assert_eq!(s.try_from_be_bytes(&[0b01000000, 0, 0, 0, 1]).unwrap().0, a());
    assert_eq!(s.try_from_le_bytes(&[253, 100, 0, 0, 0]).unwrap().0, b());
    assert_eq!(s.new_value(vec![num(1), num(0), num(63), num(100)]), b());
}

#[test]
fn test_bare_bits_attribute() {
    let s = Schema {
        fields: vec![bits(PrimitiveType::U8, 4), auto_enum(&[0, 1, 2, 3]), bits(PrimitiveType::U8, 2)],
    };
    let v = || st(vec![num(0x0F), num(2), num(0x03)]);
    let bytes = s.to_be_bytes(&v());
    let (deserialized, _) = s.try_from_be_bytes(&bytes).unwrap();
    assert_eq!(deserialized, v());
}

// ----- nested structs -----

fn dummy_struct() -> Schema {
    Schema { fields: vec![FieldKind::Array(2), bits(PrimitiveType::U8, 1), bits(PrimitiveType::U8, 7)] }
}

#[test]
fn test_nested_structs() {
    let s = Schema {
        fields: vec![
            bits(PrimitiveType::U8, 1),
            bits(PrimitiveType::U8, 1),
            bits(PrimitiveType::U8, 6),
            FieldKind::Nested(dummy_struct()),
        ],
    };
    let inner = || st(vec![bytes_v(&[1, 2]), num(1), num(100)]);
    let v = || st(vec![num(1), num(0), num(31), inner()]);
    let bytes = s.to_be_bytes(&v());
    assert_eq!(bytes.len(), 4);
    let (result, consumed) = s.try_from_be_bytes(&bytes).unwrap();
    assert_eq!(result, v());
    assert_eq!(consumed, 4);
    match result {
        Value::Struct(fs) => {
            assert_eq!(fs[0], num(1));
            assert_eq!(fs[1], num(0));
            assert_eq!(fs[2], num(31));
            assert_eq!(fs[3], inner());
        },
        _ => panic!("not a struct"),
    }
}

fn dns_header() -> Schema {
    let mut fields = vec![bits(PrimitiveType::U16, 16)];
    for w in [1usize, 4, 1, 1, 1, 1, 3, 4] {
        fields.push(bits(PrimitiveType::U8, w));
    }
    for _ in 0..4 {
        fields.push(bits(PrimitiveType::U16, 16));
    }
    Schema { fields }
}

fn dns_question() -> Schema {
    Schema { fields: vec![p(PrimitiveType::U8), p(PrimitiveType::U16), p(PrimitiveType::U16)] }
}

#[test]
fn test_nested_field_access() {
    let s = Schema {
        fields: vec![
            FieldKind::Nested(dns_header()),
            FieldKind::List(dns_question(), Some(CountSpec::FromField(FieldPath { segments: vec![0, 9] }))),
            FieldKind::List(dns_question(), Some(CountSpec::FromField(FieldPath { segments: vec![0, 10] }))),
        ],
    };
    let header = || {
        st(vec![
            num(0x1234), num(0), num(0), num(0), num(0), num(1), num(0), num(0), num(0),
            num(2), num(1), num(0), num(0),
        ])
    };
    let q = |name: u128| st(vec![num(name), num(1), num(1)]);
    let v = || {
        st(vec![
            header(),
            Value::List(vec![q(3), q(4)]),
            Value::List(vec![q(5)]),
        ])
    };
    let bytes = s.to_be_bytes(&v());
    let (deserialized, _) = s.try_from_be_bytes(&bytes).unwrap();
    assert_eq!(deserialized, v());
    match deserialized {
        Value::Struct(fs) => {
            assert_eq!(fs[1], Value::List(vec![q(3), q(4)]));
            assert_eq!(fs[2], Value::List(vec![q(5)]));
        },
        _ => panic!("not a struct"),
    }
}

// ----- one-byte bit fields across a byte boundary -----

fn straddling() -> Schema {
    Schema {
        fields: vec![bits(PrimitiveType::U8, 4), bits(PrimitiveType::U8, 6), bits(PrimitiveType::U8, 6)],
    }
}

#[test]
fn test_straddling_u8_round_trip() {
    let s = straddling();
    let v = || st(vec![num(0x0A), num(0x05), num(0x21)]);
    let be = s.to_be_bytes(&v());
    assert_eq!(be, vec![0b1010_0001, 0b0110_0001]);
    assert_eq!(s.try_from_be_bytes(&be).unwrap(), (v(), 2));
    let le = s.to_le_bytes(&v());
    assert_eq!(s.try_from_le_bytes(&le).unwrap(), (v(), 2));
}

#[test]
fn test_straddling_u8_little_endian_round_trip() {
    let s = straddling();
    let v = || st(vec![num(0), num(63), num(0)]);
    let le = s.to_le_bytes(&v());
    assert_eq!(le, vec![0xF0, 0x03]);
    assert_eq!(s.try_from_le_bytes(&le).unwrap(), (v(), 2));
    let be = s.to_be_bytes(&v());
    assert_eq!(s.try_from_be_bytes(&be).unwrap(), (v(), 2));
}

#[test]
fn test_straddling_u8_big_endian_missing_byte() {
    let s = Schema {
        fields: vec![
            p(PrimitiveType::U8),
            bits(PrimitiveType::U8, 4),
            bits(PrimitiveType::U8, 6),
            bits(PrimitiveType::U8, 6),
        ],
    };
    assert_eq!(
        s.try_from_be_bytes(&[1, 0xAB]),
        Err(BeBytesError::InsufficientData { expected: 2, actual: 1 })
    );
}
