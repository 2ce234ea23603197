use bebytes::codec::BeBytesError;
use bebytes::enums::{
    flag_and, flag_contains, flag_not, flag_or, flag_xor, handle_enum, invalid_flag_values,
    min_bits_for, Discriminant, EnumDef, EnumError, FlagType, VariantDesc, VariantShape,
};
use bebytes::schema::{FieldKind, PrimitiveType, Schema};
use bebytes::value::Value;

fn enum_def(discriminants: &[u8]) -> EnumDef {
    EnumDef { discriminants: discriminants.to_vec(), flags: false }
}

fn flags_def(discriminants: &[u8]) -> EnumDef {
    EnumDef { discriminants: discriminants.to_vec(), flags: true }
}

fn auto_enum(discriminants: &[u8]) -> FieldKind {
    let d = enum_def(discriminants);
    let w = d.min_bits();
    FieldKind::EnumBits(d, w)
}

fn bits(w: usize) -> FieldKind {
    FieldKind::Bits(PrimitiveType::U8, w)
}

fn num(x: u128) -> Value {
    Value::Num(x)
}

fn st(fields: Vec<Value>) -> Value {
    Value::Struct(fields)
}

fn field(v: &Value, i: usize) -> u128 {
    match v {
        Value::Struct(fs) => match fs[i] {
            Value::Num(n) => n,
            _ => panic!("not a number"),
        },
        _ => panic!("not a struct"),
    }
}

// Discriminants of the enums the scenarios use.
const STATUS4: [u8; 4] = [0, 1, 2, 3];
const PRIORITY3: [u8; 3] = [0, 1, 2];
const TEST_STATUS: [u8; 5] = [0, 1, 2, 3, 4];
const PRIORITY4: [u8; 4] = [0, 1, 2, 3];

// ----- automatic widths -----

#[test]
fn test_auto_sized_enum_bits() {
    let status = enum_def(&STATUS4);
    let priority = enum_def(&PRIORITY3);
    assert_eq!(status.min_bits(), 2);
    assert_eq!(priority.min_bits(), 2);

    for v in 0..4u8 {
        assert_eq!(status.try_from(v), Ok(v));
    }
    assert!(status.try_from(4).is_err());
    for v in 0..3u8 {
        assert_eq!(priority.try_from(v), Ok(v));
    }
    assert!(priority.try_from(3).is_err());

    let s = Schema { fields: vec![bits(4), auto_enum(&STATUS4), auto_enum(&PRIORITY3)] };
    let v = || st(vec![num(0b1010), num(1), num(2)]);

    let be_bytes = s.to_be_bytes(&v());
    assert_eq!(be_bytes.len(), 1);
    assert_eq!(be_bytes[0], 0b10100110);
    let (d, read) = s.try_from_be_bytes(&be_bytes).unwrap();
    assert_eq!(read, 1);
    assert_eq!(d, v());

    let le_bytes = s.to_le_bytes(&v());
    assert_eq!(le_bytes.len(), 1);
    assert_eq!(le_bytes[0], 0b10011010);
    let (d, read) = s.try_from_le_bytes(&le_bytes).unwrap();
    assert_eq!(read, 1);
    assert_eq!(d, v());
}

#[test]
fn test_large_enum_auto_bits() {
    let discriminants: Vec<u8> = (0..=16).collect();
    let large = enum_def(&discriminants);
    assert_eq!(large.min_bits(), 5);

    let s = Schema { fields: vec![bits(3), auto_enum(&discriminants)] };
    let v = || st(vec![num(0b101), num(16)]);
    let be_bytes = s.to_be_bytes(&v());
    assert_eq!(be_bytes.len(), 1);
    assert_eq!(be_bytes[0], 0b10110000);
    let (d, _) = s.try_from_be_bytes(&be_bytes).unwrap();
    assert_eq!(d, v());
}

#[test]
fn test_minimum_bits_calculation() {
    assert_eq!(enum_def(&[0]).min_bits(), 1);
    assert_eq!(enum_def(&[0, 1]).min_bits(), 1);
    assert_eq!(enum_def(&[0, 1, 2, 3, 4, 5, 6, 7]).min_bits(), 3);
    assert_eq!(enum_def(&[0, 1, 2, 3, 4, 5, 6, 7, 8]).min_bits(), 4);
}

fn multi_auto() -> Schema {
    Schema {
        fields: vec![
            auto_enum(&[0]),
            auto_enum(&[0, 1]),
            auto_enum(&[0, 1, 2, 3, 4, 5, 6, 7]),
            auto_enum(&[0, 1, 2, 3, 4, 5, 6, 7, 8]),
        ],
    }
}

#[test]
fn test_multiple_auto_enums() {
    let s = multi_auto();
    let v = || st(vec![num(0), num(1), num(7), num(8)]);
    let be_bytes = s.to_be_bytes(&v());
    assert_eq!(be_bytes.len(), 2);
    let (d, read) = s.try_from_be_bytes(&be_bytes).unwrap();
    assert_eq!(read, 2);
    assert_eq!(d, v());
}

fn mixed_bit_fields() -> Schema {
    Schema { fields: vec![bits(5), auto_enum(&[0, 1]), bits(2)] }
}

#[test]
fn test_mixed_auto_and_explicit_bits() {
    let s = mixed_bit_fields();
    let v = || st(vec![num(0b11010), num(0), num(0b11)]);
    let be_bytes = s.to_be_bytes(&v());
    assert_eq!(be_bytes.len(), 1);
    assert_eq!(be_bytes[0], 0b11010011);
    let (d, _) = s.try_from_be_bytes(&be_bytes).unwrap();
    assert_eq!(d, v());
}

#[test]
fn test_try_from_errors() {
    assert!(enum_def(&[0]).try_from(1).is_err());
    assert!(enum_def(&[0, 1]).try_from(2).is_err());
    assert!(enum_def(&[0, 1]).try_from(255).is_err());
    assert!(enum_def(&[0, 1, 2, 3, 4, 5, 6, 7]).try_from(8).is_err());
    assert_eq!(
        enum_def(&[0, 1, 2, 3, 4, 5, 6, 7, 8]).try_from(9),
        Err(BeBytesError::InvalidDiscriminant { value: 9 })
    );
}

#[test]
fn test_non_contiguous_enum() {
    let d = enum_def(&[0, 2, 5, 7]);
    assert_eq!(d.min_bits(), 3);
    for v in [0u8, 2, 5, 7] {
        assert_eq!(d.try_from(v), Ok(v));
    }
    for v in [1u8, 3, 4, 6] {
        assert!(d.try_from(v).is_err());
    }
}

#[test]
fn test_cross_byte_boundary() {
    let s = Schema { fields: vec![bits(7), auto_enum(&[0, 1, 2, 3, 4, 5, 6, 7]), bits(6)] };
    let v = || st(vec![num(0b1111111), num(5), num(0b101010)]);
    let be_bytes = s.to_be_bytes(&v());
    assert_eq!(be_bytes.len(), 2);
    let (d, _) = s.try_from_be_bytes(&be_bytes).unwrap();
    assert_eq!(d, v());
}

#[test]
fn test_little_endian_auto_enums() {
    let s = mixed_bit_fields();
    let v = || st(vec![num(0b10101), num(1), num(0b10)]);
    let le_bytes = s.to_le_bytes(&v());
    assert_eq!(le_bytes.len(), 1);
    assert_eq!(le_bytes[0], 0b10110101);
    let (d, _) = s.try_from_le_bytes(&le_bytes).unwrap();
    assert_eq!(d, v());
}

#[test]
fn test_auto_width_refuses_unknown_discriminant() {
    // A 2-bit field of an enum without discriminant 3 cannot decode 0b11.
    let s = Schema { fields: vec![auto_enum(&PRIORITY3), bits(6)] };
    assert_eq!(
        s.try_from_be_bytes(&[0b1100_0000]),
        Err(BeBytesError::InvalidDiscriminant { value: 3 })
    );
}

// ----- enums in integer bit fields and whole bytes -----

fn status_packet() -> Schema {
    Schema { fields: vec![bits(3), bits(2), bits(3)] }
}

fn mixed_packet() -> Schema {
    Schema {
        fields: vec![bits(1), bits(3), bits(2), bits(2), FieldKind::Primitive(PrimitiveType::U16)],
    }
}

#[test]
fn test_enum_bits_basic() {
    let s = status_packet();
    let packet = || st(vec![num(1), num(2), num(0)]);
    let be_bytes = s.to_be_bytes(&packet());
    let (decoded, len) = s.try_from_be_bytes(&be_bytes).unwrap();
    assert_eq!(field(&decoded, 0), 1);
    assert_eq!(field(&decoded, 1), 2);
    assert_eq!(field(&decoded, 2), 0);
    assert_eq!(len, be_bytes.len());

    let le_bytes = s.to_le_bytes(&packet());
    let (decoded_le, len_le) = s.try_from_le_bytes(&le_bytes).unwrap();
    assert_eq!(field(&decoded_le, 0), 1);
    assert_eq!(field(&decoded_le, 1), 2);
    assert_eq!(len_le, le_bytes.len());
}

#[test]
fn test_enum_bits_all_variants() {
    let s = status_packet();
    for status in TEST_STATUS {
        for priority in PRIORITY4 {
            let packet = || st(vec![num(status as u128), num(priority as u128), num(0)]);
            let (decoded, _) = s.try_from_be_bytes(&s.to_be_bytes(&packet())).unwrap();
            assert_eq!(field(&decoded, 0), status as u128);
            assert_eq!(field(&decoded, 1), priority as u128);
            let (decoded_le, _) = s.try_from_le_bytes(&s.to_le_bytes(&packet())).unwrap();
            assert_eq!(field(&decoded_le, 0), status as u128);
            assert_eq!(field(&decoded_le, 1), priority as u128);
        }
    }
}

#[test]
fn test_simple_enum_packet() {
    let s = Schema {
        fields: vec![
            FieldKind::Primitive(PrimitiveType::U8),
            FieldKind::Enum(enum_def(&TEST_STATUS)),
            FieldKind::Enum(enum_def(&PRIORITY4)),
            FieldKind::Primitive(PrimitiveType::U16),
        ],
    };
    let packet = || st(vec![num(0xFF), num(2), num(1), num(0x1234)]);
    let be_bytes = s.to_be_bytes(&packet());
    assert_eq!(be_bytes, vec![0xFF, 2, 1, 0x12, 0x34]);
    let (decoded, len) = s.try_from_be_bytes(&be_bytes).unwrap();
    assert_eq!(decoded, packet());
    assert_eq!(len, be_bytes.len());
    let le_bytes = s.to_le_bytes(&packet());
    let (decoded_le, _) = s.try_from_le_bytes(&le_bytes).unwrap();
    assert_eq!(decoded_le, packet());
}

#[test]
fn test_mixed_packet() {
    let s = mixed_packet();
    let packet = || st(vec![num(1), num(2), num(1), num(0), num(0x1234)]);
    let be_bytes = s.to_be_bytes(&packet());
    let (decoded, len) = s.try_from_be_bytes(&be_bytes).unwrap();
    assert_eq!(field(&decoded, 0), 1);
    assert_eq!(field(&decoded, 1), 2);
    assert_eq!(field(&decoded, 2), 1);
    assert_eq!(field(&decoded, 4), 0x1234);
    assert_eq!(len, be_bytes.len());

    let le_bytes = s.to_le_bytes(&packet());
    let (decoded_le, len_le) = s.try_from_le_bytes(&le_bytes).unwrap();
    assert_eq!(decoded_le, packet());
    assert_eq!(len_le, le_bytes.len());
}

#[test]
fn test_enum_constructor() {
    let s = status_packet();
    let packet = s.new_value(vec![num(4), num(3), num(0)]);
    assert_eq!(packet, st(vec![num(4), num(3), num(0)]));

    let m = mixed_packet();
    let mixed = m.new_value(vec![num(1), num(1), num(0), num(0), num(0xABCD)]);
    assert_eq!(field(&mixed, 0), 1);
    assert_eq!(field(&mixed, 1), 1);
    assert_eq!(field(&mixed, 2), 0);
    assert_eq!(field(&mixed, 3), 0);
    assert_eq!(field(&mixed, 4), 0xABCD);
}

#[test]
fn test_endianness_difference() {
    let s = mixed_packet();
    let packet = || st(vec![num(1), num(4), num(3), num(0), num(0x1234)]);
    let be_bytes = s.to_be_bytes(&packet());
    let le_bytes = s.to_le_bytes(&packet());
    assert_ne!(be_bytes, le_bytes);
    let (from_be, _) = s.try_from_be_bytes(&be_bytes).unwrap();
    let (from_le, _) = s.try_from_le_bytes(&le_bytes).unwrap();
    assert_eq!(from_be, packet());
    assert_eq!(from_le, packet());
}

#[test]
fn test_enum_min_bits() {
    assert_eq!(enum_def(&TEST_STATUS).min_bits(), 3);
    assert_eq!(enum_def(&PRIORITY4).min_bits(), 2);
}

#[test]
fn test_bare_enum_bytes() {
    let d = enum_def(&TEST_STATUS);
    assert_eq!(d.field_size(), 1);
    assert_eq!(d.to_be_bytes(3), vec![3]);
    assert_eq!(d.to_le_bytes(3), vec![3]);
    assert_eq!(d.try_from_be_bytes(&[4, 9]), Ok((4, 1)));
    assert_eq!(d.try_from_le_bytes(&[]), Err(BeBytesError::EmptyBuffer));
    assert_eq!(d.try_from_be_bytes(&[5]), Err(BeBytesError::InvalidDiscriminant { value: 5 }));
    let mut buf = vec![0xAA];
    d.encode_be_to(2, &mut buf).unwrap();
    assert_eq!(buf, vec![0xAA, 2]);
}

// ----- flag enums -----

const PERMISSIONS: [u8; 3] = [1, 2, 4];
const FILE_ATTRIBUTES: [u8; 7] = [1, 2, 4, 8, 16, 32, 64];

#[test]
fn test_bitwise_or() {
    let read_write = flag_or(1, 2);
    assert_eq!(read_write, 3);
    assert_eq!(flag_or(flag_or(1, 2), 4), 7);
}

#[test]
fn test_bitwise_and() {
    let read_write = flag_or(1, 2);
    assert_eq!(flag_and(read_write, 1), 1);
    assert_eq!(flag_and(read_write, 4), 0);
}

#[test]
fn test_bitwise_xor() {
    let perms = flag_or(1, 2);
    let toggled = flag_xor(perms, 2);
    assert_eq!(toggled, 1);
    assert_eq!(flag_xor(toggled, 2), 3);
}

#[test]
fn test_not_operator() {
    let inverted = flag_not(1);
    assert_eq!(inverted & 0b111, 0b110);
}

#[test]
fn test_contains_method() {
    let perms = flag_or(1, 4);
    assert!(flag_contains(1, 1));
    assert!(!flag_contains(1, 2));
    assert_eq!(flag_and(perms, 1), 1);
}

#[test]
fn test_from_bits() {
    let p = flags_def(&PERMISSIONS);
    assert_eq!(p.from_bits(7), Some(7));
    assert_eq!(p.from_bits(3), Some(3));
    assert_eq!(p.from_bits(8), None);
    assert_eq!(p.from_bits(15), None);
}

#[test]
fn test_large_flag_enum() {
    let attrs = flag_or(flag_or(1, 4), 32);
    assert_eq!(attrs, 1 | 4 | 32);
    assert_eq!(attrs, 37);
    let f = flags_def(&FILE_ATTRIBUTES);
    assert_eq!(f.from_bits(127), Some(127));
    assert_eq!(f.from_bits(128), None);
}

#[test]
fn test_decompose_and_iter_flags() {
    let f = flags_def(&FILE_ATTRIBUTES);
    assert_eq!(f.decompose(37), vec![1, 4, 32]);
    assert_eq!(f.iter_flags(0), Vec::<u8>::new());
    assert_eq!(f.iter_flags(9), vec![1, 8]);
}

#[test]
fn test_flag_validation() {
    assert_eq!(invalid_flag_values(&vec![1, 2, 4]), Vec::<usize>::new());
    assert_eq!(invalid_flag_values(&vec![0, 1, 3, 8, 6]), vec![2, 4]);
}

// ----- enum layout -----

fn unit(d: Option<u128>) -> VariantDesc {
    VariantDesc {
        shape: VariantShape::Unit,
        discriminant: match d {
            Some(v) => Discriminant::Literal(v),
            None => Discriminant::Implicit,
        },
    }
}

fn units(ds: &[Option<u128>]) -> Vec<VariantDesc> {
    ds.iter().map(|d| unit(*d)).collect()
}

#[test]
fn test_handle_enum_layout() {
    let l = handle_enum(vec![], &units(&[None, None, Some(7), None]), None);
    assert_eq!(l.values, vec![0, 1, 7, 8]);
    assert_eq!(l.max_discriminant, 8);
    assert_eq!(l.flag_type, FlagType::U8);
    assert_eq!(l.byte_size, 1);
    assert_eq!(l.min_bits, 4);
    assert_eq!(l.errors, vec![]);

    let big = handle_enum(vec![], &units(&[Some(70000)]), None);
    assert_eq!(big.flag_type, FlagType::U32);
    assert_eq!(big.byte_size, 4);
    assert_eq!(big.min_bits, 17);
    assert_eq!(big.errors, vec![EnumError::OutOfRange(0)]);

    let forced = handle_enum(vec![], &units(&[None, None]), Some(FlagType::U16));
    assert_eq!(forced.flag_type, FlagType::U16);
    assert_eq!(forced.byte_size, 2);
    assert_eq!(forced.min_bits, 1);

    let empty = handle_enum(vec![], &vec![], None);
    assert_eq!(empty.max_discriminant, 0);
    assert_eq!(empty.min_bits, 1);
    assert_eq!(min_bits_for(u128::MAX), 128);
}

#[test]
fn test_handle_enum_implicit_after_explicit() {
    let l = handle_enum(vec![], &units(&[Some(5), None]), None);
    assert_eq!(l.values, vec![5, 6]);
    let l = handle_enum(vec![], &units(&[Some(254), None, None]), None);
    assert_eq!(l.values, vec![254, 255, 256]);
    assert_eq!(l.errors, vec![EnumError::OutOfRange(2)]);
}

#[test]
fn test_handle_enum_errors() {
    let vs = vec![
        VariantDesc { shape: VariantShape::Named, discriminant: Discriminant::Implicit },
        VariantDesc { shape: VariantShape::Unnamed, discriminant: Discriminant::Unparsable },
        unit(Some(u128::MAX)),
        unit(None),
    ];
    let l = handle_enum(vec![EnumError::OutOfRange(9)], &vs, None);
    assert_eq!(l.values, vec![0, 0, u128::MAX, 0]);
    assert_eq!(
        l.errors,
        vec![
            EnumError::OutOfRange(9),
            EnumError::StructVariant(0),
            EnumError::TupleVariant(1),
            EnumError::UnparsableDiscriminant(1),
            EnumError::OutOfRange(2),
            EnumError::DiscriminantOverflow(3),
        ]
    );
}

#[test]
fn test_flag_type_helpers() {
    assert_eq!(FlagType::from_max_value(255), FlagType::U8);
    assert_eq!(FlagType::from_max_value(256), FlagType::U16);
    assert_eq!(FlagType::from_max_value(u64::MAX as u128 + 1), FlagType::U128);
    assert_eq!(FlagType::U32.byte_size(), 4);
    assert_eq!(FlagType::U16.max_value(), 65535);
    assert_eq!(FlagType::U128.type_label(), "u128");
    assert_eq!(FlagType::U8.type_label(), "u8");
}
