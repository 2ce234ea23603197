use bebytes::consts::Endianness;
use bebytes::context::{AttributeData, ProcessingContext};
use bebytes::schema::{CountSpec, FieldKind, PrimitiveType, Schema, SizeSpec};
use bebytes::size_expr::{BinaryOperator, FieldPath, SizeExpression};
use bebytes::validate::{validate_byte_completeness, validate_fields, BitsAttr, CompletenessError, FieldError};

#[test]
fn test_processing_context_builder() {
    let ctx = ProcessingContext::new(Endianness::Big).with_bit_position(16).with_last_field(true);
    assert_eq!(ctx.bit_position, 16);
    assert!(ctx.is_last_field);
    assert_eq!(ctx.endianness, Endianness::Big);
}

#[test]
fn test_attribute_data_merge() {
    let attr1 = AttributeData::new().with_size(8);
    let attr2 = AttributeData::new().with_bits_attribute();
    let attr3 = AttributeData::new().with_field(vec!["test".to_string()]);
    let merged = AttributeData::merge(vec![attr1, attr2, attr3]);
    assert_eq!(merged.size, Some(8));
    assert!(merged.is_bits_attribute);
    assert!(merged.field.is_some());
    assert!(merged.size_expression.is_none());
}

#[test]
fn test_attribute_data_merge_last_wins() {
    let a = AttributeData::new().with_size(4);
    let b = AttributeData::new().with_size(9);
    let c = AttributeData::new().with_size_expression(SizeExpression::BinaryOp {
        left: Box::new(SizeExpression::Literal(2)),
        op: BinaryOperator::Multiply,
        right: Box::new(SizeExpression::Literal(3)),
    });
    let merged = AttributeData::merge(vec![a, b, c]);
    assert_eq!(merged.size, Some(9));
    assert!(merged.size_expression.is_some());
    assert!(!merged.is_bits_attribute);
    let none = AttributeData::merge(vec![]);
    assert_eq!(none.size, None);
    assert!(none.field.is_none());
}

fn w(n: usize) -> Option<BitsAttr> {
    Some(BitsAttr::Width(n))
}

#[test]
fn test_byte_completeness_accepts_whole_bytes() {
    let attrs = vec![w(1), w(1), w(6), w(16)];
    assert_eq!(validate_byte_completeness(&attrs), Ok(()));
    assert_eq!(validate_byte_completeness(&vec![]), Ok(()));
    // Runs separated by other fields, each a whole number of bytes.
    assert_eq!(validate_byte_completeness(&vec![w(4), w(4), None, w(8), None]), Ok(()));
}

#[test]
fn test_byte_completeness_errors() {
    assert_eq!(
        validate_byte_completeness(&vec![w(3), w(2)]),
        Err(CompletenessError::Incomplete { total_bits: 5, missing_bits: 3 })
    );
    assert_eq!(
        validate_byte_completeness(&vec![w(4), w(0), Some(BitsAttr::Malformed)]),
        Err(CompletenessError::ZeroWidth { index: 1 })
    );
    assert_eq!(
        validate_byte_completeness(&vec![Some(BitsAttr::Auto), Some(BitsAttr::Malformed)]),
        Err(CompletenessError::Malformed { index: 1 })
    );
    // An automatic width defers the byte check of its run.
    assert_eq!(validate_byte_completeness(&vec![w(3), Some(BitsAttr::Auto)]), Ok(()));
}

#[test]
fn test_byte_completeness_per_run() {
    // Four bits, a u16, then four more bits: each run falls short of a byte.
    assert_eq!(
        validate_byte_completeness(&vec![w(4), None, w(4)]),
        Err(CompletenessError::Incomplete { total_bits: 4, missing_bits: 4 })
    );
    assert_eq!(
        validate_byte_completeness(&vec![w(8), None, w(2), w(3), None]),
        Err(CompletenessError::Incomplete { total_bits: 5, missing_bits: 3 })
    );
    assert_eq!(
        validate_byte_completeness(&vec![w(3), Some(BitsAttr::Auto), None, w(1)]),
        Err(CompletenessError::Incomplete { total_bits: 1, missing_bits: 7 })
    );
}

#[test]
fn test_field_validation() {
    let ok = Schema {
        fields: vec![
            FieldKind::Bits(PrimitiveType::U8, 8),
            FieldKind::Primitive(PrimitiveType::U16),
            FieldKind::Bytes(SizeSpec::Rest),
        ],
    };
    assert!(validate_fields(&ok).is_empty());

    let bad = Schema {
        fields: vec![
            FieldKind::Bits(PrimitiveType::F32, 3),
            FieldKind::Bits(PrimitiveType::U8, 9),
            FieldKind::Text(SizeSpec::Rest),
            FieldKind::List(Schema { fields: vec![FieldKind::Primitive(PrimitiveType::U8)] }, None),
            FieldKind::List(
                Schema { fields: vec![FieldKind::Primitive(PrimitiveType::U8)] },
                Some(CountSpec::FromField(FieldPath { segments: vec![0] })),
            ),
            FieldKind::Primitive(PrimitiveType::U8),
        ],
    };
    assert_eq!(
        validate_fields(&bad),
        vec![
            FieldError::UnsupportedBitsType { index: 0 },
            FieldError::BitsTooWide { index: 1 },
            FieldError::UnboundedNotLast { index: 2 },
            FieldError::MissingVectorSize { index: 3 },
        ]
    );
}

use bebytes::context::aggregate_results;
use bebytes::enums::EnumDef;
use bebytes::resolve::{determine_field_type, FieldAttrs, FieldTypeError, MarkerAttr, TypeDesc};

fn no_attrs() -> FieldAttrs {
    FieldAttrs { bits: None, size: None, from_field: None, size_expression: None, marker: None }
}

fn u8_ty() -> TypeDesc {
    TypeDesc::Primitive(PrimitiveType::U8)
}

fn byte_vec() -> TypeDesc {
    TypeDesc::VecOf(Box::new(u8_ty()))
}

#[test]
fn test_determine_field_type_plain_types() {
    assert!(matches!(
        determine_field_type(TypeDesc::Primitive(PrimitiveType::U32), no_attrs()),
        Ok(FieldKind::Primitive(PrimitiveType::U32))
    ));
    assert!(matches!(determine_field_type(TypeDesc::ByteArray(4), no_attrs()), Ok(FieldKind::Array(4))));
    assert!(matches!(
        determine_field_type(TypeDesc::OptionOf(Box::new(TypeDesc::Primitive(PrimitiveType::Char))), no_attrs()),
        Ok(FieldKind::OptionPrimitive(PrimitiveType::Char))
    ));
    assert!(matches!(
        determine_field_type(TypeDesc::OptionOf(Box::new(TypeDesc::ByteArray(16))), no_attrs()),
        Ok(FieldKind::OptionArray(16))
    ));
    // Without a size a byte vector takes the rest of the input; where it may
    // stand is checked with the whole struct.
    assert!(matches!(determine_field_type(byte_vec(), no_attrs()), Ok(FieldKind::Bytes(SizeSpec::Rest))));
    assert!(matches!(determine_field_type(TypeDesc::Text, no_attrs()), Ok(FieldKind::Text(SizeSpec::Rest))));
    assert_eq!(determine_field_type(TypeDesc::Unsupported, no_attrs()).err(), Some(FieldTypeError::UnsupportedType));
}

#[test]
fn test_determine_field_type_attributes() {
    let bits = FieldAttrs { bits: Some(Some(3)), ..no_attrs() };
    assert!(matches!(determine_field_type(u8_ty(), bits), Ok(FieldKind::Bits(PrimitiveType::U8, 3))));

    let auto = FieldAttrs { bits: Some(None), ..no_attrs() };
    let e = EnumDef { discriminants: vec![0, 1, 2, 3, 4], flags: false };
    match determine_field_type(TypeDesc::Enum(e), auto) {
        Ok(FieldKind::EnumBits(_, w)) => assert_eq!(w, 3),
        _ => panic!("expected an enum bit field"),
    }
    let auto2 = FieldAttrs { bits: Some(None), ..no_attrs() };
    assert_eq!(determine_field_type(u8_ty(), auto2).err(), Some(FieldTypeError::BitsSizeRequired));
    let float_bits = FieldAttrs { bits: Some(Some(4)), ..no_attrs() };
    assert_eq!(
        determine_field_type(TypeDesc::Primitive(PrimitiveType::F32), float_bits).err(),
        Some(FieldTypeError::UnsupportedBitsType)
    );

    let sized = FieldAttrs { size: Some(16), ..no_attrs() };
    assert!(matches!(determine_field_type(TypeDesc::Text, sized), Ok(FieldKind::Text(SizeSpec::Fixed(16)))));
    let until = FieldAttrs { marker: Some(MarkerAttr::Until(0xFF)), ..no_attrs() };
    assert!(matches!(determine_field_type(byte_vec(), until), Ok(FieldKind::Bytes(SizeSpec::UntilMarker(0xFF)))));
    let expr = FieldAttrs { size_expression: Some(SizeExpression::Literal(3)), ..no_attrs() };
    assert_eq!(determine_field_type(u8_ty(), expr).err(), Some(FieldTypeError::SizeExpressionType));

    let segs = FieldAttrs { size: Some(3), marker: Some(MarkerAttr::Until(0xFF)), ..no_attrs() };
    assert!(matches!(
        determine_field_type(TypeDesc::VecOf(Box::new(byte_vec())), segs),
        Ok(FieldKind::Segments(CountSpec::Fixed(3), 0xFF))
    ));
    let item = Schema { fields: vec![FieldKind::Primitive(PrimitiveType::U16)] };
    assert!(matches!(
        determine_field_type(TypeDesc::VecOf(Box::new(TypeDesc::Struct(item))), no_attrs()),
        Ok(FieldKind::List(_, None))
    ));
}

#[test]
fn test_aggregate_results() {
    let all_ok: Vec<Result<u8, &str>> = vec![Ok(1), Ok(2), Ok(3)];
    assert_eq!(aggregate_results(all_ok), Ok(vec![1, 2, 3]));
    let mixed: Vec<Result<u8, &str>> = vec![Ok(1), Err("error1"), Ok(2), Err("error2")];
    assert_eq!(aggregate_results(mixed), Err(vec!["error1", "error2"]));
    let empty: Vec<Result<u8, &str>> = vec![];
    assert_eq!(aggregate_results(empty), Ok(vec![]));
}
