use bebytes::attrs::{bits_attr, field_attrs, AttrError, AttrTree};
use bebytes::layout::{struct_schema, StructError};
use bebytes::resolve::{determine_field_type, FieldAttrs, FieldTypeError, TypeDesc};
use bebytes::schema::{FieldKind, PrimitiveType, Schema, SizeSpec};
use bebytes::size_expr::{FieldPath, SizeExpression};
use bebytes::size_parse::{PathEntry, SizeExprError};
use bebytes::types::{describe_type, scope_of, KnownEntry, KnownKind, ScopeField, TypeTree};
use bebytes::validate::{BitsAttr, CompletenessError, FieldError};

fn list(name: &str, text: &str) -> AttrTree {
    AttrTree::List(name.to_string(), text.to_string())
}

fn path_ty(name: &str) -> TypeTree {
    TypeTree::Path(name.to_string(), vec![])
}

fn generic(name: &str, arg: TypeTree) -> TypeTree {
    TypeTree::Path(name.to_string(), vec![arg])
}

fn entry(names: &[&str], positions: &[usize]) -> PathEntry {
    PathEntry { names: names.iter().map(|s| s.to_string()).collect(), positions: positions.to_vec() }
}

fn no_attrs() -> FieldAttrs {
    FieldAttrs { bits: None, size: None, from_field: None, size_expression: None, marker: None }
}

fn scope() -> Vec<PathEntry> {
    vec![entry(&["count"], &[0]), entry(&["header"], &[1]), entry(&["header", "qdcount"], &[1, 0])]
}

#[test]
fn test_field_attrs_bits() {
    let a = field_attrs(&vec![list("bits", "4")], &scope()).ok().unwrap();
    assert_eq!(a.bits, Some(Some(4)));
    let a = field_attrs(&vec![list("bits", "")], &scope()).ok().unwrap();
    assert_eq!(a.bits, Some(None));
    assert_eq!(field_attrs(&vec![list("bits", "x")], &scope()).err(), Some(vec![AttrError::MalformedBits]));
    assert_eq!(
        field_attrs(&vec![AttrTree::NameValue("bits".to_string())], &scope()).err(),
        Some(vec![AttrError::BitsNameValue])
    );
    assert_eq!(bits_attr(&vec![list("doc", "x"), list("bits", "6")]), Some(BitsAttr::Width(6)));
    assert_eq!(bits_attr(&vec![list("bits", "")]), Some(BitsAttr::Auto));
    assert_eq!(bits_attr(&vec![list("bits", "six")]), Some(BitsAttr::Malformed));
    assert_eq!(bits_attr(&vec![list("With", "size(3)")]), None);
}

#[test]
fn test_field_attrs_with_size() {
    let a = field_attrs(&vec![list("With", "size(16)")], &scope()).ok().unwrap();
    assert_eq!(a.size, Some(16));
    assert!(a.size_expression.is_none());
    let a = field_attrs(&vec![list("With", "size(count * 4)")], &scope()).ok().unwrap();
    assert_eq!(a.size, None);
    assert_eq!(
        a.size_expression,
        Some(SizeExpression::BinaryOp {
            left: Box::new(SizeExpression::FieldRef(FieldPath { segments: vec![0] })),
            op: bebytes::size_expr::BinaryOperator::Multiply,
            right: Box::new(SizeExpression::Literal(4)),
        })
    );
    assert_eq!(
        field_attrs(&vec![list("With", "length(3)")], &scope()).err(),
        Some(vec![AttrError::WithOnlySize])
    );
    assert_eq!(
        field_attrs(&vec![list("With", "size(missing)")], &scope()).err(),
        Some(vec![AttrError::SizeExpr(SizeExprError::UnknownField)])
    );
    let a = field_attrs(&vec![list("size", "header.qdcount + 1")], &scope()).ok().unwrap();
    assert!(a.size_expression.is_some());
}

#[test]
fn test_field_attrs_from_field_and_markers() {
    let a = field_attrs(&vec![list("FromField", "header.qdcount")], &scope()).ok().unwrap();
    assert_eq!(a.from_field, Some(FieldPath { segments: vec![1, 0] }));
    assert_eq!(
        field_attrs(&vec![list("FromField", "nothing")], &scope()).err(),
        Some(vec![AttrError::UnknownField])
    );
    assert_eq!(
        field_attrs(&vec![list("FromField", "1 + 2")], &scope()).err(),
        Some(vec![AttrError::FromFieldPath])
    );
    let a = field_attrs(&vec![list("UntilMarker", "0xFF")], &scope()).ok().unwrap();
    assert_eq!(a.marker, Some(bebytes::resolve::MarkerAttr::Until(0xFF)));
    assert_eq!(
        field_attrs(&vec![list("AfterMarker", "300"), list("bits", "x")], &scope()).err(),
        Some(vec![AttrError::MarkerForm, AttrError::MalformedBits])
    );
    // A later attribute replaces an earlier one; other attributes say nothing.
    let a = field_attrs(&vec![list("With", "size(2)"), list("doc", "text"), list("With", "size(5)")], &scope())
        .ok()
        .unwrap();
    assert_eq!(a.size, Some(5));
}

#[test]
fn test_describe_type() {
    let known = || {
        vec![KnownEntry {
            name: "Header".to_string(),
            kind: KnownKind::Struct(Schema { fields: vec![FieldKind::Primitive(PrimitiveType::U16)] }),
        }]
    };
    assert!(matches!(describe_type(path_ty("u32"), known()), TypeDesc::Primitive(PrimitiveType::U32)));
    assert!(matches!(describe_type(path_ty("String"), known()), TypeDesc::Text));
    assert!(matches!(
        describe_type(generic("Vec", path_ty("u8")), known()),
        TypeDesc::VecOf(inner) if matches!(*inner, TypeDesc::Primitive(PrimitiveType::U8))
    ));
    assert!(matches!(
        describe_type(generic("Option", path_ty("i16")), known()),
        TypeDesc::OptionOf(inner) if matches!(*inner, TypeDesc::Primitive(PrimitiveType::I16))
    ));
    assert!(matches!(
        describe_type(TypeTree::Array(Box::new(path_ty("u8")), "16".to_string()), known()),
        TypeDesc::ByteArray(16)
    ));
    assert!(matches!(
        describe_type(TypeTree::Array(Box::new(path_ty("u16")), "4".to_string()), known()),
        TypeDesc::Unsupported
    ));
    assert!(matches!(describe_type(path_ty("Header"), known()), TypeDesc::Struct(s) if s.fields.len() == 1));
    assert!(matches!(describe_type(path_ty("Unknown"), known()), TypeDesc::Unsupported));
    assert!(matches!(describe_type(path_ty("Vec"), known()), TypeDesc::Unsupported));
    assert!(matches!(describe_type(TypeTree::Other, known()), TypeDesc::Unsupported));
}

#[test]
fn test_scope_of_nested_paths() {
    let fields = vec![
        ScopeField { name: "count".to_string(), inner: vec![] },
        ScopeField { name: "header".to_string(), inner: vec![entry(&["id"], &[0]), entry(&["qdcount"], &[1])] },
    ];
    assert_eq!(
        scope_of(&fields),
        vec![
            entry(&["count"], &[0]),
            entry(&["header"], &[1]),
            entry(&["header", "id"], &[1, 0]),
            entry(&["header", "qdcount"], &[1, 1]),
        ]
    );
}

#[test]
fn test_determine_field_type_classifies_only() {
    // A String or an unsized Vec<u8> that is not the last field is still
    // classified; the position is checked with the whole struct.
    assert!(matches!(determine_field_type(TypeDesc::Text, no_attrs()), Ok(FieldKind::Text(SizeSpec::Rest))));
    let fields = vec![(TypeDesc::Text, no_attrs()), (TypeDesc::Primitive(PrimitiveType::U8), no_attrs())];
    assert_eq!(
        struct_schema(&vec![None, None], fields).err(),
        Some(StructError::Field(FieldError::UnboundedNotLast { index: 0 }))
    );
}

#[test]
fn test_struct_schema() {
    let bits = |n: usize| FieldAttrs { bits: Some(Some(n)), ..no_attrs() };
    let u8_ty = || TypeDesc::Primitive(PrimitiveType::U8);
    let s = struct_schema(
        &vec![Some(BitsAttr::Width(4)), Some(BitsAttr::Width(4)), None],
        vec![(u8_ty(), bits(4)), (u8_ty(), bits(4)), (TypeDesc::Primitive(PrimitiveType::U16), no_attrs())],
    )
    .ok()
    .unwrap();
    assert_eq!(s.field_size(), 3);
    assert_eq!(
        struct_schema(&vec![Some(BitsAttr::Width(4)), None], vec![(u8_ty(), bits(4)), (u8_ty(), no_attrs())]).err(),
        Some(StructError::Completeness(CompletenessError::Incomplete { total_bits: 4, missing_bits: 4 }))
    );
    assert_eq!(
        struct_schema(&vec![None], vec![(TypeDesc::Unsupported, no_attrs())]).err(),
        Some(StructError::FieldType { index: 0, error: FieldTypeError::UnsupportedType })
    );
    assert_eq!(
        struct_schema(&vec![Some(BitsAttr::Width(usize::MAX)), Some(BitsAttr::Width(1))], vec![]).err(),
        Some(StructError::BitsOverflow)
    );
}

#[test]
fn test_parse_attributes_returns_values() {
    let widths = ["7", "9", "16"];
    let tys = [PrimitiveType::U8, PrimitiveType::U16, PrimitiveType::U16];
    let mut bits = Vec::new();
    let mut fields = Vec::new();
    for i in 0..3 {
        let one = vec![list("bits", widths[i])];
        bits.push(bits_attr(&one));
        fields.push((TypeDesc::Primitive(tys[i]), field_attrs(&one, &vec![]).ok().unwrap()));
    }
    let s = struct_schema(&bits, fields).ok().unwrap();
    assert_eq!(s.field_size(), 4);
    let v = bebytes::value::Value::Struct(vec![
        bebytes::value::Value::Num(127),
        bebytes::value::Value::Num(511),
        bebytes::value::Value::Num(65535),
    ]);
    let bytes = s.to_be_bytes(&v);
    assert_eq!(bytes.len(), 4);
    assert_eq!(s.try_from_be_bytes(&bytes), Ok((v, 4)));
}

#[test]
fn test_raw_pointer_size() {
    let small = Schema {
        fields: vec![
            FieldKind::Primitive(PrimitiveType::U32),
            FieldKind::Primitive(PrimitiveType::U16),
            FieldKind::Primitive(PrimitiveType::U8),
        ],
    };
    assert_eq!(small.raw_pointer_size(), Some(7));
    let large = Schema { fields: vec![FieldKind::Array(200), FieldKind::Primitive(PrimitiveType::U128), FieldKind::Primitive(PrimitiveType::U32)] };
    assert_eq!(large.raw_pointer_size(), Some(220));
    let with_vec = Schema { fields: vec![FieldKind::Primitive(PrimitiveType::U8), FieldKind::Bytes(SizeSpec::Rest)] };
    assert_eq!(with_vec.raw_pointer_size(), None);
    assert_eq!(Schema { fields: vec![FieldKind::Array(300)] }.raw_pointer_size(), None);
}
