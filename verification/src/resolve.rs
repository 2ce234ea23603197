//! How a field's Rust type and attributes decide its encoding.
use vstd::prelude::*;
use crate::enums::EnumDef;
use crate::schema::{CountSpec, FieldKind, PrimitiveType, Schema, SizeSpec};
use crate::size_expr::{FieldPath, SizeExpression};

verus! {

/// The Rust type of a field, as far as the encoding depends on it.
pub enum TypeDesc {
    Primitive(PrimitiveType),
    /// `[u8; N]`
    ByteArray(usize),
    /// `Option<T>`
    OptionOf(Box<TypeDesc>),
    /// `Vec<T>`
    VecOf(Box<TypeDesc>),
    /// `String`
    Text,
    /// Another struct with a layout.
    Struct(Schema),
    /// A fieldless enum.
    Enum(EnumDef),
    /// Any other type.
    Unsupported,
}

/// A marker attribute of a vector or string field.
#[derive(Clone, Copy, Debug, PartialEq, Eq, Structural)]
pub enum MarkerAttr {
    /// `#[UntilMarker(m)]`
    Until(u8),
    /// `#[AfterMarker(m)]`
    After(u8),
}

/// The attributes of one field, with a `#[FromField]` path already turned
/// into field positions.
pub struct FieldAttrs {
    /// `#[bits(N)]` is `Some(Some(N))`, `#[bits()]` is `Some(None)`.
    pub bits: Option<Option<usize>>,
    /// `#[With(size(N))]`
    pub size: Option<usize>,
    /// `#[FromField(..)]`
    pub from_field: Option<FieldPath>,
    /// `#[With(size(expr))]`
    pub size_expression: Option<SizeExpression>,
    pub marker: Option<MarkerAttr>,
}

/// Why a field's type and attributes give no encoding.
#[derive(Clone, Copy, Debug, PartialEq, Eq, Structural)]
pub enum FieldTypeError {
    /// `#[bits]` on a type that is neither an integer, a `char` nor an enum.
    UnsupportedBitsType,
    /// `#[bits()]` without a width on a type that has no width of its own.
    BitsSizeRequired,
    /// A size expression on a type other than `Vec<u8>` and `String`.
    SizeExpressionType,
    /// A list of segments without a count.
    MissingVectorSize,
    /// `#[AfterMarker]` on a list of segments.
    AfterMarkerSegments,
    /// A type with no encoding.
    UnsupportedType,
}

/// How many items a size attribute asks for.
pub open spec fn count_spec(size: Option<usize>, from_field: Option<FieldPath>) -> Option<CountSpec> {
    match from_field {
        Some(p) => Some(CountSpec::FromField(p)),
        None => match size {
            Some(n) => Some(CountSpec::Fixed(n)),
            None => None,
        },
    }
}

/// How many bytes the attributes give a byte vector or a string: a field
/// path first, then a fixed size, then a marker; without any the field takes
/// the rest of the input (where the field may stand is checked with the
/// whole struct).
pub open spec fn byte_size_spec(
    size: Option<usize>,
    from_field: Option<FieldPath>,
    marker: Option<MarkerAttr>,
) -> SizeSpec {
    match from_field {
        Some(p) => SizeSpec::FromField(p),
        None => match size {
            Some(n) => SizeSpec::Fixed(n),
            None => match marker {
                Some(MarkerAttr::Until(m)) => SizeSpec::UntilMarker(m),
                Some(MarkerAttr::After(m)) => SizeSpec::AfterMarker(m),
                None => SizeSpec::Rest,
            },
        },
    }
}

pub open spec fn is_u8(t: TypeDesc) -> bool {
    t matches TypeDesc::Primitive(PrimitiveType::U8)
}

pub open spec fn is_byte_vec(t: TypeDesc) -> bool {
    t matches TypeDesc::VecOf(inner) && is_u8(*inner)
}

/// The encoding of a field of type `t` with attributes `a`.
pub open spec fn spec_field_type(t: TypeDesc, a: FieldAttrs) -> Result<
    FieldKind,
    FieldTypeError,
> {
    match a.bits {
        Some(w) => match t {
            TypeDesc::Primitive(ty) => if ty.spec_max_bits() is None {
                Err(FieldTypeError::UnsupportedBitsType)
            } else {
                match w {
                    Some(n) => Ok(FieldKind::Bits(ty, n)),
                    None => Err(FieldTypeError::BitsSizeRequired),
                }
            },
            TypeDesc::Enum(d) => match w {
                Some(n) => Ok(FieldKind::EnumBits(d, n)),
                None => Ok(FieldKind::EnumBits(d, d.spec_min_bits())),
            },
            _ => Err(FieldTypeError::UnsupportedBitsType),
        },
        None => match a.size_expression {
            Some(x) => if is_byte_vec(t) {
                Ok(FieldKind::Bytes(SizeSpec::Expr(x)))
            } else if t is Text {
                Ok(FieldKind::Text(SizeSpec::Expr(x)))
            } else {
                Err(FieldTypeError::SizeExpressionType)
            },
            None => match t {
                TypeDesc::Primitive(ty) => Ok(FieldKind::Primitive(ty)),
                TypeDesc::ByteArray(n) => Ok(FieldKind::Array(n)),
                TypeDesc::OptionOf(inner) => match *inner {
                    TypeDesc::Primitive(ty) => Ok(FieldKind::OptionPrimitive(ty)),
                    TypeDesc::ByteArray(n) => Ok(FieldKind::OptionArray(n)),
                    _ => Err(FieldTypeError::UnsupportedType),
                },
                TypeDesc::VecOf(inner) => match *inner {
                    TypeDesc::Primitive(PrimitiveType::U8) => Ok(
                        FieldKind::Bytes(byte_size_spec(a.size, a.from_field, a.marker)),
                    ),
                    TypeDesc::VecOf(inner2) => if is_u8(*inner2) {
                        match a.marker {
                            Some(MarkerAttr::Until(m)) => match count_spec(a.size, a.from_field) {
                                Some(c) => Ok(FieldKind::Segments(c, m)),
                                None => Err(FieldTypeError::MissingVectorSize),
                            },
                            Some(MarkerAttr::After(_)) => Err(FieldTypeError::AfterMarkerSegments),
                            None => Err(FieldTypeError::UnsupportedType),
                        }
                    } else {
                        Err(FieldTypeError::UnsupportedType)
                    },
                    TypeDesc::Struct(s) => Ok(FieldKind::List(s, count_spec(a.size, a.from_field))),
                    _ => Err(FieldTypeError::UnsupportedType),
                },
                TypeDesc::Text => Ok(FieldKind::Text(byte_size_spec(a.size, a.from_field, a.marker))),
                TypeDesc::Struct(s) => Ok(FieldKind::Nested(s)),
                TypeDesc::Enum(d) => Ok(FieldKind::Enum(d)),
                TypeDesc::Unsupported => Err(FieldTypeError::UnsupportedType),
            },
        },
    }
}

fn byte_size_of(size: Option<usize>, from_field: Option<FieldPath>, marker: Option<MarkerAttr>) -> (r:
    SizeSpec)
    ensures
        r == byte_size_spec(size, from_field, marker),
{
    match from_field {
        Some(p) => SizeSpec::FromField(p),
        None => match size {
            Some(n) => SizeSpec::Fixed(n),
            None => match marker {
                Some(MarkerAttr::Until(m)) => SizeSpec::UntilMarker(m),
                Some(MarkerAttr::After(m)) => SizeSpec::AfterMarker(m),
                None => SizeSpec::Rest,
            },
        },
    }
}

fn count_of_attrs(size: Option<usize>, from_field: Option<FieldPath>) -> (r: Option<CountSpec>)
    ensures
        r == count_spec(size, from_field),
{
    match from_field {
        Some(p) => Some(CountSpec::FromField(p)),
        None => match size {
            Some(n) => Some(CountSpec::Fixed(n)),
            None => None,
        },
    }
}

fn is_u8_type(t: &TypeDesc) -> (b: bool)
    ensures
        b == is_u8(*t),
{
    match t {
        TypeDesc::Primitive(PrimitiveType::U8) => true,
        _ => false,
    }
}

/// Decides the encoding of a field from its type and attributes alone;
/// whether the field may stand where it stands is checked with the whole
/// struct (`validate_fields`).
pub fn determine_field_type(t: TypeDesc, a: FieldAttrs) -> (r: Result<FieldKind, FieldTypeError>)
    ensures
        r == spec_field_type(t, a),
{
    let ghost (t0, a0) = (t, a);
    let FieldAttrs { bits, size, from_field, size_expression, marker } = a;
    match bits {
        Some(w) => {
            return match t {
                TypeDesc::Primitive(ty) => match ty.max_bits() {
                    None => Err(FieldTypeError::UnsupportedBitsType),
                    Some(_) => match w {
                        Some(n) => Ok(FieldKind::Bits(ty, n)),
                        None => Err(FieldTypeError::BitsSizeRequired),
                    },
                },
                TypeDesc::Enum(d) => match w {
                    Some(n) => Ok(FieldKind::EnumBits(d, n)),
                    None => {
                        let n = d.min_bits();
                        Ok(FieldKind::EnumBits(d, n))
                    },
                },
                _ => Err(FieldTypeError::UnsupportedBitsType),
            };
        },
        None => {},
    }
    match size_expression {
        Some(x) => {
            return match t {
                TypeDesc::VecOf(inner) => if is_u8_type(&*inner) {
                    Ok(FieldKind::Bytes(SizeSpec::Expr(x)))
                } else {
                    Err(FieldTypeError::SizeExpressionType)
                },
                TypeDesc::Text => Ok(FieldKind::Text(SizeSpec::Expr(x))),
                _ => Err(FieldTypeError::SizeExpressionType),
            };
        },
        None => {},
    }
    match t {
        TypeDesc::Primitive(ty) => Ok(FieldKind::Primitive(ty)),
        TypeDesc::ByteArray(n) => Ok(FieldKind::Array(n)),
        TypeDesc::OptionOf(inner) => match *inner {
            TypeDesc::Primitive(ty) => Ok(FieldKind::OptionPrimitive(ty)),
            TypeDesc::ByteArray(n) => Ok(FieldKind::OptionArray(n)),
            _ => Err(FieldTypeError::UnsupportedType),
        },
        TypeDesc::VecOf(inner) => match *inner {
            TypeDesc::Primitive(PrimitiveType::U8) => Ok(FieldKind::Bytes(byte_size_of(size, from_field, marker))),
            TypeDesc::VecOf(inner2) => if is_u8_type(&*inner2) {
                match marker {
                    Some(MarkerAttr::Until(m)) => match count_of_attrs(size, from_field) {
                        Some(c) => Ok(FieldKind::Segments(c, m)),
                        None => Err(FieldTypeError::MissingVectorSize),
                    },
                    Some(MarkerAttr::After(_)) => Err(FieldTypeError::AfterMarkerSegments),
                    None => Err(FieldTypeError::UnsupportedType),
                }
            } else {
                Err(FieldTypeError::UnsupportedType)
            },
            TypeDesc::Struct(s) => Ok(FieldKind::List(s, count_of_attrs(size, from_field))),
            _ => Err(FieldTypeError::UnsupportedType),
        },
        TypeDesc::Text => Ok(FieldKind::Text(byte_size_of(size, from_field, marker))),
        TypeDesc::Struct(s) => Ok(FieldKind::Nested(s)),
        TypeDesc::Enum(d) => Ok(FieldKind::Enum(d)),
        TypeDesc::Unsupported => Err(FieldTypeError::UnsupportedType),
    }
}

/// The size attributes of a byte vector or a string decide how many bytes
/// it takes, kind for kind: `#[FromField(p)]` takes the count from the field
/// at `p`, else `#[With(size(n))]` takes `n` bytes, else `#[UntilMarker(m)]`
/// reads up to the marker `m` and `#[AfterMarker(m)]` reads what follows the
/// marker `m`, else the field takes the rest of the input.
pub proof fn lemma_byte_field_sizes(t: TypeDesc, a: FieldAttrs)
    requires
        is_byte_vec(t) || t is Text,
        a.bits is None,
        a.size_expression is None,
    ensures
        ({
            let sz = match spec_field_type(t, a) {
                Ok(FieldKind::Bytes(sz)) => Some(sz),
                Ok(FieldKind::Text(sz)) => Some(sz),
                _ => None,
            };
            &&& spec_field_type(t, a) is Ok
            &&& (t is Text ==> spec_field_type(t, a) matches Ok(FieldKind::Text(_)))
            &&& (is_byte_vec(t) ==> spec_field_type(t, a) matches Ok(FieldKind::Bytes(_)))
            &&& (a.from_field matches Some(p) ==> sz == Some(SizeSpec::FromField(p)))
            &&& (forall|n: usize|
                a.from_field is None && a.size == Some(n) ==> sz == Some(SizeSpec::Fixed(n)))
            &&& (forall|m: u8|
                a.from_field is None && a.size is None && a.marker == Some(MarkerAttr::Until(m)) ==> sz
                    == Some(SizeSpec::UntilMarker(m)))
            &&& (forall|m: u8|
                a.from_field is None && a.size is None && a.marker == Some(MarkerAttr::After(m)) ==> sz
                    == Some(SizeSpec::AfterMarker(m)))
            &&& (a.from_field is None && a.size is None && a.marker is None ==> sz == Some(SizeSpec::Rest))
        }),
{
}

} // verus!
