//! The layout of a struct: its fields in declaration order, each with the
//! kind of encoding that its type and attributes give it.
use vstd::prelude::*;
use crate::enums::EnumDef;
use crate::size_expr::{FieldPath, SizeExpression};

verus! {

/// A Rust primitive type that can stand in a field.
#[derive(Clone, Copy, Debug, PartialEq, Eq, Structural)]
pub enum PrimitiveType {
    U8,
    U16,
    U32,
    U64,
    U128,
    I8,
    I16,
    I32,
    I64,
    I128,
    F32,
    F64,
    Bool,
    Char,
}

impl PrimitiveType {
    /// Size of the type in bytes.
    pub open spec fn spec_size(self) -> nat {
        match self {
            PrimitiveType::U8 | PrimitiveType::I8 | PrimitiveType::Bool => 1,
            PrimitiveType::U16 | PrimitiveType::I16 => 2,
            PrimitiveType::U32 | PrimitiveType::I32 | PrimitiveType::F32 | PrimitiveType::Char => 4,
            PrimitiveType::U64 | PrimitiveType::I64 | PrimitiveType::F64 => 8,
            PrimitiveType::U128 | PrimitiveType::I128 => 16,
        }
    }

    /// Number of bits a `#[bits(N)]` field of this type may take, or none
    /// where the type cannot be a bit field.
    pub open spec fn spec_max_bits(self) -> Option<nat> {
        match self {
            PrimitiveType::U8 | PrimitiveType::I8 => Some(8),
            PrimitiveType::U16 | PrimitiveType::I16 => Some(16),
            PrimitiveType::U32 | PrimitiveType::I32 | PrimitiveType::Char => Some(32),
            PrimitiveType::U64 | PrimitiveType::I64 => Some(64),
            PrimitiveType::U128 | PrimitiveType::I128 => Some(128),
            PrimitiveType::F32 | PrimitiveType::F64 | PrimitiveType::Bool => None,
        }
    }

    pub open spec fn is_char(self) -> bool {
        self matches PrimitiveType::Char
    }

    pub open spec fn is_bool(self) -> bool {
        self matches PrimitiveType::Bool
    }

    /// Size of the type in bytes.
    pub fn size(self) -> (n: usize)
        ensures
            n == self.spec_size(),
            1 <= n <= 16,
    {
        match self {
            PrimitiveType::U8 | PrimitiveType::I8 | PrimitiveType::Bool => 1,
            PrimitiveType::U16 | PrimitiveType::I16 => 2,
            PrimitiveType::U32 | PrimitiveType::I32 | PrimitiveType::F32 | PrimitiveType::Char => 4,
            PrimitiveType::U64 | PrimitiveType::I64 | PrimitiveType::F64 => 8,
            PrimitiveType::U128 | PrimitiveType::I128 => 16,
        }
    }

    /// Number of bits a `#[bits(N)]` field of this type may take.
    pub fn max_bits(self) -> (n: Option<usize>)
        ensures
            n matches Some(b) ==> self.spec_max_bits() == Some(b as nat),
            n is None ==> self.spec_max_bits() is None,
    {
        match self {
            PrimitiveType::U8 | PrimitiveType::I8 => Some(8),
            PrimitiveType::U16 | PrimitiveType::I16 => Some(16),
            PrimitiveType::U32 | PrimitiveType::I32 | PrimitiveType::Char => Some(32),
            PrimitiveType::U64 | PrimitiveType::I64 => Some(64),
            PrimitiveType::U128 | PrimitiveType::I128 => Some(128),
            PrimitiveType::F32 | PrimitiveType::F64 | PrimitiveType::Bool => None,
        }
    }

    pub fn is_char_type(self) -> (b: bool)
        ensures
            b == self.is_char(),
    {
        match self {
            PrimitiveType::Char => true,
            _ => false,
        }
    }

    pub fn is_bool_type(self) -> (b: bool)
        ensures
            b == self.is_bool(),
    {
        match self {
            PrimitiveType::Bool => true,
            _ => false,
        }
    }
}

/// How many bytes a vector or string field holds.
pub enum SizeSpec {
    /// `#[With(size(N))]`: exactly `N` bytes.
    Fixed(usize),
    /// `#[FromField(path)]`: as many bytes as the earlier field at `path` says.
    FromField(FieldPath),
    /// `#[With(size(expr))]`: as many bytes as the expression gives.
    Expr(SizeExpression),
    /// No size: the field takes every remaining byte.
    Rest,
    /// `#[UntilMarker(m)]`: bytes up to a marker byte, which follows them.
    UntilMarker(u8),
    /// `#[AfterMarker(m)]`: every byte after the first marker byte.
    AfterMarker(u8),
}

/// How many items a vector of structs or of byte segments holds.
pub enum CountSpec {
    /// `#[With(size(N))]`
    Fixed(usize),
    /// `#[FromField(path)]`
    FromField(FieldPath),
}

/// The encoding of one field.
pub enum FieldKind {
    /// A primitive in its full width, on a byte boundary.
    Primitive(PrimitiveType),
    /// `#[bits(N)]` on an integer or `char` field: the `N` low bits of the value.
    Bits(PrimitiveType, usize),
    /// An enum field: its discriminant in one byte.
    Enum(EnumDef),
    /// `#[bits(N)]` or `#[bits()]` on an enum field: the discriminant in `N` bits.
    EnumBits(EnumDef, usize),
    /// `[u8; N]`
    Array(usize),
    /// `Option<T>` of a primitive: a tag byte, then the value or zeros.
    OptionPrimitive(PrimitiveType),
    /// `Option<[u8; N]>`: a tag byte, then the bytes or zeros.
    OptionArray(usize),
    /// `Vec<u8>`
    Bytes(SizeSpec),
    /// `String`, encoded as UTF-8.
    Text(SizeSpec),
    /// A field whose type is another such struct.
    Nested(Schema),
    /// `Vec<T>` of another such struct; without a count it must be the last field.
    List(Schema, Option<CountSpec>),
    /// `Vec<Vec<u8>>` with `#[UntilMarker(m)]`: that many segments, each followed by `m`.
    Segments(CountSpec, u8),
}

/// A struct's fields in declaration order.
pub struct Schema {
    pub fields: Vec<FieldKind>,
}

/// A field whose encoding does not start on a byte boundary of its own.
pub open spec fn is_bit_kind(k: FieldKind) -> bool {
    k is Bits || k is EnumBits
}

} // verus!
