//! What the encoding of a struct is, and what decoding bytes gives.
//!
//! A struct is encoded as one stream of bits. A bit field adds its bits where
//! the stream stands; every other field first pads the stream with zero bits
//! to a byte boundary and then adds its bytes. The stream ends padded to a
//! whole byte, and its bytes are the encoding.
use vstd::prelude::*;
use vstd::utf8::valid_utf8;
use crate::bits::{align_bits, fits, field_bits, from_bits, pack, pad_len, unpack};
use crate::consts::Endianness;
use crate::enums::EnumDef;
use crate::schema::{CountSpec, FieldKind, PrimitiveType, Schema, SizeSpec};
use crate::size_expr::eval;
use crate::value::{ValueView, lookup};

verus! {

/// Why bytes could not be decoded.
#[derive(Clone, Copy, Debug, PartialEq, Eq, Structural)]
pub enum BeBytesError {
    /// There was no byte where a struct or an enum field begins.
    EmptyBuffer,
    /// A field needs `expected` bytes where only `actual` remain.
    InsufficientData { expected: u128, actual: u128 },
    /// A number is no discriminant of its enum, or no Unicode scalar value for
    /// a `char`; `value` is its low byte.
    InvalidDiscriminant { value: u8 },
    /// The tag byte of an `Option` is neither 0 nor 1.
    InvalidOptionTag { value: u8 },
    /// The bytes of a string field are not UTF-8.
    InvalidUtf8,
    /// A segment's marker byte does not occur in the remaining bytes.
    MarkerNotFound { marker: u8 },
    /// A field path names no earlier number.
    InvalidFieldReference,
    /// A size expression could not be evaluated.
    InvalidSizeExpression,
    /// The layout cannot be decoded (a bit width above 128, or a vector of
    /// structs with no count before the last field).
    InvalidSchema,
}

/// A position rounded up to the next byte boundary.
pub open spec fn ceil8(p: nat) -> nat {
    p + pad_len(p)
}

pub open spec fn is_scalar_value(n: u128) -> bool {
    n <= 0x10FFFF && !(0xD800 <= n && n <= 0xDFFF)
}

/// A primitive read back from its bits: a `bool` is true where any bit is
/// set, a `char` must be a Unicode scalar value.
pub open spec fn decode_primitive(ty: PrimitiveType, n: u128) -> Result<u128, BeBytesError> {
    if ty.is_bool() {
        Ok(
            if n != 0 {
                1u128
            } else {
                0u128
            },
        )
    } else if ty.is_char() {
        if is_scalar_value(n) {
            Ok(n)
        } else {
            Err(BeBytesError::InvalidDiscriminant { value: (n & 0xffu128) as u8 })
        }
    } else {
        Ok(n)
    }
}

/// An enum read back from its bits must be one of its discriminants.
pub open spec fn decode_enum(d: EnumDef, n: u128) -> Result<u128, BeBytesError> {
    if n < 256 && d.has(n as u8) {
        Ok(n)
    } else {
        Err(BeBytesError::InvalidDiscriminant { value: (n & 0xffu128) as u8 })
    }
}

/// Bytes that remain after bit position `q`.
pub open spec fn remaining(input: Seq<u8>, q: nat) -> nat {
    if q / 8 <= input.len() {
        (input.len() - q / 8) as nat
    } else {
        0
    }
}

/// The error for a field that needs `need` bytes from bit position `q` on.
pub open spec fn insufficient(input: Seq<u8>, q: nat, need: nat) -> BeBytesError {
    BeBytesError::InsufficientData { expected: need as u128, actual: remaining(input, q) as u128 }
}

/// The number held by the `w` bits of `input` from bit position `q` on.
pub open spec fn read_num(input: Seq<u8>, q: nat, w: nat, e: Endianness) -> u128 {
    from_bits(unpack(input, e).subrange(q as int, (q + w) as int), e)
}

/// Reads a number of `w` bits at bit position `q`.
pub open spec fn parse_number(input: Seq<u8>, q: nat, w: nat, e: Endianness) -> Result<
    (u128, nat),
    BeBytesError,
> {
    if q + w <= 8 * input.len() {
        Ok((read_num(input, q, w, e), q + w))
    } else {
        Err(insufficient(input, q, ((q + w + 7) / 8 - q / 8) as nat))
    }
}

/// The error for `n` bytes that do not remain at the byte boundary `q`:
/// counted from `q` on, or where `absolute`, as the end position that the
/// field needs (at most `u128::MAX`) against the input's length.
pub open spec fn missing_bytes(input: Seq<u8>, q: nat, n: nat, absolute: bool) -> BeBytesError {
    if absolute {
        BeBytesError::InsufficientData {
            expected: if q / 8 + n <= u128::MAX {
                (q / 8 + n) as u128
            } else {
                u128::MAX
            },
            actual: input.len() as u128,
        }
    } else {
        insufficient(input, q, n)
    }
}

/// Reads `n` bytes at the byte boundary `q`.
pub open spec fn take_bytes(input: Seq<u8>, q: nat, n: nat, absolute: bool) -> Result<
    (Seq<u8>, nat),
    BeBytesError,
> {
    let a = q / 8;
    if a + n <= input.len() {
        Ok((input.subrange(a as int, (a + n) as int), 8 * (a + n)))
    } else {
        Err(missing_bytes(input, q, n, absolute))
    }
}

/// `i` is the first position of `m` in `b`.
pub open spec fn is_first_marker(b: Seq<u8>, m: u8, i: int) -> bool {
    &&& 0 <= i < b.len()
    &&& b[i] == m
    &&& forall|j: int| 0 <= j < i ==> b[j] != m
}

/// The first position of `m` in `b`.
pub open spec fn marker_index(b: Seq<u8>, m: u8) -> Option<nat> {
    if exists|i: int| is_first_marker(b, m, i) {
        Some((choose|i: int| is_first_marker(b, m, i)) as nat)
    } else {
        None
    }
}

/// A found first marker is the one the model names.
pub proof fn lemma_marker_found(b: Seq<u8>, m: u8, k: int)
    requires
        is_first_marker(b, m, k),
    ensures
        marker_index(b, m) == Some(k as nat),
{
    let c = choose|i: int| is_first_marker(b, m, i);
    assert(is_first_marker(b, m, c));
    if c < k {
        assert(b[c] != m);
    }
    if c > k {
        assert(b[k] != m);
    }
}

/// Without the marker the model names none.
pub proof fn lemma_marker_absent(b: Seq<u8>, m: u8)
    requires
        forall|j: int| 0 <= j < b.len() ==> b[j] != m,
    ensures
        marker_index(b, m) is None,
{
    if exists|i: int| is_first_marker(b, m, i) {
        let c = choose|i: int| is_first_marker(b, m, i);
        assert(b[c] == m);
    }
}

/// Reads the bytes of a vector or string field at the byte boundary `q`.
pub open spec fn parse_sized(
    sz: SizeSpec,
    input: Seq<u8>,
    q: nat,
    env: Seq<ValueView>,
    text: bool,
) -> Result<
    (Seq<u8>, nat),
    BeBytesError,
> {
    let a = q / 8;
    let len = input.len();
    match sz {
        SizeSpec::Fixed(n) => take_bytes(input, q, n as nat, text),
        SizeSpec::FromField(path) => match lookup(env, path.segments@) {
            Some(n) => take_bytes(input, q, n as nat, text),
            None => Err(BeBytesError::InvalidFieldReference),
        },
        SizeSpec::Expr(x) => match eval(x, env) {
            Some(n) => take_bytes(input, q, n as nat, true),
            None => Err(BeBytesError::InvalidSizeExpression),
        },
        SizeSpec::Rest => Ok((input.subrange(a as int, len as int), 8 * len)),
        SizeSpec::UntilMarker(m) => match marker_index(input.subrange(a as int, len as int), m) {
            Some(k) => Ok((input.subrange(a as int, (a + k) as int), 8 * (a + k + 1))),
            None => Ok((input.subrange(a as int, len as int), 8 * len)),
        },
        SizeSpec::AfterMarker(m) => match marker_index(input.subrange(a as int, len as int), m) {
            Some(k) => Ok((input.subrange((a + k + 1) as int, len as int), 8 * len)),
            None => Ok((Seq::empty(), q)),
        },
    }
}

/// Reads an `Option` of a primitive at the byte boundary `q`.
pub open spec fn parse_option_primitive(
    ty: PrimitiveType,
    input: Seq<u8>,
    q: nat,
    e: Endianness,
) -> Result<(ValueView, nat), BeBytesError> {
    let w = 8 * ty.spec_size();
    if q + 8 + w > 8 * input.len() {
        Err(insufficient(input, q, 1 + ty.spec_size()))
    } else {
        let tag = input[(q / 8) as int];
        if tag == 0 {
            Ok((ValueView::Opt(None), q + 8 + w))
        } else if tag == 1 {
            match decode_primitive(ty, read_num(input, q + 8, w, e)) {
                Ok(v) => Ok((ValueView::Opt(Some(v)), q + 8 + w)),
                Err(x) => Err(x),
            }
        } else {
            Err(BeBytesError::InvalidOptionTag { value: tag })
        }
    }
}

/// Reads an `Option<[u8; n]>` at the byte boundary `q`.
pub open spec fn parse_option_array(n: nat, input: Seq<u8>, q: nat) -> Result<
    (ValueView, nat),
    BeBytesError,
> {
    let a = q / 8;
    if a + 1 + n > input.len() {
        Err(insufficient(input, q, 1 + n))
    } else {
        let tag = input[a as int];
        if tag == 0 {
            Ok((ValueView::OptBytes(None), 8 * (a + 1 + n)))
        } else if tag == 1 {
            Ok((ValueView::OptBytes(Some(input.subrange((a + 1) as int, (a + 1 + n) as int))), 8 * (a + 1 + n)))
        } else {
            Err(BeBytesError::InvalidOptionTag { value: tag })
        }
    }
}

/// Reads `c` marker-terminated segments at the byte boundary `p`.
pub open spec fn parse_segments(
    m: u8,
    c: nat,
    input: Seq<u8>,
    p: nat,
    acc: Seq<Seq<u8>>,
) -> Result<(ValueView, nat), BeBytesError>
    decreases c,
{
    if c == 0 {
        Ok((ValueView::Segments(acc), p))
    } else {
        let a = p / 8;
        match marker_index(input.subrange(a as int, input.len() as int), m) {
            Some(k) => parse_segments(
                m,
                (c - 1) as nat,
                input,
                8 * (a + k + 1),
                acc.push(input.subrange(a as int, (a + k) as int)),
            ),
            None => Err(BeBytesError::MarkerNotFound { marker: m }),
        }
    }
}

/// The number of items that a count asks for.
pub open spec fn count_of(c: CountSpec, env: Seq<ValueView>) -> Option<u128> {
    match c {
        CountSpec::Fixed(n) => Some(n as u128),
        CountSpec::FromField(path) => lookup(env, path.segments@),
    }
}

/// Where the bytes end that a nested struct starting at the byte boundary
/// `q` may read: its static size on from `q`, or the end of the input.
#[verifier::opaque]
pub open spec fn nested_end(s: Schema, input: Seq<u8>, q: nat) -> nat {
    let end = q / 8 + s.spec_field_size();
    if end < input.len() {
        end
    } else {
        input.len()
    }
}

/// Decodes a struct that starts at bit position `p` (rounded up to a byte):
/// its value and the byte boundary where it ends.
pub open spec fn parse_struct(s: Schema, input: Seq<u8>, p: nat, e: Endianness) -> Result<
    (ValueView, nat),
    BeBytesError,
>
    decreases s, 0nat, s.fields@.len() + 1,
{
    let q = ceil8(p);
    if q >= 8 * input.len() {
        Err(BeBytesError::EmptyBuffer)
    } else {
        match parse_fields(s, 0, input, q, Seq::empty(), e) {
            Ok((vs, p2)) => Ok((ValueView::Struct(vs), ceil8(p2))),
            Err(x) => Err(x),
        }
    }
}

/// Decodes the fields from the `i`-th on at bit position `p`, after the
/// values `env` of the fields before.
pub open spec fn parse_fields(
    s: Schema,
    i: nat,
    input: Seq<u8>,
    p: nat,
    env: Seq<ValueView>,
    e: Endianness,
) -> Result<(Seq<ValueView>, nat), BeBytesError>
    decreases s, 0nat, s.fields@.len() - i,
{
    if i >= s.fields@.len() {
        Ok((env, p))
    } else {
        match parse_field(s.fields@[i as int], i + 1 == s.fields@.len(), input, p, env, e) {
            Ok((v, p2)) => parse_fields(s, i + 1, input, p2, env.push(v), e),
            Err(x) => Err(x),
        }
    }
}

/// Decodes one field at bit position `p`; `last` says whether it is the
/// struct's last field.
pub open spec fn parse_field(
    k: FieldKind,
    last: bool,
    input: Seq<u8>,
    p: nat,
    env: Seq<ValueView>,
    e: Endianness,
) -> Result<(ValueView, nat), BeBytesError>
    decreases k, 0nat, 0nat,
{
    let q = ceil8(p);
    match k {
        FieldKind::Primitive(ty) => match parse_number(input, q, 8 * ty.spec_size(), e) {
            Ok((n, p2)) => match decode_primitive(ty, n) {
                Ok(v) => Ok((ValueView::Num(v), p2)),
                Err(x) => Err(x),
            },
            Err(x) => Err(x),
        },
        FieldKind::Bits(ty, w) => if w > 128 {
            Err(BeBytesError::InvalidSchema)
        } else {
            match parse_number(input, p, w as nat, e) {
                Ok((n, p2)) => match decode_primitive(ty, n) {
                    Ok(v) => Ok((ValueView::Num(v), p2)),
                    Err(x) => Err(x),
                },
                Err(x) => Err(x),
            }
        },
        FieldKind::Enum(d) => if q >= 8 * input.len() {
            Err(BeBytesError::EmptyBuffer)
        } else {
            match parse_number(input, q, 8, e) {
                Ok((n, p2)) => match decode_enum(d, n) {
                    Ok(v) => Ok((ValueView::Num(v), p2)),
                    Err(x) => Err(x),
                },
                Err(x) => Err(x),
            }
        },
        FieldKind::EnumBits(d, w) => if w > 128 {
            Err(BeBytesError::InvalidSchema)
        } else {
            match parse_number(input, p, w as nat, e) {
                Ok((n, p2)) => match decode_enum(d, n) {
                    Ok(v) => Ok((ValueView::Num(v), p2)),
                    Err(x) => Err(x),
                },
                Err(x) => Err(x),
            }
        },
        FieldKind::Array(n) => match take_bytes(input, q, n as nat, false) {
            Ok((b, p2)) => Ok((ValueView::Bytes(b), p2)),
            Err(x) => Err(x),
        },
        FieldKind::OptionPrimitive(ty) => parse_option_primitive(ty, input, q, e),
        FieldKind::OptionArray(n) => parse_option_array(n as nat, input, q),
        FieldKind::Bytes(sz) => match parse_sized(sz, input, q, env, false) {
            Ok((b, p2)) => Ok((ValueView::Bytes(b), p2)),
            Err(x) => Err(x),
        },
        FieldKind::Text(sz) => match parse_sized(sz, input, q, env, true) {
            Ok((b, p2)) => if valid_utf8(b) {
                Ok((ValueView::Bytes(b), p2))
            } else {
                Err(BeBytesError::InvalidUtf8)
            },
            Err(x) => Err(x),
        },
        FieldKind::Nested(s) => parse_struct(s, input.subrange(0, nested_end(s, input, q) as int), q, e),
        FieldKind::List(s, cnt) => match cnt {
            Some(c) => match count_of(c, env) {
                Some(n) => parse_items_counted(s, n as nat, input, q, Seq::empty(), e),
                None => Err(BeBytesError::InvalidFieldReference),
            },
            None => if last {
                parse_items_greedy(s, input, q, Seq::empty(), e)
            } else {
                Err(BeBytesError::InvalidSchema)
            },
        },
        FieldKind::Segments(cnt, m) => match count_of(cnt, env) {
            Some(n) => parse_segments(m, n as nat, input, q, Seq::empty()),
            None => Err(BeBytesError::InvalidFieldReference),
        },
    }
}

/// Decodes up to `c` structs from bit position `p` on, stopping early where
/// no byte remains.
pub open spec fn parse_items_counted(
    s: Schema,
    c: nat,
    input: Seq<u8>,
    p: nat,
    acc: Seq<ValueView>,
    e: Endianness,
) -> Result<(ValueView, nat), BeBytesError>
    decreases s, 1nat, c,
{
    if c == 0 || ceil8(p) >= 8 * input.len() {
        Ok((ValueView::List(acc), p))
    } else {
        match parse_struct(s, input, p, e) {
            Ok((v, p2)) => parse_items_counted(s, (c - 1) as nat, input, p2, acc.push(v), e),
            Err(x) => Err(x),
        }
    }
}

/// Decodes structs from bit position `p` on while bytes remain and a struct
/// can be decoded that takes at least one byte.
pub open spec fn parse_items_greedy(
    s: Schema,
    input: Seq<u8>,
    p: nat,
    acc: Seq<ValueView>,
    e: Endianness,
) -> Result<(ValueView, nat), BeBytesError>
    decreases s, 1nat, 8 * input.len() - p,
{
    if p >= 8 * input.len() {
        Ok((ValueView::List(acc), p))
    } else {
        match parse_struct(s, input, p, e) {
            Ok((v, p2)) => if p < p2 && p2 <= 8 * input.len() {
                parse_items_greedy(s, input, p2, acc.push(v), e)
            } else {
                Ok((ValueView::List(acc), p))
            },
            Err(_) => Ok((ValueView::List(acc), p)),
        }
    }
}

/// Decodes a struct from the start of `input`: its value and the number of
/// bytes it took.
pub open spec fn decode(s: Schema, input: Seq<u8>, e: Endianness) -> Result<
    (ValueView, nat),
    BeBytesError,
> {
    match parse_struct(s, input, 0, e) {
        Ok((v, p)) => Ok((v, p / 8)),
        Err(x) => Err(x),
    }
}

// ---------------------------------------------------------------------------
// Encoding
// ---------------------------------------------------------------------------

/// The bytes of a vector or string field with their marker, if any.
pub open spec fn framed(sz: SizeSpec, b: Seq<u8>) -> Seq<u8> {
    match sz {
        SizeSpec::UntilMarker(m) => b.push(m),
        SizeSpec::AfterMarker(m) => seq![m] + b,
        _ => b,
    }
}

pub open spec fn option_tag(present: bool) -> u8 {
    if present {
        1u8
    } else {
        0u8
    }
}

/// The bytes of an `Option<[u8; n]>`.
pub open spec fn option_array_bytes(n: nat, o: Option<Seq<u8>>) -> Seq<u8> {
    match o {
        Some(b) => seq![1u8] + b,
        None => seq![0u8] + Seq::new(n, |i: int| 0u8),
    }
}

/// Segments, each followed by the marker byte.
pub open spec fn join_segments(segs: Seq<Seq<u8>>, m: u8) -> Seq<u8>
    decreases segs.len(),
{
    if segs.len() == 0 {
        Seq::empty()
    } else {
        join_segments(segs.drop_last(), m) + segs.last().push(m)
    }
}

/// The stream of a struct value, padded to a whole byte.
pub open spec fn ser_struct(s: Schema, v: ValueView, e: Endianness) -> Seq<bool>
    decreases s, 0nat, s.fields@.len() + 1,
{
    match v {
        ValueView::Struct(vs) => align_bits(ser_fields(s, vs, s.fields@.len(), e)),
        _ => Seq::empty(),
    }
}

/// The stream of the first `n` fields.
pub open spec fn ser_fields(s: Schema, vs: Seq<ValueView>, n: nat, e: Endianness) -> Seq<bool>
    decreases s, 0nat, n,
{
    if n == 0 || n > s.fields@.len() {
        Seq::empty()
    } else {
        ser_field(ser_fields(s, vs, (n - 1) as nat, e), s.fields@[n - 1], vs[n - 1], e)
    }
}

/// The stream `acc` with one more field.
pub open spec fn ser_field(acc: Seq<bool>, k: FieldKind, v: ValueView, e: Endianness) -> Seq<bool>
    decreases k, 0nat, 0nat,
{
    match (k, v) {
        (FieldKind::Primitive(ty), ValueView::Num(n)) => align_bits(acc) + field_bits(
            n,
            8 * ty.spec_size(),
            e,
        ),
        (FieldKind::Bits(_, w), ValueView::Num(n)) => acc + field_bits(n, w as nat, e),
        (FieldKind::Enum(_), ValueView::Num(n)) => align_bits(acc) + field_bits(n, 8, e),
        (FieldKind::EnumBits(_, w), ValueView::Num(n)) => acc + field_bits(n, w as nat, e),
        (FieldKind::Array(_), ValueView::Bytes(b)) => align_bits(acc) + unpack(b, e),
        (FieldKind::OptionPrimitive(ty), ValueView::Opt(o)) => align_bits(acc) + unpack(
            seq![option_tag(o is Some)],
            e,
        ) + field_bits(
            match o {
                Some(x) => x,
                None => 0u128,
            },
            8 * ty.spec_size(),
            e,
        ),
        (FieldKind::OptionArray(n), ValueView::OptBytes(o)) => align_bits(acc) + unpack(
            option_array_bytes(n as nat, o),
            e,
        ),
        (FieldKind::Bytes(sz), ValueView::Bytes(b)) => align_bits(acc) + unpack(framed(sz, b), e),
        (FieldKind::Text(sz), ValueView::Bytes(b)) => align_bits(acc) + unpack(framed(sz, b), e),
        (FieldKind::Nested(s), _) => align_bits(acc) + ser_struct(s, v, e),
        (FieldKind::List(s, _), ValueView::List(items)) => align_bits(acc) + ser_items(
            s,
            items,
            items.len(),
            e,
        ),
        (FieldKind::Segments(_, m), ValueView::Segments(segs)) => align_bits(acc) + unpack(
            join_segments(segs, m),
            e,
        ),
        _ => acc,
    }
}

/// The streams of the first `n` items, one after the other.
pub open spec fn ser_items(s: Schema, items: Seq<ValueView>, n: nat, e: Endianness) -> Seq<bool>
    decreases s, 1nat, n,
{
    if n == 0 {
        Seq::empty()
    } else {
        ser_items(s, items, (n - 1) as nat, e) + ser_struct(s, items[n - 1], e)
    }
}

/// The bytes of a struct value.
pub open spec fn encode(s: Schema, v: ValueView, e: Endianness) -> Seq<u8> {
    pack(ser_struct(s, v, e), e)
}

/// Rounding up to a byte boundary.
pub proof fn lemma_ceil8(p: nat)
    ensures
        ceil8(p) % 8 == 0,
        p <= ceil8(p) < p + 8,
        p % 8 == 0 ==> ceil8(p) == p,
{
}

/// Padding a stream brings it to a byte boundary.
pub proof fn lemma_align_len(s: Seq<bool>)
    ensures
        align_bits(s).len() == ceil8(s.len()),
        align_bits(s).len() % 8 == 0,
        align_bits(s).subrange(0, s.len() as int) == s,
{
    lemma_ceil8(s.len());
    assert(align_bits(s).subrange(0, s.len() as int) =~= s);
}

/// The stream of a struct is a whole number of bytes.
pub proof fn lemma_ser_struct_aligned(s: Schema, v: ValueView, e: Endianness)
    ensures
        ser_struct(s, v, e).len() % 8 == 0,
{
    match v {
        ValueView::Struct(vs) => {
            lemma_align_len(ser_fields(s, vs, s.fields@.len(), e));
        },
        _ => {},
    }
}

// ---------------------------------------------------------------------------
// Which values can be encoded
// ---------------------------------------------------------------------------

/// A bit field of `w` bits of a one-byte integer type: its value is
/// written masked to its width.
pub open spec fn single_byte_bits(ty: PrimitiveType, w: usize) -> bool {
    (ty is U8 || ty is I8) && w <= 8
}

/// A value of type `ty` is not greater than the mask of `w` one bits taken
/// as a value of that type: a value of an unsigned type or a `char` fits in
/// `w` bits, a value of a signed type is negative or (where the mask is
/// narrower than the type) fits in `w` bits.
pub open spec fn within_mask(ty: PrimitiveType, w: usize, n: u128) -> bool {
    let b = 8 * ty.spec_size();
    if ty is I8 || ty is I16 || ty is I32 || ty is I64 || ty is I128 {
        !fits(n, (b - 1) as nat) || (w < b && fits(n, w as nat))
    } else if ty is F32 || ty is F64 || ty is Bool {
        false
    } else {
        fits(n, w as nat)
    }
}

/// A primitive value that its type can hold.
pub open spec fn primitive_ok(ty: PrimitiveType, n: u128) -> bool {
    &&& fits(n, 8 * ty.spec_size())
    &&& ty.is_bool() ==> n <= 1
    &&& ty.is_char() ==> is_scalar_value(n)
}

/// A value of the shape that its field asks for, which the encoder writes
/// without failing: bit field values within their width, fixed strings and
/// expression-sized fields of their stated length. `env` holds the values of
/// the fields before.
pub open spec fn encodable_field(k: FieldKind, v: ValueView, env: Seq<ValueView>) -> bool
    decreases k, 0nat, 0nat,
{
    match (k, v) {
        (FieldKind::Primitive(ty), ValueView::Num(n)) => primitive_ok(ty, n),
        (FieldKind::Bits(ty, w), ValueView::Num(n)) => {
            &&& w <= 128
            &&& primitive_ok(ty, n)
            &&& (single_byte_bits(ty, w) || within_mask(ty, w, n))
        },
        (FieldKind::Enum(d), ValueView::Num(n)) => n < 256 && d.has(n as u8),
        (FieldKind::EnumBits(d, w), ValueView::Num(n)) => w <= 128 && fits(n, w as nat) && n < 256
            && d.has(n as u8),
        (FieldKind::Array(n), ValueView::Bytes(b)) => b.len() == n,
        (FieldKind::OptionPrimitive(ty), ValueView::Opt(o)) => o matches Some(x) ==> primitive_ok(
            ty,
            x,
        ),
        (FieldKind::OptionArray(n), ValueView::OptBytes(o)) => o matches Some(b) ==> b.len() == n,
        (FieldKind::Bytes(sz), ValueView::Bytes(b)) => sz matches SizeSpec::Expr(x) ==> eval(
            x,
            env,
        ) == Some(b.len() as u128),
        (FieldKind::Text(sz), ValueView::Bytes(b)) => {
            &&& valid_utf8(b)
            &&& sz matches SizeSpec::Fixed(n) ==> b.len() == n
            &&& sz matches SizeSpec::Expr(x) ==> eval(x, env) == Some(b.len() as u128)
        },
        (FieldKind::Nested(s), _) => encodable_struct(s, v),
        (FieldKind::List(s, _), ValueView::List(items)) => encodable_items(s, items, items.len()),
        (FieldKind::Segments(_, _), ValueView::Segments(_)) => true,
        _ => false,
    }
}

/// A struct value whose fields are each encodable.
pub open spec fn encodable_struct(s: Schema, v: ValueView) -> bool
    decreases s, 0nat, s.fields@.len() + 1,
{
    match v {
        ValueView::Struct(vs) => vs.len() == s.fields@.len() && encodable_fields(
            s,
            vs,
            s.fields@.len(),
        ),
        _ => false,
    }
}

pub open spec fn encodable_fields(s: Schema, vs: Seq<ValueView>, n: nat) -> bool
    decreases s, 0nat, n,
{
    if n == 0 || n > s.fields@.len() {
        true
    } else {
        encodable_fields(s, vs, (n - 1) as nat) && encodable_field(
            s.fields@[n - 1],
            vs[n - 1],
            vs.subrange(0, n - 1),
        )
    }
}

pub open spec fn encodable_items(s: Schema, items: Seq<ValueView>, n: nat) -> bool
    decreases s, 1nat, n,
{
    if n == 0 {
        true
    } else {
        encodable_items(s, items, (n - 1) as nat) && encodable_struct(s, items[n - 1])
    }
}

} // verus!
