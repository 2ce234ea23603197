//! The decoder: reads a struct value field by field from bytes and their bits.
use vstd::prelude::*;
use vstd::utf8::valid_utf8;
use crate::bits::{lemma_from_bits_fits, read_field_bits, unpack, unpack_bytes};
use crate::codec::{
    BeBytesError, ceil8, count_of, decode_enum, decode_primitive, insufficient, is_first_marker, lemma_marker_absent, lemma_marker_found,
    is_scalar_value, lemma_ceil8, marker_index, parse_field, parse_fields, parse_items_counted,
    parse_items_greedy, parse_number, parse_option_array, parse_option_primitive, parse_segments,
    parse_sized, parse_struct, read_num, remaining, take_bytes, nested_end,
};
use crate::api::{kind_sizes_fit, lemma_sizes_fit_at, sizes_fit_from};
use crate::consts::Endianness;
use crate::enums::EnumDef;
use crate::schema::{CountSpec, FieldKind, PrimitiveType, Schema, SizeSpec};
use crate::value::{
    Value, ValueView, lemma_view_values, lemma_view_values_push, lookup_path, view_segments,
    view_value, view_values,
};

verus! {

/// An executable result agrees with a decoding result of the model, and its
/// position lies within the input's bits.
pub open spec fn agrees(
    r: Result<(Value, usize), BeBytesError>,
    m: Result<(ValueView, nat), BeBytesError>,
    limit: nat,
) -> bool {
    match r {
        Ok((v, p)) => m == Ok::<(ValueView, nat), BeBytesError>((v@, p as nat)) && p <= limit,
        Err(x) => m == Err::<(ValueView, nat), BeBytesError>(x),
    }
}

/// Checks whether bytes are UTF-8.
///
/// Calls `std::str::from_utf8`, which is documented to succeed exactly when
/// the slice is valid UTF-8; the contract takes vstd's definition of valid
/// UTF-8 for that. Nothing here proves it of the standard library.
#[verifier::external_body]
fn is_utf8(b: &[u8]) -> (r: bool)
    ensures
        r == valid_utf8(b@),
{
    std::str::from_utf8(b).is_ok()
}

/// `p` rounded up to a byte boundary.
fn ceil8_of(p: usize, limit: usize) -> (q: usize)
    requires
        p <= limit,
        limit % 8 == 0,
    ensures
        q == ceil8(p as nat),
        q <= limit,
        q % 8 == 0,
{
    proof {
        lemma_ceil8(p as nat);
    }
    if p % 8 == 0 {
        p
    } else {
        p + (8 - p % 8)
    }
}

/// The bytes `input[a..a + n]`.
fn copy_bytes(input: &[u8], a: usize, n: usize) -> (b: Vec<u8>)
    requires
        a + n <= input@.len(),
    ensures
        b@ == input@.subrange(a as int, a + n),
{
    let mut b: Vec<u8> = Vec::new();
    let mut i: usize = 0;
    let l = input.len();
    while i < n
        invariant
            i <= n,
            l == input@.len(),
            a + n <= input@.len(),
            b@ == input@.subrange(a as int, a + i),
        decreases n - i,
    {
        b.push(input[a + i]);
        i = i + 1;
        assert(b@ =~= input@.subrange(a as int, a + i));
    }
    b
}

fn insufficient_error(input: &[u8], q: usize, need: u128) -> (x: BeBytesError)
    requires
        q / 8 <= input@.len(),
    ensures
        x == insufficient(input@, q as nat, need as nat),
{
    BeBytesError::InsufficientData { expected: need, actual: (input.len() - q / 8) as u128 }
}

fn read_number(input: &[u8], bits: &Vec<bool>, q: usize, w: usize, e: Endianness) -> (r: Result<
    (u128, usize),
    BeBytesError,
>)
    requires
        bits@ == unpack(input@, e),
        q <= bits@.len(),
        w <= 128,
    ensures
        match r {
            Ok((n, p)) => parse_number(input@, q as nat, w as nat, e) == Ok::<
                (u128, nat),
                BeBytesError,
            >((n, p as nat)) && p <= bits@.len(),
            Err(x) => parse_number(input@, q as nat, w as nat, e) == Err::<
                (u128, nat),
                BeBytesError,
            >(x),
        },
{
    let len = bits.len();
    if w <= len - q {
        let n = read_field_bits(bits, q, w, e);
        Ok((n, q + w))
    } else {
        let need = (q as u128 + w as u128 + 7) / 8 - (q / 8) as u128;
        Err(insufficient_error(input, q, need))
    }
}

fn decode_prim(ty: PrimitiveType, n: u128) -> (r: Result<u128, BeBytesError>)
    ensures
        r == decode_primitive(ty, n),
{
    if ty.is_bool_type() {
        Ok(
            if n != 0 {
                1
            } else {
                0
            },
        )
    } else if ty.is_char_type() {
        if n <= 0x10FFFF && !(0xD800 <= n && n <= 0xDFFF) {
            Ok(n)
        } else {
            Err(BeBytesError::InvalidDiscriminant { value: (n & 0xff) as u8 })
        }
    } else {
        Ok(n)
    }
}

fn decode_discriminant(d: &EnumDef, n: u128) -> (r: Result<u128, BeBytesError>)
    ensures
        r == decode_enum(*d, n),
{
    if n < 256 && d.contains(n as u8) {
        Ok(n)
    } else {
        Err(BeBytesError::InvalidDiscriminant { value: (n & 0xff) as u8 })
    }
}

fn take(input: &[u8], q: usize, n: u128, absolute: bool) -> (r: Result<(Vec<u8>, usize), BeBytesError>)
    requires
        q <= 8 * input@.len(),
        8 * input@.len() <= usize::MAX,
    ensures
        match r {
            Ok((b, p)) => take_bytes(input@, q as nat, n as nat, absolute) == Ok::<
                (Seq<u8>, nat),
                BeBytesError,
            >((b@, p as nat)) && p <= 8 * input@.len(),
            Err(x) => take_bytes(input@, q as nat, n as nat, absolute) == Err::<
                (Seq<u8>, nat),
                BeBytesError,
            >(x),
        },
{
    let a = q / 8;
    let rem = input.len() - a;
    if n <= rem as u128 {
        let k = n as usize;
        let b = copy_bytes(input, a, k);
        Ok((b, 8 * (a + k)))
    } else if absolute {
        let expected = if n <= u128::MAX - a as u128 {
            a as u128 + n
        } else {
            u128::MAX
        };
        Err(BeBytesError::InsufficientData { expected, actual: input.len() as u128 })
    } else {
        Err(insufficient_error(input, q, n))
    }
}

/// The first position of `m` among `input[a..]`.
fn find_marker(input: &[u8], a: usize, m: u8) -> (r: Option<usize>)
    requires
        a <= input@.len(),
    ensures
        match r {
            Some(k) => marker_index(input@.subrange(a as int, input@.len() as int), m) == Some(
                k as nat,
            ) && a + k < input@.len(),
            None => marker_index(input@.subrange(a as int, input@.len() as int), m) is None,
        },
{
    let ghost b = input@.subrange(a as int, input@.len() as int);
    let len = input.len();
    let mut i: usize = a;
    while i < len
        invariant
            a <= i <= len,
            len == input@.len(),
            b == input@.subrange(a as int, len as int),
            forall|j: int| 0 <= j < i - a ==> b[j] != m,
        decreases len - i,
    {
        if input[i] == m {
            proof {
                lemma_marker_found(b, m, (i - a) as int);
            }
            return Some(i - a);
        }
        i = i + 1;
    }
    proof {
        lemma_marker_absent(b, m);
    }
    None
}

fn decode_sized(
    sz: &SizeSpec,
    input: &[u8],
    q: usize,
    env: &Vec<Value>,
    text: bool,
) -> (r: Result<(Vec<u8>, usize), BeBytesError>)
    requires
        q <= 8 * input@.len(),
        q % 8 == 0,
        8 * input@.len() <= usize::MAX,
    ensures
        match r {
            Ok((b, p)) => parse_sized(*sz, input@, q as nat, view_values(env@), text) == Ok::<
                (Seq<u8>, nat),
                BeBytesError,
            >((b@, p as nat)) && p <= 8 * input@.len(),
            Err(x) => parse_sized(*sz, input@, q as nat, view_values(env@), text) == Err::<
                (Seq<u8>, nat),
                BeBytesError,
            >(x),
        },
{
    let a = q / 8;
    let len = input.len();
    match sz {
        SizeSpec::Fixed(n) => take(input, q, *n as u128, text),
        SizeSpec::FromField(path) => {
            let r = lookup_path(env, &path.segments, 0);
            assert(path.segments@.subrange(0, path.segments@.len() as int) =~= path.segments@);
            match r {
                Some(n) => take(input, q, n, text),
                None => Err(BeBytesError::InvalidFieldReference),
            }
        },
        SizeSpec::Expr(x) => match x.evaluate(env) {
            Some(n) => take(input, q, n, true),
            None => Err(BeBytesError::InvalidSizeExpression),
        },
        SizeSpec::Rest => {
            let b = copy_bytes(input, a, len - a);
            Ok((b, 8 * len))
        },
        SizeSpec::UntilMarker(m) => match find_marker(input, a, *m) {
            Some(k) => {
                let b = copy_bytes(input, a, k);
                Ok((b, 8 * (a + k + 1)))
            },
            None => {
                let b = copy_bytes(input, a, len - a);
                Ok((b, 8 * len))
            },
        },
        SizeSpec::AfterMarker(m) => match find_marker(input, a, *m) {
            Some(k) => {
                let b = copy_bytes(input, a + k + 1, len - (a + k + 1));
                Ok((b, 8 * len))
            },
            None => {
                let b: Vec<u8> = Vec::new();
                assert(b@ =~= Seq::<u8>::empty());
                Ok((b, q))
            },
        },
    }
}

fn decode_option_primitive(
    ty: PrimitiveType,
    input: &[u8],
    bits: &Vec<bool>,
    q: usize,
    e: Endianness,
) -> (r: Result<(Value, usize), BeBytesError>)
    requires
        bits@ == unpack(input@, e),
        q <= bits@.len(),
        q % 8 == 0,
    ensures
        agrees(r, parse_option_primitive(ty, input@, q as nat, e), bits@.len()),
{
    let w = 8 * ty.size();
    let len = bits.len();
    if len - q < 8 || len - q - 8 < w {
        return Err(insufficient_error(input, q, 1 + ty.size() as u128));
    }
    let tag = input[q / 8];
    if tag == 0 {
        Ok((Value::Opt(None), q + 8 + w))
    } else if tag == 1 {
        let n = read_field_bits(bits, q + 8, w, e);
        match decode_prim(ty, n) {
            Ok(x) => Ok((Value::Opt(Some(x)), q + 8 + w)),
            Err(x) => Err(x),
        }
    } else {
        Err(BeBytesError::InvalidOptionTag { value: tag })
    }
}

fn decode_option_array(n: usize, input: &[u8], q: usize) -> (r: Result<
    (Value, usize),
    BeBytesError,
>)
    requires
        q <= 8 * input@.len(),
        q % 8 == 0,
        8 * input@.len() <= usize::MAX,
    ensures
        agrees(r, parse_option_array(n as nat, input@, q as nat), 8 * input@.len()),
{
    let a = q / 8;
    let len = input.len();
    if len - a < 1 || len - a - 1 < n {
        return Err(insufficient_error(input, q, 1 + n as u128));
    }
    let tag = input[a];
    if tag == 0 {
        Ok((Value::OptBytes(None), 8 * (a + 1 + n)))
    } else if tag == 1 {
        let b = copy_bytes(input, a + 1, n);
        Ok((Value::OptBytes(Some(b)), 8 * (a + 1 + n)))
    } else {
        Err(BeBytesError::InvalidOptionTag { value: tag })
    }
}

fn decode_count(c: &CountSpec, env: &Vec<Value>) -> (r: Option<u128>)
    ensures
        r == count_of(*c, view_values(env@)),
{
    match c {
        CountSpec::Fixed(n) => Some(*n as u128),
        CountSpec::FromField(path) => {
            let r = lookup_path(env, &path.segments, 0);
            assert(path.segments@.subrange(0, path.segments@.len() as int) =~= path.segments@);
            r
        },
    }
}

fn decode_segments(m: u8, count: u128, input: &[u8], q: usize) -> (r: Result<
    (Value, usize),
    BeBytesError,
>)
    requires
        q <= 8 * input@.len(),
        q % 8 == 0,
        8 * input@.len() <= usize::MAX,
    ensures
        agrees(r, parse_segments(m, count as nat, input@, q as nat, Seq::empty()), 8 * input@.len()),
{
    let mut acc: Vec<Vec<u8>> = Vec::new();
    let mut c = count;
    let mut pos = q;
    assert(view_segments(acc@) =~= Seq::<Seq<u8>>::empty());
    while c > 0
        invariant
            pos <= 8 * input@.len(),
            pos % 8 == 0,
            8 * input@.len() <= usize::MAX,
            parse_segments(m, count as nat, input@, q as nat, Seq::empty()) == parse_segments(
                m,
                c as nat,
                input@,
                pos as nat,
                view_segments(acc@),
            ),
        decreases c,
    {
        let a = pos / 8;
        match find_marker(input, a, m) {
            Some(k) => {
                let seg = copy_bytes(input, a, k);
                proof {
                    assert(view_segments(acc@.push(seg)) =~= view_segments(acc@).push(seg@));
                }
                acc.push(seg);
                pos = 8 * (a + k + 1);
                c = c - 1;
            },
            None => {
                return Err(BeBytesError::MarkerNotFound { marker: m });
            },
        }
    }
    Ok((Value::Segments(acc), pos))
}

/// One step of decoding the fields of a struct.
proof fn lemma_parse_fields_step(
    s: Schema,
    i: nat,
    input: Seq<u8>,
    p: nat,
    env: Seq<ValueView>,
    e: Endianness,
)
    requires
        i < s.fields@.len(),
    ensures
        parse_fields(s, i, input, p, env, e) == match parse_field(
            s.fields@[i as int],
            i + 1 == s.fields@.len(),
            input,
            p,
            env,
            e,
        ) {
            Ok((v, p2)) => parse_fields(s, i + 1, input, p2, env.push(v), e),
            Err(x) => Err(x),
        },
{
}

/// Decodes a struct that starts at bit position `p` (rounded up to a byte).
pub fn decode_struct(s: &Schema, input: &[u8], bits: &Vec<bool>, p: usize, e: Endianness) -> (r:
    Result<(Value, usize), BeBytesError>)
    requires
        bits@ == unpack(input@, e),
        p <= bits@.len(),
        s.nested_sizes_fit(),
    ensures
        agrees(r, parse_struct(*s, input@, p as nat, e), bits@.len()),
    decreases *s, 0nat, s.fields@.len() + 1,
{
    let len = bits.len();
    let q = ceil8_of(p, len);
    if q >= len {
        return Err(BeBytesError::EmptyBuffer);
    }
    match decode_fields(s, input, bits, q, e) {
        Ok((env, pos)) => {
            let end = ceil8_of(pos, len);
            assert(view_value(Value::Struct(env)) == ValueView::Struct(view_values(env@)));
            Ok((Value::Struct(env), end))
        },
        Err(x) => Err(x),
    }
}

/// Decodes the fields of a struct from the byte boundary `q` on.
fn decode_fields(s: &Schema, input: &[u8], bits: &Vec<bool>, q: usize, e: Endianness) -> (r:
    Result<(Vec<Value>, usize), BeBytesError>)
    requires
        bits@ == unpack(input@, e),
        q <= bits@.len(),
        s.nested_sizes_fit(),
    ensures
        match r {
            Ok((env, pos)) => parse_fields(*s, 0, input@, q as nat, Seq::empty(), e) == Ok::<
                (Seq<ValueView>, nat),
                BeBytesError,
            >((view_values(env@), pos as nat)) && pos <= bits@.len(),
            Err(x) => parse_fields(*s, 0, input@, q as nat, Seq::empty(), e) == Err::<
                (Seq<ValueView>, nat),
                BeBytesError,
            >(x),
        },
    decreases *s, 0nat, s.fields@.len(),
{
    let len = bits.len();
    let n = s.fields.len();
    let mut env: Vec<Value> = Vec::new();
    let mut pos = q;
    let mut i: usize = 0;
    assert(view_values(env@) =~= Seq::<ValueView>::empty());
    while i < n
        invariant
            i <= n,
            n == s.fields@.len(),
            len == bits@.len(),
            bits@ == unpack(input@, e),
            pos <= len,
            s.nested_sizes_fit(),
            parse_fields(*s, 0, input@, q as nat, Seq::empty(), e) == parse_fields(
                *s,
                i as nat,
                input@,
                pos as nat,
                view_values(env@),
                e,
            ),
        decreases n - i,
    {
        proof {
            lemma_sizes_fit_at(*s, n as nat, i as nat);
        }
        let r = decode_field(&s.fields[i], i + 1 == n, input, bits, pos, &env, e);
        proof {
            lemma_parse_fields_step(*s, i as nat, input@, pos as nat, view_values(env@), e);
        }
        match r {
            Ok((v, p2)) => {
                proof {
                    lemma_view_values_push(env@, v);
                }
                env.push(v);
                pos = p2;
                i = i + 1;
            },
            Err(x) => {
                return Err(x);
            },
        }
    }
    Ok((env, pos))
}

fn decode_items_counted(
    s: &Schema,
    count: u128,
    input: &[u8],
    bits: &Vec<bool>,
    q: usize,
    e: Endianness,
) -> (r: Result<(Value, usize), BeBytesError>)
    requires
        bits@ == unpack(input@, e),
        q <= bits@.len(),
        s.nested_sizes_fit(),
    ensures
        agrees(r, parse_items_counted(*s, count as nat, input@, q as nat, Seq::empty(), e), bits@.len()),
    decreases *s, 1nat, 0nat,
{
    let len = bits.len();
    let mut acc: Vec<Value> = Vec::new();
    let mut c = count;
    let mut pos = q;
    assert(view_values(acc@) =~= Seq::<ValueView>::empty());
    loop
        invariant
            len == bits@.len(),
            bits@ == unpack(input@, e),
            pos <= len,
            s.nested_sizes_fit(),
            parse_items_counted(*s, count as nat, input@, q as nat, Seq::empty(), e)
                == parse_items_counted(*s, c as nat, input@, pos as nat, view_values(acc@), e),
        decreases c,
    {
        if c == 0 || ceil8_of(pos, len) >= len {
            return Ok((Value::List(acc), pos));
        }
        match decode_struct(s, input, bits, pos, e) {
            Ok((v, p2)) => {
                proof {
                    lemma_view_values_push(acc@, v);
                }
                acc.push(v);
                pos = p2;
                c = c - 1;
            },
            Err(x) => {
                return Err(x);
            },
        }
    }
}

fn decode_items_greedy(s: &Schema, input: &[u8], bits: &Vec<bool>, q: usize, e: Endianness) -> (r:
    Result<(Value, usize), BeBytesError>)
    requires
        bits@ == unpack(input@, e),
        q <= bits@.len(),
        s.nested_sizes_fit(),
    ensures
        agrees(r, parse_items_greedy(*s, input@, q as nat, Seq::empty(), e), bits@.len()),
    decreases *s, 1nat, 0nat,
{
    let len = bits.len();
    let mut acc: Vec<Value> = Vec::new();
    let mut pos = q;
    assert(view_values(acc@) =~= Seq::<ValueView>::empty());
    loop
        invariant
            len == bits@.len(),
            bits@ == unpack(input@, e),
            pos <= len,
            s.nested_sizes_fit(),
            parse_items_greedy(*s, input@, q as nat, Seq::empty(), e) == parse_items_greedy(
                *s,
                input@,
                pos as nat,
                view_values(acc@),
                e,
            ),
        decreases len - pos,
    {
        if pos >= len {
            return Ok((Value::List(acc), pos));
        }
        match decode_struct(s, input, bits, pos, e) {
            Ok((v, p2)) => {
                if pos < p2 {
                    proof {
                        lemma_view_values_push(acc@, v);
                    }
                    acc.push(v);
                    pos = p2;
                } else {
                    return Ok((Value::List(acc), pos));
                }
            },
            Err(_) => {
                return Ok((Value::List(acc), pos));
            },
        }
    }
}

/// Decodes a nested struct at the byte boundary `q` from the bytes that its
/// static size allows.
fn decode_nested(s: &Schema, input: &[u8], q: usize, e: Endianness) -> (r: Result<
    (Value, usize),
    BeBytesError,
>)
    requires
        q % 8 == 0,
        q <= 8 * input@.len(),
        input@.len() <= usize::MAX / 8,
        kind_sizes_fit(FieldKind::Nested(*s)),
    ensures
        agrees(
            r,
            parse_struct(*s, input@.subrange(0, nested_end(*s, input@, q as nat) as int), q as nat, e),
            8 * input@.len(),
        ),
    decreases *s, 0nat, s.fields@.len() + 2,
{
    let fs = crate::api::struct_bits(s) / 8;
    let a = q / 8;
    let end = if fs < input.len() - a {
        a + fs
    } else {
        input.len()
    };
    proof {
        reveal(nested_end);
    }
    let sub = copy_bytes(input, 0, end);
    let sub_bits = unpack_bytes(sub.as_slice(), e);
    decode_struct(s, sub.as_slice(), &sub_bits, q, e)
}

/// Decodes one field at bit position `p`, after the values `env` of the
/// fields before it.
#[verifier::spinoff_prover]
#[verifier::rlimit(50)]
fn decode_field(
    k: &FieldKind,
    last: bool,
    input: &[u8],
    bits: &Vec<bool>,
    p: usize,
    env: &Vec<Value>,
    e: Endianness,
) -> (r: Result<(Value, usize), BeBytesError>)
    requires
        bits@ == unpack(input@, e),
        p <= bits@.len(),
        kind_sizes_fit(*k),
    ensures
        agrees(r, parse_field(*k, last, input@, p as nat, view_values(env@), e), bits@.len()),
    decreases *k, 0nat, 0nat,
{
    let len = bits.len();
    let q = ceil8_of(p, len);
    match k {
        FieldKind::Primitive(ty) => match read_number(input, bits, q, 8 * ty.size(), e) {
            Ok((n, p2)) => match decode_prim(*ty, n) {
                Ok(v) => Ok((Value::Num(v), p2)),
                Err(x) => Err(x),
            },
            Err(x) => Err(x),
        },
        FieldKind::Bits(ty, w) => {
            if *w > 128 {
                return Err(BeBytesError::InvalidSchema);
            }
            match read_number(input, bits, p, *w, e) {
                Ok((n, p2)) => match decode_prim(*ty, n) {
                    Ok(v) => Ok((Value::Num(v), p2)),
                    Err(x) => Err(x),
                },
                Err(x) => Err(x),
            }
        },
        FieldKind::Enum(d) => {
            if q >= len {
                return Err(BeBytesError::EmptyBuffer);
            }
            match read_number(input, bits, q, 8, e) {
                Ok((n, p2)) => match decode_discriminant(d, n) {
                    Ok(v) => Ok((Value::Num(v), p2)),
                    Err(x) => Err(x),
                },
                Err(x) => Err(x),
            }
        },
        FieldKind::EnumBits(d, w) => {
            if *w > 128 {
                return Err(BeBytesError::InvalidSchema);
            }
            match read_number(input, bits, p, *w, e) {
                Ok((n, p2)) => match decode_discriminant(d, n) {
                    Ok(v) => Ok((Value::Num(v), p2)),
                    Err(x) => Err(x),
                },
                Err(x) => Err(x),
            }
        },
        FieldKind::Array(n) => match take(input, q, *n as u128, false) {
            Ok((b, p2)) => Ok((Value::Bytes(b), p2)),
            Err(x) => Err(x),
        },
        FieldKind::OptionPrimitive(ty) => decode_option_primitive(*ty, input, bits, q, e),
        FieldKind::OptionArray(n) => decode_option_array(*n, input, q),
        FieldKind::Bytes(sz) => match decode_sized(sz, input, q, env, false) {
            Ok((b, p2)) => Ok((Value::Bytes(b), p2)),
            Err(x) => Err(x),
        },
        FieldKind::Text(sz) => match decode_sized(sz, input, q, env, true) {
            Ok((b, p2)) => {
                if is_utf8(b.as_slice()) {
                    Ok((Value::Bytes(b), p2))
                } else {
                    Err(BeBytesError::InvalidUtf8)
                }
            },
            Err(x) => Err(x),
        },
        FieldKind::Nested(s) => decode_nested(s, input, q, e),
        FieldKind::List(s, cnt) => match cnt {
            Some(c) => match decode_count(c, env) {
                Some(n) => decode_items_counted(s, n, input, bits, q, e),
                None => Err(BeBytesError::InvalidFieldReference),
            },
            None => if last {
                decode_items_greedy(s, input, bits, q, e)
            } else {
                Err(BeBytesError::InvalidSchema)
            },
        },
        FieldKind::Segments(cnt, m) => match decode_count(cnt, env) {
            Some(n) => decode_segments(*m, n, input, q),
            None => Err(BeBytesError::InvalidFieldReference),
        },
    }
}

/// Decodes a struct from the start of `input`: its value and the number of
/// bytes it took.
pub fn decode_value(s: &Schema, input: &[u8], e: Endianness) -> (r: Result<
    (Value, usize),
    BeBytesError,
>)
    requires
        input@.len() <= usize::MAX / 8,
        s.nested_sizes_fit(),
    ensures
        match r {
            Ok((v, n)) => crate::codec::decode(*s, input@, e) == Ok::<(ValueView, nat), BeBytesError>(
                (v@, n as nat),
            ),
            Err(x) => crate::codec::decode(*s, input@, e) == Err::<(ValueView, nat), BeBytesError>(
                x,
            ),
        },
{
    let bits = unpack_bytes(input, e);
    match decode_struct(s, input, &bits, 0, e) {
        Ok((v, p)) => Ok((v, p / 8)),
        Err(x) => Err(x),
    }
}

} // verus!
