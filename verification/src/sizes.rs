//! How long encodings are: the byte order never changes the length, and a
//! layout of fixed-width fields whose bit fields fill whole bytes encodes to
//! exactly its static size.
use vstd::prelude::*;
use crate::api::{size_step, static_bits};
use crate::bits::{align_bits, field_bits, fits, pad_len, unpack};
use crate::codec::{
    BeBytesError, ceil8, decode, encodable_field, encodable_fields, encodable_struct, encode, framed, join_segments,
    lemma_align_len, lemma_ceil8, option_array_bytes, option_tag, ser_field, ser_fields, ser_items,
    ser_struct,
};
use crate::consts::Endianness;
use crate::schema::{FieldKind, Schema, SizeSpec, is_bit_kind};
use crate::optimize::{raw_size, spec_supports_raw};
use crate::roundtrip::{decodable_field, decodable_fields, decodable_struct, lemma_decode_encode};
use crate::value::ValueView;

verus! {

proof fn lemma_unpack_len(b: Seq<u8>)
    ensures
        unpack(b, Endianness::Big).len() == unpack(b, Endianness::Little).len(),
        unpack(b, Endianness::Big).len() == 8 * b.len(),
{
}

proof fn lemma_struct_len(s: Schema, v: ValueView)
    ensures
        ser_struct(s, v, Endianness::Big).len() == ser_struct(s, v, Endianness::Little).len(),
    decreases s, 0nat, s.fields@.len() + 1,
{
    if let ValueView::Struct(vs) = v {
        let n = s.fields@.len();
        lemma_fields_len(s, vs, n);
        lemma_align_len(ser_fields(s, vs, n, Endianness::Big));
        lemma_align_len(ser_fields(s, vs, n, Endianness::Little));
    }
}

proof fn lemma_fields_len(s: Schema, vs: Seq<ValueView>, n: nat)
    ensures
        ser_fields(s, vs, n, Endianness::Big).len() == ser_fields(s, vs, n, Endianness::Little).len(),
    decreases s, 0nat, n,
{
    if n > 0 && n <= s.fields@.len() {
        lemma_fields_len(s, vs, (n - 1) as nat);
        lemma_field_len(
            ser_fields(s, vs, (n - 1) as nat, Endianness::Big),
            ser_fields(s, vs, (n - 1) as nat, Endianness::Little),
            s.fields@[n - 1],
            vs[n - 1],
        );
    }
}

proof fn lemma_field_len(a: Seq<bool>, b: Seq<bool>, k: FieldKind, v: ValueView)
    requires
        a.len() == b.len(),
    ensures
        ser_field(a, k, v, Endianness::Big).len() == ser_field(b, k, v, Endianness::Little).len(),
    decreases k, 0nat, 0nat,
{
    lemma_align_len(a);
    lemma_align_len(b);
    match (k, v) {
        (FieldKind::Array(_), ValueView::Bytes(x)) => {
            lemma_unpack_len(x);
        },
        (FieldKind::OptionPrimitive(_), ValueView::Opt(o)) => {
            lemma_unpack_len(seq![option_tag(o is Some)]);
        },
        (FieldKind::OptionArray(n), ValueView::OptBytes(o)) => {
            lemma_unpack_len(option_array_bytes(n as nat, o));
        },
        (FieldKind::Bytes(sz), ValueView::Bytes(x)) => {
            lemma_unpack_len(framed(sz, x));
        },
        (FieldKind::Text(sz), ValueView::Bytes(x)) => {
            lemma_unpack_len(framed(sz, x));
        },
        (FieldKind::Nested(s), _) => {
            lemma_struct_len(s, v);
        },
        (FieldKind::List(s, _), ValueView::List(items)) => {
            lemma_items_len(s, items, items.len());
        },
        (FieldKind::Segments(_, m), ValueView::Segments(segs)) => {
            lemma_unpack_len(join_segments(segs, m));
        },
        _ => {},
    }
}

proof fn lemma_items_len(s: Schema, items: Seq<ValueView>, n: nat)
    ensures
        ser_items(s, items, n, Endianness::Big).len() == ser_items(s, items, n, Endianness::Little).len(),
    decreases s, 1nat, n,
{
    if n > 0 {
        lemma_items_len(s, items, (n - 1) as nat);
        lemma_struct_len(s, items[n - 1]);
    }
}

/// The byte order changes the bytes of an encoding, never their number.
pub proof fn lemma_encode_len_order(s: Schema, v: ValueView)
    ensures
        encode(s, v, Endianness::Big).len() == encode(s, v, Endianness::Little).len(),
{
    lemma_struct_len(s, v);
}


/// A field of fixed width: a primitive, a bit field, an enum, an array, an
/// option, a vector or string of fixed size, or a struct of fixed layout.
pub open spec fn fixed_kind(k: FieldKind) -> bool
    decreases k, 0nat, 1nat,
{
    match k {
        FieldKind::Primitive(_) => true,
        FieldKind::Bits(_, _) => true,
        FieldKind::Enum(_) => true,
        FieldKind::EnumBits(_, _) => true,
        FieldKind::Array(_) => true,
        FieldKind::OptionPrimitive(_) => true,
        FieldKind::OptionArray(_) => true,
        FieldKind::Bytes(SizeSpec::Fixed(_)) => true,
        FieldKind::Text(SizeSpec::Fixed(_)) => true,
        FieldKind::Nested(s) => fixed_layout(s),
        _ => false,
    }
}

/// The first `n` fields are of fixed width, and each of them that is no bit
/// field starts where the static bit count is on a byte boundary.
pub open spec fn fixed_fields(s: Schema, n: nat) -> bool
    decreases s, 0nat, n,
{
    if n == 0 || n > s.fields@.len() {
        true
    } else {
        &&& fixed_fields(s, (n - 1) as nat)
        &&& fixed_kind(s.fields@[n - 1])
        &&& !is_bit_kind(s.fields@[n - 1]) ==> static_bits(s, (n - 1) as nat) % 8 == 0
    }
}

/// A layout of fixed-width fields whose bit fields fill whole bytes.
pub open spec fn fixed_layout(s: Schema) -> bool
    decreases s, 0nat, s.fields@.len() + 1,
{
    fixed_fields(s, s.fields@.len()) && static_bits(s, s.fields@.len()) % 8 == 0
}

/// Every fixed-size byte vector of the value, nested ones included, holds
/// as many bytes as its size says.
pub open spec fn fixed_bytes_ok(k: FieldKind, v: ValueView) -> bool
    decreases k, 0nat, 0nat,
{
    match (k, v) {
        (FieldKind::Bytes(SizeSpec::Fixed(n)), ValueView::Bytes(b)) => b.len() == n,
        (FieldKind::Nested(s), ValueView::Struct(vs)) => fixed_bytes_all(s, vs, s.fields@.len()),
        _ => true,
    }
}

pub open spec fn fixed_bytes_all(s: Schema, vs: Seq<ValueView>, n: nat) -> bool
    decreases s, 0nat, n,
{
    if n == 0 || n > s.fields@.len() {
        true
    } else {
        fixed_bytes_all(s, vs, (n - 1) as nat) && fixed_bytes_ok(s.fields@[n - 1], vs[n - 1])
    }
}

proof fn lemma_fixed_struct_len(s: Schema, v: ValueView, e: Endianness)
    requires
        fixed_layout(s),
        encodable_struct(s, v),
        fixed_bytes_ok(FieldKind::Nested(s), v),
    ensures
        ser_struct(s, v, e).len() == static_bits(s, s.fields@.len()),
    decreases s, 0nat, s.fields@.len() + 2,
{
    if let ValueView::Struct(vs) = v {
        let n = s.fields@.len();
        lemma_fixed_fields_len(s, vs, n, e);
        lemma_align_len(ser_fields(s, vs, n, e));
        lemma_ceil8(ser_fields(s, vs, n, e).len());
    }
}

proof fn lemma_fixed_fields_len(s: Schema, vs: Seq<ValueView>, n: nat, e: Endianness)
    requires
        n <= s.fields@.len(),
        fixed_fields(s, n),
        encodable_fields(s, vs, n),
        fixed_bytes_all(s, vs, n),
    ensures
        ser_fields(s, vs, n, e).len() == static_bits(s, n),
    decreases s, 0nat, n,
{
    if n > 0 {
        let m = (n - 1) as nat;
        lemma_fixed_fields_len(s, vs, m, e);
        let acc = ser_fields(s, vs, m, e);
        let k = s.fields@[m as int];
        let v = vs[m as int];
        lemma_align_len(acc);
        lemma_ceil8(acc.len());
        assert(encodable_field(k, v, vs.subrange(0, m as int)));
        assert(fixed_kind(k));
        assert(fixed_bytes_ok(k, v));
        assert(static_bits(s, n) == size_step(static_bits(s, m), k));
        assert(!is_bit_kind(k) ==> acc.len() % 8 == 0);
        let out = ser_field(acc, k, v, e);
        assert(ser_fields(s, vs, n, e) == out);
        match (k, v) {
            (FieldKind::Nested(t), _) => {
                assert(fixed_layout(t));
                lemma_fixed_struct_len(t, v, e);
                lemma_ceil8(static_bits(t, t.fields@.len()));
                assert(out.len() == static_bits(s, n));
            },
            (FieldKind::OptionArray(len), ValueView::OptBytes(o)) => {
                assert(option_array_bytes(len as nat, o).len() == 1 + len);
                assert(out.len() == static_bits(s, n));
            },
            (FieldKind::Primitive(_), _) => {
                assert(out.len() == static_bits(s, n));
            },
            (FieldKind::Bits(_, _), _) => {
                assert(out.len() == static_bits(s, n));
            },
            (FieldKind::Enum(_), _) => {
                assert(out.len() == static_bits(s, n));
            },
            (FieldKind::EnumBits(_, _), _) => {
                assert(out.len() == static_bits(s, n));
            },
            (FieldKind::Array(_), _) => {
                assert(out.len() == static_bits(s, n));
            },
            (FieldKind::OptionPrimitive(_), _) => {
                assert(out.len() == static_bits(s, n));
            },
            (FieldKind::Bytes(_), _) => {
                assert(out.len() == static_bits(s, n));
            },
            (FieldKind::Text(_), _) => {
                assert(out.len() == static_bits(s, n));
            },
            _ => {},
        }
    }
}

/// A layout of fixed-width fields whose bit fields fill whole bytes encodes
/// every value to exactly its static size (`field_size()`) in bytes, in
/// either byte order; where decoding gives the value back, it consumes
/// that many bytes too.
pub proof fn lemma_fixed_encoding_len(s: Schema, v: ValueView, e: Endianness)
    requires
        fixed_layout(s),
        encodable_struct(s, v),
        fixed_bytes_ok(FieldKind::Nested(s), v),
    ensures
        encode(s, v, e).len() == s.spec_field_size(),
        decodable_struct(s, v, true, e) ==> decode(s, encode(s, v, e), e) == Ok::<
            (ValueView, nat),
            BeBytesError,
        >((v, s.spec_field_size())),
{
    lemma_fixed_struct_len(s, v, e);
    if decodable_struct(s, v, true, e) {
        lemma_decode_encode(s, v, Seq::empty(), e);
        assert(encode(s, v, e) + Seq::<u8>::empty() =~= encode(s, v, e));
    }
}

/// A flat field: a primitive, a byte array or a bit field.
pub open spec fn flat_kind(k: FieldKind) -> bool {
    k is Primitive || k is Array || k is Bits
}

/// A layout of flat fields whose bit fields fill whole bytes.
pub open spec fn flat_layout(s: Schema) -> bool {
    &&& fixed_layout(s)
    &&& forall|i: int| 0 <= i < s.fields@.len() ==> #[trigger] flat_kind(s.fields@[i])
}

/// Every bit field value of the first `n` fields lies within its width.
pub open spec fn bits_in_range(s: Schema, vs: Seq<ValueView>, n: nat) -> bool {
    forall|i: int|
        0 <= i < n ==> (#[trigger] s.fields@[i] matches FieldKind::Bits(_, w) ==> (vs[i] matches ValueView::Num(x)
            && fits(x, w as nat)))
}

proof fn lemma_flat_bytes(s: Schema, vs: Seq<ValueView>, n: nat)
    requires
        n <= s.fields@.len(),
        forall|i: int| 0 <= i < s.fields@.len() ==> #[trigger] flat_kind(s.fields@[i]),
    ensures
        fixed_bytes_all(s, vs, n),
    decreases n,
{
    if n > 0 {
        lemma_flat_bytes(s, vs, (n - 1) as nat);
        let k = s.fields@[n - 1];
        assert(flat_kind(k));
        assert(fixed_bytes_ok(k, vs[n - 1])) by {
            reveal_with_fuel(fixed_bytes_ok, 2);
        }
        assert(fixed_bytes_all(s, vs, n));
    }
}

proof fn lemma_flat_decodable(s: Schema, vs: Seq<ValueView>, n: nat, e: Endianness)
    requires
        n <= s.fields@.len(),
        forall|i: int| 0 <= i < s.fields@.len() ==> #[trigger] flat_kind(s.fields@[i]),
        encodable_fields(s, vs, n),
        bits_in_range(s, vs, n),
    ensures
        decodable_fields(s, vs, n, true, e),
    decreases n,
{
    if n > 0 {
        let m = (n - 1) as nat;
        assert(bits_in_range(s, vs, m));
        lemma_flat_decodable(s, vs, m, e);
        let k = s.fields@[m as int];
        assert(flat_kind(k));
        assert(k matches FieldKind::Bits(_, w) ==> (vs[m as int] matches ValueView::Num(x) && fits(x, w as nat)));
        assert(encodable_field(k, vs[m as int], vs.subrange(0, m as int)));
        assert(decodable_field(k, vs[m as int], vs.subrange(0, m as int), n == s.fields@.len(), n == s.fields@.len(), e));
        assert(decodable_fields(s, vs, n, true, e));
    }
}

/// A layout of primitives, byte arrays and bit fields that fill whole bytes,
/// with a static size of at least one byte, encodes every value whose bit
/// fields lie within their widths to exactly `field_size()` bytes in either
/// byte order, and decoding those bytes gives the value back and consumes
/// `field_size()` bytes.
pub proof fn lemma_flat_layout_size(s: Schema, v: ValueView, e: Endianness)
    requires
        flat_layout(s),
        s.spec_field_size() > 0,
        encodable_struct(s, v),
        v matches ValueView::Struct(vs) && bits_in_range(s, vs, s.fields@.len()),
    ensures
        encode(s, v, e).len() == s.spec_field_size(),
        decode(s, encode(s, v, e), e) == Ok::<(ValueView, nat), BeBytesError>((v, s.spec_field_size())),
{
    if let ValueView::Struct(vs) = v {
        let n = s.fields@.len();
        lemma_flat_bytes(s, vs, n);
        assert(fixed_bytes_ok(FieldKind::Nested(s), v));
        lemma_fixed_struct_len(s, v, e);
        lemma_flat_decodable(s, vs, n, e);
        assert(decodable_struct(s, v, true, e));
        lemma_fixed_encoding_len(s, v, e);
    }
}

proof fn lemma_raw_prefix(s: Schema, n: nat)
    requires
        n <= s.fields@.len(),
        raw_size(s, n) is Some,
    ensures
        static_bits(s, n) == 8 * raw_size(s, n)->0,
        fixed_fields(s, n),
        forall|i: int| 0 <= i < n ==> #[trigger] flat_kind(s.fields@[i]),
        forall|i: int| 0 <= i < n ==> !(#[trigger] s.fields@[i] is Bits),
    decreases n,
{
    if n > 0 {
        let m = (n - 1) as nat;
        assert(raw_size(s, m) is Some);
        lemma_raw_prefix(s, m);
        let k = s.fields@[m as int];
        assert(k is Primitive || k is Array);
        assert(static_bits(s, n) == size_step(static_bits(s, m), k));
        assert(static_bits(s, m) % 8 == 0);
        assert forall|i: int| 0 <= i < n implies #[trigger] flat_kind(s.fields@[i]) by {
            if i < m {
                assert(flat_kind(s.fields@[i]));
            }
        }
        assert forall|i: int| 0 <= i < n implies !(#[trigger] s.fields@[i] is Bits) by {
            if i < m {
                assert(!(s.fields@[i] is Bits));
            }
        }
        assert(fixed_kind(k));
        assert(!is_bit_kind(k));
        assert(fixed_fields(s, n));
    }
}

/// A layout that the raw-pointer path supports writes every value to
/// exactly its raw size (`raw_pointer_size()`), and decoding those bytes
/// gives the value back and consumes that many bytes.
pub proof fn lemma_raw_round_trip(s: Schema, v: ValueView, e: Endianness)
    requires
        spec_supports_raw(s),
        encodable_struct(s, v),
    ensures
        encode(s, v, e).len() == raw_size(s, s.fields@.len())->0,
        decode(s, encode(s, v, e), e) == Ok::<(ValueView, nat), BeBytesError>(
            (v, raw_size(s, s.fields@.len())->0),
        ),
{
    let n = s.fields@.len();
    lemma_raw_prefix(s, n);
    assert(flat_layout(s));
    if let ValueView::Struct(vs) = v {
        assert forall|i: int| 0 <= i < n implies (#[trigger] s.fields@[i] matches FieldKind::Bits(_, w) ==> (
        vs[i] matches ValueView::Num(x) && fits(x, w as nat))) by {
            assert(!(s.fields@[i] is Bits));
        }
        assert(bits_in_range(s, vs, n));
    }
    lemma_flat_layout_size(s, v, e);
}

} // verus!
