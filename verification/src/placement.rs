//! One field in bytes: the bits of a field written at any bit position of a
//! byte buffer read back as the value written, and the bytes outside the
//! ones its bits touch keep their values.
use vstd::prelude::*;
use crate::bits::{
    field_bits, fits, lemma_from_field_bits, lemma_pack_unpack, lemma_unpack_concat, lemma_unpack_pack, pack,
    unpack,
};
use crate::bits::align_bits;
use crate::codec::{encode, framed, option_tag, read_num, ser_field, ser_fields};
use crate::schema::{FieldKind, PrimitiveType, Schema, SizeSpec};
use crate::value::ValueView;
use crate::consts::Endianness;

verus! {

/// `bytes` with the `w` bits at bit position `p` replaced by the `w` low
/// bits of `v`, in the bit order of `e`.
pub open spec fn put_bits(bytes: Seq<u8>, p: nat, v: u128, w: nat, e: Endianness) -> Seq<u8> {
    let s = unpack(bytes, e);
    pack(s.subrange(0, p as int) + field_bits(v, w, e) + s.subrange((p + w) as int, s.len() as int), e)
}

/// A field of `w` bits written at bit position `p` (byte `p / 8`, bit
/// offset `p % 8`) reads back as the value written, the buffer keeps its
/// length, and only the bytes from `p / 8` up to the byte that holds its
/// last bit change.
pub proof fn lemma_field_write_read(bytes: Seq<u8>, p: nat, v: u128, w: nat, e: Endianness)
    requires
        p + w <= 8 * bytes.len(),
        w <= 128,
        fits(v, w),
    ensures
        put_bits(bytes, p, v, w, e).len() == bytes.len(),
        read_num(put_bits(bytes, p, v, w, e), p, w, e) == v,
        forall|i: int|
            0 <= i < bytes.len() && (8 * i + 8 <= p || 8 * i >= p + w) ==> #[trigger] put_bits(
                bytes,
                p,
                v,
                w,
                e,
            )[i] == bytes[i],
{
    let s = unpack(bytes, e);
    let f = field_bits(v, w, e);
    let t = s.subrange(0, p as int) + f + s.subrange((p + w) as int, s.len() as int);
    assert(t.len() == 8 * bytes.len());
    let out = pack(t, e);
    lemma_unpack_pack(t, e);
    assert(t.subrange(p as int, (p + w) as int) =~= f);
    lemma_from_field_bits(v, w, e);
    lemma_pack_unpack(bytes, e);
    assert forall|i: int|
        0 <= i < bytes.len() && (8 * i + 8 <= p || 8 * i >= p + w) implies #[trigger] out[i]
        == bytes[i] by {
        assert(t.subrange(8 * i, 8 * i + 8) =~= s.subrange(8 * i, 8 * i + 8));
        assert(pack(s, e)[i] == bytes[i]);
    }
}

/// A struct of one byte-vector or string field encodes to the field's bytes
/// framed by its size rule: after the marker `m` for `#[AfterMarker(m)]`,
/// the marker `m` after the bytes for `#[UntilMarker(m)]`, and the bytes
/// alone otherwise, in either byte order.
pub proof fn lemma_byte_field_encoding(s: Schema, sz: SizeSpec, text: bool, b: Seq<u8>, e: Endianness)
    requires
        s.fields@ == seq![if text { FieldKind::Text(sz) } else { FieldKind::Bytes(sz) }],
    ensures
        sz matches SizeSpec::AfterMarker(m) ==> encode(s, ValueView::Struct(seq![ValueView::Bytes(b)]), e)
            == seq![m] + b,
        sz matches SizeSpec::UntilMarker(m) ==> encode(s, ValueView::Struct(seq![ValueView::Bytes(b)]), e)
            == b.push(m),
        !(sz is AfterMarker) && !(sz is UntilMarker) ==> encode(
            s,
            ValueView::Struct(seq![ValueView::Bytes(b)]),
            e,
        ) == b,
{
    let vs = seq![ValueView::Bytes(b)];
    let k = s.fields@[0];
    let f = framed(sz, b);
    assert(ser_fields(s, vs, 0, e) == Seq::<bool>::empty());
    assert(align_bits(Seq::<bool>::empty()) =~= Seq::<bool>::empty());
    let t = unpack(f, e);
    assert(ser_fields(s, vs, 1, e) == ser_field(Seq::<bool>::empty(), k, vs[0], e));
    assert(ser_fields(s, vs, 1, e) =~= t);
    assert(align_bits(t) =~= t);
    lemma_pack_unpack(f, e);
    assert(encode(s, ValueView::Struct(vs), e) == f);
}

/// A struct of one `Option<u8>` field encodes a present value as the tag
/// byte 1 followed by the value, and an absent one as the tag byte 0
/// followed by a zero byte, in either byte order.
pub proof fn lemma_option_byte_encoding(s: Schema, o: Option<u128>, e: Endianness)
    requires
        s.fields@ == seq![FieldKind::OptionPrimitive(PrimitiveType::U8)],
        o matches Some(x) ==> x < 256,
    ensures
        o matches Some(x) ==> encode(s, ValueView::Struct(seq![ValueView::Opt(o)]), e) == seq![1u8, x as u8],
        o is None ==> encode(s, ValueView::Struct(seq![ValueView::Opt(o)]), e) == seq![0u8, 0u8],
{
    let vs = seq![ValueView::Opt(o)];
    let k = s.fields@[0];
    let x: u128 = match o {
        Some(x) => x,
        None => 0u128,
    };
    let tag = option_tag(o is Some);
    let b = seq![tag, x as u8];
    assert(PrimitiveType::U8.spec_size() == 1);
    assert(ser_fields(s, vs, 0, e) == Seq::<bool>::empty());
    assert(align_bits(Seq::<bool>::empty()) =~= Seq::<bool>::empty());
    assert(ser_fields(s, vs, 1, e) == ser_field(Seq::<bool>::empty(), k, vs[0], e));
    lemma_unpack_concat(seq![tag], seq![x as u8], e);
    assert(seq![tag] + seq![x as u8] =~= b);
    assert(unpack(seq![x as u8], e) =~= field_bits(x, 8, e)) by {
        assert((x as u8) as u128 == x) by (bit_vector)
            requires
                x < 256,
        ;
        assert forall|i: int| 0 <= i < 8 implies #[trigger] unpack(seq![x as u8], e)[i] == field_bits(
            x,
            8,
            e,
        )[i] by {
            assert(i / 8 == 0);
            assert(i % 8 == i);
        }
    }
    let t = unpack(b, e);
    assert(ser_fields(s, vs, 1, e) =~= t);
    assert(align_bits(t) =~= t);
    lemma_pack_unpack(b, e);
}

} // verus!
