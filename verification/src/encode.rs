//! The encoder: builds the stream of a struct value field by field.
use vstd::prelude::*;
use crate::bits::{
    align_bits, field_bits, lemma_unpack_concat, pack_bits, push_align, push_bytes_bits,
    push_field_bits, unpack,
};
use crate::codec::{
    encodable_field, encodable_fields, encodable_items, encodable_struct, framed, join_segments,
    option_array_bytes, option_tag, ser_field, ser_fields, ser_items, ser_struct,
};
use crate::consts::Endianness;
use crate::schema::{FieldKind, Schema, SizeSpec};
use crate::value::{
    Value, ValueView, lemma_view_values, view_segments, view_value, view_values,
};

verus! {

/// Appends the bits of one byte.
pub fn push_byte_bits(out: &mut Vec<bool>, b: u8, e: Endianness)
    ensures
        final(out)@ == old(out)@ + unpack(seq![b], e),
{
    push_field_bits(out, b as u128, 8, e);
    assert(unpack(seq![b], e) =~= field_bits(b as u128, 8, e));
}

/// Appends the bits of `n` zero bytes.
fn push_zero_bytes(out: &mut Vec<bool>, n: usize, e: Endianness)
    ensures
        final(out)@ == old(out)@ + unpack(Seq::new(n as nat, |i: int| 0u8), e),
{
    let ghost start = old(out)@;
    let mut i: usize = 0;
    while i < n
        invariant
            i <= n,
            out@ == start + unpack(Seq::new(i as nat, |j: int| 0u8), e),
        decreases n - i,
    {
        push_byte_bits(out, 0, e);
        proof {
            lemma_unpack_concat(Seq::new(i as nat, |j: int| 0u8), seq![0u8], e);
            assert(Seq::new((i + 1) as nat, |j: int| 0u8) =~= Seq::new(i as nat, |j: int| 0u8)
                + seq![0u8]);
        }
        i = i + 1;
    }
}

/// Appends the bits of `bytes` with the marker their size asks for.
fn push_framed(out: &mut Vec<bool>, sz: &SizeSpec, bytes: &Vec<u8>, e: Endianness)
    ensures
        final(out)@ == old(out)@ + unpack(framed(*sz, bytes@), e),
{
    match sz {
        SizeSpec::UntilMarker(m) => {
            push_bytes_bits(out, bytes.as_slice(), e);
            push_byte_bits(out, *m, e);
            proof {
                lemma_unpack_concat(bytes@, seq![*m], e);
                assert(bytes@.push(*m) =~= bytes@ + seq![*m]);
            }
        },
        SizeSpec::AfterMarker(m) => {
            push_byte_bits(out, *m, e);
            push_bytes_bits(out, bytes.as_slice(), e);
            proof {
                lemma_unpack_concat(seq![*m], bytes@, e);
            }
        },
        _ => {
            push_bytes_bits(out, bytes.as_slice(), e);
        },
    }
}

/// The fields of an encodable prefix of fields are each encodable.
pub proof fn lemma_encodable_fields_at(s: Schema, vs: Seq<ValueView>, n: nat, i: nat)
    requires
        encodable_fields(s, vs, n),
        i < n <= s.fields@.len(),
    ensures
        encodable_field(s.fields@[i as int], vs[i as int], vs.subrange(0, i as int)),
    decreases n,
{
    if i + 1 < n {
        lemma_encodable_fields_at(s, vs, (n - 1) as nat, i);
    }
}

/// The items of an encodable list are each encodable.
pub proof fn lemma_encodable_items_at(s: Schema, items: Seq<ValueView>, n: nat, i: nat)
    requires
        encodable_items(s, items, n),
        i < n,
    ensures
        encodable_struct(s, items[i as int]),
    decreases n,
{
    if i + 1 < n {
        lemma_encodable_items_at(s, items, (n - 1) as nat, i);
    }
}

/// Appends the stream of a struct value.
pub fn encode_struct(s: &Schema, v: &Value, out: &mut Vec<bool>, e: Endianness)
    requires
        encodable_struct(*s, v@),
    ensures
        final(out)@ == old(out)@ + ser_struct(*s, v@, e),
    decreases *s, 0nat, s.fields@.len() + 1,
{
    match v {
        Value::Struct(vs) => {
            let ghost vsv = view_values(vs@);
            proof {
                lemma_view_values(vs@);
            }
            let mut buf: Vec<bool> = Vec::new();
            let n = s.fields.len();
            let mut i: usize = 0;
            while i < n
                invariant
                    i <= n,
                    n == s.fields@.len(),
                    vs@.len() == n,
                    vsv == view_values(vs@),
                    vsv.len() == n,
                    forall|j: int| 0 <= j < n ==> #[trigger] vsv[j] == view_value(vs@[j]),
                    encodable_fields(*s, vsv, n as nat),
                    buf@ == ser_fields(*s, vsv, i as nat, e),
                decreases n - i,
            {
                proof {
                    lemma_encodable_fields_at(*s, vsv, n as nat, i as nat);
                }
                encode_field(&s.fields[i], &vs[i], &mut buf, Ghost(vsv.subrange(0, i as int)), e);
                i = i + 1;
            }
            push_align(&mut buf);
            out.append(&mut buf);
        },
        _ => {},
    }
}

/// Appends the streams of a list of struct values.
fn encode_items(s: &Schema, items: &Vec<Value>, out: &mut Vec<bool>, e: Endianness)
    requires
        encodable_items(*s, view_values(items@), items@.len()),
    ensures
        final(out)@ == old(out)@ + ser_items(*s, view_values(items@), items@.len(), e),
    decreases *s, 1nat, 0nat,
{
    let ghost start = old(out)@;
    let ghost iv = view_values(items@);
    proof {
        lemma_view_values(items@);
    }
    let n = items.len();
    let mut j: usize = 0;
    while j < n
        invariant
            j <= n,
            n == items@.len(),
            iv == view_values(items@),
            iv.len() == n,
            forall|k: int| 0 <= k < n ==> #[trigger] iv[k] == view_value(items@[k]),
            encodable_items(*s, iv, n as nat),
            out@ == start + ser_items(*s, iv, j as nat, e),
        decreases n - j,
    {
        proof {
            lemma_encodable_items_at(*s, iv, n as nat, j as nat);
        }
        encode_struct(s, &items[j], out, e);
        j = j + 1;
    }
}

/// Appends the segments, each followed by the marker.
fn encode_segments(segs: &Vec<Vec<u8>>, m: u8, out: &mut Vec<bool>, e: Endianness)
    ensures
        final(out)@ == old(out)@ + unpack(join_segments(view_segments(segs@), m), e),
{
    let ghost start = old(out)@;
    let ghost sv = view_segments(segs@);
    let n = segs.len();
    let mut j: usize = 0;
    while j < n
        invariant
            j <= n,
            n == segs@.len(),
            sv == view_segments(segs@),
            out@ == start + unpack(join_segments(sv.subrange(0, j as int), m), e),
        decreases n - j,
    {
        let seg = &segs[j];
        push_bytes_bits(out, seg.as_slice(), e);
        push_byte_bits(out, m, e);
        proof {
            let prev = sv.subrange(0, j as int);
            let next = sv.subrange(0, j + 1);
            assert(next.drop_last() =~= prev);
            assert(next.last() == seg@);
            lemma_unpack_concat(seg@, seq![m], e);
            assert(seg@.push(m) =~= seg@ + seq![m]);
            lemma_unpack_concat(join_segments(prev, m), seg@.push(m), e);
        }
        j = j + 1;
    }
    assert(sv.subrange(0, n as int) =~= sv);
}

/// Appends one field to the stream `out` of the fields before it, whose
/// values are `env`.
fn encode_field(
    k: &FieldKind,
    v: &Value,
    out: &mut Vec<bool>,
    Ghost(env): Ghost<Seq<ValueView>>,
    e: Endianness,
)
    requires
        encodable_field(*k, v@, env),
    ensures
        final(out)@ == ser_field(old(out)@, *k, v@, e),
    decreases *k, 0nat, 0nat,
{
    match k {
        FieldKind::Primitive(ty) => {
            if let Value::Num(n) = v {
                push_align(out);
                push_field_bits(out, *n, 8 * ty.size(), e);
            }
        },
        FieldKind::Bits(_, w) => {
            if let Value::Num(n) = v {
                push_field_bits(out, *n, *w, e);
            }
        },
        FieldKind::Enum(_) => {
            if let Value::Num(n) = v {
                push_align(out);
                push_field_bits(out, *n, 8, e);
            }
        },
        FieldKind::EnumBits(_, w) => {
            if let Value::Num(n) = v {
                push_field_bits(out, *n, *w, e);
            }
        },
        FieldKind::Array(_) => {
            if let Value::Bytes(b) = v {
                push_align(out);
                push_bytes_bits(out, b.as_slice(), e);
            }
        },
        FieldKind::OptionPrimitive(ty) => {
            if let Value::Opt(o) = v {
                push_align(out);
                let (tag, x): (u8, u128) = match o {
                    Some(x) => (1, *x),
                    None => (0, 0),
                };
                assert(tag == option_tag(o is Some));
                push_byte_bits(out, tag, e);
                push_field_bits(out, x, 8 * ty.size(), e);
            }
        },
        FieldKind::OptionArray(n) => {
            if let Value::OptBytes(o) = v {
                push_align(out);
                match o {
                    Some(b) => {
                        push_byte_bits(out, 1, e);
                        push_bytes_bits(out, b.as_slice(), e);
                        proof {
                            lemma_unpack_concat(seq![1u8], b@, e);
                        }
                    },
                    None => {
                        push_byte_bits(out, 0, e);
                        push_zero_bytes(out, *n, e);
                        proof {
                            lemma_unpack_concat(seq![0u8], Seq::new(*n as nat, |i: int| 0u8), e);
                        }
                    },
                }
            }
        },
        FieldKind::Bytes(sz) => {
            if let Value::Bytes(b) = v {
                push_align(out);
                push_framed(out, sz, b, e);
            }
        },
        FieldKind::Text(sz) => {
            if let Value::Bytes(b) = v {
                push_align(out);
                push_framed(out, sz, b, e);
            }
        },
        FieldKind::Nested(s) => {
            push_align(out);
            encode_struct(s, v, out, e);
        },
        FieldKind::List(s, _) => {
            if let Value::List(items) = v {
                proof {
                    lemma_view_values(items@);
                }
                push_align(out);
                encode_items(s, items, out, e);
            }
        },
        FieldKind::Segments(_, m) => {
            if let Value::Segments(segs) = v {
                push_align(out);
                encode_segments(segs, *m, out, e);
            }
        },
    }
}

/// The bytes of a struct value.
pub fn encode_value(s: &Schema, v: &Value, e: Endianness) -> (b: Vec<u8>)
    requires
        encodable_struct(*s, v@),
    ensures
        b@ == crate::codec::encode(*s, v@, e),
{
    let mut out: Vec<bool> = Vec::new();
    encode_struct(s, v, &mut out, e);
    assert(out@ =~= ser_struct(*s, v@, e));
    proof {
        crate::codec::lemma_ser_struct_aligned(*s, v@, e);
    }
    pack_bits(&out, e)
}

} // verus!
