//! Decoding never claims more bytes than its input holds.
use vstd::prelude::*;
use crate::codec::{
    BeBytesError, ceil8, count_of, decode, is_first_marker, lemma_ceil8, marker_index,
    parse_field, parse_fields, parse_items_counted, parse_items_greedy, parse_segments,
    parse_sized, parse_struct, nested_end,
};
use crate::consts::Endianness;
use crate::schema::{FieldKind, Schema, SizeSpec};
use crate::value::ValueView;

verus! {

/// What ends at bit position `p2`, read from `input`, ends within it.
pub open spec fn ends_within<V>(r: Result<(V, nat), BeBytesError>, input: Seq<u8>) -> bool {
    r matches Ok((_, p2)) ==> p2 <= 8 * input.len()
}

proof fn lemma_ceil8_within(p: nat, len: nat)
    requires
        p <= 8 * len,
    ensures
        ceil8(p) <= 8 * len,
{
    lemma_ceil8(p);
}

proof fn lemma_marker_within(b: Seq<u8>, m: u8)
    ensures
        marker_index(b, m) matches Some(k) ==> k < b.len(),
{
    if exists|i: int| is_first_marker(b, m, i) {
        let c = choose|i: int| is_first_marker(b, m, i);
        assert(is_first_marker(b, m, c));
    }
}

proof fn lemma_sized_within(sz: SizeSpec, input: Seq<u8>, q: nat, env: Seq<ValueView>, text: bool)
    requires
        q <= 8 * input.len(),
        q % 8 == 0,
    ensures
        ends_within(parse_sized(sz, input, q, env, text), input),
{
    let a = q / 8;
    let len = input.len();
    let r = input.subrange(a as int, len as int);
    match sz {
        SizeSpec::UntilMarker(m) => {
            lemma_marker_within(r, m);
        },
        _ => {},
    }
}

proof fn lemma_segments_within(
    m: u8,
    c: nat,
    input: Seq<u8>,
    p: nat,
    acc: Seq<Seq<u8>>,
)
    requires
        p <= 8 * input.len(),
    ensures
        ends_within(parse_segments(m, c, input, p, acc), input),
    decreases c,
{
    if c > 0 {
        let a = p / 8;
        let r = input.subrange(a as int, input.len() as int);
        lemma_marker_within(r, m);
        if let Some(k) = marker_index(r, m) {
            lemma_segments_within(
                m,
                (c - 1) as nat,
                input,
                8 * (a + k + 1),
                acc.push(input.subrange(a as int, (a + k) as int)),
            );
        }
    }
}

/// A struct decoded from bit position `p` ends within the input.
pub proof fn lemma_struct_within(s: Schema, input: Seq<u8>, p: nat, e: Endianness)
    requires
        p <= 8 * input.len(),
    ensures
        ends_within(parse_struct(s, input, p, e), input),
    decreases s, 0nat, s.fields@.len() + 1,
{
    let q = ceil8(p);
    lemma_ceil8_within(p, input.len());
    if q < 8 * input.len() {
        lemma_fields_within(s, 0, input, q, Seq::empty(), e);
        if let Ok((vs, p2)) = parse_fields(s, 0, input, q, Seq::empty(), e) {
            lemma_ceil8_within(p2, input.len());
        }
    }
}

proof fn lemma_fields_within(
    s: Schema,
    i: nat,
    input: Seq<u8>,
    p: nat,
    env: Seq<ValueView>,
    e: Endianness,
)
    requires
        p <= 8 * input.len(),
    ensures
        ends_within(parse_fields(s, i, input, p, env, e), input),
    decreases s, 0nat, s.fields@.len() - i,
{
    if i < s.fields@.len() {
        let k = s.fields@[i as int];
        let last = i + 1 == s.fields@.len();
        lemma_field_within(k, last, input, p, env, e);
        if let Ok((v, p2)) = parse_field(k, last, input, p, env, e) {
            lemma_fields_within(s, i + 1, input, p2, env.push(v), e);
        }
    }
}

proof fn lemma_field_within(
    k: FieldKind,
    last: bool,
    input: Seq<u8>,
    p: nat,
    env: Seq<ValueView>,
    e: Endianness,
)
    requires
        p <= 8 * input.len(),
    ensures
        ends_within(parse_field(k, last, input, p, env, e), input),
    decreases k, 0nat, 0nat,
{
    let q = ceil8(p);
    lemma_ceil8_within(p, input.len());
    lemma_ceil8(p);
    match k {
        FieldKind::Bytes(sz) => {
            lemma_sized_within(sz, input, q, env, false);
        },
        FieldKind::Text(sz) => {
            lemma_sized_within(sz, input, q, env, true);
        },
        FieldKind::Nested(s) => {
            reveal(nested_end);
            let end = nested_end(s, input, q);
            lemma_struct_within(s, input.subrange(0, end as int), q, e);
        },
        FieldKind::List(s, cnt) => {
            if let Some(c) = cnt {
                if let Some(n) = count_of(c, env) {
                    lemma_counted_within(s, n as nat, input, q, Seq::empty(), e);
                }
            } else if last {
                lemma_greedy_within(s, input, q, Seq::empty(), e);
            }
        },
        FieldKind::Segments(cnt, m) => {
            if let Some(n) = count_of(cnt, env) {
                lemma_segments_within(m, n as nat, input, q, Seq::empty());
            }
        },
        _ => {},
    }
}

proof fn lemma_counted_within(
    s: Schema,
    c: nat,
    input: Seq<u8>,
    p: nat,
    acc: Seq<ValueView>,
    e: Endianness,
)
    requires
        p <= 8 * input.len(),
    ensures
        ends_within(parse_items_counted(s, c, input, p, acc, e), input),
    decreases s, 1nat, c,
{
    if c > 0 && ceil8(p) < 8 * input.len() {
        lemma_struct_within(s, input, p, e);
        if let Ok((v, p2)) = parse_struct(s, input, p, e) {
            lemma_counted_within(s, (c - 1) as nat, input, p2, acc.push(v), e);
        }
    }
}

proof fn lemma_greedy_within(
    s: Schema,
    input: Seq<u8>,
    p: nat,
    acc: Seq<ValueView>,
    e: Endianness,
)
    requires
        p <= 8 * input.len(),
    ensures
        ends_within(parse_items_greedy(s, input, p, acc, e), input),
    decreases s, 1nat, 8 * input.len() - p,
{
    if p < 8 * input.len() {
        if let Ok((v, p2)) = parse_struct(s, input, p, e) {
            if p < p2 && p2 <= 8 * input.len() {
                lemma_greedy_within(s, input, p2, acc.push(v), e);
            }
        }
    }
}

/// Decoding never claims more bytes than the input holds: the number of
/// bytes that a successful decoding reports is at most the input's length.
pub proof fn lemma_decode_within(s: Schema, input: Seq<u8>, e: Endianness)
    ensures
        decode(s, input, e) matches Ok((_, n)) ==> n <= input.len(),
{
    lemma_struct_within(s, input, 0, e);
}

} // verus!
