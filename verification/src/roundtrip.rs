//! Decoding the encoding of a value gives the value back.
//!
//! This holds of every value that can be encoded and that the encoding pins
//! down: sizes taken from other fields agree with the lengths of the data,
//! marker bytes do not occur in the data they end, fields that take every
//! remaining byte stand at the end of the input, and every struct takes at
//! least one byte.
use vstd::prelude::*;
use vstd::utf8::valid_utf8;
use crate::bits::{
    align_bits, field_bits, fits, lemma_from_field_bits, lemma_pack_unpack, lemma_unpack_concat,
    lemma_unpack_pack, pack, pad_len, unpack,
};
use crate::codec::{
    BeBytesError, ceil8, count_of, decode, decode_enum, decode_primitive, encodable_field,
    encodable_fields, encodable_items, encodable_struct, encode, framed, is_first_marker,
    join_segments, lemma_align_len, lemma_ceil8, lemma_marker_found, lemma_ser_struct_aligned,
    marker_index, option_array_bytes, option_tag, parse_field, parse_fields, parse_items_counted,
    parse_items_greedy, parse_number, parse_option_array, parse_option_primitive, parse_segments,
    parse_sized, parse_struct, primitive_ok, read_num, ser_field, ser_fields, ser_items,
    ser_struct, take_bytes, nested_end,
};
use crate::consts::Endianness;
use crate::schema::{CountSpec, FieldKind, Schema, SizeSpec};
use crate::size_expr::eval;
use crate::value::{ValueView, lookup};

verus! {

/// The bytes of a vector or string field are pinned down by its size.
pub open spec fn sized_ok(sz: SizeSpec, b: Seq<u8>, env: Seq<ValueView>, free: bool) -> bool {
    match sz {
        SizeSpec::Fixed(n) => b.len() == n,
        SizeSpec::FromField(path) => lookup(env, path.segments@) matches Some(n) && n == b.len(),
        SizeSpec::Expr(x) => eval(x, env) matches Some(n) && n == b.len(),
        SizeSpec::Rest => free,
        SizeSpec::UntilMarker(m) => !b.contains(m),
        SizeSpec::AfterMarker(_) => free,
    }
}

/// A field value that decoding gives back from its encoding. `env` holds
/// the values of the fields before, `last` says whether the field is its
/// struct's last, and `free` whether nothing follows it in the input.
pub open spec fn decodable_field(
    k: FieldKind,
    v: ValueView,
    env: Seq<ValueView>,
    last: bool,
    free: bool,
    e: Endianness,
) -> bool
    decreases k, 0nat, 0nat,
{
    match (k, v) {
        (FieldKind::Bits(ty, w), ValueView::Num(n)) => fits(n, w as nat) && (ty.is_bool() ==> n <= 1),
        (FieldKind::Bytes(sz), ValueView::Bytes(b)) => sized_ok(sz, b, env, free),
        (FieldKind::Text(sz), ValueView::Bytes(b)) => sized_ok(sz, b, env, free),
        (FieldKind::Nested(s), _) => {
            &&& decodable_struct(s, v, free, e)
            &&& ser_struct(s, v, e).len() <= 8 * s.spec_field_size()
        },
        (FieldKind::List(s, cnt), ValueView::List(items)) => {
            &&& decodable_items(s, items, items.len(), e)
            &&& match cnt {
                Some(c) => count_of(c, env) matches Some(n) && n == items.len(),
                None => last && free,
            }
        },
        (FieldKind::Segments(cnt, m), ValueView::Segments(segs)) => {
            &&& count_of(cnt, env) matches Some(n) && n == segs.len()
            &&& forall|j: int| 0 <= j < segs.len() ==> !(#[trigger] segs[j]).contains(m)
        },
        _ => true,
    }
}

/// A struct value that decoding gives back from its encoding: its encoding
/// takes at least one byte and each field is decodable.
pub open spec fn decodable_struct(s: Schema, v: ValueView, free: bool, e: Endianness) -> bool
    decreases s, 0nat, s.fields@.len() + 1,
{
    match v {
        ValueView::Struct(vs) => {
            &&& vs.len() == s.fields@.len()
            &&& ser_struct(s, v, e).len() > 0
            &&& decodable_fields(s, vs, s.fields@.len(), free, e)
        },
        _ => false,
    }
}

pub open spec fn decodable_fields(
    s: Schema,
    vs: Seq<ValueView>,
    n: nat,
    free: bool,
    e: Endianness,
) -> bool
    decreases s, 0nat, n,
{
    if n == 0 || n > s.fields@.len() {
        true
    } else {
        &&& decodable_fields(s, vs, (n - 1) as nat, free, e)
        &&& decodable_field(
            s.fields@[n - 1],
            vs[n - 1],
            vs.subrange(0, n - 1),
            n == s.fields@.len(),
            free && n == s.fields@.len(),
            e,
        )
    }
}

pub open spec fn decodable_items(s: Schema, items: Seq<ValueView>, n: nat, e: Endianness) -> bool
    decreases s, 1nat, n,
{
    if n == 0 {
        true
    } else {
        decodable_items(s, items, (n - 1) as nat, e) && decodable_struct(s, items[n - 1], false, e)
    }
}

// ---------------------------------------------------------------------------
// Facts about streams
// ---------------------------------------------------------------------------

proof fn lemma_ceil8_shift(base: nat, x: nat)
    requires
        base % 8 == 0,
    ensures
        ceil8(base + x) == base + ceil8(x),
{
    lemma_ceil8(base + x);
    lemma_ceil8(x);
}

/// A stream with one more field begins with the stream before it.
proof fn lemma_ser_field_extends(acc: Seq<bool>, k: FieldKind, v: ValueView, e: Endianness)
    ensures
        ser_field(acc, k, v, e).len() >= acc.len(),
        ser_field(acc, k, v, e).subrange(0, acc.len() as int) == acc,
{
    lemma_align_len(acc);
    let out = ser_field(acc, k, v, e);
    assert(out.subrange(0, acc.len() as int) =~= acc);
}

/// The stream of a prefix of the fields begins the stream of a longer prefix.
proof fn lemma_ser_fields_prefix(s: Schema, vs: Seq<ValueView>, i: nat, j: nat, e: Endianness)
    requires
        i <= j <= s.fields@.len(),
    ensures
        ser_fields(s, vs, j, e).len() >= ser_fields(s, vs, i, e).len(),
        ser_fields(s, vs, j, e).subrange(0, ser_fields(s, vs, i, e).len() as int) == ser_fields(
            s,
            vs,
            i,
            e,
        ),
    decreases j - i,
{
    if i < j {
        lemma_ser_fields_prefix(s, vs, i, (j - 1) as nat, e);
        let prev = ser_fields(s, vs, (j - 1) as nat, e);
        lemma_ser_field_extends(prev, s.fields@[j - 1], vs[j - 1], e);
        let a = ser_fields(s, vs, i, e);
        let c = ser_fields(s, vs, j, e);
        assert(c.subrange(0, a.len() as int) =~= prev.subrange(0, a.len() as int));
    } else {
        let a = ser_fields(s, vs, i, e);
        assert(a.subrange(0, a.len() as int) =~= a);
    }
}

/// The streams of the first items begin the streams of more items.
proof fn lemma_ser_items_prefix(s: Schema, items: Seq<ValueView>, i: nat, j: nat, e: Endianness)
    requires
        i <= j,
    ensures
        ser_items(s, items, j, e).len() >= ser_items(s, items, i, e).len(),
        ser_items(s, items, j, e).subrange(0, ser_items(s, items, i, e).len() as int) == ser_items(
            s,
            items,
            i,
            e,
        ),
    decreases j - i,
{
    let a = ser_items(s, items, i, e);
    if i < j {
        lemma_ser_items_prefix(s, items, i, (j - 1) as nat, e);
        let prev = ser_items(s, items, (j - 1) as nat, e);
        let c = ser_items(s, items, j, e);
        assert(c.subrange(0, a.len() as int) =~= prev.subrange(0, a.len() as int));
    } else {
        assert(a.subrange(0, a.len() as int) =~= a);
    }
}

/// The joined first segments begin the joined segments.
proof fn lemma_join_prefix(segs: Seq<Seq<u8>>, m: u8, i: nat)
    requires
        i <= segs.len(),
    ensures
        join_segments(segs, m).len() >= join_segments(segs.subrange(0, i as int), m).len(),
        join_segments(segs, m).subrange(
            0,
            join_segments(segs.subrange(0, i as int), m).len() as int,
        ) == join_segments(segs.subrange(0, i as int), m),
    decreases segs.len() - i,
{
    let a = join_segments(segs.subrange(0, i as int), m);
    if i < segs.len() {
        lemma_join_prefix(segs.drop_last(), m, i);
        assert(segs.drop_last().subrange(0, i as int) =~= segs.subrange(0, i as int));
        let prev = join_segments(segs.drop_last(), m);
        let c = join_segments(segs, m);
        assert(c.subrange(0, a.len() as int) =~= prev.subrange(0, a.len() as int));
    } else {
        assert(segs.subrange(0, i as int) =~= segs);
        assert(a.subrange(0, a.len() as int) =~= a);
    }
}

/// A piece of a window of a sequence is a window of the sequence.
proof fn lemma_window<A>(x: Seq<A>, out: Seq<A>, base: int, a: int, b: int)
    requires
        0 <= base,
        base + out.len() <= x.len(),
        x.subrange(base, base + out.len()) == out,
        0 <= a <= b <= out.len(),
    ensures
        x.subrange(base + a, base + b) == out.subrange(a, b),
{
    assert(x.subrange(base + a, base + b) =~= out.subrange(a, b)) by {
        assert forall|i: int| 0 <= i < b - a implies x.subrange(base + a, base + b)[i]
            == out.subrange(a, b)[i] by {
            assert(x.subrange(base, base + out.len())[a + i] == out[a + i]);
        }
    }
}

/// The bits of a window of bytes are the window of their bits.
proof fn lemma_unpack_window(input: Seq<u8>, a: int, m: int, e: Endianness)
    requires
        0 <= a,
        0 <= m,
        a + m <= input.len(),
    ensures
        unpack(input, e).subrange(8 * a, 8 * (a + m)) == unpack(input.subrange(a, a + m), e),
{
    let l = unpack(input, e).subrange(8 * a, 8 * (a + m));
    let r = unpack(input.subrange(a, a + m), e);
    assert forall|i: int| 0 <= i < 8 * m implies #[trigger] l[i] == r[i] by {
        assert((8 * a + i) / 8 == a + i / 8);
        assert((8 * a + i) % 8 == i % 8);
    }
    assert(l =~= r);
}

/// Bytes whose bits stand in the bits of the input stand in the input.
proof fn lemma_bytes_in_input(input: Seq<u8>, a: nat, y: Seq<u8>, e: Endianness)
    requires
        a + y.len() <= input.len(),
        unpack(input, e).subrange(8 * a as int, (8 * (a + y.len())) as int) == unpack(y, e),
    ensures
        input.subrange(a as int, (a + y.len()) as int) == y,
{
    lemma_unpack_window(input, a as int, y.len() as int, e);
    lemma_pack_unpack(input.subrange(a as int, (a + y.len()) as int), e);
    lemma_pack_unpack(y, e);
}

/// The bits of the input from `base` on hold the stream `out`.
pub open spec fn holds_at(input: Seq<u8>, base: nat, out: Seq<bool>, e: Endianness) -> bool {
    &&& base + out.len() <= 8 * input.len()
    &&& unpack(input, e).subrange(base as int, (base + out.len()) as int) == out
}

proof fn lemma_holds_prefix(input: Seq<u8>, base: nat, out: Seq<bool>, n: nat, e: Endianness)
    requires
        holds_at(input, base, out, e),
        n <= out.len(),
    ensures
        holds_at(input, base, out.subrange(0, n as int), e),
{
    lemma_window(unpack(input, e), out, base as int, 0, n as int);
}

/// Where `out` is a stream `pre` followed by the bits of `y` on a byte
/// boundary, the input holds `y` at that boundary.
proof fn lemma_holds_bytes(input: Seq<u8>, base: nat, out: Seq<bool>, pre: nat, y: Seq<u8>, e: Endianness)
    requires
        holds_at(input, base, out, e),
        base % 8 == 0,
        pre % 8 == 0,
        pre + 8 * y.len() <= out.len(),
        out.subrange(pre as int, (pre + 8 * y.len()) as int) == unpack(y, e),
    ensures
        input.subrange(((base + pre) / 8) as int, ((base + pre) / 8 + y.len()) as int) == y,
        (base + pre) / 8 + y.len() <= input.len(),
{
    lemma_window(unpack(input, e), out, base as int, pre as int, (pre + 8 * y.len()) as int);
    let a = (base + pre) / 8;
    assert(8 * a == base + pre);
    lemma_bytes_in_input(input, a, y, e);
}

/// The number in `out` after `pre` is read back from the input.
proof fn lemma_holds_number(
    input: Seq<u8>,
    base: nat,
    out: Seq<bool>,
    pre: nat,
    n: u128,
    w: nat,
    e: Endianness,
)
    requires
        holds_at(input, base, out, e),
        pre + w <= out.len(),
        out.subrange(pre as int, (pre + w) as int) == field_bits(n, w, e),
        w <= 128,
        fits(n, w),
    ensures
        read_num(input, base + pre, w, e) == n,
        parse_number(input, base + pre, w, e) == Ok::<(u128, nat), BeBytesError>(
            (n, base + pre + w),
        ),
{
    lemma_window(unpack(input, e), out, base as int, pre as int, (pre + w) as int);
    lemma_from_field_bits(n, w, e);
}

proof fn lemma_byte_fits8(n: u128)
    by (bit_vector)
    requires
        n < 256,
    ensures
        (n >> 8u128) == 0u128,
{
}

/// The streams of items are whole numbers of bytes.
proof fn lemma_ser_items_aligned(s: Schema, items: Seq<ValueView>, n: nat, e: Endianness)
    ensures
        ser_items(s, items, n, e).len() % 8 == 0,
    decreases n,
{
    if n > 0 {
        lemma_ser_items_aligned(s, items, (n - 1) as nat, e);
        lemma_ser_struct_aligned(s, items[n - 1], e);
    }
}

proof fn lemma_decodable_fields_at(
    s: Schema,
    vs: Seq<ValueView>,
    n: nat,
    free: bool,
    e: Endianness,
    i: nat,
)
    requires
        decodable_fields(s, vs, n, free, e),
        i < n <= s.fields@.len(),
    ensures
        decodable_field(
            s.fields@[i as int],
            vs[i as int],
            vs.subrange(0, i as int),
            i + 1 == s.fields@.len(),
            free && i + 1 == s.fields@.len(),
            e,
        ),
    decreases n,
{
    if i + 1 < n {
        lemma_decodable_fields_at(s, vs, (n - 1) as nat, free, e, i);
    }
}

proof fn lemma_decodable_items_at(s: Schema, items: Seq<ValueView>, n: nat, e: Endianness, i: nat)
    requires
        decodable_items(s, items, n, e),
        i < n,
    ensures
        decodable_struct(s, items[i as int], false, e),
    decreases n,
{
    if i + 1 < n {
        lemma_decodable_items_at(s, items, (n - 1) as nat, e, i);
    }
}

/// Decoding a struct where its stream stands in the input gives the struct.
proof fn lemma_parse_struct(
    s: Schema,
    v: ValueView,
    input: Seq<u8>,
    base: nat,
    free: bool,
    e: Endianness,
)
    requires
        encodable_struct(s, v),
        decodable_struct(s, v, free, e),
        base % 8 == 0,
        holds_at(input, base, ser_struct(s, v, e), e),
        free ==> base + ser_struct(s, v, e).len() == 8 * input.len(),
    ensures
        parse_struct(s, input, base, e) == Ok::<(ValueView, nat), BeBytesError>(
            (v, base + ser_struct(s, v, e).len()),
        ),
    decreases s, 0nat, s.fields@.len() + 1,
{
    if let ValueView::Struct(vs) = v {
        let n = s.fields@.len();
        let f = ser_fields(s, vs, n, e);
        let t = align_bits(f);
        lemma_align_len(f);
        lemma_holds_prefix(input, base, t, f.len(), e);
        lemma_ceil8(base);
        lemma_ceil8_shift(base, f.len());
        assert(vs.subrange(0, 0) =~= Seq::<ValueView>::empty());
        assert(ser_fields(s, vs, 0, e).len() == 0);
        lemma_parse_fields(s, vs, 0, input, base, free, e);
        assert(vs.subrange(0, 0) == Seq::<ValueView>::empty());
    }
}

/// Decoding the fields from the `i`-th on, where the stream of all fields
/// stands in the input, gives their values.
proof fn lemma_parse_fields(
    s: Schema,
    vs: Seq<ValueView>,
    i: nat,
    input: Seq<u8>,
    base: nat,
    free: bool,
    e: Endianness,
)
    requires
        vs.len() == s.fields@.len(),
        encodable_fields(s, vs, s.fields@.len()),
        decodable_fields(s, vs, s.fields@.len(), free, e),
        i <= s.fields@.len(),
        base % 8 == 0,
        holds_at(input, base, ser_fields(s, vs, s.fields@.len(), e), e),
        free ==> base + ceil8(ser_fields(s, vs, s.fields@.len(), e).len()) == 8 * input.len(),
    ensures
        parse_fields(
            s,
            i,
            input,
            base + ser_fields(s, vs, i, e).len(),
            vs.subrange(0, i as int),
            e,
        ) == Ok::<(Seq<ValueView>, nat), BeBytesError>(
            (vs, base + ser_fields(s, vs, s.fields@.len(), e).len()),
        ),
    decreases s, 0nat, s.fields@.len() - i,
{
    let n = s.fields@.len();
    if i == n {
        assert(vs.subrange(0, i as int) =~= vs);
    } else {
        let k = s.fields@[i as int];
        let acc = ser_fields(s, vs, i, e);
        let out = ser_fields(s, vs, i + 1, e);
        assert(out == ser_field(acc, k, vs[i as int], e));
        crate::encode::lemma_encodable_fields_at(s, vs, n, i);
        lemma_decodable_fields_at(s, vs, n, free, e, i);
        lemma_ser_fields_prefix(s, vs, i + 1, n, e);
        lemma_holds_prefix(input, base, ser_fields(s, vs, n, e), out.len(), e);
        let last = i + 1 == n;
        lemma_parse_field(
            k,
            vs[i as int],
            vs.subrange(0, i as int),
            last,
            free && last,
            input,
            base,
            acc,
            e,
        );
        assert(vs.subrange(0, i as int).push(vs[i as int]) =~= vs.subrange(0, (i + 1) as int));
        lemma_parse_fields(s, vs, i + 1, input, base, free, e);
    }
}

/// What the decoding of one field may rely on: its value can be encoded and
/// decoded, and its stream, after the stream `acc` of the fields before,
/// stands in the input from the byte boundary `base` on.
pub open spec fn field_in_input(
    k: FieldKind,
    v: ValueView,
    env: Seq<ValueView>,
    last: bool,
    free: bool,
    input: Seq<u8>,
    base: nat,
    acc: Seq<bool>,
    e: Endianness,
) -> bool {
    &&& encodable_field(k, v, env)
    &&& decodable_field(k, v, env, last, free, e)
    &&& base % 8 == 0
    &&& holds_at(input, base, ser_field(acc, k, v, e), e)
    &&& free ==> base + ceil8(ser_field(acc, k, v, e).len()) == 8 * input.len()
}

/// What decoding one field gives where its stream stands in the input.
pub open spec fn field_read_back(
    k: FieldKind,
    v: ValueView,
    env: Seq<ValueView>,
    last: bool,
    input: Seq<u8>,
    base: nat,
    acc: Seq<bool>,
    e: Endianness,
) -> bool {
    parse_field(k, last, input, base + acc.len(), env, e) == Ok::<(ValueView, nat), BeBytesError>(
        (v, base + ser_field(acc, k, v, e).len()),
    )
}

/// The byte boundary where a field that pads the stream begins.
proof fn lemma_field_start(acc: Seq<bool>, base: nat)
    requires
        base % 8 == 0,
    ensures
        ceil8(base + acc.len()) == base + ceil8(acc.len()),
        (base + ceil8(acc.len())) % 8 == 0,
        8 * ((base + ceil8(acc.len())) / 8) == base + ceil8(acc.len()),
        acc.len() <= ceil8(acc.len()),
        align_bits(acc).len() == ceil8(acc.len()),
{
    lemma_align_len(acc);
    lemma_ceil8(acc.len());
    lemma_ceil8_shift(base, acc.len());
}

/// Number fields: primitives, bit fields and enums.
proof fn lemma_parse_number_field(
    k: FieldKind,
    v: ValueView,
    env: Seq<ValueView>,
    last: bool,
    free: bool,
    input: Seq<u8>,
    base: nat,
    acc: Seq<bool>,
    e: Endianness,
)
    requires
        field_in_input(k, v, env, last, free, input, base, acc, e),
        k is Primitive || k is Bits || k is Enum || k is EnumBits,
    ensures
        field_read_back(k, v, env, last, input, base, acc, e),
{
    let out = ser_field(acc, k, v, e);
    let pre = ceil8(acc.len());
    lemma_field_start(acc, base);
    match (k, v) {
        (FieldKind::Primitive(ty), ValueView::Num(n)) => {
            let w = 8 * ty.spec_size();
            assert(out.subrange(pre as int, (pre + w) as int) =~= field_bits(n, w, e));
            lemma_holds_number(input, base, out, pre, n, w, e);
        },
        (FieldKind::Bits(ty, w), ValueView::Num(n)) => {
            assert(out.subrange(acc.len() as int, (acc.len() + w) as int) =~= field_bits(
                n,
                w as nat,
                e,
            ));
            lemma_holds_number(input, base, out, acc.len(), n, w as nat, e);
        },
        (FieldKind::Enum(d), ValueView::Num(n)) => {
            assert(out.subrange(pre as int, (pre + 8) as int) =~= field_bits(n, 8, e));
            lemma_byte_fits8(n);
            lemma_holds_number(input, base, out, pre, n, 8, e);
        },
        (FieldKind::EnumBits(d, w), ValueView::Num(n)) => {
            assert(out.subrange(acc.len() as int, (acc.len() + w) as int) =~= field_bits(
                n,
                w as nat,
                e,
            ));
            lemma_holds_number(input, base, out, acc.len(), n, w as nat, e);
        },
        _ => {},
    }
}

/// Byte fields of a fixed length: arrays and options.
#[verifier::spinoff_prover]
#[verifier::rlimit(50)]
proof fn lemma_parse_fixed_field(
    k: FieldKind,
    v: ValueView,
    env: Seq<ValueView>,
    last: bool,
    free: bool,
    input: Seq<u8>,
    base: nat,
    acc: Seq<bool>,
    e: Endianness,
)
    requires
        field_in_input(k, v, env, last, free, input, base, acc, e),
        k is Array || k is OptionPrimitive || k is OptionArray,
    ensures
        field_read_back(k, v, env, last, input, base, acc, e),
{
    let out = ser_field(acc, k, v, e);
    let pre = ceil8(acc.len());
    lemma_field_start(acc, base);
    let a = (base + pre) / 8;
    match (k, v) {
        (FieldKind::Array(len), ValueView::Bytes(b)) => {
            assert(out.subrange(pre as int, (pre + 8 * b.len()) as int) =~= unpack(b, e));
            lemma_holds_bytes(input, base, out, pre, b, e);
        },
        (FieldKind::OptionPrimitive(ty), ValueView::Opt(o)) => {
            let w = 8 * ty.spec_size();
            let tag = option_tag(o is Some);
            assert(out.subrange(pre as int, (pre + 8) as int) =~= unpack(seq![tag], e));
            lemma_holds_bytes(input, base, out, pre, seq![tag], e);
            assert(input[a as int] == input.subrange(a as int, (a + 1) as int)[0]);
            let x = match o {
                Some(x) => x,
                None => 0u128,
            };
            assert(out.subrange((pre + 8) as int, (pre + 8 + w) as int) =~= field_bits(x, w, e));
            if let Some(y) = o {
                lemma_holds_number(input, base, out, pre + 8, y, w, e);
            }
        },
        (FieldKind::OptionArray(n), ValueView::OptBytes(o)) => {
            let y = option_array_bytes(n as nat, o);
            assert(out.subrange(pre as int, (pre + 8 * y.len()) as int) =~= unpack(y, e));
            lemma_holds_bytes(input, base, out, pre, y, e);
            assert(input[a as int] == y[0]);
            if let Some(b) = o {
                assert(input.subrange((a + 1) as int, (a + 1 + n) as int) =~= y.subrange(
                    1,
                    1 + n,
                ));
                assert(y.subrange(1, 1 + n) =~= b);
            }
        },
        _ => {},
    }
}

/// A nested struct field.
#[verifier::spinoff_prover]
#[verifier::rlimit(100)]
proof fn lemma_parse_nested_field(
    s: Schema,
    v: ValueView,
    env: Seq<ValueView>,
    last: bool,
    free: bool,
    input: Seq<u8>,
    base: nat,
    acc: Seq<bool>,
    e: Endianness,
)
    requires
        field_in_input(FieldKind::Nested(s), v, env, last, free, input, base, acc, e),
    ensures
        field_read_back(FieldKind::Nested(s), v, env, last, input, base, acc, e),
    decreases s, 0nat, s.fields@.len() + 3,
{
    let k = FieldKind::Nested(s);
    let out = ser_field(acc, k, v, e);
    let pre = ceil8(acc.len());
    lemma_field_start(acc, base);
    let q = base + pre;
    let t = ser_struct(s, v, e);
    assert(out == align_bits(acc) + t);
    assert(out.subrange(pre as int, (pre + t.len()) as int) =~= t);
    lemma_window(unpack(input, e), out, base as int, pre as int, (pre + t.len()) as int);
    lemma_ser_struct_aligned(s, v, e);
    lemma_ceil8(out.len());
    assert(encodable_struct(s, v));
    assert(decodable_struct(s, v, free, e));
    assert(t.len() <= 8 * s.spec_field_size());
    lemma_nested_window(s, v, input, q, free, e);
    assert(parse_field(k, last, input, base + acc.len(), env, e) == parse_struct(
        s,
        input.subrange(0, nested_end(s, input, q) as int),
        q,
        e,
    ));
}

/// A nested struct whose stream stands in the input, within its static
/// size, is read back from the bytes that its static size allows.
proof fn lemma_nested_window(s: Schema, v: ValueView, input: Seq<u8>, q: nat, free: bool, e: Endianness)
    requires
        encodable_struct(s, v),
        decodable_struct(s, v, free, e),
        q % 8 == 0,
        holds_at(input, q, ser_struct(s, v, e), e),
        ser_struct(s, v, e).len() <= 8 * s.spec_field_size(),
        free ==> q + ser_struct(s, v, e).len() == 8 * input.len(),
    ensures
        parse_struct(s, input.subrange(0, nested_end(s, input, q) as int), q, e) == Ok::<
            (ValueView, nat),
            BeBytesError,
        >((v, q + ser_struct(s, v, e).len())),
    decreases s, 0nat, s.fields@.len() + 2,
{
    reveal(nested_end);
    let t = ser_struct(s, v, e);
    lemma_ser_struct_aligned(s, v, e);
    let end = nested_end(s, input, q);
    let trunc = input.subrange(0, end as int);
    assert(q + t.len() <= 8 * end);
    lemma_unpack_window(input, 0, end as int, e);
    assert(input.subrange(0, end as int) == trunc);
    assert(unpack(input, e).subrange(0, 8 * end as int) == unpack(trunc, e));
    assert(unpack(trunc, e).subrange(q as int, (q + t.len()) as int) =~= unpack(input, e).subrange(
        q as int,
        (q + t.len()) as int,
    ));
    assert(holds_at(trunc, q, t, e));
    lemma_parse_struct(s, v, trunc, q, free, e);
}

/// A field that holds a vector of structs.
#[verifier::spinoff_prover]
#[verifier::rlimit(100)]
proof fn lemma_parse_list_field(
    s: Schema,
    cnt: Option<CountSpec>,
    items: Seq<ValueView>,
    env: Seq<ValueView>,
    last: bool,
    free: bool,
    input: Seq<u8>,
    base: nat,
    acc: Seq<bool>,
    e: Endianness,
)
    requires
        field_in_input(FieldKind::List(s, cnt), ValueView::List(items), env, last, free, input, base, acc, e),
    ensures
        field_read_back(FieldKind::List(s, cnt), ValueView::List(items), env, last, input, base, acc, e),
    decreases s, 2nat, 0nat,
{
    let k = FieldKind::List(s, cnt);
    let v = ValueView::List(items);
    let out = ser_field(acc, k, v, e);
    let pre = ceil8(acc.len());
    lemma_field_start(acc, base);
    let q = base + pre;
    let n = items.len();
    let t = ser_items(s, items, n, e);
    assert(out == align_bits(acc) + t);
    assert(out.subrange(pre as int, (pre + t.len()) as int) =~= t);
    lemma_window(unpack(input, e), out, base as int, pre as int, (pre + t.len()) as int);
    lemma_ser_items_aligned(s, items, n, e);
    lemma_ceil8(out.len());
    assert(items.subrange(0, 0) =~= Seq::<ValueView>::empty());
    assert(encodable_items(s, items, n));
    assert(decodable_items(s, items, n, e));
    if cnt is None {
        lemma_parse_items_greedy(s, items, 0, input, q, e);
        assert(parse_field(k, last, input, base + acc.len(), env, e) == parse_items_greedy(
            s,
            input,
            q,
            Seq::empty(),
            e,
        ));
    } else {
        lemma_parse_items_counted(s, items, 0, input, q, e);
        assert(parse_field(k, last, input, base + acc.len(), env, e) == parse_items_counted(
            s,
            n,
            input,
            q,
            Seq::empty(),
            e,
        ));
    }
}

/// A field of marker-terminated segments.
proof fn lemma_parse_segments_field(
    k: FieldKind,
    v: ValueView,
    env: Seq<ValueView>,
    last: bool,
    free: bool,
    input: Seq<u8>,
    base: nat,
    acc: Seq<bool>,
    e: Endianness,
)
    requires
        field_in_input(k, v, env, last, free, input, base, acc, e),
        k is Segments,
    ensures
        field_read_back(k, v, env, last, input, base, acc, e),
{
    let out = ser_field(acc, k, v, e);
    let pre = ceil8(acc.len());
    lemma_field_start(acc, base);
    let a = (base + pre) / 8;
    if let (FieldKind::Segments(cnt, m), ValueView::Segments(segs)) = (k, v) {
        let y = join_segments(segs, m);
        assert(out.subrange(pre as int, (pre + 8 * y.len()) as int) =~= unpack(y, e));
        lemma_holds_bytes(input, base, out, pre, y, e);
        lemma_parse_segments(m, segs, 0, input, a);
        assert(segs.subrange(0, 0) =~= Seq::<Seq<u8>>::empty());
        assert(join_segments(Seq::<Seq<u8>>::empty(), m).len() == 0);
    }
}

/// Decoding one field where its stream stands after `acc` gives its value.
proof fn lemma_parse_field(
    k: FieldKind,
    v: ValueView,
    env: Seq<ValueView>,
    last: bool,
    free: bool,
    input: Seq<u8>,
    base: nat,
    acc: Seq<bool>,
    e: Endianness,
)
    requires
        field_in_input(k, v, env, last, free, input, base, acc, e),
    ensures
        field_read_back(k, v, env, last, input, base, acc, e),
    decreases k, 0nat, 1nat,
{
    match k {
        FieldKind::Primitive(_) | FieldKind::Bits(_, _) | FieldKind::Enum(_)
        | FieldKind::EnumBits(_, _) => {
            lemma_parse_number_field(k, v, env, last, free, input, base, acc, e);
        },
        FieldKind::Array(_) | FieldKind::OptionPrimitive(_) | FieldKind::OptionArray(_) => {
            lemma_parse_fixed_field(k, v, env, last, free, input, base, acc, e);
        },
        FieldKind::Bytes(sz) | FieldKind::Text(sz) => {
            lemma_parse_bytes_field(k, v, env, last, free, input, base, acc, e);
        },
        FieldKind::Nested(s) => {
            lemma_parse_nested_field(s, v, env, last, free, input, base, acc, e);
        },
        FieldKind::List(s, cnt) => {
            if let ValueView::List(items) = v {
                lemma_parse_list_field(s, cnt, items, env, last, free, input, base, acc, e);
            }
        },
        FieldKind::Segments(_, _) => {
            lemma_parse_segments_field(k, v, env, last, free, input, base, acc, e);
        },
    }
}

/// Vector and string fields.
proof fn lemma_parse_bytes_field(
    k: FieldKind,
    v: ValueView,
    env: Seq<ValueView>,
    last: bool,
    free: bool,
    input: Seq<u8>,
    base: nat,
    acc: Seq<bool>,
    e: Endianness,
)
    requires
        field_in_input(k, v, env, last, free, input, base, acc, e),
        k is Bytes || k is Text,
    ensures
        field_read_back(k, v, env, last, input, base, acc, e),
{
    let out = ser_field(acc, k, v, e);
    match (k, v) {
        (FieldKind::Bytes(sz), ValueView::Bytes(b)) => {
            lemma_parse_sized_field(sz, b, env, free, input, base, acc, out, e, false);
        },
        (FieldKind::Text(sz), ValueView::Bytes(b)) => {
            lemma_parse_sized_field(sz, b, env, free, input, base, acc, out, e, true);
        },
        _ => {},
    }
}

/// Decoding a vector or string field where its bytes stand after `acc`.
proof fn lemma_parse_sized_field(
    sz: SizeSpec,
    b: Seq<u8>,
    env: Seq<ValueView>,
    free: bool,
    input: Seq<u8>,
    base: nat,
    acc: Seq<bool>,
    out: Seq<bool>,
    e: Endianness,
    text: bool,
)
    requires
        out == align_bits(acc) + unpack(framed(sz, b), e),
        sized_ok(sz, b, env, free),
        sz matches SizeSpec::Expr(x) ==> eval(x, env) == Some(b.len() as u128),
        base % 8 == 0,
        holds_at(input, base, out, e),
        free ==> base + ceil8(out.len()) == 8 * input.len(),
    ensures
        parse_sized(sz, input, ceil8(base + acc.len()), env, text) == Ok::<(Seq<u8>, nat), BeBytesError>(
            (b, base + out.len()),
        ),
{
    let pre = ceil8(acc.len());
    lemma_align_len(acc);
    lemma_ceil8(acc.len());
    lemma_ceil8_shift(base, acc.len());
    let q = base + pre;
    let a = q / 8;
    assert(8 * a == q);
    let y = framed(sz, b);
    assert(out.subrange(pre as int, (pre + 8 * y.len()) as int) =~= unpack(y, e));
    lemma_holds_bytes(input, base, out, pre, y, e);
    lemma_ceil8(out.len());
    let len = input.len();
    match sz {
        SizeSpec::Fixed(n) => {},
        SizeSpec::FromField(path) => {},
        SizeSpec::Expr(x) => {},
        SizeSpec::Rest => {
            assert(a + b.len() == len);
        },
        SizeSpec::UntilMarker(m) => {
            let r = input.subrange(a as int, len as int);
            assert(is_first_marker(r, m, b.len() as int)) by {
                assert(r[b.len() as int] == y[b.len() as int]);
                assert forall|j: int| 0 <= j < b.len() implies r[j] != m by {
                    assert(r[j] == y[j]);
                    assert(y[j] == b[j]);
                    if b[j] == m {
                        assert(b.contains(m));
                    }
                }
            }
            lemma_marker_found(r, m, b.len() as int);
            assert(input.subrange(a as int, (a + b.len()) as int) =~= y.subrange(0, b.len() as int));
            assert(y.subrange(0, b.len() as int) =~= b);
        },
        SizeSpec::AfterMarker(m) => {
            let r = input.subrange(a as int, len as int);
            assert(a + 1 + b.len() == len);
            assert(is_first_marker(r, m, 0)) by {
                assert(r[0] == y[0]);
            }
            lemma_marker_found(r, m, 0);
            assert(input.subrange((a + 1) as int, len as int) =~= y.subrange(1, y.len() as int));
            assert(y.subrange(1, y.len() as int) =~= b);
        },
    }
}

/// Decoding the items from the `j`-th on where the streams of all items
/// stand at the end of the input.
#[verifier::spinoff_prover]
#[verifier::rlimit(50)]
proof fn lemma_parse_items_greedy(
    s: Schema,
    items: Seq<ValueView>,
    j: nat,
    input: Seq<u8>,
    q: nat,
    e: Endianness,
)
    requires
        encodable_items(s, items, items.len()),
        decodable_items(s, items, items.len(), e),
        j <= items.len(),
        q % 8 == 0,
        holds_at(input, q, ser_items(s, items, items.len(), e), e),
        q + ser_items(s, items, items.len(), e).len() == 8 * input.len(),
    ensures
        parse_items_greedy(
            s,
            input,
            q + ser_items(s, items, j, e).len(),
            items.subrange(0, j as int),
            e,
        ) == Ok::<(ValueView, nat), BeBytesError>(
            (ValueView::List(items), q + ser_items(s, items, items.len(), e).len()),
        ),
    decreases s, 1nat, items.len() - j,
{
    let n = items.len();
    let p = q + ser_items(s, items, j, e).len();
    if j == n {
        assert(items.subrange(0, j as int) =~= items);
    } else {
        let t = ser_struct(s, items[j as int], e);
        let before = ser_items(s, items, j, e);
        let upto = ser_items(s, items, j + 1, e);
        assert(upto == before + t);
        lemma_ser_items_prefix(s, items, j + 1, n, e);
        lemma_ser_items_aligned(s, items, j, e);
        crate::encode::lemma_encodable_items_at(s, items, n, j);
        lemma_decodable_items_at(s, items, n, e, j);
        let all = ser_items(s, items, n, e);
        assert(all.subrange(before.len() as int, upto.len() as int) =~= t) by {
            assert(all.subrange(0, upto.len() as int) == upto);
            assert forall|i: int| 0 <= i < t.len() implies all.subrange(
                before.len() as int,
                upto.len() as int,
            )[i] == t[i] by {
                assert(all.subrange(0, upto.len() as int)[before.len() + i] == upto[before.len()
                    + i]);
            }
        }
        lemma_window(unpack(input, e), all, q as int, before.len() as int, upto.len() as int);
        lemma_parse_struct(s, items[j as int], input, p, false, e);
        assert(items.subrange(0, j as int).push(items[j as int]) =~= items.subrange(0, (j + 1) as int));
        lemma_parse_items_greedy(s, items, j + 1, input, q, e);
    }
}

/// Decoding the items from the `j`-th on where the streams of all items
/// stand in the input.
proof fn lemma_parse_items_counted(
    s: Schema,
    items: Seq<ValueView>,
    j: nat,
    input: Seq<u8>,
    q: nat,
    e: Endianness,
)
    requires
        encodable_items(s, items, items.len()),
        decodable_items(s, items, items.len(), e),
        j <= items.len(),
        q % 8 == 0,
        holds_at(input, q, ser_items(s, items, items.len(), e), e),
    ensures
        parse_items_counted(
            s,
            (items.len() - j) as nat,
            input,
            q + ser_items(s, items, j, e).len(),
            items.subrange(0, j as int),
            e,
        ) == Ok::<(ValueView, nat), BeBytesError>(
            (ValueView::List(items), q + ser_items(s, items, items.len(), e).len()),
        ),
    decreases s, 1nat, items.len() - j,
{
    let n = items.len();
    let p = q + ser_items(s, items, j, e).len();
    if j == n {
        assert(items.subrange(0, j as int) =~= items);
    } else {
        let t = ser_struct(s, items[j as int], e);
        let before = ser_items(s, items, j, e);
        let upto = ser_items(s, items, j + 1, e);
        assert(upto == before + t);
        lemma_ser_items_prefix(s, items, j + 1, n, e);
        lemma_ser_items_aligned(s, items, j, e);
        lemma_ceil8(p);
        crate::encode::lemma_encodable_items_at(s, items, n, j);
        lemma_decodable_items_at(s, items, n, e, j);
        let all = ser_items(s, items, n, e);
        assert(all.subrange(before.len() as int, upto.len() as int) =~= t) by {
            assert(all.subrange(0, upto.len() as int) == upto);
            assert forall|i: int| 0 <= i < t.len() implies all.subrange(
                before.len() as int,
                upto.len() as int,
            )[i] == t[i] by {
                assert(all.subrange(0, upto.len() as int)[before.len() + i] == upto[before.len()
                    + i]);
            }
        }
        lemma_window(unpack(input, e), all, q as int, before.len() as int, upto.len() as int);
        lemma_parse_struct(s, items[j as int], input, p, false, e);
        assert(items.subrange(0, j as int).push(items[j as int]) =~= items.subrange(0, (j + 1) as int));
        assert((n - j - 1) as nat == (n - (j + 1)) as nat);
        lemma_parse_items_counted(s, items, j + 1, input, q, e);
    }
}

/// Decoding the segments from the `j`-th on where the joined segments stand
/// in the input from byte `a` on.
proof fn lemma_parse_segments(m: u8, segs: Seq<Seq<u8>>, j: nat, input: Seq<u8>, a: nat)
    requires
        forall|i: int| 0 <= i < segs.len() ==> !(#[trigger] segs[i]).contains(m),
        j <= segs.len(),
        a + join_segments(segs, m).len() <= input.len(),
        input.subrange(a as int, (a + join_segments(segs, m).len()) as int) == join_segments(
            segs,
            m,
        ),
    ensures
        parse_segments(
            m,
            (segs.len() - j) as nat,
            input,
            8 * (a + join_segments(segs.subrange(0, j as int), m).len()),
            segs.subrange(0, j as int),
        ) == Ok::<(ValueView, nat), BeBytesError>(
            (ValueView::Segments(segs), 8 * (a + join_segments(segs, m).len())),
        ),
    decreases segs.len() - j,
{
    let n = segs.len();
    let y = join_segments(segs, m);
    if j == n {
        assert(segs.subrange(0, j as int) =~= segs);
    } else {
        let before = join_segments(segs.subrange(0, j as int), m);
        let seg = segs[j as int];
        let upto = join_segments(segs.subrange(0, (j + 1) as int), m);
        assert(segs.subrange(0, (j + 1) as int).drop_last() =~= segs.subrange(0, j as int));
        assert(upto == before + seg.push(m));
        lemma_join_prefix(segs, m, j + 1);
        let start = a + before.len();
        let r = input.subrange(start as int, input.len() as int);
        assert(input.subrange(start as int, (start + seg.len() + 1) as int) =~= seg.push(m)) by {
            assert forall|i: int| 0 <= i < seg.len() + 1 implies input.subrange(
                start as int,
                (start + seg.len() + 1) as int,
            )[i] == seg.push(m)[i] by {
                assert(input.subrange(a as int, (a + y.len()) as int)[before.len() + i] == y[before.len() + i]);
                assert(y.subrange(0, upto.len() as int)[before.len() + i] == upto[before.len() + i]);
            }
        }
        assert(is_first_marker(r, m, seg.len() as int)) by {
            assert(r[seg.len() as int] == seg.push(m)[seg.len() as int]);
            assert forall|i: int| 0 <= i < seg.len() implies r[i] != m by {
                assert(r[i] == seg.push(m)[i]);
                if seg[i] == m {
                    assert(seg.contains(m));
                }
            }
        }
        lemma_marker_found(r, m, seg.len() as int);
        assert(8 * (a + before.len()) / 8 == start);
        assert(input.subrange(start as int, (start + seg.len()) as int) =~= seg) by {
            assert forall|i: int| 0 <= i < seg.len() implies input.subrange(
                start as int,
                (start + seg.len()) as int,
            )[i] == seg[i] by {
                assert(input.subrange(start as int, (start + seg.len() + 1) as int)[i] == seg.push(m)[i]);
            }
        }
        assert(segs.subrange(0, j as int).push(seg) =~= segs.subrange(0, (j + 1) as int));
        assert((n - j - 1) as nat == (n - (j + 1)) as nat);
        lemma_parse_segments(m, segs, j + 1, input, a);
    }
}

/// Decoding the encoding of a value gives the value back, with the number of
/// bytes of its encoding; where other bytes follow the encoding, they are
/// left alone.
#[verifier::spinoff_prover]
pub proof fn lemma_decode_encode(s: Schema, v: ValueView, rest: Seq<u8>, e: Endianness)
    requires
        encodable_struct(s, v),
        decodable_struct(s, v, rest.len() == 0, e),
    ensures
        decode(s, encode(s, v, e) + rest, e) == Ok::<(ValueView, nat), BeBytesError>(
            (v, encode(s, v, e).len()),
        ),
{
    let t = ser_struct(s, v, e);
    lemma_ser_struct_aligned(s, v, e);
    let input = encode(s, v, e) + rest;
    lemma_unpack_concat(encode(s, v, e), rest, e);
    lemma_unpack_pack(t, e);
    assert(unpack(input, e).subrange(0, t.len() as int) =~= t);
    lemma_parse_struct(s, v, input, 0, rest.len() == 0, e);
}


/// Encoding what decoding an encoding gave produces the same bytes again.
pub proof fn lemma_reencode_identical(s: Schema, v: ValueView, e: Endianness)
    requires
        encodable_struct(s, v),
        decodable_struct(s, v, true, e),
    ensures
        decode(s, encode(s, v, e), e) matches Ok((w, n)) && n == encode(s, v, e).len() && encode(
            s,
            w,
            e,
        ) == encode(s, v, e),
{
    lemma_decode_encode(s, v, Seq::empty(), e);
    assert(encode(s, v, e) + Seq::<u8>::empty() =~= encode(s, v, e));
}

} // verus!
