//! What a struct with a layout offers: its static size, its encodings and
//! decodings in both byte orders, appending its encoding to a buffer, and a
//! constructor that checks bit fields against their widths.
use vstd::prelude::*;
use crate::bits::fits;
use crate::codec::{BeBytesError, decode, encodable_struct, encode, within_mask};
use crate::consts::Endianness;
use crate::decode::decode_value;
use crate::encode::encode_value;
use crate::schema::{FieldKind, Schema, SizeSpec};
use crate::value::{Value, ValueView, view_values};

verus! {

/// The running bit count of the static size after one more field.
///
/// A field of fixed width adds its bits. A vector taken from another field,
/// a vector that takes the rest of the input and a vector of structs set the
/// count to 4096 bytes; strings without a fixed size, vectors sized by an
/// expression or a marker, and segment lists add nothing.
pub open spec fn size_step(acc: nat, k: FieldKind) -> nat
    decreases k, 0nat, 0nat,
{
    match k {
        FieldKind::Primitive(ty) => acc + 8 * ty.spec_size(),
        FieldKind::Bits(_, w) => acc + w as nat,
        FieldKind::Enum(_) => acc + 8,
        FieldKind::EnumBits(_, w) => acc + w as nat,
        FieldKind::Array(n) => acc + 8 * (n as nat),
        FieldKind::OptionPrimitive(ty) => acc + 8 * (1 + ty.spec_size()),
        FieldKind::OptionArray(n) => acc + 8 * (1 + n as nat),
        FieldKind::Bytes(sz) => match sz {
            SizeSpec::Fixed(n) => acc + 8 * (n as nat),
            SizeSpec::FromField(_) => 32768,
            SizeSpec::Rest => 32768,
            _ => acc,
        },
        FieldKind::Text(sz) => match sz {
            SizeSpec::Fixed(n) => acc + 8 * (n as nat),
            _ => acc,
        },
        FieldKind::Nested(s) => acc + 8 * (static_bits(s, s.fields@.len()) / 8),
        FieldKind::List(_, _) => 32768,
        FieldKind::Segments(_, _) => acc,
    }
}

/// The running bit count of the static size after the first `n` fields.
pub open spec fn static_bits(s: Schema, n: nat) -> nat
    decreases s, 0nat, n,
{
    if n == 0 || n > s.fields@.len() {
        0
    } else {
        size_step(static_bits(s, (n - 1) as nat), s.fields@[n - 1])
    }
}

/// Every running count of the first `n` fields, nested structs included,
/// fits in a `usize`.
pub open spec fn bits_fit(s: Schema, n: nat) -> bool
    decreases s, 0nat, n,
{
    if n == 0 || n > s.fields@.len() {
        true
    } else {
        bits_fit(s, (n - 1) as nat) && step_fits(static_bits(s, (n - 1) as nat), s.fields@[n - 1])
    }
}

pub open spec fn step_fits(acc: nat, k: FieldKind) -> bool
    decreases k, 0nat, 0nat,
{
    &&& size_step(acc, k) <= usize::MAX
    &&& match k {
        FieldKind::Nested(s) => bits_fit(s, s.fields@.len()),
        _ => true,
    }
}

/// The static sizes of the nested structs that a field of kind `k` may
/// hold, at any depth, fit in a `usize`.
pub open spec fn kind_sizes_fit(k: FieldKind) -> bool
    decreases k, 0nat, 0nat,
{
    match k {
        FieldKind::Nested(s) => bits_fit(s, s.fields@.len()) && sizes_fit_from(s, s.fields@.len()),
        FieldKind::List(s, _) => sizes_fit_from(s, s.fields@.len()),
        _ => true,
    }
}

/// The nested static sizes of the first `n` fields fit in a `usize`.
pub open spec fn sizes_fit_from(s: Schema, n: nat) -> bool
    decreases s, 0nat, n,
{
    if n == 0 || n > s.fields@.len() {
        true
    } else {
        sizes_fit_from(s, (n - 1) as nat) && kind_sizes_fit(s.fields@[n - 1])
    }
}

pub proof fn lemma_sizes_fit_at(s: Schema, n: nat, i: nat)
    requires
        sizes_fit_from(s, n),
        i < n <= s.fields@.len(),
    ensures
        kind_sizes_fit(s.fields@[i as int]),
    decreases n,
{
    if i + 1 < n {
        lemma_sizes_fit_at(s, (n - 1) as nat, i);
    }
}

/// Every bit field of the value is within its width.
pub open spec fn limits_ok(s: Schema, vs: Seq<ValueView>) -> bool {
    &&& vs.len() == s.fields@.len()
    &&& forall|i: int|
        0 <= i < vs.len() ==> match #[trigger] s.fields@[i] {
            FieldKind::Bits(ty, w) => vs[i] matches ValueView::Num(n) && within_mask(ty, w, n),
            _ => true,
        }
}

proof fn lemma_bits_fit_at(s: Schema, n: nat, i: nat)
    requires
        bits_fit(s, n),
        i < n <= s.fields@.len(),
    ensures
        bits_fit(s, i),
        step_fits(static_bits(s, i), s.fields@[i as int]),
    decreases n,
{
    if i + 1 < n {
        lemma_bits_fit_at(s, (n - 1) as nat, i);
    }
}

/// The bit count after one more field.
fn step_bits(acc: usize, k: &FieldKind) -> (r: usize)
    requires
        step_fits(acc as nat, *k),
    ensures
        r == size_step(acc as nat, *k),
    decreases *k, 0nat, 1nat,
{
    match k {
        FieldKind::Primitive(ty) => acc + 8 * ty.size(),
        FieldKind::Bits(_, w) => acc + *w,
        FieldKind::Enum(_) => acc + 8,
        FieldKind::EnumBits(_, w) => acc + *w,
        FieldKind::Array(n) => acc + 8 * *n,
        FieldKind::OptionPrimitive(ty) => acc + 8 * (1 + ty.size()),
        FieldKind::OptionArray(n) => acc + 8 * (1 + *n),
        FieldKind::Bytes(sz) => match sz {
            SizeSpec::Fixed(n) => acc + 8 * *n,
            SizeSpec::FromField(_) => 32768,
            SizeSpec::Rest => 32768,
            _ => acc,
        },
        FieldKind::Text(sz) => match sz {
            SizeSpec::Fixed(n) => acc + 8 * *n,
            _ => acc,
        },
        FieldKind::Nested(s) => {
            let b = struct_bits(s);
            acc + 8 * (b / 8)
        },
        FieldKind::List(_, _) => 32768,
        FieldKind::Segments(_, _) => acc,
    }
}

/// The bit count of all fields of a struct.
pub(crate) fn struct_bits(s: &Schema) -> (r: usize)
    requires
        bits_fit(*s, s.fields@.len()),
    ensures
        r == static_bits(*s, s.fields@.len()),
    decreases *s, 0nat, s.fields@.len() + 1,
{
    let n = s.fields.len();
    let mut acc: usize = 0;
    let mut i: usize = 0;
    while i < n
        invariant
            i <= n,
            n == s.fields@.len(),
            bits_fit(*s, n as nat),
            acc == static_bits(*s, i as nat),
        decreases n - i,
    {
        proof {
            lemma_bits_fit_at(*s, n as nat, i as nat);
        }
        acc = step_bits(acc, &s.fields[i]);
        i = i + 1;
    }
    acc
}

impl Schema {
    /// The static size in bytes (`field_size()`): the final bit count
    /// divided by eight.
    pub open spec fn spec_field_size(self) -> nat {
        static_bits(self, self.fields@.len()) / 8
    }

    /// The running bit counts of the static size fit in a `usize`.
    pub open spec fn size_fits(self) -> bool {
        bits_fit(self, self.fields@.len())
    }

    /// The static sizes of all nested structs, at any depth, fit in a
    /// `usize`.
    pub open spec fn nested_sizes_fit(self) -> bool {
        sizes_fit_from(self, self.fields@.len())
    }

    /// The static size in bytes.
    pub fn field_size(&self) -> (n: usize)
        requires
            self.size_fits(),
        ensures
            n == self.spec_field_size(),
    {
        struct_bits(self) / 8
    }

    /// The big-endian encoding of `v`.
    pub fn to_be_bytes(&self, v: &Value) -> (b: Vec<u8>)
        requires
            encodable_struct(*self, v@),
        ensures
            b@ == encode(*self, v@, Endianness::Big),
    {
        encode_value(self, v, Endianness::Big)
    }

    /// The little-endian encoding of `v`.
    pub fn to_le_bytes(&self, v: &Value) -> (b: Vec<u8>)
        requires
            encodable_struct(*self, v@),
        ensures
            b@ == encode(*self, v@, Endianness::Little),
    {
        encode_value(self, v, Endianness::Little)
    }

    /// The big-endian encoding of `v`, as a buffer of its own.
    pub fn to_be_bytes_buf(&self, v: &Value) -> (b: Vec<u8>)
        requires
            encodable_struct(*self, v@),
        ensures
            b@ == encode(*self, v@, Endianness::Big),
    {
        encode_value(self, v, Endianness::Big)
    }

    /// The little-endian encoding of `v`, as a buffer of its own.
    pub fn to_le_bytes_buf(&self, v: &Value) -> (b: Vec<u8>)
        requires
            encodable_struct(*self, v@),
        ensures
            b@ == encode(*self, v@, Endianness::Little),
    {
        encode_value(self, v, Endianness::Little)
    }

    /// Decodes a value from the start of big-endian `bytes`: the value and
    /// the number of bytes it took.
    pub fn try_from_be_bytes(&self, bytes: &[u8]) -> (r: Result<(Value, usize), BeBytesError>)
        requires
            bytes@.len() <= usize::MAX / 8,
            self.nested_sizes_fit(),
        ensures
            match r {
                Ok((v, n)) => decode(*self, bytes@, Endianness::Big) == Ok::<
                    (ValueView, nat),
                    BeBytesError,
                >((v@, n as nat)),
                Err(x) => decode(*self, bytes@, Endianness::Big) == Err::<
                    (ValueView, nat),
                    BeBytesError,
                >(x),
            },
    {
        decode_value(self, bytes, Endianness::Big)
    }

    /// Decodes a value from the start of little-endian `bytes`.
    pub fn try_from_le_bytes(&self, bytes: &[u8]) -> (r: Result<(Value, usize), BeBytesError>)
        requires
            bytes@.len() <= usize::MAX / 8,
            self.nested_sizes_fit(),
        ensures
            match r {
                Ok((v, n)) => decode(*self, bytes@, Endianness::Little) == Ok::<
                    (ValueView, nat),
                    BeBytesError,
                >((v@, n as nat)),
                Err(x) => decode(*self, bytes@, Endianness::Little) == Err::<
                    (ValueView, nat),
                    BeBytesError,
                >(x),
            },
    {
        decode_value(self, bytes, Endianness::Little)
    }

    /// Appends the big-endian encoding of `v` to `buf`.
    pub fn encode_be_to(&self, v: &Value, buf: &mut Vec<u8>) -> (r: Result<(), BeBytesError>)
        requires
            encodable_struct(*self, v@),
        ensures
            r is Ok,
            final(buf)@ == old(buf)@ + encode(*self, v@, Endianness::Big),
    {
        let mut b = encode_value(self, v, Endianness::Big);
        buf.append(&mut b);
        Ok(())
    }

    /// Appends the little-endian encoding of `v` to `buf`.
    pub fn encode_le_to(&self, v: &Value, buf: &mut Vec<u8>) -> (r: Result<(), BeBytesError>)
        requires
            encodable_struct(*self, v@),
        ensures
            r is Ok,
            final(buf)@ == old(buf)@ + encode(*self, v@, Endianness::Little),
    {
        let mut b = encode_value(self, v, Endianness::Little);
        buf.append(&mut b);
        Ok(())
    }

    /// A struct value of the given fields; each bit field must lie within
    /// its width.
    pub fn new_value(&self, fields: Vec<Value>) -> (v: Value)
        requires
            limits_ok(*self, view_values(fields@)),
        ensures
            v@ == ValueView::Struct(view_values(fields@)),
    {
        Value::Struct(fields)
    }
}

proof fn lemma_static_stays_large(s: Schema, i: nat, n: nat)
    requires
        i <= n <= s.fields@.len(),
        static_bits(s, i) >= 32768,
    ensures
        static_bits(s, n) >= 32768,
    decreases n - i,
{
    if i < n {
        lemma_static_stays_large(s, i, (n - 1) as nat);
        assert(static_bits(s, n) == size_step(static_bits(s, (n - 1) as nat), s.fields@[n - 1]));
    }
}

/// A field whose length the static size cannot know (a vector of structs, a
/// byte vector sized by another field or taking the rest of the input) sets
/// the running size to 4096 bytes, and the struct's `field_size()` is then at
/// least 4096 bytes, whatever follows.
pub proof fn lemma_variable_field_size(s: Schema, i: nat)
    requires
        i < s.fields@.len(),
        s.fields@[i as int] is List || s.fields@[i as int] matches FieldKind::Bytes(SizeSpec::FromField(_))
            || s.fields@[i as int] matches FieldKind::Bytes(SizeSpec::Rest),
    ensures
        static_bits(s, i + 1) == 8 * 4096,
        s.spec_field_size() >= 4096,
{
    assert(static_bits(s, i + 1) == size_step(static_bits(s, i), s.fields@[i as int]));
    lemma_static_stays_large(s, i + 1, s.fields@.len());
}

/// A field of fixed width adds its bits to the running size: a primitive of
/// `b` bytes adds `8 * b`, a bit field of `w` bits adds `w`, a byte array
/// of `n` bytes adds `8 * n`.
pub proof fn lemma_fixed_field_size(s: Schema, i: nat)
    requires
        i < s.fields@.len(),
    ensures
        s.fields@[i as int] matches FieldKind::Primitive(ty) ==> static_bits(s, i + 1) == static_bits(s, i)
            + 8 * ty.spec_size(),
        s.fields@[i as int] matches FieldKind::Bits(_, w) ==> static_bits(s, i + 1) == static_bits(s, i) + w,
        s.fields@[i as int] matches FieldKind::Array(n) ==> static_bits(s, i + 1) == static_bits(s, i) + 8 * n,
        s.fields@[i as int] is Enum ==> static_bits(s, i + 1) == static_bits(s, i) + 8,
        s.fields@[i as int] matches FieldKind::EnumBits(_, w) ==> static_bits(s, i + 1) == static_bits(s, i) + w,
        s.fields@[i as int] matches FieldKind::OptionPrimitive(ty) ==> static_bits(s, i + 1) == static_bits(
            s,
            i,
        ) + 8 + 8 * ty.spec_size(),
        s.fields@[i as int] matches FieldKind::OptionArray(n) ==> static_bits(s, i + 1) == static_bits(s, i)
            + 8 + 8 * n,
        s.fields@[i as int] matches FieldKind::Bytes(SizeSpec::Fixed(n)) ==> static_bits(s, i + 1)
            == static_bits(s, i) + 8 * n,
        s.fields@[i as int] matches FieldKind::Text(SizeSpec::Fixed(n)) ==> static_bits(s, i + 1)
            == static_bits(s, i) + 8 * n,
        s.fields@[i as int] matches FieldKind::Nested(t) ==> static_bits(s, i + 1) == static_bits(s, i) + 8
            * t.spec_field_size(),
{
    assert(static_bits(s, i + 1) == size_step(static_bits(s, i), s.fields@[i as int]));
}

} // verus!
