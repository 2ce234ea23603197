use vstd::prelude::*;
use crate::bits::fits;
use crate::codec::BeBytesError;

verus! {

/// The unsigned integer type that holds the discriminants of an enum.
#[derive(Clone, Copy, Debug, PartialEq, Eq, Structural)]
pub enum FlagType {
    U8,
    U16,
    U32,
    U64,
    U128,
}

impl FlagType {
    /// Largest value that this type holds.
    pub open spec fn spec_max_value(self) -> u128 {
        match self {
            FlagType::U8 => 0xff,
            FlagType::U16 => 0xffff,
            FlagType::U32 => 0xffff_ffff,
            FlagType::U64 => 0xffff_ffff_ffff_ffff,
            FlagType::U128 => u128::MAX,
        }
    }

    /// Number of bytes of this type.
    pub open spec fn spec_byte_size(self) -> usize {
        match self {
            FlagType::U8 => 1,
            FlagType::U16 => 2,
            FlagType::U32 => 4,
            FlagType::U64 => 8,
            FlagType::U128 => 16,
        }
    }

    /// The smallest type whose range holds `max`.
    pub open spec fn from_max_value_spec(max: u128) -> FlagType {
        if max <= 0xff {
            FlagType::U8
        } else if max <= 0xffff {
            FlagType::U16
        } else if max <= 0xffff_ffff {
            FlagType::U32
        } else if max <= 0xffff_ffff_ffff_ffff {
            FlagType::U64
        } else {
            FlagType::U128
        }
    }

    /// The smallest type whose range holds `max`.
    pub fn from_max_value(max: u128) -> (t: FlagType)
        ensures
            t == FlagType::from_max_value_spec(max),
            max <= t.spec_max_value(),
            forall|s: FlagType| max <= s.spec_max_value() ==> t.spec_max_value() <= s.spec_max_value(),
    {
        if max <= 0xff {
            FlagType::U8
        } else if max <= 0xffff {
            FlagType::U16
        } else if max <= 0xffff_ffff {
            FlagType::U32
        } else if max <= 0xffff_ffff_ffff_ffff {
            FlagType::U64
        } else {
            FlagType::U128
        }
    }

    pub fn byte_size(self) -> (n: usize)
        ensures
            n == self.spec_byte_size(),
    {
        match self {
            FlagType::U8 => 1,
            FlagType::U16 => 2,
            FlagType::U32 => 4,
            FlagType::U64 => 8,
            FlagType::U128 => 16,
        }
    }

    pub fn max_value(self) -> (m: u128)
        ensures
            m == self.spec_max_value(),
    {
        match self {
            FlagType::U8 => 0xff,
            FlagType::U16 => 0xffff,
            FlagType::U32 => 0xffff_ffff,
            FlagType::U64 => 0xffff_ffff_ffff_ffff,
            FlagType::U128 => u128::MAX,
        }
    }

    pub open spec fn spec_type_label(self) -> Seq<char> {
        match self {
            FlagType::U8 => seq!['u', '8'],
            FlagType::U16 => seq!['u', '1', '6'],
            FlagType::U32 => seq!['u', '3', '2'],
            FlagType::U64 => seq!['u', '6', '4'],
            FlagType::U128 => seq!['u', '1', '2', '8'],
        }
    }

    /// The Rust name of this type.
    pub fn type_label(self) -> (s: &'static str)
        ensures
            s@ == self.spec_type_label(),
    {
        match self {
            FlagType::U8 => {
                proof { reveal_strlit("u8"); }
                "u8"
            },
            FlagType::U16 => {
                proof { reveal_strlit("u16"); }
                "u16"
            },
            FlagType::U32 => {
                proof { reveal_strlit("u32"); }
                "u32"
            },
            FlagType::U64 => {
                proof { reveal_strlit("u64"); }
                "u64"
            },
            FlagType::U128 => {
                proof { reveal_strlit("u128"); }
                "u128"
            },
        }
    }
}

/// A fieldless enum as the layout sees it: the discriminants of its
/// variants, and whether it is a flag enum (`#[bebytes(flags)]`).
pub struct EnumDef {
    pub discriminants: Vec<u8>,
    pub flags: bool,
}

impl EnumDef {
    /// `v` is the discriminant of a variant.
    pub open spec fn has(self, v: u8) -> bool {
        self.discriminants@.contains(v)
    }

    /// The largest discriminant, or 0 where there is none.
    pub open spec fn max_discriminant(self) -> u8 {
        max_u8(self.discriminants@)
    }

    /// The width of a `#[bits()]` field of this enum.
    pub open spec fn spec_min_bits(self) -> usize {
        bits_needed(self.max_discriminant() as u128)
    }

    /// Whether `v` is the discriminant of a variant.
    pub fn contains(&self, v: u8) -> (b: bool)
        ensures
            b == self.has(v),
    {
        let n = self.discriminants.len();
        let mut i: usize = 0;
        while i < n
            invariant
                i <= n,
                n == self.discriminants@.len(),
                forall|j: int| 0 <= j < i ==> self.discriminants@[j] != v,
            decreases n - i,
        {
            if self.discriminants[i] == v {
                return true;
            }
            i = i + 1;
        }
        false
    }

    /// The bits that a `#[bits()]` field of this enum takes: the fewest,
    /// at least one, that hold the largest discriminant.
    pub fn min_bits(&self) -> (b: usize)
        ensures
            b == self.spec_min_bits(),
            1 <= b <= 8,
            fits(self.max_discriminant() as u128, b as nat),
            b > 1 ==> !fits(self.max_discriminant() as u128, (b - 1) as nat),
    {
        let n = self.discriminants.len();
        let mut m: u8 = 0;
        let mut i: usize = 0;
        while i < n
            invariant
                i <= n,
                n == self.discriminants@.len(),
                m == max_u8(self.discriminants@.subrange(0, i as int)),
            decreases n - i,
        {
            proof {
                assert(self.discriminants@.subrange(0, i + 1).drop_last() =~= self.discriminants@.subrange(0, i as int));
            }
            if self.discriminants[i] > m {
                m = self.discriminants[i];
            }
            i = i + 1;
        }
        proof {
            assert(self.discriminants@.subrange(0, n as int) =~= self.discriminants@);
            lemma_u8_fits8(m);
        }
        let b = min_bits_for(m as u128);
        proof {
            if b > 8 {
                assert(((m as u128) >> ((b - 1) as u128)) == 0u128);
            }
        }
        b
    }

    /// The variant with discriminant `value` (`TryFrom<u8>`).
    pub fn try_from(&self, value: u8) -> (r: Result<u8, BeBytesError>)
        ensures
            self.has(value) ==> r == Ok::<u8, BeBytesError>(value),
            !self.has(value) ==> r == Err::<u8, BeBytesError>(
                BeBytesError::InvalidDiscriminant { value },
            ),
    {
        if self.contains(value) {
            Ok(value)
        } else {
            Err(BeBytesError::InvalidDiscriminant { value })
        }
    }

    /// An enum value takes one byte.
    pub fn field_size(&self) -> (n: usize)
        ensures
            n == 1,
    {
        1
    }

    /// The byte of the variant with discriminant `v`.
    pub fn to_be_bytes(&self, v: u8) -> (b: Vec<u8>)
        requires
            self.has(v),
        ensures
            b@ == seq![v],
    {
        let mut b: Vec<u8> = Vec::new();
        b.push(v);
        b
    }

    /// The byte of the variant with discriminant `v`; byte order does not
    /// matter for one byte.
    pub fn to_le_bytes(&self, v: u8) -> (b: Vec<u8>)
        requires
            self.has(v),
        ensures
            b@ == seq![v],
    {
        self.to_be_bytes(v)
    }

    /// Reads a variant from the first byte.
    pub fn try_from_be_bytes(&self, bytes: &[u8]) -> (r: Result<(u8, usize), BeBytesError>)
        ensures
            r == self.spec_from_bytes(bytes@),
    {
        if bytes.len() == 0 {
            return Err(BeBytesError::EmptyBuffer);
        }
        let value = bytes[0];
        if self.contains(value) {
            Ok((value, 1))
        } else {
            Err(BeBytesError::InvalidDiscriminant { value })
        }
    }

    /// Reads a variant from the first byte.
    pub fn try_from_le_bytes(&self, bytes: &[u8]) -> (r: Result<(u8, usize), BeBytesError>)
        ensures
            r == self.spec_from_bytes(bytes@),
    {
        self.try_from_be_bytes(bytes)
    }

    /// `bits` where every set bit belongs to a variant whose bits are all
    /// set in `bits`, else none.
    pub open spec fn spec_from_bits(self, bits: u8) -> Option<u8> {
        if bits & !covered(self.discriminants@, bits) == 0 {
            Some(bits)
        } else {
            None
        }
    }

    /// What reading a variant from `b` gives.
    pub open spec fn spec_from_bytes(self, b: Seq<u8>) -> Result<(u8, usize), BeBytesError> {
        if b.len() == 0 {
            Err(BeBytesError::EmptyBuffer)
        } else if self.has(b[0]) {
            Ok((b[0], 1usize))
        } else {
            Err(BeBytesError::InvalidDiscriminant { value: b[0] })
        }
    }

    /// Appends the byte of the variant with discriminant `v`.
    pub fn encode_be_to(&self, v: u8, buf: &mut Vec<u8>) -> (r: Result<(), BeBytesError>)
        requires
            self.has(v),
        ensures
            r is Ok,
            final(buf)@ == old(buf)@.push(v),
    {
        buf.push(v);
        Ok(())
    }

    /// Appends the byte of the variant with discriminant `v`.
    pub fn encode_le_to(&self, v: u8, buf: &mut Vec<u8>) -> (r: Result<(), BeBytesError>)
        requires
            self.has(v),
        ensures
            r is Ok,
            final(buf)@ == old(buf)@.push(v),
    {
        buf.push(v);
        Ok(())
    }

    /// `bits`, where each of its set bits belongs to a variant whose bits
    /// are all set in `bits`.
    pub fn from_bits(&self, bits: u8) -> (r: Option<u8>)
        ensures
            r == self.spec_from_bits(bits),
    {
        let n = self.discriminants.len();
        let mut remaining: u8 = bits;
        let mut i: usize = 0;
        proof {
            lemma_and_not_zero(bits);
            assert(self.discriminants@.subrange(0, 0) =~= Seq::<u8>::empty());
        }
        while i < n
            invariant
                i <= n,
                n == self.discriminants@.len(),
                remaining == bits & !covered(self.discriminants@.subrange(0, i as int), bits),
            decreases n - i,
        {
            let v = self.discriminants[i];
            let ghost c = covered(self.discriminants@.subrange(0, i as int), bits);
            proof {
                assert(self.discriminants@.subrange(0, i + 1).drop_last() =~= self.discriminants@.subrange(0, i as int));
                lemma_remove_flag(bits, c, v);
            }
            if bits & v == v {
                remaining = remaining & !v;
            }
            i = i + 1;
        }
        proof {
            assert(self.discriminants@.subrange(0, n as int) =~= self.discriminants@);
        }
        if remaining == 0 {
            Some(bits)
        } else {
            None
        }
    }

    /// The nonzero discriminants whose bits are all set in `bits`, in
    /// declaration order.
    pub fn decompose(&self, bits: u8) -> (r: Vec<u8>)
        ensures
            r@ == decomposed(self.discriminants@, bits),
    {
        let n = self.discriminants.len();
        let mut out: Vec<u8> = Vec::new();
        let mut i: usize = 0;
        while i < n
            invariant
                i <= n,
                n == self.discriminants@.len(),
                out@ == decomposed(self.discriminants@.subrange(0, i as int), bits),
            decreases n - i,
        {
            let v = self.discriminants[i];
            proof {
                assert(self.discriminants@.subrange(0, i + 1).drop_last() =~= self.discriminants@.subrange(0, i as int));
            }
            if bits & v == v && v != 0 {
                out.push(v);
            }
            i = i + 1;
        }
        proof {
            assert(self.discriminants@.subrange(0, n as int) =~= self.discriminants@);
        }
        out
    }

    /// The variants set in `bits`, as `decompose` gives them.
    pub fn iter_flags(&self, bits: u8) -> (r: Vec<u8>)
        ensures
            r@ == decomposed(self.discriminants@, bits),
    {
        self.decompose(bits)
    }
}

/// The largest of `s`, or 0 where it is empty.
pub open spec fn max_u8(s: Seq<u8>) -> u8
    decreases s.len(),
{
    if s.len() == 0 {
        0
    } else if s.last() > max_u8(s.drop_last()) {
        s.last()
    } else {
        max_u8(s.drop_last())
    }
}

/// The union of the discriminants of `d` whose bits are all set in `bits`.
pub open spec fn covered(d: Seq<u8>, bits: u8) -> u8
    decreases d.len(),
{
    if d.len() == 0 {
        0
    } else if bits & d.last() == d.last() {
        covered(d.drop_last(), bits) | d.last()
    } else {
        covered(d.drop_last(), bits)
    }
}

/// The nonzero discriminants of `d` whose bits are all set in `bits`.
pub open spec fn decomposed(d: Seq<u8>, bits: u8) -> Seq<u8>
    decreases d.len(),
{
    if d.len() == 0 {
        Seq::empty()
    } else if bits & d.last() == d.last() && d.last() != 0 {
        decomposed(d.drop_last(), bits).push(d.last())
    } else {
        decomposed(d.drop_last(), bits)
    }
}

proof fn lemma_remove_flag(bits: u8, c: u8, v: u8)
    by (bit_vector)
    ensures
        (bits & !c) & !v == bits & !(c | v),
{
}

proof fn lemma_u8_fits8(m: u8)
    by (bit_vector)
    ensures
        ((m as u128) >> 8u128) == 0u128,
        forall|k: u128| 8 <= k ==> #[trigger] ((m as u128) >> k) == 0u128,
{
}

proof fn lemma_and_not_zero(bits: u8)
    by (bit_vector)
    ensures
        bits & !0u8 == bits,
{
}

/// `a | b` of two flag values.
pub fn flag_or(a: u8, b: u8) -> (r: u8)
    ensures
        r == a | b,
{
    a | b
}

/// `a & b` of two flag values.
pub fn flag_and(a: u8, b: u8) -> (r: u8)
    ensures
        r == a & b,
{
    a & b
}

/// `a ^ b` of two flag values.
pub fn flag_xor(a: u8, b: u8) -> (r: u8)
    ensures
        r == a ^ b,
{
    a ^ b
}

/// `!a` of a flag value.
pub fn flag_not(a: u8) -> (r: u8)
    ensures
        r == !a,
{
    !a
}

/// Whether every bit of `flag` is set in `value`.
pub fn flag_contains(value: u8, flag: u8) -> (b: bool)
    ensures
        b == ((value & flag) == flag),
{
    (value & flag) == flag
}

proof fn lemma_shift_step(max: u128, b: u128)
    by (bit_vector)
    requires
        (max >> b) != 0u128,
    ensures
        b < 128,
        (max >> b) >> 1u128 == max >> (b + 1),
{
}

proof fn lemma_shift_none(max: u128)
    by (bit_vector)
    ensures
        max >> 0u128 == max,
        (max >> 0u128) == 0u128 ==> (max >> 1u128) == 0u128,
{
}

/// `b` is the fewest bits, at least one, that hold `max`.
pub open spec fn is_min_bits(max: u128, b: usize) -> bool {
    &&& 1 <= b <= 128
    &&& fits(max, b as nat)
    &&& b > 1 ==> !fits(max, (b - 1) as nat)
}

/// The fewest bits, at least one, that hold `max`.
pub open spec fn bits_needed(max: u128) -> usize {
    choose|b: usize| is_min_bits(max, b)
}

proof fn lemma_fits_mono(m: u128, a: u128, b: u128)
    by (bit_vector)
    requires
        (m >> a) == 0u128,
        a <= b,
    ensures
        (m >> b) == 0u128,
{
}

/// Only one width is the fewest bits that hold `max`.
proof fn lemma_min_bits_unique(max: u128, b1: usize, b2: usize)
    requires
        is_min_bits(max, b1),
        is_min_bits(max, b2),
    ensures
        b1 == b2,
{
    if b1 < b2 {
        if b1 < 128 {
            lemma_fits_mono(max, b1 as u128, (b2 - 1) as u128);
        }
    }
    if b2 < b1 {
        if b2 < 128 {
            lemma_fits_mono(max, b2 as u128, (b1 - 1) as u128);
        }
    }
}

/// The number of bits that the largest discriminant `max` needs: the
/// fewest bits, at least one, that hold it.
pub fn min_bits_for(max: u128) -> (b: usize)
    ensures
        b == bits_needed(max),
        1 <= b <= 128,
        fits(max, b as nat),
        b > 1 ==> !fits(max, (b - 1) as nat),
{
    let mut bits: usize = 0;
    let mut val: u128 = max;
    proof {
        lemma_shift_none(max);
    }
    while val > 0
        invariant
            bits <= 128,
            val == max >> (bits as u128),
            bits > 0 ==> (max >> ((bits - 1) as u128)) != 0u128,
        decreases 128 - bits,
    {
        proof {
            lemma_shift_step(max, bits as u128);
        }
        val = val >> 1u128;
        bits = bits + 1;
    }
    let b = if bits == 0 {
        1
    } else {
        bits
    };
    proof {
        assert(is_min_bits(max, b));
        lemma_min_bits_unique(max, b, bits_needed(max));
    }
    b
}

/// The fields a variant of an enum carries.
#[derive(Clone, Copy, Debug, PartialEq, Eq)]
pub enum VariantShape {
    Unit,
    Named,
    Unnamed,
}

/// What a variant says of its discriminant.
#[derive(Clone, Copy, Debug, PartialEq, Eq)]
pub enum Discriminant {
    /// No discriminant, or one that is not an integer literal: the value
    /// after the previous variant's.
    Implicit,
    /// An integer literal.
    Literal(u128),
    /// An integer literal that does not fit in a `u128`.
    Unparsable,
}

/// One variant of an enum as the derive reads it.
#[derive(Clone, Copy, Debug, PartialEq, Eq)]
pub struct VariantDesc {
    pub shape: VariantShape,
    pub discriminant: Discriminant,
}

/// Why the derive refuses a variant, with the variant's position.
#[derive(Clone, Copy, Debug, PartialEq, Eq)]
pub enum EnumError {
    /// The variant has named fields.
    StructVariant(usize),
    /// The variant has unnamed fields.
    TupleVariant(usize),
    /// Its literal does not fit in a `u128`.
    UnparsableDiscriminant(usize),
    /// The value after the previous variant's does not fit in a `u128`.
    DiscriminantOverflow(usize),
    /// Its discriminant lies outside `0..=255`.
    OutOfRange(usize),
}

/// The discriminant of the variant at `i`: its literal, or one more than the
/// previous variant's (0 for the first). A literal that cannot be read, or a
/// successor that does not fit, counts as 0.
pub open spec fn value_at(vs: Seq<VariantDesc>, i: nat) -> u128
    decreases i,
{
    match vs[i as int].discriminant {
        Discriminant::Literal(v) => v,
        Discriminant::Unparsable => 0,
        Discriminant::Implicit => if i == 0 {
            0
        } else if value_at(vs, (i - 1) as nat) == u128::MAX {
            0
        } else {
            (value_at(vs, (i - 1) as nat) + 1) as u128
        },
    }
}

/// The discriminants of a fieldless enum, in declaration order.
pub open spec fn assigned_values(vs: Seq<VariantDesc>) -> Seq<u128> {
    Seq::new(vs.len(), |i: int| value_at(vs, i as nat))
}

/// The errors that the variant at `i` brings: its shape, then its
/// discriminant, then the byte range.
pub open spec fn variant_errors(vs: Seq<VariantDesc>, i: nat) -> Seq<EnumError> {
    let shape: Seq<EnumError> = match vs[i as int].shape {
        VariantShape::Unit => seq![],
        VariantShape::Named => seq![EnumError::StructVariant(i as usize)],
        VariantShape::Unnamed => seq![EnumError::TupleVariant(i as usize)],
    };
    let read: Seq<EnumError> = match vs[i as int].discriminant {
        Discriminant::Unparsable => seq![EnumError::UnparsableDiscriminant(i as usize)],
        Discriminant::Implicit => if i > 0 && value_at(vs, (i - 1) as nat) == u128::MAX {
            seq![EnumError::DiscriminantOverflow(i as usize)]
        } else {
            seq![]
        },
        Discriminant::Literal(_) => seq![],
    };
    let range: Seq<EnumError> = if value_at(vs, i) > 255 {
        seq![EnumError::OutOfRange(i as usize)]
    } else {
        seq![]
    };
    shape + read + range
}

/// The errors of the first `n` variants, in variant order.
pub open spec fn enum_errors(vs: Seq<VariantDesc>, n: nat) -> Seq<EnumError>
    decreases n,
{
    if n == 0 {
        seq![]
    } else {
        enum_errors(vs, (n - 1) as nat) + variant_errors(vs, (n - 1) as nat)
    }
}

/// The largest value of `vs`, or 0 where there is none.
pub open spec fn max_of(vs: Seq<u128>) -> u128
    decreases vs.len(),
{
    if vs.len() == 0 {
        0
    } else {
        let m = max_of(vs.drop_last());
        if vs.last() > m {
            vs.last()
        } else {
            m
        }
    }
}

/// What the derive needs of a fieldless enum.
pub struct EnumLayout {
    /// The discriminant of each variant, in declaration order.
    pub values: Vec<u128>,
    pub max_discriminant: u128,
    /// The type that holds the discriminants: the one asked for, else the
    /// smallest that holds the largest.
    pub flag_type: FlagType,
    pub byte_size: usize,
    /// Bits that a `#[bits()]` field of this enum takes.
    pub min_bits: usize,
    /// The errors handed in, then those of each variant in order.
    pub errors: Vec<EnumError>,
}

/// The errors of one variant, given the previous variant's discriminant.
fn errors_of(
    d: VariantDesc,
    i: usize,
    prev: u128,
    value: u128,
    out: &mut Vec<EnumError>,
    Ghost(vs): Ghost<Seq<VariantDesc>>,
)
    requires
        i < vs.len(),
        vs[i as int] == d,
        value == value_at(vs, i as nat),
        i > 0 ==> prev == value_at(vs, (i - 1) as nat),
    ensures
        final(out)@ == old(out)@ + variant_errors(vs, i as nat),
{
    let ghost start = out@;
    match d.shape {
        VariantShape::Unit => {},
        VariantShape::Named => out.push(EnumError::StructVariant(i)),
        VariantShape::Unnamed => out.push(EnumError::TupleVariant(i)),
    }
    let ghost after_shape = out@;
    match d.discriminant {
        Discriminant::Unparsable => out.push(EnumError::UnparsableDiscriminant(i)),
        Discriminant::Implicit => {
            if i > 0 && prev == u128::MAX {
                out.push(EnumError::DiscriminantOverflow(i));
            }
        },
        Discriminant::Literal(_) => {},
    }
    let ghost after_read = out@;
    if value > 255 {
        out.push(EnumError::OutOfRange(i));
    }
    proof {
        let e = variant_errors(vs, i as nat);
        assert(out@ =~= start + e);
    }
}

/// Lays out a fieldless enum from its variants, adding to `errors` one
/// error for each thing the derive refuses in a variant.
pub fn handle_enum(
    errors: Vec<EnumError>,
    variants: &Vec<VariantDesc>,
    explicit_flag_type: Option<FlagType>,
) -> (l: EnumLayout)
    ensures
        l.values@ == assigned_values(variants@),
        l.max_discriminant == max_of(l.values@),
        l.flag_type == match explicit_flag_type {
            Some(t) => t,
            None => FlagType::from_max_value_spec(l.max_discriminant),
        },
        l.byte_size == l.flag_type.spec_byte_size(),
        1 <= l.min_bits <= 128,
        fits(l.max_discriminant, l.min_bits as nat),
        l.min_bits > 1 ==> !fits(l.max_discriminant, (l.min_bits - 1) as nat),
        l.errors@ == errors@ + enum_errors(variants@, variants@.len()),
{
    let n = variants.len();
    let mut errors = errors;
    let ghost given = errors@;
    let mut values: Vec<u128> = Vec::new();
    let mut max: u128 = 0;
    let mut prev: u128 = 0;
    let mut i: usize = 0;
    while i < n
        invariant
            i <= n,
            n == variants@.len(),
            values@ == assigned_values(variants@).subrange(0, i as int),
            max == max_of(values@),
            i > 0 ==> prev == value_at(variants@, (i - 1) as nat),
            errors@ == given + enum_errors(variants@, i as nat),
        decreases n - i,
    {
        let d = variants[i];
        let v = match d.discriminant {
            Discriminant::Literal(v) => v,
            Discriminant::Unparsable => 0,
            Discriminant::Implicit => if i == 0 {
                0
            } else if prev == u128::MAX {
                0
            } else {
                prev + 1
            },
        };
        assert(v == value_at(variants@, i as nat));
        errors_of(d, i, prev, v, &mut errors, Ghost(variants@));
        proof {
            assert(given + enum_errors(variants@, i as nat) + variant_errors(variants@, i as nat)
                =~= given + enum_errors(variants@, (i + 1) as nat));
        }
        let ghost before = values@;
        values.push(v);
        proof {
            assert(values@.drop_last() =~= before);
            assert(values@ =~= assigned_values(variants@).subrange(0, i + 1));
        }
        if v > max {
            max = v;
        }
        prev = v;
        i = i + 1;
    }
    proof {
        assert(values@ =~= assigned_values(variants@));
    }
    let flag_type = match explicit_flag_type {
        Some(t) => t,
        None => FlagType::from_max_value(max),
    };
    let byte_size = flag_type.byte_size();
    let min_bits = min_bits_for(max);
    EnumLayout { values, max_discriminant: max, flag_type, byte_size, min_bits, errors }
}

/// The positions of the variants of a flag enum whose discriminant is
/// neither zero nor a power of two.
pub fn invalid_flag_values(values: &Vec<u128>) -> (bad: Vec<usize>)
    ensures
        forall|j: int|
            0 <= j < bad@.len() ==> bad@[j] < values@.len() && !is_flag_value(values@[bad@[j] as int]),
        forall|i: int|
            0 <= i < values@.len() && !is_flag_value(values@[i]) ==> bad@.contains(i as usize),
        forall|j: int, k: int| 0 <= j < k < bad@.len() ==> bad@[j] < bad@[k],
{
    let n = values.len();
    let mut bad: Vec<usize> = Vec::new();
    let mut i: usize = 0;
    while i < n
        invariant
            i <= n,
            n == values@.len(),
            forall|j: int|
                0 <= j < bad@.len() ==> bad@[j] < i && !is_flag_value(values@[bad@[j] as int]),
            forall|k: int| 0 <= k < i && !is_flag_value(values@[k]) ==> bad@.contains(k as usize),
            forall|j: int, k: int| 0 <= j < k < bad@.len() ==> bad@[j] < bad@[k],
        decreases n - i,
    {
        let v = values[i];
        if v != 0 && (v & (v - 1)) != 0 {
            let ghost before = bad@;
            bad.push(i);
            proof {
                assert forall|k: int| 0 <= k < i + 1 && !is_flag_value(values@[k]) implies bad@.contains(k as usize) by {
                    if k < i {
                        assert(before.contains(k as usize));
                        let j = choose|j: int| 0 <= j < before.len() && before[j] == k as usize;
                        assert(bad@[j] == k as usize);
                    } else {
                        assert(bad@[bad@.len() - 1] == i);
                    }
                }
            }
        }
        i = i + 1;
    }
    bad
}

/// Zero or a power of two.
pub open spec fn is_flag_value(v: u128) -> bool {
    v == 0 || (v & ((v - 1) as u128)) == 0
}


proof fn lemma_bits_or_step(c: u8, v: u8, bits: u8)
    by (bit_vector)
    requires
        c & bits == c,
        bits & v == v,
    ensures
        (c | v) & bits == (c | v),
{
}

/// The union of the variants contained in `bits` lies within `bits`.
proof fn lemma_covered_within(d: Seq<u8>, bits: u8)
    ensures
        covered(d, bits) & bits == covered(d, bits),
    decreases d.len(),
{
    if d.len() == 0 {
        assert(0u8 & bits == 0u8) by (bit_vector);
    } else {
        lemma_covered_within(d.drop_last(), bits);
        if bits & d.last() == d.last() {
            lemma_bits_or_step(covered(d.drop_last(), bits), d.last(), bits);
        }
    }
}

proof fn lemma_mono_step(ca: u8, cc: u8, v: u8, a: u8, c: u8)
    by (bit_vector)
    requires
        a & c == a,
        ca & cc == ca,
    ensures
        a & v == v ==> c & v == v,
        a & v == v ==> (ca | v) & (cc | v) == (ca | v),
        ca & (cc | v) == ca,
{
}

/// More bits cover at least the variants that fewer bits cover.
proof fn lemma_covered_mono(d: Seq<u8>, a: u8, c: u8)
    requires
        a & c == a,
    ensures
        covered(d, a) & covered(d, c) == covered(d, a),
    decreases d.len(),
{
    if d.len() == 0 {
        assert(0u8 & 0u8 == 0u8) by (bit_vector);
    } else {
        lemma_covered_mono(d.drop_last(), a, c);
        lemma_mono_step(covered(d.drop_last(), a), covered(d.drop_last(), c), d.last(), a, c);
    }
}

proof fn lemma_or_closed_step(a: u8, b: u8, ca: u8, cb: u8, cab: u8)
    by (bit_vector)
    requires
        a & !ca == 0,
        b & !cb == 0,
        ca & cab == ca,
        cb & cab == cb,
    ensures
        (a | b) & !cab == 0,
        a & (a | b) == a,
        b & (a | b) == b,
{
}

proof fn lemma_or_sub(a: u8, b: u8)
    by (bit_vector)
    ensures
        a & (a | b) == a,
        b & (a | b) == b,
{
}

proof fn lemma_member_step(v: u8, prev: u8, w: u8)
    by (bit_vector)
    requires
        v & !prev == 0,
    ensures
        v & !(prev | w) == 0,
{
}

/// Each discriminant is covered by the variants it contains.
proof fn lemma_member_covered(d: Seq<u8>, i: int)
    requires
        0 <= i < d.len(),
    ensures
        d[i] & !covered(d, d[i]) == 0,
    decreases d.len(),
{
    let v = d[i];
    let prev = covered(d.drop_last(), v);
    if i == d.len() - 1 {
        assert(v & v == v && v & !(prev | v) == 0) by (bit_vector);
    } else {
        lemma_member_covered(d.drop_last(), i);
        assert(d.drop_last()[i] == v);
        lemma_member_step(v, prev, d.last());
    }
}

/// Flag values are closed under union: every discriminant of a flag enum is
/// a valid flag value, and the union of two valid flag values is one.
pub proof fn lemma_flags_closed(d: EnumDef, a: u8, b: u8)
    ensures
        forall|i: int|
            0 <= i < d.discriminants@.len() ==> #[trigger] d.spec_from_bits(d.discriminants@[i])
                == Some(d.discriminants@[i]),
        d.spec_from_bits(a) == Some(a) && d.spec_from_bits(b) == Some(b) ==> d.spec_from_bits(a | b)
            == Some(a | b),
{
    assert forall|i: int| 0 <= i < d.discriminants@.len() implies #[trigger] d.spec_from_bits(
        d.discriminants@[i],
    ) == Some(d.discriminants@[i]) by {
        lemma_member_covered(d.discriminants@, i);
    }
    if d.spec_from_bits(a) == Some(a) && d.spec_from_bits(b) == Some(b) {
        let ds = d.discriminants@;
        lemma_or_sub(a, b);
        lemma_covered_mono(ds, a, a | b);
        lemma_covered_mono(ds, b, a | b);
        lemma_or_closed_step(a, b, covered(ds, a), covered(ds, b), covered(ds, a | b));
    }
}


/// Reading back the byte of a variant gives the variant and one byte,
/// whatever follows it.
pub proof fn lemma_enum_round_trip(d: EnumDef, v: u8, rest: Seq<u8>)
    requires
        d.has(v),
    ensures
        d.spec_from_bytes(seq![v] + rest) == Ok::<(u8, usize), BeBytesError>((v, 1usize)),
{
    assert((seq![v] + rest)[0] == v);
}

/// A flag of `bits`: a nonzero value all of whose bits are set in `bits`.
pub open spec fn is_flag_of(bits: u8, v: u8) -> bool {
    v != 0 && bits & v == v
}

proof fn lemma_decomposed_members(d: Seq<u8>, bits: u8)
    ensures
        decomposed(d, bits) == d.filter(|v: u8| is_flag_of(bits, v)),
        forall|j: int|
            0 <= j < decomposed(d, bits).len() ==> is_flag_of(bits, #[trigger] decomposed(d, bits)[j])
                && d.contains(decomposed(d, bits)[j]),
        forall|i: int|
            0 <= i < d.len() && is_flag_of(bits, #[trigger] d[i]) ==> decomposed(d, bits).contains(d[i]),
    decreases d.len(),
{
    reveal(Seq::filter);
    if d.len() > 0 {
        let rest = d.drop_last();
        lemma_decomposed_members(rest, bits);
        let r = decomposed(d, bits);
        let r0 = decomposed(rest, bits);
        assert forall|j: int| 0 <= j < r.len() implies is_flag_of(bits, #[trigger] r[j]) && d.contains(r[j]) by {
            if j < r0.len() {
                assert(r[j] == r0[j]);
                let k = choose|k: int| 0 <= k < rest.len() && rest[k] == r0[j];
                assert(d[k] == rest[k]);
            } else {
                assert(r[j] == d.last());
                assert(d[d.len() - 1] == d.last());
            }
        }
        assert forall|i: int| 0 <= i < d.len() && is_flag_of(bits, #[trigger] d[i]) implies r.contains(d[i]) by {
            if i < d.len() - 1 {
                assert(rest[i] == d[i]);
                assert(r0.contains(rest[i]));
                let k = choose|k: int| 0 <= k < r0.len() && r0[k] == rest[i];
                assert(r[k] == r0[k]);
            } else {
                assert(r[r.len() - 1] == d.last());
            }
        }
    }
}

/// What `decompose` and `iter_flags` give: exactly the nonzero
/// discriminants all of whose bits are set in `bits`, in declaration order;
/// a zero discriminant is never reported as set.
pub proof fn lemma_decompose_flags(d: EnumDef, bits: u8)
    ensures
        decomposed(d.discriminants@, bits) == d.discriminants@.filter(|v: u8| v != 0 && bits & v == v),
        forall|j: int|
            0 <= j < decomposed(d.discriminants@, bits).len() ==> {
                let v = #[trigger] decomposed(d.discriminants@, bits)[j];
                v != 0 && bits & v == v && d.has(v)
            },
        forall|i: int|
            0 <= i < d.discriminants@.len() && #[trigger] d.discriminants@[i] != 0 && bits
                & d.discriminants@[i] == d.discriminants@[i] ==> decomposed(d.discriminants@, bits).contains(
                d.discriminants@[i],
            ),
        !decomposed(d.discriminants@, bits).contains(0u8),
{
    let ds = d.discriminants@;
    lemma_decomposed_members(ds, bits);
    assert(ds.filter(|v: u8| is_flag_of(bits, v)) =~= ds.filter(|v: u8| v != 0 && bits & v == v)) by {
        assert((|v: u8| is_flag_of(bits, v)) =~= (|v: u8| v != 0 && bits & v == v));
    }
    let r = decomposed(ds, bits);
    assert forall|i: int|
        0 <= i < ds.len() && #[trigger] ds[i] != 0 && bits & ds[i] == ds[i] implies r.contains(ds[i]) by {
        assert(is_flag_of(bits, ds[i]));
    }
    if r.contains(0u8) {
        let j = choose|j: int| 0 <= j < r.len() && r[j] == 0u8;
        assert(is_flag_of(bits, r[j]));
    }
}

proof fn lemma_enum_errors_hold(vs: Seq<VariantDesc>, n: nat, i: nat, x: EnumError)
    requires
        i < n <= vs.len(),
        variant_errors(vs, i).contains(x),
    ensures
        enum_errors(vs, n).contains(x),
    decreases n,
{
    let prev = enum_errors(vs, (n - 1) as nat);
    let last = variant_errors(vs, (n - 1) as nat);
    if i < n - 1 {
        lemma_enum_errors_hold(vs, (n - 1) as nat, i, x);
        let k = choose|k: int| 0 <= k < prev.len() && prev[k] == x;
        assert((prev + last)[k] == x);
    } else {
        let k = choose|k: int| 0 <= k < last.len() && last[k] == x;
        assert((prev + last)[prev.len() + k] == x);
    }
}

/// The discriminants of an enum's variants: a literal gives its value, a
/// variant without one takes one more than the variant before it (the
/// first takes 0); and every variant whose discriminant lies outside
/// `0..=255`, or that carries fields, is reported with its position.
pub proof fn lemma_discriminants(vs: Seq<VariantDesc>, i: nat)
    requires
        i < vs.len(),
    ensures
        vs[i as int].discriminant matches Discriminant::Literal(v) ==> assigned_values(vs)[i as int] == v,
        vs[i as int].discriminant is Implicit && i == 0 ==> assigned_values(vs)[i as int] == 0,
        vs[i as int].discriminant is Implicit && i > 0 && assigned_values(vs)[i - 1] < u128::MAX
            ==> assigned_values(vs)[i as int] == assigned_values(vs)[i - 1] + 1,
        assigned_values(vs)[i as int] > 255 ==> enum_errors(vs, vs.len()).contains(
            EnumError::OutOfRange(i as usize),
        ),
        vs[i as int].shape is Named ==> enum_errors(vs, vs.len()).contains(
            EnumError::StructVariant(i as usize),
        ),
        vs[i as int].shape is Unnamed ==> enum_errors(vs, vs.len()).contains(
            EnumError::TupleVariant(i as usize),
        ),
{
    let e = variant_errors(vs, i);
    if value_at(vs, i) > 255 {
        assert(e[e.len() - 1] == EnumError::OutOfRange(i as usize));
        lemma_enum_errors_hold(vs, vs.len(), i, EnumError::OutOfRange(i as usize));
    }
    if vs[i as int].shape is Named {
        assert(e[0] == EnumError::StructVariant(i as usize));
        lemma_enum_errors_hold(vs, vs.len(), i, EnumError::StructVariant(i as usize));
    }
    if vs[i as int].shape is Unnamed {
        assert(e[0] == EnumError::TupleVariant(i as usize));
        lemma_enum_errors_hold(vs, vs.len(), i, EnumError::TupleVariant(i as usize));
    }
}

} // verus!
