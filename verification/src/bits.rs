//! Bit streams: how a number becomes a run of bits in a given byte order,
//! and how runs of bits become bytes.
//!
//! In big-endian order a field of width `w` contributes its bits from the most
//! significant one down, and the first bit of each byte is its most
//! significant bit. In little-endian order a field contributes its bits from
//! the least significant one up, and the first bit of each byte is its least
//! significant bit. A primitive written in either order is therefore the same
//! as a bit field of its full width.
use vstd::prelude::*;
use crate::consts::Endianness;

verus! {

/// Bit `i` of `v`, where bit 0 is the least significant.
pub open spec fn bit(v: u128, i: nat) -> bool {
    ((v >> (i as u128)) & 1u128) == 1u128
}

pub open spec fn bool_bit(b: bool) -> u128 {
    if b { 1u128 } else { 0u128 }
}

/// `v` holds no bit at or above position `w`.
pub open spec fn fits(v: u128, w: nat) -> bool {
    w >= 128 || (v >> (w as u128)) == 0u128
}

/// The `w` low bits of `v` in stream order.
pub open spec fn field_bits(v: u128, w: nat, e: Endianness) -> Seq<bool> {
    Seq::new(
        w,
        |j: int|
            match e {
                Endianness::Big => bit(v, (w - 1 - j) as nat),
                Endianness::Little => bit(v, j as nat),
            },
    )
}

/// The number that a run of bits in stream order denotes.
pub open spec fn from_bits(s: Seq<bool>, e: Endianness) -> u128
    decreases s.len(),
{
    if s.len() == 0 {
        0u128
    } else {
        match e {
            Endianness::Big => (from_bits(s.drop_last(), e) << 1u128) | bool_bit(s.last()),
            Endianness::Little => from_bits(s.drop_last(), e) | (bool_bit(s.last()) << ((s.len()
                - 1) as u128)),
        }
    }
}

/// The low `w` bits of `v`.
pub open spec fn low_bits(v: u128, w: nat) -> u128 {
    if w >= 128 {
        v
    } else {
        v & !(0xffff_ffff_ffff_ffff_ffff_ffff_ffff_ffffu128 << (w as u128))
    }
}

/// Zero bits that bring a stream of `n` bits to a whole number of bytes.
pub open spec fn pad_len(n: nat) -> nat {
    if n % 8 == 0 {
        0
    } else {
        (8 - n % 8) as nat
    }
}

/// A stream extended with zero bits up to a byte boundary.
pub open spec fn align_bits(s: Seq<bool>) -> Seq<bool> {
    s + Seq::new(pad_len(s.len()), |i: int| false)
}

/// Bytes made of a stream whose length is a multiple of eight.
pub open spec fn pack(s: Seq<bool>, e: Endianness) -> Seq<u8> {
    Seq::new(s.len() / 8, |k: int| from_bits(s.subrange(8 * k, 8 * k + 8), e) as u8)
}

/// The stream of bits of a sequence of bytes.
pub open spec fn unpack(b: Seq<u8>, e: Endianness) -> Seq<bool> {
    Seq::new(8 * b.len(), |i: int| field_bits(b[i / 8] as u128, 8, e)[i % 8])
}

proof fn lemma_bit_succ(v: u128, k: u128)
    by (bit_vector)
    requires
        k < 127,
    ensures
        ((v >> (k + 1)) & 1u128) == (((v >> 1u128) >> k) & 1u128),
{
}

proof fn lemma_low_big_step(v: u128, w1: u128, w: u128)
    by (bit_vector)
    requires
        w1 < 127,
        w == w1 + 1,
    ensures
        (((v >> 1u128) & !(0xffff_ffff_ffff_ffff_ffff_ffff_ffff_ffffu128 << w1)) << 1u128) | (v
            & 1u128) == v & !(0xffff_ffff_ffff_ffff_ffff_ffff_ffff_ffffu128 << w),
{
}

proof fn lemma_low_big_top(v: u128)
    by (bit_vector)
    ensures
        (((v >> 1u128) & !(0xffff_ffff_ffff_ffff_ffff_ffff_ffff_ffffu128 << 127u128)) << 1u128)
            | (v & 1u128) == v,
{
}

proof fn lemma_low_little_step(v: u128, w1: u128, w: u128)
    by (bit_vector)
    requires
        w1 < 127,
        w == w1 + 1,
    ensures
        (v & !(0xffff_ffff_ffff_ffff_ffff_ffff_ffff_ffffu128 << w1)) | (((v >> w1) & 1u128)
            << w1) == v & !(0xffff_ffff_ffff_ffff_ffff_ffff_ffff_ffffu128 << w),
{
}

proof fn lemma_low_little_top(v: u128)
    by (bit_vector)
    ensures
        (v & !(0xffff_ffff_ffff_ffff_ffff_ffff_ffff_ffffu128 << 127u128)) | (((v >> 127u128)
            & 1u128) << 127u128) == v,
{
}

proof fn lemma_low_zero(v: u128)
    by (bit_vector)
    ensures
        v & !(0xffff_ffff_ffff_ffff_ffff_ffff_ffff_ffffu128 << 0u128) == 0u128,
{
}

proof fn lemma_bool_bit_low(v: u128, k: u128)
    by (bit_vector)
    requires
        k < 128,
    ensures
        (if ((v >> k) & 1u128) == 1u128 {
            1u128
        } else {
            0u128
        }) == ((v >> k) & 1u128),
{
}

proof fn lemma_fits_low(v: u128, w: u128)
    by (bit_vector)
    requires
        w < 128,
        (v >> w) == 0u128,
    ensures
        v & !(0xffff_ffff_ffff_ffff_ffff_ffff_ffff_ffffu128 << w) == v,
{
}

/// Reading back the bits of a field gives its low `w` bits.
pub proof fn lemma_from_field_bits_low(v: u128, w: nat, e: Endianness)
    requires
        w <= 128,
    ensures
        from_bits(field_bits(v, w, e), e) == low_bits(v, w),
    decreases w,
{
    let s = field_bits(v, w, e);
    if w == 0 {
        lemma_low_zero(v);
    } else {
        match e {
            Endianness::Big => {
                assert(s.drop_last() =~= field_bits(v >> 1u128, (w - 1) as nat, e)) by {
                    assert forall|j: int| 0 <= j < w - 1 implies s.drop_last()[j] == field_bits(
                        v >> 1u128,
                        (w - 1) as nat,
                        e,
                    )[j] by {
                        let k = (w - 2 - j) as u128;
                        lemma_bit_succ(v, k);
                    }
                }
                lemma_from_field_bits_low(v >> 1u128, (w - 1) as nat, e);
                lemma_bool_bit_low(v, 0);
                assert(s.last() == bit(v, 0));
                let w1 = (w - 1) as u128;
                assert(((w - 1) as nat) as u128 == w1);
                assert(from_bits(s, e) == (from_bits(s.drop_last(), e) << 1u128) | bool_bit(s.last()));
                assert(bool_bit(s.last()) == v & 1u128) by {
                    assert((v >> 0u128) == v) by (bit_vector);
                }
                if w == 128 {
                    lemma_low_big_top(v);
                } else {
                    lemma_low_big_step(v, w1, w as u128);
                }
            },
            Endianness::Little => {
                assert(s.drop_last() =~= field_bits(v, (w - 1) as nat, e));
                lemma_from_field_bits_low(v, (w - 1) as nat, e);
                let w1 = (w - 1) as u128;
                assert(((w - 1) as nat) as u128 == w1);
                assert((s.len() - 1) as u128 == w1);
                lemma_bool_bit_low(v, w1);
                assert(s.last() == bit(v, (w - 1) as nat));
                assert(from_bits(s, e) == from_bits(s.drop_last(), e) | (bool_bit(s.last()) << w1));
                if w == 128 {
                    lemma_low_little_top(v);
                } else {
                    lemma_low_little_step(v, w1, w as u128);
                }
            },
        }
    }
}

/// Reading back the bits of a field that fits its width gives the field.
pub proof fn lemma_from_field_bits(v: u128, w: nat, e: Endianness)
    requires
        w <= 128,
        fits(v, w),
    ensures
        from_bits(field_bits(v, w, e), e) == v,
{
    lemma_from_field_bits_low(v, w, e);
    if w < 128 {
        lemma_fits_low(v, w as u128);
    }
}

proof fn lemma_fits_big_step(y: u128, c: u128, n1: u128)
    by (bit_vector)
    requires
        n1 < 128,
        c <= 1,
        (y >> n1) == 0u128,
    ensures
        n1 == 127 || (((y << 1u128) | c) >> (n1 + 1)) == 0u128,
{
}

proof fn lemma_fits_little_step(y: u128, c: u128, n1: u128)
    by (bit_vector)
    requires
        n1 < 128,
        c <= 1,
        (y >> n1) == 0u128,
    ensures
        n1 == 127 || ((y | (c << n1)) >> (n1 + 1)) == 0u128,
{
}

/// The number a run of bits denotes fits the run's length.
pub proof fn lemma_from_bits_fits(s: Seq<bool>, e: Endianness)
    requires
        s.len() <= 128,
    ensures
        fits(from_bits(s, e), s.len()),
    decreases s.len(),
{
    if s.len() == 0 {
        assert((0u128 >> 0u128) == 0u128) by (bit_vector);
    } else {
        lemma_from_bits_fits(s.drop_last(), e);
        let y = from_bits(s.drop_last(), e);
        let c = bool_bit(s.last());
        let n1 = (s.len() - 1) as u128;
        assert((y >> n1) == 0u128);
        match e {
            Endianness::Big => {
                lemma_fits_big_step(y, c, n1);
            },
            Endianness::Little => {
                lemma_fits_little_step(y, c, n1);
            },
        }
    }
}

proof fn lemma_big_bit_low(y: u128, c: u128)
    by (bit_vector)
    requires
        c <= 1,
    ensures
        ((((y << 1u128) | c) >> 0u128) & 1u128) == c,
{
}

proof fn lemma_big_bit_high(y: u128, c: u128, k: u128)
    by (bit_vector)
    requires
        c <= 1,
        k < 127,
    ensures
        ((((y << 1u128) | c) >> (k + 1)) & 1u128) == ((y >> k) & 1u128),
{
}

proof fn lemma_little_bit_low(y: u128, c: u128, n1: u128, k: u128)
    by (bit_vector)
    requires
        c <= 1,
        n1 < 128,
        k < n1,
    ensures
        (((y | (c << n1)) >> k) & 1u128) == ((y >> k) & 1u128),
{
}

proof fn lemma_little_bit_top(y: u128, c: u128, n1: u128)
    by (bit_vector)
    requires
        c <= 1,
        n1 < 128,
        (y >> n1) == 0u128,
    ensures
        (((y | (c << n1)) >> n1) & 1u128) == c,
{
}

/// Writing out the number that a run of bits denotes gives the run back.
pub proof fn lemma_field_bits_from(s: Seq<bool>, e: Endianness)
    requires
        s.len() <= 128,
    ensures
        field_bits(from_bits(s, e), s.len(), e) == s,
    decreases s.len(),
{
    let n = s.len();
    if n > 0 {
        let t = s.drop_last();
        let y = from_bits(t, e);
        let c = bool_bit(s.last());
        lemma_field_bits_from(t, e);
        lemma_from_bits_fits(t, e);
        let x = from_bits(s, e);
        assert forall|j: int| 0 <= j < n implies field_bits(x, n, e)[j] == s[j] by {
            match e {
                Endianness::Big => {
                    if j == n - 1 {
                        lemma_big_bit_low(y, c);
                    } else {
                        let k = (n - 2 - j) as u128;
                        lemma_big_bit_high(y, c, k);
                        assert(field_bits(y, (n - 1) as nat, e)[j] == t[j]);
                    }
                },
                Endianness::Little => {
                    if j == n - 1 {
                        lemma_little_bit_top(y, c, (n - 1) as u128);
                    } else {
                        lemma_little_bit_low(y, c, (n - 1) as u128, j as u128);
                        assert(field_bits(y, (n - 1) as nat, e)[j] == t[j]);
                    }
                },
            }
        }
        assert(field_bits(x, n, e) =~= s);
    } else {
        assert(field_bits(from_bits(s, e), s.len(), e) =~= s);
    }
}

proof fn lemma_byte_fits(x: u128)
    by (bit_vector)
    requires
        (x >> 8u128) == 0u128,
    ensures
        x < 256,
{
}

proof fn lemma_u8_fits(b: u8)
    by (bit_vector)
    ensures
        ((b as u128) >> 8u128) == 0u128,
{
}

/// The bits of bytes packed again give the same bytes.
pub proof fn lemma_pack_unpack(b: Seq<u8>, e: Endianness)
    ensures
        pack(unpack(b, e), e) == b,
{
    let s = unpack(b, e);
    assert forall|k: int| 0 <= k < b.len() implies pack(s, e)[k] == b[k] by {
        assert(s.subrange(8 * k, 8 * k + 8) =~= field_bits(b[k] as u128, 8, e)) by {
            assert forall|j: int| 0 <= j < 8 implies #[trigger] s.subrange(8 * k, 8 * k + 8)[j]
                == field_bits(b[k] as u128, 8, e)[j] by {
                assert((8 * k + j) / 8 == k);
                assert((8 * k + j) % 8 == j);
            }
        }
        lemma_u8_fits(b[k]);
        lemma_from_field_bits(b[k] as u128, 8, e);
    }
    assert(pack(s, e) =~= b);
}

/// Packing a whole number of bytes of bits and reading their bits back
/// gives the same bits.
pub proof fn lemma_unpack_pack(s: Seq<bool>, e: Endianness)
    requires
        s.len() % 8 == 0,
    ensures
        unpack(pack(s, e), e) == s,
{
    let b = pack(s, e);
    assert forall|i: int| 0 <= i < s.len() implies #[trigger] unpack(b, e)[i] == s[i] by {
        let k = i / 8;
        let j = i % 8;
        assert(0 <= k < b.len());
        let t = s.subrange(8 * k, 8 * k + 8);
        lemma_from_bits_fits(t, e);
        lemma_byte_fits(from_bits(t, e));
        assert(b[k] as u128 == from_bits(t, e));
        lemma_field_bits_from(t, e);
        assert(t[j] == s[i]);
    }
    assert(unpack(b, e) =~= s);
}

/// The bits of two byte sequences in a row are the bits of each in a row.
pub proof fn lemma_unpack_concat(a: Seq<u8>, b: Seq<u8>, e: Endianness)
    ensures
        unpack(a + b, e) == unpack(a, e) + unpack(b, e),
{
    assert forall|i: int| 0 <= i < 8 * (a.len() + b.len()) implies #[trigger] unpack(a + b, e)[i]
        == (unpack(a, e) + unpack(b, e))[i] by {
        if i >= 8 * a.len() {
            assert((i - 8 * a.len()) / 8 == i / 8 - a.len());
            assert((i - 8 * a.len()) % 8 == i % 8);
        }
    }
    assert(unpack(a + b, e) =~= unpack(a, e) + unpack(b, e));
}

// ---------------------------------------------------------------------------
// Executable helpers
// ---------------------------------------------------------------------------

/// Appends the `w` low bits of `v` in stream order.
pub fn push_field_bits(out: &mut Vec<bool>, v: u128, w: usize, e: Endianness)
    requires
        w <= 128,
    ensures
        final(out)@ == old(out)@ + field_bits(v, w as nat, e),
{
    let ghost start = old(out)@;
    let mut j: usize = 0;
    while j < w
        invariant
            j <= w <= 128,
            out@ == start + field_bits(v, w as nat, e).subrange(0, j as int),
        decreases w - j,
    {
        let k: u128 = match e {
            Endianness::Big => (w - 1 - j) as u128,
            Endianness::Little => j as u128,
        };
        let b = ((v >> k) & 1u128) == 1u128;
        out.push(b);
        j = j + 1;
        assert(field_bits(v, w as nat, e).subrange(0, j as int) =~= field_bits(
            v,
            w as nat,
            e,
        ).subrange(0, (j - 1) as int).push(b));
    }
    assert(field_bits(v, w as nat, e).subrange(0, w as int) =~= field_bits(v, w as nat, e));
}

/// The number denoted by the `w` bits of `s` that start at `start`.
pub fn read_field_bits(s: &Vec<bool>, start: usize, w: usize, e: Endianness) -> (v: u128)
    requires
        w <= 128,
        start + w <= s@.len(),
    ensures
        v == from_bits(s@.subrange(start as int, start + w), e),
        fits(v, w as nat),
{
    let mut acc: u128 = 0;
    let mut j: usize = 0;
    let len = s.len();
    while j < w
        invariant
            j <= w <= 128,
            len == s@.len(),
            start + w <= s@.len(),
            acc == from_bits(s@.subrange(start as int, start + j), e),
        decreases w - j,
    {
        let b = s[start + j];
        let ghost t = s@.subrange(start as int, start + j + 1);
        assert(t.drop_last() =~= s@.subrange(start as int, start + j));
        let c: u128 = if b {
            1
        } else {
            0
        };
        acc = match e {
            Endianness::Big => (acc << 1u128) | c,
            Endianness::Little => acc | (c << (j as u128)),
        };
        j = j + 1;
    }
    proof {
        lemma_from_bits_fits(s@.subrange(start as int, start + w), e);
    }
    acc
}

/// Appends zero bits up to the next byte boundary.
pub fn push_align(out: &mut Vec<bool>)
    ensures
        final(out)@ == align_bits(old(out)@),
{
    let ghost start = old(out)@;
    let n = out.len() % 8;
    if n != 0 {
        let mut k: usize = n;
        while k < 8
            invariant
                n <= k <= 8,
                n == start.len() % 8,
                0 < n,
                out@ == start + Seq::new((k - n) as nat, |i: int| false),
            decreases 8 - k,
        {
            out.push(false);
            k = k + 1;
            assert(out@ =~= start + Seq::new((k - n) as nat, |i: int| false));
        }
    } else {
        assert(out@ =~= align_bits(start));
    }
    assert(out@ =~= align_bits(start));
}

/// Appends the bits of a sequence of bytes.
pub fn push_bytes_bits(out: &mut Vec<bool>, bytes: &[u8], e: Endianness)
    ensures
        final(out)@ == old(out)@ + unpack(bytes@, e),
{
    let ghost start = old(out)@;
    let mut i: usize = 0;
    while i < bytes.len()
        invariant
            i <= bytes@.len(),
            out@ == start + unpack(bytes@.subrange(0, i as int), e),
        decreases bytes@.len() - i,
    {
        let ghost before = out@;
        push_field_bits(out, bytes[i] as u128, 8, e);
        proof {
            lemma_unpack_concat(bytes@.subrange(0, i as int), seq![bytes[i as int]], e);
            assert(bytes@.subrange(0, i + 1) =~= bytes@.subrange(0, i as int) + seq![
                bytes[i as int],
            ]);
            assert(unpack(seq![bytes[i as int]], e) =~= field_bits(bytes[i as int] as u128, 8, e));
        }
        i = i + 1;
    }
    assert(bytes@.subrange(0, i as int) =~= bytes@);
}

/// The bits of a sequence of bytes.
pub fn unpack_bytes(bytes: &[u8], e: Endianness) -> (s: Vec<bool>)
    ensures
        s@ == unpack(bytes@, e),
{
    let mut s: Vec<bool> = Vec::new();
    push_bytes_bits(&mut s, bytes, e);
    assert(s@ =~= unpack(bytes@, e));
    s
}

/// The bytes of a stream whose length is a multiple of eight.
pub fn pack_bits(s: &Vec<bool>, e: Endianness) -> (b: Vec<u8>)
    requires
        s@.len() % 8 == 0,
    ensures
        b@ == pack(s@, e),
{
    let mut b: Vec<u8> = Vec::new();
    let len = s.len();
    let n = len / 8;
    let mut k: usize = 0;
    while k < n
        invariant
            k <= n,
            len == s@.len(),
            n == s@.len() / 8,
            s@.len() % 8 == 0,
            b@ == pack(s@, e).subrange(0, k as int),
        decreases n - k,
    {
        let v = read_field_bits(s, 8 * k, 8, e);
        proof {
            lemma_byte_fits(v);
        }
        b.push(v as u8);
        k = k + 1;
        assert(b@ =~= pack(s@, e).subrange(0, k as int));
    }
    assert(pack(s@, e).subrange(0, n as int) =~= pack(s@, e));
    b
}

} // verus!
