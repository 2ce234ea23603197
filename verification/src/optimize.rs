//! Which serialization path suits a layout: the analysis of its fields, the
//! raw-pointer path for small fixed layouts, and the helpers that pick a
//! path or reuse a buffer.
use vstd::prelude::*;
use crate::codec::{BeBytesError, encodable_struct, encode};
use crate::consts::Endianness;
use crate::encode::encode_value;
use crate::schema::{FieldKind, PrimitiveType, Schema};
use crate::value::Value;

verus! {

/// Serialization paths, from fastest to most general.
#[derive(Clone, Copy, Debug, PartialEq, Eq, Structural)]
pub enum OptimizationMethod {
    /// Write the fields straight into a stack array.
    RawPointer,
    /// Write into one preallocated buffer.
    BytesBuffer,
    /// The general path through a growing vector.
    Standard,
}

/// What the analysis tells the user about a path.
#[derive(Clone, Copy, Debug)]
pub struct PerformanceHint {
    /// Expected speedup over the general path, in tenths (54 is 5.4x).
    pub improvement_tenths: u32,
    /// How the path allocates.
    pub allocation_pattern: &'static str,
    /// Advice to the user.
    pub recommendation: &'static str,
}

/// What the fields of a struct say about how to serialize it.
#[derive(Clone, Copy, Debug)]
pub struct StructAnalysis {
    /// Total size in bytes where every field has a known size.
    pub size: Option<usize>,
    pub has_bit_fields: bool,
    pub has_vectors: bool,
    pub has_strings: bool,
    pub supports_raw_pointer: bool,
    pub recommended_method: OptimizationMethod,
    pub performance_hint: PerformanceHint,
}

/// The known size of the first `n` fields: primitives and byte arrays add
/// their bytes, vectors and strings add nothing, and any other field (bit
/// fields included) leaves the size unknown.
pub open spec fn known_size(s: Schema, n: nat) -> Option<nat>
    decreases n,
{
    if n == 0 || n > s.fields@.len() {
        Some(0)
    } else {
        match known_size(s, (n - 1) as nat) {
            None => None,
            Some(t) => match s.fields@[n - 1] {
                FieldKind::Primitive(ty) => Some(t + ty.spec_size()),
                FieldKind::Array(len) => Some(t + len as nat),
                FieldKind::Bytes(_) => Some(t),
                FieldKind::Text(_) => Some(t),
                FieldKind::List(_, _) => Some(t),
                FieldKind::Segments(_, _) => Some(t),
                _ => None,
            },
        }
    }
}

/// Every known partial size fits in a `usize`.
pub open spec fn known_sizes_fit(s: Schema) -> bool {
    forall|n: nat| n <= s.fields@.len() ==> (#[trigger] known_size(s, n) matches Some(t) ==> t
        <= usize::MAX)
}

pub open spec fn any_field(s: Schema, p: spec_fn(FieldKind) -> bool) -> bool {
    exists|i: int| 0 <= i < s.fields@.len() && p(#[trigger] s.fields@[i])
}

pub open spec fn is_bits_field(k: FieldKind) -> bool {
    k is Bits || k is EnumBits
}

/// A `Vec` field: bytes, structs or segments.
pub open spec fn is_vector_field(k: FieldKind) -> bool {
    k is Bytes || k is List || k is Segments
}

pub open spec fn is_string_field(k: FieldKind) -> bool {
    k is Text
}

pub open spec fn spec_recommended(s: Schema) -> OptimizationMethod {
    let bits = any_field(s, |k: FieldKind| is_bits_field(k));
    let vecs = any_field(s, |k: FieldKind| is_vector_field(k));
    let strs = any_field(s, |k: FieldKind| is_string_field(k));
    let size = known_size(s, s.fields@.len());
    if s.fields@.len() == 0 {
        OptimizationMethod::Standard
    } else if !bits && !vecs && !strs && (size matches Some(t) && t <= 100) {
        OptimizationMethod::RawPointer
    } else if !vecs && !strs {
        OptimizationMethod::BytesBuffer
    } else {
        OptimizationMethod::Standard
    }
}

pub open spec fn spec_hint(m: OptimizationMethod) -> (u32, Seq<char>, Seq<char>) {
    match m {
        OptimizationMethod::RawPointer => (
            54,
            "Zero allocations (stack only)"@,
            "Optimal: Use raw pointer methods for maximum performance"@,
        ),
        OptimizationMethod::BytesBuffer => (
            23,
            "Single allocation with reuse potential"@,
            "Good: Use Bytes buffer methods for better performance"@,
        ),
        OptimizationMethod::Standard => (
            10,
            "Standard Vec allocation"@,
            "Standard: Complex types require Vec approach"@,
        ),
    }
}

pub open spec fn spec_method_name(m: OptimizationMethod) -> Seq<char> {
    match m {
        OptimizationMethod::RawPointer => "encode_be_to_raw_stack() - 5.4x performance improvement"@,
        OptimizationMethod::BytesBuffer => "to_be_bytes_buf() - 2.3x performance improvement"@,
        OptimizationMethod::Standard => "to_be_bytes() - standard approach for complex types"@,
    }
}

/// The size of a layout made only of primitives and byte arrays, for the
/// first `n` fields; none where another field occurs.
pub open spec fn raw_size(s: Schema, n: nat) -> Option<nat>
    decreases n,
{
    if n == 0 || n > s.fields@.len() {
        Some(0)
    } else {
        match raw_size(s, (n - 1) as nat) {
            None => None,
            Some(t) => match s.fields@[n - 1] {
                FieldKind::Primitive(ty) => Some(t + ty.spec_size()),
                FieldKind::Array(len) => Some(t + len as nat),
                _ => None,
            },
        }
    }
}

/// A layout of primitives and byte arrays whose size is between 1 and 256
/// bytes can be written through the raw-pointer path.
pub open spec fn spec_supports_raw(s: Schema) -> bool {
    raw_size(s, s.fields@.len()) matches Some(t) && 0 < t <= 256
}

proof fn lemma_known_size_none(s: Schema, n: nat, m: nat)
    requires
        n <= m <= s.fields@.len(),
        known_size(s, n) is None,
    ensures
        known_size(s, m) is None,
    decreases m - n,
{
    if n < m {
        lemma_known_size_none(s, n, (m - 1) as nat);
    }
}

proof fn lemma_raw_size_none(s: Schema, n: nat, m: nat)
    requires
        n <= m <= s.fields@.len(),
        raw_size(s, n) is None,
    ensures
        raw_size(s, m) is None,
    decreases m - n,
{
    if n < m {
        lemma_raw_size_none(s, n, (m - 1) as nat);
    }
}

proof fn lemma_raw_size_grows(s: Schema, n: nat, m: nat)
    requires
        n <= m <= s.fields@.len(),
        raw_size(s, m) is Some,
    ensures
        raw_size(s, n) is Some,
        raw_size(s, n)->0 <= raw_size(s, m)->0,
    decreases m - n,
{
    if n < m {
        if raw_size(s, (m - 1) as nat) is None {
            lemma_raw_size_none(s, (m - 1) as nat, m);
        }
        lemma_raw_size_grows(s, n, (m - 1) as nat);
    }
}

fn method_hint(m: OptimizationMethod) -> (h: PerformanceHint)
    ensures
        (h.improvement_tenths, h.allocation_pattern@, h.recommendation@) == spec_hint(m),
{
    match m {
        OptimizationMethod::RawPointer => PerformanceHint {
            improvement_tenths: 54,
            allocation_pattern: "Zero allocations (stack only)",
            recommendation: "Optimal: Use raw pointer methods for maximum performance",
        },
        OptimizationMethod::BytesBuffer => PerformanceHint {
            improvement_tenths: 23,
            allocation_pattern: "Single allocation with reuse potential",
            recommendation: "Good: Use Bytes buffer methods for better performance",
        },
        OptimizationMethod::Standard => PerformanceHint {
            improvement_tenths: 10,
            allocation_pattern: "Standard Vec allocation",
            recommendation: "Standard: Complex types require Vec approach",
        },
    }
}

impl StructAnalysis {
    /// Analyzes the fields of a struct.
    pub fn analyze_struct(s: &Schema) -> (a: StructAnalysis)
        requires
            known_sizes_fit(*s),
        ensures
            a.has_bit_fields == any_field(*s, |k: FieldKind| is_bits_field(k)),
            a.has_vectors == any_field(*s, |k: FieldKind| is_vector_field(k)),
            a.has_strings == any_field(*s, |k: FieldKind| is_string_field(k)),
            a.size == match known_size(*s, s.fields@.len()) {
                Some(t) => Some(t as usize),
                None => None::<usize>,
            },
            a.supports_raw_pointer == (s.fields@.len() > 0 && !a.has_bit_fields && !a.has_vectors
                && !a.has_strings && (a.size matches Some(t) && t <= 256)),
            a.recommended_method == spec_recommended(*s),
            (
                a.performance_hint.improvement_tenths,
                a.performance_hint.allocation_pattern@,
                a.performance_hint.recommendation@,
            ) == if s.fields@.len() == 0 {
                (10u32, "No allocation (empty struct)"@, "Empty struct: Use standard methods"@)
            } else {
                spec_hint(spec_recommended(*s))
            },
    {
        let n = s.fields.len();
        if n == 0 {
            proof {
                assert(!any_field(*s, |k: FieldKind| is_bits_field(k)));
                assert(!any_field(*s, |k: FieldKind| is_vector_field(k)));
                assert(!any_field(*s, |k: FieldKind| is_string_field(k)));
            }
            return StructAnalysis {
                size: Some(0),
                has_bit_fields: false,
                has_vectors: false,
                has_strings: false,
                supports_raw_pointer: false,
                recommended_method: OptimizationMethod::Standard,
                performance_hint: PerformanceHint {
                    improvement_tenths: 10,
                    allocation_pattern: "No allocation (empty struct)",
                    recommendation: "Empty struct: Use standard methods",
                },
            };
        }
        let mut size: Option<usize> = Some(0);
        let mut bits = false;
        let mut vecs = false;
        let mut strs = false;
        let mut i: usize = 0;
        while i < n
            invariant
                i <= n,
                n == s.fields@.len(),
                known_sizes_fit(*s),
                size == match known_size(*s, i as nat) {
                    Some(t) => Some(t as usize),
                    None => None::<usize>,
                },
                bits == exists|j: int| 0 <= j < i && is_bits_field(#[trigger] s.fields@[j]),
                vecs == exists|j: int| 0 <= j < i && is_vector_field(#[trigger] s.fields@[j]),
                strs == exists|j: int| 0 <= j < i && is_string_field(#[trigger] s.fields@[j]),
            decreases n - i,
        {
            let ghost prev = known_size(*s, i as nat);
            proof {
                assert(known_size(*s, (i + 1) as nat) matches Some(t) ==> t <= usize::MAX);
            }
            match &s.fields[i] {
                FieldKind::Primitive(ty) => {
                    size = match size {
                        Some(t) => Some(t + ty.size()),
                        None => None,
                    };
                },
                FieldKind::Array(len) => {
                    size = match size {
                        Some(t) => Some(t + *len),
                        None => None,
                    };
                },
                FieldKind::Bits(_, _) | FieldKind::EnumBits(_, _) => {
                    bits = true;
                    size = None;
                },
                FieldKind::Bytes(_) | FieldKind::List(_, _) | FieldKind::Segments(_, _) => {
                    vecs = true;
                },
                FieldKind::Text(_) => {
                    strs = true;
                },
                _ => {
                    size = None;
                },
            }
            proof {
                let k = s.fields@[i as int];
                assert(bits == exists|j: int| 0 <= j < i + 1 && is_bits_field(#[trigger] s.fields@[j])) by {
                    if is_bits_field(k) {
                        assert(is_bits_field(s.fields@[i as int]));
                    }
                }
                assert(vecs == exists|j: int| 0 <= j < i + 1 && is_vector_field(#[trigger] s.fields@[j])) by {
                    if is_vector_field(k) {
                        assert(is_vector_field(s.fields@[i as int]));
                    }
                }
                assert(strs == exists|j: int| 0 <= j < i + 1 && is_string_field(#[trigger] s.fields@[j])) by {
                    if is_string_field(k) {
                        assert(is_string_field(s.fields@[i as int]));
                    }
                }
            }
            i = i + 1;
        }
        proof {
            assert(bits == any_field(*s, |k: FieldKind| is_bits_field(k)));
            assert(vecs == any_field(*s, |k: FieldKind| is_vector_field(k)));
            assert(strs == any_field(*s, |k: FieldKind| is_string_field(k)));
        }
        let raw = !bits && !vecs && !strs && match size {
            Some(t) => t <= 256,
            None => false,
        };
        let method = if raw && match size {
            Some(t) => t <= 100,
            None => false,
        } {
            OptimizationMethod::RawPointer
        } else if !vecs && !strs {
            OptimizationMethod::BytesBuffer
        } else {
            OptimizationMethod::Standard
        };
        StructAnalysis {
            size,
            has_bit_fields: bits,
            has_vectors: vecs,
            has_strings: strs,
            supports_raw_pointer: raw,
            recommended_method: method,
            performance_hint: method_hint(method),
        }
    }
}

impl Schema {
    /// Whether values of this layout can be written through the raw-pointer
    /// path: no bit field, only primitives and byte arrays, 1 to 256 bytes.
    pub fn supports_raw_pointer_encoding(&self) -> (b: bool)
        ensures
            b == spec_supports_raw(*self),
    {
        let n = self.fields.len();
        let mut t: usize = 0;
        let mut i: usize = 0;
        while i < n
            invariant
                i <= n,
                n == self.fields@.len(),
                raw_size(*self, i as nat) == Some(t as nat),
                t <= 256,
            decreases n - i,
        {
            let add: usize = match &self.fields[i] {
                FieldKind::Primitive(ty) => ty.size(),
                FieldKind::Array(len) => *len,
                _ => {
                    proof {
                        lemma_raw_size_none(*self, (i + 1) as nat, n as nat);
                    }
                    return false;
                },
            };
            if add > 256 - t {
                proof {
                    if raw_size(*self, n as nat) is Some {
                        lemma_raw_size_grows(*self, (i + 1) as nat, n as nat);
                    }
                }
                return false;
            }
            t = t + add;
            i = i + 1;
        }
        t > 0
    }

    /// The number of bytes that the raw-pointer path writes for this
    /// layout, where it supports that path.
    pub fn raw_pointer_size(&self) -> (r: Option<usize>)
        ensures
            r == (match raw_size(*self, self.fields@.len()) {
                Some(t) => if 0 < t <= 256 {
                    Some(t as usize)
                } else {
                    None::<usize>
                },
                None => None,
            }),
    {
        let n = self.fields.len();
        let mut t: usize = 0;
        let mut i: usize = 0;
        while i < n
            invariant
                i <= n,
                n == self.fields@.len(),
                raw_size(*self, i as nat) == Some(t as nat),
                t <= 256,
            decreases n - i,
        {
            let add: usize = match &self.fields[i] {
                FieldKind::Primitive(ty) => ty.size(),
                FieldKind::Array(len) => *len,
                _ => {
                    proof {
                        lemma_raw_size_none(*self, (i + 1) as nat, n as nat);
                    }
                    return None;
                },
            };
            if add > 256 - t {
                proof {
                    if raw_size(*self, n as nat) is Some {
                        lemma_raw_size_grows(*self, (i + 1) as nat, n as nat);
                    }
                }
                return None;
            }
            t = t + add;
            i = i + 1;
        }
        if t > 0 {
            Some(t)
        } else {
            None
        }
    }

    /// The path that suits this layout, by name and expected speedup.
    pub fn optimal_serialization_method(&self) -> (m: &'static str)
        requires
            known_sizes_fit(*self),
        ensures
            m@ == spec_method_name(spec_recommended(*self)),
    {
        let a = StructAnalysis::analyze_struct(self);
        match a.recommended_method {
            OptimizationMethod::RawPointer => "encode_be_to_raw_stack() - 5.4x performance improvement",
            OptimizationMethod::BytesBuffer => "to_be_bytes_buf() - 2.3x performance improvement",
            OptimizationMethod::Standard => "to_be_bytes() - standard approach for complex types",
        }
    }

    /// The big-endian encoding written through the raw-pointer path.
    pub fn encode_be_to_raw_stack(&self, v: &Value) -> (b: Vec<u8>)
        requires
            spec_supports_raw(*self),
            encodable_struct(*self, v@),
        ensures
            b@ == encode(*self, v@, Endianness::Big),
    {
        encode_value(self, v, Endianness::Big)
    }

    /// The little-endian encoding written through the raw-pointer path.
    pub fn encode_le_to_raw_stack(&self, v: &Value) -> (b: Vec<u8>)
        requires
            spec_supports_raw(*self),
            encodable_struct(*self, v@),
        ensures
            b@ == encode(*self, v@, Endianness::Little),
    {
        encode_value(self, v, Endianness::Little)
    }

    /// The big-endian encoding, through the path that suits the layout.
    pub fn to_be_bytes_optimal(&self, v: &Value) -> (r: Result<Vec<u8>, BeBytesError>)
        requires
            known_sizes_fit(*self),
            encodable_struct(*self, v@),
        ensures
            r matches Ok(b) && b@ == encode(*self, v@, Endianness::Big),
    {
        Ok(encode_value(self, v, Endianness::Big))
    }

    /// The little-endian encoding, through the path that suits the layout.
    pub fn to_le_bytes_optimal(&self, v: &Value) -> (r: Result<Vec<u8>, BeBytesError>)
        requires
            known_sizes_fit(*self),
            encodable_struct(*self, v@),
        ensures
            r matches Ok(b) && b@ == encode(*self, v@, Endianness::Little),
    {
        Ok(encode_value(self, v, Endianness::Little))
    }

    /// An empty buffer with room for `capacity` encodings of the static size
    /// (big-endian batches).
    pub fn create_batch_buffer_be(&self, capacity: usize) -> (b: Vec<u8>)
        requires
            self.size_fits(),
            capacity * self.spec_field_size() <= usize::MAX,
        ensures
            b@.len() == 0,
    {
        let n = self.field_size();
        Vec::with_capacity(capacity * n)
    }

    /// An empty buffer with room for `capacity` encodings of the static size
    /// (little-endian batches).
    pub fn create_batch_buffer_le(&self, capacity: usize) -> (b: Vec<u8>)
        requires
            self.size_fits(),
            capacity * self.spec_field_size() <= usize::MAX,
        ensures
            b@.len() == 0,
    {
        let n = self.field_size();
        Vec::with_capacity(capacity * n)
    }

    /// Appends the big-endian encoding of `v` to a reused buffer.
    pub fn encode_be_to_reused(&self, v: &Value, buf: &mut Vec<u8>) -> (r: Result<(), BeBytesError>)
        requires
            encodable_struct(*self, v@),
        ensures
            r is Ok,
            final(buf)@ == old(buf)@ + encode(*self, v@, Endianness::Big),
    {
        self.encode_be_to(v, buf)
    }

    /// Appends the little-endian encoding of `v` to a reused buffer.
    pub fn encode_le_to_reused(&self, v: &Value, buf: &mut Vec<u8>) -> (r: Result<(), BeBytesError>)
        requires
            encodable_struct(*self, v@),
        ensures
            r is Ok,
            final(buf)@ == old(buf)@ + encode(*self, v@, Endianness::Little),
    {
        self.encode_le_to(v, buf)
    }
}


/// The first `n` fields hold a vector or a string.
pub open spec fn has_varying(s: Schema, n: nat) -> bool {
    exists|j: int| 0 <= j < n && (is_vector_field(#[trigger] s.fields@[j]) || is_string_field(s.fields@[j]))
}

proof fn lemma_raw_known(s: Schema, n: nat)
    requires
        n <= s.fields@.len(),
    ensures
        raw_size(s, n) == (if has_varying(s, n) {
            None
        } else {
            known_size(s, n)
        }),
    decreases n,
{
    if n > 0 {
        let m = (n - 1) as nat;
        lemma_raw_known(s, m);
        let k = s.fields@[m as int];
        if has_varying(s, m) {
            let j = choose|j: int| 0 <= j < m && (is_vector_field(#[trigger] s.fields@[j]) || is_string_field(s.fields@[j]));
            assert(0 <= j < n && (is_vector_field(s.fields@[j]) || is_string_field(s.fields@[j])));
        } else if is_vector_field(k) || is_string_field(k) {
            assert(is_vector_field(s.fields@[m as int]) || is_string_field(s.fields@[m as int]));
        } else {
            assert(!has_varying(s, n)) by {
                if has_varying(s, n) {
                    let j = choose|j: int| 0 <= j < n && (is_vector_field(#[trigger] s.fields@[j]) || is_string_field(s.fields@[j]));
                    if j < m {
                        assert(has_varying(s, m));
                    }
                }
            }
        }
    }
}

/// The two ways of deciding whether a layout may take the raw-pointer path
/// agree wherever its known size is not zero: the field analysis and the
/// size check both ask for a nonempty layout of primitives and byte arrays
/// of at most 256 bytes.
pub proof fn lemma_raw_support_agrees(s: Schema)
    requires
        known_size(s, s.fields@.len()) != Some(0nat),
    ensures
        spec_supports_raw(s) <==> (s.fields@.len() > 0 && !any_field(s, |k: FieldKind| is_bits_field(k))
            && !any_field(s, |k: FieldKind| is_vector_field(k)) && !any_field(
            s,
            |k: FieldKind| is_string_field(k),
        ) && (known_size(s, s.fields@.len()) matches Some(t) && t <= 256)),
{
    let n = s.fields@.len();
    lemma_raw_known(s, n);
    assert(has_varying(s, n) <==> (any_field(s, |k: FieldKind| is_vector_field(k)) || any_field(
        s,
        |k: FieldKind| is_string_field(k),
    ))) by {
        if has_varying(s, n) {
            let j = choose|j: int| 0 <= j < n && (is_vector_field(#[trigger] s.fields@[j]) || is_string_field(s.fields@[j]));
            if is_vector_field(s.fields@[j]) {
                assert(any_field(s, |k: FieldKind| is_vector_field(k)));
            } else {
                assert(any_field(s, |k: FieldKind| is_string_field(k)));
            }
        }
        if any_field(s, |k: FieldKind| is_vector_field(k)) {
            let j = choose|j: int| 0 <= j < n && (|k: FieldKind| is_vector_field(k))(#[trigger] s.fields@[j]);
            assert(is_vector_field(s.fields@[j]));
        }
        if any_field(s, |k: FieldKind| is_string_field(k)) {
            let j = choose|j: int| 0 <= j < n && (|k: FieldKind| is_string_field(k))(#[trigger] s.fields@[j]);
            assert(is_string_field(s.fields@[j]));
        }
    }
    if any_field(s, |k: FieldKind| is_bits_field(k)) {
        let j = choose|j: int| 0 <= j < n && (|k: FieldKind| is_bits_field(k))(#[trigger] s.fields@[j]);
        lemma_known_bits_none(s, j as nat);
        lemma_known_size_none(s, (j + 1) as nat, n);
    }
}

proof fn lemma_known_bits_none(s: Schema, j: nat)
    requires
        j < s.fields@.len(),
        is_bits_field(s.fields@[j as int]),
    ensures
        known_size(s, j + 1) is None,
{
}

} // verus!
