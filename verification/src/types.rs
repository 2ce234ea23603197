//! Rust types of fields as the derive reads them, and the field paths that
//! a struct offers to size expressions and `#[FromField]`.
use vstd::prelude::*;
use crate::attrs::int_literal;
use crate::enums::EnumDef;
use crate::resolve::TypeDesc;
use crate::schema::{PrimitiveType, Schema};
use crate::size_parse::{ExprTree, PathEntry, names_of, parse_expr, same_text};

verus! {

/// A Rust type as written.
#[derive(Debug, PartialEq, Eq)]
pub enum TypeTree {
    /// A path type: the name of its last segment and the generic arguments
    /// of that segment (an argument that is not a type is `Other`).
    Path(String, Vec<TypeTree>),
    /// `[elem; len]`: the element type and the text of the length.
    Array(Box<TypeTree>, String),
    /// Any other type.
    Other,
}

/// A type defined elsewhere that fields may have.
pub enum KnownKind {
    /// A struct with a layout.
    Struct(Schema),
    /// A fieldless enum.
    Enum(EnumDef),
}

/// A named type defined elsewhere.
pub struct KnownEntry {
    pub name: String,
    pub kind: KnownKind,
}

/// The primitive type that a name denotes.
pub open spec fn primitive_named(n: Seq<char>) -> Option<PrimitiveType> {
    if n == "u8"@ {
        Some(PrimitiveType::U8)
    } else if n == "u16"@ {
        Some(PrimitiveType::U16)
    } else if n == "u32"@ {
        Some(PrimitiveType::U32)
    } else if n == "u64"@ {
        Some(PrimitiveType::U64)
    } else if n == "u128"@ {
        Some(PrimitiveType::U128)
    } else if n == "i8"@ {
        Some(PrimitiveType::I8)
    } else if n == "i16"@ {
        Some(PrimitiveType::I16)
    } else if n == "i32"@ {
        Some(PrimitiveType::I32)
    } else if n == "i64"@ {
        Some(PrimitiveType::I64)
    } else if n == "i128"@ {
        Some(PrimitiveType::I128)
    } else if n == "f32"@ {
        Some(PrimitiveType::F32)
    } else if n == "f64"@ {
        Some(PrimitiveType::F64)
    } else if n == "bool"@ {
        Some(PrimitiveType::Bool)
    } else if n == "char"@ {
        Some(PrimitiveType::Char)
    } else {
        None
    }
}

/// The position of the first known type from the `i`-th on named `n`.
pub open spec fn first_known(known: Seq<KnownEntry>, n: Seq<char>, i: nat) -> Option<nat>
    decreases known.len() - i,
{
    if i >= known.len() {
        None
    } else if known[i as int].name@ == n {
        Some(i)
    } else {
        first_known(known, n, i + 1)
    }
}

/// The type that a known entry describes.
pub open spec fn known_desc(k: KnownKind) -> TypeDesc {
    match k {
        KnownKind::Struct(s) => TypeDesc::Struct(s),
        KnownKind::Enum(d) => TypeDesc::Enum(d),
    }
}

/// What the encoding needs of a type: primitives by name, `String`,
/// `Option<T>` and `Vec<T>` by their first argument, `[u8; N]` with a literal
/// length, and other names looked up among the known types.
pub open spec fn spec_describe(t: TypeTree, known: Seq<KnownEntry>) -> TypeDesc
    decreases t,
{
    match t {
        TypeTree::Path(name, args) => match primitive_named(name@) {
            Some(p) => TypeDesc::Primitive(p),
            None => if name@ == "String"@ {
                TypeDesc::Text
            } else if name@ == "Option"@ {
                if args@.len() > 0 {
                    TypeDesc::OptionOf(Box::new(spec_describe(args@[0], known)))
                } else {
                    TypeDesc::Unsupported
                }
            } else if name@ == "Vec"@ {
                if args@.len() > 0 {
                    TypeDesc::VecOf(Box::new(spec_describe(args@[0], known)))
                } else {
                    TypeDesc::Unsupported
                }
            } else {
                match first_known(known, name@, 0) {
                    Some(i) => known_desc(known[i as int].kind),
                    None => TypeDesc::Unsupported,
                }
            },
        },
        TypeTree::Array(elem, len) => if (match *elem {
            TypeTree::Path(n, _) => n@ == "u8"@,
            _ => false,
        }) {
            match int_literal(len@) {
                Some(n) => if n <= usize::MAX {
                    TypeDesc::ByteArray(n as usize)
                } else {
                    TypeDesc::Unsupported
                },
                None => TypeDesc::Unsupported,
            }
        } else {
            TypeDesc::Unsupported
        },
        TypeTree::Other => TypeDesc::Unsupported,
    }
}

fn primitive_of(n: &str) -> (r: Option<PrimitiveType>)
    ensures
        r == primitive_named(n@),
{
    if same_text(n, "u8") {
        Some(PrimitiveType::U8)
    } else if same_text(n, "u16") {
        Some(PrimitiveType::U16)
    } else if same_text(n, "u32") {
        Some(PrimitiveType::U32)
    } else if same_text(n, "u64") {
        Some(PrimitiveType::U64)
    } else if same_text(n, "u128") {
        Some(PrimitiveType::U128)
    } else if same_text(n, "i8") {
        Some(PrimitiveType::I8)
    } else if same_text(n, "i16") {
        Some(PrimitiveType::I16)
    } else if same_text(n, "i32") {
        Some(PrimitiveType::I32)
    } else if same_text(n, "i64") {
        Some(PrimitiveType::I64)
    } else if same_text(n, "i128") {
        Some(PrimitiveType::I128)
    } else if same_text(n, "f32") {
        Some(PrimitiveType::F32)
    } else if same_text(n, "f64") {
        Some(PrimitiveType::F64)
    } else if same_text(n, "bool") {
        Some(PrimitiveType::Bool)
    } else if same_text(n, "char") {
        Some(PrimitiveType::Char)
    } else {
        None
    }
}

/// The type that the first known entry named `name` describes.
fn take_known(known: Vec<KnownEntry>, name: &str) -> (d: TypeDesc)
    ensures
        d == match first_known(known@, name@, 0) {
            Some(i) => known_desc(known@[i as int].kind),
            None => TypeDesc::Unsupported,
        },
{
    let ghost k0 = known@;
    let n = known.len();
    let mut i: usize = 0;
    while i < n
        invariant
            i <= n,
            n == k0.len(),
            known@ == k0,
            first_known(k0, name@, 0) == first_known(k0, name@, i as nat),
        decreases n - i,
    {
        if same_text(known[i].name.as_str(), name) {
            assert(first_known(k0, name@, i as nat) == Some(i as nat));
            let mut known = known;
            let entry = known.remove(i);
            return match entry.kind {
                KnownKind::Struct(s) => TypeDesc::Struct(s),
                KnownKind::Enum(d) => TypeDesc::Enum(d),
            };
        }
        i = i + 1;
    }
    TypeDesc::Unsupported
}

/// Describes a field's type for the encoding, taking the description of a
/// named struct or enum from `known`.
pub fn describe_type(t: TypeTree, known: Vec<KnownEntry>) -> (d: TypeDesc)
    ensures
        d == spec_describe(t, known@),
    decreases t,
{
    match t {
        TypeTree::Path(name, args) => {
            let ghost args0 = args@;
            match primitive_of(name.as_str()) {
                Some(p) => TypeDesc::Primitive(p),
                None => if same_text(name.as_str(), "String") {
                    TypeDesc::Text
                } else if same_text(name.as_str(), "Option") || same_text(name.as_str(), "Vec") {
                    let is_option = same_text(name.as_str(), "Option");
                    if args.len() > 0 {
                        let mut args = args;
                        let first = args.remove(0);
                        assert(first == args0[0]);
                        let inner = describe_type(first, known);
                        if is_option {
                            TypeDesc::OptionOf(Box::new(inner))
                        } else {
                            TypeDesc::VecOf(Box::new(inner))
                        }
                    } else {
                        TypeDesc::Unsupported
                    }
                } else {
                    take_known(known, name.as_str())
                },
            }
        },
        TypeTree::Array(elem, len) => {
            let is_u8 = match &*elem {
                TypeTree::Path(n, _) => same_text(n.as_str(), "u8"),
                _ => false,
            };
            if is_u8 {
                match parse_expr(len.as_str()) {
                    Some(ExprTree::IntLit(n)) => if n <= usize::MAX as u128 {
                        TypeDesc::ByteArray(n as usize)
                    } else {
                        TypeDesc::Unsupported
                    },
                    _ => TypeDesc::Unsupported,
                }
            } else {
                TypeDesc::Unsupported
            }
        },
        TypeTree::Other => TypeDesc::Unsupported,
    }
}

/// A field of a struct as field paths see it: its name, and the paths that
/// its type offers in turn (those of a nested struct, else none).
pub struct ScopeField {
    pub name: String,
    pub inner: Vec<PathEntry>,
}

/// A path entry as names and positions.
pub open spec fn entry_view(e: PathEntry) -> (Seq<Seq<char>>, Seq<usize>) {
    (names_of(e.names@), e.positions@)
}

/// The paths that the field at position `i` offers: its own name, then
/// each path of its type behind its name.
pub open spec fn field_scope(f: ScopeField, i: usize) -> Seq<(Seq<Seq<char>>, Seq<usize>)> {
    seq![(seq![f.name@], seq![i])] + f.inner@.map_values(
        |e: PathEntry| (seq![f.name@] + names_of(e.names@), seq![i] + e.positions@),
    )
}

/// The paths that the first `n` fields offer, field by field.
pub open spec fn spec_scope(fields: Seq<ScopeField>, n: nat) -> Seq<(Seq<Seq<char>>, Seq<usize>)>
    decreases n,
{
    if n == 0 || n > fields.len() {
        Seq::empty()
    } else {
        spec_scope(fields, (n - 1) as nat) + field_scope(fields[n - 1], (n - 1) as usize)
    }
}

fn clone_names(ns: &Vec<String>, out: &mut Vec<String>)
    ensures
        names_of(final(out)@) == names_of(old(out)@) + names_of(ns@),
{
    let ghost start = out@;
    let mut i: usize = 0;
    while i < ns.len()
        invariant
            i <= ns@.len(),
            names_of(out@) == names_of(start) + names_of(ns@.subrange(0, i as int)),
        decreases ns@.len() - i,
    {
        let ghost before = out@;
        out.push(ns[i].clone());
        proof {
            assert(names_of(out@) =~= names_of(before).push(ns@[i as int]@));
            assert(names_of(ns@.subrange(0, i + 1)) =~= names_of(ns@.subrange(0, i as int)).push(
                ns@[i as int]@,
            ));
        }
        i = i + 1;
    }
    proof {
        assert(ns@.subrange(0, ns@.len() as int) =~= ns@);
    }
}

fn clone_positions(ps: &Vec<usize>, out: &mut Vec<usize>)
    ensures
        final(out)@ == old(out)@ + ps@,
{
    let ghost start = out@;
    let mut i: usize = 0;
    while i < ps.len()
        invariant
            i <= ps@.len(),
            out@ == start + ps@.subrange(0, i as int),
        decreases ps@.len() - i,
    {
        out.push(ps[i]);
        proof {
            assert(start + ps@.subrange(0, i + 1) =~= (start + ps@.subrange(0, i as int)).push(ps@[i as int]));
        }
        i = i + 1;
    }
    proof {
        assert(ps@.subrange(0, ps@.len() as int) =~= ps@);
    }
}

/// Every field path that a struct offers: each field by its name, and,
/// behind the name of a field, each path that its type offers.
pub fn scope_of(fields: &Vec<ScopeField>) -> (s: Vec<PathEntry>)
    ensures
        s@.map_values(|e: PathEntry| entry_view(e)) == spec_scope(fields@, fields@.len()),
{
    let mut out: Vec<PathEntry> = Vec::new();
    let n = fields.len();
    let mut i: usize = 0;
    while i < n
        invariant
            i <= n,
            n == fields@.len(),
            out@.map_values(|e: PathEntry| entry_view(e)) == spec_scope(fields@, i as nat),
        decreases n - i,
    {
        let f = &fields[i];
        let ghost before = out@.map_values(|e: PathEntry| entry_view(e));
        let mut names: Vec<String> = Vec::new();
        names.push(f.name.clone());
        let mut positions: Vec<usize> = Vec::new();
        positions.push(i);
        proof {
            assert(names_of(names@) =~= seq![f.name@]);
        }
        out.push(PathEntry { names, positions });
        proof {
            assert(out@.map_values(|e: PathEntry| entry_view(e)) =~= before + seq![
                (seq![f.name@], seq![i]),
            ]);
        }
        let m = f.inner.len();
        let mut j: usize = 0;
        while j < m
            invariant
                i < n,
                n == fields@.len(),
                f == fields@[i as int],
                j <= m,
                m == f.inner@.len(),
                out@.map_values(|e: PathEntry| entry_view(e)) == before + field_scope(*f, i).subrange(
                    0,
                    j + 1,
                ),
            decreases m - j,
        {
            let e = &f.inner[j];
            let mut names: Vec<String> = Vec::new();
            names.push(f.name.clone());
            proof {
                assert(names_of(names@) =~= seq![f.name@]);
            }
            clone_names(&e.names, &mut names);
            let mut positions: Vec<usize> = Vec::new();
            positions.push(i);
            clone_positions(&e.positions, &mut positions);
            let ghost mid = out@.map_values(|e: PathEntry| entry_view(e));
            out.push(PathEntry { names, positions });
            proof {
                assert(positions@ =~= seq![i] + e.positions@);
                assert(out@.map_values(|e: PathEntry| entry_view(e)) =~= mid.push(
                    field_scope(*f, i)[j + 1],
                ));
                assert(field_scope(*f, i).subrange(0, j + 2) =~= field_scope(*f, i).subrange(0, j + 1).push(
                    field_scope(*f, i)[j + 1],
                ));
            }
            j = j + 1;
        }
        proof {
            assert(field_scope(*f, i).subrange(0, m + 1) =~= field_scope(*f, i));
        }
        i = i + 1;
    }
    out
}

} // verus!
