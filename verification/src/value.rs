//! Field values, and the mathematical view that contracts speak of.
use vstd::prelude::*;

verus! {

/// The value of one field, as the encoder takes it and the decoder gives it.
///
/// Numbers are held as their bits: a signed integer in two's complement within
/// its width, a float by its IEEE bits, a `bool` as 0 or 1, a `char` as its
/// scalar value, an enum as its discriminant. A `String` is held as its UTF-8
/// bytes.
#[derive(Debug, PartialEq, Eq)]
pub enum Value {
    Num(u128),
    Opt(Option<u128>),
    OptBytes(Option<Vec<u8>>),
    Bytes(Vec<u8>),
    Struct(Vec<Value>),
    List(Vec<Value>),
    Segments(Vec<Vec<u8>>),
}

/// The mathematical view of a [`Value`].
pub enum ValueView {
    Num(u128),
    Opt(Option<u128>),
    OptBytes(Option<Seq<u8>>),
    Bytes(Seq<u8>),
    Struct(Seq<ValueView>),
    List(Seq<ValueView>),
    Segments(Seq<Seq<u8>>),
}

pub open spec fn view_value(v: Value) -> ValueView
    decreases v, 0nat,
{
    match v {
        Value::Num(n) => ValueView::Num(n),
        Value::Opt(o) => ValueView::Opt(o),
        Value::OptBytes(o) => ValueView::OptBytes(
            match o {
                Some(b) => Some(b@),
                None => None,
            },
        ),
        Value::Bytes(b) => ValueView::Bytes(b@),
        Value::Struct(vs) => ValueView::Struct(view_values(vs@)),
        Value::List(vs) => ValueView::List(view_values(vs@)),
        Value::Segments(segs) => ValueView::Segments(view_segments(segs@)),
    }
}

pub open spec fn view_values(s: Seq<Value>) -> Seq<ValueView>
    decreases s, s.len(),
{
    if s.len() == 0 {
        Seq::empty()
    } else {
        view_values(s.subrange(0, s.len() - 1)).push(view_value(s[s.len() - 1]))
    }
}

pub open spec fn view_segments(s: Seq<Vec<u8>>) -> Seq<Seq<u8>> {
    Seq::new(s.len(), |i: int| s[i]@)
}

impl View for Value {
    type V = ValueView;

    open spec fn view(&self) -> ValueView {
        view_value(*self)
    }
}

/// The views of a sequence of values are the values' views in order.
pub proof fn lemma_view_values(s: Seq<Value>)
    ensures
        view_values(s).len() == s.len(),
        forall|i: int| 0 <= i < s.len() ==> #[trigger] view_values(s)[i] == view_value(s[i]),
    decreases s.len(),
{
    if s.len() > 0 {
        lemma_view_values(s.subrange(0, s.len() - 1));
    }
}

/// Viewing a sequence with one more value at its end.
pub proof fn lemma_view_values_push(s: Seq<Value>, v: Value)
    ensures
        view_values(s.push(v)) == view_values(s).push(view_value(v)),
{
    assert(s.push(v).subrange(0, s.len() as int) =~= s);
}

/// The number that the earlier field at `path` holds: the first index picks a
/// field of `env`, and each further index a field of the struct before it.
pub open spec fn lookup(env: Seq<ValueView>, path: Seq<usize>) -> Option<u128>
    decreases path.len(),
{
    if path.len() == 0 || path[0] >= env.len() {
        None
    } else {
        match env[path[0] as int] {
            ValueView::Num(n) => if path.len() == 1 {
                Some(n)
            } else {
                None
            },
            ValueView::Struct(vs) => if path.len() > 1 {
                lookup(vs, path.drop_first())
            } else {
                None
            },
            _ => None,
        }
    }
}

/// Looks up the number at `path[start..]` among `env`.
pub fn lookup_path(env: &Vec<Value>, path: &Vec<usize>, start: usize) -> (r: Option<u128>)
    requires
        start <= path@.len(),
    ensures
        r == lookup(view_values(env@), path@.subrange(start as int, path@.len() as int)),
    decreases path@.len() - start,
{
    proof {
        lemma_view_values(env@);
    }
    let ghost rest = path@.subrange(start as int, path@.len() as int);
    if start >= path.len() {
        return None;
    }
    let i = path[start];
    if i >= env.len() {
        return None;
    }
    match &env[i] {
        Value::Num(n) => {
            if start + 1 == path.len() {
                Some(*n)
            } else {
                None
            }
        },
        Value::Struct(vs) => {
            if start + 1 < path.len() {
                assert(rest.drop_first() =~= path@.subrange(start + 1, path@.len() as int));
                lookup_path(vs, path, start + 1)
            } else {
                None
            }
        },
        _ => None,
    }
}

} // verus!
