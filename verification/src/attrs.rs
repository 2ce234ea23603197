//! The attributes of a field: `#[bits(..)]`, `#[With(size(..))]`,
//! `#[size(..)]`, `#[FromField(..)]`, `#[UntilMarker(..)]` and
//! `#[AfterMarker(..)]`, read from their text.
use vstd::prelude::*;
use crate::resolve::{FieldAttrs, MarkerAttr};
use crate::size_expr::{FieldPath, SizeExpression};
use crate::size_parse::{
    ExprTree, PathEntry, SizeExprError, SizeExprView, parse_expr, path_names, path_names_of,
    resolve_field_path, resolve_spec, same_text, size_expression_from, spec_parse_expr,
    spec_size_expression, view_expr,
};
use crate::validate::BitsAttr;

verus! {

/// An attribute as written on a field.
#[derive(Debug, PartialEq, Eq)]
pub enum AttrTree {
    /// `#[name]`
    Path(String),
    /// `#[name(tokens)]`: the name and the text of the tokens.
    List(String, String),
    /// `#[name = value]`
    NameValue(String),
}

/// Why an attribute was refused.
#[derive(Clone, Copy, Debug, PartialEq, Eq)]
pub enum AttrError {
    /// `#[bits(..)]` holds something other than an integer literal.
    MalformedBits,
    /// `#[bits = ..]`
    BitsNameValue,
    /// `#[With]` without parentheses.
    WithForm,
    /// `#[With(..)]` holds something other than `size(..)`.
    WithOnlySize,
    /// `#[size]` without parentheses.
    SizeForm,
    /// The size expression of `#[With(size(..))]` or `#[size(..)]`.
    SizeExpr(SizeExprError),
    /// `#[FromField]` without parentheses, or holding no field path.
    FromFieldPath,
    /// `#[FromField(..)]` names no field that the struct offers.
    UnknownField,
    /// A marker attribute without a byte literal.
    MarkerForm,
}

/// What one attribute says of its field.
pub enum AttrEffect {
    Nothing,
    Bits(Option<usize>),
    Size(usize),
    Expr(SizeExprView),
    From(Seq<usize>),
    Marker(MarkerAttr),
}

/// The mathematical form of [`FieldAttrs`].
pub struct FieldAttrsView {
    pub bits: Option<Option<usize>>,
    pub size: Option<usize>,
    pub from_field: Option<Seq<usize>>,
    pub size_expression: Option<SizeExprView>,
    pub marker: Option<MarkerAttr>,
}

pub open spec fn view_attrs(a: FieldAttrs) -> FieldAttrsView {
    FieldAttrsView {
        bits: a.bits,
        size: a.size,
        from_field: match a.from_field {
            Some(p) => Some(p.segments@),
            None => None,
        },
        size_expression: match a.size_expression {
            Some(x) => Some(view_expr(x)),
            None => None,
        },
        marker: a.marker,
    }
}

pub open spec fn no_attrs_view() -> FieldAttrsView {
    FieldAttrsView { bits: None, size: None, from_field: None, size_expression: None, marker: None }
}

/// The integer that the text of an attribute is, if it is an integer
/// literal.
pub open spec fn int_literal(text: Seq<char>) -> Option<u128> {
    match spec_parse_expr(text) {
        Some(ExprTree::IntLit(n)) => Some(n),
        _ => None,
    }
}

/// A size expression as an attribute's effect.
pub open spec fn expr_effect(x: ExprTree, scope: Seq<PathEntry>) -> Result<AttrEffect, AttrError> {
    match spec_size_expression(x, scope) {
        Ok(v) => Ok(AttrEffect::Expr(v)),
        Err(e) => Err(AttrError::SizeExpr(e)),
    }
}

/// The argument of `size(arg)`, if the tree is that call.
pub open spec fn size_call_arg(t: ExprTree) -> Option<ExprTree> {
    match t {
        ExprTree::Call(f, args) => if path_names(*f) == Some(seq!["size"@]) && args@.len() == 1 {
            Some(args@[0])
        } else {
            None
        },
        _ => None,
    }
}

/// What one attribute says, or why it is refused. Attributes with other
/// names say nothing.
pub open spec fn attr_effect(a: AttrTree, scope: Seq<PathEntry>) -> Result<AttrEffect, AttrError> {
    match a {
        AttrTree::Path(name) => if name@ == "bits"@ {
            Ok(AttrEffect::Bits(None))
        } else if name@ == "With"@ {
            Err(AttrError::WithForm)
        } else if name@ == "size"@ {
            Err(AttrError::SizeForm)
        } else if name@ == "FromField"@ {
            Err(AttrError::FromFieldPath)
        } else if name@ == "UntilMarker"@ || name@ == "AfterMarker"@ {
            Err(AttrError::MarkerForm)
        } else {
            Ok(AttrEffect::Nothing)
        },
        AttrTree::NameValue(name) => if name@ == "bits"@ {
            Err(AttrError::BitsNameValue)
        } else if name@ == "With"@ {
            Err(AttrError::WithForm)
        } else if name@ == "size"@ {
            Err(AttrError::SizeForm)
        } else if name@ == "FromField"@ {
            Err(AttrError::FromFieldPath)
        } else if name@ == "UntilMarker"@ || name@ == "AfterMarker"@ {
            Err(AttrError::MarkerForm)
        } else {
            Ok(AttrEffect::Nothing)
        },
        AttrTree::List(name, text) => if name@ == "bits"@ {
            if text@.len() == 0 {
                Ok(AttrEffect::Bits(None))
            } else {
                match int_literal(text@) {
                    Some(n) => if n <= usize::MAX {
                        Ok(AttrEffect::Bits(Some(n as usize)))
                    } else {
                        Err(AttrError::MalformedBits)
                    },
                    None => Err(AttrError::MalformedBits),
                }
            }
        } else if name@ == "With"@ {
            match spec_parse_expr(text@) {
                Some(t) => match size_call_arg(t) {
                    Some(arg) => match arg {
                        ExprTree::IntLit(n) => if n <= usize::MAX {
                            Ok(AttrEffect::Size(n as usize))
                        } else {
                            expr_effect(arg, scope)
                        },
                        _ => expr_effect(arg, scope),
                    },
                    None => Err(AttrError::WithOnlySize),
                },
                None => Err(AttrError::WithOnlySize),
            }
        } else if name@ == "size"@ {
            match spec_parse_expr(text@) {
                Some(t) => expr_effect(t, scope),
                None => Err(AttrError::SizeExpr(SizeExprError::ParseFailed)),
            }
        } else if name@ == "FromField"@ {
            match spec_parse_expr(text@) {
                Some(t) => match path_names(t) {
                    Some(ns) => match resolve_spec(scope, ns) {
                        Some(p) => Ok(AttrEffect::From(p)),
                        None => Err(AttrError::UnknownField),
                    },
                    None => Err(AttrError::FromFieldPath),
                },
                None => Err(AttrError::FromFieldPath),
            }
        } else if name@ == "UntilMarker"@ || name@ == "AfterMarker"@ {
            match int_literal(text@) {
                Some(n) => if n <= 255 {
                    Ok(
                        AttrEffect::Marker(
                            if name@ == "UntilMarker"@ {
                                MarkerAttr::Until(n as u8)
                            } else {
                                MarkerAttr::After(n as u8)
                            },
                        ),
                    )
                } else {
                    Err(AttrError::MarkerForm)
                },
                None => Err(AttrError::MarkerForm),
            }
        } else {
            Ok(AttrEffect::Nothing)
        },
    }
}

/// The attributes after one more effect: a later attribute replaces what
/// an earlier one said of the same thing.
pub open spec fn apply_effect(v: FieldAttrsView, eff: AttrEffect) -> FieldAttrsView {
    match eff {
        AttrEffect::Nothing => v,
        AttrEffect::Bits(w) => FieldAttrsView { bits: Some(w), ..v },
        AttrEffect::Size(n) => FieldAttrsView { size: Some(n), ..v },
        AttrEffect::Expr(x) => FieldAttrsView { size_expression: Some(x), ..v },
        AttrEffect::From(p) => FieldAttrsView { from_field: Some(p), ..v },
        AttrEffect::Marker(m) => FieldAttrsView { marker: Some(m), ..v },
    }
}

/// The attributes that the first `n` attributes say, and the errors among
/// them in order.
pub open spec fn fold_attrs(attrs: Seq<AttrTree>, scope: Seq<PathEntry>, n: nat) -> (
    FieldAttrsView,
    Seq<AttrError>,
)
    decreases n,
{
    if n == 0 || n > attrs.len() {
        (no_attrs_view(), Seq::empty())
    } else {
        let (v, es) = fold_attrs(attrs, scope, (n - 1) as nat);
        match attr_effect(attrs[n - 1], scope) {
            Ok(eff) => (apply_effect(v, eff), es),
            Err(e) => (v, es.push(e)),
        }
    }
}

/// What the attributes of a field say, or every error among them in order.
pub open spec fn spec_field_attrs(attrs: Seq<AttrTree>, scope: Seq<PathEntry>) -> Result<
    FieldAttrsView,
    Seq<AttrError>,
> {
    let (v, es) = fold_attrs(attrs, scope, attrs.len());
    if es.len() == 0 {
        Ok(v)
    } else {
        Err(es)
    }
}

/// The `#[bits]` attribute of a field for the byte-completeness check: the
/// first attribute named `bits`, if any.
pub open spec fn spec_bits_attr(attrs: Seq<AttrTree>, i: nat) -> Option<BitsAttr>
    decreases attrs.len() - i,
{
    if i >= attrs.len() {
        None
    } else {
        match attrs[i as int] {
            AttrTree::List(name, text) => if name@ == "bits"@ {
                Some(
                    if text@.len() == 0 {
                        BitsAttr::Auto
                    } else {
                        match int_literal(text@) {
                            Some(n) => if n <= usize::MAX {
                                BitsAttr::Width(n as usize)
                            } else {
                                BitsAttr::Malformed
                            },
                            None => BitsAttr::Malformed,
                        }
                    },
                )
            } else {
                spec_bits_attr(attrs, i + 1)
            },
            AttrTree::Path(name) => if name@ == "bits"@ {
                Some(BitsAttr::Malformed)
            } else {
                spec_bits_attr(attrs, i + 1)
            },
            AttrTree::NameValue(name) => if name@ == "bits"@ {
                Some(BitsAttr::Malformed)
            } else {
                spec_bits_attr(attrs, i + 1)
            },
        }
    }
}

/// The integer literal that `text` is, if it is one.
fn int_literal_of(text: &str) -> (r: Option<u128>)
    ensures
        r == int_literal(text@),
{
    match parse_expr(text) {
        Some(ExprTree::IntLit(n)) => Some(n),
        _ => None,
    }
}

/// The exec form of [`AttrEffect`].
enum Effect {
    Nothing,
    Bits(Option<usize>),
    Size(usize),
    Expr(SizeExpression),
    From(Vec<usize>),
    Marker(MarkerAttr),
}

spec fn view_effect(e: Effect) -> AttrEffect {
    match e {
        Effect::Nothing => AttrEffect::Nothing,
        Effect::Bits(w) => AttrEffect::Bits(w),
        Effect::Size(n) => AttrEffect::Size(n),
        Effect::Expr(x) => AttrEffect::Expr(view_expr(x)),
        Effect::From(p) => AttrEffect::From(p@),
        Effect::Marker(m) => AttrEffect::Marker(m),
    }
}

fn expr_effect_of(x: &ExprTree, scope: &Vec<PathEntry>) -> (r: Result<Effect, AttrError>)
    ensures
        match r {
            Ok(e) => expr_effect(*x, scope@) == Ok::<AttrEffect, AttrError>(view_effect(e)),
            Err(e) => expr_effect(*x, scope@) == Err::<AttrEffect, AttrError>(e),
        },
{
    match size_expression_from(x, scope) {
        Ok(v) => Ok(Effect::Expr(v)),
        Err(e) => Err(AttrError::SizeExpr(e)),
    }
}

fn is_size_name(f: &ExprTree) -> (r: bool)
    ensures
        r == (path_names(*f) == Some(seq!["size"@])),
{
    match path_names_of(f) {
        Some(ns) => {
            if ns.len() == 1 && same_text(ns[0].as_str(), "size") {
                proof {
                    assert(crate::size_parse::names_of(ns@) =~= seq!["size"@]);
                }
                true
            } else {
                proof {
                    if ns@.len() == 1 {
                        assert(crate::size_parse::names_of(ns@)[0] != "size"@);
                    } else {
                        assert(crate::size_parse::names_of(ns@).len() != 1);
                    }
                }
                false
            }
        },
        None => false,
    }
}

/// What one attribute says, or why it is refused.
fn attr_effect_of(a: &AttrTree, scope: &Vec<PathEntry>) -> (r: Result<Effect, AttrError>)
    ensures
        match r {
            Ok(e) => attr_effect(*a, scope@) == Ok::<AttrEffect, AttrError>(view_effect(e)),
            Err(e) => attr_effect(*a, scope@) == Err::<AttrEffect, AttrError>(e),
        },
{
    match a {
        AttrTree::Path(name) => {
            let n = name.as_str();
            if same_text(n, "bits") {
                Ok(Effect::Bits(None))
            } else if same_text(n, "With") {
                Err(AttrError::WithForm)
            } else if same_text(n, "size") {
                Err(AttrError::SizeForm)
            } else if same_text(n, "FromField") {
                Err(AttrError::FromFieldPath)
            } else if same_text(n, "UntilMarker") || same_text(n, "AfterMarker") {
                Err(AttrError::MarkerForm)
            } else {
                Ok(Effect::Nothing)
            }
        },
        AttrTree::NameValue(name) => {
            let n = name.as_str();
            if same_text(n, "bits") {
                Err(AttrError::BitsNameValue)
            } else if same_text(n, "With") {
                Err(AttrError::WithForm)
            } else if same_text(n, "size") {
                Err(AttrError::SizeForm)
            } else if same_text(n, "FromField") {
                Err(AttrError::FromFieldPath)
            } else if same_text(n, "UntilMarker") || same_text(n, "AfterMarker") {
                Err(AttrError::MarkerForm)
            } else {
                Ok(Effect::Nothing)
            }
        },
        AttrTree::List(name, text) => {
            let n = name.as_str();
            let t = text.as_str();
            if same_text(n, "bits") {
                if t.is_empty() {
                    Ok(Effect::Bits(None))
                } else {
                    match int_literal_of(t) {
                        Some(w) => if w <= usize::MAX as u128 {
                            Ok(Effect::Bits(Some(w as usize)))
                        } else {
                            Err(AttrError::MalformedBits)
                        },
                        None => Err(AttrError::MalformedBits),
                    }
                }
            } else if same_text(n, "With") {
                match parse_expr(t) {
                    Some(tree) => match &tree {
                        ExprTree::Call(f, args) => {
                            if is_size_name(f) && args.len() == 1 {
                                match &args[0] {
                                    ExprTree::IntLit(v) => if *v <= usize::MAX as u128 {
                                        Ok(Effect::Size(*v as usize))
                                    } else {
                                        expr_effect_of(&args[0], scope)
                                    },
                                    _ => expr_effect_of(&args[0], scope),
                                }
                            } else {
                                Err(AttrError::WithOnlySize)
                            }
                        },
                        _ => Err(AttrError::WithOnlySize),
                    },
                    None => Err(AttrError::WithOnlySize),
                }
            } else if same_text(n, "size") {
                match parse_expr(t) {
                    Some(tree) => expr_effect_of(&tree, scope),
                    None => Err(AttrError::SizeExpr(SizeExprError::ParseFailed)),
                }
            } else if same_text(n, "FromField") {
                match parse_expr(t) {
                    Some(tree) => match path_names_of(&tree) {
                        Some(ns) => match resolve_field_path(&ns, scope) {
                            Some(p) => Ok(Effect::From(p)),
                            None => Err(AttrError::UnknownField),
                        },
                        None => Err(AttrError::FromFieldPath),
                    },
                    None => Err(AttrError::FromFieldPath),
                }
            } else if same_text(n, "UntilMarker") || same_text(n, "AfterMarker") {
                match int_literal_of(t) {
                    Some(m) => if m <= 255 {
                        if same_text(n, "UntilMarker") {
                            Ok(Effect::Marker(MarkerAttr::Until(m as u8)))
                        } else {
                            Ok(Effect::Marker(MarkerAttr::After(m as u8)))
                        }
                    } else {
                        Err(AttrError::MarkerForm)
                    },
                    None => Err(AttrError::MarkerForm),
                }
            } else {
                Ok(Effect::Nothing)
            }
        },
    }
}

/// Reads the attributes of a field, resolving field names against the
/// fields that the struct offers: what they say, a later attribute
/// replacing what an earlier one said of the same thing, or every error
/// among them in order.
pub fn field_attrs(attrs: &Vec<AttrTree>, scope: &Vec<PathEntry>) -> (r: Result<
    FieldAttrs,
    Vec<AttrError>,
>)
    ensures
        match r {
            Ok(a) => spec_field_attrs(attrs@, scope@) == Ok::<FieldAttrsView, Seq<AttrError>>(
                view_attrs(a),
            ),
            Err(es) => spec_field_attrs(attrs@, scope@) == Err::<FieldAttrsView, Seq<AttrError>>(
                es@,
            ),
        },
{
    let mut out = FieldAttrs { bits: None, size: None, from_field: None, size_expression: None, marker: None };
    let mut errs: Vec<AttrError> = Vec::new();
    let n = attrs.len();
    let mut i: usize = 0;
    while i < n
        invariant
            i <= n,
            n == attrs@.len(),
            fold_attrs(attrs@, scope@, i as nat) == (view_attrs(out), errs@),
        decreases n - i,
    {
        match attr_effect_of(&attrs[i], scope) {
            Ok(eff) => match eff {
                Effect::Nothing => {},
                Effect::Bits(w) => out.bits = Some(w),
                Effect::Size(s) => out.size = Some(s),
                Effect::Expr(x) => out.size_expression = Some(x),
                Effect::From(p) => out.from_field = Some(FieldPath { segments: p }),
                Effect::Marker(m) => out.marker = Some(m),
            },
            Err(e) => errs.push(e),
        }
        i = i + 1;
    }
    if errs.len() == 0 {
        Ok(out)
    } else {
        Err(errs)
    }
}

/// The `#[bits]` attribute of a field for the byte-completeness check: the
/// first attribute named `bits`, if any.
pub fn bits_attr(attrs: &Vec<AttrTree>) -> (r: Option<BitsAttr>)
    ensures
        r == spec_bits_attr(attrs@, 0),
{
    let n = attrs.len();
    let mut i: usize = 0;
    while i < n
        invariant
            i <= n,
            n == attrs@.len(),
            spec_bits_attr(attrs@, 0) == spec_bits_attr(attrs@, i as nat),
        decreases n - i,
    {
        match &attrs[i] {
            AttrTree::List(name, text) => {
                if same_text(name.as_str(), "bits") {
                    let t = text.as_str();
                    if t.is_empty() {
                        return Some(BitsAttr::Auto);
                    }
                    return Some(
                        match int_literal_of(t) {
                            Some(w) => if w <= usize::MAX as u128 {
                                BitsAttr::Width(w as usize)
                            } else {
                                BitsAttr::Malformed
                            },
                            None => BitsAttr::Malformed,
                        },
                    );
                }
            },
            AttrTree::Path(name) | AttrTree::NameValue(name) => {
                if same_text(name.as_str(), "bits") {
                    return Some(BitsAttr::Malformed);
                }
            },
        }
        i = i + 1;
    }
    None
}

} // verus!
