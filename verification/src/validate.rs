//! The checks that a struct's layout must pass before any code is derived
//! for it: bit fields complete whole bytes, and each field's attributes fit
//! its type and position.
use vstd::prelude::*;
use crate::schema::{FieldKind, PrimitiveType, Schema, SizeSpec};

verus! {

/// A `#[bits]` attribute as written on a field.
#[derive(Clone, Copy, Debug, PartialEq, Eq, Structural)]
pub enum BitsAttr {
    /// `#[bits()]`: the width is taken from the field's type later.
    Auto,
    /// `#[bits(N)]`
    Width(usize),
    /// An argument that is not a number.
    Malformed,
}

/// Why the bit fields of a struct were refused.
#[derive(Clone, Copy, Debug, PartialEq, Eq, Structural)]
pub enum CompletenessError {
    /// The `#[bits]` attribute of field `index` asks for no bit at all.
    ZeroWidth { index: usize },
    /// The `#[bits]` attribute of field `index` has no number.
    Malformed { index: usize },
    /// A run of bit fields adds up to `total_bits`, `missing_bits` short of a
    /// byte.
    Incomplete { total_bits: usize, missing_bits: usize },
}

/// The verdict at the end of a run of bit fields whose widths add up to
/// `total`, where `auto` says whether the run holds an automatic width.
pub open spec fn run_end(total: nat, auto: bool) -> Result<(), CompletenessError> {
    if auto || total % 8 == 0 {
        Ok(())
    } else {
        Err(
            CompletenessError::Incomplete {
                total_bits: total as usize,
                missing_bits: (8 - total % 8) as usize,
            },
        )
    }
}

/// The verdict on the fields from the `i`-th on, where the current run of
/// bit fields adds up to `total` so far and `auto` says whether it holds an
/// automatic width. A field without `#[bits]` (`None`) ends the run.
pub open spec fn completeness_from(
    attrs: Seq<Option<BitsAttr>>,
    i: nat,
    total: nat,
    auto: bool,
) -> Result<(), CompletenessError>
    decreases attrs.len() - i,
{
    if i >= attrs.len() {
        run_end(total, auto)
    } else {
        match attrs[i as int] {
            None => match run_end(total, auto) {
                Ok(()) => completeness_from(attrs, i + 1, 0, false),
                Err(x) => Err(x),
            },
            Some(BitsAttr::Auto) => completeness_from(attrs, i + 1, total, true),
            Some(BitsAttr::Width(n)) => if n == 0 {
                Err(CompletenessError::ZeroWidth { index: i as usize })
            } else {
                completeness_from(attrs, i + 1, total + n as nat, auto)
            },
            Some(BitsAttr::Malformed) => Err(CompletenessError::Malformed { index: i as usize }),
        }
    }
}

/// The sum of the widths written from the `i`-th field on.
pub open spec fn widths_from(attrs: Seq<Option<BitsAttr>>, i: nat) -> nat
    decreases attrs.len() - i,
{
    if i >= attrs.len() {
        0
    } else {
        match attrs[i as int] {
            Some(BitsAttr::Width(n)) => n as nat + widths_from(attrs, i + 1),
            _ => widths_from(attrs, i + 1),
        }
    }
}

/// Checks that the bit fields of a struct complete whole bytes: given, for
/// each field in order, its `#[bits]` attribute if it has one, each width
/// is at least one, and each run of consecutive bit fields without an
/// automatic width adds up to a multiple of eight before the next field
/// that is not a bit field.
pub fn validate_byte_completeness(attrs: &Vec<Option<BitsAttr>>) -> (r: Result<
    (),
    CompletenessError,
>)
    requires
        widths_from(attrs@, 0) <= usize::MAX,
    ensures
        r == completeness_from(attrs@, 0, 0, false),
{
    let n = attrs.len();
    let mut total: usize = 0;
    let mut auto = false;
    let mut i: usize = 0;
    while i < n
        invariant
            i <= n,
            n == attrs@.len(),
            total + widths_from(attrs@, i as nat) <= widths_from(attrs@, 0),
            widths_from(attrs@, 0) <= usize::MAX,
            completeness_from(attrs@, i as nat, total as nat, auto) == completeness_from(
                attrs@,
                0,
                0,
                false,
            ),
        decreases n - i,
    {
        match attrs[i] {
            None => {
                if !auto && total % 8 != 0 {
                    return Err(
                        CompletenessError::Incomplete {
                            total_bits: total,
                            missing_bits: 8 - total % 8,
                        },
                    );
                }
                total = 0;
                auto = false;
            },
            Some(BitsAttr::Auto) => {
                auto = true;
            },
            Some(BitsAttr::Width(w)) => {
                if w == 0 {
                    return Err(CompletenessError::ZeroWidth { index: i });
                }
                total = total + w;
            },
            Some(BitsAttr::Malformed) => {
                return Err(CompletenessError::Malformed { index: i });
            },
        }
        i = i + 1;
    }
    if !auto && total % 8 != 0 {
        return Err(CompletenessError::Incomplete { total_bits: total, missing_bits: 8 - total % 8 });
    }
    Ok(())
}

/// Why a field cannot stand where it stands.
#[derive(Clone, Copy, Debug, PartialEq, Eq, Structural)]
pub enum FieldError {
    /// `#[bits]` on a type that has no bits to give (a float or a `bool`).
    UnsupportedBitsType { index: usize },
    /// A `#[bits(N)]` field wider than its type.
    BitsTooWide { index: usize },
    /// A vector or string without a size that is not the last field.
    UnboundedNotLast { index: usize },
    /// A vector of structs without a count that is not the last field.
    MissingVectorSize { index: usize },
}

/// What is wrong with the `i`-th field of a struct of `n` fields, if
/// anything.
pub open spec fn field_error(k: FieldKind, i: nat, n: nat) -> Option<FieldError> {
    let last = i + 1 == n;
    match k {
        FieldKind::Bits(ty, w) => match ty.spec_max_bits() {
            None => Some(FieldError::UnsupportedBitsType { index: i as usize }),
            Some(m) => if w > m {
                Some(FieldError::BitsTooWide { index: i as usize })
            } else {
                None
            },
        },
        FieldKind::Bytes(SizeSpec::Rest) => if last {
            None
        } else {
            Some(FieldError::UnboundedNotLast { index: i as usize })
        },
        FieldKind::Text(SizeSpec::Rest) => if last {
            None
        } else {
            Some(FieldError::UnboundedNotLast { index: i as usize })
        },
        FieldKind::List(_, None) => if last {
            None
        } else {
            Some(FieldError::MissingVectorSize { index: i as usize })
        },
        _ => None,
    }
}

/// The errors of the fields from the `i`-th on, in order.
pub open spec fn field_errors_from(ks: Seq<FieldKind>, i: nat) -> Seq<FieldError>
    decreases ks.len() - i,
{
    if i >= ks.len() {
        Seq::empty()
    } else {
        let rest = field_errors_from(ks, i + 1);
        match field_error(ks[i as int], i, ks.len()) {
            Some(x) => seq![x] + rest,
            None => rest,
        }
    }
}

fn check_field(k: &FieldKind, i: usize, n: usize) -> (r: Option<FieldError>)
    requires
        i < n,
    ensures
        r == field_error(*k, i as nat, n as nat),
{
    let last = i + 1 == n;
    match k {
        FieldKind::Bits(ty, w) => match ty.max_bits() {
            None => Some(FieldError::UnsupportedBitsType { index: i }),
            Some(m) => if *w > m {
                Some(FieldError::BitsTooWide { index: i })
            } else {
                None
            },
        },
        FieldKind::Bytes(SizeSpec::Rest) | FieldKind::Text(SizeSpec::Rest) => if last {
            None
        } else {
            Some(FieldError::UnboundedNotLast { index: i })
        },
        FieldKind::List(_, None) => if last {
            None
        } else {
            Some(FieldError::MissingVectorSize { index: i })
        },
        _ => None,
    }
}

/// Every error of a struct's fields, in field order; empty where the layout
/// can be derived.
pub fn validate_fields(s: &Schema) -> (errs: Vec<FieldError>)
    ensures
        errs@ == field_errors_from(s.fields@, 0),
{
    let n = s.fields.len();
    let mut errs: Vec<FieldError> = Vec::new();
    let mut i: usize = n;
    while i > 0
        invariant
            i <= n,
            n == s.fields@.len(),
            errs@ == field_errors_from(s.fields@, i as nat),
        decreases i,
    {
        i = i - 1;
        match check_field(&s.fields[i], i, n) {
            Some(x) => {
                let mut front: Vec<FieldError> = Vec::new();
                front.push(x);
                front.append(&mut errs);
                errs = front;
            },
            None => {},
        }
    }
    errs
}

proof fn lemma_errors_collect(ks: Seq<FieldKind>, start: nat)
    ensures
        forall|i: int|
            start <= i < ks.len() && #[trigger] field_error(ks[i], i as nat, ks.len()) is Some
                ==> field_errors_from(ks, start).contains(field_error(ks[i], i as nat, ks.len())->0),
    decreases ks.len() - start,
{
    if start < ks.len() {
        lemma_errors_collect(ks, start + 1);
        let rest = field_errors_from(ks, start + 1);
        let all = field_errors_from(ks, start);
        assert forall|i: int|
            start <= i < ks.len() && #[trigger] field_error(ks[i], i as nat, ks.len()) is Some
                implies all.contains(field_error(ks[i], i as nat, ks.len())->0) by {
            let x = field_error(ks[i], i as nat, ks.len())->0;
            if i == start {
                assert(all[0] == x);
            } else {
                assert(rest.contains(x));
                let k = choose|k: int| 0 <= k < rest.len() && rest[k] == x;
                match field_error(ks[start as int], start, ks.len()) {
                    Some(y) => assert(all[k + 1] == x),
                    None => assert(all[k] == x),
                }
            }
        }
    }
}

/// A layout's fields are checked against their positions: every field
/// before the last that takes the rest of the input (a vector or string
/// without a size) is reported as `UnboundedNotLast`, every vector of
/// structs before the last without a count as `MissingVectorSize`, and
/// every bit field wider than its type as `BitsTooWide`. So a layout that
/// passes has no such field.
pub proof fn lemma_position_rules(ks: Seq<FieldKind>)
    ensures
        forall|i: int|
            0 <= i < ks.len() - 1 && (#[trigger] ks[i] matches FieldKind::Bytes(SizeSpec::Rest)
                || ks[i] matches FieldKind::Text(SizeSpec::Rest)) ==> field_errors_from(ks, 0).contains(
                FieldError::UnboundedNotLast { index: i as usize },
            ),
        forall|i: int|
            0 <= i < ks.len() - 1 && (#[trigger] ks[i] matches FieldKind::List(_, None))
                ==> field_errors_from(ks, 0).contains(FieldError::MissingVectorSize { index: i as usize }),
        forall|i: int|
            0 <= i < ks.len() && (#[trigger] ks[i] matches FieldKind::Bits(ty, w) && ty.spec_max_bits() matches Some(m) && w > m)
                ==> field_errors_from(ks, 0).contains(FieldError::BitsTooWide { index: i as usize }),
        field_errors_from(ks, 0).len() == 0 ==> forall|i: int|
            0 <= i < ks.len() - 1 ==> !(#[trigger] ks[i] matches FieldKind::Bytes(SizeSpec::Rest))
                && !(ks[i] matches FieldKind::Text(SizeSpec::Rest)) && !(ks[i] matches FieldKind::List(_, None)),
{
    lemma_errors_collect(ks, 0);
    let errs = field_errors_from(ks, 0);
    assert forall|i: int|
        0 <= i < ks.len() - 1 && (#[trigger] ks[i] matches FieldKind::Bytes(SizeSpec::Rest)
            || ks[i] matches FieldKind::Text(SizeSpec::Rest)) implies errs.contains(
            FieldError::UnboundedNotLast { index: i as usize },
        ) by {
        assert(field_error(ks[i], i as nat, ks.len()) is Some);
    }
    assert forall|i: int|
        0 <= i < ks.len() - 1 && (#[trigger] ks[i] matches FieldKind::List(_, None)) implies errs.contains(
            FieldError::MissingVectorSize { index: i as usize },
        ) by {
        assert(field_error(ks[i], i as nat, ks.len()) is Some);
    }
    assert forall|i: int|
        0 <= i < ks.len() && (#[trigger] ks[i] matches FieldKind::Bits(ty, w) && ty.spec_max_bits() matches Some(m) && w > m)
            implies errs.contains(FieldError::BitsTooWide { index: i as usize }) by {
        assert(field_error(ks[i], i as nat, ks.len()) is Some);
    }
    if errs.len() == 0 {
        assert forall|i: int| 0 <= i < ks.len() - 1 implies !(#[trigger] ks[i] matches FieldKind::Bytes(
            SizeSpec::Rest,
        )) && !(ks[i] matches FieldKind::Text(SizeSpec::Rest)) && !(ks[i] matches FieldKind::List(_, None)) by {
            if ks[i] matches FieldKind::Bytes(SizeSpec::Rest) || ks[i] matches FieldKind::Text(SizeSpec::Rest)
                || ks[i] matches FieldKind::List(_, None) {
                assert(field_error(ks[i], i as nat, ks.len()) is Some);
                assert(errs.contains(field_error(ks[i], i as nat, ks.len())->0));
            }
        }
    }
}

/// The sum of the widths of the fields from the `k`-th up to the `j`-th.
pub open spec fn run_sum(attrs: Seq<Option<BitsAttr>>, k: nat, j: nat) -> nat
    decreases j - k,
{
    if j <= k {
        0
    } else {
        run_sum(attrs, k, (j - 1) as nat) + match attrs[j - 1] {
            Some(BitsAttr::Width(n)) => n as nat,
            _ => 0,
        }
    }
}

/// Fields `k` up to `j` are bit fields of explicit nonzero widths.
pub open spec fn width_run(attrs: Seq<Option<BitsAttr>>, k: nat, j: nat) -> bool {
    &&& k <= j <= attrs.len()
    &&& forall|i: int| k <= i < j ==> (#[trigger] attrs[i] matches Some(BitsAttr::Width(n)) && n > 0)
}

proof fn lemma_run_walk(attrs: Seq<Option<BitsAttr>>, k: nat, j: nat, t: nat, au: bool)
    requires
        width_run(attrs, k, j),
    ensures
        completeness_from(attrs, k, t, au) == completeness_from(attrs, j, t + run_sum(attrs, k, j), au),
    decreases j - k,
{
    if k < j {
        assert(attrs[k as int] matches Some(BitsAttr::Width(n)) && n > 0);
        let n = match attrs[k as int] {
            Some(BitsAttr::Width(n)) => n as nat,
            _ => 0,
        };
        lemma_run_walk(attrs, k + 1, j, t + n, au);
        lemma_run_sum_front(attrs, k, j);
    }
}

proof fn lemma_run_sum_front(attrs: Seq<Option<BitsAttr>>, k: nat, j: nat)
    requires
        k < j <= attrs.len(),
    ensures
        run_sum(attrs, k, j) == run_sum(attrs, k + 1, j) + match attrs[k as int] {
            Some(BitsAttr::Width(n)) => n as nat,
            _ => 0,
        },
    decreases j - k,
{
    if k + 1 < j {
        lemma_run_sum_front(attrs, k, (j - 1) as nat);
        assert(run_sum(attrs, k + 1, j) == run_sum(attrs, k + 1, (j - 1) as nat) + match attrs[j - 1] {
            Some(BitsAttr::Width(n)) => n as nat,
            _ => 0,
        });
    } else {
        assert(run_sum(attrs, k, k) == 0);
        assert(run_sum(attrs, k + 1, j) == 0);
    }
}

proof fn lemma_reach(attrs: Seq<Option<BitsAttr>>, i: nat, t: nat, au: bool, m: nat)
    requires
        completeness_from(attrs, i, t, au) is Ok,
        i < m <= attrs.len(),
        attrs[m - 1] is None,
    ensures
        completeness_from(attrs, m, 0, false) is Ok,
    decreases m - i,
{
    match attrs[i as int] {
        None => {
            if m > i + 1 {
                lemma_reach(attrs, i + 1, 0, false, m);
            }
        },
        Some(BitsAttr::Auto) => {
            if m > i + 1 {
                lemma_reach(attrs, i + 1, t, true, m);
            }
        },
        Some(BitsAttr::Width(n)) => {
            if m > i + 1 {
                lemma_reach(attrs, i + 1, t + n as nat, au, m);
            }
        },
        Some(BitsAttr::Malformed) => {},
    }
}

/// Bit fields complete whole bytes run by run: where the struct's bit
/// fields pass the check, every run of consecutive bit fields of explicit
/// widths between two fields that are not bit fields (or the ends of the
/// struct) adds up to a multiple of eight; and a run that does not is
/// refused as `Incomplete`, with its own total, whatever the runs around it
/// add up to.
pub proof fn lemma_byte_runs(attrs: Seq<Option<BitsAttr>>, k: nat, j: nat)
    requires
        width_run(attrs, k, j),
        k == 0 || attrs[k - 1] is None,
        j == attrs.len() || attrs[j as int] is None,
    ensures
        completeness_from(attrs, 0, 0, false) is Ok ==> run_sum(attrs, k, j) % 8 == 0,
        run_sum(attrs, k, j) % 8 != 0 ==> completeness_from(attrs, k, 0, false) == Err::<(), CompletenessError>(
            CompletenessError::Incomplete {
                total_bits: run_sum(attrs, k, j) as usize,
                missing_bits: (8 - run_sum(attrs, k, j) % 8) as usize,
            },
        ),
{
    lemma_run_walk(attrs, k, j, 0, false);
    if completeness_from(attrs, 0, 0, false) is Ok && k > 0 {
        lemma_reach(attrs, 0, 0, false, k);
    }
}

} // verus!
